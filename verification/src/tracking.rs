//! The table of windows: what each notification of the X server changes in it, and what clients
//! are told of the change.

use crate::text::same_text;
use crate::window_monitor::{
    clone_windows, window_event_views, window_views, WindowEvent, WindowEventView, WindowInfo,
    WindowView,
};
use std::collections::HashMap;
use vstd::prelude::*;

verus! {

broadcast use vstd::std_specs::hash::group_hash_axioms;

/// A notification of the X server, as far as the monitor listens to it.
#[derive(Debug, Clone, Copy)]
pub enum XEvent {
    MapNotify { window: u32 },
    UnmapNotify { window: u32 },
    DestroyNotify { window: u32 },
    ConfigureNotify { window: u32, x: i16, y: i16, width: u16, height: u16 },
    PropertyNotify { window: u32, atom: u32 },
    ReparentNotify { window: u32, parent: u32 },
    Other,
}

/// What has to be asked of the X server before the monitor can react to a notification.
#[derive(Debug, Clone, Copy, PartialEq, Eq, Structural)]
pub enum Question {
    Nothing,
    /// The description of a window.
    Window { window: u32 },
    /// The description of a window and, if it is none to track, those of its children: it may be
    /// a frame that the window manager put round them.
    WindowOrChildren { window: u32 },
    /// The title of a window.
    Title { window: u32 },
}

/// What the X server answered. What was not asked for is left empty.
#[derive(Debug)]
pub struct Replies {
    /// The window, if it is one to track.
    pub window: Option<WindowInfo>,
    /// Those of its children that are to be tracked.
    pub children: Vec<WindowInfo>,
    pub title: String,
}

impl Replies {
    /// The answer to no question.
    pub fn none() -> (replies: Self)
        ensures
            replies.window is None,
            replies.children@ == Seq::<WindowInfo>::empty(),
            replies.title@ == Seq::<char>::empty(),
    {
        Replies { window: None, children: Vec::new(), title: String::new() }
    }
}

/// One top-level window with its children, each only if it is to be tracked.
#[derive(Debug)]
pub struct TreeWindow {
    pub window: Option<WindowInfo>,
    pub children: Vec<WindowInfo>,
}

// ---------------------------------------------------------------------------
// Tables
// ---------------------------------------------------------------------------

/// The table after an event, kept as a client keeps it that has only the events.
pub open spec fn applied(
    table: Map<u32, WindowView>,
    event: WindowEventView,
) -> Map<u32, WindowView> {
    match event {
        WindowEventView::Snapshot(windows) => listed(windows),
        WindowEventView::Added(window) => table.insert(window.window_id, window),
        WindowEventView::Removed { window_id } => table.remove(window_id),
        WindowEventView::Resized { window_id, width, height } => table.insert(
            window_id,
            WindowView { width, height, ..table[window_id] },
        ),
        WindowEventView::Moved { window_id, x, y } => table.insert(
            window_id,
            WindowView { x, y, ..table[window_id] },
        ),
        WindowEventView::TitleChanged { window_id, title } => table.insert(
            window_id,
            WindowView { title, ..table[window_id] },
        ),
        WindowEventView::VisibilityChanged { window_id, visible } => table.insert(
            window_id,
            WindowView { visible, ..table[window_id] },
        ),
    }
}

/// The table after a series of events.
pub open spec fn replayed(
    table: Map<u32, WindowView>,
    events: Seq<WindowEventView>,
) -> Map<u32, WindowView>
    decreases events.len(),
{
    if events.len() == 0 {
        table
    } else {
        applied(replayed(table, events.drop_last()), events.last())
    }
}

/// The table with the windows of a list, under their identifiers.
pub open spec fn listed(windows: Seq<WindowView>) -> Map<u32, WindowView>
    decreases windows.len(),
{
    if windows.len() == 0 {
        Map::empty()
    } else {
        listed(windows.drop_last()).insert(windows.last().window_id, windows.last())
    }
}

/// Whether a list holds every window of a table once, in whatever order.
pub open spec fn is_listing(windows: Seq<WindowView>, table: Map<u32, WindowView>) -> bool {
    &&& forall|i: int|
        0 <= i < windows.len() ==> table.contains_pair(
            (#[trigger] windows[i]).window_id,
            windows[i],
        )
    &&& forall|i: int, j: int|
        0 <= i < j < windows.len() ==> (#[trigger] windows[i]).window_id != (
        #[trigger] windows[j]).window_id
    &&& forall|id: u32| #[trigger]
        table.contains_key(id) ==> exists|i: int|
            0 <= i < windows.len() && (#[trigger] windows[i]).window_id == id
}

/// Whether every window stands under its own identifier.
pub open spec fn keyed(table: Map<u32, WindowView>) -> bool {
    forall|id: u32| #[trigger] table.contains_key(id) ==> table[id].window_id == id
}

// ---------------------------------------------------------------------------
// Reactions
// ---------------------------------------------------------------------------

/// What the monitor knows of its display besides the windows.
#[derive(Debug, Clone, Copy)]
pub struct Root {
    /// The root window.
    pub window: u32,
    /// The atoms of the two properties that hold a window's title.
    pub net_wm_name: u32,
    pub wm_name: u32,
}

/// What has to be asked before the monitor can react.
pub open spec fn question(table: Map<u32, WindowView>, root: Root, event: XEvent) -> Question {
    match event {
        XEvent::MapNotify { window } => if table.contains_key(window) {
            Question::Nothing
        } else {
            Question::WindowOrChildren { window }
        },
        XEvent::PropertyNotify { window, atom } => if window != root.window && (atom == root.net_wm_name
            || atom == root.wm_name) && table.contains_key(window) {
            Question::Title { window }
        } else {
            Question::Nothing
        },
        XEvent::ReparentNotify { window, parent } => if parent == root.window && !table.contains_key(
            window,
        ) {
            Question::Window { window }
        } else {
            Question::Nothing
        },
        _ => Question::Nothing,
    }
}

/// The windows of a list that are not in the table yet, announced in order.
pub open spec fn announced(
    table: Map<u32, WindowView>,
    windows: Seq<WindowView>,
) -> Seq<WindowEventView>
    decreases windows.len(),
{
    if windows.len() == 0 {
        seq![]
    } else {
        let before = announced(table, windows.drop_last());
        if replayed(table, before).contains_key(windows.last().window_id) {
            before
        } else {
            before.push(WindowEventView::Added(windows.last()))
        }
    }
}

/// What clients are told when a notification comes in, given the answers to its question.
pub open spec fn reaction(
    table: Map<u32, WindowView>,
    root: Root,
    event: XEvent,
    window_reply: Option<WindowView>,
    children_reply: Seq<WindowView>,
    title_reply: Seq<char>,
) -> Seq<WindowEventView> {
    match event {
        XEvent::MapNotify { window } => if table.contains_key(window) {
            if table[window].visible {
                seq![]
            } else {
                seq![WindowEventView::VisibilityChanged { window_id: window, visible: true }]
            }
        } else {
            match window_reply {
                Some(w) => seq![WindowEventView::Added(w)],
                None => announced(table, children_reply),
            }
        },
        XEvent::UnmapNotify { window } => if table.contains_key(window) && table[window].visible {
            seq![WindowEventView::VisibilityChanged { window_id: window, visible: false }]
        } else {
            seq![]
        },
        XEvent::DestroyNotify { window } => if table.contains_key(window) {
            seq![WindowEventView::Removed { window_id: window }]
        } else {
            seq![]
        },
        XEvent::ConfigureNotify { window, x, y, width, height } => if table.contains_key(window) {
            (if table[window].x != x || table[window].y != y {
                seq![WindowEventView::Moved { window_id: window, x, y }]
            } else {
                seq![]
            }) + (if table[window].width != width || table[window].height != height {
                seq![WindowEventView::Resized { window_id: window, width, height }]
            } else {
                seq![]
            })
        } else {
            seq![]
        },
        XEvent::PropertyNotify { window, atom } => if question(table, root, event) is Title
            && table[window].title != title_reply {
            seq![WindowEventView::TitleChanged { window_id: window, title: title_reply }]
        } else {
            seq![]
        },
        XEvent::ReparentNotify { window, parent } => match window_reply {
            Some(w) => if question(table, root, event) is Window {
                seq![WindowEventView::Added(w)]
            } else {
                seq![]
            },
            None => seq![],
        },
        XEvent::Other => seq![],
    }
}

/// The table that the windows of a display fill when the monitor starts. A top-level window
/// replaces what was found under its identifier, a child does not.
pub open spec fn enumerated(tree: Seq<TreeWindow>) -> Map<u32, WindowView>
    decreases tree.len(),
{
    if tree.len() == 0 {
        Map::empty()
    } else {
        let before = enumerated(tree.drop_last());
        let with_top = match tree.last().window {
            Some(w) => before.insert(w.window_id, w@),
            None => before,
        };
        replayed(with_top, announced(with_top, window_views(tree.last().children@)))
    }
}

/// The table after one event.
proof fn lemma_replayed_one(table: Map<u32, WindowView>, event: WindowEventView)
    ensures
        replayed(table, seq![event]) == applied(table, event),
{
    assert(seq![event].drop_last() =~= Seq::<WindowEventView>::empty());
    assert(replayed(table, Seq::<WindowEventView>::empty()) == table);
}

/// The table after two events.
proof fn lemma_replayed_two(
    table: Map<u32, WindowView>,
    first: WindowEventView,
    second: WindowEventView,
)
    ensures
        replayed(table, seq![first, second]) == applied(applied(table, first), second),
{
    lemma_replayed_one(table, first);
    assert(seq![first, second].drop_last() =~= seq![first]);
}

// ---------------------------------------------------------------------------
// The monitor
// ---------------------------------------------------------------------------

/// What a hash map of windows says.
pub open spec fn table_view(windows: Map<u32, WindowInfo>) -> Map<u32, WindowView> {
    windows.map_values(|w: WindowInfo| w@)
}

/// The windows that are tracked on one display.
#[derive(Debug)]
pub struct Monitor {
    root: Root,
    windows: HashMap<u32, WindowInfo>,
}

impl View for Monitor {
    type V = Map<u32, WindowView>;

    closed spec fn view(&self) -> Map<u32, WindowView> {
        table_view(self.windows@)
    }
}

impl Monitor {
    /// The display that is monitored.
    pub closed spec fn display_root(&self) -> Root {
        self.root
    }

    /// Every window stands under its own identifier.
    pub open spec fn wf(&self) -> bool {
        keyed(self@)
    }

    /// A monitor that tracks no window.
    pub fn new(root: Root) -> (monitor: Self)
        ensures
            monitor.wf(),
            monitor.display_root() == root,
            monitor@ == Map::<u32, WindowView>::empty(),
    {
        let monitor = Monitor { root, windows: HashMap::new() };
        proof {
            assert(monitor@ =~= Map::<u32, WindowView>::empty());
        }
        monitor
    }

    /// Whether a window is tracked.
    pub fn is_tracked(&self, window: u32) -> (yes: bool)
        ensures
            yes == self@.contains_key(window),
    {
        self.windows.contains_key(&window)
    }

    /// What is known of a window.
    pub fn get(&self, window: u32) -> (info: Option<&WindowInfo>)
        ensures
            match info {
                Some(w) => self@.contains_pair(window, w@),
                None => !self@.contains_key(window),
            },
    {
        self.windows.get(&window)
    }

    /// Puts a window under its identifier.
    fn put(&mut self, window: WindowInfo)
        requires
            old(self).wf(),
        ensures
            final(self).wf(),
            final(self).display_root() == old(self).display_root(),
            final(self)@ == old(self)@.insert(window.window_id, window@),
    {
        let id = window.window_id;
        let ghost before = self.windows@;
        self.windows.insert(id, window);
        proof {
            assert(self@ =~= table_view(before).insert(id, window@));
        }
    }

    /// Takes a window out.
    fn take(&mut self, window: u32) -> (info: Option<WindowInfo>)
        requires
            old(self).wf(),
        ensures
            final(self).wf(),
            final(self).display_root() == old(self).display_root(),
            final(self)@ == old(self)@.remove(window),
            match info {
                Some(w) => old(self)@.contains_pair(window, w@),
                None => !old(self)@.contains_key(window),
            },
    {
        let ghost before = self.windows@;
        let info = self.windows.remove(&window);
        proof {
            assert(self@ =~= table_view(before).remove(window));
        }
        info
    }

    /// Forgets every window: their identifiers mean nothing once the X server is gone.
    pub fn clear(&mut self)
        ensures
            final(self).wf(),
            final(self).display_root() == old(self).display_root(),
            final(self)@ == Map::<u32, WindowView>::empty(),
    {
        self.windows.clear();
        proof {
            assert(self@ =~= Map::<u32, WindowView>::empty());
        }
    }

    /// What has to be asked of the X server before [`Monitor::react`] can be called.
    pub fn question(&self, event: &XEvent) -> (asked: Question)
        ensures
            asked == question(self@, self.display_root(), *event),
    {
        match *event {
            XEvent::MapNotify { window } => if self.is_tracked(window) {
                Question::Nothing
            } else {
                Question::WindowOrChildren { window }
            },
            XEvent::PropertyNotify { window, atom } => if window != self.root.window && (atom
                == self.root.net_wm_name || atom == self.root.wm_name) && self.is_tracked(window) {
                Question::Title { window }
            } else {
                Question::Nothing
            },
            XEvent::ReparentNotify { window, parent } => if parent == self.root.window
                && !self.is_tracked(window) {
                Question::Window { window }
            } else {
                Question::Nothing
            },
            _ => Question::Nothing,
        }
    }

    /// Tracks those of the given windows that are not tracked yet; tells of each.
    fn announce(&mut self, windows: Vec<WindowInfo>) -> (events: Vec<WindowEvent>)
        requires
            old(self).wf(),
        ensures
            final(self).wf(),
            final(self).display_root() == old(self).display_root(),
            window_event_views(events@) == announced(old(self)@, window_views(windows@)),
            final(self)@ == replayed(old(self)@, window_event_views(events@)),
    {
        let ghost before = self@;
        let ghost root = self.display_root();
        let mut events: Vec<WindowEvent> = Vec::new();
        let mut i: usize = 0;
        proof {
            assert(window_event_views(events@) =~= announced(
                before,
                window_views(windows@.take(0)),
            ));
        }
        while i < windows.len()
            invariant
                i <= windows@.len(),
                self.wf(),
                self.display_root() == root,
                window_event_views(events@) == announced(
                    before,
                    window_views(windows@.take(i as int)),
                ),
                self@ == replayed(before, window_event_views(events@)),
            decreases windows.len() - i,
        {
            let ghost so_far = window_event_views(events@);
            proof {
                let next = window_views(windows@.take(i + 1));
                assert(next.drop_last() =~= window_views(windows@.take(i as int)));
                assert(next.last() == windows@[i as int]@);
            }
            if !self.is_tracked(windows[i].window_id) {
                self.put(windows[i].clone());
                events.push(WindowEvent::Added(windows[i].clone()));
                proof {
                    assert(window_event_views(events@) =~= so_far.push(
                        WindowEventView::Added(windows@[i as int]@),
                    ));
                    assert(window_event_views(events@).drop_last() =~= so_far);
                }
            }
            i = i + 1;
        }
        proof {
            assert(windows@.take(i as int) =~= windows@);
        }
        events
    }

    /// Changes nothing and tells nothing.
    fn pass(&self) -> (events: Vec<WindowEvent>)
        ensures
            window_event_views(events@) == Seq::<WindowEventView>::empty(),
            self@ == replayed(self@, window_event_views(events@)),
    {
        let events: Vec<WindowEvent> = Vec::new();
        proof {
            assert(window_event_views(events@) =~= Seq::<WindowEventView>::empty());
        }
        events
    }

    /// Tells of one change.
    fn tell(&self, Ghost(before): Ghost<Map<u32, WindowView>>, event: WindowEvent) -> (events: Vec<
        WindowEvent,
    >)
        requires
            self@ == applied(before, event@),
        ensures
            window_event_views(events@) == seq![event@],
            self@ == replayed(before, window_event_views(events@)),
    {
        let mut events: Vec<WindowEvent> = Vec::new();
        events.push(event);
        proof {
            assert(window_event_views(events@) =~= seq![event@]);
            lemma_replayed_one(before, event@);
        }
        events
    }

    /// Tracks a window, whatever was known of it; tells of it.
    fn adopt(&mut self, window: WindowInfo) -> (events: Vec<WindowEvent>)
        requires
            old(self).wf(),
        ensures
            final(self).wf(),
            final(self).display_root() == old(self).display_root(),
            window_event_views(events@) == seq![WindowEventView::Added(window@)],
            final(self)@ == replayed(old(self)@, window_event_views(events@)),
    {
        let ghost before = self@;
        self.put(window.clone());
        self.tell(Ghost(before), WindowEvent::Added(window))
    }

    /// Drops a window; tells of it if it was tracked.
    fn forget(&mut self, window: u32) -> (events: Vec<WindowEvent>)
        requires
            old(self).wf(),
        ensures
            final(self).wf(),
            final(self).display_root() == old(self).display_root(),
            window_event_views(events@) == (if old(self)@.contains_key(window) {
                seq![WindowEventView::Removed { window_id: window }]
            } else {
                seq![]
            }),
            final(self)@ == replayed(old(self)@, window_event_views(events@)),
    {
        let ghost before = self@;
        if self.take(window).is_some() {
            self.tell(Ghost(before), WindowEvent::Removed { window_id: window })
        } else {
            proof {
                assert(self@ =~= before);
            }
            self.pass()
        }
    }

    /// Marks a window as visible or not; tells of it if that is new.
    fn show(&mut self, window: u32, visible: bool) -> (events: Vec<WindowEvent>)
        requires
            old(self).wf(),
        ensures
            final(self).wf(),
            final(self).display_root() == old(self).display_root(),
            window_event_views(events@) == (if old(self)@.contains_key(window) && old(
                self,
            )@[window].visible != visible {
                seq![WindowEventView::VisibilityChanged { window_id: window, visible }]
            } else {
                seq![]
            }),
            final(self)@ == replayed(old(self)@, window_event_views(events@)),
    {
        let ghost before = self@;
        if let Some(mut info) = self.take(window) {
            let changed = info.visible != visible;
            info.visible = visible;
            self.put(info);
            if changed {
                let event = WindowEvent::VisibilityChanged { window_id: window, visible };
                proof {
                    assert(self@ =~= applied(before, event@));
                }
                return self.tell(Ghost(before), event);
            }
        }
        proof {
            assert(self@ =~= before);
        }
        self.pass()
    }

    /// Gives a window a title; tells of it if that is new.
    fn retitle(&mut self, window: u32, title: String) -> (events: Vec<WindowEvent>)
        requires
            old(self).wf(),
        ensures
            final(self).wf(),
            final(self).display_root() == old(self).display_root(),
            window_event_views(events@) == (if old(self)@.contains_key(window) && old(
                self,
            )@[window].title != title@ {
                seq![WindowEventView::TitleChanged { window_id: window, title: title@ }]
            } else {
                seq![]
            }),
            final(self)@ == replayed(old(self)@, window_event_views(events@)),
    {
        let ghost before = self@;
        if let Some(mut info) = self.take(window) {
            let changed = !same_text(title.as_str(), info.title.as_str());
            if changed {
                info.title = title.clone();
            }
            self.put(info);
            if changed {
                let event = WindowEvent::TitleChanged { window_id: window, title };
                proof {
                    assert(self@ =~= applied(before, event@));
                }
                return self.tell(Ghost(before), event);
            }
        }
        proof {
            assert(self@ =~= before);
        }
        self.pass()
    }

    /// Gives a window a place and a size; tells of each that is new, of the place first.
    fn configure(&mut self, window: u32, x: i16, y: i16, width: u16, height: u16) -> (events: Vec<
        WindowEvent,
    >)
        requires
            old(self).wf(),
        ensures
            final(self).wf(),
            final(self).display_root() == old(self).display_root(),
            window_event_views(events@) == reaction(
                old(self)@,
                old(self).display_root(),
                XEvent::ConfigureNotify { window, x, y, width, height },
                None,
                seq![],
                seq![],
            ),
            final(self)@ == replayed(old(self)@, window_event_views(events@)),
    {
        let ghost before = self@;
        let mut events: Vec<WindowEvent> = Vec::new();
        if let Some(mut info) = self.take(window) {
            let moved = info.x != x || info.y != y;
            let resized = info.width != width || info.height != height;
            info.x = x;
            info.y = y;
            info.width = width;
            info.height = height;
            self.put(info);
            let ghost place = WindowEventView::Moved { window_id: window, x, y };
            let ghost size = WindowEventView::Resized { window_id: window, width, height };
            if moved {
                events.push(WindowEvent::Moved { window_id: window, x, y });
            }
            if resized {
                events.push(WindowEvent::Resized { window_id: window, width, height });
            }
            proof {
                let views = window_event_views(events@);
                lemma_replayed_one(before, place);
                lemma_replayed_one(before, size);
                lemma_replayed_two(before, place, size);
                if moved && resized {
                    assert(views =~= seq![place] + seq![size]);
                    assert(views =~= seq![place, size]);
                    assert(self@ =~= applied(applied(before, place), size));
                } else if moved {
                    assert(views =~= seq![place] + seq![]);
                    assert(views =~= seq![place]);
                    assert(self@ =~= applied(before, place));
                } else if resized {
                    assert(views =~= seq![] + seq![size]);
                    assert(views =~= seq![size]);
                    assert(self@ =~= applied(before, size));
                } else {
                    assert(views =~= Seq::<WindowEventView>::empty() + seq![]);
                    assert(views =~= seq![]);
                    assert(self@ =~= before);
                }
            }
        } else {
            proof {
                assert(self@ =~= before);
                assert(window_event_views(events@) =~= Seq::<WindowEventView>::empty());
            }
        }
        events
    }

    /// Reacts to a notification: brings the table up to date and gives the events that clients
    /// are to be sent. `replies` answer the [`Monitor::question`] for the same notification.
    pub fn react(&mut self, event: &XEvent, replies: Replies) -> (events: Vec<WindowEvent>)
        requires
            old(self).wf(),
        ensures
            final(self).wf(),
            final(self).display_root() == old(self).display_root(),
            window_event_views(events@) == reaction(
                old(self)@,
                old(self).display_root(),
                *event,
                match replies.window {
                    Some(w) => Some(w@),
                    None => None,
                },
                window_views(replies.children@),
                replies.title@,
            ),
            final(self)@ == replayed(old(self)@, window_event_views(events@)),
    {
        let asked = self.question(event);
        match *event {
            XEvent::MapNotify { window } => if self.is_tracked(window) {
                self.show(window, true)
            } else {
                match replies.window {
                    Some(info) => self.adopt(info),
                    None => self.announce(replies.children),
                }
            },
            XEvent::UnmapNotify { window } => self.show(window, false),
            XEvent::DestroyNotify { window } => self.forget(window),
            XEvent::ConfigureNotify { window, x, y, width, height } => self.configure(
                window,
                x,
                y,
                width,
                height,
            ),
            XEvent::PropertyNotify { window, .. } => match asked {
                Question::Title { .. } => self.retitle(window, replies.title),
                _ => self.pass(),
            },
            XEvent::ReparentNotify { .. } => match (asked, replies.window) {
                (Question::Window { .. }, Some(info)) => self.adopt(info),
                _ => self.pass(),
            },
            XEvent::Other => self.pass(),
        }
    }

    /// Tracks the windows of a display that were there before the monitor.
    pub fn enumerate_windows(root: Root, tree: &Vec<TreeWindow>) -> (monitor: Self)
        ensures
            monitor.wf(),
            monitor.display_root() == root,
            monitor@ == enumerated(tree@),
    {
        let mut monitor = Monitor::new(root);
        let mut i: usize = 0;
        while i < tree.len()
            invariant
                i <= tree@.len(),
                monitor.wf(),
                monitor.display_root() == root,
                monitor@ == enumerated(tree@.take(i as int)),
            decreases tree.len() - i,
        {
            proof {
                assert(tree@.take(i + 1).drop_last() =~= tree@.take(i as int));
            }
            if let Some(info) = &tree[i].window {
                monitor.put(info.clone());
            }
            let children = clone_windows(&tree[i].children);
            monitor.announce(children);
            i = i + 1;
        }
        proof {
            assert(tree@.take(i as int) =~= tree@);
        }
        monitor
    }

    /// The tracked windows, in no particular order.
    pub fn snapshot(&self) -> (windows: Vec<WindowInfo>)
        requires
            self.wf(),
        ensures
            is_listing(window_views(windows@), self@),
    {
        let mut windows: Vec<WindowInfo> = Vec::new();
        let ghost mut ids: Seq<u32> = seq![];
        for id in it: self.windows.keys()
            invariant
                self.wf(),
                it.seq().unref().to_set() == self.windows@.dom(),
                it.seq().no_duplicates(),
                it.seq().len() == self.windows@.dom().len(),
                ids.len() == it.index(),
                ids.len() == windows@.len(),
                ids.no_duplicates(),
                forall|i: int| 0 <= i < ids.len() ==> ids[i] == *(#[trigger] it.seq()[i]),
                forall|i: int|
                    0 <= i < ids.len() ==> self@.contains_pair(ids[i], (#[trigger] windows@[i])@),
        {
            proof {
                assert(it.seq().unref()[it.index() as int] == *id);
                assert(it.seq().unref().to_set().contains(*id));
            }
            if let Some(info) = self.windows.get(id) {
                windows.push(info.clone());
                proof {
                    assert forall|j: int| 0 <= j < ids.len() implies ids[j] != *id by {
                        assert(it.seq()[j] != it.seq()[it.index() as int]);
                    }
                    ids = ids.push(*id);
                }
            }
        }
        proof {
            assert(ids.to_set().subset_of(self.windows@.dom())) by {
                assert forall|i: int| 0 <= i < ids.len() implies self.windows@.contains_key(
                    #[trigger] ids[i],
                ) by {
                    assert(self@.contains_pair(ids[i], windows@[i]@));
                }
            }
            ids.unique_seq_to_set();
            vstd::set_lib::lemma_subset_equality(ids.to_set(), self.windows@.dom());
            let views = window_views(windows@);
            assert forall|id: u32| #[trigger] self@.contains_key(id) implies exists|i: int|
                0 <= i < views.len() && (#[trigger] views[i]).window_id == id by {
                assert(ids.to_set().contains(id));
                let i = ids.index_of(id);
                assert(views[i] == windows@[i]@);
            }
            assert forall|i: int| 0 <= i < views.len() implies self@.contains_pair(
                (#[trigger] views[i]).window_id,
                views[i],
            ) && views[i].window_id == ids[i] by {
                assert(views[i] == windows@[i]@);
                assert(self@.contains_pair(ids[i], windows@[i]@));
            }
        }
        windows
    }
}

// ---------------------------------------------------------------------------
// Laws
// ---------------------------------------------------------------------------

/// What a list without repeated identifiers puts into a table.
proof fn lemma_listed(windows: Seq<WindowView>)
    requires
        forall|i: int, j: int|
            0 <= i < j < windows.len() ==> (#[trigger] windows[i]).window_id != (
            #[trigger] windows[j]).window_id,
    ensures
        forall|i: int|
            0 <= i < windows.len() ==> listed(windows).contains_pair(
                (#[trigger] windows[i]).window_id,
                windows[i],
            ),
        forall|id: u32| #[trigger]
            listed(windows).contains_key(id) ==> exists|i: int|
                0 <= i < windows.len() && (#[trigger] windows[i]).window_id == id,
    decreases windows.len(),
{
    if windows.len() > 0 {
        let before = windows.drop_last();
        lemma_listed(before);
        assert forall|i: int| 0 <= i < windows.len() implies listed(windows).contains_pair(
            (#[trigger] windows[i]).window_id,
            windows[i],
        ) by {
            if i < before.len() {
                assert(before[i] == windows[i]);
                assert(windows[i].window_id != windows[windows.len() - 1].window_id);
            }
        }
        assert forall|id: u32| #[trigger] listed(windows).contains_key(id) implies exists|i: int|
            0 <= i < windows.len() && (#[trigger] windows[i]).window_id == id by {
            if id == windows.last().window_id {
                assert(windows[windows.len() - 1].window_id == id);
            } else {
                assert(listed(before).contains_key(id));
                let i = choose|i: int|
                    0 <= i < before.len() && (#[trigger] before[i]).window_id == id;
                assert(windows[i] == before[i]);
            }
        }
    }
}

/// A client that takes a snapshot has the table that the snapshot lists, whatever it had before
/// and in whatever order the snapshot is.
pub proof fn law_snapshot_mirrors(
    had: Map<u32, WindowView>,
    windows: Seq<WindowView>,
    table: Map<u32, WindowView>,
)
    requires
        is_listing(windows, table),
    ensures
        applied(had, WindowEventView::Snapshot(windows)) == table,
{
    lemma_listed(windows);
    let mirror = listed(windows);
    assert forall|id: u32| mirror.contains_key(id) <==> table.contains_key(id) by {
        if mirror.contains_key(id) {
            let i = choose|i: int|
                0 <= i < windows.len() && (#[trigger] windows[i]).window_id == id;
            assert(table.contains_pair(windows[i].window_id, windows[i]));
        }
        if table.contains_key(id) {
            let i = choose|i: int|
                0 <= i < windows.len() && (#[trigger] windows[i]).window_id == id;
            assert(mirror.contains_pair(windows[i].window_id, windows[i]));
        }
    }
    assert forall|id: u32| mirror.contains_key(id) implies mirror[id] == table[id] by {
        let i = choose|i: int| 0 <= i < windows.len() && (#[trigger] windows[i]).window_id == id;
        assert(mirror.contains_pair(windows[i].window_id, windows[i]));
        assert(table.contains_pair(windows[i].window_id, windows[i]));
    }
    assert(mirror =~= table);
}

/// A client that joins with a snapshot and is sent every event after it has the table that the
/// monitor has.
pub proof fn law_client_mirrors_monitor(
    had: Map<u32, WindowView>,
    windows: Seq<WindowView>,
    table: Map<u32, WindowView>,
    events: Seq<WindowEventView>,
)
    requires
        is_listing(windows, table),
    ensures
        replayed(had, seq![WindowEventView::Snapshot(windows)] + events) == replayed(table, events),
    decreases events.len(),
{
    let snapshot = WindowEventView::Snapshot(windows);
    if events.len() == 0 {
        assert(seq![snapshot] + events =~= seq![snapshot]);
        lemma_replayed_one(had, snapshot);
        law_snapshot_mirrors(had, windows, table);
    } else {
        law_client_mirrors_monitor(had, windows, table, events.drop_last());
        assert((seq![snapshot] + events).drop_last() =~= seq![snapshot] + events.drop_last());
    }
}

/// Announcing windows that are new enlarges the table.
proof fn lemma_announced(table: Map<u32, WindowView>, windows: Seq<WindowView>)
    ensures
        table.dom().subset_of(replayed(table, announced(table, windows)).dom()),
        announced(table, windows).len() > 0 ==> !(replayed(
            table,
            announced(table, windows),
        ).dom() =~= table.dom()),
    decreases windows.len(),
{
    if windows.len() > 0 {
        let before = announced(table, windows.drop_last());
        let events = announced(table, windows);
        lemma_announced(table, windows.drop_last());
        if events.len() != before.len() {
            assert(events.drop_last() =~= before);
            assert(replayed(table, events).contains_key(windows.last().window_id));
        }
    }
}

/// Clients are told nothing but changes: where a reaction tells anything, the table is not what
/// it was.
pub proof fn law_events_report_changes(
    table: Map<u32, WindowView>,
    root: Root,
    event: XEvent,
    window_reply: Option<WindowView>,
    children_reply: Seq<WindowView>,
    title_reply: Seq<char>,
)
    requires
        window_reply matches Some(w) ==> !table.contains_key(w.window_id),
    ensures
        ({
            let events = reaction(
                table,
                root,
                event,
                window_reply,
                children_reply,
                title_reply,
            );
            events.len() > 0 ==> replayed(table, events) != table
        }),
{
    let events = reaction(table, root, event, window_reply, children_reply, title_reply);
    lemma_announced(table, children_reply);
    if events.len() == 1 {
        assert(events =~= seq![events[0]]);
        lemma_replayed_one(table, events[0]);
    }
    if let XEvent::ConfigureNotify { window, x, y, width, height } = event {
        let place = WindowEventView::Moved { window_id: window, x, y };
        let size = WindowEventView::Resized { window_id: window, width, height };
        if events.len() == 2 {
            assert(events =~= seq![place, size]);
            lemma_replayed_two(table, place, size);
            assert(replayed(table, events)[window].x != table[window].x || replayed(
                table,
                events,
            )[window].y != table[window].y);
        }
    }
}

/// After a notification that a window was configured, a tracked window stands at exactly the place
/// and size of the notification; all else that is known of it, and every other window, is as it
/// was. Clients are told of a new place if either coordinate changed, and of a new size if either
/// side did.
pub proof fn law_configured(
    table: Map<u32, WindowView>,
    root: Root,
    window: u32,
    x: i16,
    y: i16,
    width: u16,
    height: u16,
    replies: (Option<WindowView>, Seq<WindowView>, Seq<char>),
)
    ensures
        ({
            let event = XEvent::ConfigureNotify { window, x, y, width, height };
            let told = reaction(table, root, event, replies.0, replies.1, replies.2);
            let after = replayed(table, told);
            &&& question(table, root, event) == Question::Nothing
            &&& !table.contains_key(window) ==> told.len() == 0 && after == table
            &&& table.contains_key(window) ==> {
                let had = table[window];
                &&& after == table.insert(window, after[window])
                &&& after[window].x == x
                &&& after[window].y == y
                &&& after[window].width == width
                &&& after[window].height == height
                &&& after[window].window_id == had.window_id
                &&& after[window].title == had.title
                &&& after[window].visible == had.visible
                &&& after[window].app_class == had.app_class
                &&& told.contains(WindowEventView::Moved { window_id: window, x, y }) <==> had.x
                    != x || had.y != y
                &&& told.contains(
                    WindowEventView::Resized { window_id: window, width, height },
                ) <==> had.width != width || had.height != height
                &&& told.len() <= 2
            }
        }),
{
    let event = XEvent::ConfigureNotify { window, x, y, width, height };
    let told = reaction(table, root, event, replies.0, replies.1, replies.2);
    let after = replayed(table, told);
    let place = WindowEventView::Moved { window_id: window, x, y };
    let size = WindowEventView::Resized { window_id: window, width, height };
    if table.contains_key(window) {
        let moved = table[window].x != x || table[window].y != y;
        let grown = table[window].width != width || table[window].height != height;
        if moved && grown {
            assert(told =~= seq![place, size]);
            lemma_replayed_two(table, place, size);
            assert(told[0] == place && told[1] == size);
        } else if moved {
            assert(told =~= seq![place]);
            lemma_replayed_one(table, place);
            assert(told[0] == place);
        } else if grown {
            assert(told =~= seq![size]);
            lemma_replayed_one(table, size);
            assert(told[0] == size);
        } else {
            assert(told =~= seq![]);
        }
        assert(after =~= table.insert(window, after[window]));
    }
}

/// After a notification that a window was mapped or unmapped, a tracked window shows or does not;
/// all else is as it was. Clients are told if that is news, and of nothing else.
pub proof fn law_shown(
    table: Map<u32, WindowView>,
    root: Root,
    window: u32,
    visible: bool,
    replies: (Option<WindowView>, Seq<WindowView>, Seq<char>),
)
    requires
        table.contains_key(window),
    ensures
        ({
            let event = if visible {
                XEvent::MapNotify { window }
            } else {
                XEvent::UnmapNotify { window }
            };
            let told = reaction(table, root, event, replies.0, replies.1, replies.2);
            let after = replayed(table, told);
            &&& question(table, root, event) == Question::Nothing
            &&& after == table.insert(window, after[window])
            &&& after[window].visible == visible
            &&& after[window] == (WindowView {
                visible: after[window].visible,
                ..table[window]
            })
            &&& table[window].visible == visible ==> told.len() == 0
            &&& table[window].visible != visible ==> told == seq![
                WindowEventView::VisibilityChanged { window_id: window, visible },
            ]
        }),
{
    let event = if visible {
        XEvent::MapNotify { window }
    } else {
        XEvent::UnmapNotify { window }
    };
    let told = reaction(table, root, event, replies.0, replies.1, replies.2);
    let change = WindowEventView::VisibilityChanged { window_id: window, visible };
    lemma_replayed_one(table, change);
    if table[window].visible != visible {
        assert(told =~= seq![change]);
    } else {
        assert(told =~= seq![]);
        assert(table =~= table.insert(window, table[window]));
    }
}

/// After a notification that a window was destroyed it is not in the table, and every other window
/// is as it was. Clients are told if it was tracked.
pub proof fn law_destroyed(
    table: Map<u32, WindowView>,
    root: Root,
    window: u32,
    replies: (Option<WindowView>, Seq<WindowView>, Seq<char>),
)
    ensures
        ({
            let event = XEvent::DestroyNotify { window };
            let told = reaction(table, root, event, replies.0, replies.1, replies.2);
            let after = replayed(table, told);
            &&& question(table, root, event) == Question::Nothing
            &&& !after.contains_key(window)
            &&& forall|id: u32|
                id != window ==> (#[trigger] after.contains_key(id) <==> table.contains_key(id))
            &&& forall|id: u32|
                id != window && table.contains_key(id) ==> #[trigger] after[id] == table[id]
            &&& table.contains_key(window) ==> told == seq![
                WindowEventView::Removed { window_id: window },
            ]
            &&& !table.contains_key(window) ==> told.len() == 0
        }),
{
    lemma_replayed_one(table, WindowEventView::Removed { window_id: window });
}

/// After a notification that a title property of a tracked window changed, the window has the
/// title that the X server gave on being asked; all else is as it was. Clients are told if the
/// title is another. A change of any other property, or of the root window, is passed over.
pub proof fn law_retitled(
    table: Map<u32, WindowView>,
    root: Root,
    window: u32,
    atom: u32,
    replies: (Option<WindowView>, Seq<WindowView>, Seq<char>),
)
    ensures
        ({
            let event = XEvent::PropertyNotify { window, atom };
            let title = replies.2;
            let told = reaction(table, root, event, replies.0, replies.1, title);
            let after = replayed(table, told);
            let of_title = atom == root.net_wm_name || atom == root.wm_name;
            &&& of_title && window != root.window && table.contains_key(window) ==> {
                &&& question(table, root, event) == (Question::Title { window })
                &&& after == table.insert(window, after[window])
                &&& after[window].title == title
                &&& after[window] == (WindowView { title: after[window].title, ..table[window] })
                &&& table[window].title == title ==> told.len() == 0
                &&& table[window].title != title ==> told == seq![
                    WindowEventView::TitleChanged { window_id: window, title },
                ]
            }
            &&& !of_title || window == root.window || !table.contains_key(window) ==> {
                &&& question(table, root, event) == Question::Nothing
                &&& told.len() == 0
                &&& after == table
            }
        }),
{
    let event = XEvent::PropertyNotify { window, atom };
    let title = replies.2;
    let told = reaction(table, root, event, replies.0, replies.1, title);
    let change = WindowEventView::TitleChanged { window_id: window, title };
    lemma_replayed_one(table, change);
    if table.contains_key(window) && told.len() == 0 {
        assert(table =~= table.insert(window, table[window]));
    }
}

/// A window that is not tracked comes into the table when it is mapped, or is moved to the root
/// window, and the X server describes it as one to track; clients are told of it. Nothing comes of
/// a move to another parent, of a move of a window that is tracked, or of a window that is none to
/// track and has no children that are.
pub proof fn law_adopted(
    table: Map<u32, WindowView>,
    root: Root,
    window: u32,
    parent: u32,
    described: WindowView,
    replies: (Seq<WindowView>, Seq<char>),
)
    requires
        described.window_id == window,
    ensures
        ({
            let mapped = XEvent::MapNotify { window };
            let moved = XEvent::ReparentNotify { window, parent };
            let reply = Some(described);
            let told_map = reaction(table, root, mapped, reply, replies.0, replies.1);
            let told_move = reaction(table, root, moved, reply, replies.0, replies.1);
            let told_none = reaction(table, root, moved, None, replies.0, replies.1);
            &&& !table.contains_key(window) ==> {
                &&& question(table, root, mapped) == (Question::WindowOrChildren { window })
                &&& told_map == seq![WindowEventView::Added(described)]
                &&& replayed(table, told_map) == table.insert(window, described)
                &&& parent == root.window ==> {
                    &&& question(table, root, moved) == (Question::Window { window })
                    &&& told_move == seq![WindowEventView::Added(described)]
                    &&& replayed(table, told_move) == table.insert(window, described)
                }
            }
            &&& table.contains_key(window) || parent != root.window ==> {
                &&& question(table, root, moved) == Question::Nothing
                &&& told_move.len() == 0
            }
            &&& told_none.len() == 0
            &&& reaction(table, root, XEvent::Other, reply, replies.0, replies.1).len() == 0
            &&& question(table, root, XEvent::Other) == Question::Nothing
        }),
{
    lemma_replayed_one(table, WindowEventView::Added(described));
}

/// Windows that were tracked stay as they were when a list is announced, and of each window of the
/// list that was not tracked, what the list says first comes into the table.
proof fn lemma_announced_table(table: Map<u32, WindowView>, windows: Seq<WindowView>)
    ensures
        ({
            let after = replayed(table, announced(table, windows));
            &&& forall|id: u32| #[trigger]
                after.contains_key(id) <==> table.contains_key(id) || exists|i: int|
                    0 <= i < windows.len() && (#[trigger] windows[i]).window_id == id
            &&& forall|id: u32| #[trigger]
                table.contains_key(id) ==> after[id] == table[id]
            &&& forall|i: int|
                0 <= i < windows.len() && !table.contains_key((#[trigger] windows[i]).window_id)
                    && (forall|j: int|
                    0 <= j < i ==> (#[trigger] windows[j]).window_id != windows[i].window_id)
                    ==> after[windows[i].window_id] == windows[i]
        }),
    decreases windows.len(),
{
    if windows.len() > 0 {
        let fewer = windows.drop_last();
        let last = windows.last();
        lemma_announced_table(table, fewer);
        let middle = replayed(table, announced(table, fewer));
        let after = replayed(table, announced(table, windows));
        assert(announced(table, windows).drop_last() =~= announced(table, fewer)
            || announced(table, windows) == announced(table, fewer));
        assert(after =~= (if middle.contains_key(last.window_id) {
            middle
        } else {
            middle.insert(last.window_id, last)
        }));
        assert forall|id: u32| #[trigger]
            after.contains_key(id) <==> table.contains_key(id) || exists|i: int|
                0 <= i < windows.len() && (#[trigger] windows[i]).window_id == id by {
            if exists|i: int| 0 <= i < windows.len() && (#[trigger] windows[i]).window_id == id {
                let i = choose|i: int|
                    0 <= i < windows.len() && (#[trigger] windows[i]).window_id == id;
                if i < fewer.len() {
                    assert(fewer[i] == windows[i]);
                }
            }
            if exists|i: int| 0 <= i < fewer.len() && (#[trigger] fewer[i]).window_id == id {
                let i = choose|i: int|
                    0 <= i < fewer.len() && (#[trigger] fewer[i]).window_id == id;
                assert(windows[i] == fewer[i]);
            }
            if id == last.window_id {
                assert(windows[windows.len() - 1].window_id == id);
            }
        }
        assert forall|i: int|
            0 <= i < windows.len() && !table.contains_key((#[trigger] windows[i]).window_id) && (
            forall|j: int|
                0 <= j < i ==> (#[trigger] windows[j]).window_id
                    != windows[i].window_id) implies after[windows[i].window_id] == windows[i] by {
            if i < fewer.len() {
                assert(fewer[i] == windows[i]);
                assert forall|j: int| 0 <= j < i implies (#[trigger] fewer[j]).window_id
                    != fewer[i].window_id by {
                    assert(fewer[j] == windows[j]);
                }
                assert(middle.contains_key(fewer[i].window_id));
            } else {
                if middle.contains_key(last.window_id) {
                    let j = choose|j: int|
                        0 <= j < fewer.len() && (#[trigger] fewer[j]).window_id == last.window_id;
                    assert(windows[j] == fewer[j]);
                }
            }
        }
    }
}

/// When a frame of the window manager is mapped, those of its children that are to be tracked and
/// are not yet come into the table, and no others: a window that was tracked stays as it was, one
/// that was not is what the list says of it first.
pub proof fn law_children_adopted(
    table: Map<u32, WindowView>,
    root: Root,
    window: u32,
    children: Seq<WindowView>,
    title: Seq<char>,
)
    requires
        !table.contains_key(window),
    ensures
        ({
            let event = XEvent::MapNotify { window };
            let after = replayed(table, reaction(table, root, event, None, children, title));
            &&& forall|id: u32| #[trigger]
                after.contains_key(id) <==> table.contains_key(id) || exists|i: int|
                    0 <= i < children.len() && (#[trigger] children[i]).window_id == id
            &&& forall|id: u32| #[trigger]
                table.contains_key(id) ==> after[id] == table[id]
            &&& forall|i: int|
                0 <= i < children.len() && !table.contains_key((#[trigger] children[i]).window_id)
                    && (forall|j: int|
                    0 <= j < i ==> (#[trigger] children[j]).window_id != children[i].window_id)
                    ==> after[children[i].window_id] == children[i]
        }),
{
    lemma_announced_table(table, children);
}

/// Every window that is found on the display when the monitor starts is in the table, a top-level
/// window as it was described last, and nothing is in the table that was not found.
pub proof fn law_enumerated(tree: Seq<TreeWindow>)
    ensures
        forall|i: int|
            0 <= i < tree.len() && (#[trigger] tree[i]).window is Some ==> enumerated(
                tree,
            ).contains_key(tree[i].window->0.window_id),
        forall|i: int, j: int|
            0 <= i < tree.len() && 0 <= j < tree[i].children@.len() ==> enumerated(
                tree,
            ).contains_key((#[trigger] tree[i].children@[j]).window_id),
        forall|id: u32| #[trigger]
            enumerated(tree).contains_key(id) ==> (exists|i: int|
                0 <= i < tree.len() && (#[trigger] tree[i]).window is Some
                    && tree[i].window->0.window_id == id) || (exists|i: int, j: int|
                0 <= i < tree.len() && 0 <= j < tree[i].children@.len() && (
                #[trigger] tree[i].children@[j]).window_id == id),
        forall|i: int|
            0 <= i < tree.len() && (#[trigger] tree[i]).window is Some && (forall|k: int|
                i < k < tree.len() ==> !((#[trigger] tree[k]).window matches Some(w) && w.window_id
                    == tree[i].window->0.window_id)) ==> enumerated(
                tree,
            )[tree[i].window->0.window_id] == tree[i].window->0@,
    decreases tree.len(),
{
    if tree.len() > 0 {
        let fewer = tree.drop_last();
        let last = tree.last();
        law_enumerated(fewer);
        let before = enumerated(fewer);
        let with_top = match last.window {
            Some(w) => before.insert(w.window_id, w@),
            None => before,
        };
        let children = window_views(last.children@);
        lemma_announced_table(with_top, children);
        let after = enumerated(tree);
        assert(after == replayed(with_top, announced(with_top, children)));
        assert forall|i: int|
            0 <= i < tree.len() && (#[trigger] tree[i]).window is Some implies after.contains_key(
            tree[i].window->0.window_id,
        ) by {
            if i < fewer.len() {
                assert(fewer[i] == tree[i]);
                assert(with_top.contains_key(tree[i].window->0.window_id));
            }
        }
        assert forall|i: int, j: int|
            0 <= i < tree.len() && 0 <= j < tree[i].children@.len() implies after.contains_key(
            (#[trigger] tree[i].children@[j]).window_id,
        ) by {
            if i < fewer.len() {
                assert(fewer[i] == tree[i]);
                assert(before.contains_key(fewer[i].children@[j].window_id));
                assert(with_top.contains_key(tree[i].children@[j].window_id));
            } else {
                assert(children[j].window_id == last.children@[j].window_id);
            }
        }
        assert forall|id: u32| #[trigger] after.contains_key(id) implies (exists|i: int|
            0 <= i < tree.len() && (#[trigger] tree[i]).window is Some
                && tree[i].window->0.window_id == id) || (exists|i: int, j: int|
            0 <= i < tree.len() && 0 <= j < tree[i].children@.len() && (
            #[trigger] tree[i].children@[j]).window_id == id) by {
            if !with_top.contains_key(id) {
                let j = choose|j: int|
                    0 <= j < children.len() && (#[trigger] children[j]).window_id == id;
                assert(tree[tree.len() - 1].children@[j].window_id == id);
            } else if last.window matches Some(w) && w.window_id == id {
                assert(tree[tree.len() - 1].window is Some);
            } else {
                assert(before.contains_key(id));
                if exists|i: int|
                    0 <= i < fewer.len() && (#[trigger] fewer[i]).window is Some
                        && fewer[i].window->0.window_id == id {
                    let i = choose|i: int|
                        0 <= i < fewer.len() && (#[trigger] fewer[i]).window is Some
                            && fewer[i].window->0.window_id == id;
                    assert(tree[i] == fewer[i]);
                } else {
                    let (i, j) = choose|i: int, j: int|
                        0 <= i < fewer.len() && 0 <= j < fewer[i].children@.len() && (
                        #[trigger] fewer[i].children@[j]).window_id == id;
                    assert(tree[i] == fewer[i]);
                    assert(tree[i].children@[j].window_id == id);
                }
            }
        }
        assert forall|i: int|
            0 <= i < tree.len() && (#[trigger] tree[i]).window is Some && (forall|k: int|
                i < k < tree.len() ==> !((#[trigger] tree[k]).window matches Some(w) && w.window_id
                    == tree[i].window->0.window_id)) implies after[tree[i].window->0.window_id]
            == tree[i].window->0@ by {
            let id = tree[i].window->0.window_id;
            if i < fewer.len() {
                assert(fewer[i] == tree[i]);
                assert forall|k: int| i < k < fewer.len() implies !((#[trigger] fewer[k]).window
                    matches Some(w) && w.window_id == fewer[i].window->0.window_id) by {
                    assert(fewer[k] == tree[k]);
                }
                assert(before[id] == tree[i].window->0@);
                assert(!(tree[tree.len() - 1].window matches Some(w) && w.window_id == id));
                assert(with_top.contains_key(id));
            }
            assert(with_top.contains_key(id));
        }
    }
}

/// Of a window that is not in the table, nothing is told when it is unmapped, destroyed or
/// configured or its properties change, nothing is asked, and the table stays as it is.
pub proof fn law_strangers_passed_over(
    table: Map<u32, WindowView>,
    root: Root,
    event: XEvent,
    window: u32,
    replies: (Option<WindowView>, Seq<WindowView>, Seq<char>),
)
    requires
        !table.contains_key(window),
        ({
            ||| event == (XEvent::UnmapNotify { window })
            ||| event == (XEvent::DestroyNotify { window })
            ||| event matches XEvent::ConfigureNotify { window: id, .. } && id == window
            ||| event matches XEvent::PropertyNotify { window: id, .. } && id == window
        }),
    ensures
        question(table, root, event) == Question::Nothing,
        reaction(table, root, event, replies.0, replies.1, replies.2).len() == 0,
        replayed(table, reaction(table, root, event, replies.0, replies.1, replies.2)) == table,
{
}

} // verus!
