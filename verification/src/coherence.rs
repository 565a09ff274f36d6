//! Coherence mode: a client sees single windows in place of the whole display.

use crate::pipeline::{
    clamp_to_display, clamped_size, even_size, round_to_even, unpack_display_size,
};
use crate::tracking::{is_listing, Monitor};
use crate::window_monitor::{
    fits_wire, flag_byte, law_window_round_trip, push_text, text_bytes, window_at_start,
    window_bytes, window_views, WindowEvent, WindowEventView, WindowInfo, WindowView,
};
use crate::window_pipeline::{
    start_outcome, WindowPipelineError, WindowPipelineManager, WindowStart,
};
use crate::wire::{
    be_bytes, be_value, i16_bits, lemma_be_bytes_len, lemma_be_value_2,
    lemma_be_value_of_be_bytes, lemma_byte_range, lemma_i16_bits, push_bytes, push_i16, push_u16,
    push_u32,
};
use std::collections::HashMap;
use vstd::prelude::*;
use vstd::utf8::encode_utf8;

verus! {

broadcast use vstd::std_specs::hash::group_hash_axioms;

// ---------------------------------------------------------------------------
// Window events on the wire
// ---------------------------------------------------------------------------

/// Windows on the wire, one after the other.
pub open spec fn windows_bytes(windows: Seq<WindowView>) -> Seq<u8>
    decreases windows.len(),
{
    if windows.len() == 0 {
        seq![]
    } else {
        windows_bytes(windows.drop_last()) + window_bytes(windows.last())
    }
}

/// A window event on the wire. A resize and a move are the same message, with zeros for what did
/// not change.
pub open spec fn window_event_bytes(event: WindowEventView) -> Seq<u8> {
    match event {
        WindowEventView::Snapshot(windows) => seq![0x40u8, 0x01u8] + be_bytes(
            windows.len() % 0x1_0000,
            2,
        ) + windows_bytes(windows),
        WindowEventView::Added(window) => seq![0x40u8, 0x02u8] + window_bytes(window),
        WindowEventView::Removed { window_id } => seq![0x40u8, 0x03u8] + be_bytes(
            window_id as nat,
            4,
        ),
        WindowEventView::Resized { window_id, width, height } => seq![0x40u8, 0x04u8] + be_bytes(
            window_id as nat,
            4,
        ) + be_bytes(0, 2) + be_bytes(0, 2) + be_bytes(width as nat, 2) + be_bytes(
            height as nat,
            2,
        ),
        WindowEventView::Moved { window_id, x, y } => seq![0x40u8, 0x04u8] + be_bytes(
            window_id as nat,
            4,
        ) + be_bytes(i16_bits(x), 2) + be_bytes(i16_bits(y), 2) + be_bytes(0, 2) + be_bytes(0, 2),
        WindowEventView::TitleChanged { window_id, title } => seq![0x40u8, 0x05u8] + be_bytes(
            window_id as nat,
            4,
        ) + text_bytes(title),
        WindowEventView::VisibilityChanged { window_id, visible } => seq![0x40u8, 0x06u8]
            + be_bytes(window_id as nat, 4) + seq![flag_byte(visible)],
    }
}

/// The start of a window event message.
fn event_head(subtype: u8) -> (buf: Vec<u8>)
    ensures
        buf@ == seq![0x40u8, subtype],
{
    let mut buf: Vec<u8> = Vec::new();
    buf.push(0x40);
    buf.push(subtype);
    proof {
        assert(buf@ =~= seq![0x40u8, subtype]);
    }
    buf
}

/// Appends windows, one after the other.
fn push_windows(buf: &mut Vec<u8>, windows: &Vec<WindowInfo>)
    ensures
        final(buf)@ == old(buf)@ + windows_bytes(window_views(windows@)),
{
    let ghost before = buf@;
    let ghost views = window_views(windows@);
    let mut i: usize = 0;
    proof {
        assert(before + windows_bytes(views.take(0)) =~= before);
    }
    while i < windows.len()
        invariant
            i <= windows@.len(),
            views == window_views(windows@),
            buf@ == before + windows_bytes(views.take(i as int)),
        decreases windows.len() - i,
    {
        let bytes = windows[i].serialize();
        push_bytes(buf, bytes.as_slice());
        proof {
            assert(views.take(i + 1).drop_last() =~= views.take(i as int));
            assert(views.take(i + 1).last() == windows@[i as int]@);
            assert(buf@ =~= before + windows_bytes(views.take(i + 1)));
        }
        i = i + 1;
    }
    proof {
        assert(views.take(i as int) =~= views);
    }
}

/// Serialize a WindowEvent for sending to the client over the coherence event stream.
///
/// Format: `[0x40][subtype][...payload]`
pub fn serialize_window_event(event: &WindowEvent) -> (bytes: Vec<u8>)
    ensures
        bytes@ == window_event_bytes(event@),
{
    match event {
        WindowEvent::Snapshot(windows) => {
            let mut buf = event_head(0x01);
            push_u16(&mut buf, (windows.len() % 0x1_0000) as u16);
            push_windows(&mut buf, windows);
            buf
        },
        WindowEvent::Added(info) => {
            let mut buf = event_head(0x02);
            let bytes = info.serialize();
            push_bytes(&mut buf, bytes.as_slice());
            buf
        },
        WindowEvent::Removed { window_id } => {
            let mut buf = event_head(0x03);
            push_u32(&mut buf, *window_id);
            buf
        },
        WindowEvent::Resized { window_id, width, height } => {
            let mut buf = event_head(0x04);
            push_u32(&mut buf, *window_id);
            push_u16(&mut buf, 0);
            push_u16(&mut buf, 0);
            push_u16(&mut buf, *width);
            push_u16(&mut buf, *height);
            buf
        },
        WindowEvent::Moved { window_id, x, y } => {
            let mut buf = event_head(0x04);
            push_u32(&mut buf, *window_id);
            push_i16(&mut buf, *x);
            push_i16(&mut buf, *y);
            push_u16(&mut buf, 0);
            push_u16(&mut buf, 0);
            buf
        },
        WindowEvent::TitleChanged { window_id, title } => {
            let mut buf = event_head(0x05);
            push_u32(&mut buf, *window_id);
            push_text(&mut buf, title.as_str());
            buf
        },
        WindowEvent::VisibilityChanged { window_id, visible } => {
            let mut buf = event_head(0x06);
            push_u32(&mut buf, *window_id);
            buf.push(if *visible { 1 } else { 0 });
            proof {
                assert(buf@ =~= window_event_bytes(event@));
            }
            buf
        },
    }
}

// ---------------------------------------------------------------------------
// State shared by all sessions
// ---------------------------------------------------------------------------

/// Whether windows can be captured after a series of events passed on their way to the sessions.
pub open spec fn ready_after(ready: bool, events: Seq<WindowEventView>) -> bool
    decreases events.len(),
{
    if events.len() == 0 {
        ready
    } else {
        ready_after(ready, events.drop_last()) || events.last() is Snapshot
    }
}

/// Shared state for coherence mode, shared across all sessions.
#[derive(Debug)]
pub struct CoherenceState {
    pub monitor: Monitor,
    pub pipelines: WindowPipelineManager,
    /// Set to false during resize (before Xvfb is killed), set to true when the window monitor
    /// reconnects and re-enables Composite (on a snapshot).
    pub composite_ready: bool,
    /// Current Xvfb display dimensions (packed as width << 16 | height).
    /// Used to clamp per-window resize requests so windows never exceed the virtual display
    /// bounds (which causes Composite BadMatch errors).
    pub display_size: u32,
}

impl CoherenceState {
    /// Both tables are in order.
    pub open spec fn wf(&self) -> bool {
        self.monitor.wf() && self.pipelines.wf()
    }

    /// Get the current window list as a snapshot event.
    pub fn current_snapshot(&self) -> (event: WindowEvent)
        requires
            self.wf(),
        ensures
            event matches WindowEvent::Snapshot(windows) && is_listing(
                window_views(windows@),
                self.monitor@,
            ),
    {
        WindowEvent::Snapshot(self.monitor.snapshot())
    }

    /// A window event passes on its way to the sessions: a snapshot means that the monitor is
    /// connected and windows can be captured.
    pub fn forwarded(&mut self, event: &WindowEvent)
        ensures
            final(self).composite_ready == ready_after(old(self).composite_ready, seq![event@]),
            final(self).monitor == old(self).monitor,
            final(self).pipelines == old(self).pipelines,
            final(self).display_size == old(self).display_size,
    {
        proof {
            assert(seq![event@].drop_last() =~= Seq::<WindowEventView>::empty());
            reveal_with_fuel(ready_after, 2);
        }
        if let WindowEvent::Snapshot(_) = event {
            self.composite_ready = true;
        }
    }

    /// The display is about to be restarted: no window may be captured until the next snapshot.
    /// Gives the event that tells clients that no window identifier is valid any more, and the
    /// windows whose pipelines are to be torn down.
    pub fn before_resize(&mut self) -> (told: (WindowEvent, Vec<u32>))
        requires
            old(self).wf(),
        ensures
            final(self).wf(),
            !final(self).composite_ready,
            final(self).pipelines@ == Set::<u32>::empty(),
            final(self).pipelines.same_settings(&old(self).pipelines),
            final(self).monitor == old(self).monitor,
            final(self).display_size == old(self).display_size,
            told.0@ == WindowEventView::Snapshot(seq![]),
            told.1@.to_set() == old(self).pipelines@,
            told.1@.no_duplicates(),
    {
        self.composite_ready = false;
        let ids = self.pipelines.stop_all();
        let event = WindowEvent::Snapshot(Vec::new());
        proof {
            assert(event@ == WindowEventView::Snapshot(seq![])) by {
                assert(window_views(Seq::<WindowInfo>::empty()) =~= seq![]);
            }
        }
        (event, ids)
    }
}

// ---------------------------------------------------------------------------
// Sessions
// ---------------------------------------------------------------------------

/// Per-session coherence handler: which task sends the frames of which window.
#[derive(Debug)]
pub struct CoherenceSession {
    subscriptions: HashMap<u32, u64>,
}

impl View for CoherenceSession {
    type V = Map<u32, u64>;

    closed spec fn view(&self) -> Map<u32, u64> {
        self.subscriptions@
    }
}

impl CoherenceSession {
    /// A session without subscriptions.
    pub fn new() -> (session: Self)
        ensures
            session@ == Map::<u32, u64>::empty(),
    {
        CoherenceSession { subscriptions: HashMap::new() }
    }

    /// Subscribe to a window's video stream: starts it if it does not run yet.
    pub fn subscribe_window(
        &self,
        pipelines: &mut WindowPipelineManager,
        window_id: u32,
        exists: bool,
    ) -> (start: Result<WindowStart, WindowPipelineError>)
        requires
            old(pipelines).wf(),
        ensures
            final(pipelines).wf(),
            final(pipelines).same_settings(old(pipelines)),
            start_outcome(old(pipelines), final(pipelines), window_id, exists, start),
    {
        pipelines.start_window(window_id, exists)
    }

    /// Unsubscribe from a window's video stream; gives the task to abort, if there is one. The
    /// window's pipeline goes on for other sessions.
    pub fn unsubscribe_window(&mut self, window_id: u32) -> (task: Option<u64>)
        ensures
            final(self)@ == old(self)@.remove(window_id),
            match task {
                Some(t) => old(self)@.contains_pair(window_id, t),
                None => !old(self)@.contains_key(window_id),
            },
    {
        let task = self.subscriptions.remove(&window_id);
        proof {
            assert(self@ =~= old(self)@.remove(window_id));
        }
        task
    }

    /// Track a frame sender task for a window; gives the task that it takes the place of, which
    /// is to be aborted.
    pub fn track_sender(&mut self, window_id: u32, task: u64) -> (replaced: Option<u64>)
        ensures
            final(self)@ == old(self)@.insert(window_id, task),
            match replaced {
                Some(t) => old(self)@.contains_pair(window_id, t),
                None => !old(self)@.contains_key(window_id),
            },
    {
        self.subscriptions.insert(window_id, task)
    }

    /// The size that a window is given when a client asks for one: even, as the encoder needs it,
    /// and within the display.
    pub fn resize_target(width: u16, height: u16, display_size: u32) -> (size: (u16, u16))
        ensures
            size == clamped_size(
                even_size(width),
                even_size(height),
                (display_size / 0x1_0000) as u16,
                (display_size % 0x1_0000) as u16,
            ),
    {
        let width = round_to_even(width);
        let height = round_to_even(height);
        let (display_w, display_h) = unpack_display_size(display_size);
        clamp_to_display(width, height, display_w, display_h)
    }

    /// A window was resized: its pipeline is restarted if it is streamed, since the capture does
    /// not follow a change of size by itself. A window that is not streamed is left alone.
    pub fn resize_window(
        &self,
        pipelines: &mut WindowPipelineManager,
        window_id: u32,
        exists: bool,
    ) -> (restart: Result<Option<WindowStart>, WindowPipelineError>)
        requires
            old(pipelines).wf(),
        ensures
            final(pipelines).wf(),
            final(pipelines).same_settings(old(pipelines)),
            match restart {
                Ok(Some(start)) => {
                    &&& old(pipelines)@.contains(window_id) && exists
                    &&& start matches WindowStart::Launch { description }
                    &&& description@ == old(pipelines).description_of(window_id)
                    &&& final(pipelines)@ == old(pipelines)@
                },
                Ok(None) => {
                    &&& !old(pipelines)@.contains(window_id)
                    &&& final(pipelines)@ == old(pipelines)@
                },
                Err(e) => {
                    &&& old(pipelines)@.contains(window_id) && !exists
                    &&& e == (WindowPipelineError::NoSuchWindow { window_id })
                    &&& final(pipelines)@ == old(pipelines)@.remove(window_id)
                },
            },
    {
        if !pipelines.is_streaming(window_id) {
            return Ok(None);
        }
        let ghost before = pipelines@;
        match pipelines.restart_window(window_id, exists).1 {
            Ok(start) => {
                proof {
                    assert(before.insert(window_id) =~= before);
                }
                Ok(Some(start))
            },
            Err(e) => Err(e),
        }
    }

    /// Clean up all subscriptions; gives the tasks to abort.
    pub fn cleanup(&mut self) -> (tasks: Vec<u64>)
        ensures
            final(self)@ == Map::<u32, u64>::empty(),
            tasks@.len() == old(self)@.len(),
            forall|t: u64|
                tasks@.contains(t) <==> exists|id: u32| #[trigger] old(self)@.contains_pair(id, t),
    {
        let mut tasks: Vec<u64> = Vec::new();
        let ghost mut ids: Seq<u32> = seq![];
        for id in it: self.subscriptions.keys()
            invariant
                it.seq().unref().to_set() == self.subscriptions@.dom(),
                it.seq().no_duplicates(),
                it.seq().len() == self.subscriptions@.dom().len(),
                ids.len() == it.index(),
                tasks@.len() == it.index(),
                ids.no_duplicates(),
                forall|i: int| 0 <= i < ids.len() ==> ids[i] == *(#[trigger] it.seq()[i]),
                forall|i: int|
                    0 <= i < ids.len() ==> self.subscriptions@.contains_pair(
                        ids[i],
                        #[trigger] tasks@[i],
                    ),
        {
            proof {
                assert(it.seq().unref()[it.index() as int] == *id);
                assert(it.seq().unref().to_set().contains(*id));
            }
            if let Some(task) = self.subscriptions.get(id) {
                tasks.push(*task);
                proof {
                    assert forall|j: int| 0 <= j < ids.len() implies ids[j] != *id by {
                        assert(it.seq()[j] != it.seq()[it.index() as int]);
                    }
                    ids = ids.push(*id);
                }
            }
        }
        proof {
            let held = self.subscriptions@;
            assert(ids.to_set().subset_of(held.dom())) by {
                assert forall|i: int| 0 <= i < ids.len() implies held.contains_key(
                    #[trigger] ids[i],
                ) by {
                    assert(held.contains_pair(ids[i], tasks@[i]));
                }
            }
            ids.unique_seq_to_set();
            vstd::set_lib::lemma_subset_equality(ids.to_set(), held.dom());
            assert forall|t: u64|
                tasks@.contains(t) <==> exists|id: u32| #[trigger] held.contains_pair(id, t) by {
                if exists|id: u32| #[trigger] held.contains_pair(id, t) {
                    let id = choose|id: u32| #[trigger] held.contains_pair(id, t);
                    assert(ids.to_set().contains(id));
                    let i = ids.index_of(id);
                    assert(held.contains_pair(ids[i], tasks@[i]));
                }
                if tasks@.contains(t) {
                    let i = tasks@.index_of(t);
                    assert(held.contains_pair(ids[i], tasks@[i]));
                }
            }
        }
        self.subscriptions.clear();
        proof {
            assert(self@ =~= Map::<u32, u64>::empty());
        }
        tasks
    }
}

// ---------------------------------------------------------------------------
// Laws
// ---------------------------------------------------------------------------

/// The first `count` windows that stand one after the other in `data`, and how many bytes they
/// take.
pub open spec fn windows_at_start(data: Seq<u8>, count: nat) -> Option<(Seq<WindowView>, int)>
    decreases count,
{
    if count == 0 {
        Some((seq![], 0))
    } else {
        match windows_at_start(data, (count - 1) as nat) {
            Some((windows, end)) => match window_at_start(data.skip(end)) {
                Some((window, taken)) => Some((windows.push(window), end + taken)),
                None => None,
            },
            None => None,
        }
    }
}

/// Windows that were serialized one after the other are read back one after the other.
pub proof fn law_windows_round_trip(windows: Seq<WindowView>, after: Seq<u8>)
    requires
        forall|i: int| 0 <= i < windows.len() ==> fits_wire(#[trigger] windows[i]),
    ensures
        windows_at_start(windows_bytes(windows) + after, windows.len()) == Some(
            (windows, windows_bytes(windows).len() as int),
        ),
    decreases windows.len(),
{
    let data = windows_bytes(windows) + after;
    if windows.len() == 0 {
        assert(windows =~= seq![]);
    } else {
        let before = windows.drop_last();
        let rest = window_bytes(windows.last()) + after;
        assert forall|i: int| 0 <= i < before.len() implies fits_wire(#[trigger] before[i]) by {
            assert(before[i] == windows[i]);
        }
        law_windows_round_trip(before, rest);
        assert(windows_bytes(before) + rest =~= data);
        assert(data.skip(windows_bytes(before).len() as int) =~= rest);
        law_window_round_trip(windows.last(), after);
        assert(before.push(windows.last()) =~= windows);
    }
}

/// A snapshot that was sent is read back whole: the count, then that many windows, and nothing
/// after them.
pub proof fn law_snapshot_round_trip(windows: Seq<WindowView>)
    requires
        windows.len() <= u16::MAX,
        forall|i: int| 0 <= i < windows.len() ==> fits_wire(#[trigger] windows[i]),
    ensures
        ({
            let data = window_event_bytes(WindowEventView::Snapshot(windows));
            &&& be_value(data.subrange(2, 4)) == windows.len()
            &&& windows_at_start(data.skip(4), windows.len()) == Some((windows, data.len() - 4))
        }),
{
    let data = window_event_bytes(WindowEventView::Snapshot(windows));
    lemma_byte_range();
    lemma_be_bytes_len(windows.len(), 2);
    lemma_be_value_of_be_bytes(windows.len(), 2);
    assert(data.subrange(2, 4) =~= be_bytes(windows.len(), 2));
    assert(data.skip(4) =~= windows_bytes(windows) + seq![]);
    law_windows_round_trip(windows, seq![]);
}

/// Every window event message is marked as one, and its second byte tells its kind; only a
/// resize and a move have the same.
pub proof fn law_event_kinds(event: WindowEventView)
    ensures
        window_event_bytes(event).len() >= 2,
        window_event_bytes(event)[0] == 0x40,
        window_event_bytes(event)[1] == (match event {
            WindowEventView::Snapshot(_) => 0x01u8,
            WindowEventView::Added(_) => 0x02u8,
            WindowEventView::Removed { .. } => 0x03u8,
            WindowEventView::Resized { .. } => 0x04u8,
            WindowEventView::Moved { .. } => 0x04u8,
            WindowEventView::TitleChanged { .. } => 0x05u8,
            WindowEventView::VisibilityChanged { .. } => 0x06u8,
        }),
{
}

/// Once the display is about to be restarted, windows can be captured again when the monitor has
/// taken a new snapshot, and not before.
pub proof fn law_capture_waits_for_snapshot(events: Seq<WindowEventView>)
    ensures
        ready_after(false, events) <==> exists|i: int|
            0 <= i < events.len() && (#[trigger] events[i]) is Snapshot,
    decreases events.len(),
{
    if events.len() > 0 {
        let before = events.drop_last();
        law_capture_waits_for_snapshot(before);
        if events.last() is Snapshot {
            assert(events[events.len() - 1] is Snapshot);
        } else if ready_after(false, before) {
            let i = choose|i: int| 0 <= i < before.len() && (#[trigger] before[i]) is Snapshot;
            assert(events[i] is Snapshot);
        } else {
            assert forall|i: int| 0 <= i < events.len() implies !((#[trigger] events[i])
                is Snapshot) by {
                if i < before.len() {
                    assert(before[i] == events[i]);
                }
            }
        }
    }
}

/// What each message says beyond its two first bytes, byte by byte. A window that was added is
/// there as it is in a snapshot; of one that was removed, the identifier is there. A window that
/// got another size or place is there with the identifier, the place and the size, with zeros for
/// what did not change. A title is there behind its length. Whether a window shows is 1 or 0.
pub proof fn law_event_layout(
    window_id: u32,
    place: (i16, i16),
    size: (u16, u16),
    title: Seq<char>,
    visible: bool,
)
    ensures
        ({
            let removed = window_event_bytes(WindowEventView::Removed { window_id });
            let (width, height) = size;
            let resized = window_event_bytes(WindowEventView::Resized { window_id, width, height });
            let (x, y) = place;
            let moved = window_event_bytes(WindowEventView::Moved { window_id, x, y });
            let titled = window_event_bytes(WindowEventView::TitleChanged { window_id, title });
            let shown = window_event_bytes(
                WindowEventView::VisibilityChanged { window_id, visible },
            );
            &&& removed.len() == 6 && be_value(removed.subrange(2, 6)) == window_id
            &&& resized.len() == 14 && be_value(resized.subrange(2, 6)) == window_id
            &&& forall|i: int| 6 <= i < 10 ==> #[trigger] resized[i] == 0
            &&& resized[10] * 256 + resized[11] == width
            &&& resized[12] * 256 + resized[13] == height
            &&& moved.len() == 14 && be_value(moved.subrange(2, 6)) == window_id
            &&& moved[6] * 256 + moved[7] - x == 0 || moved[6] * 256 + moved[7] - x == 65536
            &&& moved[8] * 256 + moved[9] - y == 0 || moved[8] * 256 + moved[9] - y == 65536
            &&& forall|i: int| 10 <= i < 14 ==> #[trigger] moved[i] == 0
            &&& be_value(titled.subrange(2, 6)) == window_id
            &&& titled[6] * 256 + titled[7] == encode_utf8(title).len() % 65536
            &&& titled.skip(8) == encode_utf8(title)
            &&& shown.len() == 7 && be_value(shown.subrange(2, 6)) == window_id
            &&& visible ==> shown[6] == 1
            &&& !visible ==> shown[6] == 0
        }),
{
    let (width, height) = size;
    let (x, y) = place;
    let id = be_bytes(window_id as nat, 4);
    let utf8 = encode_utf8(title);
    lemma_byte_range();
    lemma_be_bytes_len(window_id as nat, 4);
    lemma_be_value_of_be_bytes(window_id as nat, 4);
    let removed = window_event_bytes(WindowEventView::Removed { window_id });
    assert(removed.subrange(2, 6) =~= id);
    let resized = window_event_bytes(WindowEventView::Resized { window_id, width, height });
    lemma_be_bytes_len(0, 2);
    lemma_be_bytes_len(width as nat, 2);
    lemma_be_bytes_len(height as nat, 2);
    lemma_be_value_of_be_bytes(width as nat, 2);
    lemma_be_value_of_be_bytes(height as nat, 2);
    lemma_be_value_2(be_bytes(width as nat, 2));
    lemma_be_value_2(be_bytes(height as nat, 2));
    reveal_with_fuel(be_bytes, 3);
    assert(resized.subrange(2, 6) =~= id);
    let moved = window_event_bytes(WindowEventView::Moved { window_id, x, y });
    lemma_i16_bits(x);
    lemma_i16_bits(y);
    lemma_be_bytes_len(i16_bits(x), 2);
    lemma_be_bytes_len(i16_bits(y), 2);
    lemma_be_value_of_be_bytes(i16_bits(x), 2);
    lemma_be_value_of_be_bytes(i16_bits(y), 2);
    lemma_be_value_2(be_bytes(i16_bits(x), 2));
    lemma_be_value_2(be_bytes(i16_bits(y), 2));
    assert(moved.subrange(2, 6) =~= id);
    let titled = window_event_bytes(WindowEventView::TitleChanged { window_id, title });
    lemma_be_bytes_len(utf8.len() % 65536, 2);
    lemma_be_value_of_be_bytes(utf8.len() % 65536, 2);
    lemma_be_value_2(be_bytes(utf8.len() % 65536, 2));
    assert(titled.subrange(2, 6) =~= id);
    assert(titled.skip(8) =~= utf8);
    let shown = window_event_bytes(WindowEventView::VisibilityChanged { window_id, visible });
    assert(shown.subrange(2, 6) =~= id);
}

/// A window that was added is there as it is in a snapshot, and is read back whole.
pub proof fn law_added_round_trip(window: WindowView)
    requires
        fits_wire(window),
    ensures
        ({
            let data = window_event_bytes(WindowEventView::Added(window));
            window_at_start(data.skip(2)) == Some((window, data.len() - 2))
        }),
{
    let data = window_event_bytes(WindowEventView::Added(window));
    assert(data.skip(2) =~= window_bytes(window) + seq![]);
    law_window_round_trip(window, seq![]);
}

/// Window events as they come do not keep windows from being captured.
pub proof fn law_capture_goes_on(events: Seq<WindowEventView>)
    ensures
        ready_after(true, events),
    decreases events.len(),
{
    if events.len() > 0 {
        law_capture_goes_on(events.drop_last());
    }
}

} // verus!
