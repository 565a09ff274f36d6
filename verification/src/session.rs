//! One client's session: what each of its requests leads to.

use crate::coherence::{
    law_event_kinds, law_snapshot_round_trip, serialize_window_event, window_event_bytes,
    windows_at_start, CoherenceSession, CoherenceState,
};
use crate::control::{handle_control_event, ControlAction};
use crate::injection::{
    key_or_button, law_scroll_buttons, scroll_clicks, FakeInput, InputError, InputHandler, BUTTON_PRESS,
    BUTTON_RELEASE, KEY_PRESS, KEY_RELEASE, MOTION_NOTIFY,
};
use crate::input::{EventView, InputEvent};
use crate::pipeline::{clamped_size, even_size, resize_plan, PipelineManager, RestartStage};
use crate::tracking::is_listing;
use crate::window_monitor::{fits_wire, window_views, WindowEvent, WindowEventView, WindowView};
use crate::wire::{be_value, i16_from_bits};
use vstd::prelude::*;

verus! {

// ---------------------------------------------------------------------------
// Input and control
// ---------------------------------------------------------------------------

/// What an event that does not concern a single window leads to.
#[derive(Debug)]
pub enum Dispatch {
    /// Inject these events into the display.
    Inject { inputs: Vec<FakeInput> },
    /// Put this text on the clipboard of the display.
    SetClipboard { text: String },
    /// Control the pipeline.
    Control { action: ControlAction },
    /// Nothing.
    Nothing,
}

/// The XTest events that an input event is injected as; none for an event that is not injected,
/// or for a key that is not known.
pub open spec fn injected(handler: &InputHandler, event: EventView) -> Option<Seq<FakeInput>> {
    match event {
        EventView::MouseMove { x, y } => Some(
            seq![
                FakeInput {
                    event_type: MOTION_NOTIFY,
                    detail: 0,
                    root_x: i16_from_bits(x as nat),
                    root_y: i16_from_bits(y as nat),
                },
            ],
        ),
        EventView::MouseButton { button, pressed } => Some(
            seq![
                key_or_button(
                    if pressed {
                        BUTTON_PRESS
                    } else {
                        BUTTON_RELEASE
                    },
                    button,
                ),
            ],
        ),
        EventView::MouseScroll { dx, dy } => Some(scroll_clicks(dx, dy)),
        EventView::KeyEvent { code, pressed } => match handler.keycode(code) {
            Some(keycode) => Some(
                seq![
                    key_or_button(
                        if pressed {
                            KEY_PRESS
                        } else {
                            KEY_RELEASE
                        },
                        keycode,
                    ),
                ],
            ),
            None => None,
        },
        _ => None,
    }
}

/// Whether `dispatch` is what an event leads to, `before` and `after` being the pipeline manager
/// then and now.
pub open spec fn dispatched(
    event: EventView,
    handler: &InputHandler,
    before: &PipelineManager,
    after: &PipelineManager,
    dispatch: Result<Dispatch, InputError>,
) -> bool {
    match event {
        EventView::MouseMove { .. }
        | EventView::MouseButton { .. }
        | EventView::MouseScroll { .. }
        | EventView::KeyEvent { .. } => {
            &&& *after == *before
            &&& match injected(handler, event) {
                Some(expected) => dispatch matches Ok(Dispatch::Inject { inputs }) && inputs@
                    == expected,
                None => dispatch matches Err(InputError::UnknownKeyCode { code }) && event
                    matches EventView::KeyEvent { code: asked, .. } && code@ == asked,
            }
        },
        EventView::Clipboard { text } => {
            &&& *after == *before
            &&& dispatch matches Ok(Dispatch::SetClipboard { text: given }) && given@ == text
        },
        EventView::RequestKeyframe => {
            &&& *after == *before
            &&& dispatch matches Ok(Dispatch::Control { action }) && action is ForceKeyframe
        },
        EventView::SetBitrate { kbps } => {
            &&& dispatch == Ok::<Dispatch, InputError>(
                Dispatch::Control { action: ControlAction::SetBitrate { kbps } },
            )
            &&& after.current().kbps() == kbps
            &&& after.current().runs() == before.current().runs()
            &&& after.settings() == before.settings()
            &&& after.shared_size() == before.shared_size()
            &&& after.same_setup(before)
        },
        EventView::SetResolution { width, height } => {
            &&& *after == *before
            &&& dispatch == Ok::<Dispatch, InputError>(
                Dispatch::Control {
                    action: ControlAction::Resize {
                        restart: resize_plan(before.size(), width, height),
                    },
                },
            )
        },
        _ => {
            &&& *after == *before
            &&& dispatch == Ok::<Dispatch, InputError>(Dispatch::Nothing)
        },
    }
}

/// One XTest event, in a list.
fn one_input(input: FakeInput) -> (dispatch: Dispatch)
    ensures
        dispatch matches Dispatch::Inject { inputs } && inputs@ == seq![input],
{
    let mut inputs: Vec<FakeInput> = Vec::new();
    inputs.push(input);
    proof {
        assert(inputs@ =~= seq![input]);
    }
    Dispatch::Inject { inputs }
}

/// What an event that does not concern a single window leads to; events that do lead to nothing
/// here.
pub fn dispatch_event(
    event: &InputEvent,
    handler: &InputHandler,
    manager: &mut PipelineManager,
) -> (dispatch: Result<Dispatch, InputError>)
    ensures
        dispatched(event@, handler, old(manager), final(manager), dispatch),
{
    match event {
        InputEvent::MouseMove { x, y } => Ok(one_input(handler.mouse_move(*x, *y))),
        InputEvent::MouseButton { button, pressed } => Ok(
            one_input(handler.mouse_button(*button, *pressed)),
        ),
        InputEvent::MouseScroll { dx, dy } => Ok(
            Dispatch::Inject { inputs: handler.mouse_scroll(*dx, *dy) },
        ),
        InputEvent::KeyEvent { code, pressed } => match handler.key_event(
            code.as_str(),
            *pressed,
        ) {
            Ok(input) => Ok(one_input(input)),
            Err(e) => Err(e),
        },
        InputEvent::Clipboard { text } => Ok(Dispatch::SetClipboard { text: text.clone() }),
        InputEvent::RequestKeyframe
        | InputEvent::SetBitrate { .. }
        | InputEvent::SetResolution { .. } => Ok(
            Dispatch::Control { action: handle_control_event(event, manager) },
        ),
        _ => Ok(Dispatch::Nothing),
    }
}

// ---------------------------------------------------------------------------
// Windows
// ---------------------------------------------------------------------------

/// What a request leads to.
#[derive(Debug)]
pub enum SessionAction {
    /// Nothing.
    Nothing,
    /// Coherence mode is on: send this snapshot, then forward window events as they come.
    StartCoherence { snapshot: Vec<u8> },
    /// Coherence mode is off: abort these tasks.
    AbortSenders { tasks: Vec<u64> },
    /// The display is being restarted: the window cannot be captured now.
    RejectWindow { window_id: u32 },
    /// Stream this window.
    SubscribeWindow { window_id: u32 },
    /// Abort the task that sends this window's frames.
    AbortSender { task: u64 },
    /// Give the window this size, and restart its capture.
    ResizeWindow { window_id: u32, width: u16, height: u16 },
    /// Raise the window.
    FocusWindow { window_id: u32 },
    /// Ask the window to close itself.
    CloseWindow { window_id: u32 },
    /// Start a shell command in the background.
    LaunchApp { command: String },
    /// What concerns the whole display.
    Dispatched { dispatch: Dispatch },
    /// No keycode is known for this key.
    UnknownKey { code: String },
}

/// One client's session.
#[derive(Debug)]
pub struct Session {
    coherence: Option<CoherenceSession>,
}

impl Session {
    /// The tasks that send window frames, by window, while coherence mode is on.
    pub closed spec fn senders(&self) -> Option<Map<u32, u64>> {
        match self.coherence {
            Some(coherence) => Some(coherence@),
            None => None,
        }
    }

    /// A session as it begins: without coherence mode.
    pub fn new() -> (session: Self)
        ensures
            session.senders() is None,
    {
        Session { coherence: None }
    }

    /// Whether coherence mode is on.
    pub fn in_coherence_mode(&self) -> (on: bool)
        ensures
            on == (self.senders() is Some),
    {
        self.coherence.is_some()
    }

    /// What is held while coherence mode is on.
    pub fn coherence(&self) -> (coherence: Option<&CoherenceSession>)
        ensures
            match coherence {
                Some(c) => self.senders() == Some(c@),
                None => self.senders() is None,
            },
    {
        self.coherence.as_ref()
    }

    /// Takes note of the task that sends a window's frames; gives the task that it takes the
    /// place of. Outside coherence mode there is nothing to note, and the task itself is to be
    /// aborted.
    pub fn track_sender(&mut self, window_id: u32, task: u64) -> (replaced: Option<u64>)
        ensures
            match old(self).senders() {
                Some(senders) => {
                    &&& final(self).senders() == Some(senders.insert(window_id, task))
                    &&& match replaced {
                        Some(t) => senders.contains_pair(window_id, t),
                        None => !senders.contains_key(window_id),
                    }
                },
                None => final(self).senders() is None && replaced == Some(task),
            },
    {
        match self.coherence.take() {
            Some(mut coherence) => {
                let replaced = coherence.track_sender(window_id, task);
                self.coherence = Some(coherence);
                replaced
            },
            None => Some(task),
        }
    }

    /// Ends coherence mode, on request or because the client is gone; gives the tasks to abort.
    pub fn close(&mut self) -> (tasks: Vec<u64>)
        ensures
            final(self).senders() is None,
            match old(self).senders() {
                Some(senders) => tasks@.len() == senders.len() && (forall|t: u64|
                    tasks@.contains(t) <==> exists|id: u32| #[trigger] senders.contains_pair(id, t)),
                None => tasks@ == Seq::<u64>::empty(),
            },
    {
        match self.coherence.take() {
            Some(mut coherence) => coherence.cleanup(),
            None => Vec::new(),
        }
    }

    /// Turns coherence mode on; a client that has it on already is sent nothing.
    fn enable_coherence(&mut self, state: &CoherenceState) -> (action: SessionAction)
        requires
            state.wf(),
        ensures
            match old(self).senders() {
                Some(_) => action is Nothing && final(self).senders() == old(self).senders(),
                None => {
                    &&& final(self).senders() == Some(Map::<u32, u64>::empty())
                    &&& action matches SessionAction::StartCoherence { snapshot }
                    &&& is_snapshot_of(snapshot@, state)
                },
            },
    {
        if self.coherence.is_some() {
            return SessionAction::Nothing;
        }
        self.coherence = Some(CoherenceSession::new());
        let event = state.current_snapshot();
        let snapshot = serialize_window_event(&event);
        proof {
            if let WindowEvent::Snapshot(list) = event {
                let windows = window_views(list@);
                assert(is_listing(windows, state.monitor@));
                assert(event@ == WindowEventView::Snapshot(windows));
            }
        }
        SessionAction::StartCoherence { snapshot }
    }

    /// Handles one request.
    pub fn handle(
        &mut self,
        event: &InputEvent,
        state: &CoherenceState,
        handler: &InputHandler,
        manager: &mut PipelineManager,
    ) -> (action: SessionAction)
        requires
            state.wf(),
        ensures
            handled(
                event@,
                state,
                handler,
                old(self).senders(),
                final(self).senders(),
                old(manager),
                final(manager),
                action,
            ),
    {
        match event {
            InputEvent::EnableCoherence => self.enable_coherence(state),
            InputEvent::DisableCoherence => {
                if self.coherence.is_some() {
                    SessionAction::AbortSenders { tasks: self.close() }
                } else {
                    SessionAction::Nothing
                }
            },
            InputEvent::SubscribeWindow { window_id } => {
                if !state.composite_ready {
                    SessionAction::RejectWindow { window_id: *window_id }
                } else if self.coherence.is_some() {
                    SessionAction::SubscribeWindow { window_id: *window_id }
                } else {
                    SessionAction::Nothing
                }
            },
            InputEvent::UnsubscribeWindow { window_id } => {
                match self.coherence.take() {
                    Some(mut coherence) => {
                        let task = coherence.unsubscribe_window(*window_id);
                        self.coherence = Some(coherence);
                        match task {
                            Some(task) => SessionAction::AbortSender { task },
                            None => SessionAction::Nothing,
                        }
                    },
                    None => SessionAction::Nothing,
                }
            },
            InputEvent::ResizeWindow { window_id, width, height } => {
                if self.coherence.is_some() {
                    let (width, height) = CoherenceSession::resize_target(
                        *width,
                        *height,
                        state.display_size,
                    );
                    SessionAction::ResizeWindow { window_id: *window_id, width, height }
                } else {
                    SessionAction::Nothing
                }
            },
            InputEvent::FocusWindow { window_id } => {
                if self.coherence.is_some() {
                    SessionAction::FocusWindow { window_id: *window_id }
                } else {
                    SessionAction::Nothing
                }
            },
            InputEvent::CloseWindow { window_id } => {
                if self.coherence.is_some() {
                    SessionAction::CloseWindow { window_id: *window_id }
                } else {
                    SessionAction::Nothing
                }
            },
            InputEvent::LaunchApp { command } => SessionAction::LaunchApp {
                command: command.clone(),
            },
            _ => match dispatch_event(event, handler, manager) {
                Ok(dispatch) => SessionAction::Dispatched { dispatch },
                Err(InputError::UnknownKeyCode { code }) => SessionAction::UnknownKey { code },
            },
        }
    }
}

/// Whether `bytes` is a snapshot message that lists the windows of the display.
pub open spec fn is_snapshot_of(bytes: Seq<u8>, state: &CoherenceState) -> bool {
    exists|windows: Seq<WindowView>| #[trigger]
        is_listing(windows, state.monitor@) && bytes == window_event_bytes(
            WindowEventView::Snapshot(windows),
        )
}

/// Whether `action` is what a request leads to. `before` and `after` are the tasks that send
/// window frames, `then` and `now` the pipeline manager. Requests about windows are heeded in
/// coherence mode only, and a window can be subscribed to only while windows can be captured.
pub open spec fn handled(
    event: EventView,
    state: &CoherenceState,
    handler: &InputHandler,
    before: Option<Map<u32, u64>>,
    after: Option<Map<u32, u64>>,
    then: &PipelineManager,
    now: &PipelineManager,
    action: SessionAction,
) -> bool {
    match event {
        EventView::EnableCoherence => {
            &&& *now == *then
            &&& match before {
                Some(_) => action is Nothing && after == before,
                None => {
                    &&& after == Some(Map::<u32, u64>::empty())
                    &&& action matches SessionAction::StartCoherence { snapshot }
                    &&& is_snapshot_of(snapshot@, state)
                },
            }
        },
        EventView::DisableCoherence => {
            &&& *now == *then
            &&& after is None
            &&& match before {
                Some(senders) => {
                    &&& action matches SessionAction::AbortSenders { tasks }
                    &&& tasks@.len() == senders.len()
                    &&& forall|t: u64|
                        tasks@.contains(t) <==> exists|id: u32| #[trigger]
                            senders.contains_pair(id, t)
                },
                None => action is Nothing,
            }
        },
        EventView::SubscribeWindow { window_id } => {
            &&& *now == *then
            &&& after == before
            &&& if !state.composite_ready {
                action == (SessionAction::RejectWindow { window_id })
            } else if before is Some {
                action == (SessionAction::SubscribeWindow { window_id })
            } else {
                action is Nothing
            }
        },
        EventView::UnsubscribeWindow { window_id } => {
            &&& *now == *then
            &&& match before {
                Some(senders) => {
                    &&& after == Some(senders.remove(window_id))
                    &&& if senders.contains_key(window_id) {
                        action == (SessionAction::AbortSender { task: senders[window_id] })
                    } else {
                        action is Nothing
                    }
                },
                None => after is None && action is Nothing,
            }
        },
        EventView::ResizeWindow { window_id, width, height } => {
            &&& *now == *then
            &&& after == before
            &&& if before is Some {
                let (w, h) = clamped_size(
                    even_size(width),
                    even_size(height),
                    (state.display_size / 0x1_0000) as u16,
                    (state.display_size % 0x1_0000) as u16,
                );
                action == (SessionAction::ResizeWindow { window_id, width: w, height: h })
            } else {
                action is Nothing
            }
        },
        EventView::FocusWindow { window_id } => {
            &&& *now == *then
            &&& after == before
            &&& if before is Some {
                action == (SessionAction::FocusWindow { window_id })
            } else {
                action is Nothing
            }
        },
        EventView::CloseWindow { window_id } => {
            &&& *now == *then
            &&& after == before
            &&& if before is Some {
                action == (SessionAction::CloseWindow { window_id })
            } else {
                action is Nothing
            }
        },
        EventView::LaunchApp { command } => {
            &&& *now == *then
            &&& after == before
            &&& action matches SessionAction::LaunchApp { command: given } && given@ == command
        },
        _ => {
            &&& after == before
            &&& match action {
                SessionAction::Dispatched { dispatch } => dispatched(
                    event,
                    handler,
                    then,
                    now,
                    Ok(dispatch),
                ),
                SessionAction::UnknownKey { code } => dispatched(
                    event,
                    handler,
                    then,
                    now,
                    Err(InputError::UnknownKeyCode { code }),
                ),
                _ => false,
            }
        },
    }
}

// ---------------------------------------------------------------------------
// Laws
// ---------------------------------------------------------------------------

/// Whether a request is about a single window.
pub open spec fn concerns_window(event: EventView) -> bool {
    event is SubscribeWindow || event is UnsubscribeWindow || event is ResizeWindow || event
        is FocusWindow || event is CloseWindow
}

/// Outside coherence mode no request touches a window.
pub proof fn law_windows_need_coherence(
    event: EventView,
    state: &CoherenceState,
    handler: &InputHandler,
    after: Option<Map<u32, u64>>,
    then: &PipelineManager,
    now: &PipelineManager,
    action: SessionAction,
)
    requires
        concerns_window(event),
        handled(event, state, handler, None, after, then, now, action),
    ensures
        action is Nothing || action is RejectWindow,
        after is None,
        *now == *then,
{
}

/// While the display is being restarted no request starts the capture of a window.
pub proof fn law_no_capture_while_restarting(
    event: EventView,
    state: &CoherenceState,
    handler: &InputHandler,
    before: Option<Map<u32, u64>>,
    after: Option<Map<u32, u64>>,
    then: &PipelineManager,
    now: &PipelineManager,
    action: SessionAction,
)
    requires
        !state.composite_ready,
        handled(event, state, handler, before, after, then, now, action),
    ensures
        !(action is SubscribeWindow),
{
}

/// A window is never given a size beyond the display, where its size is known, nor an odd one on
/// a display of even size.
pub proof fn law_windows_fit_the_display(
    window_id: u32,
    width: u16,
    height: u16,
    state: &CoherenceState,
    handler: &InputHandler,
    before: Option<Map<u32, u64>>,
    after: Option<Map<u32, u64>>,
    then: &PipelineManager,
    now: &PipelineManager,
    action: SessionAction,
)
    requires
        handled(
            EventView::ResizeWindow { window_id, width, height },
            state,
            handler,
            before,
            after,
            then,
            now,
            action,
        ),
    ensures
        action matches SessionAction::ResizeWindow { window_id: id, width: w, height: h } ==> {
            let display_w = state.display_size / 0x1_0000;
            let display_h = state.display_size % 0x1_0000;
            &&& id == window_id
            &&& display_w > 0 && display_h > 0 ==> w <= display_w && h <= display_h
            &&& display_w % 2 == 0 && display_h % 2 == 0 ==> w % 2 == 0 && h % 2 == 0
        },
{
}

/// What an event of the pointer or the keyboard is injected as: a move as one event of type 6 with
/// the coordinates, which are taken as signed; a button as one event of type 4 if it is pressed
/// and 5 if it is released, with its number; a key as one of type 2 or 3, with its keycode. Nothing
/// but these and scrolls is injected.
pub proof fn law_injected(handler: &InputHandler, event: EventView)
    ensures
        event matches EventView::MouseMove { x, y } ==> {
            let events = injected(handler, event)->0;
            &&& injected(handler, event) is Some && events.len() == 1
            &&& events[0].event_type == 6 && events[0].detail == 0
            &&& x - events[0].root_x == 0 || x - events[0].root_x == 65536
            &&& y - events[0].root_y == 0 || y - events[0].root_y == 65536
        },
        event matches EventView::MouseButton { button, pressed } ==> injected(handler, event)
            == Some(
            seq![
                FakeInput {
                    event_type: if pressed {
                        4
                    } else {
                        5
                    },
                    detail: button,
                    root_x: 0,
                    root_y: 0,
                },
            ],
        ),
        event matches EventView::KeyEvent { code, pressed } ==> {
            &&& handler.keycode(code) is None ==> injected(handler, event) is None
            &&& handler.keycode(code) matches Some(keycode) ==> injected(handler, event) == Some(
                seq![
                    FakeInput {
                        event_type: if pressed {
                            2
                        } else {
                            3
                        },
                        detail: keycode,
                        root_x: 0,
                        root_y: 0,
                    },
                ],
            )
        },
        event matches EventView::MouseScroll { dx, dy } ==> injected(handler, event) is Some
            && injected(handler, event)->0.len() == 2 * (if dx < 0 {
            -dx
        } else {
            dx as int
        }) + 2 * (if dy < 0 {
            -dy
        } else {
            dy as int
        }),
        !(event is MouseMove || event is MouseButton || event is MouseScroll || event is KeyEvent)
            ==> injected(handler, event) is None,
{
    if let EventView::MouseScroll { dx, dy } = event {
        law_scroll_buttons(dx, dy);
    }
}

/// What a request that is about no window leads to, in coherence mode and outside it: input is
/// injected, or the name of a key that is not known is given back; a text goes to the clipboard; a
/// keyframe is asked for; a bitrate is told to the encoder and noted; a resolution leads to a
/// restart of the display, which is not carried out yet. A command is started. None of them changes
/// which windows are sent, and none but the bitrate changes the pipeline.
pub proof fn law_requests_passed_on(
    event: EventView,
    state: &CoherenceState,
    handler: &InputHandler,
    before: Option<Map<u32, u64>>,
    after: Option<Map<u32, u64>>,
    then: &PipelineManager,
    now: &PipelineManager,
    action: SessionAction,
)
    requires
        !concerns_window(event),
        !(event is EnableCoherence),
        !(event is DisableCoherence),
        handled(event, state, handler, before, after, then, now, action),
    ensures
        after == before,
        !(event is SetBitrate) ==> *now == *then,
        event is MouseMove || event is MouseButton || event is MouseScroll ==> (action matches
            SessionAction::Dispatched { dispatch: Dispatch::Inject { inputs } } && Some(inputs@)
            == injected(handler, event)),
        event matches EventView::KeyEvent { code, .. } ==> {
            &&& handler.keycode(code) is Some ==> (action matches SessionAction::Dispatched {
                dispatch: Dispatch::Inject { inputs },
            } && Some(inputs@) == injected(handler, event))
            &&& handler.keycode(code) is None ==> (action matches SessionAction::UnknownKey {
                code: unknown,
            } && unknown@ == code)
        },
        event matches EventView::Clipboard { text } ==> (action matches SessionAction::Dispatched {
            dispatch: Dispatch::SetClipboard { text: given },
        } && given@ == text),
        event is RequestKeyframe ==> (action matches SessionAction::Dispatched {
            dispatch: Dispatch::Control { action: control },
        } && control is ForceKeyframe),
        event matches EventView::SetBitrate { kbps } ==> {
            &&& action matches SessionAction::Dispatched {
                dispatch: Dispatch::Control { action: ControlAction::SetBitrate { kbps: told } },
            } && told == kbps
            &&& now.current().kbps() == kbps
            &&& now.current().runs() == then.current().runs()
            &&& now.settings() == then.settings()
        },
        event matches EventView::SetResolution { width, height } ==> {
            &&& action matches SessionAction::Dispatched {
                dispatch: Dispatch::Control { action: ControlAction::Resize { restart } },
            } && {
                &&& width % 2 == 0 && width >= 2 ==> restart.width == width
                &&& width % 2 == 1 && width < 65535 ==> restart.width == width + 1
                &&& height % 2 == 0 && height >= 2 ==> restart.height == height
                &&& height % 2 == 1 && height < 65535 ==> restart.height == height + 1
                &&& restart.stage == RestartStage::Done <==> then.size() == (
                    restart.width,
                    restart.height,
                )
            }
        },
        event matches EventView::LaunchApp { command } ==> (action matches
            SessionAction::LaunchApp { command: given } && given@ == command),
{
}

/// In coherence mode, while windows can be captured, a request about a window leads to what it
/// asks for, of the window that it names; the windows that are sent stay as they are, but for one
/// that is unsubscribed from: its task is given, if it has one, and it alone is dropped. The
/// pipeline of the display is left alone.
pub proof fn law_window_requests(
    event: EventView,
    state: &CoherenceState,
    handler: &InputHandler,
    senders: Map<u32, u64>,
    after: Option<Map<u32, u64>>,
    then: &PipelineManager,
    now: &PipelineManager,
    action: SessionAction,
)
    requires
        concerns_window(event),
        state.composite_ready,
        handled(event, state, handler, Some(senders), after, then, now, action),
    ensures
        *now == *then,
        !(event is UnsubscribeWindow) ==> after == Some(senders),
        event matches EventView::SubscribeWindow { window_id } ==> action == (
        SessionAction::SubscribeWindow { window_id }),
        event matches EventView::FocusWindow { window_id } ==> action == (
        SessionAction::FocusWindow { window_id }),
        event matches EventView::CloseWindow { window_id } ==> action == (
        SessionAction::CloseWindow { window_id }),
        event matches EventView::ResizeWindow { window_id, .. } ==> (action matches
            SessionAction::ResizeWindow { window_id: id, .. } && id == window_id),
        event matches EventView::UnsubscribeWindow { window_id } ==> {
            &&& after is Some && !after->0.contains_key(window_id)
            &&& forall|id: u32|
                id != window_id ==> (#[trigger] after->0.contains_key(id) <==> senders.contains_key(
                    id,
                ))
            &&& forall|id: u32|
                id != window_id && senders.contains_key(id) ==> #[trigger] after->0[id]
                    == senders[id]
            &&& senders.contains_key(window_id) ==> action == (SessionAction::AbortSender {
                task: senders[window_id],
            })
            &&& !senders.contains_key(window_id) ==> action is Nothing
        },
{
}

/// While the display is being restarted a window that is asked for is refused, by its identifier.
pub proof fn law_refused_while_restarting(
    window_id: u32,
    state: &CoherenceState,
    handler: &InputHandler,
    before: Option<Map<u32, u64>>,
    after: Option<Map<u32, u64>>,
    then: &PipelineManager,
    now: &PipelineManager,
    action: SessionAction,
)
    requires
        !state.composite_ready,
        handled(
            EventView::SubscribeWindow { window_id },
            state,
            handler,
            before,
            after,
            then,
            now,
            action,
        ),
    ensures
        action == (SessionAction::RejectWindow { window_id }),
        after == before,
{
}

/// The size that a window is given, where the display is large enough for it or its size is not
/// known: each side is the one that was asked for if that is even and not zero, and the next
/// number if it is odd. A side that the display is too small for is that of the display.
pub proof fn law_window_resized(
    window_id: u32,
    width: u16,
    height: u16,
    state: &CoherenceState,
    handler: &InputHandler,
    senders: Map<u32, u64>,
    after: Option<Map<u32, u64>>,
    then: &PipelineManager,
    now: &PipelineManager,
    action: SessionAction,
)
    requires
        handled(
            EventView::ResizeWindow { window_id, width, height },
            state,
            handler,
            Some(senders),
            after,
            then,
            now,
            action,
        ),
    ensures
        action matches SessionAction::ResizeWindow { window_id: id, width: w, height: h } && {
            let display_w = state.display_size / 0x1_0000;
            let display_h = state.display_size % 0x1_0000;
            let known = display_w > 0 && display_h > 0;
            &&& id == window_id
            &&& width >= 2 && width % 2 == 0 && (!known || width <= display_w) ==> w == width
            &&& width < 65535 && width % 2 == 1 && (!known || width < display_w) ==> w == width + 1
            &&& known && display_w <= width && 2 <= width < 65535 ==> w == display_w
            &&& height >= 2 && height % 2 == 0 && (!known || height <= display_h) ==> h == height
            &&& height < 65535 && height % 2 == 1 && (!known || height < display_h) ==> h == height
                + 1
            &&& known && display_h <= height && 2 <= height < 65535 ==> h == display_h
        },
{
}

/// Coherence mode is turned on once: from then on there are no senders to begin with, and a
/// snapshot of the windows is sent; turning it on again does nothing. Turning it off gives every
/// task that sends a window, and nothing else, and does nothing where it is off.
pub proof fn law_coherence_switched(
    enable: bool,
    state: &CoherenceState,
    handler: &InputHandler,
    before: Option<Map<u32, u64>>,
    after: Option<Map<u32, u64>>,
    then: &PipelineManager,
    now: &PipelineManager,
    action: SessionAction,
)
    requires
        handled(
            if enable {
                EventView::EnableCoherence
            } else {
                EventView::DisableCoherence
            },
            state,
            handler,
            before,
            after,
            then,
            now,
            action,
        ),
    ensures
        after is Some <==> enable,
        *now == *then,
        enable && before is Some ==> after == before && action is Nothing,
        enable && before is None ==> after->0.dom().is_empty() && action is StartCoherence,
        !enable && before is None ==> action is Nothing,
        !enable && before is Some ==> (action matches SessionAction::AbortSenders { tasks } && (
        forall|id: u32| #[trigger]
            before->0.contains_key(id) ==> tasks@.contains(before->0[id])) && tasks@.len()
            == before->0.len()),
{
    if !enable && before is Some {
        let senders = before->0;
        if let SessionAction::AbortSenders { tasks } = action {
            assert forall|id: u32| #[trigger] senders.contains_key(id) implies tasks@.contains(
                senders[id],
            ) by {
                assert(senders.contains_pair(id, senders[id]));
            }
        }
    }
}

/// What is sent when coherence mode is turned on is read back as the windows of the display, each
/// once: as many as the message says, if they fit its count and their texts fit their lengths.
pub proof fn law_snapshot_sent(bytes: Seq<u8>, state: &CoherenceState)
    requires
        is_snapshot_of(bytes, state),
        state.monitor@.dom().finite() && state.monitor@.len() <= 65535,
        forall|id: u32| #[trigger]
            state.monitor@.contains_key(id) ==> fits_wire(state.monitor@[id]),
    ensures
        bytes[0] == 0x40 && bytes[1] == 0x01,
        windows_at_start(bytes.skip(4), be_value(bytes.subrange(2, 4))) matches Some(
            (windows, end),
        ) && is_listing(windows, state.monitor@) && end == bytes.len() - 4,
{
    let table = state.monitor@;
    let windows = choose|windows: Seq<WindowView>| #[trigger]
        is_listing(windows, table) && bytes == window_event_bytes(
            WindowEventView::Snapshot(windows),
        );
    let ids = windows.map_values(|w: WindowView| w.window_id);
    assert(ids.no_duplicates());
    ids.unique_seq_to_set();
    assert(ids.to_set().subset_of(table.dom())) by {
        assert forall|id: u32| ids.to_set().contains(id) implies table.dom().contains(id) by {
            let i = ids.index_of(id);
            assert(table.contains_pair(windows[i].window_id, windows[i]));
        }
    }
    vstd::set_lib::lemma_len_subset(ids.to_set(), table.dom());
    assert forall|i: int| 0 <= i < windows.len() implies fits_wire(#[trigger] windows[i]) by {
        assert(table.contains_pair(windows[i].window_id, windows[i]));
        assert(table.contains_key(windows[i].window_id));
    }
    law_snapshot_round_trip(windows);
    law_event_kinds(WindowEventView::Snapshot(windows));
}

/// Outside coherence mode a request about a window leads to nothing, as long as windows can be
/// captured.
pub proof fn law_windows_ignored(
    event: EventView,
    state: &CoherenceState,
    handler: &InputHandler,
    after: Option<Map<u32, u64>>,
    then: &PipelineManager,
    now: &PipelineManager,
    action: SessionAction,
)
    requires
        concerns_window(event),
        state.composite_ready || !(event is SubscribeWindow),
        handled(event, state, handler, None, after, then, now, action),
    ensures
        action is Nothing,
        after is None,
{
}

} // verus!
