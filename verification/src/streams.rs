//! The loops that carry frames and events to a client, as state machines: what each does next,
//! given what came out of its channels.

use crate::text::same_text;
use vstd::prelude::*;

verus! {

/// What came out of a broadcast channel.
#[derive(Debug, Clone, Copy, PartialEq, Eq, Structural)]
pub enum Received {
    /// An item.
    Item,
    /// Notice that items were lost, because the receiver was too slow.
    Lagged,
    /// Notice that there is no sender any more.
    Closed,
}

// ---------------------------------------------------------------------------
// Frames of the display
// ---------------------------------------------------------------------------

/// What happens to the loop that sends the frames of the display.
#[derive(Debug, Clone, Copy, PartialEq, Eq, Structural)]
pub enum SenderEvent {
    /// Something came out of the frame channel.
    Frame(Received),
    /// A frame was sent, or could not be.
    Sent { ok: bool },
    /// A new pipeline was published.
    PipelinePublished,
    /// There will be no new pipeline.
    ManagerDropped,
}

/// What the loop does next.
#[derive(Debug, Clone, Copy, PartialEq, Eq, Structural)]
pub enum SenderAction {
    /// Subscribe to the frames of the pipeline that was published last, and wait for them.
    Subscribe,
    /// Wait for the next frame, or for a new pipeline.
    Receive,
    /// Send the frame that came.
    SendFrame,
    /// Wait for a new pipeline: the frames of the last one are at an end, and the next may not be
    /// published yet.
    AwaitPipeline,
    /// End.
    Stop,
}

/// Where the loop stands.
#[derive(Debug, Clone, Copy, PartialEq, Eq, Structural)]
pub enum SenderState {
    Streaming,
    AwaitingPipeline,
    Stopped,
}

/// The state after an event, and what is done on it.
pub open spec fn sender_step(state: SenderState, event: SenderEvent) -> (
    SenderState,
    SenderAction,
) {
    match (state, event) {
        (SenderState::Stopped, _) => (SenderState::Stopped, SenderAction::Stop),
        (_, SenderEvent::ManagerDropped) => (SenderState::Stopped, SenderAction::Stop),
        (_, SenderEvent::PipelinePublished) => (SenderState::Streaming, SenderAction::Subscribe),
        (SenderState::AwaitingPipeline, _) => (
            SenderState::AwaitingPipeline,
            SenderAction::AwaitPipeline,
        ),
        (SenderState::Streaming, SenderEvent::Frame(Received::Item)) => (
            SenderState::Streaming,
            SenderAction::SendFrame,
        ),
        (SenderState::Streaming, SenderEvent::Frame(Received::Lagged)) => (
            SenderState::Streaming,
            SenderAction::Receive,
        ),
        (SenderState::Streaming, SenderEvent::Frame(Received::Closed)) => (
            SenderState::AwaitingPipeline,
            SenderAction::AwaitPipeline,
        ),
        (SenderState::Streaming, SenderEvent::Sent { ok }) => if ok {
            (SenderState::Streaming, SenderAction::Receive)
        } else {
            (SenderState::Stopped, SenderAction::Stop)
        },
    }
}

/// The state after a series of events.
pub open spec fn sender_after(state: SenderState, events: Seq<SenderEvent>) -> SenderState
    decreases events.len(),
{
    if events.len() == 0 {
        state
    } else {
        sender_step(sender_after(state, events.drop_last()), events.last()).0
    }
}

/// The loop that sends the frames of the display to one client. It outlives pipelines: when one
/// ends it waits for the next to be published.
#[derive(Debug)]
pub struct VideoSender {
    state: SenderState,
}

impl VideoSender {
    /// Where the loop stands.
    pub closed spec fn stands(&self) -> SenderState {
        self.state
    }

    /// A loop at its beginning: the first thing it does is to subscribe.
    pub fn new() -> (sender: Self)
        ensures
            sender.stands() == SenderState::Streaming,
    {
        VideoSender { state: SenderState::Streaming }
    }

    /// Goes on after an event; says what to do.
    pub fn step(&mut self, event: SenderEvent) -> (action: SenderAction)
        ensures
            (final(self).stands(), action) == sender_step(old(self).stands(), event),
    {
        match (self.state, event) {
            (SenderState::Stopped, _) => SenderAction::Stop,
            (_, SenderEvent::ManagerDropped) => {
                self.state = SenderState::Stopped;
                SenderAction::Stop
            },
            (_, SenderEvent::PipelinePublished) => {
                self.state = SenderState::Streaming;
                SenderAction::Subscribe
            },
            (SenderState::AwaitingPipeline, _) => SenderAction::AwaitPipeline,
            (SenderState::Streaming, SenderEvent::Frame(Received::Item)) => SenderAction::SendFrame,
            (SenderState::Streaming, SenderEvent::Frame(Received::Lagged)) => SenderAction::Receive,
            (SenderState::Streaming, SenderEvent::Frame(Received::Closed)) => {
                self.state = SenderState::AwaitingPipeline;
                SenderAction::AwaitPipeline
            },
            (SenderState::Streaming, SenderEvent::Sent { ok }) => {
                if ok {
                    SenderAction::Receive
                } else {
                    self.state = SenderState::Stopped;
                    SenderAction::Stop
                }
            },
        }
    }
}

// ---------------------------------------------------------------------------
// Frames of a window
// ---------------------------------------------------------------------------

/// What comes to the loop that sends the frames of a window.
#[derive(Debug, Clone, Copy, PartialEq, Eq, Structural)]
pub enum WindowFrame {
    Keyframe,
    Delta,
    /// Frames were lost.
    Lost,
}

/// Whether frames pass after something came: a keyframe lets them, a loss stops them.
pub open spec fn still_passing(open: bool, frame: WindowFrame) -> bool {
    match frame {
        WindowFrame::Keyframe => true,
        WindowFrame::Delta => open,
        WindowFrame::Lost => false,
    }
}

/// Whether frames pass after a series.
pub open spec fn passing_after(frames: Seq<WindowFrame>) -> bool
    decreases frames.len(),
{
    if frames.len() == 0 {
        false
    } else {
        still_passing(passing_after(frames.drop_last()), frames.last())
    }
}

/// Whether the frame at `i` of a series is sent.
pub open spec fn is_sent(frames: Seq<WindowFrame>, i: int) -> bool {
    frames[i] != WindowFrame::Lost && passing_after(frames.take(i + 1))
}

/// Holds frames back until the first keyframe, and again after a loss: a decoder can do nothing
/// with what builds on frames that it never got.
#[derive(Debug)]
pub struct KeyframeFilter {
    seen_keyframe: bool,
}

impl KeyframeFilter {
    /// Whether frames pass.
    pub closed spec fn is_open(&self) -> bool {
        self.seen_keyframe
    }

    /// The start of a stream: no frame passes yet.
    pub fn new() -> (filter: Self)
        ensures
            !filter.is_open(),
    {
        KeyframeFilter { seen_keyframe: false }
    }

    /// Takes note of a frame; says whether it is to be sent.
    pub fn passes(&mut self, is_keyframe: bool) -> (send: bool)
        ensures
            send == (is_keyframe || old(self).is_open()),
            final(self).is_open() == still_passing(
                old(self).is_open(),
                if is_keyframe {
                    WindowFrame::Keyframe
                } else {
                    WindowFrame::Delta
                },
            ),
            send == final(self).is_open(),
            forall|frames: Seq<WindowFrame>|
                old(self).is_open() == #[trigger] passing_after(frames) ==> send == is_sent(
                    frames.push(
                        if is_keyframe {
                            WindowFrame::Keyframe
                        } else {
                            WindowFrame::Delta
                        },
                    ),
                    frames.len() as int,
                ),
    {
        if is_keyframe {
            self.seen_keyframe = true;
        }
        proof {
            let frame = if is_keyframe {
                WindowFrame::Keyframe
            } else {
                WindowFrame::Delta
            };
            assert forall|frames: Seq<WindowFrame>|
                old(self).is_open() == #[trigger] passing_after(frames) implies self.seen_keyframe
                == is_sent(frames.push(frame), frames.len() as int) by {
                assert(frames.push(frame).take(frames.len() as int + 1) =~= frames.push(frame));
                assert(frames.push(frame).drop_last() =~= frames);
            }
        }
        self.seen_keyframe
    }

    /// Takes note of a loss.
    pub fn lagged(&mut self)
        ensures
            final(self).is_open() == still_passing(old(self).is_open(), WindowFrame::Lost),
    {
        self.seen_keyframe = false;
    }
}

// ---------------------------------------------------------------------------
// Relays
// ---------------------------------------------------------------------------

/// What a loop does that passes on all that comes, until it cannot.
#[derive(Debug, Clone, Copy, PartialEq, Eq, Structural)]
pub enum RelayAction {
    /// Send what came. If that fails, stop.
    Send,
    /// Go on with what comes next.
    Skip,
    /// End.
    Stop,
}

/// What a relay does with what came.
pub open spec fn relayed(received: Received) -> RelayAction {
    match received {
        Received::Item => RelayAction::Send,
        Received::Lagged => RelayAction::Skip,
        Received::Closed => RelayAction::Stop,
    }
}

/// What a relay does with what came: a loss is passed over, the end of the channel ends it.
pub fn relay_step(received: Received) -> (action: RelayAction)
    ensures
        action == relayed(received),
        action == (match received {
            Received::Item => RelayAction::Send,
            Received::Lagged => RelayAction::Skip,
            Received::Closed => RelayAction::Stop,
        }),
{
    match received {
        Received::Item => RelayAction::Send,
        Received::Lagged => RelayAction::Skip,
        Received::Closed => RelayAction::Stop,
    }
}

/// What waiting for one event comes to.
#[derive(Debug, Clone, Copy, PartialEq, Eq, Structural)]
pub enum NextEvent {
    /// Give out the event that came.
    Deliver,
    /// Wait once more.
    Retry,
    /// There is no event.
    End,
}

/// What waiting for one event comes to, when it was tried before or not.
pub open spec fn awaited(retried: bool, received: Received) -> NextEvent {
    match received {
        Received::Item => NextEvent::Deliver,
        Received::Lagged => if retried {
            NextEvent::End
        } else {
            NextEvent::Retry
        },
        Received::Closed => NextEvent::End,
    }
}

/// What waiting for one event comes to: after a loss it is tried once more, and only once.
pub fn next_event_step(retried: bool, received: Received) -> (next: NextEvent)
    ensures
        next == awaited(retried, received),
        next == (match received {
            Received::Item => NextEvent::Deliver,
            Received::Lagged => if retried {
                NextEvent::End
            } else {
                NextEvent::Retry
            },
            Received::Closed => NextEvent::End,
        }),
{
    match received {
        Received::Item => NextEvent::Deliver,
        Received::Lagged => if retried {
            NextEvent::End
        } else {
            NextEvent::Retry
        },
        Received::Closed => NextEvent::End,
    }
}

// ---------------------------------------------------------------------------
// Input of a client
// ---------------------------------------------------------------------------

/// How many bytes of a client's input are read at once, at most.
pub const READ_BUFFER: usize = 4096;

/// Where the receiver of a client's input stands.
#[derive(Debug, Clone, Copy, PartialEq, Eq, Structural)]
pub enum ReceiverState {
    /// Without a stream to read.
    Idle,
    /// With a stream to read.
    Reading,
    /// The connection is gone.
    Closed,
}

/// What happens to the receiver.
#[derive(Debug, Clone, Copy, PartialEq, Eq, Structural)]
pub enum ReceiverEvent {
    /// The stream gave this many bytes.
    Read { len: usize },
    /// The stream is at its end, or broke.
    StreamEnded,
    /// A stream was accepted.
    StreamAccepted,
    /// The connection accepts no more streams.
    AcceptFailed,
}

/// What the receiver does next.
#[derive(Debug, Clone, Copy, PartialEq, Eq, Structural)]
pub enum ReceiverAction {
    /// Read from the stream.
    Read,
    /// Accept a stream.
    Accept,
    /// Give out the bytes that were read.
    Deliver { len: usize },
    /// Say that the session is closed.
    SayClosed,
}

/// What a receiver does when it is asked for input.
pub open spec fn receiver_start(state: ReceiverState) -> ReceiverAction {
    match state {
        ReceiverState::Idle => ReceiverAction::Accept,
        ReceiverState::Reading => ReceiverAction::Read,
        ReceiverState::Closed => ReceiverAction::SayClosed,
    }
}

/// The state after an event, and what is done on it. An empty read ends the stream.
pub open spec fn receiver_step(state: ReceiverState, event: ReceiverEvent) -> (
    ReceiverState,
    ReceiverAction,
) {
    match (state, event) {
        (ReceiverState::Closed, _) => (ReceiverState::Closed, ReceiverAction::SayClosed),
        (_, ReceiverEvent::Read { len }) => if len > 0 {
            (state, ReceiverAction::Deliver { len })
        } else {
            (ReceiverState::Idle, ReceiverAction::Accept)
        },
        (_, ReceiverEvent::StreamEnded) => (ReceiverState::Idle, ReceiverAction::Accept),
        (_, ReceiverEvent::StreamAccepted) => (ReceiverState::Reading, ReceiverAction::Read),
        (_, ReceiverEvent::AcceptFailed) => (ReceiverState::Closed, ReceiverAction::SayClosed),
    }
}

/// The state after a series of events.
pub open spec fn receiver_after(state: ReceiverState, events: Seq<ReceiverEvent>) -> ReceiverState
    decreases events.len(),
{
    if events.len() == 0 {
        state
    } else {
        receiver_step(receiver_after(state, events.drop_last()), events.last()).0
    }
}

/// Receives a client's input from the streams that it opens, one after the other.
#[derive(Debug)]
pub struct InputReceiver {
    state: ReceiverState,
}

impl InputReceiver {
    /// Where the receiver stands.
    pub closed spec fn stands(&self) -> ReceiverState {
        self.state
    }

    /// A receiver for a new connection.
    pub fn new() -> (receiver: Self)
        ensures
            receiver.stands() == ReceiverState::Idle,
    {
        InputReceiver { state: ReceiverState::Idle }
    }

    /// What to do first when input is asked for.
    pub fn start(&self) -> (action: ReceiverAction)
        ensures
            action == receiver_start(self.stands()),
    {
        match self.state {
            ReceiverState::Idle => ReceiverAction::Accept,
            ReceiverState::Reading => ReceiverAction::Read,
            ReceiverState::Closed => ReceiverAction::SayClosed,
        }
    }

    /// Goes on after an event; says what to do.
    pub fn step(&mut self, event: ReceiverEvent) -> (action: ReceiverAction)
        ensures
            (final(self).stands(), action) == receiver_step(old(self).stands(), event),
    {
        if let ReceiverState::Closed = self.state {
            return ReceiverAction::SayClosed;
        }
        match event {
            ReceiverEvent::Read { len } => {
                if len > 0 {
                    ReceiverAction::Deliver { len }
                } else {
                    self.state = ReceiverState::Idle;
                    ReceiverAction::Accept
                }
            },
            ReceiverEvent::StreamEnded => {
                self.state = ReceiverState::Idle;
                ReceiverAction::Accept
            },
            ReceiverEvent::StreamAccepted => {
                self.state = ReceiverState::Reading;
                ReceiverAction::Read
            },
            ReceiverEvent::AcceptFailed => {
                self.state = ReceiverState::Closed;
                ReceiverAction::SayClosed
            },
        }
    }
}

/// Whether a WebRTC data channel carries input, going by its label.
pub fn carries_input(label: &str) -> (yes: bool)
    ensures
        yes == (label@ == "input"@),
{
    same_text(label, "input")
}

/// Whether a message on an input channel is passed on: an empty one is not.
pub fn passes_on(message: &[u8]) -> (yes: bool)
    ensures
        yes == (message@.len() > 0),
{
    message.len() > 0
}

// ---------------------------------------------------------------------------
// Laws
// ---------------------------------------------------------------------------

/// Once the frames of a pipeline are at an end, nothing but a new pipeline makes the loop
/// subscribe: it never goes back to the channel that was closed.
pub proof fn law_no_stale_subscription(events: Seq<SenderEvent>)
    requires
        !events.contains(SenderEvent::PipelinePublished),
    ensures
        sender_after(SenderState::AwaitingPipeline, events) != SenderState::Streaming,
    decreases events.len(),
{
    if events.len() > 0 {
        let before = events.drop_last();
        assert(events.contains(events.last()));
        assert forall|i: int| 0 <= i < before.len() implies before[i]
            != SenderEvent::PipelinePublished by {
            assert(events.contains(events[i]));
        }
        law_no_stale_subscription(before);
    }
}

/// A new pipeline is subscribed to whether it was published before the frames of the last one
/// ended or after, as often as that happens.
pub proof fn law_restart_is_followed(before: Seq<SenderEvent>)
    requires
        sender_after(SenderState::Streaming, before) != SenderState::Stopped,
    ensures
        ({
            let closed = SenderEvent::Frame(Received::Closed);
            let published = SenderEvent::PipelinePublished;
            &&& sender_after(SenderState::Streaming, before.push(published))
                == SenderState::Streaming
            &&& sender_after(SenderState::Streaming, before.push(closed).push(published))
                == SenderState::Streaming
            &&& sender_step(
                sender_after(SenderState::Streaming, before.push(closed)),
                published,
            ).1 == SenderAction::Subscribe
        }),
{
    let closed = SenderEvent::Frame(Received::Closed);
    let published = SenderEvent::PipelinePublished;
    assert(before.push(published).drop_last() =~= before);
    assert(before.push(closed).drop_last() =~= before);
    assert(before.push(closed).push(published).drop_last() =~= before.push(closed));
}

/// A loop that ended stays at its end.
pub proof fn law_stopped_is_final(events: Seq<SenderEvent>)
    ensures
        sender_after(SenderState::Stopped, events) == SenderState::Stopped,
    decreases events.len(),
{
    if events.len() > 0 {
        law_stopped_is_final(events.drop_last());
    }
}

/// A receiver is closed from the first time on that a stream could not be accepted, and for no
/// other reason: streams that end or break do not close it.
pub proof fn law_closed_when_accept_failed(events: Seq<ReceiverEvent>)
    ensures
        receiver_after(ReceiverState::Idle, events) == ReceiverState::Closed <==> events.contains(
            ReceiverEvent::AcceptFailed,
        ),
    decreases events.len(),
{
    if events.len() > 0 {
        let before = events.drop_last();
        law_closed_when_accept_failed(before);
        if before.contains(ReceiverEvent::AcceptFailed) {
            let i = before.index_of(ReceiverEvent::AcceptFailed);
            assert(events[i] == ReceiverEvent::AcceptFailed);
        }
        if events.last() == ReceiverEvent::AcceptFailed {
            assert(events[events.len() - 1] == ReceiverEvent::AcceptFailed);
        } else if events.contains(ReceiverEvent::AcceptFailed) {
            let i = events.index_of(ReceiverEvent::AcceptFailed);
            assert(before[i] == ReceiverEvent::AcceptFailed);
        }
    }
}

/// What a client's input comes to, whatever happened `before` and on whatever `event` comes then.
/// Once the receiver has said that the session is closed, it says so every time that it is asked,
/// and on every event. It gives out bytes only where a stream gave that many, never none, and no
/// more than one read gives. It does not report that a stream ended, or broke, or gave nothing: it
/// accepts the next one.
pub proof fn law_input_receiver(
    before: Seq<ReceiverEvent>,
    between: Seq<ReceiverEvent>,
    event: ReceiverEvent,
)
    ensures
        ({
            let state = receiver_after(ReceiverState::Idle, before);
            let (next, action) = receiver_step(state, event);
            let later = receiver_after(next, between);
            &&& action == ReceiverAction::SayClosed || receiver_start(state)
                == ReceiverAction::SayClosed ==> {
                &&& receiver_start(later) == ReceiverAction::SayClosed
                &&& forall|e: ReceiverEvent| #[trigger]
                    receiver_step(later, e) == (ReceiverState::Closed, ReceiverAction::SayClosed)
            }
            &&& action matches ReceiverAction::Deliver { len } ==> len > 0 && event
                == (ReceiverEvent::Read { len })
            &&& (event matches ReceiverEvent::Read { len: n } ==> n <= READ_BUFFER) ==> (action
                matches ReceiverAction::Deliver { len } ==> 1 <= len <= READ_BUFFER)
            &&& (state != ReceiverState::Closed && (event == ReceiverEvent::StreamEnded || event
                == (ReceiverEvent::Read { len: 0 }))) ==> {
                &&& action == ReceiverAction::Accept
                &&& receiver_start(next) == ReceiverAction::Accept
            }
        }),
{
    let state = receiver_after(ReceiverState::Idle, before);
    let (next, action) = receiver_step(state, event);
    if next == ReceiverState::Closed {
        lemma_closed_is_final(between);
    }
}

/// A closed receiver stays closed.
proof fn lemma_closed_is_final(events: Seq<ReceiverEvent>)
    ensures
        receiver_after(ReceiverState::Closed, events) == ReceiverState::Closed,
    decreases events.len(),
{
    if events.len() > 0 {
        lemma_closed_is_final(events.drop_last());
    }
}

/// Conversely, while the connection accepts streams, bytes that a stream gave are given out.
pub proof fn law_read_is_delivered(before: Seq<ReceiverEvent>, len: usize)
    requires
        !before.contains(ReceiverEvent::AcceptFailed),
        len > 0,
    ensures
        receiver_step(
            receiver_after(ReceiverState::Idle, before),
            ReceiverEvent::Read { len },
        ).1 == (ReceiverAction::Deliver { len }),
{
    law_closed_when_accept_failed(before);
}

/// Where frames pass, a keyframe came, and nothing was lost since.
proof fn lemma_passing_after(frames: Seq<WindowFrame>)
    requires
        passing_after(frames),
    ensures
        exists|k: int|
            0 <= k < frames.len() && #[trigger] frames[k] == WindowFrame::Keyframe && (forall|j:
                int| k < j < frames.len() ==> #[trigger] frames[j] != WindowFrame::Lost),
    decreases frames.len(),
{
    let last = frames.len() - 1;
    if frames.last() == WindowFrame::Keyframe {
        assert(frames[last] == WindowFrame::Keyframe);
    } else {
        let before = frames.drop_last();
        lemma_passing_after(before);
        let k = choose|k: int|
            0 <= k < before.len() && #[trigger] before[k] == WindowFrame::Keyframe && (forall|j:
                int| k < j < before.len() ==> #[trigger] before[j] != WindowFrame::Lost);
        assert(frames[k] == before[k]);
        assert forall|j: int| k < j < frames.len() implies #[trigger] frames[j]
            != WindowFrame::Lost by {
            if j < before.len() {
                assert(before[j] == frames[j]);
            }
        }
    }
}

/// Every frame that is sent comes after a keyframe, or is one, with nothing lost in between.
pub proof fn law_no_delta_without_keyframe(frames: Seq<WindowFrame>, i: int)
    requires
        0 <= i < frames.len(),
        is_sent(frames, i),
    ensures
        exists|k: int|
            0 <= k <= i && #[trigger] frames[k] == WindowFrame::Keyframe && (forall|j: int|
                k < j <= i ==> #[trigger] frames[j] != WindowFrame::Lost),
{
    let so_far = frames.take(i + 1);
    lemma_passing_after(so_far);
    let k = choose|k: int|
        0 <= k < so_far.len() && #[trigger] so_far[k] == WindowFrame::Keyframe && (forall|j: int|
            k < j < so_far.len() ==> #[trigger] so_far[j] != WindowFrame::Lost);
    assert(frames[k] == so_far[k]);
    assert forall|j: int| k < j <= i implies #[trigger] frames[j] != WindowFrame::Lost by {
        assert(so_far[j] == frames[j]);
    }
}

/// No keyframe is held back.
pub proof fn law_every_keyframe_is_sent(frames: Seq<WindowFrame>, i: int)
    requires
        0 <= i < frames.len(),
        frames[i] == WindowFrame::Keyframe,
    ensures
        is_sent(frames, i),
{
    assert(frames.take(i + 1).last() == frames[i]);
}

/// Frames pass after a series with a keyframe and no loss since.
proof fn lemma_passes_since(frames: Seq<WindowFrame>, k: int)
    requires
        0 <= k < frames.len(),
        frames[k] == WindowFrame::Keyframe,
        forall|j: int| k <= j < frames.len() ==> #[trigger] frames[j] != WindowFrame::Lost,
    ensures
        passing_after(frames),
    decreases frames.len(),
{
    let before = frames.drop_last();
    if k < before.len() {
        assert forall|j: int| k <= j < before.len() implies #[trigger] before[j]
            != WindowFrame::Lost by {
            assert(before[j] == frames[j]);
        }
        lemma_passes_since(before, k);
        assert(frames.last() == frames[frames.len() - 1]);
    }
}

/// A frame that comes after a keyframe is sent, if nothing was lost since the keyframe: once
/// frames pass, they pass until a loss.
pub proof fn law_frames_after_keyframe_are_sent(frames: Seq<WindowFrame>, k: int, i: int)
    requires
        0 <= k <= i < frames.len(),
        frames[k] == WindowFrame::Keyframe,
        forall|j: int| k <= j <= i ==> #[trigger] frames[j] != WindowFrame::Lost,
    ensures
        is_sent(frames, i),
{
    let so_far = frames.take(i + 1);
    assert forall|j: int| k <= j < so_far.len() implies #[trigger] so_far[j]
        != WindowFrame::Lost by {
        assert(so_far[j] == frames[j]);
    }
    lemma_passes_since(so_far, k);
    assert(frames[i] != WindowFrame::Lost);
}

/// Nothing is sent in place of frames that were lost, and after a loss nothing is sent up to the
/// next keyframe.
pub proof fn law_loss_holds_back(frames: Seq<WindowFrame>, lost: int, i: int)
    requires
        0 <= lost <= i < frames.len(),
        frames[lost] == WindowFrame::Lost,
        forall|j: int| lost <= j <= i ==> #[trigger] frames[j] != WindowFrame::Keyframe,
    ensures
        !is_sent(frames, i),
{
    if is_sent(frames, i) {
        law_no_delta_without_keyframe(frames, i);
        let k = choose|k: int|
            0 <= k <= i && #[trigger] frames[k] == WindowFrame::Keyframe && (forall|j: int|
                k < j <= i ==> #[trigger] frames[j] != WindowFrame::Lost);
        assert(frames[lost] != WindowFrame::Keyframe);
        assert(k != lost);
    }
}

/// A relay passes on every item, and ends with its channel and for no other reason: it outlives
/// losses.
pub proof fn law_relay(received: Received)
    ensures
        received == Received::Item <==> relayed(received) == RelayAction::Send,
        received == Received::Closed <==> relayed(received) == RelayAction::Stop,
{
}

/// An event that comes is given out, whether or not it was waited for before; waiting goes on
/// exactly after the first loss, so it is tried twice at most.
pub proof fn law_event_awaited(retried: bool, received: Received)
    ensures
        awaited(retried, received) == NextEvent::Deliver <==> received == Received::Item,
        awaited(retried, received) == NextEvent::Retry <==> received == Received::Lagged
            && !retried,
{
}

/// Whether the frames of a pipeline that was subscribed to came to an end after `from`.
pub open spec fn ended_since(events: Seq<SenderEvent>, from: int) -> bool {
    exists|i: int|
        from <= i < events.len() && #[trigger] events[i] == SenderEvent::Frame(Received::Closed)
}

/// A loop that has not ended is in its stream unless the stream ended after the last pipeline that
/// was published.
proof fn lemma_streams(events: Seq<SenderEvent>, from: int)
    requires
        0 <= from <= events.len(),
        from == 0 || events[from - 1] == SenderEvent::PipelinePublished,
        !events.contains(SenderEvent::ManagerDropped),
        !events.contains(SenderEvent::Sent { ok: false }),
        !ended_since(events, from),
    ensures
        sender_after(SenderState::Streaming, events) == SenderState::Streaming,
    decreases events.len(),
{
    if events.len() > 0 {
        let before = events.drop_last();
        let last = events.len() - 1;
        assert(events.contains(events[last]));
        assert forall|i: int| 0 <= i < before.len() implies before[i] != SenderEvent::ManagerDropped
            && before[i] != (SenderEvent::Sent { ok: false }) by {
            assert(events.contains(events[i]));
        }
        if from == events.len() {
            law_sender_stops(before);
        } else {
            assert(!ended_since(before, from)) by {
                if ended_since(before, from) {
                    let i = choose|i: int|
                        from <= i < before.len() && #[trigger] before[i] == SenderEvent::Frame(
                            Received::Closed,
                        );
                    assert(events[i] == SenderEvent::Frame(Received::Closed));
                }
            }
            lemma_streams(before, from);
            assert(events[last] != SenderEvent::Frame(Received::Closed));
        }
    }
}

/// The loop ends when there will be no new pipeline, and only then or when a frame could not be
/// sent: losses and pipelines that end do not end it.
pub proof fn law_sender_stops(events: Seq<SenderEvent>)
    ensures
        events.contains(SenderEvent::ManagerDropped) ==> sender_after(
            SenderState::Streaming,
            events,
        ) == SenderState::Stopped,
        sender_after(SenderState::Streaming, events) == SenderState::Stopped ==> events.contains(
            SenderEvent::ManagerDropped,
        ) || events.contains(SenderEvent::Sent { ok: false }),
    decreases events.len(),
{
    if events.len() > 0 {
        let before = events.drop_last();
        let last = events.len() - 1;
        law_sender_stops(before);
        assert(events.contains(events[last]));
        if before.contains(SenderEvent::ManagerDropped) {
            let i = before.index_of(SenderEvent::ManagerDropped);
            assert(events[i] == SenderEvent::ManagerDropped);
        }
        if before.contains(SenderEvent::Sent { ok: false }) {
            let i = before.index_of(SenderEvent::Sent { ok: false });
            assert(events[i] == (SenderEvent::Sent { ok: false }));
        }
        if events.contains(SenderEvent::ManagerDropped) {
            let i = events.index_of(SenderEvent::ManagerDropped);
            if i < last {
                assert(before[i] == SenderEvent::ManagerDropped);
            }
        }
    }
}

/// Every frame of a pipeline that was subscribed to is sent, and each time the next one is waited
/// for, after losses too, as long as the stream lasts: from the start or from the publication of
/// the pipeline on, if frames can be sent and there may be new pipelines. When a frame cannot be
/// sent, the loop ends; when the stream ends, it waits for a new pipeline.
pub proof fn law_frames_are_sent(events: Seq<SenderEvent>, from: int)
    requires
        0 <= from <= events.len(),
        from == 0 || events[from - 1] == SenderEvent::PipelinePublished,
        !events.contains(SenderEvent::ManagerDropped),
        !events.contains(SenderEvent::Sent { ok: false }),
        !ended_since(events, from),
    ensures
        ({
            let state = sender_after(SenderState::Streaming, events);
            &&& sender_step(state, SenderEvent::Frame(Received::Item)).1 == SenderAction::SendFrame
            &&& sender_step(state, SenderEvent::Frame(Received::Lagged)).1 == SenderAction::Receive
            &&& sender_step(state, SenderEvent::Sent { ok: true }).1 == SenderAction::Receive
            &&& sender_step(state, SenderEvent::Sent { ok: false }).1 == SenderAction::Stop
            &&& sender_step(state, SenderEvent::Frame(Received::Closed)).1
                == SenderAction::AwaitPipeline
            &&& sender_step(state, SenderEvent::PipelinePublished).1 == SenderAction::Subscribe
            &&& sender_step(state, SenderEvent::ManagerDropped).1 == SenderAction::Stop
        }),
{
    lemma_streams(events, from);
}

/// A stream that was accepted is read until it ends: as long as it gives bytes, the receiver goes
/// on with it when it is asked for more. Without a stream it accepts one.
pub proof fn law_stream_is_read(before: Seq<ReceiverEvent>, reads: Seq<ReceiverEvent>)
    requires
        !before.contains(ReceiverEvent::AcceptFailed),
        forall|i: int|
            0 <= i < reads.len() ==> (#[trigger] reads[i] matches ReceiverEvent::Read { len }
                && len > 0),
    ensures
        ({
            let accepted = before.push(ReceiverEvent::StreamAccepted) + reads;
            let state = receiver_after(ReceiverState::Idle, accepted);
            &&& receiver_start(state) == ReceiverAction::Read
            &&& receiver_step(
                receiver_after(ReceiverState::Idle, before),
                ReceiverEvent::StreamAccepted,
            ).1 == ReceiverAction::Read
            &&& receiver_start(
                receiver_after(
                    ReceiverState::Idle,
                    accepted.push(ReceiverEvent::StreamEnded),
                ),
            ) == ReceiverAction::Accept
            &&& receiver_start(ReceiverState::Idle) == ReceiverAction::Accept
        }),
    decreases reads.len(),
{
    let accepted = before.push(ReceiverEvent::StreamAccepted) + reads;
    law_closed_when_accept_failed(before);
    assert(before.push(ReceiverEvent::StreamAccepted).drop_last() =~= before);
    if reads.len() == 0 {
        assert(accepted =~= before.push(ReceiverEvent::StreamAccepted));
    } else {
        let fewer = reads.drop_last();
        assert forall|i: int| 0 <= i < fewer.len() implies (#[trigger] fewer[i]
            matches ReceiverEvent::Read { len } && len > 0) by {
            assert(fewer[i] == reads[i]);
        }
        law_stream_is_read(before, fewer);
        assert(accepted.drop_last() =~= before.push(ReceiverEvent::StreamAccepted) + fewer);
        assert(accepted.last() == reads[reads.len() - 1]);
    }
    assert(accepted.push(ReceiverEvent::StreamEnded).drop_last() =~= accepted);
}

} // verus!
