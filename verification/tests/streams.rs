//! The loops that carry frames and events, event by event.

use phantom_screen_server::streams::{
    carries_input, next_event_step, passes_on, relay_step, InputReceiver, KeyframeFilter, NextEvent,
    Received, ReceiverAction, ReceiverEvent, RelayAction, SenderAction, SenderEvent, VideoSender,
};

const FRAME: SenderEvent = SenderEvent::Frame(Received::Item);
const LAGGED: SenderEvent = SenderEvent::Frame(Received::Lagged);
const CLOSED: SenderEvent = SenderEvent::Frame(Received::Closed);
const SENT: SenderEvent = SenderEvent::Sent { ok: true };
const FAILED: SenderEvent = SenderEvent::Sent { ok: false };
const PUBLISHED: SenderEvent = SenderEvent::PipelinePublished;
const DROPPED: SenderEvent = SenderEvent::ManagerDropped;

fn run(events: &[SenderEvent]) -> Vec<SenderAction> {
    let mut sender = VideoSender::new();
    events.iter().map(|e| sender.step(*e)).collect()
}

#[test]
fn frames_are_sent_until_the_pipeline_ends() {
    assert_eq!(
        run(&[FRAME, SENT, LAGGED, FRAME, SENT, CLOSED]),
        [
            SenderAction::SendFrame,
            SenderAction::Receive,
            SenderAction::Receive,
            SenderAction::SendFrame,
            SenderAction::Receive,
            SenderAction::AwaitPipeline
        ]
    );
}

#[test]
fn restarts_are_followed_in_either_order() {
    let early = run(&[FRAME, SENT, PUBLISHED, FRAME]);
    assert_eq!(early[2..], [SenderAction::Subscribe, SenderAction::SendFrame]);
    let late = run(&[FRAME, SENT, CLOSED, PUBLISHED, FRAME, SENT, CLOSED, PUBLISHED]);
    assert_eq!(
        late[2..],
        [
            SenderAction::AwaitPipeline,
            SenderAction::Subscribe,
            SenderAction::SendFrame,
            SenderAction::Receive,
            SenderAction::AwaitPipeline,
            SenderAction::Subscribe
        ]
    );
}

#[test]
fn senders_end_with_the_connection_or_the_manager() {
    assert_eq!(run(&[FRAME, FAILED, FRAME])[1..], [SenderAction::Stop, SenderAction::Stop]);
    assert_eq!(run(&[DROPPED]), [SenderAction::Stop]);
    assert_eq!(run(&[CLOSED, DROPPED, PUBLISHED])[1..], [SenderAction::Stop, SenderAction::Stop]);
}

#[test]
fn deltas_wait_for_a_keyframe() {
    let mut filter = KeyframeFilter::new();
    assert!(!filter.passes(false));
    assert!(filter.passes(true));
    assert!(filter.passes(false));
    filter.lagged();
    assert!(!filter.passes(false));
    assert!(filter.passes(true));
}

#[test]
fn relays_pass_over_losses() {
    assert_eq!(relay_step(Received::Item), RelayAction::Send);
    assert_eq!(relay_step(Received::Lagged), RelayAction::Skip);
    assert_eq!(relay_step(Received::Closed), RelayAction::Stop);
    assert_eq!(next_event_step(false, Received::Item), NextEvent::Deliver);
    assert_eq!(next_event_step(false, Received::Lagged), NextEvent::Retry);
    assert_eq!(next_event_step(true, Received::Lagged), NextEvent::End);
    assert_eq!(next_event_step(true, Received::Item), NextEvent::Deliver);
    assert_eq!(next_event_step(false, Received::Closed), NextEvent::End);
}

#[test]
fn input_is_received_stream_after_stream() {
    let mut receiver = InputReceiver::new();
    assert_eq!(receiver.start(), ReceiverAction::Accept);
    assert_eq!(receiver.step(ReceiverEvent::StreamAccepted), ReceiverAction::Read);
    assert_eq!(
        receiver.step(ReceiverEvent::Read { len: 5 }),
        ReceiverAction::Deliver { len: 5 }
    );
    assert_eq!(receiver.start(), ReceiverAction::Read);
    assert_eq!(receiver.step(ReceiverEvent::Read { len: 0 }), ReceiverAction::Accept);
    assert_eq!(receiver.step(ReceiverEvent::StreamAccepted), ReceiverAction::Read);
    assert_eq!(receiver.step(ReceiverEvent::StreamEnded), ReceiverAction::Accept);
    assert_eq!(receiver.step(ReceiverEvent::AcceptFailed), ReceiverAction::SayClosed);
    assert_eq!(receiver.start(), ReceiverAction::SayClosed);
    assert_eq!(receiver.step(ReceiverEvent::StreamAccepted), ReceiverAction::SayClosed);
}

#[test]
fn data_channels() {
    assert!(carries_input("input"));
    assert!(!carries_input("Input"));
    assert!(passes_on(&[0]));
    assert!(!passes_on(&[]));
}
