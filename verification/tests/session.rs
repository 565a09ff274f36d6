//! Sessions: what a client's requests lead to.

use phantom_screen_server::coherence::CoherenceState;
use phantom_screen_server::control::{handle_control_event, size_to_share, ControlAction};
use phantom_screen_server::injection::{FakeInput, InputError, InputHandler};
use phantom_screen_server::pipeline::{PipelineManager, Restart, RestartStage};
use phantom_screen_server::session::{dispatch_event, Dispatch, Session, SessionAction};
use phantom_screen_server::tracking::{Monitor, Root};
use phantom_screen_server::window_pipeline::{
    WindowPipelineError, WindowPipelineManager, WindowStart,
};
use phantom_screen_server::{Config, EncoderType, InputEvent};

fn input(event_type: u8, detail: u8, root_x: i16, root_y: i16) -> FakeInput {
    FakeInput { event_type, detail, root_x, root_y }
}

fn inputs(event: &InputEvent) -> Vec<FakeInput> {
    let handler = InputHandler::new(":99");
    let mut manager = PipelineManager::new_for_test(true);
    match dispatch_event(event, &handler, &mut manager) {
        Ok(Dispatch::Inject { inputs }) => inputs,
        _ => panic!("Expected Inject"),
    }
}

#[test]
fn input_events_become_xtest_events() {
    assert_eq!(
        inputs(&InputEvent::MouseMove { x: 1000, y: 65535 }),
        [input(6, 0, 1000, -1)]
    );
    assert_eq!(
        inputs(&InputEvent::MouseButton { button: 3, pressed: true }),
        [input(4, 3, 0, 0)]
    );
    assert_eq!(
        inputs(&InputEvent::MouseButton { button: 3, pressed: false }),
        [input(5, 3, 0, 0)]
    );
    assert_eq!(
        inputs(&InputEvent::KeyEvent { code: "KeyW".into(), pressed: true }),
        [input(2, 25, 0, 0)]
    );
    assert_eq!(
        inputs(&InputEvent::KeyEvent { code: "ContextMenu".into(), pressed: false }),
        [input(3, 135, 0, 0)]
    );
    assert_eq!(
        inputs(&InputEvent::MouseScroll { dx: 1, dy: -2 }),
        [
            input(4, 4, 0, 0),
            input(5, 4, 0, 0),
            input(4, 4, 0, 0),
            input(5, 4, 0, 0),
            input(4, 7, 0, 0),
            input(5, 7, 0, 0)
        ]
    );
    assert!(inputs(&InputEvent::MouseScroll { dx: 0, dy: 0 }).is_empty());
    assert_eq!(inputs(&InputEvent::MouseScroll { dx: i16::MIN, dy: 1 }).len(), 2 + 2 * 32768);
}

#[test]
fn unknown_keys_are_refused() {
    let mut handler = InputHandler::new(":99");
    handler.reconnect();
    assert_eq!(handler.display(), ":99");
    assert!(matches!(
        handler.key_event("NoSuchKey", true),
        Err(InputError::UnknownKeyCode { code }) if code == "NoSuchKey"
    ));
}

#[test]
fn control_requests() {
    let mut manager = PipelineManager::new_for_test(true);
    let keyframe = handle_control_event(&InputEvent::RequestKeyframe, &mut manager);
    assert!(matches!(keyframe, ControlAction::ForceKeyframe));
    let bitrate = handle_control_event(&InputEvent::SetBitrate { kbps: 77 }, &mut manager);
    assert!(matches!(bitrate, ControlAction::SetBitrate { kbps: 77 }));
    assert_eq!(manager.controller().bitrate(), 77);
    let same = InputEvent::SetResolution { width: 1919, height: 1080 };
    assert!(matches!(
        handle_control_event(&same, &mut manager),
        ControlAction::Resize {
            restart: Restart { stage: RestartStage::Done, width: 1920, height: 1080, .. }
        }
    ));
    let other = InputEvent::SetResolution { width: 801, height: 600 };
    match handle_control_event(&other, &mut manager) {
        ControlAction::Resize { mut restart } => {
            assert_eq!(manager.advance(&mut restart).len(), 4);
            manager.advance(&mut restart);
        }
        _ => panic!("Expected Resize"),
    }
    assert_eq!(size_to_share(&manager), (802 << 16) | 600);
    let none = handle_control_event(&InputEvent::EnableCoherence, &mut manager);
    assert!(matches!(none, ControlAction::Nothing));
}

struct Rig {
    state: CoherenceState,
    handler: InputHandler,
    manager: PipelineManager,
    session: Session,
}

impl Rig {
    fn new() -> Self {
        Rig {
            state: CoherenceState {
                monitor: Monitor::new(Root { window: 1, net_wm_name: 2, wm_name: 3 }),
                pipelines: WindowPipelineManager::new(&Config::default(), EncoderType::X264),
                composite_ready: true,
                display_size: (1920 << 16) | 1080,
            },
            handler: InputHandler::new(":99"),
            manager: PipelineManager::new_for_test(true),
            session: Session::new(),
        }
    }

    fn handle(&mut self, event: InputEvent) -> SessionAction {
        self.session.handle(&event, &self.state, &self.handler, &mut self.manager)
    }
}

#[test]
fn windows_are_left_alone_outside_coherence_mode() {
    let mut rig = Rig::new();
    assert!(matches!(rig.handle(InputEvent::FocusWindow { window_id: 5 }), SessionAction::Nothing));
    assert!(matches!(rig.handle(InputEvent::CloseWindow { window_id: 5 }), SessionAction::Nothing));
    assert!(matches!(
        rig.handle(InputEvent::SubscribeWindow { window_id: 5 }),
        SessionAction::Nothing
    ));
    assert!(matches!(
        rig.handle(InputEvent::UnsubscribeWindow { window_id: 5 }),
        SessionAction::Nothing
    ));
    assert!(matches!(
        rig.handle(InputEvent::ResizeWindow { window_id: 5, width: 1, height: 1 }),
        SessionAction::Nothing
    ));
    assert!(matches!(rig.handle(InputEvent::DisableCoherence), SessionAction::Nothing));
    assert_eq!(rig.session.track_sender(5, 50), Some(50));
}

#[test]
fn coherence_mode_from_start_to_end() {
    let mut rig = Rig::new();
    assert!(matches!(
        rig.handle(InputEvent::EnableCoherence),
        SessionAction::StartCoherence { snapshot } if snapshot == [0x40, 0x01, 0, 0]
    ));
    assert!(rig.session.in_coherence_mode());
    assert!(matches!(rig.handle(InputEvent::EnableCoherence), SessionAction::Nothing));
    assert!(matches!(
        rig.handle(InputEvent::SubscribeWindow { window_id: 5 }),
        SessionAction::SubscribeWindow { window_id: 5 }
    ));
    assert_eq!(rig.session.track_sender(5, 50), None);
    assert_eq!(rig.session.track_sender(6, 60), None);
    assert!(matches!(
        rig.handle(InputEvent::UnsubscribeWindow { window_id: 5 }),
        SessionAction::AbortSender { task: 50 }
    ));
    assert!(matches!(
        rig.handle(InputEvent::ResizeWindow { window_id: 6, width: 3001, height: 99 }),
        SessionAction::ResizeWindow { window_id: 6, width: 1920, height: 100 }
    ));
    assert!(matches!(
        rig.handle(InputEvent::FocusWindow { window_id: 6 }),
        SessionAction::FocusWindow { window_id: 6 }
    ));
    assert!(matches!(
        rig.handle(InputEvent::CloseWindow { window_id: 6 }),
        SessionAction::CloseWindow { window_id: 6 }
    ));
    assert!(matches!(
        rig.handle(InputEvent::DisableCoherence),
        SessionAction::AbortSenders { tasks } if tasks == [60]
    ));
    assert!(!rig.session.in_coherence_mode());
    assert!(rig.session.close().is_empty());
}

#[test]
fn windows_are_not_captured_while_the_display_restarts() {
    let mut rig = Rig::new();
    rig.handle(InputEvent::EnableCoherence);
    rig.state.composite_ready = false;
    assert!(matches!(
        rig.handle(InputEvent::SubscribeWindow { window_id: 5 }),
        SessionAction::RejectWindow { window_id: 5 }
    ));
}

#[test]
fn other_requests_are_passed_on() {
    let mut rig = Rig::new();
    assert!(matches!(
        rig.handle(InputEvent::LaunchApp { command: "xterm".into() }),
        SessionAction::LaunchApp { command } if command == "xterm"
    ));
    assert!(matches!(
        rig.handle(InputEvent::Clipboard { text: "t".into() }),
        SessionAction::Dispatched { dispatch: Dispatch::SetClipboard { text } } if text == "t"
    ));
    assert!(matches!(
        rig.handle(InputEvent::KeyEvent { code: "?".into(), pressed: true }),
        SessionAction::UnknownKey { code } if code == "?"
    ));
    assert!(matches!(
        rig.handle(InputEvent::RequestKeyframe),
        SessionAction::Dispatched {
            dispatch: Dispatch::Control { action: ControlAction::ForceKeyframe }
        }
    ));
}

#[test]
fn windows_are_streamed_up_to_the_limit() {
    let config = Config { max_window_pipelines: 2, fps: 30, ..Config::default() };
    let mut manager = WindowPipelineManager::new(&config, EncoderType::X264);
    assert!(matches!(
        manager.start_window(1, true),
        Ok(WindowStart::Launch { description })
            if description.contains("xid=1 ") && description.contains("bitrate=2000 ")
    ));
    assert!(matches!(manager.start_window(1, false), Ok(WindowStart::AlreadyRunning)));
    assert_eq!(
        manager.start_window(2, false).unwrap_err(),
        WindowPipelineError::NoSuchWindow { window_id: 2 }
    );
    assert!(manager.start_window(2, true).is_ok());
    assert_eq!(
        manager.start_window(3, true).unwrap_err(),
        WindowPipelineError::LimitReached { max_pipelines: 2 }
    );
    assert_eq!(manager.active_count(), 2);
    let (stopped, start) = manager.restart_window(2, true);
    assert!(stopped && matches!(start, Ok(WindowStart::Launch { .. })));
    assert!(manager.stop_window(1));
    assert!(!manager.stop_window(1));
    assert!(!manager.is_streaming(1) && manager.is_streaming(2));
    assert!(manager.start_window(3, true).is_ok());
    let mut ids = manager.stop_all();
    ids.sort();
    assert_eq!(ids, [2, 3]);
    assert_eq!(manager.active_count(), 0);
}
