//! Coherence mode: window events on the wire, sessions, and state.

use phantom_screen_server::coherence::{serialize_window_event, CoherenceSession, CoherenceState};
use phantom_screen_server::pipeline::{clamp_to_display, round_to_even, unpack_display_size};
use phantom_screen_server::tracking::{Monitor, Root, TreeWindow};
use phantom_screen_server::window_monitor::{WindowEvent, WindowInfo};
use phantom_screen_server::window_pipeline::{
    WindowPipelineError, WindowPipelineManager, WindowStart,
};
use phantom_screen_server::{Config, EncoderType};

#[test]
fn serialize_snapshot_event() {
    let event = WindowEvent::Snapshot(vec![WindowInfo {
        window_id: 1,
        title: "Test".into(),
        x: 10,
        y: 20,
        width: 800,
        height: 600,
        visible: true,
        app_class: "test".into(),
    }]);

    let data = serialize_window_event(&event);
    assert_eq!(data[0], 0x40);
    assert_eq!(data[1], 0x01);
    let count = u16::from_be_bytes([data[2], data[3]]);
    assert_eq!(count, 1);
}

#[test]
fn serialize_added_event() {
    let event = WindowEvent::Added(WindowInfo {
        window_id: 42,
        title: "Firefox".into(),
        x: 0,
        y: 0,
        width: 1024,
        height: 768,
        visible: true,
        app_class: "Navigator".into(),
    });

    let data = serialize_window_event(&event);
    assert_eq!(data[0], 0x40);
    assert_eq!(data[1], 0x02);
    let wid = u32::from_be_bytes([data[2], data[3], data[4], data[5]]);
    assert_eq!(wid, 42);
}

#[test]
fn serialize_removed_event() {
    let event = WindowEvent::Removed { window_id: 99 };
    let data = serialize_window_event(&event);
    assert_eq!(data[0], 0x40);
    assert_eq!(data[1], 0x03);
    let wid = u32::from_be_bytes([data[2], data[3], data[4], data[5]]);
    assert_eq!(wid, 99);
    assert_eq!(data.len(), 6);
}

#[test]
fn serialize_title_changed_event() {
    let event = WindowEvent::TitleChanged {
        window_id: 5,
        title: "New Title".into(),
    };
    let data = serialize_window_event(&event);
    assert_eq!(data[0], 0x40);
    assert_eq!(data[1], 0x05);
    let wid = u32::from_be_bytes([data[2], data[3], data[4], data[5]]);
    assert_eq!(wid, 5);
    let title_len = u16::from_be_bytes([data[6], data[7]]) as usize;
    let title = std::str::from_utf8(&data[8..8 + title_len]).unwrap();
    assert_eq!(title, "New Title");
}

#[test]
fn serialize_visibility_changed_event() {
    let event = WindowEvent::VisibilityChanged {
        window_id: 7,
        visible: false,
    };
    let data = serialize_window_event(&event);
    assert_eq!(data[0], 0x40);
    assert_eq!(data[1], 0x06);
    assert_eq!(data[6], 0); // not visible
}

// --- Resize dimension processing tests ---
// These test the full pipeline: round_to_even → clamp_to_display

#[test]
fn resize_dimensions_odd_rounded_then_clamped() {
    // Odd 1921x1081 → rounds to 1922x1082 → clamped to 1920x1080
    let w = round_to_even(1921);
    let h = round_to_even(1081);
    assert_eq!((w, h), (1922, 1082));
    let (cw, ch) = clamp_to_display(w, h, 1920, 1080);
    assert_eq!((cw, ch), (1920, 1080));
}

#[test]
fn resize_dimensions_zero_gets_minimum() {
    let w = round_to_even(0);
    let h = round_to_even(0);
    assert_eq!((w, h), (2, 2));
    // Within any reasonable display
    let (cw, ch) = clamp_to_display(w, h, 1920, 1080);
    assert_eq!((cw, ch), (2, 2));
}

#[test]
fn resize_dimensions_u16_max_rounded_and_clamped() {
    // u16::MAX (65535) → rounds to 65534 → clamped to display
    let w = round_to_even(u16::MAX);
    let h = round_to_even(u16::MAX);
    assert_eq!((w, h), (65534, 65534));
    let (cw, ch) = clamp_to_display(w, h, 1920, 1080);
    assert_eq!((cw, ch), (1920, 1080));
}

#[test]
fn resize_dimensions_display_uninitialized_passthrough() {
    // When display_size hasn't been set (packed=0), don't clamp
    let (dw, dh) = unpack_display_size(0);
    assert_eq!((dw, dh), (0, 0));
    let (cw, ch) = clamp_to_display(800, 600, dw, dh);
    assert_eq!((cw, ch), (800, 600));
}

#[test]
fn resize_dimensions_within_display_unchanged() {
    let w = round_to_even(800);
    let h = round_to_even(600);
    assert_eq!((w, h), (800, 600));
    let (cw, ch) = clamp_to_display(w, h, 1920, 1080);
    assert_eq!((cw, ch), (800, 600));
}

fn window(window_id: u32, title: &str) -> WindowInfo {
    WindowInfo {
        window_id,
        title: title.into(),
        x: -1,
        y: 2,
        width: 300,
        height: 200,
        visible: true,
        app_class: "c".into(),
    }
}

fn state(windows: Vec<WindowInfo>) -> CoherenceState {
    let root = Root { window: 1, net_wm_name: 2, wm_name: 3 };
    let tree: Vec<TreeWindow> =
        windows.into_iter().map(|w| TreeWindow { window: Some(w), children: vec![] }).collect();
    CoherenceState {
        monitor: Monitor::enumerate_windows(root, &tree),
        pipelines: WindowPipelineManager::new(&Config::default(), EncoderType::X264),
        composite_ready: true,
        display_size: 0,
    }
}

#[test]
fn window_events_byte_by_byte() {
    assert_eq!(
        serialize_window_event(&WindowEvent::Resized { window_id: 0x01020304, width: 5, height: 6 }),
        [0x40, 0x04, 1, 2, 3, 4, 0, 0, 0, 0, 0, 5, 0, 6]
    );
    assert_eq!(
        serialize_window_event(&WindowEvent::Moved { window_id: 7, x: -1, y: 258 }),
        [0x40, 0x04, 0, 0, 0, 7, 0xFF, 0xFF, 1, 2, 0, 0, 0, 0]
    );
    assert_eq!(
        serialize_window_event(&WindowEvent::VisibilityChanged { window_id: 7, visible: true }),
        [0x40, 0x06, 0, 0, 0, 7, 1]
    );
    assert_eq!(
        serialize_window_event(&WindowEvent::TitleChanged { window_id: 7, title: "é".into() }),
        [0x40, 0x05, 0, 0, 0, 7, 0, 2, 0xC3, 0xA9]
    );
    assert_eq!(serialize_window_event(&WindowEvent::Snapshot(vec![])), [0x40, 0x01, 0, 0]);
}

#[test]
fn snapshot_reads_back_window_by_window() {
    let sent = vec![window(1, "one"), window(2, ""), window(3, "drei")];
    let data = serialize_window_event(&WindowEvent::Snapshot(sent.clone()));
    let count = u16::from_be_bytes([data[2], data[3]]);
    assert_eq!(count, 3);
    let mut at = 4;
    for w in &sent {
        let (read, taken) = WindowInfo::deserialize(&data[at..]).unwrap();
        assert_eq!((read.window_id, &read.title), (w.window_id, &w.title));
        at += taken;
    }
    assert_eq!(at, data.len());
}

#[test]
fn current_snapshot_lists_every_window() {
    let state = state(vec![window(5, "a"), window(6, "b")]);
    match state.current_snapshot() {
        WindowEvent::Snapshot(windows) => {
            let mut ids: Vec<u32> = windows.iter().map(|w| w.window_id).collect();
            ids.sort();
            assert_eq!(ids, [5, 6]);
        }
        _ => panic!("Expected Snapshot"),
    }
}

#[test]
fn capture_stops_for_a_resize_and_resumes_with_a_snapshot() {
    let mut state = state(vec![window(5, "a")]);
    assert!(state.pipelines.start_window(5, true).is_ok());
    let (event, ids) = state.before_resize();
    assert!(matches!(event, WindowEvent::Snapshot(windows) if windows.is_empty()));
    assert_eq!(ids, [5]);
    assert_eq!(state.pipelines.active_count(), 0);
    assert!(!state.composite_ready);
    state.forwarded(&WindowEvent::Removed { window_id: 5 });
    assert!(!state.composite_ready);
    state.forwarded(&WindowEvent::Snapshot(vec![]));
    assert!(state.composite_ready);
}

#[test]
fn senders_are_tracked_one_per_window() {
    let mut session = CoherenceSession::new();
    assert_eq!(session.track_sender(1, 10), None);
    assert_eq!(session.track_sender(2, 20), None);
    assert_eq!(session.track_sender(1, 11), Some(10));
    assert_eq!(session.unsubscribe_window(2), Some(20));
    assert_eq!(session.unsubscribe_window(2), None);
    assert_eq!(session.track_sender(3, 30), None);
    let mut tasks = session.cleanup();
    tasks.sort();
    assert_eq!(tasks, [11, 30]);
    assert!(session.cleanup().is_empty());
}

#[test]
fn windows_are_resized_within_the_display() {
    let size = (1920 << 16) | 1080;
    assert_eq!(CoherenceSession::resize_target(1921, 1081, size), (1920, 1080));
    assert_eq!(CoherenceSession::resize_target(0, 601, size), (2, 602));
    assert_eq!(CoherenceSession::resize_target(u16::MAX, 7, 0), (65534, 8));
}

#[test]
fn resized_windows_are_captured_anew_if_they_are_captured() {
    let mut pipelines = WindowPipelineManager::new(&Config::default(), EncoderType::X264);
    let session = CoherenceSession::new();
    assert!(matches!(session.resize_window(&mut pipelines, 5, true), Ok(None)));
    assert!(matches!(
        session.subscribe_window(&mut pipelines, 5, true),
        Ok(WindowStart::Launch { .. })
    ));
    assert!(matches!(
        session.resize_window(&mut pipelines, 5, true),
        Ok(Some(WindowStart::Launch { .. }))
    ));
    assert!(matches!(
        session.resize_window(&mut pipelines, 5, false),
        Err(WindowPipelineError::NoSuchWindow { window_id: 5 })
    ));
    assert!(!pipelines.is_streaming(5));
}
