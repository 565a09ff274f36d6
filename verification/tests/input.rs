//! The binary input protocol.

use phantom_screen_server::input::{parse_input_data, parse_input_event, InputEvent};
use phantom_screen_server::estimate_event_length;

#[test]
fn test_parse_mouse_move() {
    // [0x01] [x: u16 BE] [y: u16 BE]
    let data = [0x01, 0x03, 0xE8, 0x01, 0xF4]; // x=1000, y=500
    let event = parse_input_event(&data).unwrap();
    match event {
        InputEvent::MouseMove { x, y } => {
            assert_eq!(x, 1000);
            assert_eq!(y, 500);
        }
        _ => panic!("Expected MouseMove"),
    }
}

#[test]
fn test_parse_mouse_button_press() {
    let data = [0x02, 1, 1]; // button=1 (left), pressed=true
    let event = parse_input_event(&data).unwrap();
    match event {
        InputEvent::MouseButton { button, pressed } => {
            assert_eq!(button, 1);
            assert!(pressed);
        }
        _ => panic!("Expected MouseButton"),
    }
}

#[test]
fn test_parse_mouse_button_release() {
    let data = [0x02, 3, 0]; // button=3 (right), pressed=false
    let event = parse_input_event(&data).unwrap();
    match event {
        InputEvent::MouseButton { button, pressed } => {
            assert_eq!(button, 3);
            assert!(!pressed);
        }
        _ => panic!("Expected MouseButton"),
    }
}

#[test]
fn test_parse_mouse_scroll() {
    // [0x03] [dx: i16 BE] [dy: i16 BE]
    let data = [0x03, 0xFF, 0xFE, 0x00, 0x03]; // dx=-2, dy=3
    let event = parse_input_event(&data).unwrap();
    match event {
        InputEvent::MouseScroll { dx, dy } => {
            assert_eq!(dx, -2);
            assert_eq!(dy, 3);
        }
        _ => panic!("Expected MouseScroll"),
    }
}

#[test]
fn test_parse_key_event() {
    // [0x10] [code_len: u8] [code: utf8] [pressed: u8]
    let code = b"KeyA";
    let mut data = vec![0x10, code.len() as u8];
    data.extend_from_slice(code);
    data.push(1); // pressed

    let event = parse_input_event(&data).unwrap();
    match event {
        InputEvent::KeyEvent { code, pressed } => {
            assert_eq!(code, "KeyA");
            assert!(pressed);
        }
        _ => panic!("Expected KeyEvent"),
    }
}

#[test]
fn test_parse_key_event_release() {
    let code = b"ShiftLeft";
    let mut data = vec![0x10, code.len() as u8];
    data.extend_from_slice(code);
    data.push(0); // released

    let event = parse_input_event(&data).unwrap();
    match event {
        InputEvent::KeyEvent { code, pressed } => {
            assert_eq!(code, "ShiftLeft");
            assert!(!pressed);
        }
        _ => panic!("Expected KeyEvent"),
    }
}

#[test]
fn test_parse_clipboard() {
    // [0x20] [length: u32 BE] [utf8 data...]
    let text = b"Hello, clipboard!";
    let len = text.len() as u32;
    let mut data = vec![0x20];
    data.extend_from_slice(&len.to_be_bytes());
    data.extend_from_slice(text);

    let event = parse_input_event(&data).unwrap();
    match event {
        InputEvent::Clipboard { text } => {
            assert_eq!(text, "Hello, clipboard!");
        }
        _ => panic!("Expected Clipboard"),
    }
}

#[test]
fn test_parse_keyframe_request() {
    let data = [0x30, 0x01];
    let event = parse_input_event(&data).unwrap();
    assert!(matches!(event, InputEvent::RequestKeyframe));
}

#[test]
fn test_parse_set_bitrate() {
    // [0x30] [0x02] [kbps: u32 BE]
    let data = [0x30, 0x02, 0x00, 0x00, 0x17, 0x70]; // 6000 kbps
    let event = parse_input_event(&data).unwrap();
    match event {
        InputEvent::SetBitrate { kbps } => assert_eq!(kbps, 6000),
        _ => panic!("Expected SetBitrate"),
    }
}

#[test]
fn test_parse_set_resolution() {
    // [0x30] [0x03] [w: u16 BE] [h: u16 BE]
    let data = [0x30, 0x03, 0x07, 0x80, 0x04, 0x38]; // 1920x1080
    let event = parse_input_event(&data).unwrap();
    match event {
        InputEvent::SetResolution { width, height } => {
            assert_eq!(width, 1920);
            assert_eq!(height, 1080);
        }
        _ => panic!("Expected SetResolution"),
    }
}

#[test]
fn test_parse_empty_data() {
    assert!(parse_input_event(&[]).is_none());
}

#[test]
fn test_parse_truncated_mouse_move() {
    // Only 3 bytes, need 5
    assert!(parse_input_event(&[0x01, 0x00, 0x00]).is_none());
}

#[test]
fn test_parse_truncated_key_event() {
    // Says code_len=10 but only has 3 bytes of code
    let data = [0x10, 10, b'A', b'B', b'C'];
    assert!(parse_input_event(&data).is_none());
}

#[test]
fn test_parse_unknown_type() {
    assert!(parse_input_event(&[0xFF, 0x00]).is_none());
}

#[test]
fn buffers_of_messages_are_read_in_order() {
    let mut data = vec![0x02, 1, 1, 0x10, 1, 0xFF, 1, 0x30, 0x01, 0x01, 0, 1];
    let events = parse_input_data(&data);
    assert_eq!(events.len(), 2);
    assert!(matches!(events[0], InputEvent::MouseButton { button: 1, pressed: true }));
    assert!(matches!(events[1], InputEvent::RequestKeyframe));
    data.extend_from_slice(&[0, 2]);
    assert!(matches!(parse_input_data(&data)[2], InputEvent::MouseMove { x: 1, y: 2 }));
    assert!(parse_input_data(&[0x7F, 0x30, 0x01]).is_empty());
    assert!(parse_input_data(&[]).is_empty());
}

#[test]
fn lengths_go_by_the_first_bytes() {
    assert_eq!(estimate_event_length(&[0x01]), 5);
    assert_eq!(estimate_event_length(&[0x10, 200]), 203);
    assert_eq!(estimate_event_length(&[0x20, 0, 0, 1, 0]), 261);
    assert_eq!(estimate_event_length(&[0x30, 0x04]), 0);
    assert_eq!(estimate_event_length(&[0x30]), 0);
}

#[test]
fn messages_that_stand_for_nothing() {
    assert!(parse_input_event(&[0x10, 1, 0xFF, 1]).is_none());
    assert!(parse_input_event(&[0x20, 0, 0, 0, 1, 0x80]).is_none());
    assert!(parse_input_event(&[0x30, 0x02, 0, 0, 0]).is_none());
    assert!(parse_input_event(&[0x30]).is_none());
    let empty = parse_input_event(&[0x20, 0, 0, 0, 0]).unwrap();
    assert!(matches!(empty, InputEvent::Clipboard { text } if text.is_empty()));
}
