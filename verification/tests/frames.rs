//! Frame headers.

use phantom_screen_server::frames::{
    frame_header, frame_message, window_frame_header, window_frame_message,
};
use phantom_screen_server::pipeline::EncodedFrame;

/// Verify the frame header encoding format matches what the client expects.
/// Frame: [flags: u8] [pts: u64 BE] [length: u32 BE] [H.264 data...]
#[test]
fn frame_header_encoding() {
    let is_keyframe = true;
    let pts: u64 = 1_000_000_000; // 1 second in nanoseconds
    let data = vec![0x00, 0x00, 0x00, 0x01, 0x67]; // fake SPS NAL unit start

    let header = frame_header(&EncodedFrame { data: data.clone(), pts, is_keyframe });
    assert_eq!(header.len(), 13);

    // Verify header
    assert_eq!(header[0], 0x01); // keyframe flag
    assert_eq!(u64::from_be_bytes(header[1..9].try_into().unwrap()), pts);
    assert_eq!(u32::from_be_bytes(header[9..13].try_into().unwrap()), data.len() as u32);
}

#[test]
fn frame_header_non_keyframe() {
    let pts: u64 = 0;
    let data = vec![0u8; 1024];

    let header = frame_header(&EncodedFrame { data, pts, is_keyframe: false });

    assert_eq!(header[0], 0x00);
    assert_eq!(u64::from_be_bytes(header[1..9].try_into().unwrap()), 0);
    assert_eq!(u32::from_be_bytes(header[9..13].try_into().unwrap()), 1024);
}

#[test]
fn window_frames_carry_their_window() {
    let frame = EncodedFrame { data: vec![9, 8], pts: 0x0102030405060708, is_keyframe: true };
    assert_eq!(
        window_frame_header(0x0A0B0C0D, &frame),
        [3, 0x0A, 0x0B, 0x0C, 0x0D, 1, 2, 3, 4, 5, 6, 7, 8, 0, 0, 0, 2]
    );
    let delta = EncodedFrame { is_keyframe: false, ..frame.clone() };
    assert_eq!(window_frame_header(1, &delta)[0], 2);
    assert_eq!(
        window_frame_message(0x0A0B0C0D, &frame),
        [3, 0x0A, 0x0B, 0x0C, 0x0D, 1, 2, 3, 4, 5, 6, 7, 8, 0, 0, 0, 2, 9, 8]
    );
    assert_eq!(frame_message(&frame), [1, 1, 2, 3, 4, 5, 6, 7, 8, 0, 0, 0, 2, 9, 8]);
}
