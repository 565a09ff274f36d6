//! Video frames on the wire: a header, then the H.264 data.
//!
//! ```text
//! display frame   flags:u8  pts:u64  length:u32  data
//! window frame    flags:u8  window_id:u32  pts:u64  length:u32  data
//! ```
//!
//! Bit 0 of the flags is set in a keyframe, bit 1 in a window frame.

use crate::pipeline::EncodedFrame;
use crate::wire::{
    be_bytes, be_value, lemma_be_bytes_len, lemma_be_value_of_be_bytes, lemma_byte_range,
    push_bytes, push_u32, push_u64,
};
use vstd::prelude::*;

verus! {

/// The flags of a frame.
pub open spec fn frame_flags(is_keyframe: bool, of_window: bool) -> u8 {
    ((if is_keyframe {
        1int
    } else {
        0
    }) + (if of_window {
        2int
    } else {
        0
    })) as u8
}

/// The header of a display frame. The length is cut to 32 bits.
pub open spec fn frame_header_bytes(is_keyframe: bool, pts: u64, len: nat) -> Seq<u8> {
    seq![frame_flags(is_keyframe, false)] + be_bytes(pts as nat, 8) + be_bytes(
        len % 0x1_0000_0000,
        4,
    )
}

/// The header of a window frame. The length is cut to 32 bits.
pub open spec fn window_frame_header_bytes(
    is_keyframe: bool,
    window_id: u32,
    pts: u64,
    len: nat,
) -> Seq<u8> {
    seq![frame_flags(is_keyframe, true)] + be_bytes(window_id as nat, 4) + be_bytes(pts as nat, 8)
        + be_bytes(len % 0x1_0000_0000, 4)
}

/// The low 32 bits of a length.
fn length_field(len: usize) -> (field: u32)
    ensures
        field == len as nat % 0x1_0000_0000,
{
    (len as u64 % 0x1_0000_0000) as u32
}

/// The header of a display frame.
pub fn frame_header(frame: &EncodedFrame) -> (header: Vec<u8>)
    ensures
        header@ == frame_header_bytes(frame.is_keyframe, frame.pts, frame.data@.len()),
{
    let mut header: Vec<u8> = Vec::new();
    header.push(if frame.is_keyframe { 0x01 } else { 0x00 });
    push_u64(&mut header, frame.pts);
    push_u32(&mut header, length_field(frame.data.len()));
    proof {
        assert(header@ =~= frame_header_bytes(frame.is_keyframe, frame.pts, frame.data@.len()));
    }
    header
}

/// The header of a window frame.
pub fn window_frame_header(window_id: u32, frame: &EncodedFrame) -> (header: Vec<u8>)
    ensures
        header@ == window_frame_header_bytes(
            frame.is_keyframe,
            window_id,
            frame.pts,
            frame.data@.len(),
        ),
{
    let mut header: Vec<u8> = Vec::new();
    header.push(if frame.is_keyframe { 0x03 } else { 0x02 });
    push_u32(&mut header, window_id);
    push_u64(&mut header, frame.pts);
    push_u32(&mut header, length_field(frame.data.len()));
    proof {
        assert(header@ =~= window_frame_header_bytes(
            frame.is_keyframe,
            window_id,
            frame.pts,
            frame.data@.len(),
        ));
    }
    header
}

/// All that is sent of a display frame: the header, then the data.
pub fn frame_message(frame: &EncodedFrame) -> (message: Vec<u8>)
    ensures
        message@ == frame_header_bytes(frame.is_keyframe, frame.pts, frame.data@.len())
            + frame.data@,
{
    let mut message = frame_header(frame);
    push_bytes(&mut message, frame.data.as_slice());
    message
}

/// All that is sent of a window frame: the header, then the data.
pub fn window_frame_message(window_id: u32, frame: &EncodedFrame) -> (message: Vec<u8>)
    ensures
        message@ == window_frame_header_bytes(
            frame.is_keyframe,
            window_id,
            frame.pts,
            frame.data@.len(),
        ) + frame.data@,
{
    let mut message = window_frame_header(window_id, frame);
    push_bytes(&mut message, frame.data.as_slice());
    message
}

// ---------------------------------------------------------------------------
// Laws
// ---------------------------------------------------------------------------

/// A display frame says all it was made of: flags, time stamp and length stand in its first
/// thirteen bytes, the data after them.
pub proof fn law_frame_reads_back(is_keyframe: bool, pts: u64, data: Seq<u8>)
    requires
        data.len() <= u32::MAX,
    ensures
        ({
            let message = frame_header_bytes(is_keyframe, pts, data.len()) + data;
            &&& message.len() == 13 + data.len()
            &&& (message[0] % 2 == 1) == is_keyframe
            &&& message[0] / 2 % 2 == 0
            &&& be_value(message.subrange(1, 9)) == pts
            &&& be_value(message.subrange(9, 13)) == data.len()
            &&& message.skip(13) == data
        }),
{
    let message = frame_header_bytes(is_keyframe, pts, data.len()) + data;
    lemma_byte_range();
    lemma_be_bytes_len(pts as nat, 8);
    lemma_be_bytes_len(data.len(), 4);
    lemma_be_value_of_be_bytes(pts as nat, 8);
    lemma_be_value_of_be_bytes(data.len(), 4);
    assert(message.subrange(1, 9) =~= be_bytes(pts as nat, 8));
    assert(message.subrange(9, 13) =~= be_bytes(data.len(), 4));
    assert(message.skip(13) =~= data);
}

/// A window frame says all it was made of: flags, window, time stamp and length stand in its
/// first seventeen bytes, the data after them. Its flags tell it from a display frame.
pub proof fn law_window_frame_reads_back(
    is_keyframe: bool,
    window_id: u32,
    pts: u64,
    data: Seq<u8>,
)
    requires
        data.len() <= u32::MAX,
    ensures
        ({
            let message = window_frame_header_bytes(is_keyframe, window_id, pts, data.len())
                + data;
            &&& message.len() == 17 + data.len()
            &&& (message[0] % 2 == 1) == is_keyframe
            &&& message[0] / 2 % 2 == 1
            &&& be_value(message.subrange(1, 5)) == window_id
            &&& be_value(message.subrange(5, 13)) == pts
            &&& be_value(message.subrange(13, 17)) == data.len()
            &&& message.skip(17) == data
        }),
{
    let message = window_frame_header_bytes(is_keyframe, window_id, pts, data.len()) + data;
    lemma_byte_range();
    lemma_be_bytes_len(window_id as nat, 4);
    lemma_be_bytes_len(pts as nat, 8);
    lemma_be_bytes_len(data.len(), 4);
    lemma_be_value_of_be_bytes(window_id as nat, 4);
    lemma_be_value_of_be_bytes(pts as nat, 8);
    lemma_be_value_of_be_bytes(data.len(), 4);
    assert(message.subrange(1, 5) =~= be_bytes(window_id as nat, 4));
    assert(message.subrange(5, 13) =~= be_bytes(pts as nat, 8));
    assert(message.subrange(13, 17) =~= be_bytes(data.len(), 4));
    assert(message.skip(17) =~= data);
}

/// Of a length that four bytes do not hold, the lower four bytes stand in the header.
pub proof fn law_length_is_cut(is_keyframe: bool, window_id: u32, pts: u64, len: nat)
    ensures
        ({
            let header = frame_header_bytes(is_keyframe, pts, len);
            let window_header = window_frame_header_bytes(is_keyframe, window_id, pts, len);
            &&& header.len() == 13 && window_header.len() == 17
            &&& be_value(header.subrange(9, 13)) == len % 0x1_0000_0000
            &&& be_value(window_header.subrange(13, 17)) == len % 0x1_0000_0000
        }),
{
    let header = frame_header_bytes(is_keyframe, pts, len);
    let window_header = window_frame_header_bytes(is_keyframe, window_id, pts, len);
    let low = len % 0x1_0000_0000;
    lemma_byte_range();
    lemma_be_bytes_len(window_id as nat, 4);
    lemma_be_bytes_len(pts as nat, 8);
    lemma_be_bytes_len(low, 4);
    lemma_be_value_of_be_bytes(low, 4);
    assert(header.subrange(9, 13) =~= be_bytes(low, 4));
    assert(window_header.subrange(13, 17) =~= be_bytes(low, 4));
}

} // verus!
