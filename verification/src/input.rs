//! The input protocol: what the client sends, one binary message per event.
//!
//! ```text
//! mouse move      01  x:u16  y:u16
//! mouse button    02  button:u8  pressed:u8
//! mouse scroll    03  dx:i16  dy:i16
//! key             10  length:u8  code  pressed:u8
//! clipboard       20  length:u32  text
//! keyframe        30 01
//! bitrate         30 02  kbps:u32
//! resolution      30 03  width:u16  height:u16
//! ```
//!
//! Integers are big-endian, texts are UTF-8.

use crate::text::{lemma_utf8_round_trip, text_from_utf8, utf8_text};
use crate::wire::{
    be_bytes, be_value, i16_bits, i16_from_bits, lemma_be_bytes_len, lemma_be_value_2,
    lemma_be_value_4, lemma_be_value_of_be_bytes, lemma_byte_range, lemma_i16_bits, read_i16,
    read_u16, read_u32,
};
use vstd::prelude::*;
use vstd::slice::slice_subrange;
use vstd::utf8::encode_utf8;

verus! {

/// What a client asks for. The requests from `EnableCoherence` on concern single windows; the
/// byte protocol of this module has no message for them.
#[derive(Debug)]
pub enum InputEvent {
    MouseMove { x: u16, y: u16 },
    MouseButton { button: u8, pressed: bool },
    MouseScroll { dx: i16, dy: i16 },
    KeyEvent { code: String, pressed: bool },
    Clipboard { text: String },
    RequestKeyframe,
    SetBitrate { kbps: u32 },
    SetResolution { width: u16, height: u16 },
    EnableCoherence,
    DisableCoherence,
    SubscribeWindow { window_id: u32 },
    UnsubscribeWindow { window_id: u32 },
    ResizeWindow { window_id: u32, width: u16, height: u16 },
    FocusWindow { window_id: u32 },
    CloseWindow { window_id: u32 },
    LaunchApp { command: String },
}

/// What an [`InputEvent`] says.
pub ghost enum EventView {
    MouseMove { x: u16, y: u16 },
    MouseButton { button: u8, pressed: bool },
    MouseScroll { dx: i16, dy: i16 },
    KeyEvent { code: Seq<char>, pressed: bool },
    Clipboard { text: Seq<char> },
    RequestKeyframe,
    SetBitrate { kbps: u32 },
    SetResolution { width: u16, height: u16 },
    EnableCoherence,
    DisableCoherence,
    SubscribeWindow { window_id: u32 },
    UnsubscribeWindow { window_id: u32 },
    ResizeWindow { window_id: u32, width: u16, height: u16 },
    FocusWindow { window_id: u32 },
    CloseWindow { window_id: u32 },
    LaunchApp { command: Seq<char> },
}

impl View for InputEvent {
    type V = EventView;

    open spec fn view(&self) -> EventView {
        match *self {
            InputEvent::MouseMove { x, y } => EventView::MouseMove { x, y },
            InputEvent::MouseButton { button, pressed } => EventView::MouseButton {
                button,
                pressed,
            },
            InputEvent::MouseScroll { dx, dy } => EventView::MouseScroll { dx, dy },
            InputEvent::KeyEvent { code, pressed } => EventView::KeyEvent { code: code@, pressed },
            InputEvent::Clipboard { text } => EventView::Clipboard { text: text@ },
            InputEvent::RequestKeyframe => EventView::RequestKeyframe,
            InputEvent::SetBitrate { kbps } => EventView::SetBitrate { kbps },
            InputEvent::SetResolution { width, height } => EventView::SetResolution {
                width,
                height,
            },
            InputEvent::EnableCoherence => EventView::EnableCoherence,
            InputEvent::DisableCoherence => EventView::DisableCoherence,
            InputEvent::SubscribeWindow { window_id } => EventView::SubscribeWindow { window_id },
            InputEvent::UnsubscribeWindow { window_id } => EventView::UnsubscribeWindow {
                window_id,
            },
            InputEvent::ResizeWindow { window_id, width, height } => EventView::ResizeWindow {
                window_id,
                width,
                height,
            },
            InputEvent::FocusWindow { window_id } => EventView::FocusWindow { window_id },
            InputEvent::CloseWindow { window_id } => EventView::CloseWindow { window_id },
            InputEvent::LaunchApp { command } => EventView::LaunchApp { command: command@ },
        }
    }
}

/// The two-byte number at `at`.
pub open spec fn u16_at(data: Seq<u8>, at: int) -> nat {
    be_value(data.subrange(at, at + 2))
}

/// The four-byte number at `at`.
pub open spec fn u32_at(data: Seq<u8>, at: int) -> nat {
    be_value(data.subrange(at, at + 4))
}

/// How many bytes the message at the start of `data` takes, going by its first bytes; 0 if they
/// start no known message or are too few to tell.
pub open spec fn event_length(data: Seq<u8>) -> nat {
    if data.len() == 0 {
        0
    } else if data[0] == 0x01 {
        5
    } else if data[0] == 0x02 {
        3
    } else if data[0] == 0x03 {
        5
    } else if data[0] == 0x10 {
        if data.len() < 2 {
            0
        } else {
            3 + data[1] as nat
        }
    } else if data[0] == 0x20 {
        if data.len() < 5 {
            0
        } else {
            5 + u32_at(data, 1)
        }
    } else if data[0] == 0x30 {
        if data.len() < 2 {
            0
        } else if data[1] == 0x01 {
            2
        } else if data[1] == 0x02 || data[1] == 0x03 {
            6
        } else {
            0
        }
    } else {
        0
    }
}

/// The event that the message at the start of `data` stands for: there is one if the message is
/// known, is there in full, and its text, if it has one, is UTF-8.
pub open spec fn event_at_start(data: Seq<u8>) -> Option<EventView> {
    let len = event_length(data);
    if len == 0 || data.len() < len {
        None
    } else if data[0] == 0x01 {
        Some(EventView::MouseMove { x: u16_at(data, 1) as u16, y: u16_at(data, 3) as u16 })
    } else if data[0] == 0x02 {
        Some(EventView::MouseButton { button: data[1], pressed: data[2] != 0 })
    } else if data[0] == 0x03 {
        Some(
            EventView::MouseScroll {
                dx: i16_from_bits(u16_at(data, 1)),
                dy: i16_from_bits(u16_at(data, 3)),
            },
        )
    } else if data[0] == 0x10 {
        match utf8_text(data.subrange(2, len - 1)) {
            Some(code) => Some(EventView::KeyEvent { code, pressed: data[len - 1] != 0 }),
            None => None,
        }
    } else if data[0] == 0x20 {
        match utf8_text(data.subrange(5, len as int)) {
            Some(text) => Some(EventView::Clipboard { text }),
            None => None,
        }
    } else {
        control_at_start(data)
    }
}

/// The same for a control message, one whose first byte is 30.
pub open spec fn control_at_start(data: Seq<u8>) -> Option<EventView> {
    if data[1] == 0x01 {
        Some(EventView::RequestKeyframe)
    } else if data[1] == 0x02 && data.len() >= 6 {
        Some(EventView::SetBitrate { kbps: u32_at(data, 2) as u32 })
    } else if data[1] == 0x03 && data.len() >= 6 {
        Some(
            EventView::SetResolution {
                width: u16_at(data, 2) as u16,
                height: u16_at(data, 4) as u16,
            },
        )
    } else {
        None
    }
}

/// Parse an input event from the binary protocol.
pub fn parse_input_event(data: &[u8]) -> (event: Option<InputEvent>)
    ensures
        event matches Some(e) ==> event_at_start(data@) == Some(e@),
        event is None ==> event_at_start(data@) is None,
{
    if data.len() == 0 {
        return None;
    }
    let kind = data[0];
    if kind == 0x01 && data.len() >= 5 {
        Some(InputEvent::MouseMove { x: read_u16(data, 1), y: read_u16(data, 3) })
    } else if kind == 0x02 && data.len() >= 3 {
        Some(InputEvent::MouseButton { button: data[1], pressed: data[2] != 0 })
    } else if kind == 0x03 && data.len() >= 5 {
        Some(InputEvent::MouseScroll { dx: read_i16(data, 1), dy: read_i16(data, 3) })
    } else if kind == 0x10 && data.len() >= 3 {
        let code_len = data[1] as usize;
        if data.len() < 2 + code_len + 1 {
            return None;
        }
        match text_from_utf8(slice_subrange(data, 2, 2 + code_len)) {
            Some(code) => Some(InputEvent::KeyEvent { code, pressed: data[2 + code_len] != 0 }),
            None => None,
        }
    } else if kind == 0x20 && data.len() >= 5 {
        let length = read_u32(data, 1);
        if data.len() - 5 < length as usize {
            return None;
        }
        match text_from_utf8(slice_subrange(data, 5, 5 + length as usize)) {
            Some(text) => Some(InputEvent::Clipboard { text }),
            None => None,
        }
    } else if kind == 0x30 && data.len() >= 2 {
        parse_control_event(data)
    } else {
        None
    }
}

/// Parse a control message, one whose first byte is 30.
pub fn parse_control_event(data: &[u8]) -> (event: Option<InputEvent>)
    requires
        data@.len() >= 2,
    ensures
        event matches Some(e) ==> control_at_start(data@) == Some(e@),
        event is None ==> control_at_start(data@) is None,
{
    if data[1] == 0x01 {
        Some(InputEvent::RequestKeyframe)
    } else if data[1] == 0x02 && data.len() >= 6 {
        Some(InputEvent::SetBitrate { kbps: read_u32(data, 2) })
    } else if data[1] == 0x03 && data.len() >= 6 {
        Some(InputEvent::SetResolution { width: read_u16(data, 2), height: read_u16(data, 4) })
    } else {
        None
    }
}

/// Estimate the byte length of a binary-encoded input event.
/// Returns 0 if the event type is unknown or the buffer is too short to determine length, and
/// `usize::MAX` for a length that a `usize` cannot hold.
pub fn estimate_event_length(data: &[u8]) -> (len: usize)
    ensures
        event_length(data@) <= usize::MAX ==> len == event_length(data@),
        event_length(data@) > usize::MAX ==> len == usize::MAX,
{
    let len = exact_event_length(data);
    if len > usize::MAX as u64 {
        usize::MAX
    } else {
        len as usize
    }
}

/// The byte length of the message at the start of `data`, in a type that holds every length.
fn exact_event_length(data: &[u8]) -> (len: u64)
    ensures
        len == event_length(data@),
{
    if data.len() == 0 {
        return 0;
    }
    let kind = data[0];
    if kind == 0x01 {
        5
    } else if kind == 0x02 {
        3
    } else if kind == 0x03 {
        5
    } else if kind == 0x10 {
        if data.len() < 2 {
            return 0;
        }
        2 + data[1] as u64 + 1
    } else if kind == 0x20 {
        if data.len() < 5 {
            return 0;
        }
        5 + read_u32(data, 1) as u64
    } else if kind == 0x30 {
        if data.len() < 2 {
            return 0;
        }
        if data[1] == 0x01 {
            2
        } else if data[1] == 0x02 || data[1] == 0x03 {
            6
        } else {
            0
        }
    } else {
        0
    }
}

// ---------------------------------------------------------------------------
// A buffer of messages
// ---------------------------------------------------------------------------

/// The events of the messages that stand one after the other in `data`. A message that is there
/// in full but stands for no event is passed over; reading ends at the first that is unknown or
/// not there in full.
pub open spec fn events_in(data: Seq<u8>) -> Seq<EventView>
    decreases data.len(),
{
    let len = event_length(data);
    if len == 0 || data.len() < len {
        seq![]
    } else {
        (match event_at_start(data.take(len as int)) {
            Some(event) => seq![event],
            None => seq![],
        }) + events_in(data.skip(len as int))
    }
}

/// The views of a list of events.
pub open spec fn event_views(events: Seq<InputEvent>) -> Seq<EventView> {
    events.map_values(|e: InputEvent| e@)
}

/// Reads every message in `data`.
pub fn parse_input_data(data: &[u8]) -> (events: Vec<InputEvent>)
    ensures
        event_views(events@) == events_in(data@),
{
    let mut events: Vec<InputEvent> = Vec::new();
    let mut offset: usize = 0;
    proof {
        assert(data@.skip(0) =~= data@);
        assert(event_views(events@) + events_in(data@) =~= events_in(data@));
    }
    while offset < data.len()
        invariant
            offset <= data@.len(),
            event_views(events@) + events_in(data@.skip(offset as int)) == events_in(data@),
        decreases data.len() - offset,
    {
        let remaining = slice_subrange(data, offset, data.len());
        let ghost before = event_views(events@);
        proof {
            assert(remaining@ =~= data@.skip(offset as int));
        }
        let exact_len = exact_event_length(remaining);
        if exact_len == 0 || exact_len > remaining.len() as u64 {
            proof {
                assert(before + events_in(remaining@) =~= before);
            }
            return events;
        }
        let event_len = exact_len as usize;
        let message = slice_subrange(remaining, 0, event_len);
        proof {
            assert(message@ =~= remaining@.take(event_len as int));
            assert(remaining@.skip(event_len as int) =~= data@.skip(offset + event_len));
        }
        let ghost mut found: Seq<EventView> = seq![];
        if let Some(event) = parse_input_event(message) {
            events.push(event);
            proof {
                found = seq![event@];
                assert(event_views(events@) =~= before + found);
            }
        }
        proof {
            assert(event_views(events@) =~= before + found);
            assert(events_in(remaining@) == found + events_in(data@.skip(offset + event_len)));
            assert(event_views(events@) + events_in(data@.skip(offset + event_len)) =~= before
                + events_in(remaining@));
        }
        offset = offset + event_len;
    }
    proof {
        assert(event_views(events@) + events_in(data@.skip(offset as int)) =~= event_views(events@));
    }
    events
}

// ---------------------------------------------------------------------------
// Laws
// ---------------------------------------------------------------------------

/// Whether the byte protocol has a message for `event`.
pub open spec fn on_wire(event: EventView) -> bool {
    match event {
        EventView::MouseMove { .. } => true,
        EventView::MouseButton { .. } => true,
        EventView::MouseScroll { .. } => true,
        EventView::KeyEvent { code, .. } => encode_utf8(code).len() <= u8::MAX,
        EventView::Clipboard { text } => encode_utf8(text).len() <= u32::MAX,
        EventView::RequestKeyframe => true,
        EventView::SetBitrate { .. } => true,
        EventView::SetResolution { .. } => true,
        _ => false,
    }
}

/// The message that stands for `event`.
pub open spec fn event_bytes(event: EventView) -> Seq<u8> {
    match event {
        EventView::MouseMove { x, y } => seq![0x01u8] + be_bytes(x as nat, 2) + be_bytes(
            y as nat,
            2,
        ),
        EventView::MouseButton { button, pressed } => seq![
            0x02u8,
            button,
            if pressed {
                1u8
            } else {
                0u8
            },
        ],
        EventView::MouseScroll { dx, dy } => seq![0x03u8] + be_bytes(i16_bits(dx), 2) + be_bytes(
            i16_bits(dy),
            2,
        ),
        EventView::KeyEvent { code, pressed } => seq![0x10u8, encode_utf8(code).len() as u8]
            + encode_utf8(code) + seq![
            if pressed {
                1u8
            } else {
                0u8
            },
        ],
        EventView::Clipboard { text } => seq![0x20u8] + be_bytes(encode_utf8(text).len(), 4)
            + encode_utf8(text),
        EventView::RequestKeyframe => seq![0x30u8, 0x01u8],
        EventView::SetBitrate { kbps } => seq![0x30u8, 0x02u8] + be_bytes(kbps as nat, 4),
        EventView::SetResolution { width, height } => seq![0x30u8, 0x03u8] + be_bytes(
            width as nat,
            2,
        ) + be_bytes(height as nat, 2),
        _ => seq![],
    }
}

/// The messages of several events, one after the other.
pub open spec fn events_bytes(events: Seq<EventView>) -> Seq<u8>
    decreases events.len(),
{
    if events.len() == 0 {
        seq![]
    } else {
        event_bytes(events[0]) + events_bytes(events.drop_first())
    }
}

/// A message that parses has the length that was estimated for it, and its event depends on no
/// byte after that length.
pub proof fn law_length_matches_parse(data: Seq<u8>)
    ensures
        event_at_start(data) is Some ==> 0 < event_length(data) <= data.len(),
        0 < event_length(data) <= data.len() ==> event_length(data.take(event_length(data) as int))
            == event_length(data) && event_at_start(data.take(event_length(data) as int))
            == event_at_start(data),
{
    let len = event_length(data) as int;
    if 0 < len <= data.len() {
        let message = data.take(len);
        if data[0] == 0x20 {
            assert(message.subrange(1, 5) =~= data.subrange(1, 5));
            assert(message.subrange(5, len) =~= data.subrange(5, len));
        } else if data[0] == 0x10 {
            assert(message.subrange(2, len - 1) =~= data.subrange(2, len - 1));
        } else if data[0] == 0x30 {
            if data[1] == 0x02 {
                assert(message.subrange(2, 6) =~= data.subrange(2, 6));
            } else if data[1] == 0x03 {
                assert(message.subrange(2, 4) =~= data.subrange(2, 4));
                assert(message.subrange(4, 6) =~= data.subrange(4, 6));
            }
        } else if data[0] == 0x01 || data[0] == 0x03 {
            assert(message.subrange(1, 3) =~= data.subrange(1, 3));
            assert(message.subrange(3, 5) =~= data.subrange(3, 5));
        }
    }
}

/// A message that is there in full parses, unless it holds a text that is not UTF-8.
pub proof fn law_full_message_parses(data: Seq<u8>)
    requires
        0 < event_length(data) <= data.len(),
    ensures
        event_at_start(data) is Some <==> {
            &&& data[0] == 0x10 ==> utf8_text(data.subrange(2, event_length(data) - 1)) is Some
            &&& data[0] == 0x20 ==> utf8_text(data.subrange(5, event_length(data) as int)) is Some
        },
{
}

/// Every event that has a message is read back from it, with exactly the bytes of the message
/// taken, whatever follows them.
pub proof fn law_event_round_trip(event: EventView, after: Seq<u8>)
    requires
        on_wire(event),
    ensures
        event_length(event_bytes(event) + after) == event_bytes(event).len(),
        event_at_start(event_bytes(event) + after) == Some(event),
        event_bytes(event).len() > 0,
{
    let data = event_bytes(event) + after;
    lemma_byte_range();
    match event {
        EventView::MouseMove { x, y } => {
            lemma_be_bytes_len(x as nat, 2);
            lemma_be_bytes_len(y as nat, 2);
            lemma_be_value_of_be_bytes(x as nat, 2);
            lemma_be_value_of_be_bytes(y as nat, 2);
            assert(data.subrange(1, 3) =~= be_bytes(x as nat, 2));
            assert(data.subrange(3, 5) =~= be_bytes(y as nat, 2));
        },
        EventView::MouseScroll { dx, dy } => {
            lemma_i16_bits(dx);
            lemma_i16_bits(dy);
            lemma_be_bytes_len(i16_bits(dx), 2);
            lemma_be_bytes_len(i16_bits(dy), 2);
            lemma_be_value_of_be_bytes(i16_bits(dx), 2);
            lemma_be_value_of_be_bytes(i16_bits(dy), 2);
            assert(data.subrange(1, 3) =~= be_bytes(i16_bits(dx), 2));
            assert(data.subrange(3, 5) =~= be_bytes(i16_bits(dy), 2));
        },
        EventView::KeyEvent { code, pressed } => {
            let utf8 = encode_utf8(code);
            assert(data.subrange(2, 2 + utf8.len() as int) =~= utf8);
            lemma_utf8_round_trip(code);
        },
        EventView::Clipboard { text } => {
            let utf8 = encode_utf8(text);
            lemma_be_bytes_len(utf8.len(), 4);
            lemma_be_value_of_be_bytes(utf8.len(), 4);
            assert(data.subrange(1, 5) =~= be_bytes(utf8.len(), 4));
            assert(data.subrange(5, 5 + utf8.len() as int) =~= utf8);
            lemma_utf8_round_trip(text);
        },
        EventView::SetBitrate { kbps } => {
            lemma_be_bytes_len(kbps as nat, 4);
            lemma_be_value_of_be_bytes(kbps as nat, 4);
            assert(data.subrange(2, 6) =~= be_bytes(kbps as nat, 4));
        },
        EventView::SetResolution { width, height } => {
            lemma_be_bytes_len(width as nat, 2);
            lemma_be_bytes_len(height as nat, 2);
            lemma_be_value_of_be_bytes(width as nat, 2);
            lemma_be_value_of_be_bytes(height as nat, 2);
            assert(data.subrange(2, 4) =~= be_bytes(width as nat, 2));
            assert(data.subrange(4, 6) =~= be_bytes(height as nat, 2));
        },
        _ => {},
    }
}

/// A buffer that holds the messages of several events gives those events, in their order, and a
/// message at its end that is not there in full adds none.
pub proof fn law_events_in_sequence(events: Seq<EventView>, rest: Seq<u8>)
    requires
        forall|i: int| 0 <= i < events.len() ==> on_wire(#[trigger] events[i]),
        event_length(rest) == 0 || rest.len() < event_length(rest),
    ensures
        events_in(events_bytes(events) + rest) == events,
    decreases events.len(),
{
    let data = events_bytes(events) + rest;
    if events.len() == 0 {
        assert(data =~= rest);
    } else {
        let first = event_bytes(events[0]);
        let after = events_bytes(events.drop_first()) + rest;
        assert(on_wire(events[0]));
        assert(data =~= first + after);
        law_event_round_trip(events[0], after);
        law_length_matches_parse(data);
        assert(data.skip(first.len() as int) =~= after);
        assert forall|i: int| 0 <= i < events.drop_first().len() implies on_wire(
            #[trigger] events.drop_first()[i],
        ) by {
            assert(events.drop_first()[i] == events[i + 1]);
        }
        law_events_in_sequence(events.drop_first(), rest);
        assert(seq![events[0]] + events.drop_first() =~= events);
    }
}

/// What the messages of the pointer say, byte by byte: a move has two numbers of two bytes, the
/// higher byte first; a button has its number and, in one byte, whether it is pressed, which is
/// anything but zero; a scroll has two signed numbers, in two's complement.
pub proof fn law_pointer_messages(a: u8, b: u8, c: u8, d: u8, after: Seq<u8>)
    ensures
        event_length(seq![0x01u8, a, b, c, d] + after) == 5,
        event_at_start(seq![0x01u8, a, b, c, d] + after) == Some(
            EventView::MouseMove { x: (a * 256 + b) as u16, y: (c * 256 + d) as u16 },
        ),
        event_length(seq![0x02u8, a, b] + after) == 3,
        event_at_start(seq![0x02u8, a, b] + after) == Some(
            EventView::MouseButton { button: a, pressed: b > 0 },
        ),
        event_length(seq![0x03u8, a, b, c, d] + after) == 5,
        event_at_start(seq![0x03u8, a, b, c, d] + after) matches Some(
            EventView::MouseScroll { dx, dy },
        ) && {
            &&& dx == a * 256 + b || dx == a * 256 + b - 65536
            &&& dy == c * 256 + d || dy == c * 256 + d - 65536
        },
{
    let first = seq![a, b];
    let second = seq![c, d];
    lemma_be_value_2(first);
    lemma_be_value_2(second);
    let move_data = seq![0x01u8, a, b, c, d] + after;
    assert(move_data.subrange(1, 3) =~= first);
    assert(move_data.subrange(3, 5) =~= second);
    let scroll_data = seq![0x03u8, a, b, c, d] + after;
    assert(scroll_data.subrange(1, 3) =~= first);
    assert(scroll_data.subrange(3, 5) =~= second);
}

/// What a key message says, byte by byte: the length of the key's name, the name, and whether the
/// key is pressed, which is anything but zero. A name that is not UTF-8 stands for no key.
pub proof fn law_key_message(name: Seq<u8>, pressed: u8, after: Seq<u8>)
    requires
        name.len() <= 255,
    ensures
        ({
            let data = seq![0x10u8, name.len() as u8] + name + seq![pressed] + after;
            &&& event_length(data) == name.len() + 3
            &&& utf8_text(name) matches Some(code) ==> event_at_start(data) == Some(
                EventView::KeyEvent { code, pressed: pressed > 0 },
            )
            &&& utf8_text(name) is None ==> event_at_start(data) is None
        }),
{
    let data = seq![0x10u8, name.len() as u8] + name + seq![pressed] + after;
    assert(data.subrange(2, 2 + name.len() as int) =~= name);
}

/// What a clipboard message says, byte by byte: the length of the text in four bytes, the highest
/// first, and the text. A text that is not UTF-8 is none.
pub proof fn law_clipboard_message(a: u8, b: u8, c: u8, d: u8, utf8: Seq<u8>, after: Seq<u8>)
    requires
        utf8.len() == ((a * 256 + b) * 256 + c) * 256 + d,
    ensures
        ({
            let data = seq![0x20u8, a, b, c, d] + utf8 + after;
            &&& event_length(data) == utf8.len() + 5
            &&& utf8_text(utf8) matches Some(text) ==> event_at_start(data) == Some(
                EventView::Clipboard { text },
            )
            &&& utf8_text(utf8) is None ==> event_at_start(data) is None
        }),
{
    let data = seq![0x20u8, a, b, c, d] + utf8 + after;
    lemma_be_value_4(seq![a, b, c, d]);
    assert(data.subrange(1, 5) =~= seq![a, b, c, d]);
    assert(data.subrange(5, 5 + utf8.len() as int) =~= utf8);
}

/// What the control messages say, byte by byte: the second byte tells a request for a keyframe
/// from a bitrate, which has one number of four bytes, and from a resolution, which has two
/// numbers of two bytes, the width first.
pub proof fn law_control_messages(a: u8, b: u8, c: u8, d: u8, after: Seq<u8>)
    ensures
        event_length(seq![0x30u8, 0x01u8] + after) == 2,
        event_at_start(seq![0x30u8, 0x01u8] + after) == Some(EventView::RequestKeyframe),
        event_length(seq![0x30u8, 0x02u8, a, b, c, d] + after) == 6,
        event_at_start(seq![0x30u8, 0x02u8, a, b, c, d] + after) == Some(
            EventView::SetBitrate { kbps: (((a * 256 + b) * 256 + c) * 256 + d) as u32 },
        ),
        event_length(seq![0x30u8, 0x03u8, a, b, c, d] + after) == 6,
        event_at_start(seq![0x30u8, 0x03u8, a, b, c, d] + after) == Some(
            EventView::SetResolution { width: (a * 256 + b) as u16, height: (c * 256 + d) as u16 },
        ),
{
    lemma_be_value_2(seq![a, b]);
    lemma_be_value_2(seq![c, d]);
    lemma_be_value_4(seq![a, b, c, d]);
    let bitrate = seq![0x30u8, 0x02u8, a, b, c, d] + after;
    assert(bitrate.subrange(2, 6) =~= seq![a, b, c, d]);
    let resolution = seq![0x30u8, 0x03u8, a, b, c, d] + after;
    assert(resolution.subrange(2, 4) =~= seq![a, b]);
    assert(resolution.subrange(4, 6) =~= seq![c, d]);
}

/// Bytes that start no known message, or are fewer than their message has, stand for no event, and
/// nothing that follows them is read.
pub proof fn law_unknown_ends_reading(data: Seq<u8>)
    requires
        ({
            ||| data.len() == 0
            ||| !seq![0x01u8, 0x02, 0x03, 0x10, 0x20, 0x30].contains(data[0])
            ||| data.len() < 2
            ||| data[0] == 0x02 && data.len() < 3
            ||| (data[0] == 0x01 || data[0] == 0x03) && data.len() < 5
            ||| data[0] == 0x10 && data.len() < data[1] + 3
            ||| data[0] == 0x20 && data.len() < 5
            ||| data[0] == 0x20 && data.len() < ((data[1] * 256 + data[2]) * 256 + data[3]) * 256
                + data[4] + 5
            ||| data[0] == 0x30 && (data[1] == 0 || data[1] > 3)
            ||| data[0] == 0x30 && data[1] > 1 && data.len() < 6
        }),
    ensures
        event_at_start(data) is None,
        events_in(data).len() == 0,
{
    let kinds = seq![0x01u8, 0x02, 0x03, 0x10, 0x20, 0x30];
    assert(kinds[0] == 0x01 && kinds[1] == 0x02 && kinds[2] == 0x03 && kinds[3] == 0x10 && kinds[4]
        == 0x20 && kinds[5] == 0x30);
    if data.len() >= 5 {
        lemma_be_value_4(data.subrange(1, 5));
    }
}

/// A message that is there in full is taken off the front and leads to its event, or to none; all
/// that follows it is read as if it stood alone.
pub proof fn law_messages_one_by_one(message: Seq<u8>, rest: Seq<u8>)
    requires
        message.len() > 0,
        event_length(message) == message.len(),
    ensures
        event_at_start(message) matches Some(event) ==> events_in(message + rest) == seq![event]
            + events_in(rest),
        event_at_start(message) is None ==> events_in(message + rest) == events_in(rest),
{
    let data = message + rest;
    let len = message.len() as int;
    if message[0] == 0x20 {
        assert(data.subrange(1, 5) =~= message.subrange(1, 5));
    }
    assert(event_length(data) == message.len());
    assert(data.take(len) =~= message);
    assert(data.skip(len) =~= rest);
    assert(Seq::<EventView>::empty() + events_in(rest) =~= events_in(rest));
}

} // verus!
