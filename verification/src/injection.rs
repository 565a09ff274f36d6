//! Which XTest events an input event is injected as.

use crate::keycodes::{
    build_dom_to_x11_keycode_map, dom_code_to_keycode_fallback, dom_keycode, fallback_keycode,
    or_else, KeycodeMap,
};
use crate::wire::i16_from_bits;
use vstd::prelude::*;

verus! {

/// X11 event codes, as `XTestFakeInput` takes them.
pub const KEY_PRESS: u8 = 2;

pub const KEY_RELEASE: u8 = 3;

pub const BUTTON_PRESS: u8 = 4;

pub const BUTTON_RELEASE: u8 = 5;

pub const MOTION_NOTIFY: u8 = 6;

/// One event to inject through the XTest extension, at once, on the root window.
#[derive(Debug, Clone, Copy, PartialEq, Eq, Structural)]
pub struct FakeInput {
    pub event_type: u8,
    pub detail: u8,
    pub root_x: i16,
    pub root_y: i16,
}

/// Why an event cannot be injected.
#[derive(Debug)]
pub enum InputError {
    /// No keycode is known for this DOM key name.
    UnknownKeyCode { code: String },
}

/// A key or button event: it has no position.
pub open spec fn key_or_button(event_type: u8, detail: u8) -> FakeInput {
    FakeInput { event_type, detail, root_x: 0, root_y: 0 }
}

/// `count` clicks of `button`, each a press and a release.
pub open spec fn clicks(button: u8, count: nat) -> Seq<FakeInput>
    decreases count,
{
    if count == 0 {
        seq![]
    } else {
        clicks(button, (count - 1) as nat) + seq![
            key_or_button(BUTTON_PRESS, button),
            key_or_button(BUTTON_RELEASE, button),
        ]
    }
}

/// How far a scroll goes, whichever way.
pub open spec fn magnitude(d: i16) -> nat {
    if d < 0 {
        (-d) as nat
    } else {
        d as nat
    }
}

/// A scroll, as clicks: buttons 4 and 5 are up and down, 6 and 7 are left and right; the vertical
/// ones come first.
pub open spec fn scroll_clicks(dx: i16, dy: i16) -> Seq<FakeInput> {
    clicks(if dy < 0 { 4 } else { 5 }, magnitude(dy)) + clicks(
        if dx < 0 { 6 } else { 7 },
        magnitude(dx),
    )
}

fn push_clicks(inputs: &mut Vec<FakeInput>, button: u8, count: u16)
    ensures
        final(inputs)@ == old(inputs)@ + clicks(button, count as nat),
{
    let ghost before = inputs@;
    let mut done: u16 = 0;
    while done < count
        invariant
            done <= count,
            inputs@ == before + clicks(button, done as nat),
        decreases count - done,
    {
        inputs.push(FakeInput { event_type: BUTTON_PRESS, detail: button, root_x: 0, root_y: 0 });
        inputs.push(FakeInput { event_type: BUTTON_RELEASE, detail: button, root_x: 0, root_y: 0 });
        done = done + 1;
        proof {
            assert(inputs@ =~= before + clicks(button, done as nat));
        }
    }
}

fn magnitude_of(d: i16) -> (n: u16)
    ensures
        n == magnitude(d),
{
    if d < 0 {
        (-(d as i32)) as u16
    } else {
        d as u16
    }
}

/// Turns input events into XTest events for one display.
#[derive(Debug)]
pub struct InputHandler {
    display: String,
    keycode_map: KeycodeMap,
}

impl InputHandler {
    /// The display that events are injected on.
    pub closed spec fn on_display(&self) -> Seq<char> {
        self.display@
    }

    /// The keycode of the key that DOM names `code`.
    pub closed spec fn keycode(&self, code: Seq<char>) -> Option<u8> {
        or_else(self.keycode_map.keycode(code), fallback_keycode(code))
    }

    /// A handler for the display `disp`, with the keycodes of a standard US keyboard.
    pub fn new(disp: &str) -> (handler: Self)
        ensures
            handler.on_display() == disp@,
            forall|code: Seq<char>| #[trigger]
                handler.keycode(code) == or_else(dom_keycode(code), fallback_keycode(code)),
    {
        InputHandler { display: disp.to_owned(), keycode_map: build_dom_to_x11_keycode_map() }
    }

    /// The handler after the X server was restarted: same display, keycodes read anew.
    pub fn reconnect(&mut self)
        ensures
            final(self).on_display() == old(self).on_display(),
            forall|code: Seq<char>| #[trigger]
                final(self).keycode(code) == or_else(dom_keycode(code), fallback_keycode(code)),
    {
        self.keycode_map = build_dom_to_x11_keycode_map();
    }

    /// The display that events are injected on.
    pub fn display(&self) -> (display: &str)
        ensures
            display@ == self.on_display(),
    {
        self.display.as_str()
    }

    /// A mouse move. X11 has signed coordinates: the sixteen bits are kept.
    pub fn mouse_move(&self, x: u16, y: u16) -> (input: FakeInput)
        ensures
            input == (FakeInput {
                event_type: MOTION_NOTIFY,
                detail: 0,
                root_x: i16_from_bits(x as nat),
                root_y: i16_from_bits(y as nat),
            }),
            input.event_type == 6,
            x - input.root_x == 0 || x - input.root_x == 65536,
            y - input.root_y == 0 || y - input.root_y == 65536,
    {
        FakeInput {
            event_type: MOTION_NOTIFY,
            detail: 0,
            root_x: signed(x),
            root_y: signed(y),
        }
    }

    /// A mouse button press or release.
    pub fn mouse_button(&self, button: u8, pressed: bool) -> (input: FakeInput)
        ensures
            input == key_or_button(
                if pressed {
                    BUTTON_PRESS
                } else {
                    BUTTON_RELEASE
                },
                button,
            ),
            pressed ==> input.event_type == 4,
            !pressed ==> input.event_type == 5,
            input.detail == button && input.root_x == 0 && input.root_y == 0,
    {
        let event_type = if pressed {
            BUTTON_PRESS
        } else {
            BUTTON_RELEASE
        };
        FakeInput { event_type, detail: button, root_x: 0, root_y: 0 }
    }

    /// A mouse scroll.
    pub fn mouse_scroll(&self, dx: i16, dy: i16) -> (inputs: Vec<FakeInput>)
        ensures
            inputs@ == scroll_clicks(dx, dy),
    {
        let mut inputs: Vec<FakeInput> = Vec::new();
        push_clicks(&mut inputs, if dy < 0 { 4 } else { 5 }, magnitude_of(dy));
        push_clicks(&mut inputs, if dx < 0 { 6 } else { 7 }, magnitude_of(dx));
        proof {
            assert(inputs@ =~= scroll_clicks(dx, dy));
        }
        inputs
    }

    /// A key press or release from a DOM `KeyboardEvent.code` string.
    pub fn key_event(&self, code: &str, pressed: bool) -> (input: Result<FakeInput, InputError>)
        ensures
            match input {
                Ok(event) => self.keycode(code@) is Some && event == key_or_button(
                    if pressed {
                        KEY_PRESS
                    } else {
                        KEY_RELEASE
                    },
                    self.keycode(code@)->0,
                ),
                Err(InputError::UnknownKeyCode { code: unknown }) => self.keycode(code@) is None
                    && unknown@ == code@,
            },
            input matches Ok(event) ==> {
                &&& pressed ==> event.event_type == 2
                &&& !pressed ==> event.event_type == 3
                &&& event.root_x == 0 && event.root_y == 0
            },
    {
        let keycode = match self.keycode_map.get(code) {
            Some(keycode) => Some(keycode),
            None => dom_code_to_keycode_fallback(code),
        };
        let event_type = if pressed {
            KEY_PRESS
        } else {
            KEY_RELEASE
        };
        match keycode {
            Some(detail) => Ok(FakeInput { event_type, detail, root_x: 0, root_y: 0 }),
            None => Err(InputError::UnknownKeyCode { code: code.to_owned() }),
        }
    }
}

fn signed(bits: u16) -> (x: i16)
    ensures
        x == i16_from_bits(bits as nat),
{
    if bits < 0x8000 {
        bits as i16
    } else {
        (bits as i32 - 0x1_0000) as i16
    }
}

/// A scroll is two events per step, and nothing is injected for a scroll that goes nowhere.
pub proof fn law_scroll_length(dx: i16, dy: i16)
    ensures
        scroll_clicks(dx, dy).len() == 2 * magnitude(dx) + 2 * magnitude(dy),
{
    lemma_clicks_len(if dy < 0 { 4 } else { 5 }, magnitude(dy));
    lemma_clicks_len(if dx < 0 { 6 } else { 7 }, magnitude(dx));
}

proof fn lemma_clicks_len(button: u8, count: nat)
    ensures
        clicks(button, count).len() == 2 * count,
    decreases count,
{
    if count > 0 {
        lemma_clicks_len(button, (count - 1) as nat);
    }
}

/// Which events a row of clicks is made of.
proof fn lemma_clicks(button: u8, count: nat)
    ensures
        clicks(button, count).len() == 2 * count,
        forall|i: int|
            0 <= i < 2 * count ==> #[trigger] clicks(button, count)[i] == (FakeInput {
                event_type: if i % 2 == 0 {
                    4
                } else {
                    5
                },
                detail: button,
                root_x: 0,
                root_y: 0,
            }),
    decreases count,
{
    if count > 0 {
        lemma_clicks(button, (count - 1) as nat);
    }
}

/// A scroll is a row of presses and releases in turn: first one of each for every step up or down,
/// of button 5 for a positive `dy` and of button 4 for a negative one; then one of each for every
/// step to a side, of button 7 for a positive `dx` and of button 6 for a negative one. There is no
/// event of another button, and none has a position.
pub proof fn law_scroll_buttons(dx: i16, dy: i16)
    ensures
        ({
            let events = scroll_clicks(dx, dy);
            let vertical = if dy >= 0 {
                2 * dy
            } else {
                -2 * dy
            };
            let horizontal = if dx >= 0 {
                2 * dx
            } else {
                -2 * dx
            };
            &&& events.len() == vertical + horizontal
            &&& forall|i: int|
                0 <= i < events.len() ==> (#[trigger] events[i]).event_type == 4 + i % 2
                    && events[i].root_x == 0 && events[i].root_y == 0
            &&& dy > 0 ==> forall|i: int|
                0 <= i < vertical ==> (#[trigger] events[i]).detail == 5
            &&& dy < 0 ==> forall|i: int|
                0 <= i < vertical ==> (#[trigger] events[i]).detail == 4
            &&& dx > 0 ==> forall|i: int|
                vertical <= i < events.len() ==> (#[trigger] events[i]).detail == 7
            &&& dx < 0 ==> forall|i: int|
                vertical <= i < events.len() ==> (#[trigger] events[i]).detail == 6
        }),
{
    let up_down = if dy < 0 { 4u8 } else { 5u8 };
    let sideways = if dx < 0 { 6u8 } else { 7u8 };
    let first = clicks(up_down, magnitude(dy));
    let second = clicks(sideways, magnitude(dx));
    lemma_clicks(up_down, magnitude(dy));
    lemma_clicks(sideways, magnitude(dx));
    let events = scroll_clicks(dx, dy);
    assert forall|i: int| 0 <= i < events.len() implies (#[trigger] events[i]).event_type == 4 + i
        % 2 && events[i].root_x == 0 && events[i].root_y == 0 by {
        if i < first.len() {
            assert(events[i] == first[i]);
        } else {
            assert(events[i] == second[i - first.len()]);
            assert((i - first.len()) % 2 == i % 2);
        }
    }
    assert forall|i: int| 0 <= i < first.len() implies (#[trigger] events[i]).detail == up_down by {
        assert(events[i] == first[i]);
    }
    assert forall|i: int| first.len() <= i < events.len() implies (#[trigger] events[i]).detail
        == sideways by {
        assert(events[i] == second[i - first.len()]);
    }
}

/// A scroll the other way takes the other button of each pair, event by event.
pub proof fn law_scroll_back(dx: i16, dy: i16, i: int)
    requires
        dx > i16::MIN,
        dy > i16::MIN,
        0 <= i < scroll_clicks(dx, dy).len(),
    ensures
        ({
            let there = scroll_clicks(dx, dy);
            let back = scroll_clicks((-dx) as i16, (-dy) as i16);
            &&& back.len() == there.len()
            &&& back[i].event_type == there[i].event_type
            &&& there[i].detail == 4 || there[i].detail == 5 ==> back[i].detail + there[i].detail
                == 9
            &&& there[i].detail == 6 || there[i].detail == 7 ==> back[i].detail + there[i].detail
                == 13
        }),
{
    law_scroll_buttons(dx, dy);
    law_scroll_buttons((-dx) as i16, (-dy) as i16);
}

} // verus!
