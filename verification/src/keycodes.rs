//! DOM `KeyboardEvent.code` names and the X11 keycodes of a standard US keyboard.

use crate::text::same_text;
use vstd::prelude::*;

verus! {

/// A table from DOM key names to X11 keycodes.
#[derive(Debug)]
pub struct KeycodeMap {
    entries: Vec<(String, u8)>,
}

/// What a list of entries says.
pub open spec fn entry_views(entries: Seq<(String, u8)>) -> Seq<(Seq<char>, u8)> {
    entries.map_values(|e: (String, u8)| (e.0@, e.1))
}

/// The keycode beside the first entry whose name is `code`.
pub open spec fn find_entry(entries: Seq<(Seq<char>, u8)>, code: Seq<char>) -> Option<u8>
    decreases entries.len(),
{
    if entries.len() == 0 {
        None
    } else if entries[0].0 == code {
        Some(entries[0].1)
    } else {
        find_entry(entries.drop_first(), code)
    }
}

/// Whether no two entries have the same name.
pub open spec fn names_differ(entries: Seq<(Seq<char>, u8)>) -> bool {
    forall|i: int, j: int|
        0 <= i < j < entries.len() ==> (#[trigger] entries[i]).0 != (#[trigger] entries[j]).0
}

/// `first` if there is one, else `second`.
pub open spec fn or_else(first: Option<u8>, second: Option<u8>) -> Option<u8> {
    match first {
        Some(keycode) => Some(keycode),
        None => second,
    }
}

/// `keycode` if `code` is `name`.
pub open spec fn entry(code: Seq<char>, name: Seq<char>, keycode: u8) -> Option<u8> {
    if code == name {
        Some(keycode)
    } else {
        None
    }
}

/// What one entry more does to lookups.
proof fn lemma_find_entry_push(
    entries: Seq<(Seq<char>, u8)>,
    added: (Seq<char>, u8),
    code: Seq<char>,
)
    ensures
        find_entry(entries.push(added), code) == or_else(
            find_entry(entries, code),
            entry(code, added.0, added.1),
        ),
    decreases entries.len(),
{
    let all = entries.push(added);
    if entries.len() == 0 {
        reveal_with_fuel(find_entry, 2);
    } else {
        assert(all.drop_first() =~= entries.drop_first().push(added));
        lemma_find_entry_push(entries.drop_first(), added, code);
    }
}

/// A name that is not found stands in no entry.
proof fn lemma_not_found(entries: Seq<(Seq<char>, u8)>, code: Seq<char>)
    requires
        find_entry(entries, code) is None,
    ensures
        forall|i: int| 0 <= i < entries.len() ==> (#[trigger] entries[i]).0 != code,
    decreases entries.len(),
{
    if entries.len() > 0 {
        let rest = entries.drop_first();
        lemma_not_found(rest, code);
        assert forall|i: int| 0 <= i < entries.len() implies (#[trigger] entries[i]).0 != code by {
            if i > 0 {
                assert(entries[i] == rest[i - 1]);
            }
        }
    }
}

impl KeycodeMap {
    /// The entries of the table, in the order in which they were added.
    pub closed spec fn listed(&self) -> Seq<(Seq<char>, u8)> {
        entry_views(self.entries@)
    }

    /// The keycode that the table has for `code`.
    pub open spec fn keycode(&self, code: Seq<char>) -> Option<u8> {
        find_entry(self.listed(), code)
    }

    /// No name has two entries.
    pub open spec fn wf(&self) -> bool {
        names_differ(self.listed())
    }

    /// A table without entries.
    pub fn new() -> (map: Self)
        ensures
            map.wf(),
            map.listed() == Seq::<(Seq<char>, u8)>::empty(),
            forall|code: Seq<char>| #[trigger] map.keycode(code) is None,
    {
        let map = KeycodeMap { entries: Vec::new() };
        proof {
            assert(map.listed() =~= Seq::<(Seq<char>, u8)>::empty());
        }
        map
    }

    /// Gives the key `name` the keycode `keycode`, unless it has one.
    pub fn insert(&mut self, name: &str, keycode: u8)
        requires
            old(self).wf(),
        ensures
            final(self).wf(),
            final(self).listed() == (if old(self).keycode(name@) is Some {
                old(self).listed()
            } else {
                old(self).listed().push((name@, keycode))
            }),
            forall|code: Seq<char>| #[trigger]
                final(self).keycode(code) == or_else(
                    old(self).keycode(code),
                    entry(code, name@, keycode),
                ),
    {
        let ghost before = self.listed();
        if self.get(name).is_none() {
            self.entries.push((name.to_owned(), keycode));
            proof {
                assert(self.listed() =~= before.push((name@, keycode)));
                lemma_not_found(before, name@);
                assert forall|code: Seq<char>| #[trigger]
                    self.keycode(code) == or_else(
                        find_entry(before, code),
                        entry(code, name@, keycode),
                    ) by {
                    lemma_find_entry_push(before, (name@, keycode), code);
                }
            }
        }
    }

    /// The keycode of the key `code`.
    pub fn get(&self, code: &str) -> (keycode: Option<u8>)
        ensures
            keycode == self.keycode(code@),
    {
        let ghost listed = self.listed();
        let mut i: usize = 0;
        proof {
            assert(listed.skip(0) =~= listed);
        }
        while i < self.entries.len()
            invariant
                i <= self.entries@.len(),
                listed == entry_views(self.entries@),
                find_entry(listed.skip(i as int), code@) == find_entry(listed, code@),
            decreases self.entries.len() - i,
        {
            let ghost rest = listed.skip(i as int);
            proof {
                assert(rest[0] == (self.entries@[i as int].0@, self.entries@[i as int].1));
                assert(rest.drop_first() =~= listed.skip(i + 1));
            }
            if same_text(self.entries[i].0.as_str(), code) {
                return Some(self.entries[i].1);
            }
            i = i + 1;
        }
        None
    }

    /// The entries of the table, in the order in which they were added.
    pub fn entries(&self) -> (entries: &Vec<(String, u8)>)
        ensures
            entry_views(entries@) == self.listed(),
    {
        &self.entries
    }
}

/// Letters. X11 keycodes follow the physical QWERTY layout, not the alphabet.
pub open spec fn letter_keycode(code: Seq<char>) -> Option<u8> {
    if code == "KeyQ"@ {
        Some(24)
    } else if code == "KeyW"@ {
        Some(25)
    } else if code == "KeyE"@ {
        Some(26)
    } else if code == "KeyR"@ {
        Some(27)
    } else if code == "KeyT"@ {
        Some(28)
    } else if code == "KeyY"@ {
        Some(29)
    } else if code == "KeyU"@ {
        Some(30)
    } else if code == "KeyI"@ {
        Some(31)
    } else if code == "KeyO"@ {
        Some(32)
    } else if code == "KeyP"@ {
        Some(33)
    } else if code == "KeyA"@ {
        Some(38)
    } else if code == "KeyS"@ {
        Some(39)
    } else if code == "KeyD"@ {
        Some(40)
    } else if code == "KeyF"@ {
        Some(41)
    } else if code == "KeyG"@ {
        Some(42)
    } else if code == "KeyH"@ {
        Some(43)
    } else if code == "KeyJ"@ {
        Some(44)
    } else if code == "KeyK"@ {
        Some(45)
    } else if code == "KeyL"@ {
        Some(46)
    } else if code == "KeyZ"@ {
        Some(52)
    } else if code == "KeyX"@ {
        Some(53)
    } else if code == "KeyC"@ {
        Some(54)
    } else if code == "KeyV"@ {
        Some(55)
    } else if code == "KeyB"@ {
        Some(56)
    } else if code == "KeyN"@ {
        Some(57)
    } else if code == "KeyM"@ {
        Some(58)
    } else {
        None
    }
}

/// Digits of the main block: 1 to 9, then 0.
pub open spec fn digit_keycode(code: Seq<char>) -> Option<u8> {
    if code == "Digit0"@ {
        Some(19)
    } else if code == "Digit1"@ {
        Some(10)
    } else if code == "Digit2"@ {
        Some(11)
    } else if code == "Digit3"@ {
        Some(12)
    } else if code == "Digit4"@ {
        Some(13)
    } else if code == "Digit5"@ {
        Some(14)
    } else if code == "Digit6"@ {
        Some(15)
    } else if code == "Digit7"@ {
        Some(16)
    } else if code == "Digit8"@ {
        Some(17)
    } else if code == "Digit9"@ {
        Some(18)
    } else {
        None
    }
}

/// Function keys. The last two stand apart from the first ten.
pub open spec fn function_keycode(code: Seq<char>) -> Option<u8> {
    if code == "F1"@ {
        Some(67)
    } else if code == "F2"@ {
        Some(68)
    } else if code == "F3"@ {
        Some(69)
    } else if code == "F4"@ {
        Some(70)
    } else if code == "F5"@ {
        Some(71)
    } else if code == "F6"@ {
        Some(72)
    } else if code == "F7"@ {
        Some(73)
    } else if code == "F8"@ {
        Some(74)
    } else if code == "F9"@ {
        Some(75)
    } else if code == "F10"@ {
        Some(76)
    } else if code == "F11"@ {
        Some(95)
    } else if code == "F12"@ {
        Some(96)
    } else {
        None
    }
}

/// Modifiers.
pub open spec fn modifier_keycode(code: Seq<char>) -> Option<u8> {
    if code == "ShiftLeft"@ {
        Some(50)
    } else if code == "ShiftRight"@ {
        Some(62)
    } else if code == "ControlLeft"@ {
        Some(37)
    } else if code == "ControlRight"@ {
        Some(105)
    } else if code == "AltLeft"@ {
        Some(64)
    } else if code == "AltRight"@ {
        Some(108)
    } else if code == "MetaLeft"@ {
        Some(133)
    } else if code == "MetaRight"@ {
        Some(134)
    } else if code == "CapsLock"@ {
        Some(66)
    } else {
        None
    }
}

/// Editing and navigation.
pub open spec fn editing_keycode(code: Seq<char>) -> Option<u8> {
    if code == "Space"@ {
        Some(65)
    } else if code == "Enter"@ {
        Some(36)
    } else if code == "Tab"@ {
        Some(23)
    } else if code == "Escape"@ {
        Some(9)
    } else if code == "Backspace"@ {
        Some(22)
    } else if code == "Delete"@ {
        Some(119)
    } else if code == "Insert"@ {
        Some(118)
    } else if code == "Home"@ {
        Some(110)
    } else if code == "End"@ {
        Some(115)
    } else if code == "PageUp"@ {
        Some(112)
    } else if code == "PageDown"@ {
        Some(117)
    } else if code == "ArrowUp"@ {
        Some(111)
    } else if code == "ArrowDown"@ {
        Some(116)
    } else if code == "ArrowLeft"@ {
        Some(113)
    } else if code == "ArrowRight"@ {
        Some(114)
    } else {
        None
    }
}

/// Punctuation.
pub open spec fn punctuation_keycode(code: Seq<char>) -> Option<u8> {
    if code == "Minus"@ {
        Some(20)
    } else if code == "Equal"@ {
        Some(21)
    } else if code == "BracketLeft"@ {
        Some(34)
    } else if code == "BracketRight"@ {
        Some(35)
    } else if code == "Backslash"@ {
        Some(51)
    } else if code == "Semicolon"@ {
        Some(47)
    } else if code == "Quote"@ {
        Some(48)
    } else if code == "Comma"@ {
        Some(59)
    } else if code == "Period"@ {
        Some(60)
    } else if code == "Slash"@ {
        Some(61)
    } else if code == "Backquote"@ {
        Some(49)
    } else {
        None
    }
}

/// The number pad. Its keycodes follow the physical layout, not the numbers.
pub open spec fn numpad_keycode(code: Seq<char>) -> Option<u8> {
    if code == "Numpad0"@ {
        Some(90)
    } else if code == "Numpad1"@ {
        Some(87)
    } else if code == "Numpad2"@ {
        Some(88)
    } else if code == "Numpad3"@ {
        Some(89)
    } else if code == "Numpad4"@ {
        Some(83)
    } else if code == "Numpad5"@ {
        Some(84)
    } else if code == "Numpad6"@ {
        Some(85)
    } else if code == "Numpad7"@ {
        Some(79)
    } else if code == "Numpad8"@ {
        Some(80)
    } else if code == "Numpad9"@ {
        Some(81)
    } else if code == "NumpadEnter"@ {
        Some(104)
    } else if code == "NumpadAdd"@ {
        Some(86)
    } else if code == "NumpadSubtract"@ {
        Some(82)
    } else if code == "NumpadMultiply"@ {
        Some(63)
    } else if code == "NumpadDivide"@ {
        Some(106)
    } else if code == "NumpadDecimal"@ {
        Some(91)
    } else if code == "NumLock"@ {
        Some(77)
    } else {
        None
    }
}

/// Print Screen, Scroll Lock, Pause.
pub open spec fn system_keycode(code: Seq<char>) -> Option<u8> {
    if code == "PrintScreen"@ {
        Some(107)
    } else if code == "ScrollLock"@ {
        Some(78)
    } else if code == "Pause"@ {
        Some(127)
    } else {
        None
    }
}

/// The X11 keycode of the key that DOM names `code`.
pub open spec fn dom_keycode(code: Seq<char>) -> Option<u8> {
    let k1 = or_else(letter_keycode(code), digit_keycode(code));
    let k2 = or_else(k1, function_keycode(code));
    let k3 = or_else(k2, modifier_keycode(code));
    let k4 = or_else(k3, editing_keycode(code));
    let k5 = or_else(k4, punctuation_keycode(code));
    let k6 = or_else(k5, numpad_keycode(code));
    or_else(k6, system_keycode(code))
}

/// Which group of keys a name belongs to, if it belongs to any: its first letters tell.
spec fn group_of(code: Seq<char>) -> int {
    let (a, b, c) = (code[0], code[1], code[2]);
    if a == 'K' {
        1
    } else if a == 'D' && b == 'i' {
        2
    } else if a == 'F' {
        3
    } else if a == 'S' && b == 'h' || a == 'C' && b == 'o' && c == 'n' || a == 'A' && b == 'l' || a
        == 'M' && b == 'e' || a == 'C' && b == 'a' {
        4
    } else if a == 'M' && b == 'i' || a == 'E' && b == 'q' || a == 'B' && b == 'r' || a == 'S' && b
        == 'e' || a == 'Q' || a == 'C' && b == 'o' && c == 'm' || a == 'P' && b == 'e' || a == 'S'
        && b == 'l' || a == 'B' && code[5] == 'l' || a == 'B' && code[4] == 'q' {
        6
    } else if a == 'N' {
        7
    } else if a == 'P' && b == 'r' || a == 'S' && b == 'c' || a == 'P' && b == 'a' && c == 'u' {
        8
    } else {
        5
    }
}

proof fn lemma_letter_group(code: Seq<char>)
    requires
        letter_keycode(code) is Some,
    ensures
        group_of(code) == 1,
{
    reveal_strlit("KeyQ");
    reveal_strlit("KeyW");
    reveal_strlit("KeyE");
    reveal_strlit("KeyR");
    reveal_strlit("KeyT");
    reveal_strlit("KeyY");
    reveal_strlit("KeyU");
    reveal_strlit("KeyI");
    reveal_strlit("KeyO");
    reveal_strlit("KeyP");
    reveal_strlit("KeyA");
    reveal_strlit("KeyS");
    reveal_strlit("KeyD");
    reveal_strlit("KeyF");
    reveal_strlit("KeyG");
    reveal_strlit("KeyH");
    reveal_strlit("KeyJ");
    reveal_strlit("KeyK");
    reveal_strlit("KeyL");
    reveal_strlit("KeyZ");
    reveal_strlit("KeyX");
    reveal_strlit("KeyC");
    reveal_strlit("KeyV");
    reveal_strlit("KeyB");
    reveal_strlit("KeyN");
    reveal_strlit("KeyM");
}

proof fn lemma_digit_group(code: Seq<char>)
    requires
        digit_keycode(code) is Some,
    ensures
        group_of(code) == 2,
{
    reveal_strlit("Digit0");
    reveal_strlit("Digit1");
    reveal_strlit("Digit2");
    reveal_strlit("Digit3");
    reveal_strlit("Digit4");
    reveal_strlit("Digit5");
    reveal_strlit("Digit6");
    reveal_strlit("Digit7");
    reveal_strlit("Digit8");
    reveal_strlit("Digit9");
}

proof fn lemma_function_group(code: Seq<char>)
    requires
        function_keycode(code) is Some,
    ensures
        group_of(code) == 3,
{
    reveal_strlit("F1");
    reveal_strlit("F2");
    reveal_strlit("F3");
    reveal_strlit("F4");
    reveal_strlit("F5");
    reveal_strlit("F6");
    reveal_strlit("F7");
    reveal_strlit("F8");
    reveal_strlit("F9");
    reveal_strlit("F10");
    reveal_strlit("F11");
    reveal_strlit("F12");
}

proof fn lemma_modifier_group(code: Seq<char>)
    requires
        modifier_keycode(code) is Some,
    ensures
        group_of(code) == 4,
{
    reveal_strlit("ShiftLeft");
    reveal_strlit("ShiftRight");
    reveal_strlit("ControlLeft");
    reveal_strlit("ControlRight");
    reveal_strlit("AltLeft");
    reveal_strlit("AltRight");
    reveal_strlit("MetaLeft");
    reveal_strlit("MetaRight");
    reveal_strlit("CapsLock");
}

proof fn lemma_editing_group(code: Seq<char>)
    requires
        editing_keycode(code) is Some,
    ensures
        group_of(code) == 5,
{
    reveal_strlit("Space");
    reveal_strlit("Enter");
    reveal_strlit("Tab");
    reveal_strlit("Escape");
    reveal_strlit("Backspace");
    reveal_strlit("Delete");
    reveal_strlit("Insert");
    reveal_strlit("Home");
    reveal_strlit("End");
    reveal_strlit("PageUp");
    reveal_strlit("PageDown");
    reveal_strlit("ArrowUp");
    reveal_strlit("ArrowDown");
    reveal_strlit("ArrowLeft");
    reveal_strlit("ArrowRight");
}

proof fn lemma_punctuation_group(code: Seq<char>)
    requires
        punctuation_keycode(code) is Some,
    ensures
        group_of(code) == 6,
{
    reveal_strlit("Minus");
    reveal_strlit("Equal");
    reveal_strlit("BracketLeft");
    reveal_strlit("BracketRight");
    reveal_strlit("Backslash");
    reveal_strlit("Semicolon");
    reveal_strlit("Quote");
    reveal_strlit("Comma");
    reveal_strlit("Period");
    reveal_strlit("Slash");
    reveal_strlit("Backquote");
}

proof fn lemma_numpad_group(code: Seq<char>)
    requires
        numpad_keycode(code) is Some,
    ensures
        group_of(code) == 7,
{
    reveal_strlit("Numpad0");
    reveal_strlit("Numpad1");
    reveal_strlit("Numpad2");
    reveal_strlit("Numpad3");
    reveal_strlit("Numpad4");
    reveal_strlit("Numpad5");
    reveal_strlit("Numpad6");
    reveal_strlit("Numpad7");
    reveal_strlit("Numpad8");
    reveal_strlit("Numpad9");
    reveal_strlit("NumpadEnter");
    reveal_strlit("NumpadAdd");
    reveal_strlit("NumpadSubtract");
    reveal_strlit("NumpadMultiply");
    reveal_strlit("NumpadDivide");
    reveal_strlit("NumpadDecimal");
    reveal_strlit("NumLock");
}

proof fn lemma_system_group(code: Seq<char>)
    requires
        system_keycode(code) is Some,
    ensures
        group_of(code) == 8,
{
    reveal_strlit("PrintScreen");
    reveal_strlit("ScrollLock");
    reveal_strlit("Pause");
}

/// A number that tells the names of keys apart: of their length and their last and first letters.
#[verifier::opaque]
spec fn mark(code: Seq<char>) -> int {
    code[0] as int + 0x80 * (code.last() as int) + 0x4000 * (code[code.len() - 2] as int) + 0x20_0000
        * code.len()
}

proof fn lemma_letter_marks()
    ensures
        mark("KeyQ"@) == 10381515,
        mark("KeyW"@) == 10382283,
        mark("KeyE"@) == 10379979,
        mark("KeyR"@) == 10381643,
        mark("KeyT"@) == 10381899,
        mark("KeyY"@) == 10382539,
        mark("KeyU"@) == 10382027,
        mark("KeyI"@) == 10380491,
        mark("KeyO"@) == 10381259,
        mark("KeyP"@) == 10381387,
        mark("KeyA"@) == 10379467,
        mark("KeyS"@) == 10381771,
        mark("KeyD"@) == 10379851,
        mark("KeyF"@) == 10380107,
        mark("KeyG"@) == 10380235,
        mark("KeyH"@) == 10380363,
        mark("KeyJ"@) == 10380619,
        mark("KeyK"@) == 10380747,
        mark("KeyL"@) == 10380875,
        mark("KeyZ"@) == 10382667,
        mark("KeyX"@) == 10382411,
        mark("KeyC"@) == 10379723,
        mark("KeyV"@) == 10382155,
        mark("KeyB"@) == 10379595,
        mark("KeyN"@) == 10381131,
        mark("KeyM"@) == 10381003,
{
    reveal(mark);
    reveal_strlit("KeyQ");
    reveal_strlit("KeyW");
    reveal_strlit("KeyE");
    reveal_strlit("KeyR");
    reveal_strlit("KeyT");
    reveal_strlit("KeyY");
    reveal_strlit("KeyU");
    reveal_strlit("KeyI");
    reveal_strlit("KeyO");
    reveal_strlit("KeyP");
    reveal_strlit("KeyA");
    reveal_strlit("KeyS");
    reveal_strlit("KeyD");
    reveal_strlit("KeyF");
    reveal_strlit("KeyG");
    reveal_strlit("KeyH");
    reveal_strlit("KeyJ");
    reveal_strlit("KeyK");
    reveal_strlit("KeyL");
    reveal_strlit("KeyZ");
    reveal_strlit("KeyX");
    reveal_strlit("KeyC");
    reveal_strlit("KeyV");
    reveal_strlit("KeyB");
    reveal_strlit("KeyN");
    reveal_strlit("KeyM");
}

proof fn lemma_digit_marks()
    ensures
        mark("Digit0"@) == 14489668,
        mark("Digit1"@) == 14489796,
        mark("Digit2"@) == 14489924,
        mark("Digit3"@) == 14490052,
        mark("Digit4"@) == 14490180,
        mark("Digit5"@) == 14490308,
        mark("Digit6"@) == 14490436,
        mark("Digit7"@) == 14490564,
        mark("Digit8"@) == 14490692,
        mark("Digit9"@) == 14490820,
{
    reveal(mark);
    reveal_strlit("Digit0");
    reveal_strlit("Digit1");
    reveal_strlit("Digit2");
    reveal_strlit("Digit3");
    reveal_strlit("Digit4");
    reveal_strlit("Digit5");
    reveal_strlit("Digit6");
    reveal_strlit("Digit7");
    reveal_strlit("Digit8");
    reveal_strlit("Digit9");
}

proof fn lemma_function_marks()
    ensures
        mark("F1"@) == 5347526,
        mark("F2"@) == 5347654,
        mark("F3"@) == 5347782,
        mark("F4"@) == 5347910,
        mark("F5"@) == 5348038,
        mark("F6"@) == 5348166,
        mark("F7"@) == 5348294,
        mark("F8"@) == 5348422,
        mark("F9"@) == 5348550,
        mark("F10"@) == 7100486,
        mark("F11"@) == 7100614,
        mark("F12"@) == 7100742,
{
    reveal(mark);
    reveal_strlit("F1");
    reveal_strlit("F2");
    reveal_strlit("F3");
    reveal_strlit("F4");
    reveal_strlit("F5");
    reveal_strlit("F6");
    reveal_strlit("F7");
    reveal_strlit("F8");
    reveal_strlit("F9");
    reveal_strlit("F10");
    reveal_strlit("F11");
    reveal_strlit("F12");
}

proof fn lemma_modifier_marks()
    ensures
        mark("ShiftLeft"@) == 20560467,
        mark("ShiftRight"@) == 22690387,
        mark("ControlLeft"@) == 24754755,
        mark("ControlRight"@) == 26884675,
        mark("AltLeft"@) == 16366145,
        mark("AltRight"@) == 18496065,
        mark("MetaLeft"@) == 18463309,
        mark("MetaRight"@) == 20593229,
        mark("CapsLock"@) == 18412995,
{
    reveal(mark);
    reveal_strlit("ShiftLeft");
    reveal_strlit("ShiftRight");
    reveal_strlit("ControlLeft");
    reveal_strlit("ControlRight");
    reveal_strlit("AltLeft");
    reveal_strlit("AltRight");
    reveal_strlit("MetaLeft");
    reveal_strlit("MetaRight");
    reveal_strlit("CapsLock");
}

proof fn lemma_editing_marks()
    ensures
        mark("Space"@) == 12120787,
        mark("Enter"@) == 12155205,
        mark("Tab"@) == 7893332,
        mark("Escape"@) == 14430917,
        mark("Backspace"@) == 20509378,
        mark("Delete"@) == 14496452,
        mark("Insert"@) == 14465609,
        mark("Home"@) == 10187464,
        mark("End"@) == 8106565,
        mark("PageUp"@) == 13989968,
        mark("PageDown"@) == 18741072,
        mark("ArrowUp"@) == 16087105,
        mark("ArrowDown"@) == 20838209,
        mark("ArrowLeft"@) == 20560449,
        mark("ArrowRight"@) == 22690369,
{
    reveal(mark);
    reveal_strlit("Space");
    reveal_strlit("Enter");
    reveal_strlit("Tab");
    reveal_strlit("Escape");
    reveal_strlit("Backspace");
    reveal_strlit("Delete");
    reveal_strlit("Insert");
    reveal_strlit("Home");
    reveal_strlit("End");
    reveal_strlit("PageUp");
    reveal_strlit("PageDown");
    reveal_strlit("ArrowUp");
    reveal_strlit("ArrowDown");
    reveal_strlit("ArrowLeft");
    reveal_strlit("ArrowRight");
}

proof fn lemma_punctuation_marks()
    ensures
        mark("Minus"@) == 12417485,
        mark("Equal"@) == 12088901,
        mark("BracketLeft"@) == 24754754,
        mark("BracketRight"@) == 26884674,
        mark("Backslash"@) == 20771906,
        mark("Semicolon"@) == 20707155,
        mark("Quote"@) == 12399313,
        mark("Comma"@) == 12284099,
        mark("Period"@) == 14414416,
        mark("Slash"@) == 12383315,
        mark("Backquote"@) == 20787906,
{
    reveal(mark);
    reveal_strlit("Minus");
    reveal_strlit("Equal");
    reveal_strlit("BracketLeft");
    reveal_strlit("BracketRight");
    reveal_strlit("Backslash");
    reveal_strlit("Semicolon");
    reveal_strlit("Quote");
    reveal_strlit("Comma");
    reveal_strlit("Period");
    reveal_strlit("Slash");
    reveal_strlit("Backquote");
}

proof fn lemma_numpad_marks()
    ensures
        mark("Numpad0"@) == 16324686,
        mark("Numpad1"@) == 16324814,
        mark("Numpad2"@) == 16324942,
        mark("Numpad3"@) == 16325070,
        mark("Numpad4"@) == 16325198,
        mark("Numpad5"@) == 16325326,
        mark("Numpad6"@) == 16325454,
        mark("Numpad7"@) == 16325582,
        mark("Numpad8"@) == 16325710,
        mark("Numpad9"@) == 16325838,
        mark("NumpadEnter"@) == 24738126,
        mark("NumpadAdd"@) == 20525646,
        mark("NumpadSubtract"@) == 30997070,
        mark("NumpadMultiply"@) == 31145166,
        mark("NumpadDivide"@) == 26817230,
        mark("NumpadDecimal"@) == 28866126,
        mark("NumLock"@) == 16315854,
{
    reveal(mark);
    reveal_strlit("Numpad0");
    reveal_strlit("Numpad1");
    reveal_strlit("Numpad2");
    reveal_strlit("Numpad3");
    reveal_strlit("Numpad4");
    reveal_strlit("Numpad5");
    reveal_strlit("Numpad6");
    reveal_strlit("Numpad7");
    reveal_strlit("Numpad8");
    reveal_strlit("Numpad9");
    reveal_strlit("NumpadEnter");
    reveal_strlit("NumpadAdd");
    reveal_strlit("NumpadSubtract");
    reveal_strlit("NumpadMultiply");
    reveal_strlit("NumpadDivide");
    reveal_strlit("NumpadDecimal");
    reveal_strlit("NumLock");
}

proof fn lemma_system_marks()
    ensures
        mark("PrintScreen"@) == 24737616,
        mark("ScrollLock"@) == 22607315,
        mark("Pause"@) == 12382928,
{
    reveal(mark);
    reveal_strlit("PrintScreen");
    reveal_strlit("ScrollLock");
    reveal_strlit("Pause");
}

fn insert_letter_keys(map: &mut KeycodeMap)
    requires
        old(map).wf(),
        forall|code: Seq<char>| #[trigger]
            old(map).keycode(code) is Some ==> letter_keycode(code) is None,
    ensures
        final(map).wf(),
        final(map).listed().len() == old(map).listed().len() + 26,
        forall|code: Seq<char>| #[trigger]
            final(map).keycode(code) == or_else(old(map).keycode(code), letter_keycode(code)),
{
    proof {
        lemma_letter_marks();
    }
    map.insert("KeyQ", 24);
    map.insert("KeyW", 25);
    map.insert("KeyE", 26);
    map.insert("KeyR", 27);
    map.insert("KeyT", 28);
    map.insert("KeyY", 29);
    map.insert("KeyU", 30);
    map.insert("KeyI", 31);
    map.insert("KeyO", 32);
    map.insert("KeyP", 33);
    map.insert("KeyA", 38);
    map.insert("KeyS", 39);
    map.insert("KeyD", 40);
    map.insert("KeyF", 41);
    map.insert("KeyG", 42);
    map.insert("KeyH", 43);
    map.insert("KeyJ", 44);
    map.insert("KeyK", 45);
    map.insert("KeyL", 46);
    map.insert("KeyZ", 52);
    map.insert("KeyX", 53);
    map.insert("KeyC", 54);
    map.insert("KeyV", 55);
    map.insert("KeyB", 56);
    map.insert("KeyN", 57);
    map.insert("KeyM", 58);
}

fn insert_digit_keys(map: &mut KeycodeMap)
    requires
        old(map).wf(),
        forall|code: Seq<char>| #[trigger]
            old(map).keycode(code) is Some ==> digit_keycode(code) is None,
    ensures
        final(map).wf(),
        final(map).listed().len() == old(map).listed().len() + 10,
        forall|code: Seq<char>| #[trigger]
            final(map).keycode(code) == or_else(old(map).keycode(code), digit_keycode(code)),
{
    proof {
        lemma_digit_marks();
    }
    map.insert("Digit0", 19);
    map.insert("Digit1", 10);
    map.insert("Digit2", 11);
    map.insert("Digit3", 12);
    map.insert("Digit4", 13);
    map.insert("Digit5", 14);
    map.insert("Digit6", 15);
    map.insert("Digit7", 16);
    map.insert("Digit8", 17);
    map.insert("Digit9", 18);
}

fn insert_function_keys(map: &mut KeycodeMap)
    requires
        old(map).wf(),
        forall|code: Seq<char>| #[trigger]
            old(map).keycode(code) is Some ==> function_keycode(code) is None,
    ensures
        final(map).wf(),
        final(map).listed().len() == old(map).listed().len() + 12,
        forall|code: Seq<char>| #[trigger]
            final(map).keycode(code) == or_else(old(map).keycode(code), function_keycode(code)),
{
    proof {
        lemma_function_marks();
    }
    map.insert("F1", 67);
    map.insert("F2", 68);
    map.insert("F3", 69);
    map.insert("F4", 70);
    map.insert("F5", 71);
    map.insert("F6", 72);
    map.insert("F7", 73);
    map.insert("F8", 74);
    map.insert("F9", 75);
    map.insert("F10", 76);
    map.insert("F11", 95);
    map.insert("F12", 96);
}

fn insert_modifier_keys(map: &mut KeycodeMap)
    requires
        old(map).wf(),
        forall|code: Seq<char>| #[trigger]
            old(map).keycode(code) is Some ==> modifier_keycode(code) is None,
    ensures
        final(map).wf(),
        final(map).listed().len() == old(map).listed().len() + 9,
        forall|code: Seq<char>| #[trigger]
            final(map).keycode(code) == or_else(old(map).keycode(code), modifier_keycode(code)),
{
    proof {
        lemma_modifier_marks();
    }
    map.insert("ShiftLeft", 50);
    map.insert("ShiftRight", 62);
    map.insert("ControlLeft", 37);
    map.insert("ControlRight", 105);
    map.insert("AltLeft", 64);
    map.insert("AltRight", 108);
    map.insert("MetaLeft", 133);
    map.insert("MetaRight", 134);
    map.insert("CapsLock", 66);
}

fn insert_editing_keys(map: &mut KeycodeMap)
    requires
        old(map).wf(),
        forall|code: Seq<char>| #[trigger]
            old(map).keycode(code) is Some ==> editing_keycode(code) is None,
    ensures
        final(map).wf(),
        final(map).listed().len() == old(map).listed().len() + 15,
        forall|code: Seq<char>| #[trigger]
            final(map).keycode(code) == or_else(old(map).keycode(code), editing_keycode(code)),
{
    proof {
        lemma_editing_marks();
    }
    map.insert("Space", 65);
    map.insert("Enter", 36);
    map.insert("Tab", 23);
    map.insert("Escape", 9);
    map.insert("Backspace", 22);
    map.insert("Delete", 119);
    map.insert("Insert", 118);
    map.insert("Home", 110);
    map.insert("End", 115);
    map.insert("PageUp", 112);
    map.insert("PageDown", 117);
    map.insert("ArrowUp", 111);
    map.insert("ArrowDown", 116);
    map.insert("ArrowLeft", 113);
    map.insert("ArrowRight", 114);
}

fn insert_punctuation_keys(map: &mut KeycodeMap)
    requires
        old(map).wf(),
        forall|code: Seq<char>| #[trigger]
            old(map).keycode(code) is Some ==> punctuation_keycode(code) is None,
    ensures
        final(map).wf(),
        final(map).listed().len() == old(map).listed().len() + 11,
        forall|code: Seq<char>| #[trigger]
            final(map).keycode(code) == or_else(old(map).keycode(code), punctuation_keycode(code)),
{
    proof {
        lemma_punctuation_marks();
    }
    map.insert("Minus", 20);
    map.insert("Equal", 21);
    map.insert("BracketLeft", 34);
    map.insert("BracketRight", 35);
    map.insert("Backslash", 51);
    map.insert("Semicolon", 47);
    map.insert("Quote", 48);
    map.insert("Comma", 59);
    map.insert("Period", 60);
    map.insert("Slash", 61);
    map.insert("Backquote", 49);
}

fn insert_numpad_keys(map: &mut KeycodeMap)
    requires
        old(map).wf(),
        forall|code: Seq<char>| #[trigger]
            old(map).keycode(code) is Some ==> numpad_keycode(code) is None,
    ensures
        final(map).wf(),
        final(map).listed().len() == old(map).listed().len() + 17,
        forall|code: Seq<char>| #[trigger]
            final(map).keycode(code) == or_else(old(map).keycode(code), numpad_keycode(code)),
{
    proof {
        lemma_numpad_marks();
    }
    map.insert("Numpad0", 90);
    map.insert("Numpad1", 87);
    map.insert("Numpad2", 88);
    map.insert("Numpad3", 89);
    map.insert("Numpad4", 83);
    map.insert("Numpad5", 84);
    map.insert("Numpad6", 85);
    map.insert("Numpad7", 79);
    map.insert("Numpad8", 80);
    map.insert("Numpad9", 81);
    map.insert("NumpadEnter", 104);
    map.insert("NumpadAdd", 86);
    map.insert("NumpadSubtract", 82);
    map.insert("NumpadMultiply", 63);
    map.insert("NumpadDivide", 106);
    map.insert("NumpadDecimal", 91);
    map.insert("NumLock", 77);
}

fn insert_system_keys(map: &mut KeycodeMap)
    requires
        old(map).wf(),
        forall|code: Seq<char>| #[trigger]
            old(map).keycode(code) is Some ==> system_keycode(code) is None,
    ensures
        final(map).wf(),
        final(map).listed().len() == old(map).listed().len() + 3,
        forall|code: Seq<char>| #[trigger]
            final(map).keycode(code) == or_else(old(map).keycode(code), system_keycode(code)),
{
    proof {
        lemma_system_marks();
    }
    map.insert("PrintScreen", 107);
    map.insert("ScrollLock", 78);
    map.insert("Pause", 127);
}

/// A name stands in one group at most.
proof fn lemma_groups_apart()
    ensures
        forall|code: Seq<char>|
            #![trigger letter_keycode(code)]
            #![trigger digit_keycode(code)]
            #![trigger function_keycode(code)]
            #![trigger modifier_keycode(code)]
            #![trigger editing_keycode(code)]
            #![trigger punctuation_keycode(code)]
            #![trigger numpad_keycode(code)]
            #![trigger system_keycode(code)]
            {
                &&& letter_keycode(code) is Some ==> group_of(code) == 1
                &&& digit_keycode(code) is Some ==> group_of(code) == 2
                &&& function_keycode(code) is Some ==> group_of(code) == 3
                &&& modifier_keycode(code) is Some ==> group_of(code) == 4
                &&& editing_keycode(code) is Some ==> group_of(code) == 5
                &&& punctuation_keycode(code) is Some ==> group_of(code) == 6
                &&& numpad_keycode(code) is Some ==> group_of(code) == 7
                &&& system_keycode(code) is Some ==> group_of(code) == 8
            },
{
    assert forall|code: Seq<char>|
        {
            &&& letter_keycode(code) is Some ==> group_of(code) == 1
            &&& digit_keycode(code) is Some ==> group_of(code) == 2
            &&& function_keycode(code) is Some ==> group_of(code) == 3
            &&& modifier_keycode(code) is Some ==> group_of(code) == 4
            &&& editing_keycode(code) is Some ==> group_of(code) == 5
            &&& punctuation_keycode(code) is Some ==> group_of(code) == 6
            &&& numpad_keycode(code) is Some ==> group_of(code) == 7
            &&& system_keycode(code) is Some ==> group_of(code) == 8
        } by {
        if letter_keycode(code) is Some {
            lemma_letter_group(code);
        }
        if digit_keycode(code) is Some {
            lemma_digit_group(code);
        }
        if function_keycode(code) is Some {
            lemma_function_group(code);
        }
        if modifier_keycode(code) is Some {
            lemma_modifier_group(code);
        }
        if editing_keycode(code) is Some {
            lemma_editing_group(code);
        }
        if punctuation_keycode(code) is Some {
            lemma_punctuation_group(code);
        }
        if numpad_keycode(code) is Some {
            lemma_numpad_group(code);
        }
        if system_keycode(code) is Some {
            lemma_system_group(code);
        }
    }
}

/// Build the static mapping from DOM `KeyboardEvent.code` strings to X11 keycodes.
///
/// Keycodes follow the standard US QWERTY keyboard layout as reported by X11.
pub fn build_dom_to_x11_keycode_map() -> (map: KeycodeMap)
    ensures
        map.wf(),
        map.listed().len() == 103,
        forall|code: Seq<char>| #[trigger] map.keycode(code) == dom_keycode(code),
{
    proof {
        lemma_groups_apart();
    }
    let mut map = KeycodeMap::new();
    insert_letter_keys(&mut map);
    insert_digit_keys(&mut map);
    insert_function_keys(&mut map);
    insert_modifier_keys(&mut map);
    insert_editing_keys(&mut map);
    insert_punctuation_keys(&mut map);
    insert_numpad_keys(&mut map);
    insert_system_keys(&mut map);
    map
}

/// What [`dom_code_to_keycode_fallback`] gives.
pub open spec fn fallback_keycode(code: Seq<char>) -> Option<u8> {
    entry(code, "ContextMenu"@, 135)
}

/// Fallback keycode resolution for codes not in the static map.
pub fn dom_code_to_keycode_fallback(code: &str) -> (keycode: Option<u8>)
    ensures
        keycode == fallback_keycode(code@),
{
    if same_text(code, "ContextMenu") {
        Some(135)
    } else {
        None
    }
}

/// The name of the key with a given keycode.
spec fn key_name(keycode: u8) -> Seq<char> {
    if keycode == 9 {
        "Escape"@
    } else if keycode == 10 {
        "Digit1"@
    } else if keycode == 11 {
        "Digit2"@
    } else if keycode == 12 {
        "Digit3"@
    } else if keycode == 13 {
        "Digit4"@
    } else if keycode == 14 {
        "Digit5"@
    } else if keycode == 15 {
        "Digit6"@
    } else if keycode == 16 {
        "Digit7"@
    } else if keycode == 17 {
        "Digit8"@
    } else if keycode == 18 {
        "Digit9"@
    } else if keycode == 19 {
        "Digit0"@
    } else if keycode == 20 {
        "Minus"@
    } else if keycode == 21 {
        "Equal"@
    } else if keycode == 22 {
        "Backspace"@
    } else if keycode == 23 {
        "Tab"@
    } else if keycode == 24 {
        "KeyQ"@
    } else if keycode == 25 {
        "KeyW"@
    } else if keycode == 26 {
        "KeyE"@
    } else if keycode == 27 {
        "KeyR"@
    } else if keycode == 28 {
        "KeyT"@
    } else if keycode == 29 {
        "KeyY"@
    } else if keycode == 30 {
        "KeyU"@
    } else if keycode == 31 {
        "KeyI"@
    } else if keycode == 32 {
        "KeyO"@
    } else if keycode == 33 {
        "KeyP"@
    } else if keycode == 34 {
        "BracketLeft"@
    } else if keycode == 35 {
        "BracketRight"@
    } else if keycode == 36 {
        "Enter"@
    } else if keycode == 37 {
        "ControlLeft"@
    } else if keycode == 38 {
        "KeyA"@
    } else if keycode == 39 {
        "KeyS"@
    } else if keycode == 40 {
        "KeyD"@
    } else if keycode == 41 {
        "KeyF"@
    } else if keycode == 42 {
        "KeyG"@
    } else if keycode == 43 {
        "KeyH"@
    } else if keycode == 44 {
        "KeyJ"@
    } else if keycode == 45 {
        "KeyK"@
    } else if keycode == 46 {
        "KeyL"@
    } else if keycode == 47 {
        "Semicolon"@
    } else if keycode == 48 {
        "Quote"@
    } else if keycode == 49 {
        "Backquote"@
    } else if keycode == 50 {
        "ShiftLeft"@
    } else if keycode == 51 {
        "Backslash"@
    } else if keycode == 52 {
        "KeyZ"@
    } else if keycode == 53 {
        "KeyX"@
    } else if keycode == 54 {
        "KeyC"@
    } else if keycode == 55 {
        "KeyV"@
    } else if keycode == 56 {
        "KeyB"@
    } else if keycode == 57 {
        "KeyN"@
    } else if keycode == 58 {
        "KeyM"@
    } else if keycode == 59 {
        "Comma"@
    } else if keycode == 60 {
        "Period"@
    } else if keycode == 61 {
        "Slash"@
    } else if keycode == 62 {
        "ShiftRight"@
    } else if keycode == 63 {
        "NumpadMultiply"@
    } else if keycode == 64 {
        "AltLeft"@
    } else if keycode == 65 {
        "Space"@
    } else if keycode == 66 {
        "CapsLock"@
    } else if keycode == 67 {
        "F1"@
    } else if keycode == 68 {
        "F2"@
    } else if keycode == 69 {
        "F3"@
    } else if keycode == 70 {
        "F4"@
    } else if keycode == 71 {
        "F5"@
    } else if keycode == 72 {
        "F6"@
    } else if keycode == 73 {
        "F7"@
    } else if keycode == 74 {
        "F8"@
    } else if keycode == 75 {
        "F9"@
    } else if keycode == 76 {
        "F10"@
    } else if keycode == 77 {
        "NumLock"@
    } else if keycode == 78 {
        "ScrollLock"@
    } else if keycode == 79 {
        "Numpad7"@
    } else if keycode == 80 {
        "Numpad8"@
    } else if keycode == 81 {
        "Numpad9"@
    } else if keycode == 82 {
        "NumpadSubtract"@
    } else if keycode == 83 {
        "Numpad4"@
    } else if keycode == 84 {
        "Numpad5"@
    } else if keycode == 85 {
        "Numpad6"@
    } else if keycode == 86 {
        "NumpadAdd"@
    } else if keycode == 87 {
        "Numpad1"@
    } else if keycode == 88 {
        "Numpad2"@
    } else if keycode == 89 {
        "Numpad3"@
    } else if keycode == 90 {
        "Numpad0"@
    } else if keycode == 91 {
        "NumpadDecimal"@
    } else if keycode == 95 {
        "F11"@
    } else if keycode == 96 {
        "F12"@
    } else if keycode == 104 {
        "NumpadEnter"@
    } else if keycode == 105 {
        "ControlRight"@
    } else if keycode == 106 {
        "NumpadDivide"@
    } else if keycode == 107 {
        "PrintScreen"@
    } else if keycode == 108 {
        "AltRight"@
    } else if keycode == 110 {
        "Home"@
    } else if keycode == 111 {
        "ArrowUp"@
    } else if keycode == 112 {
        "PageUp"@
    } else if keycode == 113 {
        "ArrowLeft"@
    } else if keycode == 114 {
        "ArrowRight"@
    } else if keycode == 115 {
        "End"@
    } else if keycode == 116 {
        "ArrowDown"@
    } else if keycode == 117 {
        "PageDown"@
    } else if keycode == 118 {
        "Insert"@
    } else if keycode == 119 {
        "Delete"@
    } else if keycode == 127 {
        "Pause"@
    } else if keycode == 133 {
        "MetaLeft"@
    } else if keycode == 134 {
        "MetaRight"@
    } else {
        "ContextMenu"@
    }
}

proof fn lemma_letter_name(code: Seq<char>)
    ensures
        letter_keycode(code) matches Some(k) ==> code == key_name(k) && k != 135,
{
}

proof fn lemma_digit_name(code: Seq<char>)
    ensures
        digit_keycode(code) matches Some(k) ==> code == key_name(k) && k != 135,
{
}

proof fn lemma_function_name(code: Seq<char>)
    ensures
        function_keycode(code) matches Some(k) ==> code == key_name(k) && k != 135,
{
}

proof fn lemma_modifier_name(code: Seq<char>)
    ensures
        modifier_keycode(code) matches Some(k) ==> code == key_name(k) && k != 135,
{
}

proof fn lemma_editing_name(code: Seq<char>)
    ensures
        editing_keycode(code) matches Some(k) ==> code == key_name(k) && k != 135,
{
}

proof fn lemma_punctuation_name(code: Seq<char>)
    ensures
        punctuation_keycode(code) matches Some(k) ==> code == key_name(k) && k != 135,
{
}

proof fn lemma_numpad_name(code: Seq<char>)
    ensures
        numpad_keycode(code) matches Some(k) ==> code == key_name(k) && k != 135,
{
}

proof fn lemma_system_name(code: Seq<char>)
    ensures
        system_keycode(code) matches Some(k) ==> code == key_name(k) && k != 135,
{
}

/// No two keys share a keycode.
pub proof fn law_keycodes_unique(a: Seq<char>, b: Seq<char>)
    requires
        or_else(dom_keycode(a), fallback_keycode(a)) is Some,
        or_else(dom_keycode(a), fallback_keycode(a)) == or_else(
            dom_keycode(b),
            fallback_keycode(b),
        ),
    ensures
        a == b,
{
    lemma_letter_name(a);
    lemma_digit_name(a);
    lemma_function_name(a);
    lemma_modifier_name(a);
    lemma_editing_name(a);
    lemma_punctuation_name(a);
    lemma_numpad_name(a);
    lemma_system_name(a);
    lemma_letter_name(b);
    lemma_digit_name(b);
    lemma_function_name(b);
    lemma_modifier_name(b);
    lemma_editing_name(b);
    lemma_punctuation_name(b);
    lemma_numpad_name(b);
    lemma_system_name(b);
}

proof fn lemma_letter_keys()
    ensures
        letter_keycode("KeyQ"@) == Some(24u8),
        letter_keycode("KeyW"@) == Some(25u8),
        letter_keycode("KeyE"@) == Some(26u8),
        letter_keycode("KeyR"@) == Some(27u8),
        letter_keycode("KeyT"@) == Some(28u8),
        letter_keycode("KeyY"@) == Some(29u8),
        letter_keycode("KeyU"@) == Some(30u8),
        letter_keycode("KeyI"@) == Some(31u8),
        letter_keycode("KeyO"@) == Some(32u8),
        letter_keycode("KeyP"@) == Some(33u8),
        letter_keycode("KeyA"@) == Some(38u8),
        letter_keycode("KeyS"@) == Some(39u8),
        letter_keycode("KeyD"@) == Some(40u8),
        letter_keycode("KeyF"@) == Some(41u8),
        letter_keycode("KeyG"@) == Some(42u8),
        letter_keycode("KeyH"@) == Some(43u8),
        letter_keycode("KeyJ"@) == Some(44u8),
        letter_keycode("KeyK"@) == Some(45u8),
        letter_keycode("KeyL"@) == Some(46u8),
        letter_keycode("KeyZ"@) == Some(52u8),
        letter_keycode("KeyX"@) == Some(53u8),
        letter_keycode("KeyC"@) == Some(54u8),
        letter_keycode("KeyV"@) == Some(55u8),
        letter_keycode("KeyB"@) == Some(56u8),
        letter_keycode("KeyN"@) == Some(57u8),
        letter_keycode("KeyM"@) == Some(58u8),
{
    lemma_letter_marks();
}

proof fn lemma_digit_keys()
    ensures
        digit_keycode("Digit1"@) == Some(10u8),
        digit_keycode("Digit2"@) == Some(11u8),
        digit_keycode("Digit3"@) == Some(12u8),
        digit_keycode("Digit4"@) == Some(13u8),
        digit_keycode("Digit5"@) == Some(14u8),
        digit_keycode("Digit6"@) == Some(15u8),
        digit_keycode("Digit7"@) == Some(16u8),
        digit_keycode("Digit8"@) == Some(17u8),
        digit_keycode("Digit9"@) == Some(18u8),
        digit_keycode("Digit0"@) == Some(19u8),
{
    lemma_digit_marks();
}

proof fn lemma_function_keys()
    ensures
        function_keycode("F1"@) == Some(67u8),
        function_keycode("F2"@) == Some(68u8),
        function_keycode("F3"@) == Some(69u8),
        function_keycode("F4"@) == Some(70u8),
        function_keycode("F5"@) == Some(71u8),
        function_keycode("F6"@) == Some(72u8),
        function_keycode("F7"@) == Some(73u8),
        function_keycode("F8"@) == Some(74u8),
        function_keycode("F9"@) == Some(75u8),
        function_keycode("F10"@) == Some(76u8),
        function_keycode("F11"@) == Some(95u8),
        function_keycode("F12"@) == Some(96u8),
{
    lemma_function_marks();
}

proof fn lemma_modifier_keys()
    ensures
        modifier_keycode("ControlLeft"@) == Some(37u8),
        modifier_keycode("ShiftLeft"@) == Some(50u8),
        modifier_keycode("ShiftRight"@) == Some(62u8),
        modifier_keycode("AltLeft"@) == Some(64u8),
        modifier_keycode("CapsLock"@) == Some(66u8),
        modifier_keycode("ControlRight"@) == Some(105u8),
        modifier_keycode("AltRight"@) == Some(108u8),
        modifier_keycode("MetaLeft"@) == Some(133u8),
        modifier_keycode("MetaRight"@) == Some(134u8),
{
    lemma_modifier_marks();
}

proof fn lemma_editing_keys()
    ensures
        editing_keycode("Escape"@) == Some(9u8),
        editing_keycode("Backspace"@) == Some(22u8),
        editing_keycode("Tab"@) == Some(23u8),
        editing_keycode("Enter"@) == Some(36u8),
        editing_keycode("Space"@) == Some(65u8),
        editing_keycode("Home"@) == Some(110u8),
        editing_keycode("ArrowUp"@) == Some(111u8),
        editing_keycode("PageUp"@) == Some(112u8),
        editing_keycode("ArrowLeft"@) == Some(113u8),
        editing_keycode("ArrowRight"@) == Some(114u8),
        editing_keycode("End"@) == Some(115u8),
        editing_keycode("ArrowDown"@) == Some(116u8),
        editing_keycode("PageDown"@) == Some(117u8),
        editing_keycode("Insert"@) == Some(118u8),
        editing_keycode("Delete"@) == Some(119u8),
{
    lemma_editing_marks();
}

proof fn lemma_punctuation_keys()
    ensures
        punctuation_keycode("Minus"@) == Some(20u8),
        punctuation_keycode("Equal"@) == Some(21u8),
        punctuation_keycode("BracketLeft"@) == Some(34u8),
        punctuation_keycode("BracketRight"@) == Some(35u8),
        punctuation_keycode("Semicolon"@) == Some(47u8),
        punctuation_keycode("Quote"@) == Some(48u8),
        punctuation_keycode("Backquote"@) == Some(49u8),
        punctuation_keycode("Backslash"@) == Some(51u8),
        punctuation_keycode("Comma"@) == Some(59u8),
        punctuation_keycode("Period"@) == Some(60u8),
        punctuation_keycode("Slash"@) == Some(61u8),
{
    lemma_punctuation_marks();
}

proof fn lemma_numpad_keys()
    ensures
        numpad_keycode("NumpadMultiply"@) == Some(63u8),
        numpad_keycode("NumLock"@) == Some(77u8),
        numpad_keycode("Numpad7"@) == Some(79u8),
        numpad_keycode("Numpad8"@) == Some(80u8),
        numpad_keycode("Numpad9"@) == Some(81u8),
        numpad_keycode("NumpadSubtract"@) == Some(82u8),
        numpad_keycode("Numpad4"@) == Some(83u8),
        numpad_keycode("Numpad5"@) == Some(84u8),
        numpad_keycode("Numpad6"@) == Some(85u8),
        numpad_keycode("NumpadAdd"@) == Some(86u8),
        numpad_keycode("Numpad1"@) == Some(87u8),
        numpad_keycode("Numpad2"@) == Some(88u8),
        numpad_keycode("Numpad3"@) == Some(89u8),
        numpad_keycode("Numpad0"@) == Some(90u8),
        numpad_keycode("NumpadDecimal"@) == Some(91u8),
        numpad_keycode("NumpadEnter"@) == Some(104u8),
        numpad_keycode("NumpadDivide"@) == Some(106u8),
{
    lemma_numpad_marks();
}

proof fn lemma_system_keys()
    ensures
        system_keycode("ScrollLock"@) == Some(78u8),
        system_keycode("PrintScreen"@) == Some(107u8),
        system_keycode("Pause"@) == Some(127u8),
{
    lemma_system_marks();
}

/// In the order of the keyboard, the keys from Escape and the digits to Backspace have the keycodes from 9 on, one after the other.
pub proof fn law_number_row(i: int)
    ensures
        ({
            let row = seq![
                "Escape"@, "Digit1"@, "Digit2"@, "Digit3"@, "Digit4"@, "Digit5"@, "Digit6"@, "Digit7"@,
                "Digit8"@, "Digit9"@, "Digit0"@, "Minus"@, "Equal"@, "Backspace"@,
            ];
            0 <= i < row.len() ==> or_else(dom_keycode(row[i]), fallback_keycode(row[i])) == Some(
                (9 + i) as u8,
            )
        }),
{
    lemma_groups_apart();
    lemma_digit_keys();
    lemma_editing_keys();
    lemma_punctuation_keys();
}

/// In the order of the keyboard, the keys from Tab to Enter have the keycodes from 23 on, one after the other.
pub proof fn law_upper_row(i: int)
    ensures
        ({
            let row = seq![
                "Tab"@, "KeyQ"@, "KeyW"@, "KeyE"@, "KeyR"@, "KeyT"@, "KeyY"@, "KeyU"@, "KeyI"@,
                "KeyO"@, "KeyP"@, "BracketLeft"@, "BracketRight"@, "Enter"@,
            ];
            0 <= i < row.len() ==> or_else(dom_keycode(row[i]), fallback_keycode(row[i])) == Some(
                (23 + i) as u8,
            )
        }),
{
    lemma_groups_apart();
    lemma_letter_keys();
    lemma_editing_keys();
    lemma_punctuation_keys();
}

/// In the order of the keyboard, the keys from the left Control key to the backquote have the keycodes from 37 on, one after the other.
pub proof fn law_home_row(i: int)
    ensures
        ({
            let row = seq![
                "ControlLeft"@, "KeyA"@, "KeyS"@, "KeyD"@, "KeyF"@, "KeyG"@, "KeyH"@, "KeyJ"@, "KeyK"@,
                "KeyL"@, "Semicolon"@, "Quote"@, "Backquote"@,
            ];
            0 <= i < row.len() ==> or_else(dom_keycode(row[i]), fallback_keycode(row[i])) == Some(
                (37 + i) as u8,
            )
        }),
{
    lemma_groups_apart();
    lemma_letter_keys();
    lemma_modifier_keys();
    lemma_punctuation_keys();
}

/// In the order of the keyboard, the keys from the left Shift key to the right one have the keycodes from 50 on, one after the other.
pub proof fn law_lower_row(i: int)
    ensures
        ({
            let row = seq![
                "ShiftLeft"@, "Backslash"@, "KeyZ"@, "KeyX"@, "KeyC"@, "KeyV"@, "KeyB"@, "KeyN"@,
                "KeyM"@, "Comma"@, "Period"@, "Slash"@, "ShiftRight"@,
            ];
            0 <= i < row.len() ==> or_else(dom_keycode(row[i]), fallback_keycode(row[i])) == Some(
                (50 + i) as u8,
            )
        }),
{
    lemma_groups_apart();
    lemma_letter_keys();
    lemma_modifier_keys();
    lemma_punctuation_keys();
}

/// In the order of the keyboard, the first ten function keys have the keycodes from 67 on, one after the other.
pub proof fn law_function_row(i: int)
    ensures
        ({
            let row = seq![
                "F1"@, "F2"@, "F3"@, "F4"@, "F5"@, "F6"@, "F7"@, "F8"@, "F9"@, "F10"@,
            ];
            0 <= i < row.len() ==> or_else(dom_keycode(row[i]), fallback_keycode(row[i])) == Some(
                (67 + i) as u8,
            )
        }),
{
    lemma_groups_apart();
    lemma_function_keys();
}

/// In the order of the keyboard, the keys from Num Lock over the numeric pad have the keycodes from 77 on, one after the other.
pub proof fn law_numpad_row(i: int)
    ensures
        ({
            let row = seq![
                "NumLock"@, "ScrollLock"@, "Numpad7"@, "Numpad8"@, "Numpad9"@, "NumpadSubtract"@,
                "Numpad4"@, "Numpad5"@, "Numpad6"@, "NumpadAdd"@, "Numpad1"@, "Numpad2"@, "Numpad3"@,
                "Numpad0"@, "NumpadDecimal"@,
            ];
            0 <= i < row.len() ==> or_else(dom_keycode(row[i]), fallback_keycode(row[i])) == Some(
                (77 + i) as u8,
            )
        }),
{
    lemma_groups_apart();
    lemma_numpad_keys();
    lemma_system_keys();
}

/// In the order of the keyboard, the keys of the cursor block have the keycodes from 110 on, one after the other.
pub proof fn law_cursor_row(i: int)
    ensures
        ({
            let row = seq![
                "Home"@, "ArrowUp"@, "PageUp"@, "ArrowLeft"@, "ArrowRight"@, "End"@, "ArrowDown"@,
                "PageDown"@, "Insert"@, "Delete"@,
            ];
            0 <= i < row.len() ==> or_else(dom_keycode(row[i]), fallback_keycode(row[i])) == Some(
                (110 + i) as u8,
            )
        }),
{
    lemma_groups_apart();
    lemma_editing_keys();
}

/// The menu key is in no group.
proof fn lemma_menu_apart()
    ensures
        dom_keycode("ContextMenu"@) is None,
{
    lemma_groups_apart();
    assert(group_of("ContextMenu"@) == 4) by {
        reveal_strlit("ContextMenu");
    }
    assert(modifier_keycode("ContextMenu"@) is None) by {
        lemma_modifier_marks();
        reveal(mark);
        reveal_strlit("ContextMenu");
        assert(mark("ContextMenu"@) == 'C' as int + 0x80 * ('u' as int) + 0x4000 * ('n' as int)
            + 0x20_0000 * 11);
    }
}

/// The keys that are left over have these keycodes: the four around the space bar those from 63
/// on, the last two function keys those from 95 on, the five on the far side those from 104 on, the
/// three beside the space bar those from 133 on, and the key for a pause 127.
pub proof fn law_other_keys(i: int)
    ensures
        ({
            let row = seq!["NumpadMultiply"@, "AltLeft"@, "Space"@, "CapsLock"@];
            0 <= i < row.len() ==> or_else(dom_keycode(row[i]), fallback_keycode(row[i])) == Some(
                (63 + i) as u8,
            )
        }),
        ({
            let row = seq!["F11"@, "F12"@];
            0 <= i < row.len() ==> or_else(dom_keycode(row[i]), fallback_keycode(row[i])) == Some(
                (95 + i) as u8,
            )
        }),
        ({
            let row = seq![
                "NumpadEnter"@,
                "ControlRight"@,
                "NumpadDivide"@,
                "PrintScreen"@,
                "AltRight"@,
            ];
            0 <= i < row.len() ==> or_else(dom_keycode(row[i]), fallback_keycode(row[i])) == Some(
                (104 + i) as u8,
            )
        }),
        ({
            let row = seq!["MetaLeft"@, "MetaRight"@, "ContextMenu"@];
            0 <= i < row.len() ==> or_else(dom_keycode(row[i]), fallback_keycode(row[i])) == Some(
                (133 + i) as u8,
            )
        }),
        dom_keycode("Pause"@) == Some(127u8),
{
    lemma_groups_apart();
    lemma_menu_apart();
    lemma_numpad_keys();
    lemma_modifier_keys();
    lemma_editing_keys();
    lemma_function_keys();
    lemma_system_keys();
}

/// No key has a keycode but these.
pub proof fn law_no_other_keycodes(code: Seq<char>)
    ensures
        or_else(dom_keycode(code), fallback_keycode(code)) matches Some(k) ==> 9 <= k <= 91 || 95
            <= k <= 96 || 104 <= k <= 108 || 110 <= k <= 119 || k == 127 || 133 <= k <= 135,
{
}

} // verus!
