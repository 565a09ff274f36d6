//! DOM key names and X11 keycodes.

use phantom_screen_server::keycodes::{build_dom_to_x11_keycode_map, KeycodeMap};
use std::collections::HashMap;

fn keycode(map: &KeycodeMap, code: &str) -> u8 {
    map.get(code).unwrap()
}

#[test]
fn keycode_map_contains_all_26_letters() {
    let map = build_dom_to_x11_keycode_map();
    for c in 'A'..='Z' {
        let code = format!("Key{}", c);
        assert!(map.get(&code).is_some(), "Missing mapping for {}", code);
    }
}

#[test]
fn keycode_map_letter_keycodes_are_unique() {
    let map = build_dom_to_x11_keycode_map();
    let mut seen: HashMap<u8, String> = HashMap::new();
    for c in 'A'..='Z' {
        let code = format!("Key{}", c);
        let keycode = keycode(&map, &code);
        if let Some(prev) = seen.get(&keycode) {
            panic!(
                "Duplicate keycode {}: both {} and {} map to it",
                keycode, prev, code
            );
        }
        seen.insert(keycode, code);
    }
}

/// Verify letter keycodes match the standard X11 QWERTY layout.
/// These values come from `xmodmap -pke` on a standard US keyboard.
#[test]
fn keycode_map_qwerty_row1() {
    let map = build_dom_to_x11_keycode_map();
    // Top row: Q W E R T Y U I O P
    assert_eq!(keycode(&map, "KeyQ"), 24);
    assert_eq!(keycode(&map, "KeyW"), 25);
    assert_eq!(keycode(&map, "KeyE"), 26);
    assert_eq!(keycode(&map, "KeyR"), 27);
    assert_eq!(keycode(&map, "KeyT"), 28);
    assert_eq!(keycode(&map, "KeyY"), 29);
    assert_eq!(keycode(&map, "KeyU"), 30);
    assert_eq!(keycode(&map, "KeyI"), 31);
    assert_eq!(keycode(&map, "KeyO"), 32);
    assert_eq!(keycode(&map, "KeyP"), 33);
}

#[test]
fn keycode_map_qwerty_row2() {
    let map = build_dom_to_x11_keycode_map();
    // Home row: A S D F G H J K L
    assert_eq!(keycode(&map, "KeyA"), 38);
    assert_eq!(keycode(&map, "KeyS"), 39);
    assert_eq!(keycode(&map, "KeyD"), 40);
    assert_eq!(keycode(&map, "KeyF"), 41);
    assert_eq!(keycode(&map, "KeyG"), 42);
    assert_eq!(keycode(&map, "KeyH"), 43);
    assert_eq!(keycode(&map, "KeyJ"), 44);
    assert_eq!(keycode(&map, "KeyK"), 45);
    assert_eq!(keycode(&map, "KeyL"), 46);
}

#[test]
fn keycode_map_qwerty_row3() {
    let map = build_dom_to_x11_keycode_map();
    // Bottom row: Z X C V B N M
    assert_eq!(keycode(&map, "KeyZ"), 52);
    assert_eq!(keycode(&map, "KeyX"), 53);
    assert_eq!(keycode(&map, "KeyC"), 54);
    assert_eq!(keycode(&map, "KeyV"), 55);
    assert_eq!(keycode(&map, "KeyB"), 56);
    assert_eq!(keycode(&map, "KeyN"), 57);
    assert_eq!(keycode(&map, "KeyM"), 58);
}

/// Guard against the original bug: letters must NOT be mapped sequentially.
/// If KeyB == KeyA + 1, the mapping is alphabetical (wrong) instead of QWERTY.
#[test]
fn keycode_map_letters_are_not_sequential_alphabetical() {
    let map = build_dom_to_x11_keycode_map();
    let a = keycode(&map, "KeyA");
    let b = keycode(&map, "KeyB");
    assert_ne!(
        b,
        a + 1,
        "KeyB should not be KeyA+1 (that's alphabetical, not QWERTY)"
    );
    let l = keycode(&map, "KeyL");
    assert_ne!(
        l,
        a + 11,
        "KeyL should not be KeyA+11 (that's alphabetical, not QWERTY)"
    );
}

#[test]
fn keycode_map_letter_keycodes_do_not_collide_with_special_keys() {
    let map = build_dom_to_x11_keycode_map();
    let letter_keycodes: Vec<u8> = ('A'..='Z').map(|c| keycode(&map, &format!("Key{}", c))).collect();

    let special_keys = [
        "Space",
        "Enter",
        "Tab",
        "Escape",
        "Backspace",
        "ShiftLeft",
        "ShiftRight",
        "ControlLeft",
        "ControlRight",
        "AltLeft",
        "AltRight",
    ];
    for key in special_keys {
        let kc = keycode(&map, key);
        assert!(
            !letter_keycodes.contains(&kc),
            "{} (keycode {}) collides with a letter key",
            key,
            kc
        );
    }
}

#[test]
fn keycode_map_digits() {
    let map = build_dom_to_x11_keycode_map();
    assert_eq!(keycode(&map, "Digit1"), 10);
    assert_eq!(keycode(&map, "Digit2"), 11);
    assert_eq!(keycode(&map, "Digit9"), 18);
    assert_eq!(keycode(&map, "Digit0"), 19);
}

#[test]
fn keycode_map_special_keys() {
    let map = build_dom_to_x11_keycode_map();
    assert_eq!(keycode(&map, "Space"), 65);
    assert_eq!(keycode(&map, "Enter"), 36);
    assert_eq!(keycode(&map, "Tab"), 23);
    assert_eq!(keycode(&map, "Escape"), 9);
    assert_eq!(keycode(&map, "Backspace"), 22);
}

#[test]
fn keycode_map_arrow_keys() {
    let map = build_dom_to_x11_keycode_map();
    assert_eq!(keycode(&map, "ArrowUp"), 111);
    assert_eq!(keycode(&map, "ArrowDown"), 116);
    assert_eq!(keycode(&map, "ArrowLeft"), 113);
    assert_eq!(keycode(&map, "ArrowRight"), 114);
}

#[test]
fn keycode_map_no_duplicate_keycodes_across_entire_map() {
    let map = build_dom_to_x11_keycode_map();
    let mut keycode_to_codes: HashMap<u8, Vec<&String>> = HashMap::new();
    for (code, keycode) in map.entries() {
        keycode_to_codes.entry(*keycode).or_default().push(code);
    }
    for (keycode, codes) in &keycode_to_codes {
        if codes.len() > 1 {
            panic!(
                "Keycode {} is mapped by multiple DOM codes: {:?}",
                keycode, codes
            );
        }
    }
}

#[test]
fn keycode_map_function_keys() {
    let map = build_dom_to_x11_keycode_map();
    // F1–F10 are sequential 67–76
    for i in 1..=10u8 {
        assert_eq!(keycode(&map, &format!("F{}", i)), 66 + i, "F{} keycode wrong", i);
    }
    // F11 and F12 are at 95 and 96 (not 77/78 which are NumLock/ScrollLock)
    assert_eq!(keycode(&map, "F11"), 95);
    assert_eq!(keycode(&map, "F12"), 96);
}

#[test]
fn keycode_map_numpad() {
    let map = build_dom_to_x11_keycode_map();
    assert_eq!(keycode(&map, "Numpad7"), 79);
    assert_eq!(keycode(&map, "Numpad8"), 80);
    assert_eq!(keycode(&map, "Numpad9"), 81);
    assert_eq!(keycode(&map, "Numpad4"), 83);
    assert_eq!(keycode(&map, "Numpad5"), 84);
    assert_eq!(keycode(&map, "Numpad6"), 85);
    assert_eq!(keycode(&map, "Numpad1"), 87);
    assert_eq!(keycode(&map, "Numpad2"), 88);
    assert_eq!(keycode(&map, "Numpad3"), 89);
    assert_eq!(keycode(&map, "Numpad0"), 90);
    assert_eq!(keycode(&map, "NumpadDecimal"), 91);
    assert_eq!(keycode(&map, "NumpadEnter"), 104);
}

/// Guard against sequential numpad bug: Numpad1 must NOT be Numpad0+1.
#[test]
fn keycode_map_numpad_not_sequential() {
    let map = build_dom_to_x11_keycode_map();
    assert_ne!(
        keycode(&map, "Numpad1"),
        keycode(&map, "Numpad0") + 1,
        "Numpad1 must not be Numpad0+1 (numpad layout is not sequential)"
    );
}

#[test]
fn every_name_has_one_entry() {
    let map = build_dom_to_x11_keycode_map();
    let names: std::collections::HashSet<&String> = map.entries().iter().map(|e| &e.0).collect();
    assert_eq!(map.entries().len(), 103);
    assert_eq!(names.len(), 103);

    let mut map = KeycodeMap::new();
    map.insert("KeyA", 38);
    map.insert("KeyB", 56);
    map.insert("KeyA", 1);
    assert_eq!(map.entries(), &[("KeyA".to_string(), 38), ("KeyB".to_string(), 56)]);
    assert_eq!(map.get("KeyA"), Some(38));
}
