//! Windows: their description, the table of them, and what clients are told.

use phantom_screen_server::description::{
    close_message, describe_window, get_window_title, get_wm_class, is_trackable_window_type,
    AtomProperty, Atoms, Attributes, Geometry, TextProperty, WindowReplies,
};
use phantom_screen_server::tracking::{Monitor, Question, Replies, Root, TreeWindow, XEvent};
use phantom_screen_server::window_monitor::{WindowEvent, WindowInfo};

#[test]
fn window_info_serialize_deserialize_roundtrip() {
    let info = WindowInfo {
        window_id: 0x12345678,
        title: "Test Window".into(),
        x: -10,
        y: 20,
        width: 800,
        height: 600,
        visible: true,
        app_class: "TestApp".into(),
    };

    let bytes = info.serialize();
    let (deserialized, consumed) = WindowInfo::deserialize(&bytes).unwrap();

    assert_eq!(consumed, bytes.len());
    assert_eq!(deserialized.window_id, info.window_id);
    assert_eq!(deserialized.title, info.title);
    assert_eq!(deserialized.x, info.x);
    assert_eq!(deserialized.y, info.y);
    assert_eq!(deserialized.width, info.width);
    assert_eq!(deserialized.height, info.height);
    assert_eq!(deserialized.visible, info.visible);
    assert_eq!(deserialized.app_class, info.app_class);
}

#[test]
fn window_info_serialize_empty_strings() {
    let info = WindowInfo {
        window_id: 1,
        title: String::new(),
        x: 0,
        y: 0,
        width: 100,
        height: 100,
        visible: false,
        app_class: String::new(),
    };

    let bytes = info.serialize();
    let (deserialized, _) = WindowInfo::deserialize(&bytes).unwrap();
    assert_eq!(deserialized.title, "");
    assert_eq!(deserialized.app_class, "");
    assert!(!deserialized.visible);
}

#[test]
fn window_info_deserialize_truncated_returns_none() {
    // Too short for the fixed header
    assert!(WindowInfo::deserialize(&[0; 5]).is_none());
    // Exactly header but title length would overflow
    let mut data = vec![0u8; 13];
    data.extend_from_slice(&[0x00, 0x10]); // title_len = 16
    // but no title bytes follow
    assert!(WindowInfo::deserialize(&data).is_none());
}

#[test]
fn window_info_serialize_unicode_title() {
    let info = WindowInfo {
        window_id: 42,
        title: "Firefox".into(),
        x: 100,
        y: 200,
        width: 1024,
        height: 768,
        visible: true,
        app_class: "Navigator".into(),
    };

    let bytes = info.serialize();
    let (deserialized, _) = WindowInfo::deserialize(&bytes).unwrap();
    assert_eq!(deserialized.title, "Firefox");
    assert_eq!(deserialized.app_class, "Navigator");
}

#[test]
fn window_info_multiple_deserialize() {
    let info1 = WindowInfo {
        window_id: 1,
        title: "A".into(),
        x: 0,
        y: 0,
        width: 100,
        height: 100,
        visible: true,
        app_class: "a".into(),
    };
    let info2 = WindowInfo {
        window_id: 2,
        title: "BB".into(),
        x: 10,
        y: 20,
        width: 200,
        height: 300,
        visible: false,
        app_class: "bb".into(),
    };

    let mut buf = info1.serialize();
    buf.extend(info2.serialize());

    let (d1, consumed1) = WindowInfo::deserialize(&buf).unwrap();
    assert_eq!(d1.window_id, 1);

    let (d2, _consumed2) = WindowInfo::deserialize(&buf[consumed1..]).unwrap();
    assert_eq!(d2.window_id, 2);
    assert_eq!(d2.title, "BB");
}

#[test]
fn window_info_byte_by_byte() {
    let info = WindowInfo {
        window_id: 0x0A0B0C0D,
        title: "T".into(),
        x: -2,
        y: 3,
        width: 258,
        height: 4,
        visible: true,
        app_class: "cd".into(),
    };
    assert_eq!(
        info.serialize(),
        [
            0x0A, 0x0B, 0x0C, 0x0D, 0xFF, 0xFE, 0, 3, 1, 2, 0, 4, 1, 0, 1, b'T', 0, 2, b'c', b'd'
        ]
    );
}

#[test]
fn window_info_rejects_text_that_is_not_utf8() {
    let mut data = vec![0u8; 13];
    data.extend_from_slice(&[0, 1, 0xFF, 0, 0]);
    assert!(WindowInfo::deserialize(&data).is_none());
    data[15] = b'a';
    let (info, taken) = WindowInfo::deserialize(&data).unwrap();
    assert_eq!((info.title.as_str(), taken), ("a", 18));
}

const ROOT: Root = Root { window: 1, net_wm_name: 2, wm_name: 3 };

fn window(window_id: u32) -> WindowInfo {
    WindowInfo {
        window_id,
        title: "title".into(),
        x: 1,
        y: 2,
        width: 300,
        height: 200,
        visible: false,
        app_class: "class".into(),
    }
}

fn replies(window: Option<WindowInfo>, children: Vec<WindowInfo>, title: &str) -> Replies {
    Replies { window, children, title: title.into() }
}

#[test]
fn new_windows_are_asked_for_and_added() {
    let mut monitor = Monitor::new(ROOT);
    let map = XEvent::MapNotify { window: 9 };
    assert_eq!(monitor.question(&map), Question::WindowOrChildren { window: 9 });
    let events = monitor.react(&map, replies(Some(window(9)), vec![], ""));
    assert_eq!(events.len(), 1);
    assert!(matches!(&events[0], WindowEvent::Added(w) if w.window_id == 9));
    assert!(monitor.is_tracked(9));
    assert_eq!(monitor.question(&map), Question::Nothing);
    let events = monitor.react(&map, Replies::none());
    assert!(matches!(
        events[..],
        [WindowEvent::VisibilityChanged { window_id: 9, visible: true }]
    ));
    assert!(monitor.react(&map, Replies::none()).is_empty());
    let unmap = XEvent::UnmapNotify { window: 9 };
    let events = monitor.react(&unmap, Replies::none());
    assert!(matches!(
        events[..],
        [WindowEvent::VisibilityChanged { window_id: 9, visible: false }]
    ));
    assert!(monitor.react(&unmap, Replies::none()).is_empty());
}

#[test]
fn frames_are_looked_into() {
    let mut monitor = Monitor::new(ROOT);
    monitor.react(&XEvent::MapNotify { window: 5 }, replies(Some(window(5)), vec![], ""));
    let events = monitor.react(
        &XEvent::MapNotify { window: 40 },
        replies(None, vec![window(5), window(6), window(6), window(7)], ""),
    );
    let added: Vec<u32> = events
        .iter()
        .map(|e| match e {
            WindowEvent::Added(w) => w.window_id,
            _ => panic!("Expected Added"),
        })
        .collect();
    assert_eq!(added, [6, 7]);
    assert!(!monitor.is_tracked(40));
}

#[test]
fn moves_and_resizes_are_told_apart() {
    let mut monitor = Monitor::new(ROOT);
    monitor.react(&XEvent::MapNotify { window: 5 }, replies(Some(window(5)), vec![], ""));
    let configure = |x, width| XEvent::ConfigureNotify { window: 5, x, y: 2, width, height: 200 };
    assert!(monitor.react(&configure(1, 300), Replies::none()).is_empty());
    let events = monitor.react(&configure(4, 400), Replies::none());
    assert!(matches!(
        events[..],
        [
            WindowEvent::Moved { window_id: 5, x: 4, y: 2 },
            WindowEvent::Resized { window_id: 5, width: 400, height: 200 }
        ]
    ));
    let events = monitor.react(&configure(4, 500), Replies::none());
    assert!(matches!(events[..], [WindowEvent::Resized { width: 500, .. }]));
    assert_eq!(monitor.get(5).unwrap().width, 500);
    let other = XEvent::ConfigureNotify { window: 6, x: 0, y: 0, width: 1, height: 1 };
    assert!(monitor.react(&other, Replies::none()).is_empty());
}

#[test]
fn titles_are_read_when_they_may_have_changed() {
    let mut monitor = Monitor::new(ROOT);
    monitor.react(&XEvent::MapNotify { window: 5 }, replies(Some(window(5)), vec![], ""));
    let name = XEvent::PropertyNotify { window: 5, atom: 2 };
    assert_eq!(monitor.question(&name), Question::Title { window: 5 });
    let other = XEvent::PropertyNotify { window: 5, atom: 77 };
    assert_eq!(monitor.question(&other), Question::Nothing);
    let of_root = XEvent::PropertyNotify { window: 1, atom: 2 };
    assert_eq!(monitor.question(&of_root), Question::Nothing);
    assert!(monitor.react(&name, replies(None, vec![], "title")).is_empty());
    let events = monitor.react(&name, replies(None, vec![], "new"));
    assert!(matches!(
        &events[..],
        [WindowEvent::TitleChanged { window_id: 5, title }] if title == "new"
    ));
    assert!(monitor.react(&other, replies(None, vec![], "newer")).is_empty());
    assert_eq!(monitor.get(5).unwrap().title, "new");
}

#[test]
fn reparented_and_destroyed_windows() {
    let mut monitor = Monitor::new(ROOT);
    let to_root = XEvent::ReparentNotify { window: 5, parent: 1 };
    assert_eq!(monitor.question(&to_root), Question::Window { window: 5 });
    let away = XEvent::ReparentNotify { window: 5, parent: 8 };
    assert_eq!(monitor.question(&away), Question::Nothing);
    assert!(monitor.react(&away, replies(Some(window(5)), vec![], "")).is_empty());
    assert!(monitor.react(&to_root, replies(None, vec![], "")).is_empty());
    assert_eq!(monitor.react(&to_root, replies(Some(window(5)), vec![], "")).len(), 1);
    let destroy = XEvent::DestroyNotify { window: 5 };
    let events = monitor.react(&destroy, Replies::none());
    assert!(matches!(events[..], [WindowEvent::Removed { window_id: 5 }]));
    assert!(monitor.react(&destroy, Replies::none()).is_empty());
    assert!(monitor.react(&XEvent::Other, Replies::none()).is_empty());
}

#[test]
fn enumeration_prefers_top_level_windows() {
    let mut child = window(6);
    child.title = "child".into();
    let mut top = window(6);
    top.title = "top".into();
    let tree = vec![
        TreeWindow { window: None, children: vec![child.clone()] },
        TreeWindow { window: Some(top), children: vec![child, window(7)] },
    ];
    let mut monitor = Monitor::enumerate_windows(ROOT, &tree);
    assert_eq!(monitor.get(6).unwrap().title, "top");
    assert_eq!(monitor.snapshot().len(), 2);
    monitor.clear();
    assert!(monitor.snapshot().is_empty());
}

/// Keeps a client's table from events alone.
fn apply(table: &mut std::collections::HashMap<u32, WindowInfo>, event: &WindowEvent) {
    match event {
        WindowEvent::Snapshot(windows) => {
            table.clear();
            for w in windows {
                table.insert(w.window_id, w.clone());
            }
        }
        WindowEvent::Added(w) => {
            table.insert(w.window_id, w.clone());
        }
        WindowEvent::Removed { window_id } => {
            table.remove(window_id);
        }
        WindowEvent::Resized { window_id, width, height } => {
            let w = table.get_mut(window_id).unwrap();
            w.width = *width;
            w.height = *height;
        }
        WindowEvent::Moved { window_id, x, y } => {
            let w = table.get_mut(window_id).unwrap();
            w.x = *x;
            w.y = *y;
        }
        WindowEvent::TitleChanged { window_id, title } => {
            table.get_mut(window_id).unwrap().title = title.clone();
        }
        WindowEvent::VisibilityChanged { window_id, visible } => {
            table.get_mut(window_id).unwrap().visible = *visible;
        }
    }
}

#[test]
fn a_client_mirrors_the_monitor() {
    let tree = vec![TreeWindow { window: Some(window(2)), children: vec![window(3)] }];
    let mut monitor = Monitor::enumerate_windows(ROOT, &tree);
    let mut table = std::collections::HashMap::new();
    apply(&mut table, &WindowEvent::Snapshot(monitor.snapshot()));
    let steps = vec![
        (XEvent::MapNotify { window: 2 }, Replies::none()),
        (XEvent::MapNotify { window: 4 }, replies(Some(window(4)), vec![], "")),
        (XEvent::PropertyNotify { window: 4, atom: 3 }, replies(None, vec![], "t")),
        (
            XEvent::ConfigureNotify { window: 3, x: 9, y: 9, width: 9, height: 9 },
            Replies::none(),
        ),
        (XEvent::DestroyNotify { window: 2 }, Replies::none()),
    ];
    for (event, answer) in steps {
        for told in monitor.react(&event, answer) {
            apply(&mut table, &told);
        }
        let mut here: Vec<String> = monitor.snapshot().iter().map(|w| format!("{:?}", w)).collect();
        let mut there: Vec<String> = table.values().map(|w| format!("{:?}", w)).collect();
        here.sort();
        there.sort();
        assert_eq!(here, there);
    }
    assert_eq!(table.len(), 2);
}

const ATOMS: Atoms = Atoms {
    net_wm_name: 1,
    wm_name: 2,
    utf8_string: 3,
    wm_class: 4,
    net_wm_window_type: 5,
    net_wm_window_type_normal: 6,
    net_wm_window_type_dialog: 7,
    net_wm_window_type_utility: 8,
    net_close_window: 9,
    wm_protocols: 10,
    wm_delete_window: 11,
};

fn text(value: &[u8]) -> Option<TextProperty> {
    Some(TextProperty { length: (value.len() as u32 + 3) / 4, value: value.to_vec() })
}

fn full_replies() -> WindowReplies {
    WindowReplies {
        attributes: Some(Attributes { override_redirect: false, map_state: 2 }),
        window_type: None,
        geometry: Some(Geometry { x: 1, y: 2, width: 10, height: 10 }),
        net_wm_name: text("näme".as_bytes()),
        wm_name: text(b"plain"),
        wm_class: text(b"inst\0Class\0"),
        root_position: Some((30, 40)),
    }
}

#[test]
fn windows_are_described() {
    let info = describe_window(&ATOMS, 77, &full_replies()).unwrap();
    assert_eq!((info.window_id, info.x, info.y), (77, 30, 40));
    assert_eq!((info.width, info.height, info.visible), (10, 10, true));
    assert_eq!((info.title.as_str(), info.app_class.as_str()), ("näme", "Class"));
    let mut hidden = full_replies();
    hidden.attributes = Some(Attributes { override_redirect: false, map_state: 1 });
    hidden.root_position = None;
    let info = describe_window(&ATOMS, 77, &hidden).unwrap();
    assert_eq!((info.x, info.y, info.visible), (1, 2, false));
}

#[test]
fn windows_that_are_not_tracked() {
    let mut r = full_replies();
    r.attributes = Some(Attributes { override_redirect: true, map_state: 2 });
    assert!(describe_window(&ATOMS, 77, &r).is_none());
    let mut r = full_replies();
    r.attributes = None;
    assert!(describe_window(&ATOMS, 77, &r).is_none());
    let mut r = full_replies();
    r.geometry = None;
    assert!(describe_window(&ATOMS, 77, &r).is_none());
    let mut r = full_replies();
    r.geometry = Some(Geometry { x: 0, y: 0, width: 9, height: 100 });
    assert!(describe_window(&ATOMS, 77, &r).is_none());
    let mut r = full_replies();
    r.window_type = Some(AtomProperty { length: 1, atoms: Some(vec![99]) });
    assert!(describe_window(&ATOMS, 77, &r).is_none());
    let mut r = full_replies();
    r.net_wm_name = None;
    r.wm_name = None;
    assert!(describe_window(&ATOMS, 77, &r).is_some());
    r.wm_class = None;
    assert!(describe_window(&ATOMS, 77, &r).is_none());
}

#[test]
fn window_types() {
    let with = |length, atoms| Some(AtomProperty { length, atoms });
    assert!(is_trackable_window_type(&ATOMS, &None));
    assert!(is_trackable_window_type(&ATOMS, &with(0, Some(vec![]))));
    assert!(is_trackable_window_type(&ATOMS, &with(1, None)));
    assert!(is_trackable_window_type(&ATOMS, &with(2, Some(vec![99, 8]))));
    assert!(!is_trackable_window_type(&ATOMS, &with(2, Some(vec![99, 5]))));
}

#[test]
fn titles_fall_back_to_the_plain_name() {
    assert_eq!(get_window_title(&text(b"utf"), &text(b"plain")), "utf");
    assert_eq!(get_window_title(&text(&[0xFF]), &text(b"plain")), "plain");
    assert_eq!(get_window_title(&text(b""), &text(&[b'a', 0xFF])), "a\u{FFFD}");
    assert_eq!(get_window_title(&None, &None), "");
}

#[test]
fn classes_are_the_second_part() {
    assert_eq!(get_wm_class(&text(b"inst\0Class\0")), "Class");
    assert_eq!(get_wm_class(&text(b"inst\0Class")), "Class");
    assert_eq!(get_wm_class(&text(b"only")), "only");
    assert_eq!(get_wm_class(&text(b"inst\0")), "");
    assert_eq!(get_wm_class(&text(&[b'i', 0, 0xFE])), "\u{FFFD}");
    assert_eq!(get_wm_class(&None), "");
}

#[test]
fn windows_are_asked_to_close() {
    let message = close_message(&ATOMS, 5);
    assert_eq!((message.format, message.window, message.message_type), (32, 5, 10));
    assert_eq!(message.data, [11, 0, 0, 0, 0]);
}

#[test]
fn atoms_are_read_from_a_reply_of_format_32() {
    let mut value = 7u32.to_ne_bytes().to_vec();
    value.extend(0x0102_0304u32.to_ne_bytes());
    value.push(9);
    let property = AtomProperty::from_reply(2, 32, value.clone());
    assert_eq!(property.length, 2);
    assert_eq!(property.atoms, Some(vec![7, 0x0102_0304]));
    assert_eq!(AtomProperty::from_reply(2, 8, value).atoms, None);
    assert_eq!(AtomProperty::from_reply(0, 32, Vec::new()).atoms, Some(Vec::new()));
}
