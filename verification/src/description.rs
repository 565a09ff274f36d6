//! Which windows are tracked and how they are described, from what the X server says of them.

use crate::text::{lossy_utf8, text_from_utf8, text_from_utf8_lossy, utf8_text};
use crate::wire::{be_value, lemma_be_value_4};
use crate::window_monitor::{WindowInfo, WindowView};
use vstd::prelude::*;
use vstd::slice::slice_subrange;

verus! {

/// The map state of a window that is on the screen, with all its ancestors.
pub const VIEWABLE: u8 = 2;

/// Windows with a side under this many pixels are not tracked.
pub const MIN_SIDE: u16 = 10;

/// The X11 atoms that window queries need.
#[derive(Debug, Clone, Copy)]
pub struct Atoms {
    pub net_wm_name: u32,
    pub wm_name: u32,
    pub utf8_string: u32,
    pub wm_class: u32,
    pub net_wm_window_type: u32,
    pub net_wm_window_type_normal: u32,
    pub net_wm_window_type_dialog: u32,
    pub net_wm_window_type_utility: u32,
    pub net_close_window: u32,
    pub wm_protocols: u32,
    pub wm_delete_window: u32,
}

/// What `GetWindowAttributes` says of a window.
#[derive(Debug, Clone, Copy)]
pub struct Attributes {
    pub override_redirect: bool,
    pub map_state: u8,
}

/// What `GetGeometry` says of a window.
#[derive(Debug, Clone, Copy)]
pub struct Geometry {
    pub x: i16,
    pub y: i16,
    pub width: u16,
    pub height: u16,
}

/// A property that holds text: the length of the reply in four-byte units, and the bytes.
#[derive(Debug)]
pub struct TextProperty {
    pub length: u32,
    pub value: Vec<u8>,
}

/// A property that holds atoms: the length of the reply, and the atoms if they could be read as
/// 32-bit values.
#[derive(Debug)]
pub struct AtomProperty {
    pub length: u32,
    pub atoms: Option<Vec<u32>>,
}

/// The four-byte numbers in a value, in the given byte order. Bytes that are left at its end spell
/// none.
pub open spec fn words_in(value: Seq<u8>, big_endian: bool) -> Seq<u32> {
    Seq::new(
        value.len() / 4,
        |i: int|
            {
                let word = value.subrange(4 * i, 4 * i + 4);
                be_value(
                    if big_endian {
                        word
                    } else {
                        word.reverse()
                    },
                ) as u32
            },
    )
}

/// Calls `x11rb`'s `GetPropertyReply::value32`: a value of the format 32, and no other, is read as
/// four-byte numbers, in the byte order of the machine. Which order that is, is not stated.
#[verifier::external_body]
fn value32(format: u8, value: Vec<u8>) -> (words: Option<Vec<u32>>)
    ensures
        words is Some <==> format == 32,
        words matches Some(list) ==> list@ == words_in(value@, true) || list@ == words_in(
            value@,
            false,
        ),
{
    let reply =
        x11rb::protocol::xproto::GetPropertyReply { format, value, ..Default::default() };
    let words = reply.value32().map(|numbers| numbers.collect());
    words
}

impl AtomProperty {
    /// Reads a reply of the X server: its length, its format and its bytes.
    pub fn from_reply(length: u32, format: u8, value: Vec<u8>) -> (property: Self)
        ensures
            property.length == length,
            property.atoms is Some <==> format == 32,
            property.atoms matches Some(list) ==> list@ == words_in(value@, true) || list@
                == words_in(value@, false),
    {
        AtomProperty { length, atoms: value32(format, value) }
    }
}

/// All that the X server says of a window. A reply that failed to come is `None`.
#[derive(Debug)]
pub struct WindowReplies {
    pub attributes: Option<Attributes>,
    pub window_type: Option<AtomProperty>,
    pub geometry: Option<Geometry>,
    pub net_wm_name: Option<TextProperty>,
    pub wm_name: Option<TextProperty>,
    pub wm_class: Option<TextProperty>,
    /// The window's origin in the coordinates of the root window.
    pub root_position: Option<(i16, i16)>,
}

/// Whether a window type is one of those that are tracked: normal, dialog, utility.
pub open spec fn tracks_type(atoms: Atoms, atom: u32) -> bool {
    atom == atoms.net_wm_window_type_normal || atom == atoms.net_wm_window_type_dialog || atom
        == atoms.net_wm_window_type_utility
}

/// Whether a window may be tracked going by its type: one of its types is a tracked one, or it
/// says none that can be read.
pub open spec fn trackable_type(atoms: Atoms, window_type: Option<AtomProperty>) -> bool {
    match window_type {
        Some(property) => property.length == 0 || match property.atoms {
            Some(list) => exists|i: int|
                0 <= i < list@.len() && tracks_type(atoms, #[trigger] list@[i]),
            None => true,
        },
        None => true,
    }
}

/// The title of a window: the UTF-8 name if it is set and is UTF-8, else the plain name with what
/// is not UTF-8 replaced, else none.
pub open spec fn title_of(
    net_wm_name: Option<TextProperty>,
    wm_name: Option<TextProperty>,
) -> Seq<char> {
    match net_wm_name {
        Some(name) if name.length > 0 && utf8_text(name.value@) is Some => utf8_text(
            name.value@,
        )->0,
        _ => match wm_name {
            Some(name) if name.length > 0 => lossy_utf8(name.value@),
            _ => seq![],
        },
    }
}

/// How many bytes stand before the first zero byte.
pub open spec fn nul_at(bytes: Seq<u8>) -> nat
    decreases bytes.len(),
{
    if bytes.len() == 0 || bytes[0] == 0 {
        0
    } else {
        1 + nul_at(bytes.drop_first())
    }
}

/// The class in a `WM_CLASS` value, which is an instance name and a class, each ended by a zero
/// byte; the whole value if it has no zero byte.
pub open spec fn class_part(value: Seq<u8>) -> Seq<u8> {
    let at = nul_at(value) as int;
    if at >= value.len() {
        value
    } else {
        let rest = value.skip(at + 1);
        rest.take(nul_at(rest) as int)
    }
}

/// The class of a window's application; empty if it says none.
pub open spec fn class_of(wm_class: Option<TextProperty>) -> Seq<char> {
    match wm_class {
        Some(property) if property.length > 0 => lossy_utf8(class_part(property.value@)),
        _ => seq![],
    }
}

/// The description of a window that is to be tracked. Not tracked are windows that bypass the
/// window manager, windows of other types than the tracked ones, tiny windows, and windows with
/// neither title nor class; nor one whose attributes or geometry are not known.
pub open spec fn described(atoms: Atoms, window: u32, replies: WindowReplies) -> Option<
    WindowView,
> {
    match (replies.attributes, replies.geometry) {
        (Some(attributes), Some(geometry)) => {
            let title = title_of(replies.net_wm_name, replies.wm_name);
            let app_class = class_of(replies.wm_class);
            if attributes.override_redirect || !trackable_type(atoms, replies.window_type)
                || geometry.width < MIN_SIDE || geometry.height < MIN_SIDE || (title.len() == 0
                && app_class.len() == 0) {
                None
            } else {
                let (x, y) = match replies.root_position {
                    Some(position) => position,
                    None => (geometry.x, geometry.y),
                };
                Some(
                    WindowView {
                        window_id: window,
                        title,
                        x,
                        y,
                        width: geometry.width,
                        height: geometry.height,
                        visible: attributes.map_state == VIEWABLE,
                        app_class,
                    },
                )
            }
        },
        _ => None,
    }
}

/// Whether one of the given types is a tracked one.
fn any_tracked_type(atoms: &Atoms, list: &Vec<u32>) -> (yes: bool)
    ensures
        yes == exists|i: int| 0 <= i < list@.len() && tracks_type(*atoms, #[trigger] list@[i]),
{
    let mut i: usize = 0;
    while i < list.len()
        invariant
            i <= list@.len(),
            forall|j: int| 0 <= j < i ==> !tracks_type(*atoms, #[trigger] list@[j]),
        decreases list.len() - i,
    {
        let atom = list[i];
        if atom == atoms.net_wm_window_type_normal || atom == atoms.net_wm_window_type_dialog
            || atom == atoms.net_wm_window_type_utility {
            proof {
                assert(tracks_type(*atoms, list@[i as int]));
            }
            return true;
        }
        i = i + 1;
    }
    false
}

/// Check if a window's `_NET_WM_WINDOW_TYPE` indicates it should be tracked.
pub fn is_trackable_window_type(atoms: &Atoms, window_type: &Option<AtomProperty>) -> (yes: bool)
    ensures
        yes == trackable_type(*atoms, *window_type),
{
    match window_type {
        Some(property) => if property.length == 0 {
            true
        } else {
            match &property.atoms {
                Some(list) => any_tracked_type(atoms, list),
                None => true,
            }
        },
        None => true,
    }
}

/// Get the window title, preferring `_NET_WM_NAME` over `WM_NAME`.
pub fn get_window_title(net_wm_name: &Option<TextProperty>, wm_name: &Option<TextProperty>) -> (
title: String)
    ensures
        title@ == title_of(*net_wm_name, *wm_name),
{
    if let Some(name) = net_wm_name {
        if name.length > 0 {
            if let Some(text) = text_from_utf8(name.value.as_slice()) {
                return text;
            }
        }
    }
    if let Some(name) = wm_name {
        if name.length > 0 {
            return text_from_utf8_lossy(name.value.as_slice());
        }
    }
    String::new()
}

/// Where the first zero byte stands from `from` on.
fn find_nul(bytes: &[u8], from: usize) -> (at: usize)
    requires
        from <= bytes@.len(),
    ensures
        from <= at <= bytes@.len(),
        at == from + nul_at(bytes@.skip(from as int)),
{
    let mut at = from;
    while at < bytes.len() && bytes[at] != 0
        invariant
            from <= at <= bytes@.len(),
            nul_at(bytes@.skip(from as int)) == at - from + nul_at(bytes@.skip(at as int)),
        decreases bytes.len() - at,
    {
        proof {
            assert(bytes@.skip(at as int).drop_first() =~= bytes@.skip(at + 1));
        }
        at = at + 1;
    }
    at
}

/// Get the `WM_CLASS` of a window (application identifier).
pub fn get_wm_class(wm_class: &Option<TextProperty>) -> (class: String)
    ensures
        class@ == class_of(*wm_class),
{
    if let Some(property) = wm_class {
        if property.length > 0 {
            let value = property.value.as_slice();
            let first = find_nul(value, 0);
            proof {
                assert(value@.skip(0) =~= value@);
            }
            if first == value.len() {
                return text_from_utf8_lossy(value);
            }
            let second = find_nul(value, first + 1);
            let part = slice_subrange(value, first + 1, second);
            proof {
                assert(part@ =~= class_part(value@));
            }
            return text_from_utf8_lossy(part);
        }
    }
    String::new()
}

/// Whether a text is empty.
fn is_empty_text(text: &String) -> (empty: bool)
    ensures
        empty == (text@.len() == 0),
{
    text.as_str().unicode_len() == 0
}

/// Describes a window from what the X server says of it. Returns `None` if the window should not
/// be tracked.
pub fn describe_window(atoms: &Atoms, window: u32, replies: &WindowReplies) -> (info: Option<
    WindowInfo,
>)
    ensures
        match info {
            Some(w) => described(*atoms, window, *replies) == Some(w@),
            None => described(*atoms, window, *replies) is None,
        },
{
    let attributes = match replies.attributes {
        Some(attributes) => attributes,
        None => return None,
    };
    if attributes.override_redirect {
        return None;
    }
    if !is_trackable_window_type(atoms, &replies.window_type) {
        return None;
    }
    let geometry = match replies.geometry {
        Some(geometry) => geometry,
        None => return None,
    };
    if geometry.width < MIN_SIDE || geometry.height < MIN_SIDE {
        return None;
    }
    let visible = attributes.map_state == VIEWABLE;
    let title = get_window_title(&replies.net_wm_name, &replies.wm_name);
    let app_class = get_wm_class(&replies.wm_class);
    if is_empty_text(&title) && is_empty_text(&app_class) {
        return None;
    }
    let (x, y) = match replies.root_position {
        Some(position) => position,
        None => (geometry.x, geometry.y),
    };
    Some(
        WindowInfo {
            window_id: window,
            title,
            x,
            y,
            width: geometry.width,
            height: geometry.height,
            visible,
            app_class,
        },
    )
}

/// The message that asks a window to close itself.
#[derive(Debug, Clone, Copy)]
pub struct CloseMessage {
    pub format: u8,
    pub window: u32,
    pub message_type: u32,
    pub data: [u32; 5],
}

/// Build the `WM_DELETE_WINDOW` message for a window.
pub fn close_message(atoms: &Atoms, window: u32) -> (message: CloseMessage)
    ensures
        message.format == 32,
        message.window == window,
        message.message_type == atoms.wm_protocols,
        message.data@ == seq![atoms.wm_delete_window, 0, 0, 0, 0],
{
    CloseMessage {
        format: 32,
        window,
        message_type: atoms.wm_protocols,
        data: [atoms.wm_delete_window, 0, 0, 0, 0],
    }
}

// ---------------------------------------------------------------------------
// Laws
// ---------------------------------------------------------------------------

/// A window that is tracked stands under the identifier that was asked for, is not tiny, and has
/// a title or a class.
pub proof fn law_described_windows(atoms: Atoms, window: u32, replies: WindowReplies)
    requires
        described(atoms, window, replies) is Some,
    ensures
        ({
            let w = described(atoms, window, replies)->0;
            &&& w.window_id == window
            &&& w.width >= MIN_SIDE && w.height >= MIN_SIDE
            &&& w.title.len() > 0 || w.app_class.len() > 0
        }),
{
}

/// The class is found in a value of the standard form, whatever follows it.
pub proof fn law_class_found(instance: Seq<u8>, class: Seq<u8>, after: Seq<u8>)
    requires
        !instance.contains(0),
        !class.contains(0),
        after.len() == 0 || after[0] == 0,
    ensures
        class_part(instance + seq![0u8] + class + after) == class,
{
    let value = instance + seq![0u8] + class + after;
    lemma_nul_at(instance, seq![0u8] + class + after);
    assert(instance + (seq![0u8] + class + after) =~= value);
    let rest = value.skip(instance.len() as int + 1);
    assert(rest =~= class + after);
    lemma_nul_at(class, after);
    assert(rest.take(class.len() as int) =~= class);
}

/// The first zero byte stands after all that come before it.
proof fn lemma_nul_at(before: Seq<u8>, after: Seq<u8>)
    requires
        !before.contains(0),
        after.len() == 0 || after[0] == 0,
    ensures
        nul_at(before + after) == before.len(),
    decreases before.len(),
{
    if before.len() == 0 {
        assert(before + after =~= after);
    } else {
        assert(before.contains(before[0]));
        let rest = before.drop_first();
        assert(!rest.contains(0)) by {
            if rest.contains(0) {
                let i = rest.index_of(0);
                assert(before[i + 1] == 0);
            }
        }
        assert((before + after).drop_first() =~= rest + after);
        lemma_nul_at(rest, after);
    }
}

/// Going by its types: a window that is managed, not tiny, and has a title is tracked if one of
/// its types is the normal, the dialog or the utility type, and is not tracked if it says types
/// and none of them is one of these.
pub proof fn law_types_decide(atoms: Atoms, window: u32, replies: WindowReplies, list: Seq<u32>)
    requires
        replies.attributes is Some && !replies.attributes->0.override_redirect,
        replies.geometry is Some && replies.geometry->0.width >= 10 && replies.geometry->0.height
            >= 10,
        title_of(replies.net_wm_name, replies.wm_name).len() > 0,
        replies.window_type is Some && replies.window_type->0.length > 0,
        replies.window_type->0.atoms is Some && replies.window_type->0.atoms->0@ == list,
    ensures
        list.contains(atoms.net_wm_window_type_normal) ==> described(atoms, window, replies) is Some,
        list.contains(atoms.net_wm_window_type_dialog) ==> described(atoms, window, replies) is Some,
        list.contains(atoms.net_wm_window_type_utility) ==> described(atoms, window, replies)
            is Some,
        !list.contains(atoms.net_wm_window_type_normal) && !list.contains(
            atoms.net_wm_window_type_dialog,
        ) && !list.contains(atoms.net_wm_window_type_utility) ==> described(atoms, window, replies)
            is None,
{
    assert forall|i: int|
        0 <= i < list.len() && (list[i] == atoms.net_wm_window_type_normal || list[i]
            == atoms.net_wm_window_type_dialog || list[i]
            == atoms.net_wm_window_type_utility) implies tracks_type(atoms, #[trigger] list[i]) by {
    }
}

/// A window that says no type, or none that can be read, or the normal type among others, is
/// tracked if it has a title or, in place of one, a class.
pub proof fn law_tracked_without_type(atoms: Atoms, window: u32, replies: WindowReplies)
    requires
        replies.attributes is Some && !replies.attributes->0.override_redirect,
        replies.geometry is Some && replies.geometry->0.width >= 10 && replies.geometry->0.height
            >= 10,
        title_of(replies.net_wm_name, replies.wm_name).len() > 0 || class_of(
            replies.wm_class,
        ).len() > 0,
        replies.window_type matches Some(property) ==> property.length == 0 || property.atoms is None
            || property.atoms->0@.contains(atoms.net_wm_window_type_normal),
    ensures
        described(atoms, window, replies) is Some,
{
    if let Some(property) = replies.window_type {
        if let Some(list) = property.atoms {
            if list@.contains(atoms.net_wm_window_type_normal) {
                let i = list@.index_of(atoms.net_wm_window_type_normal);
                assert(tracks_type(atoms, list@[i]));
            }
        }
    }
}

/// What is known of a tracked window is what the X server said: its size as it is, its origin on
/// the root window or, where that is not known, in its parent, and that it shows if and only if
/// its map state is 2. One that bypasses the window manager, is under ten pixels wide or high, has
/// neither title nor class, or whose attributes or geometry are not known, is not tracked.
pub proof fn law_description_is_faithful(atoms: Atoms, window: u32, replies: WindowReplies)
    ensures
        replies.attributes is None || replies.geometry is None ==> described(
            atoms,
            window,
            replies,
        ) is None,
        replies.attributes matches Some(a) && a.override_redirect ==> described(
            atoms,
            window,
            replies,
        ) is None,
        replies.geometry matches Some(g) && (g.width < 10 || g.height < 10) ==> described(
            atoms,
            window,
            replies,
        ) is None,
        title_of(replies.net_wm_name, replies.wm_name).len() == 0 && class_of(
            replies.wm_class,
        ).len() == 0 ==> described(atoms, window, replies) is None,
        described(atoms, window, replies) matches Some(w) ==> {
            &&& w.window_id == window
            &&& w.width == replies.geometry->0.width
            &&& w.height == replies.geometry->0.height
            &&& w.visible <==> replies.attributes->0.map_state == 2
            &&& w.title == title_of(replies.net_wm_name, replies.wm_name)
            &&& w.app_class == class_of(replies.wm_class)
            &&& replies.root_position matches Some(place) ==> w.x == place.0 && w.y == place.1
            &&& replies.root_position is None ==> w.x == replies.geometry->0.x && w.y
                == replies.geometry->0.y
        },
{
}

/// The title is the UTF-8 name where there is one, whatever the plain name is; where there is
/// none, or it is not UTF-8, it is the plain name, read with what is not UTF-8 replaced; where
/// there is neither, it is empty.
pub proof fn law_title_preferred(
    net_wm_name: Option<TextProperty>,
    wm_name: Option<TextProperty>,
    text: Seq<char>,
)
    ensures
        net_wm_name matches Some(name) && name.length > 0 && utf8_text(name.value@) == Some(text)
            ==> title_of(net_wm_name, wm_name) == text,
        (net_wm_name is None || net_wm_name->0.length == 0 || utf8_text(net_wm_name->0.value@)
            is None) && wm_name is Some && wm_name->0.length > 0 ==> title_of(net_wm_name, wm_name)
            == lossy_utf8(wm_name->0.value@),
        (net_wm_name is None || net_wm_name->0.length == 0 || utf8_text(net_wm_name->0.value@)
            is None) && (wm_name is None || wm_name->0.length == 0) ==> title_of(
            net_wm_name,
            wm_name,
        ) == Seq::<char>::empty(),
{
}

/// The class of a window is the second of two names that each end with a zero byte, or the whole
/// value where there is no zero byte; a property of length zero holds none.
pub proof fn law_class_read(
    property: TextProperty,
    instance: Seq<u8>,
    class: Seq<u8>,
    after: Seq<u8>,
)
    requires
        !instance.contains(0),
        !class.contains(0),
        after.len() == 0 || after[0] == 0,
    ensures
        property.length > 0 && property.value@ == instance + seq![0u8] + class + after ==> class_of(
            Some(property),
        ) == lossy_utf8(class),
        property.length > 0 && property.value@ == class ==> class_of(Some(property)) == lossy_utf8(
            class,
        ),
        property.length == 0 ==> class_of(Some(property)) == Seq::<char>::empty(),
        class_of(None) == Seq::<char>::empty(),
{
    law_class_found(instance, class, after);
    lemma_nul_at(class, seq![]);
    assert(class + Seq::<u8>::empty() =~= class);
}

/// Each four bytes of a value are one number, the first of them its highest byte if the order is
/// big-endian and its lowest if it is not; the bytes that are left at the end are passed over.
pub proof fn law_words(value: Seq<u8>, i: int)
    requires
        0 <= i,
        4 * i + 4 <= value.len(),
    ensures
        words_in(value, true).len() == value.len() / 4,
        words_in(value, false).len() == value.len() / 4,
        words_in(value, true)[i] == ((value[4 * i] * 256 + value[4 * i + 1]) * 256 + value[4 * i
            + 2]) * 256 + value[4 * i + 3],
        words_in(value, false)[i] == ((value[4 * i + 3] * 256 + value[4 * i + 2]) * 256 + value[4
            * i + 1]) * 256 + value[4 * i],
{
    let word = value.subrange(4 * i, 4 * i + 4);
    lemma_be_value_4(word);
    lemma_be_value_4(word.reverse());
}

} // verus!
