//! Windows of the X display: how one is described, and how its description travels.

use crate::text::{lemma_utf8_round_trip, text_from_utf8, utf8_text};
use crate::wire::{
    be_bytes, be_value, i16_bits, i16_from_bits, lemma_be_bytes_len, lemma_be_bytes_of_be_value,
    lemma_be_value_2, lemma_be_value_4, lemma_be_value_of_be_bytes, lemma_byte_range,
    lemma_i16_bits, push_bytes, push_i16, push_u16, push_u32, read_i16, read_u16, read_u32,
};
use vstd::prelude::*;
use vstd::slice::slice_subrange;
use vstd::utf8::{decode_utf8_encode_utf8, encode_utf8};

verus! {

/// Information about a single X11 window.
#[derive(Debug)]
pub struct WindowInfo {
    pub window_id: u32,
    pub title: String,
    pub x: i16,
    pub y: i16,
    pub width: u16,
    pub height: u16,
    pub visible: bool,
    pub app_class: String,
}

/// What a [`WindowInfo`] says.
#[verifier::ext_equal]
pub ghost struct WindowView {
    pub window_id: u32,
    pub title: Seq<char>,
    pub x: i16,
    pub y: i16,
    pub width: u16,
    pub height: u16,
    pub visible: bool,
    pub app_class: Seq<char>,
}

impl View for WindowInfo {
    type V = WindowView;

    open spec fn view(&self) -> WindowView {
        WindowView {
            window_id: self.window_id,
            title: self.title@,
            x: self.x,
            y: self.y,
            width: self.width,
            height: self.height,
            visible: self.visible,
            app_class: self.app_class@,
        }
    }
}

impl Clone for WindowInfo {
    fn clone(&self) -> (copy: Self)
        ensures
            copy == *self,
    {
        WindowInfo {
            window_id: self.window_id,
            title: self.title.clone(),
            x: self.x,
            y: self.y,
            width: self.width,
            height: self.height,
            visible: self.visible,
            app_class: self.app_class.clone(),
        }
    }
}

/// Events emitted by the window monitor.
#[derive(Debug)]
pub enum WindowEvent {
    /// Initial snapshot of all existing windows.
    Snapshot(Vec<WindowInfo>),
    /// A new window appeared.
    Added(WindowInfo),
    /// A window was destroyed.
    Removed { window_id: u32 },
    /// A window was resized.
    Resized { window_id: u32, width: u16, height: u16 },
    /// A window was moved.
    Moved { window_id: u32, x: i16, y: i16 },
    /// A window title changed.
    TitleChanged { window_id: u32, title: String },
    /// A window's visibility changed (mapped/unmapped).
    VisibilityChanged { window_id: u32, visible: bool },
}

/// What a [`WindowEvent`] says.
pub ghost enum WindowEventView {
    Snapshot(Seq<WindowView>),
    Added(WindowView),
    Removed { window_id: u32 },
    Resized { window_id: u32, width: u16, height: u16 },
    Moved { window_id: u32, x: i16, y: i16 },
    TitleChanged { window_id: u32, title: Seq<char> },
    VisibilityChanged { window_id: u32, visible: bool },
}

/// What a list of windows says.
pub open spec fn window_views(windows: Seq<WindowInfo>) -> Seq<WindowView> {
    windows.map_values(|w: WindowInfo| w@)
}

/// What a list of window events says.
pub open spec fn window_event_views(events: Seq<WindowEvent>) -> Seq<WindowEventView> {
    events.map_values(|e: WindowEvent| e@)
}

impl View for WindowEvent {
    type V = WindowEventView;

    open spec fn view(&self) -> WindowEventView {
        match *self {
            WindowEvent::Snapshot(windows) => WindowEventView::Snapshot(window_views(windows@)),
            WindowEvent::Added(window) => WindowEventView::Added(window@),
            WindowEvent::Removed { window_id } => WindowEventView::Removed { window_id },
            WindowEvent::Resized { window_id, width, height } => WindowEventView::Resized {
                window_id,
                width,
                height,
            },
            WindowEvent::Moved { window_id, x, y } => WindowEventView::Moved { window_id, x, y },
            WindowEvent::TitleChanged { window_id, title } => WindowEventView::TitleChanged {
                window_id,
                title: title@,
            },
            WindowEvent::VisibilityChanged {
                window_id,
                visible,
            } => WindowEventView::VisibilityChanged { window_id, visible },
        }
    }
}

/// A copy of a list of windows.
pub fn clone_windows(windows: &Vec<WindowInfo>) -> (copy: Vec<WindowInfo>)
    ensures
        copy@ == windows@,
{
    let mut copy: Vec<WindowInfo> = Vec::new();
    let mut i: usize = 0;
    while i < windows.len()
        invariant
            i <= windows@.len(),
            copy@ == windows@.take(i as int),
        decreases windows.len() - i,
    {
        copy.push(windows[i].clone());
        i = i + 1;
        proof {
            assert(copy@ =~= windows@.take(i as int));
        }
    }
    proof {
        assert(windows@.take(i as int) =~= windows@);
    }
    copy
}

impl Clone for WindowEvent {
    fn clone(&self) -> (copy: Self)
        ensures
            copy@ == self@,
    {
        match self {
            WindowEvent::Snapshot(windows) => WindowEvent::Snapshot(clone_windows(windows)),
            WindowEvent::Added(window) => WindowEvent::Added(window.clone()),
            WindowEvent::Removed { window_id } => WindowEvent::Removed { window_id: *window_id },
            WindowEvent::Resized { window_id, width, height } => WindowEvent::Resized {
                window_id: *window_id,
                width: *width,
                height: *height,
            },
            WindowEvent::Moved { window_id, x, y } => WindowEvent::Moved {
                window_id: *window_id,
                x: *x,
                y: *y,
            },
            WindowEvent::TitleChanged { window_id, title } => WindowEvent::TitleChanged {
                window_id: *window_id,
                title: title.clone(),
            },
            WindowEvent::VisibilityChanged { window_id, visible } => WindowEvent::VisibilityChanged {
                window_id: *window_id,
                visible: *visible,
            },
        }
    }
}

/// A truth value in one byte.
pub open spec fn flag_byte(flag: bool) -> u8 {
    if flag {
        1
    } else {
        0
    }
}

/// A text on the wire: the length of its UTF-8 encoding in two bytes, then the encoding. The
/// length is cut to sixteen bits, the text is not.
pub open spec fn text_bytes(text: Seq<char>) -> Seq<u8> {
    let utf8 = encode_utf8(text);
    be_bytes(utf8.len() % 0x1_0000, 2) + utf8
}

/// A window on the wire: identifier, position, size and visibility in thirteen bytes, then the
/// title, then the application class.
pub open spec fn window_bytes(w: WindowView) -> Seq<u8> {
    window_head(w) + text_bytes(w.title) + text_bytes(w.app_class)
}

/// The part of a window on the wire that has a fixed size.
pub open spec fn window_head(w: WindowView) -> Seq<u8> {
    be_bytes(w.window_id as nat, 4) + be_bytes(i16_bits(w.x), 2) + be_bytes(i16_bits(w.y), 2)
        + be_bytes(w.width as nat, 2) + be_bytes(w.height as nat, 2) + seq![flag_byte(w.visible)]
}

/// The text on the wire at `at`, and where it ends.
pub open spec fn text_at(data: Seq<u8>, at: int) -> Option<(Seq<char>, int)> {
    let start = at + 2;
    if data.len() < start {
        None
    } else {
        let end = start + be_value(data.subrange(at, start));
        if data.len() < end {
            None
        } else {
            match utf8_text(data.subrange(start, end)) {
                Some(text) => Some((text, end)),
                None => None,
            }
        }
    }
}

/// The window on the wire at the start of `data`, and how many bytes it takes.
pub open spec fn window_at_start(data: Seq<u8>) -> Option<(WindowView, int)> {
    if data.len() < 13 {
        None
    } else {
        match text_at(data, 13) {
            Some((title, title_end)) => match text_at(data, title_end) {
                Some((app_class, end)) => Some(
                    (
                        WindowView {
                            window_id: be_value(data.subrange(0, 4)) as u32,
                            title,
                            x: i16_from_bits(be_value(data.subrange(4, 6))),
                            y: i16_from_bits(be_value(data.subrange(6, 8))),
                            width: be_value(data.subrange(8, 10)) as u16,
                            height: be_value(data.subrange(10, 12)) as u16,
                            visible: data[12] != 0,
                            app_class,
                        },
                        end,
                    ),
                ),
                None => None,
            },
            None => None,
        }
    }
}

/// Appends a text with its length before it.
pub fn push_text(buf: &mut Vec<u8>, text: &str)
    ensures
        final(buf)@ == old(buf)@ + text_bytes(text@),
{
    let utf8 = text.as_bytes();
    push_u16(buf, (utf8.len() % 0x1_0000) as u16);
    push_bytes(buf, utf8);
    proof {
        assert(buf@ =~= old(buf)@ + text_bytes(text@));
    }
}

/// Reads the text at `at`; gives it and where it ends.
pub fn read_text(data: &[u8], at: usize) -> (read: Option<(String, usize)>)
    requires
        at <= data@.len(),
    ensures
        read matches Some((text, end)) ==> text_at(data@, at as int) == Some((text@, end as int))
            && end <= data@.len(),
        read is None ==> text_at(data@, at as int) is None,
{
    if data.len() - at < 2 {
        return None;
    }
    let start = at + 2;
    let len = read_u16(data, at) as usize;
    if data.len() - start < len {
        return None;
    }
    match text_from_utf8(slice_subrange(data, start, start + len)) {
        Some(text) => Some((text, start + len)),
        None => None,
    }
}

impl WindowInfo {
    /// Serialize to binary for the coherence protocol.
    pub fn serialize(&self) -> (bytes: Vec<u8>)
        ensures
            bytes@ == window_bytes(self@),
    {
        let mut buf: Vec<u8> = Vec::new();
        push_u32(&mut buf, self.window_id);
        push_i16(&mut buf, self.x);
        push_i16(&mut buf, self.y);
        push_u16(&mut buf, self.width);
        push_u16(&mut buf, self.height);
        buf.push(if self.visible { 1 } else { 0 });
        proof {
            assert(buf@ =~= window_head(self@));
        }
        push_text(&mut buf, self.title.as_str());
        push_text(&mut buf, self.app_class.as_str());
        buf
    }

    /// Deserialize from binary; gives the window and how many bytes it took.
    pub fn deserialize(data: &[u8]) -> (read: Option<(Self, usize)>)
        ensures
            read matches Some((window, taken)) ==> window_at_start(data@) == Some(
                (window@, taken as int),
            ) && taken <= data@.len(),
            read is None ==> window_at_start(data@) is None,
    {
        if data.len() < 13 {
            return None;
        }
        let window_id = read_u32(data, 0);
        let x = read_i16(data, 4);
        let y = read_i16(data, 6);
        let width = read_u16(data, 8);
        let height = read_u16(data, 10);
        let visible = data[12] != 0;
        match read_text(data, 13) {
            Some((title, title_end)) => match read_text(data, title_end) {
                Some((app_class, end)) => Some(
                    (
                        WindowInfo { window_id, title, x, y, width, height, visible, app_class },
                        end,
                    ),
                ),
                None => None,
            },
            None => None,
        }
    }
}

/// Whether the lengths of a window's texts fit in the two bytes that the wire has for each.
pub open spec fn fits_wire(w: WindowView) -> bool {
    &&& encode_utf8(w.title).len() <= 0xffff
    &&& encode_utf8(w.app_class).len() <= 0xffff
}

/// A text is read back from where it was written, whatever stands around it, if its length fits.
pub proof fn lemma_text_round_trip(before: Seq<u8>, text: Seq<char>, after: Seq<u8>)
    requires
        encode_utf8(text).len() <= 0xffff,
    ensures
        text_at(before + text_bytes(text) + after, before.len() as int) == Some(
            (text, (before + text_bytes(text)).len() as int),
        ),
{
    let utf8 = encode_utf8(text);
    let data = before + text_bytes(text) + after;
    let at = before.len() as int;
    lemma_be_bytes_len(utf8.len(), 2);
    lemma_byte_range();
    lemma_be_value_of_be_bytes(utf8.len(), 2);
    assert(data.subrange(at, at + 2) =~= be_bytes(utf8.len(), 2));
    assert(data.subrange(at + 2, at + 2 + utf8.len()) =~= utf8);
    lemma_utf8_round_trip(text);
}

/// Where each field of the fixed part stands.
proof fn lemma_window_head(w: WindowView, after: Seq<u8>)
    ensures
        window_head(w).len() == 13,
        ({
            let data = window_head(w) + after;
            &&& be_value(data.subrange(0, 4)) == w.window_id
            &&& be_value(data.subrange(4, 6)) == i16_bits(w.x)
            &&& be_value(data.subrange(6, 8)) == i16_bits(w.y)
            &&& be_value(data.subrange(8, 10)) == w.width
            &&& be_value(data.subrange(10, 12)) == w.height
            &&& data[12] == flag_byte(w.visible)
        }),
{
    let data = window_head(w) + after;
    lemma_byte_range();
    lemma_be_bytes_len(w.window_id as nat, 4);
    lemma_be_bytes_len(i16_bits(w.x), 2);
    lemma_be_bytes_len(i16_bits(w.y), 2);
    lemma_be_bytes_len(w.width as nat, 2);
    lemma_be_bytes_len(w.height as nat, 2);
    lemma_be_value_of_be_bytes(w.window_id as nat, 4);
    lemma_be_value_of_be_bytes(i16_bits(w.x), 2);
    lemma_be_value_of_be_bytes(i16_bits(w.y), 2);
    lemma_be_value_of_be_bytes(w.width as nat, 2);
    lemma_be_value_of_be_bytes(w.height as nat, 2);
    assert(data.subrange(0, 4) =~= be_bytes(w.window_id as nat, 4));
    assert(data.subrange(4, 6) =~= be_bytes(i16_bits(w.x), 2));
    assert(data.subrange(6, 8) =~= be_bytes(i16_bits(w.y), 2));
    assert(data.subrange(8, 10) =~= be_bytes(w.width as nat, 2));
    assert(data.subrange(10, 12) =~= be_bytes(w.height as nat, 2));
}

/// A window that was serialized is read back whole, with exactly its bytes taken, whatever
/// follows them: several windows can stand one after the other.
pub proof fn law_window_round_trip(w: WindowView, after: Seq<u8>)
    requires
        fits_wire(w),
    ensures
        window_at_start(window_bytes(w) + after) == Some((w, window_bytes(w).len() as int)),
{
    let data = window_bytes(w) + after;
    let head = window_head(w);
    lemma_window_head(w, text_bytes(w.title) + text_bytes(w.app_class) + after);
    assert(head + (text_bytes(w.title) + text_bytes(w.app_class) + after) =~= data);
    lemma_text_round_trip(head, w.title, text_bytes(w.app_class) + after);
    assert(head + text_bytes(w.title) + (text_bytes(w.app_class) + after) =~= data);
    lemma_text_round_trip(head + text_bytes(w.title), w.app_class, after);
    lemma_i16_bits(w.x);
    lemma_i16_bits(w.y);
}

/// What `text_at` reads is what `text_bytes` writes.
proof fn lemma_text_canonical(data: Seq<u8>, at: int)
    requires
        0 <= at,
        text_at(data, at) is Some,
    ensures
        ({
            let (text, end) = text_at(data, at)->0;
            &&& at + 2 <= end <= data.len()
            &&& data.subrange(at, end) == text_bytes(text)
            &&& encode_utf8(text).len() <= 0xffff
        }),
{
    let (text, end) = text_at(data, at)->0;
    let utf8 = data.subrange(at + 2, end);
    let len_bytes = data.subrange(at, at + 2);
    lemma_be_bytes_of_be_value(len_bytes);
    lemma_byte_range();
    decode_utf8_encode_utf8(utf8);
    assert(data.subrange(at, end) =~= len_bytes + utf8);
}

/// The bytes that a window was read from are the bytes that it serializes to, if the visibility
/// byte was 0 or 1.
pub proof fn law_window_canonical(data: Seq<u8>)
    requires
        window_at_start(data) is Some,
        data[12] <= 1,
    ensures
        fits_wire((window_at_start(data)->0).0),
        data.take((window_at_start(data)->0).1) == window_bytes((window_at_start(data)->0).0),
{
    let (w, end) = window_at_start(data)->0;
    let (title, title_end) = text_at(data, 13)->0;
    lemma_text_canonical(data, 13);
    lemma_text_canonical(data, title_end);
    lemma_byte_range();
    lemma_be_bytes_of_be_value(data.subrange(0, 4));
    lemma_be_bytes_of_be_value(data.subrange(4, 6));
    lemma_be_bytes_of_be_value(data.subrange(6, 8));
    lemma_be_bytes_of_be_value(data.subrange(8, 10));
    lemma_be_bytes_of_be_value(data.subrange(10, 12));
    assert(data.take(13) =~= window_head(w));
    assert(data.take(end) =~= data.take(13) + data.subrange(13, title_end) + data.subrange(
        title_end,
        end,
    ));
}

/// Where each field of a window stands on the wire: the identifier in the first four bytes, then
/// the place, signed, and the size in two bytes each, then whether it shows, as 1 or 0, and the
/// two texts, each behind the lower sixteen bits of its length.
pub proof fn law_window_layout(w: WindowView)
    ensures
        ({
            let data = window_bytes(w);
            let title = encode_utf8(w.title);
            let class = encode_utf8(w.app_class);
            let at = 15 + title.len() as int;
            &&& data.len() == 17 + title.len() + class.len()
            &&& ((data[0] * 256 + data[1]) * 256 + data[2]) * 256 + data[3] == w.window_id
            &&& data[4] * 256 + data[5] - w.x == 0 || data[4] * 256 + data[5] - w.x == 65536
            &&& data[6] * 256 + data[7] - w.y == 0 || data[6] * 256 + data[7] - w.y == 65536
            &&& data[8] * 256 + data[9] == w.width
            &&& data[10] * 256 + data[11] == w.height
            &&& data[12] == 1 <==> w.visible
            &&& data[12] == 0 <==> !w.visible
            &&& data[13] * 256 + data[14] == title.len() % 65536
            &&& data.subrange(15, at) == title
            &&& data[at] * 256 + data[at + 1] == class.len() % 65536
            &&& data.skip(at + 2) == class
        }),
{
    let data = window_bytes(w);
    let title = encode_utf8(w.title);
    let class = encode_utf8(w.app_class);
    let at = 15 + title.len() as int;
    let texts = text_bytes(w.title) + text_bytes(w.app_class);
    assert(data =~= window_head(w) + texts);
    lemma_window_head(w, texts);
    lemma_be_value_4(data.subrange(0, 4));
    lemma_be_value_2(data.subrange(4, 6));
    lemma_be_value_2(data.subrange(6, 8));
    lemma_be_value_2(data.subrange(8, 10));
    lemma_be_value_2(data.subrange(10, 12));
    lemma_byte_range();
    lemma_be_bytes_len(title.len() % 65536, 2);
    lemma_be_bytes_len(class.len() % 65536, 2);
    lemma_be_value_of_be_bytes(title.len() % 65536, 2);
    lemma_be_value_of_be_bytes(class.len() % 65536, 2);
    assert(data.subrange(13, 15) =~= be_bytes(title.len() % 65536, 2));
    lemma_be_value_2(data.subrange(13, 15));
    assert(data.subrange(15, at) =~= title);
    assert(data.subrange(at, at + 2) =~= be_bytes(class.len() % 65536, 2));
    lemma_be_value_2(data.subrange(at, at + 2));
    assert(data.skip(at + 2) =~= class);
}

/// What is read as a window: thirteen bytes and two texts that are there in full and are UTF-8,
/// and nothing less. Any visibility byte but zero means that the window shows.
pub proof fn law_window_read(head: Seq<u8>, title: Seq<u8>, class: Seq<u8>, after: Seq<u8>)
    requires
        head.len() == 13,
        title.len() <= 0xffff,
        class.len() <= 0xffff,
    ensures
        ({
            let front = head + be_bytes(title.len(), 2) + title + be_bytes(class.len(), 2);
            let data = front + class + after;
            &&& utf8_text(title) is Some && utf8_text(class) is Some <==> window_at_start(data)
                is Some
            &&& window_at_start(data) matches Some((w, end)) ==> {
                &&& end == 17 + title.len() + class.len()
                &&& w.window_id == ((head[0] * 256 + head[1]) * 256 + head[2]) * 256 + head[3]
                &&& w.x == head[4] * 256 + head[5] || w.x == head[4] * 256 + head[5] - 65536
                &&& w.y == head[6] * 256 + head[7] || w.y == head[6] * 256 + head[7] - 65536
                &&& w.width == head[8] * 256 + head[9]
                &&& w.height == head[10] * 256 + head[11]
                &&& w.visible <==> head[12] > 0
                &&& utf8_text(title) == Some(w.title)
                &&& utf8_text(class) == Some(w.app_class)
            }
            &&& class.len() > 0 ==> window_at_start(front + class.drop_last()) is None
            &&& window_at_start(head) is None
            &&& window_at_start(head.drop_last()) is None
        }),
{
    let front = head + be_bytes(title.len(), 2) + title + be_bytes(class.len(), 2);
    let data = front + class + after;
    let at = 15 + title.len() as int;
    lemma_byte_range();
    lemma_be_bytes_len(title.len(), 2);
    lemma_be_bytes_len(class.len(), 2);
    lemma_be_value_of_be_bytes(title.len(), 2);
    lemma_be_value_of_be_bytes(class.len(), 2);
    assert(data.subrange(13, 15) =~= be_bytes(title.len(), 2));
    assert(data.subrange(15, at) =~= title);
    assert(data.subrange(at, at + 2) =~= be_bytes(class.len(), 2));
    assert(data.subrange(at + 2, at + 2 + class.len()) =~= class);
    lemma_be_value_4(data.subrange(0, 4));
    lemma_be_value_2(data.subrange(4, 6));
    lemma_be_value_2(data.subrange(6, 8));
    lemma_be_value_2(data.subrange(8, 10));
    lemma_be_value_2(data.subrange(10, 12));
    if class.len() > 0 {
        let short = front + class.drop_last();
        assert(short.subrange(13, 15) =~= be_bytes(title.len(), 2));
        assert(short.subrange(at, at + 2) =~= be_bytes(class.len(), 2));
    }
}

} // verus!
