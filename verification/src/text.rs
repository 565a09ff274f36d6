//! Text as a sequence of characters: splitting, trimming, searching.
//!
//! The contracts speak of `Seq<char>`, the view of `str` and `String`, and of UTF-8 through
//! [`vstd::utf8`].

use vstd::prelude::*;
use vstd::slice::slice_subrange;
use vstd::utf8::*;

verus! {

/// `String::push` appends one character.
pub assume_specification[ String::push ](s: &mut String, c: char)
    ensures
        final(s)@ == old(s)@.push(c),
;

/// Calls `std::str::from_utf8`: a byte slice that is valid UTF-8 is the encoding of the text
/// that comes back, and no other slice gives a text.
#[verifier::external_body]
fn str_from_utf8(bytes: &[u8]) -> (text: Option<&str>)
    ensures
        text is Some <==> valid_utf8(bytes@),
        text matches Some(s) ==> encode_utf8(s@) == bytes@,
{
    std::str::from_utf8(bytes).ok()
}

/// What `String::from_utf8_lossy` makes of `bytes`.
pub uninterp spec fn lossy_utf8(bytes: Seq<u8>) -> Seq<char>;

/// Calls `String::from_utf8_lossy`, which replaces what is not UTF-8 by U+FFFD; bytes that are
/// valid UTF-8 come back as the text that they encode.
#[verifier::external_body]
pub(crate) fn text_from_utf8_lossy(bytes: &[u8]) -> (text: String)
    ensures
        text@ == lossy_utf8(bytes@),
        valid_utf8(bytes@) ==> text@ == decode_utf8(bytes@),
{
    String::from_utf8_lossy(bytes).to_string()
}

/// The text that `bytes` encodes, if they are valid UTF-8.
pub open spec fn utf8_text(bytes: Seq<u8>) -> Option<Seq<char>> {
    if valid_utf8(bytes) {
        Some(decode_utf8(bytes))
    } else {
        None
    }
}

/// Reads `bytes` as UTF-8.
pub fn text_from_utf8(bytes: &[u8]) -> (text: Option<String>)
    ensures
        text matches Some(s) ==> utf8_text(bytes@) == Some(s@),
        text is None ==> utf8_text(bytes@) is None,
{
    match str_from_utf8(bytes) {
        Some(s) => {
            proof {
                encode_utf8_decode_utf8(s@);
            }
            Some(s.to_owned())
        },
        None => None,
    }
}

/// A text is read back from its own encoding.
pub proof fn lemma_utf8_round_trip(text: Seq<char>)
    ensures
        utf8_text(encode_utf8(text)) == Some(text),
{
    encode_utf8_valid_utf8(text);
    encode_utf8_decode_utf8(text);
}

/// Whether two texts are the same.
pub fn same_text(a: &str, b: &str) -> (same: bool)
    ensures
        same == (a@ == b@),
{
    proof {
        encode_utf8_decode_utf8(a@);
        encode_utf8_decode_utf8(b@);
    }
    let x = a.as_bytes();
    let y = b.as_bytes();
    if x.len() != y.len() {
        return false;
    }
    let mut i: usize = 0;
    while i < x.len()
        invariant
            i <= x.len(),
            x@.len() == y@.len(),
            x@ == encode_utf8(a@),
            y@ == encode_utf8(b@),
            forall|j: int| 0 <= j < i ==> x@[j] == y@[j],
        decreases x.len() - i,
    {
        if x[i] != y[i] {
            return false;
        }
        i = i + 1;
    }
    proof {
        assert(x@ =~= y@);
    }
    true
}

/// The characters of `s`.
pub fn chars_of(s: &str) -> (chars: Vec<char>)
    ensures
        chars@ == s@,
{
    let mut chars: Vec<char> = Vec::new();
    for c in it: s.chars()
        invariant
            it.seq() == s@,
            chars@ == s@.take(it.index() as int),
    {
        chars.push(c);
        proof {
            assert(s@.take(it.index() as int + 1) =~= s@.take(it.index() as int).push(c));
        }
    }
    proof {
        assert(s@.take(s@.len() as int) =~= s@);
    }
    chars
}

/// The text that `chars` spells.
pub fn string_of(chars: &[char]) -> (text: String)
    ensures
        text@ == chars@,
{
    let mut text = String::new();
    let mut i: usize = 0;
    while i < chars.len()
        invariant
            i <= chars.len(),
            text@ == chars@.take(i as int),
        decreases chars.len() - i,
    {
        text.push(chars[i]);
        proof {
            assert(chars@.take(i + 1) =~= chars@.take(i as int).push(chars@[i as int]));
        }
        i = i + 1;
    }
    proof {
        assert(chars@.take(chars@.len() as int) =~= chars@);
    }
    text
}

/// The views of a list of strings.
pub open spec fn texts(list: Seq<String>) -> Seq<Seq<char>> {
    list.map_values(|s: String| s@)
}

// ---------------------------------------------------------------------------
// Splitting
// ---------------------------------------------------------------------------

/// Where `c` first stands in `s`; the length of `s` if it does not occur.
pub open spec fn find_char(s: Seq<char>, c: char) -> nat
    decreases s.len(),
{
    if s.len() == 0 || s[0] == c {
        0
    } else {
        1 + find_char(s.drop_first(), c)
    }
}

pub proof fn lemma_find_char(s: Seq<char>, c: char)
    ensures
        find_char(s, c) <= s.len(),
        forall|i: int| 0 <= i < find_char(s, c) ==> s[i] != c,
        find_char(s, c) < s.len() ==> s[find_char(s, c) as int] == c,
    decreases s.len(),
{
    if s.len() > 0 && s[0] != c {
        lemma_find_char(s.drop_first(), c);
        assert forall|i: int| 0 <= i < find_char(s, c) implies s[i] != c by {
            if i > 0 {
                assert(s[i] == s.drop_first()[i - 1]);
            }
        }
    }
}

/// A position that holds `c` with none before it is the one that `find_char` gives.
pub proof fn lemma_find_char_is(s: Seq<char>, c: char, at: int)
    requires
        0 <= at <= s.len(),
        forall|i: int| 0 <= i < at ==> s[i] != c,
        at < s.len() ==> s[at] == c,
    ensures
        find_char(s, c) == at,
{
    lemma_find_char(s, c);
    let f = find_char(s, c) as int;
    if f < at {
        assert(s[f] == c);
    }
    if at < f {
        assert(s[at] != c);
    }
}

/// The pieces of `s` between one occurrence of `sep` and the next. There is always one piece
/// more than there are occurrences.
pub open spec fn split(s: Seq<char>, sep: char) -> Seq<Seq<char>>
    decreases s.len(),
    via split_decreases
{
    let at = find_char(s, sep) as int;
    if at >= s.len() {
        seq![s]
    } else {
        seq![s.take(at)] + split(s.skip(at + 1), sep)
    }
}

#[via_fn]
proof fn split_decreases(s: Seq<char>, sep: char) {
    lemma_find_char(s, sep);
}

/// No piece holds the separator, and a character that `s` lacks is in no piece.
pub proof fn lemma_split_lacks(s: Seq<char>, sep: char, c: char)
    requires
        c == sep || !s.contains(c),
    ensures
        forall|i: int|
            0 <= i < split(s, sep).len() ==> !(#[trigger] split(s, sep)[i]).contains(c),
    decreases s.len(),
{
    lemma_find_char(s, sep);
    let at = find_char(s, sep) as int;
    assert forall|i: int| 0 <= i < split(s, sep).len() implies !(#[trigger] split(
        s,
        sep,
    )[i]).contains(c) by {
        if at < s.len() {
            let rest = s.skip(at + 1);
            if rest.contains(c) {
                let j = rest.index_of(c);
                assert(s[j + at + 1] == c);
            }
            lemma_split_lacks(rest, sep, c);
            if i == 0 {
                assert forall|j: int| 0 <= j < at implies s.take(at)[j] != c by {
                    assert(s[j] == s.take(at)[j]);
                }
            } else {
                assert(split(s, sep)[i] == split(rest, sep)[i - 1]);
            }
        }
    }
}

/// A text is split where the separator first stands.
pub proof fn lemma_split_at(head: Seq<char>, sep: char, tail: Seq<char>)
    requires
        !head.contains(sep),
    ensures
        split(head + seq![sep] + tail, sep) == seq![head] + split(tail, sep),
{
    let s = head + seq![sep] + tail;
    let at = head.len() as int;
    assert forall|i: int| 0 <= i < at implies s[i] != sep by {
        assert(s[i] == head[i]);
    }
    assert(s[at] == sep);
    lemma_find_char_is(s, sep, at);
    assert(s.take(at) =~= head);
    assert(s.skip(at + 1) =~= tail);
}

/// A text without the separator is one piece.
pub proof fn lemma_split_whole(s: Seq<char>, sep: char)
    requires
        !s.contains(sep),
    ensures
        split(s, sep) == seq![s],
{
    lemma_find_char(s, sep);
    let at = find_char(s, sep) as int;
    if at < s.len() {
        assert(s[at] == sep);
    }
}

/// Where `c` first stands in `chars` from position `from` on.
pub fn position_from(chars: &[char], from: usize, c: char) -> (at: usize)
    requires
        from <= chars@.len(),
    ensures
        from <= at <= chars@.len(),
        at == from + find_char(chars@.skip(from as int), c),
{
    let mut at = from;
    while at < chars.len() && chars[at] != c
        invariant
            from <= at <= chars@.len(),
            forall|i: int| from <= i < at ==> chars@[i] != c,
        decreases chars.len() - at,
    {
        at = at + 1;
    }
    proof {
        let rest = chars@.skip(from as int);
        assert forall|i: int| 0 <= i < at - from implies rest[i] != c by {
            assert(rest[i] == chars@[from + i]);
        }
        lemma_find_char_is(rest, c, at - from);
    }
    at
}

/// Splits `text` at every occurrence of `sep`.
pub fn split_text(text: &str, sep: char) -> (pieces: Vec<String>)
    ensures
        texts(pieces@) == split(text@, sep),
{
    let chars = chars_of(text);
    let mut pieces: Vec<String> = Vec::new();
    let mut from: usize = 0;
    proof {
        assert(text@.skip(0) =~= text@);
        assert(texts(pieces@) + split(text@, sep) =~= split(text@, sep));
    }
    loop
        invariant
            from <= chars@.len(),
            chars@ == text@,
            texts(pieces@) + split(text@.skip(from as int), sep) == split(text@, sep),
        decreases chars.len() - from,
    {
        let at = position_from(chars.as_slice(), from, sep);
        let ghost rest = text@.skip(from as int);
        let ghost before = texts(pieces@);
        pieces.push(string_of(slice_subrange(chars.as_slice(), from, at)));
        proof {
            assert(texts(pieces@) =~= before.push(text@.subrange(from as int, at as int)));
            assert(text@.subrange(from as int, at as int) =~= rest.take(at - from));
        }
        if at == chars.len() {
            proof {
                assert(rest.take(at - from) =~= rest);
                assert(texts(pieces@) =~= before + split(rest, sep));
            }
            return pieces;
        }
        proof {
            assert(rest.skip(at - from + 1) =~= text@.skip(at + 1));
            assert(before.push(rest.take(at - from)) + split(text@.skip(at + 1), sep) =~= before
                + split(rest, sep));
        }
        from = at + 1;
    }
}

/// `line` without the carriage return that ends it, if one does.
pub open spec fn strip_cr(line: Seq<char>) -> Seq<char> {
    if line.len() > 0 && line.last() == '\r' {
        line.drop_last()
    } else {
        line
    }
}

/// The lines of `s`. A line ends at a line feed, or at a carriage return and a line feed; the
/// last line need not end in one.
pub open spec fn lines(s: Seq<char>) -> Seq<Seq<char>>
    decreases s.len(),
    via lines_decreases
{
    let at = find_char(s, '\n') as int;
    if s.len() == 0 {
        seq![]
    } else if at >= s.len() {
        seq![s]
    } else {
        seq![strip_cr(s.take(at))] + lines(s.skip(at + 1))
    }
}

#[via_fn]
proof fn lines_decreases(s: Seq<char>) {
    lemma_find_char(s, '\n');
}

/// The lines of `text`.
pub fn lines_of(text: &str) -> (list: Vec<String>)
    ensures
        texts(list@) == lines(text@),
{
    let chars = chars_of(text);
    let mut list: Vec<String> = Vec::new();
    let mut from: usize = 0;
    proof {
        assert(text@.skip(0) =~= text@);
        assert(texts(list@) + lines(text@) =~= lines(text@));
    }
    while from < chars.len()
        invariant
            from <= chars@.len(),
            chars@ == text@,
            texts(list@) + lines(text@.skip(from as int)) == lines(text@),
        decreases chars.len() - from,
    {
        let at = position_from(chars.as_slice(), from, '\n');
        let ghost rest = text@.skip(from as int);
        let ghost before = texts(list@);
        if at == chars.len() {
            list.push(string_of(slice_subrange(chars.as_slice(), from, at)));
            proof {
                assert(text@.subrange(from as int, at as int) =~= rest);
                assert(texts(list@) =~= before.push(rest));
                assert(texts(list@) =~= before + lines(rest));
            }
            return list;
        }
        let end = if at > from && chars[at - 1] == '\r' {
            at - 1
        } else {
            at
        };
        list.push(string_of(slice_subrange(chars.as_slice(), from, end)));
        proof {
            assert(rest.take(at - from) =~= text@.subrange(from as int, at as int));
            assert(text@.subrange(from as int, end as int) =~= strip_cr(rest.take(at - from)));
            assert(texts(list@) =~= before.push(strip_cr(rest.take(at - from))));
            assert(rest.skip(at - from + 1) =~= text@.skip(at + 1));
            assert(texts(list@) + lines(text@.skip(at + 1)) =~= before + lines(rest));
        }
        from = at + 1;
    }
    proof {
        assert(text@.skip(from as int) =~= Seq::<char>::empty());
        assert(texts(list@) + lines(text@.skip(from as int)) =~= texts(list@));
    }
    list
}

// ---------------------------------------------------------------------------
// White space
// ---------------------------------------------------------------------------

/// The characters with the Unicode property `White_Space`.
pub open spec fn is_white_space(c: char) -> bool {
    ||| '\u{9}' <= c <= '\u{d}'
    ||| c == '\u{20}'
    ||| c == '\u{85}'
    ||| c == '\u{a0}'
    ||| c == '\u{1680}'
    ||| '\u{2000}' <= c <= '\u{200a}'
    ||| c == '\u{2028}'
    ||| c == '\u{2029}'
    ||| c == '\u{202f}'
    ||| c == '\u{205f}'
    ||| c == '\u{3000}'
}

/// `s` without the white space that it starts with.
pub open spec fn trim_start(s: Seq<char>) -> Seq<char>
    decreases s.len(),
{
    if s.len() > 0 && is_white_space(s[0]) {
        trim_start(s.drop_first())
    } else {
        s
    }
}

/// `s` without the white space that it ends with.
pub open spec fn trim_end(s: Seq<char>) -> Seq<char>
    decreases s.len(),
{
    if s.len() > 0 && is_white_space(s.last()) {
        trim_end(s.drop_last())
    } else {
        s
    }
}

/// `s` without the white space around it.
pub open spec fn trim(s: Seq<char>) -> Seq<char> {
    trim_end(trim_start(s))
}

/// How many characters of `s` come before its first white space.
pub open spec fn word_len(s: Seq<char>) -> nat
    decreases s.len(),
{
    if s.len() > 0 && !is_white_space(s[0]) {
        1 + word_len(s.drop_first())
    } else {
        0
    }
}

/// The first word of `s`: words are what stands between white space.
pub open spec fn first_word(s: Seq<char>) -> Option<Seq<char>> {
    let t = trim_start(s);
    if t.len() == 0 {
        None
    } else {
        Some(t.take(word_len(t) as int))
    }
}

fn is_white(c: char) -> (white: bool)
    ensures
        white == is_white_space(c),
{
    ('\u{9}' <= c && c <= '\u{d}') || c == '\u{20}' || c == '\u{85}' || c == '\u{a0}' || c
        == '\u{1680}' || ('\u{2000}' <= c && c <= '\u{200a}') || c == '\u{2028}' || c == '\u{2029}'
        || c == '\u{202f}' || c == '\u{205f}' || c == '\u{3000}'
}

fn trim_start_chars<'a>(chars: &'a [char]) -> (rest: &'a [char])
    ensures
        rest@ == trim_start(chars@),
{
    let mut from: usize = 0;
    proof {
        assert(chars@.skip(0) =~= chars@);
    }
    while from < chars.len() && is_white(chars[from])
        invariant
            from <= chars@.len(),
            trim_start(chars@.skip(from as int)) == trim_start(chars@),
        decreases chars.len() - from,
    {
        proof {
            assert(chars@.skip(from as int).drop_first() =~= chars@.skip(from + 1));
        }
        from = from + 1;
    }
    proof {
        assert(chars@.subrange(from as int, chars@.len() as int) =~= chars@.skip(from as int));
    }
    slice_subrange(chars, from, chars.len())
}

fn trim_end_chars<'a>(chars: &'a [char]) -> (rest: &'a [char])
    ensures
        rest@ == trim_end(chars@),
{
    let mut to: usize = chars.len();
    proof {
        assert(chars@.take(to as int) =~= chars@);
    }
    while to > 0 && is_white(chars[to - 1])
        invariant
            to <= chars@.len(),
            trim_end(chars@.take(to as int)) == trim_end(chars@),
        decreases to,
    {
        proof {
            assert(chars@.take(to as int).drop_last() =~= chars@.take(to - 1));
        }
        to = to - 1;
    }
    proof {
        assert(chars@.subrange(0, to as int) =~= chars@.take(to as int));
    }
    slice_subrange(chars, 0, to)
}

/// `chars` without the white space around them.
pub fn trim_chars<'a>(chars: &'a [char]) -> (rest: &'a [char])
    ensures
        rest@ == trim(chars@),
{
    trim_end_chars(trim_start_chars(chars))
}

/// The first word of `chars`.
pub fn first_word_of<'a>(chars: &'a [char]) -> (word: Option<&'a [char]>)
    ensures
        word matches Some(w) ==> first_word(chars@) == Some(w@),
        word is None ==> first_word(chars@) is None,
{
    let rest = trim_start_chars(chars);
    if rest.len() == 0 {
        return None;
    }
    let mut n: usize = 0;
    proof {
        assert(rest@.skip(0) =~= rest@);
    }
    while n < rest.len() && !is_white(rest[n])
        invariant
            n <= rest@.len(),
            n + word_len(rest@.skip(n as int)) == word_len(rest@),
        decreases rest.len() - n,
    {
        proof {
            assert(rest@.skip(n as int).drop_first() =~= rest@.skip(n + 1));
        }
        n = n + 1;
    }
    proof {
        assert(rest@.subrange(0, n as int) =~= rest@.take(n as int));
    }
    Some(slice_subrange(rest, 0, n))
}

// ---------------------------------------------------------------------------
// Looking for a text in a text
// ---------------------------------------------------------------------------

/// Whether `pattern` stands in `s` at `at`.
pub open spec fn stands_at(s: Seq<char>, pattern: Seq<char>, at: int) -> bool {
    &&& 0 <= at
    &&& at + pattern.len() <= s.len()
    &&& s.subrange(at, at + pattern.len()) == pattern
}

/// Whether `s` starts with `prefix`.
pub open spec fn starts_with(s: Seq<char>, prefix: Seq<char>) -> bool {
    stands_at(s, prefix, 0)
}

/// Whether `pattern` occurs in `s`.
pub open spec fn contains_text(s: Seq<char>, pattern: Seq<char>) -> bool {
    exists|at: int| stands_at(s, pattern, at)
}

/// Whether `pattern` stands in `chars` at `at`.
pub fn stands_at_chars(chars: &[char], pattern: &[char], at: usize) -> (stands: bool)
    requires
        at <= chars@.len(),
    ensures
        stands == stands_at(chars@, pattern@, at as int),
{
    if chars.len() - at < pattern.len() {
        return false;
    }
    let mut i: usize = 0;
    while i < pattern.len()
        invariant
            i <= pattern@.len(),
            at + pattern.len() <= chars.len(),
            forall|j: int| 0 <= j < i ==> chars@[at + j] == pattern@[j],
        decreases pattern.len() - i,
    {
        if chars[at + i] != pattern[i] {
            proof {
                assert(chars@.subrange(at as int, at + pattern@.len())[i as int] != pattern@[i as int]);
            }
            return false;
        }
        i = i + 1;
    }
    proof {
        assert(chars@.subrange(at as int, at + pattern@.len()) =~= pattern@);
    }
    true
}

/// Whether `pattern` occurs in `chars`.
pub fn contains_chars(chars: &[char], pattern: &[char]) -> (found: bool)
    ensures
        found == contains_text(chars@, pattern@),
{
    let mut at: usize = 0;
    loop
        invariant
            at <= chars@.len(),
            forall|i: int| 0 <= i < at ==> !stands_at(chars@, pattern@, i),
        decreases chars.len() - at,
    {
        if stands_at_chars(chars, pattern, at) {
            return true;
        }
        if at == chars.len() {
            return false;
        }
        at = at + 1;
    }
}

/// `s` without the occurrences of `c` that it starts with.
pub open spec fn trim_start_char(s: Seq<char>, c: char) -> Seq<char>
    decreases s.len(),
{
    if s.len() > 0 && s[0] == c {
        trim_start_char(s.drop_first(), c)
    } else {
        s
    }
}

/// `text` without the occurrences of `c` that it starts with.
pub fn trim_start_char_of(text: &str, c: char) -> (rest: String)
    ensures
        rest@ == trim_start_char(text@, c),
{
    let chars = chars_of(text);
    let mut from: usize = 0;
    proof {
        assert(chars@.skip(0) =~= chars@);
    }
    while from < chars.len() && chars[from] == c
        invariant
            from <= chars@.len(),
            trim_start_char(chars@.skip(from as int), c) == trim_start_char(chars@, c),
        decreases chars.len() - from,
    {
        proof {
            assert(chars@.skip(from as int).drop_first() =~= chars@.skip(from + 1));
        }
        from = from + 1;
    }
    proof {
        assert(chars@.subrange(from as int, chars@.len() as int) =~= chars@.skip(from as int));
    }
    string_of(slice_subrange(chars.as_slice(), from, chars.len()))
}

/// `s` with every occurrence of `c` replaced by `by`.
pub open spec fn replace_char(s: Seq<char>, c: char, by: Seq<char>) -> Seq<char>
    decreases s.len(),
{
    if s.len() == 0 {
        seq![]
    } else {
        (if s[0] == c {
            by
        } else {
            seq![s[0]]
        }) + replace_char(s.drop_first(), c, by)
    }
}

/// `text` with every occurrence of `c` replaced by `by`.
pub fn replace_char_in(text: &str, c: char, by: &str) -> (replaced: String)
    ensures
        replaced@ == replace_char(text@, c, by@),
{
    let chars = chars_of(text);
    let mut replaced = String::new();
    let mut i: usize = 0;
    proof {
        assert(chars@.skip(0) =~= chars@);
        assert(replaced@ + replace_char(chars@, c, by@) =~= replace_char(chars@, c, by@));
    }
    while i < chars.len()
        invariant
            i <= chars@.len(),
            replaced@ + replace_char(chars@.skip(i as int), c, by@) == replace_char(
                chars@,
                c,
                by@,
            ),
        decreases chars.len() - i,
    {
        let ghost before = replaced@;
        let ghost rest = chars@.skip(i as int);
        if chars[i] == c {
            replaced.append(by);
        } else {
            replaced.push(chars[i]);
        }
        proof {
            assert(rest.drop_first() =~= chars@.skip(i + 1));
            assert(replaced@ + replace_char(chars@.skip(i + 1), c, by@) =~= before + replace_char(
                rest,
                c,
                by@,
            ));
        }
        i = i + 1;
    }
    proof {
        assert(chars@.skip(i as int) =~= Seq::<char>::empty());
        assert(replaced@ + replace_char(chars@.skip(i as int), c, by@) =~= replaced@);
    }
    replaced
}

// ---------------------------------------------------------------------------
// Laws
// ---------------------------------------------------------------------------

/// Pieces put together, with a separator between one and the next.
pub open spec fn joined(pieces: Seq<Seq<char>>, sep: char) -> Seq<char>
    decreases pieces.len(),
{
    if pieces.len() == 0 {
        seq![]
    } else if pieces.len() == 1 {
        pieces[0]
    } else {
        pieces[0] + seq![sep] + joined(pieces.drop_first(), sep)
    }
}

/// The pieces of a text, put together with the separator, are the text, and no piece holds the
/// separator.
pub proof fn law_split_loses_nothing(s: Seq<char>, sep: char)
    ensures
        split(s, sep).len() >= 1,
        joined(split(s, sep), sep) == s,
        forall|i: int|
            0 <= i < split(s, sep).len() ==> !(#[trigger] split(s, sep)[i]).contains(sep),
    decreases s.len(),
{
    lemma_find_char(s, sep);
    lemma_split_lacks(s, sep, sep);
    let at = find_char(s, sep) as int;
    if at < s.len() {
        let rest = s.skip(at + 1);
        law_split_loses_nothing(rest, sep);
        assert(split(s, sep).drop_first() =~= split(rest, sep));
        assert(s.take(at) + seq![sep] + rest =~= s);
    }
}

/// The first line of a text ends before the first line feed, and before a carriage return that
/// comes just before it; the last line need not end in either, and keeps a carriage return that
/// no line feed follows. A text that is empty has no lines.
pub proof fn law_lines_taken(line: Seq<char>, rest: Seq<char>)
    requires
        !line.contains('\n'),
        line.len() > 0 ==> line.last() != '\r',
    ensures
        lines(line + seq!['\n'] + rest) == seq![line] + lines(rest),
        lines(line + seq!['\r', '\n'] + rest) == seq![line] + lines(rest),
        lines(line + seq!['\r']) == seq![line + seq!['\r']],
        line.len() > 0 ==> lines(line) == seq![line],
        lines(seq![]) == Seq::<Seq<char>>::empty(),
{
    let n = line.len() as int;
    let plain = line + seq!['\n'] + rest;
    assert forall|i: int| 0 <= i < n implies plain[i] != '\n' by {
        assert(plain[i] == line[i]);
    }
    lemma_find_char_is(plain, '\n', n);
    assert(plain.take(n) =~= line);
    assert(plain.skip(n + 1) =~= rest);
    let with_return = line + seq!['\r', '\n'] + rest;
    assert forall|i: int| 0 <= i < n + 1 implies with_return[i] != '\n' by {
        if i < n {
            assert(with_return[i] == line[i]);
        }
    }
    lemma_find_char_is(with_return, '\n', n + 1);
    assert(with_return.take(n + 1) =~= line.push('\r'));
    assert(line.push('\r').drop_last() =~= line);
    assert(with_return.skip(n + 2) =~= rest);
    let open_end = line + seq!['\r'];
    assert forall|i: int| 0 <= i < n + 1 implies open_end[i] != '\n' by {
        if i < n {
            assert(open_end[i] == line[i]);
        }
    }
    lemma_find_char_is(open_end, '\n', n + 1);
    assert forall|i: int| 0 <= i < n implies line[i] != '\n' by {
    }
    lemma_find_char_is(line, '\n', n);
}

/// Among the characters of ASCII, white space is the tab and the four characters after it, and the
/// space; beyond ASCII it is the characters with these codes.
pub proof fn law_white_space(c: char)
    ensures
        (c as u32) < 128 ==> (is_white_space(c) <==> 9 <= c as u32 <= 13 || c as u32 == 32),
        c as u32 >= 128 ==> (is_white_space(c) <==> c as u32 == 0x85 || c as u32 == 0xa0 || c as u32
            == 0x1680 || 0x2000 <= c as u32 <= 0x200a || c as u32 == 0x2028 || c as u32 == 0x2029
            || c as u32 == 0x202f || c as u32 == 0x205f || c as u32 == 0x3000),
{
}

/// White space in front of a text is trimmed away.
proof fn lemma_trimmed_start(white: Seq<char>, body: Seq<char>)
    requires
        forall|i: int| 0 <= i < white.len() ==> is_white_space(white[i]),
        body.len() == 0 || !is_white_space(body[0]),
    ensures
        trim_start(white + body) == body,
    decreases white.len(),
{
    if white.len() > 0 {
        assert((white + body)[0] == white[0]);
        assert((white + body).drop_first() =~= white.drop_first() + body);
        lemma_trimmed_start(white.drop_first(), body);
    } else {
        assert(white + body =~= body);
    }
}

/// White space behind a text is trimmed away.
proof fn lemma_trimmed_end(body: Seq<char>, white: Seq<char>)
    requires
        forall|i: int| 0 <= i < white.len() ==> is_white_space(white[i]),
        body.len() == 0 || !is_white_space(body.last()),
    ensures
        trim_end(body + white) == body,
    decreases white.len(),
{
    if white.len() > 0 {
        assert((body + white).last() == white.last());
        assert((body + white).drop_last() =~= body + white.drop_last());
        lemma_trimmed_end(body, white.drop_last());
    } else {
        assert(body + white =~= body);
    }
}

/// Trimming takes away the white space on either side of a text and nothing of the text, white
/// space within it included.
pub proof fn law_trimmed(before: Seq<char>, body: Seq<char>, after: Seq<char>)
    requires
        forall|i: int| 0 <= i < before.len() ==> is_white_space(before[i]),
        forall|i: int| 0 <= i < after.len() ==> is_white_space(after[i]),
        body.len() > 0 ==> !is_white_space(body[0]) && !is_white_space(body.last()),
    ensures
        trim(before + body + after) == body,
{
    if body.len() > 0 {
        assert((body + after)[0] == body[0]);
        lemma_trimmed_start(before, body + after);
        assert(before + (body + after) =~= before + body + after);
        lemma_trimmed_end(body, after);
    } else {
        let white = before + body + after;
        assert forall|i: int| 0 <= i < white.len() implies is_white_space(white[i]) by {
            if i < before.len() {
                assert(white[i] == before[i]);
            } else {
                assert(white[i] == after[i - before.len()]);
            }
        }
        lemma_trimmed_start(white, body);
        assert(white + body =~= white);
    }
}

/// The first word of a text is what stands up to the next white space, behind any white space in
/// front; a text of white space has none.
pub proof fn law_first_word(before: Seq<char>, word: Seq<char>, after: Seq<char>)
    requires
        forall|i: int| 0 <= i < before.len() ==> is_white_space(before[i]),
        forall|i: int| 0 <= i < word.len() ==> !is_white_space(word[i]),
        after.len() == 0 || is_white_space(after[0]),
    ensures
        word.len() > 0 ==> first_word(before + word + after) == Some(word),
        first_word(before) is None,
{
    lemma_trimmed_start(before, seq![]);
    assert(before + Seq::<char>::empty() =~= before);
    if word.len() > 0 {
        assert((word + after)[0] == word[0]);
        lemma_trimmed_start(before, word + after);
        assert(before + (word + after) =~= before + word + after);
        lemma_word_ends(word, after);
        assert((word + after).take(word.len() as int) =~= word);
    }
}

/// A word ends where white space begins.
proof fn lemma_word_ends(word: Seq<char>, after: Seq<char>)
    requires
        forall|i: int| 0 <= i < word.len() ==> !is_white_space(word[i]),
        after.len() == 0 || is_white_space(after[0]),
    ensures
        word_len(word + after) == word.len(),
    decreases word.len(),
{
    if word.len() > 0 {
        assert((word + after).drop_first() =~= word.drop_first() + after);
        assert((word + after)[0] == word[0]);
        lemma_word_ends(word.drop_first(), after);
    } else {
        assert(word + after =~= after);
    }
}

/// A text occurs in another exactly if the other is that text with something, or nothing, before
/// and after it.
pub proof fn law_occurs(s: Seq<char>, pattern: Seq<char>, before: Seq<char>, after: Seq<char>)
    ensures
        contains_text(before + pattern + after, pattern),
        contains_text(s, pattern) ==> exists|at: int|
            0 <= at && at + pattern.len() <= s.len() && #[trigger] s.take(at) + pattern + s.skip(
                at + pattern.len(),
            ) == s,
        starts_with(pattern + after, pattern),
        starts_with(s, pattern) ==> pattern + s.skip(pattern.len() as int) == s,
{
    let whole = before + pattern + after;
    let there = before.len() as int;
    assert(whole.subrange(there, there + pattern.len()) =~= pattern);
    assert(stands_at(whole, pattern, there));
    if contains_text(s, pattern) {
        let at = choose|at: int| stands_at(s, pattern, at);
        let part = s.subrange(at, at + pattern.len());
        assert(s.take(at) + part + s.skip(at + pattern.len()) =~= s);
    }
    assert((pattern + after).subrange(0, pattern.len() as int) =~= pattern);
    if starts_with(s, pattern) {
        let part = s.subrange(0, pattern.len() as int);
        assert(part + s.skip(pattern.len() as int) =~= s);
    }
}

/// Of a character that a text starts with, every occurrence in front is taken away, and nothing
/// else.
pub proof fn law_leading_char_trimmed(count: nat, c: char, rest: Seq<char>)
    requires
        rest.len() > 0 ==> rest[0] != c,
    ensures
        trim_start_char(Seq::new(count, |i: int| c) + rest, c) == rest,
    decreases count,
{
    let s = Seq::new(count, |i: int| c) + rest;
    if count > 0 {
        let fewer = (count - 1) as nat;
        assert(s.drop_first() =~= Seq::new(fewer, |i: int| c) + rest);
        law_leading_char_trimmed(fewer, c, rest);
    } else {
        assert(s =~= rest);
    }
}

/// A character is replaced wherever it stands, and every other character is kept in its place:
/// what is made of a text is what is made of its parts.
pub proof fn law_replaced(a: Seq<char>, b: Seq<char>, c: char, other: char, by: Seq<char>)
    requires
        other != c,
    ensures
        replace_char(a + b, c, by) == replace_char(a, c, by) + replace_char(b, c, by),
        replace_char(seq![c], c, by) == by,
        replace_char(seq![other], c, by) == seq![other],
        replace_char(seq![], c, by) == Seq::<char>::empty(),
    decreases a.len(),
{
    reveal_with_fuel(replace_char, 2);
    assert(seq![c].drop_first() =~= seq![]);
    assert(seq![other].drop_first() =~= seq![]);
    assert(by + Seq::<char>::empty() =~= by);
    assert(seq![other] + Seq::<char>::empty() =~= seq![other]);
    if a.len() == 0 {
        assert(a + b =~= b);
        assert(replace_char(a, c, by) + replace_char(b, c, by) =~= replace_char(b, c, by));
    } else {
        assert((a + b).drop_first() =~= a.drop_first() + b);
        law_replaced(a.drop_first(), b, c, other, by);
        assert(replace_char(a + b, c, by) =~= replace_char(a, c, by) + replace_char(b, c, by));
    }
}

/// Bytes read as a text exactly if they are its encoding.
pub proof fn law_utf8_text(bytes: Seq<u8>, text: Seq<char>)
    ensures
        utf8_text(bytes) == Some(text) <==> bytes == encode_utf8(text),
{
    lemma_utf8_round_trip(text);
    if utf8_text(bytes) == Some(text) {
        decode_utf8_encode_utf8(bytes);
    }
}

/// Two texts with a separator between them are split as each is split by itself.
pub proof fn law_split_joins(a: Seq<char>, sep: char, b: Seq<char>)
    ensures
        split(a + seq![sep] + b, sep) == split(a, sep) + split(b, sep),
    decreases a.len(),
{
    lemma_find_char(a, sep);
    let at = find_char(a, sep) as int;
    if at >= a.len() {
        assert(!a.contains(sep)) by {
            assert forall|i: int| 0 <= i < a.len() implies a[i] != sep by {
            }
        }
        lemma_split_at(a, sep, b);
    } else {
        let head = a.take(at);
        let rest = a.skip(at + 1);
        assert(!head.contains(sep)) by {
            assert forall|i: int| 0 <= i < head.len() implies head[i] != sep by {
                assert(head[i] == a[i]);
            }
        }
        assert(a =~= head + seq![sep] + rest);
        lemma_split_at(head, sep, rest);
        law_split_joins(rest, sep, b);
        lemma_split_at(head, sep, rest + seq![sep] + b);
        assert(a + seq![sep] + b =~= head + seq![sep] + (rest + seq![sep] + b));
        assert(seq![head] + (split(rest, sep) + split(b, sep)) =~= (seq![head] + split(rest, sep))
            + split(b, sep));
    }
}

} // verus!
