//! The payload of a token: a JSON object whose members are the claims.
//!
//! `serde_json` says where a value ends and what a text or a number is. What stands between the
//! values of the one object is read here, so that a name that is given twice is seen twice.

use vstd::prelude::*;
use vstd::slice::slice_subrange;

verus! {

// ---------------------------------------------------------------------------
// JSON values
// ---------------------------------------------------------------------------

/// How many bytes `serde_json` takes for the value at the start of `bytes`.
pub uninterp spec fn json_length(bytes: Seq<u8>) -> Option<nat>;

/// Calls `serde_json::Deserializer::into_iter` for a value that is passed over, and then `next`
/// and `byte_offset`: how far the first value reaches, white space before it included. There is
/// none if what is there is not JSON. A value is not empty and ends within the bytes.
#[verifier::external_body]
fn value_length(bytes: &[u8]) -> (length: Option<usize>)
    ensures
        length matches Some(n) ==> json_length(bytes@) == Some(n as nat) && 0 < n <= bytes@.len(),
        length is None ==> json_length(bytes@) is None,
{
    let mut values =
        serde_json::Deserializer::from_slice(bytes).into_iter::<serde::de::IgnoredAny>();
    match values.next() {
        Some(Ok(_)) => Some(values.byte_offset()),
        _ => None,
    }
}

/// The text that `serde_json::from_slice` reads from bytes that are a JSON string.
pub uninterp spec fn json_text(bytes: Seq<u8>) -> Option<Seq<char>>;

/// Calls `serde_json::from_slice` for a `String`.
#[verifier::external_body]
fn text_value(bytes: &[u8]) -> (text: Option<String>)
    ensures
        match text {
            Some(t) => json_text(bytes@) == Some(t@),
            None => json_text(bytes@) is None,
        },
{
    serde_json::from_slice(bytes).ok()
}

/// The number that `serde_json::from_slice` reads from bytes that are a JSON number without sign
/// or fraction that fits 64 bits.
pub uninterp spec fn json_number(bytes: Seq<u8>) -> Option<u64>;

/// Calls `serde_json::from_slice` for a `u64`.
#[verifier::external_body]
fn number_value(bytes: &[u8]) -> (number: Option<u64>)
    ensures
        number == json_number(bytes@),
{
    serde_json::from_slice(bytes).ok()
}

// ---------------------------------------------------------------------------
// Claims
// ---------------------------------------------------------------------------

/// The value of one claim of a token, as far as this crate reads it: a text, a number without
/// sign or fraction that fits 64 bits, or anything else.
#[derive(Debug)]
pub enum ClaimValue {
    Text(String),
    Number(u64),
    Other,
}

/// What a [`ClaimValue`] says.
pub ghost enum ClaimView {
    Text(Seq<char>),
    Number(u64),
    Other,
}

impl View for ClaimValue {
    type V = ClaimView;

    open spec fn view(&self) -> ClaimView {
        match *self {
            ClaimValue::Text(text) => ClaimView::Text(text@),
            ClaimValue::Number(n) => ClaimView::Number(n),
            ClaimValue::Other => ClaimView::Other,
        }
    }
}

/// What a list of named claims says.
pub open spec fn claims_view(claims: Seq<(String, ClaimValue)>) -> Seq<(Seq<char>, ClaimView)> {
    claims.map_values(|c: (String, ClaimValue)| (c.0@, c.1@))
}

/// What the bytes of a value say.
pub open spec fn claim_at(bytes: Seq<u8>) -> ClaimView {
    match json_text(bytes) {
        Some(text) => ClaimView::Text(text),
        None => match json_number(bytes) {
            Some(n) => ClaimView::Number(n),
            None => ClaimView::Other,
        },
    }
}

/// Reads a value.
fn read_claim(bytes: &[u8]) -> (claim: ClaimValue)
    ensures
        claim@ == claim_at(bytes@),
{
    match text_value(bytes) {
        Some(text) => ClaimValue::Text(text),
        None => match number_value(bytes) {
            Some(n) => ClaimValue::Number(n),
            None => ClaimValue::Other,
        },
    }
}

// ---------------------------------------------------------------------------
// Members
// ---------------------------------------------------------------------------

/// The bytes that JSON takes for white space.
pub open spec fn is_blank(b: u8) -> bool {
    b == 0x20 || b == 0x09 || b == 0x0a || b == 0x0d
}

/// `bytes` without the white space that they start with.
pub open spec fn skip_blanks(bytes: Seq<u8>) -> Seq<u8>
    decreases bytes.len(),
{
    if bytes.len() > 0 && is_blank(bytes[0]) {
        skip_blanks(bytes.drop_first())
    } else {
        bytes
    }
}

/// What follows the mark `mark` and the white space around it; `None` if something else is there.
pub open spec fn after_mark(bytes: Seq<u8>, mark: u8) -> Option<Seq<u8>> {
    let rest = skip_blanks(bytes);
    if rest.len() > 0 && rest[0] == mark {
        Some(skip_blanks(rest.skip(1)))
    } else {
        None
    }
}

/// The member at the start of `bytes`, a name, a colon and a value, and what follows it.
pub open spec fn member_at(bytes: Seq<u8>) -> Option<((Seq<char>, ClaimView), Seq<u8>)> {
    match json_length(bytes) {
        Some(n) => match (json_text(bytes.take(n as int)), after_mark(bytes.skip(n as int), 0x3a)) {
            (Some(name), Some(value)) => match json_length(value) {
                Some(m) => Some(
                    ((name, claim_at(value.take(m as int))), value.skip(m as int)),
                ),
                None => None,
            },
            _ => None,
        },
        None => None,
    }
}

/// The members from the start of `bytes` on to the brace that ends the object, which ends the
/// bytes.
pub open spec fn members_at(bytes: Seq<u8>) -> Option<Seq<(Seq<char>, ClaimView)>>
    decreases bytes.len(),
{
    match member_at(bytes) {
        Some((member, after)) => match after_mark(after, 0x2c) {
            Some(rest) => if rest.len() < bytes.len() {
                match members_at(rest) {
                    Some(members) => Some(seq![member] + members),
                    None => None,
                }
            } else {
                None
            },
            None => if after_mark(after, 0x7d) == Some(Seq::<u8>::empty()) {
                Some(seq![member])
            } else {
                None
            },
        },
        None => None,
    }
}

/// The members of the object that `payload` is, in their order, each as often as it is given.
pub open spec fn payload_claims(payload: Seq<u8>) -> Option<Seq<(Seq<char>, ClaimView)>> {
    match after_mark(payload, 0x7b) {
        Some(inside) => if after_mark(inside, 0x7d) == Some(Seq::<u8>::empty()) {
            Some(seq![])
        } else {
            members_at(inside)
        },
        None => None,
    }
}

/// Where the white space ends that `bytes` have from `from` on.
fn blanks_end(bytes: &[u8], from: usize) -> (at: usize)
    requires
        from <= bytes@.len(),
    ensures
        from <= at <= bytes@.len(),
        bytes@.skip(at as int) == skip_blanks(bytes@.skip(from as int)),
{
    let mut at = from;
    while at < bytes.len() && (bytes[at] == 0x20 || bytes[at] == 0x09 || bytes[at] == 0x0a
        || bytes[at] == 0x0d)
        invariant
            from <= at <= bytes@.len(),
            skip_blanks(bytes@.skip(from as int)) == skip_blanks(bytes@.skip(at as int)),
        decreases bytes.len() - at,
    {
        proof {
            assert(bytes@.skip(at as int).drop_first() =~= bytes@.skip(at + 1));
        }
        at = at + 1;
    }
    at
}

/// Where that begins that follows the mark `mark` and the white space around it.
fn mark_end(bytes: &[u8], from: usize, mark: u8) -> (at: Option<usize>)
    requires
        from <= bytes@.len(),
    ensures
        match at {
            Some(i) => from < i <= bytes@.len() && after_mark(bytes@.skip(from as int), mark)
                == Some(bytes@.skip(i as int)),
            None => after_mark(bytes@.skip(from as int), mark) is None,
        },
{
    let start = blanks_end(bytes, from);
    if start < bytes.len() && bytes[start] == mark {
        proof {
            assert(bytes@.skip(start as int).skip(1) =~= bytes@.skip(start + 1));
        }
        Some(blanks_end(bytes, start + 1))
    } else {
        None
    }
}

/// How far the value reaches that stands at `from`.
fn value_end(bytes: &[u8], from: usize) -> (end: Option<usize>)
    requires
        from <= bytes@.len(),
    ensures
        match end {
            Some(i) => from < i <= bytes@.len() && json_length(bytes@.skip(from as int)) == Some(
                (i - from) as nat,
            ),
            None => json_length(bytes@.skip(from as int)) is None,
        },
{
    let rest = slice_subrange(bytes, from, bytes.len());
    proof {
        assert(rest@ =~= bytes@.skip(from as int));
    }
    match value_length(rest) {
        Some(n) => Some(from + n),
        None => None,
    }
}

/// Reads the member that stands at `from`; gives it and where it ends.
fn read_member(bytes: &[u8], from: usize) -> (member: Option<((String, ClaimValue), usize)>)
    requires
        from <= bytes@.len(),
    ensures
        match member {
            Some((claim, end)) => from < end <= bytes@.len() && member_at(bytes@.skip(from as int))
                == Some(((claim.0@, claim.1@), bytes@.skip(end as int))),
            None => member_at(bytes@.skip(from as int)) is None,
        },
{
    let name_end = match value_end(bytes, from) {
        Some(i) => i,
        None => return None,
    };
    proof {
        let start = bytes@.skip(from as int);
        assert(start.take(name_end - from) =~= bytes@.subrange(from as int, name_end as int));
        assert(start.skip(name_end - from) =~= bytes@.skip(name_end as int));
    }
    let name = match text_value(slice_subrange(bytes, from, name_end)) {
        Some(name) => name,
        None => return None,
    };
    let value = match mark_end(bytes, name_end, 0x3a) {
        Some(i) => i,
        None => return None,
    };
    match value_end(bytes, value) {
        Some(end) => {
            proof {
                let start = bytes@.skip(value as int);
                assert(start.take(end - value) =~= bytes@.subrange(value as int, end as int));
                assert(start.skip(end - value) =~= bytes@.skip(end as int));
            }
            Some(((name, read_claim(slice_subrange(bytes, value, end))), end))
        },
        None => None,
    }
}

/// Some members in front of others, if there are others.
spec fn in_front(
    first: Seq<(Seq<char>, ClaimView)>,
    rest: Option<Seq<(Seq<char>, ClaimView)>>,
) -> Option<Seq<(Seq<char>, ClaimView)>> {
    match rest {
        Some(members) => Some(first + members),
        None => None,
    }
}

/// Whether the object ends at `from`, and the bytes with it.
fn ends_at(bytes: &[u8], from: usize) -> (ends: bool)
    requires
        from <= bytes@.len(),
    ensures
        ends == (after_mark(bytes@.skip(from as int), 0x7d) == Some(Seq::<u8>::empty())),
{
    match mark_end(bytes, from, 0x7d) {
        Some(i) => {
            proof {
                if i == bytes@.len() {
                    assert(bytes@.skip(i as int) =~= Seq::<u8>::empty());
                } else {
                    assert(bytes@.skip(i as int).len() > 0);
                }
            }
            i == bytes.len()
        },
        None => false,
    }
}

/// Reads the claims in the payload of a token, in their order, each as often as it is given;
/// `None` if the payload is not a JSON object.
pub fn read_payload(payload: &[u8]) -> (claims: Option<Vec<(String, ClaimValue)>>)
    ensures
        match claims {
            Some(list) => payload_claims(payload@) == Some(claims_view(list@)),
            None => payload_claims(payload@) is None,
        },
{
    proof {
        assert(payload@.skip(0) =~= payload@);
    }
    let inside = match mark_end(payload, 0, 0x7b) {
        Some(i) => i,
        None => return None,
    };
    let mut list: Vec<(String, ClaimValue)> = Vec::new();
    proof {
        assert(claims_view(list@) =~= seq![]);
    }
    if ends_at(payload, inside) {
        return Some(list);
    }
    let mut from: usize = inside;
    proof {
        let all = members_at(payload@.skip(inside as int));
        if let Some(members) = all {
            assert(claims_view(list@) + members =~= members);
        }
    }
    loop
        invariant
            inside <= from <= payload@.len(),
            payload_claims(payload@) == members_at(payload@.skip(inside as int)),
            in_front(claims_view(list@), members_at(payload@.skip(from as int))) == members_at(
                payload@.skip(inside as int),
            ),
        decreases payload.len() - from,
    {
        let ghost before = claims_view(list@);
        let (claim, end) = match read_member(payload, from) {
            Some(member) => member,
            None => return None,
        };
        let ghost member = (claim.0@, claim.1@);
        list.push(claim);
        proof {
            assert(claims_view(list@) =~= before.push(member));
        }
        match mark_end(payload, end, 0x2c) {
            Some(next) => {
                proof {
                    if let Some(members) = members_at(payload@.skip(next as int)) {
                        assert(before + (seq![member] + members) =~= before.push(member) + members);
                    }
                }
                from = next;
            },
            None => {
                if ends_at(payload, end) {
                    proof {
                        assert(before + seq![member] =~= before.push(member));
                    }
                    return Some(list);
                }
                return None;
            },
        }
    }
}

// ---------------------------------------------------------------------------
// Laws
// ---------------------------------------------------------------------------

/// Whether bytes are white space, all of them.
pub open spec fn all_blank(bytes: Seq<u8>) -> bool {
    forall|i: int|
        0 <= i < bytes.len() ==> (#[trigger] bytes[i] == 32 || bytes[i] == 9 || bytes[i] == 10
            || bytes[i] == 13)
}

/// White space is passed over, and nothing else.
proof fn lemma_blanks_skipped(blanks: Seq<u8>, rest: Seq<u8>)
    requires
        all_blank(blanks),
        rest.len() > 0 ==> !is_blank(rest[0]),
    ensures
        skip_blanks(blanks + rest) == rest,
    decreases blanks.len(),
{
    if blanks.len() > 0 {
        let fewer = blanks.drop_first();
        assert((blanks + rest)[0] == blanks[0]);
        assert((blanks + rest).drop_first() =~= fewer + rest);
        assert forall|i: int| 0 <= i < fewer.len() implies (#[trigger] fewer[i] == 32 || fewer[i]
            == 9 || fewer[i] == 10 || fewer[i] == 13) by {
            assert(fewer[i] == blanks[i + 1]);
        }
        lemma_blanks_skipped(fewer, rest);
    } else {
        assert(blanks + rest =~= rest);
    }
}

/// A mark is found behind white space and in front of more.
proof fn lemma_mark_found(before: Seq<u8>, mark: u8, after: Seq<u8>, rest: Seq<u8>)
    requires
        all_blank(before),
        all_blank(after),
        !is_blank(mark),
        rest.len() > 0 ==> !is_blank(rest[0]),
    ensures
        after_mark(before + seq![mark] + after + rest, mark) == Some(rest),
        forall|other: u8|
            other != mark ==> #[trigger] after_mark(before + seq![mark] + after + rest, other) is None,
{
    let bytes = before + seq![mark] + after + rest;
    let tail = seq![mark] + after + rest;
    lemma_blanks_skipped(before, tail);
    assert(before + tail =~= bytes);
    assert(tail.skip(1) =~= after + rest);
    lemma_blanks_skipped(after, rest);
}

/// What a value says: the text that it is, or the number that it is, or nothing.
pub proof fn law_claim_values(bytes: Seq<u8>)
    ensures
        json_text(bytes) matches Some(text) ==> claim_at(bytes) == ClaimView::Text(text),
        json_text(bytes) is None && json_number(bytes) is Some ==> claim_at(bytes)
            == ClaimView::Number(json_number(bytes)->0),
        json_text(bytes) is None && json_number(bytes) is None ==> claim_at(bytes)
            == ClaimView::Other,
{
}

/// A member is a JSON string, a colon and a JSON value, with white space around the colon or
/// without; all three are read, and what follows the value is left.
pub proof fn law_member_read(
    name: Seq<u8>,
    before: Seq<u8>,
    after: Seq<u8>,
    value: Seq<u8>,
    rest: Seq<u8>,
)
    requires
        all_blank(before),
        all_blank(after),
        value.len() > 0 && !is_blank(value[0]),
        json_length(name + before + seq![0x3au8] + after + value + rest) == Some(name.len()),
        json_text(name) is Some,
        json_length(value + rest) == Some(value.len()),
    ensures
        member_at(name + before + seq![0x3au8] + after + value + rest) == Some(
            ((json_text(name)->0, claim_at(value)), rest),
        ),
{
    let bytes = name + before + seq![0x3au8] + after + value + rest;
    let n = name.len() as int;
    assert(bytes.take(n) =~= name);
    lemma_mark_found(before, 0x3a, after, value + rest);
    assert(bytes.skip(n) =~= before + seq![0x3au8] + after + (value + rest));
    assert((value + rest).take(value.len() as int) =~= value);
    assert((value + rest).skip(value.len() as int) =~= rest);
}

/// An object without members has no claims. One with members has them in order: the claim of the
/// first, then those of the object that is left without it. An object ends with its brace, and
/// nothing but white space may follow. `blanks` may stand wherever white space may.
pub proof fn law_object_read(
    blanks: Seq<u8>,
    inside: Seq<u8>,
    member: (Seq<char>, ClaimView),
    rest: Seq<u8>,
)
    requires
        all_blank(blanks),
        inside.len() > 0 && !is_blank(inside[0]) && inside[0] != 0x7d,
        rest.len() > 0 && !is_blank(rest[0]) && rest[0] != 0x7d,
        rest.len() < inside.len(),
    ensures
        payload_claims(blanks + seq![0x7bu8] + blanks + (seq![0x7du8] + blanks)) == Some(
            Seq::<(Seq<char>, ClaimView)>::empty(),
        ),
        member_at(inside) == Some((member, blanks + seq![0x7du8] + blanks)) ==> payload_claims(
            blanks + seq![0x7bu8] + blanks + inside,
        ) == Some(seq![member]),
        member_at(inside) == Some((member, blanks + seq![0x7du8] + blanks + rest))
            ==> payload_claims(blanks + seq![0x7bu8] + blanks + inside) is None,
        member_at(inside) == Some((member, blanks + seq![0x2cu8] + blanks + rest))
            ==> payload_claims(blanks + seq![0x7bu8] + blanks + inside) == (match payload_claims(
            blanks + seq![0x7bu8] + blanks + rest,
        ) {
            Some(claims) => Some(seq![member] + claims),
            None => None,
        }),
        member_at(inside) is None ==> payload_claims(blanks + seq![0x7bu8] + blanks + inside)
            is None,
{
    let none = Seq::<u8>::empty();
    let end = seq![0x7du8] + blanks;
    lemma_mark_found(blanks, 0x7b, blanks, end);
    lemma_mark_found(none, 0x7d, blanks, none);
    assert(none + seq![0x7du8] + blanks + none =~= end);
    lemma_mark_found(blanks, 0x7b, blanks, inside);
    lemma_mark_found(blanks, 0x7b, blanks, rest);
    lemma_mark_found(blanks, 0x7d, blanks, none);
    assert(blanks + seq![0x7du8] + blanks + none =~= blanks + seq![0x7du8] + blanks);
    lemma_mark_found(blanks, 0x7d, blanks, rest);
    lemma_mark_found(blanks, 0x2c, blanks, rest);
    lemma_blanks_skipped(none, inside);
    lemma_blanks_skipped(none, rest);
    assert(none + inside =~= inside);
    assert(none + rest =~= rest);
    let closed = blanks + seq![0x7du8] + blanks;
    assert(after_mark(closed + none, 0x2c) is None);
    assert(after_mark(closed + rest, 0x2c) is None);
    assert(after_mark(inside, 0x7d) is None);
    assert(after_mark(rest, 0x7d) is None);
}

/// What is not an object, going by its first byte behind white space, has no claims.
pub proof fn law_only_objects(blanks: Seq<u8>, rest: Seq<u8>)
    requires
        all_blank(blanks),
        rest.len() > 0 ==> !is_blank(rest[0]) && rest[0] != 0x7b,
    ensures
        payload_claims(blanks + rest) is None,
{
    lemma_blanks_skipped(blanks, rest);
}

} // verus!
