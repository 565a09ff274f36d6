//! Base64 with the alphabet for URLs and without padding, as the parts of a token are written.

use crate::wire::{be_bytes, byte_range, lemma_be_bytes_join};
use vstd::prelude::*;

verus! {

/// The six bits that a character stands for.
pub open spec fn sextet(c: char) -> Option<nat> {
    if 'A' <= c <= 'Z' {
        Some((c as int - 'A' as int) as nat)
    } else if 'a' <= c <= 'z' {
        Some((c as int - 'a' as int + 26) as nat)
    } else if '0' <= c <= '9' {
        Some((c as int - '0' as int + 52) as nat)
    } else if c == '-' {
        Some(62)
    } else if c == '_' {
        Some(63)
    } else {
        None
    }
}

/// The number that the bits of a text spell; `None` if a character stands for none.
pub open spec fn bits_of(text: Seq<char>) -> Option<nat>
    decreases text.len(),
{
    if text.len() == 0 {
        Some(0)
    } else {
        match (bits_of(text.drop_last()), sextet(text.last())) {
            (Some(before), Some(last)) => Some(before * 64 + last),
            _ => None,
        }
    }
}

/// How many values the bits have that are left at the end of a text when its bytes are full.
pub open spec fn spare_range(len: nat) -> nat {
    if len % 4 == 2 {
        16
    } else if len % 4 == 3 {
        4
    } else {
        1
    }
}

/// The bytes that a text stands for: its bits, eight by eight. The bits that are left at its end
/// are too few for a byte and must be zero.
pub open spec fn base64_bytes(text: Seq<char>) -> Option<Seq<u8>> {
    match bits_of(text) {
        Some(bits) => if text.len() % 4 == 1 || bits % spare_range(text.len()) != 0 {
            None
        } else {
            Some(be_bytes(bits / spare_range(text.len()), text.len() * 6 / 8))
        },
        None => None,
    }
}

/// The six bits that a character stands for.
fn sextet_of(c: char) -> (bits: Option<u32>)
    ensures
        match bits {
            Some(n) => sextet(c) == Some(n as nat) && n < 64,
            None => sextet(c) is None,
        },
{
    let n = c as u32;
    if 'A' <= c && c <= 'Z' {
        Some(n - 65)
    } else if 'a' <= c && c <= 'z' {
        Some(n - 97 + 26)
    } else if '0' <= c && c <= '9' {
        Some(n - 48 + 52)
    } else if c == '-' {
        Some(62)
    } else if c == '_' {
        Some(63)
    } else {
        None
    }
}

/// A text with a part that spells nothing spells nothing.
proof fn lemma_broken(text: Seq<char>, i: int)
    requires
        0 <= i < text.len(),
        sextet(text[i]) is None,
    ensures
        bits_of(text) is None,
    decreases text.len(),
{
    if i < text.len() - 1 {
        assert(text.drop_last()[i] == text[i]);
        lemma_broken(text.drop_last(), i);
    }
}

/// The bits of a text with one character more.
proof fn lemma_one_more(text: Seq<char>, i: int)
    requires
        0 <= i < text.len(),
    ensures
        bits_of(text.take(i + 1)) == (match (bits_of(text.take(i)), sextet(text[i])) {
            (Some(before), Some(last)) => Some(before * 64 + last),
            _ => None,
        }),
{
    assert(text.take(i + 1).drop_last() =~= text.take(i));
    assert(text.take(i + 1).last() == text[i]);
}

/// One byte more.
proof fn lemma_push_byte(high: nat, len: nat, byte: u8)
    ensures
        be_bytes(high * 256 + byte as nat, len + 1) == be_bytes(high, len).push(byte),
{
    assert((high * 256 + byte as nat) / 256 == high);
    assert((high * 256 + byte as nat) % 256 == byte as nat);
}

/// Six bits more fill a byte, where bits were kept.
proof fn lemma_full_byte(high: nat, range: nat, kept: nat, n: nat)
    requires
        range == 4 || range == 16 || range == 64,
        kept < range,
        n < 64,
    ensures
        ({
            let all = kept * 64 + n;
            let left = range / 4;
            &&& all / left < 256
            &&& all % left < left
            &&& (high * range + kept) * 64 + n == (high * 256 + all / left) * left + all % left
        }),
{
    let all = kept * 64 + n;
    if range == 4 {
        assert(high * range == high * 4) by (nonlinear_arith)
            requires
                range == 4,
        ;
        assert((high * 256 + all / 1) * 1 == high * 256 + all);
    } else if range == 16 {
        assert(high * range == high * 16) by (nonlinear_arith)
            requires
                range == 16,
        ;
        assert(4 * (all / 4) + all % 4 == all);
        assert((high * 256 + all / 4) * 4 == high * 1024 + 4 * (all / 4));
    } else {
        assert(high * range == high * 64) by (nonlinear_arith)
            requires
                range == 64,
        ;
        assert(16 * (all / 16) + all % 16 == all);
        assert((high * 256 + all / 16) * 16 == high * 4096 + 16 * (all / 16));
    }
}

/// Reads a text.
pub fn decode_base64(text: &[char]) -> (bytes: Option<Vec<u8>>)
    ensures
        match bytes {
            Some(b) => base64_bytes(text@) == Some(b@),
            None => base64_bytes(text@) is None,
        },
{
    let mut bytes: Vec<u8> = Vec::new();
    // The bits that do not fill a byte yet, and how many values they have.
    let mut kept: u32 = 0;
    let mut range: u32 = 1;
    let ghost mut high: nat = 0;
    let mut i: usize = 0;
    proof {
        assert(text@.take(0) =~= Seq::<char>::empty());
        assert(bytes@ =~= be_bytes(0, 0));
    }
    while i < text.len()
        invariant
            i <= text@.len(),
            range == 1 || range == 4 || range == 16 || range == 64,
            i % 4 == 0 <==> range == 1,
            i % 4 == 1 <==> range == 64,
            i % 4 == 2 <==> range == 16,
            i % 4 == 3 <==> range == 4,
            kept < range,
            bits_of(text@.take(i as int)) == Some(high * range as nat + kept as nat),
            bytes@ == be_bytes(high, (i * 6 / 8) as nat),
        decreases text.len() - i,
    {
        let n: u32 = match sextet_of(text[i]) {
            Some(n) => n,
            None => {
                proof {
                    lemma_broken(text@, i as int);
                }
                return None;
            },
        };
        proof {
            lemma_one_more(text@, i as int);
        }
        let all = kept * 64 + n;
        if range == 1 {
            kept = all;
            range = 64;
        } else {
            let left: u32 = range / 4;
            let byte = (all / left) as u8;
            bytes.push(byte);
            proof {
                lemma_push_byte(high, (i * 6 / 8) as nat, byte);
                lemma_full_byte(high, range as nat, kept as nat, n as nat);
                high = high * 256 + byte as nat;
            }
            kept = all % left;
            range = left;
        }
        i = i + 1;
    }
    proof {
        assert(text@.take(i as int) =~= text@);
    }
    if range == 64 || kept != 0 {
        return None;
    }
    Some(bytes)
}

// ---------------------------------------------------------------------------
// Laws
// ---------------------------------------------------------------------------

/// The characters stand for the numbers from 0 to 63 in this order, and no other character stands
/// for any.
pub proof fn law_alphabet(i: int, c: char)
    requires
        0 <= i < 64,
    ensures
        ({
            let alphabet = "ABCDEFGHIJKLMNOPQRSTUVWXYZabcdefghijklmnopqrstuvwxyz0123456789-_"@;
            &&& alphabet.len() == 64
            &&& sextet(alphabet[i]) == Some(i as nat)
            &&& sextet(c) matches Some(n) ==> n < 64 && alphabet[n as int] == c
        }),
{
    reveal_strlit("ABCDEFGHIJKLMNOPQRSTUVWXYZabcdefghijklmnopqrstuvwxyz0123456789-_");
}

/// The bits of up to four characters.
proof fn lemma_bits_of_group(a: char, b: char, c: char, d: char)
    requires
        sextet(a) is Some,
        sextet(b) is Some,
        sextet(c) is Some,
        sextet(d) is Some,
    ensures
        ({
            let (w, x, y, z) = (sextet(a)->0, sextet(b)->0, sextet(c)->0, sextet(d)->0);
            &&& w < 64 && x < 64 && y < 64 && z < 64
            &&& bits_of(seq![]) == Some(0nat)
            &&& bits_of(seq![a, b]) == Some(w * 64 + x)
            &&& bits_of(seq![a, b, c]) == Some((w * 64 + x) * 64 + y)
            &&& bits_of(seq![a, b, c, d]) == Some(((w * 64 + x) * 64 + y) * 64 + z)
        }),
{
    reveal_with_fuel(bits_of, 2);
    assert(seq![a].drop_last() =~= Seq::<char>::empty());
    assert(seq![a, b].drop_last() =~= seq![a]);
    assert(seq![a, b, c].drop_last() =~= seq![a, b]);
    assert(seq![a, b, c, d].drop_last() =~= seq![a, b, c]);
    assert(bits_of(seq![a]) == Some(sextet(a)->0));
}

/// One byte, two and three, each from its own bits.
proof fn lemma_bytes_of_group(w: nat, x: nat, y: nat, z: nat)
    requires
        w < 64 && x < 64 && y < 64 && z < 64,
    ensures
        be_bytes(0, 0) == Seq::<u8>::empty(),
        be_bytes((w * 64 + x) / 16, 1) == seq![(w * 4 + x / 16) as u8],
        be_bytes(((w * 64 + x) * 64 + y) / 4, 2) == seq![
            (w * 4 + x / 16) as u8,
            (x % 16 * 16 + y / 4) as u8,
        ],
        be_bytes(((w * 64 + x) * 64 + y) * 64 + z, 3) == seq![
            (w * 4 + x / 16) as u8,
            (x % 16 * 16 + y / 4) as u8,
            (y % 4 * 64 + z) as u8,
        ],
{
    let first = w * 4 + x / 16;
    let second = x % 16 * 16 + y / 4;
    let third = y % 4 * 64 + z;
    let none = Seq::<u8>::empty();
    assert(be_bytes(0, 0) =~= none);
    assert((w * 64 + x) / 16 == first);
    assert(((w * 64 + x) * 64 + y) / 4 == first * 256 + second);
    assert(((w * 64 + x) * 64 + y) * 64 + z == (first * 256 + second) * 256 + third);
    lemma_push_byte(0, 0, first as u8);
    assert(be_bytes(first, 1) == none.push(first as u8));
    assert(none.push(first as u8) =~= seq![first as u8]);
    lemma_push_byte(first, 1, second as u8);
    assert(seq![first as u8].push(second as u8) =~= seq![first as u8, second as u8]);
    lemma_push_byte(first * 256 + second, 2, third as u8);
    assert(seq![first as u8, second as u8].push(third as u8) =~= seq![
        first as u8,
        second as u8,
        third as u8,
    ]);
}

/// What up to four characters stand for: four are three bytes, three are two and two are one,
/// where the bits that are left over must be zero; one character is too few for a byte.
pub proof fn law_groups(a: char, b: char, c: char, d: char)
    requires
        sextet(a) is Some,
        sextet(b) is Some,
        sextet(c) is Some,
        sextet(d) is Some,
    ensures
        ({
            let (w, x, y, z) = (sextet(a)->0, sextet(b)->0, sextet(c)->0, sextet(d)->0);
            let first = (w * 4 + x / 16) as u8;
            let second = (x % 16 * 16 + y / 4) as u8;
            let third = (y % 4 * 64 + z) as u8;
            &&& base64_bytes(seq![]) == Some(Seq::<u8>::empty())
            &&& base64_bytes(seq![a]) is None
            &&& x % 16 == 0 ==> base64_bytes(seq![a, b]) == Some(seq![first])
            &&& x % 16 != 0 ==> base64_bytes(seq![a, b]) is None
            &&& y % 4 == 0 ==> base64_bytes(seq![a, b, c]) == Some(seq![first, second])
            &&& y % 4 != 0 ==> base64_bytes(seq![a, b, c]) is None
            &&& base64_bytes(seq![a, b, c, d]) == Some(seq![first, second, third])
        }),
{
    let (w, x, y, z) = (sextet(a)->0, sextet(b)->0, sextet(c)->0, sextet(d)->0);
    lemma_bits_of_group(a, b, c, d);
    lemma_bytes_of_group(w, x, y, z);
    assert((w * 64 + x) % 16 == x % 16);
    assert(((w * 64 + x) * 64 + y) % 4 == y % 4);
}

/// How many values the bits of so many characters have.
pub open spec fn bits_range(len: nat) -> nat
    decreases len,
{
    if len == 0 {
        1
    } else {
        64 * bits_range((len - 1) as nat)
    }
}

/// The bits of two texts, one after the other.
proof fn lemma_bits_join(a: Seq<char>, b: Seq<char>)
    ensures
        bits_of(a + b) == (match (bits_of(a), bits_of(b)) {
            (Some(high), Some(low)) => Some(high * bits_range(b.len()) + low),
            _ => None,
        }),
        bits_of(b) matches Some(low) ==> low < bits_range(b.len()),
    decreases b.len(),
{
    if b.len() == 0 {
        assert(a + b =~= a);
        if let Some(high) = bits_of(a) {
            assert(high * 1 == high);
        }
    } else {
        let fewer = b.drop_last();
        lemma_bits_join(a, fewer);
        assert((a + b).drop_last() =~= a + fewer);
        assert((a + b).last() == b.last());
        let range = bits_range(fewer.len());
        if let (Some(high), Some(low)) = (bits_of(a), bits_of(fewer)) {
            assert((high * range + low) * 64 == high * (64 * range) + low * 64)
                by (nonlinear_arith);
        }
    }
}

/// The bits of so many characters fill so many bytes, and leave so many over.
proof fn lemma_bits_fill(len: nat)
    requires
        len % 4 != 1,
    ensures
        bits_range(len) == byte_range(len * 6 / 8) * spare_range(len),
    decreases len,
{
    reveal_with_fuel(bits_range, 5);
    reveal_with_fuel(byte_range, 4);
    if len >= 4 {
        let less = (len - 4) as nat;
        lemma_bits_fill(less);
        assert(len * 6 / 8 == less * 6 / 8 + 3);
        let bytes = byte_range(less * 6 / 8);
        let spare = spare_range(less);
        assert(bits_range(len) == 0x100_0000 * bits_range(less));
        assert(byte_range(len * 6 / 8) == 0x100_0000 * bytes);
        assert(0x100_0000 * (bytes * spare) == (0x100_0000 * bytes) * spare) by (nonlinear_arith);
    }
}

/// A text is read group by group: what stands after a multiple of four characters is read as if it
/// stood alone.
pub proof fn law_groups_join(a: Seq<char>, b: Seq<char>)
    requires
        a.len() % 4 == 0,
    ensures
        base64_bytes(a + b) == (match (base64_bytes(a), base64_bytes(b)) {
            (Some(first), Some(second)) => Some(first + second),
            _ => None,
        }),
{
    lemma_bits_join(a, b);
    let len = (a + b).len();
    let spare = spare_range(b.len());
    assert(spare_range(len) == spare);
    assert(spare_range(a.len()) == 1);
    if let (Some(high), Some(low)) = (bits_of(a), bits_of(b)) {
        if b.len() % 4 != 1 {
            let m = a.len() * 6 / 8;
            let n = b.len() * 6 / 8;
            assert(len * 6 / 8 == m + n);
            lemma_bits_fill(b.len());
            let range = byte_range(n);
            let whole = high * (range * spare) + low;
            assert(high * (range * spare) == spare * (high * range)) by (nonlinear_arith);
            lemma_spare(high * range, low, spare);
            if low % spare == 0 {
                assert(low / spare < range) by {
                    assert(low < range * spare);
                    lemma_spare_bound(low, range, spare);
                }
                lemma_be_bytes_join(high, low / spare, m, n);
            }
        }
    }
}

/// What is left over of a number does not depend on what stands above it.
proof fn lemma_spare(high: nat, low: nat, spare: nat)
    requires
        spare == 1 || spare == 4 || spare == 16,
    ensures
        (spare * high + low) % spare == low % spare,
        (spare * high + low) / spare == high + low / spare,
{
    if spare == 1 {
    } else if spare == 4 {
        assert((4 * high + low) % 4 == low % 4);
        assert((4 * high + low) / 4 == high + low / 4);
    } else {
        assert((16 * high + low) % 16 == low % 16);
        assert((16 * high + low) / 16 == high + low / 16);
    }
}

proof fn lemma_spare_bound(low: nat, range: nat, spare: nat)
    requires
        spare == 1 || spare == 4 || spare == 16,
        low < range * spare,
    ensures
        low / spare < range,
{
    if spare == 1 {
        assert(range * spare == range) by (nonlinear_arith)
            requires
                spare == 1,
        ;
    } else if spare == 4 {
        assert(range * spare == 4 * range) by (nonlinear_arith)
            requires
                spare == 4,
        ;
    } else {
        assert(range * spare == 16 * range) by (nonlinear_arith)
            requires
                spare == 16,
        ;
    }
}

} // verus!
