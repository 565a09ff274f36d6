//! The fingerprint of the server's certificate, by which a browser accepts it.

use crate::text::{replace_char, replace_char_in};
use vstd::prelude::*;

verus! {

/// Why `wtransport` does not take some bytes for a certificate.
#[verifier::external_type_specification]
#[verifier::external_body]
pub struct ExInvalidCertificate(wtransport::tls::error::InvalidCertificate);

/// The SHA-256 digest that `wtransport::tls::Certificate::hash` gives for a DER-encoded
/// certificate, if `Certificate::from_der` takes the bytes for one.
pub uninterp spec fn certificate_digest(der: Seq<u8>) -> Option<Seq<u8>>;

/// Calls `wtransport::tls::Certificate::from_der` and then `hash` on the certificate.
#[verifier::external_body]
fn digest_of_certificate(der: &Vec<u8>) -> (digest: Result<
    [u8; 32],
    wtransport::tls::error::InvalidCertificate,
>)
    ensures
        match digest {
            Ok(bytes) => certificate_digest(der@) == Some(bytes@),
            Err(_) => certificate_digest(der@) is None,
        },
{
    let certificate = wtransport::tls::Certificate::from_der(der.clone())?;
    Ok(*certificate.hash().as_ref())
}

/// A digit of base 16.
pub open spec fn hex_digit(n: nat) -> char {
    if n < 10 {
        (n + '0' as nat) as char
    } else {
        (n - 10 + 'a' as nat) as char
    }
}

/// A byte as two hexadecimal digits.
pub open spec fn hex_byte(byte: u8) -> Seq<char> {
    seq![hex_digit((byte / 16) as nat), hex_digit((byte % 16) as nat)]
}

/// Bytes in hexadecimal, one after the other.
pub open spec fn hex_text(bytes: Seq<u8>) -> Seq<char>
    decreases bytes.len(),
{
    if bytes.len() == 0 {
        seq![]
    } else {
        hex_text(bytes.drop_last()) + hex_byte(bytes.last())
    }
}

/// Bytes in hexadecimal with a colon between one and the next.
pub open spec fn dotted_hex_text(bytes: Seq<u8>) -> Seq<char>
    decreases bytes.len(),
{
    if bytes.len() == 0 {
        seq![]
    } else if bytes.len() == 1 {
        hex_byte(bytes[0])
    } else {
        dotted_hex_text(bytes.drop_last()) + seq![':'] + hex_byte(bytes.last())
    }
}

/// Calls `wtransport::tls::Sha256Digest::fmt` for the dotted format: each byte as two lower-case
/// hexadecimal digits, with a colon between one byte and the next.
#[verifier::external_body]
fn dotted_hex(digest: &[u8; 32]) -> (text: String)
    ensures
        text@ == dotted_hex_text(digest@),
{
    wtransport::tls::Sha256Digest::new(*digest).fmt(wtransport::tls::Sha256DigestFmt::DottedHex)
}

/// Without its colons a text is its parts without theirs.
proof fn lemma_replace_concat(a: Seq<char>, b: Seq<char>)
    ensures
        replace_char(a + b, ':', seq![]) == replace_char(a, ':', seq![]) + replace_char(
            b,
            ':',
            seq![],
        ),
    decreases a.len(),
{
    if a.len() == 0 {
        assert(a + b =~= b);
        assert(replace_char(a, ':', seq![]) + replace_char(b, ':', seq![]) =~= replace_char(
            b,
            ':',
            seq![],
        ));
    } else {
        assert((a + b).drop_first() =~= a.drop_first() + b);
        lemma_replace_concat(a.drop_first(), b);
        assert(replace_char(a + b, ':', seq![]) =~= replace_char(a, ':', seq![]) + replace_char(
            b,
            ':',
            seq![],
        ));
    }
}

/// A byte in hexadecimal holds no colon.
proof fn lemma_hex_byte(byte: u8)
    ensures
        replace_char(hex_byte(byte), ':', seq![]) == hex_byte(byte),
        hex_byte(byte).len() == 2,
{
    let s = hex_byte(byte);
    reveal_with_fuel(replace_char, 3);
    assert(s[0] != ':' && s[1] != ':');
    assert(s.drop_first().drop_first() =~= Seq::<char>::empty());
    assert(s.drop_first()[0] == s[1]);
    assert(replace_char(s, ':', seq![]) =~= s);
}

/// The dotted format without its colons is plain hexadecimal.
proof fn lemma_undotted(bytes: Seq<u8>)
    ensures
        replace_char(dotted_hex_text(bytes), ':', seq![]) == hex_text(bytes),
    decreases bytes.len(),
{
    reveal_with_fuel(replace_char, 2);
    reveal_with_fuel(hex_text, 2);
    if bytes.len() == 1 {
        lemma_hex_byte(bytes[0]);
        assert(bytes.drop_last() =~= Seq::<u8>::empty());
        assert(hex_text(bytes) =~= hex_byte(bytes[0]));
    } else if bytes.len() > 1 {
        let before = dotted_hex_text(bytes.drop_last());
        let last = hex_byte(bytes.last());
        lemma_undotted(bytes.drop_last());
        lemma_hex_byte(bytes.last());
        lemma_replace_concat(before + seq![':'], last);
        lemma_replace_concat(before, seq![':']);
        assert(seq![':'].drop_first() =~= Seq::<char>::empty());
        assert(replace_char(seq![':'], ':', seq![]) =~= Seq::<char>::empty());
        assert(replace_char(before, ':', seq![]) + Seq::<char>::empty() =~= replace_char(
            before,
            ':',
            seq![],
        ));
    }
}

/// A digest in plain hexadecimal.
pub fn hash_hex(digest: &[u8; 32]) -> (text: String)
    ensures
        text@ == hex_text(digest@),
{
    let dotted = dotted_hex(digest);
    proof {
        reveal_strlit("");
        assert(""@ =~= Seq::<char>::empty());
        lemma_undotted(digest@);
    }
    replace_char_in(dotted.as_str(), ':', "")
}

/// The fingerprint of the first certificate of a chain, which is the server's own, in plain
/// hexadecimal; empty if there is none.
pub fn certificate_hash_hex(chain: &Vec<Vec<u8>>) -> (text: String)
    ensures
        text@ == (if chain@.len() == 0 {
            seq![]
        } else {
            match certificate_digest(chain@[0]@) {
                Some(digest) => hex_text(digest),
                None => seq![],
            }
        }),
{
    if chain.len() == 0 {
        return String::new();
    }
    match digest_of_certificate(&chain[0]) {
        Ok(digest) => hash_hex(&digest),
        Err(_) => String::new(),
    }
}

/// A fingerprint has two digits for each byte, and nothing but digits.
pub proof fn law_fingerprint_digits(bytes: Seq<u8>)
    ensures
        hex_text(bytes).len() == 2 * bytes.len(),
        forall|i: int|
            0 <= i < hex_text(bytes).len() ==> '0' <= #[trigger] hex_text(bytes)[i] <= '9' || 'a'
                <= hex_text(bytes)[i] <= 'f',
    decreases bytes.len(),
{
    if bytes.len() > 0 {
        law_fingerprint_digits(bytes.drop_last());
        let before = hex_text(bytes.drop_last());
        assert forall|i: int| 0 <= i < hex_text(bytes).len() implies '0' <= #[trigger] hex_text(
            bytes,
        )[i] <= '9' || 'a' <= hex_text(bytes)[i] <= 'f' by {
            if i < before.len() {
                assert(hex_text(bytes)[i] == before[i]);
            } else {
                assert(hex_text(bytes)[i] == hex_byte(bytes.last())[i - before.len()]);
            }
        }
    }
}

/// The two digits of a byte stand where the byte stands, the one for its upper half first: `0` to
/// `9` for up to nine, and `a` to `f` beyond.
pub proof fn law_fingerprint_spells(bytes: Seq<u8>, i: int)
    requires
        0 <= i < bytes.len(),
    ensures
        hex_text(bytes).len() == 2 * bytes.len(),
        hex_text(bytes)[2 * i] as u32 == bytes[i] / 16 + (if bytes[i] / 16 < 10 {
            48int
        } else {
            87int
        }),
        hex_text(bytes)[2 * i + 1] as u32 == bytes[i] % 16 + (if bytes[i] % 16 < 10 {
            48int
        } else {
            87int
        }),
    decreases bytes.len(),
{
    let before = bytes.drop_last();
    law_fingerprint_digits(before);
    law_fingerprint_digits(bytes);
    if i < before.len() {
        law_fingerprint_spells(before, i);
        assert(hex_text(bytes)[2 * i] == hex_text(before)[2 * i]);
        assert(hex_text(bytes)[2 * i + 1] == hex_text(before)[2 * i + 1]);
    } else {
        assert(hex_text(bytes)[2 * i] == hex_byte(bytes.last())[0]);
        assert(hex_text(bytes)[2 * i + 1] == hex_byte(bytes.last())[1]);
    }
}

} // verus!
