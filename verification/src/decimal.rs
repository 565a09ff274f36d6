//! Integers in decimal, as configuration, tool output and command lines spell them.

use vstd::prelude::*;
use vstd::slice::slice_subrange;

verus! {

/// Whether `c` is one of the ten digits.
pub open spec fn is_digit(c: char) -> bool {
    '0' <= c <= '9'
}

/// The number that the digit `c` stands for.
pub open spec fn digit_value(c: char) -> nat {
    (c as u32 - '0' as u32) as nat
}

/// The digit that stands for `n`.
pub open spec fn digit(n: nat) -> char {
    (('0' as u32 + n) as u32) as char
}

pub open spec fn all_digits(s: Seq<char>) -> bool {
    forall|i: int| 0 <= i < s.len() ==> is_digit(#[trigger] s[i])
}

/// The number that a row of digits spells.
pub open spec fn digits_value(s: Seq<char>) -> nat
    decreases s.len(),
{
    if s.len() == 0 {
        0
    } else {
        digits_value(s.drop_last()) * 10 + digit_value(s.last())
    }
}

/// `n` in decimal, without leading zeros.
pub open spec fn decimal(n: nat) -> Seq<char>
    decreases n,
{
    if n < 10 {
        seq![digit(n)]
    } else {
        decimal(n / 10).push(digit(n % 10))
    }
}

/// `s` as a number of at most `max`: digits, at least one, with an optional plus sign.
pub open spec fn parse_unsigned(s: Seq<char>, max: nat) -> Option<nat> {
    let digits = if s.len() > 0 && s[0] == '+' {
        s.drop_first()
    } else {
        s
    };
    if digits.len() > 0 && all_digits(digits) && digits_value(digits) <= max {
        Some(digits_value(digits))
    } else {
        None
    }
}

/// `s` as a signed number of 32 bits: digits, at least one, with an optional sign.
pub open spec fn parse_i32(s: Seq<char>) -> Option<int> {
    if s.len() > 0 && s[0] == '-' {
        let digits = s.drop_first();
        if digits.len() > 0 && all_digits(digits) && digits_value(digits) <= 0x8000_0000 {
            Some(-digits_value(digits))
        } else {
            None
        }
    } else {
        match parse_unsigned(s, 0x7fff_ffff) {
            Some(n) => Some(n as int),
            None => None,
        }
    }
}

proof fn lemma_digits_value_grows(s: Seq<char>, n: int)
    requires
        0 <= n <= s.len(),
        all_digits(s),
    ensures
        digits_value(s.take(n)) <= digits_value(s),
    decreases s.len() - n,
{
    if n < s.len() {
        lemma_digits_value_grows(s, n + 1);
        assert(s.take(n + 1).drop_last() =~= s.take(n));
        assert(is_digit(s[n]));
    } else {
        assert(s.take(n) =~= s);
    }
}

/// What `decimal` writes is all digits, and spells the number.
pub proof fn lemma_decimal_spells(n: nat)
    ensures
        decimal(n).len() > 0,
        all_digits(decimal(n)),
        digits_value(decimal(n)) == n,
    decreases n,
{
    reveal_with_fuel(digits_value, 2);
    if n >= 10 {
        lemma_decimal_spells(n / 10);
        assert(decimal(n).drop_last() =~= decimal(n / 10));
        assert(digit_value(digit(n % 10)) == n % 10);
    } else {
        assert(decimal(n).drop_last() =~= Seq::<char>::empty());
        assert(digit_value(digit(n)) == n);
    }
}

/// A number written in decimal is read back.
pub proof fn lemma_decimal_round_trip(n: nat, max: nat)
    requires
        n <= max,
    ensures
        parse_unsigned(decimal(n), max) == Some(n),
{
    lemma_decimal_spells(n);
    assert(is_digit(decimal(n)[0]));
}

/// No character but a digit occurs in a number written in decimal.
pub proof fn lemma_decimal_lacks(n: nat, c: char)
    requires
        !is_digit(c),
    ensures
        !decimal(n).contains(c),
{
    lemma_decimal_spells(n);
}

/// The value of a row of digits, if it is a row of digits, not empty, and at most `max`.
fn digits_within(digits: &[char], max: u32) -> (n: Option<u32>)
    ensures
        n matches Some(v) ==> digits@.len() > 0 && all_digits(digits@) && digits_value(digits@)
            == v && v <= max,
        n is None ==> !(digits@.len() > 0 && all_digits(digits@) && digits_value(digits@) <= max),
{
    if digits.len() == 0 {
        return None;
    }
    let mut value: u64 = 0;
    let mut i: usize = 0;
    while i < digits.len()
        invariant
            i <= digits@.len(),
            value as nat == digits_value(digits@.take(i as int)),
            value <= max,
            forall|j: int| 0 <= j < i ==> is_digit(#[trigger] digits@[j]),
        decreases digits.len() - i,
    {
        let c = digits[i];
        if !('0' <= c && c <= '9') {
            return None;
        }
        value = value * 10 + (c as u32 - '0' as u32) as u64;
        proof {
            assert(digits@.take(i + 1).drop_last() =~= digits@.take(i as int));
        }
        if value > max as u64 {
            proof {
                if all_digits(digits@) {
                    lemma_digits_value_grows(digits@, i + 1);
                }
            }
            return None;
        }
        i = i + 1;
    }
    proof {
        assert(digits@.take(i as int) =~= digits@);
    }
    Some(value as u32)
}

/// Reads `chars` as a number of at most `max`.
fn parse_within(chars: &[char], max: u32) -> (n: Option<u32>)
    ensures
        n matches Some(v) ==> parse_unsigned(chars@, max as nat) == Some(v as nat),
        n is None ==> parse_unsigned(chars@, max as nat) is None,
{
    if chars.len() > 0 && chars[0] == '+' {
        proof {
            assert(chars@.subrange(1, chars@.len() as int) =~= chars@.drop_first());
        }
        digits_within(slice_subrange(chars, 1, chars.len()), max)
    } else {
        digits_within(chars, max)
    }
}

/// Reads `chars` as a `u32`.
pub fn parse_u32_chars(chars: &[char]) -> (n: Option<u32>)
    ensures
        n matches Some(v) ==> parse_unsigned(chars@, u32::MAX as nat) == Some(v as nat),
        n is None ==> parse_unsigned(chars@, u32::MAX as nat) is None,
{
    parse_within(chars, u32::MAX)
}

/// Reads `chars` as a `u16`.
pub fn parse_u16_chars(chars: &[char]) -> (n: Option<u16>)
    ensures
        n matches Some(v) ==> parse_unsigned(chars@, u16::MAX as nat) == Some(v as nat),
        n is None ==> parse_unsigned(chars@, u16::MAX as nat) is None,
{
    match parse_within(chars, u16::MAX as u32) {
        Some(v) => Some(v as u16),
        None => None,
    }
}

/// Whether `chars` read as an `i32`.
pub fn is_i32_chars(chars: &[char]) -> (is: bool)
    ensures
        is == (parse_i32(chars@) is Some),
{
    if chars.len() > 0 && chars[0] == '-' {
        proof {
            assert(chars@.subrange(1, chars@.len() as int) =~= chars@.drop_first());
        }
        digits_within(slice_subrange(chars, 1, chars.len()), 0x8000_0000).is_some()
    } else {
        parse_within(chars, 0x7fff_ffff).is_some()
    }
}

/// Appends `n` in decimal.
pub fn push_decimal(text: &mut String, n: u32)
    ensures
        final(text)@ == old(text)@ + decimal(n as nat),
    decreases n,
{
    if n >= 10 {
        push_decimal(text, n / 10);
    }
    let c = digit_of(n % 10);
    text.push(c);
}

fn digit_of(n: u32) -> (c: char)
    requires
        n < 10,
    ensures
        c == digit(n as nat),
{
    if n == 0 {
        '0'
    } else if n == 1 {
        '1'
    } else if n == 2 {
        '2'
    } else if n == 3 {
        '3'
    } else if n == 4 {
        '4'
    } else if n == 5 {
        '5'
    } else if n == 6 {
        '6'
    } else if n == 7 {
        '7'
    } else if n == 8 {
        '8'
    } else {
        '9'
    }
}

// ---------------------------------------------------------------------------
// Laws
// ---------------------------------------------------------------------------

/// A number is written digit by digit: the last digit stands for what is left over of tens, and
/// what comes before it is the number of tens in writing, or nothing if there are none. So there
/// are no leading zeros.
pub proof fn law_decimal_digits(tens: nat, ones: nat)
    requires
        ones < 10,
    ensures
        decimal(tens * 10 + ones).last() as u32 == 48 + ones,
        tens > 0 ==> decimal(tens * 10 + ones).drop_last() == decimal(tens),
        tens == 0 ==> decimal(tens * 10 + ones).len() == 1,
        tens > 0 ==> decimal(tens)[0] as u32 != 48,
    decreases tens,
{
    let n = tens * 10 + ones;
    if tens > 0 {
        assert(decimal(n).drop_last() =~= decimal(tens));
        law_decimal_digits(tens / 10, tens % 10);
        assert(tens / 10 * 10 + tens % 10 == tens);
        if tens / 10 > 0 {
            assert(decimal(tens)[0] == decimal(tens / 10)[0]) by {
                lemma_decimal_spells(tens / 10);
                assert(decimal(tens).drop_last()[0] == decimal(tens)[0]);
            }
        } else {
            assert(decimal(tens)[0] == decimal(tens).last());
        }
    }
}

/// Zeros in front of digits change nothing.
proof fn lemma_leading_zero(digits: Seq<char>)
    ensures
        digits_value(seq!['0'] + digits) == digits_value(digits),
    decreases digits.len(),
{
    let s = seq!['0'] + digits;
    reveal_with_fuel(digits_value, 2);
    if digits.len() == 0 {
        assert(s.drop_last() =~= Seq::<char>::empty());
        assert(s.last() == '0');
    } else {
        assert(s.drop_last() =~= seq!['0'] + digits.drop_last());
        lemma_leading_zero(digits.drop_last());
    }
}

/// What is read as a number: a number in writing, if it is not too large; with a plus sign or
/// zeros in front it reads the same. Nothing, a sign alone, or a text with any other character in
/// it reads as none.
pub proof fn law_numbers_read(n: nat, max: nat, s: Seq<char>, i: int)
    ensures
        n <= max ==> parse_unsigned(decimal(n), max) == Some(n),
        n > max ==> parse_unsigned(decimal(n), max) is None,
        parse_unsigned(seq!['+'] + decimal(n), max) == parse_unsigned(decimal(n), max),
        parse_unsigned(seq!['0'] + decimal(n), max) == parse_unsigned(decimal(n), max),
        parse_unsigned(seq![], max) is None,
        parse_unsigned(seq!['+'], max) is None,
        0 <= i < s.len() && !('0' <= s[i] <= '9') && !(i == 0 && s[i] == '+') ==> parse_unsigned(
            s,
            max,
        ) is None,
{
    lemma_decimal_spells(n);
    let d = decimal(n);
    assert(is_digit(d[0]));
    assert((seq!['+'] + d).drop_first() =~= d);
    lemma_leading_zero(d);
    assert forall|k: int| 0 <= k < (seq!['0'] + d).len() implies is_digit(
        #[trigger] (seq!['0'] + d)[k],
    ) by {
        if k > 0 {
            assert((seq!['0'] + d)[k] == d[k - 1]);
        }
    }
    if 0 <= i < s.len() && !('0' <= s[i] <= '9') && !(i == 0 && s[i] == '+') {
        if s[0] == '+' {
            assert(s.drop_first()[i - 1] == s[i]);
        }
    }
}

/// Signed numbers of 32 bits are read over their whole range, and none beyond it.
pub proof fn law_signed_numbers_read(n: nat)
    ensures
        n <= 0x7fff_ffff ==> parse_i32(decimal(n)) == Some(n as int),
        n > 0x7fff_ffff ==> parse_i32(decimal(n)) is None,
        n <= 0x8000_0000 ==> parse_i32(seq!['-'] + decimal(n)) == Some(-n),
        n > 0x8000_0000 ==> parse_i32(seq!['-'] + decimal(n)) is None,
        parse_i32(seq!['-']) is None,
        parse_i32(seq![]) is None,
{
    lemma_decimal_spells(n);
    assert(is_digit(decimal(n)[0]));
    assert((seq!['-'] + decimal(n)).drop_first() =~= decimal(n));
}

} // verus!
