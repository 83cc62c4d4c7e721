//! Building and taking apart text: decimal and hexadecimal numerals, prefixes
//! and character runs.

use vstd::prelude::*;
use vstd::string::*;

verus! {

/// `String::push` appends one character.
pub assume_specification[ String::push ](s: &mut String, c: char)
    ensures
        final(s)@ == old(s)@.push(c),
;

/// The lowercase digit for a value below sixteen.
pub open spec fn digit(d: int) -> char {
    if d < 10 {
        (('0' as int) + d) as char
    } else {
        (('a' as int) + d - 10) as char
    }
}

/// `n` written in the given base, most significant digit first, with no
/// leading zeros.
pub open spec fn numeral(n: nat, base: nat) -> Seq<char>
    recommends
        2 <= base <= 16,
    decreases n,
{
    if base < 2 || n < base {
        seq![digit(n as int)]
    } else {
        proof {
            assert(n / base < n) by (nonlinear_arith)
                requires
                    n >= base,
                    base >= 2,
            ;
        }
        numeral(n / base, base).push(digit((n % base) as int))
    }
}

/// `n` in decimal.
pub open spec fn decimal(n: nat) -> Seq<char> {
    numeral(n, 10)
}

/// `n` in decimal, with a leading minus sign when it is negative.
pub open spec fn signed_decimal(n: int) -> Seq<char> {
    if n < 0 {
        seq!['-'] + decimal((-n) as nat)
    } else {
        decimal(n as nat)
    }
}

/// The value of a lowercase digit.
pub open spec fn digit_value(c: char) -> int {
    if c <= '9' {
        c as int - '0' as int
    } else {
        c as int - 'a' as int + 10
    }
}

/// Whether a character is a digit in the given base, a small one where it is a
/// letter.
pub open spec fn is_digit(c: char, base: nat) -> bool {
    ('0' <= c <= '9' || 'a' <= c <= 'f') && digit_value(c) < base
}

/// The number that digits stand for.
pub open spec fn value_of(digits: Seq<char>, base: nat) -> int
    decreases digits.len(),
{
    if digits.len() == 0 {
        0
    } else {
        value_of(digits.drop_last(), base) * base + digit_value(digits.last())
    }
}

/// A numeral is digits of its base, stands for its number, and has no zero in
/// front.
pub proof fn numeral_reads_back(n: nat, base: nat)
    requires
        2 <= base <= 16,
    ensures
        value_of(numeral(n, base), base) == n,
        numeral(n, base).len() > 0,
        numeral(n, base).len() > 1 ==> numeral(n, base)[0] != '0',
        forall|i: int|
            0 <= i < numeral(n, base).len() ==> is_digit(#[trigger] numeral(n, base)[i], base),
    decreases n,
{
    let s = numeral(n, base);
    if n < base {
        assert(s.drop_last() =~= Seq::<char>::empty());
        assert(value_of(s.drop_last(), base) == 0);
        assert(0 * base == 0);
    } else {
        assert(n / base < n && n / base > 0) by (nonlinear_arith)
            requires
                n >= base,
                base >= 2,
        ;
        let front = numeral(n / base, base);
        numeral_reads_back(n / base, base);
        assert(s.drop_last() =~= front);
        vstd::arithmetic::div_mod::lemma_fundamental_div_mod(n as int, base as int);
        vstd::arithmetic::div_mod::lemma_mod_bound(n as int, base as int);
        assert((n / base) * base == base * (n / base)) by (nonlinear_arith);
        if front.len() == 1 {
            assert(front.drop_last() =~= Seq::<char>::empty());
            assert(value_of(front.drop_last(), base) == 0);
            assert(0 * base == 0);
            assert(digit_value(front[0]) == n / base);
        }
        assert forall|i: int| 0 <= i < s.len() implies is_digit(#[trigger] s[i], base) by {
            if i < front.len() {
                assert(s[i] == front[i]);
            }
        }
    }
}

/// Different numbers have different numerals.
pub proof fn numerals_tell_numbers_apart(n: nat, m: nat, base: nat)
    requires
        2 <= base <= 16,
        numeral(n, base) == numeral(m, base),
    ensures
        n == m,
{
    numeral_reads_back(n, base);
    numeral_reads_back(m, base);
}

/// A signed numeral is the numeral of the magnitude, behind a minus sign exactly
/// where the number is negative.
pub proof fn signed_decimal_reads_back(n: int)
    ensures
        n >= 0 ==> signed_decimal(n)[0] != '-' && value_of(signed_decimal(n), 10) == n,
        n < 0 ==> signed_decimal(n)[0] == '-' && -value_of(signed_decimal(n).skip(1), 10) == n,
{
    if n < 0 {
        numeral_reads_back((-n) as nat, 10);
        assert(signed_decimal(n).skip(1) =~= decimal((-n) as nat));
    } else {
        numeral_reads_back(n as nat, 10);
        assert(is_digit(signed_decimal(n)[0], 10));
    }
}

/// The lowercase digit for `d`.
pub fn digit_char(d: u8) -> (c: char)
    requires
        d < 16,
    ensures
        c == digit(d as int),
{
    if d < 10 {
        ('0' as u8 + d) as char
    } else {
        ('a' as u8 + (d - 10)) as char
    }
}

/// Append `n` in the given base.
pub fn push_numeral(s: &mut String, n: u64, base: u64)
    requires
        2 <= base <= 16,
    ensures
        final(s)@ == old(s)@ + numeral(n as nat, base as nat),
    decreases n,
{
    if n >= base {
        assert(n / base < n) by (nonlinear_arith)
            requires
                n >= base,
                base >= 2,
        ;
        push_numeral(s, n / base, base);
    }
    let d: u64 = n % base;
    assert(d < base && (n < base ==> d == n)) by (nonlinear_arith)
        requires
            d == n % base,
            base >= 2,
    ;
    s.push(digit_char(d as u8));
}

/// Append `n` in decimal, with its sign.
pub fn push_signed_decimal(s: &mut String, n: i64)
    ensures
        final(s)@ == old(s)@ + signed_decimal(n as int),
{
    if n < 0 {
        s.push('-');
        let magnitude: u64 = (-(n as i128)) as u64;
        push_numeral(s, magnitude, 10);
    } else {
        push_numeral(s, n as u64, 10);
    }
}

/// `s` without a leading `0x`, if it has one.
pub open spec fn without_0x(s: Seq<char>) -> Seq<char> {
    if s.len() >= 2 && s[0] == '0' && s[1] == 'x' {
        s.subrange(2, s.len() as int)
    } else {
        s
    }
}

/// Drop a leading `0x`, if there is one.
pub fn strip_0x(s: &str) -> (r: &str)
    ensures
        r@ == without_0x(s@),
{
    let len: usize = s.unicode_len();
    if len >= 2 && s.get_char(0) == '0' && s.get_char(1) == 'x' {
        s.substring_char(2, len)
    } else {
        s
    }
}

/// The characters of `s`, in order.
pub fn chars_of(s: &str) -> (v: Vec<char>)
    ensures
        v@ == s@,
{
    let mut v: Vec<char> = Vec::new();
    for c in it: s.chars()
        invariant
            it.seq() == s@,
            v@ == s@.take(it.index() as int),
    {
        v.push(c);
    }
    assert(v@ =~= s@);
    v
}

/// The text that `String::from_utf8_lossy` makes of a byte sequence.
pub uninterp spec fn utf8_lossy(bytes: Seq<u8>) -> Seq<char>;

/// Whether nothing is lost of the bytes, as long as they are valid UTF-8.
pub open spec fn reads_exactly(bytes: Seq<u8>) -> bool {
    vstd::utf8::valid_utf8(bytes) ==> utf8_lossy(bytes) == vstd::utf8::decode_utf8(bytes)
}

/// Calls `String::from_utf8_lossy`: the result is fixed by the bytes, and valid
/// UTF-8 is decoded as it stands. How an invalid run is replaced is left
/// unsaid.
#[verifier::external_body]
pub(crate) fn from_utf8_lossy(bytes: &[u8]) -> (s: String)
    ensures
        s@ == utf8_lossy(bytes@),
        vstd::utf8::valid_utf8(bytes@) ==> s@ == vstd::utf8::decode_utf8(bytes@),
{
    String::from_utf8_lossy(bytes).into_owned()
}

/// `core::fmt::Formatter`, where diagnostics are written to.
#[verifier::external_type_specification]
#[verifier::external_body]
pub struct ExFormatter<'a>(core::fmt::Formatter<'a>);

/// `core::fmt::Error`, which says that they could not be.
#[verifier::external_type_specification]
#[verifier::external_body]
pub struct ExFmtError(core::fmt::Error);

/// What the buffer behind a formatter holds.
pub uninterp spec fn written(f: core::fmt::Formatter<'_>) -> Seq<char>;

/// `Formatter::write_str` writes the text to the buffer behind the formatter, as
/// it stands. Whether the buffer takes it, and what it holds where it does not, is
/// left unsaid.
pub assume_specification<'a>[ core::fmt::Formatter::<'a>::write_str ](
    f: &mut core::fmt::Formatter<'a>,
    data: &str,
) -> (r: Result<(), core::fmt::Error>)
    ensures
        r is Ok ==> written(*final(f)) == written(*old(f)) + data@,
;

/// One leading `0x` is dropped, and nothing else is.
pub proof fn one_prefix_is_dropped(s: Seq<char>)
    ensures
        without_0x(seq!['0', 'x'] + s) == s,
        !seq!['0', 'x'].is_prefix_of(s) ==> without_0x(s) == s,
{
    let t = seq!['0', 'x'] + s;
    assert(t.subrange(2, t.len() as int) =~= s);
    if s.len() >= 2 && s[0] == '0' && s[1] == 'x' {
        assert(seq!['0', 'x'] =~= s.subrange(0, 2));
    }
}

} // verus!
