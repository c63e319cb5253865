//! Whole numbers written in decimal.
use vstd::prelude::*;
use vstd::slice::slice_subrange;

verus! {

/// The character of a decimal digit.
pub open spec fn digit_char(d: nat) -> char
    recommends
        d < 10,
{
    ('0' as nat + d) as char
}

/// The decimal numeral of `n`, without leading zeros.
pub open spec fn decimal(n: nat) -> Seq<char>
    decreases n,
{
    if n < 10 {
        seq![digit_char(n)]
    } else {
        decimal(n / 10).push(digit_char(n % 10))
    }
}

fn digit(d: u64) -> (c: char)
    requires
        d < 10,
    ensures
        c == digit_char(d as nat),
{
    (48u8 + d as u8) as char
}

/// Writes a number in decimal.
pub fn to_decimal(n: u64) -> (out: String)
    ensures
        out@ == decimal(n as nat),
    decreases n,
{
    if n < 10 {
        let mut out = String::new();
        out.push(digit(n));
        assert(out@ =~= seq![digit_char(n as nat)]);
        out
    } else {
        let mut out = to_decimal(n / 10);
        out.push(digit(n % 10));
        out
    }
}

/// The two-digit decimal numeral of a number below a hundred.
pub open spec fn two_digits(n: nat) -> Seq<char> {
    seq![digit_char(n / 10), digit_char(n % 10)]
}

/// Appends the two-digit decimal numeral of a number below a hundred.
pub fn push_two_digits(out: &mut String, n: u64)
    requires
        n < 100,
    ensures
        final(out)@ == old(out)@ + two_digits(n as nat),
{
    out.push(digit(n / 10));
    out.push(digit(n % 10));
    assert(out@ =~= old(out)@ + two_digits(n as nat));
}

/// Whether a character is one of `0` to `9`.
pub open spec fn is_digit(c: char) -> bool {
    '0' <= c <= '9'
}

/// The value of a numeral.
pub open spec fn numeral_value(s: Seq<char>) -> nat
    decreases s.len(),
{
    if s.len() == 0 {
        0
    } else {
        numeral_value(s.drop_last()) * 10 + (s.last() as nat - '0' as nat) as nat
    }
}

/// The digits of a numeral that may carry a plus sign.
pub open spec fn unsigned_part(s: Seq<char>) -> Seq<char> {
    if s.len() > 0 && s[0] == '+' {
        s.skip(1)
    } else {
        s
    }
}

/// The number that `s` spells: an optional plus sign and at least one digit, with
/// a value of at most `max`.
pub open spec fn parsed(s: Seq<char>, max: nat) -> Option<nat> {
    let d = unsigned_part(s);
    if d.len() > 0 && (forall|i: int| 0 <= i < d.len() ==> is_digit(#[trigger] d[i]))
        && numeral_value(d) <= max {
        Some(numeral_value(d))
    } else {
        None
    }
}

/// Reads a number of at most `max`.
pub fn parse_at_most(s: &[char], max: u64) -> (r: Option<u64>)
    ensures
        match r {
            Some(v) => parsed(s@, max as nat) == Some(v as nat),
            None => parsed(s@, max as nat) is None,
        },
{
    let n = s.len();
    let start: usize = if n > 0 && s[0] == '+' {
        1
    } else {
        0
    };
    let d = slice_subrange(s, start, n);
    assert(d@ =~= unsigned_part(s@));
    let len = d.len();
    if len == 0 {
        return None;
    }
    let mut v: u64 = 0;
    let mut big = false;
    assert(d@.take(0) =~= Seq::<char>::empty());
    for i in 0..len
        invariant
            len == d@.len(),
            d@ == unsigned_part(s@),
            forall|k: int| 0 <= k < i ==> is_digit(#[trigger] d@[k]),
            !big ==> v == numeral_value(d@.take(i as int)) && v <= max,
            big ==> numeral_value(d@.take(i as int)) > max,
    {
        let c = d[i];
        if c < '0' || c > '9' {
            assert(!is_digit(d@[i as int]));
            return None;
        }
        assert(is_digit(d@[i as int]));
        assert(d@.take(i + 1).drop_last() =~= d@.take(i as int));
        assert(d@.take(i + 1).last() == c);
        let k: u64 = c as u64 - 48;
        assert(numeral_value(d@.take(i + 1)) == numeral_value(d@.take(i as int)) * 10 + k);
        if !big {
            let wide: u128 = v as u128 * 10 + k as u128;
            if wide > max as u128 {
                big = true;
            } else {
                v = wide as u64;
            }
        }
    }
    assert(d@.take(len as int) =~= d@);
    if big {
        None
    } else {
        Some(v)
    }
}

} // verus!
