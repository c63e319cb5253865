//! Points in time, held as the bits of an IEEE 754 double.
//!
//! A timestamp is a count of seconds. It is carried by its bit pattern, which
//! orders and compares as the number does, so nothing here computes with
//! floating-point numbers.
use vstd::prelude::*;
use crate::number::push_two_digits;

verus! {

/// The bit patterns from here on carry a minus sign.
pub const SIGN: u64 = 0x8000_0000_0000_0000;

/// The pattern of positive infinity; greater magnitudes are not numbers.
pub const INFINITY: u64 = 0x7ff0_0000_0000_0000;

/// The implicit leading bit of a significand.
pub const LEADING: u64 = 0x0010_0000_0000_0000;

/// A number of seconds as the bits of a double.
#[derive(Debug, Clone, Copy, PartialEq, Eq, Structural)]
pub struct Timestamp {
    pub bits: u64,
}

impl Timestamp {
    /// The bits without the sign.
    pub open spec fn magnitude(self) -> nat {
        if self.bits < SIGN {
            self.bits as nat
        } else {
            (self.bits - SIGN) as nat
        }
    }

    pub open spec fn is_negative(self) -> bool {
        self.bits >= SIGN
    }

    /// Not a number.
    pub open spec fn is_nan(self) -> bool {
        self.magnitude() > INFINITY
    }

    /// An integer that orders numbers as their values do. Both zeros have rank 0.
    pub open spec fn rank(self) -> int {
        if self.is_negative() {
            -(self.magnitude() as int)
        } else {
            self.magnitude() as int
        }
    }

    /// The number compares greater than zero.
    pub open spec fn positive(self) -> bool {
        !self.is_nan() && self.rank() > 0
    }

    /// The number compares equal to zero.
    pub open spec fn zero(self) -> bool {
        self.rank() == 0
    }

    /// The first number compares less than the second.
    pub open spec fn less(self, other: Timestamp) -> bool {
        !self.is_nan() && !other.is_nan() && self.rank() < other.rank()
    }

    /// The place in the total order of doubles: negative zero right below zero,
    /// and what is not a number at the two ends.
    pub open spec fn place(self) -> int {
        if self.is_negative() {
            -(self.magnitude() as int) - 1
        } else {
            self.magnitude() as int
        }
    }

    /// The magnitude of the number, rounded down to a whole number.
    pub open spec fn whole(self) -> nat {
        let biased = self.magnitude() / (LEADING as nat);
        let fraction = self.magnitude() % (LEADING as nat);
        if biased == 0 {
            fraction / vstd::arithmetic::power2::pow2(1074)
        } else if biased < 1075 {
            (LEADING + fraction) as nat / vstd::arithmetic::power2::pow2((1075 - biased) as nat)
        } else {
            (LEADING + fraction) as nat * vstd::arithmetic::power2::pow2((biased - 1075) as nat)
        }
    }

    /// The number rounded towards zero, within the range of `i64`; 0 for what is
    /// not a number.
    pub open spec fn whole_seconds(self) -> int {
        if self.is_nan() {
            0
        } else if self.is_negative() {
            if self.whole() > i64::MAX {
                i64::MIN as int
            } else {
                -(self.whole() as int)
            }
        } else {
            if self.whole() > i64::MAX {
                i64::MAX as int
            } else {
                self.whole() as int
            }
        }
    }

    /// The number zero.
    pub fn origin() -> (t: Timestamp)
        ensures
            t.bits == 0,
            t.zero(),
            !t.is_nan(),
    {
        Timestamp { bits: 0 }
    }

    /// Whether the number is greater than zero.
    pub fn is_positive(&self) -> (r: bool)
        ensures
            r == self.positive(),
    {
        0 < self.bits && self.bits <= INFINITY
    }

    /// Whether the number is zero.
    pub fn is_zero(&self) -> (r: bool)
        ensures
            r == self.zero(),
    {
        self.bits == 0 || self.bits == SIGN
    }

    fn size(&self) -> (m: u64)
        ensures
            m == self.magnitude(),
    {
        if self.bits < SIGN {
            self.bits
        } else {
            self.bits - SIGN
        }
    }

    /// Whether the number is less than another.
    pub fn is_less(&self, other: &Timestamp) -> (r: bool)
        ensures
            r == self.less(*other),
    {
        let (a, b) = (self.size(), other.size());
        if a > INFINITY || b > INFINITY {
            false
        } else if self.bits < SIGN {
            other.bits < SIGN && a < b
        } else if other.bits < SIGN {
            a > 0 || b > 0
        } else {
            a > b
        }
    }

    /// Whether the number stands below another in the total order of doubles.
    pub fn is_below(&self, other: &Timestamp) -> (r: bool)
        ensures
            r == (self.place() < other.place()),
    {
        if self.bits < SIGN {
            other.bits < SIGN && self.bits < other.bits
        } else {
            other.bits < SIGN || self.bits > other.bits
        }
    }

    fn whole_part(&self) -> (w: u64)
        requires
            !self.is_nan(),
        ensures
            w == (if self.whole() > i64::MAX {
                SIGN as nat
            } else {
                self.whole()
            }),
    {
        let m = self.size();
        let biased = m / LEADING;
        let fraction = m % LEADING;
        proof {
            vstd::arithmetic::power2::lemma2_to64();
            vstd::arithmetic::power2::lemma2_to64_rest();
        }
        if biased == 0 {
            proof {
                vstd::arithmetic::power2::lemma_pow2_strictly_increases(52, 1074);
                assert(fraction as nat / vstd::arithmetic::power2::pow2(1074) == 0) by {
                    vstd::arithmetic::div_mod::lemma_basic_div(
                        fraction as int,
                        vstd::arithmetic::power2::pow2(1074) as int,
                    );
                }
            }
            0
        } else if biased < 1023 {
            proof {
                let k = (1075 - biased) as nat;
                vstd::arithmetic::power2::lemma_pow2_strictly_increases(52, k);
                if k > 53 {
                    vstd::arithmetic::power2::lemma_pow2_strictly_increases(53, k);
                }
                vstd::arithmetic::div_mod::lemma_basic_div(
                    LEADING + fraction,
                    vstd::arithmetic::power2::pow2(k) as int,
                );
            }
            0
        } else if biased < 1075 {
            let k: u64 = 1075 - biased;
            let x: u64 = LEADING + fraction;
            proof {
                vstd::bits::lemma_u64_shr_is_div(x, k);
                vstd::arithmetic::power2::lemma_pow2_pos(k as nat);
                vstd::arithmetic::div_mod::lemma_div_is_ordered_by_denominator(
                    x as int,
                    1,
                    vstd::arithmetic::power2::pow2(k as nat) as int,
                );
            }
            x >> k
        } else if biased < 1086 {
            let k: u64 = biased - 1075;
            let x: u64 = LEADING + fraction;
            proof {
                let p = vstd::arithmetic::power2::pow2(k as nat);
                if k < 10 {
                    vstd::arithmetic::power2::lemma_pow2_strictly_increases(k as nat, 10);
                }
                vstd::arithmetic::mul::lemma_mul_upper_bound(
                    x as int,
                    0x1f_ffff_ffff_ffff,
                    p as int,
                    1024,
                );
                vstd::bits::lemma_u64_shl_is_mul(x, k);
            }
            x << k
        } else {
            proof {
                let k = (biased - 1075) as nat;
                let p = vstd::arithmetic::power2::pow2(k);
                if k > 11 {
                    vstd::arithmetic::power2::lemma_pow2_strictly_increases(11, k);
                }
                let x = LEADING + fraction;
                vstd::arithmetic::mul::lemma_mul_inequality(2048, p as int, x);
                vstd::arithmetic::mul::lemma_mul_is_commutative(x, p as int);
            }
            SIGN
        }
    }

    /// The number rounded towards zero, within the range of `i64`.
    pub fn seconds(&self) -> (s: i64)
        ensures
            s == self.whole_seconds(),
    {
        if self.size() > INFINITY {
            return 0;
        }
        let w = self.whole_part();
        if self.bits < SIGN {
            if w < SIGN {
                w as i64
            } else {
                i64::MAX
            }
        } else {
            if w < SIGN {
                -(w as i64)
            } else {
                i64::MIN
            }
        }
    }
}

/// The time of day of a number of seconds since midnight, UTC.
pub open spec fn clock(s: int) -> Seq<char> {
    let t = s % 86_400;
    crate::number::two_digits((t / 3600) as nat) + seq![':'] + crate::number::two_digits(
        (t % 3600 / 60) as nat,
    ) + seq![':'] + crate::number::two_digits((t % 60) as nat) + " UTC"@
}

/// The time of day of a timestamp, or `n/a` for one that is not after the epoch.
pub open spec fn time_text(ts: Timestamp) -> Seq<char> {
    if !ts.is_nan() && ts.rank() <= 0 {
        "n/a"@
    } else {
        clock(ts.whole_seconds())
    }
}

/// Formats an epoch timestamp as a UTC time of day.
pub fn fmt_time(ts: Timestamp) -> (out: String)
    ensures
        out@ == time_text(ts),
{
    if ts.size() <= INFINITY && !ts.is_positive() {
        return "n/a".to_owned();
    }
    let s = ts.seconds();
    assert(s >= 0) by {
        assert(ts.is_nan() || !ts.is_negative());
    }
    let t: u64 = s as u64 % 86_400;
    let mut out = String::new();
    push_two_digits(&mut out, t / 3600);
    out.push(':');
    push_two_digits(&mut out, t % 3600 / 60);
    out.push(':');
    push_two_digits(&mut out, t % 60);
    out.append(" UTC");
    assert(out@ =~= clock(s as int));
    out
}

} // verus!
