//! Percentages as fixed-point values.
//!
//! Coverage rates arrive as decimal numerals in `[0, 1]` and are reported as
//! percentages. A [`Percent`] holds a whole number of millionths of a percent,
//! so a rate numeral with up to eight fractional digits scales to a percentage
//! exactly; further digits are truncated. A numeral that is not a plain
//! decimal (digits with at most one point) degrades to zero rather than
//! failing, since coverage data is advisory.

use vstd::prelude::*;

use crate::text::{
    all_digits, check_digit, dec_value, digit_val, first_at, lemma_dec_value_nonneg,
    lemma_first_at_is,
};

verus! {

/// Millionths of a percent in one percent.
pub const MICROS_PER_PERCENT: u64 = 1_000_000;

/// Scale from a coverage rate (a fraction of 1) to millionths of a percent.
pub const MICROS_PER_UNIT_RATE: u64 = 100_000_000;

/// Cap on the whole part of a rate numeral; larger numerals saturate.
pub const RATE_WHOLE_CAP: u64 = 10_000_000_000;

/// The saturated rate value: `RATE_WHOLE_CAP` units, in millionths of a percent.
pub const RATE_MICROS_CAP: u64 = 1_000_000_000_000_000_000;

/// A percentage, held as a whole number of millionths of a percent.
#[derive(Debug, Clone, Copy, PartialEq, Eq, Structural)]
pub struct Percent {
    pub micros: u64,
}

impl Percent {
    /// The zero percentage.
    pub fn zero() -> (r: Percent)
        ensures
            r.micros == 0,
    {
        Percent { micros: 0 }
    }

    /// One hundred percent.
    pub fn full() -> (r: Percent)
        ensures
            r.micros == MICROS_PER_UNIT_RATE,
    {
        Percent { micros: 100_000_000 }
    }

    /// A whole number of percent.
    pub fn from_whole(p: u64) -> (r: Percent)
        requires
            p * MICROS_PER_PERCENT <= u64::MAX,
        ensures
            r.micros == p * MICROS_PER_PERCENT,
    {
        Percent { micros: p * 1_000_000 }
    }

    /// An exact count of millionths of a percent.
    pub fn from_micros(m: u64) -> (r: Percent)
        ensures
            r.micros == m,
    {
        Percent { micros: m }
    }

    /// Strictly below the other percentage.
    pub fn below(&self, other: &Percent) -> (r: bool)
        ensures
            r == (self.micros < other.micros),
    {
        self.micros < other.micros
    }
}

/// Powers of ten.
pub open spec fn pow10(n: int) -> int
    decreases n,
{
    if n <= 0 {
        1
    } else {
        10 * pow10(n - 1)
    }
}

/// Position of the decimal point in a numeral, or its length.
pub open spec fn point_pos(s: Seq<char>) -> int {
    first_at(s, |c: char| c == '.', 0)
}

/// The digits before the point.
pub open spec fn whole_digits(s: Seq<char>) -> Seq<char> {
    s.take(point_pos(s))
}

/// The digits after the point, empty when there is no point.
pub open spec fn frac_digits(s: Seq<char>) -> Seq<char> {
    if point_pos(s) < s.len() {
        s.skip(point_pos(s) + 1)
    } else {
        Seq::empty()
    }
}

/// A plain decimal numeral: nonempty, digits with at most one point, and at
/// least one digit.
pub open spec fn is_plain_decimal(s: Seq<char>) -> bool {
    &&& s.len() > 0
    &&& all_digits(whole_digits(s))
    &&& all_digits(frac_digits(s))
    &&& whole_digits(s).len() + frac_digits(s).len() > 0
}

/// The value of the first eight fractional digits, scaled so that eight
/// digits fill the place values of one unit rate.
pub open spec fn frac_micros(f: Seq<char>) -> int {
    let k = if f.len() <= 8 {
        f.len() as int
    } else {
        8
    };
    dec_value(f.take(k)) * pow10(8 - k)
}

/// A rate numeral scaled to millionths of a percent: the numeral's value
/// times `MICROS_PER_UNIT_RATE`, truncated past the eighth fractional digit,
/// saturated at `RATE_MICROS_CAP`, and zero for anything that is not a plain
/// decimal numeral.
pub open spec fn rate_micros(s: Seq<char>) -> int {
    if !is_plain_decimal(s) {
        0
    } else if dec_value(whole_digits(s)) >= RATE_WHOLE_CAP {
        RATE_MICROS_CAP as int
    } else {
        dec_value(whole_digits(s)) * (MICROS_PER_UNIT_RATE as int) + frac_micros(frac_digits(s))
    }
}

/// The scaling is exact: a plain decimal numeral with whole part `w`, at most
/// eight fractional digits `f`, and a value below the cap denotes the rate
/// `(w·10^k + f) / 10^k` with `k` fractional digits, and its percentage in
/// millionths is that rate times `10^8` — without any rounding.
pub proof fn lemma_rate_micros_exact(s: Seq<char>)
    requires
        is_plain_decimal(s),
        frac_digits(s).len() <= 8,
        dec_value(whole_digits(s)) < RATE_WHOLE_CAP,
    ensures
        rate_micros(s) * pow10(frac_digits(s).len() as int) == (dec_value(whole_digits(s)) * pow10(
            frac_digits(s).len() as int,
        ) + dec_value(frac_digits(s))) * (MICROS_PER_UNIT_RATE as int),
{
    let w = dec_value(whole_digits(s));
    let f = frac_digits(s);
    let k = f.len() as int;
    assert(f.take(k) =~= f);
    assert(rate_micros(s) == w * (MICROS_PER_UNIT_RATE as int) + dec_value(f) * pow10(8 - k));
    lemma_pow10_adds(k, 8 - k);
    lemma_pow10_8();
    assert((w * (MICROS_PER_UNIT_RATE as int) + dec_value(f) * pow10(8 - k)) * pow10(k) == (w
        * pow10(k) + dec_value(f)) * (MICROS_PER_UNIT_RATE as int)) by {
        lemma_mul_rearrange(w, dec_value(f), pow10(k), pow10(8 - k));
    }
}

proof fn lemma_pow10_8()
    ensures
        pow10(8) == 100_000_000,
{
    reveal_with_fuel(pow10, 9);
}

proof fn lemma_pow10_adds(a: int, b: int)
    requires
        a >= 0,
        b >= 0,
    ensures
        pow10(a) * pow10(b) == pow10(a + b),
    decreases a,
{
    if a > 0 {
        lemma_pow10_adds(a - 1, b);
        assert(pow10(a) * pow10(b) == 10 * (pow10(a - 1) * pow10(b)))
            by (nonlinear_arith)
            requires
                pow10(a) == 10 * pow10(a - 1),
        ;
    }
}

proof fn lemma_mul_rearrange(w: int, fv: int, pk: int, pr: int)
    ensures
        (w * (pk * pr) + fv * pr) * pk == (w * pk + fv) * (pk * pr),
{
    assert((w * (pk * pr) + fv * pr) * pk == (w * pk + fv) * (pk * pr)) by (nonlinear_arith);
}

/// Parses a rate numeral into millionths of a percent, exactly as
/// `rate_micros` states.
pub fn parse_rate_micros(s: &Vec<char>) -> (r: u64)
    ensures
        r == rate_micros(s@),
{
    let ghost pt = |c: char| c == '.';
    if s.len() == 0 {
        return 0;
    }
    // locate the decimal point
    let mut p: usize = 0;
    while p < s.len() && s[p] != '.'
        invariant
            p <= s.len(),
            forall|k: int| 0 <= k < p ==> #[trigger] s@[k] != '.',
        decreases s.len() - p,
    {
        p = p + 1;
    }
    proof {
        lemma_first_at_is(s@, pt, 0, p as int);
    }
    let ghost wd = whole_digits(s@);
    let ghost fd = frac_digits(s@);
    // whole part
    let mut w: u64 = 0;
    let mut i: usize = 0;
    let mut saturated = false;
    while i < p
        invariant
            i <= p <= s.len(),
            wd == s@.take(p as int),
            wd == whole_digits(s@),
            all_digits(wd.take(i as int)),
            !saturated ==> w == dec_value(wd.take(i as int)) && w < RATE_WHOLE_CAP,
            saturated ==> dec_value(wd.take(i as int)) >= RATE_WHOLE_CAP,
        decreases p - i,
    {
        let c = s[i];
        if !check_digit(c) {
            proof {
                assert(wd[i as int] == s@[i as int]);
                assert(!all_digits(wd));
            }
            return 0;
        }
        proof {
            assert(wd.take(i + 1 as int).drop_last() =~= wd.take(i as int));
            assert(wd.take(i + 1 as int).last() == s@[i as int]);
        }
        if !saturated {
            let d: u32 = c as u32;
            let next: u64 = w * 10 + (d - 48) as u64;
            if next >= RATE_WHOLE_CAP {
                saturated = true;
                proof {
                    assert(dec_value(wd.take(i + 1 as int)) == next);
                }
            } else {
                w = next;
            }
        } else {
            proof {
                assert(all_digits(wd.take(i + 1 as int)));
                lemma_dec_value_prefix_step(wd, i as int);
            }
        }
        i = i + 1;
    }
    proof {
        assert(wd.take(p as int) =~= wd);
    }
    // fractional part
    let fstart: usize = if p < s.len() {
        p + 1
    } else {
        p
    };
    proof {
        if p < s@.len() {
            assert(fd =~= s@.skip(p + 1));
        } else {
            assert(fd =~= Seq::<char>::empty());
        }
    }
    let mut f: u64 = 0;
    let mut fl: usize = 0;
    let mut j: usize = fstart;
    while j < s.len()
        invariant
            fstart <= j <= s.len(),
            fd == frac_digits(s@),
            p < s@.len() ==> fstart == p + 1 && fd == s@.skip(p + 1),
            p >= s@.len() ==> fstart == p && fd == Seq::<char>::empty() && j <= p,
            fl == j - fstart,
            all_digits(fd.take(fl as int)),
            fl <= 8 ==> f == dec_value(fd.take(fl as int)),
            fl >= 8 ==> f == dec_value(fd.take(8)),
            f < 100_000_000,
        decreases s.len() - j,
    {
        let c = s[j];
        if !check_digit(c) {
            proof {
                assert(fd[fl as int] == s@[j as int]);
                assert(!all_digits(fd));
            }
            return 0;
        }
        proof {
            assert(fd.take(fl + 1 as int).drop_last() =~= fd.take(fl as int));
            assert(fd.take(fl + 1 as int).last() == s@[j as int]);
        }
        if fl < 8 {
            let d: u32 = c as u32;
            f = f * 10 + (d - 48) as u64;
            proof {
                lemma_dec_value_nonneg(fd.take(fl as int));
                assert(f == dec_value(fd.take(fl + 1 as int)));
                assert(f < 100_000_000) by {
                    lemma_dec_small(fd, fl + 1 as int);
                }
            }
        }
        j = j + 1;
        fl = fl + 1;
    }
    proof {
        assert(fd.take(fd.len() as int) =~= fd);
        assert(fd.len() == fl);
    }
    if p == 0 && fl == 0 {
        // a single point with no digits
        proof {
            assert(wd.len() + fd.len() == 0);
        }
        return 0;
    }
    proof {
        assert(is_plain_decimal(s@));
    }
    if saturated {
        return RATE_MICROS_CAP;
    }
    // pad the fractional value to eight places
    let scale: u64 = pow10_exec(if fl <= 8 {
        8 - (fl as u64)
    } else {
        0
    });
    proof {
        if fl <= 8 {
            assert(frac_micros(fd) == dec_value(fd.take(fl as int)) * pow10(8 - fl));
            lemma_dec_small(fd, fl as int);
        } else {
            assert(frac_micros(fd) == dec_value(fd.take(8)) * pow10(0));
            lemma_dec_small(fd, 8);
        }
        lemma_dec_value_nonneg(fd.take(if fl <= 8 { fl as int } else { 8 }));
        assert(f * scale < 100_000_000) by {
            lemma_frac_scale_bound(
                f as int,
                scale as int,
                if fl <= 8 {
                    8 - fl as int
                } else {
                    0
                },
            );
        }
        assert(w * 100_000_000 + f * scale < 1_000_000_000_000_000_000) by (nonlinear_arith)
            requires
                w < 10_000_000_000u64,
                f * scale < 100_000_000,
                0 <= f,
                0 <= scale,
        ;
    }
    w * 100_000_000 + f * scale
}

proof fn lemma_dec_value_prefix_step(s: Seq<char>, i: int)
    requires
        0 <= i < s.len(),
        all_digits(s.take(i + 1)),
    ensures
        dec_value(s.take(i + 1)) >= dec_value(s.take(i)),
{
    assert(s.take(i + 1).drop_last() =~= s.take(i));
    assert(all_digits(s.take(i)));
    lemma_dec_value_nonneg(s.take(i));
    assert(dec_value(s.take(i + 1)) == dec_value(s.take(i)) * 10 + digit_val(s.take(i + 1).last()));
}

/// A string of at most eight digits has value below `10^8`.
proof fn lemma_dec_small(s: Seq<char>, k: int)
    requires
        0 <= k <= 8,
        k <= s.len(),
        all_digits(s.take(k)),
    ensures
        dec_value(s.take(k)) < pow10(k),
        dec_value(s.take(k)) < 100_000_000,
    decreases k,
{
    if k == 0 {
        assert(s.take(0) =~= Seq::<char>::empty());
    } else {
        assert(s.take(k).drop_last() =~= s.take(k - 1));
        assert(all_digits(s.take(k - 1)));
        lemma_dec_small(s, k - 1);
        lemma_dec_value_nonneg(s.take(k - 1));
        let a = dec_value(s.take(k - 1));
        let d = digit_val(s.take(k).last());
        assert(a * 10 + d < pow10(k)) by (nonlinear_arith)
            requires
                a < pow10(k - 1),
                0 <= a,
                0 <= d <= 9,
                pow10(k) == 10 * pow10(k - 1),
        ;
        assert(pow10(k) <= pow10(8)) by {
            lemma_pow10_mono(k, 8);
        }
        lemma_pow10_8();
    }
}

proof fn lemma_pow10_mono(a: int, b: int)
    requires
        0 <= a <= b,
    ensures
        pow10(a) <= pow10(b),
        pow10(a) >= 1,
    decreases b,
{
    if a < b {
        lemma_pow10_mono(a, b - 1);
        assert(pow10(b) == 10 * pow10(b - 1));
        assert(pow10(b - 1) <= 10 * pow10(b - 1)) by (nonlinear_arith)
            requires
                pow10(b - 1) >= 1,
        ;
    } else {
        if a > 0 {
            lemma_pow10_mono(a - 1, a - 1);
        }
    }
}

proof fn lemma_frac_scale_bound(f: int, scale: int, e: int)
    requires
        0 <= e <= 8,
        scale == pow10(e),
        0 <= f,
        f < pow10(8 - e),
    ensures
        f * scale < 100_000_000,
{
    lemma_pow10_adds(8 - e, e);
    lemma_pow10_8();
    lemma_pow10_mono(e, e);
    assert(f * scale < pow10(8 - e) * scale) by (nonlinear_arith)
        requires
            f < pow10(8 - e),
            scale >= 1,
    ;
}

/// Ten to a small power, executably.
fn pow10_exec(e: u64) -> (r: u64)
    requires
        e <= 8,
    ensures
        r == pow10(e as int),
        r >= 1,
{
    let mut r: u64 = 1;
    let mut k: u64 = 0;
    while k < e
        invariant
            k <= e <= 8,
            r == pow10(k as int),
            r <= 100_000_000,
        decreases e - k,
    {
        proof {
            lemma_pow10_mono(k as int, 8);
            lemma_pow10_8();
            lemma_pow10_mono(k + 1 as int, 8);
        }
        r = r * 10;
        k = k + 1;
    }
    proof {
        lemma_pow10_mono(e as int, 8);
    }
    r
}

/// Every rate value fits the saturation cap.
pub proof fn lemma_rate_micros_bounds(s: Seq<char>)
    ensures
        0 <= rate_micros(s) <= RATE_MICROS_CAP,
{
    if is_plain_decimal(s) && dec_value(whole_digits(s)) < RATE_WHOLE_CAP {
        let w = dec_value(whole_digits(s));
        lemma_dec_value_nonneg(whole_digits(s));
        let f = frac_digits(s);
        let k = if f.len() <= 8 {
            f.len() as int
        } else {
            8
        };
        assert(all_digits(f.take(k)));
        lemma_dec_small(f, k);
        lemma_dec_value_nonneg(f.take(k));
        lemma_pow10_mono(8 - k, 8 - k);
        lemma_pow10_mono(k, 8);
        lemma_pow10_8();
        let dv = dec_value(f.take(k));
        let pw = pow10(8 - k);
        assert(dv * pw < 100_000_000) by {
            lemma_frac_scale_bound(dv, pw, 8 - k);
        }
        assert(0 <= dv * pw) by (nonlinear_arith)
            requires
                0 <= dv,
                0 <= pw,
        ;
        assert(w * (MICROS_PER_UNIT_RATE as int) <= (RATE_WHOLE_CAP - 1) * 100_000_000)
            by (nonlinear_arith)
            requires
                0 <= w < RATE_WHOLE_CAP,
                MICROS_PER_UNIT_RATE == 100_000_000u64,
        ;
    }
}

} // verus!
