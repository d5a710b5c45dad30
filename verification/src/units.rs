//! Quantities without rounding error. Times are fixed-point milliseconds held
//! as whole nanoseconds; shares are exact fractions.
use crate::text;
use vstd::prelude::*;

verus! {

/// One millisecond in the fixed-point representation.
pub const ONE_MS: u64 = 1_000_000;

/// The last point in time of the fixed-point representation.
pub const LAST_TIME: i64 = 9_223_372_036_854_775_807;

/// A point in time in fixed-point milliseconds, or a value that is no number
/// in that range.
#[derive(Debug, Clone, Copy, PartialEq, Eq, Structural)]
pub enum TimeValue {
    Finite(i64),
    NotFinite,
}

/// The number, or the largest that fits.
pub open spec fn capped(n: int) -> u64 {
    if n > u64::MAX {
        u64::MAX
    } else {
        n as u64
    }
}

/// The count, or the largest that fits.
pub open spec fn capped_count(n: int) -> usize {
    if n > usize::MAX {
        usize::MAX
    } else {
        n as usize
    }
}

/// The sum of two amounts, or the largest that fits.
pub fn capped_add(a: u64, b: u64) -> (r: u64)
    ensures
        r == capped(a + b),
{
    if a > u64::MAX - b {
        u64::MAX
    } else {
        a + b
    }
}

/// The sum of two counts, or the largest that fits.
pub fn capped_count_add(a: usize, b: usize) -> (r: usize)
    ensures
        r == capped_count(a + b),
{
    if a > usize::MAX - b {
        usize::MAX
    } else {
        a + b
    }
}

/// The product of an amount and a weight, or the largest that fits.
pub fn capped_mul(a: u64, b: u32) -> (r: u64)
    ensures
        r == capped(a * b),
{
    assert(a * b <= 0xffff_ffff_ffff_ffff * 0xffff_ffff) by (nonlinear_arith)
        requires
            a <= 0xffff_ffff_ffff_ffff,
            b <= 0xffff_ffff,
    ;
    assert(0 <= a * b) by (nonlinear_arith);
    let product: u128 = a as u128 * b as u128;
    if product > u64::MAX as u128 {
        u64::MAX
    } else {
        product as u64
    }
}

/// A share of a whole. A share of nothing counts as zero.
#[derive(Debug, Clone, Copy, PartialEq, Eq, Structural)]
pub struct Ratio {
    pub part: u64,
    pub whole: u64,
}

impl Ratio {
    /// Whether the share in percent reaches a limit given in millionths of a percent.
    pub open spec fn reaches(self, limit: int) -> bool {
        if self.whole == 0 {
            0 >= limit
        } else {
            self.part * 100_000_000 >= limit * self.whole
        }
    }

    /// Whether the share in percent reaches a limit given in millionths of a percent.
    pub fn percent_reaches(&self, limit: i64) -> (r: bool)
        ensures
            r == self.reaches(limit as int),
    {
        if self.whole == 0 {
            return 0 >= limit;
        }
        let part: i128 = self.part as i128 * 100_000_000;
        assert(-0x8000_0000_0000_0000 * 0xffff_ffff_ffff_ffff <= limit * self.whole
            <= 0x7fff_ffff_ffff_ffff * 0xffff_ffff_ffff_ffff) by (nonlinear_arith)
            requires
                -0x8000_0000_0000_0000 <= limit <= 0x7fff_ffff_ffff_ffff,
                0 <= self.whole <= 0xffff_ffff_ffff_ffff,
        ;
        let bound: i128 = limit as i128 * self.whole as i128;
        part >= bound
    }

    /// The share in percent, in units of one over `scale` percent, rounded to
    /// the nearest unit with ties to even.
    pub open spec fn percent_units(self, scale: int) -> int {
        if self.whole == 0 {
            0
        } else {
            nearest(self.part * 100 * scale, self.whole as int)
        }
    }
}

/// The integer nearest to `n / d`, ties to even.
pub open spec fn nearest(n: int, d: int) -> int {
    let q = n / d;
    let r = n % d;
    if 2 * r > d || (2 * r == d && q % 2 == 1) {
        q + 1
    } else {
        q
    }
}

/// The integer nearest to `n / d`, ties to even.
pub fn round_nearest(n: u128, d: u64) -> (r: u128)
    requires
        d > 0,
        n < 0x8000_0000_0000_0000_0000_0000_0000_0000,
    ensures
        r == nearest(n as int, d as int),
{
    let q: u128 = n / d as u128;
    let r: u128 = n % d as u128;
    assert(q <= n) by (nonlinear_arith)
        requires
            q == n / d as u128,
            d > 0,
    ;
    assert(r < d) by (nonlinear_arith)
        requires
            r == n % d as u128,
            d > 0,
    ;
    if 2 * r > d as u128 || (2 * r == d as u128 && q % 2 == 1) {
        q + 1
    } else {
        q
    }
}

/// A number of tenths as decimal text with one digit after the point.
pub open spec fn tenths_text(n: int) -> Seq<char> {
    text::decimal(n / 10) + seq!['.'] + text::zero_padded((n % 10) as nat, 1)
}

/// A number of hundredths as decimal text with two digits after the point.
pub open spec fn hundredths_text(n: int) -> Seq<char> {
    text::decimal(n / 100) + seq!['.'] + text::zero_padded((n % 100) as nat, 2)
}

/// Appends a number of tenths with one digit after the point.
pub fn push_tenths(s: &mut String, n: u128)
    ensures
        final(s)@ == old(s)@ + tenths_text(n as int),
{
    text::push_decimal(s, n / 10);
    s.push('.');
    text::push_padded_digits(s, (n % 10) as u64, 1);
    assert(s@ =~= old(s)@ + tenths_text(n as int));
}

/// Appends a number of hundredths with two digits after the point.
pub fn push_hundredths(s: &mut String, n: u128)
    ensures
        final(s)@ == old(s)@ + hundredths_text(n as int),
{
    text::push_decimal(s, n / 100);
    s.push('.');
    text::push_padded_digits(s, (n % 100) as u64, 2);
    assert(s@ =~= old(s)@ + hundredths_text(n as int));
}

/// Appends a share in percent with one digit after the point.
pub fn push_percent_tenths(s: &mut String, ratio: &Ratio)
    ensures
        final(s)@ == old(s)@ + tenths_text(ratio.percent_units(10)),
{
    let units: u128 = if ratio.whole == 0 {
        0
    } else {
        round_nearest(ratio.part as u128 * 1000, ratio.whole)
    };
    push_tenths(s, units);
}

/// Appends a share in percent with two digits after the point.
pub fn push_percent_hundredths(s: &mut String, ratio: &Ratio)
    ensures
        final(s)@ == old(s)@ + hundredths_text(ratio.percent_units(100)),
{
    let units: u128 = if ratio.whole == 0 {
        0
    } else {
        round_nearest(ratio.part as u128 * 10000, ratio.whole)
    };
    push_hundredths(s, units);
}

/// Appends a time in milliseconds with one digit after the point.
pub fn push_ms_tenths(s: &mut String, time: u64)
    ensures
        final(s)@ == old(s)@ + tenths_text(nearest(time as int, 100_000)),
{
    let units: u128 = round_nearest(time as u128, 100_000);
    push_tenths(s, units);
}

/// A time in milliseconds as decimal text with as many digits after the point
/// as it needs.
pub open spec fn ms_text(time: int) -> Seq<char> {
    let whole = text::decimal(time / 1_000_000);
    let rest = without_trailing_zeros(text::zero_padded((time % 1_000_000) as nat, 6));
    if rest.len() == 0 {
        whole
    } else {
        whole + seq!['.'] + rest
    }
}

/// Digits without the zeros at their end.
pub open spec fn without_trailing_zeros(s: Seq<char>) -> Seq<char>
    decreases s.len(),
{
    if s.len() > 0 && s.last() == '0' {
        without_trailing_zeros(s.drop_last())
    } else {
        s
    }
}

/// Appends a time in milliseconds with as many digits after the point as it needs.
pub fn push_ms(s: &mut String, time: u64)
    ensures
        final(s)@ == old(s)@ + ms_text(time as int),
{
    text::push_decimal(s, (time / 1_000_000) as u128);
    let mut fraction = String::new();
    text::push_padded_digits(&mut fraction, time % 1_000_000, 6);
    let mut digits = text::chars_of(fraction.as_str());
    let ghost all = digits@;
    assert(all =~= text::zero_padded((time % 1_000_000) as nat, 6));
    while digits.len() > 0 && digits[digits.len() - 1] == '0'
        invariant
            without_trailing_zeros(digits@) == without_trailing_zeros(all),
        decreases digits@.len(),
    {
        let _ = digits.pop();
    }
    if digits.len() > 0 {
        s.push('.');
        let rest = text::string_of(&digits);
        text::push_text(s, rest.as_str());
    }
    assert(s@ =~= old(s)@ + ms_text(time as int));
}

/// A rounded quotient lies no further than a half from the exact one, and right
/// between two integers it is the even one.
pub proof fn law_rounding(n: int, d: int)
    requires
        d > 0,
    ensures
        -d <= 2 * (n - d * nearest(n, d)) <= d,
        2 * (n - d * nearest(n, d)) == d || 2 * (n - d * nearest(n, d)) == -d ==> nearest(n, d) % 2
            == 0,
{
    vstd::arithmetic::div_mod::lemma_fundamental_div_mod(n, d);
    let q = n / d;
    assert(d * (q + 1) == d * q + d) by (nonlinear_arith);
}

/// A share reaches a limit exactly where its percentage is no less; a share of
/// nothing is none.
pub proof fn law_shares_reach_limits(share: Ratio, limit: int)
    ensures
        share.whole > 0 ==> (share.reaches(limit) <==> share.part * 100 * 1_000_000 >= limit
            * share.whole),
        share.whole == 0 ==> (share.reaches(limit) <==> limit <= 0),
        share.part == share.whole && share.whole > 0 ==> (share.reaches(limit) <==> limit
            <= 100_000_000),
{
    assert(share.part == share.whole && share.whole > 0 ==> (share.part * 100_000_000 >= limit
        * share.whole <==> limit <= 100_000_000)) by (nonlinear_arith);
}

}
