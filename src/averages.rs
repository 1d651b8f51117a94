//! Averages over a run of nights, as exact fractions.
use vstd::prelude::*;
use crate::efficiency::{calc_efficiency, efficiency_of, pow10, Decimal};
use crate::record::SleepRecord;

verus! {

/// The most records an average takes: a record occupies more than 2^7 bytes,
/// so no slice in memory holds more than 2^56 of them.
pub const MAX_RECORDS: u64 = 0x0100_0000_0000_0000;

/// `numer / denom`, with `denom` positive.
#[derive(PartialEq, Eq, Structural, Clone, Copy, Debug)]
pub struct Fraction {
    pub numer: i128,
    pub denom: i128,
}

impl View for Fraction {
    type V = (int, int);

    open spec fn view(&self) -> (int, int) {
        (self.numer as int, self.denom as int)
    }
}

/// `x <= y` for fractions with positive denominators.
pub open spec fn ratio_le(x: (int, int), y: (int, int)) -> bool {
    x.0 * y.1 <= y.0 * x.1
}

/// A decimal counted in units of 10^-9; every rounded efficiency of `i32`
/// counts is a whole number of them.
pub open spec fn efficiency_units(d: Decimal) -> int {
    d.mantissa * pow10((d.exponent + 9) as nat)
}

pub open spec fn record_efficiency(r: SleepRecord) -> Decimal {
    efficiency_of(
        r.total_sleep_minutes as int,
        r.awake_minutes as int,
        r.sleep_latency_minutes as int,
    )
}

pub open spec fn sum_efficiency_units(s: Seq<SleepRecord>) -> int
    decreases s.len(),
{
    if s.len() == 0 {
        0
    } else {
        sum_efficiency_units(s.drop_last()) + efficiency_units(record_efficiency(s.last()))
    }
}

pub open spec fn sum_quality(s: Seq<SleepRecord>) -> int
    decreases s.len(),
{
    if s.len() == 0 {
        0
    } else {
        sum_quality(s.drop_last()) + s.last().sleep_quality_score
    }
}

pub open spec fn sum_sleep(s: Seq<SleepRecord>) -> int
    decreases s.len(),
{
    if s.len() == 0 {
        0
    } else {
        sum_sleep(s.drop_last()) + s.last().total_sleep_minutes
    }
}

pub open spec fn sum_sleep_with_naps(s: Seq<SleepRecord>) -> int
    decreases s.len(),
{
    if s.len() == 0 {
        0
    } else {
        sum_sleep_with_naps(s.drop_last()) + s.last().total_sleep_minutes + s.last().nap_minutes
    }
}

/// The mean of the per-record efficiencies (each rounded first), in percent;
/// 0 for no records.
pub open spec fn efficiency_mean(s: Seq<SleepRecord>) -> (int, int) {
    if s.len() == 0 {
        (0, 1)
    } else {
        (sum_efficiency_units(s), (s.len() * pow10(9)) as int)
    }
}

/// The mean quality score; 0 for no records.
pub open spec fn quality_mean(s: Seq<SleepRecord>) -> (int, int) {
    if s.len() == 0 {
        (0, 1)
    } else {
        (sum_quality(s), s.len() as int)
    }
}

/// The mean night sleep in hours, naps left out; 0 for no records.
pub open spec fn sleep_hours_mean(s: Seq<SleepRecord>) -> (int, int) {
    if s.len() == 0 {
        (0, 1)
    } else {
        (sum_sleep(s), 60 * s.len() as int)
    }
}

/// The mean of night sleep plus naps, in hours; 0 for no records.
pub open spec fn sleep_hours_with_naps_mean(s: Seq<SleepRecord>) -> (int, int) {
    if s.len() == 0 {
        (0, 1)
    } else {
        (sum_sleep_with_naps(s), 60 * s.len() as int)
    }
}

/// A rounded efficiency counted in units of 10^-9 percent.
fn decimal_units(d: Decimal) -> (r: i128)
    requires
        -9 <= d.exponent <= 10,
        -100 <= d.mantissa <= 100,
    ensures
        r == efficiency_units(d),
        -1_000_000_000_000_000_000_000 <= r <= 1_000_000_000_000_000_000_000,
{
    let places: u32 = (d.exponent + 9) as u32;
    let mut p: i128 = 1;
    let mut k: u32 = 0;
    while k < places
        invariant
            k <= places <= 19,
            p == pow10(k as nat),
            1 <= p <= 10_000_000_000_000_000_000,
            k < 19 ==> p <= 1_000_000_000_000_000_000,
        decreases places - k,
    {
        proof {
            crate::efficiency::lemma_pow10_monotone((k + 1) as nat, 19);
            assert(pow10(19) == 10_000_000_000_000_000_000) by {
                reveal_with_fuel(pow10, 20);
            }
            if k + 1 < 19 {
                crate::efficiency::lemma_pow10_monotone((k + 1) as nat, 18);
                assert(pow10(18) == 1_000_000_000_000_000_000) by {
                    reveal_with_fuel(pow10, 19);
                }
            }
        }
        p = p * 10;
        k = k + 1;
    }
    let m = d.mantissa as i128;
    assert(-100 * 10_000_000_000_000_000_000 <= m * p <= 100 * 10_000_000_000_000_000_000)
        by (nonlinear_arith)
        requires
            -100 <= m <= 100,
            1 <= p <= 10_000_000_000_000_000_000,
    ;
    let r = m * p;
    r
}

/// Mean sleep efficiency in percent over `entries`: each record's efficiency
/// is rounded first, then the rounded values are averaged. 0 for no records.
pub fn calculate_average_efficiency(entries: &[SleepRecord]) -> (r: Fraction)
    requires
        entries@.len() <= MAX_RECORDS as int,
    ensures
        r@ == efficiency_mean(entries@),
{
    let len = entries.len();
    if len == 0 {
        return Fraction { numer: 0, denom: 1 };
    }
    let mut total: i128 = 0;
    let mut i: usize = 0;
    while i < len
        invariant
            i <= len,
            len == entries@.len(),
            len <= MAX_RECORDS as int,
            total == sum_efficiency_units(entries@.subrange(0, i as int)),
            -(i as int) * 1_000_000_000_000_000_000_000 <= total,
            total <= (i as int) * 1_000_000_000_000_000_000_000,
        decreases len - i,
    {
        let e = &entries[i];
        let eff = calc_efficiency(e.total_sleep_minutes, e.awake_minutes, e.sleep_latency_minutes);
        let units = decimal_units(eff);
        proof {
            assert(entries@.subrange(0, i + 1).drop_last() =~= entries@.subrange(0, i as int));
        }
        total = total + units;
        i = i + 1;
    }
    proof {
        assert(entries@.subrange(0, len as int) =~= entries@);
        assert(pow10(9) == 1_000_000_000) by {
            reveal_with_fuel(pow10, 10);
        }
    }
    Fraction { numer: total, denom: len as i128 * 1_000_000_000 }
}

/// Mean quality score over `entries`, unrounded; 0 for no records.
pub fn calculate_average_quality(entries: &[SleepRecord]) -> (r: Fraction)
    ensures
        r@ == quality_mean(entries@),
{
    let len = entries.len();
    if len == 0 {
        return Fraction { numer: 0, denom: 1 };
    }
    let mut total: i128 = 0;
    let mut i: usize = 0;
    while i < len
        invariant
            i <= len,
            len == entries@.len(),
            total == sum_quality(entries@.subrange(0, i as int)),
            -(i as int) * 0x8000_0000 <= total <= (i as int) * 0x8000_0000,
        decreases len - i,
    {
        proof {
            assert(entries@.subrange(0, i + 1).drop_last() =~= entries@.subrange(0, i as int));
        }
        total = total + entries[i].sleep_quality_score as i128;
        i = i + 1;
    }
    proof {
        assert(entries@.subrange(0, len as int) =~= entries@);
    }
    Fraction { numer: total, denom: len as i128 }
}

/// Mean night sleep over `entries`, in hours, naps left out; 0 for no records.
pub fn calculate_average_sleep_hours(entries: &[SleepRecord]) -> (r: Fraction)
    ensures
        r@ == sleep_hours_mean(entries@),
{
    let len = entries.len();
    if len == 0 {
        return Fraction { numer: 0, denom: 1 };
    }
    let mut total: i128 = 0;
    let mut i: usize = 0;
    while i < len
        invariant
            i <= len,
            len == entries@.len(),
            total == sum_sleep(entries@.subrange(0, i as int)),
            -(i as int) * 0x8000_0000 <= total <= (i as int) * 0x8000_0000,
        decreases len - i,
    {
        proof {
            assert(entries@.subrange(0, i + 1).drop_last() =~= entries@.subrange(0, i as int));
        }
        total = total + entries[i].total_sleep_minutes as i128;
        i = i + 1;
    }
    proof {
        assert(entries@.subrange(0, len as int) =~= entries@);
    }
    Fraction { numer: total, denom: 60 * len as i128 }
}

/// Mean of night sleep plus naps over `entries`, in hours; 0 for no records.
pub fn calculate_average_total_sleep_with_nap(entries: &[SleepRecord]) -> (r: Fraction)
    ensures
        r@ == sleep_hours_with_naps_mean(entries@),
{
    let len = entries.len();
    if len == 0 {
        return Fraction { numer: 0, denom: 1 };
    }
    let mut total: i128 = 0;
    let mut i: usize = 0;
    while i < len
        invariant
            i <= len,
            len == entries@.len(),
            total == sum_sleep_with_naps(entries@.subrange(0, i as int)),
            -(i as int) * 0x1_0000_0000 <= total <= (i as int) * 0x1_0000_0000,
        decreases len - i,
    {
        proof {
            assert(entries@.subrange(0, i + 1).drop_last() =~= entries@.subrange(0, i as int));
        }
        let e = &entries[i];
        total = total + e.total_sleep_minutes as i128 + e.nap_minutes as i128;
        i = i + 1;
    }
    proof {
        assert(entries@.subrange(0, len as int) =~= entries@);
    }
    Fraction { numer: total, denom: 60 * len as i128 }
}

proof fn lemma_zero_nights_sum_to_zero(s: Seq<SleepRecord>)
    requires
        forall|i: int|
            0 <= i < s.len() ==> #[trigger] s[i].total_sleep_minutes == 0
                && s[i].awake_minutes == 0 && s[i].sleep_latency_minutes == 0,
    ensures
        sum_efficiency_units(s) == 0,
    decreases s.len(),
{
    if s.len() > 0 {
        lemma_zero_nights_sum_to_zero(s.drop_last());
        assert(s.last() == s[s.len() - 1]);
        let d = record_efficiency(s.last());
        assert(d == Decimal { mantissa: 0, exponent: 0 });
        assert(efficiency_units(d) == 0 * pow10(9));
    }
}

/// Where no night has any minutes asleep, awake or falling asleep, the
/// average efficiency is 0.
pub proof fn lemma_no_time_in_bed_averages_to_zero(s: Seq<SleepRecord>)
    requires
        s.len() > 0,
        forall|i: int|
            0 <= i < s.len() ==> #[trigger] s[i].total_sleep_minutes == 0
                && s[i].awake_minutes == 0 && s[i].sleep_latency_minutes == 0,
    ensures
        efficiency_mean(s).0 == 0,
        efficiency_mean(s).1 > 0,
{
    lemma_zero_nights_sum_to_zero(s);
    crate::efficiency::lemma_pow10_positive(9);
    assert(s.len() * pow10(9) > 0) by (nonlinear_arith)
        requires
            s.len() > 0,
            pow10(9) >= 1,
    ;
}

proof fn lemma_naps_add_to_sum(s: Seq<SleepRecord>)
    requires
        forall|i: int| 0 <= i < s.len() ==> #[trigger] s[i].nap_minutes >= 0,
    ensures
        sum_sleep(s) <= sum_sleep_with_naps(s),
    decreases s.len(),
{
    if s.len() > 0 {
        lemma_naps_add_to_sum(s.drop_last());
        assert(s.last() == s[s.len() - 1]);
    }
}

/// With no negative nap, the average including naps is never below the
/// average of night sleep alone.
pub proof fn lemma_naps_never_lower_average(s: Seq<SleepRecord>)
    requires
        forall|i: int| 0 <= i < s.len() ==> #[trigger] s[i].nap_minutes >= 0,
    ensures
        ratio_le(sleep_hours_mean(s), sleep_hours_with_naps_mean(s)),
{
    lemma_naps_add_to_sum(s);
    let x = sleep_hours_mean(s);
    let y = sleep_hours_with_naps_mean(s);
    assert(x.1 == y.1 && x.1 > 0);
    assert(x.0 * y.1 <= y.0 * x.1) by (nonlinear_arith)
        requires
            x.0 <= y.0,
            x.1 == y.1,
            x.1 > 0,
    ;
}

} // verus!
