//! Distributions of measured values: exact extrema and mean, percentiles from a
//! histogram of fixed range.

use hdrhistogram::{CreationError, Histogram, RecordError};
use vstd::multiset::Multiset;
use vstd::prelude::*;

verus! {

/// A histogram of the `hdrhistogram` crate, counting in 64 bits.
#[verifier::external_body]
pub struct ValueHistogram {
    inner: Histogram<u64>,
}

/// Why a histogram could not be made.
#[verifier::external_type_specification]
#[verifier::external_body]
pub struct ExCreationError(hdrhistogram::CreationError);

/// Why a value could not be recorded.
#[verifier::external_type_specification]
#[verifier::external_body]
pub struct ExRecordError(hdrhistogram::RecordError);

/// The values that a histogram has recorded.
pub uninterp spec fn histogram_values(histogram: ValueHistogram) -> Multiset<u64>;

/// The lowest discernible value, the highest trackable value and the significant digits
/// that a histogram was made with.
pub uninterp spec fn histogram_bounds(histogram: ValueHistogram) -> (u64, u64, u8);

/// What a histogram with unit resolution and three significant digits answers for a
/// percentile of the values that it has recorded.
pub uninterp spec fn percentile_of(values: Multiset<u64>, percent: u32) -> u64;

/// The first of `from`, twice `from`, four times `from` and so on that exceeds `high`.
pub open spec fn doubled_past(from: int, high: int) -> int
    decreases
            (if from <= high {
                high - from + 1
            } else {
                0
            }),
{
    if from <= 0 || from > high {
        from
    } else {
        doubled_past(2 * from, high)
    }
}

/// The first value that a histogram with unit resolution and three significant digits has
/// no bin for. The bins come in powers of two from 2048, so they reach beyond `high`.
pub open spec fn bins_end(high: u64) -> int {
    doubled_past(2048, high as int)
}

/// `Histogram::new_with_bounds`: an empty histogram with the bounds asked for. The call is
/// claimed to succeed for unit resolution and three significant digits, the only bounds
/// that are asked for here.
#[verifier::external_body]
fn histogram_with_bounds(low: u64, high: u64, digits: u8) -> (r: Result<ValueHistogram, CreationError>)
    requires
        low == 1,
        high >= 2,
        digits == 3,
    ensures
        r is Ok,
        histogram_values(r->Ok_0) == Multiset::<u64>::empty(),
        histogram_bounds(r->Ok_0) == (low, high, digits),
{
    Histogram::new_with_bounds(low, high, digits).map(|inner| ValueHistogram { inner })
}

/// `Histogram::record`: the value is counted, or refused where no bin is left for it; a
/// histogram with fixed bounds does not grow.
#[verifier::external_body]
fn record_value(histogram: &mut ValueHistogram, value: u64) -> (r: Result<(), RecordError>)
    requires
        histogram_bounds(*old(histogram)).0 == 1,
        histogram_bounds(*old(histogram)).2 == 3,
    ensures
        histogram_bounds(*final(histogram)) == histogram_bounds(*old(histogram)),
        r is Ok <==> value < bins_end(histogram_bounds(*old(histogram)).1),
        histogram_values(*final(histogram)) == if r is Ok {
            histogram_values(*old(histogram)).insert(value)
        } else {
            histogram_values(*old(histogram))
        },
{
    histogram.inner.record(value)
}

/// `Histogram::value_at_percentile`: a function of the values recorded and the percentile. Up
/// to the ninety-ninth it does not fall as the percentile rises. Beyond that the order is left
/// unsaid: where more values are recorded than a double counts exactly, the search for the
/// hundredth can run past the last of them.
#[verifier::external_body]
fn value_at_percentile(histogram: &ValueHistogram, percent: u32) -> (r: u64)
    requires
        histogram_bounds(*histogram).0 == 1,
        histogram_bounds(*histogram).2 == 3,
        histogram_values(*histogram).len() <= u64::MAX,
    ensures
        r == percentile_of(histogram_values(*histogram), percent),
        percent <= 99 ==> forall|lower: u32|
            lower <= percent ==> #[trigger] percentile_of(histogram_values(*histogram), lower) <= r,
{
    histogram.inner.value_at_percentile(percent.into())
}

/// Longest value, in microseconds, that is in range: one minute.
pub const HISTOGRAM_HIGH: u64 = 60_000_000;

/// There is a bin for every value in range.
proof fn lemma_range_has_bins()
    ensures
        bins_end(HISTOGRAM_HIGH) > HISTOGRAM_HIGH,
{
    reveal_with_fuel(doubled_past, 17);
}

/// The sum of all values.
pub open spec fn total(values: Seq<u64>) -> int
    decreases values.len(),
{
    if values.len() == 0 {
        0
    } else {
        total(values.drop_last()) + values.last()
    }
}

/// The least value; the largest possible one where there is none.
pub open spec fn least(values: Seq<u64>) -> u64
    decreases values.len(),
{
    if values.len() == 0 {
        u64::MAX
    } else if values.last() < least(values.drop_last()) {
        values.last()
    } else {
        least(values.drop_last())
    }
}

/// The greatest value; zero where there is none.
pub open spec fn greatest(values: Seq<u64>) -> u64
    decreases values.len(),
{
    if values.len() == 0 {
        0
    } else if values.last() > greatest(values.drop_last()) {
        values.last()
    } else {
        greatest(values.drop_last())
    }
}

/// How many values are out of range.
pub open spec fn overflowing(values: Seq<u64>) -> nat
    decreases values.len(),
{
    if values.len() == 0 {
        0
    } else if values.last() > HISTOGRAM_HIGH {
        overflowing(values.drop_last()) + 1
    } else {
        overflowing(values.drop_last())
    }
}

/// The values that are in range.
spec fn recorded(values: Seq<u64>) -> Multiset<u64>
    decreases values.len(),
{
    if values.len() == 0 {
        Multiset::empty()
    } else if values.last() > HISTOGRAM_HIGH {
        recorded(values.drop_last())
    } else {
        recorded(values.drop_last()).insert(values.last())
    }
}

/// The extrema bound every value and are themselves values.
pub proof fn lemma_extrema(values: Seq<u64>)
    ensures
        forall|i: int| 0 <= i < values.len() ==> least(values) <= #[trigger] values[i] <= greatest(values),
        values.len() > 0 ==> values.contains(least(values)) && values.contains(greatest(values)),
    decreases values.len(),
{
    if values.len() > 0 {
        let rest = values.drop_last();
        lemma_extrema(rest);
        assert forall|i: int| 0 <= i < values.len() implies least(values) <= #[trigger] values[i]
            <= greatest(values) by {
            if i < rest.len() {
                assert(rest[i] == values[i]);
            }
        }
        assert(values.last() == values[values.len() - 1]);
        if rest.len() > 0 {
            let a = rest.index_of(least(rest));
            let b = rest.index_of(greatest(rest));
            assert(values[a] == least(rest));
            assert(values[b] == greatest(rest));
        }
    }
}

/// Something overflows exactly where some value is out of range.
pub proof fn lemma_overflow(values: Seq<u64>)
    ensures
        overflowing(values) <= values.len(),
        overflowing(values) > 0 <==> exists|i: int|
            0 <= i < values.len() && #[trigger] values[i] > HISTOGRAM_HIGH,
    decreases values.len(),
{
    if values.len() > 0 {
        let rest = values.drop_last();
        lemma_overflow(rest);
        if overflowing(rest) > 0 {
            let i = choose|i: int| 0 <= i < rest.len() && #[trigger] rest[i] > HISTOGRAM_HIGH;
            assert(values[i] == rest[i]);
        }
        if values.last() > HISTOGRAM_HIGH {
            assert(values[values.len() - 1] > HISTOGRAM_HIGH);
        }
        if overflowing(values) == 0 {
            assert forall|i: int| 0 <= i < values.len() implies #[trigger] values[i] <= HISTOGRAM_HIGH by {
                if i < rest.len() {
                    assert(rest[i] == values[i]);
                }
            }
        }
    }
}

/// A published percentile lies between the least and the greatest value observed.
pub proof fn lemma_percentile_within_extrema(values: Seq<u64>, percent: u32)
    ensures
        published_percentile(values, percent) matches Some(p) ==> least(values) <= p <= greatest(
            values,
        ),
{
    lemma_extrema(values);
}

/// No percentile is published as soon as one value exceeds the range.
pub proof fn lemma_overflow_hides_percentiles(values: Seq<u64>, i: int, percent: u32)
    requires
        0 <= i < values.len(),
        values[i] > HISTOGRAM_HIGH,
    ensures
        published_percentile(values, percent) is None,
{
    lemma_overflow(values);
}

proof fn lemma_recorded(values: Seq<u64>)
    ensures
        recorded(values).len() == values.len() - overflowing(values),
        overflowing(values) == 0 ==> recorded(values) == values.to_multiset(),
    decreases values.len(),
{
    broadcast use vstd::multiset::group_multiset_axioms;

    values.to_multiset_ensures();
    if values.len() > 0 {
        let rest = values.drop_last();
        lemma_recorded(rest);
        rest.to_multiset_ensures();
        assert(values =~= rest.push(values.last()));
        assert(values.to_multiset() =~= rest.to_multiset().insert(values.last()));
    } else {
        assert(values.to_multiset() =~= Multiset::empty());
    }
}

proof fn lemma_total_bound(values: Seq<u64>)
    ensures
        0 <= total(values) <= values.len() * u64::MAX,
    decreases values.len(),
{
    if values.len() > 0 {
        lemma_total_bound(values.drop_last());
        assert(values.len() * u64::MAX == (values.len() - 1) * u64::MAX + u64::MAX)
            by (nonlinear_arith);
    }
}

/// A fixed histogram range bounds memory even for indefinite runs. Values out of range are
/// counted explicitly; extrema and mean still use the actual values.
pub struct Distribution {
    histogram: ValueHistogram,
    sum: u128,
    count: u64,
    min: u64,
    max: u64,
    overflow: u64,
    values: Ghost<Seq<u64>>,
}

/// What a distribution comes to. The mean is `sum` over `count`.
#[derive(Clone, Copy, Debug, PartialEq, Eq, Structural)]
pub struct DistributionSummary {
    pub count: u64,
    pub sum: u128,
    pub min: u64,
    pub max: u64,
    pub p50: Option<u64>,
    pub p95: Option<u64>,
    pub p99: Option<u64>,
    pub overflow: u64,
}

/// A percentile as it is published: within the observed extrema, and none at all where a
/// value is missing from the histogram.
pub open spec fn published_percentile(values: Seq<u64>, percent: u32) -> Option<u64> {
    if values.len() == 0 || overflowing(values) > 0 {
        None
    } else {
        Some(
            published(percentile_of(values.to_multiset(), percent), least(values), greatest(values)),
        )
    }
}

/// A percentile brought within the extrema.
pub open spec fn published(percentile: u64, least: u64, greatest: u64) -> u64 {
    let capped = if percentile > greatest {
        greatest
    } else {
        percentile
    };
    if capped < least {
        least
    } else {
        capped
    }
}

/// Brings a percentile within the extrema: a bin can reach beyond the values in it.
pub fn publish(percentile: u64, least: u64, greatest: u64) -> (r: u64)
    ensures
        r == published(percentile, least, greatest),
{
    let capped: u64 = if percentile > greatest {
        greatest
    } else {
        percentile
    };
    if capped < least {
        least
    } else {
        capped
    }
}

impl DistributionSummary {
    /// Whether this sums up the given values.
    pub open spec fn describes(&self, values: Seq<u64>) -> bool {
        &&& self.count == values.len()
        &&& self.sum == total(values)
        &&& self.min == if values.len() == 0 {
            0
        } else {
            least(values)
        }
        &&& self.max == greatest(values)
        &&& self.p50 == published_percentile(values, 50)
        &&& self.p95 == published_percentile(values, 95)
        &&& self.p99 == published_percentile(values, 99)
        &&& self.overflow == overflowing(values)
        &&& self.rises()
    }

    /// The percentiles, where they are published, do not fall.
    pub open spec fn rises(&self) -> bool {
        self.p50 is Some && self.p95 is Some && self.p99 is Some ==> self.p50->0 <= self.p95->0
            <= self.p99->0
    }
}

impl View for Distribution {
    type V = Seq<u64>;

    /// The values added so far.
    closed spec fn view(&self) -> Seq<u64> {
        self.values@
    }
}

impl Distribution {
    /// The fields agree with the values added.
    pub closed spec fn well_formed(&self) -> bool {
        let values = self.values@;
        &&& self.count == values.len()
        &&& self.sum == total(values)
        &&& self.min == least(values)
        &&& self.max == greatest(values)
        &&& self.overflow == overflowing(values)
        &&& histogram_bounds(self.histogram) == (1u64, HISTOGRAM_HIGH, 3u8)
        &&& histogram_values(self.histogram) == recorded(values)
    }

    /// A distribution without values.
    pub fn new() -> (r: Distribution)
        ensures
            r.well_formed(),
            r@ == Seq::<u64>::empty(),
    {
        let made: Result<ValueHistogram, CreationError> = histogram_with_bounds(1, HISTOGRAM_HIGH, 3);
        match made {
            Ok(histogram) => Distribution {
                histogram,
                sum: 0,
                count: 0,
                min: u64::MAX,
                max: 0,
                overflow: 0,
                values: Ghost(Seq::empty()),
            },
            Err(_) => {
                proof {
                    assert(false);
                }
                vstd::pervasive::unreached()
            },
        }
    }

    /// Adds one value. No more than `u64::MAX` values can be counted.
    pub fn add(&mut self, value: u64)
        requires
            old(self).well_formed(),
            old(self)@.len() < u64::MAX,
        ensures
            final(self).well_formed(),
            final(self)@ == old(self)@.push(value),
    {
        proof {
            lemma_range_has_bins();
            let more = self.values@.push(value);
            assert(more.drop_last() =~= self.values@);
            lemma_overflow(more);
            lemma_total_bound(more);
            assert(more.len() * u64::MAX <= u64::MAX * u64::MAX) by (nonlinear_arith)
                requires
                    more.len() <= u64::MAX,
            ;
        }
        self.sum = self.sum + value as u128;
        self.count = self.count + 1;
        if value < self.min {
            self.min = value;
        }
        if value > self.max {
            self.max = value;
        }
        if value > HISTOGRAM_HIGH || record_value(&mut self.histogram, value).is_err() {
            self.overflow = self.overflow + 1;
        }
        self.values = Ghost(self.values@.push(value));
    }

    /// The number of values added.
    pub fn count(&self) -> (r: u64)
        requires
            self.well_formed(),
        ensures
            r == self@.len(),
    {
        self.count
    }

    /// What the values come to. No percentile is published if any value exceeded the range.
    pub fn summary(&self) -> (r: DistributionSummary)
        requires
            self.well_formed(),
        ensures
            r.describes(self@),
    {
        proof {
            lemma_overflow(self.values@);
            lemma_recorded(self.values@);
        }
        DistributionSummary {
            count: self.count,
            sum: self.sum,
            min: if self.count == 0 {
                0
            } else {
                self.min
            },
            max: self.max,
            p50: self.percentile(50),
            p95: self.percentile(95),
            p99: self.percentile(99),
            overflow: self.overflow,
        }
    }

    fn percentile(&self, percent: u32) -> (r: Option<u64>)
        requires
            self.well_formed(),
        ensures
            r == published_percentile(self@, percent),
            percent <= 99 ==> forall|lower: u32|
                lower <= percent && #[trigger] published_percentile(self@, lower) is Some
                    ==> r is Some && published_percentile(self@, lower)->0 <= r->0,
    {
        proof {
            lemma_recorded(self.values@);
            lemma_extrema(self.values@);
        }
        if self.overflow > 0 || self.count == 0 {
            return None;
        }
        let percentile: u64 = value_at_percentile(&self.histogram, percent);
        Some(publish(percentile, self.min, self.max))
    }
}

/// What a value contributes wherever it stands among others.
proof fn lemma_removed(values: Seq<u64>, i: int)
    requires
        0 <= i < values.len(),
    ensures
        total(values) == total(values.remove(i)) + values[i],
        overflowing(values) == overflowing(values.remove(i)) + if values[i] > HISTOGRAM_HIGH {
            1int
        } else {
            0
        },
        least(values) == if values[i] < least(values.remove(i)) {
            values[i]
        } else {
            least(values.remove(i))
        },
        greatest(values) == if values[i] > greatest(values.remove(i)) {
            values[i]
        } else {
            greatest(values.remove(i))
        },
    decreases values.len(),
{
    let rest = values.drop_last();
    if i == rest.len() {
        assert(values.remove(i) =~= rest);
    } else {
        lemma_removed(rest, i);
        assert(values.remove(i).drop_last() =~= rest.remove(i));
        assert(values.remove(i).last() == values.last());
    }
}

/// The order in which values are added does not matter.
pub proof fn lemma_order_does_not_matter(a: Seq<u64>, b: Seq<u64>)
    requires
        a.to_multiset() == b.to_multiset(),
    ensures
        a.len() == b.len(),
        total(a) == total(b),
        least(a) == least(b),
        greatest(a) == greatest(b),
        overflowing(a) == overflowing(b),
        forall|percent: u32| published_percentile(a, percent) == published_percentile(b, percent),
    decreases a.len(),
{
    a.to_multiset_ensures();
    b.to_multiset_ensures();
    if a.len() > 0 {
        let value = a.last();
        assert(a[a.len() - 1] == value);
        assert(a.contains(value));
        assert(b.to_multiset().count(value) > 0);
        let i = b.index_of(value);
        assert(a.remove(a.len() - 1) =~= a.drop_last());
        assert(b.remove(i).to_multiset() == b.to_multiset().remove(b[i]));
        lemma_order_does_not_matter(a.drop_last(), b.remove(i));
        lemma_removed(b, i);
        lemma_removed(a, a.len() - 1);
    }
}

/// Two summaries of the same values, added in any order, are the same.
pub proof fn lemma_summaries_agree(
    a: DistributionSummary,
    first: Seq<u64>,
    b: DistributionSummary,
    second: Seq<u64>,
)
    requires
        a.describes(first),
        b.describes(second),
        first.to_multiset() == second.to_multiset(),
    ensures
        a == b,
{
    lemma_order_does_not_matter(first, second);
}

/// What a summary says of the values: the extrema are those of all values, those out of range
/// too; the percentiles are published together, exactly where there are values and none is
/// out of range; and they rise from the least to the greatest value.
pub proof fn lemma_summary_tells_the_truth(summary: DistributionSummary, values: Seq<u64>)
    requires
        summary.describes(values),
    ensures
        values.len() == 0 ==> summary.sum == 0 && summary.min == 0 && summary.max == 0,
        values.len() > 0 ==> values.contains(summary.min) && values.contains(summary.max),
        forall|i: int|
            0 <= i < values.len() ==> summary.min <= #[trigger] values[i] <= summary.max,
        ({
            let hidden = summary.overflow > 0 || values.len() == 0;
            &&& summary.p50 is None <==> hidden
            &&& summary.p95 is None <==> hidden
            &&& summary.p99 is None <==> hidden
            &&& !hidden ==> summary.min <= summary.p50->0 <= summary.p95->0 <= summary.p99->0
                <= summary.max
        }),
{
    lemma_extrema(values);
    lemma_percentile_within_extrema(values, 50);
    lemma_percentile_within_extrema(values, 99);
}

/// The sum of values is made up of the sums of their parts, and one value is its own sum.
pub proof fn lemma_totals_add_up(a: Seq<u64>, b: Seq<u64>, value: u64)
    ensures
        total(a + b) == total(a) + total(b),
        total(seq![value]) == value,
    decreases b.len(),
{
    reveal_with_fuel(total, 2);
    if b.len() == 0 {
        assert(a + b =~= a);
    } else {
        assert((a + b).drop_last() =~= a + b.drop_last());
        lemma_totals_add_up(a, b.drop_last(), value);
    }
}

/// Exactly the values beyond a minute, in microseconds, are out of range.
pub proof fn lemma_the_range_is_a_minute(values: Seq<u64>)
    ensures
        overflowing(values) == values.filter(|value: u64| value > 60_000_000).len(),
    decreases values.len(),
{
    reveal(Seq::filter);
    if values.len() > 0 {
        lemma_the_range_is_a_minute(values.drop_last());
    }
}

/// A percentile that lies between the extrema is published as it is; any other is published as
/// the nearer of them.
pub proof fn lemma_percentiles_are_brought_between(percentile: u64, least: u64, greatest: u64)
    requires
        least <= greatest,
    ensures
        least <= published(percentile, least, greatest) <= greatest,
        least <= percentile <= greatest ==> published(percentile, least, greatest) == percentile,
        percentile <= least ==> published(percentile, least, greatest) == least,
        percentile >= greatest ==> published(percentile, least, greatest) == greatest,
{
}

/// The percentiles of a summary are the fiftieth, the ninety-fifth and the ninety-ninth of all
/// values, unless one of them lies beyond the extrema.
pub proof fn lemma_summary_has_three_percentiles(summary: DistributionSummary, values: Seq<u64>)
    requires
        summary.describes(values),
        values.len() > 0,
        forall|i: int| 0 <= i < values.len() ==> #[trigger] values[i] <= 60_000_000,
    ensures
        ({
            let all = values.to_multiset();
            &&& summary.min <= percentile_of(all, 50) <= summary.max ==> summary.p50 == Some(
                percentile_of(all, 50),
            )
            &&& summary.min <= percentile_of(all, 95) <= summary.max ==> summary.p95 == Some(
                percentile_of(all, 95),
            )
            &&& summary.min <= percentile_of(all, 99) <= summary.max ==> summary.p99 == Some(
                percentile_of(all, 99),
            )
        }),
        summary.overflow == 0,
{
    lemma_overflow(values);
    lemma_extrema(values);
}

/// One more value is counted and added to the sum, moves an extremum where it lies beyond it,
/// and overflows where it exceeds a minute.
pub proof fn lemma_what_one_more_value_does(
    before: DistributionSummary,
    after: DistributionSummary,
    values: Seq<u64>,
    value: u64,
)
    requires
        before.describes(values),
        after.describes(values.push(value)),
    ensures
        after.count == before.count + 1,
        after.sum == before.sum + value,
        values.len() == 0 ==> before.count == 0 && before.sum == 0 && after.min == value && after.max
            == value,
        values.len() > 0 ==> after.min == if value < before.min {
            value
        } else {
            before.min
        },
        values.len() > 0 ==> after.max == if value > before.max {
            value
        } else {
            before.max
        },
        after.overflow == before.overflow + if value > 60_000_000 {
            1int
        } else {
            0
        },
{
    assert(values.push(value).drop_last() =~= values);
    assert(values.push(value).last() == value);
    if values.len() == 0 {
        assert(least(values) == u64::MAX && greatest(values) == 0);
    }
}

} // verus!
