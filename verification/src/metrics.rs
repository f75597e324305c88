//! Loop health, measured rather than assumed.
//!
//! Step time and realtime factor are first-class signals, not diagnostics: they
//! are published in every state frame and shown in the UI. A driver has to be
//! able to see when the rig stopped keeping up, because otherwise their verdict
//! on a setup silently encodes the stutter instead.
//!
//! Recording a sample must be allocation-free and branch-light, because it
//! happens inside every step. A fixed-bucket histogram gives exact-enough
//! percentiles for a microsecond-resolution budget with a single array write.

use vstd::arithmetic::power2::*;
use vstd::prelude::*;

use crate::arith;
use crate::arith::{from_count, from_wide_count, minus, over, times, Operation};
use crate::io::device;
use crate::numbers;
use crate::numbers::{close, epsilon, huge, number, size, tiny};
use crate::scalar;
use crate::scalar::{ceil_to_count, clamp, is_at_most, is_finite, Scalar, ONE, ZERO};
use crate::text;
use crate::text::count_text;

verus! {

pub const THOUSAND: Scalar = 0x408f_4000_0000_0000;

pub const NANO: Scalar = 0x3e11_2e0b_e826_d695;

/// The median, and the two tails the loop is judged by.
pub const P50: Scalar = 0x3fe0_0000_0000_0000;

pub const P99: Scalar = 0x3fef_ae14_7ae1_47ae;

pub const P999: Scalar = 0x3fef_f7ce_d916_872b;

/// How many of `samples` lie below `edge`.
pub open spec fn below(samples: Seq<u64>, edge: int) -> nat
    decreases samples.len(),
{
    if samples.len() == 0 {
        0
    } else {
        below(samples.drop_last(), edge) + if samples.last() < edge {
            1nat
        } else {
            0nat
        }
    }
}

/// How many of `samples` lie in `[low, high)`.
pub open spec fn between(samples: Seq<u64>, low: int, high: int) -> nat
    decreases samples.len(),
{
    if samples.len() == 0 {
        0
    } else {
        between(samples.drop_last(), low, high) + if low <= samples.last() < high {
            1nat
        } else {
            0nat
        }
    }
}

/// All of `samples`, added up.
pub open spec fn total(samples: Seq<u64>) -> nat
    decreases samples.len(),
{
    if samples.len() == 0 {
        0
    } else {
        total(samples.drop_last()) + samples.last() as nat
    }
}

/// The largest of `samples`, or zero.
pub open spec fn largest(samples: Seq<u64>) -> u64
    decreases samples.len(),
{
    if samples.len() == 0 {
        0
    } else if samples.last() > largest(samples.drop_last()) {
        samples.last()
    } else {
        largest(samples.drop_last())
    }
}

/// Fixed-bucket histogram of step times.
#[derive(Clone)]
pub struct StepTimeHistogram {
    buckets: Vec<u64>,
    bucket_ns: u64,
    overflow: u64,
    count: u64,
    sum_ns: u128,
    max_ns: u64,
    samples: Ghost<Seq<u64>>,
}

impl StepTimeHistogram {
    /// Every sample recorded, in order.
    pub closed spec fn samples(&self) -> Seq<u64> {
        self.samples@
    }

    /// Width of a bucket [ns].
    pub closed spec fn width(&self) -> int {
        self.bucket_ns as int
    }

    /// How many buckets there are below the overflow.
    pub closed spec fn depth(&self) -> int {
        self.buckets@.len() as int
    }

    /// The counters agree with the samples they summarise.
    pub closed spec fn well_formed(&self) -> bool {
        &&& self.bucket_ns >= 1
        &&& self.buckets@.len() >= 1
        &&& self.buckets@.len() * self.bucket_ns <= u64::MAX
        &&& self.count == self.samples@.len()
        &&& self.sum_ns == total(self.samples@)
        &&& self.max_ns == largest(self.samples@)
        &&& self.overflow <= self.count
        &&& forall|i: int|
            0 <= i < self.buckets@.len() ==> #[trigger] self.buckets@[i] == between(
                self.samples@,
                i * self.bucket_ns,
                (i + 1) * self.bucket_ns,
            )
    }

    /// The counters can take one more sample.
    pub open spec fn has_room(&self) -> bool {
        self.samples().len() < u64::MAX
    }

    /// `range_ns` is the largest step time resolved exactly; anything above it
    /// lands in the overflow bucket and still counts toward the percentiles.
    pub fn new(range_ns: u64, bucket_ns: u64) -> (histogram: Self)
        requires
            range_ns <= usize::MAX,
        ensures
            histogram.well_formed(),
            histogram.samples() == Seq::<u64>::empty(),
            histogram.width() == if bucket_ns == 0 {
                1
            } else {
                bucket_ns as int
            },
            histogram.depth() == if range_ns as int / histogram.width() == 0 {
                1
            } else {
                range_ns as int / histogram.width()
            },
    {
        let width: u64 = if bucket_ns == 0 {
            1
        } else {
            bucket_ns
        };
        let whole: u64 = range_ns / width;
        let depth: u64 = if whole == 0 {
            1
        } else {
            whole
        };
        assert(whole * width <= range_ns) by (nonlinear_arith)
            requires
                whole == range_ns / width,
                width >= 1,
        ;
        assert(whole <= range_ns) by (nonlinear_arith)
            requires
                whole * width <= range_ns,
                width >= 1,
                whole >= 0,
        ;
        let mut buckets: Vec<u64> = Vec::new();
        let mut i: u64 = 0;
        while i < depth
            invariant
                i <= depth,
                buckets@.len() == i,
                forall|j: int| 0 <= j < buckets@.len() ==> buckets@[j] == 0,
            decreases depth - i,
        {
            buckets.push(0);
            i += 1;
        }
        assert(depth * width <= u64::MAX) by (nonlinear_arith)
            requires
                depth == 1 || depth == whole,
                whole * width <= u64::MAX,
                width <= u64::MAX,
        ;
        assert(buckets@.len() * width == depth * width);
        assert forall|j: int| 0 <= j < buckets@.len() implies #[trigger] buckets@[j] == between(
            Seq::<u64>::empty(),
            j * width,
            (j + 1) * width,
        ) by {
            assert(between(Seq::<u64>::empty(), j * width, (j + 1) * width) == 0);
        }
        StepTimeHistogram {
            buckets,
            bucket_ns: width,
            overflow: 0,
            count: 0,
            sum_ns: 0,
            max_ns: 0,
            samples: Ghost(Seq::empty()),
        }
    }

    /// One array increment. No allocation, no branch on data size.
    pub fn record(&mut self, elapsed_ns: u64)
        requires
            old(self).well_formed(),
            old(self).has_room(),
        ensures
            final(self).well_formed(),
            final(self).samples() == old(self).samples().push(elapsed_ns),
            largest(final(self).samples()) == if elapsed_ns > largest(old(self).samples()) {
                elapsed_ns
            } else {
                largest(old(self).samples())
            },
            final(self).width() == old(self).width(),
            final(self).depth() == old(self).depth(),
    {
        let ghost before = self.samples@;
        let ghost after = before.push(elapsed_ns);
        proof {
            assert(after.drop_last() =~= before);
            lemma_total_is_bounded(before);
            lemma_largest_is_bounded(before);
        }
        let index: u64 = elapsed_ns / self.bucket_ns;
        let width: Ghost<int> = Ghost(self.bucket_ns as int);
        proof {
            assert(index * width@ <= elapsed_ns < (index + 1) * width@) by (nonlinear_arith)
                requires
                    index == elapsed_ns as int / width@,
                    width@ >= 1,
            ;
        }
        if index < self.buckets.len() as u64 {
            let slot: usize = index as usize;
            proof {
                lemma_between_is_bounded(before, index * width@, (index + 1) * width@);
            }
            let hits: u64 = self.buckets[slot];
            self.buckets.set(slot, hits + 1);
        } else {
            self.overflow += 1;
        }
        self.count += 1;
        self.sum_ns = self.sum_ns + elapsed_ns as u128;
        if elapsed_ns > self.max_ns {
            self.max_ns = elapsed_ns;
        }
        self.samples = Ghost(after);
        proof {
            assert forall|i: int| 0 <= i < self.buckets@.len() implies #[trigger] self.buckets@[i]
                == between(after, i * width@, (i + 1) * width@) by {
                if i < index {
                    assert((i + 1) * width@ <= index * width@) by (nonlinear_arith)
                        requires
                            i + 1 <= index,
                            width@ >= 1,
                    ;
                } else if i > index {
                    assert((index + 1) * width@ <= i * width@) by (nonlinear_arith)
                        requires
                            index + 1 <= i,
                            width@ >= 1,
                    ;
                }
            }
        }
    }

    pub fn count(&self) -> (count: u64)
        requires
            self.well_formed(),
        ensures
            count == self.samples().len(),
    {
        self.count
    }

    pub fn max_ns(&self) -> (max_ns: u64)
        requires
            self.well_formed(),
        ensures
            max_ns == largest(self.samples()),
    {
        self.max_ns
    }

    /// The mean of the samples, or zero without any.
    pub open spec fn mean<F: Fn(Operation) -> Scalar>(&self, unit: &F) -> Scalar {
        if self.samples().len() == 0 {
            ZERO
        } else {
            over(
                unit,
                from_wide_count(unit, total(self.samples()) as u128),
                from_count(unit, self.samples().len() as u64),
            )
        }
    }

    pub fn mean_ns<F: Fn(Operation) -> Scalar>(&self, unit: &F) -> (mean: Scalar)
        requires
            self.well_formed(),
            arith::functional(*unit),
        ensures
            mean == self.mean(unit),
    {
        if self.count == 0 {
            ZERO
        } else {
            over(unit, from_wide_count(unit, self.sum_ns), from_count(unit, self.count))
        }
    }

    /// The share of `n` samples that the quantile covers, rounded up.
    pub open spec fn share<F: Fn(Operation) -> Scalar>(unit: &F, quantile: Scalar, n: u64) -> u64 {
        ceil_to_count(times(unit, clamp(quantile, ZERO, ONE), from_count(unit, n)))
    }

    /// How many samples the quantile covers: one at least, and no more than there
    /// are.
    pub open spec fn covered<F: Fn(Operation) -> Scalar>(&self, unit: &F, quantile: Scalar) -> u64 {
        let n = self.samples().len() as u64;
        let share = Self::share(unit, quantile, n);
        if share > n {
            n
        } else if share < 1 {
            1
        } else {
            share
        }
    }

    /// `edge` buckets, and no fewer, hold `target` samples.
    pub open spec fn reaches(&self, edge: int, target: u64) -> bool {
        &&& 1 <= edge <= self.depth()
        &&& below(self.samples(), edge * self.width()) >= target
        &&& forall|k: int|
            1 <= k < edge ==> #[trigger] below(self.samples(), k * self.width()) < target
    }

    /// `ns` is the upper edge of the first bucket that brings the samples up to
    /// the quantile, or the maximum when no bucket does.
    pub open spec fn is_percentile<F: Fn(Operation) -> Scalar>(
        &self,
        unit: &F,
        quantile: Scalar,
        ns: u64,
    ) -> bool {
        if self.samples().len() == 0 {
            ns == 0
        } else {
            let target = self.covered(unit, quantile);
            ||| exists|edge: int| #[trigger]
                self.reaches(edge, target) && ns == edge * self.width()
            ||| ns == largest(self.samples()) && forall|k: int|
                1 <= k <= self.depth() ==> #[trigger] below(self.samples(), k * self.width())
                    < target
        }
    }

    /// Upper edge of the bucket holding the requested quantile.
    ///
    /// Overflow samples are attributed to the true maximum, so a percentile can
    /// never under-report a tail that ran off the end of the histogram.
    pub fn percentile_ns<F: Fn(Operation) -> Scalar>(&self, unit: &F, quantile: Scalar) -> (ns: u64)
        requires
            self.well_formed(),
            arith::functional(*unit),
        ensures
            self.is_percentile(unit, quantile, ns),
    {
        if self.count == 0 {
            return 0;
        }
        proof {
            device::lemma_unit_interval();
        }
        let share: u64 = ceil_to_count(
            times(unit, clamp(quantile, ZERO, ONE), from_count(unit, self.count)),
        );
        // A quantile of nothing is still the quantile of some sample.
        let target: u64 = if share > self.count {
            self.count
        } else if share < 1 {
            1
        } else {
            share
        };
        let mut cumulative: u64 = 0;
        let mut index: usize = 0;
        let ghost width = self.bucket_ns as int;
        proof {
            lemma_below_nothing(self.samples@);
        }
        while index < self.buckets.len()
            invariant
                self.well_formed(),
                width == self.bucket_ns,
                self.samples@.len() > 0,
                target == self.covered(unit, quantile),
                index <= self.buckets@.len(),
                cumulative == below(self.samples@, index * width),
                forall|k: int|
                    1 <= k <= index ==> #[trigger] below(self.samples@, k * width) < target,
            decreases self.buckets@.len() - index,
        {
            proof {
                assert(index * width <= (index + 1) * width) by (nonlinear_arith)
                    requires
                        width >= 1,
                ;
                lemma_below_splits(self.samples@, index * width, (index + 1) * width);
                lemma_below_is_bounded(self.samples@, (index + 1) * width);
            }
            cumulative += self.buckets[index];
            if cumulative >= target {
                proof {
                    let edge = index + 1;
                    assert(edge * width <= self.buckets@.len() * self.bucket_ns) by (nonlinear_arith)
                        requires
                            edge <= self.buckets@.len(),
                            width == self.bucket_ns,
                            width >= 1,
                    ;
                    assert(self.reaches(edge, target));
                }
                return (index as u64 + 1) * self.bucket_ns;
            }
            index += 1;
        }
        self.max_ns
    }

    pub fn reset(&mut self)
        requires
            old(self).well_formed(),
        ensures
            final(self).well_formed(),
            final(self).samples() == Seq::<u64>::empty(),
            final(self).width() == old(self).width(),
            final(self).depth() == old(self).depth(),
    {
        let mut i: usize = 0;
        let depth: usize = self.buckets.len();
        while i < depth
            invariant
                i <= depth == self.buckets@.len(),
                self.bucket_ns == old(self).bucket_ns,
                depth == old(self).buckets@.len(),
                forall|j: int| 0 <= j < i ==> self.buckets@[j] == 0,
            decreases depth - i,
        {
            self.buckets.set(i, 0);
            i += 1;
        }
        self.overflow = 0;
        self.count = 0;
        self.sum_ns = 0;
        self.max_ns = 0;
        self.samples = Ghost(Seq::empty());
    }

    /// A number of nanoseconds, in microseconds to one decimal.
    pub open spec fn micros<F: Fn(Operation) -> Scalar, P: Fn(Scalar, usize) -> String>(
        unit: &F,
        print: &P,
        ns: u64,
    ) -> Seq<char> {
        text::printed(*print, over(unit, from_count(unit, ns), THOUSAND), 1)
    }

    fn micros_text<F: Fn(Operation) -> Scalar, P: Fn(Scalar, usize) -> String>(
        unit: &F,
        print: &P,
        ns: u64,
    ) -> (text: String)
        requires
            arith::functional(*unit),
            text::prints(*print),
        ensures
            text@ == Self::micros(unit, print, ns),
    {
        print(over(unit, from_count(unit, ns), THOUSAND), 1)
    }

    /// `line` gives the count, the mean, three percentiles and the maximum.
    pub open spec fn is_summary<F: Fn(Operation) -> Scalar, P: Fn(Scalar, usize) -> String>(
        &self,
        unit: &F,
        print: &P,
        line: Seq<char>,
    ) -> bool {
        exists|p50: u64, p99: u64, p999: u64| #[trigger]
            self.quantiles(unit, p50, p99, p999) && line == "n="@ + text::decimal(
                self.samples().len(),
            ) + " mean="@ + text::printed(*print, over(unit, self.mean(unit), THOUSAND), 1)
                + " p50="@ + Self::micros(unit, print, p50) + " p99="@ + Self::micros(
                unit,
                print,
                p99,
            ) + " p99.9="@ + Self::micros(unit, print, p999) + " max="@ + Self::micros(
                unit,
                print,
                largest(self.samples()),
            ) + " us"@
    }

    /// One line for a report or a log: the count, the mean, three percentiles
    /// and the maximum.
    pub fn summary_us<F: Fn(Operation) -> Scalar, P: Fn(Scalar, usize) -> String>(
        &self,
        unit: &F,
        print: &P,
    ) -> (line: String)
        requires
            self.well_formed(),
            arith::functional(*unit),
            text::prints(*print),
        ensures
            self.is_summary(unit, print, line@),
    {
        let p50: u64 = self.percentile_ns(unit, P50);
        let p99: u64 = self.percentile_ns(unit, P99);
        let p999: u64 = self.percentile_ns(unit, P999);
        let mut line: String = "n=".to_owned();
        line.append(count_text(self.count).as_str());
        line.append(" mean=");
        line.append(print(over(unit, self.mean_ns(unit), THOUSAND), 1).as_str());
        line.append(" p50=");
        line.append(Self::micros_text(unit, print, p50).as_str());
        line.append(" p99=");
        line.append(Self::micros_text(unit, print, p99).as_str());
        line.append(" p99.9=");
        line.append(Self::micros_text(unit, print, p999).as_str());
        line.append(" max=");
        line.append(Self::micros_text(unit, print, self.max_ns).as_str());
        line.append(" us");
        assert(self.quantiles(unit, p50, p99, p999));
        line
    }

    /// The three percentiles a report line quotes.
    pub open spec fn quantiles<F: Fn(Operation) -> Scalar>(
        &self,
        unit: &F,
        p50: u64,
        p99: u64,
        p999: u64,
    ) -> bool {
        &&& self.is_percentile(unit, P50, p50)
        &&& self.is_percentile(unit, P99, p99)
        &&& self.is_percentile(unit, P999, p999)
    }
}

proof fn lemma_total_is_bounded(samples: Seq<u64>)
    ensures
        total(samples) <= samples.len() * u64::MAX,
    decreases samples.len(),
{
    if samples.len() > 0 {
        lemma_total_is_bounded(samples.drop_last());
    }
}

proof fn lemma_largest_is_bounded(samples: Seq<u64>)
    ensures
        forall|i: int| 0 <= i < samples.len() ==> #[trigger] samples[i] <= largest(samples),
    decreases samples.len(),
{
    if samples.len() > 0 {
        lemma_largest_is_bounded(samples.drop_last());
        assert forall|i: int| 0 <= i < samples.len() implies #[trigger] samples[i] <= largest(
            samples,
        ) by {
            if i < samples.len() - 1 {
                assert(samples[i] == samples.drop_last()[i]);
            }
        }
    }
}

proof fn lemma_below_nothing(samples: Seq<u64>)
    ensures
        below(samples, 0) == 0,
    decreases samples.len(),
{
    if samples.len() > 0 {
        lemma_below_nothing(samples.drop_last());
    }
}

proof fn lemma_below_splits(samples: Seq<u64>, low: int, high: int)
    requires
        low <= high,
    ensures
        below(samples, high) == below(samples, low) + between(samples, low, high),
    decreases samples.len(),
{
    if samples.len() > 0 {
        lemma_below_splits(samples.drop_last(), low, high);
    }
}

proof fn lemma_below_is_bounded(samples: Seq<u64>, edge: int)
    ensures
        below(samples, edge) <= samples.len(),
    decreases samples.len(),
{
    if samples.len() > 0 {
        lemma_below_is_bounded(samples.drop_last(), edge);
    }
}

proof fn lemma_between_is_bounded(samples: Seq<u64>, low: int, high: int)
    ensures
        between(samples, low, high) <= samples.len(),
    decreases samples.len(),
{
    if samples.len() > 0 {
        lemma_between_is_bounded(samples.drop_last(), low, high);
    }
}

proof fn lemma_all_below(samples: Seq<u64>, edge: int)
    requires
        forall|i: int| 0 <= i < samples.len() ==> #[trigger] samples[i] < edge,
    ensures
        below(samples, edge) == samples.len(),
    decreases samples.len(),
{
    if samples.len() > 0 {
        assert forall|i: int| 0 <= i < samples.len() - 1 implies #[trigger] samples.drop_last()[i]
            < edge by {
            assert(samples.drop_last()[i] == samples[i]);
        }
        lemma_all_below(samples.drop_last(), edge);
    }
}

proof fn lemma_below_is_monotonic(samples: Seq<u64>, low: int, high: int)
    requires
        low <= high,
    ensures
        below(samples, low) <= below(samples, high),
    decreases samples.len(),
{
    if samples.len() > 0 {
        lemma_below_is_monotonic(samples.drop_last(), low, high);
    }
}

/// A percentile is never under-reported: at least as many samples as the
/// quantile covers are no larger than it, wherever in the histogram or beyond
/// it they fell.
pub proof fn law_percentiles_cover_the_tail<F: Fn(Operation) -> Scalar>(
    histogram: StepTimeHistogram,
    unit: &F,
    quantile: Scalar,
    ns: u64,
)
    requires
        0 < histogram.samples().len() <= u64::MAX,
        histogram.is_percentile(unit, quantile, ns),
    ensures
        below(histogram.samples(), ns + 1) >= histogram.covered(unit, quantile),
{
    let samples = histogram.samples();
    let target = histogram.covered(unit, quantile);
    if exists|edge: int| #[trigger] histogram.reaches(edge, target) && ns == edge
        * histogram.width() {
        lemma_below_is_monotonic(samples, ns as int, ns + 1);
    } else {
        lemma_largest_is_bounded(samples);
        lemma_all_below(samples, ns + 1);
    }
}

/// A rounded value does not fall where what it rounds rises.
proof fn lemma_nearest_is_monotonic(low: int, high: int, den: int, a: Scalar, b: Scalar)
    requires
        arith::nearest(low, den, a),
        arith::nearest(high, den, b),
        den > 0,
        low < high,
    ensures
        scalar::exact(a) <= scalar::exact(b),
{
    let x = scalar::exact(a);
    let y = scalar::exact(b);
    assert(arith::distance(x * den, low) <= arith::distance(y * den, low));
    assert(arith::distance(y * den, high) <= arith::distance(x * den, high));
    if y < x {
        assert(y * den < x * den) by (nonlinear_arith)
            requires
                y < x,
                den > 0,
        ;
    }
}

/// A larger quantile covers no fewer of the samples.
proof fn lemma_share_is_monotonic<F: Fn(Operation) -> Scalar>(
    unit: &F,
    lower: Scalar,
    higher: Scalar,
    n: u64,
)
    requires
        arith::rounding(unit),
        is_at_most(lower, higher),
    ensures
        StepTimeHistogram::share(unit, lower, n) <= StepTimeHistogram::share(unit, higher, n),
{
    scalar::lemma_one();
    scalar::lemma_exact_order(ZERO, ZERO);
    scalar::lemma_exact_order(ZERO, ONE);
    let whole = scalar::unit();
    let a = clamp(lower, ZERO, ONE);
    let b = clamp(higher, ZERO, ONE);
    scalar::lemma_exact_order(a, ONE);
    scalar::lemma_exact_order(b, ONE);
    scalar::lemma_exact_order(a, b);
    scalar::lemma_exact_order(b, a);
    assert(0 <= scalar::exact(a) <= scalar::exact(b) <= whole);
    assert(is_finite(a) && is_finite(b)) by {
        scalar::lemma_exact_order(ONE, a);
        scalar::lemma_exact_order(ONE, b);
    }
    let size = from_count(unit, n);
    let count = n * whole;
    assert(arith::delivers(count, 1, size));
    lemma_counts_are_finite(n, size);
    let e = scalar::exact(size);
    let x = times(unit, a, size);
    let y = times(unit, b, size);
    let low = scalar::exact(a) * e;
    let high = scalar::exact(b) * e;
    assert(0 <= low <= high <= e * whole) by (nonlinear_arith)
        requires
            low == scalar::exact(a) * e,
            high == scalar::exact(b) * e,
            0 <= scalar::exact(a) <= scalar::exact(b) <= whole,
            e >= 0,
    ;
    scalar::lemma_largest(size);
    assert(e * whole <= scalar::exact(arith::LARGEST) * whole) by (nonlinear_arith)
        requires
            e <= scalar::exact(arith::LARGEST),
            whole > 0,
    ;
    assert(arith::delivers(low, whole, x));
    assert(arith::delivers(high, whole, y));
    arith::lemma_nearest_is_bounded(low, whole, x, ZERO);
    arith::lemma_nearest_is_bounded(high, whole, y, ZERO);
    if scalar::exact(a) == scalar::exact(b) {
        if scalar::exact(a) == 0 {
            arith::lemma_nothing_times(unit, size, a);
            arith::lemma_nothing_times(unit, size, b);
        } else {
            assert(a == b);
        }
    } else if e == 0 {
        arith::lemma_nothing_times(unit, a, size);
        arith::lemma_nothing_times(unit, b, size);
    } else {
        assert(low < high) by (nonlinear_arith)
            requires
                low == scalar::exact(a) * e,
                high == scalar::exact(b) * e,
                scalar::exact(a) < scalar::exact(b),
                e > 0,
        ;
        lemma_nearest_is_monotonic(low, high, whole, x, y);
    }
    lemma_rounding_up_is_monotonic(x, y);
}

/// Every count has a finite value.
pub proof fn lemma_counts_are_finite(n: u64, size: Scalar)
    requires
        arith::delivers(n * scalar::unit(), 1, size),
    ensures
        is_finite(size),
        scalar::exact(size) >= 0,
{
    let roof: Scalar = 0x43f0_0000_0000_0000;
    scalar::lemma_power(roof, 0x43f);
    scalar::lemma_one();
    lemma_pow2_adds(64, 1074);
    lemma2_to64_rest();
    scalar::lemma_largest(roof);
    scalar::lemma_exact_order(ZERO, ZERO);
    let whole = scalar::unit();
    assert(0 <= n * whole <= pow2(64) * whole) by (nonlinear_arith)
        requires
            n <= pow2(64),
            whole > 0,
    ;
    arith::lemma_nearest_is_bounded(n * whole, 1, size, ZERO);
}

/// Rounding up keeps the order of values that are not below zero.
proof fn lemma_rounding_up_is_monotonic(x: Scalar, y: Scalar)
    requires
        is_finite(x),
        is_finite(y),
        0 <= scalar::exact(x) <= scalar::exact(y),
    ensures
        ceil_to_count(x) <= ceil_to_count(y),
{
    scalar::lemma_one();
    scalar::lemma_exact_order(x, x);
    scalar::lemma_exact_order(y, y);
    let a = scalar::exact(x);
    let b = scalar::exact(y);
    let whole = scalar::unit();
    vstd::arithmetic::div_mod::lemma_fundamental_div_mod(a, whole);
    vstd::arithmetic::div_mod::lemma_fundamental_div_mod(b, whole);
    let p = a / whole;
    let q = b / whole;
    vstd::arithmetic::div_mod::lemma_div_is_ordered(a, b, whole);
    vstd::arithmetic::div_mod::lemma_div_pos_is_pos(a, whole);
    if p == q {
        assert(whole * p == whole * q);
    }
    if scalar::negative(y) {
        assert(b == 0 && a == 0);
    }
}

/// Percentiles are ordered: a larger quantile never gives a smaller one, and none
/// lies past the upper edge of the bucket the largest sample is in.
pub proof fn law_percentiles_are_ordered<F: Fn(Operation) -> Scalar>(
    histogram: StepTimeHistogram,
    unit: &F,
    lower: Scalar,
    higher: Scalar,
    low_ns: u64,
    high_ns: u64,
)
    requires
        arith::rounding(unit),
        0 < histogram.samples().len() <= u64::MAX,
        histogram.width() > 0,
        is_at_most(lower, higher),
        histogram.is_percentile(unit, lower, low_ns),
        histogram.is_percentile(unit, higher, high_ns),
    ensures
        low_ns <= high_ns,
        low_ns <= largest(histogram.samples()) + histogram.width(),
{
    let samples = histogram.samples();
    let width = histogram.width();
    lemma_share_is_monotonic(unit, lower, higher, samples.len() as u64);
    let few = histogram.covered(unit, lower);
    let many = histogram.covered(unit, higher);
    lemma_largest_is_bounded(samples);
    let most = largest(samples) as int;
    if exists|edge: int| #[trigger] histogram.reaches(edge, few) && low_ns == edge * width {
        let low = choose|edge: int| #[trigger]
            histogram.reaches(edge, few) && low_ns == edge * width;
        if low_ns > most + width {
            // The bucket before already held every sample.
            let edge = low - 1;
            assert(edge * width == low * width - width) by (nonlinear_arith)
                requires
                    edge == low - 1,
            ;
            lemma_all_below(samples, edge * width);
            if edge >= 1 {
                assert(below(samples, edge * width) < few);
            } else {
                assert(edge * width <= 0) by (nonlinear_arith)
                    requires
                        edge <= 0,
                        width > 0,
                ;
            }
            assert(false);
        }
        if exists|edge: int| #[trigger] histogram.reaches(edge, many) && high_ns == edge * width {
            let high = choose|edge: int| #[trigger]
                histogram.reaches(edge, many) && high_ns == edge * width;
            if high < low {
                assert(below(samples, high * width) < few);
            }
            assert(low * width <= high * width) by (nonlinear_arith)
                requires
                    low <= high,
                    width > 0,
            ;
        } else if low_ns > high_ns {
            let depth = histogram.depth() as int;
            assert(low * width <= depth * width) by (nonlinear_arith)
                requires
                    low <= depth,
                    width > 0,
            ;
            lemma_all_below(samples, depth * width);
            assert(below(samples, depth * width) < many);
        }
    } else {
        if exists|edge: int| #[trigger] histogram.reaches(edge, many) && high_ns == edge * width {
            let high = choose|edge: int| #[trigger]
                histogram.reaches(edge, many) && high_ns == edge * width;
            assert(below(samples, high * width) < few);
        }
    }
}

/// The value of a count of samples is not below the count: every count that fits a
/// double exactly, and every other that does not round down.
pub open spec fn counts_up<F: Fn(Operation) -> Scalar>(unit: &F, n: nat) -> bool {
    n < 2 * scalar::IMPLICIT_BIT || scalar::exact(from_count(unit, n as u64)) >= n * scalar::unit()
}

/// All of the samples is what the quantile of one covers.
proof fn lemma_one_covers_all<F: Fn(Operation) -> Scalar>(
    histogram: StepTimeHistogram,
    unit: &F,
)
    requires
        arith::rounding(unit),
        0 < histogram.samples().len() <= u64::MAX,
        counts_up(unit, histogram.samples().len()),
    ensures
        histogram.covered(unit, ONE) == histogram.samples().len(),
{
    let n = histogram.samples().len() as u64;
    let whole = scalar::unit();
    scalar::lemma_one();
    scalar::lemma_exact_order(ZERO, ONE);
    scalar::lemma_exact_order(ONE, ONE);
    let size = from_count(unit, n);
    assert(arith::delivers(n * whole, 1, size));
    lemma_counts_are_finite(n, size);
    if n < 2 * scalar::IMPLICIT_BIT {
        let same = scalar::lemma_representable(n as nat, 1074);
        arith::lemma_exact_is_kept(n * whole, 1, size, same);
    }
    let e = scalar::exact(size);
    let all = times(unit, ONE, size);
    assert(clamp(ONE, ZERO, ONE) == ONE);
    assert(arith::delivers(scalar::exact(ONE) * e, whole, all));
    assert(scalar::exact(ONE) * e == e * whole) by (nonlinear_arith)
        requires
            scalar::exact(ONE) == whole,
    ;
    arith::lemma_exact_is_kept(e * whole, whole, all, size);
    scalar::lemma_exact_order(all, all);
    assert(n * whole > 0) by (nonlinear_arith)
        requires
            n > 0,
            whole > 0,
    ;
    vstd::arithmetic::div_mod::lemma_div_is_ordered(n * whole, e, whole);
    vstd::arithmetic::div_mod::lemma_div_multiples_vanish(n as int, whole);
    assert(n * whole == whole * n) by (nonlinear_arith);
    assert(ceil_to_count(all) >= n);
}

/// A tail is never under-reported: the quantile of one is never below the largest
/// sample, and is exactly that when it lies past the last bucket.
pub proof fn law_the_whole_is_never_under_reported<F: Fn(Operation) -> Scalar>(
    histogram: StepTimeHistogram,
    unit: &F,
    ns: u64,
)
    requires
        arith::rounding(unit),
        0 < histogram.samples().len() <= u64::MAX,
        counts_up(unit, histogram.samples().len()),
        histogram.width() > 0,
        histogram.is_percentile(unit, ONE, ns),
    ensures
        ns >= largest(histogram.samples()),
        largest(histogram.samples()) >= histogram.depth() * histogram.width() ==> ns == largest(
            histogram.samples(),
        ),
{
    let samples = histogram.samples();
    let width = histogram.width();
    lemma_one_covers_all(histogram, unit);
    lemma_largest_is_there(samples);
    if exists|edge: int| #[trigger]
        histogram.reaches(edge, samples.len() as u64) && ns == edge * width {
        let edge = choose|edge: int| #[trigger]
            histogram.reaches(edge, samples.len() as u64) && ns == edge * width;
        lemma_none_left_out(samples, edge * width);
        assert(edge * width <= histogram.depth() * width) by (nonlinear_arith)
            requires
                edge <= histogram.depth(),
                width > 0,
        ;
    }
}

proof fn lemma_largest_is_there(samples: Seq<u64>)
    requires
        samples.len() > 0,
    ensures
        exists|i: int| 0 <= i < samples.len() && #[trigger] samples[i] == largest(samples),
    decreases samples.len(),
{
    let rest = samples.drop_last();
    if samples.last() > largest(rest) {
        assert(samples[samples.len() - 1] == largest(samples));
    } else if rest.len() == 0 {
        assert(samples[0] == largest(samples));
    } else {
        lemma_largest_is_there(rest);
        let i = choose|i: int| 0 <= i < rest.len() && #[trigger] rest[i] == largest(rest);
        assert(samples[i] == largest(samples));
    }
}

proof fn lemma_none_left_out(samples: Seq<u64>, edge: int)
    requires
        below(samples, edge) >= samples.len(),
    ensures
        forall|i: int| 0 <= i < samples.len() ==> #[trigger] samples[i] < edge,
    decreases samples.len(),
{
    if samples.len() > 0 {
        let rest = samples.drop_last();
        lemma_below_is_bounded(rest, edge);
        lemma_none_left_out(rest, edge);
        assert forall|i: int| 0 <= i < samples.len() implies #[trigger] samples[i] < edge by {
            if i < rest.len() {
                assert(samples[i] == rest[i]);
            }
        }
    }
}

/// What a histogram says does not depend on the order the samples came in: two of
/// the same shape that recorded the same samples agree on how many there were, on
/// their mean, on the largest, and on every percentile.
pub proof fn law_the_order_of_samples_does_not_matter<F: Fn(Operation) -> Scalar>(
    one: StepTimeHistogram,
    other: StepTimeHistogram,
    unit: &F,
    quantile: Scalar,
    ns: u64,
    other_ns: u64,
)
    requires
        one.width() == other.width() > 0,
        one.depth() == other.depth(),
        one.samples().to_multiset() == other.samples().to_multiset(),
        one.is_percentile(unit, quantile, ns),
        other.is_percentile(unit, quantile, other_ns),
    ensures
        one.samples().len() == other.samples().len(),
        largest(one.samples()) == largest(other.samples()),
        one.mean(unit) == other.mean(unit),
        ns == other_ns,
{
    let (a, b) = (one.samples(), other.samples());
    let width = one.width();
    lemma_any_order(a, b);
    let target = one.covered(unit, quantile);
    assert forall|k: int| below(a, k) == below(b, k) by {
        lemma_any_order_below(a, b, k);
    }
    if a.len() > 0 {
        if exists|edge: int| #[trigger] one.reaches(edge, target) && ns == edge * width {
            let edge = choose|edge: int| #[trigger]
                one.reaches(edge, target) && ns == edge * width;
            if exists|k: int| #[trigger] other.reaches(k, target) && other_ns == k * width {
                let k = choose|k: int| #[trigger]
                    other.reaches(k, target) && other_ns == k * width;
                if edge < k {
                    assert(below(b, edge * width) < target);
                }
                if k < edge {
                    assert(below(a, k * width) < target);
                }
            } else {
                assert(below(b, edge * width) < target);
            }
        } else if exists|k: int| #[trigger] other.reaches(k, target) && other_ns == k * width {
            let k = choose|k: int| #[trigger] other.reaches(k, target) && other_ns == k * width;
            assert(below(a, k * width) < target);
        }
    }
}

proof fn lemma_any_order(a: Seq<u64>, b: Seq<u64>)
    requires
        a.to_multiset() == b.to_multiset(),
    ensures
        a.len() == b.len(),
        largest(a) == largest(b),
        total(a) == total(b),
{
    a.to_multiset_ensures();
    b.to_multiset_ensures();
    let gather = |sum: nat, x: u64| sum + x as nat;
    let top = |most: u64, x: u64|
        if x > most {
            x
        } else {
            most
        };
    lemma_total_is_a_fold(a, gather);
    lemma_total_is_a_fold(b, gather);
    lemma_largest_is_a_fold(a, top);
    lemma_largest_is_a_fold(b, top);
    vstd::seq_lib::lemma_fold_left_permutation(a, b, gather, 0nat);
    vstd::seq_lib::lemma_fold_left_permutation(a, b, top, 0u64);
}

proof fn lemma_any_order_below(a: Seq<u64>, b: Seq<u64>, edge: int)
    requires
        a.to_multiset() == b.to_multiset(),
    ensures
        below(a, edge) == below(b, edge),
{
    let tally = |n: nat, x: u64|
        n + if x < edge {
            1nat
        } else {
            0nat
        };
    lemma_below_is_a_fold(a, edge, tally);
    lemma_below_is_a_fold(b, edge, tally);
    vstd::seq_lib::lemma_fold_left_permutation(a, b, tally, 0nat);
}

proof fn lemma_total_is_a_fold(samples: Seq<u64>, gather: spec_fn(nat, u64) -> nat)
    requires
        forall|sum: nat, x: u64| #[trigger] gather(sum, x) == sum + x as nat,
    ensures
        samples.fold_left(0nat, gather) == total(samples),
    decreases samples.len(),
{
    if samples.len() > 0 {
        lemma_total_is_a_fold(samples.drop_last(), gather);
    }
}

proof fn lemma_largest_is_a_fold(samples: Seq<u64>, top: spec_fn(u64, u64) -> u64)
    requires
        forall|most: u64, x: u64| #[trigger]
            top(most, x) == if x > most {
                x
            } else {
                most
            },
    ensures
        samples.fold_left(0u64, top) == largest(samples),
    decreases samples.len(),
{
    if samples.len() > 0 {
        lemma_largest_is_a_fold(samples.drop_last(), top);
    }
}

proof fn lemma_below_is_a_fold(samples: Seq<u64>, edge: int, tally: spec_fn(nat, u64) -> nat)
    requires
        forall|n: nat, x: u64| #[trigger]
            tally(n, x) == n + if x < edge {
                1nat
            } else {
                0nat
            },
    ensures
        samples.fold_left(0nat, tally) == below(samples, edge),
    decreases samples.len(),
{
    if samples.len() > 0 {
        lemma_below_is_a_fold(samples.drop_last(), edge, tally);
    }
}

/// Realtime factor over a sliding window.
///
/// 1.0 means the plant is advancing exactly as fast as wall clock. Below 1.0
/// the driver is in slow motion, which they will not necessarily notice and
/// will absolutely misattribute.
#[derive(Clone, Copy, PartialEq, Eq, Structural, Debug)]
pub struct RealtimeFactor {
    pub window_ns: u64,
    pub window_start_ns: u64,
    pub sim_at_window_start: Scalar,
    pub current: Scalar,
}

impl RealtimeFactor {
    /// Nanoseconds since the window opened, never negative.
    pub open spec fn elapsed(self, now_ns: u64) -> u64 {
        if now_ns >= self.window_start_ns {
            (now_ns - self.window_start_ns) as u64
        } else {
            0
        }
    }

    /// The factor once `now_ns` is in: a new one when the window is over, and
    /// the old one until then.
    pub open spec fn updated<F: Fn(Operation) -> Scalar>(
        self,
        unit: &F,
        now_ns: u64,
        sim_time: Scalar,
    ) -> Self {
        if self.elapsed(now_ns) >= self.window_ns {
            RealtimeFactor {
                window_ns: self.window_ns,
                window_start_ns: now_ns,
                sim_at_window_start: sim_time,
                current: over(
                    unit,
                    minus(unit, sim_time, self.sim_at_window_start),
                    times(unit, from_count(unit, self.elapsed(now_ns)), NANO),
                ),
            }
        } else {
            self
        }
    }

    pub fn new(window_ns: u64) -> (rtf: Self)
        ensures
            rtf == (RealtimeFactor {
                window_ns,
                window_start_ns: 0,
                sim_at_window_start: ZERO,
                current: ONE,
            }),
    {
        RealtimeFactor {
            window_ns,
            window_start_ns: 0,
            sim_at_window_start: ZERO,
            current: ONE,
        }
    }

    pub fn start(&mut self, now_ns: u64, sim_time: Scalar)
        ensures
            *final(self) == (RealtimeFactor {
                window_ns: old(self).window_ns,
                window_start_ns: now_ns,
                sim_at_window_start: sim_time,
                current: ONE,
            }),
    {
        self.window_start_ns = now_ns;
        self.sim_at_window_start = sim_time;
        self.current = ONE;
    }

    pub fn update<F: Fn(Operation) -> Scalar>(
        &mut self,
        unit: &F,
        now_ns: u64,
        sim_time: Scalar,
    ) -> (factor: Scalar)
        requires
            arith::functional(*unit),
        ensures
            *final(self) == old(self).updated(unit, now_ns, sim_time),
            factor == final(self).current,
    {
        let elapsed: u64 = now_ns.saturating_sub(self.window_start_ns);
        if elapsed >= self.window_ns {
            let advanced: Scalar = minus(unit, sim_time, self.sim_at_window_start);
            self.current = over(unit, advanced, times(unit, from_count(unit, elapsed), NANO));
            self.window_start_ns = now_ns;
            self.sim_at_window_start = sim_time;
        }
        self.current
    }

    pub fn value(&self) -> (factor: Scalar)
        ensures
            factor == self.current,
    {
        self.current
    }
}

/// A nanosecond is a billionth of a second.
proof fn lemma_nano()
    ensures
        is_finite(NANO),
        size(number(NANO) * 1000000000real - 1real) <= epsilon(),
        number(NANO) > 0real,
{
    let m: nat = 0x11_2e0b_e826_d695;
    lemma2_to64();
    lemma2_to64_rest();
    scalar::lemma_scaled(NANO, m, 0, 993);
    lemma_pow2_adds(82, 992);
    lemma_pow2_adds(41, 41);
    lemma_pow2_adds(20, 21);
    lemma_pow2_pos(992);
    let g = pow2(992) as real;
    let big = 4835703278458516698824704real;
    numbers::lemma_product_of_wholes(m as int, pow2(992) as int);
    numbers::lemma_product_of_wholes(pow2(82) as int, pow2(992) as int);
    let n = number(NANO);
    numbers::lemma_number(NANO);
    assert(pow2(41) == 2199023255552);
    assert(pow2(82) == 4835703278458516698824704);
    assert(n * big == m as real) by (nonlinear_arith)
        requires
            n * (big * g) == (m as real) * g,
            g > 0real,
    ;
}

/// A span of host time in seconds, as the machine has it.
proof fn lemma_seconds<F: Fn(Operation) -> Scalar>(unit: &F, ns: u64)
    requires
        arith::rounding(unit),
        ns > 0,
    ensures
        ({
            let t = number(times(unit, from_count(unit, ns), NANO));
            let seconds = ns as real / 1000000000real;
            &&& is_finite(times(unit, from_count(unit, ns), NANO))
            &&& size(t - seconds) * 9007199254740992real <= 5real * seconds
            &&& t > 0real
        }),
{
    let count = from_count(unit, ns);
    let u = scalar::unit();
    scalar::lemma_one();
    lemma_nano();
    numbers::lemma_tiny();
    let w = u as real;
    let n = ns as real;
    numbers::lemma_product_of_wholes(ns as int, u);
    assert(n * (1real * w) == n * w);
    numbers::lemma_in_range(n);
    numbers::lemma_delivered_is_close(ns as int * u, 1, count, n);
    let c = number(count);
    let d = number(NANO);
    let k = 9007199254740992real;
    let e = epsilon();
    assert((n * e) * k == n) by (nonlinear_arith)
        requires
            e * k == 1real,
    ;
    // The count, to two parts in 2^53.
    let a = c - n;
    assert(size(a) * k <= 2real * n);
    // A nanosecond, to one.
    let b = d * 1000000000real - 1real;
    assert(size(b) * k <= 1real);
    let cb = c * b;
    numbers::lemma_size_of_product(c, b);
    numbers::lemma_multiples(size(b) * k, 1real, c);
    assert(size(cb) * k <= c) by {
        assert(c * (size(b) * k) == (c * size(b)) * k) by (nonlinear_arith);
    }
    let cd = c * d;
    assert(cb == 1000000000real * cd - c) by (nonlinear_arith)
        requires
            cb == c * b,
            cd == c * d,
            b == d * 1000000000real - 1real,
    ;
    numbers::lemma_in_range(cd);
    numbers::lemma_close_times(unit, count, NANO);
    let t = number(times(unit, count, NANO));
    assert((size(cd) * e) * k == size(cd)) by (nonlinear_arith)
        requires
            e * k == 1real,
    ;
    assert(size(t - cd) * k <= size(cd) + tiny() * k);
}

/// When a window closes the factor is the simulated time that passed in it over the
/// wall time that passed in it, but for rounding, whatever went before. So a loop
/// that keeps up is shown a factor of one, in its first second and in any other.
pub proof fn law_the_factor_is_simulated_over_wall_time<F: Fn(Operation) -> Scalar>(
    rtf: RealtimeFactor,
    unit: &F,
    now_ns: u64,
    sim_time: Scalar,
)
    requires
        arith::rounding(unit),
        rtf.window_start_ns < now_ns,
        now_ns - rtf.window_start_ns >= rtf.window_ns,
        is_finite(sim_time),
        is_finite(rtf.sim_at_window_start),
        size(number(sim_time) - number(rtf.sim_at_window_start)) < 1000000000000000000real,
    ensures
        ({
            let after = rtf.updated(unit, now_ns, sim_time);
            let wall = (now_ns - rtf.window_start_ns) as real / 1000000000real;
            let passed = number(sim_time) - number(rtf.sim_at_window_start);
            &&& is_finite(after.current)
            &&& size(number(after.current) * wall - passed) <= 9real * epsilon() * size(passed)
                + 4real * (wall + 1real) * tiny()
            &&& passed == wall ==> size(number(after.current) - 1real) <= 10real * epsilon()
            &&& after.window_start_ns == now_ns
            &&& after.sim_at_window_start == sim_time
            &&& after.window_ns == rtf.window_ns
        }),
{
    let ns = (now_ns - rtf.window_start_ns) as u64;
    let after = rtf.updated(unit, now_ns, sim_time);
    let passed = number(sim_time) - number(rtf.sim_at_window_start);
    let wall = ns as real / 1000000000real;
    lemma_seconds(unit, ns);
    numbers::lemma_tiny();
    numbers::lemma_in_range(passed);
    let advanced = minus(unit, sim_time, rtf.sim_at_window_start);
    let length = times(unit, from_count(unit, ns), NANO);
    numbers::lemma_close_minus(unit, sim_time, rtf.sim_at_window_start);
    let d = number(advanced);
    let t = number(length);
    let q = d / t;
    assert(q * t == d) by (nonlinear_arith)
        requires
            q == d / t,
            t > 0real,
    ;
    let e = epsilon();
    let k = 9007199254740992real;
    assert((size(passed) * e) * k == size(passed)) by (nonlinear_arith)
        requires
            e * k == 1real,
    ;
    // The quotient is ordinary too.
    numbers::lemma_size_of_product(q, t);
    let least = 1real / 2000000000real;
    numbers::lemma_multiples(least, t, size(q));
    numbers::lemma_in_range(q);
    numbers::lemma_close_over(unit, advanced, length);
    lemma_factor(passed, wall, d, t, q, number(after.current));
}

/// Two windows in which the same time passed, simulated and on the wall, have the
/// same factor, however long the sessions had been running before they opened.
pub proof fn law_the_factor_forgets_what_went_before<F: Fn(Operation) -> Scalar>(
    one: RealtimeFactor,
    other: RealtimeFactor,
    unit: &F,
    now_ns: u64,
    other_ns: u64,
    sim_time: Scalar,
    other_time: Scalar,
    passed: Scalar,
)
    requires
        arith::rounding(unit),
        one.window_start_ns < now_ns,
        now_ns - one.window_start_ns == other_ns - other.window_start_ns,
        now_ns - one.window_start_ns >= one.window_ns,
        now_ns - one.window_start_ns >= other.window_ns,
        is_finite(sim_time),
        is_finite(other_time),
        is_finite(one.sim_at_window_start),
        is_finite(other.sim_at_window_start),
        is_finite(passed),
        number(sim_time) - number(one.sim_at_window_start) == number(passed),
        number(other_time) - number(other.sim_at_window_start) == number(passed),
    ensures
        number(one.updated(unit, now_ns, sim_time).current) == number(
            other.updated(unit, other_ns, other_time).current,
        ),
{
    let ns = (now_ns - one.window_start_ns) as u64;
    let length = times(unit, from_count(unit, ns), NANO);
    let a = minus(unit, sim_time, one.sim_at_window_start);
    let b = minus(unit, other_time, other.sim_at_window_start);
    numbers::lemma_exact_results(unit, sim_time, one.sim_at_window_start, passed);
    numbers::lemma_exact_results(unit, other_time, other.sim_at_window_start, passed);
    if scalar::exact(passed) == 0 {
        lemma_seconds(unit, ns);
        numbers::lemma_number(length);
        numbers::lemma_signs(unit, a, length);
        numbers::lemma_signs(unit, b, length);
        numbers::lemma_number(over(unit, a, length));
        numbers::lemma_number(over(unit, b, length));
    } else {
        numbers::lemma_same_word(a, b);
    }
}

/// The roundings of a factor, taken together.
proof fn lemma_factor(passed: real, wall: real, d: real, t: real, q: real, c: real)
    requires
        wall >= 1real / 1000000000real,
        t > 0real,
        q * t == d,
        size(t - wall) * 9007199254740992real <= 5real * wall,
        size(d - passed) <= size(passed) * epsilon() + tiny(),
        size(c - q) <= size(q) * epsilon() + tiny(),
    ensures
        size(c * wall - passed) <= 9real * epsilon() * size(passed) + 4real * (wall + 1real)
            * tiny(),
        passed == wall ==> size(c - 1real) <= 10real * epsilon(),
{
    numbers::lemma_tiny();
    let e = epsilon();
    let k = 9007199254740992real;
    let y = tiny();
    let p = size(passed);
    let pe = p * e;
    assert(pe * k == p) by (nonlinear_arith)
        requires
            pe == p * e,
            e * k == 1real,
    ;
    // c t - d
    let f = c - q;
    let ft = f * t;
    assert(ft == c * t - d) by (nonlinear_arith)
        requires
            ft == f * t,
            f == c - q,
            q * t == d,
    ;
    numbers::lemma_size_of_product(f, t);
    numbers::lemma_size_of_product(q, t);
    numbers::lemma_multiples(size(f), size(q) * e + y, t);
    let de = size(d) * e;
    assert((size(q) * e + y) * t == (size(q) * t) * e + y * t) by (nonlinear_arith);
    assert(size(ft) <= de + y * t);
    assert(de * k == size(d)) by (nonlinear_arith)
        requires
            de == size(d) * e,
            e * k == 1real,
    ;
    // c wall - c t
    let g = wall - t;
    let cg = c * g;
    assert(cg == c * wall - c * t) by (nonlinear_arith)
        requires
            cg == c * g,
            g == wall - t,
    ;
    numbers::lemma_size_of_product(c, g);
    numbers::lemma_size_of_product(c, t);
    let ct = size(c) * t;
    numbers::lemma_multiples(size(g) * k, 6real * t, size(c));
    assert(size(c) * (size(g) * k) == (size(c) * size(g)) * k) by (nonlinear_arith);
    assert(size(c) * (6real * t) == 6real * ct) by (nonlinear_arith)
        requires
            ct == size(c) * t,
    ;
    assert(size(cg) * k <= 6real * ct);
    let yt = y * t;
    let yw = y * wall;
    numbers::lemma_multiples(t, 2real * wall, y);
    assert(y * (2real * wall) == 2real * yw) by (nonlinear_arith)
        requires
            yw == y * wall,
    ;
    assert(4real * (wall + 1real) * y == 4real * yw + 4real * y) by (nonlinear_arith)
        requires
            yw == y * wall,
    ;
    assert(9real * e * p == 9real * pe) by (nonlinear_arith)
        requires
            pe == p * e,
    ;
    assert(yw >= 0real) by (nonlinear_arith)
        requires
            yw == y * wall,
            y > 0real,
            wall > 0real,
    ;
    assert(ct <= size(d) + de + yt);
    assert(size(c * wall - passed) <= 9real * pe + 4real * yw + 4real * y);
    if passed == wall {
        let over = c - 1real;
        assert(over * wall == c * wall - wall) by (nonlinear_arith)
            requires
                over == c - 1real,
        ;
        numbers::lemma_size_of_product(over, wall);
        let ew = e * wall;
        assert(ew == pe) by (nonlinear_arith)
            requires
                ew == e * wall,
                pe == p * e,
                p == wall,
        ;
        assert((10real * e) * wall == 10real * ew) by (nonlinear_arith)
            requires
                ew == e * wall,
        ;
        assert(size(over) * wall <= (10real * e) * wall) by {
            // The smallest number is nothing beside a part in 2^53 of a nanosecond.
            assert(4real * yw + 4real * y <= ew) by {
                numbers::lemma_multiples(y, e * (1real / 100000000000real), wall);
                assert((e * (1real / 100000000000real)) * wall == ew * (1real / 100000000000real))
                    by (nonlinear_arith)
                    requires
                        ew == e * wall,
                ;
                numbers::lemma_multiples(1real / 1000000000real, wall, e);
            }
        }
        if size(over) > 10real * e {
            assert(size(over) * wall > (10real * e) * wall) by (nonlinear_arith)
                requires
                    size(over) > 10real * e,
                    wall > 0real,
            ;
        }
    }
}

/// The largest sample is one of the samples, and none is larger.
pub proof fn law_the_largest_is_the_largest(samples: Seq<u64>, i: int)
    requires
        0 <= i < samples.len(),
    ensures
        samples[i] <= largest(samples),
        samples.contains(largest(samples)),
    decreases samples.len(),
{
    let before = samples.drop_last();
    if i < samples.len() - 1 {
        assert(before[i] == samples[i]);
        law_the_largest_is_the_largest(before, i);
    }
    if before.len() > 0 {
        law_the_largest_is_the_largest(before, 0);
        let j = before.index_of(largest(before));
        assert(before.contains(largest(before)));
        assert(samples[j] == largest(before));
    }
    assert(samples[samples.len() - 1] == samples.last());
}

/// The mean is what the samples come to together over how many they are, but for
/// rounding.
pub proof fn law_the_mean_is_the_total_over_the_count<F: Fn(Operation) -> Scalar>(
    histogram: StepTimeHistogram,
    unit: &F,
    sum: Scalar,
    count: Scalar,
)
    requires
        arith::rounding(unit),
        histogram.samples().len() > 0,
        sum == from_wide_count(unit, total(histogram.samples()) as u128),
        is_finite(sum),
        number(sum) == total(histogram.samples()) as real,
        total(histogram.samples()) <= 1000000000000,
        count == from_count(unit, histogram.samples().len() as u64),
        is_finite(count),
        number(count) == histogram.samples().len() as real,
    ensures
        size(
            number(histogram.mean(unit)) - total(histogram.samples()) as real
                / histogram.samples().len() as real,
        ) * 1000real <= 1real,
{
    numbers::lemma_within_over(
        unit,
        sum,
        number(sum),
        0real,
        count,
        1000000000000real,
        0real,
    );
}

} // verus!
