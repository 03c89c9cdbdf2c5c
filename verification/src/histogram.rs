//! A histogram of latencies over fixed bounds.

use vstd::prelude::*;

verus! {

/// The sum of the numbers in `counts`.
pub open spec fn total(counts: Seq<nat>) -> nat
    decreases counts.len(),
{
    if counts.len() == 0 {
        0
    } else {
        total(counts.drop_last()) + counts.last()
    }
}

/// True when each bound is below the next.
pub open spec fn strictly_increasing(bounds: Seq<u64>) -> bool {
    forall|i: int, j: int| 0 <= i < j < bounds.len() ==> bounds[i] < bounds[j]
}

/// The bucket that `value` falls in: the index of the first bound that is
/// not below it, or the number of bounds if every bound is below it.
pub open spec fn bucket_of(bounds: Seq<u64>, value: u64) -> nat
    decreases bounds.len(),
{
    if bounds.len() == 0 || value <= bounds[0] {
        0
    } else {
        1 + bucket_of(bounds.drop_first(), value)
    }
}

/// The usual latency bounds, in microseconds: from 5 milliseconds to 10
/// seconds.
pub open spec fn latency_bounds() -> Seq<u64> {
    seq![
        5_000,
        10_000,
        25_000,
        50_000,
        100_000,
        250_000,
        500_000,
        1_000_000,
        2_500_000,
        5_000_000,
        10_000_000,
    ]
}

/// A histogram as mathematics: its bounds, how many observations fell in
/// each bucket, and the sum of all observations. Bucket `i` holds the
/// observations above bound `i - 1` and not above bound `i`; one more bucket
/// behind the last bound holds those above every bound.
pub struct HistogramView {
    pub bounds: Seq<u64>,
    pub counts: Seq<nat>,
    pub sum: nat,
}

impl HistogramView {
    /// True when the bounds rise and there is one bucket more than bounds.
    pub open spec fn wf(self) -> bool {
        &&& strictly_increasing(self.bounds)
        &&& self.counts.len() == self.bounds.len() + 1
    }

    /// The histogram over `bounds` that has observed nothing.
    pub open spec fn empty(bounds: Seq<u64>) -> HistogramView {
        HistogramView { bounds, counts: Seq::new(bounds.len() + 1, |i: int| 0nat), sum: 0 }
    }

    /// How many observations were made.
    pub open spec fn count(self) -> nat {
        total(self.counts)
    }

    /// How many observations fell in bucket `i` or in one below it.
    pub open spec fn cumulative(self, i: int) -> nat {
        total(self.counts.take(i + 1))
    }

    /// The histogram after one more observation.
    pub open spec fn observe(self, value: u64) -> HistogramView {
        let bucket = bucket_of(self.bounds, value) as int;
        HistogramView {
            bounds: self.bounds,
            counts: self.counts.update(bucket, self.counts[bucket] + 1),
            sum: self.sum + value as nat,
        }
    }

    /// The histogram of what `self` and `other`, which have the same bounds,
    /// observed together.
    pub open spec fn merge(self, other: HistogramView) -> HistogramView {
        HistogramView {
            bounds: self.bounds,
            counts: Seq::new(self.counts.len(), |i: int| self.counts[i] + other.counts[i]),
            sum: self.sum + other.sum,
        }
    }
}

/// `bucket_of` is the one index before which every bound is below `value`
/// and at which the bounds end or reach `value`.
proof fn lemma_bucket_of(bounds: Seq<u64>, value: u64, i: int)
    requires
        0 <= i <= bounds.len(),
        forall|j: int| 0 <= j < i ==> bounds[j] < value,
        i < bounds.len() ==> value <= bounds[i],
    ensures
        bucket_of(bounds, value) == i,
    decreases bounds.len(),
{
    if i > 0 {
        let rest = bounds.drop_first();
        assert forall|j: int| 0 <= j < i - 1 implies rest[j] < value by {
            assert(rest[j] == bounds[j + 1]);
        }
        lemma_bucket_of(rest, value, i - 1);
    }
}

/// The bucket of a value is one of the buckets.
proof fn lemma_bucket_in_range(bounds: Seq<u64>, value: u64)
    ensures
        bucket_of(bounds, value) <= bounds.len(),
    decreases bounds.len(),
{
    if bounds.len() > 0 && value > bounds[0] {
        lemma_bucket_in_range(bounds.drop_first(), value);
    }
}

/// Counts that are all zero have total zero.
proof fn lemma_total_zero(counts: Seq<nat>)
    requires
        forall|i: int| 0 <= i < counts.len() ==> counts[i] == 0,
    ensures
        total(counts) == 0,
    decreases counts.len(),
{
    if counts.len() > 0 {
        lemma_total_zero(counts.drop_last());
    }
}

/// Raising one count by one raises the total by one.
proof fn lemma_total_update(counts: Seq<nat>, i: int)
    requires
        0 <= i < counts.len(),
    ensures
        total(counts.update(i, counts[i] + 1)) == total(counts) + 1,
    decreases counts.len(),
{
    let raised = counts.update(i, counts[i] + 1);
    if i == counts.len() - 1 {
        assert(raised.drop_last() =~= counts.drop_last());
    } else {
        lemma_total_update(counts.drop_last(), i);
        assert(raised.drop_last() =~= counts.drop_last().update(i, counts[i] + 1));
    }
}

/// The total of a prefix is at most the total of the whole.
proof fn lemma_total_prefix(counts: Seq<nat>, n: int)
    requires
        0 <= n <= counts.len(),
    ensures
        total(counts.take(n)) <= total(counts),
    decreases counts.len(),
{
    if n == counts.len() {
        assert(counts.take(n) =~= counts);
    } else {
        lemma_total_prefix(counts.drop_last(), n);
        assert(counts.drop_last().take(n) =~= counts.take(n));
    }
}

/// Each count is at most the total.
proof fn lemma_total_bounds_each(counts: Seq<nat>, i: int)
    requires
        0 <= i < counts.len(),
    ensures
        counts[i] <= total(counts),
    decreases counts.len(),
{
    if i < counts.len() - 1 {
        lemma_total_bounds_each(counts.drop_last(), i);
    }
}

/// Adding two rows of counts bucket by bucket adds their totals.
proof fn lemma_total_merge(a: Seq<nat>, b: Seq<nat>)
    requires
        a.len() == b.len(),
    ensures
        total(Seq::new(a.len(), |i: int| a[i] + b[i])) == total(a) + total(b),
    decreases a.len(),
{
    if a.len() > 0 {
        let both = Seq::new(a.len(), |i: int| a[i] + b[i]);
        let front = Seq::new(a.drop_last().len(), |i: int| a.drop_last()[i] + b.drop_last()[i]);
        lemma_total_merge(a.drop_last(), b.drop_last());
        assert(both.drop_last() =~= front);
    }
}

/// A histogram that has observed nothing is well formed if its bounds rise,
/// and its count is zero.
pub proof fn lemma_empty(bounds: Seq<u64>)
    ensures
        strictly_increasing(bounds) ==> HistogramView::empty(bounds).wf(),
        HistogramView::empty(bounds).count() == 0,
{
    lemma_total_zero(HistogramView::empty(bounds).counts);
}

/// An observation leaves a histogram well formed, over the same bounds,
/// with one more observation counted and the value added to the sum.
pub proof fn lemma_observe(h: HistogramView, value: u64)
    requires
        h.wf(),
    ensures
        h.observe(value).wf(),
        h.observe(value).bounds == h.bounds,
        h.observe(value).count() == h.count() + 1,
        h.observe(value).sum == h.sum + value,
{
    lemma_bucket_in_range(h.bounds, value);
    lemma_total_update(h.counts, bucket_of(h.bounds, value) as int);
}

/// The order of two observations does not matter.
pub proof fn lemma_observe_commutes(h: HistogramView, first: u64, second: u64)
    requires
        h.wf(),
    ensures
        h.observe(first).observe(second) == h.observe(second).observe(first),
{
    lemma_bucket_in_range(h.bounds, first);
    lemma_bucket_in_range(h.bounds, second);
    assert(h.observe(first).observe(second).counts =~= h.observe(second).observe(first).counts);
}

/// Bucket `i` takes `value` in, itself or through a bucket below it, exactly
/// when it has no upper bound or `value` is not above its bound.
pub proof fn lemma_bucket_takes(bounds: Seq<u64>, value: u64, i: int)
    requires
        strictly_increasing(bounds),
        0 <= i <= bounds.len(),
    ensures
        bucket_of(bounds, value) <= i <==> (i == bounds.len() || value <= bounds[i]),
    decreases bounds.len(),
{
    lemma_bucket_in_range(bounds, value);
    if bounds.len() > 0 && value > bounds[0] {
        if i > 0 {
            let rest = bounds.drop_first();
            assert forall|a: int, b: int| 0 <= a < b < rest.len() implies rest[a] < rest[b] by {
                assert(rest[a] == bounds[a + 1] && rest[b] == bounds[b + 1]);
            }
            lemma_bucket_takes(rest, value, i - 1);
            assert(i < bounds.len() ==> rest[i - 1] == bounds[i]);
        }
    } else if bounds.len() > 0 && i > 0 && i < bounds.len() {
        assert(bounds[0] < bounds[i]);
    }
}

/// An observation raises by one the cumulative count of each bucket whose
/// bound it is not above, and of the bucket without a bound; it leaves the
/// others as they were.
pub proof fn lemma_observe_cumulative(h: HistogramView, value: u64, i: int)
    requires
        h.wf(),
        0 <= i < h.counts.len(),
    ensures
        h.observe(value).cumulative(i) == h.cumulative(i) + if i == h.bounds.len() || value
            <= h.bounds[i] {
            1nat
        } else {
            0nat
        },
{
    let bucket = bucket_of(h.bounds, value) as int;
    lemma_bucket_in_range(h.bounds, value);
    lemma_bucket_takes(h.bounds, value, i);
    let before = h.counts.take(i + 1);
    let after = h.observe(value).counts.take(i + 1);
    if bucket <= i {
        lemma_total_update(before, bucket);
        assert(after =~= before.update(bucket, before[bucket] + 1));
    } else {
        assert(after =~= before);
    }
}

/// The cumulative counts never fall from one bucket to the next, and the
/// last of them is the count.
pub proof fn lemma_cumulative_rises(h: HistogramView, i: int)
    requires
        h.wf(),
        0 <= i < h.counts.len(),
    ensures
        i > 0 ==> h.cumulative(i - 1) <= h.cumulative(i),
        h.cumulative(i) <= h.count(),
        i == h.bounds.len() ==> h.cumulative(i) == h.count(),
{
    lemma_total_prefix(h.counts, i + 1);
    if i > 0 {
        lemma_total_prefix(h.counts.take(i + 1), i);
        assert(h.counts.take(i + 1).take(i) =~= h.counts.take(i));
    }
    if i == h.bounds.len() {
        assert(h.counts.take(i + 1) =~= h.counts);
    }
}

/// Merging leaves histograms over the same bounds well formed, over those
/// bounds, and adds their counts and their sums. It does not matter which
/// is merged into which.
pub proof fn lemma_merge(a: HistogramView, b: HistogramView)
    requires
        a.wf(),
        b.wf(),
        a.bounds == b.bounds,
    ensures
        a.merge(b).wf(),
        a.merge(b).bounds == a.bounds,
        a.merge(b).count() == a.count() + b.count(),
        a.merge(b).sum == a.sum + b.sum,
        a.merge(b) == b.merge(a),
{
    lemma_total_merge(a.counts, b.counts);
    assert(a.merge(b).counts =~= b.merge(a).counts);
}

/// A latency histogram over fixed bounds, in microseconds.
#[derive(Debug)]
pub struct Histogram {
    bounds: Vec<u64>,
    counts: Vec<u64>,
    sum: u128,
    count: u64,
}

impl View for Histogram {
    type V = HistogramView;

    closed spec fn view(&self) -> HistogramView {
        HistogramView {
            bounds: self.bounds@,
            counts: Seq::new(self.counts@.len(), |i: int| self.counts@[i] as nat),
            sum: self.sum as nat,
        }
    }
}

impl Histogram {
    /// The invariant of a histogram: its view is well formed, the stored
    /// count is the total of the buckets, and the sum is within what that
    /// many observations can add up to.
    pub closed spec fn wf(&self) -> bool {
        &&& self@.wf()
        &&& self.count == self@.count()
        &&& self.sum <= self.count * u64::MAX
    }

    /// A well-formed histogram has a well-formed view, and its count fits
    /// the machine.
    pub proof fn lemma_wf(&self)
        requires
            self.wf(),
        ensures
            self@.wf(),
            self@.count() <= u64::MAX,
    {
    }

    /// A histogram over the usual latency bounds that has observed nothing.
    pub fn new() -> (made: Histogram)
        ensures
            made.wf(),
            made@ == HistogramView::empty(latency_bounds()),
    {
        let bounds: Vec<u64> = vec![
            5_000,
            10_000,
            25_000,
            50_000,
            100_000,
            250_000,
            500_000,
            1_000_000,
            2_500_000,
            5_000_000,
            10_000_000,
        ];
        assert(bounds@ =~= latency_bounds());
        Histogram::with_bounds(bounds).unwrap()
    }

    /// A histogram over `bounds` that has observed nothing, or `None` if the
    /// bounds do not rise strictly or are too many to index.
    pub fn with_bounds(bounds: Vec<u64>) -> (made: Option<Histogram>)
        ensures
            made is Some <==> strictly_increasing(bounds@) && bounds@.len() < usize::MAX,
            made matches Some(h) ==> h.wf() && h@ == HistogramView::empty(bounds@),
    {
        if bounds.len() == usize::MAX {
            return None;
        }
        let mut i: usize = 1;
        while i < bounds.len()
            invariant
                1 <= i,
                forall|a: int, b: int|
                    0 <= a < b < i && b < bounds@.len() ==> bounds@[a] < bounds@[b],
            decreases bounds@.len() - i,
        {
            if bounds[i - 1] >= bounds[i] {
                return None;
            }
            i += 1;
        }
        let mut counts: Vec<u64> = Vec::new();
        let mut k: usize = 0;
        while k <= bounds.len()
            invariant
                k <= bounds@.len() + 1,
                bounds@.len() < usize::MAX,
                counts@.len() == k,
                forall|j: int| 0 <= j < k ==> counts@[j] == 0,
            decreases bounds@.len() + 1 - k,
        {
            counts.push(0);
            k += 1;
        }
        let made = Histogram { bounds, counts, sum: 0, count: 0 };
        proof {
            assert(made@.counts =~= HistogramView::empty(bounds@).counts);
            lemma_total_zero(made@.counts);
        }
        Some(made)
    }

    /// The upper bounds of the buckets, in microseconds.
    pub fn bounds(&self) -> (bounds: &Vec<u64>)
        ensures
            bounds@ == self@.bounds,
    {
        &self.bounds
    }

    /// How many observations were made.
    pub fn count(&self) -> (count: u64)
        requires
            self.wf(),
        ensures
            count == self@.count(),
    {
        self.count
    }

    /// The sum of all observations, in microseconds.
    pub fn sum(&self) -> (sum: u128)
        ensures
            sum == self@.sum,
    {
        self.sum
    }

    /// For each bucket, how many observations fell in it or in one below it.
    /// The last entry, for the bucket behind the last bound, is the count.
    pub fn cumulative_counts(&self) -> (cumulative: Vec<u64>)
        requires
            self.wf(),
        ensures
            cumulative@.len() == self@.counts.len(),
            forall|i: int| 0 <= i < cumulative@.len() ==> cumulative@[i] == self@.cumulative(i),
    {
        let mut cumulative: Vec<u64> = Vec::new();
        let mut running: u64 = 0;
        let mut i: usize = 0;
        proof {
            assert(self@.counts.take(0) =~= Seq::<nat>::empty());
        }
        while i < self.counts.len()
            invariant
                self.wf(),
                i <= self.counts@.len(),
                cumulative@.len() == i,
                running == total(self@.counts.take(i as int)),
                forall|j: int| 0 <= j < i ==> cumulative@[j] == self@.cumulative(j),
            decreases self.counts@.len() - i,
        {
            proof {
                lemma_total_prefix(self@.counts, i + 1);
                assert(self@.counts.take(i + 1).drop_last() =~= self@.counts.take(i as int));
            }
            running = running + self.counts[i];
            cumulative.push(running);
            i += 1;
        }
        cumulative
    }

    /// Takes one observation, in microseconds, into its bucket.
    pub fn observe(&mut self, micros: u64)
        requires
            old(self).wf(),
            old(self)@.count() < u64::MAX,
        ensures
            final(self).wf(),
            final(self)@ == old(self)@.observe(micros),
    {
        let mut i: usize = 0;
        while i < self.bounds.len() && micros > self.bounds[i]
            invariant
                i <= self.bounds@.len(),
                forall|j: int| 0 <= j < i ==> self.bounds@[j] < micros,
            decreases self.bounds@.len() - i,
        {
            i += 1;
        }
        proof {
            lemma_bucket_of(self.bounds@, micros, i as int);
            lemma_total_bounds_each(self@.counts, i as int);
            lemma_total_update(self@.counts, i as int);
            assert(self.sum + micros <= (self.count + 1) * u64::MAX) by (nonlinear_arith)
                requires
                    self.sum <= self.count * u64::MAX,
                    micros <= u64::MAX,
            ;
            assert((self.count + 1) * u64::MAX <= u64::MAX * u64::MAX) by (nonlinear_arith)
                requires
                    self.count + 1 <= u64::MAX,
            ;
        }
        let raised: u64 = self.counts[i] + 1;
        self.counts.set(i, raised);
        self.sum = self.sum + micros as u128;
        self.count = self.count + 1;
        proof {
            assert(self@.counts =~= old(self)@.observe(micros).counts);
        }
    }

    /// Takes in what `other`, a histogram over the same bounds, observed.
    pub fn merge(&mut self, other: &Histogram)
        requires
            old(self).wf(),
            other.wf(),
            old(self)@.bounds == other@.bounds,
            old(self)@.count() + other@.count() <= u64::MAX,
        ensures
            final(self).wf(),
            final(self)@ == old(self)@.merge(other@),
    {
        let mut i: usize = 0;
        while i < self.counts.len()
            invariant
                i <= self.counts@.len(),
                self.counts@.len() == old(self).counts@.len(),
                self.counts@.len() == other.counts@.len(),
                self.bounds == old(self).bounds,
                self.sum == old(self).sum,
                self.count == old(self).count,
                old(self)@.count() + other@.count() <= u64::MAX,
                forall|j: int|
                    0 <= j < i ==> self.counts@[j] == old(self).counts@[j] + other.counts@[j],
                forall|j: int|
                    i <= j < self.counts@.len() ==> self.counts@[j] == old(self).counts@[j],
            decreases self.counts@.len() - i,
        {
            proof {
                lemma_total_bounds_each(old(self)@.counts, i as int);
                lemma_total_bounds_each(other@.counts, i as int);
            }
            let both: u64 = self.counts[i] + other.counts[i];
            self.counts.set(i, both);
            i += 1;
        }
        proof {
            assert(self@.counts =~= old(self)@.merge(other@).counts);
            lemma_total_merge(old(self)@.counts, other@.counts);
            let sum = self.sum as int;
            let count = self.count as int;
            assert(sum + other.sum <= (count + other.count) * u64::MAX) by (nonlinear_arith)
                requires
                    sum <= count * u64::MAX,
                    other.sum <= other.count * u64::MAX,
            ;
            assert((count + other.count) * u64::MAX <= u64::MAX * u64::MAX) by (nonlinear_arith)
                requires
                    count + other.count <= u64::MAX,
            ;
        }
        self.sum = self.sum + other.sum;
        self.count = self.count + other.count;
    }
}

} // verus!
