//! What a run measures: how many requests succeeded, how many failed, and
//! how long they took.
//!
//! Metrics are plain values. Each worker counts into its own, and the parts
//! are merged when the workers have returned, so that no count is shared
//! while requests are in flight.

use crate::greeting::STATUS_OK;
use crate::histogram::{
    latency_bounds, lemma_cumulative_rises, lemma_empty, lemma_merge, lemma_observe,
    lemma_observe_commutes, strictly_increasing, Histogram, HistogramView,
};
use vstd::prelude::*;

verus! {

/// How one request ended.
#[derive(Clone, Copy, Debug, PartialEq, Eq, Structural)]
pub enum Outcome {
    /// A response came back, with this status.
    Status(u16),
    /// No response came back, or its body could not be read to the end.
    TransportError,
}

impl Outcome {
    /// A request succeeded if it was answered with status 200.
    pub open spec fn is_success(self) -> bool {
        self == Outcome::Status(STATUS_OK)
    }

    /// Tells whether the request succeeded.
    pub fn succeeded(&self) -> (yes: bool)
        ensures
            yes == self.is_success(),
    {
        match self {
            Outcome::Status(status) => *status == STATUS_OK,
            Outcome::TransportError => false,
        }
    }
}

/// The metrics of a run as mathematics.
pub struct MetricsView {
    pub success: nat,
    pub failure: nat,
    pub latency: HistogramView,
}

impl MetricsView {
    /// True when the histogram is well formed and holds one observation for
    /// each request counted, succeeded or failed.
    pub open spec fn wf(self) -> bool {
        &&& self.latency.wf()
        &&& self.latency.count() == self.success + self.failure
    }

    /// The metrics of a run in which no request has ended yet.
    pub open spec fn empty(bounds: Seq<u64>) -> MetricsView {
        MetricsView { success: 0, failure: 0, latency: HistogramView::empty(bounds) }
    }

    /// How many requests ended, one way or the other.
    pub open spec fn completed(self) -> nat {
        self.success + self.failure
    }

    /// The metrics after one more request ended with `outcome` after `micros`
    /// microseconds.
    pub open spec fn record(self, outcome: Outcome, micros: u64) -> MetricsView {
        MetricsView {
            success: if outcome.is_success() {
                self.success + 1
            } else {
                self.success
            },
            failure: if outcome.is_success() {
                self.failure
            } else {
                self.failure + 1
            },
            latency: self.latency.observe(micros),
        }
    }

    /// The metrics of two parts of a run taken together.
    pub open spec fn merge(self, other: MetricsView) -> MetricsView {
        MetricsView {
            success: self.success + other.success,
            failure: self.failure + other.failure,
            latency: self.latency.merge(other.latency),
        }
    }
}

/// One line of a report's histogram.
#[derive(Clone, Copy, Debug, PartialEq, Eq, Structural)]
pub struct Bucket {
    /// The bucket's upper bound in microseconds; `None` for the bucket
    /// without one, which takes every observation.
    pub upper_bound: Option<u64>,
    /// How many observations were at or below the bound.
    pub cumulative_count: u64,
}

/// What is printed when a run ends.
#[derive(Debug)]
pub struct Report {
    pub success: u64,
    pub failure: u64,
    pub buckets: Vec<Bucket>,
    /// The sum of all observations, in microseconds.
    pub sum: u128,
    /// How many observations were made.
    pub count: u64,
}

/// A report as mathematics.
pub struct ReportView {
    pub success: nat,
    pub failure: nat,
    pub buckets: Seq<Bucket>,
    pub sum: nat,
    pub count: nat,
}

impl View for Report {
    type V = ReportView;

    open spec fn view(&self) -> ReportView {
        ReportView {
            success: self.success as nat,
            failure: self.failure as nat,
            buckets: self.buckets@,
            sum: self.sum as nat,
            count: self.count as nat,
        }
    }
}

/// The line of a report for bucket `i` of a histogram.
pub open spec fn bucket_line(h: HistogramView, i: int) -> Bucket {
    Bucket {
        upper_bound: if i < h.bounds.len() {
            Some(h.bounds[i])
        } else {
            None
        },
        cumulative_count: h.cumulative(i) as u64,
    }
}

/// The report of given metrics.
pub open spec fn report_of(m: MetricsView) -> ReportView {
    ReportView {
        success: m.success,
        failure: m.failure,
        buckets: Seq::new(m.latency.counts.len(), |i: int| bucket_line(m.latency, i)),
        sum: m.latency.sum,
        count: m.latency.count(),
    }
}

/// The count that is reported is the number of requests that are reported
/// as succeeded or failed, and it is what the last line of the histogram,
/// the one without a bound, shows.
pub proof fn lemma_report_counts_every_request(m: MetricsView)
    requires
        m.wf(),
        m.completed() <= u64::MAX,
    ensures
        report_of(m).count == report_of(m).success + report_of(m).failure,
        report_of(m).buckets.len() == m.latency.bounds.len() + 1,
        report_of(m).buckets.last().upper_bound is None,
        report_of(m).buckets.last().cumulative_count == report_of(m).count,
{
    lemma_cumulative_rises(m.latency, m.latency.bounds.len() as int);
}

/// Two reports of the same metrics are the same report.
pub proof fn lemma_reports_agree(m: MetricsView, first: ReportView, second: ReportView)
    requires
        first == report_of(m),
        second == report_of(m),
    ensures
        first == second,
{
}

/// Recording keeps metrics well formed, over the same bounds, and counts
/// exactly one more request.
pub proof fn lemma_record(m: MetricsView, outcome: Outcome, micros: u64)
    requires
        m.wf(),
    ensures
        m.record(outcome, micros).wf(),
        m.record(outcome, micros).completed() == m.completed() + 1,
        m.record(outcome, micros).latency.bounds == m.latency.bounds,
{
    lemma_observe(m.latency, micros);
}

/// The order in which two requests are recorded does not matter.
pub proof fn lemma_record_commutes(
    m: MetricsView,
    first: Outcome,
    first_micros: u64,
    second: Outcome,
    second_micros: u64,
)
    requires
        m.wf(),
    ensures
        m.record(first, first_micros).record(second, second_micros) == m.record(
            second,
            second_micros,
        ).record(first, first_micros),
{
    lemma_observe_commutes(m.latency, first_micros, second_micros);
}

/// Merging keeps metrics over the same bounds well formed, over those
/// bounds, and counts what both counted.
pub proof fn lemma_merge_adds(a: MetricsView, b: MetricsView)
    requires
        a.wf(),
        b.wf(),
        a.latency.bounds == b.latency.bounds,
    ensures
        a.merge(b).wf(),
        a.merge(b).latency.bounds == a.latency.bounds,
        a.merge(b).completed() == a.completed() + b.completed(),
{
    lemma_merge(a.latency, b.latency);
}

/// It does not matter which of two parts of a run is merged into which.
pub proof fn lemma_merge_commutes(a: MetricsView, b: MetricsView)
    requires
        a.wf(),
        b.wf(),
        a.latency.bounds == b.latency.bounds,
    ensures
        a.merge(b) == b.merge(a),
{
    lemma_merge(a.latency, b.latency);
}

/// The metrics of a run, or of one worker's part in it.
#[derive(Debug)]
pub struct Metrics {
    success: u64,
    failure: u64,
    latency: Histogram,
}

impl View for Metrics {
    type V = MetricsView;

    closed spec fn view(&self) -> MetricsView {
        MetricsView {
            success: self.success as nat,
            failure: self.failure as nat,
            latency: self.latency@,
        }
    }
}

impl Metrics {
    /// The invariant of metrics: a well-formed histogram that holds one
    /// observation for each request counted.
    pub closed spec fn wf(&self) -> bool {
        &&& self.latency.wf()
        &&& self@.wf()
    }

    /// Well-formed metrics have a well-formed view, and what they count fits
    /// the machine.
    pub proof fn lemma_wf(&self)
        requires
            self.wf(),
        ensures
            self@.wf(),
            self@.completed() <= u64::MAX,
    {
        self.latency.lemma_wf();
    }

    /// Metrics over the usual latency bounds, with nothing counted.
    pub fn new() -> (made: Metrics)
        ensures
            made.wf(),
            made@ == MetricsView::empty(latency_bounds()),
    {
        let latency = Histogram::new();
        proof {
            latency.lemma_wf();
            lemma_empty(latency_bounds());
        }
        Metrics { success: 0, failure: 0, latency }
    }

    /// Metrics over the given bounds, with nothing counted; `None` if the
    /// bounds do not rise strictly or are too many to index.
    pub fn with_bounds(bounds: Vec<u64>) -> (made: Option<Metrics>)
        ensures
            made is Some <==> strictly_increasing(bounds@) && bounds@.len() < usize::MAX,
            made matches Some(m) ==> m.wf() && m@ == MetricsView::empty(bounds@),
    {
        proof {
            lemma_empty(bounds@);
        }
        match Histogram::with_bounds(bounds) {
            Some(latency) => Some(Metrics { success: 0, failure: 0, latency }),
            None => None,
        }
    }

    /// How many requests succeeded.
    pub fn success(&self) -> (n: u64)
        ensures
            n == self@.success,
    {
        self.success
    }

    /// How many requests failed.
    pub fn failure(&self) -> (n: u64)
        ensures
            n == self@.failure,
    {
        self.failure
    }

    /// How many requests ended, one way or the other.
    pub fn completed(&self) -> (n: u64)
        requires
            self.wf(),
        ensures
            n == self@.completed(),
    {
        self.latency.count()
    }

    /// The latency histogram.
    pub fn latency(&self) -> (h: &Histogram)
        requires
            self.wf(),
        ensures
            h.wf(),
            h@ == self@.latency,
    {
        &self.latency
    }

    /// Counts one request that ended with `outcome` after `micros`
    /// microseconds: a success if it was answered with status 200, else a
    /// failure, and in either case one observation of its latency.
    pub fn record(&mut self, outcome: Outcome, micros: u64)
        requires
            old(self).wf(),
            old(self)@.completed() < u64::MAX,
        ensures
            final(self).wf(),
            final(self)@ == old(self)@.record(outcome, micros),
    {
        proof {
            self.latency.lemma_wf();
            lemma_observe(self@.latency, micros);
        }
        if outcome.succeeded() {
            self.success = self.success + 1;
        } else {
            self.failure = self.failure + 1;
        }
        self.latency.observe(micros);
    }

    /// Takes in what `other` counted, over the same bounds.
    pub fn merge(&mut self, other: &Metrics)
        requires
            old(self).wf(),
            other.wf(),
            old(self)@.latency.bounds == other@.latency.bounds,
            old(self)@.completed() + other@.completed() <= u64::MAX,
        ensures
            final(self).wf(),
            final(self)@ == old(self)@.merge(other@),
    {
        proof {
            self.latency.lemma_wf();
            other.latency.lemma_wf();
            lemma_merge(self@.latency, other@.latency);
        }
        self.success = self.success + other.success;
        self.failure = self.failure + other.failure;
        self.latency.merge(&other.latency);
    }

    /// The report of these metrics. The metrics stay as they are. The count
    /// that is reported is the number of successes and failures together.
    pub fn report(&self) -> (report: Report)
        requires
            self.wf(),
        ensures
            report@ == report_of(self@),
            report.count == report.success + report.failure,
    {
        proof {
            self.latency.lemma_wf();
        }
        let cumulative = self.latency.cumulative_counts();
        let bounds = self.latency.bounds();
        let mut buckets: Vec<Bucket> = Vec::new();
        let mut i: usize = 0;
        while i < cumulative.len()
            invariant
                i <= cumulative@.len(),
                bounds@ == self@.latency.bounds,
                cumulative@.len() == self@.latency.counts.len(),
                forall|j: int|
                    0 <= j < cumulative@.len() ==> cumulative@[j] == self@.latency.cumulative(j),
                buckets@.len() == i,
                forall|j: int| 0 <= j < i ==> buckets@[j] == bucket_line(self@.latency, j),
            decreases cumulative@.len() - i,
        {
            let upper_bound = if i < bounds.len() {
                Some(bounds[i])
            } else {
                None
            };
            buckets.push(Bucket { upper_bound, cumulative_count: cumulative[i] });
            i += 1;
        }
        let report = Report {
            success: self.success,
            failure: self.failure,
            buckets,
            sum: self.latency.sum(),
            count: self.latency.count(),
        };
        proof {
            assert(report@.buckets =~= report_of(self@).buckets);
        }
        report
    }
}

} // verus!
