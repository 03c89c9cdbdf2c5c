//! One worker of the load generator: what it does next, given what happened.
//!
//! The caller sends the requests and waits for the stop signal; the worker
//! decides. Each request is raced against the stop signal, and whichever
//! ends first is handed to the worker as an event.

use crate::bench::{generate_request_uri, is_uri, names, request_uri_text, valid_target};
use crate::metrics::{lemma_record, Metrics, MetricsView, Outcome};
use vstd::prelude::*;

verus! {

/// What can happen to a worker.
#[derive(Clone, Copy, Debug, PartialEq, Eq, Structural)]
pub enum WorkerEvent {
    /// The worker was started.
    Started,
    /// The request in flight ended, `micros` microseconds after it was sent.
    Completed { outcome: Outcome, micros: u64 },
    /// The stop signal arrived before the request in flight ended.
    Stopped,
}

/// What a worker does next.
#[derive(Debug)]
pub enum WorkerAction {
    /// Send a `GET` for this URI, read the response to its end, and race
    /// that against the stop signal.
    Send(String),
    /// Return; the request in flight, if any, is abandoned.
    Exit,
}

/// A worker as mathematics.
pub struct WorkerView {
    pub address: Seq<char>,
    pub metrics: MetricsView,
    pub stopped: bool,
}

impl WorkerView {
    /// The worker after an event. A stopped worker stays as it is; a
    /// running one records a request that ended, and stops on the stop
    /// signal without recording the request that it abandons.
    pub open spec fn after(self, event: WorkerEvent) -> WorkerView {
        if self.stopped {
            self
        } else {
            match event {
                WorkerEvent::Started => self,
                WorkerEvent::Completed { outcome, micros } => WorkerView {
                    metrics: self.metrics.record(outcome, micros),
                    ..self
                },
                WorkerEvent::Stopped => WorkerView { stopped: true, ..self },
            }
        }
    }
}

impl WorkerView {
    /// The worker after a row of events, one after the other.
    pub open spec fn after_all(self, events: Seq<WorkerEvent>) -> WorkerView
        decreases events.len(),
    {
        if events.len() == 0 {
            self
        } else {
            self.after(events[0]).after_all(events.drop_first())
        }
    }
}

/// How many requests end in a row of events before the stop signal arrives.
pub open spec fn ended_before_stop(events: Seq<WorkerEvent>) -> nat
    decreases events.len(),
{
    if events.len() == 0 {
        0
    } else {
        match events[0] {
            WorkerEvent::Started => ended_before_stop(events.drop_first()),
            WorkerEvent::Completed { .. } => 1 + ended_before_stop(events.drop_first()),
            WorkerEvent::Stopped => 0,
        }
    }
}

/// A worker that has seen the stop signal stays as it is, whatever happens.
pub proof fn lemma_stop_is_final(worker: WorkerView, events: Seq<WorkerEvent>)
    requires
        worker.stopped,
    ensures
        worker.after_all(events) == worker,
    decreases events.len(),
{
    if events.len() > 0 {
        lemma_stop_is_final(worker, events.drop_first());
    }
}

/// A running worker counts each request that ends before the stop signal
/// arrives, once, and no other: neither the request that the stop signal
/// overtakes nor anything after it.
pub proof fn lemma_counts_what_ended_before_stop(worker: WorkerView, events: Seq<WorkerEvent>)
    requires
        worker.metrics.wf(),
        !worker.stopped,
    ensures
        worker.after_all(events).metrics.wf(),
        worker.after_all(events).metrics.completed() == worker.metrics.completed()
            + ended_before_stop(events),
        worker.after_all(events).address == worker.address,
    decreases events.len(),
{
    if events.len() > 0 {
        let next = worker.after(events[0]);
        match events[0] {
            WorkerEvent::Started => {
                lemma_counts_what_ended_before_stop(next, events.drop_first());
            },
            WorkerEvent::Completed { outcome, micros } => {
                lemma_record(worker.metrics, outcome, micros);
                lemma_counts_what_ended_before_stop(next, events.drop_first());
            },
            WorkerEvent::Stopped => {
                lemma_stop_is_final(next, events.drop_first());
            },
        }
    }
}

/// One worker: the server it sends to, what it has measured, and whether it
/// has seen the stop signal.
#[derive(Debug)]
pub struct Worker {
    address: String,
    metrics: Metrics,
    stopped: bool,
}

impl View for Worker {
    type V = WorkerView;

    closed spec fn view(&self) -> WorkerView {
        WorkerView { address: self.address@, metrics: self.metrics@, stopped: self.stopped }
    }
}

impl Worker {
    /// The invariant of a worker: its metrics are well formed.
    pub closed spec fn wf(&self) -> bool {
        self.metrics.wf()
    }

    /// A worker's view is well formed, and what it has counted fits the machine.
    pub proof fn lemma_wf(&self)
        requires
            self.wf(),
        ensures
            self@.metrics.wf(),
            self@.metrics.completed() <= u64::MAX,
    {
        self.metrics.lemma_wf();
    }

    /// A worker for the server at `greeting_server_address` that counts
    /// into `metrics`.
    pub fn new(greeting_server_address: String, metrics: Metrics) -> (worker: Worker)
        requires
            metrics.wf(),
        ensures
            worker.wf(),
            worker@ == (WorkerView {
                address: greeting_server_address@,
                metrics: metrics@,
                stopped: false,
            }),
    {
        Worker { address: greeting_server_address, metrics, stopped: false }
    }

    /// Whether the worker has seen the stop signal.
    pub fn is_stopped(&self) -> (stopped: bool)
        ensures
            stopped == self@.stopped,
    {
        self.stopped
    }

    /// What the worker has measured so far.
    pub fn metrics(&self) -> (metrics: &Metrics)
        requires
            self.wf(),
        ensures
            metrics.wf(),
            metrics@ == self@.metrics,
    {
        &self.metrics
    }

    /// Ends the worker and hands out what it has measured.
    pub fn into_metrics(self) -> (metrics: Metrics)
        requires
            self.wf(),
        ensures
            metrics.wf(),
            metrics@ == self@.metrics,
    {
        self.metrics
    }

    /// Takes in one event and says what to do next. A running worker that
    /// was started, or whose request ended, sends the next request, for a
    /// name of the pool picked at random; a worker that sees the stop signal,
    /// or saw it before, exits.
    pub fn step(&mut self, event: WorkerEvent) -> (action: WorkerAction)
        requires
            old(self).wf(),
            !old(self)@.stopped && event is Completed ==> old(self)@.metrics.completed()
                < u64::MAX,
        ensures
            final(self).wf(),
            final(self)@ == old(self)@.after(event),
            match action {
                WorkerAction::Send(uri) => {
                    &&& !final(self)@.stopped
                    &&& exists|i: int|
                        0 <= i < names().len() && uri@ == request_uri_text(
                            old(self)@.address,
                            #[trigger] names()[i],
                        )
                    &&& valid_target(old(self)@.address) ==> is_uri(uri@)
                },
                WorkerAction::Exit => final(self)@.stopped,
            },
    {
        if self.stopped {
            return WorkerAction::Exit;
        }
        match event {
            WorkerEvent::Started => {},
            WorkerEvent::Completed { outcome, micros } => {
                self.metrics.record(outcome, micros);
            },
            WorkerEvent::Stopped => {
                self.stopped = true;
                return WorkerAction::Exit;
            },
        }
        WorkerAction::Send(generate_request_uri(self.address.as_str()))
    }
}

} // verus!
