//! The life of a run: start the workers, wait for the interrupt or the
//! timer, tell the workers to stop, wait for them, report.
//!
//! The caller owns the tasks, the timer and the signal; the orchestrator
//! decides what each event leads to.

use crate::metrics::{lemma_merge_adds, report_of, Metrics, MetricsView, Report, ReportView};
use vstd::prelude::*;

verus! {

/// Where a run stands.
#[derive(Clone, Copy, Debug, PartialEq, Eq, Structural)]
pub enum Phase {
    /// The workers send requests.
    Running,
    /// The interrupt or the timer has fired; the stop signal is to be sent.
    StopRequested,
    /// The stop signal was sent; workers are still returning.
    Draining,
    /// Every worker has returned; the report is to be printed.
    Reporting,
    /// The report was printed.
    Done,
}

impl Phase {
    /// How far a phase is into the run.
    pub open spec fn rank(self) -> nat {
        match self {
            Phase::Running => 0,
            Phase::StopRequested => 1,
            Phase::Draining => 2,
            Phase::Reporting => 3,
            Phase::Done => 4,
        }
    }
}

/// What can happen to a run.
#[derive(Debug)]
pub enum Event {
    /// The process was interrupted.
    Interrupt,
    /// The time of the run is over.
    TimerElapsed,
    /// The stop signal went out to the workers.
    StopBroadcast,
    /// A worker returned, with what it measured.
    WorkerJoined(Metrics),
    /// The report was printed.
    ReportPrinted,
}

/// What the caller is to do next.
#[derive(Debug)]
pub enum Action {
    /// Nothing new: go on waiting for the next event.
    Wait,
    /// Send the stop signal to all workers, without waiting for any of them.
    BroadcastStop,
    /// Wait for the workers to return.
    JoinWorkers,
    /// Print this report.
    PrintReport(Report),
    /// End the process with this exit code.
    Exit(i32),
}

/// An action as mathematics.
pub enum ActionView {
    Wait,
    BroadcastStop,
    JoinWorkers,
    PrintReport(ReportView),
    Exit(i32),
}

impl View for Action {
    type V = ActionView;

    open spec fn view(&self) -> ActionView {
        match self {
            Action::Wait => ActionView::Wait,
            Action::BroadcastStop => ActionView::BroadcastStop,
            Action::JoinWorkers => ActionView::JoinWorkers,
            Action::PrintReport(report) => ActionView::PrintReport(report@),
            Action::Exit(code) => ActionView::Exit(*code),
        }
    }
}

/// A run as mathematics: its phase, how many workers it has, how many of
/// them have returned, and what those measured together.
pub struct RunView {
    pub phase: Phase,
    pub concurrent: nat,
    pub joined: nat,
    pub totals: MetricsView,
}

impl RunView {
    /// True when the totals are well formed and the number of workers that
    /// have returned fits the phase: none before the stop signal is out,
    /// not yet all while draining, all from then on.
    pub open spec fn wf(self) -> bool {
        &&& self.totals.wf()
        &&& match self.phase {
            Phase::Running | Phase::StopRequested => self.joined == 0,
            Phase::Draining => self.joined < self.concurrent,
            Phase::Reporting | Phase::Done => self.joined == self.concurrent,
        }
    }

    /// The run of `concurrent` workers at its start.
    pub open spec fn start(concurrent: nat, bounds: Seq<u64>) -> RunView {
        RunView { phase: Phase::Running, concurrent, joined: 0, totals: MetricsView::empty(bounds) }
    }

    /// The run after an event.
    ///
    /// The first interrupt or timer to fire asks for the stop; once the stop
    /// signal is out the run drains, or reports at once if it has no
    /// worker; each worker that returns while the run drains is added to
    /// the totals, and the last one moves the run on to reporting; the
    /// printed report ends the run. Any other event leaves the run as it is.
    pub open spec fn after(self, event: Event) -> RunView {
        match (self.phase, event) {
            (Phase::Running, Event::Interrupt) | (Phase::Running, Event::TimerElapsed) => RunView {
                phase: Phase::StopRequested,
                ..self
            },
            (Phase::StopRequested, Event::StopBroadcast) => RunView {
                phase: if self.concurrent == 0 {
                    Phase::Reporting
                } else {
                    Phase::Draining
                },
                ..self
            },
            (Phase::Draining, Event::WorkerJoined(metrics)) => RunView {
                phase: if self.joined + 1 == self.concurrent {
                    Phase::Reporting
                } else {
                    Phase::Draining
                },
                joined: self.joined + 1,
                totals: self.totals.merge(metrics@),
                ..self
            },
            (Phase::Reporting, Event::ReportPrinted) => RunView { phase: Phase::Done, ..self },
            _ => self,
        }
    }

    /// What an event asks the caller to do: on entering a phase, the work of
    /// that phase; else to wait. A run that ends exits with code 0, however
    /// many requests failed.
    pub open spec fn action(self, event: Event) -> ActionView {
        let next = self.after(event);
        if next.phase == self.phase {
            ActionView::Wait
        } else {
            match next.phase {
                Phase::Running => ActionView::Wait,
                Phase::StopRequested => ActionView::BroadcastStop,
                Phase::Draining => ActionView::JoinWorkers,
                Phase::Reporting => ActionView::PrintReport(report_of(next.totals)),
                Phase::Done => ActionView::Exit(0),
            }
        }
    }
}

impl RunView {
    /// True when the run can take `event` in: a worker that returns brings
    /// well-formed metrics over the bounds of the totals.
    pub open spec fn accepts(self, event: Event) -> bool {
        event matches Event::WorkerJoined(metrics) ==> metrics@.wf() && metrics@.latency.bounds
            == self.totals.latency.bounds
    }

    /// The run after a row of events, one after the other.
    pub open spec fn after_all(self, events: Seq<Event>) -> RunView
        decreases events.len(),
    {
        if events.len() == 0 {
            self
        } else {
            self.after(events[0]).after_all(events.drop_first())
        }
    }

    /// How often a row of events has the stop signal sent.
    pub open spec fn broadcasts(self, events: Seq<Event>) -> nat
        decreases events.len(),
    {
        if events.len() == 0 {
            0
        } else {
            let here: nat = if self.action(events[0]) is BroadcastStop {
                1
            } else {
                0
            };
            here + self.after(events[0]).broadcasts(events.drop_first())
        }
    }
}

/// An event leaves a run well formed, over the same bounds and with as many
/// workers as before. A worker that returns while the run drains is counted
/// once, and the totals then count what they counted before and what the
/// worker counted.
pub proof fn lemma_after(run: RunView, event: Event)
    requires
        run.wf(),
        run.accepts(event),
    ensures
        run.after(event).wf(),
        run.after(event).concurrent == run.concurrent,
        run.after(event).totals.latency.bounds == run.totals.latency.bounds,
        match event {
            Event::WorkerJoined(metrics) if run.phase == Phase::Draining => {
                &&& run.after(event).joined == run.joined + 1
                &&& run.after(event).totals.success == run.totals.success + metrics@.success
                &&& run.after(event).totals.failure == run.totals.failure + metrics@.failure
            },
            _ => run.after(event).joined == run.joined && run.after(event).totals == run.totals,
        },
{
    if let Event::WorkerJoined(metrics) = event {
        lemma_merge_adds(run.totals, metrics@);
    }
}

/// A run never goes back: an event leaves the phase as it is or moves it on
/// to the next, passing over the draining only when there is no worker to
/// wait for.
pub proof fn lemma_phase_advances(run: RunView, event: Event)
    ensures
        run.after(event).phase.rank() >= run.phase.rank(),
        ({
            let next = run.after(event).phase;
            ||| next == run.phase
            ||| next.rank() == run.phase.rank() + 1
            ||| run.concurrent == 0 && run.phase == Phase::StopRequested && next
                == Phase::Reporting
        }),
{
}

/// An interrupt leads to what the end of the run's time leads to.
pub proof fn lemma_interrupt_like_timer(run: RunView)
    ensures
        run.after(Event::Interrupt) == run.after(Event::TimerElapsed),
        run.action(Event::Interrupt) == run.action(Event::TimerElapsed),
{
}

/// The stop signal is asked for exactly by the first interrupt or timer of
/// a running run.
pub proof fn lemma_stop_requested(run: RunView, event: Event)
    ensures
        run.action(event) is BroadcastStop <==> run.phase == Phase::Running && (event is Interrupt
            || event is TimerElapsed),
        run.action(event) is BroadcastStop ==> run.after(event).phase == Phase::StopRequested,
{
}

/// Whatever happens, the stop signal is sent at most once, and not at all
/// once the run has left its first phase.
pub proof fn lemma_stop_broadcast_once(run: RunView, events: Seq<Event>)
    ensures
        run.broadcasts(events) <= 1,
        run.phase != Phase::Running ==> run.broadcasts(events) == 0,
    decreases events.len(),
{
    if events.len() > 0 {
        lemma_stop_requested(run, events[0]);
        lemma_phase_advances(run, events[0]);
        lemma_stop_broadcast_once(run.after(events[0]), events.drop_first());
    }
}

/// The events of workers returning, one for each of `parts`.
pub open spec fn joins(parts: Seq<Metrics>) -> Seq<Event> {
    Seq::new(parts.len(), |i: int| Event::WorkerJoined(parts[i]))
}

/// How many successes `parts` counted together.
pub open spec fn successes(parts: Seq<Metrics>) -> nat
    decreases parts.len(),
{
    if parts.len() == 0 {
        0
    } else {
        parts[0]@.success + successes(parts.drop_first())
    }
}

/// How many failures `parts` counted together.
pub open spec fn failures(parts: Seq<Metrics>) -> nat
    decreases parts.len(),
{
    if parts.len() == 0 {
        0
    } else {
        parts[0]@.failure + failures(parts.drop_first())
    }
}

/// When the workers that a draining run still waits for have all returned,
/// the run reports, and its totals hold what they held before and what each
/// of these workers counted: no request is left out and none is counted
/// twice.
pub proof fn lemma_drained(run: RunView, parts: Seq<Metrics>)
    requires
        run.wf(),
        run.phase == Phase::Draining,
        parts.len() == run.concurrent - run.joined,
        forall|i: int|
            0 <= i < parts.len() ==> (#[trigger] parts[i])@.wf() && parts[i]@.latency.bounds
                == run.totals.latency.bounds,
    ensures
        run.after_all(joins(parts)).wf(),
        run.after_all(joins(parts)).phase == Phase::Reporting,
        run.after_all(joins(parts)).totals.success == run.totals.success + successes(parts),
        run.after_all(joins(parts)).totals.failure == run.totals.failure + failures(parts),
    decreases parts.len(),
{
    let first = Event::WorkerJoined(parts[0]);
    let next = run.after(first);
    assert(joins(parts)[0] == first);
    assert(joins(parts).drop_first() =~= joins(parts.drop_first()));
    lemma_after(run, first);
    if parts.len() > 1 {
        lemma_drained(next, parts.drop_first());
    } else {
        assert(parts.drop_first() =~= Seq::<Metrics>::empty());
        assert(successes(parts.drop_first()) == 0);
        assert(failures(parts.drop_first()) == 0);
    }
}

/// A run that has ended stays ended, and a run exits only with code 0.
pub proof fn lemma_exit(run: RunView, event: Event)
    ensures
        run.phase == Phase::Done ==> run.after(event) == run && run.action(event) is Wait,
        run.action(event) matches ActionView::Exit(code) ==> code == 0 && run.after(event).phase
            == Phase::Done,
{
}

/// A run of the load generator.
#[derive(Debug)]
pub struct Orchestrator {
    phase: Phase,
    concurrent: usize,
    joined: usize,
    totals: Metrics,
}

impl View for Orchestrator {
    type V = RunView;

    closed spec fn view(&self) -> RunView {
        RunView {
            phase: self.phase,
            concurrent: self.concurrent as nat,
            joined: self.joined as nat,
            totals: self.totals@,
        }
    }
}

impl Orchestrator {
    /// The invariant of a run.
    pub closed spec fn wf(&self) -> bool {
        &&& self.totals.wf()
        &&& self@.wf()
    }

    /// A run's view is well formed, and what it has counted fits the machine.
    pub proof fn lemma_wf(&self)
        requires
            self.wf(),
        ensures
            self@.wf(),
            self@.totals.completed() <= u64::MAX,
            self@.concurrent <= usize::MAX,
    {
        self.totals.lemma_wf();
    }

    /// A run of `concurrent` workers, which the caller now starts. The
    /// totals start from `totals`, with nothing counted.
    pub fn new(concurrent: usize, totals: Metrics) -> (run: Orchestrator)
        requires
            totals.wf(),
            totals@ == MetricsView::empty(totals@.latency.bounds),
        ensures
            run.wf(),
            run@ == RunView::start(concurrent as nat, totals@.latency.bounds),
    {
        proof {
            totals.lemma_wf();
        }
        Orchestrator { phase: Phase::Running, concurrent, joined: 0, totals }
    }

    /// Where the run stands.
    pub fn phase(&self) -> (phase: Phase)
        ensures
            phase == self@.phase,
    {
        self.phase
    }

    /// How many workers the run has.
    pub fn concurrent(&self) -> (n: usize)
        ensures
            n == self@.concurrent,
    {
        self.concurrent
    }

    /// How many workers have returned.
    pub fn joined(&self) -> (n: usize)
        ensures
            n == self@.joined,
    {
        self.joined
    }

    /// What the workers that have returned measured together.
    pub fn totals(&self) -> (totals: &Metrics)
        requires
            self.wf(),
        ensures
            totals.wf(),
            totals@ == self@.totals,
    {
        &self.totals
    }

    /// Takes in one event and says what the caller is to do next.
    pub fn step(&mut self, event: Event) -> (action: Action)
        requires
            old(self).wf(),
            event matches Event::WorkerJoined(metrics) ==> {
                &&& metrics.wf()
                &&& metrics@.latency.bounds == old(self)@.totals.latency.bounds
                &&& old(self)@.totals.completed() + metrics@.completed() <= u64::MAX
            },
        ensures
            final(self).wf(),
            final(self)@ == old(self)@.after(event),
            action@ == old(self)@.action(event),
    {
        match event {
            Event::Interrupt | Event::TimerElapsed => {
                if self.phase == Phase::Running {
                    self.phase = Phase::StopRequested;
                    return Action::BroadcastStop;
                }
            },
            Event::StopBroadcast => {
                if self.phase == Phase::StopRequested {
                    if self.concurrent == 0 {
                        self.phase = Phase::Reporting;
                        return Action::PrintReport(self.totals.report());
                    }
                    self.phase = Phase::Draining;
                    return Action::JoinWorkers;
                }
            },
            Event::WorkerJoined(metrics) => {
                if self.phase == Phase::Draining {
                    proof {
                        metrics.lemma_wf();
                        lemma_merge_adds(self@.totals, metrics@);
                    }
                    self.totals.merge(&metrics);
                    self.joined = self.joined + 1;
                    if self.joined == self.concurrent {
                        self.phase = Phase::Reporting;
                        return Action::PrintReport(self.totals.report());
                    }
                }
            },
            Event::ReportPrinted => {
                if self.phase == Phase::Reporting {
                    self.phase = Phase::Done;
                    return Action::Exit(0);
                }
            },
        }
        Action::Wait
    }
}

} // verus!
