use greeting_bench::bench::{name_pool, request_uri};
use greeting_bench::metrics::{Metrics, Outcome};
use greeting_bench::orchestrator::{Action, Event, Orchestrator, Phase};
use greeting_bench::worker::{Worker, WorkerAction, WorkerEvent};

fn worker() -> Worker {
    Worker::new("127.0.0.1:3000".to_string(), Metrics::new())
}

fn completed(status: u16, micros: u64) -> WorkerEvent {
    WorkerEvent::Completed { outcome: Outcome::Status(status), micros }
}

fn assert_sends_to_pool(action: &WorkerAction) {
    let expected: Vec<String> =
        name_pool().iter().map(|name| request_uri("127.0.0.1:3000", name)).collect();
    match action {
        WorkerAction::Send(uri) => assert!(expected.contains(uri), "{}", uri),
        WorkerAction::Exit => panic!("the worker exits"),
    }
}

fn measured(success: u64, failure: u64) -> Metrics {
    let mut m = Metrics::new();
    for _ in 0..success {
        m.record(Outcome::Status(200), 8_000);
    }
    for _ in 0..failure {
        m.record(Outcome::TransportError, 40_000);
    }
    m
}

#[test]
fn started_worker_sends_a_request() {
    let mut w = worker();
    assert!(!w.is_stopped());
    let action = w.step(WorkerEvent::Started);
    assert_sends_to_pool(&action);
    assert!(!w.is_stopped());
    assert_eq!(w.metrics().completed(), 0);
}

#[test]
fn worker_records_and_sends_the_next_request() {
    let mut w = worker();
    w.step(WorkerEvent::Started);
    let action = w.step(completed(200, 7_000));
    assert_sends_to_pool(&action);
    assert_eq!((w.metrics().success(), w.metrics().failure()), (1, 0));
    let action = w.step(completed(500, 9_000));
    assert_sends_to_pool(&action);
    assert_eq!((w.metrics().success(), w.metrics().failure()), (1, 1));
    let action =
        w.step(WorkerEvent::Completed { outcome: Outcome::TransportError, micros: 30_000_000 });
    assert_sends_to_pool(&action);
    assert_eq!((w.metrics().success(), w.metrics().failure()), (1, 2));
    assert_eq!(w.metrics().latency().count(), 3);
    assert_eq!(w.metrics().latency().sum(), 30_016_000);
}

#[test]
fn worker_goes_on_after_failures() {
    let mut w = worker();
    w.step(WorkerEvent::Started);
    for _ in 0..50 {
        let action =
            w.step(WorkerEvent::Completed { outcome: Outcome::TransportError, micros: 10 });
        assert_sends_to_pool(&action);
    }
    assert!(!w.is_stopped());
    assert_eq!(w.metrics().failure(), 50);
}

#[test]
fn stopped_worker_exits_without_recording() {
    let mut w = worker();
    w.step(WorkerEvent::Started);
    w.step(completed(200, 7_000));
    let action = w.step(WorkerEvent::Stopped);
    assert!(matches!(action, WorkerAction::Exit));
    assert!(w.is_stopped());
    assert_eq!(w.metrics().completed(), 1);
    assert_eq!(w.metrics().latency().count(), 1);
}

#[test]
fn worker_stopped_before_its_first_request_exits() {
    let mut w = worker();
    assert!(matches!(w.step(WorkerEvent::Stopped), WorkerAction::Exit));
    assert_eq!(w.into_metrics().completed(), 0);
}

#[test]
fn stopped_worker_stays_stopped() {
    let mut w = worker();
    w.step(WorkerEvent::Started);
    w.step(WorkerEvent::Stopped);
    assert!(matches!(w.step(completed(200, 1)), WorkerAction::Exit));
    assert!(matches!(w.step(WorkerEvent::Started), WorkerAction::Exit));
    assert!(matches!(w.step(WorkerEvent::Stopped), WorkerAction::Exit));
    assert!(w.is_stopped());
    let m = w.into_metrics();
    assert_eq!(m.completed(), 0);
    assert_eq!(m.report().count, 0);
}

#[test]
fn worker_counts_into_the_metrics_it_was_given() {
    let mut w = Worker::new("h".to_string(), Metrics::with_bounds(vec![100]).unwrap());
    w.step(completed(200, 100));
    w.step(completed(200, 101));
    let m = w.into_metrics();
    assert_eq!(m.latency().cumulative_counts(), vec![1, 2]);
}

#[test]
fn run_starts_running() {
    let run = Orchestrator::new(3, Metrics::new());
    assert_eq!(run.phase(), Phase::Running);
    assert_eq!(run.concurrent(), 3);
    assert_eq!(run.joined(), 0);
    assert_eq!(run.totals().completed(), 0);
}

#[test]
fn run_from_interrupt_to_exit() {
    let mut run = Orchestrator::new(2, Metrics::new());
    assert!(matches!(run.step(Event::Interrupt), Action::BroadcastStop));
    assert_eq!(run.phase(), Phase::StopRequested);
    assert!(matches!(run.step(Event::StopBroadcast), Action::JoinWorkers));
    assert_eq!(run.phase(), Phase::Draining);
    assert!(matches!(run.step(Event::WorkerJoined(measured(3, 1))), Action::Wait));
    assert_eq!(run.phase(), Phase::Draining);
    assert_eq!(run.joined(), 1);
    match run.step(Event::WorkerJoined(measured(2, 4))) {
        Action::PrintReport(report) => {
            assert_eq!(report.success, 5);
            assert_eq!(report.failure, 5);
            assert_eq!(report.count, 10);
            assert_eq!(report.sum, 5 * 8_000 + 5 * 40_000);
            assert_eq!(report.buckets[0].cumulative_count, 0);
            assert_eq!(report.buckets[1].cumulative_count, 5);
            assert_eq!(report.buckets[3].cumulative_count, 10);
            assert_eq!(report.buckets[11].cumulative_count, 10);
        }
        other => panic!("{:?}", other),
    }
    assert_eq!(run.phase(), Phase::Reporting);
    assert_eq!(run.joined(), 2);
    assert!(matches!(run.step(Event::ReportPrinted), Action::Exit(0)));
    assert_eq!(run.phase(), Phase::Done);
}

#[test]
fn timer_stops_the_run_as_an_interrupt_does() {
    let mut run = Orchestrator::new(1, Metrics::new());
    assert!(matches!(run.step(Event::TimerElapsed), Action::BroadcastStop));
    assert_eq!(run.phase(), Phase::StopRequested);
}

#[test]
fn stop_is_asked_for_once() {
    let mut run = Orchestrator::new(1, Metrics::new());
    assert!(matches!(run.step(Event::TimerElapsed), Action::BroadcastStop));
    assert!(matches!(run.step(Event::Interrupt), Action::Wait));
    assert!(matches!(run.step(Event::TimerElapsed), Action::Wait));
    assert_eq!(run.phase(), Phase::StopRequested);
    run.step(Event::StopBroadcast);
    assert!(matches!(run.step(Event::Interrupt), Action::Wait));
    assert_eq!(run.phase(), Phase::Draining);
    run.step(Event::WorkerJoined(Metrics::new()));
    assert!(matches!(run.step(Event::TimerElapsed), Action::Wait));
    assert_eq!(run.phase(), Phase::Reporting);
    run.step(Event::ReportPrinted);
    assert!(matches!(run.step(Event::Interrupt), Action::Wait));
    assert_eq!(run.phase(), Phase::Done);
}

#[test]
fn run_exits_with_success_though_every_request_failed() {
    let mut run = Orchestrator::new(1, Metrics::new());
    run.step(Event::Interrupt);
    run.step(Event::StopBroadcast);
    match run.step(Event::WorkerJoined(measured(0, 7))) {
        Action::PrintReport(report) => {
            assert_eq!(report.success, 0);
            assert_eq!(report.failure, 7);
        }
        other => panic!("{:?}", other),
    }
    assert!(matches!(run.step(Event::ReportPrinted), Action::Exit(0)));
}

#[test]
fn run_without_workers_reports_at_once() {
    let mut run = Orchestrator::new(0, Metrics::new());
    assert!(matches!(run.step(Event::TimerElapsed), Action::BroadcastStop));
    match run.step(Event::StopBroadcast) {
        Action::PrintReport(report) => assert_eq!(report.count, 0),
        other => panic!("{:?}", other),
    }
    assert_eq!(run.phase(), Phase::Reporting);
    assert!(matches!(run.step(Event::ReportPrinted), Action::Exit(0)));
}

#[test]
fn events_out_of_turn_change_nothing() {
    let mut run = Orchestrator::new(2, Metrics::new());
    assert!(matches!(run.step(Event::StopBroadcast), Action::Wait));
    assert!(matches!(run.step(Event::WorkerJoined(measured(1, 1))), Action::Wait));
    assert!(matches!(run.step(Event::ReportPrinted), Action::Wait));
    assert_eq!(run.phase(), Phase::Running);
    assert_eq!(run.joined(), 0);
    assert_eq!(run.totals().completed(), 0);
    run.step(Event::Interrupt);
    assert!(matches!(run.step(Event::WorkerJoined(measured(1, 1))), Action::Wait));
    assert!(matches!(run.step(Event::ReportPrinted), Action::Wait));
    assert_eq!(run.phase(), Phase::StopRequested);
    assert_eq!(run.totals().completed(), 0);
    run.step(Event::StopBroadcast);
    assert!(matches!(run.step(Event::StopBroadcast), Action::Wait));
    assert!(matches!(run.step(Event::ReportPrinted), Action::Wait));
    assert_eq!(run.phase(), Phase::Draining);
}

#[test]
fn finished_run_takes_no_more_workers() {
    let mut run = Orchestrator::new(1, Metrics::new());
    run.step(Event::Interrupt);
    run.step(Event::StopBroadcast);
    run.step(Event::WorkerJoined(measured(1, 0)));
    assert!(matches!(run.step(Event::WorkerJoined(measured(5, 5))), Action::Wait));
    assert_eq!(run.joined(), 1);
    assert_eq!(run.totals().completed(), 1);
    run.step(Event::ReportPrinted);
    assert!(matches!(run.step(Event::ReportPrinted), Action::Wait));
    assert!(matches!(run.step(Event::WorkerJoined(measured(5, 5))), Action::Wait));
    assert_eq!(run.totals().completed(), 1);
    assert_eq!(run.phase(), Phase::Done);
}

#[test]
fn workers_and_run_together() {
    let mut run = Orchestrator::new(3, Metrics::new());
    let mut workers: Vec<Worker> = (0..3).map(|_| worker()).collect();
    for (i, w) in workers.iter_mut().enumerate() {
        w.step(WorkerEvent::Started);
        for k in 0..(i as u64 + 1) {
            w.step(completed(if k == 0 { 200 } else { 404 }, 1_000 * (k + 1)));
        }
    }
    assert!(matches!(run.step(Event::Interrupt), Action::BroadcastStop));
    for w in workers.iter_mut() {
        assert!(matches!(w.step(WorkerEvent::Stopped), WorkerAction::Exit));
    }
    assert!(matches!(run.step(Event::StopBroadcast), Action::JoinWorkers));
    let mut last = Action::Wait;
    for w in workers {
        last = run.step(Event::WorkerJoined(w.into_metrics()));
    }
    match last {
        Action::PrintReport(report) => {
            assert_eq!(report.success, 3);
            assert_eq!(report.failure, 3);
            assert_eq!(report.count, 6);
            assert_eq!(report.sum, 1_000 + 3_000 + 6_000);
        }
        other => panic!("{:?}", other),
    }
}
