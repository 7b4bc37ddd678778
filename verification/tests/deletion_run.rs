use vault_purge::config::ConfigError;
use vault_purge::executor::{Completion, DeletionOutcome, DeletionRun, RunTotals};
use vault_purge::run_model::TaskStatus;

fn run_of(ids: &[&str], limit: usize) -> DeletionRun {
    match DeletionRun::new(ids.iter().map(|id| id.to_string()).collect(), limit) {
        Ok(run) => run,
        Err(e) => panic!("unexpected {:?}", e),
    }
}

fn success(id: &str) -> DeletionOutcome {
    DeletionOutcome::Success(id.to_string())
}

fn remote_error(id: &str) -> DeletionOutcome {
    DeletionOutcome::RemoteError(id.to_string(), "access denied".to_string())
}

fn fault() -> DeletionOutcome {
    DeletionOutcome::TaskFault("task panicked".to_string())
}

fn is_record_of(next: &Completion, id: &str) -> bool {
    matches!(next, Completion::Record(named) if named == id)
}

#[test]
fn zero_limit_is_refused() {
    assert!(matches!(
        DeletionRun::new(vec!["A".to_string()], 0),
        Err(ConfigError::InvalidParallelJobs)
    ));
    assert!(matches!(DeletionRun::new(Vec::new(), 0), Err(ConfigError::InvalidParallelJobs)));
}

#[test]
fn fresh_run_has_everything_queued() {
    let run = run_of(&["A", "B", "C"], 2);
    assert_eq!(run.limit(), 2);
    assert_eq!(
        run.totals(),
        RunTotals { pending: 3, started: 0, in_flight: 0, succeeded: 0, failed: 0, unlogged: 0 }
    );
    assert_eq!(run.status_of(0), Some(TaskStatus::Queued));
    assert_eq!(run.status_of(2), Some(TaskStatus::Queued));
    assert_eq!(run.status_of(3), None);
    assert!(!run.is_drained());
}

#[test]
fn run_without_work_is_drained() {
    let mut run = run_of(&[], 3);
    assert!(run.is_drained());
    assert!(run.dispatch().is_none());
    assert!(run.is_drained());
}

#[test]
fn dispatch_hands_out_ids_in_order() {
    let mut run = run_of(&["A", "B", "C"], 5);
    for (ticket, id) in ["A", "B", "C"].iter().enumerate() {
        let task = run.dispatch().expect("a task may start");
        assert_eq!(task.ticket, ticket);
        assert_eq!(task.id, *id);
        assert_eq!(run.status_of(ticket), Some(TaskStatus::InFlight));
    }
    assert!(run.dispatch().is_none());
    assert_eq!(run.totals().in_flight, 3);
    assert_eq!(run.totals().started, 3);
}

#[test]
fn dispatch_stops_at_the_limit() {
    let mut run = run_of(&["A", "B", "C", "D", "E"], 2);
    assert!(run.dispatch().is_some());
    assert!(run.dispatch().is_some());
    assert!(run.dispatch().is_none());
    assert!(run.dispatch().is_none());
    assert_eq!(run.totals().in_flight, 2);
    assert_eq!(run.totals().started, 2);
    assert_eq!(run.status_of(2), Some(TaskStatus::Queued));
}

#[test]
fn success_asks_for_one_log_entry() {
    let mut run = run_of(&["A", "B"], 2);
    run.dispatch();
    run.dispatch();
    let next = run.complete(1, &success("B"));
    assert!(is_record_of(&next, "B"));
    assert_eq!(run.status_of(1), Some(TaskStatus::Logging));
    assert_eq!(run.totals().in_flight, 1);
    assert_eq!(run.totals().succeeded, 1);
    assert!(run.recorded(1, true));
    assert_eq!(run.status_of(1), Some(TaskStatus::Logged));
    assert_eq!(run.totals().succeeded, 1);
    assert_eq!(run.totals().unlogged, 0);
}

#[test]
fn remote_error_asks_for_no_log_entry() {
    let mut run = run_of(&["D"], 1);
    run.dispatch();
    let next = run.complete(0, &remote_error("D"));
    assert!(matches!(next, Completion::Skip));
    assert_eq!(run.status_of(0), Some(TaskStatus::Refused));
    assert_eq!(run.totals().failed, 1);
    assert_eq!(run.totals().succeeded, 0);
    assert!(!run.recorded(0, true));
    assert_eq!(run.status_of(0), Some(TaskStatus::Refused));
    assert!(run.is_drained());
}

#[test]
fn task_fault_asks_for_no_log_entry() {
    let mut run = run_of(&["A"], 1);
    run.dispatch();
    let next = run.complete(0, &fault());
    assert!(matches!(next, Completion::Skip));
    assert_eq!(run.status_of(0), Some(TaskStatus::Faulted));
    assert_eq!(run.totals().failed, 1);
    assert!(run.is_drained());
}

#[test]
fn failed_append_is_counted_and_does_not_stop_the_run() {
    let mut run = run_of(&["A", "B"], 1);
    run.dispatch();
    assert!(is_record_of(&run.complete(0, &success("A")), "A"));
    assert!(run.recorded(0, false));
    assert_eq!(run.status_of(0), Some(TaskStatus::Unlogged));
    assert_eq!(run.totals().succeeded, 1);
    assert_eq!(run.totals().unlogged, 1);
    assert!(!run.is_drained());
    let task = run.dispatch().expect("the next task may start");
    assert_eq!(task.id, "B");
    assert!(is_record_of(&run.complete(1, &success("B")), "B"));
    assert!(run.recorded(1, true));
    assert!(run.is_drained());
    assert_eq!(run.totals().succeeded, 2);
    assert_eq!(run.totals().unlogged, 1);
}

#[test]
fn report_for_a_ticket_not_in_flight_is_rejected() {
    let mut run = run_of(&["A", "B"], 1);
    assert!(matches!(run.complete(0, &success("A")), Completion::Rejected));
    assert!(matches!(run.complete(7, &fault()), Completion::Rejected));
    run.dispatch();
    assert!(matches!(run.complete(1, &success("B")), Completion::Rejected));
    assert!(matches!(run.complete(0, &remote_error("A")), Completion::Skip));
    assert!(matches!(run.complete(0, &success("A")), Completion::Rejected));
    assert_eq!(run.status_of(0), Some(TaskStatus::Refused));
    assert_eq!(run.totals().failed, 1);
}

#[test]
fn report_about_another_id_is_rejected() {
    let mut run = run_of(&["A", "B"], 2);
    run.dispatch();
    run.dispatch();
    assert!(matches!(run.complete(0, &success("B")), Completion::Rejected));
    assert!(matches!(run.complete(0, &remote_error("Z")), Completion::Rejected));
    assert_eq!(run.status_of(0), Some(TaskStatus::InFlight));
    assert_eq!(run.totals().in_flight, 2);
    assert!(is_record_of(&run.complete(0, &success("A")), "A"));
}

#[test]
fn one_append_at_a_time() {
    let mut run = run_of(&["A", "B"], 2);
    run.dispatch();
    run.dispatch();
    assert!(is_record_of(&run.complete(0, &success("A")), "A"));
    assert!(matches!(run.complete(1, &success("B")), Completion::Rejected));
    assert_eq!(run.status_of(1), Some(TaskStatus::InFlight));
    assert!(!run.recorded(1, true));
    assert!(run.recorded(0, true));
    assert!(!run.recorded(0, true));
    assert!(is_record_of(&run.complete(1, &success("B")), "B"));
    assert!(run.recorded(1, true));
    assert!(run.is_drained());
}

#[test]
fn slot_is_free_while_the_entry_is_written() {
    let mut run = run_of(&["A", "B"], 1);
    run.dispatch();
    assert!(run.dispatch().is_none());
    assert!(is_record_of(&run.complete(0, &success("A")), "A"));
    let task = run.dispatch().expect("the slot is free");
    assert_eq!(task.id, "B");
    assert!(!run.is_drained());
}

#[test]
fn mixed_run_accounts_for_every_id() {
    let mut run = run_of(&["A", "B", "C", "D"], 4);
    while run.dispatch().is_some() {}
    assert!(is_record_of(&run.complete(2, &success("C")), "C"));
    assert!(run.recorded(2, true));
    assert!(matches!(run.complete(0, &remote_error("A")), Completion::Skip));
    assert!(matches!(run.complete(3, &fault()), Completion::Skip));
    assert!(!run.is_drained());
    assert!(is_record_of(&run.complete(1, &success("B")), "B"));
    assert!(!run.is_drained());
    assert!(run.recorded(1, false));
    assert!(run.is_drained());
    assert_eq!(
        run.totals(),
        RunTotals { pending: 4, started: 4, in_flight: 0, succeeded: 2, failed: 2, unlogged: 1 }
    );
}
