use penumbra_wrapper::engine::{
    join_lines, Invocation, Origin, WatchAction, INACTIVITY_TIMEOUT_MS,
};
use penumbra_wrapper::executor::ProcessSlot;
use penumbra_wrapper::models::OperationOutputEvent;

fn feed(inv: &mut Invocation, origin: Origin, bytes: &[u8], at: u64) -> Vec<OperationOutputEvent> {
    let mut events = Vec::new();
    for b in bytes {
        if let Some(e) = inv.on_byte(origin, *b, at, "ts".to_string()) {
            events.push(e);
        }
    }
    events
}

#[test]
fn progress_run_succeeds_with_three_lines() {
    let mut inv = Invocation::new("op-1".to_string(), 0);
    let events = feed(&mut inv, Origin::Stdout, b"progress: 1%\rprogress: 2%\rprogress: 100%\r", 10);
    let texts: Vec<&str> = events.iter().map(|e| e.line.as_str()).collect();
    assert_eq!(texts, vec!["progress: 1%", "progress: 2%", "progress: 100%"]);
    assert!(events.iter().all(|e| e.operation_id == "op-1" && !e.is_stderr && e.timestamp == "ts"));
    assert!(inv.on_end(Origin::Stdout, "ts".to_string()).is_none());
    assert!(inv.on_end(Origin::Stderr, "ts".to_string()).is_none());
    assert!(inv.is_drained());
    assert_eq!(inv.poll(Some(true), 20), WatchAction::Finish(true));
    let (done, result) = inv.complete(true);
    assert_eq!(done.operation_id, "op-1");
    assert!(done.success);
    assert_eq!(done.error, None);
    assert_eq!(result, Ok("progress: 1%\nprogress: 2%\nprogress: 100%".to_string()));
}

#[test]
fn silent_process_times_out_after_first_line() {
    let mut inv = Invocation::new("op-2".to_string(), 0);
    let events = feed(&mut inv, Origin::Stdout, b"A\n", 500);
    assert_eq!(events.len(), 1);
    assert_eq!(events[0].line, "A");
    assert_eq!(inv.poll(None, 500 + INACTIVITY_TIMEOUT_MS), WatchAction::Wait);
    assert_eq!(inv.poll(None, 500 + INACTIVITY_TIMEOUT_MS + 1), WatchAction::Kill);
    let (done, message) = inv.time_out();
    assert_eq!(done.operation_id, "op-2");
    assert!(!done.success);
    assert_eq!(message, "Antumbra process timed out after 30s without output");
    assert_eq!(done.error.as_deref(), Some("Antumbra process timed out after 30s without output"));
}

#[test]
fn slow_but_steady_output_never_times_out() {
    let mut inv = Invocation::new("op-3".to_string(), 0);
    let mut t: u64 = 0;
    for _ in 0..10 {
        t += INACTIVITY_TIMEOUT_MS - 1;
        assert_eq!(inv.poll(None, t), WatchAction::Wait);
        feed(&mut inv, Origin::Stderr, b".", t);
    }
    assert_eq!(inv.last_activity(), t);
    assert_eq!(inv.poll(None, t + 1), WatchAction::Wait);
}

#[test]
fn two_invocations_do_not_share_seen_lines() {
    let output = b"hello\nworld\n";
    let mut first = Invocation::new("op-a".to_string(), 0);
    let mut second = Invocation::new("op-b".to_string(), 0);
    let e1 = feed(&mut first, Origin::Stdout, output, 1);
    let e2 = feed(&mut second, Origin::Stdout, output, 1);
    assert_eq!(e1.len(), 2);
    assert_eq!(e2.len(), 2);
    assert_eq!(e2[0].operation_id, "op-b");
    let (c1, r1) = first.complete(true);
    let (c2, r2) = second.complete(true);
    assert_eq!(c1.operation_id, "op-a");
    assert_eq!(c2.operation_id, "op-b");
    assert_eq!(r1, r2);
}

#[test]
fn failed_process_reports_captured_stderr() {
    let mut inv = Invocation::new("op-4".to_string(), 0);
    feed(&mut inv, Origin::Stdout, b"working\n", 1);
    feed(&mut inv, Origin::Stderr, b"bad thing\nworse", 2);
    let last = inv.on_end(Origin::Stderr, "t".to_string()).unwrap();
    assert_eq!(last.line, "worse");
    assert!(last.is_stderr);
    let (done, result) = inv.complete(false);
    assert!(!done.success);
    assert_eq!(done.error.as_deref(), Some("bad thing\nworse"));
    assert_eq!(result, Err("Antumbra process failed: bad thing\nworse".to_string()));
}

#[test]
fn line_seen_on_stdout_is_not_repeated_on_stderr() {
    let mut inv = Invocation::new("op-5".to_string(), 0);
    assert_eq!(feed(&mut inv, Origin::Stdout, b"same\n", 1).len(), 1);
    assert_eq!(feed(&mut inv, Origin::Stderr, b"same\n", 2).len(), 0);
}

#[test]
fn cancel_with_nothing_recorded_does_nothing() {
    let mut slot = ProcessSlot::new();
    assert_eq!(slot.take_for_cancel(), None);
    assert_eq!(slot.current(), None);
}

#[test]
fn cancel_with_a_process_recorded() {
    let mut slot = ProcessSlot::new();
    let mut inv = Invocation::new("op-6".to_string(), 0);
    slot.set_current_pid(Some(4242));
    feed(&mut inv, Origin::Stdout, b"flashing\n", 5);
    assert_eq!(slot.take_for_cancel(), Some(4242));
    assert_eq!(slot.current(), None);
    // The terminated process exits with a failure status on the next tick.
    assert_eq!(inv.poll(Some(false), 1000), WatchAction::Finish(false));
    let (done, result) = inv.complete(false);
    assert!(!done.success);
    assert_eq!(done.operation_id, "op-6");
    assert!(result.is_err());
    slot.clear_current_pid();
    assert_eq!(slot.current(), None);
}

#[test]
fn joining_lines() {
    assert_eq!(join_lines(&vec![]), "");
    assert_eq!(join_lines(&vec!["a".to_string()]), "a");
    assert_eq!(join_lines(&vec!["a".to_string(), "b".to_string(), "c".to_string()]), "a\nb\nc");
}

#[test]
fn invocation_stamped_with_the_clock() {
    let mut inv = Invocation::start("op-7".to_string());
    let mut got = None;
    for b in b"tick\n" {
        if let Some(e) = inv.receive(Origin::Stdout, *b) {
            got = Some(e);
        }
    }
    let e = got.unwrap();
    assert_eq!(e.line, "tick");
    assert!(!e.timestamp.is_empty());
    assert_eq!(inv.end_stream(Origin::Stdout).map(|e| e.line), None);
    assert_eq!(inv.poll_now(None), WatchAction::Wait);
}

#[test]
fn unsupervised_invocation_fails_once() {
    let inv = Invocation::new("op-8".to_string(), 0);
    let (done, message) = inv.fail("Failed to take the output streams".to_string());
    assert_eq!(done.operation_id, "op-8");
    assert!(!done.success);
    assert_eq!(done.error.as_deref(), Some("Failed to take the output streams"));
    assert_eq!(message, "Failed to take the output streams");
}
