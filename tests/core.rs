use reducewrap::backoff::{Backoff, MAX_DELAY_MS};
use reducewrap::policy::{Policy, PolicyError};
use reducewrap::run::{is_interesting, ProcessOutcome, RunAction, RunState};
use reducewrap::session::{Session, Step, FAILURE_EXIT, SUCCESS_EXIT};
use reducewrap::template::command_for;

/// Drives one run in which every instance has ended by the first poll.
fn run_all_ended(outcomes: &[ProcessOutcome], required: usize) -> bool {
    let mut run = RunState::new(outcomes.len(), required);
    loop {
        match run.next_action() {
            RunAction::Poll { pending, .. } => {
                for i in pending {
                    run.record(i, outcomes[i]);
                }
            }
            RunAction::Finish { kill, passed } => {
                assert!(kill.is_empty() || passed);
                return passed;
            }
        }
    }
}

#[test]
fn backoff_schedule_is_capped_fibonacci() {
    let mut b = Backoff::new();
    let got: Vec<u64> = (0..14).map(|_| b.next_delay()).collect();
    assert_eq!(got, vec![1, 1, 2, 3, 5, 8, 13, 21, 34, 55, 89, 100, 100, 100]);
    for _ in 0..50 {
        assert_eq!(b.next_delay(), MAX_DELAY_MS);
    }
}

#[test]
fn backoff_schedule_ignores_pending_count() {
    let mut wide = RunState::new(5, 5);
    let mut narrow = RunState::new(5, 5);
    let mut first = true;
    for _ in 0..13 {
        let a = wide.next_action();
        let b = narrow.next_action();
        if first {
            narrow.record(0, ProcessOutcome::Exited(1));
            narrow.record(1, ProcessOutcome::Exited(1));
            first = false;
        }
        match (a, b) {
            (RunAction::Poll { delay_ms: x, pending: p }, RunAction::Poll { delay_ms: y, .. }) => {
                assert_eq!(x, y);
                assert_eq!(p, vec![0, 1, 2, 3, 4]);
            }
            _ => panic!("both runs should still be polling"),
        }
    }
}

#[test]
fn threshold_met_by_two_of_three() {
    let o = [ProcessOutcome::Exited(0), ProcessOutcome::Exited(0), ProcessOutcome::Exited(1)];
    assert!(run_all_ended(&o, 2));
}

#[test]
fn threshold_missed_with_one_of_three() {
    let o = [ProcessOutcome::Exited(0), ProcessOutcome::Exited(1), ProcessOutcome::Exited(1)];
    assert!(!run_all_ended(&o, 2));
}

#[test]
fn abnormal_end_is_a_failure() {
    assert!(!is_interesting(ProcessOutcome::Abnormal));
    assert!(!is_interesting(ProcessOutcome::Exited(-1)));
    assert!(is_interesting(ProcessOutcome::Exited(0)));
    let o = [ProcessOutcome::Abnormal, ProcessOutcome::Exited(0)];
    assert!(!run_all_ended(&o, 2));
    assert!(run_all_ended(&o, 1));
}

#[test]
fn early_threshold_kills_the_rest() {
    let mut run = RunState::new(4, 2);
    match run.next_action() {
        RunAction::Poll { delay_ms, pending } => {
            assert_eq!(delay_ms, 1);
            assert_eq!(pending, vec![0, 1, 2, 3]);
        }
        RunAction::Finish { .. } => panic!("nothing has ended yet"),
    }
    run.record(2, ProcessOutcome::Exited(0));
    match run.next_action() {
        RunAction::Poll { delay_ms, pending } => {
            assert_eq!(delay_ms, 1);
            assert_eq!(pending, vec![0, 1, 3]);
        }
        RunAction::Finish { .. } => panic!("one pass is not enough"),
    }
    run.record(0, ProcessOutcome::Exited(0));
    match run.next_action() {
        RunAction::Finish { kill, passed } => {
            assert!(passed);
            assert_eq!(kill, vec![1, 3]);
        }
        RunAction::Poll { .. } => panic!("the threshold is met"),
    }
}

#[test]
fn all_ended_without_threshold_fails_with_nothing_to_kill() {
    let mut run = RunState::new(2, 2);
    let _ = run.next_action();
    run.record(1, ProcessOutcome::Exited(0));
    run.record(0, ProcessOutcome::Exited(3));
    match run.next_action() {
        RunAction::Finish { kill, passed } => {
            assert!(!passed);
            assert!(kill.is_empty());
        }
        RunAction::Poll { .. } => panic!("every instance has ended"),
    }
}

#[test]
fn round_two_of_three_fails() {
    let mut s = Session::new(3, false);
    let mut launched = Vec::new();
    loop {
        match s.next_step() {
            Step::RunRound(k) => {
                launched.push(k);
                s.record_round(k != 2);
            }
            Step::Exit(code) => {
                assert_eq!(code, 1);
                assert_eq!(code, FAILURE_EXIT);
                break;
            }
            Step::RunValidator => panic!("no validator was configured"),
        }
    }
    assert_eq!(launched, vec![1, 2]);
}

#[test]
fn all_rounds_pass() {
    let mut s = Session::new(4, true);
    assert_eq!(s.next_step(), Step::RunValidator);
    s.record_validator(0);
    let mut launched = Vec::new();
    loop {
        match s.next_step() {
            Step::RunRound(k) => {
                launched.push(k);
                s.record_round(true);
            }
            Step::Exit(code) => {
                assert_eq!(code, SUCCESS_EXIT);
                break;
            }
            Step::RunValidator => panic!("the validator already ran"),
        }
    }
    assert_eq!(launched, vec![1, 2, 3, 4]);
}

#[test]
fn validator_rejection_skips_every_round() {
    let mut s = Session::new(3, true);
    assert_eq!(s.next_step(), Step::RunValidator);
    s.record_validator(42);
    assert_eq!(s.next_step(), Step::Exit(42));
    let mut t = Session::new(1, true);
    t.record_validator(-3);
    assert_eq!(t.next_step(), Step::Exit(-3));
}

#[test]
fn placeholder_command_passes_every_round() {
    let cmd = command_for("echo hi; test -f {}", "/tmp/stage/tested");
    assert_eq!(cmd, "echo hi; test -f /tmp/stage/tested");
    let mut s = Session::new(3, false);
    let mut rounds = 0;
    loop {
        match s.next_step() {
            Step::RunRound(_) => {
                rounds += 1;
                let o = [ProcessOutcome::Exited(0); 3];
                s.record_round(run_all_ended(&o, 3));
            }
            Step::Exit(code) => {
                assert_eq!(code, 0);
                break;
            }
            Step::RunValidator => panic!("no validator was configured"),
        }
    }
    assert_eq!(rounds, 3);
}

#[test]
fn template_without_placeholder_appends_path() {
    assert_eq!(command_for("./interesting.sh --fast", "/t/f"), "./interesting.sh --fast /t/f");
    assert_eq!(command_for("", "/t/f"), " /t/f");
    assert_eq!(command_for("a { } b{", "p"), "a { } b{ p");
}

#[test]
fn template_replaces_every_placeholder() {
    assert_eq!(command_for("cp {} x && cc {}", "/t/é"), "cp /t/é x && cc /t/é");
    assert_eq!(command_for("{{}}", "P"), "{P}");
    assert_eq!(command_for("{}", ""), "");
    assert_eq!(command_for("{}{}", "ab"), "abab");
}

#[test]
fn policy_accepts_valid_numbers() {
    assert_eq!(
        Policy::new(3, 2, 5),
        Ok(Policy { parallel: 3, required_passes: 2, rounds: 5 })
    );
    assert_eq!(
        Policy::new(1, 1, 1),
        Ok(Policy { parallel: 1, required_passes: 1, rounds: 1 })
    );
}

#[test]
fn policy_errors() {
    assert_eq!(Policy::new(1, 1, 0), Err(PolicyError::ZeroRounds));
    assert_eq!(Policy::new(0, 0, 0), Err(PolicyError::ZeroRounds));
    assert_eq!(Policy::new(0, 1, 1), Err(PolicyError::ZeroParallel));
    assert_eq!(Policy::new(2, 0, 1), Err(PolicyError::ZeroRequiredPasses));
    assert_eq!(Policy::new(2, 3, 1), Err(PolicyError::RequiredExceedsParallel));
}
