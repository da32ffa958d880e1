use voicepeak_cli::{Action, AttemptError, Event, InvokeError, Invocation, Phase, VoicepeakCommand};

/// Drives an invocation against a fake engine whose attempts succeed or fail
/// as `outcomes` says; returns the actions and the number of engine runs.
fn drive(inv: &mut Invocation, outcomes: &[Result<(), AttemptError>]) -> (Vec<Action>, usize) {
    let mut actions = vec![inv.step(Event::LockAcquired)];
    let mut runs = 0;
    let mut next = 0;
    loop {
        match *actions.last().unwrap() {
            Action::RunAttempt { .. } | Action::RetryAfterCleanup { .. } => {
                assert!(matches!(inv.phase(), Phase::Running { .. }));
                runs += 1;
                let event = match outcomes[next] {
                    Ok(()) => Event::AttemptSucceeded,
                    Err(e) => Event::AttemptFailed(e),
                };
                next += 1;
                assert!(inv.accepts(event));
                actions.push(inv.step(event));
            }
            Action::Succeed | Action::Fail(_) => break,
        }
    }
    (actions, runs)
}

#[test]
fn succeeds_after_k_failures() {
    let mut inv = VoicepeakCommand::new().text("hi").execute();
    let outcomes = [
        Err(AttemptError::TimedOut),
        Err(AttemptError::ExitFailure),
        Err(AttemptError::SpawnFailed),
        Ok(()),
    ];
    let (actions, runs) = drive(&mut inv, &outcomes);
    assert_eq!(runs, 4);
    assert_eq!(
        actions,
        vec![
            Action::RunAttempt { attempt: 1 },
            Action::RetryAfterCleanup { attempt: 2 },
            Action::RetryAfterCleanup { attempt: 3 },
            Action::RetryAfterCleanup { attempt: 4 },
            Action::Succeed,
        ]
    );
    assert_eq!(inv.phase(), Phase::Finished);
}

#[test]
fn succeeds_at_once() {
    let mut inv = VoicepeakCommand::new().execute();
    let (actions, runs) = drive(&mut inv, &[Ok(())]);
    assert_eq!(runs, 1);
    assert_eq!(actions, vec![Action::RunAttempt { attempt: 1 }, Action::Succeed]);
}

#[test]
fn always_failing_engine_uses_every_attempt() {
    let mut inv = VoicepeakCommand::new().execute();
    let mut outcomes = vec![Err(AttemptError::TimedOut); 9];
    outcomes.push(Err(AttemptError::ExitFailure));
    outcomes.push(Ok(()));
    let (actions, runs) = drive(&mut inv, &outcomes);
    assert_eq!(runs, 10);
    assert_eq!(
        *actions.last().unwrap(),
        Action::Fail(InvokeError::Exhausted { attempts: 10, last: AttemptError::ExitFailure })
    );
    assert_eq!(inv.phase(), Phase::Finished);
    assert!(!inv.accepts(Event::AttemptSucceeded));
    assert!(!inv.accepts(Event::LockAcquired));
}

#[test]
fn smaller_budget_is_respected() {
    let mut inv = Invocation::new(VoicepeakCommand::new(), false, 2);
    let outcomes = vec![Err(AttemptError::TimedOut); 3];
    let (actions, runs) = drive(&mut inv, &outcomes);
    assert_eq!(runs, 2);
    assert_eq!(
        *actions.last().unwrap(),
        Action::Fail(InvokeError::Exhausted { attempts: 2, last: AttemptError::TimedOut })
    );
}

#[test]
fn lock_failure_ends_the_invocation() {
    let mut inv = VoicepeakCommand::new().execute();
    assert!(inv.accepts(Event::LockFailed));
    assert!(!inv.accepts(Event::AttemptSucceeded));
    assert_eq!(inv.step(Event::LockFailed), Action::Fail(InvokeError::LockFailed));
    assert_eq!(inv.phase(), Phase::Finished);
}

#[test]
fn zero_attempts_fail_without_running() {
    let mut inv = Invocation::new(VoicepeakCommand::new(), true, 0);
    assert_eq!(inv.step(Event::LockAcquired), Action::Fail(InvokeError::NoAttempts));
    assert_eq!(inv.phase(), Phase::Finished);
}

/// Two invocations share one exclusive lock; the fake engine records when
/// each run starts and ends. The runs never overlap.
#[test]
fn sequential_invocations_never_overlap() {
    let mut lock_owner: Option<usize> = None;
    let mut log: Vec<(usize, &str)> = Vec::new();
    let mut invs = [VoicepeakCommand::new().execute(), VoicepeakCommand::new().execute()];
    let mut pending: [Option<Action>; 2] = [None, None];
    let mut failures_left = [2, 1];
    // Interleave the two drivers step by step.
    for round in 0..40 {
        let who = round % 2;
        let inv = &mut invs[who];
        if inv.phase() == Phase::Finished {
            continue;
        }
        let event = match (inv.phase(), pending[who]) {
            (Phase::AwaitingLock, _) => {
                if lock_owner.is_some() {
                    continue;
                }
                lock_owner = Some(who);
                Event::LockAcquired
            }
            (Phase::Running { .. }, Some(Action::RunAttempt { .. }))
            | (Phase::Running { .. }, Some(Action::RetryAfterCleanup { .. })) => {
                assert_eq!(lock_owner, Some(who));
                log.push((who, "enter"));
                log.push((who, "exit"));
                if failures_left[who] > 0 {
                    failures_left[who] -= 1;
                    Event::AttemptFailed(AttemptError::TimedOut)
                } else {
                    Event::AttemptSucceeded
                }
            }
            _ => unreachable!(),
        };
        let action = inv.step(event);
        if matches!(action, Action::Succeed | Action::Fail(_)) {
            assert_eq!(lock_owner, Some(who));
            lock_owner = None;
        }
        pending[who] = Some(action);
    }
    assert_eq!(invs[0].phase(), Phase::Finished);
    assert_eq!(invs[1].phase(), Phase::Finished);
    assert_eq!(log.len(), 2 * (3 + 2));
    for pair in log.chunks(2) {
        assert_eq!(pair[0].0, pair[1].0);
        assert_eq!((pair[0].1, pair[1].1), ("enter", "exit"));
    }
    let first: Vec<usize> = log.iter().map(|e| e.0).collect();
    let switches = first.windows(2).filter(|w| w[0] != w[1]).count();
    assert_eq!(switches, 1);
}
