//! What every run of the invocation protocol does: how many attempts it
//! makes against an engine that fails for a while, and that the engine is
//! only ever run while the lock is held.

use vstd::prelude::*;
use crate::invoker::{
    accepts, attempts_made, holds_lock, next, run, runs_engine, Action, AttemptError, Event,
    InvokeError, Phase,
};

verus! {

broadcast use Seq::filter_distributes_over_add;

/// Failed attempts, reported as events.
pub open spec fn failures(errs: Seq<AttemptError>) -> Seq<Event> {
    errs.map_values(|e: AttemptError| Event::AttemptFailed(e))
}

/// The retries ordered after `n` failed attempts, the first of them attempt
/// number `a`.
pub open spec fn retries(a: int, n: nat) -> Seq<Action> {
    Seq::new(n, |i: int| Action::RetryAfterCleanup { attempt: (a + i + 1) as usize })
}

proof fn lemma_attempts_all(acts: Seq<Action>)
    requires
        forall|i: int| 0 <= i < acts.len() ==> runs_engine(#[trigger] acts[i]),
    ensures
        attempts_made(acts) == acts.len(),
    decreases acts.len(),
{
    reveal(Seq::filter);
    if acts.len() > 0 {
        let init = acts.drop_last();
        assert forall|i: int| 0 <= i < init.len() implies runs_engine(#[trigger] init[i]) by {
            assert(init[i] == acts[i]);
        }
        lemma_attempts_all(init);
        assert(runs_engine(acts[acts.len() - 1]));
    }
}

proof fn lemma_attempts_one(a: Action)
    ensures
        attempts_made(seq![a]) == (if runs_engine(a) {
            1nat
        } else {
            0nat
        }),
{
    reveal_with_fuel(Seq::filter, 2);
    assert(seq![a].drop_last() =~= Seq::<Action>::empty());
}

proof fn lemma_run_failures(a: usize, errs: Seq<AttemptError>, tail: Seq<Event>, max: usize)
    requires
        1 <= a,
        a + errs.len() <= max,
    ensures
        run(Phase::Running { attempt: a }, failures(errs) + tail, max).1 == retries(
            a as int,
            errs.len(),
        ) + run(Phase::Running { attempt: (a + errs.len()) as usize }, tail, max).1,
    decreases errs.len(),
{
    if errs.len() == 0 {
        assert(failures(errs) + tail =~= tail);
        assert(retries(a as int, 0) + run(Phase::Running { attempt: a }, tail, max).1 =~= run(
            Phase::Running { attempt: a },
            tail,
            max,
        ).1);
    } else {
        let events = failures(errs) + tail;
        assert(events[0] == Event::AttemptFailed(errs[0]));
        assert(events.drop_first() =~= failures(errs.drop_first()) + tail);
        lemma_run_failures((a + 1) as usize, errs.drop_first(), tail, max);
        assert(retries(a as int, errs.len()) =~= seq![
            Action::RetryAfterCleanup { attempt: (a + 1) as usize },
        ] + retries(a + 1, (errs.len() - 1) as nat));
    }
}

/// An engine that fails its first `errs.len()` attempts, fewer than the
/// budget, and then succeeds: the invocation succeeds, having run the engine
/// exactly `errs.len() + 1` times.
pub proof fn lemma_succeeds_after_failures(errs: Seq<AttemptError>, max: usize)
    requires
        errs.len() < max,
    ensures
        ({
            let acts = run(
                Phase::AwaitingLock,
                seq![Event::LockAcquired] + failures(errs) + seq![Event::AttemptSucceeded],
                max,
            ).1;
            &&& acts.len() == errs.len() + 2
            &&& acts.last() == Action::Succeed
            &&& attempts_made(acts) == errs.len() + 1
        }),
{
    let tail = seq![Event::AttemptSucceeded];
    let events = seq![Event::LockAcquired] + failures(errs) + tail;
    assert(events[0] == Event::LockAcquired);
    assert(events.drop_first() =~= failures(errs) + tail);
    lemma_run_failures(1, errs, tail, max);
    let last_phase = Phase::Running { attempt: (1 + errs.len()) as usize };
    assert(tail.drop_first() =~= Seq::<Event>::empty());
    assert(run(Phase::Finished, tail.drop_first(), max).1 =~= Seq::<Action>::empty());
    assert(run(last_phase, tail, max).1 =~= seq![Action::Succeed]);
    let acts = run(Phase::AwaitingLock, events, max).1;
    let rs = retries(1, errs.len());
    assert(acts =~= seq![Action::RunAttempt { attempt: 1 }] + rs + seq![Action::Succeed]);
    lemma_attempts_one(Action::RunAttempt { attempt: 1 });
    lemma_attempts_one(Action::Succeed);
    lemma_attempts_all(rs);
}

/// An engine that fails every attempt: the invocation runs it exactly
/// `max` times and fails naming the budget and the last error; events
/// reported after that change nothing.
pub proof fn lemma_fails_after_budget(errs: Seq<AttemptError>, max: usize, later: Seq<Event>)
    requires
        max >= 1,
        errs.len() == max,
    ensures
        ({
            let acts = run(
                Phase::AwaitingLock,
                seq![Event::LockAcquired] + failures(errs) + later,
                max,
            ).1;
            &&& acts.len() == max + 1
            &&& acts.last() == Action::Fail(
                InvokeError::Exhausted { attempts: max, last: errs.last() },
            )
            &&& attempts_made(acts) == max
        }),
{
    let front = errs.drop_last();
    let tail = seq![Event::AttemptFailed(errs.last())] + later;
    let events = seq![Event::LockAcquired] + failures(errs) + later;
    assert(events[0] == Event::LockAcquired);
    assert(failures(errs) =~= failures(front) + seq![Event::AttemptFailed(errs.last())]);
    assert(events.drop_first() =~= failures(front) + tail);
    lemma_run_failures(1, front, tail, max);
    let last_phase = Phase::Running { attempt: max };
    assert(tail[0] == Event::AttemptFailed(errs.last()));
    let fail = Action::Fail(InvokeError::Exhausted { attempts: max, last: errs.last() });
    let after = tail.drop_first();
    assert(after.len() == 0 || !accepts(Phase::Finished, after[0]));
    assert(run(Phase::Finished, after, max).1 =~= Seq::<Action>::empty());
    assert(run(last_phase, tail, max).1 =~= seq![fail]);
    let acts = run(Phase::AwaitingLock, events, max).1;
    let rs = retries(1, front.len());
    assert(acts =~= seq![Action::RunAttempt { attempt: 1 }] + rs + seq![fail]);
    lemma_attempts_one(Action::RunAttempt { attempt: 1 });
    lemma_attempts_one(fail);
    lemma_attempts_all(rs);
}

/// The engine is only run with the lock held: every action that runs it
/// leaves the invocation holding the lock, the lock is only ever taken on
/// `LockAcquired`, and nothing happens once the invocation has finished.
pub proof fn lemma_runs_hold_lock(phase: Phase, events: Seq<Event>, max: usize)
    ensures
        ({
            let (ps, acts) = run(phase, events, max);
            &&& ps.len() == acts.len() <= events.len()
            &&& forall|i: int|
                0 <= i < acts.len() && runs_engine(#[trigger] acts[i]) ==> holds_lock(ps[i])
            &&& forall|i: int|
                0 < i < ps.len() && holds_lock(#[trigger] ps[i]) && !holds_lock(ps[i - 1])
                    ==> events[i] == Event::LockAcquired
            &&& ps.len() > 0 && holds_lock(ps[0]) && !holds_lock(phase) ==> events[0]
                == Event::LockAcquired
            &&& forall|i: int| 0 <= i < ps.len() && (#[trigger] ps[i]) is Finished ==> i == ps.len() - 1
        }),
    decreases events.len(),
{
    if events.len() > 0 && accepts(phase, events[0]) {
        let (p, a) = next(phase, events[0], max);
        let rest = events.drop_first();
        lemma_runs_hold_lock(p, rest, max);
        let (ps1, acts1) = run(p, rest, max);
        let (ps, acts) = run(phase, events, max);
        assert(ps == seq![p] + ps1);
        assert(acts == seq![a] + acts1);
        assert forall|i: int|
            0 <= i < acts.len() && runs_engine(#[trigger] acts[i]) implies holds_lock(ps[i]) by {
            if i > 0 {
                assert(acts[i] == acts1[i - 1]);
                assert(ps[i] == ps1[i - 1]);
            }
        }
        assert forall|i: int|
            0 < i < ps.len() && holds_lock(#[trigger] ps[i]) && !holds_lock(ps[i - 1]) implies events[i]
                == Event::LockAcquired by {
            assert(ps[i] == ps1[i - 1]);
            assert(events[i] == rest[i - 1]);
            if i > 1 {
                assert(ps[i - 1] == ps1[i - 2]);
            }
        }
        assert forall|i: int| 0 <= i < ps.len() && (#[trigger] ps[i]) is Finished implies i
            == ps.len() - 1 by {
            if i == 0 {
                if ps1.len() > 0 {
                    assert(rest.len() > 0 && accepts(p, rest[0]));
                }
            } else {
                assert(ps[i] == ps1[i - 1]);
            }
        }
    }
}

/// Invocations sharing one exclusive lock: where each stands, their
/// budgets, and which of them holds the lock.
pub struct SharedLock {
    pub phases: Seq<Phase>,
    pub budgets: Seq<usize>,
    pub owner: Option<int>,
}

/// All invocations about to take the lock, which nobody holds.
pub open spec fn shared_start(budgets: Seq<usize>) -> SharedLock {
    SharedLock {
        phases: Seq::new(budgets.len(), |i: int| Phase::AwaitingLock),
        budgets,
        owner: None,
    }
}

/// Invocation `who` may report `event`: the event fits its phase, and the
/// lock is granted only while nobody holds it.
pub open spec fn shared_allows(s: SharedLock, who: int, event: Event) -> bool {
    &&& 0 <= who < s.phases.len()
    &&& accepts(s.phases[who], event)
    &&& event == Event::LockAcquired ==> s.owner is None
}

/// Invocation `who` takes its step; it owns the lock while it holds it.
pub open spec fn shared_next(s: SharedLock, who: int, event: Event) -> SharedLock {
    let p = next(s.phases[who], event, s.budgets[who]).0;
    SharedLock {
        phases: s.phases.update(who, p),
        budgets: s.budgets,
        owner: if holds_lock(p) {
            Some(who)
        } else if s.owner == Some(who) {
            None
        } else {
            s.owner
        },
    }
}

/// The owner of the lock is exactly the invocation that holds it.
pub open spec fn owner_holds(s: SharedLock) -> bool {
    &&& s.phases.len() == s.budgets.len()
    &&& forall|i: int| 0 <= i < s.phases.len() ==> (holds_lock(#[trigger] s.phases[i]) <==> s.owner == Some(i))
}

/// At the start nobody holds the lock.
pub proof fn lemma_shared_start(budgets: Seq<usize>)
    ensures
        owner_holds(shared_start(budgets)),
{
}

/// Every allowed step keeps the owner of the lock the one invocation that
/// holds it; so two invocations never run the engine at the same time.
pub proof fn lemma_shared_step(s: SharedLock, who: int, event: Event)
    requires
        owner_holds(s),
        shared_allows(s, who, event),
    ensures
        owner_holds(shared_next(s, who, event)),
        forall|i: int, j: int|
            0 <= i < j < s.phases.len() ==> !(holds_lock(#[trigger] shared_next(s, who, event).phases[i])
                && holds_lock(#[trigger] shared_next(s, who, event).phases[j])),
{
    let t = shared_next(s, who, event);
    let p = t.phases[who];
    if holds_lock(p) && !holds_lock(s.phases[who]) {
        assert(s.phases[who] is AwaitingLock);
        assert(event == Event::LockAcquired);
    }
    assert forall|i: int| 0 <= i < t.phases.len() implies (holds_lock(#[trigger] t.phases[i])
        <==> t.owner == Some(i)) by {
        if i != who {
            assert(t.phases[i] == s.phases[i]);
        }
    }
}

} // verus!
