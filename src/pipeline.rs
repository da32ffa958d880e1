//! The playback/merge pipeline as a plan of steps. The caller performs the
//! steps in order; when one fails it stops, deletes what
//! `cleanup_after_failure` names (ignoring failures to delete) and reports
//! the error.

use vstd::prelude::*;

verus! {

/// How the audio is played.
#[derive(Clone, Copy, Debug, PartialEq, Eq, Structural)]
pub enum PlaybackMode {
    /// Each part is played as soon as it is synthesized.
    Sequential,
    /// All parts are synthesized, merged, then played as one.
    Batch,
}

/// Where the audio goes.
#[derive(Clone, Copy, Debug, PartialEq, Eq, Structural)]
pub enum Destination {
    /// Played, then discarded.
    Play,
    /// Written to the caller's output file and kept.
    SaveToFile,
}

/// An audio file of a run.
#[derive(Clone, Copy, Debug, PartialEq, Eq, Hash, Structural)]
pub enum Artifact {
    /// The temporary file of chunk `i`.
    Part(usize),
    /// The temporary file of the merged parts.
    Merged,
    /// The caller's output file.
    Output,
}

/// One step of a run.
#[derive(Clone, Copy, Debug, PartialEq, Eq, Structural)]
pub enum Step {
    /// Make sure the merge tool is available.
    CheckMergeTool,
    /// Synthesize chunk `chunk` into `Part(chunk)`.
    Synthesize { chunk: usize },
    /// Play an audio file.
    Play(Artifact),
    /// Merge all parts, in chunk order, into `into`.
    Merge { into: Artifact },
    /// Delete a temporary file.
    Delete(Artifact),
}

/// Whether a run must first check the merge tool: when playing in batch
/// mode, or when saving more than one chunk.
pub open spec fn merge_tool_needed(mode: PlaybackMode, dest: Destination, n: nat) -> bool {
    match dest {
        Destination::Play => mode == PlaybackMode::Batch,
        Destination::SaveToFile => n > 1,
    }
}

/// Synthesize, play and delete each chunk in turn.
pub open spec fn sequential_steps(n: nat) -> Seq<Step>
    decreases n,
{
    if n == 0 {
        Seq::empty()
    } else {
        let i = (n - 1) as usize;
        sequential_steps((n - 1) as nat) + seq![
            Step::Synthesize { chunk: i },
            Step::Play(Artifact::Part(i)),
            Step::Delete(Artifact::Part(i)),
        ]
    }
}

/// Synthesize each chunk, in order.
pub open spec fn synth_steps(n: nat) -> Seq<Step> {
    Seq::new(n, |i: int| Step::Synthesize { chunk: i as usize })
}

/// Delete each part, in order.
pub open spec fn delete_parts(n: nat) -> Seq<Step> {
    Seq::new(n, |i: int| Step::Delete(Artifact::Part(i as usize)))
}

/// The merge-tool check, where one is needed.
pub open spec fn check_steps(mode: PlaybackMode, dest: Destination, n: nat) -> Seq<Step> {
    if merge_tool_needed(mode, dest, n) {
        seq![Step::CheckMergeTool]
    } else {
        Seq::empty()
    }
}

/// The steps of a run over `n` chunks.
pub open spec fn run_plan(n: nat, mode: PlaybackMode, dest: Destination) -> Seq<Step> {
    let check = check_steps(mode, dest, n);
    match dest {
        Destination::Play => match mode {
            PlaybackMode::Sequential => check + sequential_steps(n),
            PlaybackMode::Batch => check + synth_steps(n) + seq![
                Step::Merge { into: Artifact::Merged },
            ] + delete_parts(n) + seq![
                Step::Play(Artifact::Merged),
                Step::Delete(Artifact::Merged),
            ],
        },
        Destination::SaveToFile => check + synth_steps(n) + seq![
            Step::Merge { into: Artifact::Output },
        ] + delete_parts(n),
    }
}

/// The temporary file that a step creates, if any.
pub open spec fn created_temp(s: Step) -> Option<Artifact> {
    match s {
        Step::Synthesize { chunk } => Some(Artifact::Part(chunk)),
        Step::Merge { into } => if into is Output {
            None
        } else {
            Some(into)
        },
        _ => None,
    }
}

/// The temporary files that `steps` create, in order.
pub open spec fn temps_created(steps: Seq<Step>) -> Seq<Artifact>
    decreases steps.len(),
{
    if steps.len() == 0 {
        Seq::empty()
    } else {
        let r = temps_created(steps.drop_last());
        match created_temp(steps.last()) {
            Some(a) => r.push(a),
            None => r,
        }
    }
}

/// Those of `temps` that `done` does not delete, in order.
pub open spec fn not_deleted(temps: Seq<Artifact>, done: Seq<Step>) -> Seq<Artifact>
    decreases temps.len(),
{
    if temps.len() == 0 {
        Seq::empty()
    } else {
        let r = not_deleted(temps.drop_last(), done);
        if done.contains(Step::Delete(temps.last())) {
            r
        } else {
            r.push(temps.last())
        }
    }
}

/// What to delete when step `k` fails: the temporary files created up to
/// and including step `k` that no earlier step deleted.
pub open spec fn leftovers(steps: Seq<Step>, k: int) -> Seq<Artifact> {
    not_deleted(temps_created(steps.take(k + 1)), steps.take(k))
}

/// Whether a run must first check the merge tool.
pub fn needs_merge_tool(mode: PlaybackMode, dest: Destination, n_chunks: usize) -> (r: bool)
    ensures
        r == merge_tool_needed(mode, dest, n_chunks as nat),
{
    match dest {
        Destination::Play => mode == PlaybackMode::Batch,
        Destination::SaveToFile => n_chunks > 1,
    }
}

fn push_synth_steps(plan: &mut Vec<Step>, n: usize)
    ensures
        final(plan)@ == old(plan)@ + synth_steps(n as nat),
{
    let mut i: usize = 0;
    while i < n
        invariant
            i <= n,
            plan@ == old(plan)@ + synth_steps(i as nat),
        decreases n - i,
    {
        plan.push(Step::Synthesize { chunk: i });
        assert(synth_steps((i + 1) as nat) =~= synth_steps(i as nat).push(
            Step::Synthesize { chunk: i },
        ));
        i += 1;
    }
}

fn push_delete_parts(plan: &mut Vec<Step>, n: usize)
    ensures
        final(plan)@ == old(plan)@ + delete_parts(n as nat),
{
    let mut i: usize = 0;
    while i < n
        invariant
            i <= n,
            plan@ == old(plan)@ + delete_parts(i as nat),
        decreases n - i,
    {
        plan.push(Step::Delete(Artifact::Part(i)));
        assert(delete_parts((i + 1) as nat) =~= delete_parts(i as nat).push(
            Step::Delete(Artifact::Part(i)),
        ));
        i += 1;
    }
}

/// The steps of a run over `n_chunks` chunks.
pub fn plan_run(n_chunks: usize, mode: PlaybackMode, dest: Destination) -> (r: Vec<Step>)
    ensures
        r@ == run_plan(n_chunks as nat, mode, dest),
{
    let mut plan: Vec<Step> = Vec::new();
    if needs_merge_tool(mode, dest, n_chunks) {
        plan.push(Step::CheckMergeTool);
    }
    let ghost check = plan@;
    assert(check =~= check_steps(mode, dest, n_chunks as nat));
    match dest {
        Destination::Play => match mode {
            PlaybackMode::Sequential => {
                let mut i: usize = 0;
                while i < n_chunks
                    invariant
                        i <= n_chunks,
                        plan@ == check + sequential_steps(i as nat),
                    decreases n_chunks - i,
                {
                    plan.push(Step::Synthesize { chunk: i });
                    plan.push(Step::Play(Artifact::Part(i)));
                    plan.push(Step::Delete(Artifact::Part(i)));
                    assert(sequential_steps((i + 1) as nat) == sequential_steps(i as nat) + seq![
                        Step::Synthesize { chunk: i },
                        Step::Play(Artifact::Part(i)),
                        Step::Delete(Artifact::Part(i)),
                    ]);
                    assert(plan@ =~= check + sequential_steps((i + 1) as nat));
                    i += 1;
                }
            },
            PlaybackMode::Batch => {
                push_synth_steps(&mut plan, n_chunks);
                plan.push(Step::Merge { into: Artifact::Merged });
                push_delete_parts(&mut plan, n_chunks);
                plan.push(Step::Play(Artifact::Merged));
                plan.push(Step::Delete(Artifact::Merged));
                assert(plan@ =~= run_plan(n_chunks as nat, mode, dest));
            },
        },
        Destination::SaveToFile => {
            push_synth_steps(&mut plan, n_chunks);
            plan.push(Step::Merge { into: Artifact::Output });
            push_delete_parts(&mut plan, n_chunks);
            assert(plan@ =~= run_plan(n_chunks as nat, mode, dest));
        },
    }
    plan
}

fn created_temp_of(s: Step) -> (r: Option<Artifact>)
    ensures
        r == created_temp(s),
{
    match s {
        Step::Synthesize { chunk } => Some(Artifact::Part(chunk)),
        Step::Merge { into } => match into {
            Artifact::Output => None,
            _ => Some(into),
        },
        _ => None,
    }
}

fn deletes_before(steps: &Vec<Step>, upto: usize, a: Artifact) -> (r: bool)
    requires
        upto <= steps@.len(),
    ensures
        r == steps@.take(upto as int).contains(Step::Delete(a)),
{
    let mut i: usize = 0;
    while i < upto
        invariant
            i <= upto <= steps@.len(),
            !steps@.take(i as int).contains(Step::Delete(a)),
        decreases upto - i,
    {
        if steps[i] == Step::Delete(a) {
            assert(steps@.take(upto as int)[i as int] == Step::Delete(a));
            return true;
        }
        assert(steps@.take(i + 1) =~= steps@.take(i as int).push(steps@[i as int]));
        i += 1;
    }
    false
}

/// The temporary files to delete when step `failed` of `steps` fails.
pub fn cleanup_after_failure(steps: &Vec<Step>, failed: usize) -> (r: Vec<Artifact>)
    requires
        failed < steps@.len(),
    ensures
        r@ == leftovers(steps@, failed as int),
{
    let mut temps: Vec<Artifact> = Vec::new();
    let n = steps.len();
    let mut i: usize = 0;
    while i <= failed
        invariant
            n == steps@.len(),
            i <= failed + 1 <= steps@.len(),
            temps@ == temps_created(steps@.take(i as int)),
        decreases failed + 1 - i,
    {
        assert(steps@.take(i + 1).drop_last() =~= steps@.take(i as int));
        match created_temp_of(steps[i]) {
            Some(a) => temps.push(a),
            None => {},
        }
        i += 1;
    }
    let mut r: Vec<Artifact> = Vec::new();
    let mut j: usize = 0;
    while j < temps.len()
        invariant
            j <= temps@.len(),
            failed < steps@.len(),
            r@ == not_deleted(temps@.take(j as int), steps@.take(failed as int)),
        decreases temps@.len() - j,
    {
        assert(temps@.take(j + 1).drop_last() =~= temps@.take(j as int));
        let a = temps[j];
        if !deletes_before(steps, failed, a) {
            r.push(a);
        }
        j += 1;
    }
    assert(temps@.take(temps@.len() as int) =~= temps@);
    r
}

proof fn lemma_sequential_steps(n: nat)
    requires
        n <= usize::MAX,
    ensures
        sequential_steps(n).len() == 3 * n,
        forall|i: int|
            0 <= i < n ==> #[trigger] sequential_steps(n)[3 * i] == (Step::Synthesize {
                chunk: i as usize,
            }) && sequential_steps(n)[3 * i + 1] == Step::Play(Artifact::Part(i as usize))
                && sequential_steps(n)[3 * i + 2] == Step::Delete(Artifact::Part(i as usize)),
        forall|k: int|
            0 <= k < 3 * n && ((#[trigger] sequential_steps(n)[k]) is Synthesize) ==> k == 3 * (
            sequential_steps(n)[k]->chunk as int),
    decreases n,
{
    if n > 0 {
        let m = (n - 1) as nat;
        lemma_sequential_steps(m);
        let prev = sequential_steps(m);
        let cur = sequential_steps(n);
        assert forall|i: int| 0 <= i < n implies #[trigger] cur[3 * i] == Step::Synthesize {
            chunk: i as usize,
        } && cur[3 * i + 1] == Step::Play(Artifact::Part(i as usize)) && cur[3 * i + 2]
            == Step::Delete(Artifact::Part(i as usize)) by {
            if i < m {
                assert(cur[3 * i] == prev[3 * i]);
                assert(cur[3 * i + 1] == prev[3 * i + 1]);
                assert(cur[3 * i + 2] == prev[3 * i + 2]);
            }
        }
        assert forall|k: int| 0 <= k < 3 * n && (#[trigger] cur[k]) is Synthesize implies k == 3 * (
        cur[k]->chunk as int) by {
            if k < 3 * m {
                assert(cur[k] == prev[k]);
            }
        }
    }
}

/// Where chunk `i` is synthesized in the plan of a run over `n` chunks.
pub open spec fn synth_position(n: nat, mode: PlaybackMode, dest: Destination, i: int) -> int {
    check_steps(mode, dest, n).len() + if dest == Destination::Play && mode
        == PlaybackMode::Sequential {
        3 * i
    } else {
        i
    }
}

/// Chunks are synthesized in order, each exactly once: chunk `i` at
/// `synth_position(i)`, which grows with `i`, and nowhere else.
pub proof fn lemma_chunks_in_order(n: nat, mode: PlaybackMode, dest: Destination)
    requires
        n <= usize::MAX,
    ensures
        forall|i: int|
            0 <= i < n ==> run_plan(n, mode, dest)[#[trigger] synth_position(n, mode, dest, i)]
                == (Step::Synthesize { chunk: i as usize }),
        forall|i: int, j: int|
            0 <= i < j < n ==> #[trigger] synth_position(n, mode, dest, i) < #[trigger] synth_position(
                n,
                mode,
                dest,
                j,
            ),
        forall|k: int|
            0 <= k < run_plan(n, mode, dest).len() && ((#[trigger] run_plan(n, mode, dest)[k]) is Synthesize)
                ==> k == synth_position(n, mode, dest, run_plan(n, mode, dest)[k]->chunk as int),
{
    let plan = run_plan(n, mode, dest);
    let c = check_steps(mode, dest, n);
    if dest == Destination::Play && mode == PlaybackMode::Sequential {
        lemma_sequential_steps(n);
        let sq = sequential_steps(n);
        assert(plan == c + sq);
        assert forall|i: int| 0 <= i < n implies plan[#[trigger] synth_position(n, mode, dest, i)]
            == Step::Synthesize { chunk: i as usize } by {
            assert(plan[c.len() + 3 * i] == sq[3 * i]);
        }
        assert forall|k: int| 0 <= k < plan.len() && (#[trigger] plan[k]) is Synthesize implies k
            == synth_position(n, mode, dest, plan[k]->chunk as int) by {
            assert(k >= c.len());
            assert(plan[k] == sq[k - c.len()]);
        }
    } else {
        let sy = synth_steps(n);
        assert forall|i: int| 0 <= i < n implies plan[#[trigger] synth_position(n, mode, dest, i)]
            == Step::Synthesize { chunk: i as usize } by {
            assert(plan[c.len() + i] == sy[i]);
        }
        assert forall|k: int| 0 <= k < plan.len() && (#[trigger] plan[k]) is Synthesize implies k
            == synth_position(n, mode, dest, plan[k]->chunk as int) by {
            assert(k >= c.len());
            if k < c.len() + n {
                assert(plan[k] == sy[k - c.len()]);
            } else if k > c.len() + n {
                if dest == Destination::Play {
                    if k <= c.len() + 2 * n {
                        assert(plan[k] == delete_parts(n)[k - c.len() - n - 1]);
                    }
                } else {
                    assert(plan[k] == delete_parts(n)[k - c.len() - n - 1]);
                }
            }
        }
    }
}

/// Every temporary file that a run creates is deleted by a later step of
/// the same run; the caller's output file is never deleted.
pub proof fn lemma_temps_deleted(n: nat, mode: PlaybackMode, dest: Destination)
    requires
        n <= usize::MAX,
    ensures
        forall|k: int|
            0 <= k < run_plan(n, mode, dest).len() && ((#[trigger] created_temp(
                run_plan(n, mode, dest)[k],
            )) is Some) ==> (exists|j: int|
                k < j < run_plan(n, mode, dest).len() && run_plan(n, mode, dest)[j] == Step::Delete(
                    created_temp(run_plan(n, mode, dest)[k])->0,
                )),
        !run_plan(n, mode, dest).contains(Step::Delete(Artifact::Output)),
{
    let plan = run_plan(n, mode, dest);
    let c = check_steps(mode, dest, n);
    if dest == Destination::Play && mode == PlaybackMode::Sequential {
        lemma_sequential_steps(n);
        let sq = sequential_steps(n);
        assert forall|k: int| 0 <= k < plan.len() && (#[trigger] created_temp(plan[k])) is Some implies exists|
            j: int,
        | k < j < plan.len() && plan[j] == Step::Delete(created_temp(plan[k])->0) by {
            let q = k - c.len();
            assert(plan[k] == sq[q]);
            let i = q / 3;
            assert(q == 3 * i || q == 3 * i + 1 || q == 3 * i + 2);
            assert(0 <= i < n);
            assert(sq[3 * i] == Step::Synthesize { chunk: i as usize });
            assert(q == 3 * i);
            assert(plan[k + 2] == sq[q + 2]);
        }
        if plan.contains(Step::Delete(Artifact::Output)) {
            let k = choose|k: int| 0 <= k < plan.len() && plan[k] == Step::Delete(Artifact::Output);
            let q = k - c.len();
            assert(plan[k] == sq[q]);
            let i = q / 3;
            assert(q == 3 * i || q == 3 * i + 1 || q == 3 * i + 2);
            assert(0 <= i < n);
            assert(sq[3 * i] == Step::Synthesize { chunk: i as usize });
            assert(false);
        }
    } else {
        let sy = synth_steps(n);
        let dl = delete_parts(n);
        let base = c.len();
        assert forall|k: int| 0 <= k < plan.len() && (#[trigger] created_temp(plan[k])) is Some implies exists|
            j: int,
        | k < j < plan.len() && plan[j] == Step::Delete(created_temp(plan[k])->0) by {
            if k < base + n {
                assert(plan[k] == sy[k - base]);
                assert(plan[k + n + 1] == dl[k - base]);
            } else if k == base + n {
                assert(dest == Destination::Play);
                assert(plan[(base + 2 * n + 2) as int] == Step::Delete(Artifact::Merged));
            } else {
                if k <= base + 2 * n {
                    assert(plan[k] == dl[k - base - n - 1]);
                }
            }
        }
        if plan.contains(Step::Delete(Artifact::Output)) {
            let k = choose|k: int| 0 <= k < plan.len() && plan[k] == Step::Delete(Artifact::Output);
            if k > base + n && k <= base + 2 * n {
                assert(plan[k] == dl[k - base - n - 1]);
            } else if k < base + n && k >= base {
                assert(plan[k] == sy[k - base]);
            } else if k < base {
                assert(plan[k] == Step::CheckMergeTool);
            } else if k == base + n {
                assert(plan[k] is Merge);
            } else if k == base + 2 * n + 1 {
                assert(plan[k] == Step::Play(Artifact::Merged));
            } else {
                assert(plan[k] == Step::Delete(Artifact::Merged));
            }
            assert(false);
        }
    }
}

/// The merge tool is checked first, before anything is synthesized, where
/// the run needs it, and not at all where it does not.
pub proof fn lemma_merge_check_first(n: nat, mode: PlaybackMode, dest: Destination)
    requires
        n <= usize::MAX,
    ensures
        merge_tool_needed(mode, dest, n) ==> run_plan(n, mode, dest)[0] == Step::CheckMergeTool,
        !merge_tool_needed(mode, dest, n) ==> !run_plan(n, mode, dest).contains(
            Step::CheckMergeTool,
        ),
{
    let plan = run_plan(n, mode, dest);
    if !merge_tool_needed(mode, dest, n) && plan.contains(Step::CheckMergeTool) {
        let k = choose|k: int| 0 <= k < plan.len() && plan[k] == Step::CheckMergeTool;
        if dest == Destination::Play && mode == PlaybackMode::Sequential {
            lemma_sequential_steps(n);
            assert(plan[k] == sequential_steps(n)[k]);
            let i = k / 3;
            assert(k == 3 * i || k == 3 * i + 1 || k == 3 * i + 2);
            assert(0 <= i < n);
            assert(sequential_steps(n)[3 * i] == Step::Synthesize { chunk: i as usize });
        } else if k == n {
            assert(plan[k] == Step::Merge { into: Artifact::Output });
        } else if k < n {
            assert(plan[k] == synth_steps(n)[k]);
        } else if k > n && k <= 2 * n {
            assert(plan[k] == delete_parts(n)[k - n - 1]);
        }
    }
}

} // verus!
