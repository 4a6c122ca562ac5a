//! The order in which a run does its work.

use vstd::prelude::*;

verus! {

/// A step of a run over one video or two.
#[derive(Debug, Clone, Copy, PartialEq, Eq, Structural)]
pub enum Step {
    /// Look at the videos.
    CheckInputs,
    /// Render one frame with blur regions applied.
    RenderPreview,
    /// See that the output can go where it should.
    PrepareOutput,
    ChooseEncoder,
    /// Compare the sound of the two videos.
    FindCutPoint,
    /// Settle the times of the output.
    PlanTimes,
    /// Print the command.
    ShowCommand,
    /// Run the command.
    Encode,
    /// Say how it went.
    Report,
    Done,
}

/// What a run is asked to do.
#[derive(Debug, Clone, Copy, PartialEq, Eq, Structural)]
pub struct Task {
    /// Two videos to combine, not one to encode again.
    pub combine: bool,
    /// Render a preview and no more.
    pub preview: bool,
    /// Print the command and no more.
    pub dry_run: bool,
}

/// The step behind `step`, where that went well.
pub open spec fn step_after(step: Step, task: Task) -> Step {
    match step {
        Step::CheckInputs => if task.preview {
            Step::RenderPreview
        } else {
            Step::PrepareOutput
        },
        Step::PrepareOutput => Step::ChooseEncoder,
        Step::ChooseEncoder => if task.combine {
            Step::FindCutPoint
        } else {
            Step::PlanTimes
        },
        Step::FindCutPoint => Step::PlanTimes,
        Step::PlanTimes => if task.dry_run {
            Step::ShowCommand
        } else {
            Step::Encode
        },
        Step::Encode => Step::Report,
        Step::RenderPreview => Step::Done,
        Step::ShowCommand => Step::Done,
        Step::Report => Step::Done,
        Step::Done => Step::Done,
    }
}

/// The step behind `step`, where that went well.
pub fn next_step(step: Step, task: Task) -> (r: Step)
    ensures
        r == step_after(step, task),
{
    match step {
        Step::CheckInputs => if task.preview {
            Step::RenderPreview
        } else {
            Step::PrepareOutput
        },
        Step::PrepareOutput => Step::ChooseEncoder,
        Step::ChooseEncoder => if task.combine {
            Step::FindCutPoint
        } else {
            Step::PlanTimes
        },
        Step::FindCutPoint => Step::PlanTimes,
        Step::PlanTimes => if task.dry_run {
            Step::ShowCommand
        } else {
            Step::Encode
        },
        Step::Encode => Step::Report,
        Step::RenderPreview => Step::Done,
        Step::ShowCommand => Step::Done,
        Step::Report => Step::Done,
        Step::Done => Step::Done,
    }
}

/// The step that a run is at after `n` steps that went well.
pub open spec fn nth_step(n: nat, task: Task) -> Step
    decreases n,
{
    if n == 0 {
        Step::CheckInputs
    } else {
        step_after(nth_step((n - 1) as nat, task), task)
    }
}

// ── Batches ──────────────────────────────────────────────────────────────

/// What a batch of files does next.
#[derive(Debug, Clone, Copy, PartialEq, Eq, Structural)]
pub enum BatchStep {
    /// Process the file at a place in the list.
    Process(usize),
    /// Say how many files went well and how many did not.
    Finish { succeeded: usize, failed: usize },
}

/// How many of the files that were processed went well, or did not.
pub open spec fn count(outcomes: Seq<bool>, well: bool) -> nat
    decreases outcomes.len(),
{
    if outcomes.len() == 0 {
        0
    } else {
        count(outcomes.drop_last(), well) + if outcomes.last() == well {
            1nat
        } else {
            0nat
        }
    }
}

/// What a batch of `files` files does next, given how the first ones went.
pub open spec fn batch_after(files: nat, outcomes: Seq<bool>) -> BatchStep {
    if outcomes.len() < files {
        BatchStep::Process(outcomes.len() as usize)
    } else {
        BatchStep::Finish {
            succeeded: count(outcomes, true) as usize,
            failed: count(outcomes, false) as usize,
        }
    }
}

proof fn lemma_counts(outcomes: Seq<bool>)
    ensures
        count(outcomes, true) + count(outcomes, false) == outcomes.len(),
    decreases outcomes.len(),
{
    if outcomes.len() > 0 {
        lemma_counts(outcomes.drop_last());
    }
}

/// What a batch of files does next, given how the first ones went: a file that
/// failed does not stop it.
pub fn batch_step(files: usize, outcomes: &Vec<bool>) -> (r: BatchStep)
    ensures
        r == batch_after(files as nat, outcomes@),
{
    if outcomes.len() < files {
        return BatchStep::Process(outcomes.len());
    }
    let mut succeeded: usize = 0;
    let mut i: usize = 0;
    while i < outcomes.len()
        invariant
            succeeded <= i <= outcomes.len(),
            succeeded == count(outcomes@.take(i as int), true),
        decreases outcomes.len() - i,
    {
        assert(outcomes@.take(i + 1).drop_last() =~= outcomes@.take(i as int));
        if outcomes[i] {
            succeeded += 1;
        }
        i += 1;
    }
    proof {
        assert(outcomes@.take(i as int) =~= outcomes@);
        lemma_counts(outcomes@);
    }
    BatchStep::Finish { succeeded, failed: outcomes.len() - succeeded }
}

/// What a watch over a directory does next.
#[derive(Debug, Clone, Copy, PartialEq, Eq, Structural)]
pub enum WatchStep {
    /// Wait, for there is nothing to do, and look again.
    Wait,
    /// Process the descriptor at a place in the list, however those before it
    /// went.
    Process(usize),
    /// Look again, for all that was found has been processed.
    Look,
}

/// What a watch does next, where `found` descriptors were there at the last
/// look and `processed` of them are behind it.
pub open spec fn watch_after(found: usize, processed: usize) -> WatchStep {
    if found == 0 {
        WatchStep::Wait
    } else if processed < found {
        WatchStep::Process(processed)
    } else {
        WatchStep::Look
    }
}

/// What a watch does next, where `found` descriptors were there at the last
/// look and `processed` of them are behind it.
pub fn watch_step(found: usize, processed: usize) -> (r: WatchStep)
    ensures
        r == watch_after(found, processed),
{
    if found == 0 {
        WatchStep::Wait
    } else if processed < found {
        WatchStep::Process(processed)
    } else {
        WatchStep::Look
    }
}

// ── Laws ─────────────────────────────────────────────────────────────────

/// A batch processes each of its files, in order and once, whatever becomes of
/// them, and at its end has counted each as one that went well or one that
/// did not.
pub proof fn law_batch_processes_every_file(files: usize, outcomes: Seq<bool>)
    requires
        outcomes.len() == files,
    ensures
        forall|i: int|
            0 <= i < files ==> #[trigger] batch_after(files as nat, outcomes.take(i))
                == BatchStep::Process(i as usize),
        batch_after(files as nat, outcomes) matches BatchStep::Finish { succeeded, failed }
            && succeeded + failed == files,
{
    lemma_counts(outcomes);
}

/// A watch that found descriptors processes each of them, in order and once,
/// and then looks again. It waits only where it found none.
pub proof fn law_watch_processes_every_descriptor(found: usize)
    ensures
        forall|i: usize|
            i < found ==> #[trigger] watch_after(found, i) == WatchStep::Process(i),
        found > 0 ==> watch_after(found, found) == WatchStep::Look,
        forall|i: usize|
            0 < found <= i ==> #[trigger] watch_after(found, i) == WatchStep::Look,
        forall|i: usize| #[trigger] watch_after(0, i) == WatchStep::Wait,
        forall|i: usize| #[trigger] watch_after(found, i) == WatchStep::Wait ==> found == 0,
{
}

/// Whether a step only looks, or writes no more than a picture.
pub open spec fn leaves_no_video(step: Step) -> bool {
    step != Step::Encode && step != Step::Report
}

/// A dry run encodes nothing.
pub proof fn law_dry_run_encodes_nothing(n: nat, task: Task)
    requires
        task.dry_run,
    ensures
        leaves_no_video(nth_step(n, task)),
    decreases n,
{
    if n > 0 {
        law_dry_run_encodes_nothing((n - 1) as nat, task);
    }
}

/// A preview is rendered and nothing else is done: not even the output is
/// looked at.
pub proof fn law_preview_does_nothing_else(n: nat, task: Task)
    requires
        task.preview,
    ensures
        nth_step(n, task) == if n == 0 {
            Step::CheckInputs
        } else if n == 1 {
            Step::RenderPreview
        } else {
            Step::Done
        },
    decreases n,
{
    if n > 0 {
        law_preview_does_nothing_else((n - 1) as nat, task);
    }
}

/// A run ends, within eight steps.
pub proof fn law_run_ends(n: nat, task: Task)
    requires
        n >= 8,
    ensures
        nth_step(n, task) == Step::Done,
    decreases n,
{
    if n > 8 {
        law_run_ends((n - 1) as nat, task);
    } else {
        reveal_with_fuel(nth_step, 9);
    }
}

/// Nothing is encoded before the output has been looked at, an encoder chosen
/// and, for two videos, the cut point found.
pub proof fn law_nothing_is_encoded_early(n: nat, task: Task)
    requires
        nth_step(n, task) == Step::Encode,
    ensures
        exists|k: nat| k < n && #[trigger] nth_step(k, task) == Step::PrepareOutput,
        exists|k: nat| k < n && #[trigger] nth_step(k, task) == Step::ChooseEncoder,
        task.combine ==> exists|k: nat|
            k < n && #[trigger] nth_step(k, task) == Step::FindCutPoint,
{
    let plan = (n - 1) as nat;
    assert(nth_step(plan, task) == Step::PlanTimes);
    let before = (plan - 1) as nat;
    let choose_at = if task.combine {
        assert(nth_step(before, task) == Step::FindCutPoint) by {
            lemma_plan_comes_from(before, task);
        }
        (before - 1) as nat
    } else {
        lemma_plan_comes_from(before, task);
        before
    };
    assert(nth_step(choose_at, task) == Step::ChooseEncoder);
    assert(nth_step((choose_at - 1) as nat, task) == Step::PrepareOutput);
}

proof fn lemma_plan_comes_from(n: nat, task: Task)
    requires
        step_after(nth_step(n, task), task) == Step::PlanTimes,
    ensures
        nth_step(n, task) == if task.combine {
            Step::FindCutPoint
        } else {
            Step::ChooseEncoder
        },
    decreases n,
{
    if nth_step(n, task) == Step::FindCutPoint && !task.combine {
        assert(nth_step((n - 1) as nat, task) == Step::ChooseEncoder);
    }
}

/// The steps of a run that shows no preview, in order: for two videos the cut
/// point is found before the times are settled, and a dry run shows the command
/// in place of running it.
pub proof fn law_steps_in_order(task: Task)
    requires
        !task.preview,
    ensures
        nth_step(0, task) == Step::CheckInputs,
        nth_step(1, task) == Step::PrepareOutput,
        nth_step(2, task) == Step::ChooseEncoder,
        ({
            let k = if task.combine {
                1nat
            } else {
                0
            };
            &&& task.combine ==> nth_step(3, task) == Step::FindCutPoint
            &&& nth_step(3 + k, task) == Step::PlanTimes
            &&& task.dry_run ==> nth_step(4 + k, task) == Step::ShowCommand && nth_step(5 + k, task)
                == Step::Done
            &&& !task.dry_run ==> nth_step(4 + k, task) == Step::Encode && nth_step(5 + k, task)
                == Step::Report && nth_step(6 + k, task) == Step::Done
        }),
{
    reveal_with_fuel(nth_step, 8);
}

/// Whatever a run is asked to do, it is over once a preview is rendered, the
/// command shown, or the outcome reported.
pub proof fn law_last_steps(task: Task)
    ensures
        step_after(Step::RenderPreview, task) == Step::Done,
        step_after(Step::ShowCommand, task) == Step::Done,
        step_after(Step::Report, task) == Step::Done,
        step_after(Step::Done, task) == Step::Done,
        step_after(Step::FindCutPoint, task) == Step::PlanTimes,
        step_after(Step::Encode, task) == Step::Report,
{
}

/// A batch counts each file once, where it went well and where it did not.
pub proof fn law_files_are_counted(a: Seq<bool>, outcome: bool, well: bool)
    ensures
        count(Seq::empty(), well) == 0,
        count(a.push(outcome), well) == count(a, well) + if outcome == well {
            1int
        } else {
            0
        },
{
    assert(a.push(outcome).drop_last() =~= a);
}

/// What a batch tells at its end is how many files went well and how many did
/// not.
pub proof fn law_batch_tells_both_counts(files: usize, outcomes: Seq<bool>)
    requires
        outcomes.len() == files,
    ensures
        batch_after(files as nat, outcomes) matches BatchStep::Finish { succeeded, failed }
            && succeeded == count(outcomes, true) && failed == count(outcomes, false),
{
    lemma_counts(outcomes);
}

} // verus!
