//! The order of a restore from a snapshot. Nothing live is destroyed until the
//! restore is committed to succeed: the source is validated, every object is
//! staged (and re-hashed) beside the live data, the current state is snapshotted
//! for safety, and the database's write lock is probed; only then are the staged
//! trees renamed into place and the database swapped in. The driver performs each
//! stage and reports whether it succeeded; [`restore_step`] decides what follows.

use vstd::prelude::*;

verus! {

/// A stage of a restore, in the order they run.
#[derive(Debug, Clone, Copy, PartialEq, Eq, Structural)]
pub enum RestoreStage {
    /// Parse and self-validate the source snapshot.
    Validate,
    /// Materialize every object into the staging area, re-hashing each.
    Stage,
    /// Snapshot the current state, so the restore itself can be undone.
    SafetySnapshot,
    /// Refuse when another process holds the live database's write lock.
    CheckUnlocked,
    /// Rename the staged trees into place, then swap the database in.
    Commit,
    /// Nothing is left to run.
    Finished,
}

/// What the driver does next.
#[derive(Debug, Clone, Copy, PartialEq, Eq, Structural)]
pub enum RestoreAction {
    /// Perform this stage and report whether it succeeded.
    Run(RestoreStage),
    /// Remove the staging area, then report the failure.
    CleanUpAndFail,
    /// Report the failure; there is no staging area to remove.
    Fail,
    /// Remove the staging area, then report the restore.
    CleanUpAndSucceed,
}

/// The restore's step function: after `stage` ran and reported `ok`, the next
/// stage and the driver's next action. A validation failure has staged nothing;
/// a failure while staging, snapshotting or probing the lock removes the
/// staging area; a failure while committing is reported as it is.
pub open spec fn restore_step_spec(stage: RestoreStage, ok: bool) -> (RestoreStage, RestoreAction) {
    match stage {
        RestoreStage::Validate => if ok {
            (RestoreStage::Stage, RestoreAction::Run(RestoreStage::Stage))
        } else {
            (RestoreStage::Finished, RestoreAction::Fail)
        },
        RestoreStage::Stage => if ok {
            (RestoreStage::SafetySnapshot, RestoreAction::Run(RestoreStage::SafetySnapshot))
        } else {
            (RestoreStage::Finished, RestoreAction::CleanUpAndFail)
        },
        RestoreStage::SafetySnapshot => if ok {
            (RestoreStage::CheckUnlocked, RestoreAction::Run(RestoreStage::CheckUnlocked))
        } else {
            (RestoreStage::Finished, RestoreAction::CleanUpAndFail)
        },
        RestoreStage::CheckUnlocked => if ok {
            (RestoreStage::Commit, RestoreAction::Run(RestoreStage::Commit))
        } else {
            (RestoreStage::Finished, RestoreAction::CleanUpAndFail)
        },
        RestoreStage::Commit => if ok {
            (RestoreStage::Finished, RestoreAction::CleanUpAndSucceed)
        } else {
            (RestoreStage::Finished, RestoreAction::Fail)
        },
        RestoreStage::Finished => (RestoreStage::Finished, RestoreAction::Fail),
    }
}

/// Decide what follows a stage of a restore.
pub fn restore_step(stage: RestoreStage, ok: bool) -> (r: (RestoreStage, RestoreAction))
    requires
        stage != RestoreStage::Finished,
    ensures
        r == restore_step_spec(stage, ok),
{
    match stage {
        RestoreStage::Validate => if ok {
            (RestoreStage::Stage, RestoreAction::Run(RestoreStage::Stage))
        } else {
            (RestoreStage::Finished, RestoreAction::Fail)
        },
        RestoreStage::Stage => if ok {
            (RestoreStage::SafetySnapshot, RestoreAction::Run(RestoreStage::SafetySnapshot))
        } else {
            (RestoreStage::Finished, RestoreAction::CleanUpAndFail)
        },
        RestoreStage::SafetySnapshot => if ok {
            (RestoreStage::CheckUnlocked, RestoreAction::Run(RestoreStage::CheckUnlocked))
        } else {
            (RestoreStage::Finished, RestoreAction::CleanUpAndFail)
        },
        RestoreStage::CheckUnlocked => if ok {
            (RestoreStage::Commit, RestoreAction::Run(RestoreStage::Commit))
        } else {
            (RestoreStage::Finished, RestoreAction::CleanUpAndFail)
        },
        RestoreStage::Commit => if ok {
            (RestoreStage::Finished, RestoreAction::CleanUpAndSucceed)
        } else {
            (RestoreStage::Finished, RestoreAction::Fail)
        },
        RestoreStage::Finished => (RestoreStage::Finished, RestoreAction::Fail),
    }
}

/// The actions a restore emits from `stage` on when its stages report `oks`,
/// in order, until it finishes.
pub open spec fn restore_trace(stage: RestoreStage, oks: Seq<bool>) -> Seq<RestoreAction>
    decreases oks.len(),
{
    if oks.len() == 0 || stage == RestoreStage::Finished {
        Seq::empty()
    } else {
        let (next, action) = restore_step_spec(stage, oks[0]);
        seq![action] + restore_trace(next, oks.drop_first())
    }
}

proof fn lemma_trace_unfold(stage: RestoreStage, oks: Seq<bool>)
    requires
        oks.len() > 0,
        stage != RestoreStage::Finished,
    ensures
        restore_trace(stage, oks) == seq![restore_step_spec(stage, oks[0]).1] + restore_trace(
            restore_step_spec(stage, oks[0]).0,
            oks.drop_first(),
        ),
{
}

proof fn lemma_finished_trace_empty(oks: Seq<bool>)
    ensures
        restore_trace(RestoreStage::Finished, oks).len() == 0,
{
}

/// A restore touches live data only after it was safe to: in the actions of a
/// restore started at validation, the commit is run only as the fifth action,
/// after validation, staging, the safety snapshot and the lock probe all
/// succeeded; and the restore succeeds only when the commit did too.
pub proof fn lemma_commit_only_after_checks(oks: Seq<bool>)
    ensures
        forall|i: int|
            0 <= i < restore_trace(RestoreStage::Validate, oks).len() && #[trigger] restore_trace(
                RestoreStage::Validate,
                oks,
            )[i] == RestoreAction::Run(RestoreStage::Commit) ==> i == 3 && oks[0] && oks[1] && oks[2]
                && oks[3],
        forall|i: int|
            0 <= i < restore_trace(RestoreStage::Validate, oks).len() && #[trigger] restore_trace(
                RestoreStage::Validate,
                oks,
            )[i] == RestoreAction::CleanUpAndSucceed ==> i == 4 && oks[0] && oks[1] && oks[2]
                && oks[3] && oks[4],
{
    let t = restore_trace(RestoreStage::Validate, oks);
    if oks.len() == 0 {
        return;
    }
    let o1 = oks.drop_first();
    lemma_trace_unfold(RestoreStage::Validate, oks);
    if !oks[0] {
        lemma_finished_trace_empty(o1);
        return;
    }
    let t1 = restore_trace(RestoreStage::Stage, o1);
    assert(t == seq![RestoreAction::Run(RestoreStage::Stage)] + t1);
    if o1.len() == 0 {
        return;
    }
    let o2 = o1.drop_first();
    lemma_trace_unfold(RestoreStage::Stage, o1);
    if !o1[0] {
        lemma_finished_trace_empty(o2);
        return;
    }
    let t2 = restore_trace(RestoreStage::SafetySnapshot, o2);
    assert(t1 == seq![RestoreAction::Run(RestoreStage::SafetySnapshot)] + t2);
    if o2.len() == 0 {
        return;
    }
    let o3 = o2.drop_first();
    lemma_trace_unfold(RestoreStage::SafetySnapshot, o2);
    if !o2[0] {
        lemma_finished_trace_empty(o3);
        return;
    }
    let t3 = restore_trace(RestoreStage::CheckUnlocked, o3);
    assert(t2 == seq![RestoreAction::Run(RestoreStage::CheckUnlocked)] + t3);
    if o3.len() == 0 {
        return;
    }
    let o4 = o3.drop_first();
    lemma_trace_unfold(RestoreStage::CheckUnlocked, o3);
    if !o3[0] {
        lemma_finished_trace_empty(o4);
        return;
    }
    let t4 = restore_trace(RestoreStage::Commit, o4);
    assert(t3 == seq![RestoreAction::Run(RestoreStage::Commit)] + t4);
    if o4.len() == 0 {
        return;
    }
    let o5 = o4.drop_first();
    lemma_trace_unfold(RestoreStage::Commit, o4);
    lemma_finished_trace_empty(o5);
    assert(t4 =~= seq![restore_step_spec(RestoreStage::Commit, o4[0]).1]);
}

} // verus!
