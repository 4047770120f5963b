//! The decisions of a mirror update, between the steps that scan the source,
//! change the lockbox and commit it: what comes next after each step, when
//! the update is refused, and what is reported at the end.

use vstd::prelude::*;
use crate::text;
use crate::mirror::{MirrorPlan, is_large_delete};
use crate::records::PlanOperation;
use crate::messages::{CliMessage, cli_error, is_plain_error};

verus! {

/// Where a mirror update stands.
#[derive(Clone, Copy, Debug, PartialEq, Eq, Structural)]
pub enum MirrorPhase {
    /// Waiting for the identity of the host directory.
    CheckIdentity,
    /// Waiting for the source scan and the plan.
    Planning,
    /// Waiting for the user's answer to the confirmation.
    Confirming,
    /// Applying the changes of one kind of operation.
    Applying(PlanOperation),
    /// Waiting for the plan made again after the changes.
    Replanning,
    /// Waiting for the check that the source did not change.
    VerifyingSource,
    /// Waiting for the commit.
    Committing,
    /// Waiting for the plan of the committed lockbox.
    VerifyingCommit,
    /// The update has ended.
    Done,
}

/// The options of an update and what it has learnt so far.
#[derive(Clone, Copy, Debug)]
pub struct MirrorRunState {
    pub phase: MirrorPhase,
    /// Changes are applied (`update`), not only reported (`status`).
    pub apply: bool,
    pub allow_empty: bool,
    pub allow_large_delete: bool,
    /// No confirmation is asked.
    pub force: bool,
    /// The output format is JSON, where no summary line is printed.
    pub json: bool,
    /// The plan made from the source scan.
    pub plan: MirrorPlan,
}

/// What a step of the update reports back.
#[derive(Clone, Copy, Debug)]
pub enum MirrorEvent {
    /// The identity of the host directory matched the recorded one, or not.
    Identity { matches: bool },
    /// The source was scanned and the plan made (and printed).
    Planned { plan: MirrorPlan, source_files_empty: bool, destination_files: usize },
    /// The user's answer to the confirmation.
    Confirmed(bool),
    /// The changes of the current kind were applied.
    StageApplied,
    /// The plan made again after the changes, before the commit.
    Replanned(MirrorPlan),
    /// The source still matches its scan.
    SourceVerified,
    /// The lockbox was committed.
    Committed,
    /// The plan made against the committed lockbox.
    CommitVerified(MirrorPlan),
}

/// Why an update is refused.
#[derive(Clone, Copy, Debug, PartialEq, Eq, Structural)]
pub enum MirrorFailure {
    IdentityChanged,
    NoSourceFiles,
    LargeDelete { removed_files: usize, managed_files: usize },
    NotApplied,
    CommitMismatch,
    /// An event that does not belong to the phase the update is in.
    OutOfOrder,
}

/// How an update ended without failing.
#[derive(Clone, Copy, Debug, PartialEq, Eq, Structural)]
pub enum MirrorOutcome {
    /// `status`: the plan and its warnings were reported.
    StatusReported,
    UpToDate,
    Cancelled,
    Updated,
}

/// What the caller does next.
#[derive(Clone, Copy, Debug, PartialEq, Eq, Structural)]
pub enum MirrorAction {
    /// Open the lockbox, scan the source, make and print the plan.
    ScanAndPlan,
    /// Ask whether to apply the update.
    Confirm,
    /// Apply the planned changes of one kind.
    Apply(PlanOperation),
    /// Make the plan again against the changed lockbox.
    Replan,
    /// Check the source against its scan.
    VerifySource,
    /// Commit the lockbox.
    Commit,
    /// Open the committed lockbox and make the plan against it.
    VerifyCommit,
    /// Stop with a failure.
    Fail(MirrorFailure),
    /// Stop.
    Finish(MirrorOutcome),
}

/// A plan with nothing to change.
pub open spec fn plan_is_empty(p: MirrorPlan) -> bool {
    p.additions == 0 && p.replacements == 0 && p.removals == 0 && p.directories == 0
}

/// The kinds of changes in the order they are applied: removals, new
/// directories, additions, replacements.
pub open spec fn next_apply_stage(op: PlanOperation) -> Option<PlanOperation> {
    match op {
        PlanOperation::Remove => Some(PlanOperation::MakeDirectory),
        PlanOperation::MakeDirectory => Some(PlanOperation::Add),
        PlanOperation::Add => Some(PlanOperation::Replace),
        PlanOperation::Replace => None,
    }
}

/// The state at the start of an update.
pub open spec fn mirror_start(apply: bool, allow_empty: bool, allow_large_delete: bool, force: bool, json: bool)
    -> MirrorRunState {
    MirrorRunState {
        phase: MirrorPhase::CheckIdentity,
        apply,
        allow_empty,
        allow_large_delete,
        force,
        json,
        plan: MirrorPlan { additions: 0, replacements: 0, removals: 0, unchanged: 0, directories: 0, removed_files: 0 },
    }
}

pub open spec fn with_phase(s: MirrorRunState, phase: MirrorPhase) -> MirrorRunState {
    MirrorRunState { phase, ..s }
}

pub open spec fn finished(s: MirrorRunState, a: MirrorAction) -> (MirrorRunState, MirrorAction) {
    (with_phase(s, MirrorPhase::Done), a)
}

/// One decision of a mirror update: the state after an event, and what to do.
pub open spec fn mirror_step(s: MirrorRunState, e: MirrorEvent) -> (MirrorRunState, MirrorAction) {
    match (s.phase, e) {
        (MirrorPhase::CheckIdentity, MirrorEvent::Identity { matches }) => if matches {
            (with_phase(s, MirrorPhase::Planning), MirrorAction::ScanAndPlan)
        } else {
            finished(s, MirrorAction::Fail(MirrorFailure::IdentityChanged))
        },
        (MirrorPhase::Planning, MirrorEvent::Planned { plan, source_files_empty, destination_files }) => {
            let t = MirrorRunState { plan, ..s };
            if !s.apply {
                finished(t, MirrorAction::Finish(MirrorOutcome::StatusReported))
            } else if source_files_empty && plan.removals > 0 && !s.allow_empty {
                finished(t, MirrorAction::Fail(MirrorFailure::NoSourceFiles))
            } else if !s.allow_large_delete && is_large_delete(plan.removed_files, destination_files) {
                finished(t, MirrorAction::Fail(MirrorFailure::LargeDelete {
                    removed_files: plan.removed_files, managed_files: destination_files }))
            } else if plan_is_empty(plan) {
                finished(t, MirrorAction::Finish(MirrorOutcome::UpToDate))
            } else if s.force {
                (with_phase(t, MirrorPhase::Applying(PlanOperation::Remove)), MirrorAction::Apply(PlanOperation::Remove))
            } else {
                (with_phase(t, MirrorPhase::Confirming), MirrorAction::Confirm)
            }
        },
        (MirrorPhase::Confirming, MirrorEvent::Confirmed(yes)) => if yes {
            (with_phase(s, MirrorPhase::Applying(PlanOperation::Remove)), MirrorAction::Apply(PlanOperation::Remove))
        } else {
            finished(s, MirrorAction::Finish(MirrorOutcome::Cancelled))
        },
        (MirrorPhase::Applying(op), MirrorEvent::StageApplied) => match next_apply_stage(op) {
            Some(next) => (with_phase(s, MirrorPhase::Applying(next)), MirrorAction::Apply(next)),
            None => (with_phase(s, MirrorPhase::Replanning), MirrorAction::Replan),
        },
        (MirrorPhase::Replanning, MirrorEvent::Replanned(p)) => if plan_is_empty(p) {
            (with_phase(s, MirrorPhase::VerifyingSource), MirrorAction::VerifySource)
        } else {
            finished(s, MirrorAction::Fail(MirrorFailure::NotApplied))
        },
        (MirrorPhase::VerifyingSource, MirrorEvent::SourceVerified) =>
            (with_phase(s, MirrorPhase::Committing), MirrorAction::Commit),
        (MirrorPhase::Committing, MirrorEvent::Committed) =>
            (with_phase(s, MirrorPhase::VerifyingCommit), MirrorAction::VerifyCommit),
        (MirrorPhase::VerifyingCommit, MirrorEvent::CommitVerified(p)) => if plan_is_empty(p) {
            finished(s, MirrorAction::Finish(MirrorOutcome::Updated))
        } else {
            finished(s, MirrorAction::Fail(MirrorFailure::CommitMismatch))
        },
        _ => finished(s, MirrorAction::Fail(MirrorFailure::OutOfOrder)),
    }
}

/// The state at the start of an update.
pub fn mirror_begin(apply: bool, allow_empty: bool, allow_large_delete: bool, force: bool, json: bool) -> (r: MirrorRunState)
    ensures r == mirror_start(apply, allow_empty, allow_large_delete, force, json),
{
    MirrorRunState {
        phase: MirrorPhase::CheckIdentity,
        apply,
        allow_empty,
        allow_large_delete,
        force,
        json,
        plan: MirrorPlan { additions: 0, replacements: 0, removals: 0, unchanged: 0, directories: 0, removed_files: 0 },
    }
}

fn plan_empty(p: &MirrorPlan) -> (r: bool)
    ensures r == plan_is_empty(*p),
{
    p.additions == 0 && p.replacements == 0 && p.removals == 0 && p.directories == 0
}

/// The next decision of a mirror update.
pub fn mirror_next(state: &MirrorRunState, event: MirrorEvent) -> (r: (MirrorRunState, MirrorAction))
    ensures r == mirror_step(*state, event),
{
    let s = *state;
    let done = MirrorRunState { phase: MirrorPhase::Done, ..s };
    match (s.phase, event) {
        (MirrorPhase::CheckIdentity, MirrorEvent::Identity { matches }) => if matches {
            (MirrorRunState { phase: MirrorPhase::Planning, ..s }, MirrorAction::ScanAndPlan)
        } else {
            (done, MirrorAction::Fail(MirrorFailure::IdentityChanged))
        },
        (MirrorPhase::Planning, MirrorEvent::Planned { plan, source_files_empty, destination_files }) => {
            let t = MirrorRunState { plan, ..s };
            let t_done = MirrorRunState { phase: MirrorPhase::Done, ..t };
            let large = destination_files > 0
                && (plan.removed_files as u128) * 100 > (destination_files as u128) * 50;
            if !s.apply {
                (t_done, MirrorAction::Finish(MirrorOutcome::StatusReported))
            } else if source_files_empty && plan.removals > 0 && !s.allow_empty {
                (t_done, MirrorAction::Fail(MirrorFailure::NoSourceFiles))
            } else if !s.allow_large_delete && large {
                (t_done, MirrorAction::Fail(MirrorFailure::LargeDelete {
                    removed_files: plan.removed_files, managed_files: destination_files }))
            } else if plan_empty(&plan) {
                (t_done, MirrorAction::Finish(MirrorOutcome::UpToDate))
            } else if s.force {
                (MirrorRunState { phase: MirrorPhase::Applying(PlanOperation::Remove), ..t },
                    MirrorAction::Apply(PlanOperation::Remove))
            } else {
                (MirrorRunState { phase: MirrorPhase::Confirming, ..t }, MirrorAction::Confirm)
            }
        },
        (MirrorPhase::Confirming, MirrorEvent::Confirmed(yes)) => if yes {
            (MirrorRunState { phase: MirrorPhase::Applying(PlanOperation::Remove), ..s },
                MirrorAction::Apply(PlanOperation::Remove))
        } else {
            (done, MirrorAction::Finish(MirrorOutcome::Cancelled))
        },
        (MirrorPhase::Applying(op), MirrorEvent::StageApplied) => {
            let next = match op {
                PlanOperation::Remove => Some(PlanOperation::MakeDirectory),
                PlanOperation::MakeDirectory => Some(PlanOperation::Add),
                PlanOperation::Add => Some(PlanOperation::Replace),
                PlanOperation::Replace => None,
            };
            match next {
                Some(n) => (MirrorRunState { phase: MirrorPhase::Applying(n), ..s }, MirrorAction::Apply(n)),
                None => (MirrorRunState { phase: MirrorPhase::Replanning, ..s }, MirrorAction::Replan),
            }
        },
        (MirrorPhase::Replanning, MirrorEvent::Replanned(p)) => if plan_empty(&p) {
            (MirrorRunState { phase: MirrorPhase::VerifyingSource, ..s }, MirrorAction::VerifySource)
        } else {
            (done, MirrorAction::Fail(MirrorFailure::NotApplied))
        },
        (MirrorPhase::VerifyingSource, MirrorEvent::SourceVerified) =>
            (MirrorRunState { phase: MirrorPhase::Committing, ..s }, MirrorAction::Commit),
        (MirrorPhase::Committing, MirrorEvent::Committed) =>
            (MirrorRunState { phase: MirrorPhase::VerifyingCommit, ..s }, MirrorAction::VerifyCommit),
        (MirrorPhase::VerifyingCommit, MirrorEvent::CommitVerified(p)) => if plan_empty(&p) {
            (done, MirrorAction::Finish(MirrorOutcome::Updated))
        } else {
            (done, MirrorAction::Fail(MirrorFailure::CommitMismatch))
        },
        _ => (done, MirrorAction::Fail(MirrorFailure::OutOfOrder)),
    }
}

/// The message of a refused update of the mirror `name`.
pub open spec fn failure_summary(name: Seq<char>, f: MirrorFailure) -> Seq<char> {
    match f {
        MirrorFailure::IdentityChanged => "host directory identity changed for mirror '"@ + name
            + "'; use mirror "@ + name + " rebind --from <HOST_DIRECTORY>"@,
        MirrorFailure::NoSourceFiles =>
            "no source files match the project rules; pass --allow-empty after inspecting mirror status"@,
        MirrorFailure::LargeDelete { removed_files, managed_files } => "mirror update would delete "@
            + text::dec(removed_files as nat) + " of "@ + text::dec(managed_files as nat)
            + " managed files; pass --allow-large-delete"@,
        MirrorFailure::NotApplied => "mirror '"@ + name + "' could not apply the planned contents before commit"@,
        MirrorFailure::CommitMismatch => "mirror '"@ + name
            + "' update verification failed: the committed lockbox contents do not match the source"@,
        MirrorFailure::OutOfOrder => "mirror '"@ + name + "' update received a step out of order"@,
    }
}

/// The diagnostic of a refused update.
pub fn mirror_failure_message(name: &str, f: MirrorFailure) -> (r: CliMessage)
    ensures is_plain_error(r, failure_summary(name@, f)),
{
    let summary = match f {
        MirrorFailure::IdentityChanged => {
            let mut s = text::concat3("host directory identity changed for mirror '", name, "'; use mirror ");
            text::push_str(&mut s, name);
            text::push_str(&mut s, " rebind --from <HOST_DIRECTORY>");
            s
        },
        MirrorFailure::NoSourceFiles => text::owned(
            "no source files match the project rules; pass --allow-empty after inspecting mirror status"),
        MirrorFailure::LargeDelete { removed_files, managed_files } => {
            let removed = text::decimal(removed_files as u64);
            let managed = text::decimal(managed_files as u64);
            let mut s = text::concat3("mirror update would delete ", removed.as_str(), " of ");
            text::push_str(&mut s, managed.as_str());
            text::push_str(&mut s, " managed files; pass --allow-large-delete");
            s
        },
        MirrorFailure::NotApplied => text::concat3("mirror '", name, "' could not apply the planned contents before commit"),
        MirrorFailure::CommitMismatch => text::concat3("mirror '", name,
            "' update verification failed: the committed lockbox contents do not match the source"),
        MirrorFailure::OutOfOrder => text::concat3("mirror '", name, "' update received a step out of order"),
    };
    cli_error(summary.as_str())
}

/// The line printed when an update ends without failing, if any: the summary
/// of an applied update is left out of JSON output.
pub open spec fn outcome_line(name: Seq<char>, plan: MirrorPlan, json: bool, o: MirrorOutcome) -> Option<Seq<char>> {
    match o {
        MirrorOutcome::StatusReported => None,
        MirrorOutcome::UpToDate => Some("Mirror '"@ + name + "' is up to date."@),
        MirrorOutcome::Cancelled => Some("Mirror update cancelled."@),
        MirrorOutcome::Updated => if json {
            None
        } else {
            Some("Updated mirror '"@ + name + "': "@ + text::dec(plan.additions as nat) + " added, "@
                + text::dec(plan.replacements as nat) + " replaced, "@ + text::dec(plan.directories as nat)
                + " directories created, "@ + text::dec(plan.removed_files as nat) + " removed, "@
                + text::dec(plan.unchanged as nat) + " unchanged."@)
        },
    }
}

/// The line printed when an update ends without failing.
pub fn mirror_outcome_line(name: &str, plan: &MirrorPlan, json: bool, o: MirrorOutcome) -> (r: Option<String>)
    ensures
        match outcome_line(name@, *plan, json, o) {
            Some(l) => r matches Some(s) && s@ == l,
            None => r is None,
        },
{
    match o {
        MirrorOutcome::StatusReported => None,
        MirrorOutcome::UpToDate => Some(text::concat3("Mirror '", name, "' is up to date.")),
        MirrorOutcome::Cancelled => Some(text::owned("Mirror update cancelled.")),
        MirrorOutcome::Updated => {
            if json {
                return None;
            }
            let mut s = text::concat3("Updated mirror '", name, "': ");
            let ghost start = s@;
            let a = text::decimal(plan.additions as u64);
            text::push_str(&mut s, a.as_str());
            text::push_str(&mut s, " added, ");
            let b = text::decimal(plan.replacements as u64);
            text::push_str(&mut s, b.as_str());
            text::push_str(&mut s, " replaced, ");
            let c = text::decimal(plan.directories as u64);
            text::push_str(&mut s, c.as_str());
            text::push_str(&mut s, " directories created, ");
            let d = text::decimal(plan.removed_files as u64);
            text::push_str(&mut s, d.as_str());
            text::push_str(&mut s, " removed, ");
            let e = text::decimal(plan.unchanged as u64);
            text::push_str(&mut s, e.as_str());
            text::push_str(&mut s, " unchanged.");
            Some(s)
        },
    }
}

/// A run of steps always applies the kinds of changes in the order removals,
/// new directories, additions, replacements, and replans after the last.
pub proof fn lemma_apply_order(s: MirrorRunState)
    requires s.phase == MirrorPhase::Applying(PlanOperation::Remove),
    ensures ({
        let (s1, a1) = mirror_step(s, MirrorEvent::StageApplied);
        let (s2, a2) = mirror_step(s1, MirrorEvent::StageApplied);
        let (s3, a3) = mirror_step(s2, MirrorEvent::StageApplied);
        let (s4, a4) = mirror_step(s3, MirrorEvent::StageApplied);
        &&& a1 == MirrorAction::Apply(PlanOperation::MakeDirectory)
        &&& a2 == MirrorAction::Apply(PlanOperation::Add)
        &&& a3 == MirrorAction::Apply(PlanOperation::Replace)
        &&& a4 == MirrorAction::Replan
        &&& s4.plan == s.plan
    }),
{
}

/// Nothing is changed in the lockbox unless the update applies, the source
/// check passed, the large-delete check passed and the user confirmed (or
/// `force` was given): the first change follows a plan event only on those
/// conditions.
pub proof fn lemma_changes_need_all_checks(s: MirrorRunState, plan: MirrorPlan, empty: bool, files: usize)
    requires s.phase == MirrorPhase::Planning,
    ensures ({
        let (t, a) = mirror_step(s, MirrorEvent::Planned { plan, source_files_empty: empty, destination_files: files });
        (a is Apply || a == MirrorAction::Confirm) ==> {
            &&& s.apply
            &&& !(empty && plan.removals > 0 && !s.allow_empty)
            &&& !(!s.allow_large_delete && is_large_delete(plan.removed_files, files))
            &&& !plan_is_empty(plan)
            &&& (a is Apply <==> s.force)
        }
    }),
{
}

/// Once the checks pass, an update finishes as up to date exactly when its
/// plan adds, replaces, removes and creates nothing; any planned change leads
/// to the confirmation or, with `force`, to applying the removals first.
pub proof fn lemma_up_to_date_only_without_changes(s: MirrorRunState, plan: MirrorPlan, empty: bool, files: usize)
    requires
        s.phase == MirrorPhase::Planning,
        s.apply,
        !(empty && plan.removals > 0 && !s.allow_empty),
        s.allow_large_delete || files == 0 || plan.removed_files * 100 <= files * 50,
    ensures ({
        let a = mirror_step(s, MirrorEvent::Planned { plan, source_files_empty: empty, destination_files: files }).1;
        &&& (a == MirrorAction::Finish(MirrorOutcome::UpToDate)) <==> (plan.additions == 0 && plan.replacements == 0
            && plan.removals == 0 && plan.directories == 0)
        &&& (plan.additions > 0 || plan.replacements > 0 || plan.removals > 0 || plan.directories > 0) ==> a == (if s.force {
            MirrorAction::Apply(PlanOperation::Remove)
        } else {
            MirrorAction::Confirm
        })
    }),
{
}

/// The refusals of a planned update, over all plans: a changed host
/// directory stops before anything is scanned; `status` only reports; an
/// empty source with planned removals is refused without allow-empty; and a
/// plan that deletes more than half of the managed files is refused without
/// allow-large-delete.
pub proof fn lemma_update_refusals(s: MirrorRunState, plan: MirrorPlan, empty: bool, files: usize)
    ensures
        s.phase == MirrorPhase::CheckIdentity ==> mirror_step(s, MirrorEvent::Identity { matches: false }).1
            == MirrorAction::Fail(MirrorFailure::IdentityChanged),
        s.phase == MirrorPhase::CheckIdentity ==> mirror_step(s, MirrorEvent::Identity { matches: true }).1
            == MirrorAction::ScanAndPlan,
        ({
            let a = mirror_step(s, MirrorEvent::Planned { plan, source_files_empty: empty, destination_files: files }).1;
            &&& s.phase == MirrorPhase::Planning && !s.apply ==> a == MirrorAction::Finish(MirrorOutcome::StatusReported)
            &&& s.phase == MirrorPhase::Planning && s.apply && empty && plan.removals > 0 && !s.allow_empty
                ==> a == MirrorAction::Fail(MirrorFailure::NoSourceFiles)
            &&& s.phase == MirrorPhase::Planning && s.apply && !(empty && plan.removals > 0 && !s.allow_empty)
                && !s.allow_large_delete && files > 0 && plan.removed_files * 100 > files * 50
                ==> a == MirrorAction::Fail(MirrorFailure::LargeDelete { removed_files: plan.removed_files,
                    managed_files: files })
        }),
{
}

} // verus!
