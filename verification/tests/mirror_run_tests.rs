use revault_cli::mirror::{plans_removal, MirrorPlan, MissingFilePolicy};
use revault_cli::mirror_run::{
    mirror_begin, mirror_failure_message, mirror_next, mirror_outcome_line, MirrorAction, MirrorEvent, MirrorFailure,
    MirrorOutcome, MirrorPhase, MirrorRunState,
};
use revault_cli::records::PlanOperation;

fn plan(additions: usize, removals: usize, removed_files: usize) -> MirrorPlan {
    MirrorPlan { additions, replacements: 0, removals, unchanged: 4, directories: 0, removed_files }
}

fn empty() -> MirrorPlan {
    plan(0, 0, 0)
}

fn step(s: &MirrorRunState, e: MirrorEvent) -> (MirrorRunState, MirrorAction) {
    mirror_next(s, e)
}

fn planned(apply: bool, force: bool, p: MirrorPlan, empty_source: bool, files: usize) -> (MirrorRunState, MirrorAction) {
    let s = mirror_begin(apply, false, false, force, false);
    let (s, a) = step(&s, MirrorEvent::Identity { matches: true });
    assert_eq!(a, MirrorAction::ScanAndPlan);
    step(&s, MirrorEvent::Planned { plan: p, source_files_empty: empty_source, destination_files: files })
}

#[test]
fn identity_change_refuses_the_update() {
    let s = mirror_begin(true, false, false, false, false);
    let (s, a) = step(&s, MirrorEvent::Identity { matches: false });
    assert_eq!(a, MirrorAction::Fail(MirrorFailure::IdentityChanged));
    assert_eq!(s.phase, MirrorPhase::Done);
    assert_eq!(
        mirror_failure_message("docs", MirrorFailure::IdentityChanged).summary,
        "host directory identity changed for mirror 'docs'; use mirror docs rebind --from <HOST_DIRECTORY>"
    );
}

#[test]
fn status_only_reports() {
    let (_, a) = planned(false, false, plan(3, 0, 0), false, 10);
    assert_eq!(a, MirrorAction::Finish(MirrorOutcome::StatusReported));
}

#[test]
fn empty_source_and_large_deletes_are_refused() {
    let (_, a) = planned(true, true, plan(0, 2, 2), true, 10);
    assert_eq!(a, MirrorAction::Fail(MirrorFailure::NoSourceFiles));
    let (_, a) = planned(true, true, plan(0, 6, 6), false, 10);
    assert_eq!(a, MirrorAction::Fail(MirrorFailure::LargeDelete { removed_files: 6, managed_files: 10 }));
    assert_eq!(
        mirror_failure_message("m", MirrorFailure::LargeDelete { removed_files: 6, managed_files: 10 }).summary,
        "mirror update would delete 6 of 10 managed files; pass --allow-large-delete"
    );
    let (_, a) = planned(true, true, plan(0, 5, 5), false, 10);
    assert_eq!(a, MirrorAction::Apply(PlanOperation::Remove));
}

#[test]
fn nothing_to_change_is_up_to_date() {
    let (s, a) = planned(true, false, empty(), false, 0);
    assert_eq!(a, MirrorAction::Finish(MirrorOutcome::UpToDate));
    assert_eq!(mirror_outcome_line("docs", &s.plan, false, MirrorOutcome::UpToDate).unwrap(), "Mirror 'docs' is up to date.");
}

#[test]
fn a_confirmed_update_applies_in_order_and_commits() {
    let (s, a) = planned(true, false, plan(2, 1, 1), false, 10);
    assert_eq!(a, MirrorAction::Confirm);
    let (s, a) = step(&s, MirrorEvent::Confirmed(true));
    assert_eq!(a, MirrorAction::Apply(PlanOperation::Remove));
    let (s, a) = step(&s, MirrorEvent::StageApplied);
    assert_eq!(a, MirrorAction::Apply(PlanOperation::MakeDirectory));
    let (s, a) = step(&s, MirrorEvent::StageApplied);
    assert_eq!(a, MirrorAction::Apply(PlanOperation::Add));
    let (s, a) = step(&s, MirrorEvent::StageApplied);
    assert_eq!(a, MirrorAction::Apply(PlanOperation::Replace));
    let (s, a) = step(&s, MirrorEvent::StageApplied);
    assert_eq!(a, MirrorAction::Replan);
    let (s, a) = step(&s, MirrorEvent::Replanned(empty()));
    assert_eq!(a, MirrorAction::VerifySource);
    let (s, a) = step(&s, MirrorEvent::SourceVerified);
    assert_eq!(a, MirrorAction::Commit);
    let (s, a) = step(&s, MirrorEvent::Committed);
    assert_eq!(a, MirrorAction::VerifyCommit);
    let (s, a) = step(&s, MirrorEvent::CommitVerified(empty()));
    assert_eq!(a, MirrorAction::Finish(MirrorOutcome::Updated));
    assert_eq!(
        mirror_outcome_line("docs", &s.plan, false, MirrorOutcome::Updated).unwrap(),
        "Updated mirror 'docs': 2 added, 0 replaced, 0 directories created, 1 removed, 4 unchanged."
    );
    assert!(mirror_outcome_line("docs", &s.plan, true, MirrorOutcome::Updated).is_none());
}

#[test]
fn declined_and_unapplied_updates() {
    let (s, _) = planned(true, false, plan(1, 0, 0), false, 10);
    let (_, a) = step(&s, MirrorEvent::Confirmed(false));
    assert_eq!(a, MirrorAction::Finish(MirrorOutcome::Cancelled));
    let (s, _) = planned(true, true, plan(1, 0, 0), false, 10);
    let mut s = s;
    for _ in 0..4 {
        s = step(&s, MirrorEvent::StageApplied).0;
    }
    let (_, a) = step(&s, MirrorEvent::Replanned(plan(1, 0, 0)));
    assert_eq!(a, MirrorAction::Fail(MirrorFailure::NotApplied));
    assert_eq!(
        mirror_failure_message("docs", MirrorFailure::NotApplied).summary,
        "mirror 'docs' could not apply the planned contents before commit"
    );
    let (_, a) = step(&s, MirrorEvent::Committed);
    assert_eq!(a, MirrorAction::Fail(MirrorFailure::OutOfOrder));
}

#[test]
fn removals_are_planned_only_under_the_remove_policy() {
    assert!(plans_removal(MissingFilePolicy::Remove, "a/b", false, false));
    assert!(!plans_removal(MissingFilePolicy::Retain, "a/b", false, false));
    assert!(!plans_removal(MissingFilePolicy::Remove, "", false, false));
    assert!(!plans_removal(MissingFilePolicy::Remove, "a/b", true, false));
    assert!(!plans_removal(MissingFilePolicy::Remove, "a/b", false, true));
}
