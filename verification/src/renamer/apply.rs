//! Applying a rename plan, one entry at a time: the application performs
//! each file-system step and reports back; these functions decide what
//! comes next and what is recorded.
use vstd::prelude::*;

use super::{RenameOutcome, RenamePlanEntry};
use crate::models::book::opt_str;
use crate::paths::{parent, path_parent};
use crate::text::{chars_of, push_all, string_from};

verus! {

/// What the application reports after the step it was asked for.
#[derive(Debug)]
pub enum ApplyEvent {
    /// The entry is about to be applied.
    Begin,
    /// The target's directory was created, or could not be.
    DirCreated(Result<(), String>),
    /// Whether a file already sits at the target, checked just now.
    TargetExists(bool),
    /// The file was moved, or could not be.
    Moved(Result<(), String>),
}

/// The next step for an entry.
#[derive(Debug)]
pub enum ApplyAction {
    /// Leave the entry alone and record nothing: it is unchanged or flagged.
    Skip,
    /// Create this directory and every missing one above it.
    CreateDir(String),
    /// Check whether a file exists at the target.
    CheckTarget,
    /// Move the source file to the target.
    Move,
    /// Record this outcome; the entry is done.
    Record(RenameOutcome),
}

/// The outcome of an entry: its paths, and the error when it failed.
pub open spec fn outcome_is(o: RenameOutcome, e: RenamePlanEntry, error: Option<Seq<char>>) -> bool {
    &&& o.source_path@ == e.source_path@
    &&& o.target_path@ == e.target_path@
    &&& o.success == (error is None)
    &&& opt_str(o.error) == error
}

/// The steps of applying an entry. Unchanged and flagged entries are
/// skipped. Otherwise the target's directory is created first (when the
/// target has a parent), then the target is checked again, since the plan
/// may be old, and only a free target is moved to.
pub open spec fn apply_next_spec(e: RenamePlanEntry, event: ApplyEvent, action: ApplyAction) -> bool {
    match event {
        ApplyEvent::Begin => if !e.changed || e.conflict is Some {
            action is Skip
        } else {
            match path_parent(e.target_path@) {
                Some(p) => action is CreateDir && action->CreateDir_0@ == p,
                None => action is CheckTarget,
            }
        },
        ApplyEvent::DirCreated(r) => match r {
            Ok(_) => action is CheckTarget,
            Err(msg) => action is Record && outcome_is(
                action->Record_0,
                e,
                Some("Could not create directory: "@ + msg@),
            ),
        },
        ApplyEvent::TargetExists(exists) => if exists {
            action is Record && outcome_is(action->Record_0, e, Some("A file already exists at the target path"@))
        } else {
            action is Move
        },
        ApplyEvent::Moved(r) => action is Record && outcome_is(
            action->Record_0,
            e,
            match r {
                Ok(_) => None,
                Err(msg) => Some(msg@),
            },
        ),
    }
}

fn outcome(e: &RenamePlanEntry, error: Option<String>) -> (o: RenameOutcome)
    ensures
        outcome_is(o, *e, opt_str(error)),
{
    RenameOutcome {
        source_path: e.source_path.clone(),
        target_path: e.target_path.clone(),
        success: error.is_none(),
        error: error,
    }
}

/// The next step of applying `entry`, given what the last step reported.
pub fn apply_next(entry: &RenamePlanEntry, event: ApplyEvent) -> (r: ApplyAction)
    ensures
        apply_next_spec(*entry, event, r),
{
    match event {
        ApplyEvent::Begin => {
            if !entry.changed || entry.conflict.is_some() {
                ApplyAction::Skip
            } else {
                match parent(entry.target_path.as_str()) {
                    Some(p) => ApplyAction::CreateDir(p),
                    None => ApplyAction::CheckTarget,
                }
            }
        },
        ApplyEvent::DirCreated(r) => match r {
            Ok(_) => ApplyAction::CheckTarget,
            Err(msg) => {
                let mut text = chars_of("Could not create directory: ");
                let m = chars_of(msg.as_str());
                push_all(&mut text, m.as_slice());
                ApplyAction::Record(outcome(entry, Some(string_from(text.as_slice()))))
            },
        },
        ApplyEvent::TargetExists(exists) => {
            if exists {
                ApplyAction::Record(outcome(entry, Some(String::from_str("A file already exists at the target path"))))
            } else {
                ApplyAction::Move
            }
        },
        ApplyEvent::Moved(r) => match r {
            Ok(_) => ApplyAction::Record(outcome(entry, None)),
            Err(msg) => ApplyAction::Record(outcome(entry, Some(msg))),
        },
    }
}

/// An outcome is recorded as a success only when the move itself succeeded.
pub proof fn law_only_a_move_succeeds(e: RenamePlanEntry, event: ApplyEvent, action: ApplyAction)
    requires
        apply_next_spec(e, event, action),
        action is Record,
        action->Record_0.success,
    ensures
        event is Moved && event->Moved_0 is Ok,
{
}

/// Entries that are unchanged or flagged are left alone.
pub proof fn law_flagged_entries_are_skipped(e: RenamePlanEntry, action: ApplyAction)
    requires
        apply_next_spec(e, ApplyEvent::Begin, action),
        !e.changed || e.conflict is Some,
    ensures
        action is Skip,
{
}

} // verus!
