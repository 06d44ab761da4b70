//! The order of a change to the hosts file: plan, ask, back up, write, and
//! fall back to the privileged writer once.
//!
//! The caller does the asking, the copying and the writing. After each of
//! these it reports what happened, and `next_step` says what comes next.
use crate::text::{chars_of, extend_chars, string_of, trim, trimmed};
use vstd::prelude::*;

verus! {

/// How a session ended.
#[derive(Clone, Copy, Debug, PartialEq, Eq, Structural)]
pub enum Outcome {
    /// There was nothing to change.
    Unchanged,
    /// The operator declined.
    Cancelled,
    /// The file was written.
    Written,
    /// Neither the direct write nor the privileged one succeeded.
    Failed,
}

/// What the caller has to do next.
#[derive(Clone, Copy, Debug, PartialEq, Eq, Structural)]
pub enum Step {
    /// Read the file and plan the change.
    Plan,
    /// Show the preview and ask for confirmation.
    Confirm,
    /// Copy the file to the backup directory and prune old backups.
    Backup,
    /// Write the new text to the file.
    WriteDirect,
    /// Hand the new text to the privileged helper.
    WriteElevated,
    /// Nothing more.
    Done(Outcome),
}

/// What the caller reports.
#[derive(Clone, Copy, Debug, PartialEq, Eq, Structural)]
pub enum Event {
    /// The plan changes the file.
    Changed,
    /// The plan changes nothing.
    Unchanged,
    /// The operator agreed.
    Accepted,
    /// The operator declined.
    Declined,
    /// The backup was attempted; a backup that fails is worth a warning and
    /// stops nothing.
    BackupAttempted,
    /// The write succeeded.
    Written,
    /// The write failed.
    Refused,
}

/// The step that follows `step` after `event`. An event that does not
/// belong to the step leaves it as it is.
pub open spec fn step_after(step: Step, event: Event) -> Step {
    match (step, event) {
        (Step::Plan, Event::Changed) => Step::Confirm,
        (Step::Plan, Event::Unchanged) => Step::Done(Outcome::Unchanged),
        (Step::Confirm, Event::Accepted) => Step::Backup,
        (Step::Confirm, Event::Declined) => Step::Done(Outcome::Cancelled),
        (Step::Backup, Event::BackupAttempted) => Step::WriteDirect,
        (Step::WriteDirect, Event::Written) => Step::Done(Outcome::Written),
        (Step::WriteDirect, Event::Refused) => Step::WriteElevated,
        (Step::WriteElevated, Event::Written) => Step::Done(Outcome::Written),
        (Step::WriteElevated, Event::Refused) => Step::Done(Outcome::Failed),
        _ => step,
    }
}

/// The step that follows `step` after `event`.
pub fn next_step(step: Step, event: Event) -> (next: Step)
    ensures
        next == step_after(step, event),
{
    match step {
        Step::Plan => match event {
            Event::Changed => Step::Confirm,
            Event::Unchanged => Step::Done(Outcome::Unchanged),
            _ => step,
        },
        Step::Confirm => match event {
            Event::Accepted => Step::Backup,
            Event::Declined => Step::Done(Outcome::Cancelled),
            _ => step,
        },
        Step::Backup => match event {
            Event::BackupAttempted => Step::WriteDirect,
            _ => step,
        },
        Step::WriteDirect => match event {
            Event::Written => Step::Done(Outcome::Written),
            Event::Refused => Step::WriteElevated,
            _ => step,
        },
        Step::WriteElevated => match event {
            Event::Written => Step::Done(Outcome::Written),
            Event::Refused => Step::Done(Outcome::Failed),
            _ => step,
        },
        Step::Done(_) => step,
    }
}

/// The step after a run of events.
pub open spec fn step_after_all(step: Step, events: Seq<Event>) -> Step
    decreases events.len(),
{
    if events.len() == 0 {
        step
    } else {
        step_after(step_after_all(step, events.drop_last()), events.last())
    }
}

/// How far a step is along the way.
pub open spec fn rank(step: Step) -> int {
    match step {
        Step::Plan => 0,
        Step::Confirm => 1,
        Step::Backup => 2,
        Step::WriteDirect => 3,
        Step::WriteElevated => 4,
        Step::Done(_) => 5,
    }
}

/// Nothing is written that was not confirmed, and nothing is written before
/// the backup was attempted: the first write follows the backup, and the
/// backup follows the operator's consent.
pub proof fn law_write_follows_consent_and_backup(step: Step, event: Event)
    ensures
        step_after(step, event) == Step::WriteDirect && step != Step::WriteDirect ==> step
            == Step::Backup && event == Event::BackupAttempted,
        step_after(step, event) == Step::Backup && step != Step::Backup ==> step == Step::Confirm
            && event == Event::Accepted,
        step_after(step, event) == Step::Confirm && step != Step::Confirm ==> step == Step::Plan
            && event == Event::Changed,
{
}

/// One fallback, no retry. The privileged writer is only tried after the
/// direct write failed; when it fails too the session is over. No step is
/// ever taken again once it is left, and a session that is over stays over.
pub proof fn law_single_fallback(step: Step, event: Event)
    ensures
        step_after(step, event) == Step::WriteElevated && step != Step::WriteElevated ==> step
            == Step::WriteDirect && event == Event::Refused,
        step_after(Step::WriteElevated, Event::Refused) == Step::Done(Outcome::Failed),
        rank(step_after(step, event)) >= rank(step),
        step is Done ==> step_after(step, event) == step,
        step_after(step, event) == Step::Done(Outcome::Written) && step != Step::Done(
            Outcome::Written,
        ) ==> event == Event::Written && (step == Step::WriteDirect || step == Step::WriteElevated),
{
}

/// A session never goes back, whatever is reported.
pub proof fn law_sessions_advance(step: Step, events: Seq<Event>)
    ensures
        rank(step_after_all(step, events)) >= rank(step),
    decreases events.len(),
{
    if events.len() > 0 {
        law_sessions_advance(step, events.drop_last());
        law_single_fallback(step_after_all(step, events.drop_last()), events.last());
    }
}

// ---------------------------------------------------------------------------
// Answers
// ---------------------------------------------------------------------------

pub open spec fn is_letter(c: char, lower: char, upper: char) -> bool {
    c == lower || c == upper
}

/// The answer is `n` or `no`, in either case.
pub open spec fn says_no(answer: Seq<char>) -> bool {
    let t = trimmed(answer);
    ||| t.len() == 1 && is_letter(t[0], 'n', 'N')
    ||| t.len() == 2 && is_letter(t[0], 'n', 'N') && is_letter(t[1], 'o', 'O')
}

/// The answer is `y` or `yes`, in either case.
pub open spec fn says_yes(answer: Seq<char>) -> bool {
    let t = trimmed(answer);
    ||| t.len() == 1 && is_letter(t[0], 'y', 'Y')
    ||| t.len() == 3 && is_letter(t[0], 'y', 'Y') && is_letter(t[1], 'e', 'E') && is_letter(
        t[2],
        's',
        'S',
    )
}

fn letter(c: char, lower: char, upper: char) -> (b: bool)
    ensures
        b == is_letter(c, lower, upper),
{
    c == lower || c == upper
}

/// Whether an answer to a question that is agreed to by default lets the
/// change go ahead: anything but `n` and `no` does.
pub fn proceeds_by_default(answer: &str) -> (b: bool)
    ensures
        b == !says_no(answer@),
{
    let t = trim(&chars_of(answer));
    let no = (t.len() == 1 && letter(t[0], 'n', 'N')) || (t.len() == 2 && letter(t[0], 'n', 'N')
        && letter(t[1], 'o', 'O'));
    !no
}

/// Whether an answer to a question that is declined by default lets the
/// change go ahead: only `y` and `yes` do.
pub fn proceeds_on_request(answer: &str) -> (b: bool)
    ensures
        b == says_yes(answer@),
{
    let t = trim(&chars_of(answer));
    (t.len() == 1 && letter(t[0], 'y', 'Y')) || (t.len() == 3 && letter(t[0], 'y', 'Y') && letter(
        t[1],
        'e',
        'E',
    ) && letter(t[2], 's', 'S'))
}

/// The event that an answer stands for.
pub fn answer_event(answer: &str, agreed_by_default: bool) -> (event: Event)
    ensures
        event == if agreed_by_default {
            if says_no(answer@) {
                Event::Declined
            } else {
                Event::Accepted
            }
        } else {
            if says_yes(answer@) {
                Event::Accepted
            } else {
                Event::Declined
            }
        },
{
    let go = if agreed_by_default {
        proceeds_by_default(answer)
    } else {
        proceeds_on_request(answer)
    };
    if go {
        Event::Accepted
    } else {
        Event::Declined
    }
}

/// What is reported when both ways of writing failed: both errors, as they
/// came.
pub open spec fn write_failure_text(direct_error: Seq<char>, helper_error: Seq<char>) -> Seq<char> {
    "Failed to write /etc/hosts with sudo: "@ + direct_error + ". Error: "@ + helper_error
        + ". Please run with sudo or manually add entries."@
}

/// What is reported when both ways of writing failed.
pub fn write_failure_message(direct_error: &str, helper_error: &str) -> (message: String)
    ensures
        message@ == write_failure_text(direct_error@, helper_error@),
{
    let mut chars = chars_of("Failed to write /etc/hosts with sudo: ");
    extend_chars(&mut chars, &chars_of(direct_error));
    extend_chars(&mut chars, &chars_of(". Error: "));
    extend_chars(&mut chars, &chars_of(helper_error));
    extend_chars(&mut chars, &chars_of(". Please run with sudo or manually add entries."));
    string_of(&chars)
}

} // verus!
