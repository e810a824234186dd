//! The retry policy of long-running connections: transient failures and
//! clean stream ends reset the backoff, persistent failures double it up to
//! a cap.

use vstd::prelude::*;

verus! {

use crate::text::{match_at, contains_str};

pub const INITIAL_BACKOFF_SECS: u64 = 1;
pub const MAX_BACKOFF_SECS: u64 = 60;

/// How one attempt of the driven operation ended.
#[derive(Clone, Copy, PartialEq, Eq, Structural, Debug)]
pub enum AttemptOutcome {
    /// The operation returned cleanly (stream ended).
    CleanEnd,
    /// The operation failed with a transient connection error.
    TransientError,
    /// The operation failed with any other error.
    PersistentError,
}

/// The backoff after an attempt: clean ends and transient errors reset it,
/// persistent errors double it up to the cap.
pub open spec fn spec_next_backoff(current: u64, outcome: AttemptOutcome) -> u64 {
    match outcome {
        AttemptOutcome::CleanEnd => INITIAL_BACKOFF_SECS,
        AttemptOutcome::TransientError => INITIAL_BACKOFF_SECS,
        AttemptOutcome::PersistentError => if current * 2 >= MAX_BACKOFF_SECS {
            MAX_BACKOFF_SECS
        } else {
            (current * 2) as u64
        },
    }
}

/// Compute the backoff to sleep after an attempt.
pub fn next_backoff(current: u64, outcome: AttemptOutcome) -> (r: u64)
    ensures
        r == spec_next_backoff(current, outcome),
{
    match outcome {
        AttemptOutcome::CleanEnd => INITIAL_BACKOFF_SECS,
        AttemptOutcome::TransientError => INITIAL_BACKOFF_SECS,
        AttemptOutcome::PersistentError => {
            if current >= MAX_BACKOFF_SECS / 2 {
                MAX_BACKOFF_SECS
            } else {
                current * 2
            }
        },
    }
}

/// The error signatures treated as transient: failures expected around
/// rolling updates, operator restarts and network blips.
pub open spec fn spec_is_transient(msg: Seq<char>) -> bool {
    ||| (exists|i: int| match_at(msg, "h2 protocol error"@, i))
    ||| (exists|i: int| match_at(msg, "connection reset"@, i))
    ||| (exists|i: int| match_at(msg, "broken pipe"@, i))
    ||| (exists|i: int| match_at(msg, "connection refused"@, i))
    ||| (exists|i: int| match_at(msg, "transport error"@, i))
    ||| (exists|i: int| match_at(msg, "dns error"@, i))
    ||| (exists|i: int| match_at(msg, "connection closed"@, i))
    ||| (exists|i: int| match_at(msg, "channel closed"@, i))
}

/// Decide whether an error message names a transient failure.
pub fn is_transient(msg: &str) -> (r: bool)
    ensures
        r == spec_is_transient(msg@),
{
    contains_str(msg, "h2 protocol error") || contains_str(msg, "connection reset")
        || contains_str(msg, "broken pipe") || contains_str(msg, "connection refused")
        || contains_str(msg, "transport error") || contains_str(msg, "dns error") || contains_str(
        msg,
        "connection closed",
    ) || contains_str(msg, "channel closed")
}

/// Classify an attempt's end from its error message, if any.
pub fn classify_outcome(error: Option<&str>) -> (r: AttemptOutcome)
    ensures
        match error {
            None => r == AttemptOutcome::CleanEnd,
            Some(msg) => if spec_is_transient(msg@) {
                r == AttemptOutcome::TransientError
            } else {
                r == AttemptOutcome::PersistentError
            },
        },
{
    match error {
        None => AttemptOutcome::CleanEnd,
        Some(msg) => if is_transient(msg) {
            AttemptOutcome::TransientError
        } else {
            AttemptOutcome::PersistentError
        },
    }
}

/// The backoff after a whole run of attempts, starting from the initial
/// backoff.
pub open spec fn spec_backoff_after(outcomes: Seq<AttemptOutcome>) -> u64
    decreases outcomes.len(),
{
    if outcomes.len() == 0 {
        INITIAL_BACKOFF_SECS
    } else {
        spec_next_backoff(spec_backoff_after(outcomes.drop_last()), outcomes.last())
    }
}

/// The backoff never exceeds the cap, whatever the history.
pub proof fn lemma_backoff_capped(outcomes: Seq<AttemptOutcome>)
    ensures
        INITIAL_BACKOFF_SECS <= spec_backoff_after(outcomes) <= MAX_BACKOFF_SECS,
    decreases outcomes.len(),
{
    if outcomes.len() > 0 {
        lemma_backoff_capped(outcomes.drop_last());
    }
}

/// A transient error resets the backoff to the initial second, whatever
/// came before.
pub proof fn lemma_transient_resets(outcomes: Seq<AttemptOutcome>)
    requires
        outcomes.len() > 0,
        outcomes.last() == AttemptOutcome::TransientError,
    ensures
        spec_backoff_after(outcomes) == INITIAL_BACKOFF_SECS,
{
}

/// A persistent error doubles the backoff, saturating at the cap.
pub proof fn lemma_persistent_doubles(outcomes: Seq<AttemptOutcome>)
    requires
        outcomes.len() > 0,
        outcomes.last() == AttemptOutcome::PersistentError,
    ensures
        spec_backoff_after(outcomes) == if spec_backoff_after(outcomes.drop_last()) * 2
            >= MAX_BACKOFF_SECS {
            MAX_BACKOFF_SECS
        } else {
            (spec_backoff_after(outcomes.drop_last()) * 2) as u64
        },
{
}

} // verus!
