//! How workers react to requests to terminate.
//!
//! The first request lets every worker finish its chunk; the second one stops them.

use vstd::prelude::*;

verus! {

/// Whether work in progress is to be given up.
pub fn is_hard_shutdown_requested(terminations_requested: u8) -> (requested: bool)
    ensures
        requested == (terminations_requested >= 2),
{
    terminations_requested >= 2
}

/// Whether a quality that was found may still be used.
pub fn can_finalize_target_quality(terminations_requested: u8) -> (can: bool)
    ensures
        can == (terminations_requested < 2),
{
    !is_hard_shutdown_requested(terminations_requested)
}

/// Whether a search for a quality that failed at its `current_try`-th try is made once more.
pub fn should_retry_target_quality(
    terminations_requested: u8,
    current_try: usize,
    max_tries: usize,
) -> (retry: bool)
    ensures
        retry == (terminations_requested < 2 && current_try < max_tries),
{
    can_finalize_target_quality(terminations_requested) && current_try < max_tries
}

/// Whether a worker may start with another chunk.
pub fn can_start_next_chunk(terminations_requested: u8) -> (can: bool)
    ensures
        can == (terminations_requested == 0),
{
    terminations_requested == 0
}

/// What is said of the `count`-th request to terminate.
pub open spec fn termination_text(count: u8) -> Seq<char> {
    if count == 1 {
        "Shutting down. Waiting for current workers to finish..."@
    } else {
        "Shutting down all workers..."@
    }
}

/// What is said of the `count`-th request to terminate.
pub fn termination_message(count: u8) -> (message: &'static str)
    ensures
        message@ == termination_text(count),
        count == 1 ==> message@ == "Shutting down. Waiting for current workers to finish..."@,
        count != 1 ==> message@ == "Shutting down all workers..."@,
{
    if count == 1 {
        "Shutting down. Waiting for current workers to finish..."
    } else {
        "Shutting down all workers..."
    }
}

} // verus!
