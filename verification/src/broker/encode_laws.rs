//! What holds of all work on a chunk, whatever happens.

use crate::broker::chunk::{Chunk, DoneChunk};
use crate::broker::encode::{fresh, ChunkError, ChunkRun, Completion, Event, Stage};
use vstd::prelude::*;

verus! {

/// The work behind all of `events`.
pub open spec fn after(run: ChunkRun, events: Seq<Event>) -> ChunkRun
    decreases events.len(),
{
    if events.len() == 0 {
        run
    } else {
        after(run, events.drop_last()).next(events.last())
    }
}

/// Whether each of `events` is what is waited for when it happens.
pub open spec fn possible(run: ChunkRun, events: Seq<Event>) -> bool
    decreases events.len(),
{
    events.len() > 0 ==> possible(run, events.drop_last()) && after(
        run,
        events.drop_last(),
    ).stage.awaits(events.last())
}

/// How many of `events` end a search for a quality.
pub open spec fn searches(events: Seq<Event>) -> nat
    decreases events.len(),
{
    if events.len() == 0 {
        0
    } else {
        searches(events.drop_last()) + if events.last() is Probed {
            1nat
        } else {
            0
        }
    }
}

/// How many of `events` end a pass, in success or failure.
pub open spec fn passes_run(events: Seq<Event>) -> nat
    decreases events.len(),
{
    if events.len() == 0 {
        0
    } else {
        passes_run(events.drop_last()) + if events.last() is Encoded {
            1nat
        } else {
            0
        }
    }
}

/// How many of `events` end a pass in success.
pub open spec fn passes_done(events: Seq<Event>) -> nat
    decreases events.len(),
{
    if events.len() == 0 {
        0
    } else {
        passes_done(events.drop_last()) + if events.last() matches Event::Encoded(Ok(_)) {
            1nat
        } else {
            0
        }
    }
}

/// How many passes in a row have failed at the end of `events`.
pub open spec fn failures_in_a_row(events: Seq<Event>) -> nat
    decreases events.len(),
{
    if events.len() == 0 {
        0
    } else {
        match events.last() {
            Event::Encoded(Ok(_)) => 0,
            Event::Encoded(Err(_)) => failures_in_a_row(events.drop_last()) + 1,
            _ => failures_in_a_row(events.drop_last()),
        }
    }
}

/// Whether `event` reports a second request to terminate.
pub open spec fn is_hard_shutdown(event: Event) -> bool {
    event matches Event::Terminations(count) && count >= 2
}

/// Whether `event` reports nothing that goes wrong.
pub open spec fn is_friendly(event: Event) -> bool {
    match event {
        Event::Terminations(count) => count < 2,
        Event::Probed(outcome) => outcome is Ok,
        Event::Inspected(_) => true,
        Event::Discarded => true,
        Event::Copied(outcome) => outcome is Ok,
        Event::Shown => true,
        Event::Encoded(outcome) => outcome is Ok,
        Event::Warned => true,
        Event::Measured(outcome) => outcome is Ok,
        Event::Recorded => true,
        Event::Saved(outcome) => outcome is Ok,
    }
}

/// Whether the work can only end in an error.
pub open spec fn is_lost(run: ChunkRun) -> bool {
    run.stage is ProbingGivenUp || run.stage matches Stage::Finished(Err(_))
}

/// How many steps are left at most.
pub open spec fn steps_left(run: ChunkRun) -> int {
    let tries = run.max_tries as int;
    let starting = 4 * (run.chunk.passes * tries) + 4;
    match run.stage {
        Stage::Probing { attempt } => starting + 4 + 3 * (tries - attempt),
        Stage::ProbingFailed { attempt, .. } => starting + 3 + 3 * (tries - attempt),
        Stage::ProbingGivenUp { .. } => 1,
        Stage::Finalizing => starting + 3,
        Stage::InspectingProbe { .. } => starting + 2,
        Stage::DiscardingProbe { .. } => starting + 1,
        Stage::ReusingProbe { .. } => 5,
        Stage::CountingFrames => 4,
        Stage::Starting => starting,
        Stage::Encoding { pass, attempt } => 4 * passes_left(run, pass as int, attempt as int) + 3,
        Stage::RetractingFrames { pass, attempt, .. } => 4 * passes_left(
            run,
            pass as int,
            attempt as int,
        ) + 2,
        Stage::EncodingFailed { pass, attempt, .. } => 4 * passes_left(
            run,
            pass as int,
            attempt as int,
        ) + 1,
        Stage::Restarting { pass, attempt, .. } => 4 * passes_left(
            run,
            pass as int,
            attempt as int,
        ),
        Stage::Measuring { .. } => 3,
        Stage::Recording { .. } => 2,
        Stage::Saving { .. } => 1,
        Stage::Finished(_) => 0,
    }
}

/// How often a pass is run at most from this attempt on.
pub open spec fn passes_left(run: ChunkRun, pass: int, attempt: int) -> int {
    (run.chunk.passes - pass) * run.max_tries + (run.max_tries - attempt) + 1
}

proof fn lemma_next_pass(run: ChunkRun, pass: int, attempt: int)
    ensures
        attempt <= run.max_tries ==> passes_left(run, pass + 1, 1) <= passes_left(run, pass, attempt)
            - 1,
        passes_left(run, pass, attempt) == passes_left(run, pass, attempt + 1) + 1,
        pass == run.chunk.passes ==> passes_left(run, pass, attempt) == run.max_tries - attempt + 1,
        passes_left(run, 1, 1) == run.chunk.passes * run.max_tries,
{
    let tries = run.max_tries as int;
    let passes = run.chunk.passes as int;
    assert((passes - pass) * tries == (passes - pass - 1) * tries + tries) by (nonlinear_arith);
    assert((passes - 1) * tries == passes * tries - tries) by (nonlinear_arith);
    if pass == passes {
        assert((passes - pass) * tries == 0) by (nonlinear_arith)
            requires
                pass == passes,
        ;
    }
}

/// Every step brings the work nearer to its end.
pub proof fn every_step_counts_down(run: ChunkRun, event: Event)
    requires
        run.wf(),
        run.stage.awaits(event),
    ensures
        run.next(event).wf(),
        0 <= steps_left(run.next(event)) < steps_left(run),
{
    let tries = run.max_tries as int;
    let passes = run.chunk.passes as int;
    assert(0 <= passes * tries) by (nonlinear_arith)
        requires
            0 <= passes,
            0 <= tries,
    ;
    lemma_next_pass(run, 1, 1);
    match run.stage {
        Stage::Encoding { pass, attempt } => {
            lemma_next_pass(run, pass as int, attempt as int);
            lemma_passes_left(run, pass as int, attempt as int);
            if pass < run.chunk.passes {
                lemma_passes_left(run, pass + 1, 1);
            }
        },
        Stage::RetractingFrames { pass, attempt, .. } => {
            lemma_passes_left(run, pass as int, attempt as int);
        },
        Stage::EncodingFailed { pass, attempt, .. } => {
            lemma_next_pass(run, pass as int, attempt as int);
            lemma_passes_left(run, pass as int, attempt as int);
        },
        Stage::Restarting { pass, attempt, .. } => {
            lemma_next_pass(run, pass as int, attempt as int);
            lemma_passes_left(run, pass as int, attempt + 1);
        },
        Stage::Starting => {
            if run.chunk.passes > 0 && run.max_tries > 0 {
                lemma_passes_left(run, 1, 1);
            }
        },
        _ => {},
    }
}

proof fn lemma_passes_left(run: ChunkRun, pass: int, attempt: int)
    requires
        1 <= pass <= run.chunk.passes,
        1 <= attempt <= run.max_tries,
    ensures
        1 <= passes_left(run, pass, attempt),
{
    let rest = run.chunk.passes - pass;
    let tries = run.max_tries as int;
    assert(0 <= rest * tries) by (nonlinear_arith)
        requires
            0 <= rest,
            0 <= tries,
    ;
}

/// All work ends: after the steps that are left at first nothing more can happen, and before the
/// work has ended something is waited for.
pub proof fn all_work_ends(run: ChunkRun, events: Seq<Event>)
    requires
        run.wf(),
        possible(run, events),
    ensures
        after(run, events).wf(),
        events.len() + steps_left(after(run, events)) <= steps_left(run),
        steps_left(after(run, events)) == 0 ==> after(run, events).stage is Finished,
        after(run, events).stage is Finished || exists|event: Event|
            #[trigger] after(run, events).stage.awaits(event),
    decreases events.len(),
{
    if events.len() > 0 {
        all_work_ends(run, events.drop_last());
        every_step_counts_down(after(run, events.drop_last()), events.last());
    } else {
        lemma_steps_left(run);
    }
    let end = after(run, events);
    lemma_steps_left(end);
    let candidates = seq![
        Event::Terminations(0),
        Event::Probed(Ok(0)),
        Event::Inspected(None),
        Event::Discarded,
        Event::Copied(Ok(())),
        Event::Shown,
        Event::Encoded(Ok(())),
        Event::Warned,
        Event::Measured(Ok(0)),
        Event::Recorded,
        Event::Saved(Ok(())),
    ];
    if !(end.stage is Finished) {
        assert(end.stage.awaits(candidates[0]) || end.stage.awaits(candidates[1])
            || end.stage.awaits(candidates[2]) || end.stage.awaits(candidates[3])
            || end.stage.awaits(candidates[4]) || end.stage.awaits(candidates[5])
            || end.stage.awaits(candidates[6]) || end.stage.awaits(candidates[7])
            || end.stage.awaits(candidates[8]) || end.stage.awaits(candidates[9])
            || end.stage.awaits(candidates[10]));
    }
}

proof fn lemma_steps_left(run: ChunkRun)
    requires
        run.wf(),
    ensures
        run.stage is Finished ==> steps_left(run) == 0,
        !(run.stage is Finished) ==> steps_left(run) > 0,
{
    let tries = run.max_tries as int;
    let passes = run.chunk.passes as int;
    assert(0 <= passes * tries) by (nonlinear_arith)
        requires
            0 <= passes,
            0 <= tries,
    ;
    match run.stage {
        Stage::Encoding { pass, attempt } => lemma_passes_left(run, pass as int, attempt as int),
        Stage::RetractingFrames { pass, attempt, .. } => lemma_passes_left(
            run,
            pass as int,
            attempt as int,
        ),
        Stage::EncodingFailed { pass, attempt, .. } => lemma_passes_left(
            run,
            pass as int,
            attempt as int,
        ),
        Stage::Restarting { pass, attempt, .. } => lemma_passes_left(
            run,
            pass as int,
            attempt as int,
        ),
        _ => {},
    }
}

/// How the stage of `run` goes with what has happened since the work began.
spec fn tallies(run: ChunkRun, events: Seq<Event>) -> bool {
    let tries = run.max_tries as int;
    let limit = run.chunk.passes * tries;
    &&& searches(events) <= tries
    &&& passes_run(events) <= limit
    &&& match run.stage {
        Stage::Probing { attempt } => searches(events) == attempt - 1 && passes_run(events) == 0,
        Stage::ProbingFailed { attempt, .. } => searches(events) == attempt && passes_run(events)
            == 0,
        Stage::Encoding { pass, attempt } => passes_done(events) == pass - 1
            && failures_in_a_row(events) == attempt - 1 && passes_run(events) <= limit
            - passes_left(run, pass as int, attempt as int),
        Stage::RetractingFrames { pass, attempt, .. } => passes_done(events) == pass - 1
            && failures_in_a_row(events) == attempt && passes_run(events) <= limit - passes_left(
            run,
            pass as int,
            attempt as int,
        ) + 1,
        Stage::EncodingFailed { pass, attempt, .. } => passes_done(events) == pass - 1
            && failures_in_a_row(events) == attempt && passes_run(events) <= limit - passes_left(
            run,
            pass as int,
            attempt as int,
        ) + 1,
        Stage::Restarting { pass, attempt, .. } => passes_done(events) == pass - 1
            && failures_in_a_row(events) == attempt && passes_run(events) <= limit - passes_left(
            run,
            pass as int,
            attempt as int,
        ) + 1,
        Stage::Measuring { completion: Completion::Encoded } => tries > 0 ==> passes_done(events)
            == run.chunk.passes,
        Stage::Recording { completion: Completion::Encoded, .. } => tries > 0 ==> passes_done(events)
            == run.chunk.passes,
        Stage::Saving { completion: Completion::Encoded } => tries > 0 ==> passes_done(events)
            == run.chunk.passes,
        Stage::Finished(Ok(Completion::Encoded)) => tries > 0 ==> passes_done(events)
            == run.chunk.passes,
        Stage::Finished(Err(ChunkError::EncoderFailed { tries: failures, .. })) => failures == tries
            && failures_in_a_row(events) == tries,
        Stage::Finished(Err(_)) => true,
        _ => passes_run(events) == 0,
    }
}

proof fn lemma_none_done(events: Seq<Event>)
    requires
        passes_run(events) == 0,
    ensures
        passes_done(events) == 0,
        failures_in_a_row(events) == 0,
    decreases events.len(),
{
    if events.len() > 0 {
        lemma_none_done(events.drop_last());
    }
}

#[verifier::spinoff_prover]
#[verifier::rlimit(30)]
proof fn lemma_tallies(chunk: Chunk, max_tries: usize, filtered: bool, events: Seq<Event>)
    requires
        chunk.wf(),
        possible(fresh(chunk, max_tries, filtered), events),
    ensures
        after(fresh(chunk, max_tries, filtered), events).wf(),
        after(fresh(chunk, max_tries, filtered), events).max_tries == max_tries,
        after(fresh(chunk, max_tries, filtered), events).filtered == filtered,
        after(fresh(chunk, max_tries, filtered), events).chunk == (Chunk {
            tq_cq: after(fresh(chunk, max_tries, filtered), events).chunk.tq_cq,
            ..chunk
        }),
        tallies(after(fresh(chunk, max_tries, filtered), events), events),
    decreases events.len(),
{
    let run = fresh(chunk, max_tries, filtered);
    let tries = max_tries as int;
    assert(0 <= chunk.passes * tries) by (nonlinear_arith)
        requires
            0 <= chunk.passes,
            0 <= tries,
    ;
    if events.len() > 0 {
        lemma_tallies(chunk, max_tries, filtered, events.drop_last());
        let before = after(run, events.drop_last());
        let event = events.last();
        every_step_counts_down(before, event);
        if passes_run(events.drop_last()) == 0 {
            lemma_none_done(events.drop_last());
        }
        lemma_next_pass(before, 1, 1);
        match before.stage {
            Stage::Encoding { pass, attempt } => {
                lemma_next_pass(before, pass as int, attempt as int);
                lemma_passes_left(before, pass as int, attempt as int);
            },
            Stage::EncodingFailed { pass, attempt, .. } => {
                lemma_next_pass(before, pass as int, attempt as int);
            },
            Stage::Restarting { pass, attempt, .. } => {
                lemma_next_pass(before, pass as int, attempt as int);
            },
            _ => {},
        }
    }
}

/// A quality is searched for no more often than the settings allow, and neither is any pass run:
/// all passes together no more often than so many times each.
pub proof fn attempts_are_bounded(
    chunk: Chunk,
    max_tries: usize,
    filtered: bool,
    events: Seq<Event>,
)
    requires
        chunk.wf(),
        possible(fresh(chunk, max_tries, filtered), events),
    ensures
        searches(events) <= max_tries,
        passes_run(events) <= chunk.passes * max_tries,
{
    lemma_tallies(chunk, max_tries, filtered, events);
}

/// A chunk counts as encoded only once every pass has succeeded, and as taken from a probe only
/// where no pass was run.
pub proof fn done_means_every_pass_succeeded(
    chunk: Chunk,
    max_tries: usize,
    filtered: bool,
    events: Seq<Event>,
)
    requires
        chunk.wf(),
        possible(fresh(chunk, max_tries, filtered), events),
        max_tries > 0,
    ensures
        match after(fresh(chunk, max_tries, filtered), events).stage {
            Stage::Finished(Ok(Completion::Encoded)) => passes_done(events) == chunk.passes,
            Stage::Finished(Ok(Completion::Reused)) => passes_run(events) == 0,
            _ => true,
        },
{
    lemma_tallies(chunk, max_tries, filtered, events);
}

/// The encoder counts as failed only once one pass has failed at every try that it has.
pub proof fn encoder_fails_at_the_last_try(
    chunk: Chunk,
    max_tries: usize,
    filtered: bool,
    events: Seq<Event>,
)
    requires
        chunk.wf(),
        possible(fresh(chunk, max_tries, filtered), events),
    ensures
        match after(fresh(chunk, max_tries, filtered), events).stage {
            Stage::Finished(Err(ChunkError::EncoderFailed { tries, .. })) => tries == max_tries
                && failures_in_a_row(events) == max_tries,
            _ => true,
        },
{
    lemma_tallies(chunk, max_tries, filtered, events);
}

/// Work on a chunk changes nothing in it but the quality, and that only where a quality was missing.
pub proof fn only_a_missing_quality_is_filled_in(
    chunk: Chunk,
    max_tries: usize,
    filtered: bool,
    events: Seq<Event>,
)
    requires
        chunk.wf(),
        possible(fresh(chunk, max_tries, filtered), events),
    ensures
        ({
            let done = after(fresh(chunk, max_tries, filtered), events).chunk;
            &&& done == (Chunk { tq_cq: done.tq_cq, ..chunk })
            &&& !chunk.needs_probing() ==> done == chunk && searches(events) == 0
        }),
    decreases events.len(),
{
    lemma_tallies(chunk, max_tries, filtered, events);
    if events.len() > 0 {
        only_a_missing_quality_is_filled_in(chunk, max_tries, filtered, events.drop_last());
        lemma_tallies(chunk, max_tries, filtered, events.drop_last());
    }
}

/// The first request to terminate changes nothing about the work on a chunk.
pub proof fn first_request_lets_work_go_on(run: ChunkRun)
    ensures
        run.next(Event::Terminations(1)) == run.next(Event::Terminations(0)),
{
}

/// Once a second request to terminate is seen, the chunk is given up: no quality is searched for,
/// no pass is run and nothing is stored any more.
pub proof fn second_request_stops_work(run: ChunkRun, events: Seq<Event>, seen: int)
    requires
        possible(run, events),
        0 <= seen < events.len(),
        is_hard_shutdown(events[seen]),
    ensures
        is_lost(after(run, events)),
        forall|later: int|
            seen < later < events.len() ==> (#[trigger] events[later]) is Terminations,
    decreases events.len(),
{
    let before = after(run, events.drop_last());
    if seen < events.len() - 1 {
        second_request_stops_work(run, events.drop_last(), seen);
        assert forall|later: int| seen < later < events.len() implies (
        #[trigger] events[later]) is Terminations by {
            if later < events.len() - 1 {
                assert(events[later] == events.drop_last()[later]);
            }
        }
    }
    assert(before.stage.awaits(events.last()));
}

/// Where nothing goes wrong, the work does not end in an error.
pub proof fn friendly_work_succeeds(
    chunk: Chunk,
    max_tries: usize,
    filtered: bool,
    events: Seq<Event>,
)
    requires
        chunk.wf(),
        possible(fresh(chunk, max_tries, filtered), events),
        forall|i: int| 0 <= i < events.len() ==> is_friendly(#[trigger] events[i]),
    ensures
        !is_lost(after(fresh(chunk, max_tries, filtered), events)),
        !(after(fresh(chunk, max_tries, filtered), events).stage is ProbingFailed),
        !(after(fresh(chunk, max_tries, filtered), events).stage is RetractingFrames),
        !(after(fresh(chunk, max_tries, filtered), events).stage is EncodingFailed),
        !(after(fresh(chunk, max_tries, filtered), events).stage is Restarting),
    decreases events.len(),
{
    if events.len() > 0 {
        let front = events.drop_last();
        assert forall|i: int| 0 <= i < front.len() implies is_friendly(#[trigger] front[i]) by {
            assert(front[i] == events[i]);
        }
        friendly_work_succeeds(chunk, max_tries, filtered, front);
        assert(is_friendly(events[events.len() - 1]));
    }
}

/// Whether a probe is taken for the encode, or has been.
pub open spec fn is_reusing(stage: Stage) -> bool {
    match stage {
        Stage::ReusingProbe { .. } => true,
        Stage::CountingFrames => true,
        Stage::Measuring { completion } => completion == Completion::Reused,
        Stage::Recording { completion, .. } => completion == Completion::Reused,
        Stage::Saving { completion } => completion == Completion::Reused,
        Stage::Finished(Ok(completion)) => completion == Completion::Reused,
        _ => false,
    }
}

/// A probe is taken for the encode only where its frames were counted and fit the chunk, and where
/// it is as good as the encode.
pub proof fn reuse_needs_a_fitting_probe(
    chunk: Chunk,
    max_tries: usize,
    filtered: bool,
    events: Seq<Event>,
)
    requires
        chunk.wf(),
        possible(fresh(chunk, max_tries, filtered), events),
        is_reusing(after(fresh(chunk, max_tries, filtered), events).stage),
    ensures
        chunk.target_quality.params_copied,
        chunk.target_quality.probing_rate == 1,
        !filtered,
        !chunk.has_proxy,
        exists|at: int, frames: usize|
            0 <= at < events.len() && #[trigger] events[at] == Event::Inspected(
                Some(Ok::<usize, String>(frames)),
            ) && #[trigger] chunk.accepts_probe(frames as int),
    decreases events.len(),
{
    let run = fresh(chunk, max_tries, filtered);
    lemma_tallies(chunk, max_tries, filtered, events);
    let front = events.drop_last();
    lemma_tallies(chunk, max_tries, filtered, front);
    let before = after(run, front);
    if is_reusing(before.stage) {
        reuse_needs_a_fitting_probe(chunk, max_tries, filtered, front);
        let (at, frames) = choose|at: int, frames: usize|
            0 <= at < front.len() && #[trigger] front[at] == Event::Inspected(
                Some(Ok::<usize, String>(frames)),
            ) && #[trigger] chunk.accepts_probe(frames as int);
        assert(events[at] == front[at]);
    } else {
        let at = events.len() - 1;
        assert(before.stage is InspectingProbe);
        match events[at] {
            Event::Inspected(Some(Ok(frames))) => {
                assert(chunk.accepts_probe(frames as int));
            },
            _ => {},
        }
    }
}

/// Requests to terminate are never taken back, so a search that failed is reported as such only
/// after the last try.
pub proof fn search_fails_at_the_last_try(
    chunk: Chunk,
    max_tries: usize,
    filtered: bool,
    events: Seq<Event>,
)
    requires
        chunk.wf(),
        possible(fresh(chunk, max_tries, filtered), events),
        forall|i: int, j: int|
            0 <= i < j < events.len() && (#[trigger] events[i]) is Terminations && (
            #[trigger] events[j]) is Terminations ==> events[i]->Terminations_0
                <= events[j]->Terminations_0,
    ensures
        match after(fresh(chunk, max_tries, filtered), events).stage {
            Stage::Finished(Err(ChunkError::TargetQualityFailed { tries, .. })) => tries
                == max_tries && searches(events) == max_tries,
            _ => true,
        },
{
    let run = fresh(chunk, max_tries, filtered);
    if events.len() > 1 {
        let front = events.drop_last();
        let earlier = front.drop_last();
        assert(possible(run, front));
        lemma_tallies(chunk, max_tries, filtered, earlier);
        lemma_tallies(chunk, max_tries, filtered, front);
        assert(events[events.len() - 2] == front.last());
        assert(events[events.len() - 1] == events.last());
        assert(after(run, front) == after(run, earlier).next(front.last()));
    }
}

/// How many frames of failed passes the progress bar has shown.
pub open spec fn frames_shown_in_vain(events: Seq<Event>) -> nat
    decreases events.len(),
{
    if events.len() == 0 {
        0
    } else {
        frames_shown_in_vain(events.drop_last()) + match events.last() {
            Event::Encoded(Err(failure)) => failure.frames as nat,
            _ => 0,
        }
    }
}

/// How many frames were taken off the progress bar.
pub open spec fn frames_retracted(run: ChunkRun, events: Seq<Event>) -> nat
    decreases events.len(),
{
    if events.len() == 0 {
        0
    } else {
        frames_retracted(run, events.drop_last()) + match after(run, events.drop_last()).stage {
            Stage::RetractingFrames { failure, .. } => failure.frames as nat,
            _ => 0,
        }
    }
}

/// How many frames were put onto the progress bar at once.
pub open spec fn frames_added(run: ChunkRun, events: Seq<Event>) -> int
    decreases events.len(),
{
    if events.len() == 0 {
        0
    } else {
        frames_added(run, events.drop_last()) + if after(
            run,
            events.drop_last(),
        ).stage is CountingFrames {
            after(run, events.drop_last()).chunk.spec_frames()
        } else {
            0
        }
    }
}

/// What was noted of the chunk as done, whether or not the list was then saved.
pub open spec fn notes(run: ChunkRun, events: Seq<Event>) -> Seq<DoneChunk>
    decreases events.len(),
{
    if events.len() == 0 {
        Seq::empty()
    } else {
        let before = after(run, events.drop_last());
        match (before.stage, events.last()) {
            (Stage::Recording { size_bytes, .. }, Event::Recorded) => notes(
                run,
                events.drop_last(),
            ).push(before.noted(size_bytes)),
            _ => notes(run, events.drop_last()),
        }
    }
}

/// The frames that the progress bar has shown of a failed pass are taken off again, all of them and
/// no others, before anything else is done.
pub proof fn failed_passes_leave_no_frames(
    chunk: Chunk,
    max_tries: usize,
    filtered: bool,
    events: Seq<Event>,
)
    requires
        possible(fresh(chunk, max_tries, filtered), events),
    ensures
        frames_shown_in_vain(events) == frames_retracted(
            fresh(chunk, max_tries, filtered),
            events,
        ) + match after(fresh(chunk, max_tries, filtered), events).stage {
            Stage::RetractingFrames { failure, .. } => failure.frames as nat,
            _ => 0,
        },
    decreases events.len(),
{
    if events.len() > 0 {
        failed_passes_leave_no_frames(chunk, max_tries, filtered, events.drop_last());
    }
}

/// The frames of a chunk that is taken from a probe are put onto the progress bar once. Those of an
/// encoded chunk are not: the passes show them.
pub proof fn reused_frames_are_added_once(
    chunk: Chunk,
    max_tries: usize,
    filtered: bool,
    events: Seq<Event>,
)
    requires
        chunk.wf(),
        possible(fresh(chunk, max_tries, filtered), events),
    ensures
        ({
            let added = frames_added(fresh(chunk, max_tries, filtered), events);
            match after(fresh(chunk, max_tries, filtered), events).stage {
                Stage::Measuring { completion: Completion::Reused } => added == chunk.spec_frames(),
                Stage::Recording { completion: Completion::Reused, .. } => added
                    == chunk.spec_frames(),
                Stage::Saving { completion: Completion::Reused } => added == chunk.spec_frames(),
                Stage::Finished(Ok(Completion::Reused)) => added == chunk.spec_frames(),
                Stage::Finished(Err(_)) => added == 0 || added == chunk.spec_frames(),
                _ => added == 0,
            }
        }),
    decreases events.len(),
{
    if events.len() > 0 {
        reused_frames_are_added_once(chunk, max_tries, filtered, events.drop_last());
        lemma_tallies(chunk, max_tries, filtered, events.drop_last());
    }
}

/// Whether the chunk was noted as done once, with its number of frames and the size that was looked
/// up `back` events ago.
pub open spec fn is_noted_once(run: ChunkRun, events: Seq<Event>, back: int) -> bool {
    exists|size_bytes: u64|
        #![trigger after(run, events).noted(size_bytes)]
        notes(run, events) == seq![after(run, events).noted(size_bytes)] && events.len() >= back
            && events[events.len() - back] == Event::Measured(Ok::<u64, String>(size_bytes))
}

/// Where the work on a chunk succeeded, the chunk was noted as done once. Where it failed, the chunk
/// was noted as done only if what failed is that the list was saved: then it stays noted, once, though
/// the work counts as failed.
pub proof fn chunk_is_noted_once(
    chunk: Chunk,
    max_tries: usize,
    filtered: bool,
    events: Seq<Event>,
)
    requires
        chunk.wf(),
        possible(fresh(chunk, max_tries, filtered), events),
    ensures
        ({
            let run = fresh(chunk, max_tries, filtered);
            match after(run, events).stage {
                Stage::Saving { .. } => is_noted_once(run, events, 2),
                Stage::Finished(Ok(_)) => events.last() is Saved && is_noted_once(run, events, 3),
                Stage::Finished(Err(error)) => if events.last() is Saved {
                    error is NotStored && is_noted_once(run, events, 3)
                } else {
                    notes(run, events).len() == 0
                },
                _ => notes(run, events).len() == 0,
            }
        }),
        after(fresh(chunk, max_tries, filtered), events).chunk.spec_frames() == chunk.spec_frames(),
    decreases events.len(),
{
    let run = fresh(chunk, max_tries, filtered);
    lemma_tallies(chunk, max_tries, filtered, events);
    if events.len() > 0 {
        let front = events.drop_last();
        chunk_is_noted_once(chunk, max_tries, filtered, front);
        lemma_tallies(chunk, max_tries, filtered, front);
        let before = after(run, front);
        match before.stage {
            Stage::Recording { size_bytes, .. } => {
                lemma_recording_follows_measuring(chunk, max_tries, filtered, front);
                assert(notes(run, front) =~= Seq::empty());
                assert(after(run, events).noted(size_bytes) == before.noted(size_bytes));
                assert(notes(run, events) =~= seq![after(run, events).noted(size_bytes)]);
                assert(events[events.len() - 2] == front.last());
                assert(is_noted_once(run, events, 2));
            },
            Stage::Saving { .. } => {
                let size_bytes = choose|size_bytes: u64|
                    #![trigger before.noted(size_bytes)]
                    notes(run, front) == seq![before.noted(size_bytes)] && front.len() >= 2
                        && front[front.len() - 2] == Event::Measured(Ok::<u64, String>(size_bytes));
                assert(after(run, events).noted(size_bytes) == before.noted(size_bytes));
                assert(notes(run, events) == notes(run, front));
                assert(events[events.len() - 3] == front[front.len() - 2]);
                assert(is_noted_once(run, events, 3));
            },
            _ => {},
        }
    }
}

proof fn lemma_recording_follows_measuring(
    chunk: Chunk,
    max_tries: usize,
    filtered: bool,
    events: Seq<Event>,
)
    requires
        possible(fresh(chunk, max_tries, filtered), events),
        after(fresh(chunk, max_tries, filtered), events).stage is Recording,
    ensures
        events.len() >= 1,
        events.last() == Event::Measured(
            Ok::<u64, String>(
                after(fresh(chunk, max_tries, filtered), events).stage->Recording_size_bytes,
            ),
        ),
{
}

} // verus!
