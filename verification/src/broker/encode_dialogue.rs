//! What is asked for while a chunk is worked on, and when: laws over what is handed out and what comes
//! back, and over nothing that lies between.

use crate::broker::chunk::Chunk;
use crate::broker::encode::{fresh, Action, ChunkRun, Completion, Event, ProbeFault, Stage};
use crate::broker::encode_laws::{
    after, every_step_counts_down, failures_in_a_row, passes_done, possible, searches,
};
use vstd::prelude::*;

verus! {

/// Whether `event` is an answer to `action`.
pub open spec fn answers(action: Action, event: Event) -> bool {
    match action {
        Action::Probe => event is Probed,
        Action::ReadTerminations => event is Terminations,
        Action::InspectProbe { .. } => event is Inspected,
        Action::DiscardProbe { .. } => event is Discarded,
        Action::ReuseProbe { .. } => event is Copied,
        Action::AddFrames { .. } => event is Shown,
        Action::RetractFrames { .. } => event is Shown,
        Action::Encode { .. } => event is Encoded,
        Action::Warn { .. } => event is Warned,
        Action::Measure { .. } => event is Measured,
        Action::Record { .. } => event is Recorded,
        Action::Save => event is Saved,
        Action::Stop { .. } => false,
    }
}

/// Whether `actions` are what is handed out one after the other, where `events` are the answers to all
/// of them but the last.
pub open spec fn is_dialogue(run: ChunkRun, actions: Seq<Action>, events: Seq<Event>) -> bool
    decreases events.len(),
{
    &&& actions.len() == events.len() + 1
    &&& after(run, events).asks(actions.last())
    &&& events.len() > 0 ==> is_dialogue(run, actions.drop_last(), events.drop_last()) && answers(
        actions[events.len() - 1],
        events.last(),
    )
}

/// An answer to what is asked for is what is waited for, and nothing else is.
pub proof fn answers_are_waited_for(run: ChunkRun, action: Action, event: Event)
    requires
        run.asks(action),
    ensures
        run.stage.awaits(event) <==> answers(action, event),
{
}

proof fn lemma_dialogue_is_possible(run: ChunkRun, actions: Seq<Action>, events: Seq<Event>)
    requires
        is_dialogue(run, actions, events),
    ensures
        possible(run, events),
    decreases events.len(),
{
    reveal_with_fuel(is_dialogue, 2);
    if events.len() > 0 {
        lemma_dialogue_is_possible(run, actions.drop_last(), events.drop_last());
        answers_are_waited_for(
            after(run, events.drop_last()),
            actions.drop_last().last(),
            events.last(),
        );
    }
}

/// The quality of the chunk once `events` have happened: the one that was found, or else the one that
/// it had.
pub open spec fn known_quality(chunk: Chunk, events: Seq<Event>) -> Option<u32>
    decreases events.len(),
{
    if events.len() == 0 {
        chunk.tq_cq
    } else {
        match events.last() {
            Event::Probed(Ok(quality)) => Some(quality),
            _ => known_quality(chunk, events.drop_last()),
        }
    }
}

/// The event `back` events ago.
pub open spec fn recent(events: Seq<Event>, back: int) -> Option<Event> {
    if 0 <= back < events.len() {
        Some(events[events.len() - 1 - back])
    } else {
        None
    }
}

/// Whether the event `back` events ago ended the search for a quality with success, or there was none:
/// none was searched for.
spec fn is_settled(events: Seq<Event>, back: int) -> bool {
    match recent(events, back) {
        None => true,
        Some(event) => event matches Event::Probed(Ok(_)),
    }
}

/// Whether the event `back` events ago is a count of requests that lets the work go on.
spec fn lets_go_on(events: Seq<Event>, back: int) -> bool {
    recent(events, back) matches Some(Event::Terminations(count)) && count < 2
}

/// Whether no pass has been run yet.
spec fn is_before_passes(stage: Stage) -> bool {
    match stage {
        Stage::Probing { .. } => true,
        Stage::ProbingFailed { .. } => true,
        Stage::Finalizing => true,
        Stage::InspectingProbe { .. } => true,
        Stage::DiscardingProbe { .. } => true,
        Stage::Starting => true,
        _ => false,
    }
}

/// How the stage follows from what has happened last.
spec fn recalls(chunk: Chunk, max_tries: usize, filtered: bool, run: ChunkRun, events: Seq<Event>) -> bool {
    &&& run.wf()
    &&& run.max_tries == max_tries
    &&& run.filtered == filtered
    &&& run.chunk == (Chunk { tq_cq: known_quality(chunk, events), ..chunk })
    &&& is_before_passes(run.stage) ==> passes_done(events) == 0 && failures_in_a_row(events) == 0
    &&& match run.stage {
        Stage::Probing { attempt } => searches(events) == attempt - 1 && (events.len() == 0
            || lets_go_on(events, 0) && recent(events, 1) matches Some(Event::Probed(Err(_)))),
        Stage::ProbingFailed { attempt, message } => searches(events) == attempt && recent(events, 0)
            == Some(Event::Probed(Err::<u32, String>(message))),
        Stage::ProbingGivenUp { attempt, message } => searches(events) == attempt && recent(events, 1)
            == Some(Event::Probed(Err::<u32, String>(message))) && (recent(
            events,
            0,
        ) matches Some(Event::Terminations(count)) && (count >= 2 || attempt == max_tries)),
        Stage::Finalizing => chunk.target_quality.target is Some && is_settled(events, 0),
        Stage::InspectingProbe { .. } => chunk.target_quality.target is Some && lets_go_on(events, 0)
            && is_settled(events, 1),
        Stage::DiscardingProbe { fault: ProbeFault::Unreadable { message }, .. } => recent(events, 0)
            == Some(Event::Inspected(Some(Err::<usize, String>(message)))),
        Stage::DiscardingProbe { fault: ProbeFault::Mismatch(mismatch), .. } => recent(events, 0)
            == Some(Event::Inspected(Some(Ok::<usize, String>(mismatch.actual))))
            && mismatch.expected == chunk.end_frame - chunk.start_frame,
        Stage::ReusingProbe { .. } => recent(events, 0) matches Some(Event::Inspected(Some(Ok(_)))),
        Stage::CountingFrames => recent(events, 0) matches Some(Event::Copied(Ok(_))),
        Stage::Starting => {
            ||| chunk.target_quality.target is None && events.len() == 0
            ||| recent(events, 0) matches Some(Event::Inspected(None))
            ||| recent(events, 0) matches Some(Event::Discarded)
            ||| chunk.target_quality.target is Some && lets_go_on(events, 0) && is_settled(events, 1)
        },
        Stage::Encoding { pass, attempt } => passes_done(events) == pass - 1 && failures_in_a_row(
            events,
        ) == attempt - 1 && {
            ||| lets_go_on(events, 0)
            ||| recent(events, 0) matches Some(Event::Encoded(Ok(_)))
            ||| recent(events, 0) matches Some(Event::Warned)
        },
        Stage::RetractingFrames { pass, attempt, failure } => passes_done(events) == pass - 1
            && failures_in_a_row(events) == attempt && recent(events, 0) == Some(
            Event::Encoded(Err(failure)),
        ),
        Stage::EncodingFailed { pass, attempt, message } => passes_done(events) == pass - 1
            && failures_in_a_row(events) == attempt && recent(events, 0) == Some(Event::Shown) && (
        recent(events, 1) matches Some(Event::Encoded(Err(failure))) && failure.message == message),
        Stage::Restarting { pass, attempt, message } => passes_done(events) == pass - 1
            && failures_in_a_row(events) == attempt && lets_go_on(events, 0) && recent(events, 1)
            == Some(Event::Shown) && (recent(events, 2) matches Some(Event::Encoded(Err(failure)))
            && failure.message == message),
        Stage::Measuring { completion: Completion::Reused } => recent(events, 0) == Some(Event::Shown)
            && recent(events, 1) matches Some(Event::Copied(Ok(_))),
        Stage::Measuring { completion: Completion::Encoded } => {
            &&& max_tries > 0 ==> passes_done(events) == chunk.passes
            &&& lets_go_on(events, 0) || recent(events, 0) matches Some(Event::Encoded(Ok(_)))
        },
        Stage::Recording { completion, size_bytes } => recent(events, 0) == Some(
            Event::Measured(Ok::<u64, String>(size_bytes)),
        ) && (completion == Completion::Reused <==> recent(events, 1) == Some(Event::Shown)),
        Stage::Saving { completion } => recent(events, 0) == Some(Event::Recorded) && (completion
            == Completion::Reused <==> recent(events, 2) == Some(Event::Shown)),
        Stage::Finished(Ok(completion)) => recent(events, 0) matches Some(Event::Saved(Ok(_))) && (
        completion == Completion::Reused <==> recent(events, 3) == Some(Event::Shown)),
        Stage::Finished(Err(_)) => true,
    }
}

#[verifier::spinoff_prover]
#[verifier::rlimit(40)]
proof fn lemma_recalls(chunk: Chunk, max_tries: usize, filtered: bool, events: Seq<Event>)
    requires
        chunk.wf(),
        possible(fresh(chunk, max_tries, filtered), events),
    ensures
        recalls(
            chunk,
            max_tries,
            filtered,
            after(fresh(chunk, max_tries, filtered), events),
            events,
        ),
    decreases events.len(),
{
    let run = fresh(chunk, max_tries, filtered);
    if events.len() > 0 {
        let front = events.drop_last();
        lemma_recalls(chunk, max_tries, filtered, front);
        let before = after(run, front);
        every_step_counts_down(before, events.last());
        assert(recent(events, 0) == Some(events.last()));
        assert(recent(events, 1) == recent(front, 0));
        assert(recent(events, 2) == recent(front, 1));
        assert(recent(events, 3) == recent(front, 2));
    }
}

proof fn lemma_dialogue(
    chunk: Chunk,
    max_tries: usize,
    filtered: bool,
    actions: Seq<Action>,
    events: Seq<Event>,
)
    requires
        chunk.wf(),
        is_dialogue(fresh(chunk, max_tries, filtered), actions, events),
    ensures
        possible(fresh(chunk, max_tries, filtered), events),
        recalls(
            chunk,
            max_tries,
            filtered,
            after(fresh(chunk, max_tries, filtered), events),
            events,
        ),
        after(fresh(chunk, max_tries, filtered), events).asks(actions.last()),
        events.len() > 0 ==> {
            let front = after(fresh(chunk, max_tries, filtered), events.drop_last());
            &&& recalls(chunk, max_tries, filtered, front, events.drop_last())
            &&& front.stage.awaits(events.last())
            &&& front.asks(actions[events.len() - 1])
            &&& after(fresh(chunk, max_tries, filtered), events) == front.next(events.last())
            &&& recent(events, 0) == Some(events.last())
            &&& recent(events, 1) == recent(events.drop_last(), 0)
            &&& recent(events, 2) == recent(events.drop_last(), 1)
        },
{
    let run = fresh(chunk, max_tries, filtered);
    lemma_dialogue_is_possible(run, actions, events);
    lemma_recalls(chunk, max_tries, filtered, events);
    if events.len() > 0 {
        lemma_recalls(chunk, max_tries, filtered, events.drop_last());
        reveal_with_fuel(is_dialogue, 2);
    }
}

/// The pass that is asked for is always the one behind those that have succeeded, on the first try and
/// on every later one, and never one that the chunk does not have. It is asked for only while it has
/// failed fewer times in a row than it may.
pub proof fn passes_are_asked_for_in_order(
    chunk: Chunk,
    max_tries: usize,
    filtered: bool,
    actions: Seq<Action>,
    events: Seq<Event>,
)
    requires
        chunk.wf(),
        is_dialogue(fresh(chunk, max_tries, filtered), actions, events),
        actions.last() is Encode,
    ensures
        actions.last()->pass == passes_done(events) + 1,
        1 <= actions.last()->pass <= chunk.passes,
        failures_in_a_row(events) < max_tries,
{
    lemma_dialogue(chunk, max_tries, filtered, actions, events);
}

/// The passes that have succeeded, in the order in which they were asked for.
pub open spec fn succeeded(actions: Seq<Action>, events: Seq<Event>) -> Seq<u8>
    decreases events.len(),
{
    if events.len() == 0 {
        Seq::empty()
    } else {
        let front = succeeded(actions.drop_last(), events.drop_last());
        match (actions[events.len() - 1], events.last()) {
            (Action::Encode { pass }, Event::Encoded(Ok(_))) => front.push(pass),
            _ => front,
        }
    }
}

proof fn lemma_succeeded(
    chunk: Chunk,
    max_tries: usize,
    filtered: bool,
    actions: Seq<Action>,
    events: Seq<Event>,
)
    requires
        chunk.wf(),
        is_dialogue(fresh(chunk, max_tries, filtered), actions, events),
    ensures
        succeeded(actions, events).len() == passes_done(events),
        forall|i: int|
            0 <= i < succeeded(actions, events).len() ==> #[trigger] succeeded(actions, events)[i] == i
                + 1,
    decreases events.len(),
{
    if events.len() > 0 {
        let front = actions.drop_last();
        lemma_dialogue(chunk, max_tries, filtered, actions, events);
        assert(is_dialogue(fresh(chunk, max_tries, filtered), front, events.drop_last()));
        lemma_succeeded(chunk, max_tries, filtered, front, events.drop_last());
        assert(front.last() == actions[events.len() - 1]);
        if front.last() is Encode {
            passes_are_asked_for_in_order(
                chunk,
                max_tries,
                filtered,
                front,
                events.drop_last(),
            );
        }
    }
}

/// Where a chunk counts as encoded, the passes that succeeded are the first, the second and so on up to
/// the last, each once and in this order.
pub proof fn encoded_means_all_passes_in_order(
    chunk: Chunk,
    max_tries: usize,
    filtered: bool,
    actions: Seq<Action>,
    events: Seq<Event>,
)
    requires
        chunk.wf(),
        max_tries > 0,
        is_dialogue(fresh(chunk, max_tries, filtered), actions, events),
        actions.last() == (Action::Measure { completion: Completion::Encoded }),
    ensures
        succeeded(actions, events) == Seq::new(chunk.passes as nat, |i: int| (i + 1) as u8),
{
    lemma_dialogue(chunk, max_tries, filtered, actions, events);
    lemma_succeeded(chunk, max_tries, filtered, actions, events);
    assert(succeeded(actions, events) =~= Seq::new(chunk.passes as nat, |i: int| (i + 1) as u8));
}

/// A pass that succeeded leads to the next one, and the last one to the end of the encode. A pass that
/// failed has its frames taken off the progress bar, whereupon the requests to terminate are looked at.
pub proof fn pass_leads_on(
    chunk: Chunk,
    max_tries: usize,
    filtered: bool,
    actions: Seq<Action>,
    events: Seq<Event>,
)
    requires
        chunk.wf(),
        is_dialogue(fresh(chunk, max_tries, filtered), actions, events),
        events.len() > 0,
    ensures
        events.last() matches Event::Encoded(Ok(_)) ==> actions.last() == (if passes_done(events)
            < chunk.passes {
            Action::Encode { pass: (passes_done(events) + 1) as u8 }
        } else {
            Action::Measure { completion: Completion::Encoded }
        }),
        events.last() matches Event::Encoded(Err(failure)) ==> actions.last() == (
        Action::RetractFrames { frames: failure.frames }),
        events.last() is Shown && (recent(events, 1) matches Some(Event::Encoded(Err(_))))
            ==> actions.last() is ReadTerminations,
        events.last() is Warned ==> actions.last() is Encode,
{
    lemma_dialogue(chunk, max_tries, filtered, actions, events);
}

/// What follows a failed pass, once the requests to terminate are known: a second request ends the work;
/// without one the pass is run again, after a warning, until it has failed as often in a row as it may,
/// which ends the work.
pub proof fn failed_pass_is_repeated_or_given_up(
    chunk: Chunk,
    max_tries: usize,
    filtered: bool,
    actions: Seq<Action>,
    events: Seq<Event>,
    count: u8,
)
    requires
        chunk.wf(),
        is_dialogue(fresh(chunk, max_tries, filtered), actions, events),
        recent(events, 0) == Some(Event::Terminations(count)),
        recent(events, 1) == Some(Event::Shown),
        recent(events, 2) matches Some(Event::Encoded(Err(_))),
    ensures
        ({
            let message = recent(events, 2)->0->Encoded_0->Err_0.message@;
            let index = crate::decimal::decimal(chunk.index as nat);
            if count >= 2 {
                actions.last() matches Action::Stop { error: Some(text) } && text@
                    == "Termination requested after Worker restart. Skipping chunk "@ + index
            } else if failures_in_a_row(events) < max_tries {
                actions.last() matches Action::Warn { warning } && warning@
                    == "Encoder failed (on chunk "@ + index + "):\n"@ + message
            } else {
                actions.last() matches Action::Stop { error: Some(text) } && text@ == "[chunk "@ + index
                    + "] encoder failed "@ + crate::decimal::decimal(max_tries as nat)
                    + " times, shutting down worker: "@ + message
            }
        }),
{
    lemma_dialogue(chunk, max_tries, filtered, actions, events);
}

/// The work begins with a search for a quality exactly where one is asked for and none is known, and
/// there are tries; else with a look at the requests to terminate.
pub proof fn work_begins_with_the_search(
    chunk: Chunk,
    max_tries: usize,
    filtered: bool,
    actions: Seq<Action>,
)
    requires
        chunk.wf(),
        is_dialogue(fresh(chunk, max_tries, filtered), actions, Seq::empty()),
    ensures
        actions.last() == (if chunk.target_quality.target is Some && chunk.tq_cq is None && max_tries
            > 0 {
            Action::Probe
        } else {
            Action::ReadTerminations
        }),
{
    lemma_dialogue(chunk, max_tries, filtered, actions, Seq::empty());
}

/// What follows a search that failed: it is made again while there are tries and no second request came;
/// else the requests are looked at once more, and the work ends with what is said then.
pub proof fn failed_search_is_repeated_or_given_up(
    chunk: Chunk,
    max_tries: usize,
    filtered: bool,
    actions: Seq<Action>,
    events: Seq<Event>,
    count: u8,
)
    requires
        chunk.wf(),
        is_dialogue(fresh(chunk, max_tries, filtered), actions, events),
        recent(events, 0) == Some(Event::Terminations(count)),
    ensures
        recent(events, 1) matches Some(Event::Probed(Err(_))) ==> actions.last() == (if count < 2
            && searches(events) < max_tries {
            Action::Probe
        } else {
            Action::ReadTerminations
        }),
        recent(events, 1) is Some && recent(events, 1)->0 is Terminations && (recent(
            events,
            2,
        ) matches Some(Event::Probed(Err(_)))) ==> {
            let index = crate::decimal::decimal(chunk.index as nat);
            let message = recent(events, 2)->0->Probed_0->Err_0@;
            actions.last() matches Action::Stop { error: Some(text) } && text@ == if count >= 2 {
                "Hard shutdown requested during Target Quality. Skipping chunk "@ + index
            } else {
                "Target Quality failed after "@ + crate::decimal::decimal(searches(events))
                    + " tries on chunk "@ + index + ":\n"@ + message
            }
        },
{
    lemma_dialogue(chunk, max_tries, filtered, actions, events);
}

/// Once a quality is settled, where one was asked for: a second request ends the work. Without one, the
/// probe with that quality is looked for exactly where it was made with the parameters of the encode, of
/// every frame, without filters and without a proxy; else the work goes on to the passes.
pub proof fn settled_quality_leads_to_its_probe(
    chunk: Chunk,
    max_tries: usize,
    filtered: bool,
    actions: Seq<Action>,
    events: Seq<Event>,
    count: u8,
)
    requires
        chunk.wf(),
        chunk.target_quality.target is Some,
        is_dialogue(fresh(chunk, max_tries, filtered), actions, events),
        recent(events, 0) == Some(Event::Terminations(count)),
        recent(events, 1) is None || recent(events, 1) matches Some(Event::Probed(Ok(_))),
    ensures
        if count >= 2 {
            actions.last() matches Action::Stop { error: Some(text) } && text@
                == "Hard shutdown requested during Target Quality. Skipping chunk "@
                + crate::decimal::decimal(chunk.index as nat)
        } else if chunk.target_quality.params_copied && chunk.target_quality.probing_rate == 1
            && !filtered && !chunk.has_proxy && known_quality(chunk, events) is Some {
            actions.last() == (Action::InspectProbe { quality: known_quality(chunk, events)->0 })
        } else {
            actions.last() is ReadTerminations
        },
{
    lemma_dialogue(chunk, max_tries, filtered, actions, events);
}

/// A probe that was looked for is the one with the settled quality. It is taken for the encode where it
/// has the frames of the chunk, or need not have them; else it is thrown away, with a warning that says
/// why. Where there is none, the work goes on.
pub proof fn probe_is_reused_or_thrown_away(
    chunk: Chunk,
    max_tries: usize,
    filtered: bool,
    actions: Seq<Action>,
    events: Seq<Event>,
)
    requires
        chunk.wf(),
        is_dialogue(fresh(chunk, max_tries, filtered), actions, events),
        events.len() > 0,
        events.last() is Inspected,
    ensures
        known_quality(chunk, events) is Some,
        ({
            let known = known_quality(chunk, events)->0;
            let warned = "Selected Target Quality probe for chunk "@ + crate::decimal::decimal(
                chunk.index as nat,
            ) + " is invalid; removing it and falling back to final encoding: "@;
            match events.last()->Inspected_0 {
                None => actions.last() is ReadTerminations,
                Some(Err(message)) => actions.last() matches Action::DiscardProbe { quality, warning }
                    && quality == known && warning@ == warned + message@,
                Some(Ok(frames)) => if chunk.ignore_frame_mismatch || chunk.start_frame + frames
                    == chunk.end_frame {
                    actions.last() == (Action::ReuseProbe { quality: known })
                } else {
                    actions.last() matches Action::DiscardProbe { quality, warning } && quality == known
                        && warning@ == warned + ("expected "@ + crate::decimal::decimal(
                        (chunk.end_frame - chunk.start_frame) as nat,
                    ) + " frames, got "@ + crate::decimal::decimal(frames as nat))
                },
            }
        }),
{
    lemma_dialogue(chunk, max_tries, filtered, actions, events);
}

/// Before the first pass the requests to terminate are looked at: a second one ends the work, and without
/// one the first pass is run. Where there is no pass, or no try, the encode counts as ended.
pub proof fn first_pass_follows(
    chunk: Chunk,
    max_tries: usize,
    filtered: bool,
    actions: Seq<Action>,
    events: Seq<Event>,
    count: u8,
)
    requires
        chunk.wf(),
        is_dialogue(fresh(chunk, max_tries, filtered), actions, events),
        recent(events, 0) == Some(Event::Terminations(count)),
        ({
            ||| recent(events, 1) is None && chunk.target_quality.target is None
            ||| recent(events, 1) matches Some(Event::Inspected(_))
            ||| recent(events, 1) == Some(Event::Discarded)
            ||| recent(events, 1) matches Some(Event::Terminations(_)) && (recent(events, 2) is None
                || recent(events, 2) matches Some(Event::Probed(Ok(_))))
        }),
    ensures
        if count >= 2 {
            actions.last() matches Action::Stop { error: Some(text) } && text@
                == "Hard shutdown requested after Target Quality. Skipping chunk "@
                + crate::decimal::decimal(chunk.index as nat)
        } else {
            actions.last() == (if chunk.passes > 0 && max_tries > 0 {
                Action::Encode { pass: 1 }
            } else {
                Action::Measure { completion: Completion::Encoded }
            })
        },
{
    lemma_dialogue(chunk, max_tries, filtered, actions, events);
}

/// What follows a probe that is taken for the encode, and what ends the work: the frames of the chunk are
/// put onto the progress bar, the size of the encode is looked up, the chunk is noted as done with its
/// frames and that size, and the list is saved. What fails ends the work with what was said of it, and
/// once the list is saved the work has succeeded.
pub proof fn encode_is_stored_step_by_step(
    chunk: Chunk,
    max_tries: usize,
    filtered: bool,
    actions: Seq<Action>,
    events: Seq<Event>,
)
    requires
        chunk.wf(),
        is_dialogue(fresh(chunk, max_tries, filtered), actions, events),
        events.len() > 0,
    ensures
        match events.last() {
            Event::Copied(Ok(_)) => actions.last() matches Action::AddFrames { frames }
                && chunk.start_frame + frames == chunk.end_frame,
            Event::Copied(Err(message)) => is_stop_with(actions.last(), message),
            Event::Measured(Ok(size_bytes)) => actions.last() matches Action::Record { done }
                && chunk.start_frame + done.frames == chunk.end_frame && done.size_bytes == size_bytes,
            Event::Measured(Err(message)) => is_stop_with(actions.last(), message),
            Event::Recorded => actions.last() is Save,
            Event::Saved(Ok(_)) => actions.last() == (Action::Stop { error: None }),
            Event::Saved(Err(message)) => is_stop_with(actions.last(), message),
            Event::Probed(_) => actions.last() is ReadTerminations,
            Event::Discarded => actions.last() is ReadTerminations,
            _ => true,
        },
        events.last() is Shown && (recent(events, 1) matches Some(Event::Copied(Ok(_))))
            ==> actions.last() == (Action::Measure { completion: Completion::Reused }),
        actions.last() matches Action::Measure { completion: Completion::Reused } ==> events.last() is Shown
            && recent(events, 1) matches Some(Event::Copied(Ok(_))),
        actions.last() == (Action::Stop { error: None }) ==> events.last() matches Event::Saved(Ok(_)),
{
    lemma_dialogue(chunk, max_tries, filtered, actions, events);
}

/// Whether the work ends, and `message` is said.
pub open spec fn is_stop_with(action: Action, message: String) -> bool {
    action matches Action::Stop { error: Some(text) } && text@ == message@
}

/// Whatever happens, the chunk stays the same but for the quality, which is the one that was found where
/// one was. Once the work has succeeded, the chunk counts as reused exactly where its size was looked up
/// directly after its frames were put onto the progress bar, that is where a probe was taken for the
/// encode.
pub proof fn chunk_stays_the_same(
    chunk: Chunk,
    max_tries: usize,
    filtered: bool,
    actions: Seq<Action>,
    events: Seq<Event>,
)
    requires
        chunk.wf(),
        is_dialogue(fresh(chunk, max_tries, filtered), actions, events),
    ensures
        after(fresh(chunk, max_tries, filtered), events).chunk == (Chunk {
            tq_cq: known_quality(chunk, events),
            ..chunk
        }),
        after(fresh(chunk, max_tries, filtered), events).stage matches Stage::Finished(Ok(completion))
            ==> (completion == Completion::Reused <==> recent(events, 3) == Some(Event::Shown)),
        after(fresh(chunk, max_tries, filtered), events).stage matches Stage::Finished(Ok(_))
            <==> actions.last() == (Action::Stop { error: None }),
{
    lemma_dialogue(chunk, max_tries, filtered, actions, events);
}

} // verus!
