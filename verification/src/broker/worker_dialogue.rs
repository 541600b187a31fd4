//! What a worker is asked to do, put beside what it was told.

use crate::broker::chunk::Chunk;
use crate::broker::worker::{Worker, WorkerAction, WorkerEvent};
use crate::broker::worker_laws::{
    all_received, is_flawless, is_undisturbed, received, worker_after, worker_possible,
};
use vstd::prelude::*;

verus! {

/// Whether `event` is an answer to `action`.
pub open spec fn answers_worker(action: WorkerAction, event: WorkerEvent) -> bool {
    match action {
        WorkerAction::Receive => event is Received,
        WorkerAction::ReadTerminations => event is Terminations,
        WorkerAction::Encode { .. } => event is Encoded,
        WorkerAction::Report { .. } => event is Reported,
        WorkerAction::Stop { .. } => false,
    }
}

/// Whether a worker asks for `actions` one by one, and `events` answer all of them but the last.
pub open spec fn is_worker_dialogue(actions: Seq<WorkerAction>, events: Seq<WorkerEvent>) -> bool
    decreases events.len(),
{
    &&& actions.len() == events.len() + 1
    &&& worker_after(events).asks(actions.last())
    &&& events.len() > 0 ==> {
        &&& is_worker_dialogue(actions.drop_last(), events.drop_last())
        &&& answers_worker(actions[events.len() - 1], events.last())
    }
}

/// What a worker waits for is what answers the action that it asks for.
pub proof fn worker_waits_for_answers(worker: Worker, action: WorkerAction, event: WorkerEvent)
    requires
        worker.asks(action),
    ensures
        worker.awaits(event) <==> answers_worker(action, event),
{
}

proof fn lemma_dialogue(actions: Seq<WorkerAction>, events: Seq<WorkerEvent>)
    requires
        is_worker_dialogue(actions, events),
    ensures
        worker_possible(events),
        match worker_after(events) {
            Worker::Receiving => events.len() == 0 || events.last() matches WorkerEvent::Encoded(Ok(_))
                || events.last() is Terminations,
            Worker::Deciding { chunk } => events.len() > 0 && events.last() == WorkerEvent::Received(
                Some(chunk),
            ) && received(events).len() > 0 && chunk == received(events).last(),
            Worker::Encoding { chunk } => events.len() > 0 && events.last()
                == WorkerEvent::Terminations(0) && received(events).len() > 0 && chunk == received(
                events,
            ).last(),
            Worker::Reporting { index, message } => events.len() > 0 && events.last()
                == WorkerEvent::Encoded(Err(message)) && received(events).len() > 0 && index == received(
                events,
            ).last().index,
            Worker::Stopped { failed } => events.len() > 0 && if failed {
                events.last() is Reported
            } else {
                events.last() == WorkerEvent::Received(None)
            },
        },
    decreases events.len(),
{
    reveal_with_fuel(is_worker_dialogue, 2);
    if events.len() > 0 {
        lemma_dialogue(actions.drop_last(), events.drop_last());
        worker_waits_for_answers(
            worker_after(events.drop_last()),
            actions.drop_last().last(),
            events.last(),
        );
    }
}

/// A worker asks for a chunk first, and again after each one that was encoded or that it may not start
/// with. A chunk that came is asked to be encoded, as it came, once it is known that nobody asked to
/// terminate. A failure is reported with the number of the chunk that came last, and the worker stops
/// behind the report, or where no chunk is left.
pub proof fn worker_does_what_it_was_told(actions: Seq<WorkerAction>, events: Seq<WorkerEvent>)
    requires
        is_worker_dialogue(actions, events),
    ensures
        events.len() == 0 ==> actions.last() is Receive,
        events.len() > 0 ==> match events.last() {
            WorkerEvent::Received(Some(chunk)) => actions.last() is ReadTerminations,
            WorkerEvent::Received(None) => actions.last() == (WorkerAction::Stop { failed: false }),
            WorkerEvent::Terminations(count) => if count == 0 {
                actions.last() == (WorkerAction::Encode { chunk: received(events).last() })
            } else {
                actions.last() is Receive
            },
            WorkerEvent::Encoded(Ok(_)) => actions.last() is Receive,
            WorkerEvent::Encoded(Err(message)) => actions.last() matches WorkerAction::Report { error }
                && error@ == "[chunk "@ + crate::decimal::decimal(received(events).last().index as nat)
                + "] "@ + message@,
            WorkerEvent::Reported => actions.last() == (WorkerAction::Stop { failed: true }),
        },
        actions.last() matches WorkerAction::Encode { chunk } ==> {
            &&& events.len() > 0
            &&& events.last() == WorkerEvent::Terminations(0)
            &&& received(events).len() > 0
            &&& chunk == received(events).last()
        },
{
    reveal_with_fuel(is_worker_dialogue, 2);
    lemma_dialogue(actions, events);
    if events.len() > 0 {
        lemma_dialogue(actions.drop_last(), events.drop_last());
        worker_waits_for_answers(
            worker_after(events.drop_last()),
            actions.drop_last().last(),
            events.last(),
        );
    }
}

/// The chunks that were asked to be encoded, in order.
pub open spec fn handed_out(actions: Seq<WorkerAction>) -> Seq<Chunk>
    decreases actions.len(),
{
    if actions.len() == 0 {
        Seq::empty()
    } else {
        match actions.last() {
            WorkerAction::Encode { chunk } => handed_out(actions.drop_last()).push(chunk),
            _ => handed_out(actions.drop_last()),
        }
    }
}

/// The chunks that were asked to be encoded and were, in order.
pub open spec fn encoded(actions: Seq<WorkerAction>, events: Seq<WorkerEvent>) -> Seq<Chunk>
    decreases events.len(),
{
    if events.len() == 0 {
        Seq::empty()
    } else {
        let front = encoded(actions.drop_last(), events.drop_last());
        match (actions[events.len() - 1], events.last()) {
            (WorkerAction::Encode { chunk }, WorkerEvent::Encoded(Ok(_))) => front.push(chunk),
            _ => front,
        }
    }
}

/// Without any request to terminate a worker asks for every chunk that came to be encoded, in all its
/// fields as it came, once and in order; the last one as soon as it is known that nobody asked.
pub proof fn undisturbed_worker_hands_out_every_chunk(
    actions: Seq<WorkerAction>,
    events: Seq<WorkerEvent>,
)
    requires
        is_worker_dialogue(actions, events),
        is_undisturbed(events),
    ensures
        received(events) == if actions.last() is ReadTerminations {
            handed_out(actions).push(received(events).last())
        } else {
            handed_out(actions)
        },
    decreases events.len(),
{
    worker_does_what_it_was_told(actions, events);
    if events.len() > 0 {
        let front = events.drop_last();
        assert forall|i: int| 0 <= i < front.len() && (
        #[trigger] front[i]) is Terminations implies front[i]->Terminations_0 == 0 by {
            assert(front[i] == events[i]);
        }
        undisturbed_worker_hands_out_every_chunk(actions.drop_last(), front);
        assert(events[events.len() - 1] == events.last());
        assert(actions.drop_last().last() == actions[events.len() - 1]);
        worker_does_what_it_was_told(actions.drop_last(), front);
    } else {
        assert(actions.drop_last() =~= Seq::empty());
        reveal_with_fuel(handed_out, 2);
        assert(handed_out(actions) =~= received(events));
    }
}

/// Where no chunk failed, all that were asked to be encoded were, but for the last where that is still
/// asked for.
pub proof fn flawless_worker_encodes_what_is_handed_out(
    actions: Seq<WorkerAction>,
    events: Seq<WorkerEvent>,
)
    requires
        is_worker_dialogue(actions, events),
        is_flawless(events),
    ensures
        handed_out(actions) == (match actions.last() {
            WorkerAction::Encode { chunk } => encoded(actions, events).push(chunk),
            _ => encoded(actions, events),
        }),
    decreases events.len(),
{
    if events.len() > 0 {
        let front = events.drop_last();
        assert forall|i: int| 0 <= i < front.len() implies !(
        (#[trigger] front[i]) matches WorkerEvent::Encoded(Err(_))) by {
            assert(front[i] == events[i]);
        }
        flawless_worker_encodes_what_is_handed_out(actions.drop_last(), front);
        assert(events[events.len() - 1] == events.last());
        assert(actions.drop_last().last() == actions[events.len() - 1]);
        worker_does_what_it_was_told(actions, events);
    } else {
        assert(actions.drop_last() =~= Seq::empty());
        reveal_with_fuel(handed_out, 2);
    }
}

/// The chunks that all workers were asked to encode, where each of `scripts` is what one worker was
/// asked to do.
pub open spec fn all_handed_out(scripts: Seq<Seq<WorkerAction>>) -> Seq<Chunk>
    decreases scripts.len(),
{
    if scripts.len() == 0 {
        Seq::empty()
    } else {
        all_handed_out(scripts.drop_last()) + handed_out(scripts.last())
    }
}

/// The chunks that all workers were asked to encode, and encoded.
pub open spec fn all_encoded(
    scripts: Seq<Seq<WorkerAction>>,
    logs: Seq<Seq<WorkerEvent>>,
) -> Seq<Chunk>
    decreases scripts.len(),
{
    if scripts.len() == 0 {
        Seq::empty()
    } else {
        all_encoded(scripts.drop_last(), logs.drop_last()) + encoded(scripts.last(), logs.last())
    }
}

proof fn lemma_all_handed_out(scripts: Seq<Seq<WorkerAction>>, logs: Seq<Seq<WorkerEvent>>)
    requires
        scripts.len() == logs.len(),
        forall|i: int|
            0 <= i < logs.len() ==> {
                &&& is_worker_dialogue(scripts[i], #[trigger] logs[i])
                &&& scripts[i].last() is Stop
                &&& is_undisturbed(logs[i])
                &&& is_flawless(logs[i])
            },
    ensures
        all_handed_out(scripts) == all_received(logs),
        all_encoded(scripts, logs) == all_received(logs),
    decreases logs.len(),
{
    if logs.len() > 0 {
        let front = logs.drop_last();
        assert forall|i: int| 0 <= i < front.len() implies {
            &&& is_worker_dialogue(scripts.drop_last()[i], #[trigger] front[i])
            &&& scripts.drop_last()[i].last() is Stop
            &&& is_undisturbed(front[i])
            &&& is_flawless(front[i])
        } by {
            assert(front[i] == logs[i] && scripts.drop_last()[i] == scripts[i]);
        }
        lemma_all_handed_out(scripts.drop_last(), front);
        assert(logs[logs.len() - 1] == logs.last() && scripts[logs.len() - 1] == scripts.last());
        undisturbed_worker_hands_out_every_chunk(scripts.last(), logs.last());
        flawless_worker_encodes_what_is_handed_out(scripts.last(), logs.last());
    }
}

/// Where all workers have stopped, nobody asked to terminate and no chunk failed, and the chunks that
/// came to the workers make up the queue, the chunks that they were asked to encode make up the queue
/// too, in all their fields and each once, and all of them were encoded.
pub proof fn workers_are_handed_the_whole_queue(
    scripts: Seq<Seq<WorkerAction>>,
    logs: Seq<Seq<WorkerEvent>>,
    queue: Seq<Chunk>,
)
    requires
        scripts.len() == logs.len(),
        forall|i: int|
            0 <= i < logs.len() ==> {
                &&& is_worker_dialogue(scripts[i], #[trigger] logs[i])
                &&& scripts[i].last() is Stop
                &&& is_undisturbed(logs[i])
                &&& is_flawless(logs[i])
            },
        all_received(logs).to_multiset() == queue.to_multiset(),
    ensures
        all_handed_out(scripts).to_multiset() == queue.to_multiset(),
        all_encoded(scripts, logs).to_multiset() == queue.to_multiset(),
{
    lemma_all_handed_out(scripts, logs);
}

/// Whatever happens, only chunks that came are asked to be encoded, and each as often as it came at
/// most.
pub proof fn chunks_are_handed_out_once(actions: Seq<WorkerAction>, events: Seq<WorkerEvent>)
    requires
        is_worker_dialogue(actions, events),
    ensures
        handed_out(actions).to_multiset().subset_of(received(events).to_multiset()),
{
    lemma_handed_out_once(actions, events);
}

proof fn lemma_handed_out_once(actions: Seq<WorkerAction>, events: Seq<WorkerEvent>)
    requires
        is_worker_dialogue(actions, events),
    ensures
        handed_out(actions).to_multiset().subset_of(received(events).to_multiset()),
        actions.last() is ReadTerminations ==> received(events).len() > 0 && handed_out(
            actions,
        ).push(received(events).last()).to_multiset().subset_of(received(events).to_multiset()),
    decreases events.len(),
{
    broadcast use vstd::multiset::group_multiset_axioms;
    broadcast use vstd::seq_lib::group_to_multiset_ensures;

    lemma_dialogue(actions, events);
    worker_does_what_it_was_told(actions, events);
    if events.len() > 0 {
        let front = events.drop_last();
        lemma_handed_out_once(actions.drop_last(), front);
        assert(actions.drop_last().last() == actions[events.len() - 1]);
        worker_does_what_it_was_told(actions.drop_last(), front);
    } else {
        assert(actions.drop_last() =~= Seq::empty());
        reveal_with_fuel(handed_out, 2);
        assert(handed_out(actions) =~= received(events));
    }
}

} // verus!
