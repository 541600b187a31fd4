//! What holds of all workers, whatever happens.

use crate::broker::chunk::Chunk;
use crate::broker::worker::{Worker, WorkerEvent};
use vstd::prelude::*;

verus! {

/// Every position in the queue fits into the digits that are kept for it.
pub proof fn padding_fits_every_position(chunks: nat, position: nat)
    requires
        position < chunks,
    ensures
        crate::decimal::decimal(position).len() <= crate::decimal::decimal(
            (chunks - 1) as nat,
        ).len(),
{
    crate::decimal::smaller_number_is_no_longer(position, (chunks - 1) as nat);
}

/// The worker behind all of `events`, to which nothing had happened before.
pub open spec fn worker_after(events: Seq<WorkerEvent>) -> Worker
    decreases events.len(),
{
    if events.len() == 0 {
        Worker::Receiving
    } else {
        worker_after(events.drop_last()).next(events.last())
    }
}

/// Whether each of `events` is what the worker waits for when it happens.
pub open spec fn worker_possible(events: Seq<WorkerEvent>) -> bool
    decreases events.len(),
{
    events.len() > 0 ==> worker_possible(events.drop_last()) && worker_after(
        events.drop_last(),
    ).awaits(events.last())
}

/// The chunks that came from the queue, in order.
pub open spec fn received(events: Seq<WorkerEvent>) -> Seq<Chunk>
    decreases events.len(),
{
    if events.len() == 0 {
        Seq::empty()
    } else {
        match events.last() {
            WorkerEvent::Received(Some(chunk)) => received(events.drop_last()).push(chunk),
            _ => received(events.drop_last()),
        }
    }
}

/// The chunks that the worker encoded, or tried to, in order.
pub open spec fn taken_on(events: Seq<WorkerEvent>) -> Seq<Chunk>
    decreases events.len(),
{
    if events.len() == 0 {
        Seq::empty()
    } else {
        let front = taken_on(events.drop_last());
        match (worker_after(events.drop_last()), events.last()) {
            (Worker::Encoding { chunk }, WorkerEvent::Encoded(_)) => front.push(chunk),
            _ => front,
        }
    }
}

/// Whether nobody asked to terminate.
pub open spec fn is_undisturbed(events: Seq<WorkerEvent>) -> bool {
    forall|i: int|
        0 <= i < events.len() && (#[trigger] events[i]) is Terminations
            ==> events[i]->Terminations_0 == 0
}

/// Without any request to terminate a worker takes on every chunk that it gets, in order.
pub proof fn undisturbed_worker_takes_every_chunk(events: Seq<WorkerEvent>)
    requires
        worker_possible(events),
        is_undisturbed(events),
    ensures
        match worker_after(events) {
            Worker::Deciding { chunk } => received(events) == taken_on(events).push(chunk),
            Worker::Encoding { chunk } => received(events) == taken_on(events).push(chunk),
            _ => received(events) == taken_on(events),
        },
    decreases events.len(),
{
    if events.len() > 0 {
        let front = events.drop_last();
        assert forall|i: int| 0 <= i < front.len() && (
        #[trigger] front[i]) is Terminations implies front[i]->Terminations_0 == 0 by {
            assert(front[i] == events[i]);
        }
        undisturbed_worker_takes_every_chunk(front);
        assert(events[events.len() - 1] == events.last());
    }
}

/// Requests to terminate are never taken back, so once one is seen the worker takes on no further
/// chunk.
pub proof fn request_lets_no_chunk_start(events: Seq<WorkerEvent>, seen: int)
    requires
        worker_possible(events),
        forall|i: int, j: int|
            0 <= i < j < events.len() && (#[trigger] events[i]) is Terminations && (
            #[trigger] events[j]) is Terminations ==> events[i]->Terminations_0
                <= events[j]->Terminations_0,
        0 <= seen < events.len(),
        events[seen] is Terminations,
        events[seen]->Terminations_0 > 0,
    ensures
        taken_on(events) == taken_on(events.take(seen)),
        worker_after(events) is Receiving || worker_after(events) is Deciding || worker_after(
            events,
        ) == (Worker::Stopped { failed: false }),
    decreases events.len(),
{
    let front = events.drop_last();
    assert(events[events.len() - 1] == events.last());
    if seen < events.len() - 1 {
        assert(front[seen] == events[seen]);
        assert forall|i: int, j: int|
            0 <= i < j < front.len() && (#[trigger] front[i]) is Terminations && (
            #[trigger] front[j]) is Terminations implies front[i]->Terminations_0
            <= front[j]->Terminations_0 by {
            assert(front[i] == events[i] && front[j] == events[j]);
        }
        request_lets_no_chunk_start(front, seen);
        assert(front.take(seen) =~= events.take(seen));
    } else {
        assert(front =~= events.take(seen));
    }
}

/// A worker stops for good, after a failure as after the last chunk; after a failure the failed
/// chunk is the last that it took on.
pub proof fn failure_stops_the_worker(events: Seq<WorkerEvent>, at: int)
    requires
        worker_possible(events),
        0 <= at < events.len(),
        events[at] matches WorkerEvent::Encoded(Err(_)),
    ensures
        events.len() <= at + 2,
        events.len() == at + 1 ==> worker_after(events) is Reporting,
        events.len() == at + 2 ==> worker_after(events) == (Worker::Stopped { failed: true }),
        taken_on(events) == taken_on(events.take(at + 1)),
    decreases events.len(),
{
    let front = events.drop_last();
    if at < events.len() - 1 {
        assert(front[at] == events[at]);
        failure_stops_the_worker(front, at);
        assert(front.take(at + 1) =~= events.take(at + 1));
    } else {
        assert(events.take(at + 1) =~= events);
    }
}

/// The chunks that the worker encoded with success, in order.
pub open spec fn finished(events: Seq<WorkerEvent>) -> Seq<Chunk>
    decreases events.len(),
{
    if events.len() == 0 {
        Seq::empty()
    } else {
        let front = finished(events.drop_last());
        match (worker_after(events.drop_last()), events.last()) {
            (Worker::Encoding { chunk }, WorkerEvent::Encoded(Ok(_))) => front.push(chunk),
            _ => front,
        }
    }
}

/// The chunks that all workers got from the queue, where `logs` are the events of one worker each.
pub open spec fn all_received(logs: Seq<Seq<WorkerEvent>>) -> Seq<Chunk>
    decreases logs.len(),
{
    if logs.len() == 0 {
        Seq::empty()
    } else {
        all_received(logs.drop_last()) + received(logs.last())
    }
}

/// The chunks that all workers encoded with success, where `logs` are the events of one worker each.
pub open spec fn all_finished(logs: Seq<Seq<WorkerEvent>>) -> Seq<Chunk>
    decreases logs.len(),
{
    if logs.len() == 0 {
        Seq::empty()
    } else {
        all_finished(logs.drop_last()) + finished(logs.last())
    }
}

/// Whether no chunk failed.
pub open spec fn is_flawless(events: Seq<WorkerEvent>) -> bool {
    forall|i: int|
        0 <= i < events.len() ==> !((#[trigger] events[i]) matches WorkerEvent::Encoded(Err(_)))
}

proof fn lemma_flawless_worker_finishes(events: Seq<WorkerEvent>)
    requires
        is_flawless(events),
    ensures
        finished(events) == taken_on(events),
    decreases events.len(),
{
    if events.len() > 0 {
        let front = events.drop_last();
        assert forall|i: int| 0 <= i < front.len() implies !(
        (#[trigger] front[i]) matches WorkerEvent::Encoded(Err(_))) by {
            assert(front[i] == events[i]);
        }
        lemma_flawless_worker_finishes(front);
        assert(events[events.len() - 1] == events.last());
    }
}

proof fn lemma_same_of_all_workers(logs: Seq<Seq<WorkerEvent>>)
    requires
        forall|i: int| 0 <= i < logs.len() ==> received(#[trigger] logs[i]) == finished(logs[i]),
    ensures
        all_received(logs) == all_finished(logs),
    decreases logs.len(),
{
    if logs.len() > 0 {
        let front = logs.drop_last();
        assert forall|i: int| 0 <= i < front.len() implies received(#[trigger] front[i])
            == finished(front[i]) by {
            assert(front[i] == logs[i]);
        }
        lemma_same_of_all_workers(front);
        assert(logs[logs.len() - 1] == logs.last());
    }
}

/// Where all workers have stopped, nobody asked to terminate and no chunk failed, and what the
/// workers got from the queue makes up the queue, what they have encoded makes up the queue too: every
/// chunk is encoded, by one worker, once.
pub proof fn workers_encode_the_whole_queue(logs: Seq<Seq<WorkerEvent>>, queue: Seq<Chunk>)
    requires
        forall|i: int|
            0 <= i < logs.len() ==> {
                &&& worker_possible(#[trigger] logs[i])
                &&& worker_after(logs[i]) is Stopped
                &&& is_undisturbed(logs[i])
                &&& is_flawless(logs[i])
            },
        all_received(logs).to_multiset() == queue.to_multiset(),
    ensures
        all_finished(logs).to_multiset() == queue.to_multiset(),
{
    assert forall|i: int| 0 <= i < logs.len() implies received(#[trigger] logs[i]) == finished(
        logs[i],
    ) by {
        undisturbed_worker_takes_every_chunk(logs[i]);
        lemma_flawless_worker_finishes(logs[i]);
    }
    lemma_same_of_all_workers(logs);
}

/// Whether the worker has a chunk that it got from the queue and has not taken on yet.
spec fn chunk_in_hand(worker: Worker) -> Seq<Chunk> {
    match worker {
        Worker::Deciding { chunk } => seq![chunk],
        Worker::Encoding { chunk } => seq![chunk],
        _ => Seq::empty(),
    }
}

proof fn lemma_taken_on_was_received(events: Seq<WorkerEvent>)
    requires
        worker_possible(events),
    ensures
        (taken_on(events) + chunk_in_hand(worker_after(events))).to_multiset().subset_of(
            received(events).to_multiset(),
        ),
    decreases events.len(),
{
    broadcast use vstd::multiset::group_multiset_axioms;
    broadcast use vstd::seq_lib::group_to_multiset_ensures;

    let worker = worker_after(events);
    let held = taken_on(events) + chunk_in_hand(worker);
    if events.len() == 0 {
        assert(held =~= Seq::empty());
    } else {
        let front = events.drop_last();
        let before = taken_on(front) + chunk_in_hand(worker_after(front));
        lemma_taken_on_was_received(front);
        match (worker_after(front), events.last()) {
            (Worker::Receiving, WorkerEvent::Received(Some(chunk))) => {
                assert(held =~= before.push(chunk));
            },
            (Worker::Deciding { chunk }, WorkerEvent::Terminations(count)) => {
                if count == 0 {
                    assert(held =~= before);
                } else {
                    assert(before =~= held.push(chunk));
                }
            },
            (Worker::Encoding { chunk }, WorkerEvent::Encoded(_)) => {
                assert(held =~= before);
            },
            _ => {
                assert(held =~= before);
            },
        }
    }
}

/// Whatever happens, a worker takes on only chunks that it got from the queue, and each as often as it
/// got it at most.
pub proof fn chunks_are_taken_on_once(events: Seq<WorkerEvent>)
    requires
        worker_possible(events),
    ensures
        taken_on(events).to_multiset().subset_of(received(events).to_multiset()),
{
    broadcast use vstd::multiset::group_multiset_axioms;
    broadcast use vstd::seq_lib::group_to_multiset_ensures;

    lemma_taken_on_was_received(events);
    let taken = taken_on(events);
    let held = taken + chunk_in_hand(worker_after(events));
    match worker_after(events) {
        Worker::Deciding { chunk } => {
            assert(held =~= taken.push(chunk));
        },
        Worker::Encoding { chunk } => {
            assert(held =~= taken.push(chunk));
        },
        _ => {
            assert(held =~= taken);
        },
    }
}

/// How many chunks failed.
pub open spec fn failures(events: Seq<WorkerEvent>) -> nat
    decreases events.len(),
{
    if events.len() == 0 {
        0
    } else {
        failures(events.drop_last()) + if events.last() matches WorkerEvent::Encoded(Err(_)) {
            1nat
        } else {
            0
        }
    }
}

/// How often whoever waits for the workers was told by this one.
pub open spec fn reports(events: Seq<WorkerEvent>) -> nat
    decreases events.len(),
{
    if events.len() == 0 {
        0
    } else {
        reports(events.drop_last()) + if events.last() is Reported {
            1nat
        } else {
            0
        }
    }
}

/// At most one chunk of a worker fails. Whoever waits is told of it once, before the worker stops, and
/// of nothing else.
pub proof fn each_failure_is_reported_once(events: Seq<WorkerEvent>)
    requires
        worker_possible(events),
    ensures
        failures(events) <= 1,
        match worker_after(events) {
            Worker::Reporting { .. } => failures(events) == 1 && reports(events) == 0,
            Worker::Stopped { failed } => failures(events) == reports(events) && (failed <==> reports(
                events,
            ) == 1),
            _ => failures(events) == 0 && reports(events) == 0,
        },
    decreases events.len(),
{
    if events.len() > 0 {
        each_failure_is_reported_once(events.drop_last());
    }
}

/// How many workers stopped because a chunk failed, where `logs` are the events of one worker each.
pub open spec fn failed_workers(logs: Seq<Seq<WorkerEvent>>) -> nat
    decreases logs.len(),
{
    if logs.len() == 0 {
        0
    } else {
        failed_workers(logs.drop_last()) + if worker_after(logs.last()) == (Worker::Stopped {
            failed: true,
        }) {
            1nat
        } else {
            0
        }
    }
}

/// How often whoever waits for the workers is told in all, where so many requests to terminate have
/// come once all workers have stopped.
pub open spec fn times_told(logs: Seq<Seq<WorkerEvent>>, terminations_requested: u8) -> nat {
    all_reports(logs) + if terminations_requested > 0 {
        1nat
    } else {
        0
    }
}

/// How often all workers told whoever waits for them.
pub open spec fn all_reports(logs: Seq<Seq<WorkerEvent>>) -> nat
    decreases logs.len(),
{
    if logs.len() == 0 {
        0
    } else {
        all_reports(logs.drop_last()) + reports(logs.last())
    }
}

/// Once all workers have stopped, whoever waits for them has been told once for each worker with a
/// failed chunk, and once more where anybody asked to terminate.
pub proof fn told_once_per_failed_worker(logs: Seq<Seq<WorkerEvent>>, terminations_requested: u8)
    requires
        forall|i: int|
            0 <= i < logs.len() ==> worker_possible(#[trigger] logs[i]) && worker_after(
                logs[i],
            ) is Stopped,
    ensures
        times_told(logs, terminations_requested) == failed_workers(logs) + if terminations_requested
            > 0 {
            1nat
        } else {
            0
        },
        failed_workers(logs) <= logs.len(),
    decreases logs.len(),
{
    if logs.len() > 0 {
        let front = logs.drop_last();
        assert forall|i: int| 0 <= i < front.len() implies worker_possible(#[trigger] front[i])
            && worker_after(front[i]) is Stopped by {
            assert(front[i] == logs[i]);
        }
        told_once_per_failed_worker(front, terminations_requested);
        assert(logs[logs.len() - 1] == logs.last());
        each_failure_is_reported_once(logs.last());
    }
}

} // verus!
