//! What a worker does with the queue: take chunk after chunk until none is left, or until one fails.

use crate::broker::chunk::Chunk;
use crate::broker::context::Broker;
use crate::broker::shutdown::can_start_next_chunk;
use crate::decimal::{printable_base10_digits, push_decimal};
use vstd::prelude::*;

verus! {

/// How the chunks of a broker are handed out.
#[derive(Debug)]
pub struct EncodingPlan {
    /// What goes into the queue, in order. The queue has room for all of it.
    pub queue: Vec<Chunk>,
    /// How many workers take from the queue.
    pub workers: usize,
    /// How many digits the highest position in the queue has.
    pub padding: usize,
}

impl<'a> Broker<'a> {
    /// Plans how the chunks are encoded: `None` where there are none.
    pub fn encoding_loop(self) -> (plan: Option<EncodingPlan>)
        ensures
            match plan {
                None => self.chunk_queue@.len() == 0,
                Some(plan) => {
                    &&& self.chunk_queue@.len() > 0
                    &&& plan.queue == self.chunk_queue
                    &&& plan.workers == self.project.args.workers
                    &&& plan.padding == crate::decimal::decimal(
                        (self.chunk_queue@.len() - 1) as nat,
                    ).len()
                },
            },
    {
        let chunks: usize = self.chunk_queue.len();
        if chunks == 0 {
            return None;
        }
        // The index is what is shown, so the highest one counts.
        let padding: usize = printable_base10_digits((chunks - 1) as u64);
        Some(EncodingPlan { queue: self.chunk_queue, workers: self.project.args.workers, padding })
    }
}

/// Whether whoever waits for the workers is told, once all have stopped, that they were asked to.
pub fn reports_termination(terminations_requested: u8) -> (reports: bool)
    ensures
        reports == (terminations_requested > 0),
{
    terminations_requested > 0
}

/// What a worker is at.
#[derive(Debug)]
pub enum Worker {
    /// It waits for a chunk.
    Receiving,
    /// It has a chunk; whether it may start with it is open.
    Deciding { chunk: Chunk },
    /// It encodes a chunk.
    Encoding { chunk: Chunk },
    /// A chunk failed, which is reported.
    Reporting { index: usize, message: String },
    /// It has stopped: because a chunk failed, or because none was left.
    Stopped { failed: bool },
}

/// What has happened.
#[derive(Debug)]
pub enum WorkerEvent {
    /// A chunk came from the queue, or none is left.
    Received(Option<Chunk>),
    /// So many requests to terminate have come so far.
    Terminations(u8),
    /// The work on the chunk ended.
    Encoded(Result<(), String>),
    /// The failure was reported.
    Reported,
}

/// What is to be done next.
#[derive(Debug)]
pub enum WorkerAction {
    /// Wait for a chunk.
    Receive,
    /// Read how many requests to terminate have come.
    ReadTerminations,
    /// Encode the chunk.
    Encode { chunk: Chunk },
    /// Report the error, and tell whoever waits for the workers.
    Report { error: String },
    /// Stop.
    Stop { failed: bool },
}

/// What is said of chunk `index`, which failed for the reason in `message`.
pub open spec fn failure_report(index: usize, message: Seq<char>) -> Seq<char> {
    "[chunk "@ + crate::decimal::decimal(index as nat) + "] "@ + message
}

impl Worker {
    /// Whether `event` is what the worker waits for.
    pub open spec fn awaits(self, event: WorkerEvent) -> bool {
        match self {
            Worker::Receiving => event is Received,
            Worker::Deciding { .. } => event is Terminations,
            Worker::Encoding { .. } => event is Encoded,
            Worker::Reporting { .. } => event is Reported,
            Worker::Stopped { .. } => false,
        }
    }

    /// The worker behind `event`.
    pub open spec fn next(self, event: WorkerEvent) -> Worker {
        match (self, event) {
            (Worker::Receiving, WorkerEvent::Received(Some(chunk))) => Worker::Deciding { chunk },
            (Worker::Receiving, WorkerEvent::Received(None)) => Worker::Stopped { failed: false },
            (Worker::Deciding { chunk }, WorkerEvent::Terminations(count)) => if count == 0 {
                Worker::Encoding { chunk }
            } else {
                Worker::Receiving
            },
            (Worker::Encoding { .. }, WorkerEvent::Encoded(Ok(_))) => Worker::Receiving,
            (Worker::Encoding { chunk }, WorkerEvent::Encoded(Err(message))) => Worker::Reporting {
                index: chunk.index,
                message,
            },
            (Worker::Reporting { .. }, WorkerEvent::Reported) => Worker::Stopped { failed: true },
            (worker, _) => worker,
        }
    }

    /// Whether `action` is what the worker asks for.
    pub open spec fn asks(self, action: WorkerAction) -> bool {
        match self {
            Worker::Receiving => action is Receive,
            Worker::Deciding { .. } => action is ReadTerminations,
            Worker::Encoding { chunk } => action == (WorkerAction::Encode { chunk }),
            Worker::Reporting { index, message } => action matches WorkerAction::Report { error }
                && error@ == failure_report(index, message@),
            Worker::Stopped { failed } => action == (WorkerAction::Stop { failed }),
        }
    }

    /// A worker to which nothing has happened.
    pub fn new() -> (worker: Worker)
        ensures
            worker == Worker::Receiving,
    {
        Worker::Receiving
    }

    /// Takes up what has happened.
    pub fn step(self, event: WorkerEvent) -> (worker: Worker)
        requires
            self.awaits(event),
        ensures
            worker == self.next(event),
    {
        match (self, event) {
            (Worker::Receiving, WorkerEvent::Received(chunk)) => match chunk {
                Some(chunk) => Worker::Deciding { chunk },
                None => Worker::Stopped { failed: false },
            },
            (Worker::Deciding { chunk }, WorkerEvent::Terminations(count)) => {
                if can_start_next_chunk(count) {
                    Worker::Encoding { chunk }
                } else {
                    Worker::Receiving
                }
            },
            (Worker::Encoding { chunk }, WorkerEvent::Encoded(outcome)) => match outcome {
                Ok(()) => Worker::Receiving,
                Err(message) => Worker::Reporting { index: chunk.index, message },
            },
            (Worker::Reporting { .. }, WorkerEvent::Reported) => Worker::Stopped { failed: true },
            (worker, _) => worker,
        }
    }

    /// What is to be done next.
    pub fn action(&self) -> (action: WorkerAction)
        ensures
            self.asks(action),
    {
        match self {
            Worker::Receiving => WorkerAction::Receive,
            Worker::Deciding { .. } => WorkerAction::ReadTerminations,
            Worker::Encoding { chunk } => WorkerAction::Encode { chunk: *chunk },
            Worker::Reporting { index, message } => {
                let mut error: String = "[chunk ".to_owned();
                push_decimal(&mut error, *index as u64);
                error.append("] ");
                error.append(message.as_str());
                WorkerAction::Report { error }
            },
            Worker::Stopped { failed } => WorkerAction::Stop { failed: *failed },
        }
    }
}

} // verus!
