use av1an_core::broker::affinity::{affinity_warning, worker_affinity, Affinity};
use av1an_core::broker::chunk::{Chunk, TargetQuality};
use av1an_core::broker::context::{Av1anContext, Broker, EncodeArgs};
use av1an_core::broker::worker::{reports_termination, Worker, WorkerAction, WorkerEvent};
use av1an_core::encoder::Encoder;

fn chunk(index: usize) -> Chunk {
    Chunk {
        index,
        start_frame: 0,
        end_frame: 24,
        passes: 1,
        has_proxy: false,
        target_quality: TargetQuality { target: None, probing_rate: 1, params_copied: false },
        tq_cq: None,
        ignore_frame_mismatch: false,
    }
}

fn context() -> Av1anContext {
    Av1anContext {
        args: EncodeArgs {
            encoder: Encoder::aom,
            workers: 3,
            max_tries: 3,
            ffmpeg_filter_args: vec![],
        },
    }
}

fn drive(mut worker: Worker, events: Vec<WorkerEvent>) -> Worker {
    for event in events {
        worker = worker.step(event);
    }
    worker
}

#[test]
fn empty_queue_needs_no_workers() {
    let project = context();

    assert!(Broker { chunk_queue: vec![], project: &project }.encoding_loop().is_none());
}

#[test]
fn plan_keeps_all_chunks_in_order() {
    let project = context();
    let chunk_queue: Vec<Chunk> = (0..11).map(chunk).collect();
    let plan = Broker { chunk_queue, project: &project }.encoding_loop().unwrap();

    assert_eq!(plan.queue.iter().map(|c| c.index).collect::<Vec<_>>(), (0..11).collect::<Vec<_>>());
    assert_eq!(plan.workers, 3);
    assert_eq!(plan.padding, 2);
}

#[test]
fn padding_counts_the_digits_of_the_highest_index() {
    let project = context();
    for (chunks, padding) in [(1, 1), (10, 1), (11, 2), (100, 2), (101, 3)] {
        let chunk_queue: Vec<Chunk> = (0..chunks).map(chunk).collect();
        let plan = Broker { chunk_queue, project: &project }.encoding_loop().unwrap();

        assert_eq!(plan.padding, padding);
    }
}

#[test]
fn worker_takes_every_chunk_until_none_is_left() {
    let mut worker = Worker::new();
    for index in 0..3 {
        worker = drive(
            worker,
            vec![WorkerEvent::Received(Some(chunk(index))), WorkerEvent::Terminations(0)],
        );
        assert!(matches!(worker.action(), WorkerAction::Encode { chunk } if chunk.index == index));
        worker = drive(worker, vec![WorkerEvent::Encoded(Ok(()))]);
        assert!(matches!(worker.action(), WorkerAction::Receive));
    }
    worker = drive(worker, vec![WorkerEvent::Received(None)]);

    assert!(matches!(worker.action(), WorkerAction::Stop { failed: false }));
}

#[test]
fn workers_share_the_whole_queue() {
    let mut queue: Vec<Chunk> = (0..7).rev().map(chunk).collect();
    let mut workers = vec![Worker::new(), Worker::new(), Worker::new()];
    let mut encoded = Vec::new();
    while !workers.is_empty() {
        let mut left = Vec::new();
        for worker in workers {
            let event = match worker.action() {
                WorkerAction::Receive => WorkerEvent::Received(queue.pop()),
                WorkerAction::ReadTerminations => WorkerEvent::Terminations(0),
                WorkerAction::Encode { chunk } => {
                    encoded.push(chunk.index);
                    WorkerEvent::Encoded(Ok(()))
                }
                WorkerAction::Stop { failed: false } => continue,
                action => panic!("{action:?}"),
            };
            left.push(worker.step(event));
        }
        workers = left;
    }
    encoded.sort();

    assert_eq!(encoded, (0..7).collect::<Vec<_>>());
}

#[test]
fn worker_starts_no_chunk_after_a_request() {
    let worker = drive(
        Worker::new(),
        vec![WorkerEvent::Received(Some(chunk(0))), WorkerEvent::Terminations(1)],
    );

    assert!(matches!(worker.action(), WorkerAction::Receive));
}

#[test]
fn failed_chunk_is_reported_and_stops_the_worker() {
    let worker = drive(
        Worker::new(),
        vec![
            WorkerEvent::Received(Some(chunk(4))),
            WorkerEvent::Terminations(0),
            WorkerEvent::Encoded(Err("boom".to_owned())),
        ],
    );
    assert!(matches!(
        worker.action(),
        WorkerAction::Report { error } if error == "[chunk 4] boom"
    ));

    let worker = drive(worker, vec![WorkerEvent::Reported]);
    assert!(matches!(worker.action(), WorkerAction::Stop { failed: true }));
}

#[test]
fn termination_is_reported_after_the_first_request() {
    assert!(!reports_termination(0));
    assert!(reports_termination(1));
    assert!(reports_termination(2));
}

fn cores(threads: usize, available: usize, worker_id: usize) -> Vec<usize> {
    match worker_affinity(Some(threads), Ok(available), worker_id) {
        Affinity::Bound(cores) => cores.as_slice().to_vec(),
        _ => panic!("worker should be bound"),
    }
}

#[test]
fn workers_take_cores_in_turn() {
    assert_eq!(cores(3, 8, 0), vec![0, 1, 2]);
    assert_eq!(cores(3, 8, 1), vec![3, 4, 5]);
    assert_eq!(cores(3, 8, 2), vec![6, 7, 0]);
    assert_eq!(cores(3, 8, 3), vec![1, 2, 3]);
}

#[test]
fn more_threads_than_cores_begin_anew() {
    assert_eq!(cores(5, 2, 1), vec![1, 0, 1, 0, 1]);
    assert_eq!(cores(20, 32, 1), (20..40).map(|t| t % 32).collect::<Vec<_>>());
}

#[test]
fn affinity_is_ignored_where_it_cannot_be_set() {
    assert!(matches!(worker_affinity(None, Ok(8), 0), Affinity::Unbound));
    assert!(matches!(
        worker_affinity(Some(0), Ok(8), 0),
        Affinity::Ignored { warning }
            if warning == "Ignoring set_thread_affinity: Requested 0 threads"
    ));
    assert!(matches!(
        worker_affinity(Some(2), Err("denied".to_owned()), 0),
        Affinity::Ignored { warning }
            if warning == "Failed to get thread count: denied. Thread affinity will not be set"
    ));
    assert_eq!(
        affinity_warning(3, "denied"),
        "Failed to set thread affinity for worker 3: denied"
    );
}

#[test]
fn every_failed_worker_reports_once() {
    let mut reports = 0;
    for fails in [true, false, true] {
        let mut worker = Worker::new();
        let mut queue = vec![chunk(1), chunk(0)];
        loop {
            let event = match worker.action() {
                WorkerAction::Receive => WorkerEvent::Received(queue.pop()),
                WorkerAction::ReadTerminations => WorkerEvent::Terminations(0),
                WorkerAction::Encode { .. } if fails => WorkerEvent::Encoded(Err("boom".to_owned())),
                WorkerAction::Encode { .. } => WorkerEvent::Encoded(Ok(())),
                WorkerAction::Report { .. } => {
                    reports += 1;
                    WorkerEvent::Reported
                }
                WorkerAction::Stop { failed } => {
                    assert_eq!(failed, fails);
                    assert_eq!(queue.len(), usize::from(fails));
                    break;
                }
            };
            worker = worker.step(event);
        }
    }

    assert_eq!(reports, 2);
}

#[test]
fn requested_workers_drain_the_queue_without_taking_on() {
    let mut worker = Worker::new();
    let mut queue = vec![chunk(2), chunk(1), chunk(0)];
    let mut taken_on = Vec::new();
    loop {
        let event = match worker.action() {
            WorkerAction::Receive => WorkerEvent::Received(queue.pop()),
            WorkerAction::ReadTerminations => {
                WorkerEvent::Terminations(if taken_on.is_empty() { 0 } else { 1 })
            }
            WorkerAction::Encode { chunk } => {
                taken_on.push(chunk.index);
                WorkerEvent::Encoded(Ok(()))
            }
            WorkerAction::Stop { failed: false } => break,
            action => panic!("{action:?}"),
        };
        worker = worker.step(event);
    }

    assert!(queue.is_empty());
    assert_eq!(taken_on, vec![0]);
}
