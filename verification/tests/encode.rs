use av1an_core::broker::chunk::{Chunk, DoneChunk, TargetQuality};
use av1an_core::broker::context::{Av1anContext, Broker, EncodeArgs};
use av1an_core::broker::encode::{Action, ChunkRun, Completion, Event, PassFailure, Stage};
use av1an_core::encoder::Encoder;

fn context(max_tries: usize) -> Av1anContext {
    Av1anContext {
        args: EncodeArgs {
            encoder: Encoder::svt_av1,
            workers: 1,
            max_tries,
            ffmpeg_filter_args: vec![],
        },
    }
}

fn plain_chunk(passes: u8) -> Chunk {
    Chunk {
        index: 7,
        start_frame: 10,
        end_frame: 34,
        passes,
        has_proxy: false,
        target_quality: TargetQuality { target: None, probing_rate: 1, params_copied: true },
        tq_cq: None,
        ignore_frame_mismatch: false,
    }
}

fn targeted_chunk(tq_cq: Option<u32>) -> Chunk {
    let mut chunk = plain_chunk(1);
    chunk.target_quality.target = Some((95.0f64.to_bits(), 96.0f64.to_bits()));
    chunk.tq_cq = tq_cq;
    chunk
}

fn begin(chunk: Chunk, max_tries: usize) -> ChunkRun {
    let project = context(max_tries);
    let broker = Broker { chunk_queue: vec![chunk], project: &project };
    broker.encode_chunk(chunk)
}

fn expects(action: &Action, event: &Event) -> bool {
    match action {
        Action::Probe => matches!(event, Event::Probed(_)),
        Action::ReadTerminations => matches!(event, Event::Terminations(_)),
        Action::InspectProbe { .. } => matches!(event, Event::Inspected(_)),
        Action::DiscardProbe { .. } => matches!(event, Event::Discarded),
        Action::ReuseProbe { .. } => matches!(event, Event::Copied(_)),
        Action::AddFrames { .. } | Action::RetractFrames { .. } => matches!(event, Event::Shown),
        Action::Measure { .. } => matches!(event, Event::Measured(_)),
        Action::Record { .. } => matches!(event, Event::Recorded),
        Action::Save => matches!(event, Event::Saved(_)),
        Action::Encode { .. } => matches!(event, Event::Encoded(_)),
        Action::Warn { .. } => matches!(event, Event::Warned),
        Action::Stop { .. } => false,
    }
}

fn drive(mut run: ChunkRun, events: Vec<Event>) -> ChunkRun {
    for event in events {
        assert!(expects(&run.action(), &event), "{:?} does not answer {:?}", event, run.action());
        run = run.step(event);
    }
    run
}

fn error(run: &ChunkRun) -> String {
    match run.action() {
        Action::Stop { error: Some(error) } => error,
        action => panic!("{action:?}"),
    }
}

fn failure() -> Event {
    Event::Encoded(Err(PassFailure { message: "boom".to_owned(), frames: 9 }))
}

#[test]
fn passes_run_in_order_and_are_recorded() {
    let run = drive(begin(plain_chunk(2), 3), vec![Event::Terminations(0)]);
    assert!(matches!(run.action(), Action::Encode { pass: 1 }));

    let run = drive(run, vec![Event::Encoded(Ok(()))]);
    assert!(matches!(run.action(), Action::Encode { pass: 2 }));

    let run = drive(run, vec![Event::Encoded(Ok(()))]);
    assert!(matches!(run.action(), Action::Measure { completion: Completion::Encoded }));

    let run = drive(run, vec![Event::Measured(Ok(1234))]);
    assert!(matches!(
        run.action(),
        Action::Record { done } if done == DoneChunk { frames: 24, size_bytes: 1234 }
    ));

    let run = drive(run, vec![Event::Recorded]);
    assert!(matches!(run.action(), Action::Save));

    let run = drive(run, vec![Event::Saved(Ok(()))]);
    assert!(matches!(run.stage, Stage::Finished(Ok(Completion::Encoded))));
    assert!(matches!(run.action(), Action::Stop { error: None }));
}

#[test]
fn failed_pass_is_run_again_with_a_warning() {
    let run = drive(
        begin(plain_chunk(2), 2),
        vec![
            Event::Terminations(0),
            Event::Encoded(Ok(())),
            failure(),
            Event::Shown,
            Event::Terminations(1),
        ],
    );
    assert!(matches!(
        run.action(),
        Action::Warn { warning } if warning == "Encoder failed (on chunk 7):\nboom"
    ));

    let run = drive(run, vec![Event::Warned]);
    assert!(matches!(run.stage, Stage::Encoding { pass: 2, attempt: 2 }));
}

#[test]
fn encoder_fails_after_the_last_try() {
    let run = drive(
        begin(plain_chunk(1), 2),
        vec![
            Event::Terminations(0),
            failure(),
            Event::Shown,
            Event::Terminations(0),
            Event::Warned,
            failure(),
            Event::Shown,
            Event::Terminations(1),
        ],
    );

    assert_eq!(error(&run), "[chunk 7] encoder failed 2 times, shutting down worker: boom");
}

#[test]
fn second_request_stops_a_failed_pass() {
    let run = drive(
        begin(plain_chunk(1), 5),
        vec![Event::Terminations(0), failure(), Event::Shown, Event::Terminations(2)],
    );

    assert_eq!(error(&run), "Termination requested after Worker restart. Skipping chunk 7");
}

#[test]
fn second_request_stops_the_first_pass() {
    let run = drive(begin(plain_chunk(1), 5), vec![Event::Terminations(2)]);

    assert_eq!(error(&run), "Hard shutdown requested after Target Quality. Skipping chunk 7");
}

#[test]
fn first_request_changes_nothing() {
    for count in [0, 1] {
        let run = drive(
            begin(plain_chunk(1), 2),
            vec![
                Event::Terminations(count),
                failure(),
                Event::Shown,
                Event::Terminations(count),
                Event::Warned,
                Event::Encoded(Ok(())),
                Event::Measured(Ok(1)),
                Event::Recorded,
                Event::Saved(Ok(())),
            ],
        );

        assert!(matches!(run.stage, Stage::Finished(Ok(Completion::Encoded))));
    }
}

#[test]
fn searched_quality_is_noted_and_its_probe_reused() {
    let run = drive(
        begin(targeted_chunk(None), 3),
        vec![Event::Probed(Ok(42)), Event::Terminations(1)],
    );
    assert_eq!(run.chunk.tq_cq, Some(42));
    assert!(matches!(run.action(), Action::InspectProbe { quality: 42 }));

    let run = drive(run, vec![Event::Inspected(Some(Ok(24)))]);
    assert!(matches!(run.action(), Action::ReuseProbe { quality: 42 }));

    let run = drive(run, vec![Event::Copied(Ok(()))]);
    assert!(matches!(run.action(), Action::AddFrames { frames: 24 }));

    let run = drive(run, vec![Event::Shown]);
    assert!(matches!(run.action(), Action::Measure { completion: Completion::Reused }));

    let run = drive(run, vec![Event::Measured(Ok(99)), Event::Recorded, Event::Saved(Ok(()))]);
    assert!(matches!(run.stage, Stage::Finished(Ok(Completion::Reused))));
}

#[test]
fn known_quality_is_not_searched_for() {
    let run = begin(targeted_chunk(Some(30)), 3);

    assert!(matches!(run.stage, Stage::Finalizing));
    assert!(matches!(run.action(), Action::ReadTerminations));
}

#[test]
fn failed_search_is_made_again() {
    let run = drive(
        begin(targeted_chunk(None), 2),
        vec![
            Event::Probed(Err("no score".to_owned())),
            Event::Terminations(1),
            Event::Probed(Err("no score".to_owned())),
            Event::Terminations(1),
            Event::Terminations(1),
        ],
    );

    assert_eq!(error(&run), "Target Quality failed after 2 tries on chunk 7:\nno score");
}

#[test]
fn second_request_stops_the_search() {
    let run = drive(
        begin(targeted_chunk(None), 9),
        vec![
            Event::Probed(Err("no score".to_owned())),
            Event::Terminations(2),
            Event::Terminations(2),
        ],
    );

    assert_eq!(error(&run), "Hard shutdown requested during Target Quality. Skipping chunk 7");
}

#[test]
fn second_request_keeps_a_found_quality_from_use() {
    let run = drive(
        begin(targeted_chunk(None), 9),
        vec![Event::Probed(Ok(42)), Event::Terminations(2)],
    );

    assert_eq!(error(&run), "Hard shutdown requested during Target Quality. Skipping chunk 7");
}

#[test]
fn request_between_search_and_report_counts() {
    let run = drive(
        begin(targeted_chunk(None), 1),
        vec![
            Event::Probed(Err("no score".to_owned())),
            Event::Terminations(1),
            Event::Terminations(2),
        ],
    );

    assert_eq!(error(&run), "Hard shutdown requested during Target Quality. Skipping chunk 7");
}

#[test]
fn probe_with_other_frame_count_is_discarded() {
    let run = drive(
        begin(targeted_chunk(Some(30)), 3),
        vec![Event::Terminations(0), Event::Inspected(Some(Ok(23)))],
    );
    assert!(matches!(
        run.action(),
        Action::DiscardProbe { quality: 30, warning }
            if warning == "Selected Target Quality probe for chunk 7 is invalid; removing it and \
                           falling back to final encoding: expected 24 frames, got 23"
    ));

    let run = drive(run, vec![Event::Discarded, Event::Terminations(0)]);
    assert!(matches!(run.action(), Action::Encode { pass: 1 }));
}

#[test]
fn unreadable_probe_is_discarded() {
    let run = drive(
        begin(targeted_chunk(Some(30)), 3),
        vec![Event::Terminations(0), Event::Inspected(Some(Err("broken".to_owned())))],
    );

    assert!(matches!(
        run.action(),
        Action::DiscardProbe { quality: 30, warning } if warning.ends_with("encoding: broken")
    ));
}

#[test]
fn missing_probe_leads_to_the_encode() {
    let run = drive(
        begin(targeted_chunk(Some(30)), 3),
        vec![Event::Terminations(0), Event::Inspected(None), Event::Terminations(0)],
    );

    assert!(matches!(run.action(), Action::Encode { pass: 1 }));
}

#[test]
fn probes_that_differ_from_the_encode_are_not_looked_for() {
    let mut sparse = targeted_chunk(Some(30));
    sparse.target_quality.probing_rate = 2;
    let mut other_params = targeted_chunk(Some(30));
    other_params.target_quality.params_copied = false;
    let mut proxied = targeted_chunk(Some(30));
    proxied.has_proxy = true;
    for chunk in [sparse, other_params, proxied] {
        let run = drive(begin(chunk, 3), vec![Event::Terminations(0)]);

        assert!(matches!(run.stage, Stage::Starting));
    }

    let mut project = context(3);
    project.args.ffmpeg_filter_args = vec!["scale=1280:-1".to_owned()];
    let broker = Broker { chunk_queue: vec![], project: &project };
    let run = drive(broker.encode_chunk(targeted_chunk(Some(30))), vec![Event::Terminations(0)]);

    assert!(matches!(run.stage, Stage::Starting));
}

#[test]
fn chunk_that_cannot_be_stored_fails() {
    let run = drive(
        begin(plain_chunk(1), 1),
        vec![
            Event::Terminations(0),
            Event::Encoded(Ok(())),
            Event::Measured(Ok(1)),
            Event::Recorded,
            Event::Saved(Err("disk full".to_owned())),
        ],
    );
    assert_eq!(error(&run), "disk full");

    let reusing = || {
        drive(
            begin(targeted_chunk(Some(30)), 1),
            vec![Event::Terminations(0), Event::Inspected(Some(Ok(24)))],
        )
    };
    let run = drive(reusing(), vec![Event::Copied(Err("denied".to_owned()))]);
    assert_eq!(error(&run), "denied");
    let run = drive(
        reusing(),
        vec![Event::Copied(Ok(())), Event::Shown, Event::Measured(Err("gone".to_owned()))],
    );
    assert_eq!(error(&run), "gone");
}

#[test]
fn without_tries_nothing_is_searched_or_run() {
    let run = begin(targeted_chunk(None), 0);
    assert!(matches!(run.stage, Stage::Finalizing));

    let run = drive(run, vec![Event::Terminations(0), Event::Terminations(0)]);
    assert!(matches!(run.action(), Action::Measure { completion: Completion::Encoded }));
}

#[test]
fn attempts_are_bounded_by_passes_and_tries() {
    let mut run = begin(plain_chunk(3), 4);
    let mut runs = 0;
    let mut steps = 0;
    let mut retracted = 0;
    loop {
        let event = match run.action() {
            Action::ReadTerminations => Event::Terminations(0),
            Action::Encode { .. } => {
                runs += 1;
                if runs % 4 == 0 { Event::Encoded(Ok(())) } else { failure() }
            }
            Action::RetractFrames { frames } => {
                retracted += frames;
                Event::Shown
            }
            Action::Warn { .. } => Event::Warned,
            Action::Measure { .. } => Event::Measured(Ok(1)),
            Action::Record { .. } => Event::Recorded,
            Action::Save => Event::Saved(Ok(())),
            Action::Stop { error } => {
                assert!(error.is_none());
                break;
            }
            action => panic!("{action:?}"),
        };
        steps += 1;
        run = run.step(event);
    }

    assert_eq!(runs, 12);
    assert!(steps <= 4 * 12 + 4);
    assert_eq!(retracted, 9 * 9);
}
