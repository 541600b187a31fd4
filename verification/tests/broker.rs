use std::sync::atomic::{AtomicU8, Ordering};

use av1an_core::broker::chunk::{
    target_quality_needs_probing, validate_reused_probe_frame_count, Chunk, FrameCountMismatch,
    TargetQuality,
};
use av1an_core::broker::shutdown::{
    can_finalize_target_quality, can_start_next_chunk, is_hard_shutdown_requested,
    should_retry_target_quality, termination_message,
};

fn target_quality_chunk(tq_cq: Option<f32>) -> Chunk {
    Chunk {
        index: 12,
        start_frame: 0,
        end_frame: 5,
        passes: 1,
        has_proxy: false,
        target_quality: TargetQuality {
            target: Some((95.0f64.to_bits(), 96.0f64.to_bits())),
            probing_rate: 1,
            params_copied: false,
        },
        tq_cq: tq_cq.map(f32::to_bits),
        ignore_frame_mismatch: false,
    }
}

fn requested(terminations_requested: &AtomicU8) -> u8 {
    terminations_requested.load(Ordering::SeqCst)
}

#[test]
fn target_quality_retries_normal_errors_before_the_retry_limit() {
    let terminations_requested = AtomicU8::new(0);

    assert!(should_retry_target_quality(requested(&terminations_requested), 1, 3));
    assert!(!should_retry_target_quality(requested(&terminations_requested), 3, 3));
}

#[test]
fn first_ctrl_c_allows_target_quality_retry() {
    let terminations_requested = AtomicU8::new(1);

    assert!(should_retry_target_quality(requested(&terminations_requested), 1, 3));
}

#[test]
fn second_ctrl_c_disables_target_quality_retry() {
    let terminations_requested = AtomicU8::new(2);

    assert!(!should_retry_target_quality(requested(&terminations_requested), 1, 3));
}

#[test]
fn first_ctrl_c_allows_target_quality_finalization() {
    let terminations_requested = AtomicU8::new(1);

    assert!(can_finalize_target_quality(requested(&terminations_requested)));
}

#[test]
fn second_ctrl_c_prevents_target_quality_finalization() {
    let terminations_requested = AtomicU8::new(2);

    assert!(!can_finalize_target_quality(requested(&terminations_requested)));
}

#[test]
fn first_ctrl_c_prevents_starting_another_queued_chunk() {
    let terminations_requested = AtomicU8::new(1);

    assert!(!can_start_next_chunk(requested(&terminations_requested)));
}

#[test]
fn normal_operation_can_start_queued_chunks() {
    let terminations_requested = AtomicU8::new(0);

    assert!(can_start_next_chunk(requested(&terminations_requested)));
    assert!(can_finalize_target_quality(requested(&terminations_requested)));
}

#[test]
fn valid_reused_full_rate_probe_is_accepted() {
    let chunk = target_quality_chunk(Some(42.0));

    assert!(validate_reused_probe_frame_count(&chunk, chunk.frames()).is_ok());
}

#[test]
fn truncated_reused_probe_is_rejected_before_fast_reuse() {
    let chunk = target_quality_chunk(Some(42.0));

    assert!(validate_reused_probe_frame_count(&chunk, chunk.frames() - 1).is_err());
}

#[test]
fn ignored_frame_mismatch_allows_reused_probe() {
    let mut chunk = target_quality_chunk(Some(42.0));
    chunk.ignore_frame_mismatch = true;

    assert!(validate_reused_probe_frame_count(&chunk, chunk.frames() - 1).is_ok());
}

#[test]
fn fresh_target_quality_chunks_require_worker_side_probing() {
    assert!(target_quality_needs_probing(&target_quality_chunk(None)));
}

#[test]
fn persisted_target_quality_cq_skips_worker_side_probing() {
    let mut old_chunk_json = serde_json::Map::new();
    old_chunk_json.insert("index".to_owned(), serde_json::Value::from(12));
    old_chunk_json
        .insert("per_shot_target_quality_cq".to_owned(), serde_json::Value::from(42.0));
    let text = serde_json::Value::Object(old_chunk_json).to_string();
    let parsed: serde_json::Value =
        serde_json::from_str(&text).expect("old chunk should deserialize");
    let tq_cq = parsed["per_shot_target_quality_cq"].as_f64().map(|cq| cq as f32);
    let chunk = target_quality_chunk(tq_cq);

    assert_eq!(chunk.tq_cq.map(f32::from_bits), Some(42.0));
    assert!(!target_quality_needs_probing(&chunk));
}

#[test]
fn hard_shutdown_needs_a_second_request() {
    assert!(!is_hard_shutdown_requested(0));
    assert!(!is_hard_shutdown_requested(1));
    assert!(is_hard_shutdown_requested(2));
    assert!(is_hard_shutdown_requested(255));
}

#[test]
fn termination_messages_tell_the_first_request_from_later_ones() {
    assert_eq!(
        termination_message(1),
        "Shutting down. Waiting for current workers to finish..."
    );
    assert_eq!(termination_message(2), "Shutting down all workers...");
    assert_eq!(termination_message(3), "Shutting down all workers...");
}

#[test]
fn frame_count_mismatch_names_both_counts() {
    let chunk = target_quality_chunk(None);
    let mismatch = validate_reused_probe_frame_count(&chunk, 4).unwrap_err();

    assert_eq!(mismatch, FrameCountMismatch { expected: 5, actual: 4 });
    assert_eq!(mismatch.to_string(), "expected 5 frames, got 4");
}

#[test]
fn sparse_probes_are_not_held_to_the_frame_count() {
    let mut chunk = target_quality_chunk(None);
    chunk.target_quality.probing_rate = 4;

    assert!(validate_reused_probe_frame_count(&chunk, 2).is_ok());
}

#[test]
fn chunks_without_target_need_no_probing() {
    let mut chunk = target_quality_chunk(None);
    chunk.target_quality.target = None;

    assert!(!target_quality_needs_probing(&chunk));
}
