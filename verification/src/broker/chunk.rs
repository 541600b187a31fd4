//! Chunks: stretches of a video that are encoded on their own.

use crate::decimal::push_decimal;
use vstd::prelude::*;

verus! {

/// The search for the quality at which a chunk meets its target.
#[derive(Clone, Copy, Debug)]
pub struct TargetQuality {
    /// The lowest and the highest score that are accepted, each as the bits of a 64-bit
    /// floating-point number.
    pub target: Option<(u64, u64)>,
    /// One in how many frames a probe encodes.
    pub probing_rate: usize,
    /// Whether probes are encoded with the parameters of the final encode.
    pub params_copied: bool,
}

/// A stretch of a video.
#[derive(Clone, Copy, Debug)]
pub struct Chunk {
    pub index: usize,
    pub start_frame: usize,
    /// The frame behind the last one.
    pub end_frame: usize,
    pub passes: u8,
    /// Whether another source stands in for the video while the quality is searched for.
    pub has_proxy: bool,
    pub target_quality: TargetQuality,
    /// The quality that was found, as the bits of a 32-bit floating-point number.
    pub tq_cq: Option<u32>,
    /// Whether an encode with another number of frames is good enough.
    pub ignore_frame_mismatch: bool,
}

/// That a probe does not have as many frames as its chunk.
#[derive(Clone, Copy, Debug, PartialEq, Eq, Structural)]
pub struct FrameCountMismatch {
    pub expected: usize,
    pub actual: usize,
}

/// What is noted of a chunk that is done.
#[derive(Clone, Copy, Debug, PartialEq, Eq, Structural)]
pub struct DoneChunk {
    pub frames: usize,
    pub size_bytes: u64,
}

impl Chunk {
    /// Whether the chunk ends no earlier than it starts.
    pub open spec fn wf(self) -> bool {
        self.start_frame <= self.end_frame
    }

    /// The number of frames in the chunk.
    pub open spec fn spec_frames(self) -> int {
        self.end_frame - self.start_frame
    }

    /// The number of frames in the chunk.
    pub fn frames(&self) -> (frames: usize)
        requires
            self.wf(),
        ensures
            frames == self.spec_frames(),
            self.start_frame + frames == self.end_frame,
    {
        self.end_frame - self.start_frame
    }

    /// Whether a probe of the chunk is held to the number of frames in the chunk.
    pub open spec fn counts_frames(self) -> bool {
        self.target_quality.probing_rate == 1 && !self.ignore_frame_mismatch
    }

    /// Whether a quality has to be searched for.
    pub open spec fn needs_probing(self) -> bool {
        self.target_quality.target is Some && self.tq_cq is None
    }

    /// Whether a probe with `actual_frames` frames can stand in for the encode of the chunk.
    pub open spec fn accepts_probe(self, actual_frames: int) -> bool {
        self.counts_frames() ==> actual_frames == self.spec_frames()
    }
}

/// Whether a quality has to be searched for before the chunk is encoded.
pub fn target_quality_needs_probing(chunk: &Chunk) -> (needs: bool)
    ensures
        needs == chunk.needs_probing(),
        needs <==> chunk.target_quality.target is Some && chunk.tq_cq is None,
{
    chunk.target_quality.target.is_some() && chunk.tq_cq.is_none()
}

/// Checks that a probe that every frame went into has `expected` frames.
pub fn validate_full_rate_probe_frame_count(expected: usize, actual: usize) -> (valid: Result<
    (),
    FrameCountMismatch,
>)
    ensures
        valid == (if expected == actual {
            Ok::<(), FrameCountMismatch>(())
        } else {
            Err(FrameCountMismatch { expected, actual })
        }),
{
    if expected == actual {
        Ok(())
    } else {
        Err(FrameCountMismatch { expected, actual })
    }
}

/// Checks that a probe with `actual_frames` frames can stand in for the encode of the chunk.
pub fn validate_reused_probe_frame_count(chunk: &Chunk, actual_frames: usize) -> (valid: Result<
    (),
    FrameCountMismatch,
>)
    requires
        chunk.counts_frames() ==> chunk.wf(),
    ensures
        match valid {
            Ok(()) => chunk.accepts_probe(actual_frames as int),
            Err(mismatch) => !chunk.accepts_probe(actual_frames as int) && mismatch.expected
                == chunk.spec_frames() && mismatch.actual == actual_frames,
        },
        valid is Err <==> chunk.target_quality.probing_rate == 1 && !chunk.ignore_frame_mismatch
            && chunk.start_frame + actual_frames != chunk.end_frame,
{
    if chunk.target_quality.probing_rate == 1 && !chunk.ignore_frame_mismatch {
        return validate_full_rate_probe_frame_count(chunk.frames(), actual_frames);
    }
    Ok(())
}

impl FrameCountMismatch {
    /// What is said of the mismatch.
    pub open spec fn message(self) -> Seq<char> {
        "expected "@ + crate::decimal::decimal(self.expected as nat) + " frames, got "@
            + crate::decimal::decimal(self.actual as nat)
    }

    /// What is said of the mismatch.
    pub fn to_string(&self) -> (message: String)
        ensures
            message@ == self.message(),
            message@ == "expected "@ + crate::decimal::decimal(self.expected as nat)
                + " frames, got "@ + crate::decimal::decimal(self.actual as nat),
    {
        let mut message: String = "expected ".to_owned();
        push_decimal(&mut message, self.expected as u64);
        message.append(" frames, got ");
        push_decimal(&mut message, self.actual as u64);
        message
    }
}

/// Every chunk that ends no earlier than it starts will do. Its frames are those from the first to the
/// one before its end, and a probe is held to their number where it saw every frame and the chunk does
/// not say otherwise.
pub proof fn chunk_reaches_from_start_to_end(chunk: Chunk, actual_frames: int)
    ensures
        chunk.wf() <==> chunk.start_frame <= chunk.end_frame,
        chunk.start_frame + chunk.spec_frames() == chunk.end_frame,
        chunk.needs_probing() <==> chunk.target_quality.target is Some && chunk.tq_cq is None,
        chunk.accepts_probe(actual_frames) <==> chunk.target_quality.probing_rate != 1
            || chunk.ignore_frame_mismatch || chunk.start_frame + actual_frames == chunk.end_frame,
{
}

} // verus!
