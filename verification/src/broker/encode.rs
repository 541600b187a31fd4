//! What a worker does with one chunk: search for a quality where one is asked for, reuse a probe
//! where one fits, and else encode pass by pass.
//!
//! A [`ChunkRun`] decides and never acts. Its [`action`](ChunkRun::action) says what is to be done
//! next; what came of it goes into [`step`](ChunkRun::step).

use crate::broker::chunk::{
    target_quality_needs_probing, validate_reused_probe_frame_count, Chunk, DoneChunk,
    FrameCountMismatch,
};
use crate::broker::context::Broker;
use crate::broker::shutdown::{
    can_finalize_target_quality, is_hard_shutdown_requested, should_retry_target_quality,
};
use crate::decimal::push_decimal;
use vstd::prelude::*;

verus! {

/// How the encode of a chunk came to be.
#[derive(Clone, Copy, Debug, PartialEq, Eq, Structural)]
pub enum Completion {
    /// Every pass was run.
    Encoded,
    /// A probe was taken for it.
    Reused,
}

/// Why a chunk was not encoded.
#[derive(Debug)]
pub enum ChunkError {
    /// A second request to terminate came while a quality was searched for.
    ShutdownDuringTargetQuality { index: usize },
    /// The search for a quality failed at the last try.
    TargetQualityFailed { tries: usize, index: usize, message: String },
    /// A second request to terminate came before the first pass.
    ShutdownAfterTargetQuality { index: usize },
    /// The encoder failed after a second request to terminate.
    TerminatedAfterRestart { index: usize },
    /// The encoder failed at the last try.
    EncoderFailed { index: usize, tries: usize, message: String },
    /// The encode was not stored, or the list of chunks that are done was not saved.
    NotStored { message: String },
}

/// Why a probe is not taken for the encode.
#[derive(Debug)]
pub enum ProbeFault {
    /// Its frames could not be counted.
    Unreadable { message: String },
    /// It has another number of frames than the chunk.
    Mismatch(FrameCountMismatch),
}

/// A pass that failed.
#[derive(Debug)]
pub struct PassFailure {
    pub message: String,
    /// How many of its frames the progress bar shows.
    pub frames: u64,
}

/// How far the work on a chunk has come.
#[derive(Debug)]
pub enum Stage {
    /// A quality is searched for.
    Probing { attempt: usize },
    /// The search failed; whether it is made once more is open.
    ProbingFailed { attempt: usize, message: String },
    /// The search is not made once more; how that is reported is open.
    ProbingGivenUp { attempt: usize, message: String },
    /// Whether the quality may be used is open.
    Finalizing,
    /// A probe is looked for that can be taken for the encode.
    InspectingProbe { quality: u32 },
    /// A probe that does not fit is thrown away.
    DiscardingProbe { quality: u32, fault: ProbeFault },
    /// A probe is taken for the encode.
    ReusingProbe { quality: u32 },
    /// The frames of the probe are put onto the progress bar.
    CountingFrames,
    /// Whether the first pass may start is open.
    Starting,
    /// A pass is run.
    Encoding { pass: u8, attempt: usize },
    /// A pass failed, and its frames are taken off the progress bar.
    RetractingFrames { pass: u8, attempt: usize, failure: PassFailure },
    /// A pass failed; whether it is run once more is open.
    EncodingFailed { pass: u8, attempt: usize, message: String },
    /// A failed pass is about to be run once more.
    Restarting { pass: u8, attempt: usize, message: String },
    /// The size of the encode is looked up.
    Measuring { completion: Completion },
    /// The chunk is noted as done.
    Recording { completion: Completion, size_bytes: u64 },
    /// The list of chunks that are done is saved.
    Saving { completion: Completion },
    /// Nothing is left to do.
    Finished(Result<Completion, ChunkError>),
}

/// What has happened.
#[derive(Debug)]
pub enum Event {
    /// So many requests to terminate have come so far.
    Terminations(u8),
    /// The search for a quality ended.
    Probed(Result<u32, String>),
    /// The probe was looked for: it is missing, or has so many frames, or they cannot be counted.
    Inspected(Option<Result<usize, String>>),
    /// The probe was thrown away.
    Discarded,
    /// The probe was taken for the encode, or could not be.
    Copied(Result<(), String>),
    /// The progress bar was changed.
    Shown,
    /// The pass ended.
    Encoded(Result<(), PassFailure>),
    /// The failure was reported.
    Warned,
    /// The encode has so many bytes, or they could not be counted.
    Measured(Result<u64, String>),
    /// The chunk was noted as done.
    Recorded,
    /// The list of chunks that are done was saved, or could not be.
    Saved(Result<(), String>),
}

/// What is to be done next.
#[derive(Debug)]
pub enum Action {
    /// Search for the quality at which the chunk meets its target.
    Probe,
    /// Read how many requests to terminate have come.
    ReadTerminations,
    /// Look for the probe with this quality, and count its frames.
    InspectProbe { quality: u32 },
    /// Report the warning, and throw the probe with this quality away.
    DiscardProbe { quality: u32, warning: String },
    /// Store the probe with this quality as the encode.
    ReuseProbe { quality: u32 },
    /// Put so many frames onto the progress bar.
    AddFrames { frames: u64 },
    /// Run this pass.
    Encode { pass: u8 },
    /// Take so many frames off the progress bar.
    RetractFrames { frames: u64 },
    /// Report the warning.
    Warn { warning: String },
    /// Look up the size of the encode, which came to be in this way.
    Measure { completion: Completion },
    /// Note the chunk as done, with this.
    Record { done: DoneChunk },
    /// Save the list of chunks that are done.
    Save,
    /// Stop: `None` where the chunk is done.
    Stop { error: Option<String> },
}

/// The work on one chunk.
#[derive(Debug)]
pub struct ChunkRun {
    pub chunk: Chunk,
    pub max_tries: usize,
    /// Whether the video goes through filters that probes do not go through.
    pub filtered: bool,
    pub stage: Stage,
}

impl Stage {
    /// Whether `event` is what the stage waits for.
    pub open spec fn awaits(self, event: Event) -> bool {
        match self {
            Stage::Probing { .. } => event is Probed,
            Stage::ProbingFailed { .. } => event is Terminations,
            Stage::ProbingGivenUp { .. } => event is Terminations,
            Stage::Finalizing => event is Terminations,
            Stage::InspectingProbe { .. } => event is Inspected,
            Stage::DiscardingProbe { .. } => event is Discarded,
            Stage::ReusingProbe { .. } => event is Copied,
            Stage::CountingFrames => event is Shown,
            Stage::Starting => event is Terminations,
            Stage::Encoding { .. } => event is Encoded,
            Stage::RetractingFrames { .. } => event is Shown,
            Stage::EncodingFailed { .. } => event is Terminations,
            Stage::Restarting { .. } => event is Warned,
            Stage::Measuring { .. } => event is Measured,
            Stage::Recording { .. } => event is Recorded,
            Stage::Saving { .. } => event is Saved,
            Stage::Finished(_) => false,
        }
    }
}

/// The stage in which the chunk is given up.
pub open spec fn failed(error: ChunkError) -> Stage {
    Stage::Finished(Err(error))
}

impl ChunkRun {
    /// Whether the numbers in the stage fit the chunk.
    pub open spec fn wf(self) -> bool {
        &&& self.chunk.wf()
        &&& match self.stage {
            Stage::Probing { attempt } => self.probes(attempt),
            Stage::ProbingFailed { attempt, .. } => self.probes(attempt),
            Stage::ProbingGivenUp { attempt, .. } => self.probes(attempt),
            Stage::InspectingProbe { quality } => self.reusable_quality() == Some(quality),
            Stage::DiscardingProbe { quality, .. } => self.reusable_quality() == Some(quality),
            Stage::ReusingProbe { quality } => self.reusable_quality() == Some(quality),
            Stage::Encoding { pass, attempt } => self.counts(pass, attempt),
            Stage::RetractingFrames { pass, attempt, .. } => self.counts(pass, attempt),
            Stage::EncodingFailed { pass, attempt, .. } => self.counts(pass, attempt),
            Stage::Restarting { pass, attempt, .. } => self.counts(pass, attempt) && attempt
                < self.max_tries,
            _ => true,
        }
    }

    /// Whether a quality is to be searched for, and there may be such an attempt at it.
    pub open spec fn probes(self, attempt: usize) -> bool {
        self.chunk.needs_probing() && 1 <= attempt <= self.max_tries
    }

    /// Whether there is such a pass, and may be such an attempt at it.
    pub open spec fn counts(self, pass: u8, attempt: usize) -> bool {
        1 <= pass <= self.chunk.passes && 1 <= attempt <= self.max_tries
    }

    /// The quality of the probe that is as good as the encode, where there can be one: the probe
    /// saw every frame, unfiltered, of the video itself, with the parameters of the encode.
    pub open spec fn reusable_quality(self) -> Option<u32> {
        if self.chunk.target_quality.params_copied && self.chunk.target_quality.probing_rate == 1
            && !self.filtered && !self.chunk.has_proxy {
            self.chunk.tq_cq
        } else {
            None
        }
    }

    /// The stage behind the search for a quality.
    pub open spec fn after_probing(self) -> Stage {
        if self.chunk.target_quality.target is Some {
            Stage::Finalizing
        } else {
            Stage::Starting
        }
    }

    /// The stage in which pass `pass` starts, or the one behind the last pass.
    pub open spec fn pass_stage(self, pass: int) -> Stage {
        if pass <= self.chunk.passes && self.max_tries > 0 {
            Stage::Encoding { pass: pass as u8, attempt: 1 }
        } else {
            Stage::Measuring { completion: Completion::Encoded }
        }
    }

    /// The stage behind `event`.
    pub open spec fn next_stage(self, event: Event) -> Stage {
        let index = self.chunk.index;
        match (self.stage, event) {
            (Stage::Probing { .. }, Event::Probed(Ok(_))) => Stage::Finalizing,
            (Stage::Probing { attempt }, Event::Probed(Err(message))) => Stage::ProbingFailed {
                attempt,
                message,
            },
            (Stage::ProbingFailed { attempt, message }, Event::Terminations(count)) => if count < 2
                && attempt < self.max_tries {
                Stage::Probing { attempt: (attempt + 1) as usize }
            } else {
                Stage::ProbingGivenUp { attempt, message }
            },
            (Stage::ProbingGivenUp { attempt, message }, Event::Terminations(count)) => if count
                >= 2 {
                failed(ChunkError::ShutdownDuringTargetQuality { index })
            } else {
                failed(ChunkError::TargetQualityFailed { tries: attempt, index, message })
            },
            (Stage::Finalizing, Event::Terminations(count)) => if count >= 2 {
                failed(ChunkError::ShutdownDuringTargetQuality { index })
            } else {
                match self.reusable_quality() {
                    Some(quality) => Stage::InspectingProbe { quality },
                    None => Stage::Starting,
                }
            },
            (Stage::InspectingProbe { quality }, Event::Inspected(found)) => match found {
                None => Stage::Starting,
                Some(Err(message)) => Stage::DiscardingProbe {
                    quality,
                    fault: ProbeFault::Unreadable { message },
                },
                Some(Ok(frames)) => if self.chunk.accepts_probe(frames as int) {
                    Stage::ReusingProbe { quality }
                } else {
                    Stage::DiscardingProbe {
                        quality,
                        fault: ProbeFault::Mismatch(
                            FrameCountMismatch {
                                expected: self.chunk.spec_frames() as usize,
                                actual: frames,
                            },
                        ),
                    }
                },
            },
            (Stage::DiscardingProbe { .. }, Event::Discarded) => Stage::Starting,
            (Stage::ReusingProbe { .. }, Event::Copied(Ok(_))) => Stage::CountingFrames,
            (Stage::ReusingProbe { .. }, Event::Copied(Err(message))) => failed(
                ChunkError::NotStored { message },
            ),
            (Stage::CountingFrames, Event::Shown) => Stage::Measuring {
                completion: Completion::Reused,
            },
            (Stage::Starting, Event::Terminations(count)) => if count >= 2 {
                failed(ChunkError::ShutdownAfterTargetQuality { index })
            } else {
                self.pass_stage(1)
            },
            (Stage::Encoding { pass, .. }, Event::Encoded(Ok(_))) => self.pass_stage(pass + 1),
            (
                Stage::Encoding { pass, attempt },
                Event::Encoded(Err(failure)),
            ) => Stage::RetractingFrames { pass, attempt, failure },
            (
                Stage::RetractingFrames { pass, attempt, failure },
                Event::Shown,
            ) => Stage::EncodingFailed { pass, attempt, message: failure.message },
            (
                Stage::EncodingFailed { pass, attempt, message },
                Event::Terminations(count),
            ) => if count >= 2 {
                failed(ChunkError::TerminatedAfterRestart { index })
            } else if attempt == self.max_tries {
                failed(ChunkError::EncoderFailed { index, tries: self.max_tries, message })
            } else {
                Stage::Restarting { pass, attempt, message }
            },
            (Stage::Restarting { pass, attempt, .. }, Event::Warned) => Stage::Encoding {
                pass,
                attempt: (attempt + 1) as usize,
            },
            (Stage::Measuring { completion }, Event::Measured(Ok(size_bytes))) => Stage::Recording {
                completion,
                size_bytes,
            },
            (Stage::Measuring { .. }, Event::Measured(Err(message))) => failed(
                ChunkError::NotStored { message },
            ),
            (Stage::Recording { completion, .. }, Event::Recorded) => Stage::Saving { completion },
            (Stage::Saving { completion }, Event::Saved(Ok(_))) => Stage::Finished(Ok(completion)),
            (Stage::Saving { .. }, Event::Saved(Err(message))) => failed(
                ChunkError::NotStored { message },
            ),
            (stage, _) => stage,
        }
    }

    /// The chunk behind `event`: a quality that was found is noted in it.
    pub open spec fn next_chunk(self, event: Event) -> Chunk {
        match (self.stage, event) {
            (Stage::Probing { .. }, Event::Probed(Ok(quality))) => Chunk {
                tq_cq: Some(quality),
                ..self.chunk
            },
            _ => self.chunk,
        }
    }

    /// The work behind `event`.
    pub open spec fn next(self, event: Event) -> ChunkRun {
        ChunkRun { chunk: self.next_chunk(event), stage: self.next_stage(event), ..self }
    }
}

/// The work on `chunk` before anything has happened.
pub open spec fn fresh(chunk: Chunk, max_tries: usize, filtered: bool) -> ChunkRun {
    let run = ChunkRun { chunk, max_tries, filtered, stage: Stage::Starting };
    if chunk.needs_probing() && max_tries > 0 {
        ChunkRun { stage: Stage::Probing { attempt: 1 }, ..run }
    } else {
        ChunkRun { stage: run.after_probing(), ..run }
    }
}

impl<'a> Broker<'a> {
    /// Begins the work on `chunk`.
    pub fn encode_chunk(&self, chunk: Chunk) -> (run: ChunkRun)
        requires
            chunk.wf(),
        ensures
            run == fresh(
                chunk,
                self.project.args.max_tries,
                self.project.args.ffmpeg_filter_args@.len() > 0,
            ),
            run.wf(),
    {
        let max_tries: usize = self.project.args.max_tries;
        let filtered: bool = self.project.args.ffmpeg_filter_args.len() > 0;
        let stage: Stage = if target_quality_needs_probing(&chunk) && max_tries > 0 {
            Stage::Probing { attempt: 1 }
        } else if chunk.target_quality.target.is_some() {
            Stage::Finalizing
        } else {
            Stage::Starting
        };
        ChunkRun { chunk, max_tries, filtered, stage }
    }
}

impl ChunkRun {
    /// The quality of the probe that is as good as the encode, where there can be one.
    fn probe_to_reuse(&self) -> (quality: Option<u32>)
        ensures
            quality == self.reusable_quality(),
    {
        if self.chunk.target_quality.params_copied && self.chunk.target_quality.probing_rate == 1
            && !self.filtered && !self.chunk.has_proxy {
            self.chunk.tq_cq
        } else {
            None
        }
    }

    /// The stage in which the pass behind `finished` ones starts, or the one behind the last pass.
    fn pass_behind(&self, finished: u8) -> (stage: Stage)
        ensures
            stage == self.pass_stage(finished + 1),
    {
        if finished < self.chunk.passes && self.max_tries > 0 {
            Stage::Encoding { pass: finished + 1, attempt: 1 }
        } else {
            Stage::Measuring { completion: Completion::Encoded }
        }
    }

    /// Takes up what has happened.
    pub fn step(self, event: Event) -> (run: ChunkRun)
        requires
            self.wf(),
            self.stage.awaits(event),
        ensures
            run == self.next(event),
            run.wf(),
    {
        let index: usize = self.chunk.index;
        let mut chunk: Chunk = self.chunk;
        let after_pass: Stage = match self.stage {
            Stage::Encoding { pass, .. } => self.pass_behind(pass),
            _ => self.pass_behind(0),
        };
        let reusable: Option<u32> = self.probe_to_reuse();
        let stage: Stage = match (self.stage, event) {
            (Stage::Probing { attempt }, Event::Probed(outcome)) => match outcome {
                Ok(quality) => {
                    chunk.tq_cq = Some(quality);
                    Stage::Finalizing
                },
                Err(message) => Stage::ProbingFailed { attempt, message },
            },
            (Stage::ProbingFailed { attempt, message }, Event::Terminations(count)) => {
                if should_retry_target_quality(count, attempt, self.max_tries) {
                    Stage::Probing { attempt: attempt + 1 }
                } else {
                    Stage::ProbingGivenUp { attempt, message }
                }
            },
            (Stage::ProbingGivenUp { attempt, message }, Event::Terminations(count)) => {
                if is_hard_shutdown_requested(count) {
                    Stage::Finished(Err(ChunkError::ShutdownDuringTargetQuality { index }))
                } else {
                    Stage::Finished(
                        Err(ChunkError::TargetQualityFailed { tries: attempt, index, message }),
                    )
                }
            },
            (Stage::Finalizing, Event::Terminations(count)) => {
                if !can_finalize_target_quality(count) {
                    Stage::Finished(Err(ChunkError::ShutdownDuringTargetQuality { index }))
                } else {
                    match reusable {
                        Some(quality) => Stage::InspectingProbe { quality },
                        None => Stage::Starting,
                    }
                }
            },
            (Stage::InspectingProbe { quality }, Event::Inspected(found)) => match found {
                None => Stage::Starting,
                Some(Err(message)) => Stage::DiscardingProbe {
                    quality,
                    fault: ProbeFault::Unreadable { message },
                },
                Some(Ok(frames)) => match validate_reused_probe_frame_count(&chunk, frames) {
                    Ok(()) => Stage::ReusingProbe { quality },
                    Err(mismatch) => Stage::DiscardingProbe {
                        quality,
                        fault: ProbeFault::Mismatch(mismatch),
                    },
                },
            },
            (Stage::DiscardingProbe { .. }, Event::Discarded) => Stage::Starting,
            (Stage::ReusingProbe { .. }, Event::Copied(outcome)) => match outcome {
                Ok(()) => Stage::CountingFrames,
                Err(message) => Stage::Finished(Err(ChunkError::NotStored { message })),
            },
            (Stage::CountingFrames, Event::Shown) => Stage::Measuring {
                completion: Completion::Reused,
            },
            (Stage::Starting, Event::Terminations(count)) => {
                if is_hard_shutdown_requested(count) {
                    Stage::Finished(Err(ChunkError::ShutdownAfterTargetQuality { index }))
                } else {
                    after_pass
                }
            },
            (Stage::Encoding { pass, attempt }, Event::Encoded(outcome)) => match outcome {
                Ok(()) => after_pass,
                Err(failure) => Stage::RetractingFrames { pass, attempt, failure },
            },
            (
                Stage::RetractingFrames { pass, attempt, failure },
                Event::Shown,
            ) => Stage::EncodingFailed { pass, attempt, message: failure.message },
            (Stage::EncodingFailed { pass, attempt, message }, Event::Terminations(count)) => {
                if count > 1 {
                    Stage::Finished(Err(ChunkError::TerminatedAfterRestart { index }))
                } else if attempt == self.max_tries {
                    Stage::Finished(
                        Err(ChunkError::EncoderFailed { index, tries: self.max_tries, message }),
                    )
                } else {
                    Stage::Restarting { pass, attempt, message }
                }
            },
            (Stage::Restarting { pass, attempt, .. }, Event::Warned) => Stage::Encoding {
                pass,
                attempt: attempt + 1,
            },
            (Stage::Measuring { completion }, Event::Measured(outcome)) => match outcome {
                Ok(size_bytes) => Stage::Recording { completion, size_bytes },
                Err(message) => Stage::Finished(Err(ChunkError::NotStored { message })),
            },
            (Stage::Recording { completion, .. }, Event::Recorded) => Stage::Saving { completion },
            (Stage::Saving { completion }, Event::Saved(outcome)) => match outcome {
                Ok(()) => Stage::Finished(Ok(completion)),
                Err(message) => Stage::Finished(Err(ChunkError::NotStored { message })),
            },
            (stage, _) => stage,
        };
        ChunkRun { chunk, max_tries: self.max_tries, filtered: self.filtered, stage }
    }
}

impl ChunkError {
    /// What is said of the error.
    pub open spec fn message(self) -> Seq<char> {
        match self {
            ChunkError::ShutdownDuringTargetQuality {
                index,
            } => "Hard shutdown requested during Target Quality. Skipping chunk "@
                + crate::decimal::decimal(index as nat),
            ChunkError::TargetQualityFailed {
                tries,
                index,
                message,
            } => "Target Quality failed after "@ + crate::decimal::decimal(tries as nat)
                + " tries on chunk "@ + crate::decimal::decimal(index as nat) + ":\n"@ + message@,
            ChunkError::ShutdownAfterTargetQuality {
                index,
            } => "Hard shutdown requested after Target Quality. Skipping chunk "@
                + crate::decimal::decimal(index as nat),
            ChunkError::TerminatedAfterRestart {
                index,
            } => "Termination requested after Worker restart. Skipping chunk "@
                + crate::decimal::decimal(index as nat),
            ChunkError::EncoderFailed { index, tries, message } => "[chunk "@
                + crate::decimal::decimal(index as nat) + "] encoder failed "@
                + crate::decimal::decimal(tries as nat) + " times, shutting down worker: "@
                + message@,
            ChunkError::NotStored { message } => message@,
        }
    }

    /// What is said of the error.
    pub fn to_string(&self) -> (text: String)
        ensures
            text@ == self.message(),
    {
        match self {
            ChunkError::ShutdownDuringTargetQuality { index } => {
                let mut text: String =
                    "Hard shutdown requested during Target Quality. Skipping chunk ".to_owned();
                push_decimal(&mut text, *index as u64);
                text
            },
            ChunkError::TargetQualityFailed { tries, index, message } => {
                let mut text: String = "Target Quality failed after ".to_owned();
                push_decimal(&mut text, *tries as u64);
                text.append(" tries on chunk ");
                push_decimal(&mut text, *index as u64);
                text.append(":\n");
                text.append(message.as_str());
                text
            },
            ChunkError::ShutdownAfterTargetQuality { index } => {
                let mut text: String =
                    "Hard shutdown requested after Target Quality. Skipping chunk ".to_owned();
                push_decimal(&mut text, *index as u64);
                text
            },
            ChunkError::TerminatedAfterRestart { index } => {
                let mut text: String =
                    "Termination requested after Worker restart. Skipping chunk ".to_owned();
                push_decimal(&mut text, *index as u64);
                text
            },
            ChunkError::EncoderFailed { index, tries, message } => {
                let mut text: String = "[chunk ".to_owned();
                push_decimal(&mut text, *index as u64);
                text.append("] encoder failed ");
                push_decimal(&mut text, *tries as u64);
                text.append(" times, shutting down worker: ");
                text.append(message.as_str());
                text
            },
            ChunkError::NotStored { message } => message.as_str().to_owned(),
        }
    }
}

impl ProbeFault {
    /// What is said of the fault.
    pub open spec fn message(self) -> Seq<char> {
        match self {
            ProbeFault::Unreadable { message } => message@,
            ProbeFault::Mismatch(mismatch) => mismatch.message(),
        }
    }

    /// What is said of the fault.
    pub fn to_string(&self) -> (text: String)
        ensures
            text@ == self.message(),
    {
        match self {
            ProbeFault::Unreadable { message } => message.as_str().to_owned(),
            ProbeFault::Mismatch(mismatch) => mismatch.to_string(),
        }
    }
}

/// What is said of a probe of chunk `index` that is thrown away.
pub open spec fn probe_warning(index: usize, fault: ProbeFault) -> Seq<char> {
    "Selected Target Quality probe for chunk "@ + crate::decimal::decimal(index as nat)
        + " is invalid; removing it and falling back to final encoding: "@ + fault.message()
}

/// What is said of a pass of chunk `index` that failed and is run once more.
pub open spec fn restart_warning(index: usize, message: Seq<char>) -> Seq<char> {
    "Encoder failed (on chunk "@ + crate::decimal::decimal(index as nat) + "):\n"@ + message
}

impl ChunkRun {
    /// What is noted of the chunk, where its encode has `size_bytes` bytes.
    pub open spec fn noted(self, size_bytes: u64) -> DoneChunk {
        DoneChunk { frames: self.chunk.spec_frames() as usize, size_bytes }
    }

    /// Whether `action` is what the stage asks for.
    pub open spec fn asks(self, action: Action) -> bool {
        match self.stage {
            Stage::Probing { .. } => action is Probe,
            Stage::ProbingFailed { .. } => action is ReadTerminations,
            Stage::ProbingGivenUp { .. } => action is ReadTerminations,
            Stage::Finalizing => action is ReadTerminations,
            Stage::InspectingProbe { quality } => action == (Action::InspectProbe { quality }),
            Stage::DiscardingProbe { quality, fault } => match action {
                Action::DiscardProbe { quality: discarded, warning } => discarded == quality
                    && warning@ == probe_warning(self.chunk.index, fault),
                _ => false,
            },
            Stage::ReusingProbe { quality } => action == (Action::ReuseProbe { quality }),
            Stage::CountingFrames => action matches Action::AddFrames { frames } && frames
                == self.chunk.spec_frames(),
            Stage::Starting => action is ReadTerminations,
            Stage::Encoding { pass, .. } => action == (Action::Encode { pass }),
            Stage::RetractingFrames { failure, .. } => action == (Action::RetractFrames {
                frames: failure.frames,
            }),
            Stage::EncodingFailed { .. } => action is ReadTerminations,
            Stage::Restarting { message, .. } => match action {
                Action::Warn { warning } => warning@ == restart_warning(
                    self.chunk.index,
                    message@,
                ),
                _ => false,
            },
            Stage::Measuring { completion } => action == (Action::Measure { completion }),
            Stage::Recording { size_bytes, .. } => action == (Action::Record {
                done: self.noted(size_bytes),
            }),
            Stage::Saving { .. } => action is Save,
            Stage::Finished(Ok(_)) => action == (Action::Stop { error: None }),
            Stage::Finished(Err(error)) => match action {
                Action::Stop { error: Some(text) } => text@ == error.message(),
                _ => false,
            },
        }
    }

    /// What is to be done next.
    pub fn action(&self) -> (action: Action)
        requires
            self.wf(),
        ensures
            self.asks(action),
    {
        match &self.stage {
            Stage::Probing { .. } => Action::Probe,
            Stage::ProbingFailed { .. } => Action::ReadTerminations,
            Stage::ProbingGivenUp { .. } => Action::ReadTerminations,
            Stage::Finalizing => Action::ReadTerminations,
            Stage::InspectingProbe { quality } => Action::InspectProbe { quality: *quality },
            Stage::DiscardingProbe { quality, fault } => {
                let mut warning: String = "Selected Target Quality probe for chunk ".to_owned();
                push_decimal(&mut warning, self.chunk.index as u64);
                warning.append(" is invalid; removing it and falling back to final encoding: ");
                warning.append(fault.to_string().as_str());
                Action::DiscardProbe { quality: *quality, warning }
            },
            Stage::ReusingProbe { quality } => Action::ReuseProbe { quality: *quality },
            Stage::CountingFrames => Action::AddFrames { frames: self.chunk.frames() as u64 },
            Stage::Starting => Action::ReadTerminations,
            Stage::Encoding { pass, .. } => Action::Encode { pass: *pass },
            Stage::RetractingFrames { failure, .. } => Action::RetractFrames {
                frames: failure.frames,
            },
            Stage::EncodingFailed { .. } => Action::ReadTerminations,
            Stage::Restarting { message, .. } => {
                let mut warning: String = "Encoder failed (on chunk ".to_owned();
                push_decimal(&mut warning, self.chunk.index as u64);
                warning.append("):\n");
                warning.append(message.as_str());
                Action::Warn { warning }
            },
            Stage::Measuring { completion } => Action::Measure { completion: *completion },
            Stage::Recording { size_bytes, .. } => Action::Record {
                done: DoneChunk { frames: self.chunk.frames(), size_bytes: *size_bytes },
            },
            Stage::Saving { .. } => Action::Save,
            Stage::Finished(Ok(_)) => Action::Stop { error: None },
            Stage::Finished(Err(error)) => Action::Stop { error: Some(error.to_string()) },
        }
    }
}

} // verus!
