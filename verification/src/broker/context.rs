//! What is known of the whole encode.

use crate::broker::chunk::Chunk;
use crate::encoder::Encoder;
use vstd::prelude::*;

verus! {

/// The settings that workers go by.
#[derive(Debug)]
pub struct EncodeArgs {
    pub encoder: Encoder,
    pub workers: usize,
    /// How often a step is tried before it counts as failed.
    pub max_tries: usize,
    /// The filters that the video goes through before it is encoded.
    pub ffmpeg_filter_args: Vec<String>,
}

/// One encode of a video.
#[derive(Debug)]
pub struct Av1anContext {
    pub args: EncodeArgs,
}

/// The chunks to encode, and what they belong to.
#[derive(Debug)]
pub struct Broker<'a> {
    pub chunk_queue: Vec<Chunk>,
    pub project: &'a Av1anContext,
}

} // verus!
