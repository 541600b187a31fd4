//! What workers do with the chunks of a video.

pub mod affinity;
pub mod captured;
pub mod chunk;
pub mod context;
pub mod encode;
pub mod encode_dialogue;
pub mod encode_laws;
pub mod shutdown;
pub mod worker;
pub mod worker_dialogue;
pub mod worker_laws;
