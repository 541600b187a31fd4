//! Chunk bookkeeping for a chunked video encoder: joining encoded chunks and deciding what a
//! worker does with each chunk.

pub mod broker;
pub mod concat;
pub mod decimal;
pub mod decimal_laws;
pub mod encoder;
pub mod little_endian;
