//! Heapless, streaming Base64 encoder and decoder.
//!
//! Both directions work over a borrowed byte slice and hand their output
//! back one byte at a time, from a fixed-size staging buffer that is
//! refilled one chunk at a time; no growable intermediate buffer holds the
//! whole result. The decoder additionally tracks a status that records
//! whether every chunk processed so far was valid, and stops producing
//! output at the first invalid chunk.

pub mod decoder;
pub mod encoder;
pub mod lemmas;
pub mod model;

pub use decoder::Base64Decoder;
pub use decoder::Base64Result;
pub use encoder::Base64Encoder;
