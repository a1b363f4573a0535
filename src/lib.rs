//! Work buffers, shard store and result views of a Reed-Solomon erasure
//! coder over GF(2^16).

pub mod decoder_result;
pub mod encoder_result;
pub mod engine;
pub mod error;
pub mod rate;

pub use decoder_result::{DecoderResult, RestoredOriginal};
pub use encoder_result::{EncoderResult, Recovery};
pub use error::Error;
