//! Working space of the encoders and decoders.

pub mod decoder_work;
pub mod encoder_work;

pub use decoder_work::DecoderWork;
pub use encoder_work::EncoderWork;
