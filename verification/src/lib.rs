//! Streaming run-length codec for sparse binary data.
//!
//! Payloads dominated by long runs of equal bits are compressed into a
//! bit-oriented symbol stream and recovered from it. Both directions are
//! push-pull stream processors: the caller hands in input and output byte
//! buffers, the codec consumes and produces what it can, and reports whether
//! it is starved for input or for output space.
pub mod decoder;
pub mod encoder;
pub mod format;

pub use decoder::decode_from_slice;
pub use decoder::DecodeSliceError;
pub use decoder::Decoder;
pub use decoder::DecoderState;
pub use encoder::encode_into_slice;
pub use encoder::EncodeSliceError;
pub use encoder::Encoder;
pub use encoder::EncoderState;
