//! Length-delimited framing over a byte channel.
//!
//! A frame travels as a fixed-layout header that holds the payload length,
//! followed by the payload. `Builder` describes the header layout; `Decoder`
//! splits received bytes into frames, and `Encoder` queues frames as bytes
//! to be written. Both are driven from outside: the driver hands the decoder
//! what it read and writes out what the encoder has queued.

pub mod buffer;
pub mod config;
pub mod decoder;
pub mod encoder;
pub mod error;
pub mod length;

pub use config::{Builder, ByteOrder};
pub use decoder::{DecodeState, Decoder};
pub use encoder::{EncodeState, Encoder, SendOutcome};
pub use error::FrameError;
