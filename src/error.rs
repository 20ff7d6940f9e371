use vstd::prelude::*;

verus! {

/// Why decoding or encoding a frame failed.
#[derive(Debug, Clone, Copy, PartialEq, Eq, Structural)]
pub enum FrameError {
    /// A declared or requested length exceeds what the configuration allows.
    FrameTooLarge,
    /// The length adjustment takes the payload length below zero or past `usize`.
    LengthOverflow,
    /// The channel closed with part of a header buffered.
    TruncatedHeader,
    /// The channel closed while payload bytes were still outstanding.
    TruncatedPayload,
}

impl FrameError {
    /// A short description of the error.
    pub fn message(&self) -> (r: &'static str) {
        match self {
            FrameError::FrameTooLarge => "frame size too big",
            FrameError::LengthOverflow => "provided length would overflow after adjustment",
            FrameError::TruncatedHeader => "channel closed in the middle of a frame header",
            FrameError::TruncatedPayload => "channel closed in the middle of a frame payload",
        }
    }
}

} // verus!
