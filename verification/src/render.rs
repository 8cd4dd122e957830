//! What a rendering backend hands back at the end of a frame, and how
//! writing a frame out can fail.

use vstd::prelude::*;

verus! {

/// Errors produced by rendering backends.
#[derive(Debug)]
pub enum RenderError {
    /// I/O failure (e.g. writing a PPM).
    Io(std::io::Error),
}

/// Pixel/character data produced by a backend at end of frame.
#[derive(Debug)]
pub enum RenderOutput {
    /// RGB pixel buffer.
    Pixels {
        /// Width.
        width: u32,
        /// Height.
        height: u32,
        /// Row-major RGB bytes, len == w*h*3.
        rgb: Vec<u8>,
    },
    /// Rendered text (ASCII backend).
    Text(String),
    /// Backend produced nothing this frame.
    Nothing,
}

} // verus!
