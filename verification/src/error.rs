use vstd::prelude::*;

verus! {

/// Errors that the label and printer logic reports.
#[derive(Debug)]
pub enum PtlError {
    /// No supported P-Touch printer was found.
    NoPrinterFound,
    /// The printer is in P-Lite mode, which is not supported.
    PliteMode,
    /// The requested font could not be found.
    FontNotFound(String),
    /// Rendering failed.
    Render(String),
    /// The printer reported a tape width with no known pixel width.
    UnknownTapeWidth(u8),
    /// The configuration could not be read.
    Config(String),
    /// A label specification held neither text nor an image.
    EmptyLabel,
}

} // verus!
