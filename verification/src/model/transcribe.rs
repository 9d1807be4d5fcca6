//! Speech to text.
use vstd::prelude::*;

verus! {

/// A transcriber of recordings.
pub trait Transcriber {
    /// The text of a recording.  The file name hints at its format; without a
    /// language the language is recognized.
    fn transcribe(
        &self,
        audio_bytes: Vec<u8>,
        filename: &str,
        language: Option<&str>,
    ) -> Result<String, String>;
}

} // verus!
