//! Speech transcription by Groq.
use vstd::prelude::*;
use crate::json::{Json, JsonTree};
use crate::providers::http::{base_of, base_url};
use crate::text::{cat2, cat4, opt_str, str_trim, trim};

verus! {

pub const BASE_URL: &'static str = "https://api.groq.com/openai/v1";

pub const WHISPER_MODEL: &'static str = "whisper-large-v3";

/// The media type under which a recording is sent.
pub const AUDIO_TYPE: &'static str = "audio/ogg";

/// A transcriber of recordings.
pub struct GroqWhisper {
    pub key: String,
    pub base_url: String,
}

/// The text fields of a transcription request.
pub struct TranscriptionForm {
    pub url: String,
    pub authorization: String,
    pub model: &'static str,
    pub language: Option<String>,
}

/// The transcript in an answer.
pub open spec fn transcript_of(data: JsonTree) -> Seq<char> {
    trim(data.field("text"@).text_or_empty())
}

impl GroqWhisper {
    pub fn new(key: &str, url: Option<&str>) -> (r: Self)
        ensures
            r.key@ == key@,
            r.base_url@ == base_of(opt_str(url), BASE_URL@),
    {
        GroqWhisper { key: key.to_owned(), base_url: base_url(url, BASE_URL) }
    }

    /// What is sent beside the recording; no language means that it is
    /// recognized.
    pub fn transcribe(&self, language: Option<&str>) -> (r: TranscriptionForm)
        ensures
            r.url@ == self.base_url@ + "/audio/transcriptions"@,
            r.authorization@ == "Bearer "@ + self.key@,
            r.model@ == WHISPER_MODEL@,
            crate::text::opt_string(r.language) == opt_str(language),
    {
        TranscriptionForm {
            url: cat2(self.base_url.as_str(), "/audio/transcriptions"),
            authorization: cat2("Bearer ", self.key.as_str()),
            model: WHISPER_MODEL,
            language: match language {
                Some(l) => Some(l.to_owned()),
                None => None,
            },
        }
    }

    /// The failure that an answer without success stands for.
    pub fn transcription_failure(status: &str, body: &str) -> (r: String)
        ensures
            r@ == "Groq Whisper API error "@ + status@ + ": "@ + body@,
    {
        cat4("Groq Whisper API error ", status, ": ", body)
    }

    /// The transcript in an answer.
    pub fn parse_transcript(data: &Json) -> (r: String)
        ensures
            r@ == transcript_of(data@),
    {
        let t = data.field("text").str_or_empty();
        str_trim(t.as_str())
    }
}

} // verus!
