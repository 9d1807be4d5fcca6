//! What can go wrong in a channel.
use vstd::prelude::*;
use crate::text::cat2;

verus! {

/// What went wrong in a channel; errors of other layers are kept as texts.
#[derive(Debug)]
pub enum ChannelError {
    Http(String),
    Auth(String),
    Disconnected,
    Config(String),
    Serde(String),
    Io(String),
    Timeout,
    WebSocket(String),
    Platform(String),
}

impl ChannelError {
    /// The error as a text.
    pub open spec fn text(&self) -> Seq<char> {
        match *self {
            ChannelError::Http(e) => "HTTP error: "@ + e@,
            ChannelError::Auth(e) => "Authentication error: "@ + e@,
            ChannelError::Disconnected => "Channel disconnected"@,
            ChannelError::Config(e) => "Configuration error: "@ + e@,
            ChannelError::Serde(e) => "Serialisation error: "@ + e@,
            ChannelError::Io(e) => "IO error: "@ + e@,
            ChannelError::Timeout => "Operation timed out"@,
            ChannelError::WebSocket(e) => "WebSocket error: "@ + e@,
            ChannelError::Platform(e) => "Platform error: "@ + e@,
        }
    }

    /// The error as a text.
    pub fn to_text(&self) -> (r: String)
        ensures
            r@ == self.text(),
    {
        match self {
            ChannelError::Http(e) => cat2("HTTP error: ", e.as_str()),
            ChannelError::Auth(e) => cat2("Authentication error: ", e.as_str()),
            ChannelError::Disconnected => "Channel disconnected".to_owned(),
            ChannelError::Config(e) => cat2("Configuration error: ", e.as_str()),
            ChannelError::Serde(e) => cat2("Serialisation error: ", e.as_str()),
            ChannelError::Io(e) => cat2("IO error: ", e.as_str()),
            ChannelError::Timeout => "Operation timed out".to_owned(),
            ChannelError::WebSocket(e) => cat2("WebSocket error: ", e.as_str()),
            ChannelError::Platform(e) => cat2("Platform error: ", e.as_str()),
        }
    }
}

} // verus!
