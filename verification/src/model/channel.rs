//! Messages between channels and the rest of the runtime.
use vstd::prelude::*;
use crate::json::{json_map, Json, JsonTree};

verus! {

/// What a message carries.
#[derive(Clone, Debug)]
pub enum MessageContent {
    Text(String),
    Image(Vec<u8>),
    Audio(Vec<u8>),
    File { name: String, data: Vec<u8> },
}

pub enum ContentView {
    Text(Seq<char>),
    Image(Seq<u8>),
    Audio(Seq<u8>),
    File { name: Seq<char>, data: Seq<u8> },
}

impl View for MessageContent {
    type V = ContentView;

    open spec fn view(&self) -> ContentView {
        match *self {
            MessageContent::Text(t) => ContentView::Text(t@),
            MessageContent::Image(d) => ContentView::Image(d@),
            MessageContent::Audio(d) => ContentView::Audio(d@),
            MessageContent::File { name, data } => ContentView::File { name: name@, data: data@ },
        }
    }
}

/// A message that a channel received.
#[derive(Clone, Debug)]
pub struct InboundMessage {
    pub id: String,
    pub channel: String,
    pub session_id: String,
    pub sender_id: String,
    pub sender_name: String,
    pub content: MessageContent,
    pub reply_to: Option<String>,
    pub metadata: Vec<(String, Json)>,
}

pub struct InboundView {
    pub id: Seq<char>,
    pub channel: Seq<char>,
    pub session_id: Seq<char>,
    pub sender_id: Seq<char>,
    pub sender_name: Seq<char>,
    pub content: ContentView,
    pub reply_to: Option<Seq<char>>,
    pub metadata: Map<Seq<char>, JsonTree>,
}

impl View for InboundMessage {
    type V = InboundView;

    open spec fn view(&self) -> InboundView {
        InboundView {
            id: self.id@,
            channel: self.channel@,
            session_id: self.session_id@,
            sender_id: self.sender_id@,
            sender_name: self.sender_name@,
            content: self.content@,
            reply_to: crate::text::opt_string(self.reply_to),
            metadata: json_map(self.metadata@),
        }
    }
}

pub open spec fn opt_inbound(o: Option<InboundMessage>) -> Option<InboundView> {
    match o {
        Some(m) => Some(m@),
        None => None,
    }
}

/// A message for a channel to deliver.
#[derive(Clone, Debug)]
pub struct OutboundMessage {
    pub id: String,
    pub target_channel: String,
    pub target_session_id: String,
    pub content: MessageContent,
    pub reply_to: Option<String>,
}

/// A messaging channel, as far as its registry is concerned.
pub trait Channel {
    /// The name under which messages are addressed to the channel.
    fn name(&self) -> String;

    fn is_running(&self) -> bool;

    /// Whether the channel can ask a user for approval.
    fn supports_approval_prompts(&self) -> (r: bool)
        default_ensures
            !r,
    {
        false
    }

    /// Whether a reply can be shown while it is being written.
    fn supports_draft_updates(&self) -> (r: bool)
        default_ensures
            !r,
    {
        false
    }
}

impl OutboundMessage {
    /// Where a message goes and what it says; `None` where it holds no text,
    /// which channels that deliver text alone drop.
    pub fn text_target(&self) -> (r: Option<(String, String)>)
        ensures
            match r {
                Some((target, text)) => target@ == self.target_session_id@ && (
                self.content matches MessageContent::Text(t) && text@ == t@),
                None => !(self.content is Text),
            },
    {
        match &self.content {
            MessageContent::Text(t) => Some((self.target_session_id.clone(), t.clone())),
            _ => None,
        }
    }
}

/// `Uuid::new_v4` draws a random identifier; its text form is the 36
/// characters of the hyphenated notation.  Nothing more is claimed of it.
#[verifier::external_body]
pub(crate) fn fresh_uuid() -> (r: String)
    ensures
        r@.len() == 36,
{
    uuid::Uuid::new_v4().to_string()
}

/// Adds the member `key` to a list of members.
pub fn put_member(m: &mut Vec<(String, Json)>, key: &str, value: Json)
    ensures
        json_map(final(m)@) == json_map(old(m)@).insert(key@, value@),
{
    let ghost before = m@;
    m.push((key.to_owned(), value));
    proof {
        assert(m@.drop_last() =~= before);
    }
}

} // verus!
