//! The local terminal as a channel.
use vstd::prelude::*;
use crate::channels::base::{text_message, BaseChannel};
use crate::json::Json;
use crate::model::channel::{Channel, InboundMessage, MessageContent, OutboundMessage};
use crate::text::{cat3, str_trim, trim};

verus! {

#[derive(Debug)]
pub struct CliChannel {
    pub base: BaseChannel,
}

/// What is shown of a reply.
pub open spec fn shown(content: MessageContent) -> Seq<char> {
    match content {
        MessageContent::Text(t) => t@,
        MessageContent::Image(_) => "[image received]"@,
        MessageContent::Audio(_) => "[audio received]"@,
        MessageContent::File { name, data } => "[file received: "@ + name@ + "]"@,
    }
}

impl CliChannel {
    pub fn new() -> (r: CliChannel)
        ensures
            r.base.name@ == "cli"@,
            r.base.allow_from@.len() == 0,
            r.base.allow_from_groups@.len() == 0,
            !r.base.require_mention,
            !r.base.running,
    {
        CliChannel { base: BaseChannel::new("cli") }
    }

    /// The message that a line of input becomes, none for a blank one.
    pub fn start(&self, line: &str) -> (r: Option<InboundMessage>)
        ensures
            r is Some == (trim(line@).len() > 0 && self.base.allowed("local_user"@)),
            r matches Some(m) ==> m@ == text_message(
                m.id@,
                self.base.name@,
                "local_user"@,
                "User"@,
                "cli:default"@,
                trim(line@),
                Map::empty(),
            ),
    {
        let text = str_trim(line);
        if text.as_str().is_empty() {
            return None;
        }
        let metadata: Vec<(String, Json)> = Vec::new();
        proof {
            assert(crate::json::json_map(metadata@) =~= Map::empty());
        }
        self.base.handle_message("local_user", "User", "cli:default", text.as_str(), metadata)
    }

    /// What is printed for a reply.
    pub fn send(&self, msg: &OutboundMessage) -> (r: String)
        ensures
            r@ == "\n🤖 \x1b[36mAssistant\x1b[0m:\n"@ + shown(msg.content) + "\n"@,
    {
        let content = match &msg.content {
            MessageContent::Text(t) => t.clone(),
            MessageContent::Image(_) => "[image received]".to_owned(),
            MessageContent::Audio(_) => "[audio received]".to_owned(),
            MessageContent::File { name, data } => cat3("[file received: ", name.as_str(), "]"),
        };
        cat3("\n🤖 \x1b[36mAssistant\x1b[0m:\n", content.as_str(), "\n")
    }
}

impl Channel for CliChannel {
    fn name(&self) -> (r: String)
        ensures
            r@ == self.base.name@,
    {
        self.base.name.clone()
    }

    fn is_running(&self) -> (r: bool)
        ensures
            r == self.base.running,
    {
        self.base.running
    }
}

} // verus!
