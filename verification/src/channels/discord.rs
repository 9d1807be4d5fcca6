//! Discord: the gateway protocol, messages and replies.
use vstd::prelude::*;
use crate::channels::base::{draft_message, opt_draft, BaseChannel, Draft, DraftView};
use crate::channels::split::{reply_chunks, split_reply};
use crate::json::{json_map, json_parse, json_text, parse_json, Json, JsonTree};
use crate::model::channel::{put_member, InboundMessage};
use crate::text::{cat2, cat3, same_str, starts_with, str_starts_with, str_trim, texts, trim};

verus! {

pub const DISCORD_API: &'static str = "https://discord.com/api/v10";

/// Message content, guild messages and direct messages: bits 15, 9 and 12.
pub const DEFAULT_INTENTS: u64 = 0x9200;

/// The longest message that Discord accepts, in characters.
pub const DISCORD_MAX_CHARS: usize = 2000;

pub struct DiscordChannel {
    pub base: BaseChannel,
    pub token: String,
    pub intents: u64,
}

/// What arrives from the gateway connection.
#[derive(Debug)]
pub enum GatewayFrame {
    Text(String),
    Ping,
    Close,
    Other,
    /// The stream of frames ended.
    Ended,
    /// The connection failed.
    Failed(String),
    /// Nothing arrived for two minutes.
    TimedOut,
}

/// What is to be done about a frame.
pub enum GatewayAction {
    /// Wait for the next frame.
    Wait,
    /// Send this text.
    Send(String),
    /// Send the identification and from then on a heartbeat every so many
    /// milliseconds.
    Identify { text: String, heartbeat_ms: u64 },
    /// Show that an answer is under way in the channel and hand the message
    /// on, if there is one.
    Deliver { channel_id: String, message: Option<InboundMessage> },
    /// Leave the session after so many seconds and connect again.
    Reconnect { after_secs: u64 },
    /// The session ended in good order.
    End,
    /// The session failed.
    Fail(String),
}

/// The heartbeat message.
pub open spec fn heartbeat_tree() -> JsonTree {
    JsonTree::Obj(Map::empty().insert("op"@, JsonTree::UInt(1)).insert("d"@, JsonTree::Null))
}

/// The identification message.
pub open spec fn identify_tree(token: Seq<char>, intents: u64) -> JsonTree {
    JsonTree::Obj(
        Map::empty().insert("op"@, JsonTree::UInt(2)).insert(
            "d"@,
            JsonTree::Obj(
                Map::empty().insert("token"@, JsonTree::Str(token)).insert(
                    "intents"@,
                    JsonTree::UInt(intents),
                ).insert(
                    "properties"@,
                    JsonTree::Obj(
                        Map::empty().insert("os"@, JsonTree::Str("linux"@)).insert(
                            "browser"@,
                            JsonTree::Str("adaclaw"@),
                        ).insert("device"@, JsonTree::Str("adaclaw"@)),
                    ),
                ),
            ),
        ),
    )
}

/// The text of a heartbeat message.
pub fn heartbeat() -> (r: String)
    ensures
        r@ == json_text(heartbeat_tree()),
{
    Json::obj().with("op", Json::UInt(1)).with("d", Json::Null).to_text()
}

/// The draft of a created message: none for messages of bots and for messages
/// without text, sender or channel.
pub open spec fn created_draft(data: JsonTree) -> Option<DraftView> {
    let author = data.field("author"@);
    let sender = author.field("id"@).text_or_empty();
    let channel = data.field("channel_id"@).text_or_empty();
    let content = trim(data.field("content"@).text_or_empty());
    if author.field("bot"@).as_bool() == Some(true) || content.len() == 0 || sender.len() == 0
        || channel.len() == 0 {
        None
    } else {
        Some(
            DraftView {
                sender_id: sender,
                sender_name: match author.field("username"@).as_str() {
                    Some(n) => n,
                    None => sender,
                },
                session_id: channel,
                content,
                metadata: Map::empty().insert(
                    "message_id"@,
                    JsonTree::Str(data.field("id"@).text_or_empty()),
                ).insert("guild_id"@, JsonTree::Str(data.field("guild_id"@).text_or_empty())),
            },
        )
    }
}

/// The operation code of a payload.
pub open spec fn op_code(payload: JsonTree) -> u64 {
    match payload.field("op"@).as_u64() {
        Some(op) => op,
        None => 999,
    }
}

/// Whether the payload announces a created message that is to be handed on.
pub open spec fn announces_message(payload: JsonTree) -> bool {
    op_code(payload) == 0 && payload.field("t"@).text_or_empty() == "MESSAGE_CREATE"@
        && created_draft(payload.field("d"@)) is Some
}

/// Whether `action` is what is to be done about a payload.
pub open spec fn is_payload_action(
    ch: DiscordChannel,
    payload: JsonTree,
    action: GatewayAction,
) -> bool {
    let op = op_code(payload);
    let data = payload.field("d"@);
    if op == 10 {
        action matches GatewayAction::Identify { text, heartbeat_ms } && text@ == json_text(
            identify_tree(ch.token@, ch.intents),
        ) && heartbeat_ms == match data.field("heartbeat_interval"@).as_u64() {
            Some(ms) => ms,
            None => 45000,
        }
    } else if announces_message(payload) {
        let draft = created_draft(data)->0;
        action matches GatewayAction::Deliver { channel_id, message } && channel_id@
            == draft.session_id && message is Some == ch.base.allowed(draft.sender_id) && (
        message matches Some(m) ==> m@ == draft_message(m.id@, ch.base.name@, draft))
    } else if op == 7 {
        action matches GatewayAction::Reconnect { after_secs } && after_secs == 0
    } else if op == 9 {
        action matches GatewayAction::Reconnect { after_secs } && after_secs == 5
    } else {
        action is Wait
    }
}

/// Whether `action` is what is to be done about a frame.
pub open spec fn is_frame_action(
    ch: DiscordChannel,
    frame: GatewayFrame,
    action: GatewayAction,
) -> bool {
    match frame {
        GatewayFrame::Text(t) => match json_parse(t@) {
            Some(payload) => is_payload_action(ch, payload, action),
            None => action is Wait,
        },
        GatewayFrame::Ping => action matches GatewayAction::Send(t) && t@ == json_text(
            heartbeat_tree(),
        ),
        GatewayFrame::Other => action is Wait,
        GatewayFrame::Close => action is End,
        GatewayFrame::Ended => action is End,
        GatewayFrame::Failed(e) => action matches GatewayAction::Fail(m) && m@
            == "Discord WebSocket error: "@ + e@,
        GatewayFrame::TimedOut => action matches GatewayAction::Fail(m) && m@
            == "Discord Gateway read timeout"@,
    }
}

impl DiscordChannel {
    pub fn new(token: String, allow_from: Vec<String>, intents: Option<u64>) -> (r: DiscordChannel)
        ensures
            r.base.name@ == "discord"@,
            r.base.allow_from == allow_from,
            r.base.allow_from_groups@.len() == 0,
            !r.base.running,
            r.token == token,
            r.intents == match intents {
                Some(i) => i,
                None => DEFAULT_INTENTS,
            },
    {
        DiscordChannel {
            base: BaseChannel::new("discord").with_allow_from(allow_from),
            token,
            intents: match intents {
                Some(i) => i,
                None => DEFAULT_INTENTS,
            },
        }
    }

    /// The value of the authorization header.
    pub fn auth_header(&self) -> (r: String)
        ensures
            r@ == if starts_with(self.token@, "Bot "@) {
                self.token@
            } else {
                "Bot "@ + self.token@
            },
    {
        if str_starts_with(self.token.as_str(), "Bot ") {
            self.token.clone()
        } else {
            cat2("Bot ", self.token.as_str())
        }
    }

    /// The draft of a created message.
    pub fn handle_message_create(&self, data: &Json) -> (r: Option<Draft>)
        ensures
            opt_draft(r) == created_draft(data@),
    {
        let author = data.field("author");
        if author.field("bot").as_bool() == Some(true) {
            return None;
        }
        let sender_id = author.field("id").str_or_empty();
        let sender_name = match author.field("username").as_str() {
            Some(n) => n.to_owned(),
            None => sender_id.clone(),
        };
        let channel_id = data.field("channel_id").str_or_empty();
        let raw = data.field("content").str_or_empty();
        let content = str_trim(raw.as_str());
        if content.as_str().is_empty() || sender_id.as_str().is_empty()
            || channel_id.as_str().is_empty() {
            return None;
        }
        let mut metadata: Vec<(String, Json)> = Vec::new();
        proof {
            assert(json_map(metadata@) =~= Map::empty());
        }
        let message_id = data.field("id").str_or_empty();
        let guild_id = data.field("guild_id").str_or_empty();
        put_member(&mut metadata, "message_id", Json::Str(message_id));
        put_member(&mut metadata, "guild_id", Json::Str(guild_id));
        Some(Draft { sender_id, sender_name, session_id: channel_id, content, metadata })
    }

    /// What is to be done about a payload.
    pub fn handle_payload(&self, payload: &Json) -> (r: GatewayAction)
        ensures
            is_payload_action(*self, payload@, r),
    {
        let op: u64 = match payload.field("op").as_u64() {
            Some(op) => op,
            None => 999,
        };
        let data = payload.field("d");
        if op == 10 {
            let heartbeat_ms: u64 = match data.field("heartbeat_interval").as_u64() {
                Some(ms) => ms,
                None => 45000,
            };
            let properties = Json::obj().with("os", Json::text("linux")).with(
                "browser",
                Json::text("adaclaw"),
            ).with("device", Json::text("adaclaw"));
            let d = Json::obj().with("token", Json::text(self.token.as_str())).with(
                "intents",
                Json::UInt(self.intents),
            ).with("properties", properties);
            let text = Json::obj().with("op", Json::UInt(2)).with("d", d).to_text();
            return GatewayAction::Identify { text, heartbeat_ms };
        }
        if op == 0 {
            let event = payload.field("t").str_or_empty();
            if same_str(event.as_str(), "MESSAGE_CREATE") {
                if let Some(draft) = self.handle_message_create(data) {
                    let channel_id = draft.session_id.clone();
                    let message = self.base.handle_draft(draft);
                    return GatewayAction::Deliver { channel_id, message };
                }
            }
            return GatewayAction::Wait;
        }
        if op == 7 {
            return GatewayAction::Reconnect { after_secs: 0 };
        }
        if op == 9 {
            return GatewayAction::Reconnect { after_secs: 5 };
        }
        GatewayAction::Wait
    }

    /// What is to be done about a frame of a gateway session.
    pub fn run_gateway_session(&self, frame: &GatewayFrame) -> (r: GatewayAction)
        ensures
            is_frame_action(*self, *frame, r),
    {
        match frame {
            GatewayFrame::Text(t) => match parse_json(t.as_str()) {
                Some(payload) => self.handle_payload(&payload),
                None => GatewayAction::Wait,
            },
            GatewayFrame::Ping => GatewayAction::Send(heartbeat()),
            GatewayFrame::Other => GatewayAction::Wait,
            GatewayFrame::Close => GatewayAction::End,
            GatewayFrame::Ended => GatewayAction::End,
            GatewayFrame::Failed(e) => GatewayAction::Fail(
                cat2("Discord WebSocket error: ", e.as_str()),
            ),
            GatewayFrame::TimedOut => GatewayAction::Fail(
                "Discord Gateway read timeout".to_owned(),
            ),
        }
    }

    /// The address and the bodies of the requests that send a reply, one for
    /// each chunk.
    pub fn send_rest(&self, channel_id: &str, content: &str) -> (r: (String, Vec<Json>))
        ensures
            r.0@ == DISCORD_API@ + "/channels/"@ + channel_id@ + "/messages"@,
            r.1@.len() == reply_chunks(content@, DISCORD_MAX_CHARS as int).len(),
            forall|i: int|
                0 <= i < r.1@.len() ==> (#[trigger] r.1@[i])@ == JsonTree::Obj(
                    Map::empty().insert(
                        "content"@,
                        JsonTree::Str(reply_chunks(content@, DISCORD_MAX_CHARS as int)[i]),
                    ),
                ),
    {
        let chunks = split_discord_message(content, DISCORD_MAX_CHARS);
        let mut url = cat3(DISCORD_API, "/channels/", channel_id);
        url.append("/messages");
        let mut bodies: Vec<Json> = Vec::new();
        let mut i: usize = 0;
        while i < chunks.len()
            invariant
                i <= chunks@.len(),
                bodies@.len() == i,
                texts(chunks@) == reply_chunks(content@, DISCORD_MAX_CHARS as int),
                forall|k: int|
                    0 <= k < i ==> (#[trigger] bodies@[k])@ == JsonTree::Obj(
                        Map::empty().insert("content"@, JsonTree::Str(texts(chunks@)[k])),
                    ),
            decreases chunks.len() - i,
        {
            let b = Json::obj().with("content", Json::text(chunks[i].as_str()));
            bodies.push(b);
            i = i + 1;
        }
        (url, bodies)
    }
}

/// Messages of bots are never handed on.
pub proof fn law_bot_messages_are_ignored(data: JsonTree)
    requires
        data.field("author"@).field("bot"@) == JsonTree::Bool(true),
    ensures
        created_draft(data) is None,
{
}

/// What became of a request that sends a chunk.
#[derive(Clone, Copy, Debug, PartialEq, Eq, Structural)]
pub enum SendOutcome {
    /// It was accepted.
    Sent,
    /// It has to be tried once more after the time that the answer names.
    RateLimited,
    /// It failed, and the rest of the reply is not sent.
    Failed,
}

/// What the status of an answer means.
pub fn send_outcome(status: u16) -> (r: SendOutcome)
    ensures
        r == if status == 429 {
            SendOutcome::RateLimited
        } else if 200 <= status <= 299 {
            SendOutcome::Sent
        } else {
            SendOutcome::Failed
        },
{
    if status == 429 {
        SendOutcome::RateLimited
    } else if 200 <= status && status <= 299 {
        SendOutcome::Sent
    } else {
        SendOutcome::Failed
    }
}

/// How many seconds to wait before connecting again: one after a session that
/// ended in good order, else twice the last delay, at most a minute.
pub fn reconnect_delay(last: u64, ended_well: bool) -> (r: u64)
    requires
        2 * last <= u64::MAX,
    ensures
        r == if ended_well {
            1int
        } else if 2 * last <= 60 {
            2 * last
        } else {
            60
        },
        r <= 60,
{
    if ended_well {
        1
    } else if last * 2 <= 60 {
        last * 2
    } else {
        60
    }
}

/// The chunks of a reply of at most `max_chars` characters each, cut at a
/// newline, else at a space, else anywhere.
pub fn split_discord_message(content: &str, max_chars: usize) -> (r: Vec<String>)
    requires
        max_chars > 0 || content@.len() == 0,
    ensures
        texts(r@) == reply_chunks(content@, max_chars as int),
{
    split_reply(content, max_chars)
}

} // verus!
