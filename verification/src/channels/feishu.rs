//! Feishu: events, the access token and messages.
use vstd::prelude::*;
use crate::channels::base::{draft_message, opt_draft, BaseChannel, Draft, DraftView};
use crate::channels::http::{same_secret, STATUS_FORBIDDEN, STATUS_OK};
use crate::json::{json_map, json_parse, json_text, parse_json, Json, JsonTree};
use crate::model::channel::{put_member, InboundMessage};
use crate::text::{
    cat4, i64_text, int_text, is_text, opt_string, same_str, says, str_trim, trim,
};

verus! {

/// An event that Feishu pushes, in the old or the new format.
#[derive(Debug)]
pub struct FeishuEvent {
    pub schema: Option<String>,
    pub header: Option<FeishuHeader>,
    pub event: Option<Json>,
    pub challenge: Option<String>,
    pub token: Option<String>,
    pub event_type_legacy: Option<String>,
}

#[derive(Debug)]
pub struct FeishuHeader {
    pub event_type: Option<String>,
    pub token: Option<String>,
}

/// The challenge that an event asks to be sent back, if it is a verification
/// of the address.
pub open spec fn challenge_of(body: FeishuEvent) -> Option<Seq<char>> {
    if says(body.event_type_legacy, "url_verification"@) && body.challenge is Some {
        Some(body.challenge->0@)
    } else if body.header matches Some(h) && says(h.event_type, "url_verification"@) {
        match body.event {
            Some(e) => e@.field("challenge"@).as_str(),
            None => None,
        }
    } else {
        None
    }
}

/// The verification token that an event carries: that of the header, else the
/// one beside it, else none.
pub open spec fn received_token(body: FeishuEvent) -> Seq<char> {
    let outer = match body.token {
        Some(t) => t@,
        None => Seq::empty(),
    };
    match body.header {
        Some(h) => match h.token {
            Some(t) => t@,
            None => outer,
        },
        None => outer,
    }
}

/// The text in the content of a message, which is JSON in a string.
pub open spec fn text_in(content: Seq<char>) -> Seq<char> {
    match json_parse(content) {
        Some(j) => trim(j.field("text"@).text_or_empty()),
        None => trim(Seq::empty()),
    }
}

/// The text of a message.
pub open spec fn message_text(message: JsonTree) -> Seq<char> {
    match message.field("content"@).as_str() {
        Some(c) => text_in(c),
        None => text_in("{}"@),
    }
}

/// The draft of a received message; `text` is what the message says.
pub open spec fn received_draft(event: JsonTree, text: Seq<char>) -> Option<DraftView> {
    let message = event.field("message"@);
    let sender = event.field("sender"@).field("sender_id"@);
    let open_id = sender.field("open_id"@).text_or_empty();
    if message.field("message_type"@).text_or_empty() != "text"@ || text.len() == 0 {
        None
    } else {
        Some(
            DraftView {
                sender_id: open_id,
                sender_name: open_id,
                session_id: message.field("chat_id"@).text_or_empty(),
                content: text,
                metadata: Map::empty().insert(
                    "message_id"@,
                    JsonTree::Str(message.field("message_id"@).text_or_empty()),
                ).insert(
                    "chat_type"@,
                    JsonTree::Str(
                        match message.field("chat_type"@).as_str() {
                            Some(t) => t,
                            None => "p2p"@,
                        },
                    ),
                ).insert(
                    "user_id"@,
                    JsonTree::Str(
                        match sender.field("user_id"@).as_str() {
                            Some(u) => u,
                            None => open_id,
                        },
                    ),
                ),
            },
        )
    }
}

/// The draft of an event: that of its message, if it is about one.
pub open spec fn event_draft(body: FeishuEvent) -> Option<DraftView> {
    if body.header matches Some(h) && says(h.event_type, "im.message.receive_v1"@) {
        match body.event {
            Some(e) => received_draft(e@, message_text(e@.field("message"@))),
            None => None,
        }
    } else {
        None
    }
}

/// The draft of a received message, given what it says.
pub fn draft_of_message(event: &Json, text: String) -> (r: Option<Draft>)
    ensures
        opt_draft(r) == received_draft(event@, text@),
{
    let message = event.field("message");
    let sender = event.field("sender").field("sender_id");
    let open_id = sender.field("open_id").str_or_empty();
    let kind = message.field("message_type").str_or_empty();
    if !same_str(kind.as_str(), "text") || text.as_str().is_empty() {
        return None;
    }
    let user_id = match sender.field("user_id").as_str() {
        Some(u) => u.to_owned(),
        None => open_id.clone(),
    };
    let chat_type = match message.field("chat_type").as_str() {
        Some(t) => t.to_owned(),
        None => "p2p".to_owned(),
    };
    let mut metadata: Vec<(String, Json)> = Vec::new();
    proof {
        assert(json_map(metadata@) =~= Map::empty());
    }
    let message_id = message.field("message_id").str_or_empty();
    put_member(&mut metadata, "message_id", Json::Str(message_id));
    put_member(&mut metadata, "chat_type", Json::Str(chat_type));
    put_member(&mut metadata, "user_id", Json::Str(user_id));
    Some(
        Draft {
            sender_id: open_id.clone(),
            sender_name: open_id,
            session_id: message.field("chat_id").str_or_empty(),
            content: text,
            metadata,
        },
    )
}

fn text_of_message(message: &Json) -> (r: String)
    ensures
        r@ == message_text(message@),
{
    let content = match message.field("content").as_str() {
        Some(c) => c.to_owned(),
        None => "{}".to_owned(),
    };
    match parse_json(content.as_str()) {
        Some(j) => {
            let t = j.field("text").str_or_empty();
            str_trim(t.as_str())
        },
        None => str_trim(String::new().as_str()),
    }
}

/// A cached access token and when it expires, in seconds.
#[derive(Clone, Debug)]
pub struct TokenCache {
    pub token: String,
    pub expires_at: u64,
}

/// What the event handler and the sender know of the app.
pub struct FeishuState {
    pub base: BaseChannel,
    pub verification_token: Option<String>,
    pub app_id: String,
    pub app_secret: String,
    pub token_cache: Option<TokenCache>,
}

/// The answer of the token service.
pub struct TokenResponse {
    pub code: i64,
    pub msg: String,
    pub tenant_access_token: Option<String>,
    pub expire: Option<u64>,
}

/// Whether the cached token is good for more than another minute.
pub open spec fn cache_is_fresh(cache: Option<TokenCache>, now: u64) -> bool {
    cache matches Some(c) && c.expires_at > now + 60
}

/// What is answered to an event: a status and a JSON value.
pub open spec fn event_answer(state: FeishuState, body: FeishuEvent) -> (u16, JsonTree) {
    match challenge_of(body) {
        Some(c) => (
            STATUS_OK,
            JsonTree::Obj(Map::empty().insert("challenge"@, JsonTree::Str(c))),
        ),
        None => if state.verification_token matches Some(t) && received_token(body) != t@ {
            (STATUS_FORBIDDEN, JsonTree::Obj(Map::empty()))
        } else {
            (STATUS_OK, JsonTree::Obj(Map::empty()))
        },
    }
}

/// The draft that an event leads to, if it is accepted.
pub open spec fn accepted_draft(state: FeishuState, body: FeishuEvent) -> Option<DraftView> {
    if challenge_of(body) is Some || event_answer(state, body).0 != STATUS_OK {
        None
    } else {
        event_draft(body)
    }
}

fn find_challenge(body: &FeishuEvent) -> (r: Option<String>)
    ensures
        opt_string(r) == challenge_of(*body),
{
    if is_text(&body.event_type_legacy, "url_verification") {
        if let Some(c) = &body.challenge {
            return Some(c.clone());
        }
    }
    if let Some(h) = &body.header {
        if is_text(&h.event_type, "url_verification") {
            if let Some(e) = &body.event {
                if let Some(c) = e.field("challenge").as_str() {
                    return Some(c.to_owned());
                }
            }
        }
    }
    None
}

fn find_token(body: &FeishuEvent) -> (r: String)
    ensures
        r@ == received_token(*body),
{
    if let Some(h) = &body.header {
        if let Some(t) = &h.token {
            return t.clone();
        }
    }
    match &body.token {
        Some(t) => t.clone(),
        None => String::new(),
    }
}

/// Handles a pushed event: the answer and the message to hand on, if the event
/// is accepted, is about a text and its sender is allowed.
pub fn handle_feishu_event(state: &FeishuState, body: &FeishuEvent) -> (r: (
    u16,
    Json,
    Option<InboundMessage>,
))
    ensures
        (r.0, r.1@) == event_answer(*state, *body),
        r.2 is Some == (accepted_draft(*state, *body) matches Some(d) && state.base.allowed(
            d.sender_id,
        )),
        r.2 matches Some(m) ==> m@ == draft_message(
            m.id@,
            state.base.name@,
            accepted_draft(*state, *body)->0,
        ),
{
    if let Some(c) = find_challenge(body) {
        return (STATUS_OK, Json::obj().with("challenge", Json::Str(c)), None);
    }
    if let Some(expected) = &state.verification_token {
        let received = find_token(body);
        if !same_secret(received.as_str(), expected.as_str()) {
            return (STATUS_FORBIDDEN, Json::obj(), None);
        }
    }
    let about_message = match &body.header {
        Some(h) => is_text(&h.event_type, "im.message.receive_v1"),
        None => false,
    };
    if !about_message {
        return (STATUS_OK, Json::obj(), None);
    }
    let event = match &body.event {
        Some(e) => e,
        None => {
            return (STATUS_OK, Json::obj(), None);
        },
    };
    let text = text_of_message(event.field("message"));
    match draft_of_message(event, text) {
        Some(d) => {
            let message = state.base.handle_draft(d);
            (STATUS_OK, Json::obj(), message)
        },
        None => (STATUS_OK, Json::obj(), None),
    }
}

/// An event with a wrong verification token is refused and leads to no
/// message.
pub proof fn law_wrong_token_is_refused(state: FeishuState, body: FeishuEvent)
    requires
        challenge_of(body) is None,
        state.verification_token matches Some(t) && received_token(body) != t@,
    ensures
        event_answer(state, body).0 == STATUS_FORBIDDEN,
        accepted_draft(state, body) is None,
{
}

impl FeishuState {
    /// The cached access token at time `now`, `None` where a new one has to be
    /// fetched.
    pub fn get_access_token(&self, now: u64) -> (r: Result<Option<String>, String>)
        requires
            now + 60 <= u64::MAX,
        ensures
            match r {
                Ok(t) => self.app_id@.len() > 0 && self.app_secret@.len() > 0 && opt_string(t)
                    == if cache_is_fresh(self.token_cache, now) {
                    Some(self.token_cache->0.token@)
                } else {
                    None
                },
                Err(e) => (self.app_id@.len() == 0 || self.app_secret@.len() == 0) && e@
                    == "Feishu app_id or app_secret not configured"@,
            },
    {
        if self.app_id.as_str().is_empty() || self.app_secret.as_str().is_empty() {
            return Err("Feishu app_id or app_secret not configured".to_owned());
        }
        if let Some(c) = &self.token_cache {
            if c.expires_at > now + 60 {
                return Ok(Some(c.token.clone()));
            }
        }
        Ok(None)
    }

    /// The body of the request for an access token.
    pub fn token_request(&self) -> (r: Json)
        ensures
            r@ == JsonTree::Obj(
                Map::empty().insert("app_id"@, JsonTree::Str(self.app_id@)).insert(
                    "app_secret"@,
                    JsonTree::Str(self.app_secret@),
                ),
            ),
    {
        Json::obj().with("app_id", Json::text(self.app_id.as_str())).with(
            "app_secret",
            Json::text(self.app_secret.as_str()),
        )
    }

    /// Takes the answer of the token service that arrived at time `now`: keeps
    /// the token until it expires, in two hours if the answer does not say.
    pub fn store_token(&mut self, now: u64, answer: TokenResponse) -> (r: Result<String, String>)
        requires
            now + token_lifetime(answer) <= u64::MAX,
        ensures
            final(self).base == old(self).base,
            final(self).verification_token == old(self).verification_token,
            final(self).app_id == old(self).app_id,
            final(self).app_secret == old(self).app_secret,
            match r {
                Ok(t) => answer.code == 0 && opt_string(answer.tenant_access_token) == Some(t@)
                    && (final(self).token_cache matches Some(c) && c.token@ == t@ && c.expires_at
                    == now + token_lifetime(answer)),
                Err(e) => final(self).token_cache == old(self).token_cache && if answer.code != 0 {
                    e@ == "Feishu token error "@ + int_text(answer.code as int) + ": "@
                        + answer.msg@
                } else {
                    answer.tenant_access_token is None && e@
                        == "Feishu token response missing tenant_access_token"@
                },
            },
    {
        if answer.code != 0 {
            let code = i64_text(answer.code);
            return Err(cat4("Feishu token error ", code.as_str(), ": ", answer.msg.as_str()));
        }
        let token = match answer.tenant_access_token {
            Some(t) => t,
            None => {
                return Err("Feishu token response missing tenant_access_token".to_owned());
            },
        };
        let lifetime: u64 = match answer.expire {
            Some(s) => s,
            None => 7200,
        };
        self.token_cache = Some(TokenCache { token: token.clone(), expires_at: now + lifetime });
        Ok(token)
    }

    /// The body of the request that sends a text to a chat.
    pub fn send_message(&self, chat_id: &str, content: &str) -> (r: Json)
        ensures
            r@ == JsonTree::Obj(
                Map::empty().insert("receive_id"@, JsonTree::Str(chat_id@)).insert(
                    "msg_type"@,
                    JsonTree::Str("text"@),
                ).insert(
                    "content"@,
                    JsonTree::Str(
                        json_text(
                            JsonTree::Obj(Map::empty().insert("text"@, JsonTree::Str(content@))),
                        ),
                    ),
                ),
            ),
    {
        let text = Json::obj().with("text", Json::text(content)).to_text();
        Json::obj().with("receive_id", Json::text(chat_id)).with(
            "msg_type",
            Json::text("text"),
        ).with("content", Json::Str(text))
    }
}

/// How many seconds a token is good for.
pub open spec fn token_lifetime(answer: TokenResponse) -> int {
    match answer.expire {
        Some(s) => s as int,
        None => 7200,
    }
}

/// What the answer to a sent message means.
pub fn send_result(code: i64, msg: &str) -> (r: Result<(), String>)
    ensures
        match r {
            Ok(_) => code == 0,
            Err(e) => code != 0 && e@ == "Feishu sendMessage error "@ + int_text(code as int)
                + ": "@ + msg@,
        },
{
    if code != 0 {
        let n = i64_text(code);
        return Err(cat4("Feishu sendMessage error ", n.as_str(), ": ", msg));
    }
    Ok(())
}

/// A stored token is used until a minute before it expires, and no longer.
pub proof fn law_token_is_reused_until_it_expires(cache: TokenCache, now: u64)
    ensures
        cache_is_fresh(Some(cache), now) == (now + 60 < cache.expires_at),
{
}

/// The settings of a Feishu channel.
pub struct FeishuChannel {
    pub base: BaseChannel,
    pub verification_token: Option<String>,
    pub app_id: String,
    pub app_secret: String,
    pub webhook_port: u16,
    pub webhook_path: String,
}

impl FeishuChannel {
    pub fn new(
        app_id: String,
        app_secret: String,
        verification_token: Option<String>,
        allow_from: Vec<String>,
        webhook_port: u16,
        webhook_path: String,
    ) -> (r: FeishuChannel)
        ensures
            r.base.name@ == "feishu"@,
            r.base.allow_from == allow_from,
            r.base.allow_from_groups@.len() == 0,
            !r.base.running,
            r.verification_token == verification_token,
            r.app_id == app_id,
            r.app_secret == app_secret,
            r.webhook_port == webhook_port,
            r.webhook_path == webhook_path,
    {
        FeishuChannel {
            base: BaseChannel::new("feishu").with_allow_from(allow_from),
            verification_token,
            app_id,
            app_secret,
            webhook_port,
            webhook_path,
        }
    }
}

} // verus!
