//! The generic webhook: signed JSON in, JSON out.
use vstd::prelude::*;
use vstd::utf8::encode_utf8;
use crate::channels::base::{draft_message, BaseChannel, Draft, DraftView};
use crate::channels::http::{same_secret, STATUS_BAD_REQUEST, STATUS_FORBIDDEN, STATUS_OK};
use crate::crypto::{hex_encode, hex_text, hmac_sha256, hmac_sha256_of};
use crate::json::{json_map, Json, JsonTree};
use crate::model::channel::{put_member, InboundMessage, MessageContent, OutboundMessage};
use crate::text::{cat2, str_strip_repeated, str_trim, strip_repeated, trim};

verus! {

#[derive(Debug)]
pub struct WebhookInbound {
    pub sender_id: String,
    pub sender_name: String,
    pub content: String,
    pub session_id: String,
    pub metadata: Vec<(String, Json)>,
}

/// The sender where a body names none.
pub fn default_sender_id() -> (r: String)
    ensures
        r@ == "webhook_user"@,
{
    "webhook_user".to_owned()
}

/// The name of the sender where a body names none.
pub fn default_sender_name() -> (r: String)
    ensures
        r@ == "Webhook"@,
{
    "Webhook".to_owned()
}

/// The session where a body names none.
pub fn default_session_id() -> (r: String)
    ensures
        r@ == "webhook:default"@,
{
    "webhook:default".to_owned()
}

pub struct WebhookState {
    pub base: BaseChannel,
    /// The secret that bodies are signed with; unsigned bodies are accepted
    /// where there is none.
    pub hmac_secret: Option<String>,
}

/// Whether a body with the given signature header is to be accepted: the
/// header holds the code in hexadecimal behind `sha256=`.
pub open spec fn body_accepted(
    secret: Option<String>,
    header: Seq<char>,
    body: Seq<char>,
) -> bool {
    match secret {
        Some(s) => strip_repeated(header, "sha256="@) == hex_text(
            hmac_sha256_of(encode_utf8(s@), encode_utf8(body)),
        ),
        None => true,
    }
}

/// The draft of a body, if it is not blank.
pub open spec fn body_draft(inbound: WebhookInbound) -> Option<DraftView> {
    if trim(inbound.content@).len() == 0 {
        None
    } else {
        Some(
            DraftView {
                sender_id: inbound.sender_id@,
                sender_name: inbound.sender_name@,
                session_id: inbound.session_id@,
                content: trim(inbound.content@),
                metadata: json_map(inbound.metadata@).insert("source"@, JsonTree::Str("webhook"@)),
            },
        )
    }
}

impl WebhookState {
    /// Whether the header `X-Webhook-Signature` fits the body.
    pub fn verify_signature(&self, header: &str, body: &str) -> (r: bool)
        ensures
            r == body_accepted(self.hmac_secret, header@, body@),
    {
        let secret = match &self.hmac_secret {
            Some(s) => s,
            None => {
                return true;
            },
        };
        let received = str_strip_repeated(header, "sha256=");
        let code = hmac_sha256(secret.as_str().as_bytes(), body.as_bytes());
        let expected = hex_encode(code.as_slice());
        if received.as_str().is_empty() {
            proof {
                assert(expected@.len() == 64);
            }
            return false;
        }
        same_secret(expected.as_str(), received.as_str())
    }
}

pub open spec fn one_member(key: Seq<char>, value: Seq<char>) -> JsonTree {
    JsonTree::Obj(Map::empty().insert(key, JsonTree::Str(value)))
}

/// What is answered to a body: a status and a JSON value.
pub open spec fn body_answer(accepted: bool, inbound: Result<WebhookInbound, String>) -> (
    u16,
    JsonTree,
) {
    if !accepted {
        (STATUS_FORBIDDEN, one_member("error"@, "Invalid signature"@))
    } else {
        match inbound {
            Ok(i) => if body_draft(i) is None {
                (STATUS_BAD_REQUEST, one_member("error"@, "content is required"@))
            } else {
                (STATUS_OK, one_member("status"@, "accepted"@))
            },
            Err(e) => (STATUS_BAD_REQUEST, one_member("error"@, "Invalid JSON: "@ + e@)),
        }
    }
}

/// Handles a body: the answer and the message to hand on, if the sender is
/// allowed; `inbound` is what the body was read as, or why it could not be.
pub fn handle_webhook(
    state: &WebhookState,
    header: &str,
    body: &str,
    inbound: Result<WebhookInbound, String>,
) -> (r: (u16, Json, Option<InboundMessage>))
    ensures
        ({
            let accepted = body_accepted(state.hmac_secret, header@, body@);
            &&& (r.0, r.1@) == body_answer(accepted, inbound)
            &&& r.2 is Some == (r.0 == STATUS_OK && state.base.allowed(inbound->Ok_0.sender_id@))
            &&& r.2 matches Some(m) ==> m@ == draft_message(
                m.id@,
                state.base.name@,
                body_draft(inbound->Ok_0)->0,
            )
        }),
{
    if !state.verify_signature(header, body) {
        return (
            STATUS_FORBIDDEN,
            Json::obj().with("error", Json::text("Invalid signature")),
            None,
        );
    }
    let i = match inbound {
        Ok(i) => i,
        Err(e) => {
            let text = cat2("Invalid JSON: ", e.as_str());
            return (STATUS_BAD_REQUEST, Json::obj().with("error", Json::Str(text)), None);
        },
    };
    let content = str_trim(i.content.as_str());
    if content.as_str().is_empty() {
        return (
            STATUS_BAD_REQUEST,
            Json::obj().with("error", Json::text("content is required")),
            None,
        );
    }
    let mut metadata = i.metadata;
    put_member(&mut metadata, "source", Json::text("webhook"));
    let draft = Draft {
        sender_id: i.sender_id,
        sender_name: i.sender_name,
        session_id: i.session_id,
        content,
        metadata,
    };
    let message = state.base.handle_draft(draft);
    (STATUS_OK, Json::obj().with("status", Json::text("accepted")), message)
}

/// The settings of the webhook.
pub struct WebhookChannel {
    pub base: BaseChannel,
    pub hmac_secret: Option<String>,
    pub webhook_port: u16,
    pub webhook_path: String,
    pub outbound_url: Option<String>,
}

impl WebhookChannel {
    pub fn new(
        hmac_secret: Option<String>,
        allow_from: Vec<String>,
        webhook_port: u16,
        webhook_path: String,
        outbound_url: Option<String>,
    ) -> (r: WebhookChannel)
        ensures
            r.base.name@ == "webhook"@,
            r.base.allow_from == allow_from,
            r.base.allow_from_groups@.len() == 0,
            !r.base.running,
            r.hmac_secret == hmac_secret,
            r.webhook_port == webhook_port,
            r.webhook_path == webhook_path,
            r.outbound_url == outbound_url,
    {
        WebhookChannel {
            base: BaseChannel::new("webhook").with_allow_from(allow_from),
            hmac_secret,
            webhook_port,
            webhook_path,
            outbound_url,
        }
    }

    /// The address and the body of the request that delivers a reply; `None`
    /// where there is no address or no text, and the reply is dropped.
    pub fn send(&self, msg: &OutboundMessage) -> (r: Option<(String, Json)>)
        ensures
            match r {
                Some((url, body)) => (self.outbound_url matches Some(u) && url@ == u@) && (
                msg.content matches MessageContent::Text(t) && body@ == JsonTree::Obj(
                    Map::empty().insert(
                        "session_id"@,
                        JsonTree::Str(msg.target_session_id@),
                    ).insert("content"@, JsonTree::Str(t@)),
                )),
                None => self.outbound_url is None || !(msg.content is Text),
            },
    {
        let url = match &self.outbound_url {
            Some(u) => u.clone(),
            None => {
                return None;
            },
        };
        match &msg.content {
            MessageContent::Text(t) => {
                let body = Json::obj().with(
                    "session_id",
                    Json::text(msg.target_session_id.as_str()),
                ).with("content", Json::text(t.as_str()));
                Some((url, body))
            },
            _ => None,
        }
    }
}

} // verus!
