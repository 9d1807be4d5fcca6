//! DingTalk: outgoing webhooks of a robot and replies to its sessions.
use vstd::prelude::*;
use vstd::utf8::encode_utf8;
use crate::channels::base::{draft_message, opt_draft, BaseChannel, Draft, DraftView};
use crate::channels::http::{same_secret, STATUS_FORBIDDEN, STATUS_OK};
use crate::crypto::{base64_encode, base64_text, hmac_sha256, hmac_sha256_of};
use crate::json::{json_map, Json, JsonTree};
use crate::model::channel::{put_member, InboundMessage, MessageContent, OutboundMessage};
use crate::text::{cat3, same_str, starts_with, str_starts_with, str_trim, trim};

verus! {

#[derive(Clone, Debug)]
pub struct DingTalkInbound {
    pub msg_type: String,
    pub text: Option<DingTalkText>,
    pub sender_id: String,
    pub sender_nick: String,
    pub session_webhook: String,
    pub conversation_type: String,
    pub conversation_id: String,
    pub conversation_title: String,
}

#[derive(Clone, Debug)]
pub struct DingTalkText {
    pub content: String,
}

/// A DingTalk robot.
pub struct DingTalkChannel {
    pub base: BaseChannel,
    /// The secret that pushes are signed with; unsigned pushes are accepted
    /// where there is none.
    pub webhook_secret: Option<String>,
    pub webhook_port: u16,
    pub webhook_path: String,
}

/// The signature that a push with the given time stamp has to carry.
pub open spec fn push_signature(secret: Seq<char>, timestamp: Seq<char>) -> Seq<char> {
    base64_text(hmac_sha256_of(encode_utf8(secret), encode_utf8(timestamp + "\n"@ + secret)))
}

/// Whether a push with the given headers is to be accepted.
pub open spec fn push_accepted(
    secret: Option<String>,
    timestamp: Seq<char>,
    sign: Seq<char>,
) -> bool {
    match secret {
        Some(s) => sign == push_signature(s@, timestamp),
        None => true,
    }
}

/// The draft of a push: that of a text that is not blank.
pub open spec fn push_draft(body: DingTalkInbound) -> Option<DraftView> {
    match body.text {
        Some(t) => if body.msg_type@ == "text"@ && trim(t.content@).len() > 0 {
            Some(
                DraftView {
                    sender_id: body.sender_id@,
                    sender_name: body.sender_nick@,
                    session_id: body.session_webhook@,
                    content: trim(t.content@),
                    metadata: Map::empty().insert(
                        "conversation_id"@,
                        JsonTree::Str(body.conversation_id@),
                    ).insert(
                        "conversation_type"@,
                        JsonTree::Str(body.conversation_type@),
                    ).insert(
                        "conversation_title"@,
                        JsonTree::Str(body.conversation_title@),
                    ).insert("session_webhook"@, JsonTree::Str(body.session_webhook@)),
                },
            )
        } else {
            None
        },
        None => None,
    }
}

fn draft_of_push(body: &DingTalkInbound) -> (r: Option<Draft>)
    ensures
        opt_draft(r) == push_draft(*body),
{
    if !same_str(body.msg_type.as_str(), "text") {
        return None;
    }
    let content = match &body.text {
        Some(t) => str_trim(t.content.as_str()),
        None => {
            return None;
        },
    };
    if content.as_str().is_empty() {
        return None;
    }
    let mut metadata: Vec<(String, Json)> = Vec::new();
    proof {
        assert(json_map(metadata@) =~= Map::empty());
    }
    put_member(&mut metadata, "conversation_id", Json::text(body.conversation_id.as_str()));
    put_member(&mut metadata, "conversation_type", Json::text(body.conversation_type.as_str()));
    put_member(&mut metadata, "conversation_title", Json::text(body.conversation_title.as_str()));
    put_member(&mut metadata, "session_webhook", Json::text(body.session_webhook.as_str()));
    Some(
        Draft {
            sender_id: body.sender_id.clone(),
            sender_name: body.sender_nick.clone(),
            session_id: body.session_webhook.clone(),
            content,
            metadata,
        },
    )
}

impl DingTalkChannel {
    pub fn new(
        webhook_secret: Option<String>,
        allow_from: Vec<String>,
        webhook_port: u16,
        webhook_path: String,
    ) -> (r: DingTalkChannel)
        ensures
            r.base.name@ == "dingtalk"@,
            r.base.allow_from == allow_from,
            r.base.allow_from_groups@.len() == 0,
            !r.base.running,
            r.webhook_secret == webhook_secret,
            r.webhook_port == webhook_port,
            r.webhook_path == webhook_path,
    {
        DingTalkChannel {
            base: BaseChannel::new("dingtalk").with_allow_from(allow_from),
            webhook_secret,
            webhook_port,
            webhook_path,
        }
    }

    /// Whether the headers `timestamp` and `sign` fit the secret.
    pub fn verify_signature(&self, timestamp: &str, sign: &str) -> (r: bool)
        ensures
            r == push_accepted(self.webhook_secret, timestamp@, sign@),
    {
        let secret = match &self.webhook_secret {
            Some(s) => s,
            None => {
                return true;
            },
        };
        let message = cat3(timestamp, "\n", secret.as_str());
        let code = hmac_sha256(secret.as_str().as_bytes(), message.as_str().as_bytes());
        let expected = base64_encode(code.as_slice());
        same_secret(expected.as_str(), sign)
    }

    /// The address and the body of the request that replies to a session;
    /// `None` where the message holds no text and is dropped.
    pub fn send(&self, msg: &OutboundMessage) -> (r: Result<Option<(String, Json)>, String>)
        ensures
            match r {
                Ok(Some((url, body))) => url@ == msg.target_session_id@ && starts_with(
                    url@,
                    "http"@,
                ) && (msg.content matches MessageContent::Text(t) && body@ == JsonTree::Obj(
                    Map::empty().insert("msgtype"@, JsonTree::Str("text"@)).insert(
                        "text"@,
                        JsonTree::Obj(Map::empty().insert("content"@, JsonTree::Str(t@))),
                    ),
                )),
                Ok(None) => starts_with(msg.target_session_id@, "http"@) && !(msg.content is Text),
                Err(e) => !starts_with(msg.target_session_id@, "http"@) && e@
                    == "DingTalk: invalid session_id (expected sessionWebhook URL): '"@
                    + msg.target_session_id@ + "'"@,
            },
    {
        if !str_starts_with(msg.target_session_id.as_str(), "http") {
            return Err(
                cat3(
                    "DingTalk: invalid session_id (expected sessionWebhook URL): '",
                    msg.target_session_id.as_str(),
                    "'",
                ),
            );
        }
        match &msg.content {
            MessageContent::Text(t) => {
                let body = Json::obj().with("msgtype", Json::text("text")).with(
                    "text",
                    Json::obj().with("content", Json::text(t.as_str())),
                );
                Ok(Some((msg.target_session_id.clone(), body)))
            },
            _ => Ok(None),
        }
    }
}

/// Handles a push: the status of the answer and the message to hand on, if
/// there is one from an allowed sender.
pub fn handle_dingtalk_webhook(
    channel: &DingTalkChannel,
    timestamp: &str,
    sign: &str,
    body: &DingTalkInbound,
) -> (r: (u16, Option<InboundMessage>))
    ensures
        ({
            let accepted = push_accepted(channel.webhook_secret, timestamp@, sign@);
            let draft = push_draft(*body);
            &&& r.0 == if accepted {
                STATUS_OK
            } else {
                STATUS_FORBIDDEN
            }
            &&& r.1 is Some == (accepted && draft is Some && channel.base.allowed(
                draft->0.sender_id,
            ))
            &&& r.1 matches Some(m) ==> m@ == draft_message(m.id@, channel.base.name@, draft->0)
        }),
{
    if !channel.verify_signature(timestamp, sign) {
        return (STATUS_FORBIDDEN, None);
    }
    match draft_of_push(body) {
        Some(d) => {
            let message = channel.base.handle_draft(d);
            (STATUS_OK, message)
        },
        None => (STATUS_OK, None),
    }
}

} // verus!
