//! Slack: signed events, threads and replies in Slack's markup.
use vstd::prelude::*;
use vstd::utf8::encode_utf8;
use crate::channels::base::{draft_message, opt_draft, BaseChannel, Draft, DraftView};
use crate::channels::http::{same_secret, STATUS_BAD_REQUEST, STATUS_FORBIDDEN, STATUS_OK};
use crate::channels::markdown::{
    code_of, protect_code, put_back, restore_code, rewrite, rewritten, set_aside, BLOCKQUOTE,
    BOLD_STAR, BOLD_UNDER, CODE_BLOCK, HEADING, INLINE_CODE, LINK, LIST_ITEM, STRIKE,
};
use crate::crypto::{hex_encode, hex_text, hmac_sha256, hmac_sha256_of};
use crate::json::{json_map, Json, JsonTree};
use crate::model::channel::{put_member, InboundMessage};
use crate::text::{
    cat2, cat3, cat4, chars_of, int_of_text, is_text, lemma_rfind_from, opt_string, or_empty,
    parse_i64, rfind, rfind_chars, says, str_trim, string_of_range, text_or_empty, trim,
};

verus! {

pub const SLACK_API: &'static str = "https://slack.com/api";

#[derive(Debug)]
pub struct SlackPayload {
    pub event_type: Option<String>,
    pub challenge: Option<String>,
    pub event: Option<SlackEvent>,
    pub team_id: Option<String>,
}

#[derive(Clone, Debug)]
pub struct SlackEvent {
    pub event_type: Option<String>,
    pub user: Option<String>,
    pub text: Option<String>,
    pub channel: Option<String>,
    pub ts: Option<String>,
    /// The time stamp of the first message of the thread, in a thread.
    pub thread_ts: Option<String>,
    pub bot_id: Option<String>,
    pub subtype: Option<String>,
}

/// What the event handler and the sender know of the app.
pub struct SlackState {
    pub base: BaseChannel,
    pub bot_token: String,
    /// The secret that events are signed with; unsigned events are accepted
    /// where there is none.
    pub signing_secret: Option<String>,
}

/// The signature that an event has to carry.
pub open spec fn event_signature(
    secret: Seq<char>,
    timestamp: Seq<char>,
    body: Seq<char>,
) -> Seq<char> {
    "v0="@ + hex_text(
        hmac_sha256_of(
            encode_utf8(secret),
            encode_utf8("v0:"@ + timestamp + ":"@ + body),
        ),
    )
}

/// Whether a time stamp is a number of seconds more than five minutes away
/// from `now`.
pub open spec fn is_stale(timestamp: Seq<char>, now: i64) -> bool {
    match int_of_text(timestamp) {
        Some(t) => i64::MIN <= t <= i64::MAX && (now - t > 300 || t - now > 300),
        None => false,
    }
}

/// Whether an event with the given headers is to be accepted at time `now`.
pub open spec fn event_accepted(
    secret: Option<String>,
    timestamp: Seq<char>,
    signature: Seq<char>,
    body: Seq<char>,
    now: i64,
) -> bool {
    match secret {
        Some(s) => timestamp.len() > 0 && signature.len() > 0 && !is_stale(timestamp, now)
            && signature == event_signature(s@, timestamp, body),
        None => true,
    }
}

/// The session of a message: its channel and the thread it belongs to or
/// starts.
pub open spec fn session_of(event: SlackEvent) -> Seq<char> {
    text_or_empty(event.channel) + "/"@ + match event.thread_ts {
        Some(t) => t@,
        None => text_or_empty(event.ts),
    }
}

/// The draft of an event: that of a message that no bot sent, that has no
/// subtype and that is not blank.
pub open spec fn event_draft(event: SlackEvent, team_id: Option<String>) -> Option<DraftView> {
    let sender = text_or_empty(event.user);
    let channel = text_or_empty(event.channel);
    let text = trim(text_or_empty(event.text));
    let stamped = Map::empty().insert("ts"@, JsonTree::Str(text_or_empty(event.ts)));
    let threaded = match event.thread_ts {
        Some(t) => stamped.insert("thread_ts"@, JsonTree::Str(t@)),
        None => stamped,
    };
    if !says(event.event_type, "message"@) || event.bot_id is Some || event.subtype is Some
        || sender.len() == 0 || channel.len() == 0 || text.len() == 0 {
        None
    } else {
        Some(
            DraftView {
                sender_id: sender,
                sender_name: sender,
                session_id: session_of(event),
                content: text,
                metadata: threaded.insert("team_id"@, JsonTree::Str(text_or_empty(team_id))),
            },
        )
    }
}

/// The challenge that a payload asks to be sent back.
pub open spec fn challenge_of(payload: SlackPayload) -> Option<Seq<char>> {
    if says(payload.event_type, "url_verification"@) {
        opt_string(payload.challenge)
    } else {
        None
    }
}

/// The draft of a payload: that of its event, if it reports one.
pub open spec fn payload_draft(payload: SlackPayload) -> Option<DraftView> {
    if says(payload.event_type, "event_callback"@) {
        match payload.event {
            Some(e) => event_draft(e, payload.team_id),
            None => None,
        }
    } else {
        None
    }
}

fn draft_of_event(event: &SlackEvent, team_id: &Option<String>) -> (r: Option<Draft>)
    ensures
        opt_draft(r) == event_draft(*event, *team_id),
{
    if !is_text(&event.event_type, "message") || event.bot_id.is_some() || event.subtype.is_some() {
        return None;
    }
    let sender = or_empty(&event.user);
    let channel = or_empty(&event.channel);
    let raw = or_empty(&event.text);
    let text = str_trim(raw.as_str());
    let ts = or_empty(&event.ts);
    if sender.as_str().is_empty() || channel.as_str().is_empty() || text.as_str().is_empty() {
        return None;
    }
    let session_id = match &event.thread_ts {
        Some(t) => cat3(channel.as_str(), "/", t.as_str()),
        None => cat3(channel.as_str(), "/", ts.as_str()),
    };
    let mut metadata: Vec<(String, Json)> = Vec::new();
    proof {
        assert(json_map(metadata@) =~= Map::empty());
    }
    put_member(&mut metadata, "ts", Json::Str(ts));
    if let Some(t) = &event.thread_ts {
        put_member(&mut metadata, "thread_ts", Json::text(t.as_str()));
    }
    let team = or_empty(team_id);
    put_member(&mut metadata, "team_id", Json::Str(team));
    Some(Draft { sender_id: sender.clone(), sender_name: sender, session_id, content: text, metadata })
}

impl SlackState {
    /// Whether the headers `X-Slack-Request-Timestamp` and `X-Slack-Signature`
    /// fit the body at time `now`.
    pub fn verify_signature(
        &self,
        timestamp: &str,
        signature: &str,
        body: &str,
        now: i64,
    ) -> (r: bool)
        ensures
            r == event_accepted(self.signing_secret, timestamp@, signature@, body@, now),
    {
        let secret = match &self.signing_secret {
            Some(s) => s,
            None => {
                return true;
            },
        };
        if timestamp.is_empty() || signature.is_empty() {
            return false;
        }
        if let Some(t) = parse_i64(timestamp) {
            let age: i128 = now as i128 - t as i128;
            if age > 300 || age < -300 {
                return false;
            }
        }
        let message = cat4("v0:", timestamp, ":", body);
        let code = hmac_sha256(secret.as_str().as_bytes(), message.as_str().as_bytes());
        let hex = hex_encode(code.as_slice());
        let expected = cat2("v0=", hex.as_str());
        same_secret(expected.as_str(), signature)
    }

    /// The address and the body of the request that posts a text to a channel
    /// or a thread.
    pub fn post_message(&self, channel_id: &str, text: &str, thread_ts: Option<&str>) -> (r: (
        String,
        Json,
    ))
        ensures
            r.0@ == SLACK_API@ + "/chat.postMessage"@,
            r.1@ == JsonTree::Obj(
                match thread_ts {
                    Some(ts) => post_members(channel_id@, text@).insert(
                        "thread_ts"@,
                        JsonTree::Str(ts@),
                    ),
                    None => post_members(channel_id@, text@),
                },
            ),
    {
        let url = cat2(SLACK_API, "/chat.postMessage");
        let mrkdwn = markdown_to_slack_mrkdwn(text);
        let body = Json::obj().with("channel", Json::text(channel_id)).with(
            "text",
            Json::Str(mrkdwn),
        ).with("mrkdwn", Json::Bool(true));
        match thread_ts {
            Some(ts) => (url, body.with("thread_ts", Json::text(ts))),
            None => (url, body),
        }
    }
}

pub open spec fn post_members(channel_id: Seq<char>, text: Seq<char>) -> Map<Seq<char>, JsonTree> {
    Map::empty().insert("channel"@, JsonTree::Str(channel_id)).insert(
        "text"@,
        JsonTree::Str(slack_mrkdwn(text)),
    ).insert("mrkdwn"@, JsonTree::Bool(true))
}

/// What the answer to a posted message means.
pub fn post_result(answer: &Json) -> (r: Result<(), String>)
    ensures
        match r {
            Ok(_) => answer@.field("ok"@).as_bool() == Some(true),
            Err(e) => answer@.field("ok"@).as_bool() != Some(true) && e@
                == "Slack postMessage failed: "@ + match answer@.field("error"@).as_str() {
                Some(t) => t,
                None => "unknown"@,
            },
        },
{
    if answer.field("ok").as_bool() == Some(true) {
        return Ok(());
    }
    match answer.field("error").as_str() {
        Some(t) => Err(cat2("Slack postMessage failed: ", t)),
        None => Err(cat2("Slack postMessage failed: ", "unknown")),
    }
}

/// What is answered to a pushed body: a status and a JSON value.
pub open spec fn push_answer(accepted: bool, payload: Option<SlackPayload>) -> (u16, JsonTree) {
    if !accepted {
        (STATUS_FORBIDDEN, JsonTree::Obj(Map::empty()))
    } else {
        match payload {
            Some(p) => match challenge_of(p) {
                Some(c) => (
                    STATUS_OK,
                    JsonTree::Obj(Map::empty().insert("challenge"@, JsonTree::Str(c))),
                ),
                None => (STATUS_OK, JsonTree::Obj(Map::empty())),
            },
            None => (STATUS_BAD_REQUEST, JsonTree::Obj(Map::empty())),
        }
    }
}

/// The draft that a pushed body leads to.
pub open spec fn accepted_draft(accepted: bool, payload: Option<SlackPayload>) -> Option<
    DraftView,
> {
    if accepted && payload is Some && challenge_of(payload->0) is None {
        payload_draft(payload->0)
    } else {
        None
    }
}

/// Handles a pushed body: the answer and the message to hand on, if there is
/// one from an allowed sender; `payload` is what the body was read as, if it
/// could be read.
pub fn handle_slack_event(
    state: &SlackState,
    timestamp: &str,
    signature: &str,
    body: &str,
    now: i64,
    payload: Option<SlackPayload>,
) -> (r: (u16, Json, Option<InboundMessage>))
    ensures
        ({
            let accepted = event_accepted(
                state.signing_secret,
                timestamp@,
                signature@,
                body@,
                now,
            );
            let draft = accepted_draft(accepted, payload);
            &&& (r.0, r.1@) == push_answer(accepted, payload)
            &&& r.2 is Some == (draft matches Some(d) && state.base.allowed(d.sender_id))
            &&& r.2 matches Some(m) ==> m@ == draft_message(m.id@, state.base.name@, draft->0)
        }),
{
    if !state.verify_signature(timestamp, signature, body, now) {
        return (STATUS_FORBIDDEN, Json::obj(), None);
    }
    let p = match payload {
        Some(p) => p,
        None => {
            return (STATUS_BAD_REQUEST, Json::obj(), None);
        },
    };
    if is_text(&p.event_type, "url_verification") {
        if let Some(c) = &p.challenge {
            return (
                STATUS_OK,
                Json::obj().with("challenge", Json::text(c.as_str())),
                None,
            );
        }
    }
    if is_text(&p.event_type, "event_callback") {
        if let Some(event) = &p.event {
            if let Some(d) = draft_of_event(event, &p.team_id) {
                let message = state.base.handle_draft(d);
                return (STATUS_OK, Json::obj(), message);
            }
        }
    }
    (STATUS_OK, Json::obj(), None)
}

/// An event that is stale or wrongly signed leads to no message.
pub proof fn law_refused_event_leads_to_nothing(
    secret: Seq<char>,
    timestamp: Seq<char>,
    signature: Seq<char>,
    body: Seq<char>,
    now: i64,
    state: SlackState,
    payload: Option<SlackPayload>,
)
    requires
        state.signing_secret matches Some(s) && s@ == secret,
        is_stale(timestamp, now) || signature != event_signature(secret, timestamp, body),
    ensures
        push_answer(
            event_accepted(state.signing_secret, timestamp, signature, body, now),
            payload,
        ).0 == STATUS_FORBIDDEN,
        accepted_draft(
            event_accepted(state.signing_secret, timestamp, signature, body, now),
            payload,
        ) is None,
{
}

// ---- sessions ----

/// The channel and the thread that a session stands for: what stands before
/// and behind its last slash, if neither is empty.
pub open spec fn session_parts(session: Seq<char>) -> (Seq<char>, Option<Seq<char>>) {
    match rfind(session, seq!['/']) {
        Some(i) => if 0 < i < session.len() - 1 {
            (session.take(i), Some(session.skip(i + 1)))
        } else {
            (session, None)
        },
        None => (session, None),
    }
}

/// The channel and the thread that a session stands for.
pub fn parse_slack_session_id(session_id: &str) -> (r: (String, Option<String>))
    ensures
        (r.0@, opt_string(r.1)) == session_parts(session_id@),
{
    let s = chars_of(session_id);
    let n: usize = s.len();
    let slash: Vec<char> = vec!['/'];
    proof {
        assert(slash@ =~= seq!['/']);
        lemma_rfind_from(s@, slash@, s@.len() as int);
    }
    match rfind_chars(&s, &slash) {
        Some(i) => {
            if 0 < i && i < n - 1 {
                proof {
                    assert(s@.subrange(0, i as int) =~= s@.take(i as int));
                    assert(s@.subrange(i + 1, n as int) =~= s@.skip(i + 1));
                }
                return (string_of_range(&s, 0, i), Some(string_of_range(&s, i + 1, n)));
            }
            (session_id.to_owned(), None)
        },
        None => (session_id.to_owned(), None),
    }
}

/// A reply goes to the channel and the thread of the message it answers.
pub proof fn law_session_round_trip(channel: Seq<char>, thread: Seq<char>)
    requires
        channel.len() > 0,
        thread.len() > 0,
        !thread.contains('/'),
    ensures
        session_parts(channel + "/"@ + thread) == (channel, Some(thread)),
{
    reveal_strlit("/");
    let s = channel + "/"@ + thread;
    let slash = seq!['/'];
    assert("/"@ =~= slash);
    let n = channel.len() as int;
    assert(s.subrange(n, n + 1) =~= slash);
    lemma_rfind_from(s, slash, s.len() as int);
    let found = rfind(s, slash);
    assert(crate::text::occurs_at(s, slash, n));
    assert(found is Some);
    let k = found->0;
    if k > n {
        assert(s.subrange(k, k + 1)[0] == '/');
        assert(s[k] == thread[k - n - 1]);
        assert(thread.contains('/'));
    }
    assert(k == n);
    assert(s.take(n) =~= channel);
    assert(s.skip(n + 1) =~= thread);
}

// ---- markup ----

/// What the steps between setting code aside and putting it back make of the
/// text.
pub open spec fn slack_markup(marked: Seq<char>) -> Seq<char> {
    let t3 = rewritten(marked, LINK@, "<$2|$1>"@);
    let t4 = rewritten(t3, BOLD_STAR@, "*$1*"@);
    let t5 = rewritten(t4, BOLD_UNDER@, "*$1*"@);
    let t6 = rewritten(t5, STRIKE@, "~$1~"@);
    let t7 = rewritten(t6, HEADING@, "*$1*"@);
    let t8 = rewritten(t7, BLOCKQUOTE@, "$1"@);
    rewritten(t8, LIST_ITEM@, "• "@)
}

/// The Slack markup that a Markdown text becomes.
pub open spec fn slack_mrkdwn(text: Seq<char>) -> Seq<char> {
    let t1 = set_aside(text, CODE_BLOCK@, "CB"@);
    let blocks = code_of(text, CODE_BLOCK@);
    let t2 = set_aside(t1, INLINE_CODE@, "IC"@);
    let inline = code_of(t1, INLINE_CODE@);
    let with_inline = put_back(slack_markup(t2), inline, "IC"@, "`"@, "`"@);
    if text.len() == 0 {
        Seq::empty()
    } else {
        put_back(with_inline, blocks, "CB"@, "```"@, "```"@)
    }
}

/// The Slack markup that a Markdown text becomes.
pub fn markdown_to_slack_mrkdwn(text: &str) -> (r: String)
    ensures
        r@ == slack_mrkdwn(text@),
{
    if text.is_empty() {
        return String::new();
    }
    let (t1, blocks) = protect_code(text, CODE_BLOCK, "CB");
    let (t2, inline) = protect_code(t1.as_str(), INLINE_CODE, "IC");
    let t3 = rewrite(t2, LINK, "<$2|$1>");
    let t4 = rewrite(t3, BOLD_STAR, "*$1*");
    let t5 = rewrite(t4, BOLD_UNDER, "*$1*");
    let t6 = rewrite(t5, STRIKE, "~$1~");
    let t7 = rewrite(t6, HEADING, "*$1*");
    let t8 = rewrite(t7, BLOCKQUOTE, "$1");
    let body = rewrite(t8, LIST_ITEM, "• ");
    let with_inline = restore_code(body, &inline, "IC", "`", "`");
    restore_code(with_inline, &blocks, "CB", "```", "```")
}

/// The settings of a Slack channel.
pub struct SlackChannel {
    pub base: BaseChannel,
    pub bot_token: String,
    pub signing_secret: Option<String>,
    pub webhook_port: u16,
    pub webhook_path: String,
}

impl SlackChannel {
    pub fn new(
        bot_token: String,
        signing_secret: Option<String>,
        allow_from: Vec<String>,
        webhook_port: u16,
        webhook_path: String,
    ) -> (r: SlackChannel)
        ensures
            r.base.name@ == "slack"@,
            r.base.allow_from == allow_from,
            r.base.allow_from_groups@.len() == 0,
            !r.base.running,
            r.bot_token == bot_token,
            r.signing_secret == signing_secret,
            r.webhook_port == webhook_port,
            r.webhook_path == webhook_path,
    {
        SlackChannel {
            base: BaseChannel::new("slack").with_allow_from(allow_from),
            bot_token,
            signing_secret,
            webhook_port,
            webhook_path,
        }
    }
}

} // verus!
