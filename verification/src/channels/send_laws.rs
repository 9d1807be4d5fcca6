//! What the channels' functions return when they are called: replies carry the
//! text of the message to where it belongs, and what was received is handed on
//! only if it is signed and its sender is allowed.
use vstd::prelude::*;
use crate::channels::base::BaseChannel;
use crate::channels::cli::CliChannel;
use crate::channels::dingtalk::{
    handle_dingtalk_webhook, push_accepted, DingTalkChannel, DingTalkInbound,
};
use crate::channels::discord::{
    reconnect_delay, send_outcome, DiscordChannel, SendOutcome, DISCORD_API, DISCORD_MAX_CHARS,
};
use crate::channels::email::EmailChannel;
use crate::channels::feishu::FeishuState;
use crate::channels::manager::{registered, ChannelManager, Dispatch};
use crate::channels::matrix::MatrixChannel;
use crate::channels::slack::{
    event_accepted, handle_slack_event, slack_mrkdwn, SlackPayload, SlackState,
};
use crate::channels::split::reply_chunks;
use crate::channels::telegram::{
    answer_callback_body, clear_keyboard_body, poll_body, sender_text, ReplyStep, TelegramAction,
    TelegramChannel, TgMessage, TgUpdate,
};
use crate::channels::telegram_laws::{law_private_message_says_what_was_written, no_command, wrote};
use crate::channels::webhook::{handle_webhook, WebhookChannel, WebhookInbound, WebhookState};
use crate::channels::wechat_work::WeComChannel;
use crate::channels::whatsapp::{handle_whatsapp_verify, VerifyParams, WhatsAppState};
use crate::json::{int_tree, json_text, Json, JsonTree};
use crate::model::channel::{Channel, ContentView, InboundMessage, MessageContent, OutboundMessage};
use crate::text::{int_of_text, starts_with, trim};

verus! {

// ---- replies ----

/// The terminal shows the text of a reply between a heading and a line end.
pub proof fn law_cli_reply(ch: CliChannel, msg: OutboundMessage, t: String, r: String)
    requires
        call_ensures(CliChannel::send, (&ch, &msg), r),
        msg.content == MessageContent::Text(t),
    ensures
        exists|head: Seq<char>| r@ == #[trigger] (head + t@ + "\n"@),
{
    let head = "\n🤖 \x1b[36mAssistant\x1b[0m:\n"@;
    assert(r@ == head + t@ + "\n"@);
}

/// A line of input is handed on without white space at its ends, unless it is
/// blank.
pub proof fn law_cli_line(ch: CliChannel, line: &str, r: Option<InboundMessage>)
    requires
        call_ensures(CliChannel::start, (&ch, line), r),
    ensures
        trim(line@).len() == 0 ==> r is None,
        trim(line@).len() > 0 && ch.base.allowed("local_user"@) ==> r is Some,
        r matches Some(m) ==> m@.content == ContentView::Text(trim(line@)) && m@.channel
            == ch.base.name@ && m@.sender_id == "local_user"@ && m@.session_id == "cli:default"@,
{
}

/// A reply goes to the address of the message it answers and holds its text; a
/// session that is no address is refused.
pub proof fn law_dingtalk_reply(
    ch: DingTalkChannel,
    msg: OutboundMessage,
    t: String,
    r: Result<Option<(String, Json)>, String>,
)
    requires
        call_ensures(DingTalkChannel::send, (&ch, &msg), r),
        msg.content == MessageContent::Text(t),
    ensures
        starts_with(msg.target_session_id@, "http"@) ==> (r matches Ok(Some(p)) && p.0@
            == msg.target_session_id@ && p.1@.field("msgtype"@) == JsonTree::Str("text"@)
            && p.1@.field("text"@).field("content"@) == JsonTree::Str(t@)),
        !starts_with(msg.target_session_id@, "http"@) ==> r is Err,
{
    reveal_strlit("msgtype");
    reveal_strlit("text");
    assert("msgtype"@.len() != "text"@.len());
}

/// The same holds of WeCom.
pub proof fn law_wecom_reply(
    ch: WeComChannel,
    msg: OutboundMessage,
    t: String,
    r: Result<Option<(String, Json)>, String>,
)
    requires
        call_ensures(WeComChannel::send, (&ch, &msg), r),
        msg.content == MessageContent::Text(t),
    ensures
        starts_with(msg.target_session_id@, "http"@) ==> (r matches Ok(Some(p)) && p.0@
            == msg.target_session_id@ && p.1@.field("msgtype"@) == JsonTree::Str("text"@)
            && p.1@.field("text"@).field("content"@) == JsonTree::Str(t@)),
        !starts_with(msg.target_session_id@, "http"@) ==> r is Err,
{
    reveal_strlit("msgtype");
    reveal_strlit("text");
    assert("msgtype"@.len() != "text"@.len());
}

/// A reply is posted to the configured address with its session and its text.
pub proof fn law_webhook_reply(
    ch: WebhookChannel,
    msg: OutboundMessage,
    t: String,
    u: String,
    r: Option<(String, Json)>,
)
    requires
        call_ensures(WebhookChannel::send, (&ch, &msg), r),
        msg.content == MessageContent::Text(t),
        ch.outbound_url == Some(u),
    ensures
        r matches Some(p) && p.0@ == u@ && p.1@.field("session_id"@) == JsonTree::Str(
            msg.target_session_id@,
        ) && p.1@.field("content"@) == JsonTree::Str(t@),
{
    reveal_strlit("session_id");
    reveal_strlit("content");
    assert("session_id"@.len() != "content"@.len());
}

/// A reply is mailed, where replies are switched on, to the sender of the
/// message it answers and says its text.
pub proof fn law_email_reply(
    ch: EmailChannel,
    msg: OutboundMessage,
    t: String,
    r: Option<(String, String)>,
)
    requires
        call_ensures(EmailChannel::send, (&ch, &msg), r),
        msg.content == MessageContent::Text(t),
    ensures
        ch.auto_reply_enabled ==> (r matches Some(p) && p.0@ == msg.target_session_id@ && p.1@
            == t@),
        !ch.auto_reply_enabled ==> r is None,
{
}

/// A reply is sent to the channel in pieces that are, in order, those of its
/// text.
pub proof fn law_discord_reply(
    ch: DiscordChannel,
    channel_id: &str,
    content: &str,
    r: (String, Vec<Json>),
    i: int,
)
    requires
        call_ensures(DiscordChannel::send_rest, (&ch, channel_id, content), r),
    ensures
        r.1@.len() == reply_chunks(content@, 2000).len(),
        0 <= i < r.1@.len() ==> r.1@[i]@.field("content"@) == JsonTree::Str(
            reply_chunks(content@, 2000)[i],
        ),
        exists|a: Seq<char>, b: Seq<char>| r.0@ == #[trigger] (a + channel_id@ + b),
{
    assert(DISCORD_MAX_CHARS == 2000);
    assert(r.0@ == DISCORD_API@ + "/channels/"@ + channel_id@
        + "/messages"@);
}

/// What the status of an answer means, and how long to wait before connecting
/// again.
pub proof fn law_discord_outcomes(
    status: u16,
    o: SendOutcome,
    last: u64,
    well: bool,
    delay: u64,
)
    requires
        call_ensures(send_outcome, (status,), o),
        call_ensures(reconnect_delay, (last, well), delay),
    ensures
        o is RateLimited <==> status == 429,
        o is Sent <==> 200 <= status < 300,
        delay <= 60,
        well ==> delay == 1,
        !well ==> delay == 60 || delay == 2 * last,
{
}

/// A reply is addressed to the chat, as a text, with the text in it.
pub proof fn law_feishu_reply(state: FeishuState, chat: &str, content: &str, r: Json)
    requires
        call_ensures(FeishuState::send_message, (&state, chat, content), r),
    ensures
        r@.field("receive_id"@) == JsonTree::Str(chat@),
        r@.field("msg_type"@) == JsonTree::Str("text"@),
        exists|inner: JsonTree|
            r@.field("content"@) == JsonTree::Str(#[trigger] json_text(inner)) && inner.field(
                "text"@,
            ) == JsonTree::Str(content@),
{
    reveal_strlit("receive_id");
    reveal_strlit("msg_type");
    reveal_strlit("content");
    assert("receive_id"@.len() == 10 && "msg_type"@.len() == 8 && "content"@.len() == 7);
    let inner = JsonTree::Obj(Map::empty().insert("text"@, JsonTree::Str(content@)));
    assert(inner.field("text"@) == JsonTree::Str(content@));
    assert(r@.field("content"@) == JsonTree::Str(json_text(inner)));
}

/// A token is asked for with the app's identifier and its secret; one that is
/// still good is used again.
pub proof fn law_feishu_token_use(
    state: FeishuState,
    body: Json,
    now: u64,
    r: Result<Option<String>, String>,
)
    requires
        call_ensures(FeishuState::token_request, (&state,), body),
        call_ensures(FeishuState::get_access_token, (&state, now), r),
        now + 60 <= u64::MAX,
    ensures
        body@.field("app_id"@) == JsonTree::Str(state.app_id@),
        body@.field("app_secret"@) == JsonTree::Str(state.app_secret@),
        r matches Ok(Some(t)) ==> (state.token_cache matches Some(c) && t@ == c.token@
            && c.expires_at > now + 60),
        r matches Ok(None) ==> !(state.token_cache matches Some(c) && c.expires_at > now + 60),
{
    reveal_strlit("app_id");
    reveal_strlit("app_secret");
    assert("app_id"@.len() != "app_secret"@.len());
}

/// A reply is sent to the room as a text message with the text in it.
pub proof fn law_matrix_reply(
    ch: MatrixChannel,
    room: &str,
    text: &str,
    id: &str,
    r: (String, Json),
)
    requires
        call_ensures(MatrixChannel::message_request, (&ch, room, text, id), r),
    ensures
        r.1@.field("msgtype"@) == JsonTree::Str("m.text"@),
        r.1@.field("body"@) == JsonTree::Str(text@),
        starts_with(r.0@, ch.homeserver@),
{
    reveal_strlit("msgtype");
    reveal_strlit("body");
    assert("msgtype"@.len() != "body"@.len());
    assert(r.0@.take(ch.homeserver@.len() as int) =~= ch.homeserver@);
}

/// A reply is posted to the channel and, where there is one, to the thread.
pub proof fn law_slack_reply(
    state: SlackState,
    channel: &str,
    text: &str,
    thread: Option<&str>,
    r: (String, Json),
)
    requires
        call_ensures(SlackState::post_message, (&state, channel, text, thread), r),
    ensures
        r.1@.field("channel"@) == JsonTree::Str(channel@),
        r.1@.field("text"@) == JsonTree::Str(slack_mrkdwn(text@)),
        thread matches Some(t) ==> r.1@.field("thread_ts"@) == JsonTree::Str(t@),
        thread is None ==> r.1@.field("thread_ts"@) is Null,
{
    reveal_strlit("channel");
    reveal_strlit("text");
    reveal_strlit("mrkdwn");
    reveal_strlit("thread_ts");
    assert("channel"@.len() == 7 && "text"@.len() == 4 && "mrkdwn"@.len() == 6);
    assert("thread_ts"@.len() == 9);
}

/// A reply is sent to the number as a text with the text in it.
pub proof fn law_whatsapp_reply(state: WhatsAppState, to: &str, text: &str, r: (String, Json))
    requires
        call_ensures(WhatsAppState::send_text, (&state, to, text), r),
    ensures
        r.1@.field("messaging_product"@) == JsonTree::Str("whatsapp"@),
        r.1@.field("to"@) == JsonTree::Str(to@),
        r.1@.field("type"@) == JsonTree::Str("text"@),
        r.1@.field("text"@).field("body"@) == JsonTree::Str(text@),
{
    reveal_strlit("messaging_product");
    reveal_strlit("recipient_type");
    reveal_strlit("to");
    reveal_strlit("type");
    reveal_strlit("text");
    assert("messaging_product"@.len() == 17 && "recipient_type"@.len() == 14);
    assert("to"@.len() == 2 && "type"@.len() == 4 && "text"@.len() == 4);
    assert("type"@[1] != "text"@[1]);
}

/// A verification is answered with the challenge exactly if the mode and the
/// token are right.
pub proof fn law_whatsapp_verification(
    state: WhatsAppState,
    params: VerifyParams,
    mode: String,
    token: String,
    challenge: String,
    r: (u16, String),
)
    requires
        call_ensures(handle_whatsapp_verify, (&state, &params), r),
        params.hub_mode == Some(mode),
        params.hub_verify_token == Some(token),
        params.hub_challenge == Some(challenge),
    ensures
        mode@ == "subscribe"@ && token@ == state.verify_token@ ==> r.0 == 200 && r.1@
            == challenge@,
        mode@ != "subscribe"@ || token@ != state.verify_token@ ==> r.0 == 403 && r.1@
            == "Forbidden"@,
{
}

/// A reply goes to the chat that its session names, if the channel runs.
pub proof fn law_telegram_route(
    ch: TelegramChannel,
    msg: OutboundMessage,
    t: String,
    n: i64,
    r: Result<Option<(i64, String)>, String>,
)
    requires
        call_ensures(TelegramChannel::route_outbound, (&ch, &msg), r),
        msg.content == MessageContent::Text(t),
        int_of_text(msg.target_session_id@) == Some(n as int),
    ensures
        ch.base.running ==> (r matches Ok(Some(p)) && p.0 == n && p.1@ == t@),
        !ch.base.running ==> r is Err,
{
}

/// A step of a reply is requested with its chat and its HTML, and falls back to
/// a new message with its plain text.
pub proof fn law_telegram_step(
    step: ReplyStep,
    chat_id: i64,
    r: (&'static str, Json),
    fallback: Json,
)
    requires
        call_ensures(ReplyStep::request, (&step, chat_id), r),
        call_ensures(ReplyStep::fallback_body, (&step, chat_id), fallback),
    ensures
        step matches ReplyStep::Send { html, plain } ==> r.0@ == "sendMessage"@
            && r.1@.field("chat_id"@) == int_tree(chat_id) && r.1@.field("text"@) == JsonTree::Str(
            html@,
        ) && fallback@.field("text"@) == JsonTree::Str(plain@),
        step matches ReplyStep::Edit { message_id, html, plain } ==> r.0@ == "editMessageText"@
            && r.1@.field("chat_id"@) == int_tree(chat_id) && r.1@.field("message_id"@)
            == int_tree(message_id) && r.1@.field("text"@) == JsonTree::Str(html@)
            && fallback@.field("text"@) == JsonTree::Str(plain@),
        fallback@.field("chat_id"@) == int_tree(chat_id),
        fallback@.field("parse_mode"@) is Null,
{
    reveal_strlit("chat_id");
    reveal_strlit("message_id");
    reveal_strlit("text");
    reveal_strlit("parse_mode");
    assert("chat_id"@.len() == 7 && "message_id"@.len() == 10 && "text"@.len() == 4);
    assert("parse_mode"@.len() == 10 && "parse_mode"@[0] != "message_id"@[0]);
}

/// The parameters of the smaller requests.
pub proof fn law_telegram_requests(
    id: &str,
    text: &str,
    a: Json,
    chat_id: i64,
    message_id: i64,
    c: Json,
    offset: i64,
    p: Json,
)
    requires
        call_ensures(answer_callback_body, (id, text), a),
        call_ensures(clear_keyboard_body, (chat_id, message_id), c),
        call_ensures(poll_body, (offset,), p),
    ensures
        a@.field("callback_query_id"@) == JsonTree::Str(id@),
        a@.field("text"@) == JsonTree::Str(text@),
        c@.field("chat_id"@) == int_tree(chat_id),
        c@.field("message_id"@) == int_tree(message_id),
        p@.field("offset"@) == int_tree(offset),
{
    reveal_strlit("callback_query_id");
    reveal_strlit("text");
    reveal_strlit("show_alert");
    reveal_strlit("chat_id");
    reveal_strlit("message_id");
    reveal_strlit("reply_markup");
    reveal_strlit("offset");
    reveal_strlit("timeout");
    reveal_strlit("limit");
    reveal_strlit("allowed_updates");
    assert("callback_query_id"@.len() == 17 && "text"@.len() == 4 && "show_alert"@.len() == 10);
    assert("chat_id"@.len() == 7 && "message_id"@.len() == 10 && "reply_markup"@.len() == 12);
    assert("offset"@.len() == 6 && "timeout"@.len() == 7 && "limit"@.len() == 5);
    assert("allowed_updates"@.len() == 15);
}

/// An outbound message is delivered by the channel that it names, and dropped
/// only if no channel has the name.
pub proof fn law_dispatch<C: Channel>(
    m: ChannelManager<C>,
    msg: OutboundMessage,
    r: Dispatch<'_, C>,
)
    requires
        m.wf(),
        call_ensures(ChannelManager::<C>::outbound_dispatch, (&m, &msg), r),
    ensures
        msg.target_channel@ == "system"@ <==> r is Internal,
        r matches Dispatch::Deliver(c) ==> registered(m.channels@, msg.target_channel@) == Some(*c),
        r is Unknown ==> registered(m.channels@, msg.target_channel@) is None,
{
}

// ---- what was received ----

/// The decision about an update with a private message from an allowed sender
/// that is no command is to deliver it, and the message begins with what the
/// user wrote.
pub proof fn law_telegram_update(
    ch: TelegramChannel,
    id: String,
    update: TgUpdate,
    msg: TgMessage,
    t: Seq<char>,
    r: TelegramAction,
)
    requires
        call_ensures(TelegramChannel::decide_update, (&ch, id, &update), r),
        update.callback_query is None,
        update.message == Some(msg),
        msg.from is Some,
        msg.chat.chat_type@ == "private"@,
        ch.base.allowed(sender_text(msg.from->0)),
        no_command(msg),
        wrote(msg, t),
    ensures
        r matches TelegramAction::Deliver { chat_id, placeholder, inbound } && chat_id
            == msg.chat.id && (inbound.content matches MessageContent::Text(c) && starts_with(
            c@,
            t,
        )),
{
    law_private_message_says_what_was_written(ch, id@, msg, msg.from->0, t);
    match r {
        TelegramAction::Deliver { chat_id, placeholder, inbound } => {
            match inbound.content {
                MessageContent::Text(c) => {},
                MessageContent::Image(d) => {},
                MessageContent::Audio(d) => {},
                MessageContent::File { name, data } => {},
            }
        },
        _ => {},
    }
}

/// A push is answered by whether it is accepted, and its message, from an
/// allowed sender, says what was sent without white space at the ends.
pub proof fn law_dingtalk_push(
    ch: DingTalkChannel,
    timestamp: &str,
    sign: &str,
    body: DingTalkInbound,
    r: (u16, Option<InboundMessage>),
)
    requires
        call_ensures(handle_dingtalk_webhook, (&ch, timestamp, sign, &body), r),
    ensures
        push_accepted(ch.webhook_secret, timestamp@, sign@) ==> r.0 == 200,
        !push_accepted(ch.webhook_secret, timestamp@, sign@) ==> r.0 == 403 && r.1 is None,
        !ch.base.allowed(body.sender_id@) ==> r.1 is None,
        r.1 matches Some(m) ==> m@.channel == ch.base.name@ && m@.sender_id == body.sender_id@
            && m@.session_id == body.session_webhook@ && (body.text matches Some(t)
            && m@.content == ContentView::Text(trim(t.content@))),
{
}

/// A body that is accepted, is not blank and comes from an allowed sender is
/// handed on as what it says; anything else is not.
pub proof fn law_webhook_push(
    state: WebhookState,
    header: &str,
    body: &str,
    b: WebhookInbound,
    r: (u16, Json, Option<InboundMessage>),
)
    requires
        call_ensures(handle_webhook, (&state, header, body, Ok::<WebhookInbound, String>(b)), r),
    ensures
        r.2 matches Some(m) ==> r.0 == 200 && state.base.allowed(b.sender_id@) && m@.content
            == ContentView::Text(trim(b.content@)) && m@.sender_id == b.sender_id@
            && m@.session_id == b.session_id@,
        r.0 == 200 && state.base.allowed(b.sender_id@) ==> r.2 is Some,
        r.0 == 200 ==> trim(b.content@).len() > 0,
{
}

/// An event of Slack that is not accepted leads to nothing and is refused.
pub proof fn law_slack_push_is_signed(
    state: SlackState,
    timestamp: &str,
    signature: &str,
    body: &str,
    now: i64,
    payload: Option<SlackPayload>,
    r: (u16, Json, Option<InboundMessage>),
)
    requires
        call_ensures(
            handle_slack_event,
            (&state, timestamp, signature, body, now, payload),
            r,
        ),
    ensures
        !event_accepted(
            state.signing_secret,
            timestamp@,
            signature@,
            body@,
            now,
        ) ==> r.0 == 403 && r.2 is None,
        r.2 matches Some(m) ==> m@.channel == state.base.name@ && state.base.allowed(m@.sender_id),
{
}

/// The message that a channel makes of a text holds the text and the sender.
pub proof fn law_handled_message(
    base: BaseChannel,
    sender: &str,
    name: &str,
    session: &str,
    content: &str,
    metadata: Vec<(String, Json)>,
    r: Option<InboundMessage>,
)
    requires
        call_ensures(
            BaseChannel::handle_message,
            (&base, sender, name, session, content, metadata),
            r,
        ),
    ensures
        r is Some <==> base.allowed(sender@),
        r matches Some(m) ==> m@.content == ContentView::Text(content@) && m@.sender_id == sender@
            && m@.sender_name == name@ && m@.session_id == session@ && m@.channel == base.name@
            && m@.reply_to is None,
{
}

} // verus!
