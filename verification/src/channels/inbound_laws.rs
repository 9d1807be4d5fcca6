//! What the channels hand on for what they received: whose message it is, where
//! it came from and what it says.
use vstd::prelude::*;
use vstd::utf8::encode_utf8;
use crate::channels::base::{
    admitted, allows, draft_message, entry_admits, id_part, text_message, user_part,
    DraftView,
};
use crate::channels::config::{number_or, setting, setting_or};
use crate::channels::discord;
use crate::channels::discord::{DiscordChannel, GatewayAction};
use crate::channels::dingtalk::{push_accepted, push_draft, DingTalkInbound};
use crate::channels::email::{email_draft, first_of_kind, from_parts, text_body, EmailMessage, MailTree};
use crate::channels::feishu;
use crate::channels::feishu::{FeishuEvent, FeishuState};
use crate::channels::manager::registered;
use crate::channels::matrix;
use crate::channels::matrix::RoomEvent;
use crate::channels::slack;
use crate::channels::slack::{SlackEvent, SlackPayload};
use crate::channels::webhook::{body_accepted, body_answer, body_draft, WebhookInbound};
use crate::channels::wechat_work;
use crate::channels::wechat_work::{WeComMessage, WeComMixedItem};
use crate::channels::whatsapp;
use crate::channels::whatsapp::{WhatsAppContact, WhatsAppMessage};
use crate::crypto::{base64_text, hex_text, hmac_sha256_of};
use crate::json::{json_map, json_parse, JsonTree};
use crate::model::channel::ContentView;
use crate::text::{
    contains, find, int_of_text, int_text, lowercase, nat_text, starts_with, trim,
    trim_start_char,
};
use crate::text_laws::{law_find_is_leftmost, law_numbers_are_read_back, law_strip_repeated};

verus! {

// ---- all channels ----

/// A text becomes a message of the channel with the sender, the session and the
/// text as they are.
pub proof fn law_message_fields(
    id: Seq<char>,
    channel: Seq<char>,
    sender_id: Seq<char>,
    sender_name: Seq<char>,
    session_id: Seq<char>,
    content: Seq<char>,
    metadata: Map<Seq<char>, JsonTree>,
)
    ensures
        ({
            let m = text_message(
                id,
                channel,
                sender_id,
                sender_name,
                session_id,
                content,
                metadata,
            );
            &&& m.id == id
            &&& m.channel == channel
            &&& m.sender_id == sender_id
            &&& m.sender_name == sender_name
            &&& m.session_id == session_id
            &&& m.content == ContentView::Text(content)
            &&& m.reply_to is None
            &&& m.metadata == metadata
        }),
{
}

/// A draft becomes a message of the channel that says what the draft says.
pub proof fn law_draft_fields(id: Seq<char>, channel: Seq<char>, d: DraftView)
    ensures
        ({
            let m = draft_message(id, channel, d);
            &&& m.id == id
            &&& m.channel == channel
            &&& m.sender_id == d.sender_id
            &&& m.sender_name == d.sender_name
            &&& m.session_id == d.session_id
            &&& m.content == ContentView::Text(d.content)
            &&& m.reply_to is None
            &&& m.metadata == d.metadata
        }),
{
}

/// The drafts of allowed senders are handed on, in order, and no others.
pub proof fn law_admitted_drafts(list: Seq<Seq<char>>, drafts: Seq<DraftView>, d: DraftView)
    ensures
        drafts.len() == 0 ==> admitted(list, drafts).len() == 0,
        allows(list, d.sender_id) ==> admitted(list, drafts.push(d)) == admitted(list, drafts).push(
            d,
        ),
        !allows(list, d.sender_id) ==> admitted(list, drafts.push(d)) == admitted(list, drafts),
        allows(list, d.sender_id) <==> list.len() == 0 || exists|i: int|
            0 <= i < list.len() && entry_admits(#[trigger] list[i], d.sender_id),
{
    assert(drafts.push(d).drop_last() =~= drafts);
}

proof fn lemma_first_char(s: Seq<char>, c: char, i: int)
    requires
        0 <= i < s.len(),
        s[i] == c,
        forall|j: int| 0 <= j < i ==> #[trigger] s[j] != c,
    ensures
        find(s, seq![c]) == Some(i),
{
    law_find_is_leftmost(s, seq![c]);
    assert(s.subrange(i, i + 1) =~= seq![c]);
    match find(s, seq![c]) {
        Some(k) => {
            assert(s.subrange(k, k + 1)[0] == c);
            assert(s[k] == c);
            if k > i {
                assert(s.subrange(i, i + 1) != seq![c]);
            }
        },
        None => {},
    }
}

proof fn lemma_no_char(s: Seq<char>, c: char)
    requires
        !s.contains(c),
    ensures
        find(s, seq![c]) is None,
        !contains(s, seq![c]),
{
    law_find_is_leftmost(s, seq![c]);
    if find(s, seq![c]) is Some {
        let k = find(s, seq![c])->0;
        assert(s.subrange(k, k + 1)[0] == c);
        assert(s[k] == c);
        assert(s.contains(c));
    }
}

/// An entry without a star admits a sender by its identifier or by its user
/// name, with or without an `@` before it, and nobody whose identifier and
/// user name differ from it.
pub proof fn law_allowlist_entry(id: Seq<char>, user: Seq<char>, entry: Seq<char>)
    requires
        !id.contains('|'),
        user.len() > 0,
        entry.len() > 0,
        !entry.contains('*'),
        entry[0] != '@',
    ensures
        ({
            let sender = id + seq!['|'] + user;
            &&& id_part(sender) == id
            &&& user_part(sender) == user
            &&& entry_admits(entry, sender) <==> entry == sender || entry == id || entry == user
            &&& entry_admits(seq!['@'] + entry, sender) <==> entry == sender || entry == id
                || entry == user || seq!['@'] + entry == sender || seq!['@'] + entry == id
                || seq!['@'] + entry == user
        }),
{
    let sender = id + seq!['|'] + user;
    assert(sender[id.len() as int] == '|');
    assert forall|j: int| 0 <= j < id.len() implies #[trigger] sender[j] != '|' by {
        assert(sender[j] == id[j]);
        assert(id.contains(id[j]));
    }
    lemma_first_char(sender, '|', id.len() as int);
    assert(sender.take(id.len() as int) =~= id);
    assert(sender.skip(id.len() as int + 1) =~= user);
    lemma_no_char(entry, '*');
    assert(trim_start_char(entry, '@') == entry);
    let at = seq!['@'] + entry;
    assert(at.drop_first() =~= entry);
    assert(trim_start_char(at, '@') == entry);
}

/// The value of a setting is that of the last pair with its name; a default
/// stands in only where there is none.
pub proof fn law_settings(
    extra: Seq<(String, String)>,
    p: (String, String),
    key: Seq<char>,
    default: Seq<char>,
    n: u64,
    max: nat,
    other: nat,
)
    ensures
        extra.len() == 0 ==> setting(extra, key) is None,
        setting(extra.push(p), key) == (if p.0@ == key {
            Some(p.1@)
        } else {
            setting(extra, key)
        }),
        setting(extra, key) matches Some(v) ==> setting_or(extra, key, default) == v,
        setting(extra, key) is None ==> setting_or(extra, key, default) == default && number_or(
            extra,
            key,
            max,
            other,
        ) == other,
        setting(extra, key) == Some(nat_text(n as nat)) && n <= max ==> number_or(
            extra,
            key,
            max,
            other,
        ) == n,
        setting(extra, key) == Some(nat_text(n as nat)) && n > max ==> number_or(
            extra,
            key,
            max,
            other,
        ) == other,
{
    assert(extra.push(p).drop_last() =~= extra);
    law_numbers_are_read_back(n as int, n as int);
}

/// The channel registered under a name is the one registered last under it.
pub proof fn law_last_registration_holds<C>(s: Seq<(String, C)>, p: (String, C), name: Seq<char>)
    ensures
        s.len() == 0 ==> registered(s, name) is None,
        registered(s.push(p), name) == (if p.0@ == name {
            Some(p.1)
        } else {
            registered(s, name)
        }),
{
    assert(s.push(p).drop_last() =~= s);
}

// ---- Slack ----

/// A message is handed on exactly if it is one, no bot sent it, it has no
/// subtype, it has a sender and a channel and is not blank; it says its text
/// without white space at the ends, it is its user's, and its session is its
/// channel with the thread it is in, or else the one it starts.
pub proof fn law_slack_message(
    event: SlackEvent,
    team_id: Option<String>,
    user: String,
    text: String,
    channel: String,
    ts: String,
)
    requires
        event.user == Some(user),
        event.text == Some(text),
        event.channel == Some(channel),
        event.ts == Some(ts),
    ensures
        slack::event_draft(event, team_id) is Some <==> {
            &&& event.event_type matches Some(k) && k@ == "message"@
            &&& event.bot_id is None
            &&& event.subtype is None
            &&& user@.len() > 0
            &&& channel@.len() > 0
            &&& trim(text@).len() > 0
        },
        slack::event_draft(event, team_id) matches Some(d) ==> {
            &&& d.content == trim(text@)
            &&& d.sender_id == user@
            &&& d.sender_name == user@
            &&& event.thread_ts matches Some(t) ==> d.session_id == channel@ + "/"@ + t@
            &&& event.thread_ts is None ==> d.session_id == channel@ + "/"@ + ts@
            &&& JsonTree::Obj(d.metadata).field("ts"@) == JsonTree::Str(ts@)
            &&& event.thread_ts matches Some(t) ==> JsonTree::Obj(d.metadata).field("thread_ts"@)
                == JsonTree::Str(t@)
            &&& event.thread_ts is None ==> JsonTree::Obj(d.metadata).field("thread_ts"@) is Null
            &&& team_id matches Some(t) ==> JsonTree::Obj(d.metadata).field("team_id"@)
                == JsonTree::Str(t@)
        },
{
    reveal_strlit("ts");
    reveal_strlit("thread_ts");
    reveal_strlit("team_id");
    assert("ts"@.len() == 2 && "thread_ts"@.len() == 9 && "team_id"@.len() == 7);
}

/// Events without a user, a text or a channel are not handed on.
pub proof fn law_slack_needs_all_parts(event: SlackEvent, team_id: Option<String>)
    ensures
        event.user is None || event.text is None || event.channel is None ==> slack::event_draft(
            event,
            team_id,
        ) is None,
{
    if event.text is None {
        assert(trim(Seq::<char>::empty()).len() == 0);
    }
}

/// An event that reports a message leads to it if it is accepted; a challenge
/// is sent back and leads to nothing; an event that is not accepted leads to
/// nothing and is answered with a refusal.
pub proof fn law_slack_push(accepted: bool, p: SlackPayload, c: String, e: SlackEvent)
    ensures
        accepted && p.event_type is Some && p.event_type->0@ == "event_callback"@ && p.event
            == Some(e) ==> slack::accepted_draft(accepted, Some(p)) == slack::event_draft(
            e,
            p.team_id,
        ) && slack::push_answer(accepted, Some(p)).0 == 200,
        accepted && p.event_type is Some && p.event_type->0@ == "url_verification"@ && p.challenge
            == Some(c) ==> {
            &&& slack::push_answer(accepted, Some(p)).0 == 200
            &&& slack::push_answer(accepted, Some(p)).1.field("challenge"@) == JsonTree::Str(c@)
            &&& slack::accepted_draft(accepted, Some(p)) is None
        },
        !accepted ==> slack::push_answer(accepted, Some(p)).0 == 403 && slack::accepted_draft(
            accepted,
            Some(p),
        ) is None,
        accepted ==> slack::push_answer(accepted, None).0 == 400,
{
    reveal_strlit("event_callback");
    reveal_strlit("url_verification");
    assert("event_callback"@.len() != "url_verification"@.len());
}

/// With a secret an event is accepted exactly if its time stamp is there and is
/// no number of seconds more than five minutes off, and its signature is the
/// code of the time stamp and the body under the secret.
pub proof fn law_slack_signature(
    secret: String,
    t: i64,
    signature: Seq<char>,
    body: Seq<char>,
    now: i64,
)
    ensures
        slack::event_accepted(Some(secret), int_text(t as int), signature, body, now) <==> {
            &&& -300 <= now - t <= 300
            &&& signature == "v0="@ + hex_text(
                hmac_sha256_of(
                    encode_utf8(secret@),
                    encode_utf8("v0:"@ + int_text(t as int) + ":"@ + body),
                ),
            )
        },
        slack::event_accepted(None, int_text(t as int), signature, body, now),
{
    law_numbers_are_read_back(t as int, t as int);
    reveal_strlit("v0=");
    let s = "v0="@ + hex_text(
        hmac_sha256_of(
            encode_utf8(secret@),
            encode_utf8("v0:"@ + int_text(t as int) + ":"@ + body),
        ),
    );
    assert(s.len() >= 3);
    assert(int_text(t as int).len() > 0) by {
        if int_text(t as int).len() == 0 {
            assert(int_of_text(int_text(t as int)) is None);
        }
    }
}

/// A post names its channel and asks for markup.
pub proof fn law_slack_post(channel: Seq<char>, text: Seq<char>)
    ensures
        JsonTree::Obj(slack::post_members(channel, text)).field("channel"@) == JsonTree::Str(
            channel,
        ),
        JsonTree::Obj(slack::post_members(channel, text)).field("text"@) == JsonTree::Str(
            slack::slack_mrkdwn(text),
        ),
        JsonTree::Obj(slack::post_members(channel, text)).field("mrkdwn"@) == JsonTree::Bool(true),
{
    reveal_strlit("channel");
    reveal_strlit("text");
    reveal_strlit("mrkdwn");
    assert("channel"@.len() == 7 && "text"@.len() == 4 && "mrkdwn"@.len() == 6);
}

// ---- Discord ----

/// A created message is handed on exactly if no bot sent it, it has a sender
/// and a channel and is not blank; it says its text without white space at the
/// ends and belongs to its channel.
pub proof fn law_discord_message(
    data: JsonTree,
    sender: Seq<char>,
    channel: Seq<char>,
    text: Seq<char>,
)
    requires
        data.field("author"@).field("id"@) == JsonTree::Str(sender),
        data.field("channel_id"@) == JsonTree::Str(channel),
        data.field("content"@) == JsonTree::Str(text),
    ensures
        discord::created_draft(data) is Some <==> {
            &&& data.field("author"@).field("bot"@) != JsonTree::Bool(true)
            &&& trim(text).len() > 0
            &&& sender.len() > 0
            &&& channel.len() > 0
        },
        discord::created_draft(data) matches Some(d) ==> {
            &&& d.content == trim(text)
            &&& d.sender_id == sender
            &&& d.session_id == channel
            &&& data.field("author"@).field("username"@) matches JsonTree::Str(n)
                ==> d.sender_name == n
            &&& !(data.field("author"@).field("username"@) is Str) ==> d.sender_name == sender
            &&& data.field("id"@) matches JsonTree::Str(t) ==> JsonTree::Obj(d.metadata).field(
                "message_id"@,
            ) == JsonTree::Str(t)
            &&& data.field("guild_id"@) matches JsonTree::Str(t) ==> JsonTree::Obj(
                d.metadata,
            ).field("guild_id"@) == JsonTree::Str(t)
        },
{
    reveal_strlit("message_id");
    reveal_strlit("guild_id");
    assert("message_id"@.len() != "guild_id"@.len());
}

/// What is done about a payload: after a greeting the bot identifies itself and
/// beats its heart as often as asked; a created message of an allowed sender is
/// delivered to its channel; a request to reconnect is followed at once, one
/// that the session is void after five seconds; anything else is passed over.
pub proof fn law_discord_payload(ch: DiscordChannel, payload: JsonTree, action: GatewayAction)
    requires
        discord::is_payload_action(ch, payload, action),
    ensures
        payload.field("op"@) == JsonTree::UInt(10) ==> action is Identify,
        payload.field("op"@) == JsonTree::UInt(10) ==> (action matches GatewayAction::Identify {
            text,
            heartbeat_ms,
        } && (payload.field("d"@).field("heartbeat_interval"@) matches JsonTree::UInt(n)
            ==> heartbeat_ms == n)),
        payload.field("op"@) == JsonTree::UInt(7) ==> (action matches GatewayAction::Reconnect {
            after_secs,
        } && after_secs == 0),
        payload.field("op"@) == JsonTree::UInt(9) ==> (action matches GatewayAction::Reconnect {
            after_secs,
        } && after_secs == 5),
        payload.field("op"@) == JsonTree::UInt(0) && payload.field("t"@) == JsonTree::Str(
            "MESSAGE_CREATE"@,
        ) && discord::created_draft(payload.field("d"@)) is Some ==> (
        action matches GatewayAction::Deliver { channel_id, message } && {
            let d = discord::created_draft(payload.field("d"@))->0;
            &&& channel_id@ == d.session_id
            &&& message is Some <==> ch.base.allowed(d.sender_id)
            &&& message matches Some(m) ==> m@ == draft_message(m.id@, ch.base.name@, d)
        }),
        action is Deliver ==> payload.field("op"@) == JsonTree::UInt(0) && payload.field("t"@)
            == JsonTree::Str("MESSAGE_CREATE"@),
{
    reveal_strlit("MESSAGE_CREATE");
}

/// The identification carries the bot's token and what it wants to hear of.
pub proof fn law_discord_identification(token: Seq<char>, intents: u64)
    ensures
        discord::identify_tree(token, intents).field("op"@) == JsonTree::UInt(2),
        discord::identify_tree(token, intents).field("d"@).field("token"@) == JsonTree::Str(token),
        discord::identify_tree(token, intents).field("d"@).field("intents"@) == JsonTree::UInt(
            intents,
        ),
        discord::heartbeat_tree().field("op"@) == JsonTree::UInt(1),
{
    reveal_strlit("op");
    reveal_strlit("d");
    reveal_strlit("token");
    reveal_strlit("intents");
    reveal_strlit("properties");
    assert("op"@.len() != "d"@.len());
    assert("token"@.len() == 5 && "intents"@.len() == 7 && "properties"@.len() == 10);
}

// ---- WhatsApp ----

/// A text message says its body without white space at the ends and is its
/// sender's, in the sender's own session, under the name of the contact where
/// there is one.
pub proof fn law_whatsapp_text(
    contacts: Option<Vec<WhatsAppContact>>,
    msg: WhatsAppMessage,
    from: String,
    body: String,
)
    requires
        msg.from == Some(from),
        msg.msg_type is Some,
        msg.msg_type->0@ == "text"@,
        msg.text is Some,
        msg.text->0.body == Some(body),
    ensures
        whatsapp::message_draft(contacts, msg) is Some <==> from@.len() > 0 && trim(body@).len()
            > 0,
        whatsapp::message_draft(contacts, msg) matches Some(d) ==> {
            &&& d.content == trim(body@)
            &&& d.sender_id == from@
            &&& d.session_id == from@
            &&& contacts is None ==> d.sender_name == from@
            &&& contacts matches Some(c) ==> (match whatsapp::contact_name(c@, from@) {
                Some(n) => d.sender_name == n,
                None => d.sender_name == from@,
            })
            &&& msg.id matches Some(id) ==> JsonTree::Obj(d.metadata).field("message_id"@)
                == JsonTree::Str(id@)
            &&& JsonTree::Obj(d.metadata).field("msg_type"@) == JsonTree::Str("text"@)
        },
{
    reveal_strlit("message_id");
    reveal_strlit("msg_type");
    assert("message_id"@.len() != "msg_type"@.len());
}

/// An attachment is handed on as a mark with its identifier, followed by its
/// caption where it has one.
pub proof fn law_whatsapp_media(
    contacts: Option<Vec<WhatsAppContact>>,
    msg: WhatsAppMessage,
    from: String,
    id: String,
    kind: String,
)
    requires
        msg.from == Some(from),
        from@.len() > 0,
        msg.msg_type == Some(kind),
    ensures
        kind@ == "image"@ && (msg.image matches Some(m) && m.id == Some(id) && m.caption is None)
            ==> (whatsapp::message_draft(contacts, msg) matches Some(d) && d.content == trim(
            "[Image: "@ + id@ + "]"@,
        ) && d.sender_id == from@),
        kind@ == "image"@ && (msg.image matches Some(m) && m.id == Some(id) && (
        m.caption matches Some(c) && c@.len() > 0)) ==> (whatsapp::message_draft(
            contacts,
            msg,
        ) matches Some(d) && d.content == trim(
            "[Image: "@ + id@ + "] "@ + msg.image->0.caption->0@,
        )),
        kind@ == "document"@ && (msg.document matches Some(m) && m.id == Some(id) && (
        m.caption matches Some(c) && c@.len() > 0)) ==> (whatsapp::message_draft(
            contacts,
            msg,
        ) matches Some(d) && d.content == trim(
            "[Document: "@ + id@ + "] "@ + msg.document->0.caption->0@,
        )),
        kind@ == "audio"@ && (msg.audio matches Some(m) && m.id == Some(id)) ==> (
        whatsapp::message_draft(contacts, msg) matches Some(d) && d.content == trim(
            "[Audio: "@ + id@ + "]"@,
        )),
{
    reveal_strlit("text");
    reveal_strlit("image");
    reveal_strlit("audio");
    reveal_strlit("document");
    assert("text"@.len() == 4 && "image"@.len() == 5 && "audio"@.len() == 5);
    assert("document"@.len() == 8 && "image"@[0] != "audio"@[0]);
}

/// The name of a contact is that of the last one with the number that has a
/// name.
pub proof fn law_contact_name(
    contacts: Seq<WhatsAppContact>,
    c: WhatsAppContact,
    number: Seq<char>,
    name: String,
)
    ensures
        contacts.len() == 0 ==> whatsapp::contact_name(contacts, number) is None,
        (c.wa_id matches Some(w) && w@ == number) && (c.profile matches Some(p) && p.name == Some(
            name,
        )) ==> whatsapp::contact_name(contacts.push(c), number) == Some(name@),
        !(c.wa_id matches Some(w) && w@ == number) ==> whatsapp::contact_name(
            contacts.push(c),
            number,
        ) == whatsapp::contact_name(contacts, number),
{
    assert(contacts.push(c).drop_last() =~= contacts);
}

/// The messages of a change are handed on in order, each that leads to
/// anything.
pub proof fn law_whatsapp_order(
    contacts: Option<Vec<WhatsAppContact>>,
    messages: Seq<WhatsAppMessage>,
    m: WhatsAppMessage,
)
    ensures
        messages.len() == 0 ==> whatsapp::messages_drafts(contacts, messages).len() == 0,
        whatsapp::message_draft(contacts, m) matches Some(d) ==> whatsapp::messages_drafts(
            contacts,
            messages.push(m),
        ) == whatsapp::messages_drafts(contacts, messages).push(d),
        whatsapp::message_draft(contacts, m) is None ==> whatsapp::messages_drafts(
            contacts,
            messages.push(m),
        ) == whatsapp::messages_drafts(contacts, messages),
{
    assert(messages.push(m).drop_last() =~= messages);
    let head = whatsapp::messages_drafts(contacts, messages);
    match whatsapp::message_draft(contacts, m) {
        Some(d) => {
            assert(head + seq![d] =~= head.push(d));
        },
        None => {
            assert(head + Seq::<DraftView>::empty() =~= head);
        },
    }
}

/// With a secret a payload is accepted exactly if it carries its code under the
/// secret.
pub proof fn law_whatsapp_signature(secret: String, signature: &str, body: Seq<char>)
    ensures
        whatsapp::payload_accepted(Some(secret), Some(signature), body) <==> signature@
            == "sha256="@ + hex_text(hmac_sha256_of(encode_utf8(secret@), encode_utf8(body))),
        !whatsapp::payload_accepted(Some(secret), None, body),
        whatsapp::payload_accepted(None, Some(signature), body),
{
}

// ---- Feishu ----

/// A received text says the text in its content without white space at the
/// ends, and belongs to its chat and its sender.
pub proof fn law_feishu_message(
    event: JsonTree,
    text: Seq<char>,
    sender: Seq<char>,
    chat: Seq<char>,
    id: Seq<char>,
)
    requires
        event.field("message"@).field("message_type"@) == JsonTree::Str("text"@),
        event.field("sender"@).field("sender_id"@).field("open_id"@) == JsonTree::Str(sender),
        event.field("message"@).field("chat_id"@) == JsonTree::Str(chat),
        event.field("message"@).field("message_id"@) == JsonTree::Str(id),
        text.len() > 0,
    ensures
        feishu::received_draft(event, text) matches Some(d) && {
            &&& d.content == text
            &&& d.sender_id == sender
            &&& d.session_id == chat
            &&& JsonTree::Obj(d.metadata).field("message_id"@) == JsonTree::Str(id)
            &&& event.field("message"@).field("chat_type"@) matches JsonTree::Str(t)
                ==> JsonTree::Obj(d.metadata).field("chat_type"@) == JsonTree::Str(t)
            &&& event.field("sender"@).field("sender_id"@).field("user_id"@) matches JsonTree::Str(
                u,
            ) ==> JsonTree::Obj(d.metadata).field("user_id"@) == JsonTree::Str(u)
        },
{
    reveal_strlit("message_id");
    reveal_strlit("chat_type");
    reveal_strlit("user_id");
    assert("message_id"@.len() == 10 && "chat_type"@.len() == 9 && "user_id"@.len() == 7);
}

/// The text of a message is the member `text` of the JSON in its content,
/// without white space at the ends; blank texts and other kinds of messages are
/// not handed on.
pub proof fn law_feishu_text(
    body: FeishuEvent,
    event: JsonTree,
    content: Seq<char>,
    j: JsonTree,
    t: Seq<char>,
)
    requires
        event.field("message"@).field("content"@) == JsonTree::Str(content),
        json_parse(content) == Some(j),
        j.field("text"@) == JsonTree::Str(t),
    ensures
        feishu::message_text(event.field("message"@)) == trim(t),
        (body.header matches Some(h) && (h.event_type matches Some(k) && k@
            == "im.message.receive_v1"@)) && (body.event matches Some(e) && e@ == event)
            ==> feishu::event_draft(body) == feishu::received_draft(event, trim(t)),
        trim(t).len() == 0 ==> feishu::received_draft(event, trim(t)) is None,
        event.field("message"@).field("message_type"@) is Str && event.field("message"@).field(
            "message_type"@,
        ) != JsonTree::Str("text"@) ==> feishu::received_draft(event, trim(t)) is None,
{
}

/// An event leads to its message only if it carries the verification token,
/// where there is one; else it is refused. A challenge is sent back.
pub proof fn law_feishu_push(state: FeishuState, body: FeishuEvent, token: String)
    requires
        state.verification_token == Some(token),
    ensures
        feishu::challenge_of(body) is None && feishu::received_token(body) == token@
            ==> feishu::event_answer(state, body).0 == 200 && feishu::accepted_draft(state, body)
            == feishu::event_draft(body),
        feishu::challenge_of(body) is None && feishu::received_token(body) != token@
            ==> feishu::event_answer(state, body).0 == 403 && feishu::accepted_draft(state, body)
            is None,
        feishu::challenge_of(body) matches Some(c) ==> {
            &&& feishu::event_answer(state, body).0 == 200
            &&& feishu::event_answer(state, body).1.field("challenge"@) == JsonTree::Str(c)
            &&& feishu::accepted_draft(state, body) is None
        },
{
}

// ---- Matrix ----

/// A text message of a room says its body without white space at the ends and
/// belongs to the room; the bot's own messages, other events and blank bodies
/// are not handed on.
pub proof fn law_matrix_message(
    bot: Seq<char>,
    room: Seq<char>,
    event: RoomEvent,
    sender: String,
    body: Seq<char>,
)
    requires
        event.sender == Some(sender),
        event.event_type is Some,
        event.event_type->0@ == "m.room.message"@,
        event.content is Some,
        event.content->0@.field("msgtype"@) == JsonTree::Str("m.text"@),
        event.content->0@.field("body"@) == JsonTree::Str(body),
    ensures
        matrix::event_draft(bot, room, event) is Some <==> !(bot.len() > 0 && sender@ == bot)
            && trim(body).len() > 0,
        matrix::event_draft(bot, room, event) matches Some(d) ==> {
            &&& d.content == trim(body)
            &&& d.sender_id == sender@
            &&& d.session_id == room
            &&& JsonTree::Obj(d.metadata).field("room_id"@) == JsonTree::Str(room)
            &&& event.event_id matches Some(id) ==> JsonTree::Obj(d.metadata).field("event_id"@)
                == JsonTree::Str(id@)
            &&& event.origin_server_ts matches Some(ts) ==> JsonTree::Obj(d.metadata).field(
                "origin_server_ts"@,
            ) == JsonTree::UInt(ts)
        },
{
    reveal_strlit("event_id");
    reveal_strlit("room_id");
    reveal_strlit("origin_server_ts");
    assert("event_id"@.len() == 8 && "room_id"@.len() == 7 && "origin_server_ts"@.len() == 16);
}

/// Events are handed on in order, each whose sender or room the list admits.
pub proof fn law_matrix_order(
    list: Seq<Seq<char>>,
    bot: Seq<char>,
    room: Seq<char>,
    events: Seq<RoomEvent>,
    e: RoomEvent,
)
    ensures
        events.len() == 0 ==> matrix::admitted_events(list, bot, room, events).len() == 0,
        matrix::event_draft(bot, room, e) is None ==> matrix::admitted_events(
            list,
            bot,
            room,
            events.push(e),
        ) == matrix::admitted_events(list, bot, room, events),
        matrix::event_draft(bot, room, e) matches Some(d) ==> {
            let before = matrix::admitted_events(list, bot, room, events);
            let after = matrix::admitted_events(list, bot, room, events.push(e));
            &&& allows(list, d.sender_id) || allows(list, room) ==> after == before.push(d)
            &&& !allows(list, d.sender_id) && !allows(list, room) ==> after == before
        },
{
    assert(events.push(e).drop_last() =~= events);
    let head = matrix::admitted_events(list, bot, room, events);
    assert(head + Seq::<DraftView>::empty() =~= head);
    if matrix::event_draft(bot, room, e) is Some {
        let d = matrix::event_draft(bot, room, e)->0;
        assert(head + seq![d] =~= head.push(d));
    }
}

// ---- DingTalk ----

/// A pushed text says its content without white space at the ends, is its
/// sender's, and its session is the address for the reply; blank texts and
/// other kinds of messages are not handed on.
pub proof fn law_dingtalk_message(body: DingTalkInbound)
    ensures
        push_draft(body) is Some <==> body.msg_type@ == "text"@ && (body.text matches Some(t)
            && trim(t.content@).len() > 0),
        push_draft(body) matches Some(d) ==> {
            &&& d.content == trim(body.text->0.content@)
            &&& d.sender_id == body.sender_id@
            &&& d.sender_name == body.sender_nick@
            &&& d.session_id == body.session_webhook@
            &&& JsonTree::Obj(d.metadata).field("conversation_id"@) == JsonTree::Str(
                body.conversation_id@,
            )
            &&& JsonTree::Obj(d.metadata).field("conversation_type"@) == JsonTree::Str(
                body.conversation_type@,
            )
            &&& JsonTree::Obj(d.metadata).field("conversation_title"@) == JsonTree::Str(
                body.conversation_title@,
            )
            &&& JsonTree::Obj(d.metadata).field("session_webhook"@) == JsonTree::Str(
                body.session_webhook@,
            )
        },
{
    reveal_strlit("conversation_id");
    reveal_strlit("conversation_type");
    reveal_strlit("conversation_title");
    reveal_strlit("session_webhook");
    assert("conversation_id"@.len() == 15 && "conversation_type"@.len() == 17);
    assert("conversation_title"@.len() == 18 && "session_webhook"@.len() == 15);
    assert("conversation_id"@[0] != "session_webhook"@[0]);
}

/// With a secret a push is accepted exactly if it carries the code of its time
/// stamp and the secret under the secret.
pub proof fn law_dingtalk_signature(secret: String, timestamp: Seq<char>, sign: Seq<char>)
    ensures
        push_accepted(Some(secret), timestamp, sign) <==> sign == base64_text(
            hmac_sha256_of(
                encode_utf8(secret@),
                encode_utf8(timestamp + "\n"@ + secret@),
            ),
        ),
        push_accepted(None, timestamp, sign),
{
}

// ---- WeCom ----

/// A message says its text, or what was spoken, or its texts with spaces
/// between them, as they are; it is its sender's, and its session is the
/// address for the reply.
pub proof fn law_wecom_message(msg: WeComMessage)
    ensures
        wechat_work::wecom_draft(msg) matches Some(d) ==> {
            &&& d.content.len() > 0
            &&& d.sender_id == msg.from.userid@
            &&& d.sender_name == msg.from.userid@
            &&& d.session_id == msg.response_url@
            &&& JsonTree::Obj(d.metadata).field("msg_id"@) == JsonTree::Str(msg.msgid@)
            &&& JsonTree::Obj(d.metadata).field("msg_type"@) == JsonTree::Str(msg.msgtype@)
            &&& JsonTree::Obj(d.metadata).field("chat_type"@) == JsonTree::Str(msg.chattype@)
            &&& JsonTree::Obj(d.metadata).field("response_url"@) == JsonTree::Str(
                msg.response_url@,
            )
            &&& msg.chatid@.len() > 0 ==> JsonTree::Obj(d.metadata).field("chat_id"@)
                == JsonTree::Str(msg.chatid@)
        },
        msg.msgtype@ == "text"@ && (msg.text matches Some(t) && t.content@.len() > 0) ==> (
        wechat_work::wecom_draft(msg) matches Some(d) && d.content == msg.text->0.content@),
        msg.msgtype@ == "voice"@ && (msg.voice matches Some(t) && t.content@.len() > 0) ==> (
        wechat_work::wecom_draft(msg) matches Some(d) && d.content == msg.voice->0.content@),
        msg.msgtype@ != "text"@ && msg.msgtype@ != "voice"@ && msg.msgtype@ != "mixed"@
            ==> wechat_work::wecom_draft(msg) is None,
{
    reveal_strlit("msg_id");
    reveal_strlit("msg_type");
    reveal_strlit("chat_type");
    reveal_strlit("response_url");
    reveal_strlit("chat_id");
    reveal_strlit("text");
    reveal_strlit("voice");
    reveal_strlit("mixed");
    assert("msg_id"@.len() == 6 && "msg_type"@.len() == 8 && "chat_type"@.len() == 9);
    assert("response_url"@.len() == 12 && "chat_id"@.len() == 7);
    assert("text"@.len() == 4 && "voice"@.len() == 5 && "mixed"@.len() == 5);
    assert("voice"@[0] != "mixed"@[0]);
}

/// The texts of a message of several parts are those of its text parts, in
/// order.
pub proof fn law_wecom_parts(items: Seq<WeComMixedItem>, i: WeComMixedItem)
    ensures
        items.len() == 0 ==> wechat_work::mixed_texts(items).len() == 0,
        i.msgtype@ == "text"@ && i.text is Some ==> wechat_work::mixed_texts(items.push(i))
            == wechat_work::mixed_texts(items).push(i.text->0.content@),
        !(i.msgtype@ == "text"@ && i.text is Some) ==> wechat_work::mixed_texts(items.push(i))
            == wechat_work::mixed_texts(items),
{
    assert(items.push(i).drop_last() =~= items);
}

/// A message that was seen is remembered, and so are the others unless there
/// are more than a thousand of them.
pub proof fn law_wecom_memory(ids: Seq<Seq<char>>, id: Seq<char>)
    ensures
        wechat_work::remembered(ids, id).contains(id),
        ids.len() <= 1000 ==> forall|k: int|
            0 <= k < ids.len() ==> wechat_work::remembered(ids, id).contains(#[trigger] ids[k]),
        forall|x: Seq<char>| #[trigger]
            wechat_work::remembered(ids, id).contains(x) ==> x == id || ids.contains(x),
        wechat_work::remembered(ids, id).len() <= if ids.len() <= 1000 {
            ids.len() + 1
        } else {
            ids.len()
        },
{
    let r = wechat_work::remembered(ids, id);
    if !ids.contains(id) {
        assert(r[r.len() - 1] == id);
        if ids.len() <= 1000 {
            assert forall|k: int| 0 <= k < ids.len() implies r.contains(#[trigger] ids[k]) by {
                assert(r[k] == ids[k]);
            }
            assert forall|x: Seq<char>| #[trigger] r.contains(x) implies x == id || ids.contains(
                x,
            ) by {
                let k = r.index_of(x);
                if k < ids.len() {
                    assert(ids[k] == x);
                }
            }
        }
    }
}

// ---- webhook ----

/// A body says its content without white space at the ends; its sender and its
/// session are those it names, and it is marked as coming from the webhook. A
/// blank one is not handed on.
pub proof fn law_webhook_message(b: WebhookInbound, key: Seq<char>)
    ensures
        body_draft(b) is Some <==> trim(b.content@).len() > 0,
        body_draft(b) matches Some(d) ==> {
            &&& d.content == trim(b.content@)
            &&& d.sender_id == b.sender_id@
            &&& d.sender_name == b.sender_name@
            &&& d.session_id == b.session_id@
            &&& JsonTree::Obj(d.metadata).field("source"@) == JsonTree::Str("webhook"@)
            &&& key != "source"@ ==> JsonTree::Obj(d.metadata).field(key) == JsonTree::Obj(
                json_map(b.metadata@),
            ).field(key)
        },
{
}

/// With a secret a body is accepted exactly if its header holds its code under
/// the secret, with the mark before it or without.
pub proof fn law_webhook_signature(secret: String, header: Seq<char>, body: Seq<char>)
    ensures
        !starts_with(header, "sha256="@) ==> (body_accepted(Some(secret), header, body) <==> header
            == hex_text(hmac_sha256_of(encode_utf8(secret@), encode_utf8(body)))),
        !starts_with(header, "sha256="@) ==> (body_accepted(
            Some(secret),
            "sha256="@ + header,
            body,
        ) <==> header == hex_text(hmac_sha256_of(encode_utf8(secret@), encode_utf8(body)))),
        body_accepted(None, header, body),
{
    reveal_strlit("sha256=");
    law_strip_repeated(header, "sha256="@);
}

/// A body is answered with a refusal if it is not accepted, as faulty if it
/// cannot be read or is blank, and else as accepted.
pub proof fn law_webhook_answer(accepted: bool, b: WebhookInbound, e: String)
    ensures
        body_answer(false, Ok(b)).0 == 403,
        body_answer(false, Err(e)).0 == 403,
        body_answer(true, Err(e)).0 == 400,
        trim(b.content@).len() == 0 ==> body_answer(true, Ok(b)).0 == 400,
        trim(b.content@).len() > 0 ==> body_answer(true, Ok(b)).0 == 200,
{
}

// ---- e-mail ----

/// A mail is its sender's, in the sender's own session; it says its text below
/// its subject, without white space at the ends.
pub proof fn law_email_message(m: EmailMessage)
    ensures
        email_draft(m).sender_id == m.from_addr@,
        email_draft(m).session_id == m.from_addr@,
        m.from_name@.len() == 0 ==> email_draft(m).sender_name == m.from_addr@,
        m.from_name@.len() > 0 ==> email_draft(m).sender_name == m.from_name@ + " <"@
            + m.from_addr@ + ">"@,
        m.subject@.len() == 0 ==> email_draft(m).content == trim(m.body@),
        m.subject@.len() > 0 ==> email_draft(m).content == trim(
            "[Subject: "@ + m.subject@ + "]\n\n"@ + m.body@,
        ),
        JsonTree::Obj(email_draft(m).metadata).field("message_id"@) == JsonTree::Str(m.message_id@),
        JsonTree::Obj(email_draft(m).metadata).field("subject"@) == JsonTree::Str(m.subject@),
{
    reveal_strlit("message_id");
    reveal_strlit("subject");
    assert("message_id"@.len() != "subject"@.len());
}

proof fn lemma_first_of_kind(parts: Seq<MailTree>, kind: Seq<char>, i: int)
    requires
        0 <= i,
    ensures
        match first_of_kind(parts, kind, i) {
            Some(k) => i <= k < parts.len() && starts_with(lowercase(parts[k].mimetype), kind)
                && forall|j: int|
                #![trigger parts[j]]
                i <= j < k ==> !starts_with(lowercase(parts[j].mimetype), kind),
            None => forall|j: int|
                #![trigger parts[j]]
                i <= j < parts.len() ==> !starts_with(lowercase(parts[j].mimetype), kind),
        },
    decreases parts.len() - i,
{
    if i < parts.len() && !starts_with(lowercase(parts[i].mimetype), kind) {
        lemma_first_of_kind(parts, kind, i + 1);
    }
}

/// The text of a mail of several parts is that of its first plain part; that of
/// a mail of one part is its body if it is a text.
pub proof fn law_email_text(t: MailTree, k: int)
    ensures
        t.subparts.len() == 0 && starts_with(lowercase(t.mimetype), "text/"@) ==> text_body(t)
            == t.body,
        t.subparts.len() == 0 && !starts_with(lowercase(t.mimetype), "text/"@) ==> text_body(t)
            == Some(Seq::<char>::empty()),
        0 <= k < t.subparts.len() && starts_with(
            lowercase(t.subparts[k].mimetype),
            "text/plain"@,
        ) && (forall|j: int|
            #![trigger t.subparts[j]]
            0 <= j < k ==> !starts_with(lowercase(t.subparts[j].mimetype), "text/plain"@))
            ==> text_body(t) == t.subparts[k].body,
{
    lemma_first_of_kind(t.subparts, "text/plain"@, 0);
}

/// A sender header of the form `Name <address>` is parted into the name,
/// without quotes, and the address; one without brackets is all address.
pub proof fn law_email_sender(name: Seq<char>, addr: Seq<char>)
    requires
        name.len() > 0,
        !name.contains('<'),
        !name.contains('>'),
        !addr.contains('<'),
        !addr.contains('>'),
        trim(name + seq!['<'] + addr + seq!['>']) == name + seq!['<'] + addr + seq!['>'],
        trim(addr) == addr,
    ensures
        from_parts(name + seq!['<'] + addr + seq!['>']).1 == addr,
        trim(name)[0] != '"' && trim(name).last() != '"' && trim(name).len() > 0 ==> from_parts(
            name + seq!['<'] + addr + seq!['>'],
        ).0 == trim(name),
        from_parts(addr) == (Seq::<char>::empty(), addr),
{
    let h = name + seq!['<'] + addr + seq!['>'];
    let n = name.len() as int;
    let e = n + 1 + addr.len();
    assert(h[n] == '<');
    assert forall|j: int| 0 <= j < n implies #[trigger] h[j] != '<' by {
        assert(h[j] == name[j]);
        assert(name.contains(name[j]));
    }
    lemma_first_char(h, '<', n);
    assert(h[e] == '>');
    assert forall|j: int| 0 <= j < e implies #[trigger] h[j] != '>' by {
        if j < n {
            assert(h[j] == name[j]);
            assert(name.contains(name[j]));
        } else if j > n {
            assert(h[j] == addr[j - n - 1]);
            assert(addr.contains(addr[j - n - 1]));
        }
    }
    lemma_first_char(h, '>', e);
    assert(h.take(n) =~= name);
    assert(h.subrange(n + 1, e) =~= addr);
    lemma_no_char(addr, '<');
}

} // verus!
