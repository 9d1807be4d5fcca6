//! What the channels send, how they read what is wrapped or nested, and in
//! which order they hand messages on.
use vstd::prelude::*;
use vstd::utf8::{decode_utf8, encode_utf8, valid_utf8};
use crate::channels::base::{draft_message, messages_of_drafts, DraftView};
use crate::channels::cli::shown;
use crate::channels::discord;
use crate::channels::discord::{DiscordChannel, GatewayAction, GatewayFrame};
use crate::channels::email::{
    email_draft, email_drafts, nested_body, part_at, parts_at, text_body, without_tags,
    EmailMessage, ItemView, MailTree,
};
use crate::channels::feishu::{cache_is_fresh, token_lifetime, TokenCache, TokenResponse};
use crate::channels::markdown::{
    html_escaped, html_text, placeholder, put_back, rewritten, with_placeholders,
};
use crate::channels::matrix;
use crate::channels::matrix::{JoinedRoom, RoomEvent, SyncResponse};
use crate::channels::telegram::{
    approval_body, approval_text, offset_after, offset_behind, TgUpdate,
};
use crate::channels::wechat_work::{
    be_number, callback_accepted, callback_signature, decrypted_text, framed_text,
    law_sorted_texts, message_text, mixed_texts, sort_texts, text_le, xml_tag, DecryptError,
    WeComMessage,
};
use crate::channels::whatsapp;
use crate::channels::whatsapp::{WhatsAppChange, WhatsAppEntry, WhatsAppWebhookPayload};
use crate::crypto::{hex_text, sha1_of};
use crate::json::{int_tree, json_parse, json_text, JsonTree};
use crate::model::channel::{InboundMessage, MessageContent};
use crate::pattern::regex_replaced;
use crate::text::{find, find_from, join, lemma_find_from, occurs_at, replace, trim};

verus! {

// ---- markup ----

/// HTML text is escaped character by character: the signs that mean markup
/// become entities, every other character stays.
pub proof fn law_html_by_characters(s: Seq<char>, c: char)
    ensures
        html_text(Seq::empty()).len() == 0,
        html_escaped(Seq::empty()).len() == 0,
        html_text(s.push('&')) == html_text(s) + "&amp;"@,
        html_text(s.push('<')) == html_text(s) + "&lt;"@,
        html_text(s.push('>')) == html_text(s) + "&gt;"@,
        c != '&' && c != '<' && c != '>' ==> html_text(s.push(c)) == html_text(s).push(c),
        html_escaped(s.push('"')) == html_escaped(s) + "&quot;"@,
        html_escaped(s.push('&')) == html_escaped(s) + "&amp;"@,
        html_escaped(s.push('<')) == html_escaped(s) + "&lt;"@,
        html_escaped(s.push('>')) == html_escaped(s) + "&gt;"@,
        c != '&' && c != '<' && c != '>' && c != '"' ==> html_escaped(s.push(c)) == html_escaped(
            s,
        ).push(c),
{
    assert(s.push('&').drop_last() =~= s);
    assert(s.push('<').drop_last() =~= s);
    assert(s.push('>').drop_last() =~= s);
    assert(s.push('"').drop_last() =~= s);
    assert(s.push(c).drop_last() =~= s);
    assert(html_text(s) + seq![c] =~= html_text(s).push(c));
    assert(html_escaped(s) + seq![c] =~= html_escaped(s).push(c));
}

/// Code is set aside piece by piece, a mark with its number in the place of
/// each, and each piece is put back, between its tags, in the place of its mark.
pub proof fn law_code_is_set_aside_and_put_back(
    pieces: Seq<Seq<char>>,
    piece: Seq<char>,
    text: Seq<char>,
    codes: Seq<Seq<char>>,
    code: Seq<char>,
    tag: Seq<char>,
    open: Seq<char>,
    close: Seq<char>,
)
    ensures
        with_placeholders(seq![piece], tag) == piece,
        pieces.len() > 0 ==> with_placeholders(pieces.push(piece), tag) == with_placeholders(
            pieces,
            tag,
        ) + placeholder(tag, (pieces.len() - 1) as nat) + piece,
        put_back(text, Seq::empty(), tag, open, close) == text,
        put_back(text, codes.push(code), tag, open, close) == replace(
            put_back(text, codes, tag, open, close),
            placeholder(tag, codes.len()),
            open + code + close,
        ),
{
    assert(pieces.push(piece).drop_last() =~= pieces);
    assert(codes.push(code).drop_last() =~= codes);
}

/// A step of rewriting gives what the pattern replaces, and the text itself
/// where the pattern is none.
pub proof fn law_rewriting(text: Seq<char>, pattern: Seq<char>, rep: Seq<char>)
    ensures
        regex_replaced(pattern, text, rep) matches Some(t) ==> rewritten(text, pattern, rep) == t,
        regex_replaced(pattern, text, rep) is None ==> rewritten(text, pattern, rep) == text,
{
}

/// What the terminal shows of a reply.
pub proof fn law_shown(t: String, name: String, data: Vec<u8>)
    ensures
        shown(MessageContent::Text(t)) == t@,
        shown(MessageContent::Image(data)) == "[image received]"@,
        shown(MessageContent::Audio(data)) == "[audio received]"@,
        shown((MessageContent::File { name, data })) == "[file received: "@ + name@ + "]"@,
{
}

// ---- all channels ----

/// The messages made of some drafts are as many as these, and each says what its
/// draft says.
pub proof fn law_messages_of_drafts(
    messages: Seq<InboundMessage>,
    channel: Seq<char>,
    drafts: Seq<DraftView>,
    i: int,
)
    requires
        messages_of_drafts(messages, channel, drafts),
    ensures
        messages.len() == drafts.len(),
        0 <= i < drafts.len() ==> {
            &&& messages[i].channel@ == channel
            &&& messages[i].sender_id@ == drafts[i].sender_id
            &&& messages[i].sender_name@ == drafts[i].sender_name
            &&& messages[i].session_id@ == drafts[i].session_id
            &&& messages[i].content matches MessageContent::Text(t) && t@ == drafts[i].content
        },
{
    if 0 <= i < drafts.len() {
        assert(messages[i]@ == draft_message(messages[i].id@, channel, drafts[i]));
        match messages[i].content {
            MessageContent::Text(t) => {},
            MessageContent::Image(d) => {},
            MessageContent::Audio(d) => {},
            MessageContent::File { name, data } => {},
        }
    }
}

// ---- Telegram ----

/// An approval prompt goes to its chat as HTML and offers two buttons, whose
/// data name the request: the first grants it, the second denies it.
pub proof fn law_approval_prompt(
    chat_id: i64,
    request_id: Seq<char>,
    tool: Seq<char>,
    args: Seq<char>,
)
    ensures
        ({
            let b = approval_body(chat_id, request_id, tool, args);
            let keys = b.field("reply_markup"@).field("inline_keyboard"@);
            &&& b.field("chat_id"@) == int_tree(chat_id)
            &&& b.field("parse_mode"@) == JsonTree::Str("HTML"@)
            &&& b.field("text"@) == JsonTree::Str(approval_text(request_id, tool, args))
            &&& keys.item(0).item(0).field("callback_data"@) == JsonTree::Str(
                "acadapr:yes:"@ + request_id,
            )
            &&& keys.item(0).item(1).field("callback_data"@) == JsonTree::Str(
                "acadapr:no:"@ + request_id,
            )
            &&& keys.item(1) is Null
            &&& keys.item(0).item(2) is Null
        }),
{
    reveal_strlit("chat_id");
    reveal_strlit("text");
    reveal_strlit("parse_mode");
    reveal_strlit("reply_markup");
    reveal_strlit("callback_data");
    assert("chat_id"@.len() == 7 && "text"@.len() == 4 && "parse_mode"@.len() == 10);
    assert("reply_markup"@.len() == 12 && "callback_data"@.len() == 13);
}

/// An approval prompt names the tool, its arguments, cut to two hundred
/// characters, and the request, all escaped.
pub proof fn law_approval_text(request_id: Seq<char>, tool: Seq<char>, args: Seq<char>)
    ensures
        ({
            let cut = if args.len() <= 200 {
                args
            } else {
                args.take(200)
            };
            approval_text(request_id, tool, args)
                == "🔒 <b>Tool approval required</b>\n\nTool: <code>"@ + html_escaped(tool)
                + "</code>\nArgs: <code>"@ + html_escaped(cut) + "</code>\nRequest ID: <code>"@
                + html_escaped(request_id) + "</code>\n\n⏱ This request expires in 30 minutes."@
        }),
{
}

/// The probe at the start skips the updates that were waiting: the offset is
/// one behind the last of them that has an identifier.
pub proof fn law_probe_skips_what_waits(updates: Seq<JsonTree>, u: JsonTree, offset: int, n: u64)
    requires
        n <= i64::MAX,
    ensures
        updates.len() == 0 ==> offset_behind(updates, offset) == offset,
        u.field("update_id"@) == JsonTree::UInt(n) ==> offset_behind(updates.push(u), offset) == n
            + 1,
        u.field("update_id"@) is Null ==> offset_behind(updates.push(u), offset) == offset_behind(
            updates,
            offset,
        ),
{
    assert(updates.push(u).drop_last() =~= updates);
}

/// The offset is one behind the largest identifier seen, never less than it
/// was.
pub proof fn law_offset_is_behind_the_largest(updates: Seq<TgUpdate>, u: TgUpdate, offset: int)
    ensures
        updates.len() == 0 ==> offset_after(updates, offset) == offset,
        u.update_id >= offset_after(updates, offset) ==> offset_after(updates.push(u), offset)
            == u.update_id + 1,
        u.update_id < offset_after(updates, offset) ==> offset_after(updates.push(u), offset)
            == offset_after(updates, offset),
{
    assert(updates.push(u).drop_last() =~= updates);
}

// ---- Discord ----

/// What is done about a frame: a ping is answered with a heartbeat, a text that
/// is a payload is dealt with as that payload, the end of the stream ends the
/// session, and anything else is waited out.
pub proof fn law_discord_frame(
    ch: DiscordChannel,
    t: String,
    e: String,
    action: GatewayAction,
    payload: JsonTree,
)
    ensures
        discord::is_frame_action(ch, GatewayFrame::Ping, action) ==> (
        action matches GatewayAction::Send(x) && x@ == json_text(discord::heartbeat_tree())),
        discord::is_frame_action(ch, GatewayFrame::Text(t), action) && json_parse(t@) == Some(
            payload,
        ) ==> discord::is_payload_action(ch, payload, action),
        discord::is_frame_action(ch, GatewayFrame::Text(t), action) && json_parse(t@) is None
            ==> action is Wait,
        discord::is_frame_action(ch, GatewayFrame::Close, action) ==> action is End,
        discord::is_frame_action(ch, GatewayFrame::Ended, action) ==> action is End,
        discord::is_frame_action(ch, GatewayFrame::Other, action) ==> action is Wait,
        discord::is_frame_action(ch, GatewayFrame::Failed(e), action) ==> action is Fail,
{
}

// ---- Feishu ----

/// A token is good for as long as the service says, else for two hours; it is
/// used while it is good for more than another minute.
pub proof fn law_feishu_token(answer: TokenResponse, n: u64, cache: TokenCache, now: u64)
    ensures
        answer.expire == Some(n) ==> token_lifetime(answer) == n,
        answer.expire is None ==> token_lifetime(answer) == 7200,
        cache_is_fresh(Some(cache), now) <==> cache.expires_at > now + 60,
        !cache_is_fresh(None, now),
{
}

// ---- Matrix ----

/// The rooms of a sync are handled in their order, each with its own events.
pub proof fn law_matrix_rooms(
    list: Seq<Seq<char>>,
    bot: Seq<char>,
    rooms: Seq<(String, JoinedRoom)>,
    r: (String, JoinedRoom),
    events: Vec<RoomEvent>,
)
    ensures
        rooms.len() == 0 ==> matrix::admitted_rooms(list, bot, rooms).len() == 0,
        (r.1.timeline matches Some(t) && t.events == Some(events)) ==> matrix::admitted_rooms(
            list,
            bot,
            rooms.push(r),
        ) == matrix::admitted_rooms(list, bot, rooms) + matrix::admitted_events(
            list,
            bot,
            r.0@,
            events@,
        ),
{
    assert(rooms.push(r).drop_last() =~= rooms);
}

/// A sync leads to what its joined rooms lead to, and to nothing without them.
pub proof fn law_matrix_sync(
    list: Seq<Seq<char>>,
    bot: Seq<char>,
    sync: SyncResponse,
    rooms: Vec<(String, JoinedRoom)>,
)
    ensures
        (sync.rooms matches Some(r) && r.join == Some(rooms)) ==> matrix::admitted_sync(
            list,
            bot,
            sync,
        ) == matrix::admitted_rooms(list, bot, rooms@),
        !(sync.rooms matches Some(r) && r.join is Some) ==> matrix::admitted_sync(
            list,
            bot,
            sync,
        ).len() == 0,
{
}

// ---- WhatsApp ----

/// The entries of a payload and the changes of an entry are handled in their
/// order; a change leads to the messages it brings if it is about messages of
/// this product.
pub proof fn law_whatsapp_payload(
    payload: WhatsAppWebhookPayload,
    entries: Vec<WhatsAppEntry>,
    before: Seq<WhatsAppEntry>,
    e: WhatsAppEntry,
    changes: Seq<WhatsAppChange>,
    c: WhatsAppChange,
)
    ensures
        (payload.object matches Some(o) && o@ == "whatsapp_business_account"@) && payload.entry
            == Some(entries) ==> whatsapp::payload_drafts(payload) == whatsapp::entries_drafts(
            entries@,
        ),
        !(payload.object matches Some(o) && o@ == "whatsapp_business_account"@)
            ==> whatsapp::payload_drafts(payload).len() == 0,
        before.len() == 0 ==> whatsapp::entries_drafts(before).len() == 0,
        e.changes matches Some(v) ==> whatsapp::entries_drafts(before.push(e))
            == whatsapp::entries_drafts(before) + whatsapp::changes_drafts(v@),
        changes.len() == 0 ==> whatsapp::changes_drafts(changes).len() == 0,
        whatsapp::changes_drafts(changes.push(c)) == whatsapp::changes_drafts(changes)
            + whatsapp::change_drafts(c),
        (c.field matches Some(f) && f@ == "messages"@) && (c.value matches Some(v) && (
        v.messaging_product matches Some(p) && p@ == "whatsapp"@) && v.messages is Some)
            ==> whatsapp::change_drafts(c) == whatsapp::messages_drafts(
            c.value->0.contacts,
            c.value->0.messages->0@,
        ),
        !(c.field matches Some(f) && f@ == "messages"@) ==> whatsapp::change_drafts(c).len() == 0,
{
    assert(before.push(e).drop_last() =~= before);
    assert(changes.push(c).drop_last() =~= changes);
}

// ---- WeCom ----

/// A callback is accepted exactly if there is no token or its signature is the
/// one that the token and what is signed call for.
pub proof fn law_wecom_signature(
    token: Seq<char>,
    signature: Seq<char>,
    timestamp: Seq<char>,
    nonce: Seq<char>,
    encrypted: Seq<char>,
)
    ensures
        token.len() == 0 ==> callback_accepted(token, signature, timestamp, nonce, encrypted),
        token.len() > 0 ==> (callback_accepted(token, signature, timestamp, nonce, encrypted)
            <==> signature == callback_signature(token, timestamp, nonce, encrypted)),
{
}

/// The signature of a callback is the digest of its four texts one after the
/// other, in the order of their characters.
pub proof fn law_wecom_signature_is_a_digest(
    token: Seq<char>,
    timestamp: Seq<char>,
    nonce: Seq<char>,
    encrypted: Seq<char>,
)
    ensures
        exists|p: Seq<Seq<char>>|
            {
                &&& p.len() == 4
                &&& #[trigger] p.to_multiset() == seq![
                    token,
                    timestamp,
                    nonce,
                    encrypted,
                ].to_multiset()
                &&& text_le(p[0], p[1]) && text_le(p[1], p[2]) && text_le(p[2], p[3])
                &&& callback_signature(token, timestamp, nonce, encrypted) == hex_text(
                    sha1_of(encode_utf8(p[0] + p[1] + p[2] + p[3])),
                )
            },
{
    let s = seq![token, timestamp, nonce, encrypted];
    let p = sort_texts(s);
    law_sorted_texts(s);
    broadcast use vstd::seq_lib::group_to_multiset_ensures;

    assert(p.len() == 4) by {
        assert(p.to_multiset().len() == s.to_multiset().len());
    }
    let (a, b, c, d) = (p[0], p[1], p[2], p[3]);
    assert(p =~= seq![a, b, c, d]);
    assert(text_le(p[0], p[1]) && text_le(p[1], p[2]) && text_le(p[2], p[3]));
    reveal_strlit("");
    let e = ""@;
    assert(e =~= Seq::<char>::empty());
    let p1 = seq![a];
    let p2 = seq![a, b];
    let p3 = seq![a, b, c];
    assert(join(p1, e) == a);
    assert(p2.drop_last() =~= p1);
    assert(join(p2, e) =~= a + b);
    assert(p3.drop_last() =~= p2);
    assert(join(p3, e) =~= a + b + c);
    assert(p.drop_last() =~= p3);
    assert(join(p, e) =~= a + b + c + d);
    assert(p.to_multiset() == s.to_multiset());
}

/// The four bytes of a number, the most significant first.
pub open spec fn be_bytes(n: u32) -> Seq<u8> {
    seq![
        (n / 0x100_0000) as u8,
        (n / 0x1_0000 % 0x100) as u8,
        (n / 0x100 % 0x100) as u8,
        (n % 0x100) as u8,
    ]
}

proof fn lemma_be_bytes(n: u32)
    ensures
        be_number(be_bytes(n)) == n,
{
    assert(n / 0x100_0000 < 0x100);
    assert(n == (n / 0x100_0000) * 0x100_0000 + (n / 0x1_0000 % 0x100) * 0x1_0000 + (n / 0x100
        % 0x100) * 0x100 + n % 0x100);
}

/// A message that was framed is read back: sixteen random bytes, the length,
/// the text, an identifier and the padding; the text alone is what it says.
pub proof fn law_wecom_frame_is_read_back(
    random: Seq<u8>,
    text: Seq<u8>,
    id: Seq<u8>,
    pad: u8,
)
    requires
        random.len() == 16,
        1 <= pad <= 32,
        text.len() <= u32::MAX,
        valid_utf8(text),
    ensures
        framed_text(
            random + be_bytes(text.len() as u32) + text + id + Seq::new(pad as nat, |i: int| pad),
        ) == Ok::<Seq<char>, DecryptError>(decode_utf8(text)),
{
    let n = text.len() as u32;
    let padding = Seq::new(pad as nat, |i: int| pad);
    let data = random + be_bytes(n) + text + id;
    let plain = data + padding;
    assert(plain =~= random + be_bytes(n) + text + id + padding);
    assert(plain.last() == pad);
    assert(plain.take(plain.len() - pad) =~= data);
    assert(data.subrange(16, 20) =~= be_bytes(n));
    lemma_be_bytes(n);
    assert(data.subrange(20, 20 + n as int) =~= text);
}

/// A message that is empty, whose padding is of no allowed length, that is too
/// short or claims more than there is, is not read.
pub proof fn law_wecom_bad_frames(plain: Seq<u8>)
    ensures
        plain.len() == 0 ==> framed_text(plain) == Err::<Seq<char>, DecryptError>(
            DecryptError::Empty,
        ),
        plain.len() > 0 && (plain.last() < 1 || plain.last() > 32) ==> framed_text(plain) == Err::<
            Seq<char>,
            DecryptError,
        >(DecryptError::BadPadding(plain.last())),
        plain.len() > 0 && 1 <= plain.last() <= 32 && plain.last() <= plain.len() < 20
            + plain.last() ==> framed_text(plain) is Err,
{
}

/// What stands between the first opening tag and the next closing one, without
/// white space at its ends.
pub proof fn law_xml_tag(
    before: Seq<char>,
    tag: Seq<char>,
    inside: Seq<char>,
    behind: Seq<char>,
)
    requires
        find(before + ("<"@ + tag + ">"@) + inside + ("</"@ + tag + ">"@) + behind, "<"@ + tag + ">"@)
            == Some(before.len() as int),
        forall|j: int|
            before.len() + ("<"@ + tag + ">"@).len() <= j < before.len() + ("<"@ + tag + ">"@).len()
                + inside.len() ==> !occurs_at(
                before + ("<"@ + tag + ">"@) + inside + ("</"@ + tag + ">"@) + behind,
                "</"@ + tag + ">"@,
                j,
            ),
    ensures
        xml_tag(before + ("<"@ + tag + ">"@) + inside + ("</"@ + tag + ">"@) + behind, tag) == Some(
            trim(inside),
        ),
{
    let open = "<"@ + tag + ">"@;
    let close = "</"@ + tag + ">"@;
    let xml = before + open + inside + close + behind;
    let start = (before.len() + open.len()) as int;
    let end = start + inside.len();
    lemma_find_from(xml, close, start);
    assert(xml.subrange(end, end + close.len()) =~= close);
    assert(occurs_at(xml, close, end));
    assert(find_from(xml, close, start) == Some(end));
    assert(xml.subrange(start, end) =~= inside);
}

/// A message of several parts says its texts with spaces between them.
pub proof fn law_wecom_mixed(msg: WeComMessage)
    requires
        msg.msgtype@ == "mixed"@,
        msg.mixed is Some,
    ensures
        message_text(msg) == Some(join(mixed_texts(msg.mixed->0.msg_item@), " "@)),
{
    reveal_strlit("text");
    reveal_strlit("voice");
    reveal_strlit("mixed");
    assert("text"@.len() == 4 && "voice"@.len() == 5 && "mixed"@.len() == 5);
    assert("voice"@[0] != "mixed"@[0]);
}

/// Without a key nothing is read.
pub proof fn law_wecom_needs_a_key(encrypted: Seq<char>)
    ensures
        decrypted_text(None, encrypted) == Err::<Seq<char>, DecryptError>(DecryptError::NoKey),
{
}

// ---- e-mail ----

/// Mails are handed on one by one in their order.
pub proof fn law_email_order(s: Seq<EmailMessage>, i: int)
    ensures
        email_drafts(s).len() == s.len(),
        0 <= i < s.len() ==> email_drafts(s)[i] == email_draft(s[i]),
{
}

/// The tree of a mail has at its root the first part listed, with its type and
/// its body; a part without parts of its own is a leaf.
pub proof fn law_mail_tree(items: Seq<ItemView>, i: int)
    requires
        0 <= i < items.len(),
    ensures
        part_at(items, i).0.mimetype == items[i].mimetype,
        part_at(items, i).0.body == items[i].body,
        items[i].children == 0 ==> part_at(items, i).0.subparts.len() == 0 && part_at(items, i).1
            == i + 1,
        part_at(items, i).0.subparts.len() <= items[i].children,
{
    lemma_parts(items, i + 1, items[i].children);
}

proof fn lemma_parts(items: Seq<ItemView>, i: int, n: nat)
    ensures
        parts_at(items, i, n).0.len() <= n,
    decreases n,
{
    if n > 0 && 0 <= i < items.len() {
        let after = part_at(items, i).1;
        let j = if i < after <= items.len() {
            after
        } else {
            items.len() as int
        };
        lemma_parts(items, j, (n - 1) as nat);
    }
}

/// Of nested parts the first that says anything is taken; one that cannot be
/// decoded ends the search.
pub proof fn law_nested_text(parts: Seq<MailTree>, i: int)
    requires
        0 <= i < parts.len(),
    ensures
        text_body(parts[i]) matches Some(b) ==> (b.len() > 0 ==> nested_body(parts, i) == Some(b)),
        text_body(parts[i]) matches Some(b) ==> (b.len() == 0 ==> nested_body(parts, i)
            == nested_body(parts, i + 1)),
        text_body(parts[i]) is None ==> nested_body(parts, i) is None,
        nested_body(parts, parts.len() as int) == Some(Seq::<char>::empty()),
{
}

/// What stands in angle brackets is dropped, everything else stays in its
/// order.
pub proof fn law_tags_are_dropped(s: Seq<char>, c: char)
    ensures
        without_tags(Seq::empty(), false).len() == 0,
        c != '<' && c != '>' ==> without_tags(seq![c] + s, false) == seq![c] + without_tags(
            s,
            false,
        ),
        c != '<' && c != '>' ==> without_tags(seq![c] + s, true) == without_tags(s, true),
        without_tags(seq!['<'] + s, false) == without_tags(s, true),
        without_tags(seq!['>'] + s, true) == without_tags(s, false),
{
    assert((seq![c] + s).drop_first() =~= s);
    assert((seq!['<'] + s).drop_first() =~= s);
    assert((seq!['>'] + s).drop_first() =~= s);
}

} // verus!
