//! What comes of an update from Telegram, and what a reply is made of.
use vstd::prelude::*;
use crate::channels::telegram::{
    approval_request, callback_action, command_of, edit_tree, is_reply_step, law_approval_data_round_trip, mentions,
    message_action, message_content, message_metadata, message_tree, opt_part, raw_text, sender_text,
    telegram_html, update_action, without_mention, ActionView, ReplyStep, TelegramChannel,
    TgCallbackQuery, TgMessage, TgUpdate, TgUser, START_TEXT, HELP_TEXT,
};
use crate::json::{int_tree, JsonTree};
use crate::model::channel::ContentView;
use crate::text::{int_text, join, starts_with, trim};

verus! {

/// What a user wrote: the text of the message, else its caption.
pub open spec fn wrote(msg: TgMessage, t: Seq<char>) -> bool {
    ||| msg.text matches Some(x) && x@ == t
    ||| msg.text is None && (msg.caption matches Some(x) && x@ == t)
    ||| msg.text is None && msg.caption is None && t.len() == 0
}

/// The message is not one of the commands that the bot answers by itself.
pub open spec fn no_command(msg: TgMessage) -> bool {
    msg.text matches Some(t) ==> command_of(t@) != "/start"@ && command_of(t@) != "/help"@
}

/// A mark on a line of its own behind what is there.
pub open spec fn marked(s: Seq<char>, present: bool, mark: Seq<char>) -> Seq<char> {
    if present {
        s + "\n"@ + mark
    } else {
        s
    }
}

/// The message has a picture.
pub open spec fn pictured(msg: TgMessage) -> bool {
    msg.photo matches Some(p) && p@.len() > 0
}

proof fn lemma_join_part(parts: Seq<Seq<char>>, present: bool, part: Seq<char>)
    requires
        parts.len() > 0,
    ensures
        join(parts + opt_part(present, part), "\n"@) == marked(join(parts, "\n"@), present, part),
        (parts + opt_part(present, part)).len() > 0,
{
    if present {
        let more = parts + opt_part(present, part);
        assert(more.drop_last() =~= parts);
        assert(more.last() == part);
    } else {
        assert(parts + opt_part(present, part) =~= parts);
    }
}

proof fn lemma_content(msg: TgMessage, text: Seq<char>)
    requires
        text.len() > 0,
    ensures
        message_content(msg, text) == marked(
            marked(
                marked(marked(text, pictured(msg), "[image]"@), msg.voice is Some, "[voice]"@),
                msg.audio is Some,
                "[audio]"@,
            ),
            msg.document is Some,
            "[file]"@,
        ),
{
    let p0 = opt_part(text.len() > 0, text);
    assert(p0 =~= seq![text]);
    assert(join(p0, "\n"@) == text);
    lemma_join_part(p0, pictured(msg), "[image]"@);
    let p1 = p0 + opt_part(pictured(msg), "[image]"@);
    lemma_join_part(p1, msg.voice is Some, "[voice]"@);
    let p2 = p1 + opt_part(msg.voice is Some, "[voice]"@);
    lemma_join_part(p2, msg.audio is Some, "[audio]"@);
    let p3 = p2 + opt_part(msg.audio is Some, "[audio]"@);
    lemma_join_part(p3, msg.document is Some, "[file]"@);
}

proof fn lemma_marked_begins(s: Seq<char>, present: bool, mark: Seq<char>, w: Seq<char>)
    requires
        starts_with(s, w),
    ensures
        starts_with(marked(s, present, mark), w),
{
    let m = marked(s, present, mark);
    assert(m.take(w.len() as int) =~= s.take(w.len() as int));
}

/// The content delivered for a private message from an allowed sender that is
/// no command is what the user wrote, its text or else its caption, with a mark
/// on a line of its own for each attachment behind it; so it begins with what
/// the user wrote. Where the user wrote nothing there are only the marks, and
/// where there is no attachment either the message is called empty.
pub proof fn law_private_message_says_what_was_written(
    ch: TelegramChannel,
    id: Seq<char>,
    msg: TgMessage,
    user: TgUser,
    t: Seq<char>,
)
    requires
        msg.chat.chat_type@ == "private"@,
        ch.base.allowed(sender_text(user)),
        no_command(msg),
        wrote(msg, t),
    ensures
        message_action(ch, id, msg, user) matches ActionView::Deliver {
            chat_id,
            placeholder,
            inbound,
        } && (inbound.content matches ContentView::Text(c) && {
            &&& starts_with(c, t)
            &&& t.len() > 0 ==> c == marked(
                marked(
                    marked(marked(t, pictured(msg), "[image]"@), msg.voice is Some, "[voice]"@),
                    msg.audio is Some,
                    "[audio]"@,
                ),
                msg.document is Some,
                "[file]"@,
            )
            &&& t.len() == 0 && !pictured(msg) && msg.voice is None && msg.audio is None
                && msg.document is None ==> c == "[empty message]"@
            &&& t.len() == 0 && pictured(msg) && msg.voice is None && msg.audio is None
                && msg.document is None ==> c == "[image]"@
            &&& t.len() == 0 && !pictured(msg) && msg.voice is Some && msg.audio is None
                && msg.document is None ==> c == "[voice]"@
            &&& t.len() == 0 && !pictured(msg) && msg.voice is None && msg.audio is Some
                && msg.document is None ==> c == "[audio]"@
            &&& t.len() == 0 && !pictured(msg) && msg.voice is None && msg.audio is None
                && msg.document is Some ==> c == "[file]"@
        }),
{
    let c = message_content(msg, t);
    if t.len() > 0 {
        lemma_content(msg, t);
        assert(t.take(t.len() as int) =~= t);
        let m0 = marked(t, pictured(msg), "[image]"@);
        lemma_marked_begins(t, pictured(msg), "[image]"@, t);
        let m1 = marked(m0, msg.voice is Some, "[voice]"@);
        lemma_marked_begins(m0, msg.voice is Some, "[voice]"@, t);
        let m2 = marked(m1, msg.audio is Some, "[audio]"@);
        lemma_marked_begins(m1, msg.audio is Some, "[audio]"@, t);
        lemma_marked_begins(m2, msg.document is Some, "[file]"@, t);
    } else {
        assert(c.take(0) =~= t);
    }
}

/// A delivered message goes back to the chat it came from, under the sender's
/// identifier and name; the session is the decimal notation of the chat.
pub proof fn law_delivered_message_fields(
    ch: TelegramChannel,
    id: Seq<char>,
    msg: TgMessage,
    user: TgUser,
)
    ensures
        message_action(ch, id, msg, user) matches ActionView::Deliver {
            chat_id,
            placeholder,
            inbound,
        } ==> {
            &&& chat_id == msg.chat.id
            &&& inbound.id == id
            &&& inbound.channel == ch.base.name@
            &&& inbound.session_id == int_text(msg.chat.id as int)
            &&& user.username is None ==> inbound.sender_id == int_text(user.id as int)
            &&& user.username matches Some(n) ==> inbound.sender_id == int_text(user.id as int)
                + "|"@ + n@
            &&& inbound.sender_name == user.first_name@
            &&& inbound.reply_to is None
            &&& inbound.metadata == message_metadata(msg, user)
        },
        message_action(ch, id, msg, user) matches ActionView::Command { chat_id, text, html }
            ==> chat_id == msg.chat.id,
{
}

/// What else is known of a message: its identifier, the sender's, the sender's
/// name, whether it comes from a group, and the files attached, of a picture
/// the largest size, which comes last.
pub proof fn law_message_metadata(msg: TgMessage, user: TgUser)
    ensures
        ({
            let m = JsonTree::Obj(message_metadata(msg, user));
            &&& m.field("message_id"@) == JsonTree::Str(int_text(msg.message_id as int))
            &&& m.field("user_id"@) == JsonTree::Str(int_text(user.id as int))
            &&& m.field("first_name"@) == JsonTree::Str(user.first_name@)
            &&& m.field("is_group"@) == JsonTree::Bool(msg.chat.chat_type@ != "private"@)
            &&& m.field("photo_file_id"@) == (if pictured(msg) {
                JsonTree::Str(msg.photo->0@[msg.photo->0@.len() - 1].file_id@)
            } else {
                JsonTree::Null
            })
            &&& m.field("voice_file_id"@) == (match msg.voice {
                Some(f) => JsonTree::Str(f.file_id@),
                None => JsonTree::Null,
            })
            &&& m.field("audio_file_id"@) == (match msg.audio {
                Some(f) => JsonTree::Str(f.file_id@),
                None => JsonTree::Null,
            })
            &&& m.field("document_file_id"@) == (match msg.document {
                Some(f) => JsonTree::Str(f.file_id@),
                None => JsonTree::Null,
            })
        }),
{
    reveal_strlit("message_id");
    reveal_strlit("user_id");
    reveal_strlit("first_name");
    reveal_strlit("is_group");
    reveal_strlit("photo_file_id");
    reveal_strlit("voice_file_id");
    reveal_strlit("audio_file_id");
    reveal_strlit("document_file_id");
    assert("message_id"@.len() == 10 && "user_id"@.len() == 7 && "first_name"@.len() == 10);
    assert("is_group"@.len() == 8 && "photo_file_id"@.len() == 13 && "voice_file_id"@.len() == 13);
    assert("audio_file_id"@.len() == 13 && "document_file_id"@.len() == 16);
    assert("message_id"@[0] != "first_name"@[0]);
    assert("photo_file_id"@[0] != "voice_file_id"@[0]);
    assert("photo_file_id"@[0] != "audio_file_id"@[0]);
    assert("voice_file_id"@[0] != "audio_file_id"@[0]);
}

/// The commands `/start` and `/help` are answered in the chat, whoever sends
/// them, with the greeting or with the help; they are never delivered.
pub proof fn law_commands_are_answered(
    ch: TelegramChannel,
    id: Seq<char>,
    msg: TgMessage,
    user: TgUser,
)
    requires
        msg.text is Some,
    ensures
        command_of(msg.text->0@) == "/start"@ ==> message_action(ch, id, msg, user) == (
        ActionView::Command { chat_id: msg.chat.id, text: START_TEXT@, html: false }),
        command_of(msg.text->0@) == "/help"@ ==> message_action(ch, id, msg, user) == (
        ActionView::Command { chat_id: msg.chat.id, text: HELP_TEXT@, html: true }),
        message_action(ch, id, msg, user) is Deliver ==> no_command(msg),
{
    reveal_strlit("/start");
    reveal_strlit("/help");
    assert("/start"@.len() != "/help"@.len());
}

/// A message is delivered only if its sender is admitted: in a private chat by
/// the general list, elsewhere by the list for groups, and there only if it
/// mentions the bot where that is required. Any other message is ignored.
pub proof fn law_only_admitted_senders_are_delivered(
    ch: TelegramChannel,
    id: Seq<char>,
    msg: TgMessage,
    user: TgUser,
)
    requires
        no_command(msg),
    ensures
        ({
            let private = msg.chat.chat_type@ == "private"@;
            let action = message_action(ch, id, msg, user);
            &&& private ==> (action is Deliver <==> ch.base.allowed(sender_text(user)))
            &&& !private && !ch.mention_only ==> (action is Deliver <==> ch.base.group_allowed(
                sender_text(user),
            ))
            &&& !private && ch.mention_only ==> (action is Deliver ==> ch.base.group_allowed(
                sender_text(user),
            ) && ch.bot_username is Some)
            &&& !(action is Deliver) ==> action is Ignore
        }),
{
}

/// In a group in which the bot has to be mentioned a message is delivered
/// exactly if what was written mentions it, and then without the mention;
/// where it does not have to be mentioned the content begins with what was
/// written, as in private.
pub proof fn law_group_messages(
    ch: TelegramChannel,
    id: Seq<char>,
    msg: TgMessage,
    user: TgUser,
    t: Seq<char>,
    bot: Seq<char>,
)
    requires
        msg.chat.chat_type@ != "private"@,
        ch.base.group_allowed(sender_text(user)),
        no_command(msg),
        wrote(msg, t),
        ch.bot_username matches Some(b) && b@ == bot,
    ensures
        ch.mention_only ==> (message_action(ch, id, msg, user) is Deliver <==> mentions(t, bot)),
        ch.mention_only && mentions(t, bot) ==> (message_action(
            ch,
            id,
            msg,
            user,
        ) matches ActionView::Deliver { chat_id, placeholder, inbound } && (
        inbound.content matches ContentView::Text(c) && c == message_content(
            msg,
            without_mention(t, bot),
        ))),
        !ch.mention_only ==> (message_action(ch, id, msg, user) matches ActionView::Deliver {
            chat_id,
            placeholder,
            inbound,
        } && (inbound.content matches ContentView::Text(c) && c == message_content(msg, t))),
        t.len() > 0 ==> starts_with(message_content(msg, t), t),
{
    assert(raw_text(msg) =~= t);
    if t.len() > 0 {
        lemma_content(msg, t);
        assert(t.take(t.len() as int) =~= t);
        let m0 = marked(t, pictured(msg), "[image]"@);
        lemma_marked_begins(t, pictured(msg), "[image]"@, t);
        let m1 = marked(m0, msg.voice is Some, "[voice]"@);
        lemma_marked_begins(m0, msg.voice is Some, "[voice]"@, t);
        let m2 = marked(m1, msg.audio is Some, "[audio]"@);
        lemma_marked_begins(m1, msg.audio is Some, "[audio]"@, t);
        lemma_marked_begins(m2, msg.document is Some, "[file]"@, t);
    }
}

/// An update is about its button press, if there is one, else about its
/// message; one that has no sender is ignored.
pub proof fn law_update_is_dispatched(ch: TelegramChannel, id: Seq<char>, update: TgUpdate)
    ensures
        update.callback_query matches Some(c) ==> update_action(ch, id, update) == callback_action(
            ch.base,
            id,
            c,
        ),
        update.callback_query is None && (update.message matches Some(m) && m.from is Some)
            ==> update_action(ch, id, update) == message_action(
            ch,
            id,
            update.message->0,
            update.message->0.from->0,
        ),
        update.callback_query is None && !(update.message matches Some(m) && m.from is Some)
            ==> update_action(ch, id, update) is Ignore,
{
}

/// A press of a button with a request that is not empty becomes the command
/// that allows or denies that very request, from the one who pressed it, in the
/// chat of the button, if that sender is allowed; else nothing is handed on.
pub proof fn law_button_press(
    ch: TelegramChannel,
    id: Seq<char>,
    callback: TgCallbackQuery,
    rid: Seq<char>,
    allow: bool,
)
    requires
        rid.len() > 0,
        trim(rid) == rid,
        callback.data is Some,
        allow ==> callback.data->0@ == "acadapr:yes:"@ + rid,
        !allow ==> callback.data->0@ == "acadapr:no:"@ + rid,
    ensures
        callback_action(ch.base, id, callback) matches ActionView::Approval {
            callback_id,
            toast,
            clear_keyboard,
            message,
        } && {
            &&& callback_id == callback.id@
            &&& callback.message matches Some(m) ==> clear_keyboard == Some(
                (m.chat.id, m.message_id),
            )
            &&& callback.message is None ==> clear_keyboard is None
            &&& message is Some <==> ch.base.allowed(sender_text(callback.from))
            &&& message matches Some(im) ==> {
                &&& im.content == ContentView::Text(
                    (if allow {
                        "/approve-allow "@
                    } else {
                        "/approve-deny "@
                    }) + rid,
                )
                &&& im.sender_id == sender_text(callback.from)
                &&& im.sender_name == callback.from.first_name@
                &&& im.session_id == int_text(
                    match callback.message {
                        Some(m) => m.chat.id as int,
                        None => callback.from.id as int,
                    },
                )
                &&& JsonTree::Obj(im.metadata).field("approval_request_id"@) == JsonTree::Str(rid)
                &&& JsonTree::Obj(im.metadata).field("is_approval_callback"@) == JsonTree::Bool(
                    true,
                )
            }
        },
{
    law_approval_data_round_trip(rid);
    assert(approval_request(callback.data->0@) == Some((allow, rid)));
    reveal_strlit("approval_request_id");
    reveal_strlit("is_approval_callback");
    assert("approval_request_id"@.len() != "is_approval_callback"@.len());
}

/// A message that is sent holds its chat and its text, and is marked as HTML
/// exactly if it is.
pub proof fn law_sent_message_fields(chat_id: i64, message_id: i64, text: Seq<char>, html: bool)
    ensures
        message_tree(chat_id, text, html).field("chat_id"@) == int_tree(chat_id),
        message_tree(chat_id, text, html).field("text"@) == JsonTree::Str(text),
        message_tree(chat_id, text, html).field("parse_mode"@) == (if html {
            JsonTree::Str("HTML"@)
        } else {
            JsonTree::Null
        }),
        edit_tree(chat_id, message_id, text).field("chat_id"@) == int_tree(chat_id),
        edit_tree(chat_id, message_id, text).field("message_id"@) == int_tree(message_id),
        edit_tree(chat_id, message_id, text).field("text"@) == JsonTree::Str(text),
        edit_tree(chat_id, message_id, text).field("parse_mode"@) == JsonTree::Str("HTML"@),
{
    reveal_strlit("chat_id");
    reveal_strlit("message_id");
    reveal_strlit("text");
    reveal_strlit("parse_mode");
    assert("chat_id"@.len() == 7 && "message_id"@.len() == 10 && "text"@.len() == 4);
    assert("parse_mode"@.len() == 10 && "parse_mode"@[0] != "message_id"@[0]);
}

/// A step of a reply says in plain text exactly its piece of the reply, and in
/// HTML what that piece becomes; it replaces the message that shows that an
/// answer is under way exactly if there is one.
pub proof fn law_reply_step_says_its_piece(
    step: ReplyStep,
    chunk: Seq<char>,
    placeholder: Option<i64>,
)
    requires
        is_reply_step(step, chunk, placeholder),
    ensures
        step.plain_text() == chunk,
        placeholder is None <==> step is Send,
        step matches ReplyStep::Send { html, plain } ==> html@ == telegram_html(chunk) && plain@
            == chunk,
        step matches ReplyStep::Edit { message_id, html, plain } ==> placeholder == Some(message_id)
            && html@ == telegram_html(chunk) && plain@ == chunk,
{
}

} // verus!
