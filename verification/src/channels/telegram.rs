//! Telegram: updates from the Bot API, approval buttons and replies.
use vstd::prelude::*;
use vstd::utf8::encode_utf8;
use crate::channels::base::{text_message, BaseChannel};
use crate::channels::http::same_secret;
use crate::channels::markdown::{
    code_of, escape_html_text, html_escape, html_escaped, html_text, protect_code, put_back,
    restore_code, rewrite, rewritten, set_aside, BLOCKQUOTE, BOLD_STAR, BOLD_UNDER, CODE_BLOCK,
    HEADING, INLINE_CODE, ITALIC, LINK, LIST_ITEM, STRIKE,
};
use crate::channels::split::{reply_chunks, split_reply};
use crate::crypto::{hex_encode, hex_text, hmac_sha256, hmac_sha256_of, sha256, sha256_of};
use crate::json::{int_tree, json_map, Json, JsonTree};
use crate::model::channel::{
    fresh_uuid, opt_inbound, put_member, Channel, InboundMessage, InboundView, MessageContent,
    OutboundMessage,
};
use crate::pattern::{escaped, regex_escape, regex_replace, regex_replaced};
use crate::strmap::StrMap;
use crate::text::{
    before_char, cat2, cat3, cat4, cat5, chars_of, contains, first_word, i64_text, int_of_text,
    int_text, join, join_strings, lowercase, parse_i64, same_str, starts_with, str_before_char,
    str_contains, str_first_word, str_starts_with, str_strip_prefix, str_trim, string_of_range,
    texts, trim,
};

verus! {

/// The longest message that Telegram accepts, in characters.
pub const TG_MAX_MESSAGE_CHARS: usize = 4096;

/// What the data of an "approve" button starts with.
pub const APPROVAL_CALLBACK_APPROVE_PREFIX: &'static str = "acadapr:yes:";

/// What the data of a "deny" button starts with.
pub const APPROVAL_CALLBACK_DENY_PREFIX: &'static str = "acadapr:no:";

#[derive(Clone, Debug)]
pub struct TgUpdate {
    pub update_id: i64,
    pub message: Option<TgMessage>,
    pub callback_query: Option<TgCallbackQuery>,
}

/// A press of an inline button.
#[derive(Clone, Debug)]
pub struct TgCallbackQuery {
    pub id: String,
    pub from: TgUser,
    pub message: Option<TgCallbackMessage>,
    pub data: Option<String>,
}

#[derive(Clone, Debug)]
pub struct TgCallbackMessage {
    pub message_id: i64,
    pub chat: TgChat,
}

#[derive(Clone, Debug)]
pub struct TgMessage {
    pub message_id: i64,
    pub from: Option<TgUser>,
    pub chat: TgChat,
    pub text: Option<String>,
    pub caption: Option<String>,
    pub photo: Option<Vec<TgPhotoSize>>,
    pub voice: Option<TgFile>,
    pub audio: Option<TgFile>,
    pub document: Option<TgFile>,
}

#[derive(Clone, Debug)]
pub struct TgUser {
    pub id: i64,
    pub username: Option<String>,
    pub first_name: String,
}

#[derive(Clone, Debug)]
pub struct TgChat {
    pub id: i64,
    pub chat_type: String,
}

#[derive(Clone, Debug)]
pub struct TgPhotoSize {
    pub file_id: String,
}

#[derive(Clone, Debug)]
pub struct TgFile {
    pub file_id: String,
    pub mime_type: Option<String>,
}

/// What is to be done about an update.
#[derive(Debug)]
pub enum TelegramAction {
    /// Nothing.
    Ignore,
    /// Answer a bot command.
    Command { chat_id: i64, text: String, html: bool },
    /// Acknowledge a button press and leave it at that.
    Acknowledge { callback_id: String, toast: String },
    /// Acknowledge a button press, remove the buttons and hand the decision on
    /// where the sender is allowed.
    Approval {
        callback_id: String,
        toast: String,
        clear_keyboard: Option<(i64, i64)>,
        message: Option<InboundMessage>,
    },
    /// Show that an answer is under way and hand the message on.
    Deliver { chat_id: i64, placeholder: String, inbound: InboundMessage },
}

pub enum ActionView {
    Ignore,
    Command { chat_id: i64, text: Seq<char>, html: bool },
    Acknowledge { callback_id: Seq<char>, toast: Seq<char> },
    Approval {
        callback_id: Seq<char>,
        toast: Seq<char>,
        clear_keyboard: Option<(i64, i64)>,
        message: Option<InboundView>,
    },
    Deliver { chat_id: i64, placeholder: Seq<char>, inbound: InboundView },
}

impl View for TelegramAction {
    type V = ActionView;

    open spec fn view(&self) -> ActionView {
        match *self {
            TelegramAction::Ignore => ActionView::Ignore,
            TelegramAction::Command { chat_id, text, html } => ActionView::Command {
                chat_id,
                text: text@,
                html,
            },
            TelegramAction::Acknowledge { callback_id, toast } => ActionView::Acknowledge {
                callback_id: callback_id@,
                toast: toast@,
            },
            TelegramAction::Approval { callback_id, toast, clear_keyboard, message } =>
                ActionView::Approval {
                    callback_id: callback_id@,
                    toast: toast@,
                    clear_keyboard,
                    message: opt_inbound(message),
                },
            TelegramAction::Deliver { chat_id, placeholder, inbound } => ActionView::Deliver {
                chat_id,
                placeholder: placeholder@,
                inbound: inbound@,
            },
        }
    }
}

/// How a user is known to the allowlist: `id|username`, or the identifier
/// alone.
pub open spec fn sender_text(user: TgUser) -> Seq<char> {
    match user.username {
        Some(name) => int_text(user.id as int) + "|"@ + name@,
        None => int_text(user.id as int),
    }
}

fn sender_of(user: &TgUser) -> (r: String)
    ensures
        r@ == sender_text(*user),
{
    let id = i64_text(user.id);
    match &user.username {
        Some(name) => cat3(id.as_str(), "|", name.as_str()),
        None => id,
    }
}

/// The decision and the request that button data stands for; the request may
/// be empty.
pub open spec fn approval_request(data: Seq<char>) -> Option<(bool, Seq<char>)> {
    if starts_with(data, APPROVAL_CALLBACK_APPROVE_PREFIX@) {
        Some((true, trim(data.skip(APPROVAL_CALLBACK_APPROVE_PREFIX@.len() as int))))
    } else if starts_with(data, APPROVAL_CALLBACK_DENY_PREFIX@) {
        Some((false, trim(data.skip(APPROVAL_CALLBACK_DENY_PREFIX@.len() as int))))
    } else {
        None
    }
}

/// The decision and the request that button data stands for.
pub fn parse_approval(data: &str) -> (r: Option<(bool, String)>)
    ensures
        match r {
            Some(p) => approval_request(data@) == Some((p.0, p.1@)),
            None => approval_request(data@) is None,
        },
{
    match str_strip_prefix(data, APPROVAL_CALLBACK_APPROVE_PREFIX) {
        Some(rest) => Some((true, str_trim(rest.as_str()))),
        None => match str_strip_prefix(data, APPROVAL_CALLBACK_DENY_PREFIX) {
            Some(rest) => Some((false, str_trim(rest.as_str()))),
            None => None,
        },
    }
}

/// No button data means both decisions, and the data of either button with
/// any request without white space at its ends means that button's decision on
/// that request.
pub proof fn law_approval_data_round_trip(request: Seq<char>)
    requires
        trim(request) == request,
    ensures
        approval_request(APPROVAL_CALLBACK_APPROVE_PREFIX@ + request) == Some((true, request)),
        approval_request(APPROVAL_CALLBACK_DENY_PREFIX@ + request) == Some((false, request)),
{
    let yes = APPROVAL_CALLBACK_APPROVE_PREFIX@;
    let no = APPROVAL_CALLBACK_DENY_PREFIX@;
    reveal_strlit("acadapr:yes:");
    reveal_strlit("acadapr:no:");
    assert((yes + request).take(yes.len() as int) =~= yes);
    assert((yes + request).skip(yes.len() as int) =~= request);
    assert((no + request).take(no.len() as int) =~= no);
    assert((no + request).skip(no.len() as int) =~= request);
    if starts_with(no + request, yes) {
        assert((no + request).take(yes.len() as int)[8] == yes[8]);
        assert((no + request)[8] == no[8]);
    }
}

pub open spec fn approval_command(allow: bool, request: Seq<char>) -> Seq<char> {
    if allow {
        "/approve-allow "@ + request
    } else {
        "/approve-deny "@ + request
    }
}

/// What is to be done about a button press; `id` is the identifier of the
/// message that may come of it.
pub open spec fn callback_action(
    base: BaseChannel,
    id: Seq<char>,
    callback: TgCallbackQuery,
) -> ActionView {
    let request = match callback.data {
        Some(d) => approval_request(d@),
        None => None,
    };
    match request {
        None => ActionView::Acknowledge { callback_id: callback.id@, toast: ""@ },
        Some((allow, rid)) => if rid.len() == 0 {
            ActionView::Acknowledge { callback_id: callback.id@, toast: "⚠️ Invalid request"@ }
        } else {
            ActionView::Approval {
                callback_id: callback.id@,
                toast: if allow {
                    "✅ Approval granted"@
                } else {
                    "❌ Request denied"@
                },
                clear_keyboard: match callback.message {
                    Some(m) => Some((m.chat.id, m.message_id)),
                    None => None,
                },
                message: if base.allowed(sender_text(callback.from)) {
                    Some(
                        text_message(
                            id,
                            base.name@,
                            sender_text(callback.from),
                            callback.from.first_name@,
                            match callback.message {
                                Some(m) => int_text(m.chat.id as int),
                                None => int_text(callback.from.id as int),
                            },
                            approval_command(allow, rid),
                            Map::empty().insert(
                                "approval_request_id"@,
                                JsonTree::Str(rid),
                            ).insert("is_approval_callback"@, JsonTree::Bool(true)),
                        ),
                    )
                } else {
                    None
                },
            }
        },
    }
}

/// The text of a message: its text, or its caption, or nothing.
pub open spec fn raw_text(msg: TgMessage) -> Seq<char> {
    match msg.text {
        Some(t) => t@,
        None => match msg.caption {
            Some(c) => c@,
            None => Seq::empty(),
        },
    }
}

pub open spec fn is_group(msg: TgMessage) -> bool {
    msg.chat.chat_type@ != "private"@
}

/// The command a message starts with, without the `@botname` suffix.
pub open spec fn command_of(text: Seq<char>) -> Seq<char> {
    before_char(lowercase(first_word(text)), '@')
}

/// Whether the text mentions the bot, without regard to case.
pub open spec fn mentions(text: Seq<char>, bot: Seq<char>) -> bool {
    contains(lowercase(text), lowercase("@"@ + bot))
}

/// The text without mentions of the bot, runs of spaces collapsed and white
/// space at its ends dropped.
pub open spec fn without_mention(text: Seq<char>, bot: Seq<char>) -> Seq<char> {
    let pattern = "(?i)"@ + escaped("@"@ + bot) + "\\b"@;
    let stripped = match regex_replaced(pattern, text, ""@) {
        Some(t) => t,
        None => rewritten(text, "NOMATCH_IMPOSSIBLE"@, ""@),
    };
    let collapsed = match regex_replaced(" {2,}"@, stripped, " "@) {
        Some(t) => t,
        None => rewritten(stripped, "NOMATCH_IMPOSSIBLE"@, " "@),
    };
    trim(collapsed)
}

pub open spec fn opt_part(present: bool, part: Seq<char>) -> Seq<Seq<char>> {
    if present {
        seq![part]
    } else {
        Seq::empty()
    }
}

pub open spec fn has_photo(msg: TgMessage) -> bool {
    msg.photo matches Some(p) && p@.len() > 0
}

/// What a message says: its text, then a mark for each attachment, one per
/// line.
pub open spec fn message_content(msg: TgMessage, text: Seq<char>) -> Seq<char> {
    let parts = opt_part(text.len() > 0, text) + opt_part(has_photo(msg), "[image]"@) + opt_part(
        msg.voice is Some,
        "[voice]"@,
    ) + opt_part(msg.audio is Some, "[audio]"@) + opt_part(msg.document is Some, "[file]"@);
    if parts.len() == 0 {
        "[empty message]"@
    } else {
        join(parts, "\n"@)
    }
}

pub open spec fn opt_member(
    m: Map<Seq<char>, JsonTree>,
    key: Seq<char>,
    file: Option<TgFile>,
) -> Map<Seq<char>, JsonTree> {
    match file {
        Some(f) => m.insert(key, JsonTree::Str(f.file_id@)),
        None => m,
    }
}

/// What else is known of a message.
pub open spec fn message_metadata(msg: TgMessage, user: TgUser) -> Map<Seq<char>, JsonTree> {
    let head = Map::empty().insert(
        "message_id"@,
        JsonTree::Str(int_text(msg.message_id as int)),
    ).insert("user_id"@, JsonTree::Str(int_text(user.id as int))).insert(
        "first_name"@,
        JsonTree::Str(user.first_name@),
    ).insert("is_group"@, JsonTree::Bool(is_group(msg)));
    let photo = if has_photo(msg) {
        head.insert("photo_file_id"@, JsonTree::Str(msg.photo->0@.last().file_id@))
    } else {
        head
    };
    opt_member(
        opt_member(
            opt_member(photo, "voice_file_id"@, msg.voice),
            "audio_file_id"@,
            msg.audio,
        ),
        "document_file_id"@,
        msg.document,
    )
}

pub const START_TEXT: &'static str =
    "👋 Hello! I'm AdaClaw, your AI agent.\n\nSend me a message and I'll get to work!\nType /help to see available commands.";

pub const HELP_TEXT: &'static str =
    "🤖 <b>AdaClaw Commands</b>\n\n/start — Start the bot\n/help — Show this help\n\nJust send a message to chat with the AI agent.";

pub const THINKING_TEXT: &'static str = "Thinking... 💭";

/// A Telegram bot and the state of its conversations.
pub struct TelegramChannel {
    pub base: BaseChannel,
    pub token: String,
    /// The message that shows that an answer is under way, by chat.
    pub placeholders: StrMap<i64>,
    /// Whether group messages have to mention the bot.
    pub mention_only: bool,
    pub bot_username: Option<String>,
    pub proxy: Option<String>,
}

/// What is to be done about a message; `id` is the identifier of the message
/// that may come of it.
pub open spec fn message_action(
    ch: TelegramChannel,
    id: Seq<char>,
    msg: TgMessage,
    user: TgUser,
) -> ActionView {
    let sender = sender_text(user);
    let group = is_group(msg);
    let filtered = group && ch.mention_only;
    if msg.text matches Some(t) && command_of(t@) == "/start"@ {
        ActionView::Command { chat_id: msg.chat.id, text: START_TEXT@, html: false }
    } else if msg.text matches Some(t) && command_of(t@) == "/help"@ {
        ActionView::Command { chat_id: msg.chat.id, text: HELP_TEXT@, html: true }
    } else if !(if group {
        ch.base.group_allowed(sender)
    } else {
        ch.base.allowed(sender)
    }) {
        ActionView::Ignore
    } else if filtered && !(ch.bot_username matches Some(bot) && mentions(raw_text(msg), bot@)) {
        ActionView::Ignore
    } else {
        let text = if filtered {
            without_mention(raw_text(msg), ch.bot_username->0@)
        } else {
            raw_text(msg)
        };
        ActionView::Deliver {
            chat_id: msg.chat.id,
            placeholder: THINKING_TEXT@,
            inbound: text_message(
                id,
                ch.base.name@,
                sender,
                user.first_name@,
                int_text(msg.chat.id as int),
                message_content(msg, text),
                message_metadata(msg, user),
            ),
        }
    }
}

/// What is to be done about an update; `id` is the identifier of the message
/// that may come of it.
pub open spec fn update_action(
    ch: TelegramChannel,
    id: Seq<char>,
    update: TgUpdate,
) -> ActionView {
    match update.callback_query {
        Some(callback) => callback_action(ch.base, id, callback),
        None => match update.message {
            Some(msg) => match msg.from {
                Some(user) => message_action(ch, id, msg, user),
                None => ActionView::Ignore,
            },
            None => ActionView::Ignore,
        },
    }
}

impl TelegramChannel {
    pub fn new(token: String) -> (r: TelegramChannel)
        ensures
            r.base.name@ == "telegram"@,
            r.base.allow_from@.len() == 0,
            r.base.allow_from_groups@.len() == 0,
            !r.base.require_mention,
            !r.base.running,
            r.token == token,
            r.placeholders@ == Map::<Seq<char>, i64>::empty(),
            !r.mention_only,
            r.bot_username is None,
            r.proxy is None,
    {
        TelegramChannel {
            base: BaseChannel::new("telegram"),
            token,
            placeholders: StrMap::new(),
            mention_only: false,
            bot_username: None,
            proxy: None,
        }
    }

    pub fn with_allow_from(self, allow_from: Vec<String>) -> (r: TelegramChannel)
        ensures
            r == (TelegramChannel { base: (BaseChannel { allow_from, ..self.base }), ..self }),
    {
        let TelegramChannel { base, token, placeholders, mention_only, bot_username, proxy } = self;
        TelegramChannel {
            base: base.with_allow_from(allow_from),
            token,
            placeholders,
            mention_only,
            bot_username,
            proxy,
        }
    }

    pub fn with_group_config(self, groups: Vec<String>, require_mention: bool) -> (r:
        TelegramChannel)
        ensures
            r == (TelegramChannel {
                base: (BaseChannel { allow_from_groups: groups, require_mention, ..self.base }),
                ..self
            }),
    {
        let TelegramChannel { base, token, placeholders, mention_only, bot_username, proxy } = self;
        TelegramChannel {
            base: base.with_group_config(groups, require_mention),
            token,
            placeholders,
            mention_only,
            bot_username,
            proxy,
        }
    }

    pub fn with_mention_only(self, mention_only: bool) -> (r: TelegramChannel)
        ensures
            r == (TelegramChannel { mention_only, ..self }),
    {
        TelegramChannel { mention_only, ..self }
    }

    pub fn with_proxy(self, proxy: String) -> (r: TelegramChannel)
        ensures
            r == (TelegramChannel { proxy: Some(proxy), ..self }),
    {
        TelegramChannel { proxy: Some(proxy), ..self }
    }

    /// The address of a method of the Bot API.
    pub fn api_url(&self, method: &str) -> (r: String)
        ensures
            r@ == "https://api.telegram.org/bot"@ + self.token@ + "/"@ + method@,
    {
        cat4("https://api.telegram.org/bot", self.token.as_str(), "/", method)
    }

    /// Whether the text mentions the bot, without regard to case.
    pub fn contains_bot_mention(text: &str, bot_username: &str) -> (r: bool)
        ensures
            r == mentions(text@, bot_username@),
    {
        let mention = cat2("@", bot_username);
        let hay = text.to_lowercase();
        let needle = mention.as_str().to_lowercase();
        str_contains(hay.as_str(), needle.as_str())
    }

    /// The text without mentions of the bot, runs of spaces collapsed.
    pub fn strip_bot_mention(text: &str, bot_username: &str) -> (r: String)
        ensures
            r@ == without_mention(text@, bot_username@),
    {
        let mention = cat2("@", bot_username);
        let escaped = regex_escape(mention.as_str());
        let pattern = cat3("(?i)", escaped.as_str(), "\\b");
        let stripped = match regex_replace(pattern.as_str(), text, "") {
            Some(t) => t,
            None => rewrite(text.to_owned(), "NOMATCH_IMPOSSIBLE", ""),
        };
        let collapsed = match regex_replace(" {2,}", stripped.as_str(), " ") {
            Some(t) => t,
            None => rewrite(stripped, "NOMATCH_IMPOSSIBLE", " "),
        };
        str_trim(collapsed.as_str())
    }

    /// What is to be done about a button press, given an identifier for the
    /// message that may come of it.
    pub fn decide_callback(&self, id: String, callback: &TgCallbackQuery) -> (r: TelegramAction)
        ensures
            r@ == callback_action(self.base, id@, *callback),
    {
        let request = match &callback.data {
            Some(d) => parse_approval(d.as_str()),
            None => None,
        };
        let (allow, rid) = match request {
            None => {
                return TelegramAction::Acknowledge {
                    callback_id: callback.id.clone(),
                    toast: "".to_owned(),
                };
            },
            Some(p) => p,
        };
        if rid.as_str().is_empty() {
            return TelegramAction::Acknowledge {
                callback_id: callback.id.clone(),
                toast: "⚠️ Invalid request".to_owned(),
            };
        }
        let command = if allow {
            cat2("/approve-allow ", rid.as_str())
        } else {
            cat2("/approve-deny ", rid.as_str())
        };
        let toast = if allow {
            "✅ Approval granted".to_owned()
        } else {
            "❌ Request denied".to_owned()
        };
        let clear_keyboard = match &callback.message {
            Some(m) => Some((m.chat.id, m.message_id)),
            None => None,
        };
        let chat = match &callback.message {
            Some(m) => i64_text(m.chat.id),
            None => i64_text(callback.from.id),
        };
        let sender = sender_of(&callback.from);
        let mut metadata: Vec<(String, Json)> = Vec::new();
        proof {
            assert(json_map(metadata@) =~= Map::empty());
        }
        put_member(&mut metadata, "approval_request_id", Json::text(rid.as_str()));
        put_member(&mut metadata, "is_approval_callback", Json::Bool(true));
        let message = self.base.admit_message(
            id,
            sender.as_str(),
            callback.from.first_name.as_str(),
            chat.as_str(),
            command.as_str(),
            metadata,
        );
        TelegramAction::Approval {
            callback_id: callback.id.clone(),
            toast,
            clear_keyboard,
            message,
        }
    }

    /// What is to be done about a button press.
    pub fn process_callback_query(&self, callback: &TgCallbackQuery) -> (r: TelegramAction)
        ensures
            exists|id: Seq<char>| r@ == #[trigger] callback_action(self.base, id, *callback),
    {
        let id = fresh_uuid();
        let ghost key = id@;
        let r = self.decide_callback(id, callback);
        proof {
            assert(r@ == callback_action(self.base, key, *callback));
        }
        r
    }

    /// What is to be done about an update, given an identifier for the message
    /// that may come of it.
    pub fn decide_update(&self, id: String, update: &TgUpdate) -> (r: TelegramAction)
        ensures
            r@ == update_action(*self, id@, *update),
    {
        if let Some(callback) = &update.callback_query {
            return self.decide_callback(id, callback);
        }
        match &update.message {
            Some(msg) => match &msg.from {
                Some(user) => self.decide_message(id, msg, user),
                None => TelegramAction::Ignore,
            },
            None => TelegramAction::Ignore,
        }
    }

    /// What is to be done about an update.
    pub fn process_update(&self, update: &TgUpdate) -> (r: TelegramAction)
        ensures
            exists|id: Seq<char>| r@ == #[trigger] update_action(*self, id, *update),
    {
        let id = fresh_uuid();
        let ghost key = id@;
        let r = self.decide_update(id, update);
        proof {
            assert(r@ == update_action(*self, key, *update));
        }
        r
    }

    fn decide_message(&self, id: String, msg: &TgMessage, user: &TgUser) -> (r: TelegramAction)
        ensures
            r@ == message_action(*self, id@, *msg, *user),
    {
        let sender = sender_of(user);
        let group: bool = !same_str(msg.chat.chat_type.as_str(), "private");
        if let Some(text) = &msg.text {
            let word = str_first_word(text.as_str());
            let lower = word.as_str().to_lowercase();
            let command = str_before_char(lower.as_str(), '@');
            if same_str(command.as_str(), "/start") {
                return TelegramAction::Command {
                    chat_id: msg.chat.id,
                    text: START_TEXT.to_owned(),
                    html: false,
                };
            }
            if same_str(command.as_str(), "/help") {
                return TelegramAction::Command {
                    chat_id: msg.chat.id,
                    text: HELP_TEXT.to_owned(),
                    html: true,
                };
            }
        }
        let allowed = if group {
            self.base.is_group_allowed(sender.as_str())
        } else {
            self.base.is_allowed(sender.as_str())
        };
        if !allowed {
            return TelegramAction::Ignore;
        }
        let raw: String = match &msg.text {
            Some(t) => t.clone(),
            None => match &msg.caption {
                Some(c) => c.clone(),
                None => String::new(),
            },
        };
        let text: String = if group && self.mention_only {
            match &self.bot_username {
                Some(bot) => {
                    if !Self::contains_bot_mention(raw.as_str(), bot.as_str()) {
                        return TelegramAction::Ignore;
                    }
                    Self::strip_bot_mention(raw.as_str(), bot.as_str())
                },
                None => {
                    return TelegramAction::Ignore;
                },
            }
        } else {
            raw
        };
        let content = content_of(msg, text);
        let metadata = metadata_of(msg, user);
        let chat = i64_text(msg.chat.id);
        let inbound = self.base.compose_message(
            id,
            sender.as_str(),
            user.first_name.as_str(),
            chat.as_str(),
            content.as_str(),
            metadata,
        );
        TelegramAction::Deliver {
            chat_id: msg.chat.id,
            placeholder: THINKING_TEXT.to_owned(),
            inbound,
        }
    }
}

fn content_of(msg: &TgMessage, text: String) -> (r: String)
    ensures
        r@ == message_content(*msg, text@),
{
    let mut parts: Vec<String> = Vec::new();
    if !text.as_str().is_empty() {
        parts.push(text);
    }
    let ghost p1 = opt_part(text@.len() > 0, text@);
    proof {
        assert(texts(parts@) =~= p1);
    }
    if let Some(photos) = &msg.photo {
        if photos.len() > 0 {
            parts.push("[image]".to_owned());
        }
    }
    let ghost p2 = p1 + opt_part(has_photo(*msg), "[image]"@);
    proof {
        assert(texts(parts@) =~= p2);
    }
    if msg.voice.is_some() {
        parts.push("[voice]".to_owned());
    }
    let ghost p3 = p2 + opt_part(msg.voice is Some, "[voice]"@);
    proof {
        assert(texts(parts@) =~= p3);
    }
    if msg.audio.is_some() {
        parts.push("[audio]".to_owned());
    }
    let ghost p4 = p3 + opt_part(msg.audio is Some, "[audio]"@);
    proof {
        assert(texts(parts@) =~= p4);
    }
    if msg.document.is_some() {
        parts.push("[file]".to_owned());
    }
    let ghost p5 = p4 + opt_part(msg.document is Some, "[file]"@);
    proof {
        assert(texts(parts@) =~= p5);
    }
    if parts.len() == 0 {
        "[empty message]".to_owned()
    } else {
        join_strings(&parts, "\n")
    }
}

fn put_file(metadata: &mut Vec<(String, Json)>, key: &str, file: &Option<TgFile>)
    ensures
        json_map(final(metadata)@) == opt_member(json_map(old(metadata)@), key@, *file),
{
    if let Some(f) = file {
        put_member(metadata, key, Json::text(f.file_id.as_str()));
    }
}

fn metadata_of(msg: &TgMessage, user: &TgUser) -> (r: Vec<(String, Json)>)
    ensures
        json_map(r@) == message_metadata(*msg, *user),
{
    let mut metadata: Vec<(String, Json)> = Vec::new();
    proof {
        assert(json_map(metadata@) =~= Map::empty());
    }
    let message_id = i64_text(msg.message_id);
    let user_id = i64_text(user.id);
    let group: bool = !same_str(msg.chat.chat_type.as_str(), "private");
    put_member(&mut metadata, "message_id", Json::Str(message_id));
    put_member(&mut metadata, "user_id", Json::Str(user_id));
    put_member(&mut metadata, "first_name", Json::text(user.first_name.as_str()));
    put_member(&mut metadata, "is_group", Json::Bool(group));
    if let Some(photos) = &msg.photo {
        if photos.len() > 0 {
            put_member(
                &mut metadata,
                "photo_file_id",
                Json::text(photos[photos.len() - 1].file_id.as_str()),
            );
        }
    }
    put_file(&mut metadata, "voice_file_id", &msg.voice);
    put_file(&mut metadata, "audio_file_id", &msg.audio);
    put_file(&mut metadata, "document_file_id", &msg.document);
    metadata
}

// ---- replies ----

/// The pieces of code as HTML text.
pub open spec fn html_codes(codes: Seq<Seq<char>>) -> Seq<Seq<char>> {
    Seq::new(codes.len(), |i: int| html_text(codes[i]))
}

/// What the steps between setting code aside and putting it back make of the
/// text.
pub open spec fn telegram_markup(marked: Seq<char>) -> Seq<char> {
    let t3 = rewritten(marked, HEADING@, "$1"@);
    let t4 = rewritten(t3, BLOCKQUOTE@, "$1"@);
    let t5 = html_text(t4);
    let t6 = rewritten(t5, LINK@, "<a href=\"$2\">$1</a>"@);
    let t7 = rewritten(t6, BOLD_STAR@, "<b>$1</b>"@);
    let t8 = rewritten(t7, BOLD_UNDER@, "<b>$1</b>"@);
    let t9 = rewritten(t8, ITALIC@, "${1}<i>${2}</i>${3}"@);
    let t10 = rewritten(t9, STRIKE@, "<s>$1</s>"@);
    rewritten(t10, LIST_ITEM@, "• "@)
}

/// The Telegram HTML that a Markdown text becomes.
pub open spec fn telegram_html(text: Seq<char>) -> Seq<char> {
    let t1 = set_aside(text, CODE_BLOCK@, "CB"@);
    let blocks = code_of(text, CODE_BLOCK@);
    let t2 = set_aside(t1, INLINE_CODE@, "IC"@);
    let inline = code_of(t1, INLINE_CODE@);
    let body = telegram_markup(t2);
    let with_inline = put_back(body, html_codes(inline), "IC"@, "<code>"@, "</code>"@);
    if text.len() == 0 {
        Seq::empty()
    } else {
        put_back(with_inline, html_codes(blocks), "CB"@, "<pre><code>"@, "</code></pre>"@)
    }
}

fn escape_codes(codes: &Vec<String>) -> (r: Vec<String>)
    ensures
        texts(r@) == html_codes(texts(codes@)),
{
    let mut r: Vec<String> = Vec::new();
    let mut i: usize = 0;
    while i < codes.len()
        invariant
            i <= codes.len(),
            r@.len() == i,
            forall|k: int| 0 <= k < i ==> (#[trigger] r@[k])@ == html_text(codes@[k]@),
        decreases codes.len() - i,
    {
        let c = escape_html_text(codes[i].as_str());
        r.push(c);
        i = i + 1;
    }
    proof {
        assert(texts(r@) =~= html_codes(texts(codes@)));
    }
    r
}

/// The Telegram HTML that a Markdown text becomes.
pub fn markdown_to_telegram_html(text: &str) -> (r: String)
    ensures
        r@ == telegram_html(text@),
{
    if text.is_empty() {
        return String::new();
    }
    let (t1, blocks) = protect_code(text, CODE_BLOCK, "CB");
    let (t2, inline) = protect_code(t1.as_str(), INLINE_CODE, "IC");
    let t3 = rewrite(t2, HEADING, "$1");
    let t4 = rewrite(t3, BLOCKQUOTE, "$1");
    let t5 = escape_html_text(t4.as_str());
    let t6 = rewrite(t5, LINK, "<a href=\"$2\">$1</a>");
    let t7 = rewrite(t6, BOLD_STAR, "<b>$1</b>");
    let t8 = rewrite(t7, BOLD_UNDER, "<b>$1</b>");
    let t9 = rewrite(t8, ITALIC, "${1}<i>${2}</i>${3}");
    let t10 = rewrite(t9, STRIKE, "<s>$1</s>");
    let body = rewrite(t10, LIST_ITEM, "• ");
    let inline_html = escape_codes(&inline);
    let with_inline = restore_code(body, &inline_html, "IC", "<code>", "</code>");
    let block_html = escape_codes(&blocks);
    restore_code(with_inline, &block_html, "CB", "<pre><code>", "</code></pre>")
}

/// The chunks of a reply of at most `max_chars` characters each, cut at a
/// newline, else at a space, else anywhere.
pub fn split_message(content: &str, max_chars: usize) -> (r: Vec<String>)
    requires
        max_chars > 0 || content@.len() == 0,
    ensures
        texts(r@) == reply_chunks(content@, max_chars as int),
{
    split_reply(content, max_chars)
}

/// One message of a reply: its HTML, and the plain text to fall back to.
#[derive(Debug)]
pub enum ReplyStep {
    /// Replace the message that shows that an answer is under way.
    Edit { message_id: i64, html: String, plain: String },
    /// Send a new message.
    Send { html: String, plain: String },
}

impl ReplyStep {
    /// The plain text of the message.
    pub open spec fn plain_text(&self) -> Seq<char> {
        match *self {
            ReplyStep::Edit { message_id, html, plain } => plain@,
            ReplyStep::Send { html, plain } => plain@,
        }
    }

    /// The method and the parameters of the request.
    pub fn request(&self, chat_id: i64) -> (r: (&'static str, Json))
        ensures
            match *self {
                ReplyStep::Edit { message_id, html, plain } => r.0@ == "editMessageText"@ && r.1@
                    == edit_tree(chat_id, message_id, html@),
                ReplyStep::Send { html, plain } => r.0@ == "sendMessage"@ && r.1@ == message_tree(
                    chat_id,
                    html@,
                    true,
                ),
            },
    {
        match self {
            ReplyStep::Edit { message_id, html, plain: _ } => (
                "editMessageText",
                edit_message_body(chat_id, *message_id, html.as_str()),
            ),
            ReplyStep::Send { html, plain: _ } => (
                "sendMessage",
                send_message_body(chat_id, html.as_str(), true),
            ),
        }
    }

    /// The parameters of the `sendMessage` that follows if the request fails: a
    /// new message with the plain text.
    pub fn fallback_body(&self, chat_id: i64) -> (r: Json)
        ensures
            r@ == message_tree(chat_id, self.plain_text(), false),
    {
        match self {
            ReplyStep::Edit { message_id: _, html: _, plain } => send_message_body(
                chat_id,
                plain.as_str(),
                false,
            ),
            ReplyStep::Send { html: _, plain } => send_message_body(chat_id, plain.as_str(), false),
        }
    }
}

/// Step `i` of a reply whose chunks are `chunks`.
pub open spec fn is_reply_step(
    step: ReplyStep,
    chunk: Seq<char>,
    placeholder: Option<i64>,
) -> bool {
    match placeholder {
        Some(mid) => step matches ReplyStep::Edit { message_id, html, plain } && message_id == mid
            && html@ == telegram_html(chunk) && plain@ == chunk,
        None => step matches ReplyStep::Send { html, plain } && html@ == telegram_html(chunk)
            && plain@ == chunk,
    }
}

impl TelegramChannel {
    /// The message that shows that an answer is under way in a chat.
    pub open spec fn placeholder(&self, chat: Seq<char>) -> Option<i64> {
        if self.placeholders@.contains_key(chat) {
            Some(self.placeholders@[chat])
        } else {
            None
        }
    }

    /// Notes the message that shows that an answer is under way in a chat.
    pub fn note_placeholder(&mut self, chat: &str, message_id: i64)
        ensures
            final(self).placeholders@ == old(self).placeholders@.insert(chat@, message_id),
            final(self).base == old(self).base,
            final(self).token == old(self).token,
            final(self).mention_only == old(self).mention_only,
            final(self).bot_username == old(self).bot_username,
            final(self).proxy == old(self).proxy,
    {
        self.placeholders.insert(chat, message_id);
    }

    /// Forgets the placeholder message of a chat and tells which one it was.
    pub fn take_placeholder(&mut self, chat: &str) -> (r: Option<i64>)
        ensures
            r == old(self).placeholder(chat@),
            final(self).placeholders@ == old(self).placeholders@.remove(chat@),
            final(self).base == old(self).base,
            final(self).token == old(self).token,
            final(self).mention_only == old(self).mention_only,
            final(self).bot_username == old(self).bot_username,
            final(self).proxy == old(self).proxy,
    {
        let found: Option<i64> = match self.placeholders.get(chat) {
            Some(id) => Some(*id),
            None => None,
        };
        self.placeholders.remove(chat);
        found
    }

    /// The messages that a reply consists of: the first replaces the
    /// placeholder message of the chat, if there is one.
    pub fn send_reply(&mut self, chat: &str, content: &str) -> (r: Vec<ReplyStep>)
        ensures
            r@.len() == reply_chunks(content@, TG_MAX_MESSAGE_CHARS as int).len(),
            forall|i: int|
                0 <= i < r@.len() ==> is_reply_step(
                    #[trigger] r@[i],
                    reply_chunks(content@, TG_MAX_MESSAGE_CHARS as int)[i],
                    if i == 0 {
                        old(self).placeholder(chat@)
                    } else {
                        None
                    },
                ),
            final(self).placeholders@ == old(self).placeholders@.remove(chat@),
            final(self).base == old(self).base,
            final(self).token == old(self).token,
            final(self).mention_only == old(self).mention_only,
            final(self).bot_username == old(self).bot_username,
            final(self).proxy == old(self).proxy,
    {
        let chunks = split_message(content, TG_MAX_MESSAGE_CHARS);
        let placeholder = self.take_placeholder(chat);
        let mut steps: Vec<ReplyStep> = Vec::new();
        let mut i: usize = 0;
        while i < chunks.len()
            invariant
                i <= chunks@.len(),
                steps@.len() == i,
                texts(chunks@) == reply_chunks(content@, TG_MAX_MESSAGE_CHARS as int),
                forall|k: int|
                    0 <= k < i ==> is_reply_step(
                        #[trigger] steps@[k],
                        reply_chunks(content@, TG_MAX_MESSAGE_CHARS as int)[k],
                        if k == 0 {
                            placeholder
                        } else {
                            None
                        },
                    ),
            decreases chunks.len() - i,
        {
            let html = markdown_to_telegram_html(chunks[i].as_str());
            let plain = chunks[i].clone();
            proof {
                assert(texts(chunks@)[i as int] == chunks@[i as int]@);
            }
            let step = match (i, placeholder) {
                (0, Some(message_id)) => ReplyStep::Edit { message_id, html, plain },
                _ => ReplyStep::Send { html, plain },
            };
            steps.push(step);
            i = i + 1;
        }
        steps
    }

    /// Where an outbound message goes and what it says; `None` where it holds
    /// no text and is dropped.
    pub fn route_outbound(&self, msg: &OutboundMessage) -> (r: Result<Option<(i64, String)>, String>)
        ensures
            match r {
                Ok(Some((chat_id, text))) => self.base.running && int_of_text(
                    msg.target_session_id@,
                ) == Some(chat_id as int) && (msg.content matches MessageContent::Text(t) && text@
                    == t@),
                Ok(None) => self.base.running && (int_of_text(
                    msg.target_session_id@,
                ) matches Some(n) && i64::MIN <= n <= i64::MAX) && !(msg.content is Text),
                Err(e) => if !self.base.running {
                    e@ == "Telegram channel is not running"@
                } else {
                    e@ == "Invalid Telegram chat_id: '"@ + msg.target_session_id@ + "'"@ && !(
                    int_of_text(msg.target_session_id@) matches Some(n) && i64::MIN <= n
                        <= i64::MAX)
                },
            },
    {
        if !self.base.is_running() {
            return Err("Telegram channel is not running".to_owned());
        }
        match parse_i64(msg.target_session_id.as_str()) {
            None => Err(
                cat3("Invalid Telegram chat_id: '", msg.target_session_id.as_str(), "'"),
            ),
            Some(chat_id) => match &msg.content {
                MessageContent::Text(t) => Ok(Some((chat_id, t.clone()))),
                _ => Ok(None),
            },
        }
    }

    /// Whether `signature` is the code that Telegram signs a webhook payload
    /// with: the HMAC under the digest of the bot token, in hexadecimal.
    pub fn verify_webhook_signature(&self, payload: &str, signature: &str) -> (r: bool)
        ensures
            r == (signature@ == hex_text(
                hmac_sha256_of(sha256_of(encode_utf8(self.token@)), encode_utf8(payload@)),
            )),
    {
        let key = sha256(self.token.as_str().as_bytes());
        let code = hmac_sha256(key.as_slice(), payload.as_bytes());
        let expected = hex_encode(code.as_slice());
        same_secret(expected.as_str(), signature)
    }
}

// ---- requests ----

/// The parameters of `sendMessage`.
pub open spec fn message_tree(chat_id: i64, text: Seq<char>, html: bool) -> JsonTree {
    let plain = Map::empty().insert("chat_id"@, int_tree(chat_id)).insert(
        "text"@,
        JsonTree::Str(text),
    );
    JsonTree::Obj(
        if html {
            plain.insert("parse_mode"@, JsonTree::Str("HTML"@))
        } else {
            plain
        },
    )
}

/// The parameters of `sendMessage`.
pub fn send_message_body(chat_id: i64, text: &str, html: bool) -> (r: Json)
    ensures
        r@ == message_tree(chat_id, text@, html),
{
    let b = Json::obj().with("chat_id", Json::Int(chat_id)).with("text", Json::text(text));
    if html {
        b.with("parse_mode", Json::text("HTML"))
    } else {
        b
    }
}

/// The parameters of `editMessageText`.
pub open spec fn edit_tree(chat_id: i64, message_id: i64, html: Seq<char>) -> JsonTree {
    JsonTree::Obj(
        Map::empty().insert("chat_id"@, int_tree(chat_id)).insert(
            "message_id"@,
            int_tree(message_id),
        ).insert("text"@, JsonTree::Str(html)).insert("parse_mode"@, JsonTree::Str("HTML"@)),
    )
}

/// The parameters of `editMessageText`.
pub fn edit_message_body(chat_id: i64, message_id: i64, html: &str) -> (r: Json)
    ensures
        r@ == edit_tree(chat_id, message_id, html@),
{
    Json::obj().with("chat_id", Json::Int(chat_id)).with("message_id", Json::Int(message_id)).with(
        "text",
        Json::text(html),
    ).with("parse_mode", Json::text("HTML"))
}

/// The parameters of `answerCallbackQuery`.
pub fn answer_callback_body(callback_id: &str, text: &str) -> (r: Json)
    ensures
        r@ == JsonTree::Obj(
            Map::empty().insert("callback_query_id"@, JsonTree::Str(callback_id@)).insert(
                "text"@,
                JsonTree::Str(text@),
            ).insert("show_alert"@, JsonTree::Bool(false)),
        ),
{
    Json::obj().with("callback_query_id", Json::text(callback_id)).with(
        "text",
        Json::text(text),
    ).with("show_alert", Json::Bool(false))
}

/// The parameters of `editMessageReplyMarkup` that remove the buttons.
pub fn clear_keyboard_body(chat_id: i64, message_id: i64) -> (r: Json)
    ensures
        r@ == JsonTree::Obj(
            Map::empty().insert("chat_id"@, int_tree(chat_id)).insert(
                "message_id"@,
                int_tree(message_id),
            ).insert(
                "reply_markup"@,
                JsonTree::Obj(
                    Map::empty().insert("inline_keyboard"@, JsonTree::Arr(Seq::empty())),
                ),
            ),
        ),
{
    let none: Vec<Json> = Vec::new();
    let keys = Json::arr(none);
    proof {
        assert(keys@->Arr_0 =~= Seq::<JsonTree>::empty());
    }
    Json::obj().with("chat_id", Json::Int(chat_id)).with("message_id", Json::Int(message_id)).with(
        "reply_markup",
        Json::obj().with("inline_keyboard", keys),
    )
}

/// A button with its label and its data.
pub open spec fn button_tree(label: Seq<char>, data: Seq<char>) -> JsonTree {
    JsonTree::Obj(
        Map::empty().insert("text"@, JsonTree::Str(label)).insert(
            "callback_data"@,
            JsonTree::Str(data),
        ),
    )
}

/// What an approval prompt says.
pub open spec fn approval_text(
    request_id: Seq<char>,
    tool_name: Seq<char>,
    args_preview: Seq<char>,
) -> Seq<char> {
    let preview = if args_preview.len() <= 200 {
        args_preview
    } else {
        args_preview.take(200)
    };
    "🔒 <b>Tool approval required</b>\n\nTool: <code>"@ + html_escaped(tool_name)
        + "</code>\nArgs: <code>"@ + html_escaped(preview) + "</code>\nRequest ID: <code>"@
        + html_escaped(request_id) + "</code>\n\n⏱ This request expires in 30 minutes."@
}

/// The parameters of the `sendMessage` that asks for approval of a tool call,
/// with a button for each decision.
pub open spec fn approval_body(
    chat_id: i64,
    request_id: Seq<char>,
    tool_name: Seq<char>,
    args_preview: Seq<char>,
) -> JsonTree {
    JsonTree::Obj(
        Map::empty().insert("chat_id"@, int_tree(chat_id)).insert(
            "text"@,
            JsonTree::Str(approval_text(request_id, tool_name, args_preview)),
        ).insert("parse_mode"@, JsonTree::Str("HTML"@)).insert(
            "reply_markup"@,
            JsonTree::Obj(
                Map::empty().insert(
                    "inline_keyboard"@,
                    JsonTree::Arr(
                        seq![
                            JsonTree::Arr(
                                seq![
                                    button_tree(
                                        "✅ Approve"@,
                                        APPROVAL_CALLBACK_APPROVE_PREFIX@ + request_id,
                                    ),
                                    button_tree(
                                        "❌ Deny"@,
                                        APPROVAL_CALLBACK_DENY_PREFIX@ + request_id,
                                    ),
                                ],
                            ),
                        ],
                    ),
                ),
            ),
        ),
    )
}

impl TelegramChannel {
    /// The parameters of the `sendMessage` that asks for approval of a tool call,
    /// with a button for each decision.
    pub fn send_approval_prompt_msg(
        &self,
        chat_id: i64,
        request_id: &str,
        tool_name: &str,
        args_preview: &str,
    ) -> (r: Json)
        ensures
            r@ == approval_body(chat_id, request_id@, tool_name@, args_preview@),
    {
        let safe_tool = html_escape(tool_name);
        let args = chars_of(args_preview);
        let keep: usize = if args.len() <= 200 {
            args.len()
        } else {
            200
        };
        let preview = string_of_range(&args, 0, keep);
        proof {
            assert(preview@ =~= if args_preview@.len() <= 200 {
                args_preview@
            } else {
                args_preview@.take(200)
            });
        }
        let safe_args = html_escape(preview.as_str());
        let safe_id = html_escape(request_id);
        let mut text = cat4(
            "🔒 <b>Tool approval required</b>\n\nTool: <code>",
            safe_tool.as_str(),
            "</code>\nArgs: <code>",
            safe_args.as_str(),
        );
        text.append("</code>\nRequest ID: <code>");
        text.append(safe_id.as_str());
        text.append("</code>\n\n⏱ This request expires in 30 minutes.");
        let yes_data = cat2(APPROVAL_CALLBACK_APPROVE_PREFIX, request_id);
        let no_data = cat2(APPROVAL_CALLBACK_DENY_PREFIX, request_id);
        let yes = Json::obj().with("text", Json::text("✅ Approve")).with(
            "callback_data",
            Json::Str(yes_data),
        );
        let no = Json::obj().with("text", Json::text("❌ Deny")).with(
            "callback_data",
            Json::Str(no_data),
        );
        let ghost yes_tree = yes@;
        let ghost no_tree = no@;
        let mut row: Vec<Json> = Vec::new();
        row.push(yes);
        row.push(no);
        let row_json = Json::arr(row);
        proof {
            assert(row_json@->Arr_0 =~= seq![yes_tree, no_tree]);
        }
        let ghost row_tree = row_json@;
        let mut rows: Vec<Json> = Vec::new();
        rows.push(row_json);
        let keyboard = Json::arr(rows);
        proof {
            assert(keyboard@->Arr_0 =~= seq![row_tree]);
        }
        Json::obj().with("chat_id", Json::Int(chat_id)).with("text", Json::Str(text)).with(
            "parse_mode",
            Json::text("HTML"),
        ).with("reply_markup", Json::obj().with("inline_keyboard", keyboard))
    }
}

impl TelegramChannel {
    /// The approval prompt for a session, which has to be a chat identifier.
    pub fn send_approval_prompt(
        &self,
        session_id: &str,
        request_id: &str,
        tool_name: &str,
        args_preview: &str,
    ) -> (r: Result<(i64, Json), String>)
        ensures
            match r {
                Ok((chat_id, body)) => int_of_text(session_id@) == Some(chat_id as int)
                    && body@ == approval_body(chat_id, request_id@, tool_name@, args_preview@),
                Err(e) => e@ == "Invalid Telegram chat_id for approval prompt: '"@ + session_id@
                    + "'"@ && !(int_of_text(session_id@) matches Some(n) && i64::MIN <= n
                    <= i64::MAX),
            },
    {
        match parse_i64(session_id) {
            Some(chat_id) => {
                let body = self.send_approval_prompt_msg(
                    chat_id,
                    request_id,
                    tool_name,
                    args_preview,
                );
                Ok((chat_id, body))
            },
            None => Err(
                cat3("Invalid Telegram chat_id for approval prompt: '", session_id, "'"),
            ),
        }
    }
}

impl Channel for TelegramChannel {
    fn name(&self) -> (r: String)
        ensures
            r@ == self.base.name@,
    {
        self.base.name.clone()
    }

    fn is_running(&self) -> (r: bool)
        ensures
            r == self.base.running,
    {
        self.base.running
    }

    fn supports_approval_prompts(&self) -> (r: bool)
        ensures
            r,
    {
        true
    }
}

// ---- polling ----

/// The kinds of updates that are asked for.
pub open spec fn allowed_updates() -> JsonTree {
    JsonTree::Arr(seq![JsonTree::Str("message"@), JsonTree::Str("callback_query"@)])
}

fn allowed_updates_json() -> (r: Json)
    ensures
        r@ == allowed_updates(),
{
    let mut v: Vec<Json> = Vec::new();
    v.push(Json::text("message"));
    v.push(Json::text("callback_query"));
    let r = Json::arr(v);
    proof {
        assert(r@->Arr_0 =~= allowed_updates()->Arr_0);
    }
    r
}

/// The parameters of the `getUpdates` that finds out whether another instance
/// is still polling: it does not wait.
pub fn probe_body(offset: i64) -> (r: Json)
    ensures
        r@ == JsonTree::Obj(
            Map::empty().insert("offset"@, int_tree(offset)).insert(
                "timeout"@,
                JsonTree::UInt(0),
            ).insert("allowed_updates"@, allowed_updates()),
        ),
{
    Json::obj().with("offset", Json::Int(offset)).with("timeout", Json::UInt(0)).with(
        "allowed_updates",
        allowed_updates_json(),
    )
}

/// The parameters of the `getUpdates` that waits up to 30 seconds.
pub fn poll_body(offset: i64) -> (r: Json)
    ensures
        r@ == JsonTree::Obj(
            Map::empty().insert("offset"@, int_tree(offset)).insert(
                "timeout"@,
                JsonTree::UInt(30),
            ).insert("limit"@, JsonTree::UInt(100)).insert(
                "allowed_updates"@,
                allowed_updates(),
            ),
        ),
{
    Json::obj().with("offset", Json::Int(offset)).with("timeout", Json::UInt(30)).with(
        "limit",
        Json::UInt(100),
    ).with("allowed_updates", allowed_updates_json())
}

/// The update identifier of an element of a `getUpdates` result.
pub open spec fn update_id_of(update: JsonTree) -> Option<i64> {
    update.field("update_id"@).as_i64()
}

/// The offset behind the last of the updates that has an identifier.
pub open spec fn offset_behind(updates: Seq<JsonTree>, offset: int) -> int
    decreases updates.len(),
{
    if updates.len() == 0 {
        offset
    } else {
        match update_id_of(updates.last()) {
            Some(uid) => uid + 1,
            None => offset_behind(updates.drop_last(), offset),
        }
    }
}

/// No update has the largest identifier of 64 bits.
pub open spec fn ids_in_range(updates: Seq<JsonTree>) -> bool {
    forall|i: int|
        0 <= i < updates.len() ==> (#[trigger] update_id_of(updates[i]) matches Some(uid) ==> uid
            < i64::MAX)
}

/// What follows from an attempt of the startup probe.
#[derive(Clone, Copy, Debug, PartialEq, Eq, Structural)]
pub enum ProbeStep {
    /// The slot is free; polling starts at this offset.
    Ready(i64),
    /// Try again after this many seconds.
    RetryIn(u64),
}

/// Whether the Bot API accepted the startup probe.
pub open spec fn probe_accepted(answer: Option<&Json>) -> bool {
    answer matches Some(data) && data@.field("ok"@).as_bool() == Some(true)
}

/// What the answer to the startup probe means: `None` is a failed request or
/// an answer that is no JSON.  An accepted probe skips the updates that were
/// waiting, anything else is tried again.
pub fn startup_probe(offset: i64, answer: Option<&Json>) -> (r: ProbeStep)
    requires
        answer matches Some(data) ==> (data@.field("result"@).as_arr() matches Some(updates)
            ==> ids_in_range(updates)),
    ensures
        match r {
            ProbeStep::Ready(next) => probe_accepted(answer) && next == match answer->0@.field(
                "result"@,
            ).as_arr() {
                Some(updates) => offset_behind(updates, offset as int),
                None => offset as int,
            },
            ProbeStep::RetryIn(seconds) => !probe_accepted(answer) && seconds == 5,
        },
{
    let data = match answer {
        Some(d) => d,
        None => {
            return ProbeStep::RetryIn(5);
        },
    };
    if data.field("ok").as_bool() != Some(true) {
        return ProbeStep::RetryIn(5);
    }
    let mut next: i64 = offset;
    if let Some(updates) = data.field("result").as_arr() {
        let ghost all = crate::json::json_views(updates@);
        let mut i: usize = 0;
        proof {
            assert(all.take(0) =~= Seq::<JsonTree>::empty());
        }
        while i < updates.len()
            invariant
                i <= updates@.len(),
                all == crate::json::json_views(updates@),
                ids_in_range(all),
                next == offset_behind(all.take(i as int), offset as int),
            decreases updates.len() - i,
        {
            proof {
                assert(all.take(i + 1).drop_last() =~= all.take(i as int));
                assert(all[i as int] == updates@[i as int]@);
                assert(update_id_of(all[i as int]) == update_id_of(updates@[i as int]@));
            }
            if let Some(uid) = updates[i].field("update_id").as_i64() {
                next = uid + 1;
            }
            i = i + 1;
        }
        proof {
            assert(all.take(all.len() as int) =~= all);
        }
    }
    ProbeStep::Ready(next)
}

/// What an answer of the Bot API brings.
pub fn api_result<T>(
    method: &str,
    ok: bool,
    result: Option<T>,
    description: Option<String>,
    error_code: Option<i64>,
) -> (r: Result<T, String>)
    ensures
        match r {
            Ok(v) => ok && result == Some(v),
            Err(e) => if ok {
                result is None && e@ == "Telegram API returned null result ("@ + method@ + ")"@
            } else {
                e@ == "Telegram API error ("@ + method@ + "): "@ + described(description)
                    + " [code="@ + int_text(code_of_error(error_code)) + "]"@
            },
        },
{
    if !ok {
        let d = match description {
            Some(d) => d,
            None => String::new(),
        };
        let code = i64_text(
            match error_code {
                Some(c) => c,
                None => 0,
            },
        );
        let mut e = cat5("Telegram API error (", method, "): ", d.as_str(), " [code=");
        e.append(code.as_str());
        e.append("]");
        return Err(e);
    }
    match result {
        Some(v) => Ok(v),
        None => Err(cat3("Telegram API returned null result (", method, ")")),
    }
}

pub open spec fn described(description: Option<String>) -> Seq<char> {
    match description {
        Some(d) => d@,
        None => Seq::empty(),
    }
}

pub open spec fn code_of_error(error_code: Option<i64>) -> int {
    match error_code {
        Some(c) => c as int,
        None => 0,
    }
}

/// What an answer to `getUpdates` brings: no result counts as no updates, and
/// a conflict with another instance is told apart.
pub fn get_updates(
    ok: bool,
    result: Option<Vec<TgUpdate>>,
    description: Option<String>,
    error_code: Option<i64>,
) -> (r: Result<Vec<TgUpdate>, String>)
    ensures
        match r {
            Ok(v) => ok && match result {
                Some(w) => v == w,
                None => v@.len() == 0,
            },
            Err(e) => !ok && e@ == if code_of_error(error_code) == 409 {
                "CONFLICT_409: "@ + described(description)
            } else {
                "getUpdates error ["@ + int_text(code_of_error(error_code)) + "]: "@ + described(
                    description,
                )
            },
        },
{
    if !ok {
        let code: i64 = match error_code {
            Some(c) => c,
            None => 0,
        };
        let d = match description {
            Some(d) => d,
            None => String::new(),
        };
        if code == 409 {
            return Err(cat2("CONFLICT_409: ", d.as_str()));
        }
        let n = i64_text(code);
        return Err(cat4("getUpdates error [", n.as_str(), "]: ", d.as_str()));
    }
    match result {
        Some(v) => Ok(v),
        None => Ok(Vec::new()),
    }
}

/// Where polling stands.
#[derive(Debug)]
pub struct PollState {
    pub offset: i64,
    pub consecutive_errors: u32,
}

/// The offset behind every one of the updates.
pub open spec fn offset_after(updates: Seq<TgUpdate>, offset: int) -> int
    decreases updates.len(),
{
    if updates.len() == 0 {
        offset
    } else {
        let before = offset_after(updates.drop_last(), offset);
        if updates.last().update_id >= before {
            updates.last().update_id + 1
        } else {
            before
        }
    }
}

/// The offset never falls, and lies behind every update seen.
pub proof fn law_offset_passes_updates(updates: Seq<TgUpdate>, offset: int)
    ensures
        offset_after(updates, offset) >= offset,
        forall|i: int|
            0 <= i < updates.len() ==> (#[trigger] updates[i]).update_id < offset_after(
                updates,
                offset,
            ),
    decreases updates.len(),
{
    if updates.len() > 0 {
        law_offset_passes_updates(updates.drop_last(), offset);
        assert forall|i: int| 0 <= i < updates.len() implies (#[trigger] updates[i]).update_id
            < offset_after(updates, offset) by {
            if i < updates.len() - 1 {
                assert(updates.drop_last()[i] == updates[i]);
            }
        }
    }
}

impl PollState {
    /// Takes note of updates that arrived.
    pub fn received(&mut self, updates: &Vec<TgUpdate>)
        requires
            forall|i: int|
                0 <= i < updates@.len() ==> (#[trigger] updates@[i]).update_id < i64::MAX,
        ensures
            final(self).offset == offset_after(updates@, old(self).offset as int),
            final(self).consecutive_errors == 0,
    {
        self.consecutive_errors = 0;
        let ghost start = self.offset as int;
        let mut i: usize = 0;
        proof {
            assert(updates@.take(0) =~= Seq::<TgUpdate>::empty());
        }
        while i < updates.len()
            invariant
                i <= updates@.len(),
                self.consecutive_errors == 0,
                self.offset == offset_after(updates@.take(i as int), start),
                forall|k: int|
                    0 <= k < updates@.len() ==> (#[trigger] updates@[k]).update_id < i64::MAX,
            decreases updates.len() - i,
        {
            proof {
                assert(updates@.take(i + 1).drop_last() =~= updates@.take(i as int));
            }
            if updates[i].update_id >= self.offset {
                self.offset = updates[i].update_id + 1;
            }
            i = i + 1;
        }
        proof {
            assert(updates@.take(updates@.len() as int) =~= updates@);
        }
    }

    /// Takes note of a failed request and tells how many seconds to wait: 35
    /// after a conflict with another instance, else two more for each failure
    /// in a row, at most 30.
    pub fn failed(&mut self, error: &str) -> (wait: u64)
        requires
            2 * (old(self).consecutive_errors + 1) <= u32::MAX,
        ensures
            final(self).offset == old(self).offset,
            final(self).consecutive_errors == old(self).consecutive_errors + 1,
            wait == if starts_with(error@, "CONFLICT_409"@) {
                35int
            } else if 2 * final(self).consecutive_errors < 30 {
                2 * final(self).consecutive_errors
            } else {
                30
            },
    {
        self.consecutive_errors = self.consecutive_errors + 1;
        if str_starts_with(error, "CONFLICT_409") {
            return 35;
        }
        let wait: u32 = self.consecutive_errors * 2;
        if wait < 30 {
            wait as u64
        } else {
            30
        }
    }
}

} // verus!
