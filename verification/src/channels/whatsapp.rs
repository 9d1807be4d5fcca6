//! WhatsApp Business Cloud API: webhook verification and messages.
use vstd::prelude::*;
use vstd::utf8::encode_utf8;
use crate::channels::base::{
    admitted, draft_views, messages_of_drafts, opt_draft, BaseChannel, Draft, DraftView,
};
use crate::channels::config::{
    get_number_or, get_setting, get_setting_or, number_or, setting, setting_or,
};
use crate::channels::http::{same_secret, STATUS_BAD_REQUEST, STATUS_FORBIDDEN, STATUS_OK};
use crate::crypto::{hex_encode, hex_text, hmac_sha256, hmac_sha256_of};
use crate::json::{json_map, Json, JsonTree};
use crate::model::channel::{
    fresh_uuid, put_member, InboundMessage,
};
use crate::text::{
    cat2, cat3, is_text, opt_string, or_empty, same_str, says, str_trim, text_or_empty, texts, trim,
};

verus! {

pub const GRAPH_API_BASE: &'static str = "https://graph.facebook.com/v18.0";

#[derive(Debug)]
pub struct WhatsAppWebhookPayload {
    pub object: Option<String>,
    pub entry: Option<Vec<WhatsAppEntry>>,
}

#[derive(Debug)]
pub struct WhatsAppEntry {
    pub changes: Option<Vec<WhatsAppChange>>,
}

#[derive(Debug)]
pub struct WhatsAppChange {
    pub value: Option<WhatsAppValue>,
    pub field: Option<String>,
}

#[derive(Debug)]
pub struct WhatsAppValue {
    pub messaging_product: Option<String>,
    pub contacts: Option<Vec<WhatsAppContact>>,
    pub messages: Option<Vec<WhatsAppMessage>>,
}

#[derive(Debug)]
pub struct WhatsAppContact {
    pub profile: Option<WhatsAppProfile>,
    pub wa_id: Option<String>,
}

#[derive(Debug)]
pub struct WhatsAppProfile {
    pub name: Option<String>,
}

#[derive(Debug)]
pub struct WhatsAppMessage {
    pub from: Option<String>,
    pub id: Option<String>,
    pub text: Option<WhatsAppText>,
    pub msg_type: Option<String>,
    pub image: Option<WhatsAppMedia>,
    pub audio: Option<WhatsAppMedia>,
    pub document: Option<WhatsAppMedia>,
}

#[derive(Debug)]
pub struct WhatsAppText {
    pub body: Option<String>,
}

#[derive(Debug)]
pub struct WhatsAppMedia {
    pub id: Option<String>,
    pub mime_type: Option<String>,
    pub caption: Option<String>,
}

/// The parameters of a webhook verification request.
#[derive(Debug)]
pub struct VerifyParams {
    pub hub_mode: Option<String>,
    pub hub_verify_token: Option<String>,
    pub hub_challenge: Option<String>,
}

/// The display name of a number: that of the last contact with that number
/// and a name.
pub open spec fn contact_name(contacts: Seq<WhatsAppContact>, wa_id: Seq<char>) -> Option<Seq<char>>
    decreases contacts.len(),
{
    if contacts.len() == 0 {
        None
    } else {
        let c = contacts.last();
        if says(c.wa_id, wa_id) && (c.profile matches Some(p) && p.name is Some) {
            Some(c.profile->0.name->0@)
        } else {
            contact_name(contacts.drop_last(), wa_id)
        }
    }
}

pub open spec fn media_id(m: Option<WhatsAppMedia>) -> Seq<char> {
    match m {
        Some(x) => text_or_empty(x.id),
        None => Seq::empty(),
    }
}

pub open spec fn media_caption(m: Option<WhatsAppMedia>) -> Seq<char> {
    match m {
        Some(x) => text_or_empty(x.caption),
        None => Seq::empty(),
    }
}

/// A mark for an attachment, followed by its caption if it has one.
pub open spec fn media_text(label: Seq<char>, m: Option<WhatsAppMedia>) -> Seq<char> {
    if media_caption(m).len() == 0 {
        label + media_id(m) + "]"@
    } else {
        label + media_id(m) + "] "@ + media_caption(m)
    }
}

/// What a message says and its kind; `None` for blank texts and kinds that
/// are not handled.
pub open spec fn message_text(msg: WhatsAppMessage) -> Option<(Seq<char>, Seq<char>)> {
    if says(msg.msg_type, "text"@) {
        let body = match msg.text {
            Some(t) => text_or_empty(t.body),
            None => Seq::empty(),
        };
        if trim(body).len() == 0 {
            None
        } else {
            Some((body, "text"@))
        }
    } else if says(msg.msg_type, "image"@) {
        Some((media_text("[Image: "@, msg.image), "image"@))
    } else if says(msg.msg_type, "audio"@) {
        Some(("[Audio: "@ + media_id(msg.audio) + "]"@, "audio"@))
    } else if says(msg.msg_type, "document"@) {
        Some((media_text("[Document: "@, msg.document), "document"@))
    } else {
        None
    }
}

/// The draft of one message.
pub open spec fn message_draft(
    contacts: Option<Vec<WhatsAppContact>>,
    msg: WhatsAppMessage,
) -> Option<DraftView> {
    let from = text_or_empty(msg.from);
    let name = match contacts {
        Some(c) => contact_name(c@, from),
        None => None,
    };
    let ids = match msg.id {
        Some(id) => Map::empty().insert("message_id"@, JsonTree::Str(id@)),
        None => Map::empty(),
    };
    match message_text(msg) {
        Some((text, kind)) => if from.len() == 0 {
            None
        } else {
            Some(
                DraftView {
                    sender_id: from,
                    sender_name: match name {
                        Some(n) => n,
                        None => from,
                    },
                    session_id: from,
                    content: trim(text),
                    metadata: ids.insert("msg_type"@, JsonTree::Str(kind)),
                },
            )
        },
        None => None,
    }
}

pub open spec fn opt_seq(o: Option<DraftView>) -> Seq<DraftView> {
    match o {
        Some(d) => seq![d],
        None => Seq::empty(),
    }
}

pub open spec fn messages_drafts(
    contacts: Option<Vec<WhatsAppContact>>,
    messages: Seq<WhatsAppMessage>,
) -> Seq<DraftView>
    decreases messages.len(),
{
    if messages.len() == 0 {
        Seq::empty()
    } else {
        messages_drafts(contacts, messages.drop_last()) + opt_seq(
            message_draft(contacts, messages.last()),
        )
    }
}

/// The drafts of one change: those of its messages, if it is about messages
/// of this product.
pub open spec fn change_drafts(change: WhatsAppChange) -> Seq<DraftView> {
    if !says(change.field, "messages"@) {
        Seq::empty()
    } else {
        match change.value {
            Some(v) => if says(v.messaging_product, "whatsapp"@) {
                match v.messages {
                    Some(m) => messages_drafts(v.contacts, m@),
                    None => Seq::empty(),
                }
            } else {
                Seq::empty()
            },
            None => Seq::empty(),
        }
    }
}

pub open spec fn changes_drafts(changes: Seq<WhatsAppChange>) -> Seq<DraftView>
    decreases changes.len(),
{
    if changes.len() == 0 {
        Seq::empty()
    } else {
        changes_drafts(changes.drop_last()) + change_drafts(changes.last())
    }
}

pub open spec fn entries_drafts(entries: Seq<WhatsAppEntry>) -> Seq<DraftView>
    decreases entries.len(),
{
    if entries.len() == 0 {
        Seq::empty()
    } else {
        entries_drafts(entries.drop_last()) + match entries.last().changes {
            Some(c) => changes_drafts(c@),
            None => Seq::empty(),
        }
    }
}

/// The drafts of a payload: those of all its entries, if it is about a
/// business account.
pub open spec fn payload_drafts(payload: WhatsAppWebhookPayload) -> Seq<DraftView> {
    if says(payload.object, "whatsapp_business_account"@) {
        match payload.entry {
            Some(e) => entries_drafts(e@),
            None => Seq::empty(),
        }
    } else {
        Seq::empty()
    }
}

fn find_contact(contacts: &Vec<WhatsAppContact>, wa_id: &str) -> (r: Option<String>)
    ensures
        opt_string(r) == contact_name(contacts@, wa_id@),
{
    let mut i: usize = contacts.len();
    proof {
        assert(contacts@.take(contacts@.len() as int) =~= contacts@);
    }
    while i > 0
        invariant
            i <= contacts@.len(),
            contact_name(contacts@, wa_id@) == contact_name(contacts@.take(i as int), wa_id@),
        decreases i,
    {
        proof {
            assert(contacts@.take(i as int).drop_last() =~= contacts@.take(i - 1));
        }
        i = i - 1;
        let c = &contacts[i];
        if is_text(&c.wa_id, wa_id) {
            if let Some(p) = &c.profile {
                if let Some(name) = &p.name {
                    return Some(name.clone());
                }
            }
        }
    }
    None
}

fn media_label(label: &str, m: &Option<WhatsAppMedia>) -> (r: String)
    ensures
        r@ == media_text(label@, *m),
{
    let (id, caption) = match m {
        Some(x) => (or_empty(&x.id), or_empty(&x.caption)),
        None => (String::new(), String::new()),
    };
    if caption.as_str().is_empty() {
        cat3(label, id.as_str(), "]")
    } else {
        let mut r = cat3(label, id.as_str(), "] ");
        r.append(caption.as_str());
        r
    }
}

fn text_of(msg: &WhatsAppMessage) -> (r: Option<(String, String)>)
    ensures
        match r {
            Some(p) => message_text(*msg) == Some((p.0@, p.1@)),
            None => message_text(*msg) is None,
        },
{
    if is_text(&msg.msg_type, "text") {
        let body = match &msg.text {
            Some(t) => or_empty(&t.body),
            None => String::new(),
        };
        let trimmed = str_trim(body.as_str());
        if trimmed.as_str().is_empty() {
            None
        } else {
            Some((body, "text".to_owned()))
        }
    } else if is_text(&msg.msg_type, "image") {
        Some((media_label("[Image: ", &msg.image), "image".to_owned()))
    } else if is_text(&msg.msg_type, "audio") {
        let id = match &msg.audio {
            Some(x) => or_empty(&x.id),
            None => String::new(),
        };
        Some((cat3("[Audio: ", id.as_str(), "]"), "audio".to_owned()))
    } else if is_text(&msg.msg_type, "document") {
        Some((media_label("[Document: ", &msg.document), "document".to_owned()))
    } else {
        None
    }
}

fn draft_of(contacts: &Option<Vec<WhatsAppContact>>, msg: &WhatsAppMessage) -> (r: Option<Draft>)
    ensures
        opt_draft(r) == message_draft(*contacts, *msg),
{
    let from = or_empty(&msg.from);
    if from.as_str().is_empty() {
        return None;
    }
    let known = match contacts {
        Some(c) => find_contact(c, from.as_str()),
        None => None,
    };
    let name = match known {
        Some(n) => n,
        None => from.clone(),
    };
    let (text, kind) = match text_of(msg) {
        Some(p) => p,
        None => {
            return None;
        },
    };
    let mut metadata: Vec<(String, Json)> = Vec::new();
    proof {
        assert(json_map(metadata@) =~= Map::empty());
    }
    if let Some(id) = &msg.id {
        put_member(&mut metadata, "message_id", Json::text(id.as_str()));
    }
    put_member(&mut metadata, "msg_type", Json::Str(kind));
    Some(
        Draft {
            sender_id: from.clone(),
            sender_name: name,
            session_id: from,
            content: str_trim(text.as_str()),
            metadata,
        },
    )
}

fn drafts_of_messages(
    contacts: &Option<Vec<WhatsAppContact>>,
    messages: &Vec<WhatsAppMessage>,
) -> (r: Vec<Draft>)
    ensures
        draft_views(r@) == messages_drafts(*contacts, messages@),
{
    let mut out: Vec<Draft> = Vec::new();
    let mut i: usize = 0;
    proof {
        assert(messages@.take(0) =~= Seq::<WhatsAppMessage>::empty());
        assert(draft_views(out@) =~= Seq::<DraftView>::empty());
    }
    while i < messages.len()
        invariant
            i <= messages@.len(),
            draft_views(out@) == messages_drafts(*contacts, messages@.take(i as int)),
        decreases messages.len() - i,
    {
        let ghost before = draft_views(out@);
        proof {
            assert(messages@.take(i + 1).drop_last() =~= messages@.take(i as int));
        }
        if let Some(d) = draft_of(contacts, &messages[i]) {
            out.push(d);
            proof {
                assert(draft_views(out@) =~= before + seq![d@]);
            }
        } else {
            proof {
                assert(draft_views(out@) =~= before + Seq::<DraftView>::empty());
            }
        }
        i = i + 1;
    }
    proof {
        assert(messages@.take(messages@.len() as int) =~= messages@);
    }
    out
}

fn drafts_of_change(change: &WhatsAppChange) -> (r: Vec<Draft>)
    ensures
        draft_views(r@) == change_drafts(*change),
{
    let none: Vec<Draft> = Vec::new();
    proof {
        assert(draft_views(none@) =~= Seq::<DraftView>::empty());
    }
    if !is_text(&change.field, "messages") {
        return none;
    }
    match &change.value {
        Some(v) => if is_text(&v.messaging_product, "whatsapp") {
            match &v.messages {
                Some(m) => drafts_of_messages(&v.contacts, m),
                None => none,
            }
        } else {
            none
        },
        None => none,
    }
}

proof fn lemma_draft_views_add(a: Seq<Draft>, b: Seq<Draft>)
    ensures
        draft_views(a + b) == draft_views(a) + draft_views(b),
{
    assert(draft_views(a + b) =~= draft_views(a) + draft_views(b));
}

fn drafts_of_changes(changes: &Vec<WhatsAppChange>) -> (r: Vec<Draft>)
    ensures
        draft_views(r@) == changes_drafts(changes@),
{
    let mut out: Vec<Draft> = Vec::new();
    let mut i: usize = 0;
    proof {
        assert(changes@.take(0) =~= Seq::<WhatsAppChange>::empty());
        assert(draft_views(out@) =~= Seq::<DraftView>::empty());
    }
    while i < changes.len()
        invariant
            i <= changes@.len(),
            draft_views(out@) == changes_drafts(changes@.take(i as int)),
        decreases changes.len() - i,
    {
        let mut more = drafts_of_change(&changes[i]);
        proof {
            assert(changes@.take(i + 1).drop_last() =~= changes@.take(i as int));
            lemma_draft_views_add(out@, more@);
        }
        out.append(&mut more);
        i = i + 1;
    }
    proof {
        assert(changes@.take(changes@.len() as int) =~= changes@);
    }
    out
}

fn drafts_of_entries(entries: &Vec<WhatsAppEntry>) -> (r: Vec<Draft>)
    ensures
        draft_views(r@) == entries_drafts(entries@),
{
    let mut out: Vec<Draft> = Vec::new();
    let mut i: usize = 0;
    proof {
        assert(entries@.take(0) =~= Seq::<WhatsAppEntry>::empty());
        assert(draft_views(out@) =~= Seq::<DraftView>::empty());
    }
    while i < entries.len()
        invariant
            i <= entries@.len(),
            draft_views(out@) == entries_drafts(entries@.take(i as int)),
        decreases entries.len() - i,
    {
        let ghost before = out@;
        proof {
            assert(entries@.take(i + 1).drop_last() =~= entries@.take(i as int));
        }
        if let Some(changes) = &entries[i].changes {
            let mut more = drafts_of_changes(changes);
            proof {
                lemma_draft_views_add(out@, more@);
            }
            out.append(&mut more);
        } else {
            proof {
                assert(draft_views(out@) =~= draft_views(out@) + Seq::<DraftView>::empty());
            }
        }
        i = i + 1;
    }
    proof {
        assert(entries@.take(entries@.len() as int) =~= entries@);
    }
    out
}

/// The drafts of a payload.
pub fn drafts_of_payload(payload: &WhatsAppWebhookPayload) -> (r: Vec<Draft>)
    ensures
        draft_views(r@) == payload_drafts(*payload),
{
    let none: Vec<Draft> = Vec::new();
    proof {
        assert(draft_views(none@) =~= Seq::<DraftView>::empty());
    }
    if !is_text(&payload.object, "whatsapp_business_account") {
        return none;
    }
    match &payload.entry {
        Some(entries) => drafts_of_entries(entries),
        None => none,
    }
}

/// What the webhook handlers know of the account.
pub struct WhatsAppState {
    pub base: BaseChannel,
    pub access_token: String,
    pub phone_number_id: String,
    pub verify_token: String,
    /// The secret that payloads are signed with; unsigned payloads are
    /// accepted where there is none.
    pub app_secret: Option<String>,
}

/// The signature that a payload has to carry.
pub open spec fn payload_signature(secret: Seq<char>, body: Seq<char>) -> Seq<char> {
    "sha256="@ + hex_text(hmac_sha256_of(encode_utf8(secret), encode_utf8(body)))
}

/// Whether a payload with the given signature header is to be accepted.
pub open spec fn payload_accepted(
    secret: Option<String>,
    signature: Option<&str>,
    body: Seq<char>,
) -> bool {
    match secret {
        Some(s) => signature matches Some(sig) && sig@ == payload_signature(s@, body),
        None => true,
    }
}

impl WhatsAppState {
    /// Whether the header `X-Hub-Signature-256` fits the body.
    pub fn verify_signature(&self, signature: Option<&str>, body: &str) -> (r: bool)
        ensures
            r == payload_accepted(self.app_secret, signature, body@),
    {
        let secret = match &self.app_secret {
            Some(s) => s,
            None => {
                return true;
            },
        };
        let received = match signature {
            Some(s) => s,
            None => {
                return false;
            },
        };
        let code = hmac_sha256(secret.as_str().as_bytes(), body.as_bytes());
        let hex = hex_encode(code.as_slice());
        let expected = cat2("sha256=", hex.as_str());
        same_secret(expected.as_str(), received)
    }

    /// The address and the body of the request that sends a text.
    pub fn send_text(&self, to: &str, text: &str) -> (r: (String, Json))
        ensures
            r.0@ == GRAPH_API_BASE@ + "/"@ + self.phone_number_id@ + "/messages"@,
            r.1@ == JsonTree::Obj(
                Map::empty().insert("messaging_product"@, JsonTree::Str("whatsapp"@)).insert(
                    "recipient_type"@,
                    JsonTree::Str("individual"@),
                ).insert("to"@, JsonTree::Str(to@)).insert("type"@, JsonTree::Str("text"@)).insert(
                    "text"@,
                    JsonTree::Obj(Map::empty().insert("body"@, JsonTree::Str(text@))),
                ),
            ),
    {
        let mut url = cat3(GRAPH_API_BASE, "/", self.phone_number_id.as_str());
        url.append("/messages");
        let body = Json::obj().with("messaging_product", Json::text("whatsapp")).with(
            "recipient_type",
            Json::text("individual"),
        ).with("to", Json::text(to)).with("type", Json::text("text")).with(
            "text",
            Json::obj().with("body", Json::text(text)),
        );
        (url, body)
    }
}

/// Answers a webhook verification request: the challenge where the mode and
/// the token are right.
pub fn handle_whatsapp_verify(state: &WhatsAppState, params: &VerifyParams) -> (r: (u16, String))
    ensures
        if text_or_empty(params.hub_mode) == "subscribe"@ && text_or_empty(params.hub_verify_token)
            == state.verify_token@ {
            r.0 == STATUS_OK && r.1@ == text_or_empty(params.hub_challenge)
        } else {
            r.0 == STATUS_FORBIDDEN && r.1@ == "Forbidden"@
        },
{
    let mode = or_empty(&params.hub_mode);
    let token = or_empty(&params.hub_verify_token);
    let challenge = or_empty(&params.hub_challenge);
    if same_str(mode.as_str(), "subscribe") && same_secret(
        token.as_str(),
        state.verify_token.as_str(),
    ) {
        (STATUS_OK, challenge)
    } else {
        (STATUS_FORBIDDEN, "Forbidden".to_owned())
    }
}

/// The status of the answer to a pushed payload; `payload` is what the body
/// was read as, if it could be read.
pub open spec fn push_status(
    state: WhatsAppState,
    signature: Option<&str>,
    body: Seq<char>,
    payload: Option<WhatsAppWebhookPayload>,
) -> u16 {
    if !payload_accepted(state.app_secret, signature, body) {
        STATUS_FORBIDDEN
    } else if payload is None {
        STATUS_BAD_REQUEST
    } else {
        STATUS_OK
    }
}

/// Handles a pushed payload: the status of the answer and the messages to hand
/// on, none unless the payload is accepted.
pub fn handle_whatsapp_message(
    state: &WhatsAppState,
    signature: Option<&str>,
    body: &str,
    payload: Option<WhatsAppWebhookPayload>,
) -> (r: (u16, Vec<InboundMessage>))
    ensures
        r.0 == push_status(*state, signature, body@, payload),
        messages_of_drafts(
            r.1@,
            state.base.name@,
            if r.0 == STATUS_OK {
                admitted(texts(state.base.allow_from@), payload_drafts(payload->0))
            } else {
                Seq::empty()
            },
        ),
{
    if !state.verify_signature(signature, body) {
        return (STATUS_FORBIDDEN, Vec::new());
    }
    match payload {
        None => (STATUS_BAD_REQUEST, Vec::new()),
        Some(p) => {
            let drafts = drafts_of_payload(&p);
            (STATUS_OK, state.base.handle_drafts(drafts))
        },
    }
}

/// A push that is not signed as the secret demands hands no message on and is
/// answered with a refusal.
pub proof fn law_unsigned_push_is_refused(
    state: WhatsAppState,
    signature: Option<&str>,
    body: Seq<char>,
    payload: Option<WhatsAppWebhookPayload>,
)
    requires
        state.app_secret matches Some(secret) && (signature matches Some(sig) ==> sig@
            != payload_signature(secret@, body)),
    ensures
        push_status(state, signature, body, payload) == STATUS_FORBIDDEN,
{
}

/// The settings of a WhatsApp channel.
pub struct WhatsAppChannel {
    pub base: BaseChannel,
    pub access_token: String,
    pub phone_number_id: String,
    pub verify_token: String,
    pub app_secret: Option<String>,
    pub webhook_port: u16,
    pub webhook_path: String,
}

impl WhatsAppChannel {
    pub fn new(
        access_token: String,
        phone_number_id: String,
        verify_token: String,
        app_secret: Option<String>,
        allow_from: Vec<String>,
        webhook_port: u16,
        webhook_path: String,
    ) -> (r: WhatsAppChannel)
        ensures
            r.base.name@ == "whatsapp"@,
            r.base.allow_from == allow_from,
            r.base.allow_from_groups@.len() == 0,
            !r.base.running,
            r.access_token == access_token,
            r.phone_number_id == phone_number_id,
            r.verify_token == verify_token,
            r.app_secret == app_secret,
            r.webhook_port == webhook_port,
            r.webhook_path == webhook_path,
    {
        WhatsAppChannel {
            base: BaseChannel::new("whatsapp").with_allow_from(allow_from),
            access_token,
            phone_number_id,
            verify_token,
            app_secret,
            webhook_port,
            webhook_path,
        }
    }

    /// A channel from its settings, with the verification token to use where
    /// the settings name none.
    pub fn from_settings(
        token: Option<String>,
        webhook_secret: Option<String>,
        allow_from: Vec<String>,
        extra: &Vec<(String, String)>,
        default_verify_token: String,
    ) -> (r: Result<WhatsAppChannel, String>)
        ensures
            match r {
                Ok(c) => {
                    &&& token == Some(c.access_token)
                    &&& setting(extra@, "phone_number_id"@) == Some(c.phone_number_id@)
                    &&& c.verify_token@ == setting_or(
                        extra@,
                        "verify_token"@,
                        default_verify_token@,
                    )
                    &&& c.app_secret == webhook_secret
                    &&& c.webhook_port == number_or(extra@, "webhook_port"@, 0xffff, 9005)
                    &&& c.webhook_path@ == setting_or(extra@, "webhook_path"@, "/whatsapp"@)
                    &&& c.base.name@ == "whatsapp"@
                    &&& c.base.allow_from == allow_from
                    &&& c.base.allow_from_groups@.len() == 0
                    &&& !c.base.running
                },
                Err(e) => if token is None {
                    e@ == "channels.whatsapp.token (access_token) is required"@
                } else {
                    setting(extra@, "phone_number_id"@) is None && e@
                        == "channels.whatsapp.extra.phone_number_id is required"@
                },
            },
    {
        let access_token = match token {
            Some(t) => t,
            None => {
                return Err("channels.whatsapp.token (access_token) is required".to_owned());
            },
        };
        let phone_number_id = match get_setting(extra, "phone_number_id") {
            Some(v) => v,
            None => {
                return Err("channels.whatsapp.extra.phone_number_id is required".to_owned());
            },
        };
        let verify_token = get_setting_or(extra, "verify_token", default_verify_token.as_str());
        let webhook_port: u64 = get_number_or(extra, "webhook_port", 0xffff, 9005);
        let webhook_path = get_setting_or(extra, "webhook_path", "/whatsapp");
        Ok(
            Self::new(
                access_token,
                phone_number_id,
                verify_token,
                webhook_secret,
                allow_from,
                webhook_port as u16,
                webhook_path,
            ),
        )
    }

    /// A channel from its settings; the verification token is drawn at random
    /// where the settings name none.
    pub fn from_extra(
        token: Option<String>,
        webhook_secret: Option<String>,
        allow_from: Vec<String>,
        extra: &Vec<(String, String)>,
    ) -> (r: Result<WhatsAppChannel, String>)
        ensures
            r is Ok == (token is Some && setting(extra@, "phone_number_id"@) is Some),
            match r {
                Ok(c) => {
                    &&& token == Some(c.access_token)
                    &&& setting(extra@, "phone_number_id"@) == Some(c.phone_number_id@)
                    &&& setting(extra@, "verify_token"@) matches Some(v) ==> c.verify_token@ == v
                    &&& c.app_secret == webhook_secret
                    &&& c.webhook_port == number_or(extra@, "webhook_port"@, 0xffff, 9005)
                    &&& c.webhook_path@ == setting_or(extra@, "webhook_path"@, "/whatsapp"@)
                    &&& c.base.name@ == "whatsapp"@
                    &&& c.base.allow_from == allow_from
                    &&& c.base.allow_from_groups@.len() == 0
                    &&& !c.base.running
                },
                Err(e) => if token is None {
                    e@ == "channels.whatsapp.token (access_token) is required"@
                } else {
                    e@ == "channels.whatsapp.extra.phone_number_id is required"@
                },
            },
    {
        Self::from_settings(token, webhook_secret, allow_from, extra, fresh_uuid())
    }
}

} // verus!
