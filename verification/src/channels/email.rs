//! E-mail: settings, reading messages and replying to them.
use mailparse::MailHeaderMap;
use vstd::prelude::*;
use crate::channels::base::{
    admitted, draft_views, messages_of_drafts, BaseChannel, Draft, DraftView,
};
use crate::channels::config::{
    get_number_or, get_setting, get_setting_or, number_or, setting, setting_or,
};
use crate::json::{json_map, Json, JsonTree};
use crate::model::channel::{put_member, InboundMessage, MessageContent, OutboundMessage};
use crate::text::{
    cat4, chars_of, find, find_char, join, join_strings, lowercase, nat_text, opt_string, replace,
    same_str, starts_with, str_replace, str_starts_with, str_trim, str_trim_end_char,
    str_trim_start_char, string_of_range, texts, trim, trim_end_char, trim_start_char, u64_text,
};

verus! {

// ---- reading messages ----

/// One part of a message: its media type, its decoded text (`None` where it
/// cannot be decoded) and how many parts it is made of.
#[derive(Debug)]
pub struct MailItem {
    pub mimetype: String,
    pub body: Option<String>,
    pub children: usize,
}

pub struct ItemView {
    pub mimetype: Seq<char>,
    pub body: Option<Seq<char>>,
    pub children: nat,
}

impl View for MailItem {
    type V = ItemView;

    open spec fn view(&self) -> ItemView {
        ItemView {
            mimetype: self.mimetype@,
            body: opt_string(self.body),
            children: self.children as nat,
        }
    }
}

pub open spec fn item_views(s: Seq<MailItem>) -> Seq<ItemView> {
    Seq::new(s.len(), |i: int| s[i]@)
}

/// The parts of a raw message, each before the parts it is made of; `None`
/// where it is no message.
pub uninterp spec fn mail_items(raw: Seq<u8>) -> Option<Seq<ItemView>>;

/// `mailparse::parse_mail`, `ParsedMail::parts` and `ParsedMail::get_body`:
/// the parts depend on the bytes alone, and the first is the message itself.
#[verifier::external_body]
fn mail_parts(raw: &[u8]) -> (r: Option<Vec<MailItem>>)
    ensures
        match r {
            Some(v) => mail_items(raw@) == Some(item_views(v@)) && v@.len() > 0,
            None => mail_items(raw@) is None,
        },
{
    let mail = mailparse::parse_mail(raw).ok()?;
    Some(mail.parts().map(|p| MailItem {
        mimetype: p.ctype.mimetype.clone(),
        body: p.get_body().ok(),
        children: p.subparts.len(),
    }).collect())
}

/// The first value of a header of a raw message; `None` where it has no such
/// header or is no message.
pub uninterp spec fn mail_header_of(raw: Seq<u8>, name: Seq<char>) -> Option<Seq<char>>;

/// `MailHeaderMap::get_first_value`: the value depends on the bytes and the
/// name alone.
#[verifier::external_body]
fn mail_header(raw: &[u8], name: &str) -> (r: Option<String>)
    ensures
        opt_string(r) == mail_header_of(raw@, name@),
{
    mailparse::parse_mail(raw).ok()?.headers.get_first_value(name)
}

/// A message as a tree of parts.
#[derive(Debug)]
pub struct MailPart {
    pub mimetype: String,
    pub body: Option<String>,
    pub subparts: Vec<MailPart>,
}

pub struct MailTree {
    pub mimetype: Seq<char>,
    pub body: Option<Seq<char>>,
    pub subparts: Seq<MailTree>,
}

pub open spec fn part_view(p: MailPart) -> MailTree
    decreases p,
{
    MailTree {
        mimetype: p.mimetype@,
        body: opt_string(p.body),
        subparts: Seq::new(
            p.subparts@.len(),
            |i: int|
                if 0 <= i < p.subparts@.len() {
                    part_view(p.subparts@[i])
                } else {
                    arbitrary()
                },
        ),
    }
}

impl View for MailPart {
    type V = MailTree;

    open spec fn view(&self) -> MailTree {
        part_view(*self)
    }
}

pub open spec fn part_views(s: Seq<MailPart>) -> Seq<MailTree> {
    Seq::new(s.len(), |i: int| s[i]@)
}

/// The part that starts at position `i` of the list, and the position behind
/// it.
pub open spec fn part_at(items: Seq<ItemView>, i: int) -> (MailTree, int)
    decreases items.len() - i, 0nat,
{
    if 0 <= i < items.len() {
        let (subparts, next) = parts_at(items, i + 1, items[i].children);
        (MailTree { mimetype: items[i].mimetype, body: items[i].body, subparts }, next)
    } else {
        (MailTree { mimetype: Seq::empty(), body: None, subparts: Seq::empty() }, i + 1)
    }
}

/// The up to `n` parts that follow each other from position `i` of the list
/// on, and the position behind them.
pub open spec fn parts_at(items: Seq<ItemView>, i: int, n: nat) -> (Seq<MailTree>, int)
    decreases items.len() - i, 1nat,
{
    if n == 0 || i < 0 || i >= items.len() {
        (Seq::empty(), i)
    } else {
        let (first, after) = part_at(items, i);
        let j = if i < after <= items.len() {
            after
        } else {
            items.len() as int
        };
        let (rest, next) = parts_at(items, j, (n - 1) as nat);
        (seq![first] + rest, next)
    }
}

fn build_part(items: &Vec<MailItem>, i: usize) -> (r: (MailPart, usize))
    requires
        i < items@.len(),
    ensures
        (r.0@, r.1 as int) == part_at(item_views(items@), i as int),
        i < r.1 <= items@.len(),
    decreases items@.len() - i, 0nat,
{
    let n: usize = items.len();
    let (subparts, next) = build_parts(items, i + 1, items[i].children);
    let body = match &items[i].body {
        Some(b) => Some(b.clone()),
        None => None,
    };
    let p = MailPart { mimetype: items[i].mimetype.clone(), body, subparts };
    proof {
        assert(p@.subparts =~= part_views(subparts@));
    }
    (p, next)
}

fn build_parts(items: &Vec<MailItem>, i: usize, n: usize) -> (r: (Vec<MailPart>, usize))
    requires
        i <= items@.len(),
    ensures
        (part_views(r.0@), r.1 as int) == parts_at(item_views(items@), i as int, n as nat),
        i <= r.1 <= items@.len(),
    decreases items@.len() - i, 1nat,
{
    if n == 0 || i >= items.len() {
        let none: Vec<MailPart> = Vec::new();
        proof {
            assert(part_views(none@) =~= Seq::<MailTree>::empty());
        }
        return (none, i);
    }
    let (first, after) = build_part(items, i);
    let (mut rest, next) = build_parts(items, after, n - 1);
    let mut out: Vec<MailPart> = Vec::new();
    let ghost tail = rest@;
    out.push(first);
    out.append(&mut rest);
    proof {
        assert(part_views(out@) =~= seq![first@] + part_views(tail));
    }
    (out, next)
}

/// The first part whose media type starts with `kind`, without regard to
/// case.
pub open spec fn first_of_kind(parts: Seq<MailTree>, kind: Seq<char>, i: int) -> Option<int>
    decreases parts.len() - i,
{
    if i < 0 || i >= parts.len() {
        None
    } else if starts_with(lowercase(parts[i].mimetype), kind) {
        Some(i)
    } else {
        first_of_kind(parts, kind, i + 1)
    }
}

/// `s` without what stands between `<` and `>`; `inside` tells whether it
/// begins inside a tag.
pub open spec fn without_tags(s: Seq<char>, inside: bool) -> Seq<char>
    decreases s.len(),
{
    if s.len() == 0 {
        Seq::empty()
    } else {
        let c = s[0];
        let rest = s.drop_first();
        if c == '<' {
            without_tags(rest, true)
        } else if c == '>' {
            without_tags(rest, false)
        } else if inside {
            without_tags(rest, true)
        } else {
            seq![c] + without_tags(rest, false)
        }
    }
}

/// The text of an HTML part: line breaks and paragraphs as newlines, without
/// tags and without white space at its ends.
pub open spec fn html_as_text(html: Seq<char>) -> Seq<char> {
    let t1 = replace(html, "<br>"@, "\n"@);
    let t2 = replace(t1, "<br/>"@, "\n"@);
    let t3 = replace(t2, "<br />"@, "\n"@);
    let t4 = replace(t3, "<p>"@, "\n"@);
    let t5 = replace(t4, "</p>"@, "\n"@);
    trim(without_tags(t5, false))
}

/// The text of a message: that of a single text part; of several parts the
/// first plain one, else the first HTML one, else the first nested one that is
/// not empty.  `None` where the part in question cannot be decoded.
pub open spec fn text_body(t: MailTree) -> Option<Seq<char>>
    decreases t, 0nat,
{
    if t.subparts.len() == 0 {
        if starts_with(lowercase(t.mimetype), "text/"@) {
            t.body
        } else {
            Some(Seq::empty())
        }
    } else {
        match first_of_kind(t.subparts, "text/plain"@, 0) {
            Some(i) => t.subparts[i].body,
            None => match first_of_kind(t.subparts, "text/html"@, 0) {
                Some(i) => match t.subparts[i].body {
                    Some(html) => Some(html_as_text(html)),
                    None => None,
                },
                None => nested_body(t.subparts, 0),
            },
        }
    }
}

pub open spec fn nested_body(parts: Seq<MailTree>, i: int) -> Option<Seq<char>>
    decreases parts, (parts.len() - i) as nat,
{
    if i < 0 || i >= parts.len() {
        Some(Seq::empty())
    } else {
        match text_body(parts[i]) {
            Some(b) => if b.len() > 0 {
                Some(b)
            } else {
                nested_body(parts, i + 1)
            },
            None => None,
        }
    }
}

fn find_kind(parts: &Vec<MailPart>, kind: &str) -> (r: Option<usize>)
    ensures
        match r {
            Some(i) => i < parts@.len() && first_of_kind(part_views(parts@), kind@, 0) == Some(
                i as int,
            ),
            None => first_of_kind(part_views(parts@), kind@, 0) is None,
        },
{
    let mut i: usize = 0;
    while i < parts.len()
        invariant
            i <= parts@.len(),
            first_of_kind(part_views(parts@), kind@, 0) == first_of_kind(
                part_views(parts@),
                kind@,
                i as int,
            ),
        decreases parts.len() - i,
    {
        let lower = parts[i].mimetype.as_str().to_lowercase();
        if str_starts_with(lower.as_str(), kind) {
            return Some(i);
        }
        i = i + 1;
    }
    None
}

fn strip_tags(s: &str) -> (r: String)
    ensures
        r@ == without_tags(s@, false),
{
    let a = chars_of(s);
    let mut r = String::new();
    let mut inside: bool = false;
    let mut i: usize = 0;
    proof {
        assert(a@.skip(0) =~= a@);
    }
    while i < a.len()
        invariant
            i <= a@.len(),
            without_tags(a@, false) == r@ + without_tags(a@.skip(i as int), inside),
        decreases a.len() - i,
    {
        let c = a[i];
        let ghost before = r@;
        proof {
            assert(a@.skip(i as int).drop_first() =~= a@.skip(i + 1));
        }
        if c == '<' {
            inside = true;
        } else if c == '>' {
            inside = false;
        } else if !inside {
            r.push(c);
            proof {
                assert(before + (seq![c] + without_tags(a@.skip(i + 1), false)) =~= r@
                    + without_tags(a@.skip(i + 1), false));
            }
        }
        i = i + 1;
    }
    proof {
        assert(a@.skip(i as int) =~= Seq::<char>::empty());
        assert(r@ + Seq::<char>::empty() =~= r@);
    }
    r
}

fn html_to_text(html: &str) -> (r: String)
    ensures
        r@ == html_as_text(html@),
{
    let t1 = str_replace(html, "<br>", "\n");
    let t2 = str_replace(t1.as_str(), "<br/>", "\n");
    let t3 = str_replace(t2.as_str(), "<br />", "\n");
    let t4 = str_replace(t3.as_str(), "<p>", "\n");
    let t5 = str_replace(t4.as_str(), "</p>", "\n");
    let stripped = strip_tags(t5.as_str());
    str_trim(stripped.as_str())
}

fn clone_body(b: &Option<String>) -> (r: Option<String>)
    ensures
        opt_string(r) == opt_string(*b),
{
    match b {
        Some(s) => Some(s.clone()),
        None => None,
    }
}

/// The text of a message, `None` where the part in question cannot be decoded.
pub fn extract_text_body(mail: &MailPart) -> (r: Option<String>)
    ensures
        opt_string(r) == text_body(mail@),
    decreases mail,
{
    proof {
        assert(mail@.subparts =~= part_views(mail.subparts@));
    }
    if mail.subparts.len() == 0 {
        let lower = mail.mimetype.as_str().to_lowercase();
        if str_starts_with(lower.as_str(), "text/") {
            return clone_body(&mail.body);
        }
        return Some(String::new());
    }
    if let Some(i) = find_kind(&mail.subparts, "text/plain") {
        return clone_body(&mail.subparts[i].body);
    }
    if let Some(i) = find_kind(&mail.subparts, "text/html") {
        return match &mail.subparts[i].body {
            Some(html) => Some(html_to_text(html.as_str())),
            None => None,
        };
    }
    let mut i: usize = 0;
    while i < mail.subparts.len()
        invariant
            i <= mail.subparts@.len(),
            mail@.subparts == part_views(mail.subparts@),
            text_body(mail@) == nested_body(mail@.subparts, i as int),
        decreases mail.subparts.len() - i,
    {
        proof {
            assert(decreases_to!(*mail => mail.subparts));
            assert(decreases_to!(mail.subparts => mail.subparts@));
            assert(decreases_to!(mail.subparts@ => mail.subparts@[i as int]));
        }
        match extract_text_body(&mail.subparts[i]) {
            Some(b) => {
                if !b.as_str().is_empty() {
                    return Some(b);
                }
            },
            None => {
                return None;
            },
        }
        i = i + 1;
    }
    Some(String::new())
}

/// Whether the angle brackets of a sender header are in order: a `>` does not
/// come before the first `<`.
pub open spec fn brackets_in_order(header: Seq<char>) -> bool {
    let h = trim(header);
    match (find(h, seq!['<']), find(h, seq!['>'])) {
        (Some(a), Some(b)) => a < b,
        _ => true,
    }
}

/// The name and the address of a sender header of the form `Name <address>`;
/// without brackets it is all address.
pub open spec fn from_parts(header: Seq<char>) -> (Seq<char>, Seq<char>) {
    let h = trim(header);
    match (find(h, seq!['<']), find(h, seq!['>'])) {
        (Some(a), Some(b)) => (
            trim_end_char(trim_start_char(trim(h.take(a)), '"'), '"'),
            trim(h.subrange(a + 1, b)),
        ),
        _ => (Seq::empty(), h),
    }
}

/// The name and the address of a sender header.
pub fn parse_from_header(header: &str) -> (r: (String, String))
    requires
        brackets_in_order(header@),
    ensures
        (r.0@, r.1@) == from_parts(header@),
{
    let trimmed = str_trim(header);
    let h = chars_of(trimmed.as_str());
    if let Some(a) = find_char(&h, '<') {
        if let Some(b) = find_char(&h, '>') {
            proof {
                assert(h@.subrange(0, a as int) =~= h@.take(a as int));
            }
            let before = string_of_range(&h, 0, a);
            let name = str_trim(before.as_str());
            let left = str_trim_start_char(name.as_str(), '"');
            let unquoted = str_trim_end_char(left.as_str(), '"');
            let inner = string_of_range(&h, a + 1, b);
            return (unquoted, str_trim(inner.as_str()));
        }
    }
    (String::new(), trimmed)
}

/// A message as it was read.
#[derive(Clone, Debug)]
pub struct EmailMessage {
    /// The address of the sender.
    pub from_addr: String,
    /// The name of the sender, which may be empty.
    pub from_name: String,
    pub subject: String,
    /// The text of the message.
    pub body: String,
    pub message_id: String,
}

/// Why a message could not be read.
#[derive(Clone, Copy, Debug, PartialEq, Eq, Structural)]
pub enum EmailError {
    /// It is no message.
    NoMessage,
    /// Its text cannot be decoded.
    NoText,
    /// The brackets of its sender header are out of order.
    BadSender,
}

/// The value of a header, empty where there is none.
pub open spec fn header_text(raw: Seq<u8>, name: Seq<char>) -> Seq<char> {
    match mail_header_of(raw, name) {
        Some(v) => v,
        None => Seq::empty(),
    }
}

fn header_or_empty(raw: &[u8], name: &str) -> (r: String)
    ensures
        r@ == header_text(raw@, name@),
{
    match mail_header(raw, name) {
        Some(v) => v,
        None => String::new(),
    }
}

/// Reads a raw message.
pub fn parse_email_message(raw: &[u8]) -> (r: Result<EmailMessage, EmailError>)
    ensures
        match mail_items(raw@) {
            None => r == Err::<EmailMessage, EmailError>(EmailError::NoMessage),
            Some(items) => if !brackets_in_order(header_text(raw@, "From"@)) {
                r == Err::<EmailMessage, EmailError>(EmailError::BadSender)
            } else {
                match text_body(part_at(items, 0).0) {
                    None => r == Err::<EmailMessage, EmailError>(EmailError::NoText),
                    Some(body) => r matches Ok(m) && {
                        &&& (m.from_name@, m.from_addr@) == from_parts(
                            header_text(raw@, "From"@),
                        )
                        &&& m.subject@ == header_text(raw@, "Subject"@)
                        &&& m.body@ == body
                        &&& m.message_id@ == header_text(raw@, "Message-ID"@)
                    },
                }
            },
        },
{
    let items = match mail_parts(raw) {
        Some(v) => v,
        None => {
            return Err(EmailError::NoMessage);
        },
    };
    let from = header_or_empty(raw, "From");
    if !in_order(from.as_str()) {
        return Err(EmailError::BadSender);
    }
    let (from_name, from_addr) = parse_from_header(from.as_str());
    let subject = header_or_empty(raw, "Subject");
    let message_id = header_or_empty(raw, "Message-ID");
    let (mail, _) = build_part(&items, 0);
    match extract_text_body(&mail) {
        Some(body) => Ok(EmailMessage { from_addr, from_name, subject, body, message_id }),
        None => Err(EmailError::NoText),
    }
}

fn in_order(header: &str) -> (r: bool)
    ensures
        r == brackets_in_order(header@),
{
    let trimmed = str_trim(header);
    let h = chars_of(trimmed.as_str());
    match (find_char(&h, '<'), find_char(&h, '>')) {
        (Some(a), Some(b)) => a < b,
        _ => true,
    }
}

// ---- handing messages on ----

/// The draft of a message: its subject above its text.
pub open spec fn email_draft(m: EmailMessage) -> DraftView {
    DraftView {
        sender_id: m.from_addr@,
        sender_name: if m.from_name@.len() == 0 {
            m.from_addr@
        } else {
            m.from_name@ + " <"@ + m.from_addr@ + ">"@
        },
        session_id: m.from_addr@,
        content: if m.subject@.len() == 0 {
            trim(m.body@)
        } else {
            trim("[Subject: "@ + m.subject@ + "]\n\n"@ + m.body@)
        },
        metadata: Map::empty().insert("message_id"@, JsonTree::Str(m.message_id@)).insert(
            "subject"@,
            JsonTree::Str(m.subject@),
        ),
    }
}

pub open spec fn email_drafts(s: Seq<EmailMessage>) -> Seq<DraftView> {
    Seq::new(s.len(), |i: int| email_draft(s[i]))
}

/// The draft of a message.
pub fn draft_of_email(m: &EmailMessage) -> (r: Draft)
    ensures
        r@ == email_draft(*m),
{
    let content = if m.subject.as_str().is_empty() {
        str_trim(m.body.as_str())
    } else {
        let c = cat4("[Subject: ", m.subject.as_str(), "]\n\n", m.body.as_str());
        str_trim(c.as_str())
    };
    let sender_name = if m.from_name.as_str().is_empty() {
        m.from_addr.clone()
    } else {
        cat4(m.from_name.as_str(), " <", m.from_addr.as_str(), ">")
    };
    let mut metadata: Vec<(String, Json)> = Vec::new();
    proof {
        assert(json_map(metadata@) =~= Map::empty());
    }
    put_member(&mut metadata, "message_id", Json::text(m.message_id.as_str()));
    put_member(&mut metadata, "subject", Json::text(m.subject.as_str()));
    Draft {
        sender_id: m.from_addr.clone(),
        sender_name,
        session_id: m.from_addr.clone(),
        content,
        metadata,
    }
}

/// How a mail server is spoken to.
#[derive(Clone, Copy, Debug, PartialEq, Eq, Structural)]
pub enum SmtpMode {
    /// Encrypted from the start.
    Tls,
    /// Encrypted after a greeting.
    StartTls,
}

/// How the server on a port is spoken to.
pub fn smtp_mode(port: u16) -> (r: SmtpMode)
    ensures
        r == if port == 465 {
            SmtpMode::Tls
        } else {
            SmtpMode::StartTls
        },
{
    if port == 465 {
        SmtpMode::Tls
    } else {
        SmtpMode::StartTls
    }
}

pub open spec fn number_texts(ids: Seq<u32>) -> Seq<Seq<char>> {
    Seq::new(ids.len(), |i: int| nat_text(ids[i] as nat))
}

/// The numbers of messages as the mail server expects them: with commas
/// between them.
pub fn sequence_set(ids: &Vec<u32>) -> (r: String)
    ensures
        r@ == join(number_texts(ids@), ","@),
{
    let mut parts: Vec<String> = Vec::new();
    let mut i: usize = 0;
    while i < ids.len()
        invariant
            i <= ids@.len(),
            parts@.len() == i,
            forall|k: int| 0 <= k < i ==> (#[trigger] parts@[k])@ == nat_text(ids@[k] as nat),
        decreases ids.len() - i,
    {
        parts.push(u64_text(ids[i] as u64));
        i = i + 1;
    }
    proof {
        assert(texts(parts@) =~= number_texts(ids@));
    }
    join_strings(&parts, ",")
}

/// An e-mail account.
pub struct EmailChannel {
    pub base: BaseChannel,
    pub imap_host: String,
    pub imap_port: u16,
    pub imap_username: String,
    pub imap_password: String,
    pub smtp_host: String,
    pub smtp_port: u16,
    pub smtp_username: String,
    pub smtp_password: String,
    pub from_address: String,
    /// Whether replies are sent.
    pub auto_reply_enabled: bool,
    pub poll_interval_secs: u64,
}

/// Whether the settings say that messages may be read.
pub open spec fn consents(extra: Seq<(String, String)>) -> bool {
    setting(extra, "consent_granted"@) matches Some(v) && lowercase(v) == "true"@
}

/// The first required setting that is missing, as a message.
pub open spec fn missing_setting(extra: Seq<(String, String)>) -> Option<Seq<char>> {
    if !consents(extra) {
        Some(CONSENT_TEXT@)
    } else if setting(extra, "imap_host"@) is None {
        Some("channels.email.extra.imap_host is required"@)
    } else if setting(extra, "imap_username"@) is None {
        Some("channels.email.extra.imap_username is required"@)
    } else if setting(extra, "imap_password"@) is None {
        Some("channels.email.extra.imap_password is required"@)
    } else if setting(extra, "smtp_host"@) is None {
        Some("channels.email.extra.smtp_host is required"@)
    } else {
        None
    }
}

pub const CONSENT_TEXT: &'static str =
    "Email channel requires explicit consent: set extra.consent_granted = \"true\" in your config to acknowledge that AdaClaw will read your emails.";

impl EmailChannel {
    /// A channel from its settings, which have to grant consent.
    pub fn from_extra(allow_from: Vec<String>, extra: &Vec<(String, String)>) -> (r: Result<
        EmailChannel,
        String,
    >)
        ensures
            match r {
                Ok(c) => {
                    &&& missing_setting(extra@) is None
                    &&& setting(extra@, "imap_host"@) == Some(c.imap_host@)
                    &&& c.imap_port == number_or(extra@, "imap_port"@, 0xffff, 993)
                    &&& setting(extra@, "imap_username"@) == Some(c.imap_username@)
                    &&& setting(extra@, "imap_password"@) == Some(c.imap_password@)
                    &&& setting(extra@, "smtp_host"@) == Some(c.smtp_host@)
                    &&& c.smtp_port == number_or(extra@, "smtp_port"@, 0xffff, 587)
                    &&& c.smtp_username@ == setting_or(
                        extra@,
                        "smtp_username"@,
                        c.imap_username@,
                    )
                    &&& c.smtp_password@ == setting_or(
                        extra@,
                        "smtp_password"@,
                        c.imap_password@,
                    )
                    &&& c.from_address@ == setting_or(extra@, "from_address"@, c.smtp_username@)
                    &&& c.auto_reply_enabled == !(setting(
                        extra@,
                        "auto_reply_enabled"@,
                    ) matches Some(v) && lowercase(v) == "false"@)
                    &&& c.poll_interval_secs == number_or(
                        extra@,
                        "poll_interval_secs"@,
                        u64::MAX as nat,
                        60,
                    )
                    &&& c.base.name@ == "email"@
                    &&& c.base.allow_from == allow_from
                    &&& c.base.allow_from_groups@.len() == 0
                    &&& !c.base.running
                },
                Err(e) => missing_setting(extra@) == Some(e@),
            },
    {
        let consent = match get_setting(extra, "consent_granted") {
            Some(v) => same_str(v.as_str().to_lowercase().as_str(), "true"),
            None => false,
        };
        if !consent {
            return Err(CONSENT_TEXT.to_owned());
        }
        let imap_host = match get_setting(extra, "imap_host") {
            Some(v) => v,
            None => {
                return Err("channels.email.extra.imap_host is required".to_owned());
            },
        };
        let imap_port: u64 = get_number_or(extra, "imap_port", 0xffff, 993);
        let imap_username = match get_setting(extra, "imap_username") {
            Some(v) => v,
            None => {
                return Err("channels.email.extra.imap_username is required".to_owned());
            },
        };
        let imap_password = match get_setting(extra, "imap_password") {
            Some(v) => v,
            None => {
                return Err("channels.email.extra.imap_password is required".to_owned());
            },
        };
        let smtp_host = match get_setting(extra, "smtp_host") {
            Some(v) => v,
            None => {
                return Err("channels.email.extra.smtp_host is required".to_owned());
            },
        };
        let smtp_port: u64 = get_number_or(extra, "smtp_port", 0xffff, 587);
        let smtp_username = get_setting_or(extra, "smtp_username", imap_username.as_str());
        let smtp_password = get_setting_or(extra, "smtp_password", imap_password.as_str());
        let from_address = get_setting_or(extra, "from_address", smtp_username.as_str());
        let auto_reply_enabled = match get_setting(extra, "auto_reply_enabled") {
            Some(v) => !same_str(v.as_str().to_lowercase().as_str(), "false"),
            None => true,
        };
        let poll_interval_secs: u64 = get_number_or(extra, "poll_interval_secs", u64::MAX, 60);
        Ok(
            EmailChannel {
                base: BaseChannel::new("email").with_allow_from(allow_from),
                imap_host,
                imap_port: imap_port as u16,
                imap_username,
                imap_password,
                smtp_host,
                smtp_port: smtp_port as u16,
                smtp_username,
                smtp_password,
                from_address,
                auto_reply_enabled,
                poll_interval_secs,
            },
        )
    }

    /// What one round of polling leads to: the messages of allowed senders to
    /// hand on, each under a fresh identifier; nothing after a failure.
    pub fn start(&self, polled: Option<Vec<EmailMessage>>) -> (r: Vec<InboundMessage>)
        ensures
            messages_of_drafts(
                r@,
                self.base.name@,
                match polled {
                    Some(v) => admitted(texts(self.base.allow_from@), email_drafts(v@)),
                    None => Seq::empty(),
                },
            ),
    {
        let emails = match polled {
            Some(v) => v,
            None => {
                return Vec::new();
            },
        };
        let mut drafts: Vec<Draft> = Vec::new();
        let mut i: usize = 0;
        while i < emails.len()
            invariant
                i <= emails@.len(),
                drafts@.len() == i,
                forall|k: int| 0 <= k < i ==> (#[trigger] drafts@[k])@ == email_draft(emails@[k]),
            decreases emails.len() - i,
        {
            drafts.push(draft_of_email(&emails[i]));
            i = i + 1;
        }
        proof {
            assert(draft_views(drafts@) =~= email_drafts(emails@));
        }
        self.base.handle_drafts(drafts)
    }

    /// The recipient and the text of a reply; `None` where replies are
    /// switched off or there is no text, and nothing is sent.
    pub fn send(&self, msg: &OutboundMessage) -> (r: Option<(String, String)>)
        ensures
            match r {
                Some((to, text)) => self.auto_reply_enabled && to@ == msg.target_session_id@ && (
                msg.content matches MessageContent::Text(t) && text@ == t@),
                None => !self.auto_reply_enabled || !(msg.content is Text),
            },
    {
        if !self.auto_reply_enabled {
            return None;
        }
        msg.text_target()
    }
}

/// Without consent there is no channel, whatever else is set.
pub proof fn law_email_needs_consent(extra: Seq<(String, String)>)
    requires
        !consents(extra),
    ensures
        missing_setting(extra) is Some,
{
}

} // verus!
