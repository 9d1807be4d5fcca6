//! WeCom: signed and encrypted callbacks and replies to them.
use vstd::prelude::*;
use vstd::utf8::{decode_utf8, encode_utf8, valid_utf8};
use crate::channels::base::{draft_message, opt_draft, BaseChannel, Draft, DraftView};
use crate::channels::http::{
    same_secret, STATUS_BAD_REQUEST, STATUS_FORBIDDEN, STATUS_INTERNAL_ERROR, STATUS_OK,
};
use crate::crypto::{
    aes256_cbc_decrypt, aes256_cbc_plain, base64_bytes, base64_decode, hex_encode, hex_text,
    sha1_digest, sha1_of, utf8_string,
};
use crate::json::{json_map, Json, JsonTree};
use crate::model::channel::{put_member, InboundMessage, MessageContent, OutboundMessage};
use crate::text::{
    cat2, cat3, chars_of, find, find_chars, find_from, join, join_strings, lemma_find_from,
    opt_string, same_str, starts_with, str_starts_with, str_trim, str_trim_start_char,
    string_of_range, texts, trim, trim_start_char,
};

verus! {

#[derive(Clone, Debug)]
pub struct WeComMessage {
    pub msgid: String,
    pub msgtype: String,
    pub from: WeComFrom,
    pub chatid: String,
    pub chattype: String,
    pub response_url: String,
    pub text: Option<WeComText>,
    /// What was said, as text.
    pub voice: Option<WeComText>,
    pub mixed: Option<WeComMixed>,
}

#[derive(Clone, Debug)]
pub struct WeComFrom {
    pub userid: String,
}

#[derive(Clone, Debug)]
pub struct WeComText {
    pub content: String,
}

#[derive(Clone, Debug)]
pub struct WeComMixed {
    pub msg_item: Vec<WeComMixedItem>,
}

#[derive(Clone, Debug)]
pub struct WeComMixedItem {
    pub msgtype: String,
    pub text: Option<WeComText>,
}

/// The parameters of a callback.
#[derive(Debug)]
pub struct WeComWebhookQuery {
    pub msg_signature: String,
    pub timestamp: String,
    pub nonce: String,
    pub echostr: String,
}

// ---- signatures ----

/// Whether `a` comes before or is `b` in the order of character codes.
pub open spec fn text_le(a: Seq<char>, b: Seq<char>) -> bool
    decreases a.len(),
{
    if a.len() == 0 {
        true
    } else if b.len() == 0 {
        false
    } else if a[0] == b[0] {
        text_le(a.drop_first(), b.drop_first())
    } else {
        a[0] < b[0]
    }
}

/// The sorted texts with `x` put before the first one it does not follow.
pub open spec fn insert_text(s: Seq<Seq<char>>, x: Seq<char>) -> Seq<Seq<char>>
    decreases s.len(),
{
    if s.len() == 0 {
        seq![x]
    } else if text_le(x, s[0]) {
        seq![x] + s
    } else {
        seq![s[0]] + insert_text(s.drop_first(), x)
    }
}

/// The texts in order.
pub open spec fn sort_texts(s: Seq<Seq<char>>) -> Seq<Seq<char>>
    decreases s.len(),
{
    if s.len() == 0 {
        s
    } else {
        insert_text(sort_texts(s.drop_last()), s.last())
    }
}

fn str_le(a: &str, b: &str) -> (r: bool)
    ensures
        r == text_le(a@, b@),
{
    let x = chars_of(a);
    let y = chars_of(b);
    let mut i: usize = 0;
    proof {
        assert(x@.skip(0) =~= x@);
        assert(y@.skip(0) =~= y@);
    }
    while i < x.len() && i < y.len() && x[i] == y[i]
        invariant
            i <= x@.len(),
            i <= y@.len(),
            text_le(x@, y@) == text_le(x@.skip(i as int), y@.skip(i as int)),
        decreases x.len() - i,
    {
        proof {
            assert(x@.skip(i as int).drop_first() =~= x@.skip(i + 1));
            assert(y@.skip(i as int).drop_first() =~= y@.skip(i + 1));
        }
        i = i + 1;
    }
    if i == x.len() {
        true
    } else if i == y.len() {
        false
    } else {
        x[i] < y[i]
    }
}

fn insert_string(v: &mut Vec<String>, x: String)
    ensures
        texts(final(v)@) == insert_text(texts(old(v)@), x@),
{
    let ghost all = texts(v@);
    let mut i: usize = 0;
    proof {
        assert(all.skip(0) =~= all);
        assert(all.take(0) + insert_text(all.skip(0), x@) =~= insert_text(all, x@));
    }
    while i < v.len() && !str_le(x.as_str(), v[i].as_str())
        invariant
            i <= v@.len(),
            all == texts(v@),
            insert_text(all, x@) == all.take(i as int) + insert_text(all.skip(i as int), x@),
        decreases v.len() - i,
    {
        proof {
            assert(all[i as int] == v@[i as int]@);
            assert(all.skip(i as int).drop_first() =~= all.skip(i + 1));
            assert(all.take(i as int) + (seq![all[i as int]] + insert_text(all.skip(i + 1), x@))
                =~= all.take(i + 1) + insert_text(all.skip(i + 1), x@));
        }
        i = i + 1;
    }
    let ghost before = v@;
    v.insert(i, x);
    proof {
        let rest = all.skip(i as int);
        if i < all.len() {
            assert(rest[0] == before[i as int]@);
            assert(insert_text(rest, x@) == seq![x@] + rest);
        } else {
            assert(insert_text(rest, x@) =~= seq![x@] + rest);
        }
        assert(texts(v@) =~= all.take(i as int) + (seq![x@] + rest));
    }
}

/// Sorting keeps the texts, each as often as it was there, and puts each next
/// to one it does not precede.
pub proof fn law_sorted_texts(s: Seq<Seq<char>>)
    ensures
        sort_texts(s).to_multiset() == s.to_multiset(),
        forall|i: int|
            #![trigger sort_texts(s)[i]]
            0 <= i < sort_texts(s).len() - 1 ==> text_le(sort_texts(s)[i], sort_texts(s)[i + 1]),
    decreases s.len(),
{
    broadcast use vstd::seq_lib::group_to_multiset_ensures;

    if s.len() > 0 {
        law_sorted_texts(s.drop_last());
        lemma_insert_text(sort_texts(s.drop_last()), s.last());
        assert(s =~= s.drop_last().push(s.last()));
    }
}

proof fn lemma_insert_text(s: Seq<Seq<char>>, x: Seq<char>)
    requires
        forall|i: int|
            #![trigger s[i]]
            0 <= i < s.len() - 1 ==> text_le(s[i], s[i + 1]),
    ensures
        insert_text(s, x).to_multiset() == s.to_multiset().insert(x),
        insert_text(s, x).len() == s.len() + 1,
        insert_text(s, x)[0] == x || (s.len() > 0 && insert_text(s, x)[0] == s[0]),
        forall|i: int|
            #![trigger insert_text(s, x)[i]]
            0 <= i < insert_text(s, x).len() - 1 ==> text_le(
                insert_text(s, x)[i],
                insert_text(s, x)[i + 1],
            ),
    decreases s.len(),
{
    broadcast use vstd::seq_lib::group_to_multiset_ensures;

    let r = insert_text(s, x);
    if s.len() == 0 {
        assert(r =~= s.push(x));
    } else if text_le(x, s[0]) {
        assert(r =~= s.insert(0, x));
        assert forall|i: int|
            #![trigger r[i]]
            0 <= i < r.len() - 1 implies text_le(r[i], r[i + 1]) by {
            if i > 0 {
                assert(r[i] == s[i - 1]);
                assert(r[i + 1] == s[i]);
                assert(text_le(s[i - 1], s[(i - 1) + 1]));
            }
        }
    } else {
        let tail = s.drop_first();
        assert forall|i: int|
            #![trigger tail[i]]
            0 <= i < tail.len() - 1 implies text_le(tail[i], tail[i + 1]) by {
            assert(tail[i] == s[i + 1]);
            assert(text_le(s[i + 1], s[(i + 1) + 1]));
        }
        lemma_insert_text(tail, x);
        lemma_text_le_total(x, s[0]);
        let rest = insert_text(tail, x);
        assert(r =~= seq![s[0]] + rest);
        assert(s =~= seq![s[0]] + tail);
        assert(r =~= rest.insert(0, s[0]));
        assert(s =~= tail.insert(0, s[0]));
        assert forall|i: int|
            #![trigger r[i]]
            0 <= i < r.len() - 1 implies text_le(r[i], r[i + 1]) by {
            if i == 0 {
                assert(r[1] == rest[0]);
                if tail.len() > 0 {
                    assert(tail[0] == s[1]);
                    assert(text_le(s[0], s[0int + 1]));
                }
            } else {
                assert(r[i] == rest[i - 1]);
                assert(r[i + 1] == rest[i]);
                assert(text_le(rest[i - 1], rest[(i - 1) + 1]));
            }
        }
    }
}

proof fn lemma_text_le_total(a: Seq<char>, b: Seq<char>)
    ensures
        text_le(a, b) || text_le(b, a),
    decreases a.len(),
{
    if a.len() > 0 && b.len() > 0 && a[0] == b[0] {
        lemma_text_le_total(a.drop_first(), b.drop_first());
    }
}

/// The signature that a callback has to carry: the digest of the token and
/// what is signed, sorted and joined.
pub open spec fn callback_signature(
    token: Seq<char>,
    timestamp: Seq<char>,
    nonce: Seq<char>,
    encrypted: Seq<char>,
) -> Seq<char> {
    hex_text(
        sha1_of(
            encode_utf8(join(sort_texts(seq![token, timestamp, nonce, encrypted]), ""@)),
        ),
    )
}

/// Whether a callback is to be accepted: without a token every one is.
pub open spec fn callback_accepted(
    token: Seq<char>,
    signature: Seq<char>,
    timestamp: Seq<char>,
    nonce: Seq<char>,
    encrypted: Seq<char>,
) -> bool {
    token.len() == 0 || signature == callback_signature(token, timestamp, nonce, encrypted)
}

// ---- decryption ----

/// Why a message could not be decrypted.
#[derive(Clone, Copy, Debug, PartialEq, Eq, Structural)]
pub enum DecryptError {
    /// There is no key.
    NoKey,
    /// The key is no Base64.
    BadKey,
    /// The key has not 32 bytes but this many.
    KeyLength(usize),
    /// The message is no Base64.
    BadMessage,
    /// The message is no whole number of blocks.
    BadBlocks,
    /// The message is empty.
    Empty,
    /// The padding is of this length, which is not 1 to 32.
    BadPadding(u8),
    /// The padding is longer than the message.
    PaddingOverrun,
    /// Without its padding the message has only this many bytes.
    TooShort(usize),
    /// The message claims to have this many bytes, which are not there.
    BadLength(u32),
    /// The message is no UTF-8.
    NotText,
}

/// The number that four bytes denote, the first the most significant.
pub open spec fn be_number(b: Seq<u8>) -> int {
    ((b[0] as int * 256 + b[1] as int) * 256 + b[2] as int) * 256 + b[3] as int
}

/// Whether the padding of a decrypted message is of a length that is allowed
/// but greater than that of the message.
pub open spec fn padding_overruns(plain: Seq<u8>) -> bool {
    plain.len() > 0 && 1 <= plain.last() <= 32 && plain.last() > plain.len()
}

/// What a decrypted message says: 16 random bytes, the length in four bytes,
/// the text, an identifier that is ignored, and padding of 1 to 32 bytes, each
/// of which is its length.
pub open spec fn framed_text(plain: Seq<u8>) -> Result<Seq<char>, DecryptError> {
    if plain.len() == 0 {
        Err(DecryptError::Empty)
    } else if !(1 <= plain.last() <= 32) {
        Err(DecryptError::BadPadding(plain.last()))
    } else {
        let data = plain.take(plain.len() - plain.last());
        if data.len() < 20 {
            Err(DecryptError::TooShort(data.len() as usize))
        } else {
            let n = be_number(data.subrange(16, 20));
            if data.len() < 20 + n {
                Err(DecryptError::BadLength(n as u32))
            } else if !valid_utf8(data.subrange(20, 20 + n)) {
                Err(DecryptError::NotText)
            } else {
                Ok(decode_utf8(data.subrange(20, 20 + n)))
            }
        }
    }
}

pub open spec fn result_text(r: Result<String, DecryptError>) -> Result<Seq<char>, DecryptError> {
    match r {
        Ok(s) => Ok(s@),
        Err(e) => Err(e),
    }
}

/// What a decrypted message says.
pub fn unframe(plain: &Vec<u8>) -> (r: Result<String, DecryptError>)
    requires
        !padding_overruns(plain@),
    ensures
        result_text(r) == framed_text(plain@),
{
    let len: usize = plain.len();
    if len == 0 {
        return Err(DecryptError::Empty);
    }
    let pad: u8 = plain[len - 1];
    if pad == 0 || pad > 32 {
        return Err(DecryptError::BadPadding(pad));
    }
    let end: usize = len - pad as usize;
    let ghost data = plain@.take(end as int);
    if end < 20 {
        return Err(DecryptError::TooShort(end));
    }
    let n: u32 = ((plain[16] as u32 * 256 + plain[17] as u32) * 256 + plain[18] as u32) * 256
        + plain[19] as u32;
    proof {
        assert(data.subrange(16, 20) =~= seq![plain@[16], plain@[17], plain@[18], plain@[19]]);
        assert(n == be_number(data.subrange(16, 20)));
    }
    if end - 20 < n as usize {
        return Err(DecryptError::BadLength(n));
    }
    let mut text: Vec<u8> = Vec::new();
    let stop: usize = 20 + n as usize;
    let mut i: usize = 20;
    while i < stop
        invariant
            20 <= i <= stop <= end <= plain@.len(),
            text@ == plain@.subrange(20, i as int),
        decreases stop - i,
    {
        text.push(plain[i]);
        proof {
            assert(plain@.subrange(20, i + 1) =~= plain@.subrange(20, i as int).push(
                plain@[i as int],
            ));
        }
        i = i + 1;
    }
    proof {
        assert(text@ =~= data.subrange(20, 20 + n));
    }
    match utf8_string(text) {
        Some(s) => Ok(s),
        None => Err(DecryptError::NotText),
    }
}

/// What an encrypted message says under an encoded key; the initial vector is
/// the first half of the key.
pub open spec fn decrypted_text(key_text: Option<String>, encrypted: Seq<char>) -> Result<
    Seq<char>,
    DecryptError,
> {
    match key_text {
        None => Err(DecryptError::NoKey),
        Some(k) => match base64_bytes(k@ + "="@) {
            None => Err(DecryptError::BadKey),
            Some(key) => if key.len() != 32 {
                Err(DecryptError::KeyLength(key.len() as usize))
            } else {
                match base64_bytes(encrypted) {
                    None => Err(DecryptError::BadMessage),
                    Some(data) => match aes256_cbc_plain(key, key.take(16), data) {
                        None => Err(DecryptError::BadBlocks),
                        Some(plain) => if padding_overruns(plain) {
                            Err(DecryptError::PaddingOverrun)
                        } else {
                            framed_text(plain)
                        },
                    },
                }
            },
        },
    }
}

// ---- callbacks ----

/// What stands between the first `<tag>` and the next `</tag>`, without white
/// space at its ends.
pub open spec fn xml_tag(xml: Seq<char>, tag: Seq<char>) -> Option<Seq<char>> {
    let open = "<"@ + tag + ">"@;
    let close = "</"@ + tag + ">"@;
    match find(xml, open) {
        Some(i) => match find_from(xml, close, i + open.len()) {
            Some(j) => Some(trim(xml.subrange(i + open.len(), j))),
            None => None,
        },
        None => None,
    }
}

/// What stands between the first `<tag>` and the next `</tag>`.
pub fn extract_xml_tag(xml: &str, tag: &str) -> (r: Option<String>)
    ensures
        opt_string(r) == xml_tag(xml@, tag@),
{
    let x = chars_of(xml);
    let open_text = cat3("<", tag, ">");
    let close_text = cat3("</", tag, ">");
    let open = chars_of(open_text.as_str());
    let close = chars_of(close_text.as_str());
    let n: usize = x.len();
    proof {
        lemma_find_from(x@, open@, 0);
    }
    let i: usize = match find_chars(&x, &open, 0) {
        Some(i) => i,
        None => {
            return None;
        },
    };
    let start: usize = i + open.len();
    proof {
        lemma_find_from(x@, close@, start as int);
    }
    match find_chars(&x, &close, start) {
        Some(j) => {
            let inner = string_of_range(&x, start, j);
            Some(str_trim(inner.as_str()))
        },
        None => None,
    }
}

/// The encrypted part of a callback.
pub fn quick_xml_parse(xml: &str) -> (r: Result<String, String>)
    ensures
        match r {
            Ok(s) => xml_tag(xml@, "Encrypt"@) == Some(s@),
            Err(e) => xml_tag(xml@, "Encrypt"@) is None && e@ == "Missing <Encrypt> tag in XML"@,
        },
{
    match extract_xml_tag(xml, "Encrypt") {
        Some(s) => Ok(s),
        None => Err("Missing <Encrypt> tag in XML".to_owned()),
    }
}

/// What the callback handlers know of the app.
pub struct WeComState {
    pub base: BaseChannel,
    pub token: String,
    pub encoding_aes_key: Option<String>,
    /// The messages that were processed of late.
    pub processed_msgs: Vec<String>,
}

/// The messages remembered after `id` was seen: it is added, and the others
/// are forgotten once there are more than a thousand.
pub open spec fn remembered(ids: Seq<Seq<char>>, id: Seq<char>) -> Seq<Seq<char>> {
    if ids.contains(id) {
        ids
    } else if ids.len() > 1000 {
        seq![id]
    } else {
        ids.push(id)
    }
}

/// The texts of a message of several parts.
pub open spec fn mixed_texts(items: Seq<WeComMixedItem>) -> Seq<Seq<char>>
    decreases items.len(),
{
    if items.len() == 0 {
        Seq::empty()
    } else {
        let head = mixed_texts(items.drop_last());
        if items.last().msgtype@ == "text"@ && items.last().text is Some {
            head.push(items.last().text->0.content@)
        } else {
            head
        }
    }
}

/// What a message says.
pub open spec fn message_text(msg: WeComMessage) -> Option<Seq<char>> {
    if msg.msgtype@ == "text"@ {
        match msg.text {
            Some(t) => Some(t.content@),
            None => None,
        }
    } else if msg.msgtype@ == "voice"@ {
        match msg.voice {
            Some(v) => Some(v.content@),
            None => None,
        }
    } else if msg.msgtype@ == "mixed"@ {
        match msg.mixed {
            Some(m) => Some(join(mixed_texts(m.msg_item@), " "@)),
            None => None,
        }
    } else {
        None
    }
}

/// The draft of a message, if it says anything.
pub open spec fn wecom_draft(msg: WeComMessage) -> Option<DraftView> {
    let base = Map::empty().insert("msg_id"@, JsonTree::Str(msg.msgid@)).insert(
        "msg_type"@,
        JsonTree::Str(msg.msgtype@),
    ).insert("chat_type"@, JsonTree::Str(msg.chattype@)).insert(
        "response_url"@,
        JsonTree::Str(msg.response_url@),
    );
    match message_text(msg) {
        Some(t) => if t.len() == 0 {
            None
        } else {
            Some(
                DraftView {
                    sender_id: msg.from.userid@,
                    sender_name: msg.from.userid@,
                    session_id: msg.response_url@,
                    content: t,
                    metadata: if msg.chatid@.len() == 0 {
                        base
                    } else {
                        base.insert("chat_id"@, JsonTree::Str(msg.chatid@))
                    },
                },
            )
        },
        None => None,
    }
}

fn text_of_items(items: &Vec<WeComMixedItem>) -> (r: Vec<String>)
    ensures
        texts(r@) == mixed_texts(items@),
{
    let mut out: Vec<String> = Vec::new();
    let mut i: usize = 0;
    proof {
        assert(items@.take(0) =~= Seq::<WeComMixedItem>::empty());
        assert(texts(out@) =~= Seq::<Seq<char>>::empty());
    }
    while i < items.len()
        invariant
            i <= items@.len(),
            texts(out@) == mixed_texts(items@.take(i as int)),
        decreases items.len() - i,
    {
        let ghost before = texts(out@);
        proof {
            assert(items@.take(i + 1).drop_last() =~= items@.take(i as int));
        }
        if same_str(items[i].msgtype.as_str(), "text") {
            if let Some(t) = &items[i].text {
                out.push(t.content.clone());
                proof {
                    assert(texts(out@) =~= before.push(t.content@));
                }
            }
        }
        i = i + 1;
    }
    proof {
        assert(items@.take(items@.len() as int) =~= items@);
    }
    out
}

fn text_of_message(msg: &WeComMessage) -> (r: Option<String>)
    ensures
        opt_string(r) == message_text(*msg),
{
    if same_str(msg.msgtype.as_str(), "text") {
        match &msg.text {
            Some(t) => Some(t.content.clone()),
            None => None,
        }
    } else if same_str(msg.msgtype.as_str(), "voice") {
        match &msg.voice {
            Some(v) => Some(v.content.clone()),
            None => None,
        }
    } else if same_str(msg.msgtype.as_str(), "mixed") {
        match &msg.mixed {
            Some(m) => {
                let parts = text_of_items(&m.msg_item);
                Some(join_strings(&parts, " "))
            },
            None => None,
        }
    } else {
        None
    }
}

fn draft_of_message(msg: &WeComMessage) -> (r: Option<Draft>)
    ensures
        opt_draft(r) == wecom_draft(*msg),
{
    let content = match text_of_message(msg) {
        Some(t) => t,
        None => {
            return None;
        },
    };
    if content.as_str().is_empty() {
        return None;
    }
    let mut metadata: Vec<(String, Json)> = Vec::new();
    proof {
        assert(json_map(metadata@) =~= Map::empty());
    }
    put_member(&mut metadata, "msg_id", Json::text(msg.msgid.as_str()));
    put_member(&mut metadata, "msg_type", Json::text(msg.msgtype.as_str()));
    put_member(&mut metadata, "chat_type", Json::text(msg.chattype.as_str()));
    put_member(&mut metadata, "response_url", Json::text(msg.response_url.as_str()));
    if !msg.chatid.as_str().is_empty() {
        put_member(&mut metadata, "chat_id", Json::text(msg.chatid.as_str()));
    }
    Some(
        Draft {
            sender_id: msg.from.userid.clone(),
            sender_name: msg.from.userid.clone(),
            session_id: msg.response_url.clone(),
            content,
            metadata,
        },
    )
}

impl WeComState {
    /// No message is remembered twice, and at most 1001 are remembered.
    pub open spec fn wf(&self) -> bool {
        texts(self.processed_msgs@).no_duplicates() && self.processed_msgs@.len() <= 1001
    }

    /// Whether the signature of a callback is right.
    pub fn verify_signature(
        &self,
        msg_signature: &str,
        timestamp: &str,
        nonce: &str,
        msg_encrypt: &str,
    ) -> (r: bool)
        ensures
            r == callback_accepted(
                self.token@,
                msg_signature@,
                timestamp@,
                nonce@,
                msg_encrypt@,
            ),
    {
        if self.token.as_str().is_empty() {
            return true;
        }
        let mut sorted: Vec<String> = Vec::new();
        proof {
            assert(texts(sorted@) =~= Seq::<Seq<char>>::empty());
            let all = seq![self.token@, timestamp@, nonce@, msg_encrypt@];
            assert(all.drop_last() =~= seq![self.token@, timestamp@, nonce@]);
            assert(all.drop_last().drop_last() =~= seq![self.token@, timestamp@]);
            assert(all.drop_last().drop_last().drop_last() =~= seq![self.token@]);
            assert(all.drop_last().drop_last().drop_last().drop_last() =~= Seq::<
                Seq<char>,
            >::empty());
            reveal_with_fuel(sort_texts, 5);
        }
        insert_string(&mut sorted, self.token.clone());
        insert_string(&mut sorted, timestamp.to_owned());
        insert_string(&mut sorted, nonce.to_owned());
        insert_string(&mut sorted, msg_encrypt.to_owned());
        let joined = join_strings(&sorted, "");
        let digest = sha1_digest(joined.as_str().as_bytes());
        let expected = hex_encode(digest.as_slice());
        same_secret(expected.as_str(), msg_signature)
    }

    /// What an encrypted message says.
    pub fn decrypt_message(&self, encrypted_msg: &str) -> (r: Result<String, DecryptError>)
        ensures
            result_text(r) == decrypted_text(self.encoding_aes_key, encrypted_msg@),
    {
        let key_text = match &self.encoding_aes_key {
            Some(k) => cat2(k.as_str(), "="),
            None => {
                return Err(DecryptError::NoKey);
            },
        };
        let key = match base64_decode(key_text.as_str()) {
            Some(k) => k,
            None => {
                return Err(DecryptError::BadKey);
            },
        };
        if key.len() != 32 {
            return Err(DecryptError::KeyLength(key.len()));
        }
        let data = match base64_decode(encrypted_msg) {
            Some(d) => d,
            None => {
                return Err(DecryptError::BadMessage);
            },
        };
        let mut iv: Vec<u8> = Vec::new();
        let mut i: usize = 0;
        while i < 16
            invariant
                i <= 16,
                key@.len() == 32,
                iv@ == key@.take(i as int),
            decreases 16 - i,
        {
            iv.push(key[i]);
            proof {
                assert(key@.take(i + 1) =~= key@.take(i as int).push(key@[i as int]));
            }
            i = i + 1;
        }
        let plain = match aes256_cbc_decrypt(key.as_slice(), iv.as_slice(), data.as_slice()) {
            Some(p) => p,
            None => {
                return Err(DecryptError::BadBlocks);
            },
        };
        let len: usize = plain.len();
        if len > 0 {
            let pad: u8 = plain[len - 1];
            if 1 <= pad && pad <= 32 && pad as usize > len {
                return Err(DecryptError::PaddingOverrun);
            }
        }
        unframe(&plain)
    }

    /// Whether a message was processed before; it counts as processed from
    /// then on.
    pub fn is_duplicate(&mut self, msg_id: &str) -> (r: bool)
        requires
            old(self).wf(),
        ensures
            r == texts(old(self).processed_msgs@).contains(msg_id@),
            texts(final(self).processed_msgs@) == remembered(
                texts(old(self).processed_msgs@),
                msg_id@,
            ),
            final(self).wf(),
            final(self).base == old(self).base,
            final(self).token == old(self).token,
            final(self).encoding_aes_key == old(self).encoding_aes_key,
    {
        let ghost all = texts(self.processed_msgs@);
        let mut i: usize = 0;
        while i < self.processed_msgs.len()
            invariant
                i <= self.processed_msgs@.len(),
                all == texts(self.processed_msgs@),
                self == old(self),
                old(self).wf(),
                forall|k: int| 0 <= k < i ==> #[trigger] all[k] != msg_id@,
            decreases self.processed_msgs.len() - i,
        {
            if same_str(self.processed_msgs[i].as_str(), msg_id) {
                proof {
                    assert(all[i as int] == msg_id@);
                }
                return true;
            }
            proof {
                assert(all[i as int] != msg_id@);
            }
            i = i + 1;
        }
        if self.processed_msgs.len() > 1000 {
            self.processed_msgs = Vec::new();
        }
        let ghost kept = texts(self.processed_msgs@);
        self.processed_msgs.push(msg_id.to_owned());
        proof {
            assert(texts(self.processed_msgs@) =~= kept.push(msg_id@));
            assert(texts(self.processed_msgs@) =~= remembered(all, msg_id@));
        }
        false
    }
}

/// A message that was seen is a duplicate the next time.
pub proof fn law_seen_message_is_duplicate(ids: Seq<Seq<char>>, id: Seq<char>)
    ensures
        remembered(ids, id).contains(id),
{
    if !ids.contains(id) {
        let r = remembered(ids, id);
        assert(r[r.len() - 1] == id);
    }
}

/// Answers a verification of the callback address: the decrypted challenge.
pub fn handle_wecom_verify(state: &WeComState, params: &WeComWebhookQuery) -> (r: (u16, String))
    ensures
        if !callback_accepted(
            state.token@,
            params.msg_signature@,
            params.timestamp@,
            params.nonce@,
            params.echostr@,
        ) {
            r.0 == STATUS_FORBIDDEN && r.1@.len() == 0
        } else {
            match decrypted_text(state.encoding_aes_key, params.echostr@) {
                Ok(t) => r.0 == STATUS_OK && r.1@ == trim_start_char(trim(t), '\u{FEFF}'),
                Err(_) => r.0 == STATUS_INTERNAL_ERROR && r.1@.len() == 0,
            }
        },
{
    if !state.verify_signature(
        params.msg_signature.as_str(),
        params.timestamp.as_str(),
        params.nonce.as_str(),
        params.echostr.as_str(),
    ) {
        return (STATUS_FORBIDDEN, String::new());
    }
    match state.decrypt_message(params.echostr.as_str()) {
        Ok(plain) => {
            let t = str_trim(plain.as_str());
            (STATUS_OK, str_trim_start_char(t.as_str(), '\u{FEFF}'))
        },
        Err(_) => (STATUS_INTERNAL_ERROR, String::new()),
    }
}

/// Opens a callback: the text of the message, which is JSON, or the status of
/// the refusal.
pub fn handle_wecom_message(state: &WeComState, params: &WeComWebhookQuery, body: &str) -> (r:
    Result<String, u16>)
    ensures
        match xml_tag(body@, "Encrypt"@) {
            None => r == Err::<String, u16>(STATUS_BAD_REQUEST),
            Some(encrypted) => if !callback_accepted(
                state.token@,
                params.msg_signature@,
                params.timestamp@,
                params.nonce@,
                encrypted,
            ) {
                r == Err::<String, u16>(STATUS_FORBIDDEN)
            } else {
                match decrypted_text(state.encoding_aes_key, encrypted) {
                    Ok(t) => r matches Ok(s) && s@ == t,
                    Err(_) => r == Err::<String, u16>(STATUS_INTERNAL_ERROR),
                }
            },
        },
{
    let encrypted = match quick_xml_parse(body) {
        Ok(e) => e,
        Err(_) => {
            return Err(STATUS_BAD_REQUEST);
        },
    };
    if !state.verify_signature(
        params.msg_signature.as_str(),
        params.timestamp.as_str(),
        params.nonce.as_str(),
        encrypted.as_str(),
    ) {
        return Err(STATUS_FORBIDDEN);
    }
    match state.decrypt_message(encrypted.as_str()) {
        Ok(t) => Ok(t),
        Err(_) => Err(STATUS_INTERNAL_ERROR),
    }
}

/// Processes a message: the one to hand on, if it was not processed before,
/// says anything and its sender is allowed.
pub fn process_wecom_message(state: &mut WeComState, msg: &WeComMessage) -> (r: Option<
    InboundMessage,
>)
    requires
        old(state).wf(),
    ensures
        ({
            let seen = texts(old(state).processed_msgs@);
            let duplicate = msg.msgid@.len() > 0 && seen.contains(msg.msgid@);
            let draft = wecom_draft(*msg);
            &&& r is Some == (!duplicate && draft is Some && old(state).base.allowed(
                draft->0.sender_id,
            ))
            &&& r matches Some(m) ==> m@ == draft_message(m.id@, old(state).base.name@, draft->0)
            &&& texts(final(state).processed_msgs@) == if msg.msgid@.len() > 0 {
                remembered(seen, msg.msgid@)
            } else {
                seen
            }
        }),
        final(state).wf(),
        final(state).base == old(state).base,
        final(state).token == old(state).token,
        final(state).encoding_aes_key == old(state).encoding_aes_key,
{
    if !msg.msgid.as_str().is_empty() {
        if state.is_duplicate(msg.msgid.as_str()) {
            return None;
        }
    }
    match draft_of_message(msg) {
        Some(d) => state.base.handle_draft(d),
        None => None,
    }
}

/// The settings of a WeCom channel.
pub struct WeComChannel {
    pub base: BaseChannel,
    pub token: String,
    pub encoding_aes_key: Option<String>,
    pub webhook_port: u16,
    pub webhook_path: String,
}

impl WeComChannel {
    pub fn new(
        token: String,
        encoding_aes_key: Option<String>,
        allow_from: Vec<String>,
        webhook_port: u16,
        webhook_path: String,
    ) -> (r: WeComChannel)
        ensures
            r.base.name@ == "wechat_work"@,
            r.base.allow_from == allow_from,
            r.base.allow_from_groups@.len() == 0,
            !r.base.running,
            r.token == token,
            r.encoding_aes_key == encoding_aes_key,
            r.webhook_port == webhook_port,
            r.webhook_path == webhook_path,
    {
        WeComChannel {
            base: BaseChannel::new("wechat_work").with_allow_from(allow_from),
            token,
            encoding_aes_key,
            webhook_port,
            webhook_path,
        }
    }

    /// The address and the body of the request that replies to a message;
    /// `None` where there is no text and nothing is sent.
    pub fn send(&self, msg: &OutboundMessage) -> (r: Result<Option<(String, Json)>, String>)
        ensures
            match r {
                Ok(Some((url, body))) => url@ == msg.target_session_id@ && starts_with(
                    url@,
                    "http"@,
                ) && (msg.content matches MessageContent::Text(t) && body@ == JsonTree::Obj(
                    Map::empty().insert("msgtype"@, JsonTree::Str("text"@)).insert(
                        "text"@,
                        JsonTree::Obj(Map::empty().insert("content"@, JsonTree::Str(t@))),
                    ),
                )),
                Ok(None) => starts_with(msg.target_session_id@, "http"@) && !(msg.content is Text),
                Err(e) => !starts_with(msg.target_session_id@, "http"@) && e@
                    == "WeCom: invalid session_id (expected response_url): '"@
                    + msg.target_session_id@ + "'"@,
            },
    {
        if !str_starts_with(msg.target_session_id.as_str(), "http") {
            return Err(
                cat3(
                    "WeCom: invalid session_id (expected response_url): '",
                    msg.target_session_id.as_str(),
                    "'",
                ),
            );
        }
        match &msg.content {
            MessageContent::Text(t) => {
                let body = Json::obj().with("msgtype", Json::text("text")).with(
                    "text",
                    Json::obj().with("content", Json::text(t.as_str())),
                );
                Ok(Some((msg.target_session_id.clone(), body)))
            },
            _ => Ok(None),
        }
    }
}

} // verus!
