//! What a conversation is about: whether a message stays with the topic,
//! drifts from it or turns to another one.
use vstd::prelude::*;
use crate::memory::query::distinct;
use crate::model::channel::fresh_uuid;
use crate::model::memory::{RecallScope, ScopeView};
use crate::providers::openai_compat::str_views;
use crate::text::{
    alphanumeric, byte_len, chars_of, lowercase, same_str, string_of_range, texts,
};

verus! {

/// How many of the latest messages are looked at.
pub const ROLLING_WINDOW: usize = 5;

/// What a message does to the topic.
#[derive(Clone, Debug, PartialEq)]
pub enum TopicSwitchResult {
    /// It stays with the topic.
    SameTopic,
    /// It drifts from the topic.
    PartialDrift,
    /// It turns to another topic.
    Switched { new_topic_id: String },
}

impl TopicSwitchResult {
    /// How much of memory is reached then.
    pub open spec fn scope(&self) -> ScopeView {
        match *self {
            TopicSwitchResult::SameTopic => ScopeView::Full,
            TopicSwitchResult::PartialDrift => ScopeView::FactsOnly,
            TopicSwitchResult::Switched { new_topic_id } => ScopeView::CurrentTopic {
                topic_id: new_topic_id@,
            },
        }
    }

    /// How much of memory is reached then.
    pub fn to_recall_scope(&self) -> (r: RecallScope)
        ensures
            r@ == self.scope(),
    {
        match self {
            TopicSwitchResult::SameTopic => RecallScope::Full,
            TopicSwitchResult::PartialDrift => RecallScope::FactsOnly,
            TopicSwitchResult::Switched { new_topic_id } => RecallScope::CurrentTopic {
                topic_id: new_topic_id.clone(),
            },
        }
    }
}

/// How alike a message is to those before it, by its embedding.
#[derive(Clone, Copy, Debug, PartialEq, Eq, Structural)]
pub enum Likeness {
    /// There is nothing to compare with.
    NoBaseline,
    /// At least 0.6.
    Same,
    /// At least 0.3.
    Related,
    /// Less.
    Apart,
}

// ---- words ----

/// Words that say nothing about a topic.
pub open spec fn stop_words() -> Seq<Seq<char>> {
    seq![
        "the"@, "a"@, "an"@, "is"@, "are"@, "was"@, "were"@, "be"@, "been"@, "being"@, "have"@,
        "has"@, "had"@, "do"@, "does"@, "did"@, "will"@, "would"@, "shall"@, "should"@, "may"@,
        "might"@, "must"@, "can"@, "could"@, "to"@, "of"@, "in"@, "on"@, "at"@, "by"@, "for"@,
        "with"@, "about"@, "as"@, "from"@, "that"@, "this"@, "it"@, "its"@, "and"@, "or"@,
        "but"@, "not"@, "no"@, "so"@, "if"@, "then"@, "than"@, "when"@, "my"@, "your"@, "his"@,
        "her"@, "our"@, "their"@, "we"@, "you"@, "they"@, "he"@, "she"@, "me"@, "him"@, "us"@,
        "them"@, "what"@, "which"@, "who"@, "how"@, "我"@, "你"@, "他"@, "她"@, "它"@, "我们"@, "你们"@,
        "他们"@, "这"@, "那"@, "是"@, "的"@, "了"@, "在"@, "和"@, "也"@, "都"@, "就"@, "不"@, "很"@, "会"@,
        "要"@, "有"@,
    ]
}

fn is_stop_word(w: &str) -> (r: bool)
    ensures
        r == stop_words().contains(w@),
{
    let list: Vec<&'static str> = vec![
        "the", "a", "an", "is", "are", "was", "were", "be", "been", "being", "have", "has",
        "had", "do", "does", "did", "will", "would", "shall", "should", "may", "might", "must",
        "can", "could", "to", "of", "in", "on", "at", "by", "for", "with", "about", "as",
        "from", "that", "this", "it", "its", "and", "or", "but", "not", "no", "so", "if",
        "then", "than", "when", "my", "your", "his", "her", "our", "their", "we", "you",
        "they", "he", "she", "me", "him", "us", "them", "what", "which", "who", "how", "我",
        "你", "他", "她", "它", "我们", "你们", "他们", "这", "那", "是", "的", "了", "在", "和", "也", "都", "就",
        "不", "很", "会", "要", "有",
    ];
    proof {
        assert(str_views(list@) =~= stop_words());
    }
    let mut i: usize = 0;
    while i < list.len()
        invariant
            i <= list@.len(),
            str_views(list@) == stop_words(),
            forall|j: int| 0 <= j < i ==> (#[trigger] list@[j])@ != w@,
        decreases list.len() - i,
    {
        if same_str(list[i], w) {
            proof {
                assert(str_views(list@)[i as int] == w@);
            }
            return true;
        }
        i = i + 1;
    }
    proof {
        assert forall|j: int| 0 <= j < stop_words().len() implies stop_words()[j] != w@ by {
            assert(str_views(list@)[j] == list@[j]@);
        }
    }
    false
}

pub open spec fn word_char(c: char) -> bool {
    alphanumeric(c) || c == '_'
}

/// The pieces of a text between characters that are no part of a word, and the
/// piece at its end.
pub open spec fn piece_state(s: Seq<char>) -> (Seq<Seq<char>>, Seq<char>)
    decreases s.len(),
{
    if s.len() == 0 {
        (Seq::empty(), Seq::empty())
    } else {
        let (done, cur) = piece_state(s.drop_last());
        if word_char(s.last()) {
            (done, cur.push(s.last()))
        } else {
            (done.push(cur), Seq::empty())
        }
    }
}

pub open spec fn pieces(s: Seq<char>) -> Seq<Seq<char>> {
    piece_state(s).0.push(piece_state(s).1)
}

/// The words among some pieces: in lower case, at least two bytes long and no
/// stop words.
pub open spec fn words_of(ps: Seq<Seq<char>>) -> Seq<Seq<char>>
    decreases ps.len(),
{
    if ps.len() == 0 {
        Seq::empty()
    } else {
        let head = words_of(ps.drop_last());
        let w = ps.last();
        if vstd::utf8::encode_utf8(w).len() >= 2 && !stop_words().contains(lowercase(w)) {
            head.push(lowercase(w))
        } else {
            head
        }
    }
}

/// The words of a text.
pub open spec fn words(s: Seq<char>) -> Seq<Seq<char>> {
    words_of(pieces(s))
}

/// The words of several texts.
pub open spec fn all_words(ts: Seq<Seq<char>>) -> Seq<Seq<char>>
    decreases ts.len(),
{
    if ts.len() == 0 {
        Seq::empty()
    } else {
        all_words(ts.drop_last()) + words(ts.last())
    }
}

fn push_word(out: &mut Vec<String>, piece: &str)
    ensures
        forall|ps: Seq<Seq<char>>|
            texts(old(out)@) == #[trigger] words_of(ps) ==> texts(final(out)@) == words_of(
                ps.push(piece@),
            ),
{
    let ghost before = texts(out@);
    if byte_len(piece) >= 2 {
        let w = piece.to_lowercase();
        if !is_stop_word(w.as_str()) {
            out.push(w);
            proof {
                assert(texts(out@) =~= before.push(w@));
            }
        }
    }
    proof {
        assert forall|ps: Seq<Seq<char>>| before == #[trigger] words_of(ps) implies texts(out@)
            == words_of(ps.push(piece@)) by {
            assert(ps.push(piece@).drop_last() =~= ps);
            assert(ps.push(piece@).last() == piece@);
        }
    }
}

/// The words of a text.
pub fn tokenize_simple(text: &str) -> (r: Vec<String>)
    ensures
        texts(r@) == words(text@),
{
    let a = chars_of(text);
    let n: usize = a.len();
    let mut out: Vec<String> = Vec::new();
    let mut start: usize = 0;
    let mut i: usize = 0;
    proof {
        assert(a@.take(0) =~= Seq::<char>::empty());
        assert(a@.subrange(0, 0) =~= Seq::<char>::empty());
        assert(texts(out@) =~= Seq::<Seq<char>>::empty());
    }
    while i < n
        invariant
            n == a@.len(),
            start <= i <= n,
            piece_state(a@.take(i as int)).1 == a@.subrange(start as int, i as int),
            texts(out@) == words_of(piece_state(a@.take(i as int)).0),
        decreases n - i,
    {
        proof {
            assert(a@.take(i + 1).drop_last() =~= a@.take(i as int));
            assert(a@.take(i + 1).last() == a@[i as int]);
        }
        let c = a[i];
        if c.is_alphanumeric() || c == '_' {
            proof {
                assert(a@.subrange(start as int, i + 1) =~= a@.subrange(
                    start as int,
                    i as int,
                ).push(c));
            }
        } else {
            let piece = string_of_range(&a, start, i);
            push_word(&mut out, piece.as_str());
            start = i + 1;
            proof {
                assert(a@.subrange(start as int, i + 1) =~= Seq::<char>::empty());
            }
        }
        i = i + 1;
    }
    proof {
        assert(a@.take(n as int) =~= a@);
    }
    let piece = string_of_range(&a, start, n);
    push_word(&mut out, piece.as_str());
    out
}

/// How many of some words are among others.
pub open spec fn common(a: Seq<Seq<char>>, b: Seq<Seq<char>>) -> nat
    decreases a.len(),
{
    if a.len() == 0 {
        0
    } else {
        common(a.drop_last(), b) + if b.contains(a.last()) {
            1nat
        } else {
            0
        }
    }
}

proof fn lemma_common(a: Seq<Seq<char>>, b: Seq<Seq<char>>)
    ensures
        common(a, b) <= a.len(),
        (forall|i: int| 0 <= i < a.len() ==> b.contains(#[trigger] a[i])) ==> common(a, b)
            == a.len(),
        (forall|i: int| 0 <= i < a.len() ==> !b.contains(#[trigger] a[i])) ==> common(a, b) == 0,
    decreases a.len(),
{
    if a.len() > 0 {
        lemma_common(a.drop_last(), b);
        assert(a.last() == a[a.len() - 1]);
        if forall|i: int| 0 <= i < a.len() ==> b.contains(#[trigger] a[i]) {
            assert forall|i: int| 0 <= i < a.drop_last().len() implies b.contains(
                #[trigger] a.drop_last()[i],
            ) by {
                assert(a.drop_last()[i] == a[i]);
            }
        }
        if forall|i: int| 0 <= i < a.len() ==> !b.contains(#[trigger] a[i]) {
            assert forall|i: int| 0 <= i < a.drop_last().len() implies !b.contains(
                #[trigger] a.drop_last()[i],
            ) by {
                assert(a.drop_last()[i] == a[i]);
            }
        }
    }
}

fn holds(v: &Vec<String>, t: &str) -> (r: bool)
    ensures
        r == texts(v@).contains(t@),
{
    let mut i: usize = 0;
    while i < v.len()
        invariant
            i <= v@.len(),
            forall|j: int| 0 <= j < i ==> (#[trigger] v@[j])@ != t@,
        decreases v.len() - i,
    {
        if same_str(v[i].as_str(), t) {
            proof {
                assert(texts(v@)[i as int] == t@);
            }
            return true;
        }
        i = i + 1;
    }
    proof {
        assert forall|j: int| 0 <= j < texts(v@).len() implies texts(v@)[j] != t@ by {
            assert(v@[j]@ != t@);
        }
    }
    false
}

fn add_words(set: &mut Vec<String>, text: &str)
    ensures
        forall|ws: Seq<Seq<char>>|
            texts(old(set)@) == #[trigger] distinct(ws) ==> texts(final(set)@) == distinct(
                ws + words(text@),
            ),
{
    let ghost start = texts(set@);
    let toks = tokenize_simple(text);
    let ghost all = texts(toks@);
    proof {
        assert forall|ws: Seq<Seq<char>>| start == #[trigger] distinct(ws) implies start
            == distinct(ws + all.take(0)) by {
            assert(ws + all.take(0) =~= ws);
        }
    }
    for w in it: toks
        invariant
            texts(it.seq()) == all,
            forall|ws: Seq<Seq<char>>|
                start == #[trigger] distinct(ws) ==> texts(set@) == distinct(
                    ws + all.take(it.index() as int),
                ),
    {
        let ghost k = it.index() as int;
        let ghost before = texts(set@);
        proof {
            assert(all[k] == w@);
        }
        if !holds(set, w.as_str()) {
            set.push(w);
            proof {
                assert(texts(set@) =~= before.push(w@));
            }
        }
        proof {
            assert forall|ws: Seq<Seq<char>>| start == #[trigger] distinct(ws) implies texts(set@)
                == distinct(ws + all.take(k + 1)) by {
                let longer = ws + all.take(k + 1);
                assert(longer.drop_last() =~= ws + all.take(k));
                assert(longer.last() == w@);
            }
        }
    }
    proof {
        assert(all.take(all.len() as int) =~= all);
    }
}

/// The different words of some of the texts, from the first up to `n`.
fn word_set(ts: &Vec<String>, n: usize) -> (r: Vec<String>)
    requires
        n <= ts@.len(),
    ensures
        texts(r@) == distinct(all_words(texts(ts@).take(n as int))),
{
    let ghost all = texts(ts@);
    let mut out: Vec<String> = Vec::new();
    let mut i: usize = 0;
    proof {
        assert(all.take(0) =~= Seq::<Seq<char>>::empty());
        assert(texts(out@) =~= Seq::<Seq<char>>::empty());
    }
    while i < n
        invariant
            i <= n <= ts@.len(),
            all == texts(ts@),
            texts(out@) == distinct(all_words(all.take(i as int))),
        decreases n - i,
    {
        proof {
            assert(all.take(i + 1).drop_last() =~= all.take(i as int));
            assert(all.take(i + 1).last() == ts@[i as int]@);
        }
        add_words(&mut out, ts[i].as_str());
        i = i + 1;
    }
    out
}

fn text_words(text: &str) -> (r: Vec<String>)
    ensures
        texts(r@) == distinct(words(text@)),
{
    let mut out: Vec<String> = Vec::new();
    proof {
        assert(texts(out@) =~= Seq::<Seq<char>>::empty());
        assert(distinct(Seq::<Seq<char>>::empty()) =~= Seq::<Seq<char>>::empty());
        assert(Seq::<Seq<char>>::empty() + words(text@) =~= words(text@));
    }
    add_words(&mut out, text);
    out
}

/// How many of some words are among others, and how many there are.
pub fn intersection_ratio(a: &Vec<String>, b: &Vec<String>) -> (r: (usize, usize))
    ensures
        r.0 == common(texts(a@), texts(b@)),
        r.1 == a@.len(),
{
    let ghost all = texts(a@);
    let mut n: usize = 0;
    let mut i: usize = 0;
    proof {
        assert(all.take(0) =~= Seq::<Seq<char>>::empty());
    }
    while i < a.len()
        invariant
            i <= a@.len(),
            all == texts(a@),
            n <= i,
            n == common(all.take(i as int), texts(b@)),
        decreases a.len() - i,
    {
        proof {
            assert(all.take(i + 1).drop_last() =~= all.take(i as int));
            assert(all.take(i + 1).last() == a@[i as int]@);
        }
        if holds(b, a[i].as_str()) {
            n = n + 1;
        }
        i = i + 1;
    }
    proof {
        assert(all.take(all.len() as int) =~= all);
    }
    (n, a.len())
}

/// Whether `part` of `whole` is at least `num` out of ten; nothing of nothing
/// is not.
pub open spec fn share_at_least(part: nat, whole: nat, num: nat) -> bool {
    whole > 0 && 10 * part >= num * whole
}

fn check_share(part: usize, whole: usize, num: u8) -> (r: bool)
    ensures
        r == share_at_least(part as nat, whole as nat, num as nat),
{
    proof {
        assert(num as u128 * whole as u128 <= 255 * 0xffff_ffff_ffff_ffff) by (nonlinear_arith)
            requires
                num <= 255u8,
                whole as u128 <= 0xffff_ffff_ffff_ffff,
        ;
    }
    whole > 0 && 10 * (part as u128) >= (num as u128) * (whole as u128)
}

// ---- the manager ----

/// A topic and what it is called.
#[derive(Debug)]
pub struct KnownTopic {
    pub id: String,
    pub label: String,
}

pub struct TopicView {
    pub id: Seq<char>,
    pub label: Seq<char>,
}

impl View for KnownTopic {
    type V = TopicView;

    open spec fn view(&self) -> TopicView {
        TopicView { id: self.id@, label: self.label@ }
    }
}

pub open spec fn topic_views(s: Seq<KnownTopic>) -> Seq<TopicView> {
    Seq::new(s.len(), |i: int| s[i]@)
}

/// How many words a label and some words have in common, and how many there are
/// of the words or, with `of_label`, of the label's own.
pub open spec fn label_share(label: Seq<char>, ws: Seq<Seq<char>>, of_label: bool) -> (nat, nat) {
    let lw = distinct(words(label));
    if of_label {
        (common(lw, ws), lw.len())
    } else {
        (common(ws, lw), ws.len())
    }
}

/// Whether a label makes up seven tenths of the words or, with `of_label`, the
/// words seven tenths of the label.
pub open spec fn label_fits(label: Seq<char>, ws: Seq<Seq<char>>, of_label: bool) -> bool {
    let (c, t) = label_share(label, ws, of_label);
    share_at_least(c, t, 7)
}

/// The known topic whose label fits best by one of the two shares; of equal
/// ones the last.
pub open spec fn best_by(known: Seq<TopicView>, ws: Seq<Seq<char>>, of_label: bool) -> Option<int>
    decreases known.len(),
{
    if known.len() == 0 {
        None
    } else {
        let n = known.len() - 1;
        let (c, t) = label_share(known.last().label, ws, of_label);
        match best_by(known.drop_last(), ws, of_label) {
            Some(k) => {
                let (bc, bt) = label_share(known[k].label, ws, of_label);
                if share_at_least(c, t, 7) && c * bt >= bc * t {
                    Some(n)
                } else {
                    Some(k)
                }
            },
            None => if share_at_least(c, t, 7) {
                Some(n)
            } else {
                None
            },
        }
    }
}

/// The known topic that some words are about: the one whose label makes up most
/// of the words or, if none makes up enough, most of whose label is among them.
pub open spec fn best_topic(known: Seq<TopicView>, ws: Seq<Seq<char>>) -> Option<int> {
    match best_by(known, ws, false) {
        Some(k) => Some(k),
        None => best_by(known, ws, true),
    }
}

proof fn lemma_best_by(known: Seq<TopicView>, ws: Seq<Seq<char>>, of_label: bool)
    ensures
        match best_by(known, ws, of_label) {
            Some(k) => 0 <= k < known.len() && label_fits(known[k].label, ws, of_label),
            None => forall|i: int|
                0 <= i < known.len() ==> !label_fits((#[trigger] known[i]).label, ws, of_label),
        },
    decreases known.len(),
{
    if known.len() > 0 {
        lemma_best_by(known.drop_last(), ws, of_label);
        if best_by(known, ws, of_label) is None {
            assert forall|i: int| 0 <= i < known.len() implies !label_fits(
                (#[trigger] known[i]).label,
                ws,
                of_label,
            ) by {
                if i < known.len() - 1 {
                    assert(known.drop_last()[i] == known[i]);
                }
            }
        }
    }
}

/// A topic is taken up again only if its label fits by one of the two shares,
/// and one is if there is such a topic; one that makes up most of the words
/// comes before one whose label alone fits.
pub proof fn law_topic_is_reused_when_its_label_matches(
    known: Seq<TopicView>,
    ws: Seq<Seq<char>>,
    i: int,
)
    ensures
        0 <= i < known.len() && (label_fits(known[i].label, ws, false) || label_fits(
            known[i].label,
            ws,
            true,
        )) ==> best_topic(known, ws) is Some,
        best_topic(known, ws) matches Some(k) ==> 0 <= k < known.len() && (label_fits(
            known[k].label,
            ws,
            false,
        ) || label_fits(known[k].label, ws, true)),
        0 <= i < known.len() && label_fits(known[i].label, ws, false) ==> label_fits(
            known[best_topic(known, ws)->0].label,
            ws,
            false,
        ),
{
    lemma_best_by(known, ws, false);
    lemma_best_by(known, ws, true);
}

/// A topic whose label has a word, and all of whose words were used lately, is
/// a match.
pub proof fn law_label_in_use_matches(label: Seq<char>, ws: Seq<Seq<char>>)
    requires
        distinct(words(label)).len() > 0,
        forall|i: int|
            0 <= i < distinct(words(label)).len() ==> ws.contains(
                #[trigger] distinct(words(label))[i],
            ),
    ensures
        label_fits(label, ws, true),
{
    lemma_common(distinct(words(label)), ws);
}

/// The latest messages after one more.
pub open spec fn with_message(recent: Seq<Seq<char>>, msg: Seq<char>) -> Seq<Seq<char>> {
    let all = recent.push(msg);
    if all.len() > ROLLING_WINDOW {
        all.skip(1)
    } else {
        all
    }
}

/// No more than the latest messages are kept.
pub proof fn law_window_is_bounded(recent: Seq<Seq<char>>, msg: Seq<char>)
    requires
        recent.len() <= ROLLING_WINDOW,
    ensures
        with_message(recent, msg).len() <= ROLLING_WINDOW,
        with_message(recent, msg).last() == msg,
{
}

/// What the words of a message do to the topic.
#[derive(Debug)]
pub enum KeywordVerdict {
    Same,
    Drift,
    Turn,
}

/// What a message does to the topic: `recent` ends with the latest message,
/// which is not compared with.  It stays or drifts by how many of the words
/// used before it takes up, and where these are few, by how many of its own
/// words were used before.
pub open spec fn keyword_verdict(recent: Seq<Seq<char>>, msg: Seq<char>) -> KeywordVerdict {
    let history = distinct(all_words(recent.drop_last()));
    let new = distinct(words(msg));
    if recent.len() < 2 || history.len() == 0 {
        KeywordVerdict::Same
    } else if share_at_least(common(history, new), history.len(), 6) {
        KeywordVerdict::Same
    } else if share_at_least(common(history, new), history.len(), 3) {
        KeywordVerdict::Drift
    } else if share_at_least(common(new, history), new.len(), 6) {
        KeywordVerdict::Same
    } else if share_at_least(common(new, history), new.len(), 3) {
        KeywordVerdict::Drift
    } else {
        KeywordVerdict::Turn
    }
}

/// A message that takes up all the words used before stays with the topic; one
/// of words that were used before does not turn from it; one of new words
/// does.
pub proof fn law_old_words_stay_new_words_turn(recent: Seq<Seq<char>>, msg: Seq<char>)
    requires
        recent.len() >= 2,
        distinct(all_words(recent.drop_last())).len() > 0,
        distinct(words(msg)).len() > 0,
    ensures
        ({
            let history = distinct(all_words(recent.drop_last()));
            let new = distinct(words(msg));
            let verdict = keyword_verdict(recent, msg);
            &&& (forall|i: int| 0 <= i < history.len() ==> new.contains(#[trigger] history[i]))
                ==> verdict == KeywordVerdict::Same
            &&& (forall|i: int| 0 <= i < new.len() ==> history.contains(#[trigger] new[i]))
                ==> verdict != KeywordVerdict::Turn
            &&& (forall|i: int| 0 <= i < new.len() ==> !history.contains(#[trigger] new[i]))
                ==> verdict == KeywordVerdict::Turn
        }),
{
    let history = distinct(all_words(recent.drop_last()));
    let new = distinct(words(msg));
    lemma_common(new, history);
    lemma_common(history, new);
    if forall|i: int| 0 <= i < new.len() ==> !history.contains(#[trigger] new[i]) {
        assert forall|i: int| 0 <= i < history.len() implies !new.contains(#[trigger] history[i]) by {
            if new.contains(history[i]) {
                let j = new.index_of(history[i]);
                assert(new[j] == history[i]);
                assert(history.contains(new[j]));
            }
        }
    }
}

/// Keeps track of the topic of one session.
#[derive(Debug)]
pub struct TopicManager {
    pub current_topic_id: String,
    pub recent_messages: Vec<String>,
    pub known_topics: Vec<KnownTopic>,
}

impl TopicManager {
    /// The words of the latest messages.
    pub open spec fn recent_words(&self) -> Seq<Seq<char>> {
        distinct(all_words(texts(self.recent_messages@)))
    }

    /// The known topic that the latest messages are about.
    pub open spec fn matching_topic(&self) -> Option<int> {
        best_topic(topic_views(self.known_topics@), self.recent_words())
    }

    /// Begins with a fresh topic.
    pub fn new() -> (r: TopicManager)
        ensures
            r.current_topic_id@.len() == 36,
            r.recent_messages@.len() == 0,
            r.known_topics@.len() == 0,
    {
        TopicManager {
            current_topic_id: fresh_uuid(),
            recent_messages: Vec::new(),
            known_topics: Vec::new(),
        }
    }

    /// Begins with the given topic.
    pub fn with_topic(initial_topic_id: &str) -> (r: TopicManager)
        ensures
            r.current_topic_id@ == initial_topic_id@,
            r.recent_messages@.len() == 0,
            r.known_topics@.len() == 0,
    {
        TopicManager {
            current_topic_id: initial_topic_id.to_owned(),
            recent_messages: Vec::new(),
            known_topics: Vec::new(),
        }
    }

    pub fn current_topic_id(&self) -> (r: String)
        ensures
            r@ == self.current_topic_id@,
    {
        self.current_topic_id.clone()
    }

    /// Takes note of a message.
    pub fn push_recent_message(&mut self, msg: &str)
        ensures
            texts(final(self).recent_messages@) == with_message(
                texts(old(self).recent_messages@),
                msg@,
            ),
            final(self).current_topic_id == old(self).current_topic_id,
            final(self).known_topics == old(self).known_topics,
    {
        let ghost before = texts(self.recent_messages@);
        self.recent_messages.push(msg.to_owned());
        proof {
            assert(texts(self.recent_messages@) =~= before.push(msg@));
        }
        if self.recent_messages.len() > ROLLING_WINDOW {
            let ghost all = texts(self.recent_messages@);
            self.recent_messages.remove(0);
            proof {
                assert(texts(self.recent_messages@) =~= all.skip(1));
            }
        }
    }

    /// Where a topic stands among the known ones.
    pub open spec fn topic_from(known: Seq<TopicView>, id: Seq<char>, i: int) -> Option<int>
        decreases known.len() - i,
    {
        if i < 0 || i >= known.len() {
            None
        } else if known[i].id == id {
            Some(i)
        } else {
            Self::topic_from(known, id, i + 1)
        }
    }

    /// The known topics once one is registered: it gets a new label, or is
    /// added.
    pub open spec fn registered(known: Seq<TopicView>, id: Seq<char>, label: Seq<char>) -> Seq<
        TopicView,
    > {
        match Self::topic_from(known, id, 0) {
            Some(i) => known.update(i, TopicView { id, label }),
            None => known.push(TopicView { id, label }),
        }
    }

    /// Takes note of what a topic is called.
    pub fn register_topic(&mut self, topic_id: &str, label: &str)
        ensures
            topic_views(final(self).known_topics@) == Self::registered(
                topic_views(old(self).known_topics@),
                topic_id@,
                label@,
            ),
            final(self).current_topic_id == old(self).current_topic_id,
            final(self).recent_messages == old(self).recent_messages,
    {
        let ghost known = topic_views(self.known_topics@);
        let entry = KnownTopic { id: topic_id.to_owned(), label: label.to_owned() };
        let mut i: usize = 0;
        while i < self.known_topics.len()
            invariant
                i <= self.known_topics@.len(),
                known == topic_views(self.known_topics@),
                self.known_topics == old(self).known_topics,
                self.current_topic_id == old(self).current_topic_id,
                self.recent_messages == old(self).recent_messages,
                entry@ == (TopicView { id: topic_id@, label: label@ }),
                Self::topic_from(known, topic_id@, 0) == Self::topic_from(
                    known,
                    topic_id@,
                    i as int,
                ),
            decreases self.known_topics.len() - i,
        {
            proof {
                assert(known[i as int] == self.known_topics@[i as int]@);
            }
            if same_str(self.known_topics[i].id.as_str(), topic_id) {
                self.known_topics.set(i, entry);
                proof {
                    assert(topic_views(self.known_topics@) =~= known.update(i as int, entry@));
                }
                return;
            }
            i = i + 1;
        }
        self.known_topics.push(entry);
        proof {
            assert(topic_views(self.known_topics@) =~= known.push(entry@));
        }
    }

    /// The known topic whose label fits some words best by one of the two
    /// shares.
    fn find_by(&self, recent: &Vec<String>, of_label: bool) -> (r: Option<usize>)
        ensures
            match r {
                Some(k) => best_by(
                    topic_views(self.known_topics@),
                    texts(recent@),
                    of_label,
                ) == Some(k as int) && k < self.known_topics@.len(),
                None => best_by(topic_views(self.known_topics@), texts(recent@), of_label) is None,
            },
    {
        let ghost known = topic_views(self.known_topics@);
        let ghost ws = texts(recent@);
        proof {
            assert(known.take(0) =~= Seq::<TopicView>::empty());
        }
        let mut best: Option<usize> = None;
        let mut best_common: usize = 0;
        let mut best_total: usize = 0;
        let mut i: usize = 0;
        while i < self.known_topics.len()
            invariant
                i <= self.known_topics@.len(),
                known == topic_views(self.known_topics@),
                ws == texts(recent@),
                match best {
                    Some(k) => k < i && best_by(known.take(i as int), ws, of_label) == Some(k as int)
                        && label_share(known[k as int].label, ws, of_label) == (
                        best_common as nat,
                        best_total as nat,
                    ),
                    None => best_by(known.take(i as int), ws, of_label) is None,
                },
            decreases self.known_topics.len() - i,
        {
            proof {
                assert(known.take(i + 1).drop_last() =~= known.take(i as int));
                assert(known.take(i + 1).last() == self.known_topics@[i as int]@);
                assert(known[i as int] == self.known_topics@[i as int]@);
            }
            let lw = text_words(self.known_topics[i].label.as_str());
            let (c, t): (usize, usize) = if of_label {
                intersection_ratio(&lw, recent)
            } else {
                intersection_ratio(recent, &lw)
            };
            proof {
                assert(texts(lw@).len() == lw@.len());
                assert(ws.len() == recent@.len());
            }
            if check_share(c, t, 7) {
                let better: bool = match best {
                    Some(k) => {
                        proof {
                            assert(known.take(i + 1)[k as int] == known[k as int]);
                            assert(c as u128 * best_total as u128 <= 0xffff_ffff_ffff_ffff
                                * 0xffff_ffff_ffff_ffff) by (nonlinear_arith)
                                requires
                                    c as u128 <= 0xffff_ffff_ffff_ffff,
                                    best_total as u128 <= 0xffff_ffff_ffff_ffff,
                            ;
                            assert(best_common as u128 * t as u128 <= 0xffff_ffff_ffff_ffff
                                * 0xffff_ffff_ffff_ffff) by (nonlinear_arith)
                                requires
                                    best_common as u128 <= 0xffff_ffff_ffff_ffff,
                                    t as u128 <= 0xffff_ffff_ffff_ffff,
                            ;
                        }
                        (c as u128) * (best_total as u128) >= (best_common as u128) * (t as u128)
                    },
                    None => true,
                };
                if better {
                    best = Some(i);
                    best_common = c;
                    best_total = t;
                }
            } else {
                proof {
                    if best is Some {
                        assert(known.take(i + 1)[best->0 as int] == known[best->0 as int]);
                    }
                }
            }
            i = i + 1;
        }
        proof {
            assert(known.take(known.len() as int) =~= known);
        }
        best
    }

    /// The known topic that the latest messages are about.
    pub fn find_topic(&self) -> (r: Option<usize>)
        ensures
            match r {
                Some(k) => self.matching_topic() == Some(k as int) && k < self.known_topics@.len(),
                None => self.matching_topic() is None,
            },
    {
        let recent = word_set(&self.recent_messages, self.recent_messages.len());
        proof {
            assert(texts(self.recent_messages@).take(self.recent_messages@.len() as int)
                =~= texts(self.recent_messages@));
        }
        match self.find_by(&recent, false) {
            Some(k) => Some(k),
            None => self.find_by(&recent, true),
        }
    }

    /// The known topic that the latest messages are about, or a fresh one.
    pub fn find_or_create_topic_by_keywords(&self) -> (r: String)
        ensures
            match self.matching_topic() {
                Some(k) => r@ == self.known_topics@[k].id@,
                None => r@.len() == 36,
            },
    {
        match self.find_topic() {
            Some(k) => self.known_topics[k].id.clone(),
            None => fresh_uuid(),
        }
    }

    /// Turns to the known topic that the latest messages are about, or to a
    /// fresh one.
    fn turn(&mut self) -> (r: TopicSwitchResult)
        ensures
            r matches TopicSwitchResult::Switched { new_topic_id } && new_topic_id@ == final(self).current_topic_id@ && match old(self).matching_topic() {
                Some(k) => new_topic_id@ == old(self).known_topics@[k].id@,
                None => new_topic_id@.len() == 36,
            },
            final(self).recent_messages == old(self).recent_messages,
            final(self).known_topics == old(self).known_topics,
    {
        let id = self.find_or_create_topic_by_keywords();
        self.current_topic_id = id.clone();
        TopicSwitchResult::Switched { new_topic_id: id }
    }

    /// Compares a message, by its words, with those before the latest.
    pub fn check_with_keywords(&mut self, new_message: &str) -> (r: TopicSwitchResult)
        ensures
            final(self).recent_messages == old(self).recent_messages,
            final(self).known_topics == old(self).known_topics,
            match keyword_verdict(texts(old(self).recent_messages@), new_message@) {
                KeywordVerdict::Same => r is SameTopic && final(self).current_topic_id == old(self).current_topic_id,
                KeywordVerdict::Drift => r is PartialDrift && final(self).current_topic_id == old(self).current_topic_id,
                KeywordVerdict::Turn => r matches TopicSwitchResult::Switched { new_topic_id }
                    && new_topic_id@ == final(self).current_topic_id@ && match old(self).matching_topic() {
                    Some(k) => new_topic_id@ == old(self).known_topics@[k].id@,
                    None => new_topic_id@.len() == 36,
                },
            },
    {
        let n: usize = self.recent_messages.len();
        if n < 2 {
            return TopicSwitchResult::SameTopic;
        }
        let history = word_set(&self.recent_messages, n - 1);
        proof {
            assert(texts(self.recent_messages@).take(n - 1) =~= texts(
                self.recent_messages@,
            ).drop_last());
            assert(texts(history@).len() == history@.len());
        }
        if history.len() == 0 {
            return TopicSwitchResult::SameTopic;
        }
        let new = text_words(new_message);
        let (taken, before): (usize, usize) = intersection_ratio(&history, &new);
        let (known, own): (usize, usize) = intersection_ratio(&new, &history);
        proof {
            assert(texts(new@).len() == new@.len());
        }
        if check_share(taken, before, 6) {
            TopicSwitchResult::SameTopic
        } else if check_share(taken, before, 3) {
            TopicSwitchResult::PartialDrift
        } else if check_share(known, own, 6) {
            TopicSwitchResult::SameTopic
        } else if check_share(known, own, 3) {
            TopicSwitchResult::PartialDrift
        } else {
            self.turn()
        }
    }

    /// Decides by how alike the message is to those before it.
    pub fn check_with_embedding(&mut self, likeness: Likeness) -> (r: TopicSwitchResult)
        ensures
            final(self).recent_messages == old(self).recent_messages,
            final(self).known_topics == old(self).known_topics,
            match likeness {
                Likeness::NoBaseline | Likeness::Same => r is SameTopic && final(self).current_topic_id == old(self).current_topic_id,
                Likeness::Related => r is PartialDrift && final(self).current_topic_id == old(self).current_topic_id,
                Likeness::Apart => r matches TopicSwitchResult::Switched { new_topic_id }
                    && new_topic_id@ == final(self).current_topic_id@ && match old(self).matching_topic() {
                    Some(k) => new_topic_id@ == old(self).known_topics@[k].id@,
                    None => new_topic_id@.len() == 36,
                },
            },
    {
        match likeness {
            Likeness::NoBaseline | Likeness::Same => TopicSwitchResult::SameTopic,
            Likeness::Related => TopicSwitchResult::PartialDrift,
            Likeness::Apart => self.turn(),
        }
    }

    /// Takes note of a message and decides what it does to the topic: by how
    /// alike it is to those before it where texts are embedded, else by its
    /// words.  If it could not be embedded, the topic stays as it is.
    pub fn check_and_switch(
        &mut self,
        new_message: &str,
        likeness: Option<Result<Likeness, String>>,
    ) -> (r: Result<TopicSwitchResult, String>)
        ensures
            texts(final(self).recent_messages@) == with_message(
                texts(old(self).recent_messages@),
                new_message@,
            ),
            final(self).known_topics == old(self).known_topics,
            likeness matches Some(Err(e)) ==> r is Err && r->Err_0 == e
                && final(self).current_topic_id == old(self).current_topic_id,
            !(likeness matches Some(Err(_))) ==> r is Ok && ({
                let recent = with_message(texts(old(self).recent_messages@), new_message@);
                let turn = match likeness {
                    Some(l) => l->Ok_0 == Likeness::Apart,
                    None => keyword_verdict(recent, new_message@) == KeywordVerdict::Turn,
                };
                let drift = match likeness {
                    Some(l) => l->Ok_0 == Likeness::Related,
                    None => keyword_verdict(recent, new_message@) == KeywordVerdict::Drift,
                };
                if turn {
                    r->Ok_0 matches TopicSwitchResult::Switched { new_topic_id } && new_topic_id@
                        == final(self).current_topic_id@ && match best_topic(
                        topic_views(old(self).known_topics@),
                        distinct(all_words(recent)),
                    ) {
                        Some(k) => new_topic_id@ == old(self).known_topics@[k].id@,
                        None => new_topic_id@.len() == 36,
                    }
                } else {
                    &&& final(self).current_topic_id == old(self).current_topic_id
                    &&& drift ==> r->Ok_0 is PartialDrift
                    &&& !drift ==> r->Ok_0 is SameTopic
                }
            }),
    {
        self.push_recent_message(new_message);
        match likeness {
            Some(Ok(l)) => Ok(self.check_with_embedding(l)),
            Some(Err(e)) => Err(e),
            None => Ok(self.check_with_keywords(new_message)),
        }
    }
}

impl Default for TopicManager {
    fn default() -> (r: TopicManager)
        ensures
            r.current_topic_id@.len() == 36,
            r.recent_messages@.len() == 0,
            r.known_topics@.len() == 0,
    {
        TopicManager::new()
    }
}

} // verus!
