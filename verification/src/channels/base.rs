//! What all channels share: the sender allowlist and the form in which a
//! received text is handed on.
use vstd::prelude::*;
use crate::json::{json_map, Json, JsonTree};
use crate::model::channel::{
    fresh_uuid, opt_inbound, ContentView, InboundMessage, InboundView, MessageContent,
};
use crate::text::{
    chars_of, contains, find, find_char, lowercase, same_str, string_of_range, str_trim_start_char,
    texts, trim_start_char,
};

verus! {

/// Whether `text` has the form `pattern`, in which `*` stands for any run of
/// characters, the empty one included, and every other character for itself.
pub open spec fn glob_matches(pattern: Seq<char>, text: Seq<char>) -> bool
    decreases pattern.len(), text.len(),
{
    if pattern.len() == 0 {
        text.len() == 0
    } else if pattern[0] == '*' {
        glob_matches(pattern.drop_first(), text) || (text.len() > 0 && glob_matches(
            pattern,
            text.drop_first(),
        ))
    } else {
        text.len() > 0 && text[0] == pattern[0] && glob_matches(
            pattern.drop_first(),
            text.drop_first(),
        )
    }
}

/// One column of the match table: entry `j` of the result tells whether
/// `text[j..]` has the form `pattern[i..]`, given the same for `i + 1`.
fn glob_column(pattern: &[char], text: &[char], i: usize, next: &Vec<bool>) -> (col: Vec<bool>)
    requires
        i < pattern@.len(),
        next@.len() == text@.len() + 1,
        forall|j: int|
            0 <= j <= text@.len() ==> next@[j] == glob_matches(
                pattern@.skip(i + 1),
                #[trigger] text@.skip(j),
            ),
    ensures
        col@.len() == text@.len() + 1,
        forall|j: int|
            0 <= j <= text@.len() ==> col@[j] == glob_matches(
                pattern@.skip(i as int),
                #[trigger] text@.skip(j),
            ),
{
    let mut col = next.clone();
    let mut j: usize = text.len() + 1;
    let ghost p = pattern@.skip(i as int);
    proof {
        assert(p.drop_first() =~= pattern@.skip(i + 1));
    }
    while j > 0
        invariant
            j <= text@.len() + 1,
            i < pattern@.len(),
            p == pattern@.skip(i as int),
            p.drop_first() == pattern@.skip(i + 1),
            next@.len() == text@.len() + 1,
            col@.len() == text@.len() + 1,
            forall|k: int|
                0 <= k <= text@.len() ==> next@[k] == glob_matches(
                    pattern@.skip(i + 1),
                    #[trigger] text@.skip(k),
                ),
            forall|k: int|
                j <= k <= text@.len() ==> col@[k] == glob_matches(p, #[trigger] text@.skip(k)),
        decreases j,
    {
        j = j - 1;
        proof {
            if j < text@.len() {
                assert(text@.skip(j as int).drop_first() =~= text@.skip(j + 1));
            }
        }
        let here: bool = if pattern[i] == '*' {
            next[j] || (j < text.len() && col[j + 1])
        } else {
            j < text.len() && text[j] == pattern[i] && next[j + 1]
        };
        col.set(j, here);
    }
    col
}

/// Whether `text` has the form `pattern`; both are compared as they stand.
pub fn glob_match_pattern(pattern: &str, text: &str) -> (r: bool)
    ensures
        r == glob_matches(pattern@, text@),
{
    let p = chars_of(pattern);
    let t = chars_of(text);
    let mut col: Vec<bool> = Vec::new();
    let mut j: usize = 0;
    while j < t.len()
        invariant
            j <= t@.len(),
            col@.len() == j,
            forall|k: int|
                0 <= k < j ==> col@[k] == glob_matches(
                    p@.skip(p@.len() as int),
                    #[trigger] t@.skip(k),
                ),
        decreases t.len() - j,
    {
        col.push(false);
        j = j + 1;
    }
    col.push(true);
    let mut i: usize = p.len();
    while i > 0
        invariant
            i <= p@.len(),
            col@.len() == t@.len() + 1,
            forall|k: int|
                0 <= k <= t@.len() ==> col@[k] == glob_matches(
                    p@.skip(i as int),
                    #[trigger] t@.skip(k),
                ),
        decreases i,
    {
        i = i - 1;
        col = glob_column(&p, &t, i, &col);
    }
    proof {
        assert(t@.skip(0) =~= t@);
        assert(p@.skip(0) =~= p@);
    }
    col[0]
}

/// A pattern of one `*` fits every text.
pub proof fn law_glob_star_matches_everything(text: Seq<char>)
    ensures
        glob_matches(seq!['*'], text),
    decreases text.len(),
{
    let p = seq!['*'];
    if text.len() == 0 {
        assert(glob_matches(p.drop_first(), text));
    } else {
        law_glob_star_matches_everything(text.drop_first());
    }
}

/// A pattern without `*` fits exactly itself.
pub proof fn law_glob_without_star_is_equality(pattern: Seq<char>, text: Seq<char>)
    requires
        !pattern.contains('*'),
    ensures
        glob_matches(pattern, text) == (pattern == text),
    decreases pattern.len(),
{
    if pattern.len() == 0 {
        assert(text.len() == 0 ==> pattern =~= text);
    } else {
        assert(pattern.contains(pattern[0]));
        assert forall|c: char| pattern.drop_first().contains(c) implies pattern.contains(c) by {
            let k = choose|k: int|
                0 <= k < pattern.drop_first().len() && pattern.drop_first()[k] == c;
            assert(pattern[k + 1] == c);
        }
        if text.len() > 0 {
            law_glob_without_star_is_equality(pattern.drop_first(), text.drop_first());
            if text[0] == pattern[0] && pattern.drop_first() == text.drop_first() {
                assert forall|k: int| 0 <= k < pattern.len() implies pattern[k] == text[k] by {
                    if k > 0 {
                        assert(pattern.drop_first()[k - 1] == text.drop_first()[k - 1]);
                    }
                }
                assert(pattern.len() == text.len());
                assert(pattern =~= text);
            }
        }
    }
}

/// A pattern `prefix*suffix` fits `prefix + middle + suffix` whatever the
/// middle is.
pub proof fn law_glob_star_spans(prefix: Seq<char>, middle: Seq<char>, suffix: Seq<char>)
    requires
        !prefix.contains('*'),
        !suffix.contains('*'),
    ensures
        glob_matches(prefix + seq!['*'] + suffix, prefix + middle + suffix),
    decreases prefix.len(), middle.len(),
{
    let p = prefix + seq!['*'] + suffix;
    let t = prefix + middle + suffix;
    if prefix.len() > 0 {
        let rest = prefix.drop_first();
        assert(prefix.contains(prefix[0]));
        assert forall|c: char| rest.contains(c) implies prefix.contains(c) by {
            let k = choose|k: int| 0 <= k < rest.len() && rest[k] == c;
            assert(prefix[k + 1] == c);
        }
        law_glob_star_spans(rest, middle, suffix);
        assert(p.drop_first() =~= rest + seq!['*'] + suffix);
        assert(t.drop_first() =~= rest + middle + suffix);
    } else if middle.len() > 0 {
        law_glob_star_spans(prefix, middle.drop_first(), suffix);
        assert(t.drop_first() =~= prefix + middle.drop_first() + suffix);
        assert(p[0] == '*');
    } else {
        law_glob_without_star_is_equality(suffix, suffix);
        assert(p.drop_first() =~= suffix);
        assert(t =~= suffix);
        assert(p[0] == '*');
    }
}

/// The part of a sender before the first `|`: its identifier.
pub open spec fn id_part(sender: Seq<char>) -> Seq<char> {
    match find(sender, seq!['|']) {
        Some(i) => sender.take(i),
        None => sender,
    }
}

/// The part of a sender after the first `|`: its user name, empty if none.
pub open spec fn user_part(sender: Seq<char>) -> Seq<char> {
    match find(sender, seq!['|']) {
        Some(i) => sender.skip(i + 1),
        None => Seq::empty(),
    }
}

/// Whether one allowlist entry admits a sender.  Leading `@` are dropped from
/// the entry; an entry with a `*` is a pattern without regard to case, any
/// other entry has to equal the sender, its identifier or its user name.
pub open spec fn entry_admits(entry: Seq<char>, sender: Seq<char>) -> bool {
    let trimmed = trim_start_char(entry, '@');
    let id = id_part(sender);
    let user = user_part(sender);
    if contains(trimmed, seq!['*']) {
        let pat = lowercase(trimmed);
        ||| glob_matches(pat, lowercase(sender))
        ||| glob_matches(pat, lowercase(id))
        ||| (user.len() > 0 && glob_matches(pat, lowercase(user)))
    } else {
        ||| sender == entry
        ||| sender == trimmed
        ||| id == entry
        ||| id == trimmed
        ||| (user.len() > 0 && (user == entry || user == trimmed))
    }
}

/// Whether some entry of the list admits the sender.
pub open spec fn list_admits(list: Seq<Seq<char>>, sender: Seq<char>) -> bool {
    exists|i: int| 0 <= i < list.len() && entry_admits(#[trigger] list[i], sender)
}

/// Who may use a channel: everyone where the list is empty.
pub open spec fn allows(list: Seq<Seq<char>>, sender: Seq<char>) -> bool {
    list.len() == 0 || list_admits(list, sender)
}

/// The list that holds in groups: the group list, or the general one where
/// the group list is empty.
pub open spec fn group_list(groups: Seq<Seq<char>>, general: Seq<Seq<char>>) -> Seq<Seq<char>> {
    if groups.len() == 0 {
        general
    } else {
        groups
    }
}

/// What a channel hands on for a text it received from an allowed sender.
pub open spec fn text_message(
    id: Seq<char>,
    channel: Seq<char>,
    sender_id: Seq<char>,
    sender_name: Seq<char>,
    session_id: Seq<char>,
    content: Seq<char>,
    metadata: Map<Seq<char>, JsonTree>,
) -> InboundView {
    InboundView {
        id,
        channel,
        session_id,
        sender_id,
        sender_name,
        content: ContentView::Text(content),
        reply_to: None,
        metadata,
    }
}

/// The state every channel has.
#[derive(Debug)]
pub struct BaseChannel {
    pub name: String,
    /// Who may use the channel; everyone where it is empty.
    pub allow_from: Vec<String>,
    /// Who may use it in groups; `allow_from` holds where it is empty.
    pub allow_from_groups: Vec<String>,
    /// Whether group messages have to mention the bot.
    pub require_mention: bool,
    pub running: bool,
}

impl BaseChannel {
    pub fn new(name: &str) -> (r: BaseChannel)
        ensures
            r.name@ == name@,
            r.allow_from@.len() == 0,
            r.allow_from_groups@.len() == 0,
            !r.require_mention,
            !r.running,
    {
        BaseChannel {
            name: name.to_owned(),
            allow_from: Vec::new(),
            allow_from_groups: Vec::new(),
            require_mention: false,
            running: false,
        }
    }

    pub fn with_allow_from(self, allow_from: Vec<String>) -> (r: BaseChannel)
        ensures
            r == (BaseChannel { allow_from, ..self }),
    {
        BaseChannel { allow_from, ..self }
    }

    pub fn with_group_config(
        self,
        allow_from_groups: Vec<String>,
        require_mention: bool,
    ) -> (r: BaseChannel)
        ensures
            r == (BaseChannel { allow_from_groups, require_mention, ..self }),
    {
        BaseChannel { allow_from_groups, require_mention, ..self }
    }

    pub fn is_running(&self) -> (r: bool)
        ensures
            r == self.running,
    {
        self.running
    }

    pub fn set_running(&mut self, value: bool)
        ensures
            *final(self) == (BaseChannel { running: value, ..*old(self) }),
    {
        self.running = value;
    }

    /// Whether the allowlist admits the sender.
    pub open spec fn allowed(&self, sender: Seq<char>) -> bool {
        allows(texts(self.allow_from@), sender)
    }

    /// Whether the sender is admitted in groups.
    pub open spec fn group_allowed(&self, sender: Seq<char>) -> bool {
        allows(group_list(texts(self.allow_from_groups@), texts(self.allow_from@)), sender)
    }

    /// Whether the sender may use the channel.
    pub fn is_allowed(&self, sender_id: &str) -> (r: bool)
        ensures
            r == self.allowed(sender_id@),
    {
        if self.allow_from.len() == 0 {
            return true;
        }
        Self::matches_allowlist(sender_id, &self.allow_from)
    }

    /// Whether the sender may use the channel in a group.
    pub fn is_group_allowed(&self, sender_id: &str) -> (r: bool)
        ensures
            r == self.group_allowed(sender_id@),
    {
        if self.allow_from_groups.len() == 0 {
            proof {
                assert(group_list(texts(self.allow_from_groups@), texts(self.allow_from@)) == texts(
                    self.allow_from@,
                ));
            }
            return self.is_allowed(sender_id);
        }
        Self::matches_allowlist(sender_id, &self.allow_from_groups)
    }

    /// Whether some entry of the list admits the sender.
    pub fn matches_allowlist(sender_id: &str, list: &Vec<String>) -> (r: bool)
        ensures
            r == list_admits(texts(list@), sender_id@),
    {
        let mut i: usize = 0;
        while i < list.len()
            invariant
                i <= list.len(),
                forall|k: int| 0 <= k < i ==> !entry_admits(#[trigger] texts(list@)[k], sender_id@),
            decreases list.len() - i,
        {
            if entry_matches(list[i].as_str(), sender_id) {
                proof {
                    assert(entry_admits(texts(list@)[i as int], sender_id@));
                }
                return true;
            }
            proof {
                assert(texts(list@)[i as int] == list@[i as int]@);
            }
            i = i + 1;
        }
        false
    }

    /// The message that a text becomes under the given identifier.
    pub fn compose_message(
        &self,
        id: String,
        sender_id: &str,
        sender_name: &str,
        session_id: &str,
        content: &str,
        metadata: Vec<(String, Json)>,
    ) -> (r: InboundMessage)
        ensures
            r@ == text_message(
                id@,
                self.name@,
                sender_id@,
                sender_name@,
                session_id@,
                content@,
                json_map(metadata@),
            ),
    {
        InboundMessage {
            id,
            channel: self.name.clone(),
            session_id: session_id.to_owned(),
            sender_id: sender_id.to_owned(),
            sender_name: sender_name.to_owned(),
            content: MessageContent::Text(content.to_owned()),
            reply_to: None,
            metadata,
        }
    }

    /// The message that a text from the sender becomes, under the given
    /// identifier, where the sender is allowed.
    pub fn admit_message(
        &self,
        id: String,
        sender_id: &str,
        sender_name: &str,
        session_id: &str,
        content: &str,
        metadata: Vec<(String, Json)>,
    ) -> (r: Option<InboundMessage>)
        ensures
            opt_inbound(r) == (if self.allowed(sender_id@) {
                Some(
                    text_message(
                        id@,
                        self.name@,
                        sender_id@,
                        sender_name@,
                        session_id@,
                        content@,
                        json_map(metadata@),
                    ),
                )
            } else {
                None
            }),
    {
        if !self.is_allowed(sender_id) {
            return None;
        }
        Some(
            self.compose_message(id, sender_id, sender_name, session_id, content, metadata),
        )
    }

    /// The message that a text from the sender becomes, under a fresh
    /// identifier, where the sender is allowed.
    pub fn handle_message(
        &self,
        sender_id: &str,
        sender_name: &str,
        session_id: &str,
        content: &str,
        metadata: Vec<(String, Json)>,
    ) -> (r: Option<InboundMessage>)
        ensures
            r is Some == self.allowed(sender_id@),
            r matches Some(m) ==> m@ == text_message(
                m.id@,
                self.name@,
                sender_id@,
                sender_name@,
                session_id@,
                content@,
                json_map(metadata@),
            ),
    {
        self.admit_message(fresh_uuid(), sender_id, sender_name, session_id, content, metadata)
    }
}

/// Whether one allowlist entry admits the sender.
fn entry_matches(entry: &str, sender_id: &str) -> (r: bool)
    ensures
        r == entry_admits(entry@, sender_id@),
{
    let s = chars_of(sender_id);
    let n: usize = s.len();
    let (id, user) = match find_char(&s, '|') {
        Some(i) => {
            proof {
                assert(s@.subrange(0, i as int) =~= s@.take(i as int));
                assert(s@.subrange(i + 1, s@.len() as int) =~= s@.skip(i + 1));
            }
            (string_of_range(&s, 0, i), string_of_range(&s, i + 1, n))
        },
        None => (sender_id.to_owned(), String::new()),
    };
    let trimmed = str_trim_start_char(entry, '@');
    let t = chars_of(trimmed.as_str());
    if find_char(&t, '*').is_some() {
        let pat = trimmed.as_str().to_lowercase();
        glob_match_pattern(pat.as_str(), sender_id.to_lowercase().as_str()) || glob_match_pattern(
            pat.as_str(),
            id.as_str().to_lowercase().as_str(),
        ) || (!user.as_str().is_empty() && glob_match_pattern(
            pat.as_str(),
            user.as_str().to_lowercase().as_str(),
        ))
    } else {
        same_str(sender_id, entry) || same_str(sender_id, trimmed.as_str()) || same_str(
            id.as_str(),
            entry,
        ) || same_str(id.as_str(), trimmed.as_str()) || (!user.as_str().is_empty() && (same_str(
            user.as_str(),
            entry,
        ) || same_str(user.as_str(), trimmed.as_str())))
    }
}

/// With no allowlist every sender is allowed.
pub proof fn law_empty_allowlist_permits_all(base: &BaseChannel, sender: Seq<char>)
    requires
        base.allow_from@.len() == 0,
    ensures
        base.allowed(sender),
        base.allow_from_groups@.len() == 0 ==> base.group_allowed(sender),
{
}

/// Without a group list the general list decides in groups too; with one, it
/// alone decides.
pub proof fn law_group_list_overrides_or_falls_back(base: &BaseChannel, sender: Seq<char>)
    ensures
        base.allow_from_groups@.len() == 0 ==> base.group_allowed(sender) == base.allowed(sender),
        base.allow_from_groups@.len() > 0 ==> base.group_allowed(sender) == list_admits(
            texts(base.allow_from_groups@),
            sender,
        ),
{
    assert(texts(base.allow_from_groups@).len() == base.allow_from_groups@.len());
}

/// A text that a channel received, before the allowlist has been asked.
#[derive(Debug)]
pub struct Draft {
    pub sender_id: String,
    pub sender_name: String,
    pub session_id: String,
    pub content: String,
    pub metadata: Vec<(String, Json)>,
}

pub struct DraftView {
    pub sender_id: Seq<char>,
    pub sender_name: Seq<char>,
    pub session_id: Seq<char>,
    pub content: Seq<char>,
    pub metadata: Map<Seq<char>, JsonTree>,
}

impl View for Draft {
    type V = DraftView;

    open spec fn view(&self) -> DraftView {
        DraftView {
            sender_id: self.sender_id@,
            sender_name: self.sender_name@,
            session_id: self.session_id@,
            content: self.content@,
            metadata: json_map(self.metadata@),
        }
    }
}

pub open spec fn draft_views(s: Seq<Draft>) -> Seq<DraftView> {
    Seq::new(s.len(), |i: int| s[i]@)
}

pub open spec fn opt_draft(o: Option<Draft>) -> Option<DraftView> {
    match o {
        Some(d) => Some(d@),
        None => None,
    }
}

/// The message that a draft becomes under an identifier.
pub open spec fn draft_message(id: Seq<char>, channel: Seq<char>, d: DraftView) -> InboundView {
    text_message(
        id,
        channel,
        d.sender_id,
        d.sender_name,
        d.session_id,
        d.content,
        d.metadata,
    )
}

/// The drafts whose senders the allowlist admits, in order.
pub open spec fn admitted(list: Seq<Seq<char>>, drafts: Seq<DraftView>) -> Seq<DraftView>
    decreases drafts.len(),
{
    if drafts.len() == 0 {
        Seq::empty()
    } else {
        let head = admitted(list, drafts.drop_last());
        if allows(list, drafts.last().sender_id) {
            head.push(drafts.last())
        } else {
            head
        }
    }
}

/// Whether the messages are those of the drafts, each under some identifier;
/// nothing is said of the identifiers, which are drawn at random.
pub open spec fn messages_of_drafts(
    messages: Seq<InboundMessage>,
    channel: Seq<char>,
    drafts: Seq<DraftView>,
) -> bool {
    &&& messages.len() == drafts.len()
    &&& forall|i: int|
        0 <= i < drafts.len() ==> (#[trigger] messages[i])@ == draft_message(
            messages[i].id@,
            channel,
            drafts[i],
        )
}

impl BaseChannel {
    /// The message that a draft becomes under a fresh identifier, where its
    /// sender is allowed.
    pub fn handle_draft(&self, draft: Draft) -> (r: Option<InboundMessage>)
        ensures
            r is Some == self.allowed(draft.sender_id@),
            r matches Some(m) ==> m@ == draft_message(m.id@, self.name@, draft@),
    {
        self.handle_message(
            draft.sender_id.as_str(),
            draft.sender_name.as_str(),
            draft.session_id.as_str(),
            draft.content.as_str(),
            draft.metadata,
        )
    }

    /// The messages that the drafts of allowed senders become, each under a
    /// fresh identifier.
    pub fn handle_drafts(&self, drafts: Vec<Draft>) -> (r: Vec<InboundMessage>)
        ensures
            messages_of_drafts(
                r@,
                self.name@,
                admitted(texts(self.allow_from@), draft_views(drafts@)),
            ),
    {
        let mut out: Vec<InboundMessage> = Vec::new();
        let ghost all = draft_views(drafts@);
        let ghost list = texts(self.allow_from@);
        proof {
            assert(all.take(0) =~= Seq::<DraftView>::empty());
        }
        for d in it: drafts
            invariant
                it.seq() == drafts@,
                all == draft_views(drafts@),
                list == texts(self.allow_from@),
                messages_of_drafts(out@, self.name@, admitted(list, all.take(it.index() as int))),
        {
            proof {
                let k = it.index() as int;
                assert(all.take(k + 1).drop_last() =~= all.take(k));
                assert(all.take(k + 1).last() == d@);
            }
            if let Some(m) = self.handle_draft(d) {
                out.push(m);
            }
        }
        proof {
            assert(all.take(all.len() as int) =~= all);
        }
        out
    }
}

/// Nobody gets a message through whom the allowlist does not admit.
pub proof fn law_admitted_are_allowed(list: Seq<Seq<char>>, drafts: Seq<DraftView>)
    ensures
        forall|i: int|
            0 <= i < admitted(list, drafts).len() ==> allows(
                list,
                (#[trigger] admitted(list, drafts)[i]).sender_id,
            ),
    decreases drafts.len(),
{
    if drafts.len() > 0 {
        law_admitted_are_allowed(list, drafts.drop_last());
        let head = admitted(list, drafts.drop_last());
        let all = admitted(list, drafts);
        assert forall|i: int| 0 <= i < all.len() implies allows(
            list,
            (#[trigger] all[i]).sender_id,
        ) by {
            if i < head.len() {
                assert(all[i] == head[i]);
            }
        }
    }
}

} // verus!
