//! Memory as a directory of Markdown files, one for each entry.
use vstd::prelude::*;
use crate::memory::query::at_most;
use crate::memory::ranking::{lemma_ranked_map, rank, ranked};
use crate::memory::scope::{
    category_name, category_of, category_to_str, in_scope, in_session, same_category,
    scope_matches_entry, str_to_category,
};
use crate::model::memory::{
    entry_views, Category, CategoryView, EntryView, MemoryEntry, RecallScope, ScopeView,
};
use crate::text::{
    cat2, cat3, chars_of, contains, find, find_chars, is_text, lemma_find_from, lemma_find_in_rest,
    lines, lowercase, nat_text, opt_str, opt_string, replace, str_contains, str_lines, str_replace,
    str_strip_prefix, str_trim, str_trim_any, str_trim_end_char, str_trim_start_char, string_of,
    string_of_range, strip_prefix, texts, trim, trim_any, trim_end_char, trim_start_char, u64_text,
};

verus! {

// ---- file names ----

/// A character of a key in a file name.
pub open spec fn safe_char(c: char) -> char {
    if c == '/' || c == '\\' || c == '\0' {
        '_'
    } else {
        c
    }
}

pub open spec fn safe_chars(s: Seq<char>) -> Seq<char> {
    Seq::new(s.len(), |i: int| safe_char(s[i]))
}

/// A key as a file name: no separators, no pairs of dots, and neither dots nor
/// underscores at its ends.
pub open spec fn safe_name(key: Seq<char>) -> Seq<char> {
    let t = trim_any(replace(safe_chars(key), ".."@, "__"@), seq!['_', '.']);
    if t.len() == 0 {
        "_"@
    } else {
        t
    }
}

/// The file of a key.
pub open spec fn file_name(key: Seq<char>) -> Seq<char> {
    safe_name(key) + ".md"@
}

/// A file in a directory.
pub open spec fn path_in(dir: Seq<char>, file: Seq<char>) -> Seq<char> {
    if dir.len() == 0 || dir.last() == '/' {
        dir + file
    } else {
        dir + "/"@ + file
    }
}

/// The file of a key.
pub fn key_to_file(key: &str) -> (r: String)
    ensures
        r@ == file_name(key@),
{
    let mut a = chars_of(key);
    let n: usize = a.len();
    let mut i: usize = 0;
    while i < n
        invariant
            n == a@.len(),
            n == key@.len(),
            i <= n,
            forall|k: int| 0 <= k < i ==> a@[k] == safe_char(key@[k]),
            forall|k: int| i <= k < n ==> a@[k] == key@[k],
        decreases n - i,
    {
        if a[i] == '/' || a[i] == '\\' || a[i] == '\0' {
            a.set(i, '_');
        }
        i = i + 1;
    }
    let s = string_of(&a);
    proof {
        assert(s@ =~= safe_chars(key@));
    }
    let s = str_replace(s.as_str(), "..", "__");
    let marks: Vec<char> = vec!['_', '.'];
    proof {
        assert(marks@ =~= seq!['_', '.']);
    }
    let s = str_trim_any(s.as_str(), &marks);
    if s.as_str().is_empty() {
        cat2("_", ".md")
    } else {
        cat2(s.as_str(), ".md")
    }
}

// ---- files ----

pub open spec fn session_line(e: EntryView) -> Seq<char> {
    match e.session {
        Some(s) => "session: "@ + s + "\n"@,
        None => Seq::empty(),
    }
}

pub open spec fn topic_line(e: EntryView) -> Seq<char> {
    match e.topic {
        Some(t) => "topic: "@ + t + "\n"@,
        None => Seq::empty(),
    }
}

/// The file of an entry that was written at `now`.
pub open spec fn entry_text(e: EntryView, now: nat) -> Seq<char> {
    "---\nkey: "@ + e.key + "\ncategory: "@ + category_name(e.category) + "\n"@ + session_line(e)
        + topic_line(e) + "created_at: "@ + nat_text(now) + "\nupdated_at: "@ + nat_text(now)
        + "\n---\n\n"@ + e.content + "\n"@
}

/// The file of an entry that was written at `now`.
pub fn format_entry(entry: &MemoryEntry, now: u64) -> (r: String)
    ensures
        r@ == entry_text(entry@, now as nat),
{
    let ts = u64_text(now);
    let cat = category_to_str(&entry.category);
    let mut s = cat3("---\nkey: ", entry.key.as_str(), "\ncategory: ");
    s.append(cat.as_str());
    s.append("\n");
    let session = match &entry.session {
        Some(t) => cat3("session: ", t.as_str(), "\n"),
        None => String::new(),
    };
    proof {
        assert(session@ =~= session_line(entry@));
    }
    s.append(session.as_str());
    let topic = match &entry.topic {
        Some(t) => cat3("topic: ", t.as_str(), "\n"),
        None => String::new(),
    };
    proof {
        assert(topic@ =~= topic_line(entry@));
    }
    s.append(topic.as_str());
    s.append("created_at: ");
    s.append(ts.as_str());
    s.append("\nupdated_at: ");
    s.append(ts.as_str());
    s.append("\n---\n\n");
    s.append(entry.content.as_str());
    s.append("\n");
    s
}

/// What the head of a file says.
pub struct FrontMatter {
    pub key: Seq<char>,
    pub category: Seq<char>,
    pub session: Option<Seq<char>>,
    pub topic: Option<Seq<char>>,
}

pub open spec fn empty_front() -> FrontMatter {
    FrontMatter { key: Seq::empty(), category: "Daily"@, session: None, topic: None }
}

/// A value that is not empty.
pub open spec fn nonempty(v: Seq<char>, before: Option<Seq<char>>) -> Option<Seq<char>> {
    if v.len() == 0 {
        before
    } else {
        Some(v)
    }
}

/// The head with one more line.
pub open spec fn with_line(f: FrontMatter, line: Seq<char>) -> FrontMatter {
    match strip_prefix(line, "key: "@) {
        Some(v) => FrontMatter { key: trim(v), ..f },
        None => match strip_prefix(line, "category: "@) {
            Some(v) => FrontMatter { category: trim(v), ..f },
            None => match strip_prefix(line, "session: "@) {
                Some(v) => FrontMatter { session: nonempty(trim(v), f.session), ..f },
                None => match strip_prefix(line, "topic: "@) {
                    Some(v) => FrontMatter { topic: nonempty(trim(v), f.topic), ..f },
                    None => f,
                },
            },
        },
    }
}

pub open spec fn front_of(ls: Seq<Seq<char>>) -> FrontMatter
    decreases ls.len(),
{
    if ls.len() == 0 {
        empty_front()
    } else {
        with_line(front_of(ls.drop_last()), ls.last())
    }
}

/// The head and the body of a file.
pub open spec fn split_file(raw: Seq<char>) -> Option<(Seq<char>, Seq<char>)> {
    match strip_prefix(raw, "---\n"@) {
        Some(s) => match find(s, "\n---\n"@) {
            Some(p) => Some((s.take(p), s.skip(p + "\n---\n"@.len()))),
            None => None,
        },
        None => None,
    }
}

/// The entry of a file; none if the file has no head or the head no key.
pub open spec fn parsed_entry(raw: Seq<char>) -> Option<EntryView> {
    match split_file(raw) {
        Some((head, rest)) => {
            let f = front_of(lines(head));
            if f.key.len() == 0 {
                None
            } else {
                Some(
                    EntryView {
                        key: f.key,
                        content: trim_end_char(trim_start_char(rest, '\n'), '\n'),
                        category: category_of(f.category),
                        session: f.session,
                        topic: f.topic,
                    },
                )
            }
        },
        None => None,
    }
}

fn split_raw(raw: &str) -> (r: Option<(String, String)>)
    ensures
        match r {
            Some((h, b)) => split_file(raw@) == Some((h@, b@)),
            None => split_file(raw@) is None,
        },
{
    let s = match str_strip_prefix(raw, "---\n") {
        Some(s) => s,
        None => {
            return None;
        },
    };
    let a = chars_of(s.as_str());
    let n: usize = a.len();
    let mark = chars_of("\n---\n");
    let m: usize = mark.len();
    proof {
        lemma_find_from(a@, mark@, 0);
    }
    match find_chars(&a, &mark, 0) {
        Some(p) => {
            let head = string_of_range(&a, 0, p);
            let rest = string_of_range(&a, p + m, n);
            proof {
                assert(head@ =~= a@.take(p as int));
                assert(rest@ =~= a@.skip(p + m));
            }
            Some((head, rest))
        },
        None => None,
    }
}

/// Reads the file of an entry.
pub fn parse_markdown_entry(raw: &str) -> (r: Option<MemoryEntry>)
    ensures
        match r {
            Some(e) => parsed_entry(raw@) == Some(e@),
            None => parsed_entry(raw@) is None,
        },
{
    let (head, rest) = match split_raw(raw) {
        Some(p) => p,
        None => {
            return None;
        },
    };
    let ls = str_lines(head.as_str());
    let ghost all = texts(ls@);
    let mut key = String::new();
    let mut category = "Daily".to_owned();
    let mut session: Option<String> = None;
    let mut topic: Option<String> = None;
    let mut i: usize = 0;
    proof {
        assert(all.take(0) =~= Seq::<Seq<char>>::empty());
        assert(key@ =~= Seq::<char>::empty());
    }
    while i < ls.len()
        invariant
            i <= ls@.len(),
            all == texts(ls@),
            front_of(all.take(i as int)) == (FrontMatter {
                key: key@,
                category: category@,
                session: opt_string(session),
                topic: opt_string(topic),
            }),
        decreases ls.len() - i,
    {
        let line = ls[i].as_str();
        proof {
            assert(all.take(i + 1).drop_last() =~= all.take(i as int));
            assert(all.take(i + 1).last() == line@);
        }
        if let Some(v) = str_strip_prefix(line, "key: ") {
            key = str_trim(v.as_str());
        } else if let Some(v) = str_strip_prefix(line, "category: ") {
            category = str_trim(v.as_str());
        } else if let Some(v) = str_strip_prefix(line, "session: ") {
            let t = str_trim(v.as_str());
            if !t.as_str().is_empty() {
                session = Some(t);
            }
        } else if let Some(v) = str_strip_prefix(line, "topic: ") {
            let t = str_trim(v.as_str());
            if !t.as_str().is_empty() {
                topic = Some(t);
            }
        }
        i = i + 1;
    }
    proof {
        assert(all.take(all.len() as int) =~= all);
    }
    if key.as_str().is_empty() {
        return None;
    }
    let body = str_trim_start_char(rest.as_str(), '\n');
    let content = str_trim_end_char(body.as_str(), '\n');
    Some(
        MemoryEntry {
            key,
            content,
            category: str_to_category(category.as_str()),
            session,
            topic,
        },
    )
}

// ---- recall ----

/// How often a text occurs in another, without overlaps.
pub open spec fn occurrences(hay: Seq<char>, pat: Seq<char>) -> nat
    decreases hay.len(),
{
    match find(hay, pat) {
        Some(i) => if pat.len() > 0 && 0 <= i && i + pat.len() <= hay.len() {
            1 + occurrences(hay.skip(i + pat.len()), pat)
        } else {
            0
        },
        None => 0,
    }
}

/// Whether an entry is found: it is reached from the session, it is in scope
/// and its content or key holds the query, whatever the case.
pub open spec fn found(
    e: EntryView,
    query: Seq<char>,
    session: Option<Seq<char>>,
    scope: ScopeView,
) -> bool {
    &&& in_session(e, session)
    &&& in_scope(e, scope)
    &&& contains(lowercase(e.content), lowercase(query)) || contains(
        lowercase(e.key),
        lowercase(query),
    )
}

pub open spec fn all_found(
    s: Seq<EntryView>,
    query: Seq<char>,
    session: Option<Seq<char>>,
    scope: ScopeView,
) -> Seq<EntryView>
    decreases s.len(),
{
    if s.len() == 0 {
        Seq::empty()
    } else {
        let head = all_found(s.drop_last(), query, session, scope);
        if found(s.last(), query, session, scope) {
            head.push(s.last())
        } else {
            head
        }
    }
}

/// How relevant an entry is: how often its content holds the query.
pub open spec fn relevance(e: EntryView, query: Seq<char>) -> u64 {
    occurrences(lowercase(e.content), lowercase(query)) as u64
}

/// The entries with how relevant they are.
pub open spec fn scored(s: Seq<EntryView>, query: Seq<char>) -> Seq<(u64, EntryView)> {
    Seq::new(s.len(), |i: int| (relevance(s[i], query), s[i]))
}

pub open spec fn unscored(s: Seq<(u64, EntryView)>) -> Seq<EntryView> {
    Seq::new(s.len(), |i: int| s[i].1)
}

/// What a recall returns of some entries: those found, the most relevant
/// first, at most `limit`.
pub open spec fn recalled(
    s: Seq<EntryView>,
    query: Seq<char>,
    limit: nat,
    session: Option<Seq<char>>,
    scope: ScopeView,
) -> Seq<EntryView> {
    at_most(unscored(ranked(scored(all_found(s, query, session, scope), query))), limit as int)
}

/// A clean recall returns nothing, whatever there is.
pub proof fn law_clean_recall_is_empty(
    s: Seq<EntryView>,
    query: Seq<char>,
    limit: nat,
    session: Option<Seq<char>>,
)
    ensures
        recalled(s, query, limit, session, ScopeView::Clean).len() == 0,
    decreases s.len(),
{
    lemma_nothing_found(s, query, session);
}

proof fn lemma_nothing_found(s: Seq<EntryView>, query: Seq<char>, session: Option<Seq<char>>)
    ensures
        all_found(s, query, session, ScopeView::Clean) == Seq::<EntryView>::empty(),
    decreases s.len(),
{
    if s.len() > 0 {
        lemma_nothing_found(s.drop_last(), query, session);
    }
}

fn count_occurrences(hay: &str, pat: &str) -> (r: u64)
    ensures
        r == occurrences(hay@, pat@) as u64,
{
    let a = chars_of(hay);
    let p = chars_of(pat);
    let n: usize = a.len();
    let m: usize = p.len();
    let mut count: u64 = 0;
    let mut at: usize = 0;
    proof {
        assert(a@.skip(0) =~= a@);
    }
    if m == 0 {
        return 0;
    }
    loop
        invariant
            n == a@.len(),
            m == p@.len(),
            m > 0,
            at <= n,
            a@ == hay@,
            p@ == pat@,
            count <= at,
            occurrences(hay@, pat@) == count + occurrences(a@.skip(at as int), p@),
        decreases n - at,
    {
        proof {
            lemma_find_in_rest(a@, p@, at as int);
            lemma_find_from(a@, p@, at as int);
        }
        match find_chars(&a, &p, at) {
            Some(i) => {
                proof {
                    assert(a@.skip(at as int).skip(i - at + m) =~= a@.skip(i + m));
                }
                count = count + 1;
                at = i + m;
            },
            None => {
                return count;
            },
        }
    }
}

/// The memory of a directory.
#[derive(Debug)]
pub struct MarkdownMemory {
    pub dir: String,
}

impl MarkdownMemory {
    pub fn new(dir: &str) -> (r: MarkdownMemory)
        ensures
            r.dir@ == dir@,
    {
        MarkdownMemory { dir: dir.to_owned() }
    }

    pub fn name(&self) -> (r: &'static str)
        ensures
            r@ == "markdown"@,
    {
        "markdown"
    }

    /// The path of the file of a key.
    pub fn key_to_path(&self, key: &str) -> (r: String)
        ensures
            r@ == path_in(self.dir@, file_name(key@)),
    {
        let file = key_to_file(key);
        let a = chars_of(self.dir.as_str());
        if a.len() == 0 || a[a.len() - 1] == '/' {
            cat2(self.dir.as_str(), file.as_str())
        } else {
            cat3(self.dir.as_str(), "/", file.as_str())
        }
    }

    /// The entry that is stored under a key.
    pub fn entry(
        key: &str,
        content: &str,
        category: Category,
        session: Option<&str>,
        topic: Option<&str>,
    ) -> (r: MemoryEntry)
        ensures
            r@ == (EntryView {
                key: key@,
                content: content@,
                category: category@,
                session: opt_str(session),
                topic: opt_str(topic),
            }),
    {
        MemoryEntry {
            key: key.to_owned(),
            content: content.to_owned(),
            category,
            session: match session {
                Some(s) => Some(s.to_owned()),
                None => None,
            },
            topic: match topic {
                Some(t) => Some(t.to_owned()),
                None => None,
            },
        }
    }

    /// What a recall returns of all entries.
    pub fn recall(
        entries: Vec<MemoryEntry>,
        query: &str,
        limit: usize,
        session: Option<&str>,
        scope: &RecallScope,
    ) -> (r: Vec<MemoryEntry>)
        ensures
            entry_views(r@) == recalled(
                entry_views(entries@),
                query@,
                limit as nat,
                opt_str(session),
                scope@,
            ),
    {
        let ghost all = entry_views(entries@);
        let q = query.to_lowercase();
        let mut items: Vec<(u64, MemoryEntry)> = Vec::new();
        let ghost mut hits: Seq<EntryView> = Seq::empty();
        proof {
            assert(all.take(0) =~= Seq::<EntryView>::empty());
        }
        for e in it: entries
            invariant
                entry_views(it.seq()) == all,
                q@ == lowercase(query@),
                hits == all_found(all.take(it.index() as int), query@, opt_str(session), scope@),
                items@.len() == hits.len(),
                forall|i: int|
                    0 <= i < hits.len() ==> (#[trigger] items@[i]).0 == relevance(hits[i], query@)
                        && items@[i].1@ == hits[i],
        {
            let ghost k = it.index() as int;
            proof {
                assert(all[k] == e@);
                assert(all.take(k + 1).drop_last() =~= all.take(k));
                assert(all.take(k + 1).last() == e@);
            }
            let reached = match session {
                Some(s) => !same_category(&e.category, &Category::Conversation) || is_text(
                    &e.session,
                    s,
                ),
                None => true,
            };
            if reached && scope_matches_entry(&e, scope) {
                let content = e.content.as_str().to_lowercase();
                let key = e.key.as_str().to_lowercase();
                if str_contains(content.as_str(), q.as_str()) || str_contains(
                    key.as_str(),
                    q.as_str(),
                ) {
                    let n: u64 = count_occurrences(content.as_str(), q.as_str());
                    items.push((n, e));
                    proof {
                        hits = hits.push(e@);
                    }
                }
            }
        }
        proof {
            assert(all.take(all.len() as int) =~= all);
        }
        let ghost raw = items@;
        let ghost f = |e: MemoryEntry| e@;
        proof {
            lemma_ranked_map(raw, f);
            assert(Seq::new(raw.len(), |i: int| (raw[i].0, f(raw[i].1))) =~= scored(
                hits,
                query@,
            ));
        }
        let sorted = rank(items);
        let ghost order = sorted@;
        let mut out: Vec<MemoryEntry> = Vec::new();
        for x in it: sorted
            invariant
                it.seq() == order,
                out@.len() == it.index(),
                forall|i: int| 0 <= i < out@.len() ==> (#[trigger] out@[i])@ == order[i].1@,
        {
            out.push(x.1);
        }
        proof {
            assert(entry_views(out@) =~= unscored(ranked(scored(hits, query@))));
        }
        let ghost full = entry_views(out@);
        if out.len() > limit {
            out.truncate(limit);
            proof {
                assert(entry_views(out@) =~= full.take(limit as int));
            }
        }
        out
    }

    /// Whether an entry is listed.
    pub open spec fn listed(
        e: EntryView,
        category: Option<CategoryView>,
        session: Option<Seq<char>>,
    ) -> bool {
        (category is Some ==> e.category == category->0) && (session is Some ==> e.session
            == session)
    }

    pub open spec fn all_listed(
        s: Seq<EntryView>,
        category: Option<CategoryView>,
        session: Option<Seq<char>>,
    ) -> Seq<EntryView>
        decreases s.len(),
    {
        if s.len() == 0 {
            Seq::empty()
        } else {
            let head = Self::all_listed(s.drop_last(), category, session);
            if Self::listed(s.last(), category, session) {
                head.push(s.last())
            } else {
                head
            }
        }
    }

    /// The entries of a category and of a session.
    pub fn list(
        entries: Vec<MemoryEntry>,
        category: Option<&Category>,
        session: Option<&str>,
    ) -> (r: Vec<MemoryEntry>)
        ensures
            entry_views(r@) == Self::all_listed(
                entry_views(entries@),
                match category {
                    Some(c) => Some(c@),
                    None => None,
                },
                opt_str(session),
            ),
    {
        let ghost all = entry_views(entries@);
        let ghost cat: Option<CategoryView> = match category {
            Some(c) => Some(c@),
            None => None,
        };
        let mut out: Vec<MemoryEntry> = Vec::new();
        proof {
            assert(all.take(0) =~= Seq::<EntryView>::empty());
            assert(entry_views(out@) =~= Seq::<EntryView>::empty());
        }
        for e in it: entries
            invariant
                entry_views(it.seq()) == all,
                cat == match category {
                    Some(c) => Some(c@),
                    None => None,
                },
                entry_views(out@) == Self::all_listed(
                    all.take(it.index() as int),
                    cat,
                    opt_str(session),
                ),
        {
            let ghost k = it.index() as int;
            let ghost before = entry_views(out@);
            proof {
                assert(all[k] == e@);
                assert(all.take(k + 1).drop_last() =~= all.take(k));
                assert(all.take(k + 1).last() == e@);
            }
            let of_category = match category {
                Some(c) => same_category(&e.category, c),
                None => true,
            };
            let of_session = match session {
                Some(s) => is_text(&e.session, s),
                None => true,
            };
            if of_category && of_session {
                out.push(e);
                proof {
                    assert(entry_views(out@) =~= before.push(e@));
                }
            }
        }
        proof {
            assert(all.take(all.len() as int) =~= all);
        }
        out
    }
}

} // verus!
