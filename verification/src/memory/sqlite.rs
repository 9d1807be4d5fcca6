//! Memory in an SQLite database: its statements, and how a recall proceeds
//! from one to the next.
use vstd::prelude::*;
use crate::memory::query::{at_most, last_under, pick_entries, picked};
use crate::memory::rrf::{
    collect_ranks, fuse, fused, list_views, rank_table, rank_views, result_views, RankView,
    RankedKey,
};
use crate::memory::scope::{
    category_name, category_of, category_to_str, in_scope, keep_scope, scope_matches_entry, scoped,
    str_to_category,
};
use crate::memory::sql::{
    in_keys, opt_arg, opt_value, push_arg, query, query_in_keys, signed, signed_count, sql_args,
    QueryView, SqlArg, SqlQuery, SqlValue,
};
use crate::model::memory::{
    entry_views, Category, CategoryView, EntryView, MemoryEntry, RecallScope, ScopeView,
};
use crate::text::{
    cat3, nat_text, opt_str, opt_string, replace, same_str, str_replace, texts, u64_text,
};

verus! {

/// What is done to every database that is opened.
pub const SCHEMA: &'static str =
    "PRAGMA journal_mode=WAL; PRAGMA foreign_keys=ON; CREATE TABLE IF NOT EXISTS memory (key TEXT PRIMARY KEY, content TEXT NOT NULL, category TEXT NOT NULL DEFAULT 'Daily', session TEXT, topic TEXT, created_at INTEGER NOT NULL DEFAULT (strftime('%s','now')), updated_at INTEGER NOT NULL DEFAULT (strftime('%s','now'))); CREATE TABLE IF NOT EXISTS topics (topic_id TEXT PRIMARY KEY, label TEXT, created_at INTEGER NOT NULL DEFAULT (strftime('%s','now')), last_used_at INTEGER NOT NULL DEFAULT (strftime('%s','now'))); CREATE VIRTUAL TABLE IF NOT EXISTS memory_fts USING fts5(key UNINDEXED, content, content='memory', content_rowid='rowid', tokenize='unicode61'); CREATE TRIGGER IF NOT EXISTS memory_ai AFTER INSERT ON memory BEGIN INSERT INTO memory_fts(rowid, key, content) VALUES (new.rowid, new.key, new.content); END; CREATE TRIGGER IF NOT EXISTS memory_au AFTER UPDATE ON memory BEGIN INSERT INTO memory_fts(memory_fts, rowid, key, content) VALUES ('delete', old.rowid, old.key, old.content); INSERT INTO memory_fts(rowid, key, content) VALUES (new.rowid, new.key, new.content); END; CREATE TRIGGER IF NOT EXISTS memory_ad AFTER DELETE ON memory BEGIN INSERT INTO memory_fts(memory_fts, rowid, key, content) VALUES ('delete', old.rowid, old.key, old.content); END;";

/// Brings a database from before topics up to date; it fails on any other.
pub const MIGRATION: &'static str = "ALTER TABLE memory ADD COLUMN topic TEXT;";

pub const STORE: &'static str =
    "INSERT INTO memory (key, content, category, session, topic) VALUES (?1, ?2, ?3, ?4, ?5) ON CONFLICT(key) DO UPDATE SET content = excluded.content, category = excluded.category, session = excluded.session, topic = excluded.topic, updated_at = strftime('%s','now')";

pub const UPSERT_EMBEDDING: &'static str =
    "INSERT INTO memory_vss (key, embedding) VALUES (?1, ?2) ON CONFLICT(key) DO UPDATE SET embedding = excluded.embedding";

pub const DELETE_EMBEDDING: &'static str = "DELETE FROM memory_vss WHERE key = ?1";

/// The nearest entries; conversations of other sessions are passed over.
pub const NEAREST_IN_SESSION: &'static str =
    "SELECT v.key FROM memory_vss v JOIN memory m ON v.key = m.key WHERE v.embedding MATCH ?1 AND k = ?2 AND (m.session = ?3 OR m.category <> 'Conversation') ORDER BY distance";

pub const NEAREST: &'static str =
    "SELECT v.key FROM memory_vss v WHERE v.embedding MATCH ?1 AND k = ?2 ORDER BY distance";

/// The entries with the words; conversations of other sessions are passed
/// over.
pub const WORDS_IN_SESSION: &'static str =
    "SELECT m.key FROM memory m JOIN memory_fts f ON m.rowid = f.rowid WHERE memory_fts MATCH ?1 AND (m.session = ?3 OR m.category <> 'Conversation') ORDER BY rank LIMIT ?2";

pub const WORDS: &'static str =
    "SELECT m.key FROM memory m JOIN memory_fts f ON m.rowid = f.rowid WHERE memory_fts MATCH ?1 ORDER BY rank LIMIT ?2";

/// The entries that hold a text; conversations of other sessions are passed
/// over.
pub const SCAN_IN_SESSION: &'static str =
    "SELECT key, content, category, session, topic FROM memory WHERE content LIKE ?1 AND (session = ?2 OR category <> 'Conversation') LIMIT ?3";

pub const SCAN: &'static str =
    "SELECT key, content, category, session, topic FROM memory WHERE content LIKE ?1 LIMIT ?2";

pub const FETCH: &'static str =
    "SELECT key, content, category, session, topic FROM memory WHERE key";

pub const DESCRIBE: &'static str = "SELECT key, category, topic FROM memory WHERE key";

pub const GET: &'static str =
    "SELECT key, content, category, session, topic FROM memory WHERE key = ?1";

pub const LIST_BOTH: &'static str =
    "SELECT key, content, category, session, topic FROM memory WHERE category = ?1 AND session = ?2 ORDER BY updated_at DESC";

pub const LIST_CATEGORY: &'static str =
    "SELECT key, content, category, session, topic FROM memory WHERE category = ?1 ORDER BY updated_at DESC";

pub const LIST_SESSION: &'static str =
    "SELECT key, content, category, session, topic FROM memory WHERE session = ?2 ORDER BY updated_at DESC";

pub const LIST_ALL: &'static str =
    "SELECT key, content, category, session, topic FROM memory ORDER BY updated_at DESC";

pub const FORGET: &'static str = "DELETE FROM memory WHERE key = ?1";

pub const COUNT: &'static str = "SELECT COUNT(*) FROM memory";

pub const PROBE: &'static str = "SELECT 1";

pub const EXPIRED: &'static str =
    "SELECT key FROM memory WHERE category = ?1 AND created_at < (strftime('%s','now') - ?2)";

pub const EXPIRE: &'static str =
    "DELETE FROM memory WHERE category = ?1 AND created_at < (strftime('%s','now') - ?2)";

pub open spec fn store_query(e: EntryView) -> QueryView {
    QueryView {
        sql: STORE@,
        params: seq![
            SqlArg::Text(e.key),
            SqlArg::Text(e.content),
            SqlArg::Text(category_name(e.category)),
            opt_arg(e.session),
            opt_arg(e.topic),
        ],
    }
}

pub open spec fn get_query(key: Seq<char>) -> QueryView {
    QueryView { sql: GET@, params: seq![SqlArg::Text(key)] }
}

pub open spec fn forget_query(key: Seq<char>) -> QueryView {
    QueryView { sql: FORGET@, params: seq![SqlArg::Text(key)] }
}

pub open spec fn list_query(category: Option<CategoryView>, session: Option<Seq<char>>) -> QueryView {
    match (category, session) {
        (Some(c), Some(s)) => QueryView {
            sql: LIST_BOTH@,
            params: seq![SqlArg::Text(category_name(c)), SqlArg::Text(s)],
        },
        (Some(c), None) => QueryView {
            sql: LIST_CATEGORY@,
            params: seq![SqlArg::Text(category_name(c))],
        },
        (None, Some(s)) => QueryView {
            sql: LIST_SESSION@,
            params: seq![SqlArg::Null, SqlArg::Text(s)],
        },
        (None, None) => QueryView { sql: LIST_ALL@, params: Seq::empty() },
    }
}

/// How many entries a search asks for: three times what is returned, and at
/// least twenty.
pub open spec fn fetch_count(limit: nat) -> nat {
    if 3 * limit >= 20 {
        3 * limit
    } else {
        20
    }
}

/// A query in the search for words: one phrase, its quotes doubled.
pub open spec fn phrase(q: Seq<char>) -> Seq<char> {
    "\""@ + replace(q, "\""@, "\"\""@) + "\""@
}

pub open spec fn words_view(q: Seq<char>, n: nat, session: Option<Seq<char>>) -> QueryView {
    match session {
        Some(s) => QueryView {
            sql: WORDS_IN_SESSION@,
            params: seq![
                SqlArg::Text(phrase(q)),
                SqlArg::Int(signed(n)),
                SqlArg::Text(s),
            ],
        },
        None => QueryView {
            sql: WORDS@,
            params: seq![SqlArg::Text(phrase(q)), SqlArg::Int(signed(n))],
        },
    }
}

pub open spec fn nearest_view(b: Seq<u8>, n: nat, session: Option<Seq<char>>) -> QueryView {
    match session {
        Some(s) => QueryView {
            sql: NEAREST_IN_SESSION@,
            params: seq![SqlArg::Blob(b), SqlArg::Int(signed(n)), SqlArg::Text(s)],
        },
        None => QueryView {
            sql: NEAREST@,
            params: seq![SqlArg::Blob(b), SqlArg::Int(signed(n))],
        },
    }
}

pub open spec fn scan_view(q: Seq<char>, n: nat, session: Option<Seq<char>>) -> QueryView {
    let pattern = SqlArg::Text("%"@ + q + "%"@);
    match session {
        Some(s) => QueryView {
            sql: SCAN_IN_SESSION@,
            params: seq![pattern, SqlArg::Text(s), SqlArg::Int(signed(n))],
        },
        None => QueryView { sql: SCAN@, params: seq![pattern, SqlArg::Int(signed(n))] },
    }
}

/// The search for words.
pub fn fts_search(q: &str, n: usize, session: Option<&str>) -> (r: SqlQuery)
    ensures
        r@ == words_view(q@, n as nat, opt_str(session)),
{
    let escaped = str_replace(q, "\"", "\"\"");
    let mut params: Vec<SqlValue> = Vec::new();
    push_arg(&mut params, SqlValue::Text(cat3("\"", escaped.as_str(), "\"")));
    push_arg(&mut params, SqlValue::Int(signed_count(n)));
    match session {
        Some(s) => {
            push_arg(&mut params, SqlValue::Text(s.to_owned()));
            proof {
                assert(sql_args(params@) =~= words_view(q@, n as nat, Some(s@)).params);
            }
            query(WORDS_IN_SESSION, params)
        },
        None => {
            proof {
                assert(sql_args(params@) =~= words_view(q@, n as nat, None).params);
            }
            query(WORDS, params)
        },
    }
}

/// The search for the nearest embeddings.
pub fn vector_search(query_bytes: Vec<u8>, n: usize, session: Option<&str>) -> (r: SqlQuery)
    ensures
        r@ == nearest_view(query_bytes@, n as nat, opt_str(session)),
{
    let mut params: Vec<SqlValue> = Vec::new();
    push_arg(&mut params, SqlValue::Blob(query_bytes));
    push_arg(&mut params, SqlValue::Int(signed_count(n)));
    match session {
        Some(s) => {
            push_arg(&mut params, SqlValue::Text(s.to_owned()));
            proof {
                assert(sql_args(params@) =~= nearest_view(
                    query_bytes@,
                    n as nat,
                    Some(s@),
                ).params);
            }
            query(NEAREST_IN_SESSION, params)
        },
        None => {
            proof {
                assert(sql_args(params@) =~= nearest_view(query_bytes@, n as nat, None).params);
            }
            query(NEAREST, params)
        },
    }
}

/// The search for entries that hold a text.
pub fn scan_search(q: &str, n: usize, session: Option<&str>) -> (r: SqlQuery)
    ensures
        r@ == scan_view(q@, n as nat, opt_str(session)),
{
    let mut params: Vec<SqlValue> = Vec::new();
    push_arg(&mut params, SqlValue::Text(cat3("%", q, "%")));
    match session {
        Some(s) => {
            push_arg(&mut params, SqlValue::Text(s.to_owned()));
            push_arg(&mut params, SqlValue::Int(signed_count(n)));
            proof {
                assert(sql_args(params@) =~= scan_view(q@, n as nat, Some(s@)).params);
            }
            query(SCAN_IN_SESSION, params)
        },
        None => {
            push_arg(&mut params, SqlValue::Int(signed_count(n)));
            proof {
                assert(sql_args(params@) =~= scan_view(q@, n as nat, None).params);
            }
            query(SCAN, params)
        },
    }
}

/// An entry from the columns of a row.
pub fn row_to_entry(
    key: String,
    content: String,
    category: String,
    session: Option<String>,
    topic: Option<String>,
) -> (r: MemoryEntry)
    ensures
        r@ == (EntryView {
            key: key@,
            content: content@,
            category: category_of(category@),
            session: opt_string(session),
            topic: opt_string(topic),
        }),
{
    let category = str_to_category(category.as_str());
    MemoryEntry { key, content, category, session, topic }
}

/// What decides whether an entry is in scope.
#[derive(Debug)]
pub struct KeyMeta {
    pub key: String,
    pub category: String,
    pub topic: Option<String>,
}

/// An entry that says of itself what decides whether it is in scope.
pub open spec fn stub(m: KeyMeta) -> EntryView {
    EntryView {
        key: m.key@,
        content: Seq::empty(),
        category: category_of(m.category@),
        session: None,
        topic: opt_string(m.topic),
    }
}

pub open spec fn stubs(s: Seq<KeyMeta>) -> Seq<EntryView> {
    Seq::new(s.len(), |i: int| stub(s[i]))
}

/// The keys whose entries are in scope, in their order; keys of which nothing
/// is known are left out.
pub open spec fn keys_in_scope(
    keys: Seq<Seq<char>>,
    described: Seq<EntryView>,
    scope: ScopeView,
) -> Seq<Seq<char>>
    decreases keys.len(),
{
    if keys.len() == 0 {
        Seq::empty()
    } else {
        let head = keys_in_scope(keys.drop_last(), described, scope);
        match last_under(described, keys.last()) {
            Some(e) => if in_scope(e, scope) {
                head.push(keys.last())
            } else {
                head
            },
            None => head,
        }
    }
}

fn make_stub(m: &KeyMeta) -> (r: MemoryEntry)
    ensures
        r@ == stub(*m),
{
    let r = MemoryEntry {
        key: m.key.clone(),
        content: String::new(),
        category: str_to_category(m.category.as_str()),
        session: None,
        topic: crate::model::memory::clone_opt(&m.topic),
    };
    proof {
        assert(r@.content =~= Seq::<char>::empty());
    }
    r
}

fn find_stub(meta: &Vec<KeyMeta>, key: &str) -> (r: Option<MemoryEntry>)
    ensures
        match r {
            Some(e) => last_under(stubs(meta@), key@) == Some(e@),
            None => last_under(stubs(meta@), key@) is None,
        },
{
    let ghost all = stubs(meta@);
    let mut i: usize = meta.len();
    proof {
        assert(all.take(all.len() as int) =~= all);
    }
    while i > 0
        invariant
            i <= meta@.len(),
            all == stubs(meta@),
            last_under(all, key@) == last_under(all.take(i as int), key@),
        decreases i,
    {
        proof {
            assert(all.take(i as int).drop_last() =~= all.take(i - 1));
            assert(all.take(i as int).last() == stub(meta@[i - 1]));
        }
        if same_str(meta[i - 1].key.as_str(), key) {
            return Some(make_stub(&meta[i - 1]));
        }
        i = i - 1;
    }
    None
}

/// The keys whose entries are in scope.
pub fn filter_keys_by_scope(
    keys: Vec<String>,
    meta: &Vec<KeyMeta>,
    scope: &RecallScope,
) -> (r: Vec<String>)
    ensures
        texts(r@) == keys_in_scope(texts(keys@), stubs(meta@), scope@),
{
    let ghost all = texts(keys@);
    let mut out: Vec<String> = Vec::new();
    proof {
        assert(all.take(0) =~= Seq::<Seq<char>>::empty());
        assert(texts(out@) =~= Seq::<Seq<char>>::empty());
    }
    for k in it: keys
        invariant
            texts(it.seq()) == all,
            texts(out@) == keys_in_scope(all.take(it.index() as int), stubs(meta@), scope@),
    {
        let ghost i = it.index() as int;
        let ghost before = texts(out@);
        proof {
            assert(all[i] == k@);
            assert(all.take(i + 1).drop_last() =~= all.take(i));
            assert(all.take(i + 1).last() == k@);
        }
        if let Some(e) = find_stub(meta, k.as_str()) {
            if scope_matches_entry(&e, scope) {
                out.push(k);
                proof {
                    assert(texts(out@) =~= before.push(k@));
                }
            }
        }
    }
    proof {
        assert(all.take(all.len() as int) =~= all);
    }
    out
}

// ---- recall ----

/// What is asked of a recall.
#[derive(Debug)]
pub struct RecallRequest {
    pub query: String,
    pub limit: usize,
    pub session: Option<String>,
    pub scope: RecallScope,
}

/// What has happened.
#[derive(Debug)]
pub enum RecallEvent {
    Start,
    /// The query has been embedded.
    Embedded(Vec<u8>),
    EmbedFailed,
    /// Both searches are done.
    FoundBoth { by_likeness: Result<Vec<String>, String>, by_words: Result<Vec<String>, String> },
    /// The keys that the searches found have their scores.
    Scored { table: Vec<RankedKey>, scores: Vec<u64> },
    /// The search for words is done.
    FoundByWords(Result<Vec<String>, String>),
    /// It is known of the keys what decides about their scope.
    Described { keys: Vec<String>, meta: Result<Vec<KeyMeta>, String> },
    /// The entries of the keys have been fetched.
    Fetched { keys: Vec<String>, rows: Result<Vec<MemoryEntry>, String> },
    /// The entries that hold the query have been found.
    Scanned(Result<Vec<MemoryEntry>, String>),
}

/// What is to be done next.
#[derive(Debug)]
pub enum RecallAction {
    Return(Vec<MemoryEntry>),
    /// The recall fails.
    Fail(String),
    /// Embed the query.
    Embed,
    SearchBoth { likeness: SqlQuery, words: SqlQuery },
    SearchWords(SqlQuery),
    /// Score the keys by their positions.
    Score(Vec<RankedKey>),
    Describe { keys: Vec<String>, query: SqlQuery },
    Fetch { keys: Vec<String>, query: SqlQuery },
    Scan(SqlQuery),
}

pub enum ActionView {
    Return(Seq<EntryView>),
    Fail(Seq<char>),
    Embed,
    SearchBoth { likeness: QueryView, words: QueryView },
    SearchWords(QueryView),
    Score(Seq<RankView>),
    Describe { keys: Seq<Seq<char>>, query: QueryView },
    Fetch { keys: Seq<Seq<char>>, query: QueryView },
    Scan(QueryView),
}

impl View for RecallAction {
    type V = ActionView;

    open spec fn view(&self) -> ActionView {
        match *self {
            RecallAction::Return(v) => ActionView::Return(entry_views(v@)),
            RecallAction::Fail(e) => ActionView::Fail(e@),
            RecallAction::Embed => ActionView::Embed,
            RecallAction::SearchBoth { likeness, words } => ActionView::SearchBoth {
                likeness: likeness@,
                words: words@,
            },
            RecallAction::SearchWords(q) => ActionView::SearchWords(q@),
            RecallAction::Score(t) => ActionView::Score(rank_views(t@)),
            RecallAction::Describe { keys, query } => ActionView::Describe {
                keys: texts(keys@),
                query: query@,
            },
            RecallAction::Fetch { keys, query } => ActionView::Fetch {
                keys: texts(keys@),
                query: query@,
            },
            RecallAction::Scan(q) => ActionView::Scan(q@),
        }
    }
}

/// Asks what decides about the scope of some keys; of none nothing comes.
pub open spec fn described(keys: Seq<Seq<char>>) -> ActionView {
    if keys.len() == 0 {
        ActionView::Return(Seq::empty())
    } else {
        ActionView::Describe { keys, query: in_keys(DESCRIBE@, keys) }
    }
}

/// The keys that a search found; one that failed has found nothing.
pub open spec fn found_keys(r: Result<Vec<String>, String>) -> Seq<Seq<char>> {
    match r {
        Ok(v) => texts(v@),
        Err(_) => Seq::empty(),
    }
}

/// How a recall proceeds: the hybrid of both searches where there is an index
/// of embeddings; else, or where that finds nothing, the search for words; and
/// where that finds nothing too, a scan.  A search that fails has found
/// nothing; any other failure is that of the recall.
pub open spec fn next_action(
    vectors: bool,
    req: RecallRequest,
    event: RecallEvent,
) -> ActionView {
    let q = req.query@;
    let session = opt_string(req.session);
    let n = fetch_count(req.limit as nat);
    let words = words_view(q, n, session);
    match event {
        RecallEvent::Start => if req.scope is Clean {
            ActionView::Return(Seq::empty())
        } else if vectors {
            ActionView::Embed
        } else {
            ActionView::SearchWords(words)
        },
        RecallEvent::EmbedFailed => ActionView::SearchWords(words),
        RecallEvent::Embedded(b) => ActionView::SearchBoth {
            likeness: nearest_view(b@, n, session),
            words,
        },
        RecallEvent::FoundBoth { by_likeness, by_words } => if found_keys(by_likeness).len() == 0
            && found_keys(by_words).len() == 0 {
            ActionView::SearchWords(words)
        } else {
            ActionView::Score(rank_table(seq![found_keys(by_likeness), found_keys(by_words)]))
        },
        RecallEvent::Scored { table, scores } => {
            let f = fused(rank_views(table@), scores@);
            described(Seq::new(f.len(), |i: int| f[i].1))
        },
        RecallEvent::FoundByWords(keys) => if found_keys(keys).len() == 0 {
            ActionView::Scan(scan_view(q, n, session))
        } else {
            described(found_keys(keys))
        },
        RecallEvent::Described { keys, meta: Err(e) } => ActionView::Fail(e@),
        RecallEvent::Described { keys, meta: Ok(meta) } => {
            let top = at_most(
                keys_in_scope(texts(keys@), stubs(meta@), req.scope@),
                req.limit as int,
            );
            if top.len() == 0 {
                ActionView::Return(Seq::empty())
            } else {
                ActionView::Fetch { keys: top, query: in_keys(FETCH@, top) }
            }
        },
        RecallEvent::Fetched { keys, rows: Err(e) } => ActionView::Fail(e@),
        RecallEvent::Fetched { keys, rows: Ok(rows) } => ActionView::Return(
            picked(texts(keys@), entry_views(rows@)),
        ),
        RecallEvent::Scanned(Err(e)) => ActionView::Fail(e@),
        RecallEvent::Scanned(Ok(rows)) => ActionView::Return(
            scoped(entry_views(rows@), req.scope@, req.limit as nat),
        ),
    }
}

/// What is known of a memory in a database: whether the database can index
/// embeddings, whether texts can be embedded, and the size of an embedding.
#[derive(Debug)]
pub struct SqliteMemory {
    pub vector_support: bool,
    pub has_embedder: bool,
    pub embed_dim: usize,
}

fn nothing() -> (r: RecallAction)
    ensures
        r@ == ActionView::Return(Seq::empty()),
{
    let v: Vec<MemoryEntry> = Vec::new();
    proof {
        assert(entry_views(v@) =~= Seq::<EntryView>::empty());
    }
    RecallAction::Return(v)
}

fn keys_found(r: Result<Vec<String>, String>) -> (v: Vec<String>)
    ensures
        texts(v@) == found_keys(r),
{
    match r {
        Ok(v) => v,
        Err(_) => {
            let none: Vec<String> = Vec::new();
            proof {
                assert(texts(none@) =~= Seq::<Seq<char>>::empty());
            }
            none
        },
    }
}

fn describe(keys: Vec<String>) -> (r: RecallAction)
    ensures
        r@ == described(texts(keys@)),
{
    proof {
        assert(texts(keys@).len() == keys@.len());
    }
    if keys.len() == 0 {
        return nothing();
    }
    let query = query_in_keys(DESCRIBE, &keys);
    RecallAction::Describe { keys, query }
}

impl SqliteMemory {
    /// Embeddings of the given size; none if it is zero.
    pub fn new(vector_support: bool, embed_dim: Option<usize>) -> (r: SqliteMemory)
        ensures
            r.vector_support == vector_support,
            r.has_embedder == embed_dim is Some,
            r.embed_dim == match embed_dim {
                Some(d) => d,
                None => 0,
            },
    {
        SqliteMemory {
            vector_support,
            has_embedder: embed_dim.is_some(),
            embed_dim: match embed_dim {
                Some(d) => d,
                None => 0,
            },
        }
    }

    pub fn name(&self) -> (r: &'static str)
        ensures
            r@ == "sqlite"@,
    {
        "sqlite"
    }

    /// Whether there is an index of embeddings.
    pub open spec fn indexes_vectors(&self) -> bool {
        self.vector_support && self.embed_dim > 0 && self.has_embedder
    }

    /// Whether there is an index of embeddings.
    pub fn has_vector_index(&self) -> (r: bool)
        ensures
            r == self.indexes_vectors(),
    {
        self.vector_support && self.embed_dim > 0 && self.has_embedder
    }

    /// The statement that makes the index of embeddings, if there is one.
    pub fn vector_table(&self) -> (r: Option<String>)
        ensures
            opt_string(r) == if self.vector_support && self.embed_dim > 0 {
                Some(
                    "CREATE VIRTUAL TABLE IF NOT EXISTS memory_vss USING vec0(key TEXT PRIMARY KEY, embedding float["@
                        + nat_text(self.embed_dim as nat) + "]);"@,
                )
            } else {
                None
            },
    {
        if self.vector_support && self.embed_dim > 0 {
            let n = u64_text(self.embed_dim as u64);
            Some(
                cat3(
                    "CREATE VIRTUAL TABLE IF NOT EXISTS memory_vss USING vec0(key TEXT PRIMARY KEY, embedding float[",
                    n.as_str(),
                    "]);",
                ),
            )
        } else {
            None
        }
    }

    /// The statement that stores an entry, in place of one under the same key.
    pub fn store(
        key: &str,
        content: &str,
        category: &Category,
        session: Option<&str>,
        topic: Option<&str>,
    ) -> (r: SqlQuery)
        ensures
            r@ == store_query(
                EntryView {
                    key: key@,
                    content: content@,
                    category: category@,
                    session: opt_str(session),
                    topic: opt_str(topic),
                },
            ),
    {
        let mut params: Vec<SqlValue> = Vec::new();
        push_arg(&mut params, SqlValue::Text(key.to_owned()));
        push_arg(&mut params, SqlValue::Text(content.to_owned()));
        push_arg(&mut params, SqlValue::Text(category_to_str(category)));
        push_arg(&mut params, opt_value(session));
        push_arg(&mut params, opt_value(topic));
        proof {
            assert(sql_args(params@) =~= seq![
                SqlArg::Text(key@),
                SqlArg::Text(content@),
                SqlArg::Text(category_name(category@)),
                opt_arg(opt_str(session)),
                opt_arg(opt_str(topic)),
            ]);
        }
        query(STORE, params)
    }

    /// The statement that stores an embedding; none where there is no index or
    /// the embedding is empty.
    pub fn upsert_embedding(&self, key: &str, embedding: Vec<u8>) -> (r: Option<SqlQuery>)
        ensures
            match r {
                Some(q) => self.vector_support && self.embed_dim > 0 && embedding@.len() > 0 && q@
                    == (QueryView {
                    sql: UPSERT_EMBEDDING@,
                    params: seq![SqlArg::Text(key@), SqlArg::Blob(embedding@)],
                }),
                None => !(self.vector_support && self.embed_dim > 0 && embedding@.len() > 0),
            },
    {
        if !self.vector_support || self.embed_dim == 0 || embedding.len() == 0 {
            return None;
        }
        let mut params: Vec<SqlValue> = Vec::new();
        push_arg(&mut params, SqlValue::Text(key.to_owned()));
        push_arg(&mut params, SqlValue::Blob(embedding));
        proof {
            assert(sql_args(params@) =~= seq![SqlArg::Text(key@), SqlArg::Blob(embedding@)]);
        }
        Some(query(UPSERT_EMBEDDING, params))
    }

    /// The statement that removes an embedding; none where there is no index.
    pub fn delete_embedding(&self, key: &str) -> (r: Option<SqlQuery>)
        ensures
            match r {
                Some(q) => self.vector_support && self.embed_dim > 0 && q@ == (QueryView {
                    sql: DELETE_EMBEDDING@,
                    params: seq![SqlArg::Text(key@)],
                }),
                None => !(self.vector_support && self.embed_dim > 0),
            },
    {
        if !self.vector_support || self.embed_dim == 0 {
            return None;
        }
        Some(key_query(DELETE_EMBEDDING, key))
    }

    /// The next step of a recall.
    pub fn recall(&self, req: &RecallRequest, event: RecallEvent) -> (r: RecallAction)
        requires
            3 * req.limit <= usize::MAX,
            event matches RecallEvent::Scored { table, scores } ==> scores@.len() == table@.len(),
        ensures
            r@ == next_action(self.indexes_vectors(), *req, event),
    {
        let n: usize = if req.limit * 3 >= 20 {
            req.limit * 3
        } else {
            20
        };
        let session = match &req.session {
            Some(s) => Some(s.as_str()),
            None => None,
        };
        match event {
            RecallEvent::Start => {
                if let RecallScope::Clean = &req.scope {
                    nothing()
                } else if self.has_vector_index() {
                    RecallAction::Embed
                } else {
                    RecallAction::SearchWords(fts_search(req.query.as_str(), n, session))
                }
            },
            RecallEvent::EmbedFailed => RecallAction::SearchWords(
                fts_search(req.query.as_str(), n, session),
            ),
            RecallEvent::Embedded(b) => RecallAction::SearchBoth {
                likeness: vector_search(b, n, session),
                words: fts_search(req.query.as_str(), n, session),
            },
            RecallEvent::FoundBoth { by_likeness, by_words } => {
                let by_likeness = keys_found(by_likeness);
                let by_words = keys_found(by_words);
                proof {
                    assert(texts(by_likeness@).len() == by_likeness@.len());
                    assert(texts(by_words@).len() == by_words@.len());
                }
                if by_likeness.len() == 0 && by_words.len() == 0 {
                    RecallAction::SearchWords(fts_search(req.query.as_str(), n, session))
                } else {
                    let lists = vec![by_likeness, by_words];
                    proof {
                        assert(list_views(lists@) =~= seq![
                            texts(by_likeness@),
                            texts(by_words@),
                        ]);
                    }
                    RecallAction::Score(collect_ranks(&lists))
                }
            },
            RecallEvent::Scored { table, scores } => {
                let results = fuse(table, &scores);
                let ghost f = result_views(results@);
                let mut keys: Vec<String> = Vec::new();
                for x in it: results
                    invariant
                        result_views(it.seq()) == f,
                        keys@.len() == it.index(),
                        forall|j: int| 0 <= j < keys@.len() ==> (#[trigger] keys@[j])@ == f[j].1,
                {
                    proof {
                        assert(f[it.index() as int] == (x.score, x.key@));
                    }
                    keys.push(x.key);
                }
                proof {
                    assert(texts(keys@) =~= Seq::new(f.len(), |i: int| f[i].1));
                }
                describe(keys)
            },
            RecallEvent::FoundByWords(keys) => {
                let keys = keys_found(keys);
                proof {
                    assert(texts(keys@).len() == keys@.len());
                }
                if keys.len() == 0 {
                    RecallAction::Scan(scan_search(req.query.as_str(), n, session))
                } else {
                    describe(keys)
                }
            },
            RecallEvent::Described { keys: _, meta: Err(e) } => RecallAction::Fail(e),
            RecallEvent::Described { keys, meta: Ok(meta) } => {
                let mut top = filter_keys_by_scope(keys, &meta, &req.scope);
                let ghost all = texts(top@);
                if top.len() > req.limit {
                    top.truncate(req.limit);
                    proof {
                        assert(texts(top@) =~= all.take(req.limit as int));
                    }
                }
                proof {
                    assert(texts(top@).len() == top@.len());
                }
                if top.len() == 0 {
                    nothing()
                } else {
                    let query = query_in_keys(FETCH, &top);
                    RecallAction::Fetch { keys: top, query }
                }
            },
            RecallEvent::Fetched { keys: _, rows: Err(e) } => RecallAction::Fail(e),
            RecallEvent::Fetched { keys, rows: Ok(rows) } => RecallAction::Return(
                pick_entries(&keys, &rows),
            ),
            RecallEvent::Scanned(Err(e)) => RecallAction::Fail(e),
            RecallEvent::Scanned(Ok(rows)) => RecallAction::Return(
                keep_scope(rows, &req.scope, req.limit),
            ),
        }
    }

    /// The statement that lists the entries of a category and of a session,
    /// the latest first.
    pub fn list(category: Option<&Category>, session: Option<&str>) -> (r: SqlQuery)
        ensures
            r@ == list_query(
                match category {
                    Some(c) => Some(c@),
                    None => None,
                },
                opt_str(session),
            ),
    {
        let mut params: Vec<SqlValue> = Vec::new();
        match (category, session) {
            (Some(c), Some(s)) => {
                push_arg(&mut params, SqlValue::Text(category_to_str(c)));
                push_arg(&mut params, SqlValue::Text(s.to_owned()));
                proof {
                    assert(sql_args(params@) =~= seq![
                        SqlArg::Text(category_name(c@)),
                        SqlArg::Text(s@),
                    ]);
                }
                query(LIST_BOTH, params)
            },
            (Some(c), None) => {
                push_arg(&mut params, SqlValue::Text(category_to_str(c)));
                proof {
                    assert(sql_args(params@) =~= seq![SqlArg::Text(category_name(c@))]);
                }
                query(LIST_CATEGORY, params)
            },
            (None, Some(s)) => {
                push_arg(&mut params, SqlValue::Null);
                push_arg(&mut params, SqlValue::Text(s.to_owned()));
                proof {
                    assert(sql_args(params@) =~= seq![SqlArg::Null, SqlArg::Text(s@)]);
                }
                query(LIST_SESSION, params)
            },
            (None, None) => {
                proof {
                    assert(sql_args(params@) =~= Seq::<SqlArg>::empty());
                }
                query(LIST_ALL, params)
            },
        }
    }

    /// The statement that gets the entry under a key.
    pub fn get(key: &str) -> (r: SqlQuery)
        ensures
            r@ == get_query(key@),
    {
        key_query(GET, key)
    }

    /// The statement that removes the entry under a key.
    pub fn forget(key: &str) -> (r: SqlQuery)
        ensures
            r@ == forget_query(key@),
    {
        key_query(FORGET, key)
    }

    /// The statements that find and remove the entries of a category older
    /// than so many days; none if they never expire.
    pub fn hygiene(category: &Category, ttl_days: u32) -> (r: Option<(SqlQuery, SqlQuery)>)
        ensures
            match r {
                Some((find, remove)) => {
                    let params = seq![
                        SqlArg::Text(category_name(category@)),
                        SqlArg::Int(ttl_days as int * 86400),
                    ];
                    &&& ttl_days > 0
                    &&& find@ == (QueryView { sql: EXPIRED@, params })
                    &&& remove@ == (QueryView { sql: EXPIRE@, params })
                },
                None => ttl_days == 0,
            },
    {
        if ttl_days == 0 {
            return None;
        }
        Some((age_query(EXPIRED, category, ttl_days), age_query(EXPIRE, category, ttl_days)))
    }
}

fn key_query(sql: &str, key: &str) -> (r: SqlQuery)
    ensures
        r@ == (QueryView { sql: sql@, params: seq![SqlArg::Text(key@)] }),
{
    let mut params: Vec<SqlValue> = Vec::new();
    push_arg(&mut params, SqlValue::Text(key.to_owned()));
    proof {
        assert(sql_args(params@) =~= seq![SqlArg::Text(key@)]);
    }
    query(sql, params)
}

fn age_query(sql: &str, category: &Category, ttl_days: u32) -> (r: SqlQuery)
    ensures
        r@ == (QueryView {
            sql: sql@,
            params: seq![
                SqlArg::Text(category_name(category@)),
                SqlArg::Int(ttl_days as int * 86400),
            ],
        }),
{
    let secs: i64 = ttl_days as i64 * 86400;
    let mut params: Vec<SqlValue> = Vec::new();
    push_arg(&mut params, SqlValue::Text(category_to_str(category)));
    push_arg(&mut params, SqlValue::Int(secs));
    proof {
        assert(sql_args(params@) =~= seq![
            SqlArg::Text(category_name(category@)),
            SqlArg::Int(ttl_days as int * 86400),
        ]);
    }
    query(sql, params)
}

/// A clean recall asks nothing of the database and returns nothing.
pub proof fn law_clean_recall_returns_nothing(vectors: bool, req: RecallRequest)
    requires
        req.scope is Clean,
    ensures
        next_action(vectors, req, RecallEvent::Start) == ActionView::Return(Seq::empty()),
{
}

/// A search that fails does not make a recall fail: the recall goes on as if
/// nothing had been found.
pub proof fn law_failed_search_finds_nothing(
    vectors: bool,
    req: RecallRequest,
    none: Vec<String>,
    other: Result<Vec<String>, String>,
    error: String,
)
    requires
        none@.len() == 0,
    ensures
        next_action(vectors, req, RecallEvent::FoundByWords(Err(error))) == next_action(
            vectors,
            req,
            RecallEvent::FoundByWords(Ok(none)),
        ),
        next_action(
            vectors,
            req,
            (RecallEvent::FoundBoth { by_likeness: Err(error), by_words: other }),
        ) == next_action(
            vectors,
            req,
            (RecallEvent::FoundBoth { by_likeness: Ok(none), by_words: other }),
        ),
        next_action(
            vectors,
            req,
            (RecallEvent::FoundBoth { by_likeness: other, by_words: Err(error) }),
        ) == next_action(
            vectors,
            req,
            (RecallEvent::FoundBoth { by_likeness: other, by_words: Ok(none) }),
        ),
{
    assert(texts(none@) =~= Seq::<Seq<char>>::empty());
}

/// Only keys whose entries are in scope are fetched, and no more than asked
/// for.
pub proof fn law_fetched_keys_are_in_scope(
    vectors: bool,
    req: RecallRequest,
    keys: Vec<String>,
    meta: Vec<KeyMeta>,
)
    ensures
        next_action(
            vectors,
            req,
            (RecallEvent::Described { keys, meta: Ok(meta) }),
        ) matches ActionView::Fetch { keys: top, query } ==> {
            &&& top.len() <= req.limit
            &&& forall|i: int|
                0 <= i < top.len() ==> texts(keys@).contains(#[trigger] top[i]) && last_under(
                    stubs(meta@),
                    top[i],
                ) is Some && in_scope(last_under(stubs(meta@), top[i])->0, req.scope@)
        },
{
    lemma_keys_in_scope(texts(keys@), stubs(meta@), req.scope@);
    let all = keys_in_scope(texts(keys@), stubs(meta@), req.scope@);
    let top = at_most(all, req.limit as int);
    assert forall|i: int| 0 <= i < top.len() implies texts(keys@).contains(#[trigger] top[i])
        && last_under(stubs(meta@), top[i]) is Some && in_scope(
        last_under(stubs(meta@), top[i])->0,
        req.scope@,
    ) by {
        assert(top[i] == all[i]);
    }
}

proof fn lemma_keys_in_scope(
    keys: Seq<Seq<char>>,
    known: Seq<EntryView>,
    scope: ScopeView,
)
    ensures
        forall|i: int|
            0 <= i < keys_in_scope(keys, known, scope).len() ==> keys.contains(
                #[trigger] keys_in_scope(keys, known, scope)[i],
            ) && last_under(known, keys_in_scope(keys, known, scope)[i]) is Some && in_scope(
                last_under(known, keys_in_scope(keys, known, scope)[i])->0,
                scope,
            ),
    decreases keys.len(),
{
    if keys.len() > 0 {
        lemma_keys_in_scope(keys.drop_last(), known, scope);
        let head = keys_in_scope(keys.drop_last(), known, scope);
        let all = keys_in_scope(keys, known, scope);
        assert forall|i: int| 0 <= i < all.len() implies keys.contains(#[trigger] all[i])
            && last_under(known, all[i]) is Some && in_scope(
            last_under(known, all[i])->0,
            scope,
        ) by {
            if i < head.len() {
                assert(all[i] == head[i]);
                let j = keys.drop_last().index_of(head[i]);
                assert(keys[j] == head[i]);
            } else {
                assert(keys[keys.len() - 1] == keys.last());
            }
        }
    }
}

} // verus!
