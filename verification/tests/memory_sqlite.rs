use adaclaw::memory::global::{merge_recall, GlobalMemory};
use adaclaw::memory::rrf::RankedKey;
use adaclaw::memory::sql::{SqlQuery, SqlValue};
use adaclaw::memory::sqlite::{
    row_to_entry, KeyMeta, RecallAction, RecallEvent, RecallRequest, SqliteMemory, COUNT, PROBE,
    SCHEMA,
};
use adaclaw::model::memory::{Category, Memory, MemoryEntry, RecallScope};
use rusqlite::types::Value;
use rusqlite::{params_from_iter, Connection, Row};

/// A memory in a database that is not on disk.
struct Database {
    conn: Connection,
    memory: SqliteMemory,
}

fn values(query: &SqlQuery) -> Vec<Value> {
    query
        .params
        .iter()
        .map(|p| match p {
            SqlValue::Null => Value::Null,
            SqlValue::Int(n) => Value::Integer(*n),
            SqlValue::Text(t) => Value::Text(t.clone()),
            SqlValue::Blob(b) => Value::Blob(b.clone()),
        })
        .collect()
}

fn entry_of(row: &Row) -> rusqlite::Result<MemoryEntry> {
    Ok(row_to_entry(
        row.get(0)?,
        row.get(1)?,
        row.get(2)?,
        row.get(3)?,
        row.get(4)?,
    ))
}

fn key_of(row: &Row) -> rusqlite::Result<String> {
    row.get(0)
}

fn meta_of(row: &Row) -> rusqlite::Result<KeyMeta> {
    Ok(KeyMeta {
        key: row.get(0)?,
        category: row.get(1)?,
        topic: row.get(2)?,
    })
}

impl Database {
    fn new() -> Database {
        let conn = Connection::open_in_memory().unwrap();
        conn.execute_batch(SCHEMA).unwrap();
        Database {
            conn,
            memory: SqliteMemory::new(false, None),
        }
    }

    fn rows<T>(
        &self,
        query: &SqlQuery,
        read: fn(&Row) -> rusqlite::Result<T>,
    ) -> Result<Vec<T>, String> {
        let mut statement = self.conn.prepare(&query.sql).map_err(|e| e.to_string())?;
        let rows = statement
            .query_map(params_from_iter(values(query)), |row| read(row))
            .map_err(|e| e.to_string())?;
        rows.collect::<rusqlite::Result<Vec<T>>>()
            .map_err(|e| e.to_string())
    }

    fn run(&self, query: &SqlQuery) -> Result<usize, String> {
        self.conn
            .execute(&query.sql, params_from_iter(values(query)))
            .map_err(|e| e.to_string())
    }

    fn hygiene(&self, category: &Category, days: u32) -> Result<usize, String> {
        match SqliteMemory::hygiene(category, days) {
            Some((_, remove)) => self.run(&remove),
            None => Ok(0),
        }
    }
}

fn score(entry: &RankedKey) -> u64 {
    let sum: f64 = entry.ranks.iter().map(|r| 1.0 / (60.0 + *r as f64 + 1.0)).sum();
    sum.to_bits()
}

impl Memory for Database {
    fn name(&self) -> &str {
        self.memory.name()
    }

    fn store(
        &self,
        key: &str,
        content: &str,
        category: Category,
        session: Option<&str>,
        topic: Option<&str>,
    ) -> Result<(), String> {
        self.run(&SqliteMemory::store(key, content, &category, session, topic))
            .map(|_| ())
    }

    fn recall(
        &self,
        query: &str,
        limit: usize,
        session: Option<&str>,
        scope: RecallScope,
    ) -> Result<Vec<MemoryEntry>, String> {
        let request = RecallRequest {
            query: query.to_string(),
            limit,
            session: session.map(|s| s.to_string()),
            scope,
        };
        let mut event = RecallEvent::Start;
        loop {
            event = match self.memory.recall(&request, event) {
                RecallAction::Return(entries) => return Ok(entries),
                RecallAction::Fail(e) => return Err(e),
                RecallAction::Embed => RecallEvent::EmbedFailed,
                RecallAction::SearchBoth { likeness, words } => RecallEvent::FoundBoth {
                    by_likeness: self.rows(&likeness, key_of),
                    by_words: self.rows(&words, key_of),
                },
                RecallAction::SearchWords(q) => RecallEvent::FoundByWords(self.rows(&q, key_of)),
                RecallAction::Score(table) => {
                    let scores = table.iter().map(score).collect();
                    RecallEvent::Scored { table, scores }
                }
                RecallAction::Describe { keys, query } => RecallEvent::Described {
                    keys,
                    meta: self.rows(&query, meta_of),
                },
                RecallAction::Fetch { keys, query } => RecallEvent::Fetched {
                    keys,
                    rows: self.rows(&query, entry_of),
                },
                RecallAction::Scan(q) => RecallEvent::Scanned(self.rows(&q, entry_of)),
            };
        }
    }

    fn get(&self, key: &str) -> Result<Option<MemoryEntry>, String> {
        Ok(self.rows(&SqliteMemory::get(key), entry_of)?.pop())
    }

    fn list(
        &self,
        category: Option<&Category>,
        session: Option<&str>,
    ) -> Result<Vec<MemoryEntry>, String> {
        self.rows(&SqliteMemory::list(category, session), entry_of)
    }

    fn forget(&self, key: &str) -> Result<bool, String> {
        self.run(&SqliteMemory::forget(key)).map(|n| n > 0)
    }

    fn count(&self) -> Result<usize, String> {
        self.conn
            .query_row(COUNT, [], |row| row.get::<_, i64>(0))
            .map(|n| n as usize)
            .map_err(|e| e.to_string())
    }

    fn health_check(&self) -> bool {
        self.conn.query_row(PROBE, [], |_| Ok(())).is_ok()
    }
}

fn make_mem() -> Database {
    Database::new()
}

fn make_global() -> GlobalMemory<Database> {
    GlobalMemory::new(Database::new())
}

#[test]
fn sqlite_test_store_and_get() {
    let mem = make_mem();
    mem.store("k1", "hello world", Category::Daily, None, None)
        .unwrap();
    let entry = mem.get("k1").unwrap().unwrap();
    assert_eq!(entry.content, "hello world");
    assert_eq!(entry.category, Category::Daily);
    assert_eq!(entry.topic, None);
}

#[test]
fn sqlite_test_store_with_topic() {
    let mem = make_mem();
    mem.store("k-topic", "content", Category::Conversation, Some("s1"), Some("topic-rust"))
        .unwrap();
    let entry = mem.get("k-topic").unwrap().unwrap();
    assert_eq!(entry.topic, Some("topic-rust".to_string()));
}

#[test]
fn sqlite_test_forget() {
    let mem = make_mem();
    mem.store("k2", "to forget", Category::Core, None, None)
        .unwrap();
    assert!(mem.forget("k2").unwrap());
    assert!(mem.get("k2").unwrap().is_none());
}

#[test]
fn sqlite_test_count() {
    let mem = make_mem();
    assert_eq!(mem.count().unwrap(), 0);
    mem.store("a", "aa", Category::Daily, None, None).unwrap();
    mem.store("b", "bb", Category::Daily, None, None).unwrap();
    assert_eq!(mem.count().unwrap(), 2);
}

#[test]
fn test_upsert() {
    let mem = make_mem();
    mem.store("k", "v1", Category::Daily, None, None).unwrap();
    mem.store("k", "v2", Category::Core, None, Some("t1")).unwrap();
    let entry = mem.get("k").unwrap().unwrap();
    assert_eq!(entry.content, "v2");
    assert_eq!(entry.category, Category::Core);
    assert_eq!(entry.topic, Some("t1".to_string()));
    assert_eq!(mem.count().unwrap(), 1);
}

#[test]
fn test_fts_recall_full_scope() {
    let mem = make_mem();
    mem.store("doc1", "the quick brown fox", Category::Daily, None, None)
        .unwrap();
    mem.store("doc2", "lazy dog sleeps", Category::Daily, None, None)
        .unwrap();
    mem.store("doc3", "fox and hound", Category::Daily, None, None)
        .unwrap();

    let results = mem.recall("fox", 10, None, RecallScope::Full).unwrap();
    assert!(!results.is_empty());
    let keys: Vec<&str> = results.iter().map(|e| e.key.as_str()).collect();
    assert!(keys.contains(&"doc1") || keys.contains(&"doc3"));
}

#[test]
fn sqlite_test_recall_clean_scope_returns_empty() {
    let mem = make_mem();
    mem.store("k1", "core content", Category::Core, None, None)
        .unwrap();
    let results = mem.recall("content", 10, None, RecallScope::Clean).unwrap();
    assert!(results.is_empty());
}

#[test]
fn sqlite_test_recall_facts_only_excludes_conversation() {
    let mem = make_mem();
    mem.store("core1", "core fact about fox", Category::Core, None, None)
        .unwrap();
    mem.store("conv1", "conversation about fox", Category::Conversation, Some("s1"), Some("t1"))
        .unwrap();

    let results = mem.recall("fox", 10, None, RecallScope::FactsOnly).unwrap();
    let keys: Vec<&str> = results.iter().map(|e| e.key.as_str()).collect();
    assert!(keys.contains(&"core1"));
    assert!(!keys.contains(&"conv1"));
}

#[test]
fn sqlite_test_recall_current_topic_filters_conversation() {
    let mem = make_mem();
    mem.store("conv-rust", "rust topic fox", Category::Conversation, Some("s1"), Some("topic-rust"))
        .unwrap();
    mem.store("conv-poem", "poem topic fox", Category::Conversation, Some("s1"), Some("topic-poem"))
        .unwrap();
    mem.store("core1", "core fox fact", Category::Core, None, None)
        .unwrap();

    let scope = RecallScope::CurrentTopic { topic_id: "topic-rust".to_string() };
    let results = mem.recall("fox", 10, Some("s1"), scope).unwrap();
    let keys: Vec<&str> = results.iter().map(|e| e.key.as_str()).collect();
    assert!(keys.contains(&"conv-rust"), "rust topic conversation should be included");
    assert!(!keys.contains(&"conv-poem"), "poem topic conversation should be excluded");
    assert!(keys.contains(&"core1"), "core entries always included");
}

#[test]
fn test_recall_fallback_like() {
    let mem = make_mem();
    mem.store("k1", "abc123def", Category::Daily, None, None)
        .unwrap();
    let results = mem.recall("abc123", 10, None, RecallScope::Full).unwrap();
    assert!(!results.is_empty());
    assert_eq!(results[0].key, "k1");
}

#[test]
fn sqlite_test_session_isolation() {
    let mem = make_mem();
    mem.store("s1k1", "session one data", Category::Conversation, Some("s1"), None)
        .unwrap();
    mem.store("s2k1", "session two data", Category::Conversation, Some("s2"), None)
        .unwrap();

    let s1_results = mem.recall("data", 10, Some("s1"), RecallScope::Full).unwrap();
    assert!(s1_results.iter().all(|e| e.session.as_deref() == Some("s1")));
}

#[test]
fn test_list_by_category() {
    let mem = make_mem();
    mem.store("c1", "core fact", Category::Core, None, None)
        .unwrap();
    mem.store("d1", "daily note", Category::Daily, None, None)
        .unwrap();

    let core = mem.list(Some(&Category::Core), None).unwrap();
    assert_eq!(core.len(), 1);
    assert_eq!(core[0].key, "c1");
}

#[test]
fn test_hygiene_noop_when_ttl_zero() {
    let mem = make_mem();
    mem.store("h1", "should stay", Category::Daily, None, None)
        .unwrap();
    let deleted = mem.hygiene(&Category::Daily, 0).unwrap();
    assert_eq!(deleted, 0);
    assert_eq!(mem.count().unwrap(), 1);
}

#[test]
fn sqlite_test_health_check() {
    let mem = make_mem();
    assert!(mem.health_check());
}

#[test]
fn test_global_entries_prepended_in_recall() {
    let gm = make_global();

    // Store a private entry
    gm.store(
        "priv1",
        "private deployment notes",
        Category::Daily,
        Some("s1"),
        None,
    )
    .unwrap();

    // Store a global entry
    gm.store_global("glob1", "user prefers English replies")
        .unwrap();

    let results = gm
        .recall("user", 10, Some("s1"), RecallScope::Full)
        .unwrap();
    assert!(!results.is_empty());
    let first = &results[0];
    assert_eq!(first.category, Category::Global);
}

#[test]
fn test_store_global_helper() {
    let gm = make_global();
    gm.store_global("pref:language", "always reply in Chinese")
        .unwrap();

    let entry = gm.get("pref:language").unwrap().unwrap();
    assert_eq!(entry.category, Category::Global);
    assert_eq!(entry.content, "always reply in Chinese");
}

#[test]
fn test_list_global() {
    let gm = make_global();
    gm.store_global("g1", "global fact one").unwrap();
    gm.store_global("g2", "global fact two").unwrap();
    gm.store("p1", "private", Category::Daily, None, None)
        .unwrap();

    let globals = gm.list_global().unwrap();
    assert_eq!(globals.len(), 2);
    assert!(globals.iter().all(|e| e.category == Category::Global));
}

#[test]
fn test_dedup_in_recall() {
    let gm = make_global();
    gm.store_global("shared_key", "this is global knowledge")
        .unwrap();

    let results = gm
        .recall("global knowledge", 20, None, RecallScope::Full)
        .unwrap();
    let count = results.iter().filter(|e| e.key == "shared_key").count();
    assert_eq!(count, 1, "global key must not be duplicated in results");
}

#[test]
fn test_clean_scope_returns_empty() {
    let gm = make_global();
    gm.store_global("g1", "some global fact").unwrap();

    let results = gm
        .recall("global", 10, None, RecallScope::Clean)
        .unwrap();
    assert!(
        results.is_empty(),
        "Clean scope must return nothing, even Global entries"
    );
}

#[test]
fn test_facts_only_still_returns_global() {
    let gm = make_global();
    gm.store_global("g1", "some global fact about fox")
        .unwrap();
    gm.store(
        "conv1",
        "conversation about fox",
        Category::Conversation,
        Some("s1"),
        Some("t1"),
    )
    .unwrap();

    let results = gm
        .recall("fox", 10, Some("s1"), RecallScope::FactsOnly)
        .unwrap();
    let keys: Vec<&str> = results.iter().map(|e| e.key.as_str()).collect();
    assert!(
        keys.contains(&"g1"),
        "Global entries should be in FactsOnly results"
    );
    assert!(
        !keys.contains(&"conv1"),
        "Conversation should not be in FactsOnly results"
    );
}

#[test]
fn global_test_health_check() {
    let gm = make_global();
    assert!(gm.health_check());
}

#[test]
fn lists_by_session_and_by_both() {
    let mem = make_mem();
    mem.store("a", "one", Category::Daily, Some("s1"), None).unwrap();
    mem.store("b", "two", Category::Core, Some("s1"), None).unwrap();
    mem.store("c", "three", Category::Core, Some("s2"), None).unwrap();
    assert_eq!(mem.list(None, Some("s1")).unwrap().len(), 2);
    let both = mem.list(Some(&Category::Core), Some("s1")).unwrap();
    assert_eq!(both.len(), 1);
    assert_eq!(both[0].key, "b");
    assert_eq!(mem.list(None, None).unwrap().len(), 3);
}

#[test]
fn recall_passes_over_conversations_of_other_sessions_only() {
    let mem = make_mem();
    mem.store("c1", "fox one", Category::Conversation, Some("s1"), None).unwrap();
    mem.store("c2", "fox two", Category::Conversation, Some("s2"), None).unwrap();
    mem.store("d2", "fox three", Category::Daily, Some("s2"), None).unwrap();
    let found = mem.recall("fox", 10, Some("s1"), RecallScope::Full).unwrap();
    let mut keys: Vec<&str> = found.iter().map(|e| e.key.as_str()).collect();
    keys.sort();
    assert_eq!(keys, vec!["c1", "d2"]);
}

#[test]
fn recall_returns_no_more_than_asked_for() {
    let mem = make_mem();
    for i in 0..7 {
        mem.store(&format!("k{}", i), "fox", Category::Daily, None, None).unwrap();
    }
    assert_eq!(mem.recall("fox", 3, None, RecallScope::Full).unwrap().len(), 3);
    assert_eq!(mem.recall("fo", 4, None, RecallScope::Full).unwrap().len(), 4);
}

#[test]
fn quotes_in_a_query_are_taken_as_text() {
    let mem = make_mem();
    mem.store("k", "say \"hi\" twice", Category::Daily, None, None).unwrap();
    let found = mem.recall("say \"hi\"", 5, None, RecallScope::Full).unwrap();
    assert_eq!(found.len(), 1);
}

#[test]
fn old_entries_expire() {
    let mem = make_mem();
    mem.store("old", "x", Category::Daily, None, None).unwrap();
    mem.store("new", "y", Category::Daily, None, None).unwrap();
    mem.conn
        .execute("UPDATE memory SET created_at = created_at - 172800 WHERE key = 'old'", [])
        .unwrap();
    assert_eq!(mem.hygiene(&Category::Daily, 1).unwrap(), 1);
    assert!(mem.get("old").unwrap().is_none());
    assert!(mem.get("new").unwrap().is_some());
}

#[test]
fn custom_categories_survive_storage() {
    let mem = make_mem();
    mem.store("k", "v", Category::Custom("recipes".to_string()), None, None).unwrap();
    let entry = mem.get("k").unwrap().unwrap();
    assert_eq!(entry.category, Category::Custom("recipes".to_string()));
}

#[test]
fn an_index_of_embeddings_leads_to_both_searches() {
    let memory = SqliteMemory::new(true, Some(3));
    assert!(memory.has_vector_index());
    assert_eq!(
        memory.vector_table().unwrap(),
        "CREATE VIRTUAL TABLE IF NOT EXISTS memory_vss USING vec0(key TEXT PRIMARY KEY, embedding float[3]);"
    );
    assert!(memory.upsert_embedding("k", vec![0, 0, 0, 0]).is_some());
    assert!(memory.upsert_embedding("k", vec![]).is_none());
    assert!(memory.delete_embedding("k").is_some());
    let request = RecallRequest {
        query: "fox".to_string(),
        limit: 2,
        session: None,
        scope: RecallScope::Full,
    };
    assert!(matches!(memory.recall(&request, RecallEvent::Start), RecallAction::Embed));
    match memory.recall(&request, RecallEvent::Embedded(vec![1, 2])) {
        RecallAction::SearchBoth { likeness, words } => {
            assert!(likeness.sql.contains("memory_vss"));
            assert!(words.sql.contains("memory_fts"));
            assert!(matches!(words.params[1], SqlValue::Int(20)));
        }
        other => panic!("{:?}", other),
    }
    let found = RecallEvent::FoundBoth {
        by_likeness: Ok(vec!["a".to_string(), "b".to_string()]),
        by_words: Ok(vec!["c".to_string(), "b".to_string()]),
    };
    let table = match memory.recall(&request, found) {
        RecallAction::Score(table) => table,
        other => panic!("{:?}", other),
    };
    let scores = table.iter().map(score).collect();
    match memory.recall(&request, RecallEvent::Scored { table, scores }) {
        RecallAction::Describe { keys, query } => {
            assert_eq!(keys, vec!["b", "a", "c"]);
            assert_eq!(query.params.len(), 3);
        }
        other => panic!("{:?}", other),
    }
    let nothing = RecallEvent::FoundBoth {
        by_likeness: Ok(vec![]),
        by_words: Err("no such table".to_string()),
    };
    assert!(matches!(memory.recall(&request, nothing), RecallAction::SearchWords(_)));
    let half = RecallEvent::FoundBoth {
        by_likeness: Err("no such table".to_string()),
        by_words: Ok(vec!["c".to_string()]),
    };
    assert!(matches!(
        memory.recall(&request, half),
        RecallAction::Score(t) if t.len() == 1 && t[0].key == "c"
    ));
    let failed = || "broken".to_string();
    assert!(matches!(
        memory.recall(&request, RecallEvent::FoundByWords(Err(failed()))),
        RecallAction::Scan(_)
    ));
    for event in [
        RecallEvent::Described { keys: vec![], meta: Err(failed()) },
        RecallEvent::Fetched { keys: vec![], rows: Err(failed()) },
        RecallEvent::Scanned(Err(failed())),
    ] {
        assert!(matches!(
            memory.recall(&request, event),
            RecallAction::Fail(e) if e == "broken"
        ));
    }
}

#[test]
fn without_an_index_there_are_no_embeddings() {
    let memory = SqliteMemory::new(true, Some(0));
    assert!(!memory.has_vector_index());
    assert!(memory.vector_table().is_none());
    assert!(memory.upsert_embedding("k", vec![0, 0, 0, 0]).is_none());
    assert!(memory.delete_embedding("k").is_none());
}

#[test]
fn global_entries_come_first_and_count_toward_the_limit() {
    let gm = make_global();
    gm.store_global("g", "fox knowledge").unwrap();
    for i in 0..3 {
        gm.store(&format!("p{}", i), "fox note", Category::Daily, None, None).unwrap();
    }
    let found = gm.recall("fox", 3, None, RecallScope::Full).unwrap();
    assert_eq!(found.len(), 3);
    assert_eq!(found[0].key, "g");
}

fn found(key: &str, category: Category) -> MemoryEntry {
    MemoryEntry {
        key: key.to_string(),
        content: format!("about {key}"),
        category,
        session: None,
        topic: None,
    }
}

#[test]
fn shared_entries_are_returned_in_front_and_once() {
    let globally = vec![
        found("g1", Category::Global),
        found("own", Category::Core),
        found("g2", Category::Global),
    ];
    let in_session = vec![
        found("own", Category::Core),
        found("g1", Category::Daily),
        found("day", Category::Daily),
    ];
    let merged = merge_recall(globally, in_session, 4);
    let keys: Vec<&str> = merged.iter().map(|e| e.key.as_str()).collect();
    assert_eq!(keys, vec!["g1", "g2", "own", "day"]);
    assert_eq!(merged[0].category, Category::Global);
}
