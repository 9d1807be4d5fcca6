use adaclaw::memory::session_store::{
    SessionEntry, SessionStore, BEGIN, COMMIT, IN_MEMORY, SCHEMA,
};
use adaclaw::memory::sql::{SqlQuery, SqlValue};
use rusqlite::types::Value;
use rusqlite::{params_from_iter, Connection};

/// The store over a database that is not on disk.
struct Store {
    conn: Connection,
}

fn values(query: &SqlQuery) -> Vec<Value> {
    query
        .params
        .iter()
        .map(|p| match p {
            SqlValue::Null => Value::Null,
            SqlValue::Int(n) => Value::Integer(*n),
            SqlValue::Text(t) => Value::Text(t.clone()),
            SqlValue::Blob(b) => Value::Blob(b.clone()),
        })
        .collect()
}

impl Store {
    fn run(&self, query: SqlQuery) -> rusqlite::Result<usize> {
        self.conn.execute(&query.sql, params_from_iter(values(&query)))
    }

    fn append(&self, session_id: &str, role: &str, content: &str) -> rusqlite::Result<usize> {
        self.run(SessionStore::append(session_id, role, content))
    }

    fn clear(&self, session_id: &str) -> rusqlite::Result<usize> {
        self.run(SessionStore::clear(session_id))
    }

    fn compact(&self, session_id: &str, summary: &str) -> rusqlite::Result<()> {
        let (remove, add) = SessionStore::compact(session_id, summary);
        self.conn.execute_batch(BEGIN)?;
        self.run(remove)?;
        self.run(add)?;
        self.conn.execute_batch(COMMIT)
    }

    fn load(&self, session_id: &str, limit: usize) -> rusqlite::Result<Vec<SessionEntry>> {
        let query = SessionStore::load(session_id, limit);
        let mut statement = self.conn.prepare(&query.sql)?;
        let rows = statement.query_map(params_from_iter(values(&query)), |row| {
            Ok(SessionEntry {
                id: row.get(0)?,
                session_id: row.get(1)?,
                role: row.get(2)?,
                content: row.get(3)?,
                created_at: row.get(4)?,
            })
        })?;
        rows.collect()
    }

    fn count(&self, session_id: &str) -> rusqlite::Result<i64> {
        let query = SessionStore::count(session_id);
        self.conn
            .query_row(&query.sql, params_from_iter(values(&query)), |row| row.get(0))
    }

    fn list_sessions(&self) -> rusqlite::Result<Vec<String>> {
        let query = SessionStore::list_sessions();
        let mut statement = self.conn.prepare(&query.sql)?;
        let rows = statement.query_map(params_from_iter(values(&query)), |row| row.get(0))?;
        rows.collect()
    }
}

fn make_store() -> Store {
    let conn = Connection::open(IN_MEMORY).unwrap();
    conn.execute_batch(SCHEMA).unwrap();
    Store { conn }
}

#[test]
fn test_append_and_load_ordered() {
    let store = make_store();
    store.append("sess1", "user", "hello").unwrap();
    store.append("sess1", "assistant", "hi").unwrap();
    store.append("sess1", "user", "how are you?").unwrap();

    let entries = store.load("sess1", 10).unwrap();
    assert_eq!(entries.len(), 3, "should have 3 entries");
    assert_eq!(entries[0].role, "user");
    assert_eq!(entries[0].content, "hello");
    assert_eq!(entries[1].role, "assistant");
    assert_eq!(entries[2].content, "how are you?");
}

#[test]
fn test_load_limit_returns_latest() {
    let store = make_store();
    for i in 0..10 {
        store
            .append("sess2", "user", &format!("msg {}", i))
            .unwrap();
    }

    let entries = store.load("sess2", 3).unwrap();
    assert_eq!(entries.len(), 3, "limit=3 should return last 3");
    // Should be the LAST 3 in ascending order: msg 7, 8, 9
    assert_eq!(entries[0].content, "msg 7");
    assert_eq!(entries[1].content, "msg 8");
    assert_eq!(entries[2].content, "msg 9");
}

#[test]
fn session_store_test_session_isolation() {
    let store = make_store();
    store
        .append("alice", "user", "alice message")
        .unwrap();
    store.append("bob", "user", "bob message").unwrap();

    let alice = store.load("alice", 10).unwrap();
    let bob = store.load("bob", 10).unwrap();
    assert_eq!(alice.len(), 1);
    assert_eq!(bob.len(), 1);
    assert_eq!(alice[0].content, "alice message");
    assert_eq!(bob[0].content, "bob message");
}

#[test]
fn session_store_test_count() {
    let store = make_store();
    assert_eq!(store.count("s").unwrap(), 0);
    store.append("s", "user", "a").unwrap();
    store.append("s", "assistant", "b").unwrap();
    assert_eq!(store.count("s").unwrap(), 2);
}

#[test]
fn test_clear() {
    let store = make_store();
    store.append("s", "user", "msg").unwrap();
    store.clear("s").unwrap();
    assert_eq!(store.count("s").unwrap(), 0);
}

#[test]
fn test_compact_replaces_history_with_summary() {
    let store = make_store();
    store.append("s", "user", "msg 1").unwrap();
    store.append("s", "assistant", "reply 1").unwrap();
    store.append("s", "user", "msg 2").unwrap();

    store
        .compact("s", "Summary of conversation so far.")
        .unwrap();

    let entries = store.load("s", 10).unwrap();
    assert_eq!(
        entries.len(),
        1,
        "compact should leave exactly one summary entry"
    );
    assert_eq!(entries[0].role, "system");
    assert_eq!(entries[0].content, "Summary of conversation so far.");
}

#[test]
fn test_list_sessions() {
    let store = make_store();
    store.append("alice", "user", "hi").unwrap();
    store.append("bob", "user", "hello").unwrap();
    store.append("alice", "assistant", "hey").unwrap();

    let sessions = store.list_sessions().unwrap();
    assert!(sessions.contains(&"alice".to_string()));
    assert!(sessions.contains(&"bob".to_string()));
    assert_eq!(sessions.len(), 2, "only 2 unique sessions");
}

#[test]
fn test_load_empty_session() {
    let store = make_store();
    let entries = store.load("nonexistent", 10).unwrap();
    assert!(entries.is_empty());
}

#[test]
fn a_smaller_load_is_the_end_of_a_larger_one() {
    let store = make_store();
    for i in 0..6 {
        store.append(if i % 2 == 0 { "a" } else { "b" }, "user", &format!("m{i}")).unwrap();
    }
    let all = store.load("a", 10).unwrap();
    let contents: Vec<&str> = all.iter().map(|e| e.content.as_str()).collect();
    assert_eq!(contents, vec!["m0", "m2", "m4"]);
    assert!(all[0].id < all[1].id && all[1].id < all[2].id);
    for limit in 0..4 {
        let some = store.load("a", limit).unwrap();
        let ids: Vec<i64> = some.iter().map(|e| e.id).collect();
        let want: Vec<i64> = all[3 - limit..].iter().map(|e| e.id).collect();
        assert_eq!(ids, want);
    }
    assert_eq!(store.load("a", usize::MAX).unwrap().len(), 3);
}
