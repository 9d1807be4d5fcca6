use adaclaw::memory::markdown::{format_entry, key_to_file, parse_markdown_entry, MarkdownMemory};
use adaclaw::model::memory::{Category, MemoryEntry, RecallScope};
use std::cell::RefCell;
use std::collections::BTreeMap;

/// A directory of entries that is not on disk: texts under file names.
struct Folder {
    memory: MarkdownMemory,
    files: RefCell<BTreeMap<String, String>>,
}

fn make_mem() -> Folder {
    Folder {
        memory: MarkdownMemory::new("/memory"),
        files: RefCell::new(BTreeMap::new()),
    }
}

impl Folder {
    fn store(
        &self,
        key: &str,
        content: &str,
        category: Category,
        session: Option<&str>,
        topic: Option<&str>,
    ) -> Result<(), String> {
        let entry = MarkdownMemory::entry(key, content, category, session, topic);
        self.files
            .borrow_mut()
            .insert(self.memory.key_to_path(key), format_entry(&entry, 1700000000));
        Ok(())
    }

    fn entries(&self) -> Vec<MemoryEntry> {
        self.files
            .borrow()
            .values()
            .filter_map(|text| parse_markdown_entry(text))
            .collect()
    }

    fn get(&self, key: &str) -> Result<Option<MemoryEntry>, String> {
        Ok(self
            .files
            .borrow()
            .get(&self.memory.key_to_path(key))
            .and_then(|text| parse_markdown_entry(text)))
    }

    fn forget(&self, key: &str) -> Result<bool, String> {
        Ok(self
            .files
            .borrow_mut()
            .remove(&self.memory.key_to_path(key))
            .is_some())
    }

    fn count(&self) -> Result<usize, String> {
        Ok(self.files.borrow().len())
    }

    fn recall(
        &self,
        query: &str,
        limit: usize,
        session: Option<&str>,
        scope: RecallScope,
    ) -> Result<Vec<MemoryEntry>, String> {
        Ok(MarkdownMemory::recall(self.entries(), query, limit, session, &scope))
    }
}

#[test]
fn markdown_test_store_and_get() {
    let mem = make_mem();
    mem.store("k1", "hello world", Category::Daily, None, None)
        .unwrap();
    let entry = mem.get("k1").unwrap().unwrap();
    assert_eq!(entry.content, "hello world");
    assert_eq!(entry.category, Category::Daily);
    assert_eq!(entry.topic, None);
}

#[test]
fn markdown_test_store_with_topic() {
    let mem = make_mem();
    mem.store(
        "k2",
        "topic content",
        Category::Conversation,
        Some("s1"),
        Some("topic-abc"),
    )
    .unwrap();
    let entry = mem.get("k2").unwrap().unwrap();
    assert_eq!(entry.topic, Some("topic-abc".to_string()));
}

#[test]
fn test_recall_full_scope() {
    let mem = make_mem();
    mem.store(
        "doc1",
        "the quick brown fox jumps",
        Category::Daily,
        None,
        None,
    )
    .unwrap();
    mem.store(
        "doc2",
        "lazy dog sleeps soundly",
        Category::Daily,
        None,
        None,
    )
    .unwrap();

    let results = mem.recall("fox", 5, None, RecallScope::Full).unwrap();
    assert_eq!(results.len(), 1);
    assert_eq!(results[0].key, "doc1");
}

#[test]
fn markdown_test_recall_clean_scope_returns_empty() {
    let mem = make_mem();
    mem.store("k1", "some content", Category::Core, None, None)
        .unwrap();
    let results = mem
        .recall("content", 10, None, RecallScope::Clean)
        .unwrap();
    assert!(results.is_empty());
}

#[test]
fn markdown_test_recall_facts_only_excludes_conversation() {
    let mem = make_mem();
    mem.store("core1", "core fact about fox", Category::Core, None, None)
        .unwrap();
    mem.store(
        "conv1",
        "conversation about fox",
        Category::Conversation,
        Some("s1"),
        Some("t1"),
    )
    .unwrap();

    let results = mem
        .recall("fox", 10, None, RecallScope::FactsOnly)
        .unwrap();
    let keys: Vec<&str> = results.iter().map(|e| e.key.as_str()).collect();
    assert!(keys.contains(&"core1"), "core entries should be included");
    assert!(
        !keys.contains(&"conv1"),
        "conversation entries should be excluded"
    );
}

#[test]
fn markdown_test_recall_current_topic_filters_conversation() {
    let mem = make_mem();
    mem.store(
        "conv-t1",
        "rust topic conv",
        Category::Conversation,
        Some("s1"),
        Some("topic-rust"),
    )
    .unwrap();
    mem.store(
        "conv-t2",
        "poem haiku autumn",
        Category::Conversation,
        Some("s1"),
        Some("topic-poem"),
    )
    .unwrap();
    // Core entries have no session; markdown recall skips session-filter for
    // non-Conversation categories, so core1 is always reachable.
    // Use content that matches the query ("rust") so the content filter passes.
    mem.store("core1", "core fact about rust", Category::Core, None, None)
        .unwrap();

    let scope = RecallScope::CurrentTopic {
        topic_id: "topic-rust".to_string(),
    };
    // Query "rust": matches conv-t1 and core1, but NOT conv-t2 ("poem haiku autumn")
    let results = mem.recall("rust", 10, Some("s1"), scope).unwrap();
    let keys: Vec<&str> = results.iter().map(|e| e.key.as_str()).collect();
    assert!(
        keys.contains(&"conv-t1"),
        "rust topic conv should be included"
    );
    assert!(
        !keys.contains(&"conv-t2"),
        "poem topic conv should be excluded"
    );
    assert!(keys.contains(&"core1"), "core entries always included");
}

#[test]
fn markdown_test_forget() {
    let mem = make_mem();
    mem.store("k2", "delete me", Category::Core, None, None)
        .unwrap();
    assert!(mem.forget("k2").unwrap());
    assert!(mem.get("k2").unwrap().is_none());
}

#[test]
fn markdown_test_count() {
    let mem = make_mem();
    assert_eq!(mem.count().unwrap(), 0);
    mem.store("a", "aa", Category::Daily, None, None)
        .unwrap();
    mem.store("b", "bb", Category::Daily, None, None)
        .unwrap();
    assert_eq!(mem.count().unwrap(), 2);
}

#[test]
fn test_session_filter() {
    let mem = make_mem();
    mem.store(
        "s1",
        "session one",
        Category::Conversation,
        Some("s1"),
        None,
    )
    .unwrap();
    mem.store(
        "s2",
        "session two",
        Category::Conversation,
        Some("s2"),
        None,
    )
    .unwrap();

    let r = mem
        .recall("session", 10, Some("s1"), RecallScope::Full)
        .unwrap();
    assert_eq!(r.len(), 1);
    assert_eq!(r[0].key, "s1");
}

#[test]
fn test_key_sanitisation() {
    let mem = MarkdownMemory::new("/tmp/test_md_mem");
    let path = mem.key_to_path("../../etc/passwd");
    assert!(!path.contains(".."));
}

#[test]
fn file_names_hold_no_separators() {
    assert_eq!(key_to_file("a-b_9/c d"), "a-b_9_c d.md");
    assert_eq!(key_to_file("x..y\\z"), "x__y_z.md");
    assert_eq!(key_to_file("../"), "_.md");
    assert_eq!(MarkdownMemory::new("/m").key_to_path("pref:lang"), "/m/pref:lang.md");
}

#[test]
fn an_entry_is_read_back_as_it_was_written() {
    let entry = MarkdownMemory::entry(
        "key one",
        "first line\n\nlast line",
        Category::Custom("recipes".to_string()),
        Some("s1"),
        Some("t1"),
    );
    let back = parse_markdown_entry(&format_entry(&entry, 42)).unwrap();
    assert_eq!(back.key, "key one");
    assert_eq!(back.content, "first line\n\nlast line");
    assert_eq!(back.category, Category::Custom("recipes".to_string()));
    assert_eq!(back.session.as_deref(), Some("s1"));
    assert_eq!(back.topic.as_deref(), Some("t1"));
}

#[test]
fn a_text_without_front_matter_is_no_entry() {
    assert!(parse_markdown_entry("just text").is_none());
    assert!(parse_markdown_entry("---\nkey: a\n").is_none());
}

#[test]
fn the_list_is_limited_to_a_category_and_a_session() {
    let entries = vec![
        MarkdownMemory::entry("a", "x", Category::Core, None, None),
        MarkdownMemory::entry("b", "y", Category::Daily, Some("s1"), None),
    ];
    let core = MarkdownMemory::list(entries.clone(), Some(&Category::Core), None);
    assert_eq!(core.len(), 1);
    assert_eq!(core[0].key, "a");
    let s1 = MarkdownMemory::list(entries, None, Some("s1"));
    assert_eq!(s1.len(), 1);
    assert_eq!(s1[0].key, "b");
}

#[test]
fn entries_with_more_matches_come_first() {
    let entries = vec![
        MarkdownMemory::entry("once", "a fox", Category::Daily, None, None),
        MarkdownMemory::entry("twice", "Fox and fox", Category::Daily, None, None),
    ];
    let found = MarkdownMemory::recall(entries, "FOX", 1, None, &RecallScope::Full);
    assert_eq!(found.len(), 1);
    assert_eq!(found[0].key, "twice");
}
