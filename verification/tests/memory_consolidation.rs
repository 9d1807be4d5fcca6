use adaclaw::memory::consolidation::{
    cluster_prompt, consolidate, consolidate_batch, merge_prompt, parse_clusters_json, plan_merge,
    takes_part, truncate,
};
use adaclaw::memory::consolidation_run::{
    category_batches, perform, ConsolidationRun, RunAction, RunEvent,
};
use adaclaw::model::memory::{Category, Memory, MemoryEntry, RecallScope};
use std::cell::RefCell;

fn entry(key: &str, content: &str, category: Category) -> MemoryEntry {
    MemoryEntry {
        key: key.to_string(),
        content: content.to_string(),
        category,
        session: None,
        topic: None,
    }
}

fn texts(keys: &[&str]) -> Vec<String> {
    keys.iter().map(|k| k.to_string()).collect()
}

#[test]
fn test_parse_clusters_empty() {
    let clusters = parse_clusters_json("[]");
    assert!(clusters.is_empty());
}

#[test]
fn test_parse_clusters_valid() {
    let raw = r#"[["key1", "key2"], ["key3", "key4", "key5"]]"#;
    let clusters = parse_clusters_json(raw);
    assert_eq!(clusters.len(), 2);
    assert_eq!(clusters[0].len(), 2);
    assert_eq!(clusters[1].len(), 3);
}

#[test]
fn test_parse_clusters_filters_singletons() {
    let raw = r#"[["key1"], ["key2", "key3"]]"#;
    let clusters = parse_clusters_json(raw);
    // Singleton ["key1"] should be filtered out
    assert_eq!(clusters.len(), 1);
    assert_eq!(clusters[0], vec!["key2", "key3"]);
}

#[test]
fn test_parse_clusters_with_fenced_json() {
    let raw = "```json\n[[\"a\", \"b\"]]\n```";
    let clusters = parse_clusters_json(raw);
    assert_eq!(clusters.len(), 1);
}

#[test]
fn test_parse_clusters_malformed() {
    // Malformed JSON so return empty (non-fatal)
    let clusters = parse_clusters_json("this is not json");
    assert!(clusters.is_empty());
}

#[test]
fn test_truncate_short() {
    assert_eq!(truncate("hello", 100), "hello");
}

#[test]
fn test_truncate_long() {
    let s = "a".repeat(300);
    assert_eq!(truncate(&s, 200).len(), 200);
}

#[test]
fn a_text_is_cut_where_a_character_begins() {
    assert_eq!(truncate("ab\u{e9}cd", 3), "ab");
    assert_eq!(truncate("ab\u{e9}cd", 4), "ab\u{e9}");
}

#[test]
fn all_but_shared_entries_take_part() {
    assert!(takes_part(&Category::Core));
    assert!(takes_part(&Category::Conversation));
    assert!(!takes_part(&Category::Global));
}

#[test]
fn a_batch_is_never_larger_than_asked_for() {
    let entries: Vec<MemoryEntry> = (0..7)
        .map(|i| entry(&format!("k{}", i), "x", Category::Daily))
        .collect();
    let batches = consolidate(entries.clone(), Some(3));
    let sizes: Vec<usize> = batches.iter().map(|b| b.len()).collect();
    assert_eq!(sizes, vec![3, 3, 1]);
    assert_eq!(batches[2][0].key, "k6");
    assert!(consolidate(entries[0..4].to_vec(), Some(3)).is_empty());
    assert!(consolidate(entries[0..4].to_vec(), Some(0)).is_empty());
}

#[test]
fn a_merge_keeps_one_key_and_drops_the_others() {
    let entries = vec![
        entry("new", "newer words", Category::Core),
        entry("mid", "words", Category::Daily),
        entry("old", "older words", Category::Daily),
    ];
    let jobs = consolidate_batch(&entries, "[[\"old\", \"new\"], [\"mid\", \"gone\"]]");
    assert_eq!(jobs.len(), 1);
    let merged = jobs[0].merged_entry("all words");
    assert_eq!(merged.key, "new");
    assert_eq!(merged.content, "all words");
    assert_eq!(merged.category, Category::Core);
    assert_eq!(jobs[0].obsolete_keys(), vec!["old"]);
    assert!(plan_merge(&entries, &texts(&["mid", "mid"])).is_none());
}

#[test]
fn prompts_hold_the_entries() {
    let entries = vec![
        entry("a", "first", Category::Core),
        entry("b", "second", Category::Daily),
    ];
    let prompt = cluster_prompt(&entries);
    assert!(prompt.contains("first"));
    assert!(prompt.contains("b"));
    assert!(merge_prompt(&entries).contains("second"));
}

#[test]
fn a_reply_with_its_brackets_out_of_order_names_no_groups() {
    assert!(parse_clusters_json("] x [").is_empty());
    assert!(parse_clusters_json("][").is_empty());
    assert!(parse_clusters_json("[[\"a\", \"b\"]").is_empty());
    assert!(consolidate_batch(&batch(), "] x [").is_empty());
}

/// Entries in a list, the most recent one first.
struct Notebook {
    entries: RefCell<Vec<MemoryEntry>>,
    readable: bool,
    writable: bool,
}

impl Notebook {
    fn new(entries: Vec<MemoryEntry>) -> Notebook {
        Notebook {
            entries: RefCell::new(entries),
            readable: true,
            writable: true,
        }
    }

    fn contents(&self) -> Vec<(String, String)> {
        self.entries
            .borrow()
            .iter()
            .map(|e| (e.key.clone(), e.content.clone()))
            .collect()
    }
}

impl Memory for Notebook {
    fn name(&self) -> &str {
        "notebook"
    }

    fn store(
        &self,
        key: &str,
        content: &str,
        category: Category,
        session: Option<&str>,
        topic: Option<&str>,
    ) -> Result<(), String> {
        if !self.writable {
            return Err("read-only".to_string());
        }
        let mut entries = self.entries.borrow_mut();
        entries.retain(|e| e.key != key);
        entries.insert(
            0,
            MemoryEntry {
                key: key.to_string(),
                content: content.to_string(),
                category,
                session: session.map(|s| s.to_string()),
                topic: topic.map(|t| t.to_string()),
            },
        );
        Ok(())
    }

    fn recall(
        &self,
        _query: &str,
        _limit: usize,
        _session: Option<&str>,
        _scope: RecallScope,
    ) -> Result<Vec<MemoryEntry>, String> {
        Err("not searchable".to_string())
    }

    fn get(&self, key: &str) -> Result<Option<MemoryEntry>, String> {
        Ok(self.entries.borrow().iter().find(|e| e.key == key).cloned())
    }

    fn list(
        &self,
        category: Option<&Category>,
        _session: Option<&str>,
    ) -> Result<Vec<MemoryEntry>, String> {
        if !self.readable {
            return Err("torn".to_string());
        }
        let entries = self.entries.borrow();
        Ok(entries
            .iter()
            .filter(|e| category.map_or(true, |c| &e.category == c))
            .cloned()
            .collect())
    }

    fn forget(&self, key: &str) -> Result<bool, String> {
        let mut entries = self.entries.borrow_mut();
        let before = entries.len();
        entries.retain(|e| e.key != key);
        Ok(entries.len() < before)
    }

    fn count(&self) -> Result<usize, String> {
        Ok(self.entries.borrow().len())
    }

    fn health_check(&self) -> bool {
        true
    }
}

fn batch() -> Vec<MemoryEntry> {
    vec![
        entry("a", "tea", Category::Core),
        entry("b", "green tea", Category::Core),
        entry("c", "bread", Category::Core),
        entry("d", "rye bread", Category::Core),
        entry("e", "salt", Category::Core),
    ]
}

const GROUPS: &str = "[[\"b\", \"a\"], [\"c\", \"d\"]]";

/// Runs a batch with the given replies of a model; what it was asked.
fn drive(
    run: &mut ConsolidationRun,
    memory: &Notebook,
    groups: Result<String, String>,
    merges: Vec<Result<String, String>>,
) -> usize {
    let entries = batch();
    let mut replies = merges.into_iter();
    let mut asked = 0;
    let mut event = RunEvent::Clustered(groups);
    loop {
        let action = run.step(&entries, event);
        event = match perform(memory, &action) {
            Some(answer) => answer,
            None => match action {
                RunAction::AskMerge(_) => {
                    asked += 1;
                    RunEvent::Merged(replies.next().unwrap())
                }
                _ => return asked,
            },
        };
    }
}

fn fails() -> Result<String, String> {
    Err("quota".to_string())
}

fn says(text: &str) -> Result<String, String> {
    Ok(text.to_string())
}

fn pairs(list: &[(&str, &str)]) -> Vec<(String, String)> {
    list.iter().map(|(k, c)| (k.to_string(), c.to_string())).collect()
}

#[test]
fn a_run_merges_each_group_and_counts_what_it_forgot() {
    let memory = Notebook::new(batch());
    let mut run = ConsolidationRun::new();
    let asked = drive(&mut run, &memory, says(GROUPS), vec![says("teas"), says("breads")]);
    assert_eq!(asked, 2);
    assert_eq!(run.removed, 2);
    assert_eq!(
        memory.contents(),
        pairs(&[("c", "breads"), ("a", "teas"), ("e", "salt")])
    );
    drive(&mut run, &memory, says(GROUPS), vec![says("teas"), says("breads")]);
    assert_eq!(run.removed, 2);
}

#[test]
fn a_failed_grouping_leaves_everything_as_it_is() {
    let memory = Notebook::new(batch());
    let before = memory.contents();
    let mut run = ConsolidationRun::new();
    assert_eq!(drive(&mut run, &memory, fails(), vec![]), 0);
    assert_eq!(drive(&mut run, &memory, says("none"), vec![]), 0);
    assert_eq!(run.removed, 0);
    assert_eq!(memory.contents(), before);
}

#[test]
fn a_failed_merge_spares_its_group_alone() {
    let memory = Notebook::new(batch());
    let mut run = ConsolidationRun::new();
    let asked = drive(&mut run, &memory, says(GROUPS), vec![fails(), says("breads")]);
    assert_eq!(asked, 2);
    assert_eq!(run.removed, 1);
    assert_eq!(
        memory.contents(),
        pairs(&[("c", "breads"), ("a", "tea"), ("b", "green tea"), ("e", "salt")])
    );
}

#[test]
fn nothing_is_forgotten_when_storing_fails() {
    let mut memory = Notebook::new(batch());
    memory.writable = false;
    let before = memory.contents();
    let mut run = ConsolidationRun::new();
    assert_eq!(drive(&mut run, &memory, says(GROUPS), vec![says("teas")]), 1);
    assert_eq!(run.removed, 0);
    assert_eq!(memory.contents(), before);
}

#[test]
fn a_failed_store_keeps_the_count_of_earlier_groups() {
    let entries = batch();
    let mut run = ConsolidationRun::new();
    assert!(matches!(
        run.step(&entries, RunEvent::Clustered(says(GROUPS))),
        RunAction::AskMerge(_)
    ));
    assert!(matches!(
        run.step(&entries, RunEvent::Merged(says("teas"))),
        RunAction::Store(e) if e.key == "a" && e.content == "teas"
    ));
    assert!(matches!(
        run.step(&entries, RunEvent::Stored(Ok(()))),
        RunAction::Forget(k) if k == "b"
    ));
    assert!(matches!(
        run.step(&entries, RunEvent::Forgotten(Ok(true))),
        RunAction::AskMerge(p) if p.contains("rye bread")
    ));
    assert!(matches!(
        run.step(&entries, RunEvent::Merged(says("breads"))),
        RunAction::Store(_)
    ));
    assert!(matches!(
        run.step(&entries, RunEvent::Stored(Err("full".to_string()))),
        RunAction::NextBatch
    ));
    assert_eq!(run.removed, 1);
    assert!(matches!(
        run.step(&entries, RunEvent::Stored(Ok(()))),
        RunAction::NextBatch
    ));
}

#[test]
fn a_forget_that_fails_or_finds_nothing_is_not_counted() {
    let entries = batch();
    for answer in [Ok(false), Err("locked".to_string())] {
        let mut run = ConsolidationRun::new();
        run.step(&entries, RunEvent::Clustered(says("[[\"a\", \"b\", \"c\"]]")));
        run.step(&entries, RunEvent::Merged(says("x")));
        run.step(&entries, RunEvent::Stored(Ok(())));
        assert!(matches!(
            run.step(&entries, RunEvent::Forgotten(answer)),
            RunAction::Forget(k) if k == "c"
        ));
        assert_eq!(run.removed, 0);
    }
}

#[test]
fn the_batches_of_a_category_come_from_its_listing() {
    let mut memory = Notebook::new(batch());
    let sizes: Vec<usize> = category_batches(&memory, &Category::Core, Some(3))
        .unwrap()
        .iter()
        .map(|b| b.len())
        .collect();
    assert_eq!(sizes, vec![3, 2]);
    assert!(category_batches(&memory, &Category::Daily, None).unwrap().is_empty());
    memory.readable = false;
    assert!(category_batches(&memory, &Category::Global, None).unwrap().is_empty());
    assert_eq!(
        category_batches(&memory, &Category::Core, None).unwrap_err(),
        "torn"
    );
}
