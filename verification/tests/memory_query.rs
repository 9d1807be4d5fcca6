use adaclaw::memory::query::{
    decompose_prompt, keys_to_score, merge_multiple_ranked_lists, parse_sub_queries, pick_entries,
    ranked_lists, recall_or_plain, recall_sub_queries, recall_with_qmd, sub_query_limit,
    MAX_SUB_QUERIES,
};
use adaclaw::memory::ranking::rank;
use adaclaw::memory::rrf::{collect_ranks, reciprocal_rank_fusion, RRF_K};
use adaclaw::model::memory::{Category, Memory, MemoryEntry, RecallScope};
use std::cell::RefCell;

/// A key with its score as a number.
struct Scored {
    key: String,
    score: f64,
}

fn scores_with(lists: &Vec<Vec<String>>, k: f64) -> Vec<u64> {
    collect_ranks(lists)
        .iter()
        .map(|entry| {
            let sum: f64 = entry.ranks.iter().map(|r| 1.0 / (k + *r as f64 + 1.0)).sum();
            sum.to_bits()
        })
        .collect()
}

fn scores(lists: &Vec<Vec<String>>) -> Vec<u64> {
    scores_with(lists, RRF_K as f64)
}

fn fusion(vec_ranked: &[String], fts_ranked: &[String], k: f64) -> Vec<Scored> {
    let lists = vec![vec_ranked.to_vec(), fts_ranked.to_vec()];
    let scores = scores_with(&lists, k);
    reciprocal_rank_fusion(vec_ranked.to_vec(), fts_ranked.to_vec(), &scores)
        .into_iter()
        .map(|r| Scored {
            key: r.key,
            score: f64::from_bits(r.score),
        })
        .collect()
}

fn rrf_merge(vec_ranked: &[String], fts_ranked: &[String]) -> Vec<Scored> {
    fusion(vec_ranked, fts_ranked, RRF_K as f64)
}

fn entry(key: &str, content: &str) -> MemoryEntry {
    MemoryEntry {
        key: key.to_string(),
        content: content.to_string(),
        category: Category::Daily,
        session: None,
        topic: None,
    }
}

#[test]
fn test_parse_sub_queries_clean_json() {
    let raw = r#"["上周", "报告处理", "处理方法"]"#;
    let qs = parse_sub_queries(raw, "original");
    assert!(qs.contains(&"original".to_string()));
    assert!(qs.contains(&"上周".to_string()));
    assert!(qs.contains(&"报告处理".to_string()));
}

#[test]
fn test_parse_sub_queries_fenced_json() {
    let raw = "```json\n[\"query A\", \"query B\"]\n```";
    let qs = parse_sub_queries(raw, "original");
    assert!(qs.contains(&"query A".to_string()));
}

#[test]
fn test_parse_sub_queries_original_included() {
    // Original must always be included even if not in LLM response
    let raw = r#"["sub1", "sub2"]"#;
    let qs = parse_sub_queries(raw, "my original query");
    assert!(qs.contains(&"my original query".to_string()));
}

#[test]
fn test_parse_sub_queries_dedup() {
    let raw = r#"["same", "same", "different"]"#;
    let qs = parse_sub_queries(raw, "original");
    let count = qs.iter().filter(|q| q.as_str() == "same").count();
    assert_eq!(count, 1, "duplicates should be removed");
}

#[test]
fn test_merge_multiple_ranked_lists_boosts_common() {
    let lists = vec![
        vec!["a".to_string(), "b".to_string()],
        vec!["c".to_string(), "a".to_string()],
        vec!["a".to_string(), "d".to_string()],
    ];
    let merged = merge_multiple_ranked_lists(&lists, &scores(&lists));
    assert_eq!(merged[0], "a", "'a' appears in all lists and should rank first");
}

#[test]
fn test_merge_single_list_passthrough() {
    let lists = vec![vec!["x".to_string(), "y".to_string()]];
    let merged = merge_multiple_ranked_lists(&lists, &scores(&lists));
    assert_eq!(merged, vec!["x", "y"]);
}

#[test]
fn test_rrf_pure_vec() {
    let vec_ranked = vec!["a".to_string(), "b".to_string(), "c".to_string()];
    let fts_ranked = vec![];
    let results = rrf_merge(&vec_ranked, &fts_ranked);
    // All scores come only from vec; "a" should be first
    assert_eq!(results[0].key, "a");
    assert!(results[0].score > results[1].score);
}

#[test]
fn test_rrf_pure_fts() {
    let vec_ranked = vec![];
    let fts_ranked = vec!["x".to_string(), "y".to_string()];
    let results = rrf_merge(&vec_ranked, &fts_ranked);
    assert_eq!(results[0].key, "x");
}

#[test]
fn test_rrf_fusion_boosts_common() {
    // "a" appears in both so gets highest score
    let vec_ranked = vec!["a".to_string(), "b".to_string()];
    let fts_ranked = vec!["c".to_string(), "a".to_string()];
    let results = rrf_merge(&vec_ranked, &fts_ranked);
    assert_eq!(results[0].key, "a", "common item should win");
}

#[test]
fn test_rrf_disjoint_sets() {
    // No overlap - both lists contribute unique items
    let vec_ranked = vec!["v1".to_string(), "v2".to_string()];
    let fts_ranked = vec!["f1".to_string(), "f2".to_string()];
    let results = rrf_merge(&vec_ranked, &fts_ranked);
    assert_eq!(results.len(), 4);
    // First items of each list tie at rank 0 so same score
    assert!((results[0].score - results[1].score).abs() < 1e-12);
}

#[test]
fn test_rrf_score_formula() {
    let vec_ranked = vec!["only".to_string()];
    let fts_ranked = vec!["only".to_string()];
    let results = rrf_merge(&vec_ranked, &fts_ranked);
    // score = 1/(60+1) * 2
    let expected = 2.0 / 61.0;
    assert!((results[0].score - expected).abs() < 1e-12);
}

#[test]
fn test_rrf_custom_k() {
    let vec_ranked = vec!["a".to_string()];
    let fts_ranked = vec!["a".to_string()];
    let results = fusion(&vec_ranked, &fts_ranked, 10.0);
    let expected = 2.0 / 11.0;
    assert!((results[0].score - expected).abs() < 1e-12);
}

#[test]
fn positions_are_gathered_in_the_order_of_first_appearance() {
    let lists = vec![
        vec!["a".to_string(), "b".to_string()],
        vec!["c".to_string(), "a".to_string()],
    ];
    let table = collect_ranks(&lists);
    let keys: Vec<&str> = table.iter().map(|e| e.key.as_str()).collect();
    assert_eq!(keys, vec!["a", "b", "c"]);
    assert_eq!(table[0].ranks, vec![0, 1]);
    assert_eq!(table[1].ranks, vec![1]);
    assert_eq!(table[2].ranks, vec![0]);
}

#[test]
fn equal_scores_keep_their_order() {
    let order = rank(vec![(1, 'a'), (3, 'b'), (1, 'c'), (3, 'd')]);
    let letters: Vec<char> = order.iter().map(|p| p.1).collect();
    assert_eq!(letters, vec!['b', 'd', 'a', 'c']);
}

#[test]
fn the_question_comes_first_and_there_are_at_most_five() {
    let qs = parse_sub_queries("[\"a\", \"b\", \"c\", \"d\", \"e\", \"f\"]", "q");
    assert_eq!(qs, vec!["q", "a", "b", "c", "d"]);
    assert_eq!(qs.len(), MAX_SUB_QUERIES);
    assert_eq!(
        parse_sub_queries("- first part\n* second\nno", "q"),
        vec!["q", "first part", "second"]
    );
    assert_eq!(parse_sub_queries("[]", "q"), vec!["q"]);
    assert!(decompose_prompt("my question").contains("my question"));
}

#[test]
fn each_question_asks_for_twice_as_many() {
    assert_eq!(sub_query_limit(10), 20);
}

#[test]
fn entries_found_by_several_questions_come_first() {
    let results = vec![
        vec![entry("a", "1"), entry("b", "2")],
        vec![entry("b", "2"), entry("c", "3")],
    ];
    let lists = ranked_lists(&results);
    assert_eq!(lists[1], vec!["b", "c"]);
    let outcome = Ok(results.into_iter().map(Ok).collect());
    assert_eq!(keys_to_score(&outcome).unwrap(), lists);
    let merged = recall_with_qmd(outcome, &scores(&lists), 2).unwrap();
    let keys: Vec<&str> = merged.iter().map(|e| e.key.as_str()).collect();
    assert_eq!(keys, vec!["b", "a"]);
}

#[test]
fn picked_entries_come_in_the_order_of_the_keys() {
    let entries = vec![entry("a", "1"), entry("b", "2")];
    let keys = vec!["b".to_string(), "x".to_string(), "a".to_string()];
    let picked = pick_entries(&keys, &entries);
    let contents: Vec<&str> = picked.iter().map(|e| e.content.as_str()).collect();
    assert_eq!(contents, vec!["2", "1"]);
}

#[test]
fn a_reply_with_its_brackets_out_of_order_is_read_by_lines() {
    assert_eq!(parse_sub_queries("] x [", "q"), vec!["q", "] x ["]);
    assert_eq!(parse_sub_queries("one ]\n[ two", "q"), vec!["q", "one ]", "[ two"]);
}

/// A memory that notes what it is asked.
struct Library {
    fails_on: &'static str,
    asked: RefCell<Vec<(String, usize)>>,
}

impl Library {
    fn new(fails_on: &'static str) -> Library {
        Library {
            fails_on,
            asked: RefCell::new(Vec::new()),
        }
    }
}

impl Memory for Library {
    fn name(&self) -> &str {
        "library"
    }

    fn store(
        &self,
        _key: &str,
        _content: &str,
        _category: Category,
        _session: Option<&str>,
        _topic: Option<&str>,
    ) -> Result<(), String> {
        Ok(())
    }

    fn recall(
        &self,
        query: &str,
        limit: usize,
        _session: Option<&str>,
        _scope: RecallScope,
    ) -> Result<Vec<MemoryEntry>, String> {
        self.asked.borrow_mut().push((query.to_string(), limit));
        if query == self.fails_on {
            return Err("closed".to_string());
        }
        if query == "nothing" {
            return Ok(Vec::new());
        }
        Ok(vec![entry(&format!("about {query}"), query)])
    }

    fn get(&self, _key: &str) -> Result<Option<MemoryEntry>, String> {
        Ok(None)
    }

    fn list(
        &self,
        _category: Option<&Category>,
        _session: Option<&str>,
    ) -> Result<Vec<MemoryEntry>, String> {
        Ok(Vec::new())
    }

    fn forget(&self, _key: &str) -> Result<bool, String> {
        Ok(false)
    }

    fn count(&self) -> Result<usize, String> {
        Ok(0)
    }

    fn health_check(&self) -> bool {
        true
    }
}

fn recall(memory: &Library, reply: Result<String, String>, question: &str) -> Vec<String> {
    let scope = RecallScope::Full;
    let outcome = recall_sub_queries(memory, reply, question, 7, None, &scope);
    let scores = match keys_to_score(&outcome) {
        Some(lists) => scores(&lists),
        None => Vec::new(),
    };
    recall_or_plain(memory, outcome, &scores, question, 7, None, scope)
        .unwrap()
        .into_iter()
        .map(|e| e.key)
        .collect()
}

fn asked(memory: &Library) -> Vec<(String, usize)> {
    memory.asked.borrow().clone()
}

#[test]
fn the_questions_of_a_reply_are_all_asked() {
    let memory = Library::new("-");
    let keys = recall(&memory, Ok("[\"tea\", \"bread\"]".to_string()), "food");
    assert_eq!(keys, vec!["about food", "about tea", "about bread"]);
    let questions: Vec<String> = asked(&memory).into_iter().map(|a| a.0).collect();
    assert_eq!(questions, vec!["food", "tea", "bread"]);
    assert!(asked(&memory).iter().all(|a| a.1 == 14));
}

#[test]
fn a_failed_reply_leads_to_the_plain_recall() {
    let memory = Library::new("-");
    assert_eq!(recall(&memory, Err("quota".to_string()), "food"), vec!["about food"]);
    assert_eq!(asked(&memory), vec![("food".to_string(), 7)]);
}

#[test]
fn a_failed_question_leads_to_the_plain_recall() {
    let memory = Library::new("tea");
    let keys = recall(&memory, Ok("[\"tea\", \"bread\"]".to_string()), "food");
    assert_eq!(keys, vec!["about food"]);
    assert_eq!(asked(&memory).last().unwrap(), &("food".to_string(), 7));
    assert!(recall_with_qmd(
        Ok(vec![Ok(vec![entry("a", "1")]), Err("closed".to_string())]),
        &Vec::new(),
        5
    )
    .is_none());
}

#[test]
fn questions_that_find_nothing_lead_to_the_plain_recall() {
    let memory = Library::new("-");
    assert!(recall(&memory, Ok("[]".to_string()), "nothing").is_empty());
    assert_eq!(asked(&memory).len(), 2);
}
