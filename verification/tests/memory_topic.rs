use adaclaw::memory::topic::{
    intersection_ratio, tokenize_simple, Likeness, TopicManager, TopicSwitchResult,
    ROLLING_WINDOW,
};
use adaclaw::model::memory::RecallScope;

fn words(list: &[&str]) -> Vec<String> {
    list.iter().map(|s| s.to_string()).collect()
}

fn ratio(part: (usize, usize)) -> f64 {
    part.0 as f64 / part.1 as f64
}

#[test]
fn test_intersection_ratio_full_overlap() {
    let a = words(&["rust", "code"]);
    let b = a.clone();
    assert!((ratio(intersection_ratio(&a, &b)) - 1.0).abs() < 1e-6);
}

#[test]
fn test_intersection_ratio_no_overlap() {
    let a = words(&["rust"]);
    let b = words(&["poem"]);
    assert_eq!(ratio(intersection_ratio(&a, &b)), 0.0);
}

#[test]
fn test_keyword_same_topic() {
    let mut tm = TopicManager::new();
    // Prime with several Rust-related messages
    for msg in &["help me with rust traits", "rust ownership model", "rust async await"] {
        tm.push_recent_message(msg);
    }
    let result = tm.check_with_keywords("how do lifetimes work in rust");
    // "rust" appears in both history and new so should be same or partial
    assert!(
        result == TopicSwitchResult::SameTopic || result == TopicSwitchResult::PartialDrift,
        "Expected same/partial topic, got {:?}", result
    );
}

#[test]
fn test_keyword_topic_switch() {
    let mut tm = TopicManager::new();
    // Prime with Rust messages
    for msg in &["rust traits", "rust borrow checker", "rust lifetime"] {
        tm.push_recent_message(msg);
    }
    // Completely unrelated new message
    let result = tm.check_with_keywords("write me a haiku about autumn leaves falling");
    assert_eq!(result, TopicSwitchResult::Switched {
        new_topic_id: match result.clone() {
            TopicSwitchResult::Switched { new_topic_id } => new_topic_id,
            _ => panic!("Expected Switched"),
        }
    });
}

#[test]
fn test_topic_switch_result_to_recall_scope() {
    assert_eq!(TopicSwitchResult::SameTopic.to_recall_scope(), RecallScope::Full);
    assert_eq!(TopicSwitchResult::PartialDrift.to_recall_scope(), RecallScope::FactsOnly);

    let sw = TopicSwitchResult::Switched { new_topic_id: "t1".to_string() };
    assert_eq!(sw.to_recall_scope(), RecallScope::CurrentTopic { topic_id: "t1".to_string() });
}

#[test]
fn test_new_topic_manager_has_nonempty_topic_id() {
    let tm = TopicManager::new();
    assert!(!tm.current_topic_id().is_empty());
}

#[test]
fn test_register_and_reuse_topic() {
    let mut tm = TopicManager::new();
    let first_id = tm.current_topic_id();
    tm.register_topic(&first_id, "rust programming");

    // Prime with messages that match the registered topic label
    for msg in &["rust programming discussion"] {
        tm.push_recent_message(msg);
    }

    let reused = tm.find_or_create_topic_by_keywords();
    assert_eq!(reused, first_id, "Should reuse the registered rust topic");
}

#[test]
fn only_the_latest_messages_are_remembered() {
    let mut tm = TopicManager::with_topic("t0");
    for i in 0..8 {
        tm.push_recent_message(&format!("message {}", i));
    }
    assert_eq!(tm.recent_messages.len(), ROLLING_WINDOW);
    assert_eq!(tm.recent_messages[0], "message 3");
    assert_eq!(tm.current_topic_id(), "t0");
}

#[test]
fn likeness_decides_when_it_is_known() {
    let mut tm = TopicManager::with_topic("t0");
    tm.push_recent_message("rust traits");
    assert_eq!(tm.check_with_embedding(Likeness::Same), TopicSwitchResult::SameTopic);
    assert_eq!(tm.check_with_embedding(Likeness::NoBaseline), TopicSwitchResult::SameTopic);
    assert_eq!(tm.check_with_embedding(Likeness::Related), TopicSwitchResult::PartialDrift);
    assert_eq!(tm.current_topic_id(), "t0");
    match tm.check_and_switch("haiku about autumn", Some(Ok(Likeness::Apart))).unwrap() {
        TopicSwitchResult::Switched { new_topic_id } => {
            assert_ne!(new_topic_id, "t0");
            assert_eq!(tm.current_topic_id(), new_topic_id);
        }
        other => panic!("{:?}", other),
    }
}

#[test]
fn words_are_lower_case_and_stop_words_are_left_out() {
    assert_eq!(
        tokenize_simple("What is the Rust_2021 edition, a x?"),
        vec!["rust_2021", "edition"]
    );
}

#[test]
fn a_message_that_cannot_be_embedded_leaves_the_topic() {
    let mut tm = TopicManager::with_topic("t1");
    let failed = tm.check_and_switch("some words", Some(Err("no model".to_string())));
    assert_eq!(failed.err().unwrap(), "no model");
    assert_eq!(tm.current_topic_id(), "t1");
    assert_eq!(tm.recent_messages, vec!["some words"]);
}

#[test]
fn a_message_that_takes_up_what_was_said_stays() {
    let mut tm = TopicManager::with_topic("t1");
    tm.push_recent_message("rust traits");
    tm.push_recent_message("latest");
    let long = "rust traits compared with haskell classes, swift protocols, scala givens, ocaml modules";
    assert_eq!(tm.check_with_keywords(long), TopicSwitchResult::SameTopic);
    assert_eq!(tm.check_with_keywords("traits beside many other unrelated things"), TopicSwitchResult::PartialDrift);
    assert_eq!(tm.current_topic_id(), "t1");
}

#[test]
fn a_message_of_words_used_before_does_not_turn() {
    let mut tm = TopicManager::with_topic("t1");
    tm.push_recent_message("rust traits ownership lifetimes macros async unsafe modules");
    tm.push_recent_message("latest");
    assert_eq!(tm.check_with_keywords("traits"), TopicSwitchResult::SameTopic);
    assert_eq!(tm.check_with_keywords("traits poems"), TopicSwitchResult::PartialDrift);
    assert!(matches!(
        tm.check_with_keywords("poems about autumn leaves"),
        TopicSwitchResult::Switched { .. }
    ));
}

#[test]
fn a_label_that_makes_up_the_words_comes_first() {
    let mut tm = TopicManager::with_topic("t0");
    tm.register_topic("wide", "rust traits ownership lifetimes macros async");
    tm.register_topic("narrow", "rust");
    tm.push_recent_message("rust traits ownership");
    assert_eq!(tm.find_or_create_topic_by_keywords(), "wide");
    tm.push_recent_message("gardens flowers bees");
    assert_eq!(tm.find_or_create_topic_by_keywords(), "narrow");
}
