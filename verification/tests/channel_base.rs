use adaclaw::channels::base::{glob_match_pattern, BaseChannel};

#[test]
fn glob_no_wildcard_exact_match() {
    assert!(glob_match_pattern("alice", "alice"));
    assert!(!glob_match_pattern("alice", "bob"));
}

#[test]
fn glob_prefix_wildcard() {
    assert!(glob_match_pattern("admin_*", "admin_alice"));
    assert!(glob_match_pattern("admin_*", "admin_"));
    assert!(!glob_match_pattern("admin_*", "user_bob"));
}

#[test]
fn glob_suffix_wildcard() {
    assert!(glob_match_pattern("*@example.com", "user@example.com"));
    assert!(!glob_match_pattern("*@example.com", "user@other.com"));
}

#[test]
fn glob_middle_wildcard() {
    assert!(glob_match_pattern("user_*_admin", "user_123_admin"));
    assert!(!glob_match_pattern("user_*_admin", "user_123_mod"));
}

#[test]
fn glob_star_only_matches_everything() {
    assert!(glob_match_pattern("*", "anything"));
    assert!(glob_match_pattern("*", ""));
}

#[test]
fn empty_allowlist_permits_all() {
    let ch = BaseChannel::new("test");
    assert!(ch.is_allowed("anyone"));
    assert!(ch.is_allowed("12345"));
}

#[test]
fn exact_id_match() {
    let ch = BaseChannel::new("test").with_allow_from(vec!["123456".into()]);
    assert!(ch.is_allowed("123456"));
    assert!(!ch.is_allowed("999999"));
}

#[test]
fn compound_id_username_format() {
    let ch = BaseChannel::new("test").with_allow_from(vec!["123456".into()]);
    assert!(ch.is_allowed("123456|alice"));
}

#[test]
fn at_prefix_stripped() {
    let ch = BaseChannel::new("test").with_allow_from(vec!["@alice".into()]);
    assert!(ch.is_allowed("alice"));
    assert!(ch.is_allowed("123|alice"));
}

#[test]
fn glob_prefix_in_allowlist() {
    let ch = BaseChannel::new("test").with_allow_from(vec!["admin_*".into()]);
    assert!(ch.is_allowed("admin_alice"));
    assert!(ch.is_allowed("admin_bob"));
    assert!(!ch.is_allowed("user_charlie"));
}

#[test]
fn glob_suffix_in_allowlist() {
    let ch = BaseChannel::new("test").with_allow_from(vec!["*@corp.example".into()]);
    assert!(ch.is_allowed("alice@corp.example"));
    assert!(!ch.is_allowed("alice@other.example"));
}

#[test]
fn glob_case_insensitive() {
    let ch = BaseChannel::new("test").with_allow_from(vec!["Admin_*".into()]);
    assert!(ch.is_allowed("admin_alice"));
    assert!(ch.is_allowed("ADMIN_BOB"));
}

#[test]
fn glob_matches_username_part_of_compound() {
    let ch = BaseChannel::new("test").with_allow_from(vec!["admin_*".into()]);
    assert!(ch.is_allowed("99|admin_alice"));
    assert!(!ch.is_allowed("99|user_bob"));
}

#[test]
fn glob_and_exact_entries_coexist() {
    let ch = BaseChannel::new("test")
        .with_allow_from(vec!["123456".into(), "admin_*".into()]);
    assert!(ch.is_allowed("123456"));
    assert!(ch.is_allowed("admin_charlie"));
    assert!(!ch.is_allowed("999|bob"));
}

#[test]
fn group_allowlist_falls_back_to_allow_from() {
    let ch = BaseChannel::new("test").with_allow_from(vec!["alice".into()]);
    assert!(ch.is_group_allowed("alice"));
    assert!(!ch.is_group_allowed("bob"));
}

#[test]
fn group_allowlist_overrides_allow_from() {
    let ch = BaseChannel::new("test")
        .with_allow_from(vec!["alice".into()])
        .with_group_config(vec!["group_*".into()], false);
    assert!(!ch.is_group_allowed("alice"));
    assert!(ch.is_group_allowed("group_chat_1"));
}
