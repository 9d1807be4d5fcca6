use adaclaw::channels::slack::{markdown_to_slack_mrkdwn, parse_slack_session_id};

#[test]
fn test_mrkdwn_bold() {
    let result = markdown_to_slack_mrkdwn("Hello **world**!");
    assert_eq!(result, "Hello *world*!");
}

#[test]
fn test_mrkdwn_link() {
    let result = markdown_to_slack_mrkdwn("[Google](https://google.com)");
    assert_eq!(result, "<https://google.com|Google>");
}

#[test]
fn test_mrkdwn_strikethrough() {
    let result = markdown_to_slack_mrkdwn("~~deleted~~");
    assert_eq!(result, "~deleted~");
}

#[test]
fn test_mrkdwn_heading() {
    let result = markdown_to_slack_mrkdwn("# Title\nSome text");
    assert!(result.contains("*Title*"));
}

#[test]
fn test_mrkdwn_code_block_preserved() {
    let input = "```rust\nfn main() {}\n```";
    let result = markdown_to_slack_mrkdwn(input);
    assert!(result.contains("fn main() {}"));
    assert!(result.contains("```"));
}

#[test]
fn test_parse_slack_session_id_simple() {
    let (ch, ts) = parse_slack_session_id("C1234567890");
    assert_eq!(ch, "C1234567890");
    assert!(ts.is_none());
}

#[test]
fn test_parse_slack_session_id_with_thread() {
    let (ch, ts) = parse_slack_session_id("C1234567890/1234567890.123456");
    assert_eq!(ch, "C1234567890");
    assert_eq!(ts.as_deref(), Some("1234567890.123456"));
}
