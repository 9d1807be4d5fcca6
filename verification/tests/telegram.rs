use adaclaw::channels::markdown::html_escape;
use adaclaw::channels::telegram::{
    markdown_to_telegram_html, split_message, TelegramChannel, APPROVAL_CALLBACK_APPROVE_PREFIX,
    APPROVAL_CALLBACK_DENY_PREFIX, TG_MAX_MESSAGE_CHARS,
};

#[test]
fn test_markdown_bold() {
    let result = markdown_to_telegram_html("Hello **world**!");
    assert!(result.contains("<b>world</b>"));
}

#[test]
fn test_markdown_code_block() {
    let input = "```rust\nfn main() {}\n```";
    let result = markdown_to_telegram_html(input);
    assert!(result.contains("<pre><code>"));
    assert!(result.contains("fn main() {}"));
}

#[test]
fn test_markdown_html_escape() {
    let input = "a < b & c > d";
    let result = markdown_to_telegram_html(input);
    assert!(result.contains("&lt;"));
    assert!(result.contains("&amp;"));
    assert!(result.contains("&gt;"));
}

#[test]
fn test_split_message_short() {
    let chunks = split_message("hello", TG_MAX_MESSAGE_CHARS);
    assert_eq!(chunks.len(), 1);
    assert_eq!(chunks[0], "hello");
}

#[test]
fn test_split_message_ascii_long() {
    let text = "a".repeat(5000);
    let chunks = split_message(&text, TG_MAX_MESSAGE_CHARS);
    assert!(chunks.len() > 1);
    for chunk in &chunks {
        assert!(chunk.chars().count() <= TG_MAX_MESSAGE_CHARS);
    }
}

#[test]
fn test_split_message_unicode() {
    // Three bytes each, but counted as one character.
    let text = "中".repeat(5000);
    let chunks = split_message(&text, TG_MAX_MESSAGE_CHARS);
    assert!(chunks.len() > 1);
    for chunk in &chunks {
        assert!(
            chunk.chars().count() <= TG_MAX_MESSAGE_CHARS,
            "chunk has {} chars, max is {}",
            chunk.chars().count(),
            TG_MAX_MESSAGE_CHARS
        );
    }
    // Nothing is lost.
    let rejoined: String = chunks.join("");
    assert_eq!(rejoined, text);
}

#[test]
fn test_split_message_exactly_at_limit() {
    let text = "x".repeat(TG_MAX_MESSAGE_CHARS);
    let chunks = split_message(&text, TG_MAX_MESSAGE_CHARS);
    assert_eq!(chunks.len(), 1);
}

#[test]
fn test_split_message_one_over_limit() {
    let text = "x".repeat(TG_MAX_MESSAGE_CHARS + 1);
    let chunks = split_message(&text, TG_MAX_MESSAGE_CHARS);
    assert!(chunks.len() >= 2);
    for chunk in &chunks {
        assert!(chunk.chars().count() <= TG_MAX_MESSAGE_CHARS);
    }
}

#[test]
fn test_split_preserves_content() {
    let text = "word ".repeat(TG_MAX_MESSAGE_CHARS / 5 + 100);
    let chunks = split_message(&text, TG_MAX_MESSAGE_CHARS);
    let rejoined = chunks.join("");
    assert_eq!(rejoined, text);
}

#[test]
fn a_cut_before_a_break_drops_it() {
    assert_eq!(split_message("abcd ef", 4), vec!["abcd", "ef"]);
    assert_eq!(split_message("ab  cd", 4), vec!["ab  ", "cd"]);
    assert_eq!(split_message("abc  de", 4), vec!["abc ", "de"]);
    assert_eq!(split_message("ab cd ef", 4), vec!["ab ", "cd ", "ef"]);
    assert_eq!(split_message("abc\ndef", 4), vec!["abc\n", "def"]);
    assert_eq!(split_message("a\nbcdef", 4), vec!["a\nbc", "def"]);
}

#[test]
fn test_allowlist_compound() {
    let ch =
        TelegramChannel::new("token".to_string()).with_allow_from(vec!["123456".to_string()]);
    assert!(ch.base.is_allowed("123456|alice"));
    assert!(!ch.base.is_allowed("999|alice"));
}

#[test]
fn test_contains_bot_mention() {
    assert!(TelegramChannel::contains_bot_mention(
        "hi @MyBot please help",
        "mybot"
    ));
    assert!(TelegramChannel::contains_bot_mention(
        "@mybot do this",
        "mybot"
    ));
    assert!(!TelegramChannel::contains_bot_mention(
        "hello world",
        "mybot"
    ));
    assert!(!TelegramChannel::contains_bot_mention("@otherbot", "mybot"));
}

#[test]
fn test_strip_bot_mention() {
    let result = TelegramChannel::strip_bot_mention("@mybot please help", "mybot");
    assert_eq!(result, "please help");
    let result2 = TelegramChannel::strip_bot_mention("hi @MyBot status", "mybot");
    assert_eq!(result2, "hi status");
}

#[test]
fn test_split_message_limit_is_4096() {
        assert_eq!(TG_MAX_MESSAGE_CHARS, 4096);
    // A full text stays whole.
    let text = "a".repeat(4096);
    let chunks = split_message(&text, TG_MAX_MESSAGE_CHARS);
    assert_eq!(chunks.len(), 1);
    // One character more does not.
    let text2 = "a".repeat(4097);
    let chunks2 = split_message(&text2, TG_MAX_MESSAGE_CHARS);
    assert!(chunks2.len() > 1);
}



#[test]
fn test_approval_callback_approve_prefix_parses_request_id() {
    let data = format!("{}apr-1a2b3c", APPROVAL_CALLBACK_APPROVE_PREFIX);
    assert!(
        data.strip_prefix(APPROVAL_CALLBACK_APPROVE_PREFIX)
            .is_some()
    );
    let rid = data.strip_prefix(APPROVAL_CALLBACK_APPROVE_PREFIX).unwrap();
    assert_eq!(rid, "apr-1a2b3c");
}

#[test]
fn test_approval_callback_deny_prefix_parses_request_id() {
    let data = format!("{}apr-dead00", APPROVAL_CALLBACK_DENY_PREFIX);
    let rid = data.strip_prefix(APPROVAL_CALLBACK_DENY_PREFIX).unwrap();
    assert_eq!(rid, "apr-dead00");
}

#[test]
fn test_approval_callback_approve_prefix_constant() {
    assert_eq!(APPROVAL_CALLBACK_APPROVE_PREFIX, "acadapr:yes:");
}

#[test]
fn test_approval_callback_deny_prefix_constant() {
    assert_eq!(APPROVAL_CALLBACK_DENY_PREFIX, "acadapr:no:");
}

#[test]
fn test_approval_callback_data_distinguishes_approve_deny() {
    let approve_data = format!("{}apr-aaa", APPROVAL_CALLBACK_APPROVE_PREFIX);
    let deny_data = format!("{}apr-aaa", APPROVAL_CALLBACK_DENY_PREFIX);

    assert!(
        approve_data
            .strip_prefix(APPROVAL_CALLBACK_APPROVE_PREFIX)
            .is_some()
    );
    assert!(
        approve_data
            .strip_prefix(APPROVAL_CALLBACK_DENY_PREFIX)
            .is_none()
    );

    assert!(
        deny_data
            .strip_prefix(APPROVAL_CALLBACK_DENY_PREFIX)
            .is_some()
    );
    assert!(
        deny_data
            .strip_prefix(APPROVAL_CALLBACK_APPROVE_PREFIX)
            .is_none()
    );
}

#[test]
fn test_approval_callback_empty_request_id_rejected() {
    // Empty request_id after prefix: should not be treated as valid
    let approve_data = APPROVAL_CALLBACK_APPROVE_PREFIX; // no request_id
    let rid = approve_data
        .strip_prefix(APPROVAL_CALLBACK_APPROVE_PREFIX)
        .unwrap_or("")
        .trim();
    assert!(
        rid.is_empty(),
        "Empty request_id should be treated as invalid"
    );
}

#[test]
fn test_approval_callback_whitespace_trimmed_request_id_rejected() {
    let data = format!("{}   ", APPROVAL_CALLBACK_APPROVE_PREFIX);
    let rid = data
        .strip_prefix(APPROVAL_CALLBACK_APPROVE_PREFIX)
        .unwrap_or("")
        .trim();
    assert!(
        rid.is_empty(),
        "Whitespace-only request_id should be treated as invalid"
    );
}

#[test]
fn test_html_escape_basic() {
    assert_eq!(html_escape("<b>"), "&lt;b&gt;");
    assert_eq!(html_escape("a & b"), "a &amp; b");
    assert_eq!(html_escape("\"quoted\""), "&quot;quoted&quot;");
    assert_eq!(html_escape("no special chars"), "no special chars");
}

#[test]
fn test_html_escape_xss_prevention() {
    let malicious = "<script>alert('xss')</script>";
    let escaped = html_escape(malicious);
    assert!(!escaped.contains('<'));
    assert!(!escaped.contains('>'));
    assert!(escaped.contains("&lt;script&gt;"));
}

#[test]
fn test_approval_prompt_callback_data_max_length() {
    // Telegram callback_data is limited to 64 bytes
    let request_id = "apr-12345"; // 9 chars
    let approve_data = format!("{}{}", APPROVAL_CALLBACK_APPROVE_PREFIX, request_id);
    assert!(
        approve_data.len() <= 64,
        "callback_data must be <= 64 bytes, got {}",
        approve_data.len()
    );
    let deny_data = format!("{}{}", APPROVAL_CALLBACK_DENY_PREFIX, request_id);
    assert!(
        deny_data.len() <= 64,
        "callback_data must be <= 64 bytes, got {}",
        deny_data.len()
    );
}

#[test]
fn a_mention_is_taken_literally() {
    let strip = |text| TelegramChannel::strip_bot_mention(text, "my.bot");
    assert_eq!(strip("@my.bot hello"), "hello");
    assert_eq!(strip("@myxbot hello"), "@myxbot hello");
}
