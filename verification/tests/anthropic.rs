use adaclaw::json::{parse_json, Json};
use adaclaw::model::provider::{ChatMessage, ChatRequest, ImageData, ToolCall};
use adaclaw::providers::anthropic::{AnthropicProvider, AnthropicStreamAssembler};

fn json(text: &str) -> Json {
    parse_json(text).unwrap()
}

/// The value at a path of member names and positions.
fn at<'a>(value: &'a Json, path: &str) -> &'a Json {
    let mut v = value;
    for step in path.split('/') {
        v = match step.parse::<usize>() {
            Ok(i) => v.item(i),
            Err(_) => v.field(step),
        };
    }
    v
}

fn text_at<'a>(value: &'a Json, path: &str) -> &'a str {
    at(value, path).as_str().unwrap()
}


#[test]
fn build_messages_encodes_tool_use_and_coalesces_results() {
    let calls = vec![
        ToolCall {
            id: "t1".into(),
            name: "shell".into(),
            arguments: json(r#"{"command": "ls"}"#),
        },
        ToolCall {
            id: "t2".into(),
            name: "echo".into(),
            arguments: json(r#"{"text": "hi"}"#),
        },
    ];
    let history = vec![
        ChatMessage::new("user", "do it"),
        ChatMessage::assistant_tool_calls("working", calls),
        ChatMessage::tool_result("t1", "files..."),
        ChatMessage::tool_result("t2", "hi"),
    ];
    let req = ChatRequest {
        messages: &history,
        system: None,
    };
    let msgs = AnthropicProvider::build_messages(&req);
    // user, assistant(tool_use x2), then a SINGLE user turn with both results.
    assert_eq!(msgs.len(), 3);
    assert_eq!(text_at(&msgs[0], "role"), "user");
    assert_eq!(text_at(&msgs[1], "role"), "assistant");
    assert_eq!(text_at(&msgs[1], "content/0/type"), "text");
    assert_eq!(text_at(&msgs[1], "content/1/type"), "tool_use");
    assert_eq!(text_at(&msgs[1], "content/1/id"), "t1");
    assert_eq!(text_at(&msgs[1], "content/1/input/command"), "ls");
    // Two tool results coalesced into one user message.
    assert_eq!(text_at(&msgs[2], "role"), "user");
    assert_eq!(text_at(&msgs[2], "content/0/type"), "tool_result");
    assert_eq!(text_at(&msgs[2], "content/0/tool_use_id"), "t1");
    assert_eq!(text_at(&msgs[2], "content/1/tool_use_id"), "t2");
}

#[test]
fn build_messages_encodes_image_as_base64_source() {
    let history = vec![ChatMessage::user_with_images(
        "describe",
        vec![ImageData {
            media_type: "image/jpeg".to_string(),
            data_base64: "QUJD".to_string(),
        }],
    )];
    let req = ChatRequest {
        messages: &history,
        system: None,
    };
    let msgs = AnthropicProvider::build_messages(&req);
    assert_eq!(text_at(&msgs[0], "role"), "user");
    assert_eq!(text_at(&msgs[0], "content/0/type"), "text");
    assert_eq!(text_at(&msgs[0], "content/0/text"), "describe");
    assert_eq!(text_at(&msgs[0], "content/1/type"), "image");
    assert_eq!(text_at(&msgs[0], "content/1/source/type"), "base64");
    assert_eq!(text_at(&msgs[0], "content/1/source/media_type"), "image/jpeg");
    assert_eq!(text_at(&msgs[0], "content/1/source/data"), "QUJD");
}

#[test]
fn build_messages_filters_system_role() {
    let history = vec![
        ChatMessage::new("system", "[Conversation summary]: earlier stuff"),
        ChatMessage::new("user", "hi"),
    ];
    let req = ChatRequest {
        messages: &history,
        system: None,
    };
    let msgs = AnthropicProvider::build_messages(&req);
    assert_eq!(msgs.len(), 1, "system-role messages are not sent inline");
    assert_eq!(text_at(&msgs[0], "role"), "user");
}

#[test]
fn fold_system_preserves_in_conversation_summary() {
    let history = vec![
        ChatMessage::new("system", "[Conversation summary]: earlier stuff"),
        ChatMessage::new("user", "hi"),
    ];
    // No top-level system so the summary becomes the system prompt.
    let folded = AnthropicProvider::fold_system(None, &history).unwrap();
    assert!(folded.contains("[Conversation summary]: earlier stuff"));

    // Top-level system present so both are combined, base first.
    let folded2 = AnthropicProvider::fold_system(Some("You are Ada."), &history).unwrap();
    assert!(folded2.starts_with("You are Ada."));
    assert!(folded2.contains("[Conversation summary]"));
}

#[test]
fn fold_system_none_when_nothing() {
    let history = vec![ChatMessage::new("user", "hi")];
    assert!(AnthropicProvider::fold_system(None, &history).is_none());
}

#[test]
fn stream_assembler_text_tool_and_usage() {
    let mut assembler = AnthropicStreamAssembler::default();
    assembler.push(&json(r#"{"type":"message_start","message":{"usage":{"input_tokens":5,"output_tokens":1}}}"#));
    assembler.push(&json(r#"{"type":"content_block_start","index":0,"content_block":{"type":"text","text":""}}"#));
    let d1 = assembler.push(&json(r#"{"type":"content_block_delta","index":0,"delta":{"type":"text_delta","text":"Hel"}}"#));
    let d2 = assembler.push(&json(r#"{"type":"content_block_delta","index":0,"delta":{"type":"text_delta","text":"lo"}}"#));
    assert_eq!(d1.as_deref(), Some("Hel"));
    assert_eq!(d2.as_deref(), Some("lo"));
    // tool_use block at index 1, args streamed as partial_json fragments
    assembler.push(&json(r#"{"type":"content_block_start","index":1,"content_block":{"type":"tool_use","id":"toolu_1","name":"shell"}}"#));
    assembler.push(&json(r#"{"type":"content_block_delta","index":1,"delta":{"type":"input_json_delta","partial_json":"{\"cmd\":"}}"#));
    assembler.push(&json(r#"{"type":"content_block_delta","index":1,"delta":{"type":"input_json_delta","partial_json":"\"ls\"}"}}"#));
    assembler.push(&json(r#"{"type":"message_delta","delta":{"stop_reason":"tool_use"},"usage":{"output_tokens":7}}"#));

    let resp = assembler.finish();
    assert_eq!(resp.content, "Hello");
    assert_eq!(resp.tool_calls.len(), 1);
    assert_eq!(resp.tool_calls[0].id, "toolu_1");
    assert_eq!(resp.tool_calls[0].name, "shell");
    assert_eq!(text_at(&resp.tool_calls[0].arguments, "cmd"), "ls");
    let u = resp.usage.unwrap();
    assert_eq!(u.prompt_tokens, 5);
    assert_eq!(u.completion_tokens, 7);
    assert_eq!(u.total_tokens, 12);
}
