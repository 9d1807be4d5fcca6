use adaclaw::json::{parse_json, Json};
use adaclaw::model::provider::{ChatMessage, ChatRequest, ImageData, ToolCall, ToolSpec};
use adaclaw::providers::openai_proto::{
    build_messages, build_tools, parse_tool_calls, parse_usage, take_sse_line,
    OpenAiStreamAssembler,
};

fn json(text: &str) -> Json {
    parse_json(text).unwrap()
}

/// The value at a path of member names and positions.
fn at<'a>(value: &'a Json, path: &str) -> &'a Json {
    let mut v = value;
    for step in path.split('/') {
        v = match step.parse::<usize>() {
            Ok(i) => v.item(i),
            Err(_) => v.field(step),
        };
    }
    v
}

fn text_at<'a>(value: &'a Json, path: &str) -> &'a str {
    at(value, path).as_str().unwrap()
}


#[test]
fn build_messages_encodes_tool_result_turn() {
    let history = vec![ChatMessage::tool_result("call_1", "the result")];
    let req = ChatRequest {
        messages: &history,
        system: None,
    };
    let msgs = build_messages(&req);
    assert_eq!(text_at(&msgs[0], "role"), "tool");
    assert_eq!(text_at(&msgs[0], "tool_call_id"), "call_1");
    assert_eq!(text_at(&msgs[0], "content"), "the result");
}

#[test]
fn build_messages_echoes_assistant_tool_calls() {
    let calls = vec![ToolCall {
        id: "call_1".to_string(),
        name: "shell".to_string(),
        arguments: json(r#"{"command": "ls"}"#),
    }];
    let history = vec![ChatMessage::assistant_tool_calls("", calls)];
    let req = ChatRequest {
        messages: &history,
        system: None,
    };
    let msgs = build_messages(&req);
    assert_eq!(text_at(&msgs[0], "role"), "assistant");
    assert!(at(&msgs[0], "content").is_null());
    let tc = at(&msgs[0], "tool_calls/0");
    assert_eq!(text_at(tc, "id"), "call_1");
    assert_eq!(text_at(tc, "type"), "function");
    assert_eq!(text_at(tc, "function/name"), "shell");
    // arguments must be a JSON-encoded string, not an object.
    assert_eq!(text_at(tc, "function/arguments"), "{\"command\":\"ls\"}");
}

#[test]
fn build_messages_encodes_image_as_data_url() {
    let history = vec![ChatMessage::user_with_images(
        "what is this?",
        vec![ImageData {
            media_type: "image/png".to_string(),
            data_base64: "QUJD".to_string(),
        }],
    )];
    let req = ChatRequest {
        messages: &history,
        system: None,
    };
    let msgs = build_messages(&req);
    assert_eq!(text_at(&msgs[0], "role"), "user");
    // content is an array: text part then image_url part.
    assert_eq!(text_at(&msgs[0], "content/0/type"), "text");
    assert_eq!(text_at(&msgs[0], "content/0/text"), "what is this?");
    assert_eq!(text_at(&msgs[0], "content/1/type"), "image_url");
    assert_eq!(
        text_at(&msgs[0], "content/1/image_url/url"),
        "data:image/png;base64,QUJD"
    );
}

#[test]
fn build_messages_plain_turn_unchanged() {
    let history = vec![ChatMessage::new("user", "hi")];
    let req = ChatRequest {
        messages: &history,
        system: Some("be nice"),
    };
    let msgs = build_messages(&req);
    assert_eq!(text_at(&msgs[0], "role"), "system");
    assert_eq!(text_at(&msgs[1], "role"), "user");
    assert_eq!(text_at(&msgs[1], "content"), "hi");
}

#[test]
fn build_tools_shapes_function_schema() {
    let specs = vec![ToolSpec {
        name: "shell".to_string(),
        description: "run a command".to_string(),
        parameters: json(r#"{"type": "object"}"#),
    }];
    let tools = build_tools(&specs);
    assert_eq!(text_at(&tools[0], "type"), "function");
    assert_eq!(text_at(&tools[0], "function/name"), "shell");
    assert_eq!(text_at(&tools[0], "function/description"), "run a command");
    assert_eq!(text_at(&tools[0], "function/parameters/type"), "object");
}

#[test]
fn parse_tool_calls_decodes_arguments_string() {
    let message = json(r#"{"tool_calls": [{"id": "call_abc","type": "function","function": {"name": "shell", "arguments": "{\"command\":\"ls -la\"}"}}]}"#);
    let calls = parse_tool_calls(&message);
    assert_eq!(calls.len(), 1);
    assert_eq!(calls[0].id, "call_abc");
    assert_eq!(calls[0].name, "shell");
    assert_eq!(text_at(&calls[0].arguments, "command"), "ls -la");
}

#[test]
fn parse_tool_calls_empty_when_absent() {
    let message = json(r#"{"content": "just text"}"#);
    assert!(parse_tool_calls(&message).is_empty());
}

#[test]
fn parse_usage_reads_token_counts() {
    let data = json(r#"{"usage": {"prompt_tokens": 10, "completion_tokens": 5, "total_tokens": 15}}"#);
    let u = parse_usage(&data).unwrap();
    assert_eq!(u.prompt_tokens, 10);
    assert_eq!(u.completion_tokens, 5);
    assert_eq!(u.total_tokens, 15);
}

#[test]
fn parse_usage_none_when_absent() {
    assert!(parse_usage(&json(r#"{"choices": []}"#)).is_none());
}

#[test]
fn take_sse_line_splits_and_keeps_partial() {
    let mut buf = String::from("data: a\r\ndata: b\npart");
    assert_eq!(take_sse_line(&mut buf).as_deref(), Some("data: a"));
    assert_eq!(take_sse_line(&mut buf).as_deref(), Some("data: b"));
    // No trailing newline so partial remains for the next read.
    assert_eq!(take_sse_line(&mut buf), None);
    assert_eq!(buf, "part");
}

#[test]
fn assembler_collects_text_deltas() {
    let mut assembler = OpenAiStreamAssembler::default();
    let d1 = assembler.push(&json(r#"{"choices":[{"delta":{"content":"Hel"}}]}"#));
    let d2 = assembler.push(&json(r#"{"choices":[{"delta":{"content":"lo"}}]}"#));
    assert_eq!(d1.as_deref(), Some("Hel"));
    assert_eq!(d2.as_deref(), Some("lo"));
    let resp = assembler.finish();
    assert_eq!(resp.content, "Hello");
    assert!(resp.tool_calls.is_empty());
}

#[test]
fn assembler_reassembles_tool_call_across_fragments() {
    let mut assembler = OpenAiStreamAssembler::default();
    // id + name arrive first, arguments stream in fragments.
    assembler.push(&json(r#"{"choices":[{"delta":{"tool_calls":[{"index":0,"id":"call_1","function":{"name":"shell","arguments":"{\"comm"}}]}}]}"#));
    assembler.push(&json(r#"{"choices":[{"delta":{"tool_calls":[{"index":0,"function":{"arguments":"and\":\"ls\"}"}}]}}]}"#));
    // usage in a final chunk
    assembler.push(&json(r#"{"choices":[],"usage":{"prompt_tokens":3,"completion_tokens":4,"total_tokens":7}}"#));
    let resp = assembler.finish();
    assert_eq!(resp.tool_calls.len(), 1);
    assert_eq!(resp.tool_calls[0].id, "call_1");
    assert_eq!(resp.tool_calls[0].name, "shell");
    assert_eq!(text_at(&resp.tool_calls[0].arguments, "command"), "ls");
    assert_eq!(resp.usage.unwrap().total_tokens, 7);
}
