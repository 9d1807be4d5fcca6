use adaclaw::json::{parse_json, Json};
use adaclaw::model::provider::{ChatMessage, ChatRequest, ToolSpec};
use adaclaw::providers::anthropic::{
    parse_response, usage_fits, AnthropicProvider, AnthropicStreamReader,
};
use adaclaw::providers::deepseek::{parse_plain_response, provider_spec, DeepSeekProvider};
use adaclaw::providers::error::ProviderErrorKind;
use adaclaw::providers::groq::GroqWhisper;
use adaclaw::providers::http::{parse_models, response_failure};
use adaclaw::providers::ollama::{OllamaProvider, Reply};
use adaclaw::providers::openai::{stream_request, OpenAiProvider};
use adaclaw::providers::openai_compat::{compat_defs, spec_for, OpenAiCompatProvider};
use adaclaw::providers::openai_proto::{
    build_messages, line_data, parse_tool_calls, OpenAiStreamReader, StreamEnd,
};
use adaclaw::providers::openrouter::OpenRouterProvider;
use adaclaw::providers::registry::{AnyProvider, ProviderSpec};
use adaclaw::providers::router::{create_provider, list_providers};

fn json(text: &str) -> Json {
    parse_json(text).unwrap()
}

fn name_of(provider: &AnyProvider) -> &'static str {
    match provider {
        AnyProvider::OpenAi(p) => p.name(),
        AnyProvider::Anthropic(p) => p.name(),
        AnyProvider::Ollama(p) => p.name(),
        AnyProvider::DeepSeek(p) => p.name(),
        AnyProvider::Compat(p) => p.name(),
    }
}

fn header<'a>(headers: &'a [(String, String)], name: &str) -> Option<&'a str> {
    headers
        .iter()
        .find(|(n, _)| n.eq_ignore_ascii_case(name))
        .map(|(_, v)| v.as_str())
}

fn half() -> Json {
    json("0.5")
}

// ---- names ----

#[test]
fn every_provider_is_found_under_its_name() {
    let names = list_providers();
    assert!(names.contains(&"openai"));
    assert!(names.contains(&"anthropic"));
    assert!(names.contains(&"ollama"));
    assert!(names.contains(&"deepseek"));
    for name in &names {
        let provider = create_provider(name, Some("k"), None).unwrap();
        assert_eq!(name_of(&provider), *name);
    }
    assert_eq!(name_of(&create_provider("gpt-4o", None, None).unwrap()), "openai");
    let missing = create_provider("nobody", None, None).err().unwrap();
    assert!(missing.starts_with("Provider not found for: 'nobody'."));
}

#[test]
fn addresses_can_be_set() {
    match create_provider("openai", Some("k"), Some("https://my.host/v1/")).unwrap() {
        AnyProvider::OpenAi(p) => {
            assert!(p.base_url.starts_with("https://my.host/v1"));
            assert_eq!(p.key.as_deref(), Some("k"));
        }
        _ => panic!("another provider"),
    }
}

#[test]
fn compatible_providers_are_listed_with_their_addresses() {
    let defs = compat_defs();
    let names: Vec<&str> = defs.iter().map(|d| d.name).collect();
    assert!(names.contains(&"groq"));
    let spec: ProviderSpec = spec_for("groq");
    assert_eq!(spec.name, "groq");
    assert!(!spec.local);
}

// ---- requests ----

fn tool() -> ToolSpec {
    ToolSpec {
        name: "shell".to_string(),
        description: "run".to_string(),
        parameters: json("{\"type\":\"object\"}"),
    }
}

#[test]
fn openai_requests_hold_everything() {
    let history = vec![ChatMessage::new("user", "hi")];
    let req = ChatRequest {
        messages: &history,
        system: Some("be nice"),
    };
    let provider = OpenAiProvider::new(Some("k"), None);
    let request = provider.build_request(&req, &[tool()], "gpt-4o", half());
    assert_eq!(request.url, "https://api.openai.com/v1/chat/completions");
    assert_eq!(header(&request.headers, "authorization"), Some("Bearer k"));
    assert_eq!(request.body.field("model").as_str(), Some("gpt-4o"));
    assert_eq!(request.body.field("temperature").to_text(), "0.5");
    assert_eq!(request.body.field("messages").as_arr().unwrap().len(), 2);
    assert_eq!(request.body.field("tools").as_arr().unwrap().len(), 1);
    let plain = provider.build_request(&req, &[], "gpt-4o", half());
    assert!(plain.body.field("tools").is_null());
    let body = plain.body.with("stream", Json::Bool(true));
    let stream = stream_request(&request.url, &provider.key, &body);
    assert_eq!(stream.url, request.url);
    assert_eq!(header(&stream.headers, "authorization"), Some("Bearer k"));
    assert_eq!(stream.body.field("stream").as_bool(), Some(true));
}

#[test]
fn anthropic_requests_need_a_key() {
    let history = vec![ChatMessage::new("system", "summary"), ChatMessage::new("user", "hi")];
    let req = ChatRequest {
        messages: &history,
        system: Some("be nice"),
    };
    let provider = AnthropicProvider::new(Some("k"), None, None);
    let request = provider
        .build_request(&req, &[tool()], "sonnet", half(), true)
        .unwrap();
    assert!(request.url.ends_with("/messages"));
    assert_eq!(header(&request.headers, "x-api-key"), Some("k"));
    assert_eq!(header(&request.headers, "anthropic-version"), Some("2023-06-01"));
    assert_eq!(request.body.field("max_tokens").as_u64(), Some(8192));
    assert_eq!(request.body.field("stream").as_bool(), Some(true));
    assert!(request.body.field("system").as_str().unwrap().contains("summary"));
    let keyless = AnthropicProvider::new(None, None, None);
    assert_eq!(
        keyless.build_request(&req, &[], "sonnet", half(), false).err().unwrap(),
        "Anthropic API key not set"
    );
}

#[test]
fn plain_providers_send_roles_and_texts() {
    let history = vec![ChatMessage::new("user", "hi")];
    let req = ChatRequest {
        messages: &history,
        system: None,
    };
    let deepseek = DeepSeekProvider::new(Some("k"), None);
    let request = deepseek.build_request(&req, "chat", half());
    assert_eq!(request.url, "https://api.deepseek.com/v1/chat/completions");
    let spec = provider_spec();
    assert_eq!(spec.aliases, vec!["deepseek-chat", "deepseek-reasoner", "ds"]);
    assert_eq!(name_of(&spec.factory.make(Some("k"), None)), "deepseek");
    let router = OpenRouterProvider::new(Some("k"), None)
        .with_app_info(Some("https://me".to_string()), Some("App".to_string()));
    let request = router.build_request(&req, "m", half());
    assert_eq!(header(&request.headers, "HTTP-Referer"), Some("https://me"));
    assert_eq!(header(&request.headers, "X-Title"), Some("App"));
    let ollama = OllamaProvider::new(None, None);
    let request = ollama.build_request(&req, "llama", half());
    assert_eq!(request.url, "http://localhost:11434/api/chat");
    assert_eq!(request.body.field("stream").as_bool(), Some(false));
}

#[test]
fn local_servers_are_probed() {
    let ollama = OllamaProvider::new(None, None);
    assert_eq!(ollama.tags_url(), "http://localhost:11434/api/tags");
    assert!(ollama.warmup(&Reply::Success).is_ok());
    assert_eq!(
        ollama.warmup(&Reply::Status("503")).unwrap_err(),
        "Ollama warmup failed: HTTP 503"
    );
    assert_eq!(
        ollama.warmup(&Reply::Unreachable("refused")).unwrap_err(),
        "Ollama not reachable at http://localhost:11434: refused"
    );
    let models = OllamaProvider::list_models(&json("{\"models\":[{\"name\":\"llama\"}]}"));
    assert_eq!(models, Some(vec!["llama".to_string()]));
    assert_eq!(parse_models(&json("{}"), "data", "id"), None);
}

#[test]
fn transcriptions_are_requested_and_read() {
    let groq = GroqWhisper::new("k", None);
    let form = groq.transcribe(Some("en"));
    assert_eq!(form.url, "https://api.groq.com/openai/v1/audio/transcriptions");
    assert_eq!(form.authorization, "Bearer k");
    assert_eq!(form.language.as_deref(), Some("en"));
    assert_eq!(GroqWhisper::parse_transcript(&json("{\"text\":\" hi \"}")), "hi");
    assert_eq!(
        GroqWhisper::transcription_failure("400 Bad Request", "x"),
        "Groq Whisper API error 400 Bad Request: x"
    );
}

#[test]
fn failures_are_told_apart() {
    let failure = response_failure(429, Some("30"), "slow down");
    assert_eq!(failure.kind, ProviderErrorKind::RateLimit);
    assert_eq!(failure.retry_after_secs, Some(30));
    assert_eq!(response_failure(500, Some("soon"), "").retry_after_secs, None);
}

// ---- answers ----

#[test]
fn answers_hold_text_and_calls() {
    let data = json(
        "{\"choices\":[{\"message\":{\"content\":\"hi\",\"tool_calls\":[{\"id\":\"c\",\"function\":{\"name\":\"f\",\"arguments\":\"{}\"}}]}}]}",
    );
    let answer = OpenAiProvider::parse_response(&data);
    assert_eq!(answer.content, "hi");
    assert_eq!(answer.tool_calls.len(), 1);
    assert!(answer.usage.is_none());
    assert_eq!(parse_plain_response(&data).content, "hi");
}

#[test]
fn anthropic_answers_hold_blocks() {
    let data = json(
        "{\"content\":[{\"type\":\"text\",\"text\":\"hi\"},{\"type\":\"tool_use\",\"id\":\"t\",\"name\":\"f\",\"input\":{\"a\":1}}],\"usage\":{\"input_tokens\":3,\"output_tokens\":4}}",
    );
    assert!(usage_fits(&data));
    let answer = parse_response(&data);
    assert_eq!(answer.content, "hi");
    assert_eq!(answer.tool_calls[0].arguments.field("a").as_u64(), Some(1));
    assert_eq!(answer.usage.unwrap().total_tokens, 7);
    let huge = json("{\"content\":[],\"usage\":{\"input_tokens\":4294967295,\"output_tokens\":1}}");
    assert!(!usage_fits(&huge));
}

#[test]
fn reasoning_is_separated() {
    let (text, thoughts) =
        OpenAiCompatProvider::strip_think_tags("<think>one</think>answer<think>two</think>");
    assert_eq!(text, "answer");
    let thoughts = thoughts.unwrap();
    assert!(thoughts.contains("one"));
    assert!(thoughts.contains("two"));
    let (text, thoughts) = OpenAiCompatProvider::strip_think_tags("plain");
    assert_eq!(text, "plain");
    assert!(thoughts.is_none());
}

#[test]
fn calls_survive_the_round_trip() {
    let calls = parse_tool_calls(&json(
        "{\"tool_calls\":[{\"id\":\"c1\",\"function\":{\"name\":\"shell\",\"arguments\":\"{\\\"n\\\":[1,-2,true,null,\\\"x\\\"]}\"}}]}",
    ));
    let text = calls[0].arguments.to_text();
    let history = vec![ChatMessage::assistant_tool_calls("", calls)];
    let req = ChatRequest {
        messages: &history,
        system: None,
    };
    let back = parse_tool_calls(&build_messages(&req)[0]);
    assert_eq!(back.len(), 1);
    assert_eq!(back[0].id, "c1");
    assert_eq!(back[0].name, "shell");
    assert_eq!(back[0].arguments.to_text(), text);
}

// ---- streams ----

const STREAM: &str = "data: {\"choices\":[{\"delta\":{\"content\":\"Hel\"}}]}\n\ndata: {\"choices\":[{\"delta\":{\"content\":\"lo\"}}]}\r\ndata: [DONE]\n";

#[test]
fn streams_can_be_cut_anywhere() {
    for cut in 0..STREAM.len() {
        let mut reader = OpenAiStreamReader::new();
        let (mut deltas, first) = reader.feed(&STREAM.as_bytes()[..cut]);
        let end = if first == StreamEnd::Open {
            let (more, end) = reader.feed(&STREAM.as_bytes()[cut..]);
            deltas.extend(more);
            end
        } else {
            first
        };
        assert_eq!(end, StreamEnd::Done);
        assert_eq!(deltas.concat(), "Hello");
        assert_eq!(reader.assembler.finish().content, "Hello");
    }
}

#[test]
fn streams_with_an_absurd_position_are_given_up() {
    let mut reader = OpenAiStreamReader::new();
    let (_, end) = reader.feed(
        b"data: {\"choices\":[{\"delta\":{\"tool_calls\":[{\"index\":18446744073709551615}]}}]}\n",
    );
    assert_eq!(end, StreamEnd::BadIndex);
    assert_eq!(line_data("data: x"), Some("x".to_string()));
    assert_eq!(line_data(": comment"), None);
}

#[test]
fn anthropic_streams_are_assembled() {
    let mut reader = AnthropicStreamReader::new();
    let (deltas, fits) = reader.feed_text(
        "event: x\ndata: {\"type\":\"content_block_delta\",\"index\":0,\"delta\":{\"type\":\"text_delta\",\"text\":\"Hi\"}}\n",
    );
    assert!(fits);
    assert_eq!(deltas, vec!["Hi"]);
    assert!(reader.assembler.usage_fits());
    assert_eq!(reader.assembler.finish().content, "Hi");
}

#[test]
fn broken_bytes_are_replaced() {
    let mut reader = OpenAiStreamReader::new();
    let mut bytes = b"data: {\"choices\":[{\"delta\":{\"content\":\"a".to_vec();
    bytes.push(255);
    bytes.extend_from_slice(b"\"}}]}\n");
    let (deltas, _) = reader.feed(&bytes);
    assert_eq!(deltas, vec!["a\u{fffd}"]);
}

#[test]
fn json_is_read_back_as_it_was_written() {
    let value = Json::obj()
        .with("a", Json::Int(-3))
        .with("b", Json::Arr(vec![Json::Bool(true), Json::Null]))
        .with("c", Json::text("x \"y\" \n"));
    let text = value.to_text();
    assert_eq!(text, "{\"a\":-3,\"b\":[true,null],\"c\":\"x \\\"y\\\" \\n\"}");
    let back = parse_json(&text).unwrap();
    assert_eq!(back.field("a").as_i64(), Some(-3));
    assert_eq!(back.to_text(), text);
    assert!(parse_json("{").is_none());
}
