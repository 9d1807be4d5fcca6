//! The chat completions interface of OpenAI.
use vstd::prelude::*;
use crate::json::{Json, JsonTree};
use crate::model::provider::{
    ChatMessage, ChatRequest, ChatResponse, ProviderCapabilities, ResponseView, ToolSpec,
};
use crate::providers::http::{base_of, base_url, push_header, ProviderRequest, RequestView};
use crate::providers::openai_proto::{
    build_messages, build_tools, message_calls, messages_tree, parse_tool_calls, parse_usage,
    tool_tree, usage_of,
};
use crate::text::{cat2, opt_str, opt_string};
use crate::providers::openai_compat::str_views;
use crate::providers::registry::{openai_entry, ProviderFactory, ProviderSpec};

verus! {

pub const DEFAULT_BASE_URL: &'static str = "https://api.openai.com/v1";

/// The header that carries a key, if there is one.
pub open spec fn bearer(key: Option<Seq<char>>) -> Seq<(Seq<char>, Seq<char>)> {
    match key {
        Some(k) => seq![("Authorization"@, "Bearer "@ + k)],
        None => Seq::empty(),
    }
}

/// The header that carries a key, if there is one.
pub fn bearer_headers(key: &Option<String>) -> (r: Vec<(String, String)>)
    ensures
        crate::providers::http::header_views(r@) == bearer(opt_string(*key)),
{
    let mut headers: Vec<(String, String)> = Vec::new();
    if let Some(k) = key {
        let value = cat2("Bearer ", k.as_str());
        push_header(&mut headers, "Authorization", value.as_str());
    }
    proof {
        assert(crate::providers::http::header_views(headers@) =~= bearer(opt_string(*key)));
    }
    headers
}

/// The body of a request.
pub open spec fn body_tree(
    model: Seq<char>,
    temperature: JsonTree,
    messages: Seq<ChatMessage>,
    system: Option<&str>,
    tools: Seq<ToolSpec>,
) -> JsonTree {
    let b = Map::empty().insert("model"@, JsonTree::Str(model)).insert(
        "messages"@,
        JsonTree::Arr(messages_tree(messages, system)),
    ).insert("temperature"@, temperature);
    JsonTree::Obj(
        if tools.len() > 0 {
            b.insert(
                "tools"@,
                JsonTree::Arr(Seq::new(tools.len(), |i: int| tool_tree(tools[i]))),
            )
        } else {
            b
        },
    )
}

/// The body of a request.
pub fn build_body(
    req: &ChatRequest<'_>,
    tools: &[ToolSpec],
    model: &str,
    temperature: Json,
) -> (r: Json)
    ensures
        r@ == body_tree(model@, temperature@, req.messages@, req.system, tools@),
{
    let messages = build_messages(req);
    let mut body = Json::obj().with("model", Json::text(model)).with(
        "messages",
        Json::arr(messages),
    ).with("temperature", temperature);
    if tools.len() > 0 {
        body = body.with("tools", Json::arr(build_tools(tools)));
    }
    body
}

/// What an answer says.
pub open spec fn answer_of(data: JsonTree) -> ResponseView {
    let message = data.field("choices"@).item(0).field("message"@);
    ResponseView {
        content: message.field("content"@).text_or_empty(),
        reasoning_content: None,
        tool_calls: message_calls(message),
        usage: usage_of(data),
    }
}

pub struct OpenAiProvider {
    pub key: Option<String>,
    pub base_url: String,
}

impl OpenAiProvider {
    pub fn new(key: Option<&str>, url: Option<&str>) -> (r: Self)
        ensures
            opt_string(r.key) == opt_str(key),
            r.base_url@ == base_of(opt_str(url), DEFAULT_BASE_URL@),
    {
        OpenAiProvider {
            key: match key {
                Some(k) => Some(k.to_owned()),
                None => None,
            },
            base_url: base_url(url, DEFAULT_BASE_URL),
        }
    }

    pub fn name(&self) -> (r: &'static str)
        ensures
            r@ == "openai"@,
    {
        "openai"
    }

    pub fn capabilities(&self) -> (r: ProviderCapabilities)
        ensures
            r == (ProviderCapabilities {
                native_tool_calling: true,
                vision: true,
                streaming: true,
            }),
    {
        ProviderCapabilities { native_tool_calling: true, vision: true, streaming: true }
    }

    /// The request to send, with the tools if there are any.
    pub fn build_request(
        &self,
        req: &ChatRequest<'_>,
        tools: &[ToolSpec],
        model: &str,
        temperature: Json,
    ) -> (r: ProviderRequest)
        ensures
            r@ == (RequestView {
                url: self.base_url@ + "/chat/completions"@,
                headers: bearer(opt_string(self.key)),
                body: body_tree(model@, temperature@, req.messages@, req.system, tools@),
            }),
    {
        ProviderRequest {
            url: cat2(self.base_url.as_str(), "/chat/completions"),
            headers: bearer_headers(&self.key),
            body: build_body(req, tools, model, temperature),
        }
    }

    /// Reads an answer.
    pub fn parse_response(data: &Json) -> (r: ChatResponse)
        ensures
            r@ == answer_of(data@),
    {
        let message = data.field("choices").item(0).field("message");
        ChatResponse {
            content: message.field("content").str_or_empty(),
            reasoning_content: None,
            tool_calls: parse_tool_calls(message),
            usage: parse_usage(data),
        }
    }
}

/// The request of a stream: an address, a key if there is one, and a body that
/// asks for a stream.
pub fn stream_request(url: &str, key: &Option<String>, body: &Json) -> (r: ProviderRequest)
    ensures
        r@ == (RequestView {
            url: url@,
            headers: bearer(opt_string(*key)),
            body: body@,
        }),
{
    ProviderRequest { url: url.to_owned(), headers: bearer_headers(key), body: body.clone() }
}

/// The entry in the registry.
pub fn provider_spec() -> (r: ProviderSpec)
    ensures
        r@ == openai_entry(),
{
    let aliases: Vec<&'static str> = vec!["gpt-4", "gpt-4o", "gpt-4-turbo", "gpt-3.5-turbo"];
    proof {
        assert(str_views(aliases@) =~= openai_entry().aliases);
    }
    ProviderSpec {
        name: "openai",
        aliases,
        local: false,
        capabilities: ProviderCapabilities {
            native_tool_calling: true,
            vision: true,
            streaming: true,
        },
        factory: ProviderFactory::OpenAi,
    }
}

} // verus!
