//! DeepSeek by its own client; the table of compatible providers serves it
//! too.
use vstd::prelude::*;
use crate::json::{Json, JsonTree};
use crate::model::provider::{
    ChatMessage, ChatRequest, ChatResponse, ProviderCapabilities, ResponseView, ToolCall,
};
use crate::providers::http::{
    base_of, base_url, build_plain_messages, plain_messages_tree, ProviderRequest, RequestView,
};
use crate::providers::openai::{bearer, bearer_headers};
use crate::text::{cat2, cat4, opt_str, opt_string};
use crate::providers::openai_compat::str_views;
use crate::providers::registry::{FactoryView, ProviderFactory, ProviderSpec, SpecView};

verus! {

pub const DEFAULT_BASE_URL: &'static str = "https://api.deepseek.com/v1";

/// The body of a request by roles and texts alone.
pub open spec fn plain_body_tree(
    model: Seq<char>,
    temperature: JsonTree,
    messages: Seq<ChatMessage>,
    system: Option<&str>,
) -> JsonTree {
    JsonTree::Obj(
        Map::empty().insert("model"@, JsonTree::Str(model)).insert(
            "messages"@,
            JsonTree::Arr(plain_messages_tree(messages, system)),
        ).insert("temperature"@, temperature),
    )
}

/// The body of a request by roles and texts alone.
pub fn build_plain_body(req: &ChatRequest<'_>, model: &str, temperature: Json) -> (r: Json)
    ensures
        r@ == plain_body_tree(model@, temperature@, req.messages@, req.system),
{
    let messages = build_plain_messages(req);
    Json::obj().with("model", Json::text(model)).with("messages", Json::arr(messages)).with(
        "temperature",
        temperature,
    )
}

/// The text of an answer.
pub open spec fn plain_answer_of(data: JsonTree) -> ResponseView {
    ResponseView {
        content: data.field("choices"@).item(0).field("message"@).field(
            "content"@,
        ).text_or_empty(),
        reasoning_content: None,
        tool_calls: Seq::empty(),
        usage: None,
    }
}

/// The text of an answer.
pub fn parse_plain_response(data: &Json) -> (r: ChatResponse)
    ensures
        r@ == plain_answer_of(data@),
{
    let tool_calls: Vec<ToolCall> = Vec::new();
    let r = ChatResponse {
        content: data.field("choices").item(0).field("message").field("content").str_or_empty(),
        reasoning_content: None,
        tool_calls,
        usage: None,
    };
    proof {
        assert(r@.tool_calls =~= Seq::empty());
    }
    r
}

pub struct DeepSeekProvider {
    pub key: Option<String>,
    pub base_url: String,
}

impl DeepSeekProvider {
    pub fn new(key: Option<&str>, url: Option<&str>) -> (r: Self)
        ensures
            opt_string(r.key) == opt_str(key),
            r.base_url@ == base_of(opt_str(url), DEFAULT_BASE_URL@),
    {
        DeepSeekProvider {
            key: match key {
                Some(k) => Some(k.to_owned()),
                None => None,
            },
            base_url: base_url(url, DEFAULT_BASE_URL),
        }
    }

    pub fn name(&self) -> (r: &'static str)
        ensures
            r@ == "deepseek"@,
    {
        "deepseek"
    }

    pub fn capabilities(&self) -> (r: ProviderCapabilities)
        ensures
            r == (ProviderCapabilities {
                native_tool_calling: true,
                vision: false,
                streaming: true,
            }),
    {
        ProviderCapabilities { native_tool_calling: true, vision: false, streaming: true }
    }

    /// The request to send.
    pub fn build_request(&self, req: &ChatRequest<'_>, model: &str, temperature: Json) -> (r:
        ProviderRequest)
        ensures
            r@ == (RequestView {
                url: self.base_url@ + "/chat/completions"@,
                headers: bearer(opt_string(self.key)),
                body: plain_body_tree(model@, temperature@, req.messages@, req.system),
            }),
    {
        ProviderRequest {
            url: cat2(self.base_url.as_str(), "/chat/completions"),
            headers: bearer_headers(&self.key),
            body: build_plain_body(req, model, temperature),
        }
    }

    /// The failure that an answer without success stands for.
    pub fn failure(status: &str, body: &str) -> (r: String)
        ensures
            r@ == "DeepSeek API error "@ + status@ + ": "@ + body@,
    {
        cat4("DeepSeek API error ", status, ": ", body)
    }
}

/// The entry of the provider with its plain client, which the registry has no
/// need of: there the table of compatible providers has one under this name.
pub fn provider_spec() -> (r: ProviderSpec)
    ensures
        r@ == (SpecView {
            name: "deepseek"@,
            aliases: seq!["deepseek-chat"@, "deepseek-reasoner"@, "ds"@],
            local: false,
            capabilities: ProviderCapabilities {
                native_tool_calling: true,
                vision: false,
                streaming: true,
            },
            factory: FactoryView::DeepSeek,
        }),
{
    let aliases: Vec<&'static str> = vec!["deepseek-chat", "deepseek-reasoner", "ds"];
    proof {
        assert(str_views(aliases@) =~= seq!["deepseek-chat"@, "deepseek-reasoner"@, "ds"@]);
    }
    ProviderSpec {
        name: "deepseek",
        aliases,
        local: false,
        capabilities: ProviderCapabilities {
            native_tool_calling: true,
            vision: false,
            streaming: true,
        },
        factory: ProviderFactory::DeepSeek,
    }
}

} // verus!
