//! The chat interface of Ollama, which runs models on the same machine.
use vstd::prelude::*;
use crate::json::{Json, JsonTree};
use crate::model::provider::{
    ChatMessage, ChatRequest, ChatResponse, ProviderCapabilities, ResponseView, ToolCall,
};
use crate::providers::http::{
    base_of, base_url, build_plain_messages, listed_models, opt_texts, parse_models,
    plain_messages_tree, ProviderRequest, RequestView,
};
use crate::text::{cat2, cat4, opt_str};
use crate::providers::openai_compat::str_views;
use crate::providers::registry::{ollama_entry, ProviderFactory, ProviderSpec};

verus! {

pub const DEFAULT_BASE_URL: &'static str = "http://localhost:11434";

/// The body of a request.
pub open spec fn body_tree(
    model: Seq<char>,
    temperature: JsonTree,
    messages: Seq<ChatMessage>,
    system: Option<&str>,
) -> JsonTree {
    JsonTree::Obj(
        Map::empty().insert("model"@, JsonTree::Str(model)).insert(
            "messages"@,
            JsonTree::Arr(plain_messages_tree(messages, system)),
        ).insert("stream"@, JsonTree::Bool(false)).insert(
            "options"@,
            JsonTree::Obj(Map::empty().insert("temperature"@, temperature)),
        ),
    )
}

/// What an answer says.
pub open spec fn answer_of(data: JsonTree) -> ResponseView {
    ResponseView {
        content: data.field("message"@).field("content"@).text_or_empty(),
        reasoning_content: None,
        tool_calls: Seq::empty(),
        usage: None,
    }
}

/// How the attempt to reach the server ended.
#[derive(Debug)]
pub enum Reply<'a> {
    Success,
    /// An answer without success, by its status line.
    Status(&'a str),
    /// No answer.
    Unreachable(&'a str),
}

#[derive(Debug)]
pub struct OllamaProvider {
    pub base_url: String,
}

impl OllamaProvider {
    /// A key is not needed.
    pub fn new(_key: Option<&str>, url: Option<&str>) -> (r: Self)
        ensures
            r.base_url@ == base_of(opt_str(url), DEFAULT_BASE_URL@),
    {
        OllamaProvider { base_url: base_url(url, DEFAULT_BASE_URL) }
    }

    pub fn name(&self) -> (r: &'static str)
        ensures
            r@ == "ollama"@,
    {
        "ollama"
    }

    pub fn capabilities(&self) -> (r: ProviderCapabilities)
        ensures
            r == (ProviderCapabilities {
                native_tool_calling: false,
                vision: false,
                streaming: true,
            }),
    {
        ProviderCapabilities { native_tool_calling: false, vision: false, streaming: true }
    }

    /// The request to send.
    pub fn build_request(&self, req: &ChatRequest<'_>, model: &str, temperature: Json) -> (r:
        ProviderRequest)
        ensures
            r@ == (RequestView {
                url: self.base_url@ + "/api/chat"@,
                headers: Seq::empty(),
                body: body_tree(model@, temperature@, req.messages@, req.system),
            }),
    {
        let messages = build_plain_messages(req);
        let body = Json::obj().with("model", Json::text(model)).with(
            "messages",
            Json::arr(messages),
        ).with("stream", Json::Bool(false)).with(
            "options",
            Json::obj().with("temperature", temperature),
        );
        let r = ProviderRequest {
            url: cat2(self.base_url.as_str(), "/api/chat"),
            headers: Vec::new(),
            body,
        };
        proof {
            assert(r@.headers =~= Seq::empty());
        }
        r
    }

    /// Reads an answer.
    pub fn parse_response(data: &Json) -> (r: ChatResponse)
        ensures
            r@ == answer_of(data@),
    {
        let tool_calls: Vec<ToolCall> = Vec::new();
        let r = ChatResponse {
            content: data.field("message").field("content").str_or_empty(),
            reasoning_content: None,
            tool_calls,
            usage: None,
        };
        proof {
            assert(r@.tool_calls =~= Seq::empty());
        }
        r
    }

    /// The address that lists the installed models.
    pub fn tags_url(&self) -> (r: String)
        ensures
            r@ == self.base_url@ + "/api/tags"@,
    {
        cat2(self.base_url.as_str(), "/api/tags")
    }

    /// Whether the server is ready, from its reply to a request for the list
    /// of models.
    pub fn warmup(&self, reply: &Reply<'_>) -> (r: Result<(), String>)
        ensures
            match *reply {
                Reply::Success => r is Ok,
                Reply::Status(s) => r matches Err(e) && e@ == "Ollama warmup failed: HTTP "@ + s@,
                Reply::Unreachable(s) => r matches Err(e) && e@ == "Ollama not reachable at "@
                    + self.base_url@ + ": "@ + s@,
            },
    {
        match reply {
            Reply::Success => Ok(()),
            Reply::Status(s) => Err(cat2("Ollama warmup failed: HTTP ", s)),
            Reply::Unreachable(s) => Err(
                cat4("Ollama not reachable at ", self.base_url.as_str(), ": ", s),
            ),
        }
    }

    /// The installed models, if any.
    pub fn list_models(data: &Json) -> (r: Option<Vec<String>>)
        ensures
            opt_texts(r) == listed_models(data@, "models"@, "name"@),
    {
        parse_models(data, "models", "name")
    }
}

/// The entry in the registry.
pub fn provider_spec() -> (r: ProviderSpec)
    ensures
        r@ == ollama_entry(),
{
    let aliases: Vec<&'static str> = vec!["ollama", "llama3", "llama3.2", "deepseek-r1"];
    proof {
        assert(str_views(aliases@) =~= ollama_entry().aliases);
    }
    ProviderSpec {
        name: "ollama",
        aliases,
        local: true,
        capabilities: ProviderCapabilities {
            native_tool_calling: false,
            vision: false,
            streaming: true,
        },
        factory: ProviderFactory::Ollama,
    }
}

} // verus!
