//! The messages interface of Anthropic.
use vstd::prelude::*;
use crate::json::{json_parse, json_views, parse_json, Json, JsonTree};
use crate::model::provider::{
    tool_call_views, ChatMessage, ChatRequest, ChatResponse, ImageData, ProviderCapabilities,
    ResponseView, ToolCall, ToolCallView, ToolSpec, Usage,
};
use crate::providers::http::{base_of, base_url, push_header, ProviderRequest, RequestView};
use crate::providers::openai_proto::{
    lemma_line_stays, line_data, nonempty_str, parse_count, role_content, split_line, sse_data, take_sse_line,
    text_part, token_count,
};
use crate::text::{
    cat2, cat3, join, join_strings, lossy_string, lossy_text, occurs_at, opt_str, opt_string,
    same_str, texts,
};
use crate::providers::openai_compat::str_views;
use crate::providers::registry::{anthropic_entry, ProviderFactory, ProviderSpec};

verus! {

pub const DEFAULT_BASE_URL: &'static str = "https://api.anthropic.com";

pub const ANTHROPIC_VERSION: &'static str = "2023-06-01";

/// The number of tokens that an answer may have unless configured otherwise.
pub const DEFAULT_MAX_TOKENS: u32 = 8192;

// ---- requests ----

/// The result of a tool call, as a block.
pub open spec fn result_block(m: ChatMessage) -> JsonTree {
    JsonTree::Obj(
        Map::empty().insert("type"@, JsonTree::Str("tool_result"@)).insert(
            "tool_use_id"@,
            JsonTree::Str(m.tool_call_id->0@),
        ).insert("content"@, JsonTree::Str(m.content@)),
    )
}

/// A tool call, as a block.
pub open spec fn use_block(c: ToolCall) -> JsonTree {
    JsonTree::Obj(
        Map::empty().insert("type"@, JsonTree::Str("tool_use"@)).insert(
            "id"@,
            JsonTree::Str(c.id@),
        ).insert("name"@, JsonTree::Str(c.name@)).insert("input"@, c.arguments@),
    )
}

/// An image, as a block.
pub open spec fn image_block(img: ImageData) -> JsonTree {
    JsonTree::Obj(
        Map::empty().insert("type"@, JsonTree::Str("image"@)).insert(
            "source"@,
            JsonTree::Obj(
                Map::empty().insert("type"@, JsonTree::Str("base64"@)).insert(
                    "media_type"@,
                    JsonTree::Str(img.media_type@),
                ).insert("data"@, JsonTree::Str(img.data_base64@)),
            ),
        ),
    )
}

/// The block of a text, none for an empty one.
pub open spec fn text_blocks(content: Seq<char>) -> Seq<JsonTree> {
    if content.len() == 0 {
        Seq::empty()
    } else {
        seq![text_part(content)]
    }
}

/// A turn that is no tool result.
pub open spec fn turn_tree(m: ChatMessage) -> JsonTree {
    if m.tool_calls@.len() > 0 {
        role_content(
            "assistant"@,
            JsonTree::Arr(
                text_blocks(m.content@) + Seq::new(
                    m.tool_calls@.len(),
                    |i: int| use_block(m.tool_calls@[i]),
                ),
            ),
        )
    } else if m.images@.len() > 0 {
        role_content(
            m.role@,
            JsonTree::Arr(
                text_blocks(m.content@) + Seq::new(
                    m.images@.len(),
                    |i: int| image_block(m.images@[i]),
                ),
            ),
        )
    } else {
        role_content(m.role@, JsonTree::Str(m.content@))
    }
}

/// The messages with the results that wait, as one user turn, behind them.
pub open spec fn flushed(out: Seq<JsonTree>, pending: Seq<JsonTree>) -> Seq<JsonTree> {
    if pending.len() == 0 {
        out
    } else {
        out.push(role_content("user"@, JsonTree::Arr(pending)))
    }
}

/// The messages so far and the tool results that wait for the end of their
/// run.  System turns are passed over.
pub open spec fn gathered(messages: Seq<ChatMessage>) -> (Seq<JsonTree>, Seq<JsonTree>)
    decreases messages.len(),
{
    if messages.len() == 0 {
        (Seq::empty(), Seq::empty())
    } else {
        let (out, pending) = gathered(messages.drop_last());
        let m = messages.last();
        if m.role@ == "system"@ {
            (out, pending)
        } else if m.tool_call_id is Some {
            (out, pending.push(result_block(m)))
        } else {
            (flushed(out, pending).push(turn_tree(m)), Seq::empty())
        }
    }
}

/// The `messages` of a request.
pub open spec fn messages_tree(messages: Seq<ChatMessage>) -> Seq<JsonTree> {
    flushed(gathered(messages).0, gathered(messages).1)
}

pub open spec fn is_result(m: ChatMessage) -> bool {
    m.role@ != "system"@ && m.tool_call_id is Some
}

/// A run of tool results becomes one user turn.
pub proof fn law_results_are_coalesced(before: Seq<ChatMessage>, results: Seq<ChatMessage>)
    requires
        results.len() > 0,
        forall|i: int| 0 <= i < results.len() ==> is_result(#[trigger] results[i]),
        gathered(before).1.len() == 0,
    ensures
        messages_tree(before + results) == messages_tree(before).push(
            role_content(
                "user"@,
                JsonTree::Arr(Seq::new(results.len(), |i: int| result_block(results[i]))),
            ),
        ),
{
    lemma_results_wait(before, results);
    assert(gathered(before).1 + Seq::new(results.len(), |i: int| result_block(results[i]))
        =~= Seq::new(results.len(), |i: int| result_block(results[i])));
}

proof fn lemma_results_wait(before: Seq<ChatMessage>, results: Seq<ChatMessage>)
    requires
        forall|i: int| 0 <= i < results.len() ==> is_result(#[trigger] results[i]),
    ensures
        gathered(before + results) == (
            gathered(before).0,
            gathered(before).1 + Seq::new(results.len(), |i: int| result_block(results[i])),
        ),
    decreases results.len(),
{
    if results.len() == 0 {
        assert(before + results =~= before);
        assert(gathered(before).1 + Seq::new(results.len(), |i: int| result_block(results[i]))
            =~= gathered(before).1);
    } else {
        let head = results.drop_last();
        assert forall|i: int| 0 <= i < head.len() implies is_result(#[trigger] head[i]) by {
            assert(head[i] == results[i]);
        }
        lemma_results_wait(before, head);
        assert((before + results).drop_last() =~= before + head);
        assert((before + results).last() == results[results.len() - 1]);
        assert(is_result(results[results.len() - 1]));
        let blocks = Seq::new(head.len(), |i: int| result_block(head[i]));
        assert((gathered(before).1 + blocks).push(result_block(results.last()))
            =~= gathered(before).1 + Seq::new(results.len(), |i: int| result_block(results[i])));
    }
}

/// Nothing waits behind a turn that is neither a tool result nor a system
/// turn.
pub proof fn law_other_turns_end_a_run(messages: Seq<ChatMessage>)
    requires
        messages.len() > 0,
        messages.last().role@ != "system"@,
        messages.last().tool_call_id is None,
    ensures
        gathered(messages).1.len() == 0,
        messages_tree(messages) == messages_tree(messages.drop_last()).push(
            turn_tree(messages.last()),
        ),
{
}

/// System turns are no messages.
pub proof fn law_system_turns_are_no_messages(messages: Seq<ChatMessage>, m: ChatMessage)
    requires
        m.role@ == "system"@,
    ensures
        messages_tree(messages.push(m)) == messages_tree(messages),
{
    assert(messages.push(m).drop_last() =~= messages);
}

fn push_text_block(blocks: &mut Vec<Json>, content: &str)
    ensures
        json_views(final(blocks)@) == json_views(old(blocks)@) + text_blocks(content@),
{
    let ghost before = json_views(blocks@);
    if !content.is_empty() {
        let b = Json::obj().with("type", Json::text("text")).with("text", Json::text(content));
        blocks.push(b);
        proof {
            assert(json_views(blocks@) =~= before + seq![text_part(content@)]);
        }
    } else {
        proof {
            assert(before + text_blocks(content@) =~= before);
        }
    }
}

fn build_turn(m: &ChatMessage) -> (r: Json)
    ensures
        r@ == turn_tree(*m),
{
    if m.tool_calls.len() > 0 {
        let mut blocks: Vec<Json> = Vec::new();
        proof {
            assert(json_views(blocks@) + text_blocks(m.content@) =~= text_blocks(m.content@));
        }
        push_text_block(&mut blocks, m.content.as_str());
        let ghost head = json_views(blocks@);
        let mut i: usize = 0;
        proof {
            assert(head + Seq::new(0, |k: int| use_block(m.tool_calls@[k])) =~= head);
        }
        while i < m.tool_calls.len()
            invariant
                i <= m.tool_calls@.len(),
                json_views(blocks@) == head + Seq::new(
                    i as nat,
                    |k: int| use_block(m.tool_calls@[k]),
                ),
            decreases m.tool_calls.len() - i,
        {
            let ghost before = json_views(blocks@);
            let c = &m.tool_calls[i];
            let b = Json::obj().with("type", Json::text("tool_use")).with(
                "id",
                Json::text(c.id.as_str()),
            ).with("name", Json::text(c.name.as_str())).with("input", c.arguments.clone());
            blocks.push(b);
            proof {
                assert(b@ == use_block(m.tool_calls@[i as int]));
                assert(json_views(blocks@) =~= before.push(b@));
                assert(before.push(b@) =~= head + Seq::new(
                    (i + 1) as nat,
                    |k: int| use_block(m.tool_calls@[k]),
                ));
            }
            i = i + 1;
        }
        return Json::obj().with("role", Json::text("assistant")).with(
            "content",
            Json::arr(blocks),
        );
    }
    if m.images.len() > 0 {
        let mut blocks: Vec<Json> = Vec::new();
        proof {
            assert(json_views(blocks@) + text_blocks(m.content@) =~= text_blocks(m.content@));
        }
        push_text_block(&mut blocks, m.content.as_str());
        let ghost head = json_views(blocks@);
        let mut i: usize = 0;
        proof {
            assert(head + Seq::new(0, |k: int| image_block(m.images@[k])) =~= head);
        }
        while i < m.images.len()
            invariant
                i <= m.images@.len(),
                json_views(blocks@) == head + Seq::new(
                    i as nat,
                    |k: int| image_block(m.images@[k]),
                ),
            decreases m.images.len() - i,
        {
            let ghost before = json_views(blocks@);
            let img = &m.images[i];
            let source = Json::obj().with("type", Json::text("base64")).with(
                "media_type",
                Json::text(img.media_type.as_str()),
            ).with("data", Json::text(img.data_base64.as_str()));
            let b = Json::obj().with("type", Json::text("image")).with("source", source);
            blocks.push(b);
            proof {
                assert(b@ == image_block(m.images@[i as int]));
                assert(json_views(blocks@) =~= before.push(b@));
                assert(before.push(b@) =~= head + Seq::new(
                    (i + 1) as nat,
                    |k: int| image_block(m.images@[k]),
                ));
            }
            i = i + 1;
        }
        return Json::obj().with("role", Json::text(m.role.as_str())).with(
            "content",
            Json::arr(blocks),
        );
    }
    Json::obj().with("role", Json::text(m.role.as_str())).with(
        "content",
        Json::text(m.content.as_str()),
    )
}

fn flush(out: &mut Vec<Json>, pending: Vec<Json>)
    ensures
        json_views(final(out)@) == flushed(json_views(old(out)@), json_views(pending@)),
{
    let ghost before = json_views(out@);
    if pending.len() > 0 {
        let m = Json::obj().with("role", Json::text("user")).with("content", Json::arr(pending));
        out.push(m);
        proof {
            assert(json_views(out@) =~= before.push(m@));
        }
    }
}

/// The texts of the system turns.
pub open spec fn system_texts(messages: Seq<ChatMessage>) -> Seq<Seq<char>>
    decreases messages.len(),
{
    if messages.len() == 0 {
        Seq::empty()
    } else {
        let head = system_texts(messages.drop_last());
        if messages.last().role@ == "system"@ {
            head.push(messages.last().content@)
        } else {
            head
        }
    }
}

/// The system prompt: the given one, then the system turns, blank lines
/// between them.
pub open spec fn folded_system(
    system: Option<Seq<char>>,
    messages: Seq<ChatMessage>,
) -> Option<Seq<char>> {
    let notes = system_texts(messages);
    if notes.len() == 0 {
        system
    } else {
        match system {
            Some(s) => Some(s + "\n\n"@ + join(notes, "\n\n"@)),
            None => Some(join(notes, "\n\n"@)),
        }
    }
}

pub open spec fn tool_tree(t: ToolSpec) -> JsonTree {
    JsonTree::Obj(
        Map::empty().insert("name"@, JsonTree::Str(t.name@)).insert(
            "description"@,
            JsonTree::Str(t.description@),
        ).insert("input_schema"@, t.parameters@),
    )
}

pub open spec fn tools_tree(tools: Seq<ToolSpec>) -> Seq<JsonTree> {
    Seq::new(tools.len(), |i: int| tool_tree(tools[i]))
}

/// The body of a request.
pub open spec fn body_tree(
    model: Seq<char>,
    max_tokens: u32,
    temperature: JsonTree,
    stream: bool,
    messages: Seq<ChatMessage>,
    system: Option<Seq<char>>,
    tools: Seq<ToolSpec>,
) -> JsonTree {
    let b0 = Map::empty().insert("model"@, JsonTree::Str(model)).insert(
        "max_tokens"@,
        JsonTree::UInt(max_tokens as u64),
    ).insert("messages"@, JsonTree::Arr(messages_tree(messages))).insert(
        "temperature"@,
        temperature,
    );
    let b1 = if stream {
        b0.insert("stream"@, JsonTree::Bool(true))
    } else {
        b0
    };
    let b2 = match folded_system(system, messages) {
        Some(s) => b1.insert("system"@, JsonTree::Str(s)),
        None => b1,
    };
    JsonTree::Obj(
        if tools.len() > 0 {
            b2.insert("tools"@, JsonTree::Arr(tools_tree(tools)))
        } else {
            b2
        },
    )
}

pub struct AnthropicProvider {
    pub key: Option<String>,
    pub base_url: String,
    pub max_tokens: u32,
}

pub const NO_KEY: &'static str = "Anthropic API key not set";

impl AnthropicProvider {
    pub fn new(key: Option<&str>, url: Option<&str>, max_tokens: Option<u32>) -> (r: Self)
        ensures
            opt_string(r.key) == opt_str(key),
            r.base_url@ == base_of(opt_str(url), DEFAULT_BASE_URL@),
            r.max_tokens == match max_tokens {
                Some(n) => n,
                None => DEFAULT_MAX_TOKENS,
            },
    {
        AnthropicProvider {
            key: match key {
                Some(k) => Some(k.to_owned()),
                None => None,
            },
            base_url: base_url(url, DEFAULT_BASE_URL),
            max_tokens: match max_tokens {
                Some(n) => n,
                None => DEFAULT_MAX_TOKENS,
            },
        }
    }

    pub fn name(&self) -> (r: &'static str)
        ensures
            r@ == "anthropic"@,
    {
        "anthropic"
    }

    pub fn capabilities(&self) -> (r: ProviderCapabilities)
        ensures
            r == (ProviderCapabilities {
                native_tool_calling: true,
                vision: true,
                streaming: true,
            }),
    {
        ProviderCapabilities { native_tool_calling: true, vision: true, streaming: true }
    }

    /// The `messages` of a request: consecutive tool results are one turn.
    pub fn build_messages(req: &ChatRequest<'_>) -> (r: Vec<Json>)
        ensures
            json_views(r@) == messages_tree(req.messages@),
    {
        let mut out: Vec<Json> = Vec::new();
        let mut pending: Vec<Json> = Vec::new();
        let ghost all = req.messages@;
        let mut i: usize = 0;
        proof {
            assert(all.take(0) =~= Seq::<ChatMessage>::empty());
            assert(json_views(out@) =~= Seq::<JsonTree>::empty());
            assert(json_views(pending@) =~= Seq::<JsonTree>::empty());
        }
        while i < req.messages.len()
            invariant
                i <= req.messages@.len(),
                all == req.messages@,
                json_views(out@) == gathered(all.take(i as int)).0,
                json_views(pending@) == gathered(all.take(i as int)).1,
            decreases req.messages.len() - i,
        {
            let m = &req.messages[i];
            proof {
                assert(all.take(i + 1).drop_last() =~= all.take(i as int));
                assert(all.take(i + 1).last() == *m);
            }
            i = i + 1;
            if same_str(m.role.as_str(), "system") {
                continue;
            }
            if let Some(id) = &m.tool_call_id {
                let ghost before = json_views(pending@);
                let b = Json::obj().with("type", Json::text("tool_result")).with(
                    "tool_use_id",
                    Json::text(id.as_str()),
                ).with("content", Json::text(m.content.as_str()));
                pending.push(b);
                proof {
                    assert(b@ == result_block(*m));
                    assert(json_views(pending@) =~= before.push(b@));
                }
                continue;
            }
            flush(&mut out, pending);
            pending = Vec::new();
            let ghost before = json_views(out@);
            let t = build_turn(m);
            out.push(t);
            proof {
                assert(json_views(out@) =~= before.push(t@));
                assert(json_views(pending@) =~= Seq::<JsonTree>::empty());
            }
        }
        proof {
            assert(all.take(all.len() as int) =~= all);
        }
        flush(&mut out, pending);
        out
    }

    /// The system prompt: the given one and the system turns.
    pub fn fold_system(req_system: Option<&str>, messages: &[ChatMessage]) -> (r: Option<String>)
        ensures
            opt_string(r) == folded_system(opt_str(req_system), messages@),
    {
        let ghost all = messages@;
        let mut notes: Vec<String> = Vec::new();
        let mut i: usize = 0;
        proof {
            assert(all.take(0) =~= Seq::<ChatMessage>::empty());
            assert(texts(notes@) =~= Seq::<Seq<char>>::empty());
        }
        while i < messages.len()
            invariant
                i <= messages@.len(),
                all == messages@,
                texts(notes@) == system_texts(all.take(i as int)),
            decreases messages.len() - i,
        {
            let m = &messages[i];
            let ghost before = texts(notes@);
            proof {
                assert(all.take(i + 1).drop_last() =~= all.take(i as int));
                assert(all.take(i + 1).last() == *m);
            }
            if same_str(m.role.as_str(), "system") {
                notes.push(m.content.clone());
                proof {
                    assert(texts(notes@) =~= before.push(m.content@));
                }
            }
            i = i + 1;
        }
        proof {
            assert(all.take(all.len() as int) =~= all);
        }
        if notes.len() == 0 {
            return match req_system {
                Some(s) => Some(s.to_owned()),
                None => None,
            };
        }
        let joined = join_strings(&notes, "\n\n");
        match req_system {
            Some(s) => Some(cat3(s, "\n\n", joined.as_str())),
            None => Some(joined),
        }
    }

    /// The `tools` of a request.
    pub fn build_tools(tools: &[ToolSpec]) -> (r: Vec<Json>)
        ensures
            json_views(r@) == tools_tree(tools@),
    {
        let mut v: Vec<Json> = Vec::new();
        let mut i: usize = 0;
        while i < tools.len()
            invariant
                i <= tools@.len(),
                v@.len() == i,
                forall|k: int| 0 <= k < i ==> (#[trigger] v@[k])@ == tool_tree(tools@[k]),
            decreases tools.len() - i,
        {
            let t = &tools[i];
            v.push(
                Json::obj().with("name", Json::text(t.name.as_str())).with(
                    "description",
                    Json::text(t.description.as_str()),
                ).with("input_schema", t.parameters.clone()),
            );
            i = i + 1;
        }
        proof {
            assert(json_views(v@) =~= tools_tree(tools@));
        }
        v
    }

    fn build_body(
        &self,
        req: &ChatRequest<'_>,
        tools: &[ToolSpec],
        model: &str,
        temperature: Json,
        stream: bool,
    ) -> (r: Json)
        ensures
            r@ == body_tree(
                model@,
                self.max_tokens,
                temperature@,
                stream,
                req.messages@,
                opt_str(req.system),
                tools@,
            ),
    {
        let mut body = Json::obj().with("model", Json::text(model)).with(
            "max_tokens",
            Json::UInt(self.max_tokens as u64),
        ).with("messages", Json::arr(Self::build_messages(req))).with("temperature", temperature);
        if stream {
            body = body.with("stream", Json::Bool(true));
        }
        if let Some(s) = Self::fold_system(req.system, req.messages) {
            body = body.with("system", Json::Str(s));
        }
        if tools.len() > 0 {
            body = body.with("tools", Json::arr(Self::build_tools(tools)));
        }
        body
    }

    /// The request to send; without a key there is none.
    pub fn build_request(
        &self,
        req: &ChatRequest<'_>,
        tools: &[ToolSpec],
        model: &str,
        temperature: Json,
        stream: bool,
    ) -> (r: Result<ProviderRequest, String>)
        ensures
            match r {
                Ok(q) => self.key is Some && q@ == (RequestView {
                    url: self.base_url@ + "/v1/messages"@,
                    headers: seq![
                        ("x-api-key"@, self.key->0@),
                        ("anthropic-version"@, ANTHROPIC_VERSION@),
                    ],
                    body: body_tree(
                        model@,
                        self.max_tokens,
                        temperature@,
                        stream,
                        req.messages@,
                        opt_str(req.system),
                        tools@,
                    ),
                }),
                Err(e) => self.key is None && e@ == NO_KEY@,
            },
    {
        let body = self.build_body(req, tools, model, temperature, stream);
        match &self.key {
            Some(key) => {
                let mut headers: Vec<(String, String)> = Vec::new();
                push_header(&mut headers, "x-api-key", key.as_str());
                push_header(&mut headers, "anthropic-version", ANTHROPIC_VERSION);
                let q = ProviderRequest {
                    url: cat2(self.base_url.as_str(), "/v1/messages"),
                    headers,
                    body,
                };
                proof {
                    assert(q@.headers =~= seq![
                        ("x-api-key"@, key@),
                        ("anthropic-version"@, ANTHROPIC_VERSION@),
                    ]);
                }
                Ok(q)
            },
            None => Err(NO_KEY.to_owned()),
        }
    }
}

// ---- answers ----

/// The texts of the text blocks, one after the other.
pub open spec fn blocks_text(blocks: Seq<JsonTree>) -> Seq<char>
    decreases blocks.len(),
{
    if blocks.len() == 0 {
        Seq::empty()
    } else {
        let head = blocks_text(blocks.drop_last());
        let b = blocks.last();
        if b.field("type"@).as_str() == Some("text"@) {
            head + b.field("text"@).text_or_empty()
        } else {
            head
        }
    }
}

/// The calls of the tool blocks.
pub open spec fn blocks_calls(blocks: Seq<JsonTree>) -> Seq<ToolCallView>
    decreases blocks.len(),
{
    if blocks.len() == 0 {
        Seq::empty()
    } else {
        let head = blocks_calls(blocks.drop_last());
        let b = blocks.last();
        if b.field("type"@).as_str() == Some("tool_use"@) {
            head.push(
                ToolCallView {
                    id: b.field("id"@).text_or_empty(),
                    name: b.field("name"@).text_or_empty(),
                    arguments: b.field("input"@),
                },
            )
        } else {
            head
        }
    }
}

pub open spec fn usage_of(data: JsonTree) -> Option<Usage> {
    let u = data.field("usage"@);
    if u is Obj {
        let prompt = token_count(u.field("input_tokens"@));
        let completion = token_count(u.field("output_tokens"@));
        Some(
            Usage {
                prompt_tokens: prompt,
                completion_tokens: completion,
                total_tokens: (prompt + completion) as u32,
            },
        )
    } else {
        None
    }
}

/// The sum of the token counts can be represented.
pub open spec fn counts_fit(data: JsonTree) -> bool {
    let u = data.field("usage"@);
    u is Obj ==> token_count(u.field("input_tokens"@)) + token_count(u.field("output_tokens"@))
        <= u32::MAX
}

/// What an answer says.
pub open spec fn answer_of(data: JsonTree) -> ResponseView {
    let blocks = match data.field("content"@).as_arr() {
        Some(items) => items,
        None => Seq::empty(),
    };
    ResponseView {
        content: blocks_text(blocks),
        reasoning_content: None,
        tool_calls: blocks_calls(blocks),
        usage: usage_of(data),
    }
}

/// A turn that calls tools is read back as its text and its calls.
pub proof fn law_tool_calls_round_trip(m: ChatMessage, data: JsonTree)
    requires
        m.tool_calls@.len() > 0,
        data.field("content"@) == turn_tree(m).field("content"@),
    ensures
        answer_of(data).content == m.content@,
        answer_of(data).tool_calls == tool_call_views(m.tool_calls@),
{
    reveal_strlit("role");
    reveal_strlit("content");
    let head = text_blocks(m.content@);
    let uses = Seq::new(m.tool_calls@.len(), |i: int| use_block(m.tool_calls@[i]));
    assert(turn_tree(m).field("content"@) == JsonTree::Arr(head + uses));
    lemma_uses_read_back(head, m.tool_calls@, m.tool_calls@.len() as int);
    assert(uses.take(m.tool_calls@.len() as int) =~= uses);
    assert(tool_call_views(m.tool_calls@).take(m.tool_calls@.len() as int) =~= tool_call_views(
        m.tool_calls@,
    ));
    lemma_text_block_read_back(m.content@);
    assert(Seq::<ToolCallView>::empty() + tool_call_views(m.tool_calls@) =~= tool_call_views(
        m.tool_calls@,
    ));
}

proof fn lemma_text_block_read_back(content: Seq<char>)
    ensures
        blocks_text(text_blocks(content)) == content,
        blocks_calls(text_blocks(content)) == Seq::<ToolCallView>::empty(),
{
    reveal_strlit("type");
    reveal_strlit("text");
    reveal_strlit("tool_use");
    reveal_with_fuel(blocks_text, 2);
    reveal_with_fuel(blocks_calls, 2);
    if content.len() == 0 {
        assert(content =~= Seq::<char>::empty());
    } else {
        let b = text_part(content);
        assert("type"@[1] != "text"@[1]);
        assert(b.field("type"@) == JsonTree::Str("text"@));
        assert(b.field("text"@) == JsonTree::Str(content));
        assert("text"@.len() != "tool_use"@.len());
        assert(text_blocks(content).drop_last() =~= Seq::<JsonTree>::empty());
        assert(Seq::<char>::empty() + content =~= content);
    }
}

proof fn lemma_uses_read_back(head: Seq<JsonTree>, calls: Seq<ToolCall>, n: int)
    requires
        0 <= n <= calls.len(),
    ensures
        blocks_text(head + Seq::new(calls.len(), |i: int| use_block(calls[i])).take(n))
            == blocks_text(head),
        blocks_calls(head + Seq::new(calls.len(), |i: int| use_block(calls[i])).take(n))
            == blocks_calls(head) + tool_call_views(calls).take(n),
    decreases n,
{
    let uses = Seq::new(calls.len(), |i: int| use_block(calls[i]));
    if n == 0 {
        assert(head + uses.take(0) =~= head);
        assert(blocks_calls(head) + tool_call_views(calls).take(0) =~= blocks_calls(head));
    } else {
        lemma_uses_read_back(head, calls, n - 1);
        let all = head + uses.take(n);
        let c = calls[n - 1];
        assert(all.drop_last() =~= head + uses.take(n - 1));
        assert(all.last() == use_block(c));
        reveal_strlit("type");
        reveal_strlit("text");
        reveal_strlit("tool_use");
        reveal_strlit("id");
        reveal_strlit("name");
        reveal_strlit("input");
        assert("text"@.len() != "tool_use"@.len());
        assert("type"@[0] != "name"@[0]);
        assert("id"@.len() != "input"@.len());
        assert("id"@.len() != "name"@.len());
        assert("id"@.len() != "type"@.len());
        assert("input"@.len() != "name"@.len());
        let b = use_block(c);
        assert(b.field("type"@) == JsonTree::Str("tool_use"@));
        assert(b.field("id"@) == JsonTree::Str(c.id@));
        assert(b.field("name"@) == JsonTree::Str(c.name@));
        assert(b.field("input"@) == c.arguments@);
        assert((blocks_calls(head) + tool_call_views(calls).take(n - 1)).push(c@)
            =~= blocks_calls(head) + tool_call_views(calls).take(n));
    }
}

/// Whether the sum of the token counts of an answer can be represented.
pub fn usage_fits(data: &Json) -> (r: bool)
    ensures
        r == counts_fit(data@),
{
    let u = data.field("usage");
    if !u.is_object() {
        return true;
    }
    let prompt: u32 = parse_count(u.field("input_tokens"));
    let completion: u32 = parse_count(u.field("output_tokens"));
    completion <= u32::MAX - prompt
}

/// Reads an answer.
pub fn parse_response(data: &Json) -> (r: ChatResponse)
    requires
        counts_fit(data@),
    ensures
        r@ == answer_of(data@),
{
    let mut content = String::new();
    let mut calls: Vec<ToolCall> = Vec::new();
    proof {
        assert(content@ =~= Seq::<char>::empty());
        assert(tool_call_views(calls@) =~= Seq::<ToolCallView>::empty());
    }
    if let Some(blocks) = data.field("content").as_arr() {
        let ghost all = json_views(blocks@);
        let mut i: usize = 0;
        proof {
            assert(all.take(0) =~= Seq::<JsonTree>::empty());
        }
        while i < blocks.len()
            invariant
                i <= blocks@.len(),
                all == json_views(blocks@),
                content@ == blocks_text(all.take(i as int)),
                tool_call_views(calls@) == blocks_calls(all.take(i as int)),
            decreases blocks.len() - i,
        {
            let b = &blocks[i];
            let ghost before = tool_call_views(calls@);
            proof {
                assert(all.take(i + 1).drop_last() =~= all.take(i as int));
                assert(all.take(i + 1).last() == b@);
                reveal_strlit("text");
                reveal_strlit("tool_use");
                assert("text"@.len() != "tool_use"@.len());
            }
            if b.field("type").is_str("text") {
                let t = b.field("text").str_or_empty();
                content.append(t.as_str());
            } else if b.field("type").is_str("tool_use") {
                let c = ToolCall {
                    id: b.field("id").str_or_empty(),
                    name: b.field("name").str_or_empty(),
                    arguments: b.field("input").clone(),
                };
                calls.push(c);
                proof {
                    assert(tool_call_views(calls@) =~= before.push(c@));
                }
            }
            i = i + 1;
        }
        proof {
            assert(all.take(all.len() as int) =~= all);
        }
    }
    let u = data.field("usage");
    let usage: Option<Usage> = if u.is_object() {
        let prompt: u32 = parse_count(u.field("input_tokens"));
        let completion: u32 = parse_count(u.field("output_tokens"));
        Some(
            Usage {
                prompt_tokens: prompt,
                completion_tokens: completion,
                total_tokens: prompt + completion,
            },
        )
    } else {
        None
    };
    ChatResponse { content, reasoning_content: None, tool_calls: calls, usage }
}

/// Every system turn is found in the system prompt.
pub proof fn law_system_turns_are_kept(
    system: Option<Seq<char>>,
    messages: Seq<ChatMessage>,
    i: int,
)
    requires
        0 <= i < messages.len(),
        messages[i].role@ == "system"@,
    ensures
        folded_system(system, messages) is Some,
        exists|p: int|
            #[trigger] occurs_at(folded_system(system, messages)->0, messages[i].content@, p),
{
    let k = lemma_system_text_index(messages, i);
    let notes = system_texts(messages);
    let j = join(notes, "\n\n"@);
    let q = lemma_join_holds(notes, "\n\n"@, k);
    let t = messages[i].content@;
    let all = folded_system(system, messages)->0;
    let p = all.len() - j.len() + q;
    assert(all.subrange(p, p + t.len()) =~= j.subrange(q, q + t.len()));
    assert(occurs_at(all, t, p));
}

proof fn lemma_system_text_index(messages: Seq<ChatMessage>, i: int) -> (k: int)
    requires
        0 <= i < messages.len(),
        messages[i].role@ == "system"@,
    ensures
        0 <= k < system_texts(messages).len(),
        system_texts(messages)[k] == messages[i].content@,
    decreases messages.len(),
{
    if i == messages.len() - 1 {
        system_texts(messages).len() - 1
    } else {
        assert(messages.drop_last()[i] == messages[i]);
        lemma_system_text_index(messages.drop_last(), i)
    }
}

proof fn lemma_join_holds(parts: Seq<Seq<char>>, sep: Seq<char>, i: int) -> (p: int)
    requires
        0 <= i < parts.len(),
    ensures
        occurs_at(join(parts, sep), parts[i], p),
    decreases parts.len(),
{
    let j = join(parts, sep);
    if parts.len() == 1 {
        assert(j.subrange(0, j.len() as int) =~= j);
        0
    } else if i == parts.len() - 1 {
        let p = j.len() - parts[i].len();
        assert(j.subrange(p, j.len() as int) =~= parts[i]);
        p
    } else {
        let head = join(parts.drop_last(), sep);
        assert(parts.drop_last()[i] == parts[i]);
        let p = lemma_join_holds(parts.drop_last(), sep, i);
        assert(j.subrange(p, p + parts[i].len()) =~= head.subrange(p, p + parts[i].len()));
        p
    }
}

// ---- streaming ----

/// A block of the answer that is arriving.
#[derive(Debug)]
pub struct AnthBlock {
    pub is_tool: bool,
    pub id: String,
    pub name: String,
    pub json: String,
}

pub struct BlockView {
    pub is_tool: bool,
    pub id: Seq<char>,
    pub name: Seq<char>,
    pub json: Seq<char>,
}

impl View for AnthBlock {
    type V = BlockView;

    open spec fn view(&self) -> BlockView {
        BlockView { is_tool: self.is_tool, id: self.id@, name: self.name@, json: self.json@ }
    }
}

pub open spec fn block_views(s: Seq<AnthBlock>) -> Seq<BlockView> {
    Seq::new(s.len(), |i: int| s[i]@)
}

/// Assembles an answer from the events of a stream.
#[derive(Debug)]
pub struct AnthropicStreamAssembler {
    content: String,
    blocks: Vec<AnthBlock>,
    input_tokens: u32,
    output_tokens: u32,
}

pub struct AssemblyView {
    pub content: Seq<char>,
    pub blocks: Seq<BlockView>,
    pub input_tokens: u32,
    pub output_tokens: u32,
}

impl View for AnthropicStreamAssembler {
    type V = AssemblyView;

    closed spec fn view(&self) -> AssemblyView {
        AssemblyView {
            content: self.content@,
            blocks: block_views(self.blocks@),
            input_tokens: self.input_tokens,
            output_tokens: self.output_tokens,
        }
    }
}

pub open spec fn no_block() -> BlockView {
    BlockView { is_tool: false, id: Seq::empty(), name: Seq::empty(), json: Seq::empty() }
}

pub open spec fn no_assembly() -> AssemblyView {
    AssemblyView { content: Seq::empty(), blocks: Seq::empty(), input_tokens: 0, output_tokens: 0 }
}

/// The blocks with empty ones behind them, up to `n`.
pub open spec fn grown(blocks: Seq<BlockView>, n: int) -> Seq<BlockView> {
    if blocks.len() >= n {
        blocks
    } else {
        blocks + Seq::new((n - blocks.len()) as nat, |i: int| no_block())
    }
}

pub open spec fn is_event(evt: JsonTree, kind: Seq<char>) -> bool {
    evt.field("type"@).as_str() == Some(kind)
}

pub open spec fn event_index(evt: JsonTree) -> int {
    match evt.field("index"@).as_u64() {
        Some(n) => n as int,
        None => 0,
    }
}

/// The index of a block that begins is that of a vector's element.
pub open spec fn index_fits(evt: JsonTree) -> bool {
    is_event(evt, "content_block_start"@) ==> event_index(evt) < usize::MAX
}

/// The blocks after one has begun: a tool block replaces what was there.
pub open spec fn block_begun(blocks: Seq<BlockView>, evt: JsonTree) -> Seq<BlockView> {
    let i = event_index(evt);
    let g = grown(blocks, i + 1);
    let cb = evt.field("content_block"@);
    if is_event(cb, "tool_use"@) {
        g.update(
            i,
            BlockView {
                is_tool: true,
                id: cb.field("id"@).text_or_empty(),
                name: cb.field("name"@).text_or_empty(),
                json: Seq::empty(),
            },
        )
    } else {
        g
    }
}

/// The blocks after a piece of the arguments of one has arrived.
pub open spec fn block_extended(blocks: Seq<BlockView>, evt: JsonTree) -> Seq<BlockView> {
    let i = event_index(evt);
    match evt.field("delta"@).field("partial_json"@).as_str() {
        Some(piece) => if i < blocks.len() {
            blocks.update(i, BlockView { json: blocks[i].json + piece, ..blocks[i] })
        } else {
            blocks
        },
        None => blocks,
    }
}

/// The text that an event adds.
pub open spec fn event_text(evt: JsonTree) -> Option<Seq<char>> {
    let d = evt.field("delta"@);
    if is_event(evt, "content_block_delta"@) && is_event(d, "text_delta"@) {
        nonempty_str(d.field("text"@))
    } else {
        None
    }
}

/// The assembly after one more event.
pub open spec fn with_event(a: AssemblyView, evt: JsonTree) -> AssemblyView {
    if is_event(evt, "message_start"@) {
        AssemblyView {
            input_tokens: token_count(
                evt.field("message"@).field("usage"@).field("input_tokens"@),
            ),
            ..a
        }
    } else if is_event(evt, "content_block_start"@) {
        AssemblyView { blocks: block_begun(a.blocks, evt), ..a }
    } else if is_event(evt, "content_block_delta"@) {
        let d = evt.field("delta"@);
        if is_event(d, "text_delta"@) {
            AssemblyView {
                content: match nonempty_str(d.field("text"@)) {
                    Some(t) => a.content + t,
                    None => a.content,
                },
                ..a
            }
        } else if is_event(d, "input_json_delta"@) {
            AssemblyView { blocks: block_extended(a.blocks, evt), ..a }
        } else {
            a
        }
    } else if is_event(evt, "message_delta"@) && evt.field("usage"@).field(
        "output_tokens"@,
    ).as_u64() is Some {
        AssemblyView {
            output_tokens: token_count(evt.field("usage"@).field("output_tokens"@)),
            ..a
        }
    } else {
        a
    }
}

pub open spec fn finished_calls(blocks: Seq<BlockView>) -> Seq<ToolCallView>
    decreases blocks.len(),
{
    if blocks.len() == 0 {
        Seq::empty()
    } else {
        let head = finished_calls(blocks.drop_last());
        let b = blocks.last();
        if b.is_tool && b.name.len() > 0 {
            head.push(
                ToolCallView {
                    id: b.id,
                    name: b.name,
                    arguments: match json_parse(b.json) {
                        Some(t) => t,
                        None => JsonTree::Null,
                    },
                },
            )
        } else {
            head
        }
    }
}

/// The answer that an assembly gives: tool blocks with a name are calls, and
/// token counts are there if any is not zero.
pub open spec fn finished(a: AssemblyView) -> ResponseView {
    ResponseView {
        content: a.content,
        reasoning_content: None,
        tool_calls: finished_calls(a.blocks),
        usage: if a.input_tokens > 0 || a.output_tokens > 0 {
            Some(
                Usage {
                    prompt_tokens: a.input_tokens,
                    completion_tokens: a.output_tokens,
                    total_tokens: (a.input_tokens + a.output_tokens) as u32,
                },
            )
        } else {
            None
        },
    }
}

impl Default for AnthropicStreamAssembler {
    fn default() -> (r: AnthropicStreamAssembler)
        ensures
            r@ == no_assembly(),
    {
        let r = AnthropicStreamAssembler {
            content: String::new(),
            blocks: Vec::new(),
            input_tokens: 0,
            output_tokens: 0,
        };
        proof {
            assert(block_views(r.blocks@) =~= Seq::<BlockView>::empty());
        }
        r
    }
}

impl AnthropicStreamAssembler {
    fn begin_block(&mut self, evt: &Json)
        requires
            event_index(evt@) < usize::MAX,
        ensures
            final(self)@ == (AssemblyView {
                blocks: block_begun(old(self)@.blocks, evt@),
                ..old(self)@
            }),
    {
        let idx: usize = match evt.field("index").as_u64() {
            Some(n) => n as usize,
            None => 0,
        };
        let ghost start = block_views(self.blocks@);
        proof {
            assert(start + Seq::new(0, |i: int| no_block()) =~= start);
        }
        while self.blocks.len() <= idx
            invariant
                idx < usize::MAX,
                self.content == old(self).content,
                self.input_tokens == old(self).input_tokens,
                self.output_tokens == old(self).output_tokens,
                start == block_views(old(self).blocks@),
                start.len() <= self.blocks@.len(),
                start.len() > idx ==> self.blocks@.len() == start.len(),
                start.len() <= idx ==> self.blocks@.len() <= idx + 1,
                block_views(self.blocks@) == start + Seq::new(
                    (self.blocks@.len() - start.len()) as nat,
                    |i: int| no_block(),
                ),
            decreases idx + 1 - self.blocks@.len(),
        {
            let ghost before = self.blocks@;
            let b = AnthBlock {
                is_tool: false,
                id: String::new(),
                name: String::new(),
                json: String::new(),
            };
            proof {
                assert(b@ == no_block());
            }
            self.blocks.push(b);
            proof {
                assert(block_views(self.blocks@) =~= block_views(before).push(no_block()));
                assert(block_views(self.blocks@) =~= start + Seq::new(
                    (self.blocks@.len() - start.len()) as nat,
                    |i: int| no_block(),
                ));
            }
        }
        let ghost g = block_views(self.blocks@);
        proof {
            assert(g =~= grown(start, idx + 1));
        }
        let cb = evt.field("content_block");
        if cb.field("type").is_str("tool_use") {
            let b = AnthBlock {
                is_tool: true,
                id: cb.field("id").str_or_empty(),
                name: cb.field("name").str_or_empty(),
                json: String::new(),
            };
            self.blocks.set(idx, b);
            proof {
                assert(b@.json =~= Seq::<char>::empty());
                assert(block_views(self.blocks@) =~= g.update(idx as int, b@));
            }
        }
    }

    fn extend_block(&mut self, evt: &Json)
        ensures
            final(self)@ == (AssemblyView {
                blocks: block_extended(old(self)@.blocks, evt@),
                ..old(self)@
            }),
    {
        let idx: u64 = match evt.field("index").as_u64() {
            Some(n) => n,
            None => 0,
        };
        if let Some(piece) = evt.field("delta").field("partial_json").as_str() {
            if idx < self.blocks.len() as u64 {
                let ghost before = block_views(self.blocks@);
                let i: usize = idx as usize;
                let mut json = self.blocks[i].json.clone();
                json.append(piece);
                let b = AnthBlock {
                    is_tool: self.blocks[i].is_tool,
                    id: self.blocks[i].id.clone(),
                    name: self.blocks[i].name.clone(),
                    json,
                };
                self.blocks.set(i, b);
                proof {
                    assert(b@ == (BlockView { json: before[i as int].json + piece@, ..before[i as int] }));
                    assert(block_views(self.blocks@) =~= before.update(i as int, b@));
                }
            }
        }
    }

    /// Takes in one event and returns the text it adds, if any.
    pub fn push(&mut self, evt: &Json) -> (r: Option<String>)
        requires
            index_fits(evt@),
        ensures
            final(self)@ == with_event(old(self)@, evt@),
            opt_string(r) == event_text(evt@),
    {
        let kind = evt.field("type");
        proof {
            reveal_strlit("message_start");
            reveal_strlit("content_block_start");
            reveal_strlit("content_block_delta");
            reveal_strlit("message_delta");
            reveal_strlit("text_delta");
            reveal_strlit("input_json_delta");
            assert("content_block_start"@[14] != "content_block_delta"@[14]);
            assert("message_start"@.len() != "content_block_delta"@.len());
            assert("message_delta"@.len() != "content_block_delta"@.len());
        }
        if kind.is_str("message_start") {
            self.input_tokens = parse_count(
                evt.field("message").field("usage").field("input_tokens"),
            );
            return None;
        }
        if kind.is_str("content_block_start") {
            self.begin_block(evt);
            return None;
        }
        if kind.is_str("content_block_delta") {
            let d = evt.field("delta");
            if d.field("type").is_str("text_delta") {
                return match d.field("text").as_str() {
                    Some(t) => if t.is_empty() {
                        None
                    } else {
                        self.content.append(t);
                        Some(t.to_owned())
                    },
                    None => None,
                };
            }
            if d.field("type").is_str("input_json_delta") {
                self.extend_block(evt);
            }
            return None;
        }
        if kind.is_str("message_delta") {
            let o = evt.field("usage").field("output_tokens");
            if o.as_u64().is_some() {
                self.output_tokens = parse_count(o);
            }
        }
        None
    }

    /// Whether the sum of the token counts can be represented.
    pub fn usage_fits(&self) -> (r: bool)
        ensures
            r == (self@.input_tokens + self@.output_tokens <= u32::MAX),
    {
        self.output_tokens <= u32::MAX - self.input_tokens
    }

    /// The answer, once the stream has ended.
    pub fn finish(self) -> (r: ChatResponse)
        requires
            self@.input_tokens + self@.output_tokens <= u32::MAX,
        ensures
            r@ == finished(self@),
    {
        let ghost all = block_views(self.blocks@);
        let mut calls: Vec<ToolCall> = Vec::new();
        let mut i: usize = 0;
        proof {
            assert(all.take(0) =~= Seq::<BlockView>::empty());
            assert(tool_call_views(calls@) =~= Seq::<ToolCallView>::empty());
        }
        while i < self.blocks.len()
            invariant
                i <= self.blocks@.len(),
                all == block_views(self.blocks@),
                tool_call_views(calls@) == finished_calls(all.take(i as int)),
            decreases self.blocks.len() - i,
        {
            let b = &self.blocks[i];
            let ghost before = tool_call_views(calls@);
            proof {
                assert(all.take(i + 1).drop_last() =~= all.take(i as int));
                assert(all.take(i + 1).last() == b@);
            }
            if b.is_tool && !b.name.as_str().is_empty() {
                let arguments = match parse_json(b.json.as_str()) {
                    Some(j) => j,
                    None => Json::Null,
                };
                let c = ToolCall { id: b.id.clone(), name: b.name.clone(), arguments };
                calls.push(c);
                proof {
                    assert(tool_call_views(calls@) =~= before.push(c@));
                }
            }
            i = i + 1;
        }
        proof {
            assert(all.take(all.len() as int) =~= all);
        }
        let usage: Option<Usage> = if self.input_tokens > 0 || self.output_tokens > 0 {
            Some(
                Usage {
                    prompt_tokens: self.input_tokens,
                    completion_tokens: self.output_tokens,
                    total_tokens: self.input_tokens + self.output_tokens,
                },
            )
        } else {
            None
        };
        ChatResponse { content: self.content, reasoning_content: None, tool_calls: calls, usage }
    }
}

/// The assembly after a whole stream of events.
pub open spec fn assembled(events: Seq<JsonTree>) -> AssemblyView
    decreases events.len(),
{
    if events.len() == 0 {
        no_assembly()
    } else {
        with_event(assembled(events.drop_last()), events.last())
    }
}

/// The texts that a stream of events adds, one after the other.
pub open spec fn event_texts(events: Seq<JsonTree>) -> Seq<char>
    decreases events.len(),
{
    if events.len() == 0 {
        Seq::empty()
    } else {
        match event_text(events.last()) {
            Some(t) => event_texts(events.drop_last()) + t,
            None => event_texts(events.drop_last()),
        }
    }
}

/// The content of the answer is what the events added on the way.
pub proof fn law_answer_is_the_sum_of_its_deltas(events: Seq<JsonTree>)
    ensures
        finished(assembled(events)).content == event_texts(events),
    decreases events.len(),
{
    if events.len() > 0 {
        law_answer_is_the_sum_of_its_deltas(events.drop_last());
        reveal_strlit("message_start");
        reveal_strlit("content_block_start");
        reveal_strlit("content_block_delta");
        assert("content_block_start"@[14] != "content_block_delta"@[14]);
        assert("message_start"@.len() != "content_block_delta"@.len());
    }
}

/// What reading a buffer comes to: whether every index fitted is told last.
pub struct StreamRun {
    pub assembly: AssemblyView,
    pub rest: Seq<char>,
    pub deltas: Seq<Seq<char>>,
    pub fits: bool,
}

/// Reads the complete lines of a buffer: each data line is an event; other
/// lines, and data that is no JSON, are passed over.
pub open spec fn read_lines(a: AssemblyView, buf: Seq<char>) -> StreamRun
    decreases buf.len(),
{
    match split_line(buf) {
        None => StreamRun { assembly: a, rest: buf, deltas: Seq::empty(), fits: true },
        Some((line, rest)) => match sse_data(line) {
            None => read_lines(a, rest),
            Some(data) => match json_parse(data) {
                None => read_lines(a, rest),
                Some(evt) => if !index_fits(evt) {
                    StreamRun { assembly: a, rest, deltas: Seq::empty(), fits: false }
                } else {
                    let r = read_lines(with_event(a, evt), rest);
                    match event_text(evt) {
                        Some(t) => StreamRun { deltas: seq![t] + r.deltas, ..r },
                        None => r,
                    }
                },
            },
        },
    }
}

/// It does not matter how a stream is cut into pieces: to read a piece and
/// then another is to read both at once.
pub proof fn law_pieces_read_like_the_whole(a: AssemblyView, buf: Seq<char>, more: Seq<char>)
    ensures
        ({
            let first = read_lines(a, buf);
            let whole = read_lines(a, buf + more);
            if first.fits {
                let second = read_lines(first.assembly, first.rest + more);
                &&& whole.assembly == second.assembly
                &&& whole.rest == second.rest
                &&& whole.fits == second.fits
                &&& whole.deltas == first.deltas + second.deltas
            } else {
                &&& whole.assembly == first.assembly
                &&& whole.rest == first.rest + more
                &&& whole.fits == first.fits
                &&& whole.deltas == first.deltas
            }
        }),
    decreases buf.len(),
{
    lemma_line_stays(buf, more);
    match split_line(buf) {
        None => {
            assert(Seq::<Seq<char>>::empty() + read_lines(a, buf + more).deltas =~= read_lines(
                a,
                buf + more,
            ).deltas);
        },
        Some((line, rest)) => {
            match sse_data(line) {
                None => law_pieces_read_like_the_whole(a, rest, more),
                Some(data) => {
                    match json_parse(data) {
                        None => law_pieces_read_like_the_whole(a, rest, more),
                        Some(evt) => {
                            if index_fits(evt) {
                                let b = with_event(a, evt);
                                law_pieces_read_like_the_whole(b, rest, more);
                                let first = read_lines(b, rest);
                                if first.fits && event_text(evt) is Some {
                                    let t = event_text(evt)->0;
                                    let second = read_lines(first.assembly, first.rest + more);
                                    assert(seq![t] + (first.deltas + second.deltas) =~= (seq![t]
                                        + first.deltas) + second.deltas);
                                }
                            }
                        },
                    }
                },
            }
        },
    }
}

fn check_index(evt: &Json) -> (r: bool)
    ensures
        r == index_fits(evt@),
{
    if !evt.field("type").is_str("content_block_start") {
        return true;
    }
    match evt.field("index").as_u64() {
        Some(n) => n < usize::MAX as u64,
        None => true,
    }
}

/// Reads a streamed answer as its bytes arrive.
#[derive(Debug)]
pub struct AnthropicStreamReader {
    pub buf: String,
    pub assembler: AnthropicStreamAssembler,
}

impl AnthropicStreamReader {
    pub fn new() -> (r: AnthropicStreamReader)
        ensures
            r.buf@ == Seq::<char>::empty(),
            r.assembler@ == no_assembly(),
    {
        AnthropicStreamReader {
            buf: String::new(),
            assembler: AnthropicStreamAssembler::default(),
        }
    }

    /// Takes in some text of the stream and returns the texts that it adds to
    /// the answer and whether every block had an index of a vector.
    pub fn feed_text(&mut self, text: &str) -> (r: (Vec<String>, bool))
        ensures
            ({
                let run = read_lines(old(self).assembler@, old(self).buf@ + text@);
                &&& texts(r.0@) == run.deltas
                &&& r.1 == run.fits
                &&& final(self).assembler@ == run.assembly
                &&& final(self).buf@ == run.rest
            }),
    {
        self.buf.append(text);
        let ghost run = read_lines(self.assembler@, self.buf@);
        let mut deltas: Vec<String> = Vec::new();
        proof {
            assert(texts(deltas@) + run.deltas =~= run.deltas);
        }
        loop
            invariant
                ({
                    let rest = read_lines(self.assembler@, self.buf@);
                    &&& run.deltas == texts(deltas@) + rest.deltas
                    &&& run.fits == rest.fits
                    &&& run.assembly == rest.assembly
                    &&& run.rest == rest.rest
                }),
                run == read_lines(old(self).assembler@, old(self).buf@ + text@),
            decreases self.buf@.len(),
        {
            let line = match take_sse_line(&mut self.buf) {
                Some(line) => line,
                None => {
                    proof {
                        assert(texts(deltas@) + Seq::<Seq<char>>::empty() =~= texts(deltas@));
                    }
                    return (deltas, true);
                },
            };
            let data = match line_data(line.as_str()) {
                Some(d) => d,
                None => {
                    continue;
                },
            };
            if let Some(evt) = parse_json(data.as_str()) {
                if !check_index(&evt) {
                    proof {
                        assert(texts(deltas@) + Seq::<Seq<char>>::empty() =~= texts(deltas@));
                    }
                    return (deltas, false);
                }
                let ghost before_deltas = texts(deltas@);
                if let Some(delta) = self.assembler.push(&evt) {
                    let ghost later = read_lines(self.assembler@, self.buf@).deltas;
                    deltas.push(delta);
                    proof {
                        assert(texts(deltas@) =~= before_deltas.push(delta@));
                        assert(before_deltas + (seq![delta@] + later) =~= before_deltas.push(
                            delta@,
                        ) + later);
                    }
                }
            }
        }
    }

    /// Takes in some bytes of the stream.
    pub fn feed(&mut self, chunk: &[u8]) -> (r: (Vec<String>, bool))
        ensures
            ({
                let run = read_lines(
                    old(self).assembler@,
                    old(self).buf@ + lossy_text(chunk@),
                );
                &&& texts(r.0@) == run.deltas
                &&& r.1 == run.fits
                &&& final(self).assembler@ == run.assembly
                &&& final(self).buf@ == run.rest
            }),
    {
        let text = lossy_string(chunk);
        self.feed_text(text.as_str())
    }
}

/// The entry in the registry.
pub fn provider_spec() -> (r: ProviderSpec)
    ensures
        r@ == anthropic_entry(),
{
    let aliases: Vec<&'static str> = Vec::new();
    proof {
        assert(str_views(aliases@) =~= anthropic_entry().aliases);
    }
    ProviderSpec {
        name: "anthropic",
        aliases,
        local: false,
        capabilities: ProviderCapabilities {
            native_tool_calling: true,
            vision: true,
            streaming: true,
        },
        factory: ProviderFactory::Anthropic,
    }
}

} // verus!
