//! The wire format of OpenAI chat completions, which many providers share.
use vstd::prelude::*;
use crate::json::{json_parse, json_text, json_views, parse_json, reads_back, Json, JsonTree};
use crate::model::provider::{
    tool_call_views, ChatMessage, ChatRequest, ChatResponse, ImageData, ResponseView, ToolCall,
    ToolCallView, ToolSpec, Usage,
};
use crate::text::{
    cat4, chars_of, find, find_char, lemma_find_from, lossy_string, lossy_text, occurs_at, opt_str,
    opt_string, same_str, str_strip_prefix, str_trim, str_trim_end_char, string_of_range,
    strip_prefix, texts, trim, trim_end_char,
};

verus! {

// ---- requests ----

pub open spec fn role_content(role: Seq<char>, content: JsonTree) -> JsonTree {
    JsonTree::Obj(Map::empty().insert("role"@, JsonTree::Str(role)).insert("content"@, content))
}

/// A tool call as it is sent back: its arguments are JSON in a string.
pub open spec fn call_tree(c: ToolCall) -> JsonTree {
    JsonTree::Obj(
        Map::empty().insert("id"@, JsonTree::Str(c.id@)).insert(
            "type"@,
            JsonTree::Str("function"@),
        ).insert(
            "function"@,
            JsonTree::Obj(
                Map::empty().insert("name"@, JsonTree::Str(c.name@)).insert(
                    "arguments"@,
                    JsonTree::Str(json_text(c.arguments@)),
                ),
            ),
        ),
    )
}

pub open spec fn text_part(text: Seq<char>) -> JsonTree {
    JsonTree::Obj(
        Map::empty().insert("type"@, JsonTree::Str("text"@)).insert("text"@, JsonTree::Str(text)),
    )
}

pub open spec fn image_part(img: ImageData) -> JsonTree {
    JsonTree::Obj(
        Map::empty().insert("type"@, JsonTree::Str("image_url"@)).insert(
            "image_url"@,
            JsonTree::Obj(
                Map::empty().insert(
                    "url"@,
                    JsonTree::Str("data:"@ + img.media_type@ + ";base64,"@ + img.data_base64@),
                ),
            ),
        ),
    )
}

pub open spec fn image_parts(content: Seq<char>, images: Seq<ImageData>) -> Seq<JsonTree> {
    let imgs = Seq::new(images.len(), |i: int| image_part(images[i]));
    if content.len() == 0 {
        imgs
    } else {
        seq![text_part(content)] + imgs
    }
}

/// One turn: a tool result, a turn that calls tools, a turn with images or a
/// plain one.
pub open spec fn message_tree(m: ChatMessage) -> JsonTree {
    if m.tool_call_id is Some {
        JsonTree::Obj(
            Map::empty().insert("role"@, JsonTree::Str("tool"@)).insert(
                "tool_call_id"@,
                JsonTree::Str(m.tool_call_id->0@),
            ).insert("content"@, JsonTree::Str(m.content@)),
        )
    } else if m.tool_calls@.len() > 0 {
        JsonTree::Obj(
            Map::empty().insert("role"@, JsonTree::Str("assistant"@)).insert(
                "content"@,
                if m.content@.len() == 0 {
                    JsonTree::Null
                } else {
                    JsonTree::Str(m.content@)
                },
            ).insert(
                "tool_calls"@,
                JsonTree::Arr(Seq::new(m.tool_calls@.len(), |i: int| call_tree(m.tool_calls@[i]))),
            ),
        )
    } else if m.images@.len() > 0 {
        role_content(m.role@, JsonTree::Arr(image_parts(m.content@, m.images@)))
    } else {
        role_content(m.role@, JsonTree::Str(m.content@))
    }
}

/// The turns of a request, the system prompt first.
pub open spec fn messages_tree(
    messages: Seq<ChatMessage>,
    system: Option<&str>,
) -> Seq<JsonTree> {
    let turns = Seq::new(messages.len(), |i: int| message_tree(messages[i]));
    match system {
        Some(s) => seq![role_content("system"@, JsonTree::Str(s@))] + turns,
        None => turns,
    }
}

/// The arguments of every call are read back from their text.
pub open spec fn calls_read_back(calls: Seq<ToolCall>) -> bool {
    forall|i: int| 0 <= i < calls.len() ==> reads_back((#[trigger] calls[i]).arguments@)
}

fn build_call(c: &ToolCall) -> (r: Json)
    ensures
        r@ == call_tree(*c),
        reads_back(c.arguments@) ==> json_parse(json_text(c.arguments@)) == Some(c.arguments@),
{
    let arguments = c.arguments.to_text();
    let function = Json::obj().with("name", Json::text(c.name.as_str())).with(
        "arguments",
        Json::Str(arguments),
    );
    Json::obj().with("id", Json::text(c.id.as_str())).with("type", Json::text("function")).with(
        "function",
        function,
    )
}

fn build_calls(calls: &Vec<ToolCall>) -> (r: Json)
    ensures
        r@ == JsonTree::Arr(Seq::new(calls@.len(), |i: int| call_tree(calls@[i]))),
        forall|i: int|
            0 <= i < calls@.len() && reads_back((#[trigger] calls@[i]).arguments@) ==> json_parse(
                json_text(calls@[i].arguments@),
            ) == Some(calls@[i].arguments@),
{
    let mut v: Vec<Json> = Vec::new();
    let mut i: usize = 0;
    while i < calls.len()
        invariant
            i <= calls@.len(),
            v@.len() == i,
            forall|k: int| 0 <= k < i ==> (#[trigger] v@[k])@ == call_tree(calls@[k]),
            forall|k: int|
                0 <= k < i && reads_back((#[trigger] calls@[k]).arguments@) ==> json_parse(
                    json_text(calls@[k].arguments@),
                ) == Some(calls@[k].arguments@),
        decreases calls.len() - i,
    {
        v.push(build_call(&calls[i]));
        i = i + 1;
    }
    let r = Json::arr(v);
    proof {
        assert(r@->Arr_0 =~= Seq::new(calls@.len(), |i: int| call_tree(calls@[i])));
    }
    r
}

fn build_image_parts(content: &str, images: &Vec<ImageData>) -> (r: Json)
    ensures
        r@ == JsonTree::Arr(image_parts(content@, images@)),
{
    let mut v: Vec<Json> = Vec::new();
    if !content.is_empty() {
        v.push(Json::obj().with("type", Json::text("text")).with("text", Json::text(content)));
    }
    let start: usize = v.len();
    let ghost head = v@;
    let mut i: usize = 0;
    while i < images.len()
        invariant
            i <= images@.len(),
            start == head.len(),
            v@.len() == start + i,
            forall|k: int| 0 <= k < start ==> v@[k] == head[k],
            forall|k: int| 0 <= k < i ==> (#[trigger] v@[start + k])@ == image_part(images@[k]),
        decreases images.len() - i,
    {
        let url = cat4(
            "data:",
            images[i].media_type.as_str(),
            ";base64,",
            images[i].data_base64.as_str(),
        );
        let part = Json::obj().with("type", Json::text("image_url")).with(
            "image_url",
            Json::obj().with("url", Json::Str(url)),
        );
        v.push(part);
        i = i + 1;
    }
    let r = Json::arr(v);
    proof {
        let expected = image_parts(content@, images@);
        assert(r@->Arr_0.len() == expected.len());
        assert forall|k: int| 0 <= k < expected.len() implies r@->Arr_0[k] == expected[k] by {
            if k >= start {
                assert(v@[start + (k - start)]@ == image_part(images@[k - start]));
            } else {
                assert(v@[k] == head[k]);
                assert(head[0]@ == text_part(content@));
            }
        }
        assert(r@->Arr_0 =~= expected);
    }
    r
}

/// What a turn that calls tools is read back as.
pub open spec fn round_trips(m: ChatMessage, t: JsonTree) -> bool {
    m.tool_call_id is None && m.tool_calls@.len() > 0 && calls_read_back(m.tool_calls@)
        ==> message_calls(t) == tool_call_views(m.tool_calls@)
}

fn build_message(m: &ChatMessage) -> (r: Json)
    ensures
        r@ == message_tree(*m),
        round_trips(*m, r@),
{
    if let Some(id) = &m.tool_call_id {
        return Json::obj().with("role", Json::text("tool")).with(
            "tool_call_id",
            Json::text(id.as_str()),
        ).with("content", Json::text(m.content.as_str()));
    }
    if m.tool_calls.len() > 0 {
        let content = if m.content.as_str().is_empty() {
            Json::Null
        } else {
            Json::text(m.content.as_str())
        };
        let calls = build_calls(&m.tool_calls);
        proof {
            law_tool_calls_round_trip(*m);
        }
        return Json::obj().with("role", Json::text("assistant")).with("content", content).with(
            "tool_calls",
            calls,
        );
    }
    if m.images.len() > 0 {
        return Json::obj().with("role", Json::text(m.role.as_str())).with(
            "content",
            build_image_parts(m.content.as_str(), &m.images),
        );
    }
    Json::obj().with("role", Json::text(m.role.as_str())).with(
        "content",
        Json::text(m.content.as_str()),
    )
}

/// The `messages` of a request.  A turn that calls tools is read back as the
/// same calls, where the text of their arguments can be.
pub fn build_messages(req: &ChatRequest<'_>) -> (r: Vec<Json>)
    ensures
        json_views(r@) == messages_tree(req.messages@, req.system),
        forall|i: int|
            0 <= i < req.messages@.len() ==> round_trips(
                #[trigger] req.messages@[i],
                message_tree(req.messages@[i]),
            ),
{
    let mut v: Vec<Json> = Vec::new();
    if let Some(s) = req.system {
        v.push(Json::obj().with("role", Json::text("system")).with("content", Json::text(s)));
    }
    let start: usize = v.len();
    let ghost head = v@;
    let mut i: usize = 0;
    while i < req.messages.len()
        invariant
            i <= req.messages@.len(),
            start == head.len(),
            v@.len() == start + i,
            forall|k: int| 0 <= k < start ==> v@[k] == head[k],
            forall|k: int|
                0 <= k < i ==> (#[trigger] v@[start + k])@ == message_tree(req.messages@[k]),
            forall|k: int|
                0 <= k < i ==> round_trips(
                    #[trigger] req.messages@[k],
                    message_tree(req.messages@[k]),
                ),
        decreases req.messages.len() - i,
    {
        v.push(build_message(&req.messages[i]));
        i = i + 1;
    }
    proof {
        let expected = messages_tree(req.messages@, req.system);
        assert forall|k: int| 0 <= k < expected.len() implies json_views(v@)[k] == expected[k] by {
            if k >= start {
                assert(v@[start + (k - start)]@ == message_tree(req.messages@[k - start]));
            } else {
                assert(v@[k] == head[k]);
            }
        }
        assert(json_views(v@) =~= expected);
    }
    v
}

pub open spec fn tool_tree(t: ToolSpec) -> JsonTree {
    JsonTree::Obj(
        Map::empty().insert("type"@, JsonTree::Str("function"@)).insert(
            "function"@,
            JsonTree::Obj(
                Map::empty().insert("name"@, JsonTree::Str(t.name@)).insert(
                    "description"@,
                    JsonTree::Str(t.description@),
                ).insert("parameters"@, t.parameters@),
            ),
        ),
    )
}

/// The `tools` of a request.
pub fn build_tools(tools: &[ToolSpec]) -> (r: Vec<Json>)
    ensures
        json_views(r@) == Seq::new(tools@.len(), |i: int| tool_tree(tools@[i])),
{
    let mut v: Vec<Json> = Vec::new();
    let mut i: usize = 0;
    while i < tools.len()
        invariant
            i <= tools@.len(),
            v@.len() == i,
            forall|k: int| 0 <= k < i ==> (#[trigger] v@[k])@ == tool_tree(tools@[k]),
        decreases tools.len() - i,
    {
        let t = &tools[i];
        let function = Json::obj().with("name", Json::text(t.name.as_str())).with(
            "description",
            Json::text(t.description.as_str()),
        ).with("parameters", t.parameters.clone());
        v.push(Json::obj().with("type", Json::text("function")).with("function", function));
        i = i + 1;
    }
    proof {
        assert(json_views(v@) =~= Seq::new(tools@.len(), |i: int| tool_tree(tools@[i])));
    }
    v
}

// ---- answers ----

/// The arguments of a call: JSON in a string, or what is there if it is none.
pub open spec fn decoded_arguments(arguments: JsonTree) -> JsonTree {
    match arguments.as_str() {
        Some(s) => match json_parse(s) {
            Some(t) => t,
            None => arguments,
        },
        None => arguments,
    }
}

/// The call that an element of `tool_calls` stands for; none without a name.
pub open spec fn parsed_call(tc: JsonTree) -> Option<ToolCallView> {
    let func = tc.field("function"@);
    match func.field("name"@).as_str() {
        Some(name) => Some(
            ToolCallView {
                id: match tc.field("id"@).as_str() {
                    Some(id) => id,
                    None => Seq::empty(),
                },
                name,
                arguments: decoded_arguments(func.field("arguments"@)),
            },
        ),
        None => None,
    }
}

pub open spec fn parsed_calls(items: Seq<JsonTree>) -> Seq<ToolCallView>
    decreases items.len(),
{
    if items.len() == 0 {
        Seq::empty()
    } else {
        let head = parsed_calls(items.drop_last());
        match parsed_call(items.last()) {
            Some(c) => head.push(c),
            None => head,
        }
    }
}

/// The calls of a message.
pub open spec fn message_calls(message: JsonTree) -> Seq<ToolCallView> {
    match message.field("tool_calls"@).as_arr() {
        Some(items) => parsed_calls(items),
        None => Seq::empty(),
    }
}

fn parse_call(tc: &Json) -> (r: Option<ToolCall>)
    ensures
        match r {
            Some(c) => parsed_call(tc@) == Some(c@),
            None => parsed_call(tc@) is None,
        },
{
    let func = tc.field("function");
    let name = match func.field("name").as_str() {
        Some(n) => n.to_owned(),
        None => {
            return None;
        },
    };
    let raw = func.field("arguments");
    let arguments = match raw.as_str() {
        Some(s) => match parse_json(s) {
            Some(j) => j,
            None => raw.clone(),
        },
        None => raw.clone(),
    };
    let id = match tc.field("id").as_str() {
        Some(s) => s.to_owned(),
        None => String::new(),
    };
    Some(ToolCall { id, name, arguments })
}

/// The tool calls of a message.
pub fn parse_tool_calls(message: &Json) -> (r: Vec<ToolCall>)
    ensures
        tool_call_views(r@) == message_calls(message@),
{
    let mut out: Vec<ToolCall> = Vec::new();
    proof {
        assert(tool_call_views(out@) =~= Seq::<ToolCallView>::empty());
    }
    if let Some(items) = message.field("tool_calls").as_arr() {
        let ghost all = json_views(items@);
        let mut i: usize = 0;
        proof {
            assert(all.take(0) =~= Seq::<JsonTree>::empty());
        }
        while i < items.len()
            invariant
                i <= items@.len(),
                all == json_views(items@),
                tool_call_views(out@) == parsed_calls(all.take(i as int)),
            decreases items.len() - i,
        {
            let ghost before = tool_call_views(out@);
            proof {
                assert(all.take(i + 1).drop_last() =~= all.take(i as int));
                assert(all.take(i + 1).last() == items@[i as int]@);
            }
            if let Some(c) = parse_call(&items[i]) {
                out.push(c);
                proof {
                    assert(tool_call_views(out@) =~= before.push(c@));
                }
            }
            i = i + 1;
        }
        proof {
            assert(all.take(all.len() as int) =~= all);
        }
    }
    out
}

/// The lower 32 bits of a count, zero where there is none.
pub open spec fn token_count(t: JsonTree) -> u32 {
    match t.as_u64() {
        Some(n) => (n % 0x1_0000_0000) as u32,
        None => 0,
    }
}

/// The lower 32 bits of a count, zero where there is none.
pub fn parse_count(t: &Json) -> (r: u32)
    ensures
        r == token_count(t@),
{
    match t.as_u64() {
        Some(n) => (n % 0x1_0000_0000) as u32,
        None => 0,
    }
}

/// The token counts of an answer, if it has any.
pub open spec fn usage_of(data: JsonTree) -> Option<Usage> {
    let u = data.field("usage"@);
    if u is Obj {
        Some(
            Usage {
                prompt_tokens: token_count(u.field("prompt_tokens"@)),
                completion_tokens: token_count(u.field("completion_tokens"@)),
                total_tokens: token_count(u.field("total_tokens"@)),
            },
        )
    } else {
        None
    }
}

/// The token counts of an answer, if it has any.
pub fn parse_usage(data: &Json) -> (r: Option<Usage>)
    ensures
        r == usage_of(data@),
{
    let u = data.field("usage");
    if !u.is_object() {
        return None;
    }
    Some(
        Usage {
            prompt_tokens: parse_count(u.field("prompt_tokens")),
            completion_tokens: parse_count(u.field("completion_tokens")),
            total_tokens: parse_count(u.field("total_tokens")),
        },
    )
}

/// A turn that calls tools is read back as the calls it was made of, as far as
/// their arguments can be read back from their text.
pub proof fn law_tool_calls_round_trip(m: ChatMessage)
    requires
        m.tool_call_id is None,
        m.tool_calls@.len() > 0,
    ensures
        (forall|i: int|
            0 <= i < m.tool_calls@.len() ==> json_parse(
                json_text((#[trigger] m.tool_calls@[i]).arguments@),
            ) == Some(m.tool_calls@[i].arguments@)) ==> message_calls(message_tree(m))
            == tool_call_views(m.tool_calls@),
{
    reveal_strlit("role");
    reveal_strlit("content");
    reveal_strlit("tool_calls");
    reveal_strlit("id");
    reveal_strlit("type");
    reveal_strlit("function");
    reveal_strlit("name");
    reveal_strlit("arguments");
    if forall|i: int|
        0 <= i < m.tool_calls@.len() ==> json_parse(
            json_text((#[trigger] m.tool_calls@[i]).arguments@),
        ) == Some(m.tool_calls@[i].arguments@) {
        let items = Seq::new(m.tool_calls@.len(), |i: int| call_tree(m.tool_calls@[i]));
        assert("role"@.len() != "tool_calls"@.len());
        assert("content"@.len() != "tool_calls"@.len());
        assert(message_tree(m).field("tool_calls"@).as_arr() == Some(items));
        lemma_calls_read_back(m.tool_calls@, m.tool_calls@.len() as int);
        assert(items.take(m.tool_calls@.len() as int) =~= items);
        assert(tool_call_views(m.tool_calls@).take(m.tool_calls@.len() as int) =~= tool_call_views(
            m.tool_calls@,
        ));
    }
}

proof fn lemma_calls_read_back(calls: Seq<ToolCall>, n: int)
    requires
        0 <= n <= calls.len(),
        forall|i: int|
            0 <= i < calls.len() ==> json_parse(json_text((#[trigger] calls[i]).arguments@))
                == Some(calls[i].arguments@),
    ensures
        parsed_calls(Seq::new(calls.len(), |i: int| call_tree(calls[i])).take(n))
            == tool_call_views(calls).take(n),
    decreases n,
{
    let items = Seq::new(calls.len(), |i: int| call_tree(calls[i]));
    if n == 0 {
        assert(tool_call_views(calls).take(0) =~= Seq::<ToolCallView>::empty());
        assert(items.take(0) =~= Seq::<JsonTree>::empty());
    } else {
        lemma_calls_read_back(calls, n - 1);
        assert(items.take(n).drop_last() =~= items.take(n - 1));
        let c = calls[n - 1];
        assert(items.take(n).last() == call_tree(c));
        reveal_strlit("id");
        reveal_strlit("type");
        reveal_strlit("function");
        reveal_strlit("name");
        reveal_strlit("arguments");
        assert("id"@.len() != "type"@.len());
        assert("id"@.len() != "function"@.len());
        assert("name"@.len() != "arguments"@.len());
        assert(call_tree(c).field("id"@) == JsonTree::Str(c.id@));
        let f = call_tree(c).field("function"@);
        assert(f.field("name"@) == JsonTree::Str(c.name@));
        assert(f.field("arguments"@) == JsonTree::Str(json_text(c.arguments@)));
        assert(parsed_call(call_tree(c)) == Some(c@));
        assert(tool_call_views(calls).take(n) =~= tool_call_views(calls).take(n - 1).push(c@));
    }
}

// ---- streaming ----

/// The pieces of one tool call that have arrived.
#[derive(Debug)]
pub struct ToolCallBuilder {
    pub id: String,
    pub name: String,
    pub arguments: String,
}

pub struct CallParts {
    pub id: Seq<char>,
    pub name: Seq<char>,
    pub arguments: Seq<char>,
}

impl View for ToolCallBuilder {
    type V = CallParts;

    open spec fn view(&self) -> CallParts {
        CallParts { id: self.id@, name: self.name@, arguments: self.arguments@ }
    }
}

pub open spec fn builder_views(s: Seq<ToolCallBuilder>) -> Seq<CallParts> {
    Seq::new(s.len(), |i: int| s[i]@)
}

/// Assembles an answer from the chunks of a stream.
#[derive(Debug)]
pub struct OpenAiStreamAssembler {
    content: String,
    tool_calls: Vec<ToolCallBuilder>,
    usage: Option<Usage>,
}

pub struct AssemblyView {
    pub content: Seq<char>,
    pub tool_calls: Seq<CallParts>,
    pub usage: Option<Usage>,
}

impl View for OpenAiStreamAssembler {
    type V = AssemblyView;

    closed spec fn view(&self) -> AssemblyView {
        AssemblyView {
            content: self.content@,
            tool_calls: builder_views(self.tool_calls@),
            usage: self.usage,
        }
    }
}

pub open spec fn no_parts() -> CallParts {
    CallParts { id: Seq::empty(), name: Seq::empty(), arguments: Seq::empty() }
}

pub open spec fn no_assembly() -> AssemblyView {
    AssemblyView { content: Seq::empty(), tool_calls: Seq::empty(), usage: None }
}

/// The calls with empty ones behind them, up to `n`.
pub open spec fn grown(calls: Seq<CallParts>, n: int) -> Seq<CallParts> {
    if calls.len() >= n {
        calls
    } else {
        calls + Seq::new((n - calls.len()) as nat, |i: int| no_parts())
    }
}

/// The string of a value, where it is one and not empty.
pub open spec fn nonempty_str(t: JsonTree) -> Option<Seq<char>> {
    match t.as_str() {
        Some(s) => if s.len() > 0 {
            Some(s)
        } else {
            None
        },
        None => None,
    }
}

/// A call with a fragment of it: the id and the name are replaced, the
/// arguments grow.
pub open spec fn merged(parts: CallParts, tc: JsonTree) -> CallParts {
    let f = tc.field("function"@);
    CallParts {
        id: match nonempty_str(tc.field("id"@)) {
            Some(s) => s,
            None => parts.id,
        },
        name: match nonempty_str(f.field("name"@)) {
            Some(s) => s,
            None => parts.name,
        },
        arguments: match f.field("arguments"@).as_str() {
            Some(s) => parts.arguments + s,
            None => parts.arguments,
        },
    }
}

pub open spec fn fragment_index(tc: JsonTree) -> int {
    match tc.field("index"@).as_u64() {
        Some(n) => n as int,
        None => 0,
    }
}

pub open spec fn with_fragment(calls: Seq<CallParts>, tc: JsonTree) -> Seq<CallParts> {
    let i = fragment_index(tc);
    let g = grown(calls, i + 1);
    g.update(i, merged(g[i], tc))
}

pub open spec fn with_fragments(calls: Seq<CallParts>, items: Seq<JsonTree>) -> Seq<CallParts>
    decreases items.len(),
{
    if items.len() == 0 {
        calls
    } else {
        with_fragment(with_fragments(calls, items.drop_last()), items.last())
    }
}

pub open spec fn chunk_delta(chunk: JsonTree) -> JsonTree {
    chunk.field("choices"@).item(0).field("delta"@)
}

/// The text that a chunk adds.
pub open spec fn delta_text(chunk: JsonTree) -> Option<Seq<char>> {
    nonempty_str(chunk_delta(chunk).field("content"@))
}

/// The index of every fragment in a chunk is that of a vector's element.
pub open spec fn indexes_fit(chunk: JsonTree) -> bool {
    match chunk_delta(chunk).field("tool_calls"@).as_arr() {
        Some(items) => forall|i: int|
            0 <= i < items.len() ==> fragment_index(#[trigger] items[i]) < usize::MAX,
        None => true,
    }
}

/// The assembly with one more chunk.
pub open spec fn with_chunk(a: AssemblyView, chunk: JsonTree) -> AssemblyView {
    AssemblyView {
        content: match delta_text(chunk) {
            Some(t) => a.content + t,
            None => a.content,
        },
        tool_calls: match chunk_delta(chunk).field("tool_calls"@).as_arr() {
            Some(items) => with_fragments(a.tool_calls, items),
            None => a.tool_calls,
        },
        usage: match usage_of(chunk) {
            Some(u) => Some(u),
            None => a.usage,
        },
    }
}

pub open spec fn finished_calls(parts: Seq<CallParts>) -> Seq<ToolCallView>
    decreases parts.len(),
{
    if parts.len() == 0 {
        Seq::empty()
    } else {
        let head = finished_calls(parts.drop_last());
        let p = parts.last();
        if p.name.len() == 0 {
            head
        } else {
            head.push(
                ToolCallView {
                    id: p.id,
                    name: p.name,
                    arguments: match json_parse(p.arguments) {
                        Some(t) => t,
                        None => JsonTree::Null,
                    },
                },
            )
        }
    }
}

/// The answer that an assembly gives: a call without a name is left out, and
/// arguments that are no JSON are null.
pub open spec fn finished(a: AssemblyView) -> ResponseView {
    ResponseView {
        content: a.content,
        reasoning_content: None,
        tool_calls: finished_calls(a.tool_calls),
        usage: a.usage,
    }
}

fn nonempty_text<'a>(j: &'a Json) -> (r: Option<&'a str>)
    ensures
        opt_str(r) == nonempty_str(j@),
{
    match j.as_str() {
        Some(s) => if s.is_empty() {
            None
        } else {
            Some(s)
        },
        None => None,
    }
}

impl Default for OpenAiStreamAssembler {
    fn default() -> (r: OpenAiStreamAssembler)
        ensures
            r@ == no_assembly(),
    {
        let r = OpenAiStreamAssembler {
            content: String::new(),
            tool_calls: Vec::new(),
            usage: None,
        };
        proof {
            assert(builder_views(r.tool_calls@) =~= Seq::<CallParts>::empty());
        }
        r
    }
}

impl OpenAiStreamAssembler {
    fn push_fragment(&mut self, tc: &Json)
        requires
            fragment_index(tc@) < usize::MAX,
        ensures
            final(self)@ == (AssemblyView {
                tool_calls: with_fragment(old(self)@.tool_calls, tc@),
                ..old(self)@
            }),
    {
        let idx: usize = match tc.field("index").as_u64() {
            Some(n) => n as usize,
            None => 0,
        };
        let ghost start = builder_views(self.tool_calls@);
        proof {
            assert(start + Seq::new(0, |i: int| no_parts()) =~= start);
        }
        while self.tool_calls.len() <= idx
            invariant
                idx < usize::MAX,
                self.content == old(self).content,
                self.usage == old(self).usage,
                start == builder_views(old(self).tool_calls@),
                start.len() <= self.tool_calls@.len(),
                start.len() > idx ==> self.tool_calls@.len() == start.len(),
                start.len() <= idx ==> self.tool_calls@.len() <= idx + 1,
                builder_views(self.tool_calls@) == start + Seq::new(
                    (self.tool_calls@.len() - start.len()) as nat,
                    |i: int| no_parts(),
                ),
            decreases idx + 1 - self.tool_calls@.len(),
        {
            let ghost before = self.tool_calls@;
            let b = ToolCallBuilder {
                id: String::new(),
                name: String::new(),
                arguments: String::new(),
            };
            proof {
                assert(b@ == no_parts());
            }
            self.tool_calls.push(b);
            proof {
                assert(builder_views(self.tool_calls@) =~= builder_views(before).push(no_parts()));
                assert(builder_views(self.tool_calls@) =~= start + Seq::new(
                    (self.tool_calls@.len() - start.len()) as nat,
                    |i: int| no_parts(),
                ));
            }
        }
        let ghost g = builder_views(self.tool_calls@);
        proof {
            assert(g =~= grown(start, idx + 1));
            assert(g[idx as int] == self.tool_calls@[idx as int]@);
        }
        let f = tc.field("function");
        let id = match nonempty_text(tc.field("id")) {
            Some(s) => s.to_owned(),
            None => self.tool_calls[idx].id.clone(),
        };
        let name = match nonempty_text(f.field("name")) {
            Some(s) => s.to_owned(),
            None => self.tool_calls[idx].name.clone(),
        };
        let mut arguments = self.tool_calls[idx].arguments.clone();
        if let Some(s) = f.field("arguments").as_str() {
            arguments.append(s);
        }
        let b = ToolCallBuilder { id, name, arguments };
        let ghost before = self.tool_calls@;
        self.tool_calls.set(idx, b);
        proof {
            assert(b@ == merged(g[idx as int], tc@));
            assert(builder_views(self.tool_calls@) =~= g.update(idx as int, b@));
        }
    }

    /// Takes in one chunk and returns the text it adds, if any.
    pub fn push(&mut self, chunk: &Json) -> (r: Option<String>)
        requires
            indexes_fit(chunk@),
        ensures
            final(self)@ == with_chunk(old(self)@, chunk@),
            opt_string(r) == delta_text(chunk@),
    {
        if let Some(u) = parse_usage(chunk) {
            self.usage = Some(u);
        }
        let delta = chunk.field("choices").item(0).field("delta");
        if let Some(items) = delta.field("tool_calls").as_arr() {
            let ghost all = json_views(items@);
            let ghost start = self@;
            let mut i: usize = 0;
            proof {
                assert(all.take(0) =~= Seq::<JsonTree>::empty());
            }
            while i < items.len()
                invariant
                    i <= items@.len(),
                    all == json_views(items@),
                    forall|k: int|
                        0 <= k < all.len() ==> fragment_index(#[trigger] all[k]) < usize::MAX,
                    self@ == (AssemblyView {
                        tool_calls: with_fragments(start.tool_calls, all.take(i as int)),
                        ..start
                    }),
                decreases items.len() - i,
            {
                proof {
                    assert(all.take(i + 1).drop_last() =~= all.take(i as int));
                    assert(all.take(i + 1).last() == all[i as int]);
                }
                self.push_fragment(&items[i]);
                i = i + 1;
            }
            proof {
                assert(all.take(all.len() as int) =~= all);
            }
        }
        match nonempty_text(delta.field("content")) {
            Some(t) => {
                self.content.append(t);
                Some(t.to_owned())
            },
            None => None,
        }
    }

    /// The answer, once the stream has ended.
    pub fn finish(self) -> (r: ChatResponse)
        ensures
            r@ == finished(self@),
    {
        let ghost parts = builder_views(self.tool_calls@);
        let mut calls: Vec<ToolCall> = Vec::new();
        let mut i: usize = 0;
        proof {
            assert(parts.take(0) =~= Seq::<CallParts>::empty());
            assert(tool_call_views(calls@) =~= Seq::<ToolCallView>::empty());
        }
        while i < self.tool_calls.len()
            invariant
                i <= self.tool_calls@.len(),
                parts == builder_views(self.tool_calls@),
                tool_call_views(calls@) == finished_calls(parts.take(i as int)),
            decreases self.tool_calls.len() - i,
        {
            let b = &self.tool_calls[i];
            let ghost before = tool_call_views(calls@);
            proof {
                assert(parts.take(i + 1).drop_last() =~= parts.take(i as int));
                assert(parts.take(i + 1).last() == b@);
            }
            if !b.name.as_str().is_empty() {
                let arguments = match parse_json(b.arguments.as_str()) {
                    Some(j) => j,
                    None => Json::Null,
                };
                let c = ToolCall { id: b.id.clone(), name: b.name.clone(), arguments };
                calls.push(c);
                proof {
                    assert(tool_call_views(calls@) =~= before.push(c@));
                }
            }
            i = i + 1;
        }
        proof {
            assert(parts.take(parts.len() as int) =~= parts);
        }
        ChatResponse {
            content: self.content,
            reasoning_content: None,
            tool_calls: calls,
            usage: self.usage,
        }
    }
}

/// The assembly after a whole stream of chunks.
pub open spec fn assembled(chunks: Seq<JsonTree>) -> AssemblyView
    decreases chunks.len(),
{
    if chunks.len() == 0 {
        no_assembly()
    } else {
        with_chunk(assembled(chunks.drop_last()), chunks.last())
    }
}

/// The texts that a stream of chunks adds, one after the other.
pub open spec fn delta_texts(chunks: Seq<JsonTree>) -> Seq<char>
    decreases chunks.len(),
{
    if chunks.len() == 0 {
        Seq::empty()
    } else {
        match delta_text(chunks.last()) {
            Some(t) => delta_texts(chunks.drop_last()) + t,
            None => delta_texts(chunks.drop_last()),
        }
    }
}

/// The content of the answer is what the chunks added on the way.
pub proof fn law_answer_is_the_sum_of_its_deltas(chunks: Seq<JsonTree>)
    ensures
        finished(assembled(chunks)).content == delta_texts(chunks),
    decreases chunks.len(),
{
    if chunks.len() > 0 {
        law_answer_is_the_sum_of_its_deltas(chunks.drop_last());
    }
}

/// What is left in a stream's buffer once the first line is taken off: the
/// line, without its end, and the rest.
pub open spec fn split_line(buf: Seq<char>) -> Option<(Seq<char>, Seq<char>)> {
    match find(buf, seq!['\n']) {
        Some(p) => if 0 <= p < buf.len() {
            Some((trim_end_char(buf.take(p), '\r'), buf.skip(p + 1)))
        } else {
            None
        },
        None => None,
    }
}

/// A line is taken off exactly where the buffer holds a line end; the rest is
/// what follows the first one.
pub proof fn law_line_is_taken_at_its_end(buf: Seq<char>)
    ensures
        split_line(buf) is Some <==> buf.contains('\n'),
        split_line(buf) matches Some((line, rest)) ==> {
            exists|p: int|
                0 <= p < buf.len() && #[trigger] buf[p] == '\n' && !buf.take(p).contains('\n')
                    && line == trim_end_char(buf.take(p), '\r') && rest == buf.skip(p + 1)
        },
{
    lemma_find_from(buf, seq!['\n'], 0);
    match find(buf, seq!['\n']) {
        Some(p) => {
            assert(occurs_at(buf, seq!['\n'], p));
            assert(buf.subrange(p, p + 1)[0] == '\n');
            assert(buf[p] == '\n');
            assert forall|j: int| 0 <= j < p implies buf[j] != '\n' by {
                if buf[j] == '\n' {
                    assert(buf.subrange(j, j + 1) =~= seq!['\n']);
                    assert(occurs_at(buf, seq!['\n'], j));
                }
            }
            assert(!buf.take(p).contains('\n'));
        },
        None => {
            assert forall|j: int| 0 <= j < buf.len() implies buf[j] != '\n' by {
                if buf[j] == '\n' {
                    assert(buf.subrange(j, j + 1) =~= seq!['\n']);
                    assert(occurs_at(buf, seq!['\n'], j));
                }
            }
        },
    }
}

/// Takes one complete line off the buffer; an incomplete one stays.
pub fn take_sse_line(buf: &mut String) -> (r: Option<String>)
    ensures
        match split_line(old(buf)@) {
            Some((line, rest)) => opt_string(r) == Some(line) && final(buf)@ == rest,
            None => r is None && final(buf)@ == old(buf)@,
        },
{
    let chars = chars_of(buf.as_str());
    let n: usize = chars.len();
    match find_char(&chars, '\n') {
        Some(p) => {
            let head = string_of_range(&chars, 0, p);
            let line = str_trim_end_char(head.as_str(), '\r');
            *buf = string_of_range(&chars, p + 1, n);
            proof {
                assert(chars@.subrange(0, p as int) =~= chars@.take(p as int));
                assert(chars@.subrange(p + 1, n as int) =~= chars@.skip(p + 1));
            }
            Some(line)
        },
        None => None,
    }
}

/// The data of a line of a stream, if it is a data line.
pub open spec fn sse_data(line: Seq<char>) -> Option<Seq<char>> {
    match strip_prefix(trim(line), "data:"@) {
        Some(d) => Some(trim(d)),
        None => None,
    }
}

/// The data of a line of a stream, if it is a data line.
pub fn line_data(line: &str) -> (r: Option<String>)
    ensures
        opt_string(r) == sse_data(line@),
{
    let line = str_trim(line);
    match str_strip_prefix(line.as_str(), "data:") {
        Some(d) => Some(str_trim(d.as_str())),
        None => None,
    }
}

/// Whether a stream goes on.
#[derive(Clone, Copy, Debug, PartialEq, Eq, Structural)]
pub enum StreamEnd {
    /// More is to come.
    Open,
    /// The stream has said that it is complete.
    Done,
    /// A tool call has an index beyond those of a vector.
    BadIndex,
}

/// What reading a buffer comes to.
pub struct StreamRun {
    pub assembly: AssemblyView,
    pub rest: Seq<char>,
    pub deltas: Seq<Seq<char>>,
    pub end: StreamEnd,
}

/// Reads the complete lines of a buffer: each data line up to the closing one
/// is a chunk; other lines, and data that is no JSON, are passed over.
pub open spec fn read_lines(a: AssemblyView, buf: Seq<char>) -> StreamRun
    decreases buf.len(),
{
    match split_line(buf) {
        None => StreamRun { assembly: a, rest: buf, deltas: Seq::empty(), end: StreamEnd::Open },
        Some((line, rest)) => match sse_data(line) {
            None => read_lines(a, rest),
            Some(data) => if data == "[DONE]"@ {
                StreamRun { assembly: a, rest, deltas: Seq::empty(), end: StreamEnd::Done }
            } else {
                match json_parse(data) {
                    None => read_lines(a, rest),
                    Some(chunk) => if !indexes_fit(chunk) {
                        StreamRun {
                            assembly: a,
                            rest,
                            deltas: Seq::empty(),
                            end: StreamEnd::BadIndex,
                        }
                    } else {
                        let r = read_lines(with_chunk(a, chunk), rest);
                        match delta_text(chunk) {
                            Some(t) => StreamRun { deltas: seq![t] + r.deltas, ..r },
                            None => r,
                        }
                    },
                }
            },
        },
    }
}

/// A line that is complete stays what it is when more arrives.
pub proof fn lemma_line_stays(buf: Seq<char>, more: Seq<char>)
    ensures
        split_line(buf) matches Some((line, rest)) ==> split_line(buf + more) == Some(
            (line, rest + more),
        ),
{
    let nl = seq!['\n'];
    lemma_find_from(buf, nl, 0);
    lemma_find_from(buf + more, nl, 0);
    if split_line(buf) is Some {
        let p = find(buf, nl)->0;
        let all = buf + more;
        assert(all.subrange(p, p + 1) =~= buf.subrange(p, p + 1));
        assert(occurs_at(all, nl, p));
        assert forall|j: int| 0 <= j < p implies !occurs_at(all, nl, j) by {
            assert(all.subrange(j, j + 1) =~= buf.subrange(j, j + 1));
            assert(!occurs_at(buf, nl, j));
        }
        assert(find(all, nl) == Some(p));
        assert(all.take(p) =~= buf.take(p));
        assert(all.skip(p + 1) =~= buf.skip(p + 1) + more);
    }
}

/// It does not matter how a stream is cut into pieces: to read a piece and
/// then another is to read both at once.
pub proof fn law_pieces_read_like_the_whole(a: AssemblyView, buf: Seq<char>, more: Seq<char>)
    ensures
        ({
            let first = read_lines(a, buf);
            let whole = read_lines(a, buf + more);
            if first.end == StreamEnd::Open {
                let second = read_lines(first.assembly, first.rest + more);
                &&& whole.assembly == second.assembly
                &&& whole.rest == second.rest
                &&& whole.end == second.end
                &&& whole.deltas == first.deltas + second.deltas
            } else {
                &&& whole.assembly == first.assembly
                &&& whole.rest == first.rest + more
                &&& whole.end == first.end
                &&& whole.deltas == first.deltas
            }
        }),
    decreases buf.len(),
{
    lemma_line_stays(buf, more);
    match split_line(buf) {
        None => {
            assert(Seq::<Seq<char>>::empty() + read_lines(a, buf + more).deltas =~= read_lines(
                a,
                buf + more,
            ).deltas);
        },
        Some((line, rest)) => {
            match sse_data(line) {
                None => law_pieces_read_like_the_whole(a, rest, more),
                Some(data) => {
                    if data != "[DONE]"@ {
                        match json_parse(data) {
                            None => law_pieces_read_like_the_whole(a, rest, more),
                            Some(chunk) => {
                                if indexes_fit(chunk) {
                                    let b = with_chunk(a, chunk);
                                    law_pieces_read_like_the_whole(b, rest, more);
                                    let first = read_lines(b, rest);
                                    if first.end == StreamEnd::Open && delta_text(chunk) is Some {
                                        let t = delta_text(chunk)->0;
                                        let second = read_lines(
                                            first.assembly,
                                            first.rest + more,
                                        );
                                        assert(seq![t] + (first.deltas + second.deltas) =~= (seq![t]
                                            + first.deltas) + second.deltas);
                                    }
                                }
                            },
                        }
                    }
                },
            }
        },
    }
}

fn check_indexes(chunk: &Json) -> (r: bool)
    ensures
        r == indexes_fit(chunk@),
{
    let delta = chunk.field("choices").item(0).field("delta");
    if let Some(items) = delta.field("tool_calls").as_arr() {
        let ghost all = json_views(items@);
        let mut i: usize = 0;
        while i < items.len()
            invariant
                i <= items@.len(),
                all == json_views(items@),
                chunk_delta(chunk@).field("tool_calls"@).as_arr() == Some(all),
                forall|k: int| 0 <= k < i ==> fragment_index(#[trigger] all[k]) < usize::MAX,
            decreases items.len() - i,
        {
            proof {
                assert(all[i as int] == items@[i as int]@);
            }
            if let Some(n) = items[i].field("index").as_u64() {
                if n >= usize::MAX as u64 {
                    proof {
                        let items = chunk_delta(chunk@).field("tool_calls"@).as_arr()->0;
                        assert(fragment_index(items[i as int]) >= usize::MAX);
                    }
                    return false;
                }
            }
            i = i + 1;
        }
    }
    true
}

/// Reads a streamed answer as its bytes arrive.
#[derive(Debug)]
pub struct OpenAiStreamReader {
    pub buf: String,
    pub assembler: OpenAiStreamAssembler,
}

impl OpenAiStreamReader {
    pub fn new() -> (r: OpenAiStreamReader)
        ensures
            r.buf@ == Seq::<char>::empty(),
            r.assembler@ == no_assembly(),
    {
        OpenAiStreamReader { buf: String::new(), assembler: OpenAiStreamAssembler::default() }
    }

    /// Takes in some text of the stream and returns the texts that it adds to
    /// the answer and whether the stream goes on.
    pub fn feed_text(&mut self, text: &str) -> (r: (Vec<String>, StreamEnd))
        ensures
            ({
                let run = read_lines(old(self).assembler@, old(self).buf@ + text@);
                &&& texts(r.0@) == run.deltas
                &&& r.1 == run.end
                &&& final(self).assembler@ == run.assembly
                &&& final(self).buf@ == run.rest
            }),
    {
        self.buf.append(text);
        let ghost run = read_lines(self.assembler@, self.buf@);
        let mut deltas: Vec<String> = Vec::new();
        proof {
            assert(texts(deltas@) + run.deltas =~= run.deltas);
        }
        loop
            invariant
                ({
                    let rest = read_lines(self.assembler@, self.buf@);
                    &&& run.deltas == texts(deltas@) + rest.deltas
                    &&& run.end == rest.end
                    &&& run.assembly == rest.assembly
                    &&& run.rest == rest.rest
                }),
                run == read_lines(old(self).assembler@, old(self).buf@ + text@),
            decreases self.buf@.len(),
        {
            let ghost before = self.buf@;
            let line = match take_sse_line(&mut self.buf) {
                Some(line) => line,
                None => {
                    proof {
                        assert(texts(deltas@) + Seq::<Seq<char>>::empty() =~= texts(deltas@));
                    }
                    return (deltas, StreamEnd::Open);
                },
            };
            let data = match line_data(line.as_str()) {
                Some(d) => d,
                None => {
                    continue;
                },
            };
            if same_str(data.as_str(), "[DONE]") {
                proof {
                    assert(texts(deltas@) + Seq::<Seq<char>>::empty() =~= texts(deltas@));
                }
                return (deltas, StreamEnd::Done);
            }
            if let Some(chunk) = parse_json(data.as_str()) {
                if !check_indexes(&chunk) {
                    proof {
                        assert(texts(deltas@) + Seq::<Seq<char>>::empty() =~= texts(deltas@));
                    }
                    return (deltas, StreamEnd::BadIndex);
                }
                let ghost before_deltas = texts(deltas@);
                if let Some(delta) = self.assembler.push(&chunk) {
                    let ghost later = read_lines(self.assembler@, self.buf@).deltas;
                    deltas.push(delta);
                    proof {
                        assert(texts(deltas@) =~= before_deltas.push(delta@));
                        assert(before_deltas + (seq![delta@] + later) =~= before_deltas.push(
                            delta@,
                        ) + later);
                    }
                }
            }
        }
    }

    /// Takes in some bytes of the stream.
    pub fn feed(&mut self, chunk: &[u8]) -> (r: (Vec<String>, StreamEnd))
        ensures
            ({
                let run = read_lines(
                    old(self).assembler@,
                    old(self).buf@ + lossy_text(chunk@),
                );
                &&& texts(r.0@) == run.deltas
                &&& r.1 == run.end
                &&& final(self).assembler@ == run.assembly
                &&& final(self).buf@ == run.rest
            }),
    {
        let text = lossy_string(chunk);
        self.feed_text(text.as_str())
    }
}

} // verus!
