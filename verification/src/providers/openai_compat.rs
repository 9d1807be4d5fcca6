//! The providers that speak the chat completions protocol of OpenAI, as a
//! table.
use vstd::prelude::*;
use crate::json::{Json, JsonTree};
use crate::model::provider::{
    ChatRequest, ChatResponse, ProviderCapabilities, ResponseView, ToolSpec,
};
use crate::providers::http::{
    base_of, base_url, listed_models, opt_texts, parse_models, ProviderRequest, RequestView,
};
use crate::providers::openai::{bearer, bearer_headers, body_tree, build_body};
use crate::providers::openai_proto::{
    message_calls, nonempty_str, parse_tool_calls, parse_usage, usage_of,
};
use crate::text::{
    cat2, chars_of, find, find_chars, lemma_find_from, lemma_find_in_rest, opt_str, opt_string, same_str,
    str_trim_start, string_of_range, trim_start,
};
use crate::providers::registry::{compat_entry, ProviderFactory, ProviderSpec};

verus! {

/// What is known of one provider.
#[derive(Debug)]
pub struct OpenAiCompatDef {
    pub name: &'static str,
    /// Model names that stand for the provider.
    pub aliases: Vec<&'static str>,
    pub default_base_url: &'static str,
    pub capabilities: ProviderCapabilities,
    /// The least temperature that the provider takes, in thousandths.
    pub min_temperature: Option<u32>,
}

pub struct DefView {
    pub name: Seq<char>,
    pub aliases: Seq<Seq<char>>,
    pub default_base_url: Seq<char>,
    pub capabilities: ProviderCapabilities,
    pub min_temperature: Option<u32>,
}

pub open spec fn str_views(s: Seq<&'static str>) -> Seq<Seq<char>> {
    Seq::new(s.len(), |i: int| s[i]@)
}

impl View for OpenAiCompatDef {
    type V = DefView;

    open spec fn view(&self) -> DefView {
        DefView {
            name: self.name@,
            aliases: str_views(self.aliases@),
            default_base_url: self.default_base_url@,
            capabilities: self.capabilities,
            min_temperature: self.min_temperature,
        }
    }
}

pub open spec fn def_views(s: Seq<OpenAiCompatDef>) -> Seq<DefView> {
    Seq::new(s.len(), |i: int| s[i]@)
}

/// A provider that calls tools and streams.
pub open spec fn entry(
    name: Seq<char>,
    aliases: Seq<Seq<char>>,
    default_base_url: Seq<char>,
    vision: bool,
    min_temperature: Option<u32>,
) -> DefView {
    DefView {
        name,
        aliases,
        default_base_url,
        capabilities: ProviderCapabilities { native_tool_calling: true, vision, streaming: true },
        min_temperature,
    }
}

/// The providers, in the order in which aliases are looked up.
pub open spec fn compat_table() -> Seq<DefView> {
    seq![
        entry(
            "deepseek"@,
            seq!["deepseek-chat"@, "deepseek-reasoner"@, "ds"@],
            "https://api.deepseek.com/v1"@,
            false,
            None,
        ),
        entry("groq"@, seq!["groq"@], "https://api.groq.com/openai/v1"@, false, None),
        entry("openrouter"@, seq!["openrouter"@], "https://openrouter.ai/api/v1"@, true, None),
        entry(
            "gemini"@,
            seq!["gemini"@, "gemini-2.0-flash"@, "gemini-2.5-pro"@, "gemini-2.5-flash"@],
            "https://generativelanguage.googleapis.com/v1beta/openai"@,
            true,
            None,
        ),
        entry(
            "mistral"@,
            seq!["mistral"@, "mistral-large"@, "codestral"@],
            "https://api.mistral.ai/v1"@,
            false,
            None,
        ),
        entry(
            "xai"@,
            seq!["xai"@, "grok"@, "grok-2"@, "grok-2-vision"@, "grok-beta"@, "grok-3"@],
            "https://api.x.ai/v1"@,
            true,
            None,
        ),
        entry(
            "qwen"@,
            seq![
                "qwen"@,
                "dashscope"@,
                "qwen-max"@,
                "qwen-plus"@,
                "qwen-turbo"@,
                "qwen-long"@,
            ],
            "https://dashscope.aliyuncs.com/compatible-mode/v1"@,
            true,
            None,
        ),
        entry(
            "glm"@,
            seq![
                "glm"@,
                "zhipu"@,
                "zai"@,
                "glm-4"@,
                "glm-4.5"@,
                "glm-4.6"@,
                "glm-4.7"@,
                "glm-5"@,
            ],
            "https://api.z.ai/api/paas/v4"@,
            true,
            None,
        ),
        entry(
            "moonshot"@,
            seq!["moonshot"@, "kimi"@, "kimi-k2.5"@, "kimi-latest"@],
            "https://api.moonshot.cn/v1"@,
            false,
            Some(1000u32),
        ),
        entry(
            "minimax"@,
            seq!["minimax"@, "MiniMax-M2"@, "MiniMax-M2.1"@, "MiniMax-M2.5"@],
            "https://api.minimax.io/v1"@,
            false,
            None,
        ),
    ]
}

fn make_def(
    name: &'static str,
    aliases: Vec<&'static str>,
    default_base_url: &'static str,
    vision: bool,
    min_temperature: Option<u32>,
) -> (r: OpenAiCompatDef)
    ensures
        r@ == entry(
            name@,
            str_views(aliases@),
            default_base_url@,
            vision,
            min_temperature,
        ),
{
    OpenAiCompatDef {
        name,
        aliases,
        default_base_url,
        capabilities: ProviderCapabilities { native_tool_calling: true, vision, streaming: true },
        min_temperature,
    }
}

fn push_def(defs: &mut Vec<OpenAiCompatDef>, def: OpenAiCompatDef)
    ensures
        def_views(final(defs)@) == def_views(old(defs)@).push(def@),
{
    let ghost before = defs@;
    defs.push(def);
    proof {
        assert(def_views(defs@) =~= def_views(before).push(def@));
    }
}

/// The providers, in the order in which aliases are looked up.
pub fn compat_defs() -> (r: Vec<OpenAiCompatDef>)
    ensures
        def_views(r@) == compat_table(),
{
    let mut defs: Vec<OpenAiCompatDef> = Vec::new();
    let a: Vec<&'static str> = vec!["deepseek-chat", "deepseek-reasoner", "ds"];
    proof {
        assert(str_views(a@) =~= compat_table()[0].aliases);
    }
    push_def(
        &mut defs,
        make_def("deepseek", a, "https://api.deepseek.com/v1", false, None),
    );
    let a: Vec<&'static str> = vec!["groq"];
    proof {
        assert(str_views(a@) =~= compat_table()[1].aliases);
    }
    push_def(&mut defs, make_def("groq", a, "https://api.groq.com/openai/v1", false, None));
    let a: Vec<&'static str> = vec!["openrouter"];
    proof {
        assert(str_views(a@) =~= compat_table()[2].aliases);
    }
    push_def(
        &mut defs,
        make_def("openrouter", a, "https://openrouter.ai/api/v1", true, None),
    );
    let a: Vec<&'static str> = vec![
        "gemini",
        "gemini-2.0-flash",
        "gemini-2.5-pro",
        "gemini-2.5-flash",
    ];
    proof {
        assert(str_views(a@) =~= compat_table()[3].aliases);
    }
    push_def(
        &mut defs,
        make_def(
            "gemini",
            a,
            "https://generativelanguage.googleapis.com/v1beta/openai",
            true,
            None,
        ),
    );
    let a: Vec<&'static str> = vec!["mistral", "mistral-large", "codestral"];
    proof {
        assert(str_views(a@) =~= compat_table()[4].aliases);
    }
    push_def(&mut defs, make_def("mistral", a, "https://api.mistral.ai/v1", false, None));
    let a: Vec<&'static str> = vec![
        "xai",
        "grok",
        "grok-2",
        "grok-2-vision",
        "grok-beta",
        "grok-3",
    ];
    proof {
        assert(str_views(a@) =~= compat_table()[5].aliases);
    }
    push_def(&mut defs, make_def("xai", a, "https://api.x.ai/v1", true, None));
    let a: Vec<&'static str> = vec![
        "qwen",
        "dashscope",
        "qwen-max",
        "qwen-plus",
        "qwen-turbo",
        "qwen-long",
    ];
    proof {
        assert(str_views(a@) =~= compat_table()[6].aliases);
    }
    push_def(
        &mut defs,
        make_def(
            "qwen",
            a,
            "https://dashscope.aliyuncs.com/compatible-mode/v1",
            true,
            None,
        ),
    );
    let a: Vec<&'static str> = vec![
        "glm",
        "zhipu",
        "zai",
        "glm-4",
        "glm-4.5",
        "glm-4.6",
        "glm-4.7",
        "glm-5",
    ];
    proof {
        assert(str_views(a@) =~= compat_table()[7].aliases);
    }
    push_def(&mut defs, make_def("glm", a, "https://api.z.ai/api/paas/v4", true, None));
    let a: Vec<&'static str> = vec!["moonshot", "kimi", "kimi-k2.5", "kimi-latest"];
    proof {
        assert(str_views(a@) =~= compat_table()[8].aliases);
    }
    push_def(
        &mut defs,
        make_def("moonshot", a, "https://api.moonshot.cn/v1", false, Some(1000)),
    );
    let a: Vec<&'static str> = vec!["minimax", "MiniMax-M2", "MiniMax-M2.1", "MiniMax-M2.5"];
    proof {
        assert(str_views(a@) =~= compat_table()[9].aliases);
    }
    push_def(&mut defs, make_def("minimax", a, "https://api.minimax.io/v1", false, None));
    proof {
        assert(def_views(defs@) =~= compat_table());
    }
    defs
}

// ---- reasoning in the answer ----

/// The text outside and inside of think tags; an open tag runs to the end.
pub open spec fn think_split(s: Seq<char>) -> (Seq<char>, Seq<char>)
    decreases s.len(),
    via think_split_decreases
{
    match find(s, "<think>"@) {
        None => (s, Seq::empty()),
        Some(a) => {
            let after = s.skip(a + "<think>"@.len());
            match find(after, "</think>"@) {
                None => (s.take(a), after),
                Some(e) => {
                    let (v, t) = think_split(after.skip(e + "</think>"@.len()));
                    (s.take(a) + v, after.take(e) + t)
                },
            }
        },
    }
}

#[via_fn]
proof fn think_split_decreases(s: Seq<char>) {
    reveal_strlit("<think>");
    reveal_strlit("</think>");
    lemma_find_from(s, "<think>"@, 0);
    if let Some(a) = find(s, "<think>"@) {
        let after = s.skip(a + "<think>"@.len());
        lemma_find_from(after, "</think>"@, 0);
    }
}

/// The visible text and the reasoning, if there is any.
pub open spec fn think_stripped(s: Seq<char>) -> (Seq<char>, Option<Seq<char>>) {
    let (v, t) = think_split(s);
    (
        trim_start(v),
        if t.len() == 0 {
            None
        } else {
            Some(trim_start(t))
        },
    )
}

/// What an answer says: the reasoning comes from a field of its own or else
/// from think tags in the text.
pub open spec fn answer_of(data: JsonTree) -> ResponseView {
    let message = data.field("choices"@).item(0).field("message"@);
    let raw = message.field("content"@).text_or_empty();
    let (content, reasoning_content) = match nonempty_str(message.field("reasoning_content"@)) {
        Some(r) => (raw, Some(r)),
        None => match think_stripped(raw) {
            (v, Some(t)) => (v, Some(t)),
            _ => (raw, None),
        },
    };
    ResponseView {
        content,
        reasoning_content,
        tool_calls: message_calls(message),
        usage: usage_of(data),
    }
}

/// Without an open think tag, and without a field for the reasoning, the
/// answer is its text.
pub proof fn law_untagged_text_is_kept(data: JsonTree)
    requires
        ({
            let message = data.field("choices"@).item(0).field("message"@);
            &&& nonempty_str(message.field("reasoning_content"@)) is None
            &&& find(message.field("content"@).text_or_empty(), "<think>"@) is None
        }),
    ensures
        answer_of(data).content == data.field("choices"@).item(0).field("message"@).field(
            "content"@,
        ).text_or_empty(),
        answer_of(data).reasoning_content is None,
{
}

/// A first pair of think tags parts the text into what is inside of it and
/// what stands before and behind it; nothing but the tags is lost.
pub proof fn law_think_tags_split_the_text(
    before: Seq<char>,
    inside: Seq<char>,
    behind: Seq<char>,
)
    requires
        find(before + "<think>"@ + inside + "</think>"@ + behind, "<think>"@) == Some(
            before.len() as int,
        ),
        find(inside + "</think>"@ + behind, "</think>"@) == Some(inside.len() as int),
    ensures
        think_split(before + "<think>"@ + inside + "</think>"@ + behind) == (
            before + think_split(behind).0,
            inside + think_split(behind).1,
        ),
{
    let s = before + "<think>"@ + inside + "</think>"@ + behind;
    let after = s.skip((before.len() + "<think>"@.len()) as int);
    assert(s.take(before.len() as int) =~= before);
    assert(after =~= inside + "</think>"@ + behind);
    assert(after.take(inside.len() as int) =~= inside);
    assert(after.skip((inside.len() + "</think>"@.len()) as int) =~= behind);
}

pub struct OpenAiCompatProvider {
    pub def: OpenAiCompatDef,
    pub key: Option<String>,
    pub base_url: String,
}

impl OpenAiCompatProvider {
    pub fn new(def: OpenAiCompatDef, key: Option<&str>, url: Option<&str>) -> (r: Self)
        ensures
            r.def == def,
            opt_string(r.key) == opt_str(key),
            r.base_url@ == base_of(opt_str(url), def.default_base_url@),
    {
        let base = base_url(url, def.default_base_url);
        OpenAiCompatProvider {
            def,
            key: match key {
                Some(k) => Some(k.to_owned()),
                None => None,
            },
            base_url: base,
        }
    }

    pub fn name(&self) -> (r: &'static str)
        ensures
            r@ == self.def.name@,
    {
        self.def.name
    }

    pub fn capabilities(&self) -> (r: ProviderCapabilities)
        ensures
            r == self.def.capabilities,
    {
        self.def.capabilities
    }

    /// Separates the reasoning in think tags from the visible text.
    pub fn strip_think_tags(content: &str) -> (r: (String, Option<String>))
        ensures
            (r.0@, opt_string(r.1)) == think_stripped(content@),
    {
        let chars = chars_of(content);
        let n: usize = chars.len();
        let open = chars_of("<think>");
        let close = chars_of("</think>");
        let open_len: usize = open.len();
        let close_len: usize = close.len();
        let mut visible = String::new();
        let mut thinking = String::new();
        let mut at: usize = 0;
        proof {
            reveal_strlit("<think>");
            reveal_strlit("</think>");
            assert(chars@.skip(0) =~= chars@);
            assert(visible@ + think_split(chars@).0 =~= think_split(chars@).0);
            assert(thinking@ + think_split(chars@).1 =~= think_split(chars@).1);
        }
        loop
            invariant_except_break
                think_split(content@).0 == visible@ + think_split(chars@.skip(at as int)).0,
                think_split(content@).1 == thinking@ + think_split(chars@.skip(at as int)).1,
            invariant
                n == chars@.len(),
                at <= n,
                open@ == "<think>"@,
                close@ == "</think>"@,
                open_len == open@.len(),
                close_len == close@.len(),
                open_len > 0,
                chars@ == content@,
            ensures
                think_split(content@) == (visible@, thinking@),
            decreases n - at,
        {
            let ghost rest = chars@.skip(at as int);
            proof {
                lemma_find_in_rest(chars@, "<think>"@, at as int);
                lemma_find_from(chars@, "<think>"@, at as int);
            }
            match find_chars(&chars, &open, at) {
                None => {
                    let tail = string_of_range(&chars, at, n);
                    visible.append(tail.as_str());
                    proof {
                        assert(tail@ =~= rest);
                        assert(thinking@ + Seq::<char>::empty() =~= thinking@);
                    }
                    break;
                },
                Some(a) => {
                    let before = string_of_range(&chars, at, a);
                    let from: usize = a + open_len;
                    let ghost after = chars@.skip(from as int);
                    proof {
                        assert(before@ =~= rest.take(a - at));
                        assert(rest.skip(a - at + open_len) =~= after);
                        lemma_find_in_rest(chars@, "</think>"@, from as int);
                        lemma_find_from(chars@, "</think>"@, from as int);
                    }
                    let ghost v0 = visible@;
                    let ghost t0 = thinking@;
                    visible.append(before.as_str());
                    match find_chars(&chars, &close, from) {
                        None => {
                            let tail = string_of_range(&chars, from, n);
                            thinking.append(tail.as_str());
                            proof {
                                assert(tail@ =~= after);
                            }
                            break;
                        },
                        Some(e) => {
                            let inside = string_of_range(&chars, from, e);
                            thinking.append(inside.as_str());
                            at = e + close_len;
                            proof {
                                assert(inside@ =~= after.take(e - from));
                                assert(after.skip(e - from + close_len) =~= chars@.skip(
                                    at as int,
                                ));
                                let later = think_split(chars@.skip(at as int));
                                assert(v0 + (before@ + later.0) =~= visible@ + later.0);
                                assert(t0 + (inside@ + later.1) =~= thinking@ + later.1);
                            }
                        },
                    }
                },
            }
        }
        let reasoning = if thinking.as_str().is_empty() {
            None
        } else {
            Some(str_trim_start(thinking.as_str()))
        };
        (str_trim_start(visible.as_str()), reasoning)
    }

    /// The request to send, with the tools if there are any.
    pub fn build_request(
        &self,
        req: &ChatRequest<'_>,
        tools: &[ToolSpec],
        model: &str,
        temperature: Json,
    ) -> (r: ProviderRequest)
        ensures
            r@ == (RequestView {
                url: self.base_url@ + "/chat/completions"@,
                headers: bearer(opt_string(self.key)),
                body: body_tree(model@, temperature@, req.messages@, req.system, tools@),
            }),
    {
        ProviderRequest {
            url: cat2(self.base_url.as_str(), "/chat/completions"),
            headers: bearer_headers(&self.key),
            body: build_body(req, tools, model, temperature),
        }
    }

    /// Reads an answer.
    pub fn parse_response(data: &Json) -> (r: ChatResponse)
        ensures
            r@ == answer_of(data@),
    {
        let message = data.field("choices").item(0).field("message");
        let raw = message.field("content").str_or_empty();
        let explicit = match message.field("reasoning_content").as_str() {
            Some(s) => if s.is_empty() {
                None
            } else {
                Some(s.to_owned())
            },
            None => None,
        };
        let (content, reasoning_content) = if explicit.is_some() {
            (raw, explicit)
        } else {
            let (visible, think) = Self::strip_think_tags(raw.as_str());
            if think.is_some() {
                (visible, think)
            } else {
                (raw, None)
            }
        };
        ChatResponse {
            content,
            reasoning_content,
            tool_calls: parse_tool_calls(message),
            usage: parse_usage(data),
        }
    }

    /// The address and the headers of a request for the list of models.
    pub fn models_request(&self) -> (r: (String, Vec<(String, String)>))
        ensures
            r.0@ == self.base_url@ + "/models"@,
            crate::providers::http::header_views(r.1@) == bearer(opt_string(self.key)),
    {
        (cat2(self.base_url.as_str(), "/models"), bearer_headers(&self.key))
    }

    /// The models that the provider lists, if any.
    pub fn list_models(data: &Json) -> (r: Option<Vec<String>>)
        ensures
            opt_texts(r) == listed_models(data@, "data"@, "id"@),
    {
        parse_models(data, "data", "id")
    }
}

fn clone_strs(v: &Vec<&'static str>) -> (r: Vec<&'static str>)
    ensures
        r@ == v@,
{
    let mut out: Vec<&'static str> = Vec::new();
    let mut i: usize = 0;
    while i < v.len()
        invariant
            i <= v@.len(),
            out@ == v@.take(i as int),
        decreases v.len() - i,
    {
        out.push(v[i]);
        i = i + 1;
        proof {
            assert(v@.take(i as int).drop_last() =~= v@.take(i - 1));
            assert(out@ =~= v@.take(i as int));
        }
    }
    proof {
        assert(v@.take(v@.len() as int) =~= v@);
    }
    out
}

/// The entry of a provider of the table in the registry.
pub fn provider_spec(def: OpenAiCompatDef) -> (r: ProviderSpec)
    ensures
        r@ == compat_entry(def@),
{
    ProviderSpec {
        name: def.name,
        aliases: clone_strs(&def.aliases),
        local: false,
        capabilities: def.capabilities,
        factory: ProviderFactory::Compat(def),
    }
}

/// The entry of a provider in the table of compatible ones: the first under
/// the name.
pub fn spec_for(name: &str) -> (r: ProviderSpec)
    requires
        exists|i: int| 0 <= i < compat_table().len() && (#[trigger] compat_table()[i]).name == name@,
    ensures
        exists|i: int|
            0 <= i < compat_table().len() && r@ == compat_entry(#[trigger] compat_table()[i])
                && compat_table()[i].name == name@ && forall|j: int|
                0 <= j < i ==> (#[trigger] compat_table()[j]).name != name@,
{
    let defs = compat_defs();
    let ghost all = def_views(defs@);
    for d in it: defs
        invariant
            def_views(it.seq()) == all,
            all == compat_table(),
            forall|j: int| 0 <= j < it.index() ==> (#[trigger] compat_table()[j]).name != name@,
    {
        proof {
            assert(all[it.index() as int] == d@);
        }
        if same_str(d.name, name) {
            return provider_spec(d);
        }
    }
    proof {
        assert(false);
    }
    crate::providers::openai::provider_spec()
}

} // verus!
