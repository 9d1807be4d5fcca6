//! What the calls of the providers' functions return and leave behind.
use vstd::prelude::*;
use crate::json::{json_parse, json_views, Json, JsonTree};
use crate::model::provider::{ChatRequest, ChatResponse, ToolSpec};
use crate::providers::anthropic;
use crate::providers::anthropic::{
    body_tree as anthropic_body, AnthropicProvider, AnthropicStreamAssembler,
};
use crate::providers::anthropic_laws::{
    history_pairs, law_results_are_sent_as_they_are, message_pairs,
};
use crate::providers::chain_laws::{
    law_failure_begins_a_cooldown, law_other_failures_begin_none, law_passing_failures_are_retried,
    law_success_clears_the_provider_alone, no_record, same_record,
};
use crate::providers::deepseek::{parse_plain_response, DeepSeekProvider};
use crate::providers::error::{kind_of_error, ChatError};
use crate::providers::http::ProviderRequest;
use crate::providers::ollama::OllamaProvider;
use crate::providers::openai::OpenAiProvider;
use crate::providers::openai_compat::OpenAiCompatProvider;
use crate::providers::openai_proto::{
    build_messages, build_tools, tool_tree, with_fragments, CallParts,
    OpenAiStreamAssembler,
};
use crate::providers::openai_stream_laws::{
    chunk_fragments, law_chunk, law_finished_calls, law_fragment_changes_its_call_only, named, place,
};
use crate::providers::reliable::{
    ChainOutcome, ChainState, ChainStep, CooldownTracker, ReliabilityChain,
};
use crate::providers::request_laws::{
    elements, first_message, law_body_fields, law_plain_turn_fields, law_result_fields,
    law_turns_are_sent_in_order,
};
use crate::text::opt_str;

verus! {

// ---- keeping a chain of providers available ----

/// After a call that ended in success the provider that answered has neither a
/// cooldown nor a failure on record in the health the chain is left with, and
/// the health of every other provider is what it was.
pub proof fn law_success_leaves_the_provider_healthy(
    chain: &mut ReliabilityChain,
    state: ChainState,
    now: u64,
    r: Option<ChainStep>,
)
    requires
        state.provider < old(chain).providers@.len(),
        call_ensures(ReliabilityChain::chat, (chain, state, &ChainOutcome::Success, now), r),
    ensures
        ({
            let name = old(chain).providers@[state.provider as int].name@;
            let before = old(chain).tracker@;
            let after = final(chain).tracker@;
            &&& r is None
            &&& !after.cooldowns.contains_key(name)
            &&& !after.failures.contains_key(name)
            &&& forall|other: Seq<char>|
                #![trigger after.cooldowns.contains_key(other)]
                #![trigger after.failures.contains_key(other)]
                other != name ==> same_record(before, after, other)
            &&& final(chain).providers == old(chain).providers
        }),
{
    law_success_clears_the_provider_alone(
        old(chain).plan(),
        old(chain).tracker@,
        state,
        now,
        now,
    );
    assert(old(chain).names()[state.provider as int] == old(
        chain,
    ).providers@[state.provider as int].name@);
}

/// After a rate limit, a billing failure, or a failure that may pass when the
/// retries are used up, the provider called has one failure more on record and
/// cools down from now on.
pub proof fn law_counted_failure_leaves_the_provider_cooling(
    chain: &mut ReliabilityChain,
    state: ChainState,
    e: ChatError,
    now: u64,
    r: Option<ChainStep>,
)
    requires
        state.provider < old(chain).providers@.len(),
        call_ensures(ReliabilityChain::chat, (chain, state, &ChainOutcome::Failure(e), now), r),
        ({
            let name = old(chain).providers@[state.provider as int].name@;
            let h = old(chain).tracker@;
            h.failures.contains_key(name) ==> h.failures[name] < u32::MAX
        }),
        ({
            let kind = kind_of_error(e);
            ||| kind is RateLimit
            ||| kind is Billing
            ||| state.attempt == old(chain).max_retries && (kind is ServerError || kind is Timeout
                || kind is Unknown)
        }),
    ensures
        ({
            let name = old(chain).providers@[state.provider as int].name@;
            let before = old(chain).tracker@;
            let after = final(chain).tracker@;
            &&& after.cooldowns.contains_key(name)
            &&& after.cooldowns[name].since_ms == now
            &&& after.cooldowns[name].duration_ms >= 60_000
            &&& after.failures.contains_key(name)
            &&& after.failures[name] == (if before.failures.contains_key(name) {
                before.failures[name] + 1
            } else {
                1
            })
        }),
{
    assert(old(chain).names()[state.provider as int] == old(
        chain,
    ).providers@[state.provider as int].name@);
    law_failure_begins_a_cooldown(old(chain).plan(), old(chain).tracker@, state, e, now);
}

/// After any other failure the provider called has no new failure and no new
/// cooldown; one that may pass is retried with the same provider.
pub proof fn law_uncounted_failure_leaves_no_cooldown(
    chain: &mut ReliabilityChain,
    state: ChainState,
    e: ChatError,
    now: u64,
    r: Option<ChainStep>,
)
    requires
        state.provider < old(chain).providers@.len(),
        call_ensures(ReliabilityChain::chat, (chain, state, &ChainOutcome::Failure(e), now), r),
        ({
            let kind = kind_of_error(e);
            ||| kind is AuthError
            ||| kind is BadRequest
            ||| state.attempt < old(chain).max_retries && (kind is ServerError || kind is Timeout
                || kind is Unknown)
        }),
    ensures
        ({
            let name = old(chain).providers@[state.provider as int].name@;
            let before = old(chain).tracker@;
            let after = final(chain).tracker@;
            same_record(before, after, name) || no_record(after, name)
        }),
        !(kind_of_error(e) is AuthError) && !(kind_of_error(e) is BadRequest) ==> (r matches Some(
            ChainStep::Call { wait_ms, state: s },
        ) && s.provider == state.provider && s.attempt == state.attempt + 1),
{
    assert(old(chain).names()[state.provider as int] == old(
        chain,
    ).providers@[state.provider as int].name@);
    law_other_failures_begin_none(old(chain).plan(), old(chain).tracker@, state, e, now);
    if !(kind_of_error(e) is AuthError) && !(kind_of_error(e) is BadRequest) {
        law_passing_failures_are_retried(old(chain).plan(), old(chain).tracker@, state, e, now);
    }
}

/// A recorded success removes the record of the provider, a recorded failure
/// adds to it; the others keep theirs.
pub proof fn law_tracker_calls(
    a: &mut CooldownTracker,
    b: &mut CooldownTracker,
    name: &str,
    now: u64,
    other: Seq<char>,
)
    requires
        call_ensures(CooldownTracker::record_success, (a, name), ()),
        call_ensures(CooldownTracker::record_failure, (b, name, now), ()),
        other != name@,
    ensures
        no_record(final(a)@, name@),
        same_record(old(a)@, final(a)@, other),
        final(b)@.cooldowns.contains_key(name@),
        final(b)@.cooldowns[name@].since_ms == now,
        same_record(old(b)@, final(b)@, other),
{
}

// ---- streams ----

proof fn lemma_untouched_call(calls: Seq<CallParts>, items: Seq<JsonTree>, j: int)
    requires
        0 <= j < calls.len(),
        forall|k: int| 0 <= k < items.len() ==> place(#[trigger] items[k]) != j,
    ensures
        with_fragments(calls, items).len() >= calls.len(),
        with_fragments(calls, items)[j] == calls[j],
    decreases items.len(),
{
    if items.len() > 0 {
        let front = items.drop_last();
        assert forall|k: int| 0 <= k < front.len() implies place(#[trigger] front[k]) != j by {
            assert(front[k] == items[k]);
        }
        lemma_untouched_call(calls, front, j);
        assert(items.last() == items[items.len() - 1]);
        law_fragment_changes_its_call_only(with_fragments(calls, front), items.last());
    }
}

/// A chunk adds its text to the content and hands it out; a call for which it
/// has no fragment keeps its id, its name and its arguments.
pub proof fn law_chunk_is_pushed(
    a: &mut OpenAiStreamAssembler,
    chunk: Json,
    r: Option<String>,
    j: int,
)
    requires
        call_ensures(OpenAiStreamAssembler::push, (a, &chunk), r),
        0 <= j < old(a)@.tool_calls.len(),
        forall|k: int|
            0 <= k < chunk_fragments(chunk@).len() ==> place(#[trigger] chunk_fragments(chunk@)[k])
                != j,
    ensures
        final(a)@.tool_calls.len() >= old(a)@.tool_calls.len(),
        final(a)@.tool_calls[j] == old(a)@.tool_calls[j],
        r matches Some(t) ==> final(a)@.content == old(a)@.content + t@,
        r is None ==> final(a)@.content == old(a)@.content,
{
    law_chunk(old(a)@, chunk@);
    lemma_untouched_call(old(a)@.tool_calls, chunk_fragments(chunk@), j);
}

/// A finished answer has the content that was assembled and a call for each
/// assembled one that has a name, with its id, its name and its arguments.
pub proof fn law_stream_is_finished(a: OpenAiStreamAssembler, r: ChatResponse, k: int)
    requires
        call_ensures(OpenAiStreamAssembler::finish, (a,), r),
    ensures
        r@.content == a@.content,
        r@.usage == a@.usage,
        0 <= k < a@.tool_calls.len() && a@.tool_calls[k].name.len() > 0 ==> {
            let at = named(a@.tool_calls, k);
            &&& 0 <= at < r@.tool_calls.len()
            &&& r@.tool_calls[at].id == a@.tool_calls[k].id
            &&& r@.tool_calls[at].name == a@.tool_calls[k].name
            &&& json_parse(a@.tool_calls[k].arguments) matches Some(t)
                ==> r@.tool_calls[at].arguments == t
        },
{
    law_finished_calls(a@.tool_calls, k);
}

/// An event of Anthropic that is neither about a block nor about the message
/// changes nothing; a piece of text is added to the content and handed out.
pub proof fn law_event_is_pushed(a: &mut AnthropicStreamAssembler, evt: Json, r: Option<String>)
    requires
        call_ensures(AnthropicStreamAssembler::push, (a, &evt), r),
    ensures
        r matches Some(t) ==> final(a)@.content == old(a)@.content + t@ && final(a)@.blocks
            == old(a)@.blocks,
        r is None ==> final(a)@.content == old(a)@.content,
        final(a)@.blocks.len() >= old(a)@.blocks.len(),
{
    reveal_strlit("message_start");
    reveal_strlit("content_block_start");
    reveal_strlit("content_block_delta");
    assert("message_start"@.len() != "content_block_delta"@.len());
    assert("content_block_start"@[14] != "content_block_delta"@[14]);
}

// ---- requests ----

/// Reading the blocks of the messages built for Anthropic gives back the pairs
/// of identifier and content of the tool results of the history, in order.
pub proof fn law_anthropic_results_are_built(req: ChatRequest<'_>, r: Vec<Json>)
    requires
        call_ensures(AnthropicProvider::build_messages, (&req,), r),
    ensures
        message_pairs(json_views(r@)) == history_pairs(req.messages@),
{
    law_results_are_sent_as_they_are(req.messages@);
}

/// The messages built for OpenAI are the turns of the history in order, behind
/// the system prompt; a tool result has its identifier and its content.
pub proof fn law_openai_messages_are_built(req: ChatRequest<'_>, r: Vec<Json>, i: int)
    requires
        call_ensures(build_messages, (&req,), r),
        0 <= i < req.messages@.len(),
    ensures
        ({
            let lead: int = if req.system is Some {
                1
            } else {
                0
            };
            let m = req.messages@[i];
            let t = r@[lead + i]@;
            &&& r@.len() == lead + req.messages@.len()
            &&& m.tool_call_id matches Some(id) ==> t.field("tool_call_id"@) == JsonTree::Str(id@)
                && t.field("content"@) == JsonTree::Str(m.content@)
            &&& m.tool_call_id is None && m.tool_calls@.len() == 0 && m.images@.len() == 0
                ==> t.field("role"@) == JsonTree::Str(m.role@) && t.field("content"@)
                == JsonTree::Str(m.content@)
        }),
{
    let lead: int = if req.system is Some {
        1
    } else {
        0
    };
    law_turns_are_sent_in_order(req.messages@, req.system, i);
    assert(json_views(r@).len() == r@.len());
    assert(json_views(r@)[lead + i] == r@[lead + i]@);
    let m = req.messages@[i];
    if m.tool_call_id is Some {
        law_result_fields(m);
    } else if m.tool_calls@.len() == 0 && m.images@.len() == 0 {
        law_plain_turn_fields(m);
    }
}

/// A request to Anthropic goes to its address with the key and names the model;
/// without a key there is none.
pub proof fn law_anthropic_request(
    p: AnthropicProvider,
    req: ChatRequest<'_>,
    tools: &[ToolSpec],
    model: &str,
    temperature: Json,
    stream: bool,
    r: Result<ProviderRequest, String>,
)
    requires
        call_ensures(
            AnthropicProvider::build_request,
            (&p, &req, tools, model, temperature, stream),
            r,
        ),
    ensures
        r is Ok <==> p.key is Some,
        r matches Ok(q) ==> {
            &&& q@.url == p.base_url@ + "/v1/messages"@
            &&& q@.headers.len() == 2
            &&& q@.headers[0] == ("x-api-key"@, p.key->0@)
            &&& q@.body == anthropic_body(
                model@,
                p.max_tokens,
                temperature@,
                stream,
                req.messages@,
                opt_str(req.system),
                tools@,
            )
        },
{
}

/// A request to a provider that speaks the protocol of OpenAI goes to its
/// address with the key and names the model, and so does one by roles and texts
/// alone; one to Ollama needs no key.
pub proof fn law_openai_requests(
    a: OpenAiProvider,
    b: OpenAiCompatProvider,
    c: DeepSeekProvider,
    d: OllamaProvider,
    req: ChatRequest<'_>,
    tools: &[ToolSpec],
    model: &str,
    temperature: Json,
    ra: ProviderRequest,
    rb: ProviderRequest,
    rc: ProviderRequest,
    rd: ProviderRequest,
    k: String,
)
    requires
        call_ensures(OpenAiProvider::build_request, (&a, &req, tools, model, temperature), ra),
        call_ensures(
            OpenAiCompatProvider::build_request,
            (&b, &req, tools, model, temperature),
            rb,
        ),
        call_ensures(DeepSeekProvider::build_request, (&c, &req, model, temperature), rc),
        call_ensures(OllamaProvider::build_request, (&d, &req, model, temperature), rd),
        a.key == Some(k),
        b.key == Some(k),
        c.key == Some(k),
    ensures
        ra@.url == a.base_url@ + "/chat/completions"@,
        rb@.url == b.base_url@ + "/chat/completions"@,
        rc@.url == c.base_url@ + "/chat/completions"@,
        rd@.url == d.base_url@ + "/api/chat"@,
        ra@.headers == seq![("Authorization"@, "Bearer "@ + k@)],
        rb@.headers == seq![("Authorization"@, "Bearer "@ + k@)],
        rc@.headers == seq![("Authorization"@, "Bearer "@ + k@)],
        rd@.headers.len() == 0,
        ra@.body.field("model"@) == JsonTree::Str(model@),
        rb@.body.field("model"@) == JsonTree::Str(model@),
        rc@.body.field("model"@) == JsonTree::Str(model@),
        rd@.body.field("model"@) == JsonTree::Str(model@),
        ra@.body.field("temperature"@) == temperature@,
        rb@.body.field("temperature"@) == temperature@,
        rc@.body.field("temperature"@) == temperature@,
{
    law_body_fields(
        model@,
        temperature@,
        req.messages@,
        req.system,
        tools@,
        0,
    );
}

/// The answer of a provider is the content of its first message.
pub proof fn law_parsed_answers(
    data: Json,
    t: Seq<char>,
    a: ChatResponse,
    b: ChatResponse,
    c: ChatResponse,
)
    requires
        call_ensures(OpenAiProvider::parse_response, (&data,), a),
        call_ensures(parse_plain_response, (&data,), b),
        call_ensures(OllamaProvider::parse_response, (&data,), c),
    ensures
        first_message(data@).field("content"@) == JsonTree::Str(t) ==> a@.content == t && b@.content
            == t,
        data@.field("message"@).field("content"@) == JsonTree::Str(t) ==> c@.content == t,
{
}

/// The tools are described in their order.
pub proof fn law_tools_are_built(tools: &[ToolSpec], r: Vec<Json>, i: int)
    requires
        call_ensures(build_tools, (tools,), r),
    ensures
        r@.len() == tools@.len(),
        0 <= i < tools@.len() ==> r@[i]@ == tool_tree(tools@[i]),
{
    assert(json_views(r@).len() == r@.len());
    if 0 <= i < tools@.len() {
        assert(json_views(r@)[i] == r@[i]@);
    }
}

/// An answer of Anthropic is parsed into its text, its calls and its counts.
pub proof fn law_anthropic_answer(data: Json, r: ChatResponse)
    requires
        call_ensures(anthropic::parse_response, (&data,), r),
    ensures
        r@.content == anthropic::blocks_text(elements(data@.field("content"@))),
        r@.tool_calls == anthropic::blocks_calls(elements(data@.field("content"@))),
        r@.usage == anthropic::usage_of(data@),
{
}

} // verus!
