//! What is sent to Anthropic, told from the fields of the JSON, and what an
//! answer holds, told from the events it came in.
use vstd::prelude::*;
use crate::json::{json_parse, JsonTree};
use crate::model::provider::{ChatMessage, ImageData, ToolCall, ToolSpec};
use crate::providers::anthropic::{
    answer_of, assembled, blocks_calls, blocks_text, body_tree, finished, finished_calls,
    flushed, folded_system, gathered, image_block, messages_tree, result_block, system_texts,
    tools_tree, turn_tree, usage_of, use_block, with_event, AssemblyView, BlockView,
};
use crate::providers::openai_proto::{role_content, text_part};
use crate::text::join;

verus! {

// ---- requests ----

/// The pairs of identifier and content of the results among the blocks.
pub open spec fn block_pairs(blocks: Seq<JsonTree>) -> Seq<(JsonTree, JsonTree)>
    decreases blocks.len(),
{
    if blocks.len() == 0 {
        Seq::empty()
    } else {
        let head = block_pairs(blocks.drop_last());
        let b = blocks.last();
        if b.field("type"@) == JsonTree::Str("tool_result"@) {
            head.push((b.field("tool_use_id"@), b.field("content"@)))
        } else {
            head
        }
    }
}

/// The blocks of a message, none where its content is a text.
pub open spec fn blocks_of(message: JsonTree) -> Seq<JsonTree> {
    match message.field("content"@) {
        JsonTree::Arr(s) => s,
        _ => Seq::empty(),
    }
}

/// The pairs of identifier and content of the results among the messages.
pub open spec fn message_pairs(messages: Seq<JsonTree>) -> Seq<(JsonTree, JsonTree)>
    decreases messages.len(),
{
    if messages.len() == 0 {
        Seq::empty()
    } else {
        message_pairs(messages.drop_last()) + block_pairs(blocks_of(messages.last()))
    }
}

/// The pairs of identifier and content of the tool results of a history.
pub open spec fn history_pairs(messages: Seq<ChatMessage>) -> Seq<(JsonTree, JsonTree)>
    decreases messages.len(),
{
    if messages.len() == 0 {
        Seq::empty()
    } else {
        let head = history_pairs(messages.drop_last());
        let m = messages.last();
        match m.tool_call_id {
            Some(id) => if m.role@ != "system"@ {
                head.push((JsonTree::Str(id@), JsonTree::Str(m.content@)))
            } else {
                head
            },
            None => head,
        }
    }
}

/// The block of a tool result: its kind, the identifier of the call and what
/// the tool returned.
pub proof fn law_result_block(m: ChatMessage)
    requires
        m.tool_call_id is Some,
    ensures
        result_block(m).field("type"@) == JsonTree::Str("tool_result"@),
        result_block(m).field("tool_use_id"@) == JsonTree::Str(m.tool_call_id->0@),
        result_block(m).field("content"@) == JsonTree::Str(m.content@),
{
    reveal_strlit("type");
    reveal_strlit("tool_use_id");
    reveal_strlit("content");
    assert("type"@.len() != "tool_use_id"@.len());
    assert("type"@.len() != "content"@.len());
    assert("tool_use_id"@.len() != "content"@.len());
}

/// The block of a tool call: its kind, its identifier, its name and its
/// arguments.
pub proof fn law_use_block(c: ToolCall)
    ensures
        use_block(c).field("type"@) == JsonTree::Str("tool_use"@),
        use_block(c).field("id"@) == JsonTree::Str(c.id@),
        use_block(c).field("name"@) == JsonTree::Str(c.name@),
        use_block(c).field("input"@) == c.arguments@,
{
    reveal_strlit("type");
    reveal_strlit("id");
    reveal_strlit("name");
    reveal_strlit("input");
    assert("type"@.len() != "id"@.len());
    assert("type"@[0] != "name"@[0]);
    assert("type"@.len() != "input"@.len());
    assert("id"@.len() != "name"@.len());
    assert("id"@.len() != "input"@.len());
    assert("name"@.len() != "input"@.len());
}

/// The block of an image: its kind, and its media type and data as they are.
pub proof fn law_image_block(img: ImageData)
    ensures
        image_block(img).field("type"@) == JsonTree::Str("image"@),
        image_block(img).field("source"@).field("type"@) == JsonTree::Str("base64"@),
        image_block(img).field("source"@).field("media_type"@) == JsonTree::Str(img.media_type@),
        image_block(img).field("source"@).field("data"@) == JsonTree::Str(img.data_base64@),
{
    reveal_strlit("type");
    reveal_strlit("source");
    reveal_strlit("media_type");
    reveal_strlit("data");
    assert("type"@.len() != "source"@.len());
    assert("type"@.len() != "media_type"@.len());
    assert("type"@[0] != "data"@[0]);
    assert("media_type"@.len() != "data"@.len());
}

/// The block of a text.
pub proof fn law_text_block(text: Seq<char>)
    ensures
        text_part(text).field("type"@) == JsonTree::Str("text"@),
        text_part(text).field("text"@) == JsonTree::Str(text),
{
    reveal_strlit("type");
    reveal_strlit("text");
    assert("type"@[1] != "text"@[1]);
}

/// A turn that is no tool result: a plain one has its role and its text; one
/// with calls is the assistant's, with the text first, if it is not empty, and
/// then a block for each call; one with images has its role, the text first and
/// then a block for each image.
pub proof fn law_turn_fields(m: ChatMessage, k: int)
    ensures
        ({
            let t = turn_tree(m);
            let lead: int = if m.content@.len() == 0 {
                0
            } else {
                1
            };
            &&& m.tool_calls@.len() == 0 && m.images@.len() == 0 ==> t.field("role"@)
                == JsonTree::Str(m.role@) && t.field("content"@) == JsonTree::Str(m.content@)
            &&& m.tool_calls@.len() > 0 ==> {
                &&& t.field("role"@) == JsonTree::Str("assistant"@)
                &&& blocks_of(t).len() == lead + m.tool_calls@.len()
                &&& lead == 1 ==> blocks_of(t)[0].field("text"@) == JsonTree::Str(m.content@)
                    && blocks_of(t)[0].field("type"@) == JsonTree::Str("text"@)
                &&& 0 <= k < m.tool_calls@.len() ==> {
                    let b = blocks_of(t)[lead + k];
                    let c = m.tool_calls@[k];
                    &&& b.field("type"@) == JsonTree::Str("tool_use"@)
                    &&& b.field("id"@) == JsonTree::Str(c.id@)
                    &&& b.field("name"@) == JsonTree::Str(c.name@)
                    &&& b.field("input"@) == c.arguments@
                }
            }
            &&& m.tool_calls@.len() == 0 && m.images@.len() > 0 ==> {
                &&& t.field("role"@) == JsonTree::Str(m.role@)
                &&& blocks_of(t).len() == lead + m.images@.len()
                &&& lead == 1 ==> blocks_of(t)[0].field("text"@) == JsonTree::Str(m.content@)
                    && blocks_of(t)[0].field("type"@) == JsonTree::Str("text"@)
                &&& 0 <= k < m.images@.len() ==> {
                    let b = blocks_of(t)[lead + k];
                    let i = m.images@[k];
                    &&& b.field("type"@) == JsonTree::Str("image"@)
                    &&& b.field("source"@).field("type"@) == JsonTree::Str("base64"@)
                    &&& b.field("source"@).field("media_type"@) == JsonTree::Str(i.media_type@)
                    &&& b.field("source"@).field("data"@) == JsonTree::Str(i.data_base64@)
                }
            }
        }),
{
    reveal_strlit("role");
    reveal_strlit("content");
    assert("role"@.len() != "content"@.len());
    law_text_block(m.content@);
    if 0 <= k < m.tool_calls@.len() {
        law_use_block(m.tool_calls@[k]);
    }
    if 0 <= k < m.images@.len() {
        law_image_block(m.images@[k]);
    }
}

proof fn lemma_no_pairs(blocks: Seq<JsonTree>)
    requires
        forall|i: int|
            0 <= i < blocks.len() ==> (#[trigger] blocks[i]).field("type"@) != JsonTree::Str(
                "tool_result"@,
            ),
    ensures
        block_pairs(blocks) == Seq::<(JsonTree, JsonTree)>::empty(),
    decreases blocks.len(),
{
    if blocks.len() > 0 {
        let front = blocks.drop_last();
        assert forall|i: int| 0 <= i < front.len() implies (#[trigger] front[i]).field("type"@)
            != JsonTree::Str("tool_result"@) by {
            assert(front[i] == blocks[i]);
        }
        lemma_no_pairs(front);
        assert(blocks.last() == blocks[blocks.len() - 1]);
    }
}

proof fn lemma_turn_has_no_results(m: ChatMessage)
    ensures
        block_pairs(blocks_of(turn_tree(m))) == Seq::<(JsonTree, JsonTree)>::empty(),
{
    reveal_strlit("tool_result");
    reveal_strlit("tool_use");
    reveal_strlit("image");
    reveal_strlit("text");
    assert("tool_result"@.len() != "tool_use"@.len());
    assert("tool_result"@.len() != "image"@.len());
    assert("tool_result"@.len() != "text"@.len());
    law_turn_fields(m, 0);
    let bs = blocks_of(turn_tree(m));
    let lead: int = if m.content@.len() == 0 {
        0
    } else {
        1
    };
    assert forall|i: int| 0 <= i < bs.len() implies (#[trigger] bs[i]).field("type"@)
        != JsonTree::Str("tool_result"@) by {
        law_turn_fields(m, i - lead);
        if i >= lead {
            assert(bs[lead + (i - lead)] == bs[i]);
        }
    }
    lemma_no_pairs(bs);
}

proof fn lemma_flushed_pairs(out: Seq<JsonTree>, pending: Seq<JsonTree>)
    ensures
        message_pairs(flushed(out, pending)) == message_pairs(out)
            + block_pairs(pending),
{
    reveal_strlit("role");
    reveal_strlit("content");
    assert("role"@.len() != "content"@.len());
    if pending.len() == 0 {
        assert(message_pairs(out) + block_pairs(pending) =~= message_pairs(out));
    } else {
        let turn = role_content("user"@, JsonTree::Arr(pending));
        assert(turn.field("content"@) == JsonTree::Arr(pending));
        assert(out.push(turn).drop_last() =~= out);
    }
}

proof fn lemma_gathered_pairs(messages: Seq<ChatMessage>)
    ensures
        message_pairs(gathered(messages).0) + block_pairs(gathered(messages).1) == history_pairs(
            messages,
        ),
    decreases messages.len(),
{
    if messages.len() == 0 {
        assert(message_pairs(Seq::<JsonTree>::empty()) + block_pairs(Seq::<JsonTree>::empty())
            =~= Seq::<(JsonTree, JsonTree)>::empty());
    } else {
        let front = messages.drop_last();
        let m = messages.last();
        let (out, pending) = gathered(front);
        lemma_gathered_pairs(front);
        if m.role@ != "system"@ {
            if m.tool_call_id is Some {
                law_result_block(m);
                let p2 = pending.push(result_block(m));
                assert(p2.drop_last() =~= pending);
                let pair = (JsonTree::Str(m.tool_call_id->0@), JsonTree::Str(m.content@));
                assert(block_pairs(p2) == block_pairs(pending).push(pair));
                assert(message_pairs(out) + block_pairs(pending).push(pair) =~= (message_pairs(out)
                    + block_pairs(pending)).push(pair));
            } else {
                lemma_flushed_pairs(out, pending);
                lemma_turn_has_no_results(m);
                let all = flushed(out, pending);
                assert(all.push(turn_tree(m)).drop_last() =~= all);
                assert(message_pairs(all) + Seq::<(JsonTree, JsonTree)>::empty()
                    =~= message_pairs(all));
                assert(message_pairs(all) + block_pairs(Seq::<JsonTree>::empty())
                    =~= message_pairs(all));
            }
        }
    }
}

/// Reading the blocks of the messages of a request gives back the pairs of
/// identifier and content of the tool results of the history, in their order.
pub proof fn law_results_are_sent_as_they_are(messages: Seq<ChatMessage>)
    ensures
        message_pairs(messages_tree(messages)) == history_pairs(messages),
{
    lemma_gathered_pairs(messages);
    lemma_flushed_pairs(gathered(messages).0, gathered(messages).1);
}

/// A tool result of the history is sent exactly as one more pair behind those
/// of what came before it.
pub proof fn law_result_is_sent_behind_the_others(messages: Seq<ChatMessage>, m: ChatMessage)
    requires
        m.role@ != "system"@,
        m.tool_call_id is Some,
    ensures
        message_pairs(messages_tree(messages.push(m))) == message_pairs(
            messages_tree(messages),
        ).push((JsonTree::Str(m.tool_call_id->0@), JsonTree::Str(m.content@))),
{
    law_results_are_sent_as_they_are(messages);
    law_results_are_sent_as_they_are(messages.push(m));
    assert(messages.push(m).drop_last() =~= messages);
}

/// Every message is a turn of the user with results, or the turn of a message
/// of the history that is neither a result nor a system turn; those stand in
/// the order of the history.
pub proof fn law_turns_are_sent_in_order(messages: Seq<ChatMessage>, m: ChatMessage)
    requires
        m.role@ != "system"@,
        m.tool_call_id is None,
    ensures
        messages_tree(messages.push(m)) == messages_tree(messages).push(turn_tree(m)),
{
    assert(messages.push(m).drop_last() =~= messages);
}

/// A turn that holds tool results is the user's.
pub proof fn law_results_are_the_users(messages: Seq<ChatMessage>, m: ChatMessage)
    requires
        m.role@ != "system"@,
        m.tool_call_id is Some,
    ensures
        messages_tree(messages.push(m)).len() > 0,
        messages_tree(messages.push(m)).last().field("role"@) == JsonTree::Str("user"@),
        blocks_of(messages_tree(messages.push(m)).last()).len() > 0,
        blocks_of(messages_tree(messages.push(m)).last()).last().field("tool_use_id"@)
            == JsonTree::Str(m.tool_call_id->0@),
        blocks_of(messages_tree(messages.push(m)).last()).last().field("content"@)
            == JsonTree::Str(m.content@),
{
    reveal_strlit("role");
    reveal_strlit("content");
    assert("role"@.len() != "content"@.len());
    assert(messages.push(m).drop_last() =~= messages);
    law_result_block(m);
}

/// A tool is described by its name, its description and the schema of its
/// parameters.
pub proof fn law_tool_fields(tools: Seq<ToolSpec>, i: int)
    requires
        0 <= i < tools.len(),
    ensures
        tools_tree(tools).len() == tools.len(),
        tools_tree(tools)[i].field("name"@) == JsonTree::Str(tools[i].name@),
        tools_tree(tools)[i].field("description"@) == JsonTree::Str(tools[i].description@),
        tools_tree(tools)[i].field("input_schema"@) == tools[i].parameters@,
{
    reveal_strlit("name");
    reveal_strlit("description");
    reveal_strlit("input_schema");
    assert("name"@.len() != "description"@.len());
    assert("name"@.len() != "input_schema"@.len());
    assert("description"@.len() != "input_schema"@.len());
}

/// The system prompt is the given one followed by the texts of the system turns
/// in order, blank lines between them: a further system turn is added behind
/// what is there, any other turn changes nothing.
pub proof fn law_system_prompt(
    system: Option<Seq<char>>,
    messages: Seq<ChatMessage>,
    m: ChatMessage,
)
    ensures
        messages.len() == 0 ==> folded_system(system, messages) == system,
        m.role@ != "system"@ ==> folded_system(system, messages.push(m)) == folded_system(
            system,
            messages,
        ),
        m.role@ == "system"@ ==> folded_system(system, messages.push(m)) == Some(
            match folded_system(system, messages) {
                Some(s) => s + "\n\n"@ + m.content@,
                None => m.content@,
            },
        ),
{
    assert(messages.push(m).drop_last() =~= messages);
    let notes = system_texts(messages);
    if m.role@ == "system"@ {
        let more = notes.push(m.content@);
        assert(system_texts(messages.push(m)) == more);
        assert(more.drop_last() =~= notes);
        if notes.len() == 0 {
            assert(more =~= seq![m.content@]);
            assert(join(more, "\n\n"@) == m.content@);
        } else {
            assert(join(more, "\n\n"@) == join(notes, "\n\n"@) + "\n\n"@ + m.content@);
            if system is Some {
                assert(system->0 + "\n\n"@ + (join(notes, "\n\n"@) + "\n\n"@ + m.content@)
                    =~= system->0 + "\n\n"@ + join(notes, "\n\n"@) + "\n\n"@ + m.content@);
            }
        }
    }
}

/// The fields of the body of a request.
pub proof fn law_body_fields(
    model: Seq<char>,
    max_tokens: u32,
    temperature: JsonTree,
    stream: bool,
    messages: Seq<ChatMessage>,
    system: Option<Seq<char>>,
    tools: Seq<ToolSpec>,
)
    ensures
        ({
            let b = body_tree(model, max_tokens, temperature, stream, messages, system, tools);
            &&& b.field("model"@) == JsonTree::Str(model)
            &&& b.field("max_tokens"@) == JsonTree::UInt(max_tokens as u64)
            &&& b.field("temperature"@) == temperature
            &&& b.field("messages"@) == JsonTree::Arr(messages_tree(messages))
            &&& b.field("stream"@) == (if stream {
                JsonTree::Bool(true)
            } else {
                JsonTree::Null
            })
            &&& b.field("system"@) == (match folded_system(system, messages) {
                Some(s) => JsonTree::Str(s),
                None => JsonTree::Null,
            })
            &&& b.field("tools"@) == (if tools.len() > 0 {
                JsonTree::Arr(tools_tree(tools))
            } else {
                JsonTree::Null
            })
        }),
{
    reveal_strlit("model");
    reveal_strlit("max_tokens");
    reveal_strlit("temperature");
    reveal_strlit("messages");
    reveal_strlit("stream");
    reveal_strlit("system");
    reveal_strlit("tools");
    assert("model"@.len() == 5 && "max_tokens"@.len() == 10 && "temperature"@.len() == 11);
    assert("messages"@.len() == 8 && "stream"@.len() == 6 && "system"@.len() == 6);
    assert("tools"@.len() == 5);
    assert("model"@[0] != "tools"@[0]);
    assert("stream"@[1] != "system"@[1]);
}

// ---- answers ----

/// The text of an answer is that of its text blocks one after the other; the
/// calls are its tool blocks in order, each with the identifier, the name and
/// the input of the block.
pub proof fn law_answer_blocks(blocks: Seq<JsonTree>, b: JsonTree)
    ensures
        blocks.len() == 0 ==> blocks_text(blocks).len() == 0 && blocks_calls(blocks).len() == 0,
        b.field("type"@) == JsonTree::Str("text"@) ==> {
            &&& blocks_text(blocks.push(b)) == blocks_text(blocks) + (match b.field("text"@) {
                JsonTree::Str(t) => t,
                _ => Seq::empty(),
            })
            &&& blocks_calls(blocks.push(b)) == blocks_calls(blocks)
        },
        b.field("type"@) == JsonTree::Str("tool_use"@) ==> {
            let calls = blocks_calls(blocks.push(b));
            &&& blocks_text(blocks.push(b)) == blocks_text(blocks)
            &&& calls.len() == blocks_calls(blocks).len() + 1
            &&& calls.drop_last() == blocks_calls(blocks)
            &&& b.field("id"@) matches JsonTree::Str(t) ==> calls.last().id == t
            &&& b.field("name"@) matches JsonTree::Str(t) ==> calls.last().name == t
            &&& calls.last().arguments == b.field("input"@)
        },
        b.field("type"@) != JsonTree::Str("text"@) && b.field("type"@) != JsonTree::Str(
            "tool_use"@,
        ) ==> {
            &&& blocks_text(blocks.push(b)) == blocks_text(blocks)
            &&& blocks_calls(blocks.push(b)) == blocks_calls(blocks)
        },
{
    reveal_strlit("text");
    reveal_strlit("tool_use");
    assert("text"@.len() != "tool_use"@.len());
    assert(blocks.push(b).drop_last() =~= blocks);
    if b.field("type"@) == JsonTree::Str("tool_use"@) {
        assert(blocks_calls(blocks.push(b)).drop_last() =~= blocks_calls(blocks));
    }
}

/// What an answer says is in its content blocks and its token counts.
pub proof fn law_answer_fields(data: JsonTree)
    ensures
        data.field("content"@) matches JsonTree::Arr(s) ==> answer_of(data).content == blocks_text(
            s,
        ) && answer_of(data).tool_calls == blocks_calls(s),
        !(data.field("content"@) is Arr) ==> answer_of(data).content.len() == 0 && answer_of(
            data,
        ).tool_calls.len() == 0,
        answer_of(data).reasoning_content is None,
        answer_of(data).usage == usage_of(data),
{
}

/// The token counts of an answer are those that it names, with their sum.
pub proof fn law_usage_of_an_answer(data: JsonTree, p: u32, c: u32)
    requires
        p + c <= u32::MAX,
        data.field("usage"@).field("input_tokens"@) == JsonTree::UInt(p as u64),
        data.field("usage"@).field("output_tokens"@) == JsonTree::UInt(c as u64),
    ensures
        usage_of(data) matches Some(u) && u.prompt_tokens == p && u.completion_tokens == c
            && u.total_tokens == p + c,
{
}

// ---- streams ----

/// The position of the block that an event is about.
pub open spec fn place(evt: JsonTree) -> int {
    match evt.field("index"@) {
        JsonTree::UInt(n) => n as int,
        _ => 0,
    }
}

pub open spec fn kind(evt: JsonTree) -> JsonTree {
    evt.field("type"@)
}

proof fn lemma_kinds()
    ensures
        "message_start"@ != "content_block_start"@,
        "message_start"@ != "content_block_delta"@,
        "message_start"@ != "message_delta"@,
        "content_block_start"@ != "content_block_delta"@,
        "content_block_start"@ != "message_delta"@,
        "content_block_delta"@ != "message_delta"@,
        "text_delta"@ != "input_json_delta"@,
{
    reveal_strlit("message_start");
    reveal_strlit("content_block_start");
    reveal_strlit("content_block_delta");
    reveal_strlit("message_delta");
    reveal_strlit("text_delta");
    reveal_strlit("input_json_delta");
    assert("message_start"@.len() != "content_block_start"@.len());
    assert("message_start"@.len() != "content_block_delta"@.len());
    assert("message_start"@[8] != "message_delta"@[8]);
    assert("content_block_start"@[14] != "content_block_delta"@[14]);
    assert("content_block_start"@.len() != "message_delta"@.len());
    assert("content_block_delta"@.len() != "message_delta"@.len());
    assert("text_delta"@.len() != "input_json_delta"@.len());
}

/// The beginning of a tool block puts a call without arguments, with its
/// identifier and its name, at the position of the event and leaves every other
/// block as it was; neither the text nor the counts change.
pub proof fn law_tool_block_begins_at_its_place(a: AssemblyView, evt: JsonTree)
    requires
        kind(evt) == JsonTree::Str("content_block_start"@),
        kind(evt.field("content_block"@)) == JsonTree::Str("tool_use"@),
        evt.field("content_block"@).field("id"@) is Str,
        evt.field("content_block"@).field("name"@) is Str,
    ensures
        ({
            let i = place(evt);
            let after = with_event(a, evt);
            &&& after.content == a.content
            &&& after.input_tokens == a.input_tokens
            &&& after.output_tokens == a.output_tokens
            &&& i < after.blocks.len()
            &&& after.blocks[i].is_tool
            &&& after.blocks[i].id == evt.field("content_block"@).field("id"@)->Str_0
            &&& after.blocks[i].name == evt.field("content_block"@).field("name"@)->Str_0
            &&& after.blocks[i].json.len() == 0
            &&& forall|j: int|
                #![trigger after.blocks[j]]
                #![trigger a.blocks[j]]
                0 <= j < a.blocks.len() && j != i ==> after.blocks[j] == a.blocks[j]
            &&& forall|j: int|
                #![trigger after.blocks[j]]
                a.blocks.len() <= j < after.blocks.len() && j != i ==> !after.blocks[j].is_tool
        }),
{
    lemma_kinds();
}

/// A piece of arguments is added to those of the block at the position of the
/// event; every other block, the text and the counts stay.
pub proof fn law_arguments_grow_at_their_place(a: AssemblyView, evt: JsonTree)
    requires
        kind(evt) == JsonTree::Str("content_block_delta"@),
        kind(evt.field("delta"@)) == JsonTree::Str("input_json_delta"@),
        evt.field("delta"@).field("partial_json"@) is Str,
        place(evt) < a.blocks.len(),
    ensures
        ({
            let i = place(evt);
            let after = with_event(a, evt);
            &&& after.content == a.content
            &&& after.input_tokens == a.input_tokens
            &&& after.output_tokens == a.output_tokens
            &&& after.blocks.len() == a.blocks.len()
            &&& after.blocks[i].json == a.blocks[i].json + evt.field("delta"@).field(
                "partial_json"@,
            )->Str_0
            &&& after.blocks[i].id == a.blocks[i].id
            &&& after.blocks[i].name == a.blocks[i].name
            &&& after.blocks[i].is_tool == a.blocks[i].is_tool
            &&& forall|j: int|
                #![trigger after.blocks[j]]
                0 <= j < a.blocks.len() && j != i ==> after.blocks[j] == a.blocks[j]
        }),
{
    lemma_kinds();
}

/// A piece of text is added to the content, and nothing else changes.
pub proof fn law_text_is_added(a: AssemblyView, evt: JsonTree)
    requires
        kind(evt) == JsonTree::Str("content_block_delta"@),
        kind(evt.field("delta"@)) == JsonTree::Str("text_delta"@),
        evt.field("delta"@).field("text"@) is Str,
    ensures
        with_event(a, evt).content == a.content + evt.field("delta"@).field("text"@)->Str_0,
        with_event(a, evt).blocks == a.blocks,
        with_event(a, evt).input_tokens == a.input_tokens,
        with_event(a, evt).output_tokens == a.output_tokens,
{
    lemma_kinds();
}

/// The number of tokens of the request comes with the first event, that of the
/// answer with the last; neither event changes anything else.
pub proof fn law_token_counts_of_a_stream(a: AssemblyView, evt: JsonTree, n: u32)
    ensures
        kind(evt) == JsonTree::Str("message_start"@) && evt.field("message"@).field("usage"@).field(
            "input_tokens"@,
        ) == JsonTree::UInt(n as u64) ==> with_event(a, evt) == (AssemblyView {
            input_tokens: n,
            ..a
        }),
        kind(evt) == JsonTree::Str("message_delta"@) && evt.field("usage"@).field("output_tokens"@)
            == JsonTree::UInt(n as u64) ==> with_event(a, evt) == (AssemblyView {
            output_tokens: n,
            ..a
        }),
{
    lemma_kinds();
}

/// Events of other kinds change nothing.
pub proof fn law_other_events_change_nothing(a: AssemblyView, evt: JsonTree)
    requires
        kind(evt) != JsonTree::Str("message_start"@),
        kind(evt) != JsonTree::Str("content_block_start"@),
        kind(evt) != JsonTree::Str("content_block_delta"@),
        kind(evt) != JsonTree::Str("message_delta"@),
    ensures
        with_event(a, evt) == a,
{
}

/// A stream is taken one event after the other, from nothing.
pub proof fn law_stream_is_taken_in_order(events: Seq<JsonTree>, evt: JsonTree)
    ensures
        events.len() == 0 ==> {
            &&& assembled(events).content.len() == 0
            &&& assembled(events).blocks.len() == 0
            &&& assembled(events).input_tokens == 0
            &&& assembled(events).output_tokens == 0
        },
        assembled(events.push(evt)) == with_event(assembled(events), evt),
{
    assert(events.push(evt).drop_last() =~= events);
}

/// How many of the first `n` blocks are calls with a name.
pub open spec fn named(blocks: Seq<BlockView>, n: int) -> int
    decreases n,
{
    if n <= 0 {
        0
    } else {
        named(blocks, n - 1) + (if blocks[n - 1].is_tool && blocks[n - 1].name.len() > 0 {
            1int
        } else {
            0
        })
    }
}

proof fn lemma_named_of_front(blocks: Seq<BlockView>, n: int)
    requires
        0 <= n < blocks.len(),
    ensures
        named(blocks.drop_last(), n) == named(blocks, n),
    decreases n,
{
    if n > 0 {
        lemma_named_of_front(blocks, n - 1);
    }
}

/// The finished calls are the tool blocks that have a name, in order: the id
/// and the name are those of the block, the arguments what its pieces together
/// are read as, null where they are no JSON.
pub proof fn law_finished_calls(blocks: Seq<BlockView>, k: int)
    ensures
        finished_calls(blocks).len() == named(blocks, blocks.len() as int),
        0 <= k < blocks.len() && blocks[k].is_tool && blocks[k].name.len() > 0 ==> {
            let at = named(blocks, k);
            &&& 0 <= at < finished_calls(blocks).len()
            &&& finished_calls(blocks)[at].id == blocks[k].id
            &&& finished_calls(blocks)[at].name == blocks[k].name
            &&& json_parse(blocks[k].json) matches Some(t)
                ==> finished_calls(blocks)[at].arguments == t
            &&& json_parse(blocks[k].json) is None ==> finished_calls(blocks)[at].arguments is Null
        },
    decreases blocks.len(),
{
    if blocks.len() > 0 {
        let front = blocks.drop_last();
        law_finished_calls(front, k);
        lemma_named_of_front(blocks, front.len() as int);
        if 0 <= k < front.len() {
            lemma_named_of_front(blocks, k);
        }
    }
}

/// A finished answer has the text that was assembled, and the token counts with
/// their sum exactly if one of them is not zero.
pub proof fn law_finished_answer(a: AssemblyView)
    requires
        a.input_tokens + a.output_tokens <= u32::MAX,
    ensures
        finished(a).content == a.content,
        finished(a).tool_calls == finished_calls(a.blocks),
        finished(a).reasoning_content is None,
        finished(a).usage is None <==> a.input_tokens == 0 && a.output_tokens == 0,
        finished(a).usage matches Some(u) ==> u.prompt_tokens == a.input_tokens
            && u.completion_tokens == a.output_tokens && u.total_tokens == a.input_tokens
            + a.output_tokens,
{
}

} // verus!
