//! What is sent to the providers that speak the protocol of OpenAI and to
//! Ollama, and what their answers say, told from the fields of the JSON.
use vstd::prelude::*;
use crate::json::{json_parse, json_text, JsonTree};
use crate::model::provider::{ChatMessage, ToolSpec};
use crate::providers::deepseek::{plain_answer_of, plain_body_tree};
use crate::providers::groq::transcript_of;
use crate::providers::http::{base_of, listed_models, names_under, plain_messages_tree, retry_after};
use crate::providers::openai::{answer_of, bearer, body_tree};
use crate::providers::ollama;
use crate::providers::openai_compat;
use crate::providers::openai_proto::{
    delta_text, indexes_fit, message_calls, message_tree, messages_tree, parsed_call, parsed_calls,
    read_lines, split_line, sse_data, tool_tree, usage_of, with_chunk, AssemblyView,
};
use crate::providers::openrouter::optional_header;
use crate::providers::registry::{made_by, registry_table, AnyProvider, FactoryView, SpecView};
use crate::providers::router::{answers_to, resolved, resolved_from};
use crate::text::{is_white, nat_text, opt_string, starts_with, trim, trim_start};
use crate::text_laws::{law_numbers_are_read_back, law_trim_char};

verus! {

/// The elements of a value, none where it is no array.
pub open spec fn elements(t: JsonTree) -> Seq<JsonTree> {
    match t {
        JsonTree::Arr(s) => s,
        _ => Seq::empty(),
    }
}

proof fn lemma_role_content()
    ensures
        "role"@ != "content"@,
        "role"@ != "tool_calls"@,
        "role"@ != "tool_call_id"@,
        "content"@ != "tool_calls"@,
        "content"@ != "tool_call_id"@,
        "id"@ != "type"@,
        "id"@ != "function"@,
        "type"@ != "function"@,
        "name"@ != "arguments"@,
        "type"@ != "text"@,
        "type"@ != "image_url"@,
        "name"@ != "description"@,
        "name"@ != "parameters"@,
        "description"@ != "parameters"@,
{
    reveal_strlit("role");
    reveal_strlit("content");
    reveal_strlit("tool_calls");
    reveal_strlit("tool_call_id");
    reveal_strlit("id");
    reveal_strlit("type");
    reveal_strlit("function");
    reveal_strlit("name");
    reveal_strlit("arguments");
    reveal_strlit("text");
    reveal_strlit("image_url");
    reveal_strlit("description");
    reveal_strlit("parameters");
    assert("role"@.len() == 4 && "content"@.len() == 7 && "tool_calls"@.len() == 10);
    assert("tool_call_id"@.len() == 12 && "id"@.len() == 2 && "type"@.len() == 4);
    assert("function"@.len() == 8 && "name"@.len() == 4 && "arguments"@.len() == 9);
    assert("text"@.len() == 4 && "type"@[1] != "text"@[1]);
    assert("image_url"@.len() == 9 && "description"@.len() == 11 && "parameters"@.len() == 10);
}

/// A tool result is sent with the identifier of its call and what the tool
/// returned.
pub proof fn law_result_fields(m: ChatMessage)
    requires
        m.tool_call_id is Some,
    ensures
        message_tree(m).field("role"@) == JsonTree::Str("tool"@),
        message_tree(m).field("tool_call_id"@) == JsonTree::Str(m.tool_call_id->0@),
        message_tree(m).field("content"@) == JsonTree::Str(m.content@),
{
    lemma_role_content();
}

/// A turn that calls tools is the assistant's: its text, null where it is
/// empty, and each call with its identifier, its name and its arguments as JSON
/// in a string.
pub proof fn law_calling_turn_fields(m: ChatMessage, k: int)
    requires
        m.tool_call_id is None,
        m.tool_calls@.len() > 0,
    ensures
        ({
            let t = message_tree(m);
            let calls = elements(t.field("tool_calls"@));
            &&& t.field("role"@) == JsonTree::Str("assistant"@)
            &&& t.field("content"@) == (if m.content@.len() == 0 {
                JsonTree::Null
            } else {
                JsonTree::Str(m.content@)
            })
            &&& calls.len() == m.tool_calls@.len()
            &&& 0 <= k < calls.len() ==> {
                let c = m.tool_calls@[k];
                &&& calls[k].field("id"@) == JsonTree::Str(c.id@)
                &&& calls[k].field("type"@) == JsonTree::Str("function"@)
                &&& calls[k].field("function"@).field("name"@) == JsonTree::Str(c.name@)
                &&& calls[k].field("function"@).field("arguments"@) == JsonTree::Str(
                    json_text(c.arguments@),
                )
            }
        }),
{
    lemma_role_content();
}

/// A turn with images has its role, its text first if it is not empty, and then
/// each image as a data address with its media type and its data.
pub proof fn law_image_turn_fields(m: ChatMessage, k: int)
    requires
        m.tool_call_id is None,
        m.tool_calls@.len() == 0,
        m.images@.len() > 0,
    ensures
        ({
            let t = message_tree(m);
            let parts = elements(t.field("content"@));
            let lead: int = if m.content@.len() == 0 {
                0
            } else {
                1
            };
            &&& t.field("role"@) == JsonTree::Str(m.role@)
            &&& parts.len() == lead + m.images@.len()
            &&& lead == 1 ==> parts[0].field("type"@) == JsonTree::Str("text"@)
                && parts[0].field("text"@) == JsonTree::Str(m.content@)
            &&& 0 <= k < m.images@.len() ==> {
                let i = m.images@[k];
                &&& parts[lead + k].field("type"@) == JsonTree::Str("image_url"@)
                &&& parts[lead + k].field("image_url"@).field("url"@) == JsonTree::Str(
                    "data:"@ + i.media_type@ + ";base64,"@ + i.data_base64@,
                )
            }
        }),
{
    lemma_role_content();
}

/// Any other turn is its role and its text.
pub proof fn law_plain_turn_fields(m: ChatMessage)
    requires
        m.tool_call_id is None,
        m.tool_calls@.len() == 0,
        m.images@.len() == 0,
    ensures
        message_tree(m).field("role"@) == JsonTree::Str(m.role@),
        message_tree(m).field("content"@) == JsonTree::Str(m.content@),
{
    lemma_role_content();
}

/// The turns of the history are sent one by one in their order, behind the
/// system prompt where there is one.
pub proof fn law_turns_are_sent_in_order(
    messages: Seq<ChatMessage>,
    system: Option<&str>,
    i: int,
)
    ensures
        ({
            let sent = messages_tree(messages, system);
            let lead: int = if system is Some {
                1
            } else {
                0
            };
            &&& sent.len() == lead + messages.len()
            &&& 0 <= i < messages.len() ==> sent[lead + i] == message_tree(messages[i])
            &&& system matches Some(s) ==> sent[0].field("role"@) == JsonTree::Str("system"@)
                && sent[0].field("content"@) == JsonTree::Str(s@)
        }),
{
    lemma_role_content();
}

/// The same holds where turns are sent by their roles and texts alone.
pub proof fn law_plain_turns_are_sent_in_order(
    messages: Seq<ChatMessage>,
    system: Option<&str>,
    i: int,
)
    ensures
        ({
            let sent = plain_messages_tree(messages, system);
            let lead: int = if system is Some {
                1
            } else {
                0
            };
            &&& sent.len() == lead + messages.len()
            &&& 0 <= i < messages.len() ==> sent[lead + i].field("role"@) == JsonTree::Str(
                messages[i].role@,
            ) && sent[lead + i].field("content"@) == JsonTree::Str(messages[i].content@)
            &&& system matches Some(s) ==> sent[0].field("role"@) == JsonTree::Str("system"@)
                && sent[0].field("content"@) == JsonTree::Str(s@)
        }),
{
    lemma_role_content();
}

/// A tool is described by its name, its description and the schema of its
/// parameters.
pub proof fn law_tool_fields(t: ToolSpec)
    ensures
        tool_tree(t).field("type"@) == JsonTree::Str("function"@),
        tool_tree(t).field("function"@).field("name"@) == JsonTree::Str(t.name@),
        tool_tree(t).field("function"@).field("description"@) == JsonTree::Str(t.description@),
        tool_tree(t).field("function"@).field("parameters"@) == t.parameters@,
{
    lemma_role_content();
}

proof fn lemma_body_keys()
    ensures
        "model"@ != "messages"@,
        "model"@ != "temperature"@,
        "model"@ != "tools"@,
        "model"@ != "stream"@,
        "model"@ != "options"@,
        "messages"@ != "temperature"@,
        "messages"@ != "tools"@,
        "messages"@ != "stream"@,
        "messages"@ != "options"@,
        "temperature"@ != "tools"@,
        "stream"@ != "options"@,
{
    reveal_strlit("model");
    reveal_strlit("messages");
    reveal_strlit("temperature");
    reveal_strlit("tools");
    reveal_strlit("stream");
    reveal_strlit("options");
    assert("model"@.len() == 5 && "messages"@.len() == 8 && "temperature"@.len() == 11);
    assert("tools"@.len() == 5 && "model"@[0] != "tools"@[0]);
    assert("stream"@.len() == 6 && "options"@.len() == 7);
}

/// The body of a request names the model, the turns and the temperature, and
/// the tools in their order where there are any.
pub proof fn law_body_fields(
    model: Seq<char>,
    temperature: JsonTree,
    messages: Seq<ChatMessage>,
    system: Option<&str>,
    tools: Seq<ToolSpec>,
    i: int,
)
    ensures
        ({
            let b = body_tree(model, temperature, messages, system, tools);
            &&& b.field("model"@) == JsonTree::Str(model)
            &&& b.field("messages"@) == JsonTree::Arr(messages_tree(messages, system))
            &&& b.field("temperature"@) == temperature
            &&& tools.len() == 0 ==> b.field("tools"@) is Null
            &&& tools.len() > 0 ==> elements(b.field("tools"@)).len() == tools.len()
            &&& 0 <= i < tools.len() ==> elements(b.field("tools"@))[i] == tool_tree(tools[i])
        }),
        ({
            let b = plain_body_tree(model, temperature, messages, system);
            &&& b.field("model"@) == JsonTree::Str(model)
            &&& b.field("messages"@) == JsonTree::Arr(plain_messages_tree(messages, system))
            &&& b.field("temperature"@) == temperature
        }),
        ({
            let b = ollama::body_tree(model, temperature, messages, system);
            &&& b.field("model"@) == JsonTree::Str(model)
            &&& b.field("messages"@) == JsonTree::Arr(plain_messages_tree(messages, system))
            &&& b.field("stream"@) == JsonTree::Bool(false)
            &&& b.field("options"@).field("temperature"@) == temperature
        }),
{
    lemma_body_keys();
}

/// A key is sent as it is behind the word `Bearer`; without one no header is
/// sent.
pub proof fn law_key_header(key: Option<Seq<char>>)
    ensures
        key matches Some(k) ==> bearer(key).len() == 1 && bearer(key)[0].0 == "Authorization"@
            && bearer(key)[0].1 == "Bearer "@ + k,
        key is None ==> bearer(key).len() == 0,
{
}

/// Requests start from the given address, else from the usual one, without the
/// slashes at its end.
pub proof fn law_base_address(url: Option<Seq<char>>, usual: Seq<char>)
    ensures
        ({
            let given = match url {
                Some(u) => u,
                None => usual,
            };
            let base = base_of(url, usual);
            &&& starts_with(given, base)
            &&& base.len() > 0 ==> base.last() != '/'
            &&& forall|i: int| base.len() <= i < given.len() ==> #[trigger] given[i] == '/'
        }),
{
    let given = match url {
        Some(u) => u,
        None => usual,
    };
    law_trim_char(given, '/');
}

/// A pause that the provider asks for is the number in its header.
pub proof fn law_retry_after(n: u64)
    ensures
        retry_after(Some(nat_text(n as nat))) == Some(n as nat),
        retry_after(None) is None,
{
    law_numbers_are_read_back(n as int, n as int);
}

// ---- answers ----

/// The message of an answer.
pub open spec fn first_message(data: JsonTree) -> JsonTree {
    data.field("choices"@).item(0).field("message"@)
}

/// What an answer says is the content of its first message, with the calls of
/// that message and the token counts.
pub proof fn law_answer_fields(data: JsonTree)
    ensures
        first_message(data).field("content"@) matches JsonTree::Str(t) ==> answer_of(data).content
            == t && plain_answer_of(data).content == t,
        !(first_message(data).field("content"@) is Str) ==> answer_of(data).content.len() == 0
            && plain_answer_of(data).content.len() == 0,
        answer_of(data).reasoning_content is None,
        answer_of(data).tool_calls == message_calls(first_message(data)),
        answer_of(data).usage == usage_of(data),
        plain_answer_of(data).tool_calls.len() == 0,
        plain_answer_of(data).usage is None,
        data.field("message"@).field("content"@) matches JsonTree::Str(t) ==> ollama::answer_of(
            data,
        ).content == t,
        ollama::answer_of(data).tool_calls.len() == 0,
{
}

/// Where an answer has a field for the reasoning, that is the reasoning and the
/// content is as it stands.
pub proof fn law_reasoning_field(data: JsonTree, r: Seq<char>)
    requires
        first_message(data).field("reasoning_content"@) == JsonTree::Str(r),
        r.len() > 0,
    ensures
        openai_compat::answer_of(data).reasoning_content == Some(r),
        first_message(data).field("content"@) matches JsonTree::Str(t)
            ==> openai_compat::answer_of(data).content == t,
        openai_compat::answer_of(data).tool_calls == message_calls(first_message(data)),
        openai_compat::answer_of(data).usage == usage_of(data),
{
}

/// A call of an answer has the identifier, the name and the arguments of the
/// element: arguments in a string are what the string is read as.
pub proof fn law_parsed_call(tc: JsonTree)
    ensures
        parsed_call(tc) is Some <==> tc.field("function"@).field("name"@) is Str,
        parsed_call(tc) matches Some(c) ==> {
            let args = tc.field("function"@).field("arguments"@);
            &&& tc.field("function"@).field("name"@) == JsonTree::Str(c.name)
            &&& tc.field("id"@) matches JsonTree::Str(t) ==> c.id == t
            &&& !(tc.field("id"@) is Str) ==> c.id.len() == 0
            &&& args matches JsonTree::Str(t) ==> (json_parse(t) matches Some(v) ==> c.arguments
                == v)
            &&& !(args is Str) ==> c.arguments == args
        },
{
}

/// The calls of a message are those of its elements, in order, without the ones
/// that have no name.
pub proof fn law_parsed_calls(items: Seq<JsonTree>, tc: JsonTree, message: JsonTree)
    ensures
        items.len() == 0 ==> parsed_calls(items).len() == 0,
        parsed_call(tc) matches Some(c) ==> parsed_calls(items.push(tc)) == parsed_calls(
            items,
        ).push(c),
        parsed_call(tc) is None ==> parsed_calls(items.push(tc)) == parsed_calls(items),
        message_calls(message) == parsed_calls(elements(message.field("tool_calls"@))),
{
    assert(items.push(tc).drop_last() =~= items);
}

/// The models that a listing names are the strings under the key, in order; a
/// listing that names none is no listing.
pub proof fn law_listed_models(
    items: Seq<JsonTree>,
    item: JsonTree,
    key: Seq<char>,
    data: JsonTree,
    list: Seq<char>,
)
    ensures
        items.len() == 0 ==> names_under(items, key).len() == 0,
        item.field(key) matches JsonTree::Str(t) ==> names_under(items.push(item), key)
            == names_under(items, key).push(t),
        !(item.field(key) is Str) ==> names_under(items.push(item), key) == names_under(items, key),
        names_under(elements(data.field(list)), key).len() == 0 ==> listed_models(data, list, key)
            is None,
        names_under(elements(data.field(list)), key).len() > 0 ==> listed_models(data, list, key)
            == Some(names_under(elements(data.field(list)), key)),
{
    assert(items.push(item).drop_last() =~= items);
}

// ---- streams ----

/// A line of data: its text is what follows the mark, without white space at
/// its ends; a line that does not begin with the mark has none.
pub proof fn law_data_line(data: Seq<char>, line: Seq<char>)
    ensures
        data.len() > 0 && !is_white(data[0]) && !is_white(data.last()) ==> sse_data(
            "data:"@ + data,
        ) == Some(data) && sse_data("data: "@ + data) == Some(data),
        !starts_with(trim(line), "data:"@) ==> sse_data(line) is None,
{
    if data.len() > 0 && !is_white(data[0]) && !is_white(data.last()) {
        lemma_marked_data(data);
        lemma_trimmed(data);
        let rest = seq![' '] + data;
        assert(rest.drop_first() =~= data);
        assert(trim_start(rest) == trim_start(data));
        lemma_marked_data(rest);
        reveal_strlit("data:");
        reveal_strlit("data: ");
        assert("data: "@ + data =~= "data:"@ + rest);
    }
}

proof fn lemma_trimmed(s: Seq<char>)
    requires
        s.len() > 0,
        !is_white(s[0]),
        !is_white(s.last()),
    ensures
        trim(s) == s,
{
}

proof fn lemma_marked_data(rest: Seq<char>)
    requires
        rest.len() > 0,
        !is_white(rest.last()),
    ensures
        sse_data("data:"@ + rest) == Some(trim(rest)),
{
    reveal_strlit("data:");
    let l = "data:"@ + rest;
    assert(l[0] == 'd');
    assert(l.last() == rest.last());
    lemma_trimmed(l);
    assert(l.take(5) =~= "data:"@);
    assert(l.skip(5) =~= rest);
}

/// The lines of a stream are taken one after the other: a chunk changes the
/// assembly as that chunk does and its text is handed out before those of the
/// rest; a line without data, or with data that is no JSON, changes nothing; at
/// the closing line the stream is done; an incomplete line waits.
pub proof fn law_stream_is_taken_line_by_line(a: AssemblyView, buf: Seq<char>)
    ensures
        split_line(buf) is None ==> {
            let r = read_lines(a, buf);
            r.assembly == a && r.rest == buf && r.deltas.len() == 0 && r.end is Open
        },
        split_line(buf) matches Some((line, rest)) ==> {
            let r = read_lines(a, buf);
            match sse_data(line) {
                None => r == read_lines(a, rest),
                Some(d) => {
                    &&& d == "[DONE]"@ ==> r.assembly == a && r.rest == rest && r.end is Done
                        && r.deltas.len() == 0
                    &&& d != "[DONE]"@ && json_parse(d) is None ==> r == read_lines(a, rest)
                    &&& d != "[DONE]"@ && (json_parse(d) matches Some(chunk) && indexes_fit(chunk))
                        ==> {
                        let chunk = json_parse(d)->0;
                        let next = read_lines(with_chunk(a, chunk), rest);
                        &&& r.assembly == next.assembly
                        &&& r.rest == next.rest
                        &&& r.end == next.end
                        &&& r.deltas == (match delta_text(chunk) {
                            Some(t) => seq![t] + next.deltas,
                            None => next.deltas,
                        })
                    }
                },
            }
        },
{
}

/// The text that a chunk hands out is the content of its first delta.
pub proof fn law_handed_out_text(chunk: JsonTree)
    ensures
        ({
            let c = chunk.field("choices"@).item(0).field("delta"@).field("content"@);
            &&& c matches JsonTree::Str(t) ==> (t.len() > 0 ==> delta_text(chunk) == Some(t))
            &&& delta_text(chunk) matches Some(t) ==> c == JsonTree::Str(t) && t.len() > 0
        }),
{
}

// ---- finding a provider ----

proof fn lemma_resolved(table: Seq<SpecView>, name: Seq<char>, i: int)
    requires
        0 <= i,
    ensures
        match resolved_from(table, name, i) {
            Some(k) => i <= k < table.len() && (table[k].name == name || table[k].aliases.contains(
                name,
            )) && forall|j: int|
                #![trigger table[j]]
                i <= j < k ==> table[j].name != name && !table[j].aliases.contains(name),
            None => forall|j: int|
                #![trigger table[j]]
                i <= j < table.len() ==> table[j].name != name && !table[j].aliases.contains(name),
        },
    decreases table.len() - i,
{
    if i < table.len() && !answers_to(table[i], name) {
        lemma_resolved(table, name, i + 1);
    }
}

/// A name stands for the first provider of the table that has it as its name or
/// among its aliases; it stands for none exactly if no provider has it.
pub proof fn law_name_stands_for_the_first(name: Seq<char>)
    ensures
        match resolved(name) {
            Some(k) => 0 <= k < registry_table().len() && (registry_table()[k].name == name
                || registry_table()[k].aliases.contains(name)) && forall|j: int|
                #![trigger registry_table()[j]]
                0 <= j < k ==> registry_table()[j].name != name
                    && !registry_table()[j].aliases.contains(name),
            None => forall|j: int|
                #![trigger registry_table()[j]]
                0 <= j < registry_table().len() ==> registry_table()[j].name != name
                    && !registry_table()[j].aliases.contains(name),
        },
{
    lemma_resolved(registry_table(), name, 0);
}

/// A provider that is made has the key it is given and starts from the address
/// it is given, else from the usual one of its kind.
pub proof fn law_made_provider(
    p: AnyProvider,
    factory: FactoryView,
    key: Option<Seq<char>>,
    url: Seq<char>,
)
    requires
        made_by(p, factory, key, Some(url)),
        url.len() > 0,
        url.last() != '/',
    ensures
        factory is OpenAi ==> (p matches AnyProvider::OpenAi(x) && opt_string(x.key) == key
            && x.base_url@ == url),
        factory is Anthropic ==> (p matches AnyProvider::Anthropic(x) && opt_string(x.key) == key
            && x.base_url@ == url),
        factory is Ollama ==> (p matches AnyProvider::Ollama(x) && x.base_url@ == url),
        factory is DeepSeek ==> (p matches AnyProvider::DeepSeek(x) && opt_string(x.key) == key
            && x.base_url@ == url),
        factory matches FactoryView::Compat(def) ==> (p matches AnyProvider::Compat(x)
            && opt_string(x.key) == key && x.base_url@ == url && x.def@ == def),
{
}

/// The reasoning in think tags is told apart from the text; white space before
/// either is dropped, and reasoning that is empty is none.
pub proof fn law_stripped_reasoning(s: Seq<char>)
    ensures
        openai_compat::think_stripped(s).0 == trim_start(openai_compat::think_split(s).0),
        openai_compat::think_split(s).1.len() == 0 ==> openai_compat::think_stripped(s).1 is None,
        openai_compat::think_split(s).1.len() > 0 ==> openai_compat::think_stripped(s).1 == Some(
            trim_start(openai_compat::think_split(s).1),
        ),
{
}

/// Where an answer has no field for the reasoning but think tags in its text,
/// the text outside is the content and the text inside the reasoning.
pub proof fn law_reasoning_in_tags(data: JsonTree, raw: Seq<char>, t: Seq<char>)
    requires
        !(first_message(data).field("reasoning_content"@) is Str),
        first_message(data).field("content"@) == JsonTree::Str(raw),
        openai_compat::think_stripped(raw).1 == Some(t),
    ensures
        openai_compat::answer_of(data).content == openai_compat::think_stripped(raw).0,
        openai_compat::answer_of(data).reasoning_content == Some(t),
{
}

/// A transcript is the text of the answer without white space at its ends.
pub proof fn law_transcript(data: JsonTree, t: Seq<char>)
    requires
        data.field("text"@) == JsonTree::Str(t),
    ensures
        transcript_of(data) == trim(t),
{
}

/// A header with a value is sent once, one without is not sent.
pub proof fn law_optional_header(name: Seq<char>, value: Seq<char>)
    ensures
        optional_header(name, Some(value)) == seq![(name, value)],
        optional_header(name, None).len() == 0,
{
}

} // verus!
