//! What a streamed answer holds, told from the chunks it came in.
use vstd::prelude::*;
use crate::json::{json_parse, JsonTree};
use crate::providers::openai_proto::{
    assembled, finished, finished_calls, usage_of, with_chunk, with_fragment, with_fragments,
    AssemblyView, CallParts,
};

verus! {

/// The position of the call that a fragment belongs to: its member `index`, the
/// first one where there is none.
pub open spec fn place(tc: JsonTree) -> int {
    match tc.field("index"@) {
        JsonTree::UInt(n) => n as int,
        _ => 0,
    }
}

/// The fragments of a chunk.
pub open spec fn chunk_fragments(chunk: JsonTree) -> Seq<JsonTree> {
    match chunk.field("choices"@).item(0).field("delta"@).field("tool_calls"@) {
        JsonTree::Arr(items) => items,
        _ => Seq::empty(),
    }
}

/// The fragments of a stream of chunks, in order.
pub open spec fn fragments(chunks: Seq<JsonTree>) -> Seq<JsonTree>
    decreases chunks.len(),
{
    if chunks.len() == 0 {
        Seq::empty()
    } else {
        fragments(chunks.drop_last()) + chunk_fragments(chunks.last())
    }
}

/// The pieces of the arguments among the fragments of call `i`, one after the
/// other.
pub open spec fn argument_pieces(items: Seq<JsonTree>, i: int) -> Seq<char>
    decreases items.len(),
{
    if items.len() == 0 {
        Seq::empty()
    } else {
        let before = argument_pieces(items.drop_last(), i);
        match items.last().field("function"@).field("arguments"@) {
            JsonTree::Str(t) => if place(items.last()) == i {
                before + t
            } else {
                before
            },
            _ => before,
        }
    }
}

/// A fragment gives call `i` an id.
pub open spec fn gives_id(tc: JsonTree, i: int) -> bool {
    &&& place(tc) == i
    &&& tc.field("id"@) is Str
    &&& tc.field("id"@)->Str_0.len() > 0
}

/// A fragment gives call `i` a name.
pub open spec fn gives_name(tc: JsonTree, i: int) -> bool {
    &&& place(tc) == i
    &&& tc.field("function"@).field("name"@) is Str
    &&& tc.field("function"@).field("name"@)->Str_0.len() > 0
}

/// `id` is the last id that is not empty among the fragments of call `i`, and
/// empty if none has one.
pub open spec fn is_last_id(items: Seq<JsonTree>, i: int, id: Seq<char>) -> bool {
    ||| id.len() == 0 && forall|k: int| 0 <= k < items.len() ==> !gives_id(#[trigger] items[k], i)
    ||| exists|k: int|
        {
            &&& 0 <= k < items.len()
            &&& gives_id(#[trigger] items[k], i)
            &&& items[k].field("id"@) == JsonTree::Str(id)
            &&& forall|j: int| k < j < items.len() ==> !gives_id(#[trigger] items[j], i)
        }
}

/// `name` is the last name that is not empty among the fragments of call `i`,
/// and empty if none has one.
pub open spec fn is_last_name(items: Seq<JsonTree>, i: int, name: Seq<char>) -> bool {
    ||| name.len() == 0 && forall|k: int|
        0 <= k < items.len() ==> !gives_name(#[trigger] items[k], i)
    ||| exists|k: int|
        {
            &&& 0 <= k < items.len()
            &&& gives_name(#[trigger] items[k], i)
            &&& items[k].field("function"@).field("name"@) == JsonTree::Str(name)
            &&& forall|j: int| k < j < items.len() ==> !gives_name(#[trigger] items[j], i)
        }
}

/// A fragment changes the call at its own position only: every other call that
/// was there stays, and calls that are new in between are empty. Its arguments
/// are added to those of the call, its id and its name, where they are not
/// empty, replace those of the call.
pub proof fn law_fragment_changes_its_call_only(calls: Seq<CallParts>, tc: JsonTree)
    ensures
        ({
            let i = place(tc);
            let after = with_fragment(calls, tc);
            let f = tc.field("function"@);
            &&& after.len() == if i < calls.len() {
                calls.len() as int
            } else {
                i + 1
            }
            &&& forall|j: int|
                #![trigger after[j]]
                #![trigger calls[j]]
                0 <= j < calls.len() && j != i ==> after[j] == calls[j]
            &&& forall|j: int|
                #![trigger after[j]]
                calls.len() <= j < after.len() && j != i ==> after[j].id.len() == 0
                    && after[j].name.len() == 0 && after[j].arguments.len() == 0
            &&& after[i].arguments == (if i < calls.len() {
                calls[i].arguments
            } else {
                Seq::empty()
            }) + (match f.field("arguments"@) {
                JsonTree::Str(t) => t,
                _ => Seq::empty(),
            })
            &&& after[i].id == match tc.field("id"@) {
                JsonTree::Str(t) if t.len() > 0 => t,
                _ => if i < calls.len() {
                    calls[i].id
                } else {
                    Seq::empty()
                },
            }
            &&& after[i].name == match f.field("name"@) {
                JsonTree::Str(t) if t.len() > 0 => t,
                _ => if i < calls.len() {
                    calls[i].name
                } else {
                    Seq::empty()
                },
            }
        }),
{
}

/// After any fragments the arguments of call `i` are the pieces for it one
/// after the other, and its id and its name the last ones given for it.
pub proof fn law_fragments_of_a_call(items: Seq<JsonTree>, i: int)
    requires
        0 <= i,
    ensures
        ({
            let calls = with_fragments(Seq::empty(), items);
            &&& i < calls.len() ==> {
                &&& calls[i].arguments == argument_pieces(items, i)
                &&& is_last_id(items, i, calls[i].id)
                &&& is_last_name(items, i, calls[i].name)
            }
            &&& i >= calls.len() ==> forall|k: int|
                0 <= k < items.len() ==> place(#[trigger] items[k]) != i
        }),
    decreases items.len(),
{
    if items.len() > 0 {
        let front = items.drop_last();
        let tc = items.last();
        let before = with_fragments(Seq::empty(), front);
        let calls = with_fragments(Seq::empty(), items);
        law_fragments_of_a_call(front, i);
        law_fragment_changes_its_call_only(before, tc);
        assert forall|k: int| 0 <= k < front.len() implies front[k] == items[k] by {}
        if i >= before.len() {
            lemma_no_pieces(front, i);
            assert(is_last_id(front, i, Seq::empty()));
            assert(is_last_name(front, i, Seq::empty()));
        }
        if i < calls.len() {
            let old_id = if i < before.len() {
                before[i].id
            } else {
                Seq::empty()
            };
            let old_name = if i < before.len() {
                before[i].name
            } else {
                Seq::empty()
            };
            assert(is_last_id(front, i, old_id));
            assert(is_last_name(front, i, old_name));
            lemma_last_id(items, i, old_id, calls[i].id);
            lemma_last_name(items, i, old_name, calls[i].name);
        }
    }
}

proof fn lemma_no_pieces(items: Seq<JsonTree>, i: int)
    requires
        forall|k: int| 0 <= k < items.len() ==> place(#[trigger] items[k]) != i,
    ensures
        argument_pieces(items, i).len() == 0,
        argument_pieces(items, i) == Seq::<char>::empty(),
    decreases items.len(),
{
    if items.len() > 0 {
        assert forall|k: int| 0 <= k < items.drop_last().len() implies place(
            #[trigger] items.drop_last()[k],
        ) != i by {
            assert(items.drop_last()[k] == items[k]);
        }
        lemma_no_pieces(items.drop_last(), i);
        assert(place(items[items.len() - 1]) != i);
    }
}

proof fn lemma_last_id(items: Seq<JsonTree>, i: int, before: Seq<char>, after: Seq<char>)
    requires
        items.len() > 0,
        is_last_id(items.drop_last(), i, before),
        after == (if gives_id(items.last(), i) {
            items.last().field("id"@)->Str_0
        } else {
            before
        }),
    ensures
        is_last_id(items, i, after),
{
    let front = items.drop_last();
    let n = items.len() - 1;
    assert(items.last() == items[n]);
    assert forall|k: int| 0 <= k < n implies front[k] == items[k] by {}
    if !gives_id(items[n], i) {
        if exists|k: int|
            {
                &&& 0 <= k < front.len()
                &&& gives_id(#[trigger] front[k], i)
                &&& front[k].field("id"@) == JsonTree::Str(before)
                &&& forall|j: int| k < j < front.len() ==> !gives_id(#[trigger] front[j], i)
            } {
            let k = choose|k: int|
                {
                    &&& 0 <= k < front.len()
                    &&& gives_id(#[trigger] front[k], i)
                    &&& front[k].field("id"@) == JsonTree::Str(before)
                    &&& forall|j: int| k < j < front.len() ==> !gives_id(#[trigger] front[j], i)
                };
            assert(gives_id(items[k], i));
            assert forall|j: int| k < j < items.len() implies !gives_id(#[trigger] items[j], i) by {
                if j < n {
                    assert(front[j] == items[j]);
                }
            }
        } else {
            assert forall|k: int| 0 <= k < items.len() implies !gives_id(#[trigger] items[k], i) by {
                if k < n {
                    assert(front[k] == items[k]);
                }
            }
        }
    }
}

proof fn lemma_last_name(items: Seq<JsonTree>, i: int, before: Seq<char>, after: Seq<char>)
    requires
        items.len() > 0,
        is_last_name(items.drop_last(), i, before),
        after == (if gives_name(items.last(), i) {
            items.last().field("function"@).field("name"@)->Str_0
        } else {
            before
        }),
    ensures
        is_last_name(items, i, after),
{
    let front = items.drop_last();
    let n = items.len() - 1;
    assert(items.last() == items[n]);
    assert forall|k: int| 0 <= k < n implies front[k] == items[k] by {}
    if !gives_name(items[n], i) {
        if exists|k: int|
            {
                &&& 0 <= k < front.len()
                &&& gives_name(#[trigger] front[k], i)
                &&& front[k].field("function"@).field("name"@) == JsonTree::Str(before)
                &&& forall|j: int| k < j < front.len() ==> !gives_name(#[trigger] front[j], i)
            } {
            let k = choose|k: int|
                {
                    &&& 0 <= k < front.len()
                    &&& gives_name(#[trigger] front[k], i)
                    &&& front[k].field("function"@).field("name"@) == JsonTree::Str(before)
                    &&& forall|j: int| k < j < front.len() ==> !gives_name(#[trigger] front[j], i)
                };
            assert(gives_name(items[k], i));
            assert forall|j: int| k < j < items.len() implies !gives_name(
                #[trigger] items[j],
                i,
            ) by {
                if j < n {
                    assert(front[j] == items[j]);
                }
            }
        } else {
            assert forall|k: int| 0 <= k < items.len() implies !gives_name(
                #[trigger] items[k],
                i,
            ) by {
                if k < n {
                    assert(front[k] == items[k]);
                }
            }
        }
    }
}

/// Fragments that arrive one after the other are taken as if they had arrived
/// together.
pub proof fn law_fragments_add_up(calls: Seq<CallParts>, a: Seq<JsonTree>, b: Seq<JsonTree>)
    ensures
        with_fragments(with_fragments(calls, a), b) == with_fragments(calls, a + b),
    decreases b.len(),
{
    if b.len() == 0 {
        assert(a + b =~= a);
    } else {
        assert((a + b).drop_last() =~= a + b.drop_last());
        law_fragments_add_up(calls, a, b.drop_last());
    }
}

proof fn lemma_calls_of_a_stream(chunks: Seq<JsonTree>)
    ensures
        assembled(chunks).tool_calls == with_fragments(Seq::empty(), fragments(chunks)),
    decreases chunks.len(),
{
    if chunks.len() > 0 {
        lemma_calls_of_a_stream(chunks.drop_last());
        law_fragments_add_up(
            Seq::empty(),
            fragments(chunks.drop_last()),
            chunk_fragments(chunks.last()),
        );
        assert(fragments(chunks.drop_last()) + Seq::<JsonTree>::empty() =~= fragments(
            chunks.drop_last(),
        ));
    }
}

/// In a streamed answer the arguments of call `i` are the pieces of arguments
/// with the index `i` one after the other, and its id and its name are the last
/// ones with that index that are not empty; a call is there for every index
/// that a fragment has.
pub proof fn law_calls_of_a_stream(chunks: Seq<JsonTree>, i: int)
    requires
        0 <= i,
    ensures
        ({
            let calls = assembled(chunks).tool_calls;
            let items = fragments(chunks);
            &&& i < calls.len() ==> {
                &&& calls[i].arguments == argument_pieces(items, i)
                &&& is_last_id(items, i, calls[i].id)
                &&& is_last_name(items, i, calls[i].name)
            }
            &&& i >= calls.len() ==> forall|k: int|
                0 <= k < items.len() ==> place(#[trigger] items[k]) != i
        }),
{
    lemma_calls_of_a_stream(chunks);
    law_fragments_of_a_call(fragments(chunks), i);
}

/// How many of the first `n` calls have a name.
pub open spec fn named(parts: Seq<CallParts>, n: int) -> int
    decreases n,
{
    if n <= 0 {
        0
    } else {
        named(parts, n - 1) + (if parts[n - 1].name.len() > 0 {
            1int
        } else {
            0
        })
    }
}

/// The finished calls are those that have a name, in order: the id and the name
/// are those of the call, the arguments what its arguments are read as, null
/// where they are no JSON.
pub proof fn law_finished_calls(parts: Seq<CallParts>, k: int)
    ensures
        finished_calls(parts).len() == named(parts, parts.len() as int),
        0 <= k < parts.len() && parts[k].name.len() > 0 ==> {
            let at = named(parts, k);
            &&& 0 <= at < finished_calls(parts).len()
            &&& finished_calls(parts)[at].id == parts[k].id
            &&& finished_calls(parts)[at].name == parts[k].name
            &&& json_parse(parts[k].arguments) matches Some(t)
                ==> finished_calls(parts)[at].arguments == t
            &&& json_parse(parts[k].arguments) is None ==> finished_calls(parts)[at].arguments
                is Null
        },
    decreases parts.len(),
{
    if parts.len() > 0 {
        let front = parts.drop_last();
        law_finished_calls(front, k);
        lemma_named_of_front(parts, front.len() as int);
        if 0 <= k < front.len() {
            lemma_named_of_front(parts, k);
        }
        lemma_named_grows(parts, 0, if 0 <= k <= parts.len() { k } else { 0 });
    }
}

proof fn lemma_named_of_front(parts: Seq<CallParts>, n: int)
    requires
        0 <= n < parts.len(),
    ensures
        named(parts.drop_last(), n) == named(parts, n),
    decreases n,
{
    if n > 0 {
        lemma_named_of_front(parts, n - 1);
    }
}

proof fn lemma_named_grows(parts: Seq<CallParts>, a: int, b: int)
    requires
        0 <= a <= b,
    ensures
        named(parts, a) <= named(parts, b),
    decreases b - a,
{
    if a < b {
        lemma_named_grows(parts, a, b - 1);
    }
}

/// A finished answer has the content and the token counts of the assembly.
pub proof fn law_finished_answer(a: AssemblyView)
    ensures
        finished(a).content == a.content,
        finished(a).usage == a.usage,
        finished(a).reasoning_content is None,
        finished(a).tool_calls == finished_calls(a.tool_calls),
{
}

/// A chunk adds its text to the content; its token counts, if it has any,
/// replace those of before; a chunk without fragments leaves the calls alone.
pub proof fn law_chunk(a: AssemblyView, chunk: JsonTree)
    ensures
        with_chunk(a, chunk).content == a.content + (match chunk.field("choices"@).item(0).field(
            "delta"@,
        ).field("content"@) {
            JsonTree::Str(t) => t,
            _ => Seq::empty(),
        }),
        !(chunk.field("usage"@) is Obj) ==> with_chunk(a, chunk).usage == a.usage,
        chunk.field("usage"@) is Obj ==> with_chunk(a, chunk).usage is Some && with_chunk(
            a,
            chunk,
        ).usage == usage_of(chunk),
        chunk_fragments(chunk).len() == 0 ==> with_chunk(a, chunk).tool_calls == a.tool_calls,
{
}

/// The token counts of an answer are those that it names, zero where it names
/// none; there are counts exactly if there is an object of them.
pub proof fn law_usage_of_an_answer(data: JsonTree, p: u64, c: u64, t: u64)
    ensures
        usage_of(data) is Some <==> data.field("usage"@) is Obj,
        usage_of(data) matches Some(u) ==> {
            let o = data.field("usage"@);
            &&& o.field("prompt_tokens"@) == JsonTree::UInt(p) && p <= u32::MAX ==> u.prompt_tokens
                == p
            &&& o.field("completion_tokens"@) == JsonTree::UInt(c) && c <= u32::MAX
                ==> u.completion_tokens == c
            &&& o.field("total_tokens"@) == JsonTree::UInt(t) && t <= u32::MAX ==> u.total_tokens
                == t
            &&& !(o.field("prompt_tokens"@) is UInt) ==> u.prompt_tokens == 0
            &&& !(o.field("completion_tokens"@) is UInt) ==> u.completion_tokens == 0
            &&& !(o.field("total_tokens"@) is UInt) ==> u.total_tokens == 0
        },
{
}

} // verus!
