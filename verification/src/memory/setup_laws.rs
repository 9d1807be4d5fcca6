//! What a memory is set up as, what its embeddings stand for, and which batches
//! and queries it works on.
use vstd::prelude::*;
use vstd::utf8::encode_utf8;
use crate::json::{json_parse, JsonTree};
use crate::memory::consolidation::{batch_size_of, chunks, planned_batches};
use crate::memory::embeddings::{either, made_for, Embedder, EmbeddingFeatures};
use crate::memory::embeddings::openai::{indexed, ordered, str_trees, EmbedData};
use crate::memory::factory::{planned, MemoryFactoryConfig, MemoryPlan};
use crate::memory::markdown::path_in;
use crate::memory::query::{distinct, found_lists, proposed, sub_queries, unmarked, unmarked_lines};
use crate::memory::ranking::{law_ranked_is_a_descending_permutation, ranked};
use crate::memory::reply::{list_part, string_items};
use crate::memory::rrf::{key_from, list_noted, noted, rank_table, RankView};
use crate::memory::session_store::{last_rows, of_others, of_session, Row};
use crate::memory::sql::{opt_arg, signed, SqlArg};
use crate::model::memory::{entry_views, EntryView, MemoryEntry};
use crate::text::{lines, trim};

verus! {

/// The memory that is opened is the one configured, at the path configured or
/// else at the usual one.
pub proof fn law_configured_memory(
    r: Result<MemoryPlan, String>,
    cfg: MemoryFactoryConfig,
    env_key: Option<Seq<char>>,
    features: EmbeddingFeatures,
)
    requires
        planned(r, cfg, env_key, features),
    ensures
        cfg.backend@ == "markdown"@ ==> (r matches Ok(MemoryPlan::Markdown { path }) && (if cfg.path@
            .len() > 0 {
            path@ == cfg.path@
        } else {
            path@ == "memory"@
        })),
        cfg.backend@ == "none"@ ==> r matches Ok(MemoryPlan::Nothing),
        cfg.backend@ == "sqlite"@ && r is Ok ==> (r matches Ok(
            MemoryPlan::Sqlite { path, embedder },
        ) && (if cfg.path@.len() > 0 {
            path@ == cfg.path@
        } else {
            path@ == "memory.db"@
        })),
        cfg.backend@.len() > 0 && cfg.backend@ != "sqlite"@ && cfg.backend@ != "markdown"@
            && cfg.backend@ != "none"@ ==> r is Err,
        cfg.backend@ == "sqlite"@ && cfg.embedding_provider@ == "openai"@ && features.openai
            && cfg.embed_api_key is None && env_key is None ==> r is Err,
        cfg.backend@ == "sqlite"@ && cfg.embedding_provider@ == "none"@ ==> (r matches Ok(
            MemoryPlan::Sqlite { path, embedder },
        ) && (embedder matches Some(e) ==> e is Noop)),
{
    reveal_strlit("sqlite");
    reveal_strlit("markdown");
    reveal_strlit("none");
    reveal_strlit("openai");
    reveal_strlit("fastembed");
    assert("sqlite"@.len() == 6 && "markdown"@.len() == 8 && "none"@.len() == 4);
    assert("openai"@.len() == 6 && "fastembed"@.len() == 9);
}

/// An embedder has the key that is configured, else that of the environment,
/// and the address that is configured, else the usual one.
pub proof fn law_configured_embedder(
    e: Embedder,
    key: Option<Seq<char>>,
    env_key: Option<Seq<char>>,
    url: Option<Seq<char>>,
    features: EmbeddingFeatures,
)
    requires
        made_for(e, "openai"@, either(key, env_key), url, features),
        features.openai,
    ensures
        e matches Embedder::OpenAi(p) && {
            &&& key matches Some(k) ==> p.api_key@ == k
            &&& key is None ==> Some(p.api_key@) == env_key
            &&& url matches Some(u) ==> p.base_url@ == u
            &&& url is None ==> p.base_url@ == "https://api.openai.com/v1"@
            &&& p.dim == 1536
        },
{
    reveal_strlit("openai");
    reveal_strlit("fastembed");
    assert("openai"@.len() != "fastembed"@.len());
}

/// The texts to embed are sent in their order.
pub proof fn law_embedded_texts(texts: Seq<&str>, i: int)
    ensures
        str_trees(texts).len() == texts.len(),
        0 <= i < texts.len() ==> str_trees(texts)[i] == JsonTree::Str(texts[i]@),
{
}

/// Embeddings are returned in the order of their numbers, whatever the order in
/// which they came: of any two that are returned the one before the other has
/// the smaller number.
pub proof fn law_embeddings_in_order(s: Seq<EmbedData>, i: int, j: int)
    requires
        forall|a: int, b: int|
            0 <= a < b < s.len() ==> (#[trigger] s[a]).index != (#[trigger] s[b]).index,
        0 <= i < j < s.len(),
    ensures
        ordered(s).len() == s.len(),
        exists|a: int, b: int|
            {
                &&& 0 <= a < s.len()
                &&& 0 <= b < s.len()
                &&& #[trigger] s[a].embedding == ordered(s)[i]
                &&& #[trigger] s[b].embedding == ordered(s)[j]
                &&& s[a].index < s[b].index
            },
{
    let z = indexed(s);
    let r = ranked(z);
    law_ranked_is_a_descending_permutation(z);
    broadcast use vstd::seq_lib::group_to_multiset_ensures;

    assert(r[i].0 >= r[j].0);
    assert(r.contains(r[i]) && r.contains(r[j]));
    assert(r.to_multiset().count(r[i]) > 0 && r.to_multiset().count(r[j]) > 0);
    assert(z.to_multiset().count(r[i]) > 0 && z.to_multiset().count(r[j]) > 0);
    let a = z.index_of(r[i]);
    let b = z.index_of(r[j]);
    assert(z[a] == r[i] && z[b] == r[j]);
    assert(s[a].embedding == ordered(s)[i]);
    assert(s[b].embedding == ordered(s)[j]);
    assert(s[a].index <= s[b].index);
    if s[a].index == s[b].index {
        if a < b {
            assert(s[a].index != s[b].index);
        } else if b < a {
            assert(s[b].index != s[a].index);
        } else {
            // The same item twice: the numbers of the items are distinct.
            lemma_distinct_after_ranking(z, i, j);
        }
    }
}

proof fn lemma_distinct_after_ranking(z: Seq<(u64, Vec<u32>)>, i: int, j: int)
    requires
        z.no_duplicates(),
        0 <= i < j < ranked(z).len(),
    ensures
        ranked(z)[i] != ranked(z)[j],
{
    law_ranked_is_a_descending_permutation(z);
    z.lemma_multiset_has_no_duplicates();
    let r = ranked(z);
    broadcast use vstd::seq_lib::group_to_multiset_ensures;

    if r[i] == r[j] {
        let x = r[i];
        let rest = r.remove(j);
        assert(rest[i] == x);
        assert(r =~= rest.insert(j, x));
        assert(rest.to_multiset().count(x) > 0);
        assert(r.to_multiset() =~= rest.to_multiset().insert(x));
        assert(r.to_multiset().count(x) >= 2);
        assert(z.to_multiset().count(x) <= 1);
    }
}

/// Batches have the size asked for, else fifty entries; a category with fewer
/// than five entries is left alone.
pub proof fn law_planned_batches(s: Seq<EntryView>, n: int, size: usize)
    ensures
        batch_size_of(Some(size)) == size,
        batch_size_of(None) == 50,
        s.len() < 5 ==> planned_batches(s, n).len() == 0,
        s.len() >= 5 ==> planned_batches(s, n) == chunks(s, n),
{
}

/// The queries that are run are the original one and then all that were
/// proposed, each once, the first five of them.
pub proof fn law_queries_that_are_run(proposals: Seq<Seq<char>>, original: Seq<char>, i: int)
    ensures
        ({
            let d = distinct(seq![original] + proposals);
            let q = sub_queries(proposals, original);
            &&& q.len() == if d.len() <= 5 {
                d.len()
            } else {
                5
            }
            &&& 0 <= i < q.len() ==> q[i] == d[i]
        }),
{
}

/// The proposals of a reply are the strings of the list in it; where it holds
/// no list of strings, its lines without the marks of a list.
pub proof fn law_proposals(raw: Seq<char>, tree: JsonTree, v: Seq<Seq<char>>)
    ensures
        list_part(trim(raw)) matches Some(p) && json_parse(p) == Some(tree) && string_items(tree)
            == Some(v) ==> proposed(raw) == v,
        (list_part(trim(raw)) matches Some(p) ==> json_parse(p) is None) ==> proposed(raw)
            == unmarked_lines(lines(trim(raw))),
{
}

/// The strings of a list are read in their order, and only if it holds nothing
/// else.
pub proof fn law_string_items(items: Seq<JsonTree>, i: int)
    ensures
        string_items(JsonTree::Arr(items)) is Some <==> forall|k: int|
            0 <= k < items.len() ==> (#[trigger] items[k]) is Str,
        string_items(JsonTree::Arr(items)) matches Some(v) ==> v.len() == items.len() && (0 <= i
            < items.len() ==> items[i] == JsonTree::Str(v[i])),
{
}

/// Lines that are longer than two bytes once unmarked are kept in their order.
pub proof fn law_unmarked_lines(ls: Seq<Seq<char>>, l: Seq<char>)
    ensures
        ls.len() == 0 ==> unmarked_lines(ls).len() == 0,
        unmarked(l).len() > 0 && encode_utf8(unmarked(l)).len() > 2 ==> unmarked_lines(ls.push(l))
            == unmarked_lines(ls).push(unmarked(l)),
        encode_utf8(unmarked(l)).len() <= 2 ==> unmarked_lines(ls.push(l)) == unmarked_lines(ls),
{
    assert(ls.push(l).drop_last() =~= ls);
}

/// The lists that the queries found are there exactly if none of them failed,
/// in the order of the queries.
pub proof fn law_found_lists(v: Vec<Result<Vec<MemoryEntry>, String>>, e: String, i: int)
    ensures
        found_lists(Err(e)) is None,
        found_lists(Ok(v)) is Some <==> forall|k: int|
            0 <= k < v@.len() ==> (#[trigger] v@[k]) is Ok,
        found_lists(Ok(v)) matches Some(lists) ==> lists.len() == v@.len() && (0 <= i < v@.len()
            ==> lists[i] == entry_views(v@[i]->Ok_0@)),
{
}

/// A key that is noted has one more position, at the end of those it had; the
/// others keep theirs, and a new key stands behind them.
pub proof fn law_noted(s: Seq<RankView>, key: Seq<char>, at: usize)
    ensures
        ({
            let t = noted(s, key, at);
            &&& key_from(s, key, 0) is None ==> t == s.push(RankView { key, ranks: seq![at] })
            &&& key_from(s, key, 0) matches Some(i) ==> (0 <= i < s.len() ==> t.len() == s.len()
                && t[i].key == key && t[i].ranks == s[i].ranks.push(at) && forall|j: int|
                #![trigger t[j]]
                0 <= j < s.len() && j != i ==> t[j] == s[j])
        }),
{
}

/// The table of ranks notes the lists one after the other, each from its first
/// key on.
pub proof fn law_rank_table(lists: Seq<Seq<Seq<char>>>, list: Seq<Seq<char>>, n: nat)
    ensures
        lists.len() == 0 ==> rank_table(lists).len() == 0,
        rank_table(lists.push(list)) == list_noted(rank_table(lists), list, list.len()),
        n < list.len() ==> list_noted(rank_table(lists), list, n + 1) == noted(
            list_noted(rank_table(lists), list, n),
            list[n as int],
            n as usize,
        ),
{
    assert(lists.push(list).drop_last() =~= lists);
}

/// The rows of a session and those of all others are parted one by one, in
/// order.
pub proof fn law_rows_of_a_session(rows: Seq<Row>, r: Row, session: Seq<char>, n: int)
    ensures
        rows.len() == 0 ==> of_session(rows, session).len() == 0 && of_others(rows, session).len()
            == 0,
        r.session == session ==> of_session(rows.push(r), session) == of_session(
            rows,
            session,
        ).push(r) && of_others(rows.push(r), session) == of_others(rows, session),
        r.session != session ==> of_session(rows.push(r), session) == of_session(rows, session)
            && of_others(rows.push(r), session) == of_others(rows, session).push(r),
        0 <= n < rows.len() ==> last_rows(rows, n).len() == n && last_rows(rows, n) == rows.skip(
            rows.len() - n,
        ),
        n >= rows.len() ==> last_rows(rows, n) == rows,
{
    assert(rows.push(r).drop_last() =~= rows);
}

/// An argument that is there is handed over as it is, one that is missing as
/// nothing; a count is handed over as it is.
pub proof fn law_arguments(t: Seq<char>, n: nat)
    ensures
        opt_arg(Some(t)) == SqlArg::Text(t),
        opt_arg(None) == SqlArg::Null,
        n <= i64::MAX ==> signed(n) == n,
{
}

/// A file stands in its directory, with one separator between them.
pub proof fn law_path(dir: Seq<char>, file: Seq<char>)
    ensures
        dir.len() == 0 ==> path_in(dir, file) == file,
        dir.len() > 0 && dir.last() == '/' ==> path_in(dir, file) == dir + file,
        dir.len() > 0 && dir.last() != '/' ==> path_in(dir, file) == dir + "/"@ + file,
{
    assert(dir.len() == 0 ==> dir + file =~= file);
}

} // verus!
