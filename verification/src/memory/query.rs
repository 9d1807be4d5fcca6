//! Splitting a query into smaller ones and merging what they find.
use vstd::prelude::*;
use crate::json::{json_parse, parse_json};
use crate::memory::reply::{list_part, read_strings, string_items, take_list_part};
use crate::memory::rrf::{
    collect_ranks, fuse, fused, list_views, rank_table, rank_views, result_views,
};
use crate::model::memory::{
    entry_views, EntryView, Memory, MemoryEntry, RecallScope, ScopeView,
};
use crate::text::{
    byte_len, cat3, lines, same_str, str_lines, str_trim, str_trim_any, texts, trim, trim_any,
};

verus! {

/// What the model is told about its task.
pub const DECOMPOSE_SYSTEM: &'static str =
    "You are a memory retrieval assistant. Your job is to decompose a complex query into 2-4 shorter, focused sub-queries that together cover all aspects of the original. Output ONLY a JSON array of strings, no explanation. Example: [\"sub-query 1\", \"sub-query 2\", \"sub-query 3\"]";

/// The most queries that one is split into.
pub const MAX_SUB_QUERIES: usize = 5;

/// What the model is asked.
pub fn decompose_prompt(query: &str) -> (r: String)
    ensures
        r@ == "Decompose this query into 2-4 focused sub-queries for memory search:\n\n\""@
            + query@ + "\""@,
{
    cat3(
        "Decompose this query into 2-4 focused sub-queries for memory search:\n\n\"",
        query,
        "\"",
    )
}

/// A line of a reply without the marks of a list.
pub open spec fn unmarked(line: Seq<char>) -> Seq<char> {
    trim(trim_any(trim(line), seq!['"', '-', '*']))
}

/// The lines of a reply that are longer than two bytes once unmarked.
pub open spec fn unmarked_lines(ls: Seq<Seq<char>>) -> Seq<Seq<char>>
    decreases ls.len(),
{
    if ls.len() == 0 {
        Seq::empty()
    } else {
        let head = unmarked_lines(ls.drop_last());
        let l = unmarked(ls.last());
        if l.len() > 0 && vstd::utf8::encode_utf8(l).len() > 2 {
            head.push(l)
        } else {
            head
        }
    }
}

/// The queries that a reply proposes: the strings of a JSON array in it, or
/// else its lines.
pub open spec fn proposed(raw: Seq<char>) -> Seq<Seq<char>> {
    let t = trim(raw);
    let items = match list_part(t) {
        Some(part) => match json_parse(part) {
            Some(tree) => string_items(tree),
            None => None,
        },
        None => None,
    };
    match items {
        Some(v) => v,
        None => unmarked_lines(lines(t)),
    }
}

/// The texts without repetitions, each where it came first.
pub open spec fn distinct(s: Seq<Seq<char>>) -> Seq<Seq<char>>
    decreases s.len(),
{
    if s.len() == 0 {
        Seq::empty()
    } else {
        let head = distinct(s.drop_last());
        if head.contains(s.last()) {
            head
        } else {
            head.push(s.last())
        }
    }
}

/// The first `n` of a sequence.
pub open spec fn at_most<T>(s: Seq<T>, n: int) -> Seq<T> {
    if s.len() <= n {
        s
    } else {
        s.take(n)
    }
}

/// The queries to run: the original one first, then what was proposed, without
/// repetitions and at most five.
pub open spec fn sub_queries(proposals: Seq<Seq<char>>, original: Seq<char>) -> Seq<Seq<char>> {
    at_most(distinct(seq![original] + proposals), MAX_SUB_QUERIES as int)
}

proof fn lemma_distinct(s: Seq<Seq<char>>)
    ensures
        distinct(s).no_duplicates(),
        forall|i: int| 0 <= i < distinct(s).len() ==> s.contains(#[trigger] distinct(s)[i]),
        s.len() > 0 ==> distinct(s).len() > 0 && distinct(s)[0] == s[0],
    decreases s.len(),
{
    if s.len() > 0 {
        lemma_distinct(s.drop_last());
        let head = distinct(s.drop_last());
        assert forall|i: int| 0 <= i < distinct(s).len() implies s.contains(
            #[trigger] distinct(s)[i],
        ) by {
            if i < head.len() {
                let j = s.drop_last().index_of(head[i]);
                assert(s.drop_last().contains(head[i]));
                assert(s[j] == head[i]);
            } else {
                assert(s[s.len() - 1] == s.last());
            }
        }
        if s.len() == 1 {
            assert(s.drop_last() =~= Seq::<Seq<char>>::empty());
            assert(s.last() == s[0]);
        } else {
            assert(s.drop_last()[0] == s[0]);
        }
    }
}

/// The original query leads the queries to run, there are at most five, none
/// repeats another, and all others were proposed.
pub proof fn law_sub_queries(proposals: Seq<Seq<char>>, original: Seq<char>)
    ensures
        ({
            let q = sub_queries(proposals, original);
            &&& 1 <= q.len() <= 5
            &&& q[0] == original
            &&& q.no_duplicates()
            &&& forall|i: int|
                1 <= i < q.len() ==> proposals.contains(#[trigger] q[i])
        }),
{
    let all = seq![original] + proposals;
    lemma_distinct(all);
    let d = distinct(all);
    let q = sub_queries(proposals, original);
    assert(all[0] == original);
    assert forall|i: int| 1 <= i < q.len() implies proposals.contains(#[trigger] q[i]) by {
        assert(q[i] == d[i]);
        assert(d[0] != d[i]);
        assert(all.contains(d[i]));
        let j = all.index_of(d[i]);
        assert(all[j] == d[i]);
        assert(proposals[j - 1] == d[i]);
    }
}

fn holds(v: &Vec<String>, t: &str) -> (r: bool)
    ensures
        r == texts(v@).contains(t@),
{
    let mut i: usize = 0;
    while i < v.len()
        invariant
            i <= v@.len(),
            forall|j: int| 0 <= j < i ==> (#[trigger] v@[j])@ != t@,
        decreases v.len() - i,
    {
        if same_str(v[i].as_str(), t) {
            proof {
                assert(texts(v@)[i as int] == t@);
            }
            return true;
        }
        i = i + 1;
    }
    proof {
        assert forall|j: int| 0 <= j < texts(v@).len() implies texts(v@)[j] != t@ by {
            assert(v@[j]@ != t@);
        }
    }
    false
}

/// The queries to run, from what was proposed.
pub fn choose_sub_queries(proposals: Vec<String>, original: &str) -> (r: Vec<String>)
    ensures
        texts(r@) == sub_queries(texts(proposals@), original@),
{
    let ghost all = seq![original@] + texts(proposals@);
    let ghost props = texts(proposals@);
    let mut out: Vec<String> = Vec::new();
    out.push(original.to_owned());
    proof {
        assert(all.take(1).drop_last() =~= Seq::<Seq<char>>::empty());
        assert(distinct(all.take(1).drop_last()) =~= Seq::<Seq<char>>::empty());
        assert(texts(out@) =~= seq![original@]);
        assert(distinct(all.take(1)) =~= seq![original@]);
    }
    for p in it: proposals
        invariant
            texts(it.seq()) == props,
            all == seq![original@] + props,
            texts(out@) == distinct(all.take(it.index() + 1)),
    {
        let ghost k = it.index() as int;
        let ghost before = texts(out@);
        proof {
            assert(props[k] == p@);
            assert(all.take(k + 2).drop_last() =~= all.take(k + 1));
            assert(all.take(k + 2).last() == p@);
        }
        if !holds(&out, p.as_str()) {
            out.push(p);
            proof {
                assert(texts(out@) =~= before.push(p@));
            }
        }
    }
    proof {
        assert(all.take((props.len() + 1) as int) =~= all);
    }
    let ghost d = texts(out@);
    if out.len() > MAX_SUB_QUERIES {
        out.truncate(MAX_SUB_QUERIES);
        proof {
            assert(texts(out@) =~= d.take(MAX_SUB_QUERIES as int));
        }
    }
    out
}

fn reply_lines(t: &str) -> (r: Vec<String>)
    ensures
        texts(r@) == unmarked_lines(lines(t@)),
{
    let ls = str_lines(t);
    let ghost all = texts(ls@);
    let marks: Vec<char> = vec!['"', '-', '*'];
    let mut out: Vec<String> = Vec::new();
    let mut i: usize = 0;
    proof {
        assert(marks@ =~= seq!['"', '-', '*']);
        assert(all.take(0) =~= Seq::<Seq<char>>::empty());
        assert(texts(out@) =~= Seq::<Seq<char>>::empty());
    }
    while i < ls.len()
        invariant
            i <= ls@.len(),
            all == texts(ls@),
            marks@ == seq!['"', '-', '*'],
            texts(out@) == unmarked_lines(all.take(i as int)),
        decreases ls.len() - i,
    {
        let ghost before = texts(out@);
        proof {
            assert(all.take(i + 1).drop_last() =~= all.take(i as int));
            assert(all.take(i + 1).last() == ls@[i as int]@);
        }
        let a = str_trim(ls[i].as_str());
        let b = str_trim_any(a.as_str(), &marks);
        let l = str_trim(b.as_str());
        if !l.as_str().is_empty() && byte_len(l.as_str()) > 2 {
            out.push(l);
            proof {
                assert(texts(out@) =~= before.push(l@));
            }
        }
        i = i + 1;
    }
    proof {
        assert(all.take(all.len() as int) =~= all);
    }
    out
}

/// The queries to run, from a model's reply.
pub fn parse_sub_queries(raw: &str, original_query: &str) -> (r: Vec<String>)
    ensures
        texts(r@) == sub_queries(proposed(raw@), original_query@),
{
    let t = str_trim(raw);
    let tree = match take_list_part(t.as_str()) {
        Some(part) => parse_json(part.as_str()),
        None => None,
    };
    let items = match tree {
        Some(j) => read_strings(&j),
        None => None,
    };
    let proposals = match items {
        Some(v) => v,
        None => reply_lines(t.as_str()),
    };
    choose_sub_queries(proposals, original_query)
}

/// How many entries each query asks for.
pub open spec fn fetch_count(limit: nat) -> nat {
    if 2 * limit >= 10 {
        2 * limit
    } else {
        10
    }
}

/// How many entries each query asks for.
pub fn sub_query_limit(limit: usize) -> (r: usize)
    requires
        2 * limit <= usize::MAX,
    ensures
        r == fetch_count(limit as nat),
{
    if limit * 2 >= 10 {
        limit * 2
    } else {
        10
    }
}

// ---- merging ----

/// The keys of several rankings in one: a single ranking stays as it is, more
/// are fused by the scores of their keys.
pub open spec fn merged_keys(lists: Seq<Seq<Seq<char>>>, scores: Seq<u64>) -> Seq<Seq<char>> {
    if lists.len() == 1 {
        lists[0]
    } else {
        let f = fused(rank_table(lists), scores);
        Seq::new(f.len(), |i: int| f[i].1)
    }
}

/// Merges several rankings, whose keys, in the order of their first
/// appearance, have the given scores.
pub fn merge_multiple_ranked_lists(lists: &Vec<Vec<String>>, scores: &Vec<u64>) -> (r: Vec<String>)
    requires
        lists@.len() > 0,
        lists@.len() > 1 ==> scores@.len() == rank_table(list_views(lists@)).len(),
    ensures
        texts(r@) == merged_keys(list_views(lists@), scores@),
{
    if lists.len() == 1 {
        let list = &lists[0];
        let mut out: Vec<String> = Vec::new();
        let mut i: usize = 0;
        while i < list.len()
            invariant
                i <= list@.len(),
                out@.len() == i,
                forall|j: int| 0 <= j < i ==> (#[trigger] out@[j])@ == list@[j]@,
            decreases list.len() - i,
        {
            out.push(list[i].clone());
            i = i + 1;
        }
        proof {
            assert(list_views(lists@)[0] == texts(list@));
            assert(texts(out@) =~= texts(list@));
        }
        return out;
    }
    let table = collect_ranks(lists);
    proof {
        assert(rank_views(table@).len() == table@.len());
    }
    let results = fuse(table, scores);
    let ghost f = result_views(results@);
    let mut out: Vec<String> = Vec::new();
    for x in it: results
        invariant
            result_views(it.seq()) == f,
            out@.len() == it.index(),
            forall|j: int| 0 <= j < out@.len() ==> (#[trigger] out@[j])@ == f[j].1,
    {
        proof {
            assert(f[it.index() as int] == (x.score, x.key@));
        }
        out.push(x.key);
    }
    proof {
        assert(texts(out@) =~= Seq::new(f.len(), |i: int| f[i].1));
    }
    out
}

pub open spec fn result_lists(s: Seq<Vec<MemoryEntry>>) -> Seq<Seq<EntryView>> {
    Seq::new(s.len(), |i: int| entry_views(s[i]@))
}

pub open spec fn keys_of(s: Seq<EntryView>) -> Seq<Seq<char>> {
    Seq::new(s.len(), |i: int| s[i].key)
}

/// The keys that each query found.
pub open spec fn key_lists(results: Seq<Seq<EntryView>>) -> Seq<Seq<Seq<char>>> {
    Seq::new(results.len(), |i: int| keys_of(results[i]))
}

fn keys_in(list: &Vec<MemoryEntry>) -> (r: Vec<String>)
    ensures
        texts(r@) == keys_of(entry_views(list@)),
{
    let mut keys: Vec<String> = Vec::new();
    let mut j: usize = 0;
    while j < list.len()
        invariant
            j <= list@.len(),
            keys@.len() == j,
            forall|k: int| 0 <= k < j ==> (#[trigger] keys@[k])@ == list@[k].key@,
        decreases list.len() - j,
    {
        keys.push(list[j].key.clone());
        j = j + 1;
    }
    proof {
        assert(texts(keys@) =~= keys_of(entry_views(list@)));
    }
    keys
}

/// The keys that each query found.
pub fn ranked_lists(results: &Vec<Vec<MemoryEntry>>) -> (r: Vec<Vec<String>>)
    ensures
        list_views(r@) == key_lists(result_lists(results@)),
{
    let mut out: Vec<Vec<String>> = Vec::new();
    let mut i: usize = 0;
    while i < results.len()
        invariant
            i <= results@.len(),
            out@.len() == i,
            forall|j: int|
                0 <= j < i ==> texts((#[trigger] out@[j])@) == keys_of(entry_views(results@[j]@)),
        decreases results.len() - i,
    {
        out.push(keys_in(&results[i]));
        i = i + 1;
    }
    proof {
        assert(list_views(out@) =~= key_lists(result_lists(results@)));
    }
    out
}

pub open spec fn flat(results: Seq<Seq<EntryView>>) -> Seq<EntryView>
    decreases results.len(),
{
    if results.len() == 0 {
        Seq::empty()
    } else {
        flat(results.drop_last()) + results.last()
    }
}

/// The last entry under a key.
pub open spec fn last_under(s: Seq<EntryView>, key: Seq<char>) -> Option<EntryView>
    decreases s.len(),
{
    if s.len() == 0 {
        None
    } else if s.last().key == key {
        Some(s.last())
    } else {
        last_under(s.drop_last(), key)
    }
}

/// The entries under the keys, in the order of the keys, each key once.
pub open spec fn picked(keys: Seq<Seq<char>>, s: Seq<EntryView>) -> Seq<EntryView>
    decreases keys.len(),
{
    if keys.len() == 0 {
        Seq::empty()
    } else {
        let head = picked(keys.drop_last(), s);
        let key = keys.last();
        if keys_of(head).contains(key) {
            head
        } else {
            match last_under(s, key) {
                Some(e) => head.push(e),
                None => head,
            }
        }
    }
}

/// The entries that the queries found, merged; none if there is nothing to
/// return, in which case the original query is run by itself.
pub open spec fn selected(
    results: Seq<Seq<EntryView>>,
    scores: Seq<u64>,
    limit: nat,
) -> Option<Seq<EntryView>> {
    if flat(results).len() == 0 {
        None
    } else {
        let top = at_most(merged_keys(key_lists(results), scores), limit as int);
        let p = picked(top, flat(results));
        if p.len() == 0 {
            None
        } else {
            Some(p)
        }
    }
}

/// What the merged queries return was found by one of them, no key comes
/// twice, and there is no more than was asked for.
pub proof fn law_selected_entries(results: Seq<Seq<EntryView>>, scores: Seq<u64>, limit: nat)
    ensures
        selected(results, scores, limit) matches Some(p) ==> {
            &&& 0 < p.len() <= limit
            &&& keys_of(p).no_duplicates()
            &&& forall|i: int| 0 <= i < p.len() ==> flat(results).contains(#[trigger] p[i])
        },
{
    let top = at_most(merged_keys(key_lists(results), scores), limit as int);
    lemma_picked(top, flat(results));
}

proof fn lemma_picked(keys: Seq<Seq<char>>, s: Seq<EntryView>)
    ensures
        picked(keys, s).len() <= keys.len(),
        keys_of(picked(keys, s)).no_duplicates(),
        forall|i: int| 0 <= i < picked(keys, s).len() ==> s.contains(#[trigger] picked(keys, s)[i]),
    decreases keys.len(),
{
    if keys.len() > 0 {
        lemma_picked(keys.drop_last(), s);
        let head = picked(keys.drop_last(), s);
        let key = keys.last();
        lemma_last_under(s, key);
        if !keys_of(head).contains(key) && last_under(s, key) is Some {
            let e = last_under(s, key)->0;
            let p = head.push(e);
            assert(keys_of(p) =~= keys_of(head).push(key));
            assert(keys_of(head).push(key).no_duplicates()) by {
                let q = keys_of(head).push(key);
                assert forall|i: int, j: int|
                    0 <= i < q.len() && 0 <= j < q.len() && i != j implies q[i] != q[j] by {
                    if i == head.len() && j < head.len() {
                        assert(keys_of(head)[j] == q[j]);
                    }
                    if j == head.len() && i < head.len() {
                        assert(keys_of(head)[i] == q[i]);
                    }
                }
            }
        }
    }
}

proof fn lemma_last_under(s: Seq<EntryView>, key: Seq<char>)
    ensures
        last_under(s, key) matches Some(e) ==> e.key == key && s.contains(e),
    decreases s.len(),
{
    if s.len() > 0 {
        if s.last().key == key {
            assert(s[s.len() - 1] == s.last());
        } else {
            lemma_last_under(s.drop_last(), key);
            if last_under(s, key) is Some {
                let e = last_under(s, key)->0;
                let j = s.drop_last().index_of(e);
                assert(s[j] == e);
            }
        }
    }
}

fn flatten(results: Vec<Vec<MemoryEntry>>) -> (r: Vec<MemoryEntry>)
    ensures
        entry_views(r@) == flat(result_lists(results@)),
{
    let ghost all = result_lists(results@);
    let mut out: Vec<MemoryEntry> = Vec::new();
    proof {
        assert(all.take(0) =~= Seq::<Seq<EntryView>>::empty());
        assert(entry_views(out@) =~= Seq::<EntryView>::empty());
    }
    for v in it: results
        invariant
            result_lists(it.seq()) == all,
            entry_views(out@) == flat(all.take(it.index() as int)),
    {
        let ghost k = it.index() as int;
        let ghost before = out@;
        let ghost vv = v@;
        proof {
            assert(all[k] == entry_views(v@));
            assert(all.take(k + 1).drop_last() =~= all.take(k));
            assert(all.take(k + 1).last() == entry_views(v@));
        }
        let mut v = v;
        out.append(&mut v);
        proof {
            assert(entry_views(out@) =~= entry_views(before) + entry_views(vv));
        }
    }
    proof {
        assert(all.take(all.len() as int) =~= all);
    }
    out
}

fn find_last(entries: &Vec<MemoryEntry>, key: &str) -> (r: Option<MemoryEntry>)
    ensures
        match r {
            Some(e) => last_under(entry_views(entries@), key@) == Some(e@),
            None => last_under(entry_views(entries@), key@) is None,
        },
{
    let ghost all = entry_views(entries@);
    let mut i: usize = entries.len();
    proof {
        assert(all.take(all.len() as int) =~= all);
    }
    while i > 0
        invariant
            i <= entries@.len(),
            all == entry_views(entries@),
            last_under(all, key@) == last_under(all.take(i as int), key@),
        decreases i,
    {
        proof {
            assert(all.take(i as int).drop_last() =~= all.take(i - 1));
            assert(all.take(i as int).last() == entries@[i - 1]@);
        }
        if same_str(entries[i - 1].key.as_str(), key) {
            return Some(entries[i - 1].clone());
        }
        i = i - 1;
    }
    None
}

fn lists_key(entries: &Vec<MemoryEntry>, key: &str) -> (r: bool)
    ensures
        r == keys_of(entry_views(entries@)).contains(key@),
{
    let ghost keys = keys_of(entry_views(entries@));
    let mut i: usize = 0;
    while i < entries.len()
        invariant
            i <= entries@.len(),
            keys == keys_of(entry_views(entries@)),
            forall|j: int| 0 <= j < i ==> #[trigger] keys[j] != key@,
        decreases entries.len() - i,
    {
        proof {
            assert(keys[i as int] == entries@[i as int].key@);
        }
        if same_str(entries[i].key.as_str(), key) {
            return true;
        }
        i = i + 1;
    }
    false
}

/// The entries under the keys, in the order of the keys, each key once.
pub fn pick_entries(keys: &Vec<String>, entries: &Vec<MemoryEntry>) -> (r: Vec<MemoryEntry>)
    ensures
        entry_views(r@) == picked(texts(keys@), entry_views(entries@)),
{
    let ghost ks = texts(keys@);
    let ghost all = entry_views(entries@);
    let mut out: Vec<MemoryEntry> = Vec::new();
    let mut i: usize = 0;
    proof {
        assert(ks.take(0) =~= Seq::<Seq<char>>::empty());
        assert(entry_views(out@) =~= Seq::<EntryView>::empty());
    }
    while i < keys.len()
        invariant
            i <= keys@.len(),
            ks == texts(keys@),
            all == entry_views(entries@),
            entry_views(out@) == picked(ks.take(i as int), all),
        decreases keys.len() - i,
    {
        let ghost before = entry_views(out@);
        proof {
            assert(ks.take(i + 1).drop_last() =~= ks.take(i as int));
            assert(ks.take(i + 1).last() == keys@[i as int]@);
        }
        if !lists_key(&out, keys[i].as_str()) {
            if let Some(e) = find_last(entries, keys[i].as_str()) {
                out.push(e);
                proof {
                    assert(entry_views(out@) =~= before.push(e@));
                }
            }
        }
        i = i + 1;
    }
    proof {
        assert(ks.take(ks.len() as int) =~= ks);
    }
    out
}

// ---- falling back ----

/// The lists that the queries found, if the original one could be split and
/// none of them failed.
pub open spec fn found_lists(
    outcome: Result<Vec<Result<Vec<MemoryEntry>, String>>, String>,
) -> Option<Seq<Seq<EntryView>>> {
    match outcome {
        Ok(v) => if forall|i: int| 0 <= i < v@.len() ==> (#[trigger] v@[i]) is Ok {
            Some(Seq::new(v@.len(), |i: int| entry_views(v@[i]->Ok_0@)))
        } else {
            None
        },
        Err(_) => None,
    }
}

/// Whether there is a score for each key, where more than one list has to be
/// merged.
pub open spec fn scored(
    outcome: Result<Vec<Result<Vec<MemoryEntry>, String>>, String>,
    scores: Seq<u64>,
) -> bool {
    match found_lists(outcome) {
        Some(lists) => lists.len() > 1 ==> scores.len() == rank_table(key_lists(lists)).len(),
        None => true,
    }
}

/// What a recall by several queries returns; none if the original query is to
/// be run by itself.
pub open spec fn qmd_answer(
    outcome: Result<Vec<Result<Vec<MemoryEntry>, String>>, String>,
    scores: Seq<u64>,
    limit: nat,
) -> Option<Seq<EntryView>> {
    match found_lists(outcome) {
        Some(lists) => selected(lists, scores, limit),
        None => None,
    }
}

/// Any failure, of the model or of a single query, means that the original
/// query is run by itself.
pub proof fn law_any_failure_means_plain_recall(
    outcome: Result<Vec<Result<Vec<MemoryEntry>, String>>, String>,
    scores: Seq<u64>,
    limit: nat,
)
    requires
        outcome is Err || exists|i: int|
            0 <= i < outcome->Ok_0@.len() && (#[trigger] outcome->Ok_0@[i]) is Err,
    ensures
        qmd_answer(outcome, scores, limit) is None,
{
    if outcome is Ok {
        let v = outcome->Ok_0;
        let i = choose|i: int| 0 <= i < v@.len() && (#[trigger] v@[i]) is Err;
        assert(!(v@[i] is Ok));
    }
}

/// Whether a memory may have given `answer` when asked for `limit` entries.
pub open spec fn answers<M: Memory>(
    memory: &M,
    query: Seq<char>,
    limit: nat,
    session: Option<&str>,
    scope: ScopeView,
    answer: Result<Vec<MemoryEntry>, String>,
) -> bool {
    exists|q: &str, n: usize, s: RecallScope|
        q@ == query && n == limit && s@ == scope && #[trigger] call_ensures(
            M::recall,
            (memory, q, n, session, s),
            answer,
        )
}

/// Runs the queries that a model's reply proposes; a failure of the model is
/// handed on.
pub fn recall_sub_queries<M: Memory>(
    memory: &M,
    reply: Result<String, String>,
    query: &str,
    limit: usize,
    session: Option<&str>,
    scope: &RecallScope,
) -> (r: Result<Vec<Result<Vec<MemoryEntry>, String>>, String>)
    requires
        reply is Ok ==> 2 * limit <= usize::MAX,
    ensures
        match reply {
            Ok(raw) => {
                let queries = sub_queries(proposed(raw@), query@);
                &&& r is Ok
                &&& r->Ok_0@.len() == queries.len()
                &&& forall|i: int|
                    0 <= i < queries.len() ==> answers(
                        memory,
                        queries[i],
                        fetch_count(limit as nat),
                        session,
                        scope@,
                        #[trigger] r->Ok_0@[i],
                    )
            },
            Err(e) => r is Err && r->Err_0 == e,
        },
{
    let raw = match reply {
        Ok(raw) => raw,
        Err(e) => {
            return Err(e);
        },
    };
    let queries = parse_sub_queries(raw.as_str(), query);
    let n = sub_query_limit(limit);
    let mut out: Vec<Result<Vec<MemoryEntry>, String>> = Vec::new();
    let mut i: usize = 0;
    while i < queries.len()
        invariant
            i <= queries@.len(),
            out@.len() == i,
            n == fetch_count(limit as nat),
            forall|k: int|
                0 <= k < i ==> answers(
                    memory,
                    queries@[k]@,
                    n as nat,
                    session,
                    scope@,
                    #[trigger] out@[k],
                ),
        decreases queries.len() - i,
    {
        let q = queries[i].as_str();
        let s = scope.clone();
        let ghost sent = s;
        let answer = memory.recall(q, n, session, s);
        proof {
            assert(call_ensures(M::recall, (memory, q, n, session, sent), answer));
        }
        out.push(answer);
        i = i + 1;
    }
    proof {
        assert forall|k: int| 0 <= k < out@.len() implies answers(
            memory,
            sub_queries(proposed(raw@), query@)[k],
            fetch_count(limit as nat),
            session,
            scope@,
            #[trigger] out@[k],
        ) by {
            assert(texts(queries@)[k] == queries@[k]@);
        }
    }
    Ok(out)
}

/// The keys that each query found, which are to be scored; none if the original
/// query is to be run by itself.
pub fn keys_to_score(outcome: &Result<Vec<Result<Vec<MemoryEntry>, String>>, String>) -> (r: Option<
    Vec<Vec<String>>,
>)
    ensures
        match r {
            Some(lists) => found_lists(*outcome) is Some && list_views(lists@) == key_lists(
                found_lists(*outcome)->0,
            ),
            None => found_lists(*outcome) is None,
        },
{
    let v = match outcome {
        Ok(v) => v,
        Err(_) => {
            return None;
        },
    };
    let mut out: Vec<Vec<String>> = Vec::new();
    let mut i: usize = 0;
    while i < v.len()
        invariant
            i <= v@.len(),
            out@.len() == i,
            *outcome == Ok::<Vec<Result<Vec<MemoryEntry>, String>>, String>(*v),
            forall|k: int|
                0 <= k < i ==> (#[trigger] v@[k]) is Ok && texts(out@[k]@) == keys_of(
                    entry_views(v@[k]->Ok_0@),
                ),
        decreases v.len() - i,
    {
        match &v[i] {
            Ok(list) => {
                out.push(keys_in(list));
            },
            Err(_) => {
                proof {
                    assert(!(v@[i as int] is Ok));
                }
                return None;
            },
        }
        i = i + 1;
    }
    proof {
        let found = found_lists(*outcome)->0;
        assert forall|k: int| 0 <= k < v@.len() implies list_views(out@)[k] == key_lists(
            found,
        )[k] by {
            assert(v@[k] is Ok);
        }
        assert(list_views(out@) =~= key_lists(found));
    }
    Some(out)
}

fn take_found(outcome: Result<Vec<Result<Vec<MemoryEntry>, String>>, String>) -> (r: Option<
    Vec<Vec<MemoryEntry>>,
>)
    ensures
        match r {
            Some(lists) => found_lists(outcome) == Some(result_lists(lists@)),
            None => found_lists(outcome) is None,
        },
{
    let v = match outcome {
        Ok(v) => v,
        Err(_) => {
            return None;
        },
    };
    let ghost all = v@;
    let mut out: Vec<Vec<MemoryEntry>> = Vec::new();
    for x in it: v
        invariant
            it.seq() == all,
            outcome is Ok && outcome->Ok_0@ == all,
            out@.len() == it.index(),
            forall|k: int|
                0 <= k < out@.len() ==> (#[trigger] all[k]) is Ok && out@[k] == all[k]->Ok_0,
    {
        proof {
            assert(all[it.index() as int] == x);
        }
        match x {
            Ok(list) => {
                out.push(list);
            },
            Err(_) => {
                proof {
                    assert(!(outcome->Ok_0@[it.index() as int] is Ok));
                }
                return None;
            },
        }
    }
    proof {
        assert(found_lists(outcome)->0 =~= result_lists(out@));
    }
    Some(out)
}

/// What a recall by several queries returns: the entries that they found,
/// merged by the scores of their keys.  `None` if anything failed or there is
/// nothing to return, in which case the original query is run by itself.
pub fn recall_with_qmd(
    outcome: Result<Vec<Result<Vec<MemoryEntry>, String>>, String>,
    scores: &Vec<u64>,
    limit: usize,
) -> (r: Option<Vec<MemoryEntry>>)
    requires
        scored(outcome, scores@),
    ensures
        (outcome is Err || exists|i: int|
            0 <= i < outcome->Ok_0@.len() && (#[trigger] outcome->Ok_0@[i]) is Err) ==> r is None,
        match r {
            Some(v) => qmd_answer(outcome, scores@, limit as nat) == Some(entry_views(v@)),
            None => qmd_answer(outcome, scores@, limit as nat) is None,
        },
{
    proof {
        if outcome is Err || exists|i: int|
            0 <= i < outcome->Ok_0@.len() && (#[trigger] outcome->Ok_0@[i]) is Err {
            law_any_failure_means_plain_recall(outcome, scores@, limit as nat);
        }
    }
    match take_found(outcome) {
        Some(results) => merge_results(results, scores, limit),
        None => None,
    }
}

/// Recalls by several queries, or by the original one where anything failed or
/// nothing was found.
pub fn recall_or_plain<M: Memory>(
    memory: &M,
    outcome: Result<Vec<Result<Vec<MemoryEntry>, String>>, String>,
    scores: &Vec<u64>,
    query: &str,
    limit: usize,
    session: Option<&str>,
    scope: RecallScope,
) -> (r: Result<Vec<MemoryEntry>, String>)
    requires
        scored(outcome, scores@),
    ensures
        match qmd_answer(outcome, scores@, limit as nat) {
            Some(p) => r is Ok && entry_views(r->Ok_0@) == p,
            None => call_ensures(M::recall, (memory, query, limit, session, scope), r),
        },
{
    match recall_with_qmd(outcome, scores, limit) {
        Some(v) => Ok(v),
        None => memory.recall(query, limit, session, scope),
    }
}

/// The entries that the queries found, merged by the scores of their keys.
/// `None` if there is nothing to return.
fn merge_results(results: Vec<Vec<MemoryEntry>>, scores: &Vec<u64>, limit: usize) -> (r: Option<
    Vec<MemoryEntry>,
>)
    requires
        results@.len() > 1 ==> scores@.len() == rank_table(
            key_lists(result_lists(results@)),
        ).len(),
    ensures
        match r {
            Some(v) => selected(result_lists(results@), scores@, limit as nat) == Some(
                entry_views(v@),
            ),
            None => selected(result_lists(results@), scores@, limit as nat) is None,
        },
{
    let lists = ranked_lists(&results);
    let n: usize = results.len();
    proof {
        assert(list_views(lists@).len() == lists@.len());
        assert(key_lists(result_lists(results@)).len() == results@.len());
    }
    let entries = flatten(results);
    proof {
        assert(entry_views(entries@).len() == entries@.len());
        if n == 0 {
            assert(result_lists(results@) =~= Seq::<Seq<EntryView>>::empty());
        }
    }
    if entries.len() == 0 {
        return None;
    }
    let mut keys = merge_multiple_ranked_lists(&lists, scores);
    let ghost merged = texts(keys@);
    if keys.len() > limit {
        keys.truncate(limit);
        proof {
            assert(texts(keys@) =~= merged.take(limit as int));
        }
    }
    let ordered = pick_entries(&keys, &entries);
    proof {
        assert(entry_views(ordered@).len() == ordered@.len());
    }
    if ordered.len() == 0 {
        None
    } else {
        Some(ordered)
    }
}

} // verus!
