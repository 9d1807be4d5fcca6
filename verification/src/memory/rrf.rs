//! Reciprocal rank fusion: several ranked lists become one.
//!
//! An item scores the sum of `1 / (k + position + 1)` over its appearances.
//! The sums are floating-point numbers, which are computed elsewhere from the
//! positions gathered here and handed back as order-preserving integers: the
//! bits of a positive floating-point number order as the number does.
use vstd::prelude::*;
use crate::memory::ranking::{lemma_ranked_map, rank, ranked};
use crate::text::{same_str, texts};

verus! {

/// The usual smoothing constant.
pub const RRF_K: u64 = 60;

/// A key and its positions in the lists, from zero on.
#[derive(Debug)]
pub struct RankedKey {
    pub key: String,
    pub ranks: Vec<usize>,
}

pub struct RankView {
    pub key: Seq<char>,
    pub ranks: Seq<usize>,
}

impl View for RankedKey {
    type V = RankView;

    open spec fn view(&self) -> RankView {
        RankView { key: self.key@, ranks: self.ranks@ }
    }
}

pub open spec fn rank_views(s: Seq<RankedKey>) -> Seq<RankView> {
    Seq::new(s.len(), |i: int| s[i]@)
}

pub open spec fn list_views(s: Seq<Vec<String>>) -> Seq<Seq<Seq<char>>> {
    Seq::new(s.len(), |i: int| texts(s[i]@))
}

/// Where a key stands, from position `i` on.
pub open spec fn key_from(s: Seq<RankView>, key: Seq<char>, i: int) -> Option<int>
    decreases s.len() - i,
{
    if i < 0 || i >= s.len() {
        None
    } else if s[i].key == key {
        Some(i)
    } else {
        key_from(s, key, i + 1)
    }
}

/// Notes that a key appears at a position.
pub open spec fn noted(s: Seq<RankView>, key: Seq<char>, at: usize) -> Seq<RankView> {
    match key_from(s, key, 0) {
        Some(i) => s.update(i, RankView { key, ranks: s[i].ranks.push(at) }),
        None => s.push(RankView { key, ranks: seq![at] }),
    }
}

/// Notes the first `n` keys of a list.
pub open spec fn list_noted(s: Seq<RankView>, list: Seq<Seq<char>>, n: nat) -> Seq<RankView>
    decreases n,
{
    if n == 0 {
        s
    } else {
        noted(list_noted(s, list, (n - 1) as nat), list[n - 1], (n - 1) as usize)
    }
}

/// The keys of all lists in the order of their first appearance, each with its
/// positions.
pub open spec fn rank_table(lists: Seq<Seq<Seq<char>>>) -> Seq<RankView>
    decreases lists.len(),
{
    if lists.len() == 0 {
        Seq::empty()
    } else {
        list_noted(rank_table(lists.drop_last()), lists.last(), lists.last().len())
    }
}

/// The positions of a key among the first `n` of a list.
pub open spec fn positions(list: Seq<Seq<char>>, key: Seq<char>, n: nat) -> Seq<usize>
    decreases n,
{
    if n == 0 {
        Seq::empty()
    } else {
        let head = positions(list, key, (n - 1) as nat);
        if list[n - 1] == key {
            head.push((n - 1) as usize)
        } else {
            head
        }
    }
}

/// The positions of a key in all lists.
pub open spec fn all_positions(lists: Seq<Seq<Seq<char>>>, key: Seq<char>) -> Seq<usize>
    decreases lists.len(),
{
    if lists.len() == 0 {
        Seq::empty()
    } else {
        all_positions(lists.drop_last(), key) + positions(lists.last(), key, lists.last().len())
    }
}

/// The positions that a table holds for a key, none if it does not hold it.
pub open spec fn held(s: Seq<RankView>, key: Seq<char>) -> Seq<usize> {
    match key_from(s, key, 0) {
        Some(i) => s[i].ranks,
        None => Seq::empty(),
    }
}

pub open spec fn keys_distinct(s: Seq<RankView>) -> bool {
    forall|i: int, j: int| 0 <= i < j < s.len() ==> (#[trigger] s[i]).key != (#[trigger] s[j]).key
}

proof fn lemma_key_from(s: Seq<RankView>, key: Seq<char>, i: int)
    requires
        0 <= i,
    ensures
        match key_from(s, key, i) {
            Some(k) => i <= k < s.len() && s[k].key == key,
            None => forall|j: int| i <= j < s.len() ==> (#[trigger] s[j]).key != key,
        },
    decreases s.len() - i,
{
    if i < s.len() && s[i].key != key {
        lemma_key_from(s, key, i + 1);
    }
}

/// With distinct keys the position of a key is the only one.
proof fn lemma_key_found(s: Seq<RankView>, key: Seq<char>, k: int)
    requires
        keys_distinct(s),
        0 <= k < s.len(),
        s[k].key == key,
    ensures
        key_from(s, key, 0) == Some(k),
{
    lemma_key_from(s, key, 0);
    let j = key_from(s, key, 0)->0;
    if key_from(s, key, 0) is Some && j != k {
        if j < k {
            assert(s[j].key != s[k].key);
        } else {
            assert(s[k].key != s[j].key);
        }
    }
}

proof fn lemma_noted(s: Seq<RankView>, key: Seq<char>, at: usize, other: Seq<char>)
    requires
        keys_distinct(s),
    ensures
        keys_distinct(noted(s, key, at)),
        held(noted(s, key, at), other) == if other == key {
            held(s, key).push(at)
        } else {
            held(s, other)
        },
{
    lemma_key_from(s, key, 0);
    lemma_key_from(s, other, 0);
    let t = noted(s, key, at);
    match key_from(s, key, 0) {
        Some(i) => {
            assert forall|a: int, b: int| 0 <= a < b < t.len() implies (#[trigger] t[a]).key != (
            #[trigger] t[b]).key by {
                assert(t[a].key == s[a].key);
                assert(t[b].key == s[b].key);
            }
            if other == key {
                lemma_key_found(t, key, i);
            } else {
                match key_from(s, other, 0) {
                    Some(j) => {
                        assert(t[j] == s[j]);
                        lemma_key_found(t, other, j);
                    },
                    None => {
                        lemma_key_from(t, other, 0);
                        if key_from(t, other, 0) is Some {
                            let j = key_from(t, other, 0)->0;
                            assert(t[j].key == s[j].key);
                        }
                    },
                }
            }
        },
        None => {
            assert forall|a: int, b: int| 0 <= a < b < t.len() implies (#[trigger] t[a]).key != (
            #[trigger] t[b]).key by {
                assert(t[a] == s[a]);
                if b < s.len() {
                    assert(t[b] == s[b]);
                }
            }
            if other == key {
                lemma_key_found(t, key, s.len() as int);
                assert(held(s, key).push(at) =~= seq![at]);
            } else {
                match key_from(s, other, 0) {
                    Some(j) => {
                        assert(t[j] == s[j]);
                        lemma_key_found(t, other, j);
                    },
                    None => {
                        lemma_key_from(t, other, 0);
                        if key_from(t, other, 0) is Some {
                            let j = key_from(t, other, 0)->0;
                            if j < s.len() {
                                assert(t[j] == s[j]);
                            }
                        }
                    },
                }
            }
        },
    }
}

proof fn lemma_list_noted(s: Seq<RankView>, list: Seq<Seq<char>>, n: nat, key: Seq<char>)
    requires
        keys_distinct(s),
        n <= list.len(),
    ensures
        keys_distinct(list_noted(s, list, n)),
        held(list_noted(s, list, n), key) == held(s, key) + positions(list, key, n),
    decreases n,
{
    if n == 0 {
        assert(held(s, key) + positions(list, key, 0) =~= held(s, key));
    } else {
        lemma_list_noted(s, list, (n - 1) as nat, key);
        let t = list_noted(s, list, (n - 1) as nat);
        lemma_noted(t, list[n - 1], (n - 1) as usize, key);
        let head = positions(list, key, (n - 1) as nat);
        if list[n - 1] == key {
            assert((held(s, key) + head).push((n - 1) as usize) =~= held(s, key) + head.push(
                (n - 1) as usize,
            ));
        }
    }
}

/// The table holds each key once, with all its positions in the order of the
/// lists; a key that is in no list has none.
pub proof fn law_rank_table_is_complete(lists: Seq<Seq<Seq<char>>>, key: Seq<char>)
    ensures
        keys_distinct(rank_table(lists)),
        held(rank_table(lists), key) == all_positions(lists, key),
    decreases lists.len(),
{
    if lists.len() > 0 {
        law_rank_table_is_complete(lists.drop_last(), key);
        lemma_list_noted(
            rank_table(lists.drop_last()),
            lists.last(),
            lists.last().len(),
            key,
        );
    }
}

fn note(table: &mut Vec<RankedKey>, key: &str, at: usize)
    ensures
        rank_views(final(table)@) == noted(rank_views(old(table)@), key@, at),
{
    let ghost before = rank_views(table@);
    let mut i: usize = 0;
    while i < table.len()
        invariant
            i <= table@.len(),
            before == rank_views(table@),
            before == rank_views(old(table)@),
            key_from(before, key@, 0) == key_from(before, key@, i as int),
        decreases table.len() - i,
    {
        proof {
            assert(before[i as int] == table@[i as int]@);
        }
        if same_str(table[i].key.as_str(), key) {
            let mut ranks: Vec<usize> = table[i].ranks.clone();
            proof {
                assert(ranks@ =~= table@[i as int].ranks@);
            }
            ranks.push(at);
            let entry = RankedKey { key: key.to_owned(), ranks };
            table.set(i, entry);
            proof {
                assert(rank_views(table@) =~= before.update(i as int, entry@));
            }
            return;
        }
        i = i + 1;
    }
    let mut ranks: Vec<usize> = Vec::new();
    ranks.push(at);
    let entry = RankedKey { key: key.to_owned(), ranks };
    proof {
        assert(ranks@ =~= seq![at]);
    }
    table.push(entry);
    proof {
        assert(rank_views(table@) =~= before.push(entry@));
    }
}

/// Gathers the keys of all lists with their positions.
pub fn collect_ranks(lists: &Vec<Vec<String>>) -> (r: Vec<RankedKey>)
    ensures
        rank_views(r@) == rank_table(list_views(lists@)),
{
    let ghost all = list_views(lists@);
    let mut table: Vec<RankedKey> = Vec::new();
    let mut i: usize = 0;
    proof {
        assert(all.take(0) =~= Seq::<Seq<Seq<char>>>::empty());
        assert(rank_views(table@) =~= Seq::<RankView>::empty());
    }
    while i < lists.len()
        invariant
            i <= lists@.len(),
            all == list_views(lists@),
            rank_views(table@) == rank_table(all.take(i as int)),
        decreases lists.len() - i,
    {
        let list = &lists[i];
        let ghost l = texts(list@);
        let ghost start = rank_views(table@);
        proof {
            assert(all.take(i + 1).drop_last() =~= all.take(i as int));
            assert(all.take(i + 1).last() == l);
        }
        let mut j: usize = 0;
        while j < list.len()
            invariant
                j <= list@.len(),
                l == texts(list@),
                rank_views(table@) == list_noted(start, l, j as nat),
            decreases list.len() - j,
        {
            proof {
                assert(l[j as int] == list@[j as int]@);
            }
            note(&mut table, list[j].as_str(), j);
            j = j + 1;
        }
        i = i + 1;
    }
    proof {
        assert(all.take(all.len() as int) =~= all);
    }
    table
}

/// A key with its score.
#[derive(Clone, Debug)]
pub struct RrfResult {
    pub key: String,
    pub score: u64,
}

/// The keys with their scores, the best first; of equal ones the first that
/// appeared.
pub open spec fn fused(table: Seq<RankView>, scores: Seq<u64>) -> Seq<(u64, Seq<char>)> {
    ranked(Seq::new(table.len(), |i: int| (scores[i], table[i].key)))
}

pub open spec fn result_views(s: Seq<RrfResult>) -> Seq<(u64, Seq<char>)> {
    Seq::new(s.len(), |i: int| (s[i].score, s[i].key@))
}

/// Puts the keys of a table in the order of their scores.
pub fn fuse(table: Vec<RankedKey>, scores: &Vec<u64>) -> (r: Vec<RrfResult>)
    requires
        scores@.len() == table@.len(),
    ensures
        result_views(r@) == fused(rank_views(table@), scores@),
{
    let ghost t = rank_views(table@);
    let ghost want = Seq::new(t.len(), |i: int| (scores@[i], t[i].key));
    let mut items: Vec<(u64, String)> = Vec::new();
    let mut i: usize = 0;
    let n: usize = table.len();
    for k in it: table
        invariant
            rank_views(it.seq()) == t,
            n == t.len(),
            n == scores@.len(),
            i == it.index(),
            items@.len() == i,
            forall|j: int|
                0 <= j < i ==> (#[trigger] items@[j]).0 == scores@[j] && items@[j].1@ == t[j].key,
    {
        proof {
            assert(t[i as int] == k@);
            assert(i < it.seq().len());
            assert(rank_views(it.seq()).len() == it.seq().len());
        }
        items.push((scores[i], k.key));
        i = i + 1;
    }
    let ghost raw = items@;
    let ghost f = |s: String| s@;
    proof {
        lemma_ranked_map(raw, f);
        assert(Seq::new(raw.len(), |i: int| (raw[i].0, f(raw[i].1))) =~= want);
    }
    let sorted = rank(items);
    let ghost order = sorted@;
    let mut out: Vec<RrfResult> = Vec::new();
    for x in it: sorted
        invariant
            it.seq() == order,
            out@.len() == it.index(),
            forall|j: int|
                0 <= j < out@.len() ==> (#[trigger] out@[j]).score == order[j].0 && out@[j].key@
                    == order[j].1@,
    {
        out.push(RrfResult { key: x.1, score: x.0 });
    }
    proof {
        assert(result_views(out@) =~= Seq::new(order.len(), |i: int| (order[i].0, f(order[i].1))));
    }
    out
}

/// Merges a list ranked by likeness and one ranked by words, whose keys have
/// the given scores.
pub fn reciprocal_rank_fusion(
    vec_ranked: Vec<String>,
    fts_ranked: Vec<String>,
    scores: &Vec<u64>,
) -> (r: Vec<RrfResult>)
    requires
        scores@.len() == rank_table(seq![texts(vec_ranked@), texts(fts_ranked@)]).len(),
    ensures
        result_views(r@) == fused(
            rank_table(seq![texts(vec_ranked@), texts(fts_ranked@)]),
            scores@,
        ),
{
    let lists = vec![vec_ranked, fts_ranked];
    proof {
        assert(list_views(lists@) =~= seq![texts(vec_ranked@), texts(fts_ranked@)]);
    }
    let table = collect_ranks(&lists);
    proof {
        assert(rank_views(table@).len() == table@.len());
    }
    fuse(table, scores)
}

} // verus!
