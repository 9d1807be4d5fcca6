//! In which order a recall returns what it found.
use vstd::prelude::*;
use crate::memory::query::{keys_of, last_under, picked};
use crate::memory::ranking::{law_ranked_is_a_descending_permutation, ranked};
use crate::memory::rrf::{fused, rank_views, RankedKey};
use crate::memory::scope::{in_scope, scoped};
use crate::memory::sqlite::{
    keys_in_scope, next_action, stubs, ActionView, KeyMeta, RecallEvent, RecallRequest,
};
use crate::model::memory::{entry_views, CategoryView, EntryView, MemoryEntry, ScopeView};
use crate::text::{opt_string, texts};

verus! {

/// Position `i` is the first at which its key stands.
pub open spec fn first_at(keys: Seq<Seq<char>>, i: int) -> bool {
    0 <= i < keys.len() && forall|j: int| 0 <= j < i ==> #[trigger] keys[j] != keys[i]
}

/// There is an entry under a key.
pub open spec fn exists_under(rows: Seq<EntryView>, key: Seq<char>) -> bool {
    exists|k: int| 0 <= k < rows.len() && (#[trigger] rows[k]).key == key
}

/// `e` is the last of the entries under its key.
pub open spec fn is_last_of(rows: Seq<EntryView>, e: EntryView) -> bool {
    exists|k: int|
        0 <= k < rows.len() && #[trigger] rows[k] == e && forall|j: int|
            k < j < rows.len() ==> (#[trigger] rows[j]).key != e.key
}

proof fn lemma_last_under(rows: Seq<EntryView>, key: Seq<char>)
    ensures
        last_under(rows, key) is Some <==> exists_under(rows, key),
        last_under(rows, key) matches Some(e) ==> e.key == key && is_last_of(rows, e),
    decreases rows.len(),
{
    if rows.len() > 0 {
        let front = rows.drop_last();
        let n = rows.len() - 1;
        lemma_last_under(front, key);
        assert(rows.last() == rows[n]);
        if rows[n].key == key {
            assert(is_last_of(rows, rows[n]));
        } else {
            if exists_under(rows, key) {
                let k = choose|k: int| 0 <= k < rows.len() && (#[trigger] rows[k]).key == key;
                assert(front[k].key == key);
            }
            if last_under(rows, key) is Some {
                let e = last_under(rows, key)->0;
                let k = choose|k: int|
                    0 <= k < front.len() && #[trigger] front[k] == e && forall|j: int|
                        k < j < front.len() ==> (#[trigger] front[j]).key != e.key;
                assert(rows[k] == e);
                assert forall|j: int| k < j < rows.len() implies (#[trigger] rows[j]).key
                    != e.key by {
                    if j < n {
                        assert(front[j] == rows[j]);
                    }
                }
            }
        }
    }
}

/// The entries stand in the order of the ranked keys.
pub open spec fn in_order(p: Seq<EntryView>, keys: Seq<Seq<char>>) -> bool {
    forall|a: int, b: int, i: int, j: int|
        #![trigger p[a], p[b], keys[i], keys[j]]
        0 <= a < p.len() && 0 <= b < p.len() && first_at(keys, i) && first_at(keys, j) && keys[i]
            == p[a].key && keys[j] == p[b].key && i < j ==> a < b
}

/// The entries picked stand in the order of the keys; each is the last one under
/// its key, no key comes twice, and every key under which there is an entry is
/// there.
pub proof fn law_picked_keeps_the_ranking(keys: Seq<Seq<char>>, rows: Seq<EntryView>)
    ensures
        in_order(picked(keys, rows), keys),
        forall|a: int|
            0 <= a < picked(keys, rows).len() ==> is_last_of(
                rows,
                #[trigger] picked(keys, rows)[a],
            ) && keys.contains(picked(keys, rows)[a].key),
        forall|i: int|
            0 <= i < keys.len() && exists_under(rows, #[trigger] keys[i]) ==> exists|a: int|
                0 <= a < picked(keys, rows).len() && (#[trigger] picked(keys, rows)[a]).key
                    == keys[i],
        forall|a: int, b: int|
            0 <= a < b < picked(keys, rows).len() ==> (#[trigger] picked(keys, rows)[a]).key != (
            #[trigger] picked(keys, rows)[b]).key,
    decreases keys.len(),
{
    if keys.len() > 0 {
        let front = keys.drop_last();
        let key = keys.last();
        let n = keys.len() - 1;
        let head = picked(front, rows);
        let p = picked(keys, rows);
        law_picked_keeps_the_ranking(front, rows);
        lemma_last_under(rows, key);
        let hk = keys_of(head);
        assert(keys[n] == key);
        assert forall|i: int| 0 <= i < n implies front[i] == keys[i] by {}
        assert forall|a: int| 0 <= a < head.len() implies p[a] == head[a] && hk[a] == head[a].key by {}
        assert forall|i: int| first_at(keys, i) && i < n implies first_at(front, i) by {
            assert forall|j: int| 0 <= j < i implies #[trigger] front[j] != front[i] by {
                assert(front[j] == keys[j] && front[i] == keys[i]);
            }
        }
        // A key that is first at the end is that of no earlier entry.
        if first_at(keys, n) {
            assert forall|a: int| 0 <= a < head.len() implies (#[trigger] head[a]).key != key by {
                if head[a].key == key {
                    let j = front.index_of(head[a].key);
                    assert(front[j] == key);
                    assert(keys[j] == key);
                }
            }
        }
        if hk.contains(key) {
            let a0 = hk.index_of(key);
            assert(head[a0].key == key);
            assert(p == head);
        } else if last_under(rows, key) is Some {
            let e = last_under(rows, key)->0;
            assert(p == head.push(e));
            assert(p[head.len() as int] == e);
            assert forall|a: int| 0 <= a < head.len() implies (#[trigger] head[a]).key != key by {
                assert(hk[a] == head[a].key);
            }
            assert forall|i: int| 0 <= i < n implies keys[i] != key by {
                if keys[i] == key {
                    assert(exists_under(rows, front[i]));
                    let a = choose|a: int|
                        0 <= a < head.len() && (#[trigger] head[a]).key == front[i];
                    assert(hk[a] == key);
                }
            }
        }
        assert forall|a: int, b: int, i: int, j: int|
            #![trigger p[a], p[b], keys[i], keys[j]]
            0 <= a < p.len() && 0 <= b < p.len() && first_at(keys, i) && first_at(keys, j)
                && keys[i] == p[a].key && keys[j] == p[b].key && i < j implies a < b by {
            assert(first_at(front, i));
            assert(front[i] == keys[i]);
            if j < n {
                assert(first_at(front, j));
                assert(front[j] == keys[j]);
                if a < head.len() && b < head.len() {
                    assert(head[a] == p[a] && head[b] == p[b]);
                }
            } else {
                if b < head.len() {
                    assert(head[b] == p[b]);
                }
                if a < head.len() {
                    assert(head[a] == p[a]);
                }
            }
        }
        assert forall|a: int| 0 <= a < p.len() implies is_last_of(rows, #[trigger] p[a])
            && keys.contains(p[a].key) by {
            if a < head.len() {
                assert(p[a] == head[a]);
                let j = front.index_of(head[a].key);
                assert(keys[j] == p[a].key);
            } else {
                assert(keys[n] == p[a].key);
            }
        }
        assert forall|i: int| 0 <= i < keys.len() && exists_under(rows, #[trigger] keys[i]) implies (
        exists|a: int| 0 <= a < p.len() && (#[trigger] p[a]).key == keys[i]) by {
            if i < n {
                assert(front[i] == keys[i]);
                let a = choose|a: int| 0 <= a < head.len() && (#[trigger] head[a]).key == front[i];
                assert(p[a].key == keys[i]);
            } else if hk.contains(key) {
                let a0 = hk.index_of(key);
                assert(p[a0].key == keys[i]);
            } else {
                assert(p[head.len() as int].key == keys[i]);
            }
        }
        assert forall|a: int, b: int| 0 <= a < b < p.len() implies (#[trigger] p[a]).key != (
        #[trigger] p[b]).key by {
            assert(p[a] == head[a]);
            if b < head.len() {
                assert(p[b] == head[b]);
            }
        }
    }
}

/// The entries that a recall returns stand in the order of the ranked keys: if
/// two of them have the keys ranked at positions `i < j`, the one ranked at `i`
/// comes before the other. Each is the entry that was fetched under its key, no
/// key comes twice, and every ranked key under which an entry was fetched is
/// there.
pub proof fn law_recall_keeps_the_ranking(
    vectors: bool,
    req: RecallRequest,
    keys: Vec<String>,
    rows: Vec<MemoryEntry>,
)
    ensures
        next_action(
            vectors,
            req,
            (RecallEvent::Fetched { keys, rows: Ok(rows) }),
        ) matches ActionView::Return(p) && {
            &&& in_order(p, texts(keys@))
            &&& forall|a: int|
                0 <= a < p.len() ==> is_last_of(entry_views(rows@), #[trigger] p[a])
                    && texts(keys@).contains(p[a].key)
            &&& forall|i: int|
                0 <= i < keys@.len() && exists_under(
                    entry_views(rows@),
                    #[trigger] texts(keys@)[i],
                ) ==> exists|a: int|
                    0 <= a < p.len() && (#[trigger] p[a]).key == texts(keys@)[i]
            &&& forall|a: int, b: int|
                0 <= a < b < p.len() ==> (#[trigger] p[a]).key != (#[trigger] p[b]).key
        },
{
    law_picked_keeps_the_ranking(texts(keys@), entry_views(rows@));
}

/// The first entry that a recall returns is that of the best-ranked key under
/// which there still is one.
pub proof fn law_best_key_comes_first(
    vectors: bool,
    req: RecallRequest,
    keys: Vec<String>,
    rows: Vec<MemoryEntry>,
    best: int,
    row: int,
)
    requires
        0 <= best < keys@.len(),
        0 <= row < rows@.len(),
        rows@[row].key@ == keys@[best]@,
        forall|i: int, k: int|
            #![trigger keys@[i], rows@[k]]
            0 <= i < best && 0 <= k < rows@.len() ==> rows@[k].key@ != keys@[i]@,
    ensures
        next_action(
            vectors,
            req,
            (RecallEvent::Fetched { keys, rows: Ok(rows) }),
        ) matches ActionView::Return(p) && p.len() > 0 && p[0].key == keys@[best]@,
{
    let ks = texts(keys@);
    let rs = entry_views(rows@);
    law_picked_keeps_the_ranking(ks, rs);
    let p = picked(ks, rs);
    assert(rs[row].key == ks[best]);
    assert(exists_under(rs, ks[best]));
    let a = choose|a: int| 0 <= a < p.len() && (#[trigger] p[a]).key == ks[best];
    assert forall|h: int| 0 <= h < best implies #[trigger] ks[h] != ks[best] by {
        if ks[h] == ks[best] {
            assert(rows@[row].key@ != keys@[h]@);
        }
    }
    assert(first_at(ks, best));
    if a != 0 {
        assert(is_last_of(rs, p[0]));
        let k = choose|k: int|
            0 <= k < rs.len() && #[trigger] rs[k] == p[0] && forall|j: int|
                k < j < rs.len() ==> (#[trigger] rs[j]).key != p[0].key;
        let i = lemma_first(ks, p[0].key);
        assert(rows@[k].key@ == keys@[i]@);
        assert(i >= best);
        assert(p[0].key != p[a].key);
        assert(i != best);
        assert(ks[i] == p[0].key && ks[best] == p[a].key);
    }
}

proof fn lemma_first(keys: Seq<Seq<char>>, key: Seq<char>) -> (i: int)
    requires
        keys.contains(key),
    ensures
        first_at(keys, i),
        keys[i] == key,
    decreases keys.len(),
{
    if keys.drop_last().contains(key) {
        let i = lemma_first(keys.drop_last(), key);
        assert(keys[i] == key);
        assert forall|j: int| 0 <= j < i implies #[trigger] keys[j] != keys[i] by {
            assert(keys.drop_last()[j] == keys[j]);
        }
        i
    } else {
        let i = keys.len() - 1;
        let k = keys.index_of(key);
        assert(keys[k] == key);
        if k < i {
            assert(keys.drop_last()[k] == key);
        }
        assert forall|j: int| 0 <= j < i implies #[trigger] keys[j] != keys[i] by {
            assert(keys.drop_last()[j] == keys[j]);
        }
        i
    }
}

// ---- from the ranked keys to those that are fetched ----

/// A scope reaches an entry of a category and a topic.
pub open spec fn reaches(scope: ScopeView, conversation: bool, topic: Option<Seq<char>>) -> bool {
    match scope {
        ScopeView::Clean => false,
        ScopeView::Full => true,
        ScopeView::FactsOnly => !conversation,
        ScopeView::CurrentTopic { topic_id } => !conversation || topic == Some(topic_id),
    }
}

/// What is known last of a key tells that the scope reaches it.
pub open spec fn key_reached(meta: Seq<KeyMeta>, scope: ScopeView, key: Seq<char>) -> bool {
    exists|k: int|
        {
            &&& 0 <= k < meta.len()
            &&& (#[trigger] meta[k]).key@ == key
            &&& reaches(scope, meta[k].category@ == "Conversation"@, opt_string(meta[k].topic))
            &&& forall|j: int| k < j < meta.len() ==> (#[trigger] meta[j]).key@ != key
        }
}

/// How many of the first `n` keys the scope reaches.
pub open spec fn reached(
    keys: Seq<Seq<char>>,
    meta: Seq<KeyMeta>,
    scope: ScopeView,
    n: int,
) -> int
    decreases n,
{
    if n <= 0 {
        0
    } else {
        reached(keys, meta, scope, n - 1) + (if key_reached(meta, scope, keys[n - 1]) {
            1int
        } else {
            0
        })
    }
}

proof fn lemma_reached_key(meta: Seq<KeyMeta>, scope: ScopeView, key: Seq<char>)
    ensures
        key_reached(meta, scope, key) <==> (last_under(stubs(meta), key) matches Some(e)
            && in_scope(e, scope)),
{
    reveal_strlit("Core");
    reveal_strlit("Daily");
    reveal_strlit("Conversation");
    reveal_strlit("Global");
    assert("Core"@.len() != "Conversation"@.len());
    assert("Daily"@.len() != "Conversation"@.len());
    assert("Global"@.len() != "Conversation"@.len());
    let s = stubs(meta);
    lemma_last_under(s, key);
    if last_under(s, key) is Some {
        let e = last_under(s, key)->0;
        let k = choose|k: int|
            0 <= k < s.len() && #[trigger] s[k] == e && forall|j: int|
                k < j < s.len() ==> (#[trigger] s[j]).key != e.key;
        assert(meta[k].key@ == key);
        assert forall|j: int| k < j < meta.len() implies (#[trigger] meta[j]).key@ != key by {
            assert(s[j].key == meta[j].key@);
        }
        assert(in_scope(e, scope) == reaches(
            scope,
            meta[k].category@ == "Conversation"@,
            opt_string(meta[k].topic),
        ));
        if key_reached(meta, scope, key) {
            let h = choose|h: int|
                {
                    &&& 0 <= h < meta.len()
                    &&& (#[trigger] meta[h]).key@ == key
                    &&& reaches(
                        scope,
                        meta[h].category@ == "Conversation"@,
                        opt_string(meta[h].topic),
                    )
                    &&& forall|j: int| h < j < meta.len() ==> (#[trigger] meta[j]).key@ != key
                };
            assert(h == k);
        }
    } else if key_reached(meta, scope, key) {
        let h = choose|h: int|
            {
                &&& 0 <= h < meta.len()
                &&& (#[trigger] meta[h]).key@ == key
                &&& reaches(
                    scope,
                    meta[h].category@ == "Conversation"@,
                    opt_string(meta[h].topic),
                )
                &&& forall|j: int| h < j < meta.len() ==> (#[trigger] meta[j]).key@ != key
            };
        assert(s[h].key == key);
        assert(exists_under(s, key));
    }
}

proof fn lemma_reached_front(keys: Seq<Seq<char>>, meta: Seq<KeyMeta>, scope: ScopeView, n: int)
    requires
        0 <= n < keys.len(),
    ensures
        reached(keys.drop_last(), meta, scope, n) == reached(keys, meta, scope, n),
    decreases n,
{
    if n > 0 {
        lemma_reached_front(keys, meta, scope, n - 1);
    }
}

proof fn lemma_keys_in_scope(
    keys: Seq<Seq<char>>,
    meta: Seq<KeyMeta>,
    scope: ScopeView,
    n: int,
)
    ensures
        keys_in_scope(keys, stubs(meta), scope).len() == reached(
            keys,
            meta,
            scope,
            keys.len() as int,
        ),
        0 <= n < keys.len() && key_reached(meta, scope, keys[n]) ==> {
            let at = reached(keys, meta, scope, n);
            0 <= at < keys_in_scope(keys, stubs(meta), scope).len() && keys_in_scope(
                keys,
                stubs(meta),
                scope,
            )[at] == keys[n]
        },
    decreases keys.len(),
{
    if keys.len() > 0 {
        lemma_keys_in_scope(keys.drop_last(), meta, scope, n);
        lemma_reached_key(meta, scope, keys.last());
        lemma_reached_front(keys, meta, scope, keys.len() - 1);
        if 0 <= n < keys.len() - 1 {
            lemma_reached_front(keys, meta, scope, n);
        }
    }
}

/// Of the ranked keys those are fetched that the scope reaches, in their order,
/// as many as asked for: the key at position `n`, if it is reached, is fetched
/// at the position that counts the reached keys before it. Nothing is fetched,
/// and the recall returns nothing, only if there is none or none is asked for.
pub proof fn law_reached_keys_are_fetched_in_order(
    vectors: bool,
    req: RecallRequest,
    keys: Vec<String>,
    meta: Vec<KeyMeta>,
    n: int,
)
    ensures
        ({
            let all = reached(texts(keys@), meta@, req.scope@, keys@.len() as int);
            match next_action(vectors, req, (RecallEvent::Described { keys, meta: Ok(meta) })) {
                ActionView::Fetch { keys: top, query } => {
                    &&& top.len() > 0
                    &&& top.len() == (if all <= req.limit {
                        all
                    } else {
                        req.limit as int
                    })
                    &&& 0 <= n < keys@.len() && key_reached(meta@, req.scope@, keys@[n]@) ==> {
                        let at = reached(texts(keys@), meta@, req.scope@, n);
                        0 <= at && (at < req.limit ==> at < top.len() && top[at] == keys@[n]@)
                    }
                },
                ActionView::Return(p) => p.len() == 0 && (all == 0 || req.limit == 0),
                _ => false,
            }
        }),
{
    lemma_keys_in_scope(texts(keys@), meta@, req.scope@, n);
    let all = keys_in_scope(texts(keys@), stubs(meta@), req.scope@);
    if 0 <= n < keys@.len() {
        assert(texts(keys@)[n] == keys@[n]@);
    }
}

/// How many of the first `n` entries the scope reaches.
pub open spec fn reached_entries(rows: Seq<EntryView>, scope: ScopeView, n: int) -> int
    decreases n,
{
    if n <= 0 {
        0
    } else {
        reached_entries(rows, scope, n - 1) + (if reaches(
            scope,
            rows[n - 1].category is Conversation,
            rows[n - 1].topic,
        ) {
            1int
        } else {
            0
        })
    }
}

proof fn lemma_reached_entries_front(rows: Seq<EntryView>, scope: ScopeView, n: int)
    requires
        0 <= n < rows.len(),
    ensures
        reached_entries(rows.drop_last(), scope, n) == reached_entries(rows, scope, n),
    decreases n,
{
    if n > 0 {
        lemma_reached_entries_front(rows, scope, n - 1);
    }
}

proof fn lemma_scoped(rows: Seq<EntryView>, scope: ScopeView, limit: nat, n: int)
    ensures
        scoped(rows, scope, limit).len() == if reached_entries(rows, scope, rows.len() as int)
            <= limit {
            reached_entries(rows, scope, rows.len() as int)
        } else {
            limit as int
        },
        reached_entries(rows, scope, rows.len() as int) >= 0,
        0 <= n < rows.len() && reaches(scope, rows[n].category is Conversation, rows[n].topic) ==> {
            let at = reached_entries(rows, scope, n);
            0 <= at && (at < limit ==> at < scoped(rows, scope, limit).len() && scoped(
                rows,
                scope,
                limit,
            )[at] == rows[n])
        },
    decreases rows.len(),
{
    if rows.len() > 0 {
        lemma_scoped(rows.drop_last(), scope, limit, n);
        lemma_reached_entries_front(rows, scope, rows.len() - 1);
        if 0 <= n < rows.len() - 1 {
            lemma_reached_entries_front(rows, scope, n);
        }
        assert(rows.last().category is Conversation <==> rows.last().category
            == CategoryView::Conversation);
    }
}

/// A recall that ends in a scan returns the entries found that the scope
/// reaches, in their order, as many as asked for.
pub proof fn law_scan_keeps_the_order(
    vectors: bool,
    req: RecallRequest,
    rows: Vec<MemoryEntry>,
    n: int,
)
    ensures
        next_action(vectors, req, RecallEvent::Scanned(Ok(rows))) matches ActionView::Return(p) && {
            let all = reached_entries(entry_views(rows@), req.scope@, rows@.len() as int);
            &&& p.len() == (if all <= req.limit {
                all
            } else {
                req.limit as int
            })
            &&& 0 <= n < rows@.len() && reaches(
                req.scope@,
                rows@[n].category is Conversation,
                opt_string(rows@[n].topic),
            ) ==> {
                let at = reached_entries(entry_views(rows@), req.scope@, n);
                0 <= at && (at < req.limit ==> at < p.len() && p[at] == rows@[n]@)
            }
        },
{
    lemma_scoped(entry_views(rows@), req.scope@, req.limit as nat, n);
    if 0 <= n < rows@.len() {
        assert(entry_views(rows@)[n] == rows@[n]@);
    }
}

/// The keys that both searches found are described in the order of their
/// scores: of two keys with different scores the one with the higher score
/// comes first, and every key is there.
pub proof fn law_higher_scores_come_first(
    vectors: bool,
    req: RecallRequest,
    table: Vec<RankedKey>,
    scores: Vec<u64>,
)
    requires
        scores@.len() == table@.len(),
        table@.len() > 0,
        forall|i: int, j: int|
            0 <= i < j < table@.len() ==> (#[trigger] table@[i]).key@ != (
            #[trigger] table@[j]).key@,
    ensures
        next_action(
            vectors,
            req,
            (RecallEvent::Scored { table, scores }),
        ) matches ActionView::Describe { keys, query } && {
            &&& keys.len() == table@.len()
            &&& forall|i: int|
                #![trigger table@[i]]
                0 <= i < table@.len() ==> keys.contains(table@[i].key@)
            &&& forall|a: int, b: int, i: int, j: int|
                #![trigger keys[a], keys[b], table@[i], table@[j]]
                0 <= a < b < keys.len() && 0 <= i < table@.len() && 0 <= j < table@.len()
                    && table@[i].key@ == keys[a] && table@[j].key@ == keys[b] ==> scores@[i]
                    >= scores@[j]
        },
{
    let t = rank_views(table@);
    let z = Seq::new(t.len(), |i: int| (scores@[i], t[i].key));
    let f = fused(t, scores@);
    let keys = Seq::new(f.len(), |i: int| f[i].1);
    law_ranked_is_a_descending_permutation(z);
    assert(f == ranked(z));
    broadcast use vstd::seq_lib::group_to_multiset_ensures;

    assert forall|i: int|
        #![trigger table@[i]]
        0 <= i < table@.len() implies keys.contains(table@[i].key@) by {
        assert(z[i] == (scores@[i], table@[i].key@));
        assert(z.contains(z[i]));
        assert(z.to_multiset().count(z[i]) > 0);
        assert(f.to_multiset().count(z[i]) > 0);
        assert(f.contains(z[i]));
        let k = f.index_of(z[i]);
        assert(keys[k] == table@[i].key@);
    }
    assert forall|a: int, i: int|
        #![trigger f[a], table@[i]]
        0 <= a < f.len() && 0 <= i < table@.len() && table@[i].key@ == f[a].1 implies f[a].0
        == scores@[i] by {
        assert(f.contains(f[a]));
        assert(f.to_multiset().count(f[a]) > 0);
        assert(z.to_multiset().count(f[a]) > 0);
        assert(z.contains(f[a]));
        let k = z.index_of(f[a]);
        assert(z[k] == f[a]);
        assert(z[k] == (scores@[k], table@[k].key@));
        if k < i {
            assert(table@[k].key@ != table@[i].key@);
        } else if i < k {
            assert(table@[i].key@ != table@[k].key@);
        }
    }
    assert forall|a: int, b: int, i: int, j: int|
        #![trigger keys[a], keys[b], table@[i], table@[j]]
        0 <= a < b < keys.len() && 0 <= i < table@.len() && 0 <= j < table@.len()
            && table@[i].key@ == keys[a] && table@[j].key@ == keys[b] implies scores@[i]
        >= scores@[j] by {
        assert(f[a].0 == scores@[i]);
        assert(f[b].0 == scores@[j]);
    }
}

/// The keys that a search for words found are described in the order in which
/// it found them.
pub proof fn law_words_keep_their_order(vectors: bool, req: RecallRequest, keys: Vec<String>)
    requires
        keys@.len() > 0,
    ensures
        next_action(
            vectors,
            req,
            RecallEvent::FoundByWords(Ok(keys)),
        ) matches ActionView::Describe { keys: asked, query } && asked.len() == keys@.len()
            && forall|i: int| 0 <= i < asked.len() ==> #[trigger] asked[i] == keys@[i]@,
{
}

/// What fails in the middle of a recall is what the recall fails with.
pub proof fn law_failures_are_reported(
    vectors: bool,
    req: RecallRequest,
    keys: Vec<String>,
    error: String,
)
    ensures
        next_action(
            vectors,
            req,
            (RecallEvent::Described { keys, meta: Err(error) }),
        ) == ActionView::Fail(error@),
        next_action(
            vectors,
            req,
            (RecallEvent::Fetched { keys, rows: Err(error) }),
        ) == ActionView::Fail(error@),
        next_action(vectors, req, RecallEvent::Scanned(Err(error))) == ActionView::Fail(error@),
{
}

} // verus!
