//! Knowledge that all agents share, in front of what each remembers for
//! itself.
use vstd::prelude::*;
use crate::memory::scope::same_category;
use crate::model::memory::{
    entry_views, Category, CategoryView, EntryView, Memory, MemoryEntry, RecallScope,
};
use crate::text::same_str;

verus! {

/// The entries that are, or are not, global, in their order.
pub open spec fn parted(s: Seq<EntryView>, global: bool) -> Seq<EntryView>
    decreases s.len(),
{
    if s.len() == 0 {
        Seq::empty()
    } else {
        let head = parted(s.drop_last(), global);
        if (s.last().category == CategoryView::Global) == global {
            head.push(s.last())
        } else {
            head
        }
    }
}

pub open spec fn has_key(s: Seq<EntryView>, key: Seq<char>) -> bool {
    exists|i: int| 0 <= i < s.len() && (#[trigger] s[i]).key == key
}

/// The first entry under each key, at most `limit` of them, in their order.
pub open spec fn first_of_each(s: Seq<EntryView>, limit: nat) -> Seq<EntryView>
    decreases s.len(),
{
    if s.len() == 0 {
        Seq::empty()
    } else {
        let head = first_of_each(s.drop_last(), limit);
        if head.len() < limit && !has_key(head, s.last().key) {
            head.push(s.last())
        } else {
            head
        }
    }
}

/// What a recall returns: the global ones of the entries found without a
/// session, then the others of those found in the session.
pub open spec fn merged(
    found_globally: Seq<EntryView>,
    found_in_session: Seq<EntryView>,
    limit: nat,
) -> Seq<EntryView> {
    first_of_each(parted(found_globally, true) + parted(found_in_session, false), limit)
}

fn part(entries: Vec<MemoryEntry>, global: bool) -> (r: Vec<MemoryEntry>)
    ensures
        entry_views(r@) == parted(entry_views(entries@), global),
{
    let ghost all = entry_views(entries@);
    let mut out: Vec<MemoryEntry> = Vec::new();
    proof {
        assert(all.take(0) =~= Seq::<EntryView>::empty());
        assert(entry_views(out@) =~= Seq::<EntryView>::empty());
    }
    for e in it: entries
        invariant
            entry_views(it.seq()) == all,
            entry_views(out@) == parted(all.take(it.index() as int), global),
    {
        let ghost k = it.index() as int;
        let ghost before = entry_views(out@);
        proof {
            assert(all.take(k + 1).drop_last() =~= all.take(k));
            assert(all[k] == e@);
            assert(all.take(k + 1).last() == e@);
        }
        if same_category(&e.category, &Category::Global) == global {
            out.push(e);
            proof {
                assert(entry_views(out@) =~= before.push(e@));
            }
        }
    }
    proof {
        assert(all.take(all.len() as int) =~= all);
    }
    out
}

fn holds_key(entries: &Vec<MemoryEntry>, key: &str) -> (r: bool)
    ensures
        r == has_key(entry_views(entries@), key@),
{
    let ghost all = entry_views(entries@);
    let mut i: usize = 0;
    while i < entries.len()
        invariant
            i <= entries@.len(),
            all == entry_views(entries@),
            forall|j: int| 0 <= j < i ==> (#[trigger] all[j]).key != key@,
        decreases entries.len() - i,
    {
        proof {
            assert(all[i as int] == entries@[i as int]@);
        }
        if same_str(entries[i].key.as_str(), key) {
            return true;
        }
        i = i + 1;
    }
    false
}

/// What a recall returns of the entries found without a session and of those
/// found in the session.
pub fn merge_recall(
    found_globally: Vec<MemoryEntry>,
    found_in_session: Vec<MemoryEntry>,
    limit: usize,
) -> (r: Vec<MemoryEntry>)
    ensures
        entry_views(r@) == merged(
            entry_views(found_globally@),
            entry_views(found_in_session@),
            limit as nat,
        ),
{
    let mut chain = part(found_globally, true);
    let mut rest = part(found_in_session, false);
    let ghost g = entry_views(chain@);
    let ghost p = entry_views(rest@);
    chain.append(&mut rest);
    let ghost all = entry_views(chain@);
    proof {
        assert(all =~= g + p);
        assert(all.take(0) =~= Seq::<EntryView>::empty());
    }
    let mut out: Vec<MemoryEntry> = Vec::new();
    proof {
        assert(entry_views(out@) =~= Seq::<EntryView>::empty());
    }
    for e in it: chain
        invariant
            entry_views(it.seq()) == all,
            entry_views(out@) == first_of_each(all.take(it.index() as int), limit as nat),
    {
        let ghost k = it.index() as int;
        let ghost before = entry_views(out@);
        proof {
            assert(all.take(k + 1).drop_last() =~= all.take(k));
            assert(all[k] == e@);
            assert(all.take(k + 1).last() == e@);
        }
        if out.len() < limit && !holds_key(&out, e.key.as_str()) {
            out.push(e);
            proof {
                assert(entry_views(out@) =~= before.push(e@));
            }
        }
    }
    proof {
        assert(all.take(all.len() as int) =~= all);
    }
    out
}

/// A recall returns each key once and at most as many entries as asked for.
pub proof fn law_merged_keys_are_distinct(
    found_globally: Seq<EntryView>,
    found_in_session: Seq<EntryView>,
    limit: nat,
)
    ensures
        ({
            let m = merged(found_globally, found_in_session, limit);
            &&& m.len() <= limit
            &&& forall|i: int, j: int|
                0 <= i < j < m.len() ==> (#[trigger] m[i]).key != (#[trigger] m[j]).key
        }),
{
    lemma_first_of_each(parted(found_globally, true) + parted(found_in_session, false), limit);
}

proof fn lemma_first_of_each(s: Seq<EntryView>, limit: nat)
    ensures
        first_of_each(s, limit).len() <= limit,
        forall|i: int, j: int|
            0 <= i < j < first_of_each(s, limit).len() ==> (#[trigger] first_of_each(
                s,
                limit,
            )[i]).key != (#[trigger] first_of_each(s, limit)[j]).key,
    decreases s.len(),
{
    if s.len() > 0 {
        lemma_first_of_each(s.drop_last(), limit);
    }
}

/// Global entries come before all others.
pub proof fn law_globals_come_first(
    found_globally: Seq<EntryView>,
    found_in_session: Seq<EntryView>,
    limit: nat,
)
    ensures
        ({
            let m = merged(found_globally, found_in_session, limit);
            forall|i: int, j: int|
                0 <= i < j < m.len() && (#[trigger] m[j]).category == CategoryView::Global
                    ==> (#[trigger] m[i]).category == CategoryView::Global
        }),
{
    lemma_parted(found_globally, true);
    lemma_parted(found_in_session, false);
    lemma_globals_first(parted(found_globally, true), parted(found_in_session, false), limit);
}

proof fn lemma_parted(s: Seq<EntryView>, global: bool)
    ensures
        forall|i: int|
            0 <= i < parted(s, global).len() ==> ((#[trigger] parted(s, global)[i]).category
                == CategoryView::Global) == global,
    decreases s.len(),
{
    if s.len() > 0 {
        lemma_parted(s.drop_last(), global);
    }
}

proof fn lemma_globals_first(g: Seq<EntryView>, p: Seq<EntryView>, limit: nat)
    requires
        forall|i: int| 0 <= i < g.len() ==> (#[trigger] g[i]).category == CategoryView::Global,
        forall|i: int| 0 <= i < p.len() ==> (#[trigger] p[i]).category != CategoryView::Global,
    ensures
        ({
            let m = first_of_each(g + p, limit);
            &&& forall|i: int, j: int|
                0 <= i < j < m.len() && (#[trigger] m[j]).category == CategoryView::Global
                    ==> (#[trigger] m[i]).category == CategoryView::Global
            &&& p.len() == 0 ==> forall|i: int|
                0 <= i < m.len() ==> (#[trigger] m[i]).category == CategoryView::Global
        }),
    decreases g.len() + p.len(),
{
    if p.len() > 0 {
        assert((g + p).drop_last() =~= g + p.drop_last());
        assert((g + p).last() == p[p.len() - 1]);
        assert forall|i: int| 0 <= i < p.drop_last().len() implies (#[trigger] p.drop_last()[i]).category
            != CategoryView::Global by {
            assert(p.drop_last()[i] == p[i]);
        }
        lemma_globals_first(g, p.drop_last(), limit);
    } else if g.len() > 0 {
        assert((g + p).drop_last() =~= g.drop_last() + p);
        assert((g + p).last() == g[g.len() - 1]);
        assert forall|i: int| 0 <= i < g.drop_last().len() implies (#[trigger] g.drop_last()[i]).category
            == CategoryView::Global by {
            assert(g.drop_last()[i] == g[i]);
        }
        lemma_globals_first(g.drop_last(), p, limit);
    }
}

/// Shared knowledge that was found is returned: where there is room for all the
/// entries found without a session, the key of each global one is among those
/// returned.
pub proof fn law_globals_are_returned(
    found_globally: Seq<EntryView>,
    found_in_session: Seq<EntryView>,
    limit: nat,
    i: int,
)
    requires
        0 <= i < found_globally.len() <= limit,
        found_globally[i].category == CategoryView::Global,
    ensures
        has_key(merged(found_globally, found_in_session, limit), found_globally[i].key),
{
    let g = parted(found_globally, true);
    lemma_parted_keeps(found_globally, i);
    let j = choose|j: int| 0 <= j < g.len() && g[j] == found_globally[i];
    lemma_first_of_each_keeps(g, limit, j);
    lemma_first_of_each_grows(g, parted(found_in_session, false), limit, g[j].key);
}

proof fn lemma_parted_keeps(s: Seq<EntryView>, i: int)
    requires
        0 <= i < s.len(),
        s[i].category == CategoryView::Global,
    ensures
        parted(s, true).len() <= s.len(),
        exists|j: int| 0 <= j < parted(s, true).len() && parted(s, true)[j] == s[i],
    decreases s.len(),
{
    let head = parted(s.drop_last(), true);
    lemma_parted_len(s.drop_last(), true);
    if i == s.len() - 1 {
        assert(parted(s, true)[head.len() as int] == s[i]);
    } else {
        lemma_parted_keeps(s.drop_last(), i);
        let j = choose|j: int| 0 <= j < head.len() && head[j] == s.drop_last()[i];
        assert(parted(s, true)[j] == s[i]);
    }
}

proof fn lemma_parted_len(s: Seq<EntryView>, global: bool)
    ensures
        parted(s, global).len() <= s.len(),
    decreases s.len(),
{
    if s.len() > 0 {
        lemma_parted_len(s.drop_last(), global);
    }
}

/// As long as there is room, each key is kept.
proof fn lemma_first_of_each_keeps(s: Seq<EntryView>, limit: nat, j: int)
    requires
        0 <= j < s.len() <= limit,
    ensures
        has_key(first_of_each(s, limit), s[j].key),
    decreases s.len(),
{
    let head = first_of_each(s.drop_last(), limit);
    lemma_first_of_each_len(s.drop_last(), limit);
    if j == s.len() - 1 {
        if !has_key(head, s[j].key) {
            assert(first_of_each(s, limit)[head.len() as int].key == s[j].key);
        }
    } else {
        lemma_first_of_each_keeps(s.drop_last(), limit, j);
        let k = choose|k: int| 0 <= k < head.len() && (#[trigger] head[k]).key == s[j].key;
        assert(first_of_each(s, limit)[k] == head[k]);
    }
}

proof fn lemma_first_of_each_len(s: Seq<EntryView>, limit: nat)
    ensures
        first_of_each(s, limit).len() <= s.len(),
    decreases s.len(),
{
    if s.len() > 0 {
        lemma_first_of_each_len(s.drop_last(), limit);
    }
}

/// Entries behind `g` take no key away.
proof fn lemma_first_of_each_grows(
    g: Seq<EntryView>,
    p: Seq<EntryView>,
    limit: nat,
    key: Seq<char>,
)
    requires
        has_key(first_of_each(g, limit), key),
    ensures
        has_key(first_of_each(g + p, limit), key),
    decreases p.len(),
{
    if p.len() == 0 {
        assert(g + p =~= g);
    } else {
        assert((g + p).drop_last() =~= g + p.drop_last());
        lemma_first_of_each_grows(g, p.drop_last(), limit, key);
        let head = first_of_each(g + p.drop_last(), limit);
        let k = choose|k: int| 0 <= k < head.len() && (#[trigger] head[k]).key == key;
        assert(first_of_each(g + p, limit)[k] == head[k]);
    }
}

/// A memory whose recalls put the knowledge that all agents share in front.
#[derive(Debug)]
pub struct GlobalMemory<M: Memory> {
    pub inner: M,
}

impl<M: Memory> GlobalMemory<M> {
    pub fn new(inner: M) -> (r: GlobalMemory<M>)
        ensures
            r.inner == inner,
    {
        GlobalMemory { inner }
    }

    /// Stores an entry for all agents: it belongs to no session and no topic.
    pub fn store_global(&self, key: &str, content: &str) -> (r: Result<(), String>)
        ensures
            call_ensures(
                M::store,
                (&self.inner, key, content, Category::Global, None, None),
                r,
            ),
    {
        self.inner.store(key, content, Category::Global, None, None)
    }

    /// The entries for all agents.
    pub fn list_global(&self) -> (r: Result<Vec<MemoryEntry>, String>)
        ensures
            call_ensures(M::list, (&self.inner, Some(&Category::Global), None), r),
    {
        self.inner.list(Some(&Category::Global), None)
    }
}

/// The entries that a search found; none if it failed.
pub open spec fn found(r: Result<Vec<MemoryEntry>, String>) -> Seq<EntryView> {
    match r {
        Ok(v) => entry_views(v@),
        Err(_) => Seq::empty(),
    }
}

fn found_entries(r: Result<Vec<MemoryEntry>, String>) -> (v: Vec<MemoryEntry>)
    ensures
        entry_views(v@) == found(r),
{
    match r {
        Ok(v) => v,
        Err(_) => {
            let v: Vec<MemoryEntry> = Vec::new();
            proof {
                assert(entry_views(v@) =~= Seq::<EntryView>::empty());
            }
            v
        },
    }
}

impl<M: Memory> Memory for GlobalMemory<M> {
    fn name(&self) -> (r: &str)
        ensures
            r@ == "global"@,
    {
        "global"
    }

    fn store(
        &self,
        key: &str,
        content: &str,
        category: Category,
        session: Option<&str>,
        topic: Option<&str>,
    ) -> (r: Result<(), String>)
        ensures
            call_ensures(M::store, (&self.inner, key, content, category, session, topic), r),
    {
        self.inner.store(key, content, category, session, topic)
    }

    /// Nothing in a clean scope; else what the memory finds, the global
    /// entries in front.
    fn recall(
        &self,
        query: &str,
        limit: usize,
        session: Option<&str>,
        scope: RecallScope,
    ) -> (r: Result<Vec<MemoryEntry>, String>)
        ensures
            match r {
                Ok(v) => if scope is Clean {
                    v@.len() == 0
                } else {
                    exists|
                        g: Result<Vec<MemoryEntry>, String>,
                        p: Result<Vec<MemoryEntry>, String>,
                    |
                        call_ensures(
                            M::recall,
                            (&self.inner, query, limit, None, RecallScope::Full),
                            g,
                        ) && call_ensures(
                            M::recall,
                            (&self.inner, query, limit, session, scope),
                            p,
                        ) && entry_views(v@) == #[trigger] merged(
                            found(g),
                            found(p),
                            limit as nat,
                        )
                },
                Err(_) => false,
            },
    {
        if let RecallScope::Clean = scope {
            return Ok(Vec::new());
        }
        let g = self.inner.recall(query, limit, None, RecallScope::Full);
        let p = self.inner.recall(query, limit, session, scope);
        let ghost gr = g;
        let ghost pr = p;
        let out = merge_recall(found_entries(g), found_entries(p), limit);
        proof {
            assert(entry_views(out@) == merged(found(gr), found(pr), limit as nat));
        }
        Ok(out)
    }

    fn get(&self, key: &str) -> (r: Result<Option<MemoryEntry>, String>)
        ensures
            call_ensures(M::get, (&self.inner, key), r),
    {
        self.inner.get(key)
    }

    fn list(&self, category: Option<&Category>, session: Option<&str>) -> (r: Result<
        Vec<MemoryEntry>,
        String,
    >)
        ensures
            call_ensures(M::list, (&self.inner, category, session), r),
    {
        self.inner.list(category, session)
    }

    fn forget(&self, key: &str) -> (r: Result<bool, String>)
        ensures
            call_ensures(M::forget, (&self.inner, key), r),
    {
        self.inner.forget(key)
    }

    fn count(&self) -> (r: Result<usize, String>)
        ensures
            call_ensures(M::count, (&self.inner,), r),
    {
        self.inner.count()
    }

    fn health_check(&self) -> (r: bool)
        ensures
            call_ensures(M::health_check, (&self.inner,), r),
    {
        self.inner.health_check()
    }
}

} // verus!
