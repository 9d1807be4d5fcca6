//! Merging entries that say the same: a model groups them, and each group
//! becomes one entry.
use vstd::prelude::*;
use vstd::utf8::encode_utf8;
use crate::json::{json_parse, json_views, parse_json};
use crate::memory::query::distinct;
use crate::memory::reply::{
    bracketed, brackets, read_strings, string_items, string_lists, take_bracketed,
};
use crate::memory::rrf::list_views;
use crate::memory::scope::same_category;
use crate::model::memory::{
    entry_views, Category, CategoryView, EntryView, MemoryEntry,
};
use crate::text::{
    byte_len, cat2, cat4, chars_of, join, join_strings, same_str, str_trim, string_of_range, texts,
    trim,
};

verus! {

/// How many entries a category has at least before it is consolidated.
pub const MIN_ENTRIES_FOR_CONSOLIDATION: usize = 5;

/// How many entries are looked at together unless configured otherwise.
pub const DEFAULT_BATCH_SIZE: usize = 50;

/// How many bytes of an entry the model sees when it groups entries.
pub const PREVIEW_BYTES: usize = 200;

/// What the model is told about grouping.
pub const CLUSTER_SYSTEM: &'static str =
    "You are a memory deduplication assistant. Analyze the memory entries and identify groups of entries that contain redundant or highly overlapping information. Return a JSON array of arrays, where each inner array contains the keys of entries that should be merged. Only include groups with 2 or more entries. If no duplicates exist, return an empty array []. Example: [[\"key1\", \"key3\"], [\"key2\", \"key5\", \"key7\"]]";

/// What the model is told about merging.
pub const MERGE_SYSTEM: &'static str =
    "You are a memory consolidation assistant. Merge the following related memory entries into a single, comprehensive entry that preserves all unique facts. Be concise — remove repetition while keeping everything important. Return only the merged content, no explanation.";

// ---- batches ----

/// Whether a category is consolidated: what all agents share is left alone.
pub fn takes_part(category: &Category) -> (r: bool)
    ensures
        r == (category@ != CategoryView::Global),
{
    !same_category(category, &Category::Global)
}

/// The entries in batches of `n`, the last one with what is left.
pub open spec fn chunks(s: Seq<EntryView>, n: int) -> Seq<Seq<EntryView>>
    decreases s.len(),
{
    if n <= 0 || s.len() == 0 {
        Seq::empty()
    } else if s.len() <= n {
        seq![s]
    } else {
        seq![s.take(n)] + chunks(s.skip(n), n)
    }
}

/// The batches of a category: none if it is too small.
pub open spec fn planned_batches(s: Seq<EntryView>, n: int) -> Seq<Seq<EntryView>> {
    if s.len() < MIN_ENTRIES_FOR_CONSOLIDATION {
        Seq::empty()
    } else {
        chunks(s, n)
    }
}

pub open spec fn batch_views(s: Seq<Vec<MemoryEntry>>) -> Seq<Seq<EntryView>> {
    Seq::new(s.len(), |i: int| entry_views(s[i]@))
}

pub open spec fn concat(s: Seq<Seq<EntryView>>) -> Seq<EntryView>
    decreases s.len(),
{
    if s.len() == 0 {
        Seq::empty()
    } else {
        s[0] + concat(s.drop_first())
    }
}

/// Batches hold every entry once, in order, and none is empty or too large.
pub proof fn law_batches_cover_the_entries(s: Seq<EntryView>, n: int)
    requires
        n > 0,
    ensures
        concat(chunks(s, n)) == s,
        forall|i: int|
            0 <= i < chunks(s, n).len() ==> 0 < (#[trigger] chunks(s, n)[i]).len() <= n,
    decreases s.len(),
{
    if s.len() == 0 {
        assert(concat(chunks(s, n)) =~= s);
    } else if s.len() <= n {
        let c = seq![s];
        assert(c.drop_first() =~= Seq::<Seq<EntryView>>::empty());
        assert(concat(c) =~= s + concat(c.drop_first()));
        assert(concat(c) =~= s);
    } else {
        law_batches_cover_the_entries(s.skip(n), n);
        let rest = chunks(s.skip(n), n);
        let c = seq![s.take(n)] + rest;
        assert(c.drop_first() =~= rest);
        assert(s.take(n) + s.skip(n) =~= s);
        assert forall|i: int| 0 <= i < c.len() implies 0 < (#[trigger] c[i]).len() <= n by {
            if i > 0 {
                assert(c[i] == rest[i - 1]);
            }
        }
    }
}

/// The size of batches.
pub open spec fn batch_size_of(batch_size: Option<usize>) -> int {
    match batch_size {
        Some(n) => n as int,
        None => DEFAULT_BATCH_SIZE as int,
    }
}

/// The batches of a category's entries.
pub fn consolidate(entries: Vec<MemoryEntry>, batch_size: Option<usize>) -> (r: Vec<
    Vec<MemoryEntry>,
>)
    requires
        batch_size matches Some(n) ==> n > 0 || entries@.len() < MIN_ENTRIES_FOR_CONSOLIDATION,
    ensures
        batch_views(r@) == planned_batches(entry_views(entries@), batch_size_of(batch_size)),
{
    let n: usize = match batch_size {
        Some(n) => n,
        None => DEFAULT_BATCH_SIZE,
    };
    let mut out: Vec<Vec<MemoryEntry>> = Vec::new();
    proof {
        assert(entry_views(entries@).len() == entries@.len());
        assert(batch_views(out@) =~= Seq::<Seq<EntryView>>::empty());
    }
    if entries.len() < MIN_ENTRIES_FOR_CONSOLIDATION {
        return out;
    }
    let ghost all = entry_views(entries@);
    let total: usize = entries.len();
    let mut at: usize = 0;
    proof {
        assert(all.skip(0) =~= all);
        assert(batch_views(out@) + chunks(all, n as int) =~= chunks(all, n as int));
    }
    while at < total
        invariant
            n > 0,
            at <= total,
            total == entries@.len(),
            all == entry_views(entries@),
            batch_views(out@) + chunks(all.skip(at as int), n as int) == chunks(all, n as int),
        decreases total - at,
    {
        let end: usize = if total - at <= n {
            total
        } else {
            at + n
        };
        let mut batch: Vec<MemoryEntry> = Vec::new();
        let mut i: usize = at;
        while i < end
            invariant
                at <= i <= end <= entries@.len(),
                batch@.len() == i - at,
                forall|k: int| 0 <= k < i - at ==> (#[trigger] batch@[k])@ == entries@[at + k]@,
            decreases end - i,
        {
            batch.push(entries[i].clone());
            i = i + 1;
        }
        let ghost before = batch_views(out@);
        let ghost rest = all.skip(at as int);
        proof {
            assert(entry_views(batch@) =~= rest.take(end - at));
        }
        out.push(batch);
        proof {
            assert(batch_views(out@) =~= before.push(rest.take(end - at)));
            assert(rest.skip(end - at) =~= all.skip(end as int));
            if end - at == rest.len() {
                assert(rest.take(end - at) =~= rest);
                assert(chunks(rest, n as int) =~= seq![rest]);
                assert(chunks(all.skip(end as int), n as int) =~= Seq::<Seq<EntryView>>::empty());
            }
            assert(before.push(rest.take(end - at)) + chunks(all.skip(end as int), n as int)
                =~= before + chunks(rest, n as int));
        }
        at = end;
    }
    proof {
        assert(all.skip(total as int) =~= Seq::<EntryView>::empty());
        assert(batch_views(out@) + Seq::<Seq<EntryView>>::empty() =~= batch_views(out@));
    }
    out
}

// ---- asking the model ----

/// How many characters of a text fit into `max` bytes, from `k` on.
pub open spec fn fitting(s: Seq<char>, max: nat, k: int) -> int
    decreases s.len() - k,
{
    if k < 0 || k >= s.len() || encode_utf8(s.take(k + 1)).len() > max {
        k
    } else {
        fitting(s, max, k + 1)
    }
}

/// As much of a text as fits into `max` bytes.
pub open spec fn truncated(s: Seq<char>, max: nat) -> Seq<char> {
    if encode_utf8(s).len() <= max {
        s
    } else {
        s.take(fitting(s, max, 0))
    }
}

/// As much of a text as fits into `max` bytes.
pub fn truncate(s: &str, max: usize) -> (r: String)
    ensures
        r@ == truncated(s@, max as nat),
{
    if byte_len(s) <= max {
        return s.to_owned();
    }
    let a = chars_of(s);
    let n: usize = a.len();
    let mut k: usize = 0;
    while k < n
        invariant
            n == a@.len(),
            a@ == s@,
            k <= n,
            fitting(s@, max as nat, 0) == fitting(s@, max as nat, k as int),
        ensures
            k <= n,
            k == fitting(s@, max as nat, 0),
        decreases n - k,
    {
        let prefix = string_of_range(&a, 0, k + 1);
        proof {
            assert(prefix@ =~= a@.take(k + 1));
        }
        if byte_len(prefix.as_str()) > max {
            break;
        }
        k = k + 1;
    }
    let r = string_of_range(&a, 0, k);
    proof {
        assert(r@ =~= s@.take(k as int));
    }
    r
}

/// An entry as the model sees it when it groups entries.
pub open spec fn preview(e: EntryView) -> Seq<char> {
    "KEY: "@ + e.key + "\nCONTENT: "@ + truncated(e.content, PREVIEW_BYTES as nat)
}

pub open spec fn previews(s: Seq<EntryView>) -> Seq<Seq<char>> {
    Seq::new(s.len(), |i: int| preview(s[i]))
}

/// What the model is asked when it groups entries.
pub fn cluster_prompt(entries: &Vec<MemoryEntry>) -> (r: String)
    ensures
        r@ == "Identify groups of semantically redundant memory entries:\n\n"@ + join(
            previews(entry_views(entries@)),
            "\n\n---\n\n"@,
        ),
{
    let mut parts: Vec<String> = Vec::new();
    let mut i: usize = 0;
    while i < entries.len()
        invariant
            i <= entries@.len(),
            parts@.len() == i,
            forall|k: int| 0 <= k < i ==> (#[trigger] parts@[k])@ == preview(entries@[k]@),
        decreases entries.len() - i,
    {
        let t = truncate(entries[i].content.as_str(), PREVIEW_BYTES);
        parts.push(cat4("KEY: ", entries[i].key.as_str(), "\nCONTENT: ", t.as_str()));
        i = i + 1;
    }
    proof {
        assert(texts(parts@) =~= previews(entry_views(entries@)));
    }
    let text = join_strings(&parts, "\n\n---\n\n");
    cat2("Identify groups of semantically redundant memory entries:\n\n", text.as_str())
}

pub open spec fn contents_listed(s: Seq<EntryView>) -> Seq<Seq<char>> {
    Seq::new(s.len(), |i: int| "- "@ + s[i].content)
}

/// What the model is asked when it merges a group.
pub open spec fn merge_question(members: Seq<EntryView>) -> Seq<char> {
    "Merge these related memory entries into one:\n\n"@ + join(contents_listed(members), "\n"@)
}

/// What the model is asked when it merges a group.
pub fn merge_prompt(members: &Vec<MemoryEntry>) -> (r: String)
    ensures
        r@ == merge_question(entry_views(members@)),
{
    let mut parts: Vec<String> = Vec::new();
    let mut i: usize = 0;
    while i < members.len()
        invariant
            i <= members@.len(),
            parts@.len() == i,
            forall|k: int| 0 <= k < i ==> (#[trigger] parts@[k])@ == "- "@ + members@[k].content@,
        decreases members.len() - i,
    {
        parts.push(cat2("- ", members[i].content.as_str()));
        i = i + 1;
    }
    proof {
        assert(texts(parts@) =~= contents_listed(entry_views(members@)));
    }
    let text = join_strings(&parts, "\n");
    cat2("Merge these related memory entries into one:\n\n", text.as_str())
}

// ---- groups ----

/// The groups with at least two keys.
pub open spec fn real_groups(s: Seq<Seq<Seq<char>>>) -> Seq<Seq<Seq<char>>>
    decreases s.len(),
{
    if s.len() == 0 {
        Seq::empty()
    } else {
        let head = real_groups(s.drop_last());
        if s.last().len() >= 2 {
            head.push(s.last())
        } else {
            head
        }
    }
}

/// The groups that a reply names: none if it holds no array of arrays of
/// strings.
pub open spec fn groups_in(raw: Seq<char>) -> Seq<Seq<Seq<char>>> {
    match bracketed(trim(raw)) {
        Some(b) => match json_parse(b) {
            Some(t) => match string_lists(t) {
                Some(s) => real_groups(s),
                None => Seq::empty(),
            },
            None => Seq::empty(),
        },
        None => Seq::empty(),
    }
}

/// The groups that a reply names.
pub fn parse_clusters_json(raw: &str) -> (r: Vec<Vec<String>>)
    ensures
        list_views(r@) == groups_in(raw@),
{
    let mut out: Vec<Vec<String>> = Vec::new();
    proof {
        assert(list_views(out@) =~= Seq::<Seq<Seq<char>>>::empty());
    }
    let t = str_trim(raw);
    let json = match take_bracketed(t.as_str()) {
        Some(b) => b,
        None => {
            return out;
        },
    };
    let tree = match parse_json(json.as_str()) {
        Some(j) => j,
        None => {
            return out;
        },
    };
    let items = match tree.as_arr() {
        Some(items) => items,
        None => {
            return out;
        },
    };
    let ghost all = json_views(items@);
    let mut lists: Vec<Vec<String>> = Vec::new();
    let mut i: usize = 0;
    while i < items.len()
        invariant
            i <= items@.len(),
            all == json_views(items@),
            tree@.as_arr() == Some(all),
            bracketed(trim(raw@)) is Some,
            json_parse(bracketed(trim(raw@))->0) == Some(tree@),
            list_views(out@) == Seq::<Seq<Seq<char>>>::empty(),
            lists@.len() == i,
            forall|k: int|
                0 <= k < i ==> string_items(#[trigger] all[k]) == Some(texts(lists@[k]@)),
        decreases items.len() - i,
    {
        proof {
            assert(all[i as int] == items@[i as int]@);
        }
        match read_strings(&items[i]) {
            Some(v) => {
                lists.push(v);
            },
            None => {
                proof {
                    let items = tree@.as_arr()->0;
                    assert(string_items(items[i as int]) is None);
                }
                return out;
            },
        }
        i = i + 1;
    }
    let ghost named = list_views(lists@);
    proof {
        let want = Seq::new(all.len(), |i: int| string_items(all[i])->0);
        assert forall|k: int| 0 <= k < all.len() implies named[k] == want[k] by {
            assert(string_items(all[k]) == Some(texts(lists@[k]@)));
        }
        assert(named =~= want);
        assert(string_lists(tree@) == Some(named));
        assert(named.take(0) =~= Seq::<Seq<Seq<char>>>::empty());
    }
    for g in it: lists
        invariant
            list_views(it.seq()) == named,
            list_views(out@) == real_groups(named.take(it.index() as int)),
    {
        let ghost k = it.index() as int;
        let ghost before = list_views(out@);
        proof {
            assert(named[k] == texts(g@));
            assert(named.take(k + 1).drop_last() =~= named.take(k));
            assert(named.take(k + 1).last() == texts(g@));
            assert(texts(g@).len() == g@.len());
        }
        if g.len() >= 2 {
            out.push(g);
            proof {
                assert(list_views(out@) =~= before.push(texts(g@)));
            }
        }
    }
    proof {
        assert(named.take(named.len() as int) =~= named);
    }
    out
}

/// A reply without a bracketed list names no groups.
pub proof fn law_reply_without_list_names_no_groups(raw: Seq<char>)
    requires
        brackets(trim(raw)) matches Some((a, b)) ==> b < a,
    ensures
        groups_in(raw).len() == 0,
{
}

/// Where the first entry under a key stands, from position `i` on.
pub open spec fn entry_from(s: Seq<EntryView>, key: Seq<char>, i: int) -> Option<int>
    decreases s.len() - i,
{
    if i < 0 || i >= s.len() {
        None
    } else if s[i].key == key {
        Some(i)
    } else {
        entry_from(s, key, i + 1)
    }
}

proof fn lemma_entry_from(s: Seq<EntryView>, key: Seq<char>, i: int)
    requires
        0 <= i,
    ensures
        entry_from(s, key, i) matches Some(k) ==> i <= k < s.len() && s[k].key == key,
    decreases s.len() - i,
{
    if i < s.len() && s[i].key != key {
        lemma_entry_from(s, key, i + 1);
    }
}

/// The positions of the members of a group: those of its keys, each once, that
/// are there.
pub open spec fn member_positions(s: Seq<EntryView>, keys: Seq<Seq<char>>) -> Seq<int>
    decreases keys.len(),
{
    if keys.len() == 0 {
        Seq::empty()
    } else {
        let head = member_positions(s, keys.drop_last());
        match entry_from(s, keys.last(), 0) {
            Some(k) => head.push(k),
            None => head,
        }
    }
}

/// The least of some positions.
pub open spec fn least(s: Seq<int>) -> int
    decreases s.len(),
{
    if s.len() == 0 {
        0
    } else if s.len() == 1 {
        s[0]
    } else {
        let l = least(s.drop_last());
        if s.last() < l {
            s.last()
        } else {
            l
        }
    }
}

/// A group to be merged.
#[derive(Debug)]
pub struct MergeJob {
    /// The entries of the group, in the order of its keys.
    pub members: Vec<MemoryEntry>,
    /// The most recent one: the first in the listing.
    pub canonical: MemoryEntry,
}

pub struct JobView {
    pub members: Seq<EntryView>,
    pub canonical: EntryView,
}

impl View for MergeJob {
    type V = JobView;

    open spec fn view(&self) -> JobView {
        JobView { members: entry_views(self.members@), canonical: self.canonical@ }
    }
}

pub open spec fn job_views(s: Seq<MergeJob>) -> Seq<JobView> {
    Seq::new(s.len(), |i: int| s[i]@)
}

/// The job of a group: none if fewer than two of its members are there.
pub open spec fn job_of(s: Seq<EntryView>, keys: Seq<Seq<char>>) -> Option<JobView> {
    let ps = member_positions(s, distinct(keys));
    if ps.len() < 2 {
        None
    } else {
        Some(
            JobView {
                members: Seq::new(ps.len(), |i: int| s[ps[i]]),
                canonical: s[least(ps)],
            },
        )
    }
}

pub open spec fn jobs_of(s: Seq<EntryView>, groups: Seq<Seq<Seq<char>>>) -> Seq<JobView>
    decreases groups.len(),
{
    if groups.len() == 0 {
        Seq::empty()
    } else {
        let head = jobs_of(s, groups.drop_last());
        match job_of(s, groups.last()) {
            Some(j) => head.push(j),
            None => head,
        }
    }
}

fn find_entry(entries: &Vec<MemoryEntry>, key: &str) -> (r: Option<usize>)
    ensures
        match r {
            Some(k) => entry_from(entry_views(entries@), key@, 0) == Some(k as int) && k
                < entries@.len(),
            None => entry_from(entry_views(entries@), key@, 0) is None,
        },
{
    let ghost all = entry_views(entries@);
    let mut i: usize = 0;
    while i < entries.len()
        invariant
            i <= entries@.len(),
            all == entry_views(entries@),
            entry_from(all, key@, 0) == entry_from(all, key@, i as int),
        decreases entries.len() - i,
    {
        proof {
            assert(all[i as int] == entries@[i as int]@);
        }
        if same_str(entries[i].key.as_str(), key) {
            return Some(i);
        }
        i = i + 1;
    }
    None
}

fn seen_before(keys: &Vec<String>, n: usize) -> (r: bool)
    requires
        n < keys@.len(),
    ensures
        r == exists|j: int| 0 <= j < n && (#[trigger] keys@[j])@ == keys@[n as int]@,
{
    let mut i: usize = 0;
    while i < n
        invariant
            i <= n < keys@.len(),
            forall|j: int| 0 <= j < i ==> (#[trigger] keys@[j])@ != keys@[n as int]@,
        decreases n - i,
    {
        if same_str(keys[i].as_str(), keys[n].as_str()) {
            return true;
        }
        i = i + 1;
    }
    false
}

proof fn lemma_distinct_holds(s: Seq<Seq<char>>, t: Seq<char>)
    ensures
        distinct(s).contains(t) <==> s.contains(t),
    decreases s.len(),
{
    if s.len() > 0 {
        let head = s.drop_last();
        lemma_distinct_holds(head, t);
        lemma_distinct_holds(head, s.last());
        if s.contains(t) {
            let j = s.index_of(t);
            if j < s.len() - 1 {
                assert(head[j] == t);
                assert(head.contains(t));
                let q = distinct(head).index_of(t);
                assert(distinct(head)[q] == t);
                assert(distinct(s)[q] == t);
            } else {
                assert(t == s.last());
                if distinct(head).contains(t) {
                } else {
                    assert(distinct(s)[distinct(s).len() - 1] == t);
                }
            }
        }
        if distinct(s).contains(t) {
            if distinct(head).contains(t) {
                assert(head.contains(t));
                let q = head.index_of(t);
                assert(s[q] == t);
            } else {
                let q = distinct(s).index_of(t);
                assert(distinct(s)[q] == t);
                if q < distinct(head).len() {
                    assert(distinct(head)[q] == t);
                }
                assert(s[s.len() - 1] == t);
            }
        }
    }
}

/// The job of a group of keys.
pub fn plan_merge(entries: &Vec<MemoryEntry>, keys: &Vec<String>) -> (r: Option<MergeJob>)
    ensures
        match r {
            Some(j) => job_of(entry_views(entries@), texts(keys@)) == Some(j@),
            None => job_of(entry_views(entries@), texts(keys@)) is None,
        },
{
    let ghost all = entry_views(entries@);
    let ghost ks = texts(keys@);
    let mut members: Vec<MemoryEntry> = Vec::new();
    let ghost mut ps: Seq<int> = Seq::empty();
    let mut first: usize = 0;
    let mut i: usize = 0;
    proof {
        assert(ks.take(0) =~= Seq::<Seq<char>>::empty());
        assert(distinct(ks.take(0)) =~= Seq::<Seq<char>>::empty());
    }
    while i < keys.len()
        invariant
            i <= keys@.len(),
            all == entry_views(entries@),
            ks == texts(keys@),
            ps == member_positions(all, distinct(ks.take(i as int))),
            members@.len() == ps.len(),
            forall|k: int|
                0 <= k < ps.len() ==> 0 <= (#[trigger] ps[k]) < all.len() && members@[k]@
                    == all[ps[k]],
            ps.len() > 0 ==> first < entries@.len() && first == least(ps),
        decreases keys.len() - i,
    {
        let ghost d = distinct(ks.take(i as int));
        proof {
            assert(ks.take(i + 1).drop_last() =~= ks.take(i as int));
            assert(ks.take(i + 1).last() == keys@[i as int]@);
            lemma_distinct_holds(ks.take(i as int), keys@[i as int]@);
            if ks.take(i as int).contains(keys@[i as int]@) {
                let j = ks.take(i as int).index_of(keys@[i as int]@);
                assert(keys@[j]@ == keys@[i as int]@);
            }
        }
        let seen: bool = seen_before(keys, i);
        proof {
            if seen {
                let j = choose|j: int| 0 <= j < i && (#[trigger] keys@[j])@ == keys@[i as int]@;
                assert(ks.take(i as int)[j] == keys@[i as int]@);
                assert(ks.take(i as int).contains(keys@[i as int]@));
            }
            assert(seen == d.contains(keys@[i as int]@));
        }
        if !seen {
            proof {
                assert(d.push(keys@[i as int]@).drop_last() =~= d);
                assert(d.push(keys@[i as int]@).last() == keys@[i as int]@);
            }
            if let Some(k) = find_entry(entries, keys[i].as_str()) {
                let ghost before = ps;
                members.push(entries[k].clone());
                proof {
                    ps = ps.push(k as int);
                    assert(ps.drop_last() =~= before);
                }
                if members.len() == 1 || k < first {
                    first = k;
                }
            }
        }
        i = i + 1;
    }
    proof {
        assert(ks.take(ks.len() as int) =~= ks);
    }
    if members.len() < 2 {
        return None;
    }
    let canonical = entries[first].clone();
    let job = MergeJob { members, canonical };
    proof {
        assert(job@.members =~= Seq::new(ps.len(), |i: int| all[ps[i]]));
    }
    Some(job)
}

/// The groups of a batch that are to be merged, from the model's reply.
pub fn consolidate_batch(entries: &Vec<MemoryEntry>, reply: &str) -> (r: Vec<MergeJob>)
    ensures
        job_views(r@) == jobs_of(entry_views(entries@), groups_in(reply@)),
{
    let groups = parse_clusters_json(reply);
    plan_jobs(entries, &groups)
}

/// The groups of a batch that are to be merged.
pub fn plan_jobs(entries: &Vec<MemoryEntry>, groups: &Vec<Vec<String>>) -> (r: Vec<MergeJob>)
    ensures
        job_views(r@) == jobs_of(entry_views(entries@), list_views(groups@)),
{
    let ghost gs = list_views(groups@);
    let ghost all = entry_views(entries@);
    let mut out: Vec<MergeJob> = Vec::new();
    let mut i: usize = 0;
    proof {
        assert(gs.take(0) =~= Seq::<Seq<Seq<char>>>::empty());
        assert(job_views(out@) =~= Seq::<JobView>::empty());
    }
    while i < groups.len()
        invariant
            i <= groups@.len(),
            gs == list_views(groups@),
            all == entry_views(entries@),
            job_views(out@) == jobs_of(all, gs.take(i as int)),
        decreases groups.len() - i,
    {
        let ghost before = job_views(out@);
        proof {
            assert(gs.take(i + 1).drop_last() =~= gs.take(i as int));
            assert(gs.take(i + 1).last() == texts(groups@[i as int]@));
        }
        if let Some(j) = plan_merge(entries, &groups[i]) {
            out.push(j);
            proof {
                assert(job_views(out@) =~= before.push(j@));
            }
        }
        i = i + 1;
    }
    proof {
        assert(gs.take(gs.len() as int) =~= gs);
    }
    out
}

/// The keys of a job but the one that stays.
pub open spec fn other_keys(s: Seq<EntryView>, key: Seq<char>) -> Seq<Seq<char>>
    decreases s.len(),
{
    if s.len() == 0 {
        Seq::empty()
    } else {
        let head = other_keys(s.drop_last(), key);
        if s.last().key == key {
            head
        } else {
            head.push(s.last().key)
        }
    }
}

/// The merged entry of a job: it keeps the key and the category of the most
/// recent member and belongs to no session and no topic.
pub open spec fn merged_of(job: JobView, content: Seq<char>) -> EntryView {
    EntryView {
        key: job.canonical.key,
        content,
        category: job.canonical.category,
        session: None,
        topic: None,
    }
}

/// The keys that are forgotten once the merged entry of a job is stored.
pub open spec fn obsolete(job: JobView) -> Seq<Seq<char>> {
    other_keys(job.members, job.canonical.key)
}

impl MergeJob {
    /// The merged entry.
    pub fn merged_entry(&self, merged_content: &str) -> (r: MemoryEntry)
        ensures
            r@ == merged_of(self@, merged_content@),
    {
        MemoryEntry {
            key: self.canonical.key.clone(),
            content: merged_content.to_owned(),
            category: self.canonical.category.clone(),
            session: None,
            topic: None,
        }
    }

    /// The keys that are forgotten once the merged entry is stored.
    pub fn obsolete_keys(&self) -> (r: Vec<String>)
        ensures
            texts(r@) == obsolete(self@),
    {
        let ghost all = entry_views(self.members@);
        let mut out: Vec<String> = Vec::new();
        let mut i: usize = 0;
        proof {
            assert(all.take(0) =~= Seq::<EntryView>::empty());
            assert(texts(out@) =~= Seq::<Seq<char>>::empty());
        }
        while i < self.members.len()
            invariant
                i <= self.members@.len(),
                all == entry_views(self.members@),
                texts(out@) == other_keys(all.take(i as int), self.canonical.key@),
            decreases self.members.len() - i,
        {
            let ghost before = texts(out@);
            proof {
                assert(all.take(i + 1).drop_last() =~= all.take(i as int));
                assert(all.take(i + 1).last() == self.members@[i as int]@);
            }
            if !same_str(self.members[i].key.as_str(), self.canonical.key.as_str()) {
                out.push(self.members[i].key.clone());
                proof {
                    assert(texts(out@) =~= before.push(self.members@[i as int].key@));
                }
            }
            i = i + 1;
        }
        proof {
            assert(all.take(all.len() as int) =~= all);
        }
        out
    }
}

/// The merged entry stays: its key is that of a member and is not forgotten.
/// Every other key of the group is.
pub proof fn law_merge_keeps_one_key(s: Seq<EntryView>, keys: Seq<Seq<char>>)
    ensures
        job_of(s, keys) matches Some(j) ==> {
            &&& j.members.contains(j.canonical)
            &&& !other_keys(j.members, j.canonical.key).contains(j.canonical.key)
            &&& forall|i: int|
                0 <= i < j.members.len() ==> s.contains(#[trigger] j.members[i]) && (
                j.members[i].key == j.canonical.key || other_keys(
                    j.members,
                    j.canonical.key,
                ).contains(j.members[i].key))
        },
{
    if job_of(s, keys) is Some {
        let j = job_of(s, keys)->0;
        let ps = member_positions(s, distinct(keys));
        lemma_positions(s, distinct(keys));
        let i = lemma_least(ps);
        assert(j.members[i] == j.canonical);
        lemma_other_keys(j.members, j.canonical.key);
        assert forall|i: int| 0 <= i < j.members.len() implies s.contains(
            #[trigger] j.members[i],
        ) by {
            assert(0 <= ps[i] < s.len());
            assert(j.members[i] == s[ps[i]]);
        }
    }
}

proof fn lemma_positions(s: Seq<EntryView>, keys: Seq<Seq<char>>)
    ensures
        forall|i: int|
            0 <= i < member_positions(s, keys).len() ==> 0 <= (#[trigger] member_positions(
                s,
                keys,
            )[i]) < s.len(),
    decreases keys.len(),
{
    if keys.len() > 0 {
        lemma_positions(s, keys.drop_last());
        lemma_entry_from(s, keys.last(), 0);
        let head = member_positions(s, keys.drop_last());
        let all = member_positions(s, keys);
        assert forall|i: int| 0 <= i < all.len() implies 0 <= (#[trigger] all[i]) < s.len() by {
            if i < head.len() {
                assert(all[i] == head[i]);
            }
        }
    }
}

proof fn lemma_least(s: Seq<int>) -> (i: int)
    requires
        s.len() > 0,
    ensures
        0 <= i < s.len(),
        s[i] == least(s),
    decreases s.len(),
{
    if s.len() == 1 {
        0
    } else {
        let j = lemma_least(s.drop_last());
        if s.last() < least(s.drop_last()) {
            s.len() - 1
        } else {
            j
        }
    }
}

/// The key that stays is not among the others, and every other key is.
pub proof fn lemma_other_keys(s: Seq<EntryView>, key: Seq<char>)
    ensures
        !other_keys(s, key).contains(key),
        forall|i: int|
            0 <= i < s.len() ==> (#[trigger] s[i]).key == key || other_keys(s, key).contains(
                s[i].key,
            ),
    decreases s.len(),
{
    if s.len() > 0 {
        let head = s.drop_last();
        lemma_other_keys(head, key);
        let o = other_keys(head, key);
        assert forall|i: int| 0 <= i < s.len() implies (#[trigger] s[i]).key == key || other_keys(
            s,
            key,
        ).contains(s[i].key) by {
            if i < s.len() - 1 {
                assert(head[i] == s[i]);
                if s[i].key != key {
                    let q = o.index_of(s[i].key);
                    assert(o.contains(s[i].key));
                    assert(other_keys(s, key)[q] == s[i].key);
                }
            } else if s[i].key != key {
                assert(other_keys(s, key)[o.len() as int] == s[i].key);
            }
        }
        assert(!other_keys(s, key).contains(key)) by {
            if other_keys(s, key).contains(key) {
                let q = other_keys(s, key).index_of(key);
                assert(other_keys(s, key)[q] == key);
                if q < o.len() {
                    assert(o[q] == key);
                    assert(o.contains(key));
                }
            }
        }
    }
}

} // verus!
