//! What the calls of the memory's functions return.
use vstd::prelude::*;
use crate::memory::embeddings::{bytes_to_vec, vec_to_bytes};
use crate::memory::query::pick_entries;
use crate::memory::ranking::{law_ranked_is_a_descending_permutation, rank};
use crate::memory::recall_laws::{
    exists_under, in_order, is_last_of, law_picked_keeps_the_ranking, law_recall_keeps_the_ranking,
};
use crate::memory::sqlite::{
    ActionView, RecallAction, RecallEvent, RecallRequest, SqliteMemory,
};
use crate::model::memory::{entry_views, MemoryEntry};
use crate::text::texts;

verus! {

/// A call of `recall` with the fetched rows returns them in the order of the
/// ranked keys, each key once, each with the entry fetched under it.
pub proof fn law_recall_returns_the_ranking(
    memory: SqliteMemory,
    req: RecallRequest,
    keys: Vec<String>,
    rows: Vec<MemoryEntry>,
    r: RecallAction,
)
    requires
        call_ensures(
            SqliteMemory::recall,
            (&memory, &req, RecallEvent::Fetched { keys, rows: Ok(rows) }),
            r,
        ),
    ensures
        r@ matches ActionView::Return(p) && {
            &&& in_order(p, texts(keys@))
            &&& forall|a: int|
                0 <= a < p.len() ==> is_last_of(entry_views(rows@), #[trigger] p[a])
                    && texts(keys@).contains(p[a].key)
            &&& forall|i: int|
                0 <= i < keys@.len() && exists_under(
                    entry_views(rows@),
                    #[trigger] texts(keys@)[i],
                ) ==> exists|a: int|
                    0 <= a < p.len() && (#[trigger] p[a]).key == texts(keys@)[i]
        },
{
    law_recall_keeps_the_ranking(memory.indexes_vectors(), req, keys, rows);
}

/// The entries picked for some keys stand in the order of the keys.
pub proof fn law_picked_entries_follow_the_keys(
    keys: Vec<String>,
    entries: Vec<MemoryEntry>,
    r: Vec<MemoryEntry>,
)
    requires
        call_ensures(pick_entries, (&keys, &entries), r),
    ensures
        in_order(entry_views(r@), texts(keys@)),
        forall|a: int|
            0 <= a < r@.len() ==> is_last_of(entry_views(entries@), #[trigger] entry_views(r@)[a]),
        forall|i: int|
            0 <= i < keys@.len() && exists_under(
                entry_views(entries@),
                #[trigger] texts(keys@)[i],
            ) ==> exists|a: int|
                0 <= a < r@.len() && (#[trigger] entry_views(r@)[a]).key == texts(keys@)[i],
{
    law_picked_keeps_the_ranking(texts(keys@), entry_views(entries@));
}

/// What is ranked comes with the highest score first, and nothing is lost or
/// added.
pub proof fn law_ranked_items(items: Vec<(u64, String)>, r: Vec<(u64, String)>)
    requires
        call_ensures(rank::<String>, (items,), r),
    ensures
        r@.to_multiset() == items@.to_multiset(),
        forall|i: int, j: int| 0 <= i < j < r@.len() ==> (#[trigger] r@[i]).0 >= (#[trigger] r@[j]).0,
{
    law_ranked_is_a_descending_permutation(items@);
}

/// A number is written as four bytes that count ones, 256s, 65536s and
/// 16777216s, in this order.
pub proof fn law_lowest_byte_first(v: &[u32], r: Vec<u8>, i: int)
    requires
        call_ensures(vec_to_bytes, (v,), r),
        0 <= i < v@.len(),
    ensures
        r@.len() == 4 * v@.len(),
        v@[i] == r@[4 * i] + 256 * r@[4 * i + 1] + 65536 * r@[4 * i + 2] + 16777216 * r@[4 * i + 3],
{
    let n = v@[i];
    assert((4 * i) / 4 == i && (4 * i) % 4 == 0);
    assert((4 * i + 1) / 4 == i && (4 * i + 1) % 4 == 1);
    assert((4 * i + 2) / 4 == i && (4 * i + 2) % 4 == 2);
    assert((4 * i + 3) / 4 == i && (4 * i + 3) % 4 == 3);
    assert(n == n % 0x100 + 0x100 * (n / 0x100 % 0x100) + 0x1_0000 * (n / 0x1_0000 % 0x100)
        + 0x100_0000 * (n / 0x100_0000));
}

/// Four bytes are read as ones, 256s, 65536s and 16777216s, in this order.
pub proof fn law_bytes_are_read_lowest_first(b: &[u8], r: Vec<u32>, i: int)
    requires
        call_ensures(bytes_to_vec, (b,), r),
        0 <= i < b@.len() / 4,
    ensures
        r@.len() == b@.len() / 4,
        r@[i] == b@[4 * i] + 256 * b@[4 * i + 1] + 65536 * b@[4 * i + 2] + 16777216 * b@[4 * i + 3],
{
}

} // verus!
