//! What the statements of a memory in a database mean, over the rows of its
//! table as SQL defines them, and what follows for storing, getting, forgetting
//! and listing.  That a database does so is not proved here.
use vstd::prelude::*;
use crate::memory::scope::{
    category_of, law_category_name_round_trip, law_category_round_trip, unambiguous,
};
use crate::memory::sql::{QueryView, SqlArg};
use crate::memory::sqlite::{
    forget_query, get_query, list_query, store_query, FORGET, GET, LIST_ALL, LIST_BOTH,
    LIST_CATEGORY, LIST_SESSION, STORE,
};
use crate::model::memory::{CategoryView, EntryView};

verus! {

/// What a row of the table `memory` holds beside its key.
pub struct Cells {
    pub content: Seq<char>,
    pub category: Seq<char>,
    pub session: Option<Seq<char>>,
    pub topic: Option<Seq<char>>,
}

/// The entry of a row.
pub open spec fn row_entry(key: Seq<char>, row: Cells) -> EntryView {
    EntryView {
        key,
        content: row.content,
        category: category_of(row.category),
        session: row.session,
        topic: row.topic,
    }
}

/// A parameter that is a text or nothing.
pub open spec fn nullable(a: SqlArg) -> Option<Seq<char>> {
    match a {
        SqlArg::Text(t) => Some(t),
        _ => None,
    }
}

/// What `STORE` makes of the rows: one under the key, in place of one that was
/// there.
pub open spec fn stores(
    before: Map<Seq<char>, Cells>,
    after: Map<Seq<char>, Cells>,
    q: QueryView,
) -> bool {
    &&& q.sql == STORE@
    &&& q.params.len() == 5
    &&& q.params[0] matches SqlArg::Text(key)
    &&& q.params[1] matches SqlArg::Text(content)
    &&& q.params[2] matches SqlArg::Text(category)
    &&& after == before.insert(
        key,
        Cells {
            content,
            category,
            session: nullable(q.params[3]),
            topic: nullable(q.params[4]),
        },
    )
}

/// What `GET` answers: the row under the key, if there is one.
pub open spec fn gets(
    rows: Map<Seq<char>, Cells>,
    q: QueryView,
    answer: Option<EntryView>,
) -> bool {
    &&& q.sql == GET@
    &&& q.params.len() == 1
    &&& q.params[0] matches SqlArg::Text(key)
    &&& answer == if rows.contains_key(key) {
        Some(row_entry(key, rows[key]))
    } else {
        None
    }
}

/// What `FORGET` makes of the rows, and how many it removes.
pub open spec fn forgets(
    before: Map<Seq<char>, Cells>,
    after: Map<Seq<char>, Cells>,
    q: QueryView,
    removed: int,
) -> bool {
    &&& q.sql == FORGET@
    &&& q.params.len() == 1
    &&& q.params[0] matches SqlArg::Text(key)
    &&& after == before.remove(key)
    &&& removed == if before.contains_key(key) {
        1int
    } else {
        0int
    }
}

/// Which rows a listing asks for.
pub open spec fn asked_for(q: QueryView, row: Cells) -> bool {
    if q.sql == LIST_BOTH@ {
        q.params[0] == SqlArg::Text(row.category) && (row.session matches Some(s) && q.params[1]
            == SqlArg::Text(s))
    } else if q.sql == LIST_CATEGORY@ {
        q.params[0] == SqlArg::Text(row.category)
    } else if q.sql == LIST_SESSION@ {
        row.session matches Some(s) && q.params[1] == SqlArg::Text(s)
    } else {
        q.sql == LIST_ALL@
    }
}

/// What a listing answers: each row that it asks for, once; the order, which
/// goes by the time of the last change, is left open.
pub open spec fn lists(
    rows: Map<Seq<char>, Cells>,
    q: QueryView,
    answer: Seq<EntryView>,
) -> bool {
    &&& forall|i: int|
        0 <= i < answer.len() ==> rows.contains_key((#[trigger] answer[i]).key) && asked_for(
            q,
            rows[answer[i].key],
        ) && answer[i] == row_entry(answer[i].key, rows[answer[i].key])
    &&& forall|i: int, j: int|
        0 <= i < j < answer.len() ==> (#[trigger] answer[i]).key != (#[trigger] answer[j]).key
    &&& forall|key: Seq<char>|
        #[trigger] rows.contains_key(key) && asked_for(q, rows[key]) ==> exists|i: int|
            0 <= i < answer.len() && (#[trigger] answer[i]).key == key
}

/// An entry that was stored is got under its key, whatever was there before;
/// all other keys get what they got before.
pub proof fn law_stored_entry_is_got(
    before: Map<Seq<char>, Cells>,
    after: Map<Seq<char>, Cells>,
    e: EntryView,
    other: Seq<char>,
    answer: Option<EntryView>,
)
    requires
        unambiguous(e.category),
        stores(before, after, store_query(e)),
    ensures
        gets(after, get_query(e.key), Some(e)),
        gets(after, get_query(e.key), answer) ==> answer == Some(e),
        other != e.key ==> gets(after, get_query(other), answer) == gets(
            before,
            get_query(other),
            answer,
        ),
        after.dom() == before.dom().insert(e.key),
{
    law_category_round_trip(e.category);
    assert(nullable(store_query(e).params[3]) == e.session);
    assert(nullable(store_query(e).params[4]) == e.topic);
    assert(after.dom() =~= before.dom().insert(e.key));
}

/// An entry that was forgotten is gone, and whether there was one is reported;
/// all other keys get what they got before.
pub proof fn law_forgotten_entry_is_gone(
    before: Map<Seq<char>, Cells>,
    after: Map<Seq<char>, Cells>,
    key: Seq<char>,
    removed: int,
    other: Seq<char>,
    answer: Option<EntryView>,
)
    requires
        forgets(before, after, forget_query(key), removed),
    ensures
        gets(after, get_query(key), None),
        removed > 0 <==> before.contains_key(key),
        other != key ==> gets(after, get_query(other), answer) == gets(
            before,
            get_query(other),
            answer,
        ),
{
}

/// A listing of a category holds each of its entries once and no others.
pub proof fn law_listing_holds_the_category(
    rows: Map<Seq<char>, Cells>,
    category: CategoryView,
    answer: Seq<EntryView>,
    key: Seq<char>,
)
    requires
        unambiguous(category),
        lists(rows, list_query(Some(category), None), answer),
    ensures
        forall|i: int| 0 <= i < answer.len() ==> (#[trigger] answer[i]).category == category,
        rows.contains_key(key) && row_entry(key, rows[key]).category == category ==> exists|i: int|
            0 <= i < answer.len() && #[trigger] answer[i] == row_entry(key, rows[key]),
{
    let q = list_query(Some(category), None);
    lemma_listings_differ();
    law_category_round_trip(category);
    assert forall|i: int| 0 <= i < answer.len() implies (#[trigger] answer[i]).category
        == category by {
        assert(asked_for(q, rows[answer[i].key]));
    }
    if rows.contains_key(key) && row_entry(key, rows[key]).category == category {
        law_category_name_round_trip(rows[key].category);
        assert(asked_for(q, rows[key]));
        let i = choose|i: int| 0 <= i < answer.len() && (#[trigger] answer[i]).key == key;
        assert(answer[i] == row_entry(key, rows[key]));
    }
}

/// The statements that list entries differ from each other.
proof fn lemma_listings_differ()
    ensures
        LIST_BOTH@ != LIST_CATEGORY@,
        LIST_BOTH@ != LIST_SESSION@,
        LIST_CATEGORY@ != LIST_SESSION@,
        LIST_ALL@ != LIST_BOTH@,
        LIST_ALL@ != LIST_CATEGORY@,
        LIST_ALL@ != LIST_SESSION@,
{
    reveal_strlit(
        "SELECT key, content, category, session, topic FROM memory WHERE category = ?1 AND session = ?2 ORDER BY updated_at DESC",
    );
    reveal_strlit(
        "SELECT key, content, category, session, topic FROM memory WHERE category = ?1 ORDER BY updated_at DESC",
    );
    reveal_strlit(
        "SELECT key, content, category, session, topic FROM memory WHERE session = ?2 ORDER BY updated_at DESC",
    );
    reveal_strlit("SELECT key, content, category, session, topic FROM memory ORDER BY updated_at DESC");
    assert(LIST_BOTH@.len() > LIST_CATEGORY@.len());
    assert(LIST_CATEGORY@.len() > LIST_SESSION@.len());
    assert(LIST_SESSION@.len() > LIST_ALL@.len());
}

/// A listing of a session holds each of its entries once and no others, and one
/// without any condition holds all entries.
pub proof fn law_listing_holds_the_session(
    rows: Map<Seq<char>, Cells>,
    session: Option<Seq<char>>,
    answer: Seq<EntryView>,
    key: Seq<char>,
)
    requires
        lists(rows, list_query(None, session), answer),
    ensures
        session is Some ==> forall|i: int|
            0 <= i < answer.len() ==> (#[trigger] answer[i]).session == session,
        rows.contains_key(key) && (session is Some ==> rows[key].session == session) ==> exists|
            i: int,
        |
            0 <= i < answer.len() && #[trigger] answer[i] == row_entry(key, rows[key]),
{
    let q = list_query(None, session);
    lemma_listings_differ();
    if session is Some {
        assert forall|i: int| 0 <= i < answer.len() implies (#[trigger] answer[i]).session
            == session by {
            assert(asked_for(q, rows[answer[i].key]));
        }
    }
    if rows.contains_key(key) && (session is Some ==> rows[key].session == session) {
        assert(asked_for(q, rows[key]));
        let i = choose|i: int| 0 <= i < answer.len() && (#[trigger] answer[i]).key == key;
        assert(answer[i] == row_entry(key, rows[key]));
    }
}

} // verus!
