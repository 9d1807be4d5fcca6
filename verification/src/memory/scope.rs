//! Categories by name, and which entries a recall reaches.
use vstd::prelude::*;
use crate::model::memory::{
    entry_views, Category, CategoryView, EntryView, MemoryEntry, RecallScope, ScopeView,
};
use crate::text::{is_text, same_str};

verus! {

/// The name of a category.
pub open spec fn category_name(c: CategoryView) -> Seq<char> {
    match c {
        CategoryView::Core => "Core"@,
        CategoryView::Daily => "Daily"@,
        CategoryView::Conversation => "Conversation"@,
        CategoryView::Global => "Global"@,
        CategoryView::Custom(s) => s,
    }
}

/// The category that a name stands for.
pub open spec fn category_of(s: Seq<char>) -> CategoryView {
    if s == "Core"@ {
        CategoryView::Core
    } else if s == "Daily"@ {
        CategoryView::Daily
    } else if s == "Conversation"@ {
        CategoryView::Conversation
    } else if s == "Global"@ {
        CategoryView::Global
    } else {
        CategoryView::Custom(s)
    }
}

/// Whether a custom category is named like none of the others.
pub open spec fn unambiguous(c: CategoryView) -> bool {
    c matches CategoryView::Custom(s) ==> s != "Core"@ && s != "Daily"@ && s != "Conversation"@
        && s != "Global"@
}

/// A category is read back from its name.
pub proof fn law_category_round_trip(c: CategoryView)
    requires
        unambiguous(c),
    ensures
        category_of(category_name(c)) == c,
{
    reveal_strlit("Core");
    reveal_strlit("Daily");
    reveal_strlit("Conversation");
    reveal_strlit("Global");
    assert("Core"@.len() != "Daily"@.len());
    assert("Core"@.len() != "Conversation"@.len());
    assert("Core"@.len() != "Global"@.len());
    assert("Daily"@.len() != "Conversation"@.len());
    assert("Daily"@.len() != "Global"@.len());
    assert("Conversation"@.len() != "Global"@.len());
}

/// A name is what the category it stands for is called.
pub proof fn law_category_name_round_trip(s: Seq<char>)
    ensures
        category_name(category_of(s)) == s,
        unambiguous(category_of(s)),
{
}

/// The name of a category.
pub fn category_to_str(cat: &Category) -> (r: String)
    ensures
        r@ == category_name(cat@),
{
    match cat {
        Category::Core => "Core".to_owned(),
        Category::Daily => "Daily".to_owned(),
        Category::Conversation => "Conversation".to_owned(),
        Category::Global => "Global".to_owned(),
        Category::Custom(s) => s.clone(),
    }
}

/// The category that a name stands for.
pub fn str_to_category(s: &str) -> (r: Category)
    ensures
        r@ == category_of(s@),
{
    if same_str(s, "Core") {
        Category::Core
    } else if same_str(s, "Daily") {
        Category::Daily
    } else if same_str(s, "Conversation") {
        Category::Conversation
    } else if same_str(s, "Global") {
        Category::Global
    } else {
        Category::Custom(s.to_owned())
    }
}

/// Whether two categories are the same.
pub fn same_category(a: &Category, b: &Category) -> (r: bool)
    ensures
        r == (a@ == b@),
{
    match (a, b) {
        (Category::Core, Category::Core) => true,
        (Category::Daily, Category::Daily) => true,
        (Category::Conversation, Category::Conversation) => true,
        (Category::Global, Category::Global) => true,
        (Category::Custom(s), Category::Custom(t)) => same_str(s.as_str(), t.as_str()),
        _ => false,
    }
}

/// Whether an entry is in scope.
pub open spec fn in_scope(e: EntryView, scope: ScopeView) -> bool {
    match scope {
        ScopeView::Clean => false,
        ScopeView::Full => true,
        ScopeView::FactsOnly => e.category != CategoryView::Conversation,
        ScopeView::CurrentTopic { topic_id } => e.category == CategoryView::Conversation
            ==> e.topic == Some(topic_id),
    }
}

/// Nothing is in a clean scope; everything but conversations is in every other
/// one; conversations are in full scope, and in the scope of a topic those of
/// the topic.
pub proof fn law_scope_table(e: EntryView, topic: Seq<char>)
    ensures
        !in_scope(e, ScopeView::Clean),
        in_scope(e, ScopeView::Full),
        e.category != CategoryView::Conversation ==> in_scope(e, ScopeView::FactsOnly),
        e.category != CategoryView::Conversation ==> in_scope(
            e,
            (ScopeView::CurrentTopic { topic_id: topic }),
        ),
        e.category == CategoryView::Conversation ==> !in_scope(e, ScopeView::FactsOnly),
        e.category == CategoryView::Conversation ==> (in_scope(
            e,
            (ScopeView::CurrentTopic { topic_id: topic }),
        ) <==> e.topic == Some(topic)),
{
}

/// Whether an entry is in scope.
pub fn scope_matches_entry(entry: &MemoryEntry, scope: &RecallScope) -> (r: bool)
    ensures
        r == in_scope(entry@, scope@),
{
    match scope {
        RecallScope::Clean => false,
        RecallScope::Full => true,
        RecallScope::FactsOnly => !same_category(&entry.category, &Category::Conversation),
        RecallScope::CurrentTopic { topic_id } => if same_category(
            &entry.category,
            &Category::Conversation,
        ) {
            is_text(&entry.topic, topic_id.as_str())
        } else {
            true
        },
    }
}

/// Whether an entry is reached from a session: conversations of other sessions
/// are not.
pub open spec fn in_session(e: EntryView, session: Option<Seq<char>>) -> bool {
    e.category == CategoryView::Conversation && session is Some ==> e.session == session
}

/// The entries in scope, at most `limit` of them, in their order.
pub open spec fn scoped(s: Seq<EntryView>, scope: ScopeView, limit: nat) -> Seq<EntryView>
    decreases s.len(),
{
    if s.len() == 0 {
        Seq::empty()
    } else {
        let head = scoped(s.drop_last(), scope, limit);
        if in_scope(s.last(), scope) && head.len() < limit {
            head.push(s.last())
        } else {
            head
        }
    }
}

/// What is returned is in scope, was there, and is at most what was asked for.
pub proof fn law_scoped_entries_are_in_scope(s: Seq<EntryView>, scope: ScopeView, limit: nat)
    ensures
        scoped(s, scope, limit).len() <= limit,
        forall|i: int|
            0 <= i < scoped(s, scope, limit).len() ==> in_scope(
                #[trigger] scoped(s, scope, limit)[i],
                scope,
            ) && s.contains(scoped(s, scope, limit)[i]),
    decreases s.len(),
{
    if s.len() > 0 {
        law_scoped_entries_are_in_scope(s.drop_last(), scope, limit);
        let head = scoped(s.drop_last(), scope, limit);
        assert forall|i: int| 0 <= i < scoped(s, scope, limit).len() implies in_scope(
            #[trigger] scoped(s, scope, limit)[i],
            scope,
        ) && s.contains(scoped(s, scope, limit)[i]) by {
            if i < head.len() {
                assert(scoped(s, scope, limit)[i] == head[i]);
                let j = s.drop_last().index_of(head[i]);
                assert(s[j] == head[i]);
            } else {
                assert(s[s.len() - 1] == s.last());
            }
        }
    }
}

/// The entries in scope, at most `limit` of them.
pub fn keep_scope(entries: Vec<MemoryEntry>, scope: &RecallScope, limit: usize) -> (r: Vec<
    MemoryEntry,
>)
    ensures
        entry_views(r@) == scoped(entry_views(entries@), scope@, limit as nat),
{
    let ghost all = entry_views(entries@);
    let mut out: Vec<MemoryEntry> = Vec::new();
    proof {
        assert(all.take(0) =~= Seq::<EntryView>::empty());
        assert(entry_views(out@) =~= Seq::<EntryView>::empty());
    }
    for e in it: entries
        invariant
            entry_views(it.seq()) == all,
            entry_views(out@) == scoped(all.take(it.index() as int), scope@, limit as nat),
    {
        let ghost k = it.index() as int;
        let ghost before = entry_views(out@);
        proof {
            assert(all.take(k + 1).drop_last() =~= all.take(k));
            assert(all[k] == e@);
            assert(all.take(k + 1).last() == e@);
        }
        if scope_matches_entry(&e, scope) && out.len() < limit {
            out.push(e);
            proof {
                assert(entry_views(out@) =~= before.push(e@));
            }
        }
    }
    proof {
        assert(all.take(all.len() as int) =~= all);
    }
    out
}

} // verus!
