//! What is returned, merged, grouped and remembered, told from the entries and
//! the words themselves.
use vstd::prelude::*;
use vstd::utf8::encode_utf8;
use crate::memory::consolidation::{
    contents_listed, entry_from, fitting, job_of, jobs_of, least, member_positions, merge_question,
    merged_of, obsolete, other_keys, preview, real_groups, truncated, JobView, PREVIEW_BYTES,
};
use crate::memory::consolidation_run::{next_action, RunActionView, RunEventView, RunPhase, RunView};
use crate::memory::global::{first_of_each, has_key, merged, parted};
use crate::memory::markdown::{
    all_found, found, occurrences, recalled, relevance, scored, unscored, MarkdownMemory,
};
use crate::memory::query::{
    at_most, distinct, fetch_count, flat, key_lists, keys_of, merged_keys, selected,
};
use crate::memory::ranking::{law_ranked_is_a_descending_permutation, ranked};
use crate::memory::recall_laws::{exists_under, in_order, is_last_of, law_picked_keeps_the_ranking};
use crate::memory::reply::bracketed;
use crate::memory::rrf::{all_positions, positions};
use crate::memory::sql::{in_keys, placeholders, SqlArg};
use crate::memory::sqlite;
use crate::memory::sqlite::{nearest_view, scan_view, words_view};
use crate::memory::topic::{
    all_words, best_by, best_topic, common, keyword_verdict, label_share, piece_state, pieces,
    stop_words, with_message, word_char, words, words_of, TopicManager,
    TopicSwitchResult, TopicView,
};
use crate::model::memory::{CategoryView, EntryView, ScopeView};
use crate::text::{contains, find, join, lowercase, nat_text, replace};
use crate::text_laws::{law_find_char, law_find_is_leftmost, law_join};

verus! {

// ---- shared knowledge ----

/// Parting entries keeps their order: one more entry is added exactly to its
/// own part.
pub proof fn law_parts(s: Seq<EntryView>, e: EntryView)
    ensures
        s.len() == 0 ==> parted(s, true).len() == 0 && parted(s, false).len() == 0,
        e.category is Global ==> parted(s.push(e), true) == parted(s, true).push(e) && parted(
            s.push(e),
            false,
        ) == parted(s, false),
        !(e.category is Global) ==> parted(s.push(e), true) == parted(s, true) && parted(
            s.push(e),
            false,
        ) == parted(s, false).push(e),
{
    assert(s.push(e).drop_last() =~= s);
}

proof fn lemma_parted(s: Seq<EntryView>, global: bool)
    ensures
        forall|i: int|
            0 <= i < parted(s, global).len() ==> s.contains(#[trigger] parted(s, global)[i]) && (
            parted(s, global)[i].category is Global) == global,
        forall|k: int|
            0 <= k < s.len() && ((#[trigger] s[k]).category is Global) == global ==> parted(
                s,
                global,
            ).contains(s[k]),
    decreases s.len(),
{
    if s.len() > 0 {
        let front = s.drop_last();
        let n = s.len() - 1;
        lemma_parted(front, global);
        let p = parted(s, global);
        let h = parted(front, global);
        assert(s[n] == s.last());
        assert forall|i: int| 0 <= i < p.len() implies s.contains(#[trigger] p[i]) && (
        p[i].category is Global) == global by {
            if i < h.len() {
                assert(p[i] == h[i]);
                let j = front.index_of(h[i]);
                assert(s[j] == p[i]);
            }
        }
        assert forall|k: int| 0 <= k < s.len() && ((#[trigger] s[k]).category is Global)
            == global implies p.contains(s[k]) by {
            if k < n {
                assert(front[k] == s[k]);
                let j = h.index_of(s[k]);
                assert(p[j] == s[k]);
            } else {
                assert(p[p.len() - 1] == s[k]);
            }
        }
    }
}

proof fn lemma_first_of_each(s: Seq<EntryView>, limit: nat)
    ensures
        forall|i: int|
            0 <= i < first_of_each(s, limit).len() ==> s.contains(
                #[trigger] first_of_each(s, limit)[i],
            ),
        first_of_each(s, limit).len() < limit ==> forall|k: int|
            0 <= k < s.len() ==> has_key(first_of_each(s, limit), (#[trigger] s[k]).key),
    decreases s.len(),
{
    if s.len() > 0 {
        let front = s.drop_last();
        let n = s.len() - 1;
        lemma_first_of_each(front, limit);
        let p = first_of_each(s, limit);
        let h = first_of_each(front, limit);
        assert(s[n] == s.last());
        assert forall|i: int| 0 <= i < p.len() implies s.contains(#[trigger] p[i]) by {
            if i < h.len() {
                assert(p[i] == h[i]);
                let j = front.index_of(h[i]);
                assert(s[j] == p[i]);
            }
        }
        if p.len() < limit {
            assert forall|k: int| 0 <= k < s.len() implies has_key(p, (#[trigger] s[k]).key) by {
                if k < n {
                    assert(front[k] == s[k]);
                    let i = choose|i: int| 0 <= i < h.len() && (#[trigger] h[i]).key == s[k].key;
                    assert(p[i] == h[i]);
                    assert(p[i].key == s[k].key);
                } else if has_key(h, s[n].key) {
                    let i = choose|i: int| 0 <= i < h.len() && (#[trigger] h[i]).key == s[n].key;
                    assert(p[i].key == s[n].key);
                } else {
                    assert(p[p.len() - 1].key == s[n].key);
                }
            }
        }
    }
}

/// What a recall returns are global entries found anywhere and other entries
/// found in the session, and while there is room every key of these is there.
pub proof fn law_merged_recall(
    found_globally: Seq<EntryView>,
    found_in_session: Seq<EntryView>,
    limit: nat,
)
    ensures
        ({
            let m = merged(found_globally, found_in_session, limit);
            &&& forall|i: int|
                #![trigger m[i]]
                0 <= i < m.len() ==> (m[i].category is Global && found_globally.contains(m[i])) || (
                !(m[i].category is Global) && found_in_session.contains(m[i]))
            &&& m.len() < limit ==> forall|k: int|
                0 <= k < found_globally.len() && (#[trigger] found_globally[k]).category is Global
                    ==> has_key(m, found_globally[k].key)
            &&& m.len() < limit ==> forall|k: int|
                0 <= k < found_in_session.len() && !((
                #[trigger] found_in_session[k]).category is Global) ==> has_key(
                    m,
                    found_in_session[k].key,
                )
        }),
{
    let g = parted(found_globally, true);
    let p = parted(found_in_session, false);
    let m = merged(found_globally, found_in_session, limit);
    lemma_parted(found_globally, true);
    lemma_parted(found_in_session, false);
    lemma_first_of_each(g + p, limit);
    assert forall|i: int|
        #![trigger m[i]]
        0 <= i < m.len() implies (m[i].category is Global && found_globally.contains(m[i])) || (!(
    m[i].category is Global) && found_in_session.contains(m[i])) by {
        let j = (g + p).index_of(m[i]);
        assert((g + p)[j] == m[i]);
        if j < g.len() {
            assert(g[j] == m[i]);
        } else {
            assert(p[j - g.len()] == m[i]);
        }
    }
    if m.len() < limit {
        assert forall|k: int|
            0 <= k < found_globally.len() && (
            #[trigger] found_globally[k]).category is Global implies has_key(
            m,
            found_globally[k].key,
        ) by {
            let j = g.index_of(found_globally[k]);
            assert((g + p)[j] == found_globally[k]);
        }
        assert forall|k: int|
            0 <= k < found_in_session.len() && !((
            #[trigger] found_in_session[k]).category is Global) implies has_key(
            m,
            found_in_session[k].key,
        ) by {
            let j = p.index_of(found_in_session[k]);
            assert((g + p)[g.len() + j] == found_in_session[k]);
        }
    }
}

/// Of several entries under a key the first stays; entries stay in their order.
pub proof fn law_first_of_each(s: Seq<EntryView>, e: EntryView, limit: nat)
    ensures
        s.len() == 0 ==> first_of_each(s, limit).len() == 0,
        first_of_each(s, limit).len() < limit && !has_key(first_of_each(s, limit), e.key)
            ==> first_of_each(s.push(e), limit) == first_of_each(s, limit).push(e),
        first_of_each(s, limit).len() >= limit || has_key(first_of_each(s, limit), e.key)
            ==> first_of_each(s.push(e), limit) == first_of_each(s, limit),
{
    assert(s.push(e).drop_last() =~= s);
}

// ---- files ----

/// An entry is found exactly if its content or its key holds the query, without
/// regard to case, the scope reaches it, and it is no conversation of another
/// session.
pub proof fn law_found(
    e: EntryView,
    query: Seq<char>,
    session: Option<Seq<char>>,
    topic: Seq<char>,
)
    ensures
        ({
            let held = contains(lowercase(e.content), lowercase(query)) || contains(
                lowercase(e.key),
                lowercase(query),
            );
            let here = !(e.category is Conversation) || session is None || e.session == session;
            &&& found(e, query, session, ScopeView::Full) <==> held && here
            &&& found(e, query, session, ScopeView::FactsOnly) <==> held && !(
            e.category is Conversation)
            &&& !found(e, query, session, ScopeView::Clean)
            &&& found(e, query, session, (ScopeView::CurrentTopic { topic_id: topic })) <==> held
                && here && (e.category is Conversation ==> e.topic == Some(topic))
        }),
{
}

/// The entries found stay in their order.
pub proof fn law_all_found(
    s: Seq<EntryView>,
    e: EntryView,
    query: Seq<char>,
    session: Option<Seq<char>>,
    scope: ScopeView,
)
    ensures
        s.len() == 0 ==> all_found(s, query, session, scope).len() == 0,
        found(e, query, session, scope) ==> all_found(s.push(e), query, session, scope)
            == all_found(s, query, session, scope).push(e),
        !found(e, query, session, scope) ==> all_found(s.push(e), query, session, scope)
            == all_found(s, query, session, scope),
{
    assert(s.push(e).drop_last() =~= s);
}

/// A text occurs as often as it is found, each time behind the last time.
pub proof fn law_occurrences(hay: Seq<char>, pat: Seq<char>)
    requires
        pat.len() > 0,
    ensures
        !contains(hay, pat) ==> occurrences(hay, pat) == 0,
        find(hay, pat) matches Some(i) ==> occurrences(hay, pat) == 1 + occurrences(
            hay.skip(i + pat.len()),
            pat,
        ),
{
    law_find_is_leftmost(hay, pat);
}

/// A recall returns entries that were found, those whose content holds the
/// query more often first, and as many as asked for where there are so many.
pub proof fn law_recalled(
    s: Seq<EntryView>,
    query: Seq<char>,
    limit: nat,
    session: Option<Seq<char>>,
    scope: ScopeView,
)
    ensures
        ({
            let all = all_found(s, query, session, scope);
            let r = recalled(s, query, limit, session, scope);
            &&& r.len() == if all.len() <= limit {
                all.len()
            } else {
                limit
            }
            &&& forall|a: int| 0 <= a < r.len() ==> all.contains(#[trigger] r[a])
            &&& forall|a: int, b: int|
                0 <= a < b < r.len() ==> relevance(#[trigger] r[a], query) >= relevance(
                    #[trigger] r[b],
                    query,
                )
            &&& all.len() <= limit ==> forall|k: int|
                0 <= k < all.len() ==> r.contains(#[trigger] all[k])
        }),
{
    let all = all_found(s, query, session, scope);
    let z = scored(all, query);
    let f = ranked(z);
    let u = unscored(f);
    let r = recalled(s, query, limit, session, scope);
    law_ranked_is_a_descending_permutation(z);
    broadcast use vstd::seq_lib::group_to_multiset_ensures;

    assert forall|a: int| 0 <= a < f.len() implies all.contains((#[trigger] f[a]).1) && f[a].0
        == relevance(f[a].1, query) by {
        assert(f.contains(f[a]));
        assert(f.to_multiset().count(f[a]) > 0);
        assert(z.to_multiset().count(f[a]) > 0);
        let k = z.index_of(f[a]);
        assert(z[k] == f[a]);
        assert(all[k] == f[a].1);
    }
    assert forall|a: int| 0 <= a < r.len() implies r[a] == f[a].1 by {
        assert(u[a] == f[a].1);
    }
    assert forall|a: int| 0 <= a < r.len() implies all.contains(#[trigger] r[a]) by {
        assert(all.contains(f[a].1));
    }
    assert forall|a: int, b: int| 0 <= a < b < r.len() implies relevance(#[trigger] r[a], query)
        >= relevance(#[trigger] r[b], query) by {
        assert(f[a].0 >= f[b].0);
        assert(f[a].0 == relevance(f[a].1, query));
        assert(f[b].0 == relevance(f[b].1, query));
    }
    if all.len() <= limit {
        assert forall|k: int| 0 <= k < all.len() implies r.contains(#[trigger] all[k]) by {
            assert(z[k].1 == all[k]);
            assert(z.contains(z[k]));
            assert(z.to_multiset().count(z[k]) > 0);
            assert(f.to_multiset().count(z[k]) > 0);
            let a = f.index_of(z[k]);
            assert(r[a] == all[k]);
        }
    }
}

/// How relevant an entry is: how often its content holds the query, without
/// regard to case.
pub proof fn law_relevance(e: EntryView, query: Seq<char>)
    requires
        occurrences(lowercase(e.content), lowercase(query)) <= u64::MAX,
    ensures
        relevance(e, query) == occurrences(lowercase(e.content), lowercase(query)),
{
}

/// A listing holds the entries of the category and of the session, in their
/// order.
pub proof fn law_listing(
    s: Seq<EntryView>,
    e: EntryView,
    category: Option<CategoryView>,
    session: Option<Seq<char>>,
)
    ensures
        s.len() == 0 ==> MarkdownMemory::all_listed(s, category, session).len() == 0,
        (category is None || e.category == category->0) && (session is None || e.session
            == session) ==> MarkdownMemory::all_listed(s.push(e), category, session)
            == MarkdownMemory::all_listed(s, category, session).push(e),
        !((category is None || e.category == category->0) && (session is None || e.session
            == session)) ==> MarkdownMemory::all_listed(s.push(e), category, session)
            == MarkdownMemory::all_listed(s, category, session),
{
    assert(s.push(e).drop_last() =~= s);
}

// ---- several queries ----

/// Repetitions are dropped, the first of each stays where it is.
pub proof fn law_distinct(s: Seq<Seq<char>>, x: Seq<char>)
    ensures
        s.len() == 0 ==> distinct(s).len() == 0,
        distinct(s).contains(x) ==> distinct(s.push(x)) == distinct(s),
        !distinct(s).contains(x) ==> distinct(s.push(x)) == distinct(s).push(x),
        distinct(s).contains(x) <==> s.contains(x),
    decreases s.len(),
{
    assert(s.push(x).drop_last() =~= s);
    if s.len() > 0 {
        let front = s.drop_last();
        law_distinct(front, x);
        let h = distinct(front);
        let d = distinct(s);
        assert(s[s.len() - 1] == s.last());
        if d.contains(x) {
            let i = d.index_of(x);
            if i < h.len() {
                assert(h[i] == x);
                let j = front.index_of(x);
                assert(s[j] == x);
            } else {
                assert(s.last() == x);
            }
        }
        if s.contains(x) {
            let j = s.index_of(x);
            if j < front.len() {
                assert(front[j] == x);
                let i = h.index_of(x);
                assert(d[i] == x);
            } else if h.contains(s.last()) {
                let i = h.index_of(s.last());
                assert(d[i] == x);
            } else {
                assert(d[d.len() - 1] == x);
            }
        }
    }
}

/// The first `n` of a sequence are those at its beginning, all of them where
/// there are no more.
pub proof fn law_at_most(s: Seq<EntryView>, n: int, i: int)
    requires
        0 <= n,
    ensures
        at_most(s, n).len() == if s.len() <= n {
            s.len() as int
        } else {
            n
        },
        0 <= i < at_most(s, n).len() ==> at_most(s, n)[i] == s[i],
{
}

/// What several queries found is returned in the order of the merged ranking,
/// each key once, as the entry that was found last under it.
pub proof fn law_selected_in_order(
    results: Seq<Seq<EntryView>>,
    scores: Seq<u64>,
    limit: nat,
)
    ensures
        selected(results, scores, limit) matches Some(p) ==> {
            let top = at_most(merged_keys(key_lists(results), scores), limit as int);
            &&& in_order(p, top)
            &&& forall|a: int|
                0 <= a < p.len() ==> is_last_of(flat(results), #[trigger] p[a]) && top.contains(
                    p[a].key,
                )
            &&& forall|i: int|
                0 <= i < top.len() && exists_under(flat(results), #[trigger] top[i]) ==> exists|
                    a: int,
                | 0 <= a < p.len() && (#[trigger] p[a]).key == top[i]
        },
        results.len() == 1 ==> merged_keys(key_lists(results), scores) == keys_of(results[0]),
{
    law_picked_keeps_the_ranking(
        at_most(merged_keys(key_lists(results), scores), limit as int),
        flat(results),
    );
}

/// The entries of several lists are those of the first, then those of the
/// second, and so on.
pub proof fn law_flat(results: Seq<Seq<EntryView>>, more: Seq<EntryView>)
    ensures
        results.len() == 0 ==> flat(results).len() == 0,
        flat(results.push(more)) == flat(results) + more,
{
    assert(results.push(more).drop_last() =~= results);
}

/// Each query asks for twice as many entries as are returned, and for at least
/// ten; a search of the database for three times as many, and at least twenty.
pub proof fn law_fetch_counts(limit: nat)
    ensures
        fetch_count(limit) >= 2 * limit && fetch_count(limit) >= 10,
        fetch_count(limit) == 2 * limit || fetch_count(limit) == 10,
        sqlite::fetch_count(limit) >= 3 * limit && sqlite::fetch_count(limit) >= 20,
        sqlite::fetch_count(limit) == 3 * limit || sqlite::fetch_count(limit) == 20,
{
}

/// The positions of a key in a list are those at which it stands.
pub proof fn law_positions(list: Seq<Seq<char>>, key: Seq<char>, n: nat)
    requires
        n <= list.len() <= usize::MAX,
    ensures
        forall|a: int|
            0 <= a < positions(list, key, n).len() ==> (#[trigger] positions(list, key, n)[a]) < n
                && list[positions(list, key, n)[a] as int] == key,
        forall|i: int|
            0 <= i < n && #[trigger] list[i] == key ==> positions(list, key, n).contains(
                i as usize,
            ),
        forall|a: int, b: int|
            0 <= a < b < positions(list, key, n).len() ==> (#[trigger] positions(list, key, n)[a])
                < (#[trigger] positions(list, key, n)[b]),
    decreases n,
{
    if n > 0 {
        law_positions(list, key, (n - 1) as nat);
        let h = positions(list, key, (n - 1) as nat);
        let p = positions(list, key, n);
        assert forall|i: int| 0 <= i < n && #[trigger] list[i] == key implies p.contains(
            i as usize,
        ) by {
            if i < n - 1 {
                let a = h.index_of(i as usize);
                assert(p[a] == i as usize);
            } else {
                assert(p[p.len() - 1] == i as usize);
            }
        }
    }
}

/// The positions of a key in several lists are those in the first, then those
/// in the second, and so on.
pub proof fn law_all_positions(
    lists: Seq<Seq<Seq<char>>>,
    list: Seq<Seq<char>>,
    key: Seq<char>,
)
    ensures
        lists.len() == 0 ==> all_positions(lists, key).len() == 0,
        all_positions(lists.push(list), key) == all_positions(lists, key) + positions(
            list,
            key,
            list.len(),
        ),
{
    assert(lists.push(list).drop_last() =~= lists);
}

// ---- statements ----

/// A search hands the database what is sought, how many entries are wanted and,
/// where there is one, the session.
pub proof fn law_search_parameters(
    q: Seq<char>,
    b: Seq<u8>,
    n: nat,
    s: Seq<char>,
)
    requires
        n <= i64::MAX,
    ensures
        words_view(q, n, None).params == seq![
            SqlArg::Text("\""@ + replace(q, "\""@, "\"\""@) + "\""@),
            SqlArg::Int(n as int),
        ],
        words_view(q, n, Some(s)).params == words_view(q, n, None).params.push(SqlArg::Text(s)),
        nearest_view(b, n, None).params == seq![SqlArg::Blob(b), SqlArg::Int(n as int)],
        nearest_view(b, n, Some(s)).params == nearest_view(b, n, None).params.push(SqlArg::Text(s)),
        scan_view(q, n, None).params == seq![
            SqlArg::Text("%"@ + q + "%"@),
            SqlArg::Int(n as int),
        ],
        scan_view(q, n, Some(s)).params == seq![
            SqlArg::Text("%"@ + q + "%"@),
            SqlArg::Text(s),
            SqlArg::Int(n as int),
        ],
{
    assert(words_view(q, n, Some(s)).params =~= words_view(q, n, None).params.push(
        SqlArg::Text(s),
    ));
    assert(nearest_view(b, n, Some(s)).params =~= nearest_view(b, n, None).params.push(
        SqlArg::Text(s),
    ));
}

/// A statement about some keys has one place for each, numbered from one on,
/// and hands the keys over in their order.
pub proof fn law_keys_in_a_statement(sql: Seq<char>, keys: Seq<Seq<char>>, n: nat, i: int)
    ensures
        in_keys(sql, keys).params.len() == keys.len(),
        0 <= i < keys.len() ==> in_keys(sql, keys).params[i] == SqlArg::Text(keys[i]),
        in_keys(sql, keys).sql == sql + " IN ("@ + placeholders(keys.len()) + ")"@,
        placeholders(0).len() == 0,
        placeholders(1) == "?"@ + nat_text(1),
        n >= 1 ==> placeholders(n + 1) == placeholders(n) + ",?"@ + nat_text(n + 1),
{
}

// ---- topics ----

/// How much of memory is reached after each verdict.
pub proof fn law_topic_scope(id: String)
    ensures
        TopicSwitchResult::SameTopic.scope() == ScopeView::Full,
        TopicSwitchResult::PartialDrift.scope() == ScopeView::FactsOnly,
        (TopicSwitchResult::Switched { new_topic_id: id }).scope() == (ScopeView::CurrentTopic {
            topic_id: id@,
        }),
{
}

/// The pieces of a text: a character of a word is added to the last piece, any
/// other character begins a new one.
pub proof fn law_pieces(s: Seq<char>, c: char)
    ensures
        s.len() == 0 ==> pieces(s) == seq![Seq::<char>::empty()],
        pieces(s).len() > 0,
        word_char(c) ==> pieces(s.push(c)) == pieces(s).drop_last().push(pieces(s).last().push(c)),
        !word_char(c) ==> pieces(s.push(c)) == pieces(s).push(Seq::empty()),
{
    assert(s.push(c).drop_last() =~= s);
    let (done, cur) = piece_state(s);
    assert(done.push(cur).drop_last() =~= done);
    if s.len() == 0 {
        assert(pieces(s) =~= seq![Seq::<char>::empty()]);
    }
}

/// A piece is a word if it has two bytes and is no stop word; words are in lower
/// case and stay in their order.
pub proof fn law_words(ps: Seq<Seq<char>>, w: Seq<char>)
    ensures
        ps.len() == 0 ==> words_of(ps).len() == 0,
        encode_utf8(w).len() >= 2 && !stop_words().contains(lowercase(w)) ==> words_of(ps.push(w))
            == words_of(ps).push(lowercase(w)),
        encode_utf8(w).len() < 2 || stop_words().contains(lowercase(w)) ==> words_of(ps.push(w))
            == words_of(ps),
{
    assert(ps.push(w).drop_last() =~= ps);
}

/// The words of several texts are those of the first, then those of the second,
/// and so on.
pub proof fn law_all_words(ts: Seq<Seq<char>>, t: Seq<char>)
    ensures
        ts.len() == 0 ==> all_words(ts).len() == 0,
        all_words(ts.push(t)) == all_words(ts) + words(t),
{
    assert(ts.push(t).drop_last() =~= ts);
}

/// How many of some words are among others, counted one by one.
pub proof fn law_common(a: Seq<Seq<char>>, w: Seq<char>, b: Seq<Seq<char>>)
    ensures
        a.len() == 0 ==> common(a, b) == 0,
        b.contains(w) ==> common(a.push(w), b) == common(a, b) + 1,
        !b.contains(w) ==> common(a.push(w), b) == common(a, b),
{
    assert(a.push(w).drop_last() =~= a);
}

/// A message stays with the topic if it takes up six tenths of the words used
/// before, and drifts if it takes up three tenths; taking up fewer, it stays or
/// drifts by the share of its own words that were used before, and else turns.
pub proof fn law_topic_thresholds(recent: Seq<Seq<char>>, msg: Seq<char>)
    requires
        recent.len() >= 2,
        distinct(all_words(recent.drop_last())).len() > 0,
    ensures
        ({
            let history = distinct(all_words(recent.drop_last()));
            let new = distinct(words(msg));
            let taken = 10 * common(history, new);
            let old = 10 * common(new, history);
            let v = keyword_verdict(recent, msg);
            &&& taken >= 6 * history.len() ==> v is Same
            &&& 3 * history.len() <= taken < 6 * history.len() ==> v is Drift
            &&& taken < 3 * history.len() && new.len() > 0 && old >= 6 * new.len() ==> v is Same
            &&& taken < 3 * history.len() && new.len() > 0 && 3 * new.len() <= old < 6 * new.len()
                ==> v is Drift
            &&& taken < 3 * history.len() && (new.len() == 0 || old < 3 * new.len()) ==> v is Turn
        }),
{
}

/// With fewer than two messages, or no words before, there is nothing to turn
/// from.
pub proof fn law_no_topic_yet(recent: Seq<Seq<char>>, msg: Seq<char>)
    requires
        recent.len() < 2 || distinct(all_words(recent.drop_last())).len() == 0,
    ensures
        keyword_verdict(recent, msg) is Same,
{
}

/// The share of a label.
pub open spec fn fits_seven_tenths(share: (nat, nat)) -> bool {
    share.1 > 0 && 10 * share.0 >= 7 * share.1
}

proof fn lemma_best_by(known: Seq<TopicView>, ws: Seq<Seq<char>>, of_label: bool)
    ensures
        match best_by(known, ws, of_label) {
            Some(k) => 0 <= k < known.len() && fits_seven_tenths(
                label_share(known[k].label, ws, of_label),
            ) && forall|i: int|
                #![trigger known[i]]
                0 <= i < known.len() && fits_seven_tenths(
                    label_share(known[i].label, ws, of_label),
                ) ==> ({
                    let best = label_share(known[k].label, ws, of_label);
                    let other = label_share(known[i].label, ws, of_label);
                    other.0 * best.1 <= best.0 * other.1
                }),
            None => forall|i: int|
                #![trigger known[i]]
                0 <= i < known.len() ==> !fits_seven_tenths(
                    label_share(known[i].label, ws, of_label),
                ),
        },
    decreases known.len(),
{
    if known.len() > 0 {
        let front = known.drop_last();
        let n = known.len() - 1;
        lemma_best_by(front, ws, of_label);
        assert(known.last() == known[n]);
        let last = label_share(known[n].label, ws, of_label);
        match best_by(front, ws, of_label) {
            Some(k) => {
                assert(front[k] == known[k]);
                let b = label_share(known[k].label, ws, of_label);
                let w = best_by(known, ws, of_label)->0;
                let best = label_share(known[w].label, ws, of_label);
                assert forall|i: int|
                    #![trigger known[i]]
                    0 <= i < known.len() && fits_seven_tenths(
                        label_share(known[i].label, ws, of_label),
                    ) implies ({
                    let other = label_share(known[i].label, ws, of_label);
                    other.0 * best.1 <= best.0 * other.1
                }) by {
                    let other = label_share(known[i].label, ws, of_label);
                    if i < n {
                        assert(front[i] == known[i]);
                        if w == n {
                            lemma_ratio(other.0, other.1, b.0, b.1, last.0, last.1);
                        }
                    } else if w == n {
                        assert(other.0 * best.1 <= best.0 * other.1) by (nonlinear_arith)
                            requires
                                other.0 == best.0,
                                other.1 == best.1,
                        ;
                    }
                }
            },
            None => {
                assert forall|i: int|
                    #![trigger known[i]]
                    0 <= i < known.len() && fits_seven_tenths(
                        label_share(known[i].label, ws, of_label),
                    ) implies i == n by {
                    if i < n {
                        assert(front[i] == known[i]);
                    }
                }
                assert(last.0 * last.1 <= last.0 * last.1);
            },
        }
    }
}

proof fn lemma_ratio(a: nat, b: nat, c: nat, d: nat, e: nat, f: nat)
    requires
        b > 0,
        d > 0,
        f > 0,
        a * d <= c * b,
        c * f <= e * d,
    ensures
        a * f <= e * b,
{
    assert(a * f * d <= e * b * d) by (nonlinear_arith)
        requires
            b > 0,
            d > 0,
            f > 0,
            a * d <= c * b,
            c * f <= e * d,
    ;
    assert(a * f <= e * b) by (nonlinear_arith)
        requires
            d > 0,
            a * f * d <= e * b * d,
    ;
}

/// The topic taken up again is one whose label makes up at least seven tenths
/// of the words, and of these the one that makes up most; only where there is
/// none, one of whose label at least seven tenths are among the words, and of
/// these the one with most.
pub proof fn law_best_topic(known: Seq<TopicView>, ws: Seq<Seq<char>>, i: int)
    ensures
        best_topic(known, ws) matches Some(k) ==> {
            let by_words = fits_seven_tenths(label_share(known[k].label, ws, false));
            &&& 0 <= k < known.len()
            &&& by_words || fits_seven_tenths(label_share(known[k].label, ws, true))
            &&& 0 <= i < known.len() && fits_seven_tenths(label_share(known[i].label, ws, false))
                ==> by_words && label_share(known[i].label, ws, false).0 * label_share(
                known[k].label,
                ws,
                false,
            ).1 <= label_share(known[k].label, ws, false).0 * label_share(
                known[i].label,
                ws,
                false,
            ).1
        },
        best_topic(known, ws) is None && 0 <= i < known.len() ==> !fits_seven_tenths(
            label_share(known[i].label, ws, false),
        ) && !fits_seven_tenths(label_share(known[i].label, ws, true)),
{
    lemma_best_by(known, ws, false);
    lemma_best_by(known, ws, true);
}

/// The share of a label is by the words it has in common with those in use, of
/// the words or of the label's own.
pub proof fn law_label_share(label: Seq<char>, ws: Seq<Seq<char>>)
    ensures
        label_share(label, ws, false) == (common(ws, distinct(words(label))), ws.len()),
        label_share(label, ws, true) == (
            common(distinct(words(label)), ws),
            distinct(words(label)).len(),
        ),
{
}

/// The latest messages are kept in order, the newest last; the oldest goes when
/// there are too many.
pub proof fn law_latest_messages(recent: Seq<Seq<char>>, msg: Seq<char>, i: int)
    requires
        recent.len() <= 10,
    ensures
        with_message(recent, msg).len() > 0,
        with_message(recent, msg).last() == msg,
        ({
            let kept = with_message(recent, msg);
            let gone = recent.len() + 1 - kept.len();
            &&& gone == 0 || gone == 1
            &&& 0 <= i < kept.len() - 1 ==> kept[i] == recent[i + gone]
        }),
{
}

/// A topic that is registered has its label from then on; the others keep
/// theirs, and none comes twice that did not before.
pub proof fn law_registered_topic(known: Seq<TopicView>, id: Seq<char>, label: Seq<char>)
    ensures
        ({
            let after = TopicManager::registered(known, id, label);
            &&& exists|k: int| 0 <= k < after.len() && #[trigger] after[k] == (TopicView {
                id,
                label,
            })
            &&& forall|i: int|
                #![trigger known[i]]
                0 <= i < known.len() && known[i].id != id ==> after[i] == known[i]
            &&& after.len() == known.len() || after.len() == known.len() + 1
            &&& after.len() == known.len() + 1 ==> forall|i: int|
                #![trigger known[i]]
                0 <= i < known.len() ==> known[i].id != id
        }),
{
    lemma_topic_from(known, id, 0);
    let after = TopicManager::registered(known, id, label);
    match TopicManager::topic_from(known, id, 0) {
        Some(i) => {
            assert(after[i] == (TopicView { id, label }));
        },
        None => {
            assert(after[known.len() as int] == (TopicView { id, label }));
        },
    }
}

proof fn lemma_topic_from(known: Seq<TopicView>, id: Seq<char>, i: int)
    requires
        0 <= i,
    ensures
        match TopicManager::topic_from(known, id, i) {
            Some(k) => i <= k < known.len() && known[k].id == id,
            None => forall|j: int| i <= j < known.len() ==> (#[trigger] known[j]).id != id,
        },
    decreases known.len() - i,
{
    if i < known.len() && known[i].id != id {
        lemma_topic_from(known, id, i + 1);
    }
}

// ---- consolidation ----

/// The merged entry of a group says what the model wrote, under the key and in
/// the category of the member that stays, for all sessions and topics.
pub proof fn law_merged_entry(job: JobView, content: Seq<char>)
    ensures
        merged_of(job, content).key == job.canonical.key,
        merged_of(job, content).content == content,
        merged_of(job, content).category == job.canonical.category,
        merged_of(job, content).session is None,
        merged_of(job, content).topic is None,
{
}

/// The keys that are forgotten are those of the members but the one that stays.
pub proof fn law_obsolete_keys(s: Seq<EntryView>, e: EntryView, key: Seq<char>, job: JobView)
    ensures
        s.len() == 0 ==> other_keys(s, key).len() == 0,
        e.key == key ==> other_keys(s.push(e), key) == other_keys(s, key),
        e.key != key ==> other_keys(s.push(e), key) == other_keys(s, key).push(e.key),
        obsolete(job) == other_keys(job.members, job.canonical.key),
{
    assert(s.push(e).drop_last() =~= s);
}

proof fn lemma_entry_from(s: Seq<EntryView>, key: Seq<char>, i: int)
    requires
        0 <= i,
    ensures
        match entry_from(s, key, i) {
            Some(k) => i <= k < s.len() && s[k].key == key && forall|j: int|
                i <= j < k ==> (#[trigger] s[j]).key != key,
            None => forall|j: int| i <= j < s.len() ==> (#[trigger] s[j]).key != key,
        },
    decreases s.len() - i,
{
    if i < s.len() && s[i].key != key {
        lemma_entry_from(s, key, i + 1);
    }
}

proof fn lemma_member_positions(s: Seq<EntryView>, keys: Seq<Seq<char>>)
    ensures
        forall|a: int|
            0 <= a < member_positions(s, keys).len() ==> 0 <= (
            #[trigger] member_positions(s, keys)[a]) < s.len() && keys.contains(
                s[member_positions(s, keys)[a]].key,
            ),
    decreases keys.len(),
{
    if keys.len() > 0 {
        let front = keys.drop_last();
        lemma_member_positions(s, front);
        lemma_entry_from(s, keys.last(), 0);
        let p = member_positions(s, keys);
        let h = member_positions(s, front);
        assert(keys[keys.len() - 1] == keys.last());
        assert forall|a: int| 0 <= a < p.len() implies 0 <= (#[trigger] p[a]) < s.len()
            && keys.contains(s[p[a]].key) by {
            if a < h.len() {
                assert(p[a] == h[a]);
                let j = front.index_of(s[h[a]].key);
                assert(keys[j] == s[p[a]].key);
            }
        }
    }
}

proof fn lemma_least(s: Seq<int>)
    requires
        s.len() > 0,
    ensures
        s.contains(least(s)),
        forall|i: int| 0 <= i < s.len() ==> least(s) <= #[trigger] s[i],
    decreases s.len(),
{
    if s.len() == 1 {
        assert(s[0] == least(s));
    } else {
        let front = s.drop_last();
        lemma_least(front);
        assert(s[s.len() - 1] == s.last());
        let j = front.index_of(least(front));
        assert(s[j] == least(front));
        assert forall|i: int| 0 <= i < s.len() implies least(s) <= #[trigger] s[i] by {
            if i < front.len() {
                assert(front[i] == s[i]);
            }
        }
    }
}

/// A group is merged only if at least two of its keys have an entry; its
/// members are entries under its keys, and the one that stays is the member
/// that stands first in the listing.
pub proof fn law_merge_job(s: Seq<EntryView>, keys: Seq<Seq<char>>)
    ensures
        job_of(s, keys) matches Some(job) ==> {
            &&& job.members.len() >= 2
            &&& forall|a: int|
                0 <= a < job.members.len() ==> s.contains(#[trigger] job.members[a])
                    && keys.contains(job.members[a].key)
            &&& exists|c: int|
                {
                    &&& 0 <= c < s.len()
                    &&& #[trigger] s[c] == job.canonical
                    &&& job.members.contains(s[c])
                    &&& forall|a: int|
                        0 <= a < job.members.len() ==> exists|k: int|
                            c <= k < s.len() && s[k] == #[trigger] job.members[a]
                }
        },
{
    let ds = distinct(keys);
    let ps = member_positions(s, ds);
    lemma_member_positions(s, ds);
    if ps.len() >= 2 {
        lemma_least(ps);
        let job = job_of(s, keys)->0;
        let c = least(ps);
        let at = ps.index_of(c);
        assert(ps[at] == c);
        assert(job.members[at] == s[c]);
        assert forall|a: int| 0 <= a < job.members.len() implies s.contains(
            #[trigger] job.members[a],
        ) && keys.contains(job.members[a].key) by {
            assert(s[ps[a]] == job.members[a]);
            law_distinct(keys, job.members[a].key);
        }
        assert forall|a: int| 0 <= a < job.members.len() implies (exists|k: int|
            c <= k < s.len() && s[k] == #[trigger] job.members[a]) by {
            assert(s[ps[a]] == job.members[a]);
            assert(c <= ps[a]);
        }
    }
}

/// Groups are taken in their order; one with fewer than two keys is none.
pub proof fn law_groups(
    s: Seq<EntryView>,
    groups: Seq<Seq<Seq<char>>>,
    g: Seq<Seq<char>>,
)
    ensures
        groups.len() == 0 ==> real_groups(groups).len() == 0 && jobs_of(s, groups).len() == 0,
        g.len() >= 2 ==> real_groups(groups.push(g)) == real_groups(groups).push(g),
        g.len() < 2 ==> real_groups(groups.push(g)) == real_groups(groups),
        job_of(s, g) matches Some(j) ==> jobs_of(s, groups.push(g)) == jobs_of(s, groups).push(j),
        job_of(s, g) is None ==> jobs_of(s, groups.push(g)) == jobs_of(s, groups),
{
    assert(groups.push(g).drop_last() =~= groups);
}

proof fn lemma_fitting(s: Seq<char>, max: nat, k: int)
    requires
        0 <= k <= s.len(),
        encode_utf8(s.take(k)).len() <= max,
    ensures
        k <= fitting(s, max, k) <= s.len(),
        encode_utf8(s.take(fitting(s, max, k))).len() <= max,
        fitting(s, max, k) < s.len() ==> encode_utf8(s.take(fitting(s, max, k) + 1)).len() > max,
    decreases s.len() - k,
{
    if k < s.len() && encode_utf8(s.take(k + 1)).len() <= max {
        lemma_fitting(s, max, k + 1);
    }
}

/// A text is cut to the longest beginning that fits; one that fits is not cut.
pub proof fn law_truncated(s: Seq<char>, max: nat)
    requires
        encode_utf8(Seq::<char>::empty()).len() <= max,
    ensures
        ({
            let t = truncated(s, max);
            &&& encode_utf8(t).len() <= max
            &&& t.len() <= s.len()
            &&& t == s.take(t.len() as int)
            &&& encode_utf8(s).len() <= max ==> t == s
            &&& encode_utf8(s).len() > max && t.len() < s.len() ==> encode_utf8(
                s.take(t.len() as int + 1),
            ).len() > max
        }),
{
    assert(s.take(s.len() as int) =~= s);
    assert(s.take(0) =~= Seq::<char>::empty());
    lemma_fitting(s, max, 0);
}

/// The model sees the key and the content of each entry, the content cut; and
/// is asked about all contents of a group, each on a line of its own.
pub proof fn law_questions(e: EntryView, members: Seq<EntryView>)
    ensures
        preview(e) == "KEY: "@ + e.key + "\nCONTENT: "@ + truncated(e.content, PREVIEW_BYTES as nat),
        members.len() > 0 ==> merge_question(members.push(e)) == merge_question(members) + "\n"@
            + ("- "@ + e.content),
        members.len() == 0 ==> merge_question(members.push(e))
            == "Merge these related memory entries into one:\n\n"@ + ("- "@ + e.content),
{
    let c = contents_listed(members);
    let x = "- "@ + e.content;
    assert(contents_listed(members.push(e)) =~= c.push(x));
    law_join(c, x, "\n"@);
    let head = "Merge these related memory entries into one:\n\n"@;
    assert(head + (join(c, "\n"@) + "\n"@ + x) =~= head + join(c, "\n"@) + "\n"@ + x);
}

/// When the model has merged the first group its text is stored as the merged
/// entry; when that succeeded the keys of the group are forgotten one after the
/// other, in order, and then the model is asked about the next group.
pub proof fn law_run_steps(
    s: RunView,
    batch: Seq<EntryView>,
    content: Seq<char>,
    unit: Result<(), Seq<char>>,
    gone: bool,
)
    requires
        s.jobs.len() > 0,
    ensures
        s.phase == RunPhase::Merging ==> ({
            let (after, action) = next_action(s, batch, RunEventView::Merged(Ok(content)));
            &&& action == RunActionView::Store(merged_of(s.jobs[0], content))
            &&& after.phase == RunPhase::Storing
            &&& after.jobs == s.jobs
            &&& after.removed == s.removed
        }),
        s.phase == RunPhase::Storing && unit is Ok && obsolete(s.jobs[0]).len() > 0 ==> ({
            let (after, action) = next_action(s, batch, RunEventView::Stored(unit));
            &&& action == RunActionView::Forget(obsolete(s.jobs[0])[0])
            &&& after.phase == RunPhase::Forgetting
            &&& after.keys == obsolete(s.jobs[0]).drop_first()
            &&& after.jobs == s.jobs
        }),
        s.phase == RunPhase::Forgetting && s.keys.len() > 0 ==> ({
            let (after, action) = next_action(s, batch, RunEventView::Forgotten(Ok(gone)));
            &&& action == RunActionView::Forget(s.keys[0])
            &&& after.keys == s.keys.drop_first()
            &&& after.jobs == s.jobs
            &&& after.removed == s.removed + (if gone {
                1int
            } else {
                0
            })
        }),
        s.phase == RunPhase::Forgetting && s.keys.len() == 0 && s.jobs.len() > 1 ==> ({
            let (after, action) = next_action(s, batch, RunEventView::Forgotten(Ok(gone)));
            &&& action == RunActionView::AskMerge(merge_question(s.jobs[1].members))
            &&& after.jobs == s.jobs.drop_first()
            &&& after.phase == RunPhase::Merging
        }),
{
    assert(s.jobs.len() > 1 ==> s.jobs.drop_first()[0] == s.jobs[1]);
}

/// What the brackets of a reply enclose, from the first opening one to the last
/// closing one, with them.
pub proof fn law_bracketed(before: Seq<char>, inside: Seq<char>, behind: Seq<char>)
    requires
        !before.contains('['),
        !behind.contains(']'),
    ensures
        bracketed(before + seq!['['] + inside + seq![']'] + behind) == Some(
            seq!['['] + inside + seq![']'],
        ),
{
    let s = before + seq!['['] + inside + seq![']'] + behind;
    let a = before.len() as int;
    let b = a + 1 + inside.len();
    assert(s[a] == '[' && s[b] == ']');
    assert forall|i: int| 0 <= i < a implies #[trigger] s[i] != '[' by {
        assert(before[i] == s[i]);
    }
    assert forall|i: int| b < i < s.len() implies #[trigger] s[i] != ']' by {
        assert(behind[i - b - 1] == s[i]);
    }
    law_find_char(s, '[', a);
    law_find_char(s, ']', b);
    assert(s.subrange(a, b + 1) =~= seq!['['] + inside + seq![']']);
}

} // verus!
