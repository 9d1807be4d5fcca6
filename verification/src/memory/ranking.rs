//! Putting items in order: the highest score first, equal scores in the order
//! in which they came.
use vstd::prelude::*;

verus! {

/// Puts an item behind the last one that scores at least as high.
pub open spec fn placed<T>(s: Seq<(u64, T)>, x: (u64, T)) -> Seq<(u64, T)>
    decreases s.len(),
{
    if s.len() == 0 || s.last().0 >= x.0 {
        s.push(x)
    } else {
        placed(s.drop_last(), x).push(s.last())
    }
}

/// The items in order.
pub open spec fn ranked<T>(s: Seq<(u64, T)>) -> Seq<(u64, T)>
    decreases s.len(),
{
    if s.len() == 0 {
        Seq::empty()
    } else {
        placed(ranked(s.drop_last()), s.last())
    }
}

/// No item scores higher than one before it.
pub open spec fn descending<T>(s: Seq<(u64, T)>) -> bool {
    forall|i: int, j: int| 0 <= i <= j < s.len() ==> (#[trigger] s[i]).0 >= (#[trigger] s[j]).0
}

proof fn lemma_placed<T>(s: Seq<(u64, T)>, x: (u64, T))
    requires
        descending(s),
    ensures
        descending(placed(s, x)),
        placed(s, x).len() == s.len() + 1,
        placed(s, x).to_multiset() == s.to_multiset().insert(x),
        forall|i: int|
            0 <= i < placed(s, x).len() ==> (#[trigger] placed(s, x)[i]).0 <= if s.len() == 0
                || x.0 >= s[0].0 {
                x.0
            } else {
                s[0].0
            },
    decreases s.len(),
{
    broadcast use vstd::seq_lib::group_to_multiset_ensures;

    if s.len() == 0 || s.last().0 >= x.0 {
        assert(s.push(x).to_multiset() =~= s.to_multiset().insert(x));
        if s.len() > 0 {
            assert(s[0].0 >= s.last().0);
        }
    } else {
        let head = s.drop_last();
        lemma_placed(head, x);
        let p = placed(head, x);
        assert(s =~= head.push(s.last()));
        assert(head.push(s.last()).to_multiset() =~= head.to_multiset().insert(s.last()));
        assert(p.push(s.last()).to_multiset() =~= p.to_multiset().insert(s.last()));
        assert(p.push(s.last()).to_multiset() =~= s.to_multiset().insert(x));
        assert forall|i: int, j: int| 0 <= i <= j < p.push(s.last()).len() implies (
        #[trigger] p.push(s.last())[i]).0 >= (#[trigger] p.push(s.last())[j]).0 by {
            if j == p.len() && i < p.len() {
                lemma_placed_above(head, x, s.last().0);
                assert(p[i].0 >= s.last().0);
            }
        }
    }
}

/// If every item of a sequence and a new one score at least `low`, so do the
/// items once the new one is placed.
proof fn lemma_placed_above<T>(s: Seq<(u64, T)>, x: (u64, T), low: u64)
    requires
        forall|i: int| 0 <= i < s.len() ==> (#[trigger] s[i]).0 >= low,
        x.0 >= low,
    ensures
        forall|i: int| 0 <= i < placed(s, x).len() ==> (#[trigger] placed(s, x)[i]).0 >= low,
    decreases s.len(),
{
    if s.len() > 0 && s.last().0 < x.0 {
        assert forall|i: int| 0 <= i < s.drop_last().len() implies (#[trigger] s.drop_last()[i]).0
            >= low by {
            assert(s.drop_last()[i] == s[i]);
        }
        assert(s[s.len() - 1].0 >= low);
        lemma_placed_above(s.drop_last(), x, low);
        let p = placed(s.drop_last(), x);
        assert forall|i: int| 0 <= i < placed(s, x).len() implies (#[trigger] placed(s, x)[i]).0
            >= low by {
            if i < p.len() {
                assert(p[i].0 >= low);
            }
        }
    } else {
        assert forall|i: int| 0 <= i < s.push(x).len() implies (#[trigger] s.push(x)[i]).0
            >= low by {
            if i < s.len() {
                assert(s[i].0 >= low);
            }
        }
    }
}

/// Ranking puts the items in descending order and neither adds nor loses one.
pub proof fn law_ranked_is_a_descending_permutation<T>(s: Seq<(u64, T)>)
    ensures
        descending(ranked(s)),
        ranked(s).len() == s.len(),
        ranked(s).to_multiset() == s.to_multiset(),
    decreases s.len(),
{
    broadcast use vstd::seq_lib::group_to_multiset_ensures;

    if s.len() > 0 {
        law_ranked_is_a_descending_permutation(s.drop_last());
        lemma_placed(ranked(s.drop_last()), s.last());
        assert(s =~= s.drop_last().push(s.last()));
        assert(s.drop_last().push(s.last()).to_multiset() =~= s.drop_last().to_multiset().insert(
            s.last(),
        ));
    } else {
        assert(s =~= Seq::<(u64, T)>::empty());
    }
}

/// Items with equal scores stay in the order in which they came.
pub proof fn law_equal_scores_keep_their_order<T>(s: Seq<(u64, T)>, score: u64)
    ensures
        scoring(ranked(s), score) == scoring(s, score),
    decreases s.len(),
{
    if s.len() > 0 {
        law_equal_scores_keep_their_order(s.drop_last(), score);
        law_ranked_is_a_descending_permutation(s.drop_last());
        let head = ranked(s.drop_last());
        lemma_placed_scoring(head, s.last(), score);
        assert(head.push(s.last()).drop_last() =~= head);
        assert(head.push(s.last()).last() == s.last());
    }
}

/// The items with a given score, in their order.
pub open spec fn scoring<T>(s: Seq<(u64, T)>, score: u64) -> Seq<(u64, T)>
    decreases s.len(),
{
    if s.len() == 0 {
        Seq::empty()
    } else if s.last().0 == score {
        scoring(s.drop_last(), score).push(s.last())
    } else {
        scoring(s.drop_last(), score)
    }
}

proof fn lemma_placed_scoring<T>(s: Seq<(u64, T)>, x: (u64, T), score: u64)
    requires
        descending(s),
    ensures
        scoring(placed(s, x), score) == scoring(s.push(x), score),
    decreases s.len(),
{
    assert(s.push(x).drop_last() =~= s);
    if s.len() > 0 && s.last().0 < x.0 {
        let head = s.drop_last();
        lemma_placed_scoring(head, x, score);
        assert(head.push(x).drop_last() =~= head);
        assert(head.push(x).last() == x);
        assert(s.push(x).last() == x);
        assert(placed(s, x).drop_last() =~= placed(head, x));
        assert(placed(s, x).last() == s.last());
        assert(scoring(head.push(x), score) == if x.0 == score {
            scoring(head, score).push(x)
        } else {
            scoring(head, score)
        });
        assert(scoring(s.push(x), score) == if x.0 == score {
            scoring(s, score).push(x)
        } else {
            scoring(s, score)
        });
    }
}

/// Ranking looks at the scores alone.
pub proof fn lemma_ranked_map<T, U>(s: Seq<(u64, T)>, f: spec_fn(T) -> U)
    ensures
        ranked(Seq::new(s.len(), |i: int| (s[i].0, f(s[i].1)))) == Seq::new(
            ranked(s).len(),
            |i: int| (ranked(s)[i].0, f(ranked(s)[i].1)),
        ),
    decreases s.len(),
{
    let m = Seq::new(s.len(), |i: int| (s[i].0, f(s[i].1)));
    if s.len() > 0 {
        let head = s.drop_last();
        lemma_ranked_map(head, f);
        assert(m.drop_last() =~= Seq::new(head.len(), |i: int| (head[i].0, f(head[i].1))));
        lemma_placed_map(ranked(head), s.last(), f);
    } else {
        assert(ranked(m) =~= Seq::new(
            ranked(s).len(),
            |i: int| (ranked(s)[i].0, f(ranked(s)[i].1)),
        ));
    }
}

proof fn lemma_placed_map<T, U>(s: Seq<(u64, T)>, x: (u64, T), f: spec_fn(T) -> U)
    ensures
        placed(Seq::new(s.len(), |i: int| (s[i].0, f(s[i].1))), (x.0, f(x.1))) == Seq::new(
            placed(s, x).len(),
            |i: int| (placed(s, x)[i].0, f(placed(s, x)[i].1)),
        ),
    decreases s.len(),
{
    let m = Seq::new(s.len(), |i: int| (s[i].0, f(s[i].1)));
    let y = (x.0, f(x.1));
    let target = Seq::new(placed(s, x).len(), |i: int| (placed(s, x)[i].0, f(placed(s, x)[i].1)));
    if s.len() == 0 || s.last().0 >= x.0 {
        assert(m.push(y) =~= target);
    } else {
        let head = s.drop_last();
        lemma_placed_map(head, x, f);
        assert(m.drop_last() =~= Seq::new(head.len(), |i: int| (head[i].0, f(head[i].1))));
        assert(placed(m.drop_last(), y).push(m.last()) =~= target);
    }
}

/// Placing an item is inserting it.
proof fn lemma_placed_is_insert<T>(s: Seq<(u64, T)>, x: (u64, T), j: int)
    requires
        0 <= j <= s.len(),
        j > 0 ==> s[j - 1].0 >= x.0,
        forall|i: int| j <= i < s.len() ==> (#[trigger] s[i]).0 < x.0,
    ensures
        placed(s, x) == s.insert(j, x),
    decreases s.len(),
{
    if s.len() == 0 {
        assert(s.push(x) =~= s.insert(j, x));
    } else if j == s.len() {
        assert(s.push(x) =~= s.insert(j, x));
    } else {
        assert(s[s.len() - 1].0 < x.0);
        let head = s.drop_last();
        assert forall|i: int| j <= i < head.len() implies (#[trigger] head[i]).0 < x.0 by {
            assert(head[i] == s[i]);
        }
        lemma_placed_is_insert(head, x, j);
        assert(head.insert(j, x).push(s.last()) =~= s.insert(j, x));
    }
}

/// Puts the items in order.
pub fn rank<T>(items: Vec<(u64, T)>) -> (r: Vec<(u64, T)>)
    ensures
        r@ == ranked(items@),
{
    let ghost all = items@;
    let mut out: Vec<(u64, T)> = Vec::new();
    proof {
        assert(all.take(0) =~= Seq::<(u64, T)>::empty());
    }
    for x in it: items
        invariant
            it.seq() == all,
            out@ == ranked(all.take(it.index() as int)),
    {
        let ghost k = it.index() as int;
        proof {
            assert(all.take(k + 1).drop_last() =~= all.take(k));
            assert(all.take(k + 1).last() == x);
        }
        let mut j: usize = out.len();
        while j > 0 && out[j - 1].0 < x.0
            invariant
                j <= out@.len(),
                forall|i: int| j <= i < out@.len() ==> (#[trigger] out@[i]).0 < x.0,
            decreases j,
        {
            j = j - 1;
        }
        proof {
            lemma_placed_is_insert(out@, x, j as int);
        }
        out.insert(j, x);
    }
    proof {
        assert(all.take(all.len() as int) =~= all);
    }
    out
}

} // verus!
