//! A small map keyed by strings.
use vstd::prelude::*;
use crate::text::same_str;

verus! {

/// The map that a list of pairs stands for, a later pair replacing an earlier
/// one.
pub open spec fn pairs_map<V>(s: Seq<(String, V)>) -> Map<Seq<char>, V>
    decreases s.len(),
{
    if s.len() == 0 {
        Map::empty()
    } else {
        pairs_map(s.drop_last()).insert(s.last().0@, s.last().1)
    }
}

/// Values by name.
#[derive(Debug)]
pub struct StrMap<V> {
    pub items: Vec<(String, V)>,
}

impl<V> View for StrMap<V> {
    type V = Map<Seq<char>, V>;

    open spec fn view(&self) -> Map<Seq<char>, V> {
        pairs_map(self.items@)
    }
}

proof fn lemma_pairs_absent<V>(s: Seq<(String, V)>, key: Seq<char>)
    requires
        forall|i: int| 0 <= i < s.len() ==> (#[trigger] s[i]).0@ != key,
    ensures
        !pairs_map(s).contains_key(key),
    decreases s.len(),
{
    if s.len() > 0 {
        assert(s[s.len() - 1].0@ != key);
        assert forall|i: int| 0 <= i < s.drop_last().len() implies (#[trigger] s.drop_last()[i]).0@
            != key by {
            assert(s.drop_last()[i] == s[i]);
        }
        lemma_pairs_absent(s.drop_last(), key);
    }
}

proof fn lemma_pairs_remove<V>(s: Seq<(String, V)>, i: int)
    requires
        0 <= i < s.len(),
    ensures
        pairs_map(s.remove(i)).remove(s[i].0@) == pairs_map(s).remove(s[i].0@),
    decreases s.len(),
{
    let key = s[i].0@;
    let r = s.remove(i);
    if i == s.len() - 1 {
        assert(r =~= s.drop_last());
        assert(pairs_map(s).remove(key) =~= pairs_map(r).remove(key));
    } else {
        lemma_pairs_remove(s.drop_last(), i);
        assert(s.drop_last()[i] == s[i]);
        assert(r.drop_last() =~= s.drop_last().remove(i));
        assert(r.last() == s.last());
        let m1 = pairs_map(r.drop_last());
        let m2 = pairs_map(s.drop_last());
        let k = s.last().0@;
        let v = s.last().1;
        if k == key {
            assert(m1.insert(k, v).remove(key) =~= m1.remove(key));
            assert(m2.insert(k, v).remove(key) =~= m2.remove(key));
        } else {
            assert(m1.insert(k, v).remove(key) =~= m1.remove(key).insert(k, v));
            assert(m2.insert(k, v).remove(key) =~= m2.remove(key).insert(k, v));
        }
    }
}

impl<V> StrMap<V> {
    /// A map without entries.
    pub fn new() -> (r: StrMap<V>)
        ensures
            r@ == Map::<Seq<char>, V>::empty(),
    {
        let r = StrMap { items: Vec::new() };
        proof {
            assert(r@ =~= Map::<Seq<char>, V>::empty());
        }
        r
    }

    /// The value under a name.
    pub fn get(&self, key: &str) -> (r: Option<&V>)
        ensures
            match r {
                Some(v) => self@.contains_key(key@) && self@[key@] == *v,
                None => !self@.contains_key(key@),
            },
    {
        let mut i: usize = self.items.len();
        proof {
            assert(self.items@.take(self.items@.len() as int) =~= self.items@);
        }
        while i > 0
            invariant
                i <= self.items@.len(),
                self@.contains_key(key@) == pairs_map(self.items@.take(i as int)).contains_key(
                    key@,
                ),
                self@.contains_key(key@) ==> self@[key@] == pairs_map(
                    self.items@.take(i as int),
                )[key@],
            decreases i,
        {
            i = i - 1;
            proof {
                assert(self.items@.take(i + 1).drop_last() =~= self.items@.take(i as int));
            }
            if same_str(self.items[i].0.as_str(), key) {
                return Some(&self.items[i].1);
            }
        }
        None
    }

    /// Forgets the value under a name.
    pub fn remove(&mut self, key: &str)
        ensures
            final(self)@ == old(self)@.remove(key@),
    {
        let ghost all = self@;
        let mut i: usize = self.items.len();
        while i > 0
            invariant
                i <= self.items@.len(),
                self@.remove(key@) == all.remove(key@),
                forall|k: int| i <= k < self.items@.len() ==> (#[trigger] self.items@[k]).0@
                    != key@,
            decreases i,
        {
            i = i - 1;
            if same_str(self.items[i].0.as_str(), key) {
                proof {
                    lemma_pairs_remove(self.items@, i as int);
                }
                let ghost before = self.items@;
                self.items.remove(i);
                proof {
                    assert forall|k: int| i <= k < self.items@.len() implies (
                    #[trigger] self.items@[k]).0@ != key@ by {
                        assert(self.items@[k] == before[k + 1]);
                    }
                }
            }
        }
        proof {
            lemma_pairs_absent(self.items@, key@);
            assert(self@ =~= self@.remove(key@));
        }
    }

    /// Sets the value under a name.
    pub fn insert(&mut self, key: &str, value: V)
        ensures
            final(self)@ == old(self)@.insert(key@, value),
    {
        let ghost all = self@;
        self.remove(key);
        let ghost before = self.items@;
        self.items.push((key.to_owned(), value));
        proof {
            assert(self.items@.drop_last() =~= before);
            assert(self@ =~= all.insert(key@, value));
        }
    }
}

} // verus!
