//! Reading lists out of a model's reply, which may wrap them in other text.
use vstd::prelude::*;
use crate::json::{json_views, Json, JsonTree};
use crate::text::{
    chars_of, find, find_char, lemma_find_from, lemma_rfind_from, opt_string, rfind, rfind_chars,
    string_of_range, texts,
};

verus! {

/// Where the first opening and the last closing bracket of a text stand, if it
/// has both.
pub open spec fn brackets(s: Seq<char>) -> Option<(int, int)> {
    match (find(s, seq!['[']), rfind(s, seq![']'])) {
        (Some(a), Some(b)) => Some((a, b)),
        _ => None,
    }
}

/// What the brackets of a text enclose, with them; nothing if it lacks one of
/// them or the last closing one comes before the first opening one.
pub open spec fn bracketed(s: Seq<char>) -> Option<Seq<char>> {
    match brackets(s) {
        Some((a, b)) => if a <= b {
            Some(s.subrange(a, b + 1))
        } else {
            None
        },
        None => None,
    }
}

/// The part of a text that may be a list: what its brackets enclose, or all of
/// it if it lacks one of them; none if they are out of order.
pub open spec fn list_part(s: Seq<char>) -> Option<Seq<char>> {
    if brackets(s) is None {
        Some(s)
    } else {
        bracketed(s)
    }
}

proof fn lemma_brackets(s: Seq<char>)
    ensures
        brackets(s) matches Some((a, b)) ==> 0 <= a < s.len() && 0 <= b < s.len(),
{
    lemma_find_from(s, seq!['['], 0);
    lemma_rfind_from(s, seq![']'], s.len() as int);
}

/// What the brackets of a text enclose, with them.
pub fn take_bracketed(s: &str) -> (r: Option<String>)
    ensures
        opt_string(r) == bracketed(s@),
{
    let a = chars_of(s);
    let n: usize = a.len();
    let close: Vec<char> = vec![']'];
    proof {
        lemma_brackets(s@);
        assert(close@ =~= seq![']']);
        assert(brackets(s@) matches Some((_, b)) ==> b < n);
    }
    match (find_char(&a, '['), rfind_chars(&a, &close)) {
        (Some(i), Some(j)) => if i <= j {
            Some(string_of_range(&a, i, j + 1))
        } else {
            None
        },
        _ => None,
    }
}

/// The part of a text that may be a list.
pub fn take_list_part(s: &str) -> (r: Option<String>)
    ensures
        opt_string(r) == list_part(s@),
{
    let a = chars_of(s);
    let close: Vec<char> = vec![']'];
    proof {
        lemma_brackets(s@);
        assert(close@ =~= seq![']']);
    }
    match (find_char(&a, '['), rfind_chars(&a, &close)) {
        (Some(_), Some(_)) => take_bracketed(s),
        _ => Some(s.to_owned()),
    }
}

/// The strings of an array that holds nothing else.
pub open spec fn string_items(t: JsonTree) -> Option<Seq<Seq<char>>> {
    match t.as_arr() {
        Some(items) => if forall|i: int| 0 <= i < items.len() ==> (#[trigger] items[i]) is Str {
            Some(Seq::new(items.len(), |i: int| items[i]->Str_0))
        } else {
            None
        },
        None => None,
    }
}

/// The arrays of strings of an array that holds nothing else.
pub open spec fn string_lists(t: JsonTree) -> Option<Seq<Seq<Seq<char>>>> {
    match t.as_arr() {
        Some(items) => if forall|i: int|
            0 <= i < items.len() ==> string_items(#[trigger] items[i]) is Some {
            Some(Seq::new(items.len(), |i: int| string_items(items[i])->0))
        } else {
            None
        },
        None => None,
    }
}

pub open spec fn opt_string_list(o: Option<Vec<String>>) -> Option<Seq<Seq<char>>> {
    match o {
        Some(v) => Some(texts(v@)),
        None => None,
    }
}

/// The strings of an array that holds nothing else.
pub fn read_strings(j: &Json) -> (r: Option<Vec<String>>)
    ensures
        opt_string_list(r) == string_items(j@),
{
    let items = match j.as_arr() {
        Some(items) => items,
        None => {
            return None;
        },
    };
    let ghost all = json_views(items@);
    let mut out: Vec<String> = Vec::new();
    let mut i: usize = 0;
    while i < items.len()
        invariant
            i <= items@.len(),
            all == json_views(items@),
            j@.as_arr() == Some(all),
            out@.len() == i,
            forall|k: int| 0 <= k < i ==> (#[trigger] all[k]) is Str && all[k]->Str_0 == out@[k]@,
        decreases items.len() - i,
    {
        proof {
            assert(all[i as int] == items@[i as int]@);
        }
        match items[i].as_str() {
            Some(s) => {
                out.push(s.to_owned());
            },
            None => {
                proof {
                    let items = j@.as_arr()->0;
                    assert(!(items[i as int] is Str));
                }
                return None;
            },
        }
        i = i + 1;
    }
    proof {
        let want = Seq::new(all.len(), |i: int| all[i]->Str_0);
        assert forall|k: int| 0 <= k < all.len() implies texts(out@)[k] == want[k] by {
            assert(all[k]->Str_0 == out@[k]@);
        }
        assert(texts(out@) =~= want);
    }
    Some(out)
}

} // verus!
