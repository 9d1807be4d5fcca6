//! How JSON values are read.
use vstd::prelude::*;
use crate::json::{int_tree, json_map, json_views, Json, JsonTree};

verus! {

/// The member of an object is what the object holds under the key; where it
/// holds nothing, and in a value that is no object, it is null.
pub proof fn law_members(m: Map<Seq<char>, JsonTree>, key: Seq<char>, t: JsonTree)
    ensures
        m.contains_key(key) ==> JsonTree::Obj(m).field(key) == m[key],
        !m.contains_key(key) ==> JsonTree::Obj(m).field(key) is Null,
        !(t is Obj) ==> t.field(key) is Null,
{
}

/// The element of an array is what stands at the position; beyond its ends, and
/// in a value that is no array, it is null.
pub proof fn law_elements(s: Seq<JsonTree>, i: int, t: JsonTree)
    ensures
        0 <= i < s.len() ==> JsonTree::Arr(s).item(i) == s[i],
        i < 0 || i >= s.len() ==> JsonTree::Arr(s).item(i) is Null,
        !(t is Arr) ==> t.item(i) is Null,
{
}

/// A value is read as what it is, and as nothing else.
pub proof fn law_readings(t: JsonTree, s: Seq<char>, n: u64, i: i64, b: bool, v: Seq<JsonTree>)
    ensures
        t.as_str() == Some(s) <==> t == JsonTree::Str(s),
        t.as_u64() == Some(n) <==> t == JsonTree::UInt(n),
        t.as_bool() == Some(b) <==> t == JsonTree::Bool(b),
        t.as_arr() == Some(v) <==> t == JsonTree::Arr(v),
        t.text_or_empty() == (match t {
            JsonTree::Str(x) => x,
            _ => Seq::empty(),
        }),
        int_tree(i).as_i64() == Some(i),
        i >= 0 ==> int_tree(i) == JsonTree::UInt(i as u64),
        i < 0 ==> int_tree(i) == JsonTree::Int(i),
{
}

/// A later member of an object replaces an earlier one with the same key.
pub proof fn law_later_members_replace(s: Seq<(String, Json)>, p: (String, Json))
    ensures
        s.len() == 0 ==> json_map(s) == Map::<Seq<char>, JsonTree>::empty(),
        json_map(s.push(p)) == json_map(s).insert(p.0@, p.1@),
{
    assert(s.push(p).drop_last() =~= s);
}

/// The elements of an array keep their order.
pub proof fn law_array_order(s: Seq<Json>, i: int)
    ensures
        json_views(s).len() == s.len(),
        0 <= i < s.len() ==> json_views(s)[i] == s[i]@,
{
}

} // verus!
