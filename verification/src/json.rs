//! JSON values: the tree the rest of the library reads and builds, and its
//! conversion to and from text.
use vstd::prelude::*;

verus! {

/// A JSON value.  Object members keep the order in which they were added; a
/// repeated key means its last member.
#[derive(Debug)]
pub enum Json {
    Null,
    Bool(bool),
    UInt(u64),
    Int(i64),
    Float(JsonFloat),
    Str(String),
    Arr(Vec<Json>),
    Obj(Vec<(String, Json)>),
}

/// What a JSON value means: arrays are sequences, objects are maps.
pub enum JsonTree {
    Null,
    Bool(bool),
    UInt(u64),
    Int(i64),
    Float(serde_json::Number),
    Str(Seq<char>),
    Arr(Seq<JsonTree>),
    Obj(Map<Seq<char>, JsonTree>),
}

/// A number that is not an integer, as `serde_json` holds it.
#[derive(Debug)]
pub struct JsonFloat {
    number: serde_json::Number,
}

impl JsonFloat {
    #[verifier::type_invariant]
    spec fn inv(self) -> bool {
        float_number(self.number)
    }

    pub closed spec fn number(self) -> serde_json::Number {
        self.number
    }
}

/// Whether a number is no integer: what `serde_json::Number::is_f64` returns.
pub uninterp spec fn float_number(n: serde_json::Number) -> bool;

/// A JSON number of `serde_json`.
#[verifier::external_type_specification]
#[verifier::external_body]
pub struct ExNumber(serde_json::Number);

/// A JSON value of `serde_json`.
#[verifier::external_type_specification]
#[verifier::external_body]
pub struct ExValue(serde_json::Value);

/// An integer: the ones below zero are apart.
pub open spec fn int_tree(n: i64) -> JsonTree {
    if n >= 0 {
        JsonTree::UInt(n as u64)
    } else {
        JsonTree::Int(n)
    }
}

pub open spec fn json_view(j: Json) -> JsonTree
    decreases j,
{
    match j {
        Json::Null => JsonTree::Null,
        Json::Bool(b) => JsonTree::Bool(b),
        Json::UInt(n) => JsonTree::UInt(n),
        Json::Int(n) => int_tree(n),
        Json::Float(f) => JsonTree::Float(f.number()),
        Json::Str(t) => JsonTree::Str(t@),
        Json::Arr(v) => JsonTree::Arr(
            Seq::new(
                v@.len(),
                |i: int|
                    if 0 <= i < v@.len() {
                        json_view(v@[i])
                    } else {
                        JsonTree::Null
                    },
            ),
        ),
        Json::Obj(v) => JsonTree::Obj(json_map(v@)),
    }
}

/// The members of an object as a map, a later member replacing an earlier one.
pub open spec fn json_map(s: Seq<(String, Json)>) -> Map<Seq<char>, JsonTree>
    decreases s,
{
    if s.len() == 0 {
        Map::empty()
    } else {
        json_map(s.drop_last()).insert(s.last().0@, json_view(s.last().1))
    }
}

impl View for Json {
    type V = JsonTree;

    open spec fn view(&self) -> JsonTree {
        json_view(*self)
    }
}

/// The trees of a sequence of values.
pub open spec fn json_views(s: Seq<Json>) -> Seq<JsonTree> {
    Seq::new(s.len(), |i: int| s[i]@)
}

impl JsonTree {
    /// The member `key` of an object, and null where there is none.
    pub open spec fn field(self, key: Seq<char>) -> JsonTree {
        match self {
            JsonTree::Obj(m) => if m.contains_key(key) {
                m[key]
            } else {
                JsonTree::Null
            },
            _ => JsonTree::Null,
        }
    }

    /// The element `i` of an array, and null where there is none.
    pub open spec fn item(self, i: int) -> JsonTree {
        match self {
            JsonTree::Arr(s) => if 0 <= i < s.len() {
                s[i]
            } else {
                JsonTree::Null
            },
            _ => JsonTree::Null,
        }
    }

    pub open spec fn as_str(self) -> Option<Seq<char>> {
        match self {
            JsonTree::Str(t) => Some(t),
            _ => None,
        }
    }

    /// The string of the value, empty where it is none.
    pub open spec fn text_or_empty(self) -> Seq<char> {
        match self {
            JsonTree::Str(t) => t,
            _ => Seq::empty(),
        }
    }

    pub open spec fn as_u64(self) -> Option<u64> {
        match self {
            JsonTree::UInt(n) => Some(n),
            _ => None,
        }
    }

    pub open spec fn as_i64(self) -> Option<i64> {
        match self {
            JsonTree::UInt(n) => if n <= i64::MAX {
                Some(n as i64)
            } else {
                None
            },
            JsonTree::Int(n) => Some(n),
            _ => None,
        }
    }

    pub open spec fn as_bool(self) -> Option<bool> {
        match self {
            JsonTree::Bool(b) => Some(b),
            _ => None,
        }
    }

    pub open spec fn as_arr(self) -> Option<Seq<JsonTree>> {
        match self {
            JsonTree::Arr(s) => Some(s),
            _ => None,
        }
    }
}

impl Json {
    /// The member `key` of an object, and null where there is none.
    pub fn field<'a>(&'a self, key: &str) -> (r: &'a Json)
        ensures
            r@ == self@.field(key@),
    {
        if let Json::Obj(v) = self {
            let mut i: usize = v.len();
            proof {
                assert(v@.take(v@.len() as int) =~= v@);
            }
            while i > 0
                invariant
                    i <= v.len(),
                    self@ == JsonTree::Obj(json_map(v@)),
                    json_map(v@).contains_key(key@) == json_map(v@.take(i as int)).contains_key(
                        key@,
                    ),
                    json_map(v@).contains_key(key@) ==> json_map(v@)[key@] == json_map(
                        v@.take(i as int),
                    )[key@],
                decreases i,
            {
                i = i - 1;
                proof {
                    assert(v@.take(i + 1).drop_last() =~= v@.take(i as int));
                }
                if crate::text::same_str(v[i].0.as_str(), key) {
                    return &v[i].1;
                }
            }
        }
        &Json::Null
    }

    /// The element `i` of an array, and null where there is none.
    pub fn item<'a>(&'a self, i: usize) -> (r: &'a Json)
        ensures
            r@ == self@.item(i as int),
    {
        if let Json::Arr(v) = self {
            if i < v.len() {
                return &v[i];
            }
        }
        &Json::Null
    }
}


impl Json {
    pub fn as_str<'a>(&'a self) -> (r: Option<&'a str>)
        ensures
            crate::text::opt_str(r) == self@.as_str(),
    {
        match self {
            Json::Str(t) => Some(t.as_str()),
            _ => None,
        }
    }

    pub fn as_u64(&self) -> (r: Option<u64>)
        ensures
            r == self@.as_u64(),
    {
        match self {
            Json::UInt(n) => Some(*n),
            Json::Int(n) => if *n >= 0 {
                Some(*n as u64)
            } else {
                None
            },
            _ => None,
        }
    }

    pub fn as_i64(&self) -> (r: Option<i64>)
        ensures
            r == self@.as_i64(),
    {
        match self {
            Json::UInt(n) => if *n <= i64::MAX as u64 {
                Some(*n as i64)
            } else {
                None
            },
            Json::Int(n) => Some(*n),
            _ => None,
        }
    }

    pub fn as_bool(&self) -> (r: Option<bool>)
        ensures
            r == self@.as_bool(),
    {
        match self {
            Json::Bool(b) => Some(*b),
            _ => None,
        }
    }

    /// The elements of an array.
    pub fn as_arr<'a>(&'a self) -> (r: Option<&'a Vec<Json>>)
        ensures
            match r {
                Some(v) => self@.as_arr() == Some(json_views(v@)),
                None => self@.as_arr() is None,
            },
    {
        match self {
            Json::Arr(v) => {
                proof {
                    assert(self@->Arr_0 =~= json_views(v@));
                }
                Some(v)
            },
            _ => None,
        }
    }

    pub fn is_object(&self) -> (r: bool)
        ensures
            r == (self@ is Obj),
    {
        match self {
            Json::Obj(_) => true,
            _ => false,
        }
    }

    pub fn is_null(&self) -> (r: bool)
        ensures
            r == (self@ is Null),
    {
        match self {
            Json::Null => true,
            _ => false,
        }
    }

    /// Whether the value is the string `s`.
    pub fn is_str(&self, s: &str) -> (r: bool)
        ensures
            r == (self@.as_str() == Some(s@)),
    {
        match self {
            Json::Str(t) => crate::text::same_str(t.as_str(), s),
            _ => false,
        }
    }

    /// The string of the value, empty where it is none.
    pub fn str_or_empty(&self) -> (r: String)
        ensures
            r@ == self@.text_or_empty(),
    {
        match self {
            Json::Str(t) => t.clone(),
            _ => String::new(),
        }
    }

    /// A string value.
    pub fn text(s: &str) -> (r: Json)
        ensures
            r@ == JsonTree::Str(s@),
    {
        Json::Str(s.to_owned())
    }

    /// An array value.
    pub fn arr(v: Vec<Json>) -> (r: Json)
        ensures
            r@ == JsonTree::Arr(json_views(v@)),
    {
        let r = Json::Arr(v);
        proof {
            assert(r@->Arr_0 =~= json_views(v@));
        }
        r
    }

    /// An object value with no member.
    pub fn obj() -> (r: Json)
        ensures
            r@ == JsonTree::Obj(Map::empty()),
    {
        let v: Vec<(String, Json)> = Vec::new();
        proof {
            assert(json_map(v@) =~= Map::empty());
        }
        Json::Obj(v)
    }

    /// The object with the member `key` added or replaced; a value that is no
    /// object gives an object with that one member.
    pub fn with(self, key: &str, value: Json) -> (r: Json)
        ensures
            r@ == JsonTree::Obj(self@.members().insert(key@, value@)),
    {
        let mut v = match self {
            Json::Obj(v) => v,
            _ => Vec::new(),
        };
        let ghost before = v@;
        v.push((key.to_owned(), value));
        proof {
            assert(v@.drop_last() =~= before);
            assert(json_map(before) =~= self@.members());
            assert(json_map(v@) =~= json_map(before).insert(key@, value@));
        }
        Json::Obj(v)
    }
}

impl JsonTree {
    /// The members of an object, and none for any other value.
    pub open spec fn members(self) -> Map<Seq<char>, JsonTree> {
        match self {
            JsonTree::Obj(m) => m,
            _ => Map::empty(),
        }
    }
}

fn clone_json(j: &Json) -> (r: Json)
    ensures
        r@ == j@,
    decreases j,
{
    match j {
        Json::Null => Json::Null,
        Json::Bool(b) => Json::Bool(*b),
        Json::UInt(n) => Json::UInt(*n),
        Json::Int(n) => Json::Int(*n),
        Json::Float(f) => {
            proof {
                use_type_invariant(f);
            }
            Json::Float(JsonFloat { number: clone_number(&f.number) })
        },
        Json::Str(t) => Json::Str(t.clone()),
        Json::Arr(v) => {
            let mut out: Vec<Json> = Vec::new();
            let mut i: usize = 0;
            while i < v.len()
                invariant
                    i <= v.len(),
                    j == Json::Arr(*v),
                    out@.len() == i,
                    forall|k: int| 0 <= k < i ==> (#[trigger] out@[k])@ == v@[k]@,
                decreases v.len() - i,
            {
                proof {
                    assert(decreases_to!(*j => j->Arr_0));
                    assert(decreases_to!(j->Arr_0 => v@));
                    assert(decreases_to!(v@ => v@[i as int]));
                }
                let c = clone_json(&v[i]);
                out.push(c);
                i = i + 1;
            }
            let r = Json::arr(out);
            proof {
                assert(j@->Arr_0 =~= r@->Arr_0);
            }
            r
        },
        Json::Obj(v) => {
            let mut out: Vec<(String, Json)> = Vec::new();
            let mut i: usize = 0;
            while i < v.len()
                invariant
                    i <= v.len(),
                    j == Json::Obj(*v),
                    json_map(out@) == json_map(v@.take(i as int)),
                decreases v.len() - i,
            {
                proof {
                    assert(decreases_to!(*j => j->Obj_0));
                    assert(decreases_to!(j->Obj_0 => v@));
                    assert(decreases_to!(v@ => v@[i as int]));
                    assert(decreases_to!(v@[i as int] => v@[i as int].1));
                }
                let c = clone_json(&v[i].1);
                let ghost before = out@;
                out.push((v[i].0.clone(), c));
                proof {
                    assert(out@.drop_last() =~= before);
                    assert(v@.take(i + 1).drop_last() =~= v@.take(i as int));
                }
                i = i + 1;
            }
            proof {
                assert(v@.take(v@.len() as int) =~= v@);
            }
            Json::Obj(out)
        },
    }
}

impl Clone for Json {
    fn clone(&self) -> (r: Json)
        ensures
            r@ == self@,
    {
        clone_json(self)
    }
}

/// `Number::clone` gives the same number.
#[verifier::external_body]
fn clone_number(n: &serde_json::Number) -> (r: serde_json::Number)
    ensures
        r == *n,
{
    n.clone()
}

// ---- text ----

/// The content of a `serde_json::Value`.
pub uninterp spec fn value_tree(v: serde_json::Value) -> JsonTree;

/// What `serde_json::from_str` reads in a text, and `None` where it fails.
pub uninterp spec fn json_parse(text: Seq<char>) -> Option<JsonTree>;

/// What `serde_json::Value::to_string` writes for a value.
pub uninterp spec fn json_text(tree: JsonTree) -> Seq<char>;

/// One level of a `serde_json::Value`.
pub enum ValueShape {
    Null,
    Bool(bool),
    UInt(u64),
    Int(i64),
    Float(serde_json::Number),
    Str(String),
    Arr(Vec<serde_json::Value>),
    Obj(Vec<(String, serde_json::Value)>),
}

pub open spec fn value_map(s: Seq<(String, serde_json::Value)>) -> Map<Seq<char>, JsonTree>
    decreases s.len(),
{
    if s.len() == 0 {
        Map::empty()
    } else {
        value_map(s.drop_last()).insert(s.last().0@, value_tree(s.last().1))
    }
}

pub open spec fn shape_tree(s: ValueShape) -> JsonTree {
    match s {
        ValueShape::Null => JsonTree::Null,
        ValueShape::Bool(b) => JsonTree::Bool(b),
        ValueShape::UInt(n) => JsonTree::UInt(n),
        ValueShape::Int(n) => int_tree(n),
        ValueShape::Float(n) => JsonTree::Float(n),
        ValueShape::Str(t) => JsonTree::Str(t@),
        ValueShape::Arr(v) => JsonTree::Arr(Seq::new(v@.len(), |i: int| value_tree(v@[i]))),
        ValueShape::Obj(v) => JsonTree::Obj(value_map(v@)),
    }
}

/// `serde_json::from_str` into a `Value`: the result depends on the text alone.
#[verifier::external_body]
fn read_value(text: &str) -> (r: Option<serde_json::Value>)
    ensures
        match r {
            Some(v) => json_parse(text@) == Some(value_tree(v)),
            None => json_parse(text@) is None,
        },
{
    serde_json::from_str::<serde_json::Value>(text).ok()
}

/// The key by which `serde_json` marks JSON inside JSON: an object that begins
/// with it is read as what its member says.
pub const RAW_VALUE_KEY: &'static str = "$serde_json::private::RawValue";

/// Holds no number but integers, no object with the key `RAW_VALUE_KEY` and at
/// most `depth` levels of arrays and objects.
pub open spec fn plain_within(t: JsonTree, depth: nat) -> bool
    decreases depth,
{
    match t {
        JsonTree::Float(_) => false,
        JsonTree::Arr(s) => depth > 0 && forall|i: int|
            0 <= i < s.len() ==> plain_within(#[trigger] s[i], (depth - 1) as nat),
        JsonTree::Obj(m) => depth > 0 && !m.contains_key(RAW_VALUE_KEY@) && forall|k: Seq<char>|
            m.contains_key(k) ==> plain_within(#[trigger] m[k], (depth - 1) as nat),
        _ => true,
    }
}

/// A value whose text is sure to be read back as the value: no float, which
/// may come back rounded, no object that the reader takes for JSON inside JSON,
/// and no nesting beyond what the reader takes.
pub open spec fn reads_back(t: JsonTree) -> bool {
    plain_within(t, 127)
}

/// `Value::to_string` writes the value as compact JSON; the text depends on
/// the content of the value alone.  `from_str` reads that text back as the
/// same value where there is no float in it, no object with the key
/// `RAW_VALUE_KEY`, which the reader treats by itself if its feature
/// `raw_value` is on, and at most 127 levels of arrays and objects.
#[verifier::external_body]
fn write_value(v: &serde_json::Value) -> (r: String)
    ensures
        r@ == json_text(value_tree(*v)),
        reads_back(value_tree(*v)) ==> json_parse(r@) == Some(value_tree(*v)),
{
    v.to_string()
}

/// No two members share a key.
pub open spec fn distinct_keys(s: Seq<(String, serde_json::Value)>) -> bool {
    forall|i: int, j: int| 0 <= i < j < s.len() ==> (#[trigger] s[i]).0@ != (#[trigger] s[j]).0@
}

/// Takes a `serde_json::Value` apart, one variant to one variant; a
/// `serde_json::Map` holds each key once.
#[verifier::external_body]
fn open_value(v: serde_json::Value) -> (r: ValueShape)
    ensures
        shape_tree(r) == value_tree(v),
        r matches ValueShape::Obj(m) ==> distinct_keys(m@),
        r matches ValueShape::Float(n) ==> float_number(n),
{
    match v {
        serde_json::Value::Null => ValueShape::Null,
        serde_json::Value::Bool(b) => ValueShape::Bool(b),
        serde_json::Value::Number(n) => match (n.as_u64(), n.as_i64()) {
            (Some(u), _) => ValueShape::UInt(u),
            (None, Some(i)) => ValueShape::Int(i),
            (None, None) => ValueShape::Float(n),
        },
        serde_json::Value::String(t) => ValueShape::Str(t),
        serde_json::Value::Array(a) => ValueShape::Arr(a),
        serde_json::Value::Object(m) => ValueShape::Obj(m.into_iter().collect()),
    }
}

/// Makes a `serde_json::Value`, one variant to one variant; of members with
/// the same key `serde_json::Map` keeps the last.
#[verifier::external_body]
fn close_value(s: ValueShape) -> (r: serde_json::Value)
    requires
        s matches ValueShape::Float(n) ==> float_number(n),
    ensures
        value_tree(r) == shape_tree(s),
{
    match s {
        ValueShape::Null => serde_json::Value::Null,
        ValueShape::Bool(b) => serde_json::Value::Bool(b),
        ValueShape::UInt(n) => serde_json::Value::from(n),
        ValueShape::Int(n) => serde_json::Value::from(n),
        ValueShape::Float(n) => serde_json::Value::Number(n),
        ValueShape::Str(t) => serde_json::Value::String(t),
        ValueShape::Arr(a) => serde_json::Value::Array(a),
        ValueShape::Obj(m) => serde_json::Value::Object(m.into_iter().collect()),
    }
}

proof fn lemma_value_map_member(s: Seq<(String, serde_json::Value)>, k: int)
    requires
        distinct_keys(s),
        0 <= k < s.len(),
    ensures
        value_map(s).contains_key(s[k].0@),
        value_map(s)[s[k].0@] == value_tree(s[k].1),
    decreases s.len(),
{
    if k < s.len() - 1 {
        lemma_value_map_member(s.drop_last(), k);
        assert(s.drop_last()[k] == s[k]);
        assert(s[k].0@ != s[s.len() - 1].0@);
    }
}

proof fn lemma_value_map_finite(s: Seq<(String, serde_json::Value)>)
    ensures
        value_map(s).dom().finite(),
    decreases s.len(),
{
    if s.len() > 0 {
        lemma_value_map_finite(s.drop_last());
    }
}

/// The library's form of a `serde_json::Value`.
pub fn json_of_value(v: serde_json::Value) -> (r: Json)
    ensures
        r@ == value_tree(v),
    decreases value_tree(v),
{
    let ghost t = value_tree(v);
    match open_value(v) {
        ValueShape::Null => Json::Null,
        ValueShape::Bool(b) => Json::Bool(b),
        ValueShape::UInt(n) => Json::UInt(n),
        ValueShape::Int(n) => Json::Int(n),
        ValueShape::Float(n) => Json::Float(JsonFloat { number: n }),
        ValueShape::Str(s) => Json::Str(s),
        ValueShape::Arr(a) => {
            let ghost all = a@;
            let mut out: Vec<Json> = Vec::new();
            for x in it: a
                invariant
                    t == value_tree(v),
                    t == JsonTree::Arr(Seq::new(all.len(), |i: int| value_tree(all[i]))),
                    it.seq() == all,
                    out@.len() == it.index(),
                    forall|i: int|
                        0 <= i < out@.len() ==> (#[trigger] out@[i])@ == value_tree(all[i]),
            {
                proof {
                    let k = it.index() as int;
                    assert(t->Arr_0[k] == value_tree(x));
                    assert(decreases_to!(t => t->Arr_0));
                    assert(decreases_to!(t->Arr_0 => t->Arr_0[k]));
                }
                out.push(json_of_value(x));
            }
            let r = Json::arr(out);
            proof {
                assert(r@->Arr_0 =~= t->Arr_0);
            }
            r
        },
        ValueShape::Obj(m) => {
            let ghost all = m@;
            let mut out: Vec<(String, Json)> = Vec::new();
            for x in it: m
                invariant
                    t == value_tree(v),
                    t == JsonTree::Obj(value_map(all)),
                    it.seq() == all,
                    distinct_keys(all),
                    json_map(out@) == value_map(all.take(it.index() as int)),
            {
                let ghost k = it.index() as int;
                let ghost before = out@;
                proof {
                    lemma_value_map_member(all, k);
                    lemma_value_map_finite(all);
                    assert(x == all[k]);
                    let mm = t->Obj_0;
                    assert(decreases_to!(t => mm));
                    assert(decreases_to!(mm => mm[x.0@]));
                }
                out.push((x.0, json_of_value(x.1)));
                proof {
                    assert(out@.drop_last() =~= before);
                    assert(all.take(k + 1).drop_last() =~= all.take(k));
                }
            }
            proof {
                assert(all.take(all.len() as int) =~= all);
            }
            Json::Obj(out)
        },
    }
}

/// The `serde_json` form of a value.
pub fn value_of_json(j: &Json) -> (r: serde_json::Value)
    ensures
        value_tree(r) == j@,
    decreases j,
{
    let shape = match j {
        Json::Null => ValueShape::Null,
        Json::Bool(b) => ValueShape::Bool(*b),
        Json::UInt(n) => ValueShape::UInt(*n),
        Json::Int(n) => ValueShape::Int(*n),
        Json::Float(f) => {
            proof {
                use_type_invariant(f);
            }
            ValueShape::Float(clone_number(&f.number))
        },
        Json::Str(t) => ValueShape::Str(t.clone()),
        Json::Arr(v) => {
            let mut out: Vec<serde_json::Value> = Vec::new();
            let mut i: usize = 0;
            while i < v.len()
                invariant
                    i <= v.len(),
                    j == Json::Arr(*v),
                    out@.len() == i,
                    forall|k: int| 0 <= k < i ==> value_tree(#[trigger] out@[k]) == v@[k]@,
                decreases v.len() - i,
            {
                proof {
                    assert(decreases_to!(*j => j->Arr_0));
                    assert(decreases_to!(j->Arr_0 => v@));
                    assert(decreases_to!(v@ => v@[i as int]));
                }
                let c = value_of_json(&v[i]);
                out.push(c);
                i = i + 1;
            }
            proof {
                assert(j@->Arr_0 =~= Seq::new(out@.len(), |k: int| value_tree(out@[k])));
            }
            ValueShape::Arr(out)
        },
        Json::Obj(v) => {
            let mut out: Vec<(String, serde_json::Value)> = Vec::new();
            let mut i: usize = 0;
            while i < v.len()
                invariant
                    i <= v.len(),
                    j == Json::Obj(*v),
                    value_map(out@) == json_map(v@.take(i as int)),
                decreases v.len() - i,
            {
                proof {
                    assert(decreases_to!(*j => j->Obj_0));
                    assert(decreases_to!(j->Obj_0 => v@));
                    assert(decreases_to!(v@ => v@[i as int]));
                    assert(decreases_to!(v@[i as int] => v@[i as int].1));
                }
                let c = value_of_json(&v[i].1);
                let ghost before = out@;
                out.push((v[i].0.clone(), c));
                proof {
                    assert(out@.drop_last() =~= before);
                    assert(v@.take(i + 1).drop_last() =~= v@.take(i as int));
                }
                i = i + 1;
            }
            proof {
                assert(v@.take(v@.len() as int) =~= v@);
            }
            ValueShape::Obj(out)
        },
    };
    close_value(shape)
}

pub open spec fn opt_json(o: Option<Json>) -> Option<JsonTree> {
    match o {
        Some(j) => Some(j@),
        None => None,
    }
}

/// Reads a JSON text.
pub fn parse_json(text: &str) -> (r: Option<Json>)
    ensures
        opt_json(r) == json_parse(text@),
{
    match read_value(text) {
        Some(v) => Some(json_of_value(v)),
        None => None,
    }
}

impl Json {
    /// The compact JSON text of the value.
    pub fn to_text(&self) -> (r: String)
        ensures
            r@ == json_text(self@),
            reads_back(self@) ==> json_parse(r@) == Some(self@),
    {
        let v = value_of_json(self);
        write_value(&v)
    }
}

} // verus!
