//! Statements for a relational database, with their arguments.
use vstd::prelude::*;
use crate::text::{cat2, cat3, nat_text, texts, u64_text};

verus! {

/// An argument of a statement.
#[derive(Debug)]
pub enum SqlValue {
    Null,
    Int(i64),
    Text(String),
    Blob(Vec<u8>),
}

pub enum SqlArg {
    Null,
    Int(int),
    Text(Seq<char>),
    Blob(Seq<u8>),
}

impl View for SqlValue {
    type V = SqlArg;

    open spec fn view(&self) -> SqlArg {
        match *self {
            SqlValue::Null => SqlArg::Null,
            SqlValue::Int(n) => SqlArg::Int(n as int),
            SqlValue::Text(t) => SqlArg::Text(t@),
            SqlValue::Blob(b) => SqlArg::Blob(b@),
        }
    }
}

pub open spec fn sql_args(s: Seq<SqlValue>) -> Seq<SqlArg> {
    Seq::new(s.len(), |i: int| s[i]@)
}

/// A statement with its arguments, which it refers to by number from one on.
#[derive(Debug)]
pub struct SqlQuery {
    pub sql: String,
    pub params: Vec<SqlValue>,
}

pub struct QueryView {
    pub sql: Seq<char>,
    pub params: Seq<SqlArg>,
}

impl View for SqlQuery {
    type V = QueryView;

    open spec fn view(&self) -> QueryView {
        QueryView { sql: self.sql@, params: sql_args(self.params@) }
    }
}

/// An argument that may be missing.
pub open spec fn opt_arg(o: Option<Seq<char>>) -> SqlArg {
    match o {
        Some(t) => SqlArg::Text(t),
        None => SqlArg::Null,
    }
}

/// An argument that may be missing.
pub fn opt_value(o: Option<&str>) -> (r: SqlValue)
    ensures
        r@ == opt_arg(crate::text::opt_str(o)),
{
    match o {
        Some(t) => SqlValue::Text(t.to_owned()),
        None => SqlValue::Null,
    }
}

/// A count as the database takes it: 64 bits with a sign.
pub open spec fn signed(n: nat) -> int {
    if n <= i64::MAX {
        n as int
    } else {
        n - 0x1_0000_0000_0000_0000
    }
}

/// A count as the database takes it.
pub fn signed_count(n: usize) -> (r: i64)
    ensures
        r == signed(n as nat),
{
    let m: u64 = n as u64;
    if m <= 0x7fff_ffff_ffff_ffff {
        m as i64
    } else {
        -((0xffff_ffff_ffff_ffff - m) as i64) - 1
    }
}

/// Adds an argument.
pub fn push_arg(params: &mut Vec<SqlValue>, v: SqlValue)
    ensures
        sql_args(final(params)@) == sql_args(old(params)@).push(v@),
{
    let ghost before = params@;
    params.push(v);
    proof {
        assert(sql_args(params@) =~= sql_args(before).push(v@));
    }
}

/// A statement.
pub fn query(sql: &str, params: Vec<SqlValue>) -> (r: SqlQuery)
    ensures
        r@ == (QueryView { sql: sql@, params: sql_args(params@) }),
{
    SqlQuery { sql: sql.to_owned(), params }
}

/// `?1,?2` and so on, up to `n`.
pub open spec fn placeholders(n: nat) -> Seq<char>
    decreases n,
{
    if n == 0 {
        Seq::empty()
    } else if n == 1 {
        "?"@ + nat_text(1)
    } else {
        placeholders((n - 1) as nat) + ",?"@ + nat_text(n)
    }
}

/// A statement whose last part lists keys.
pub open spec fn in_keys(sql: Seq<char>, keys: Seq<Seq<char>>) -> QueryView {
    QueryView {
        sql: sql + " IN ("@ + placeholders(keys.len()) + ")"@,
        params: Seq::new(keys.len(), |i: int| SqlArg::Text(keys[i])),
    }
}

/// A statement whose last part lists keys.
pub fn query_in_keys(sql: &str, keys: &Vec<String>) -> (r: SqlQuery)
    ensures
        r@ == in_keys(sql@, texts(keys@)),
{
    let mut marks = String::new();
    let mut params: Vec<SqlValue> = Vec::new();
    let mut i: usize = 0;
    proof {
        assert(marks@ =~= Seq::<char>::empty());
    }
    while i < keys.len()
        invariant
            i <= keys@.len(),
            marks@ == placeholders(i as nat),
            params@.len() == i,
            forall|k: int| 0 <= k < i ==> (#[trigger] params@[k])@ == SqlArg::Text(keys@[k]@),
        decreases keys.len() - i,
    {
        let number = u64_text(i as u64 + 1);
        if i == 0 {
            marks = cat2("?", number.as_str());
        } else {
            marks.append(",?");
            marks.append(number.as_str());
        }
        params.push(SqlValue::Text(keys[i].clone()));
        i = i + 1;
    }
    let mut text = cat3(sql, " IN (", marks.as_str());
    text.append(")");
    proof {
        assert(sql_args(params@) =~= Seq::new(keys@.len(), |i: int| SqlArg::Text(texts(keys@)[i])));
    }
    SqlQuery { sql: text, params }
}

} // verus!
