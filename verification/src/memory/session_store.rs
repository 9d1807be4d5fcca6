//! The history of conversations, apart from memory: messages in the order in
//! which they came.
use vstd::prelude::*;
use crate::memory::sql::{
    push_arg, query, signed, signed_count, sql_args, QueryView, SqlArg, SqlQuery, SqlValue,
};

verus! {

/// What is done to every database that is opened.
pub const SCHEMA: &'static str =
    "PRAGMA journal_mode=WAL; PRAGMA foreign_keys=ON; CREATE TABLE IF NOT EXISTS sessions (id INTEGER PRIMARY KEY AUTOINCREMENT, session_id TEXT NOT NULL, role TEXT NOT NULL, content TEXT NOT NULL, created_at INTEGER NOT NULL DEFAULT (strftime('%s','now'))); CREATE INDEX IF NOT EXISTS idx_sessions_session_id ON sessions(session_id, id);";

pub const APPEND: &'static str =
    "INSERT INTO sessions (session_id, role, content) VALUES (?1, ?2, ?3)";

pub const CLEAR: &'static str = "DELETE FROM sessions WHERE session_id = ?1";

pub const SUMMARIZE: &'static str =
    "INSERT INTO sessions (session_id, role, content) VALUES (?1, 'system', ?2)";

pub const BEGIN: &'static str = "BEGIN IMMEDIATE;";

pub const COMMIT: &'static str = "COMMIT;";

/// The latest messages, in the order in which they came.
pub const LOAD: &'static str =
    "SELECT id, session_id, role, content, created_at FROM (SELECT id, session_id, role, content, created_at FROM sessions WHERE session_id = ?1 ORDER BY id DESC LIMIT ?2) sub ORDER BY id ASC";

pub const COUNT: &'static str = "SELECT COUNT(*) FROM sessions WHERE session_id = ?1";

pub const LIST_SESSIONS: &'static str =
    "SELECT DISTINCT session_id FROM sessions ORDER BY session_id";

/// The address of a database that is not on disk.
pub const IN_MEMORY: &'static str = ":memory:";

/// A message of a conversation.
#[derive(Clone, Debug)]
pub struct SessionEntry {
    pub id: i64,
    pub session_id: String,
    pub role: String,
    pub content: String,
    /// In seconds since 1970.
    pub created_at: i64,
}

/// The statements of the store.
#[derive(Debug)]
pub struct SessionStore {}

fn text_query(sql: &str, a: &str, b: Option<&str>, c: Option<&str>) -> (r: SqlQuery)
    requires
        c is Some ==> b is Some,
    ensures
        r@ == (QueryView {
            sql: sql@,
            params: match (b, c) {
                (Some(b), Some(c)) => seq![
                    SqlArg::Text(a@),
                    SqlArg::Text(b@),
                    SqlArg::Text(c@),
                ],
                (Some(b), None) => seq![SqlArg::Text(a@), SqlArg::Text(b@)],
                _ => seq![SqlArg::Text(a@)],
            },
        }),
{
    let mut params: Vec<SqlValue> = Vec::new();
    push_arg(&mut params, SqlValue::Text(a.to_owned()));
    if let Some(b) = b {
        push_arg(&mut params, SqlValue::Text(b.to_owned()));
    }
    if let Some(c) = c {
        push_arg(&mut params, SqlValue::Text(c.to_owned()));
    }
    proof {
        assert(sql_args(params@) =~= match (b, c) {
            (Some(b), Some(c)) => seq![SqlArg::Text(a@), SqlArg::Text(b@), SqlArg::Text(c@)],
            (Some(b), None) => seq![SqlArg::Text(a@), SqlArg::Text(b@)],
            _ => seq![SqlArg::Text(a@)],
        });
    }
    query(sql, params)
}

pub open spec fn append_query(session: Seq<char>, role: Seq<char>, content: Seq<char>) -> QueryView {
    QueryView {
        sql: APPEND@,
        params: seq![SqlArg::Text(session), SqlArg::Text(role), SqlArg::Text(content)],
    }
}

pub open spec fn clear_query(session: Seq<char>) -> QueryView {
    QueryView { sql: CLEAR@, params: seq![SqlArg::Text(session)] }
}

pub open spec fn summary_query(session: Seq<char>, summary: Seq<char>) -> QueryView {
    QueryView { sql: SUMMARIZE@, params: seq![SqlArg::Text(session), SqlArg::Text(summary)] }
}

pub open spec fn load_query(session: Seq<char>, limit: usize) -> QueryView {
    QueryView {
        sql: LOAD@,
        params: seq![SqlArg::Text(session), SqlArg::Int(signed(limit as nat))],
    }
}

pub open spec fn count_query(session: Seq<char>) -> QueryView {
    QueryView { sql: COUNT@, params: seq![SqlArg::Text(session)] }
}

impl SessionStore {
    /// Adds a message to a session.
    pub fn append(session_id: &str, role: &str, content: &str) -> (r: SqlQuery)
        ensures
            r@ == append_query(session_id@, role@, content@),
    {
        text_query(APPEND, session_id, Some(role), Some(content))
    }

    /// Replaces the messages of a session by a summary: what is removed and
    /// what is added, to be done in one transaction.
    pub fn compact(session_id: &str, summary: &str) -> (r: (SqlQuery, SqlQuery))
        ensures
            r.0@ == clear_query(session_id@),
            r.1@ == summary_query(session_id@, summary@),
    {
        (
            text_query(CLEAR, session_id, None, None),
            text_query(SUMMARIZE, session_id, Some(summary), None),
        )
    }

    /// Removes the messages of a session.
    pub fn clear(session_id: &str) -> (r: SqlQuery)
        ensures
            r@ == clear_query(session_id@),
    {
        text_query(CLEAR, session_id, None, None)
    }

    /// The latest messages of a session.
    pub fn load(session_id: &str, limit: usize) -> (r: SqlQuery)
        ensures
            r@ == load_query(session_id@, limit),
    {
        let mut params: Vec<SqlValue> = Vec::new();
        push_arg(&mut params, SqlValue::Text(session_id.to_owned()));
        push_arg(&mut params, SqlValue::Int(signed_count(limit)));
        proof {
            assert(sql_args(params@) =~= seq![
                SqlArg::Text(session_id@),
                SqlArg::Int(signed(limit as nat)),
            ]);
        }
        query(LOAD, params)
    }

    /// How many messages a session has.
    pub fn count(session_id: &str) -> (r: SqlQuery)
        ensures
            r@ == count_query(session_id@),
    {
        text_query(COUNT, session_id, None, None)
    }

    /// The sessions that have messages.
    pub fn list_sessions() -> (r: SqlQuery)
        ensures
            r@ == (QueryView { sql: LIST_SESSIONS@, params: Seq::empty() }),
    {
        let params: Vec<SqlValue> = Vec::new();
        proof {
            assert(sql_args(params@) =~= Seq::<SqlArg>::empty());
        }
        query(LIST_SESSIONS, params)
    }
}

// ---- what the statements mean ----

// The statements as SQL defines them, over the rows of the table; that a
// database does so is not proved here.

/// A row of the table `sessions`.
pub struct Row {
    pub id: int,
    pub session: Seq<char>,
    pub role: Seq<char>,
    pub content: Seq<char>,
    pub created_at: int,
}

/// The rows of a table, in the order of their numbers, of which none comes
/// twice.
pub open spec fn ordered(rows: Seq<Row>) -> bool {
    forall|i: int, j: int| 0 <= i < j < rows.len() ==> (#[trigger] rows[i]).id < (#[trigger] rows[j]).id
}

/// The rows of a session.
pub open spec fn of_session(rows: Seq<Row>, session: Seq<char>) -> Seq<Row>
    decreases rows.len(),
{
    if rows.len() == 0 {
        Seq::empty()
    } else {
        let head = of_session(rows.drop_last(), session);
        if rows.last().session == session {
            head.push(rows.last())
        } else {
            head
        }
    }
}

/// The rows of all other sessions.
pub open spec fn of_others(rows: Seq<Row>, session: Seq<char>) -> Seq<Row>
    decreases rows.len(),
{
    if rows.len() == 0 {
        Seq::empty()
    } else {
        let head = of_others(rows.drop_last(), session);
        if rows.last().session == session {
            head
        } else {
            head.push(rows.last())
        }
    }
}

/// `after` is `before` with one more row, whose number is larger than all
/// others; which number that is, and the time, are the database's choice.
pub open spec fn adds(
    before: Seq<Row>,
    after: Seq<Row>,
    session: Seq<char>,
    role: Seq<char>,
    content: Seq<char>,
) -> bool {
    &&& after.len() == before.len() + 1
    &&& after.drop_last() == before
    &&& after.last().session == session
    &&& after.last().role == role
    &&& after.last().content == content
    &&& forall|i: int| 0 <= i < before.len() ==> (#[trigger] before[i]).id < after.last().id
}

/// What `APPEND` makes of the rows: `INSERT` into a table whose numbers grow.
pub open spec fn appends(before: Seq<Row>, after: Seq<Row>, q: QueryView) -> bool {
    &&& q.sql == APPEND@
    &&& q.params.len() == 3
    &&& q.params[0] matches SqlArg::Text(session)
    &&& q.params[1] matches SqlArg::Text(role)
    &&& q.params[2] matches SqlArg::Text(content)
    &&& adds(before, after, session, role, content)
}

/// What `SUMMARIZE` makes of the rows.
pub open spec fn summarizes(before: Seq<Row>, after: Seq<Row>, q: QueryView) -> bool {
    &&& q.sql == SUMMARIZE@
    &&& q.params.len() == 2
    &&& q.params[0] matches SqlArg::Text(session)
    &&& q.params[1] matches SqlArg::Text(content)
    &&& adds(before, after, session, "system"@, content)
}

/// What `CLEAR` makes of the rows.
pub open spec fn clears(before: Seq<Row>, after: Seq<Row>, q: QueryView) -> bool {
    &&& q.sql == CLEAR@
    &&& q.params.len() == 1
    &&& q.params[0] matches SqlArg::Text(session)
    &&& after == of_others(before, session)
}

/// The last `n` of some rows; all of them if `n` is negative, as the database
/// takes a limit.
pub open spec fn last_rows(rows: Seq<Row>, n: int) -> Seq<Row> {
    if n < 0 || rows.len() <= n {
        rows
    } else {
        rows.skip(rows.len() - n)
    }
}

/// What `LOAD` answers: the rows of the session with the largest numbers, up to
/// the limit, by growing numbers.
pub open spec fn loads(rows: Seq<Row>, q: QueryView, answer: Seq<Row>) -> bool {
    &&& q.sql == LOAD@
    &&& q.params.len() == 2
    &&& q.params[0] matches SqlArg::Text(session)
    &&& q.params[1] matches SqlArg::Int(limit)
    &&& answer == last_rows(of_session(rows, session), limit)
}

/// What `COUNT` answers.
pub open spec fn counted(rows: Seq<Row>, q: QueryView, answer: int) -> bool {
    &&& q.sql == COUNT@
    &&& q.params.len() == 1
    &&& q.params[0] matches SqlArg::Text(session)
    &&& answer == of_session(rows, session).len()
}

// ---- laws ----

/// A message that is appended.
pub struct Message {
    pub session: Seq<char>,
    pub role: Seq<char>,
    pub content: Seq<char>,
}

/// The messages of a session.
pub open spec fn messages_of(messages: Seq<Message>, session: Seq<char>) -> Seq<Message>
    decreases messages.len(),
{
    if messages.len() == 0 {
        Seq::empty()
    } else {
        let head = messages_of(messages.drop_last(), session);
        if messages.last().session == session {
            head.push(messages.last())
        } else {
            head
        }
    }
}

/// The rows of a table before, between and after the statements that append
/// some messages to a store without any.
pub open spec fn is_history(tables: Seq<Seq<Row>>, messages: Seq<Message>) -> bool {
    &&& tables.len() == messages.len() + 1
    &&& tables[0].len() == 0
    &&& forall|i: int, j: int|
        #![trigger tables[i], tables[j]]
        0 <= i < messages.len() && j == i + 1 ==> appends(
            tables[i],
            tables[j],
            append_query(messages[i].session, messages[i].role, messages[i].content),
        )
}

/// A load gives back the messages that were appended to its session: the last
/// `limit` of them, the oldest first, with growing numbers, whatever was
/// appended to other sessions in between.
pub proof fn law_load_gives_the_latest(
    tables: Seq<Seq<Row>>,
    messages: Seq<Message>,
    session: Seq<char>,
    limit: usize,
    answer: Seq<Row>,
)
    requires
        is_history(tables, messages),
        loads(tables.last(), load_query(session, limit), answer),
        limit <= i64::MAX || messages_of(messages, session).len() <= limit,
    ensures
        ({
            let own = messages_of(messages, session);
            let n = if own.len() <= limit {
                own.len() as int
            } else {
                limit as int
            };
            &&& answer.len() == n
            &&& ordered(answer)
            &&& forall|i: int|
                0 <= i < n ==> (#[trigger] answer[i]).session == session && answer[i].role
                    == own[own.len() - n + i].role && answer[i].content == own[own.len() - n
                    + i].content
        }),
{
    lemma_history(tables, messages, session);
    lemma_of_session(tables.last(), session);
    let rows = of_session(tables.last(), session);
    let own = messages_of(messages, session);
    assert forall|i: int| 0 <= i < answer.len() implies (#[trigger] answer[i]).session == session
        && answer[i].role == own[own.len() - answer.len() + i].role && answer[i].content
        == own[own.len() - answer.len() + i].content by {
        assert(answer[i] == rows[rows.len() - answer.len() + i]);
    }
    assert forall|i: int, j: int| 0 <= i < j < answer.len() implies (#[trigger] answer[i]).id < (
    #[trigger] answer[j]).id by {
        assert(answer[i] == rows[rows.len() - answer.len() + i]);
        assert(answer[j] == rows[rows.len() - answer.len() + j]);
    }
}

proof fn lemma_of_session(rows: Seq<Row>, session: Seq<char>)
    requires
        ordered(rows),
    ensures
        ordered(of_session(rows, session)),
        forall|i: int|
            0 <= i < of_session(rows, session).len() ==> (#[trigger] of_session(
                rows,
                session,
            )[i]).session == session && rows.contains(of_session(rows, session)[i]),
    decreases rows.len(),
{
    if rows.len() > 0 {
        let head = rows.drop_last();
        assert forall|i: int, j: int| 0 <= i < j < head.len() implies (#[trigger] head[i]).id < (
        #[trigger] head[j]).id by {
            assert(head[i] == rows[i] && head[j] == rows[j]);
        }
        lemma_of_session(head, session);
        let before = of_session(head, session);
        let all = of_session(rows, session);
        assert forall|i: int| 0 <= i < before.len() implies (#[trigger] before[i]).id
            < rows.last().id && rows.contains(before[i]) by {
            let k = head.index_of(before[i]);
            assert(head.contains(before[i]));
            assert(rows[k] == before[i]);
            assert(rows[k].id < rows[rows.len() - 1].id);
        }
        assert(rows.contains(rows[rows.len() - 1]));
        assert forall|i: int| 0 <= i < all.len() implies (#[trigger] all[i]).session == session
            && rows.contains(all[i]) by {
            if i < before.len() {
                assert(all[i] == before[i]);
            }
        }
        assert forall|i: int, j: int| 0 <= i < j < all.len() implies (#[trigger] all[i]).id < (
        #[trigger] all[j]).id by {
            assert(all[i] == before[i]);
            if j < before.len() {
                assert(all[j] == before[j]);
            }
        }
    }
}

/// The rows of a session are the messages that were appended to it.
proof fn lemma_history(tables: Seq<Seq<Row>>, messages: Seq<Message>, session: Seq<char>)
    requires
        is_history(tables, messages),
    ensures
        ordered(tables.last()),
        of_session(tables.last(), session).len() == messages_of(messages, session).len(),
        forall|i: int|
            0 <= i < messages_of(messages, session).len() ==> (#[trigger] of_session(
                tables.last(),
                session,
            )[i]).role == messages_of(messages, session)[i].role && of_session(
                tables.last(),
                session,
            )[i].content == messages_of(messages, session)[i].content,
    decreases messages.len(),
{
    if messages.len() > 0 {
        let n = messages.len() as int;
        let ts = tables.drop_last();
        let ms = messages.drop_last();
        assert(is_history(ts, ms)) by {
            assert forall|i: int, j: int|
                #![trigger ts[i], ts[j]]
                0 <= i < ms.len() && j == i + 1 implies appends(
                ts[i],
                ts[j],
                append_query(ms[i].session, ms[i].role, ms[i].content),
            ) by {
                assert(ts[i] == tables[i] && ts[j] == tables[j]);
            }
        }
        lemma_history(ts, ms, session);
        let before = tables[n - 1];
        let after = tables[n];
        assert(ts.last() == before);
        assert(tables.last() == after);
        let m = messages[n - 1];
        assert(appends(before, after, append_query(m.session, m.role, m.content)));
        assert forall|i: int, j: int| 0 <= i < j < after.len() implies (#[trigger] after[i]).id < (
        #[trigger] after[j]).id by {
            assert(after[i] == before[i]);
            if j < before.len() {
                assert(after[j] == before[j]);
            }
        }
        let head = of_session(before, session);
        let own = messages_of(ms, session);
        assert forall|i: int| 0 <= i < messages_of(messages, session).len() implies (
        #[trigger] of_session(after, session)[i]).role == messages_of(messages, session)[i].role
            && of_session(after, session)[i].content == messages_of(messages, session)[i].content by {
            if i < own.len() {
                assert(of_session(after, session)[i] == head[i]);
                assert(messages_of(messages, session)[i] == own[i]);
            }
        }
    }
}

/// What a load gives is the end of what one with a larger limit gives.
pub proof fn law_smaller_load_is_a_suffix(
    rows: Seq<Row>,
    session: Seq<char>,
    limit: usize,
    larger: usize,
    answer: Seq<Row>,
    more: Seq<Row>,
)
    requires
        limit <= larger,
        loads(rows, load_query(session, limit), answer),
        loads(rows, load_query(session, larger), more),
    ensures
        answer.len() <= more.len(),
        answer == more.skip(more.len() - answer.len()),
{
    assert(answer =~= more.skip(more.len() - answer.len()));
}

/// Messages of one session do not show in another: neither appending nor
/// clearing changes what is loaded and counted there.
pub proof fn law_sessions_are_isolated(
    before: Seq<Row>,
    after: Seq<Row>,
    session: Seq<char>,
    other: Seq<char>,
    role: Seq<char>,
    content: Seq<char>,
)
    requires
        session != other,
        appends(before, after, append_query(other, role, content)) || clears(
            before,
            after,
            clear_query(other),
        ) || summarizes(before, after, summary_query(other, content)),
    ensures
        of_session(after, session) == of_session(before, session),
{
    if clears(before, after, clear_query(other)) {
        lemma_of_others(before, session, other);
    }
}

proof fn lemma_of_others(rows: Seq<Row>, session: Seq<char>, other: Seq<char>)
    ensures
        session != other ==> of_session(of_others(rows, other), session) == of_session(
            rows,
            session,
        ),
        of_session(of_others(rows, other), other).len() == 0,
    decreases rows.len(),
{
    if rows.len() > 0 {
        lemma_of_others(rows.drop_last(), session, other);
        let head = of_others(rows.drop_last(), other);
        if rows.last().session != other {
            assert(head.push(rows.last()).drop_last() =~= head);
        }
    }
}

/// A session that is cleared has no messages.
pub proof fn law_cleared_session_is_empty(
    before: Seq<Row>,
    after: Seq<Row>,
    session: Seq<char>,
    limit: usize,
    answer: Seq<Row>,
)
    requires
        clears(before, after, clear_query(session)),
        loads(after, load_query(session, limit), answer),
    ensures
        answer.len() == 0,
        counted(after, count_query(session), 0),
{
    lemma_of_others(before, session, session);
}

/// A session that is compacted holds its summary alone.
pub proof fn law_compacted_session_is_its_summary(
    before: Seq<Row>,
    between: Seq<Row>,
    after: Seq<Row>,
    session: Seq<char>,
    summary: Seq<char>,
    limit: usize,
    answer: Seq<Row>,
)
    requires
        clears(before, between, clear_query(session)),
        summarizes(between, after, summary_query(session, summary)),
        limit > 0,
        loads(after, load_query(session, limit), answer),
    ensures
        answer.len() == 1,
        answer[0].session == session && answer[0].role == "system"@ && answer[0].content == summary,
        counted(after, count_query(session), 1),
{
    lemma_of_others(before, session, session);
    assert(of_session(after, session) =~= of_session(between, session).push(after.last()));
}

/// A session has as many messages as were appended to it.
pub proof fn law_count_is_what_was_appended(
    tables: Seq<Seq<Row>>,
    messages: Seq<Message>,
    session: Seq<char>,
)
    requires
        is_history(tables, messages),
    ensures
        counted(
            tables.last(),
            count_query(session),
            messages_of(messages, session).len() as int,
        ),
{
    lemma_history(tables, messages, session);
}

} // verus!
