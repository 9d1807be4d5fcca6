//! What holds of Markdown files: an entry that is written can be read back,
//! and no key leads out of the directory.
use vstd::prelude::*;
use crate::memory::markdown::{
    empty_front, entry_text, file_name, front_of, parsed_entry, safe_char, safe_chars, safe_name,
    session_line, split_file, topic_line, with_line, FrontMatter,
};
use crate::memory::scope::{category_name, law_category_round_trip, unambiguous};
use crate::model::memory::EntryView;
use crate::text::{
    find, is_white, join, lemma_find_from, lines, nat_text, occurs_at, replace, starts_with,
    strip_prefix, trim, trim_any, trim_end, trim_end_any, trim_end_char, trim_start, trim_start_any,
    trim_start_char,
};

verus! {

// ---- reading back ----

/// A value that fits on a line of the head: no line feed in it and no white
/// space around it.
pub open spec fn fits_line(v: Seq<char>) -> bool {
    !v.contains('\n') && trim(v) == v
}

/// An entry whose file can be read back: its values fit on lines, those that
/// must be there are not empty, its category is not named like another, and
/// its content neither begins nor ends with a line feed.
pub open spec fn writable(e: EntryView) -> bool {
    &&& fits_line(e.key) && e.key.len() > 0
    &&& fits_line(category_name(e.category)) && unambiguous(e.category)
    &&& e.session matches Some(s) ==> fits_line(s) && s.len() > 0
    &&& e.topic matches Some(t) ==> fits_line(t) && t.len() > 0
    &&& e.content.len() > 0 ==> e.content[0] != '\n' && e.content.last() != '\n'
}

/// The lines of the head.
pub open spec fn head_lines(e: EntryView, now: nat) -> Seq<Seq<char>> {
    seq!["key: "@ + e.key, "category: "@ + category_name(e.category)] + (match e.session {
        Some(s) => seq!["session: "@ + s],
        None => Seq::empty(),
    }) + (match e.topic {
        Some(t) => seq!["topic: "@ + t],
        None => Seq::empty(),
    }) + seq!["created_at: "@ + nat_text(now), "updated_at: "@ + nat_text(now)]
}

/// A line that can stand in the head: nonempty, without a line feed, neither
/// beginning with a dash nor ending with a carriage return.
pub open spec fn head_line(l: Seq<char>) -> bool {
    &&& l.len() > 0
    &&& !l.contains('\n')
    &&& l[0] != '-'
    &&& l.last() != '\r'
}

proof fn lemma_trim_start_len(s: Seq<char>)
    ensures
        trim_start(s).len() <= s.len(),
        trim_start(s).len() > 0 ==> trim_start(s).last() == s.last(),
        s.len() > 0 && is_white(s.last()) && trim_start(s).len() == s.len() ==> trim_start(s) == s,
    decreases s.len(),
{
    if s.len() > 0 && is_white(s[0]) {
        lemma_trim_start_len(s.drop_first());
        if s.drop_first().len() > 0 {
            assert(s.drop_first().last() == s.last());
        }
    }
}

proof fn lemma_trim_end_len(s: Seq<char>)
    ensures
        trim_end(s).len() <= s.len(),
        s.len() > 0 && is_white(s.last()) ==> trim_end(s).len() < s.len(),
    decreases s.len(),
{
    if s.len() > 0 && is_white(s.last()) {
        lemma_trim_end_len(s.drop_last());
    }
}

/// A value without white space around it does not end with white space.
proof fn lemma_trimmed_end(v: Seq<char>)
    requires
        trim(v) == v,
        v.len() > 0,
    ensures
        !is_white(v.last()),
{
    lemma_trim_start_len(v);
    lemma_trim_end_len(trim_start(v));
}

proof fn lemma_nat_text_digits(n: nat)
    ensures
        nat_text(n).len() > 0,
        forall|i: int| 0 <= i < nat_text(n).len() ==> '0' <= #[trigger] nat_text(n)[i] <= '9',
    decreases n,
{
    if n >= 10 {
        lemma_nat_text_digits(n / 10);
    }
}

/// A line of the head made of a name and a value.
proof fn lemma_named_line(name: Seq<char>, v: Seq<char>)
    requires
        head_line(name),
        fits_line(v),
    ensures
        head_line(name + v),
{
    let l = name + v;
    assert forall|i: int| 0 <= i < l.len() implies l[i] != '\n' by {
        if i < name.len() {
            assert(name[i] != '\n');
        } else {
            assert(v[i - name.len()] != '\n');
        }
    }
    if v.len() > 0 {
        lemma_trimmed_end(v);
        assert(l.last() == v.last());
    } else {
        assert(l =~= name);
    }
}

/// Digits have no white space around them.
proof fn lemma_digits_fit(n: nat)
    ensures
        fits_line(nat_text(n)),
{
    lemma_nat_text_digits(n);
    let v = nat_text(n);
    assert(!is_white(v[0]));
    assert(!is_white(v[v.len() - 1]));
    assert(trim_start(v) == v);
    assert(trim_end(v) == v);
}

proof fn lemma_names_are_head_lines()
    ensures
        head_line("key: "@),
        head_line("category: "@),
        head_line("session: "@),
        head_line("topic: "@),
        head_line("created_at: "@),
        head_line("updated_at: "@),
{
    reveal_strlit("key: ");
    reveal_strlit("category: ");
    reveal_strlit("session: ");
    reveal_strlit("topic: ");
    reveal_strlit("created_at: ");
    reveal_strlit("updated_at: ");
}

proof fn lemma_head_lines(e: EntryView, now: nat)
    requires
        writable(e),
    ensures
        forall|i: int|
            0 <= i < head_lines(e, now).len() ==> head_line(#[trigger] head_lines(e, now)[i]),
{
    lemma_names_are_head_lines();
    lemma_digits_fit(now);
    lemma_named_line("key: "@, e.key);
    lemma_named_line("category: "@, category_name(e.category));
    if e.session is Some {
        lemma_named_line("session: "@, e.session->0);
    }
    if e.topic is Some {
        lemma_named_line("topic: "@, e.topic->0);
    }
    lemma_named_line("created_at: "@, nat_text(now));
    lemma_named_line("updated_at: "@, nat_text(now));
}

/// Joining begins with the first part.
proof fn lemma_join_first(parts: Seq<Seq<char>>, sep: Seq<char>)
    requires
        parts.len() > 1,
    ensures
        join(parts, sep) == parts[0] + sep + join(parts.drop_first(), sep),
    decreases parts.len(),
{
    if parts.len() == 2 {
        assert(parts.drop_last() =~= seq![parts[0]]);
        assert(parts.drop_first() =~= seq![parts[1]]);
        assert(parts.last() == parts[1]);
        assert(join(parts.drop_last(), sep) == parts[0]);
        assert(join(parts.drop_first(), sep) == parts[1]);
    } else {
        lemma_join_first(parts.drop_last(), sep);
        assert(parts.drop_last().drop_first() =~= parts.drop_first().drop_last());
        assert(parts.drop_last()[0] == parts[0]);
        assert(parts.drop_first().last() == parts.last());
        let mid = join(parts.drop_first().drop_last(), sep);
        assert(join(parts.drop_first(), sep) == mid + sep + parts.last());
        assert((parts[0] + sep + mid) + sep + parts.last() =~= parts[0] + sep + (mid + sep
            + parts.last()));
    }
}

/// The first line feed of a line that is followed by one is at its end.
proof fn lemma_find_line_end(l: Seq<char>, rest: Seq<char>)
    requires
        !l.contains('\n'),
    ensures
        find(l + seq!['\n'] + rest, seq!['\n']) == Some(l.len() as int),
{
    let s = l + seq!['\n'] + rest;
    lemma_find_from(s, seq!['\n'], 0);
    assert(s.subrange(l.len() as int, (l.len() + 1) as int) =~= seq!['\n']);
    assert(occurs_at(s, seq!['\n'], l.len() as int));
    assert forall|j: int| 0 <= j < l.len() implies !occurs_at(s, seq!['\n'], j) by {
        if occurs_at(s, seq!['\n'], j) {
            assert(s.subrange(j, j + 1)[0] == s[j]);
            assert(l[j] == '\n');
        }
    }
}

proof fn lemma_no_line_end(l: Seq<char>)
    requires
        !l.contains('\n'),
    ensures
        find(l, seq!['\n']) is None,
{
    lemma_find_from(l, seq!['\n'], 0);
    if find(l, seq!['\n']) is Some {
        let j = find(l, seq!['\n'])->0;
        assert(l.subrange(j, j + 1)[0] == l[j]);
        assert(l[j] == '\n');
    }
}

/// The lines of joined lines are those lines.
proof fn lemma_lines_of_joined(ls: Seq<Seq<char>>)
    requires
        ls.len() > 0,
        forall|i: int| 0 <= i < ls.len() ==> head_line(#[trigger] ls[i]),
    ensures
        lines(join(ls, seq!['\n'])) == ls,
    decreases ls.len(),
{
    if ls.len() == 1 {
        assert(head_line(ls[0]));
        lemma_no_line_end(ls[0]);
        assert(seq![ls[0]] =~= ls);
    } else {
        let rest = ls.drop_first();
        assert forall|i: int| 0 <= i < rest.len() implies head_line(#[trigger] rest[i]) by {
            assert(rest[i] == ls[i + 1]);
        }
        lemma_lines_of_joined(rest);
        lemma_join_first(ls, seq!['\n']);
        assert(head_line(ls[0]));
        let j = join(rest, seq!['\n']);
        let s = ls[0] + seq!['\n'] + j;
        lemma_find_line_end(ls[0], j);
        assert(s.take(ls[0].len() as int) =~= ls[0]);
        assert(s.skip((ls[0].len() + 1) as int) =~= j);
        assert(seq![ls[0]] + rest =~= ls);
    }
}

/// In joined lines of a head no line feed is followed by a dash.
proof fn lemma_no_dash_after_line_end(ls: Seq<Seq<char>>, p: int)
    requires
        ls.len() > 0,
        forall|i: int| 0 <= i < ls.len() ==> head_line(#[trigger] ls[i]),
        0 <= p < join(ls, seq!['\n']).len(),
        join(ls, seq!['\n'])[p] == '\n',
    ensures
        p + 1 < join(ls, seq!['\n']).len(),
        join(ls, seq!['\n'])[p + 1] != '-',
    decreases ls.len(),
{
    assert(head_line(ls[ls.len() - 1]));
    let last = ls.last();
    if ls.len() == 1 {
        assert(ls[0].contains(ls[0][p]));
    } else {
        let head = ls.drop_last();
        let h = join(head, seq!['\n']);
        let s = join(ls, seq!['\n']);
        assert forall|i: int| 0 <= i < head.len() implies head_line(#[trigger] head[i]) by {
            assert(head[i] == ls[i]);
        }
        if p < h.len() {
            assert(s[p] == h[p]);
            lemma_no_dash_after_line_end(head, p);
            assert(s[p + 1] == h[p + 1]);
        } else if p == h.len() {
            assert(s[p + 1] == last[0]);
        } else {
            assert(s[p] == last[p - h.len() - 1]);
            assert(last.contains(s[p]));
        }
    }
}

/// The mark behind the head is the first one.
proof fn lemma_find_mark(ls: Seq<Seq<char>>, rest: Seq<char>)
    requires
        ls.len() > 0,
        forall|i: int| 0 <= i < ls.len() ==> head_line(#[trigger] ls[i]),
    ensures
        find(join(ls, seq!['\n']) + "\n---\n"@ + rest, "\n---\n"@) == Some(
            join(ls, seq!['\n']).len() as int,
        ),
{
    reveal_strlit("\n---\n");
    let h = join(ls, seq!['\n']);
    let mark = "\n---\n"@;
    let s = h + mark + rest;
    lemma_find_from(s, mark, 0);
    assert(s.subrange(h.len() as int, (h.len() + mark.len()) as int) =~= mark);
    assert(occurs_at(s, mark, h.len() as int));
    assert forall|j: int| 0 <= j < h.len() implies !occurs_at(s, mark, j) by {
        if occurs_at(s, mark, j) {
            let w = s.subrange(j, j + mark.len());
            assert(w[0] == s[j]);
            assert(w[1] == s[j + 1]);
            assert(s[j] == h[j]);
            lemma_no_dash_after_line_end(ls, j);
            assert(s[j + 1] == h[j + 1]);
        }
    }
}

/// The joined lines of the head.
proof fn lemma_head_joined(e: EntryView, now: nat)
    ensures
        join(head_lines(e, now), seq!['\n']) == "key: "@ + e.key + seq!['\n'] + "category: "@
            + category_name(e.category) + seq!['\n'] + session_line(e) + topic_line(e)
            + "created_at: "@ + nat_text(now) + seq!['\n'] + "updated_at: "@ + nat_text(now),
{
    reveal_strlit("\n");
    let nl = seq!['\n'];
    assert("\n"@ =~= nl);
    let k = "key: "@ + e.key;
    let c = "category: "@ + category_name(e.category);
    let cr = "created_at: "@ + nat_text(now);
    let up = "updated_at: "@ + nat_text(now);
    let j2 = seq![k, c];
    lemma_join_push(seq![k], c, nl);
    assert(seq![k].push(c) =~= j2);
    assert(join(seq![k], nl) == k);
    let ss: Seq<Seq<char>> = match e.session {
        Some(s) => seq!["session: "@ + s],
        None => Seq::empty(),
    };
    let tt: Seq<Seq<char>> = match e.topic {
        Some(t) => seq!["topic: "@ + t],
        None => Seq::empty(),
    };
    let j3 = j2 + ss;
    let j4 = j3 + tt;
    if e.session is Some {
        lemma_join_push(j2, "session: "@ + e.session->0, nl);
        assert(j3 =~= j2.push("session: "@ + e.session->0));
    } else {
        assert(j3 =~= j2);
    }
    assert(join(j3, nl) + nl =~= join(j2, nl) + nl + session_line(e));
    if e.topic is Some {
        lemma_join_push(j3, "topic: "@ + e.topic->0, nl);
        assert(j4 =~= j3.push("topic: "@ + e.topic->0));
    } else {
        assert(j4 =~= j3);
    }
    assert(join(j4, nl) + nl =~= join(j3, nl) + nl + topic_line(e));
    lemma_join_push(j4, cr, nl);
    lemma_join_push(j4.push(cr), up, nl);
    assert(head_lines(e, now) =~= j4.push(cr).push(up));
    assert(join(head_lines(e, now), nl) =~= join(j4, nl) + nl + cr + nl + up);
    assert(join(j4, nl) + nl =~= k + nl + c + nl + session_line(e) + topic_line(e));
    assert(join(head_lines(e, now), nl) =~= k + nl + c + nl + session_line(e) + topic_line(e) + cr
        + nl + up);
}

/// The file of an entry, by the lines of its head.
#[verifier::spinoff_prover]
#[verifier::rlimit(40)]
proof fn lemma_entry_text(e: EntryView, now: nat)
    ensures
        entry_text(e, now) == "---\n"@ + (join(head_lines(e, now), seq!['\n']) + "\n---\n"@ + (
        "\n"@ + e.content + "\n"@)),
{
    lemma_head_joined(e, now);
    lemma_literals();
    let nl = seq!['\n'];
    let cat = category_name(e.category);
    let ts = nat_text(now);
    let sl = session_line(e);
    let tl = topic_line(e);
    let a = "key: "@ + e.key + nl + "category: "@ + cat + nl + sl + tl;
    let b = "created_at: "@ + ts + nl + "updated_at: "@ + ts;
    assert("---\n"@ + "key: "@ + e.key + (nl + "category: "@) + cat + nl + sl + tl =~= "---\n"@ + a);
    assert(join(head_lines(e, now), nl) =~= a + b);
    assert(entry_text(e, now) =~= ("---\n"@ + a) + "created_at: "@ + ts + (nl + "updated_at: "@)
        + ts + ("\n---\n"@ + nl) + e.content + nl);
    assert(entry_text(e, now) =~= "---\n"@ + ((a + b) + "\n---\n"@ + (nl + e.content + nl)));
}

proof fn lemma_literals()
    ensures
        "\n"@ == seq!['\n'],
        "---\nkey: "@ == "---\n"@ + "key: "@,
        "\ncategory: "@ == seq!['\n'] + "category: "@,
        "\nupdated_at: "@ == seq!['\n'] + "updated_at: "@,
        "\n---\n\n"@ == "\n---\n"@ + seq!['\n'],
{
    reveal_strlit("---\nkey: ");
    reveal_strlit("---\n");
    reveal_strlit("key: ");
    reveal_strlit("\ncategory: ");
    reveal_strlit("category: ");
    reveal_strlit("\n");
    reveal_strlit("\nupdated_at: ");
    reveal_strlit("updated_at: ");
    reveal_strlit("\n---\n\n");
    reveal_strlit("\n---\n");
    assert("\n"@ =~= seq!['\n']);
    assert("---\nkey: "@ =~= "---\n"@ + "key: "@);
    assert("\ncategory: "@ =~= seq!['\n'] + "category: "@);
    assert("\nupdated_at: "@ =~= seq!['\n'] + "updated_at: "@);
    assert("\n---\n\n"@ =~= "\n---\n"@ + seq!['\n']);
}

proof fn lemma_join_push(parts: Seq<Seq<char>>, last: Seq<char>, sep: Seq<char>)
    requires
        parts.len() > 0,
    ensures
        join(parts.push(last), sep) == join(parts, sep) + sep + last,
{
    assert(parts.push(last).drop_last() =~= parts);
    assert(parts.push(last).last() == last);
}

/// A named line is read as its value.
proof fn lemma_strip_name(name: Seq<char>, v: Seq<char>)
    ensures
        strip_prefix(name + v, name) == Some(v),
{
    assert((name + v).take(name.len() as int) =~= name);
    assert((name + v).skip(name.len() as int) =~= v);
}

/// A line does not begin with a name that differs from it at some place.
proof fn lemma_other_name(name: Seq<char>, v: Seq<char>, other: Seq<char>, i: int)
    requires
        0 <= i < name.len(),
        i < other.len(),
        name[i] != other[i],
    ensures
        strip_prefix(name + v, other) is None,
{
    let l = name + v;
    if starts_with(l, other) {
        assert(l.take(other.len() as int)[i] == l[i]);
        assert(l[i] == name[i]);
    }
}

/// The head of a written entry is read back.
proof fn lemma_front_read_back(e: EntryView, now: nat)
    requires
        writable(e),
    ensures
        front_of(head_lines(e, now)) == (FrontMatter {
            key: e.key,
            category: category_name(e.category),
            session: e.session,
            topic: e.topic,
        }),
{
    reveal_strlit("key: ");
    reveal_strlit("category: ");
    reveal_strlit("session: ");
    reveal_strlit("topic: ");
    reveal_strlit("created_at: ");
    reveal_strlit("updated_at: ");
    let ts = nat_text(now);
    let cat = category_name(e.category);
    let k = "key: "@ + e.key;
    let c = "category: "@ + cat;
    let cr = "created_at: "@ + ts;
    let up = "updated_at: "@ + ts;
    let f0 = empty_front();
    lemma_strip_name("key: "@, e.key);
    let f1 = FrontMatter { key: e.key, ..f0 };
    assert(with_line(f0, k) == f1);
    lemma_other_name("category: "@, cat, "key: "@, 0);
    lemma_strip_name("category: "@, cat);
    let f2 = FrontMatter { category: cat, ..f1 };
    assert(with_line(f1, c) == f2);
    let l2 = seq![k, c];
    assert(l2.drop_last() =~= seq![k]);
    assert(seq![k].drop_last() =~= Seq::<Seq<char>>::empty());
    assert(front_of(seq![k]) == with_line(front_of(seq![k].drop_last()), k));
    assert(front_of(l2) == f2);
    let ss: Seq<Seq<char>> = match e.session {
        Some(s) => seq!["session: "@ + s],
        None => Seq::empty(),
    };
    let tt: Seq<Seq<char>> = match e.topic {
        Some(t) => seq!["topic: "@ + t],
        None => Seq::empty(),
    };
    let l3 = l2 + ss;
    let f3 = FrontMatter { session: e.session, ..f2 };
    if e.session is Some {
        let s = e.session->0;
        lemma_other_name("session: "@, s, "key: "@, 0);
        lemma_other_name("session: "@, s, "category: "@, 0);
        lemma_strip_name("session: "@, s);
        assert(l3.drop_last() =~= l2);
        assert(l3.last() == "session: "@ + s);
        assert(with_line(f2, "session: "@ + s) == f3);
    } else {
        assert(l3 =~= l2);
    }
    assert(front_of(l3) == f3);
    let l4 = l3 + tt;
    let f4 = FrontMatter { topic: e.topic, ..f3 };
    if e.topic is Some {
        let t = e.topic->0;
        lemma_other_name("topic: "@, t, "key: "@, 0);
        lemma_other_name("topic: "@, t, "category: "@, 0);
        lemma_other_name("topic: "@, t, "session: "@, 0);
        lemma_strip_name("topic: "@, t);
        assert(l4.drop_last() =~= l3);
        assert(l4.last() == "topic: "@ + t);
        assert(with_line(f3, "topic: "@ + t) == f4);
    } else {
        assert(l4 =~= l3);
    }
    assert(front_of(l4) == f4);
    lemma_other_name("created_at: "@, ts, "key: "@, 0);
    lemma_other_name("created_at: "@, ts, "category: "@, 1);
    lemma_other_name("created_at: "@, ts, "session: "@, 0);
    lemma_other_name("created_at: "@, ts, "topic: "@, 0);
    lemma_other_name("updated_at: "@, ts, "key: "@, 0);
    lemma_other_name("updated_at: "@, ts, "category: "@, 0);
    lemma_other_name("updated_at: "@, ts, "session: "@, 0);
    lemma_other_name("updated_at: "@, ts, "topic: "@, 0);
    let l5 = l4.push(cr);
    assert(l5.drop_last() =~= l4);
    assert(front_of(l5) == f4);
    let l6 = l5.push(up);
    assert(l6.drop_last() =~= l5);
    assert(front_of(l6) == f4);
    assert(head_lines(e, now) =~= l6);
}

/// The body of a written entry is read back.
proof fn lemma_body_read_back(body: Seq<char>)
    requires
        body.len() > 0 ==> body[0] != '\n' && body.last() != '\n',
    ensures
        trim_end_char(trim_start_char("\n"@ + body + "\n"@, '\n'), '\n') == body,
{
    reveal_strlit("\n");
    let s = "\n"@ + body + "\n"@;
    assert(s.drop_first() =~= body + "\n"@);
    let t = body + "\n"@;
    if body.len() > 0 {
        assert(t[0] == body[0]);
        assert(s[0] == '\n');
        assert(trim_start_char(s, '\n') == trim_start_char(s.drop_first(), '\n'));
        assert(trim_start_char(t, '\n') == t);
        assert(t.drop_last() =~= body);
        assert(t.last() == '\n');
        assert(trim_end_char(t, '\n') == trim_end_char(body, '\n'));
    } else {
        assert(t.drop_first() =~= Seq::<char>::empty());
        assert(trim_start_char(t, '\n') == trim_start_char(t.drop_first(), '\n'));
        assert(trim_start_char(s, '\n') == trim_start_char(s.drop_first(), '\n'));
        assert(trim_start_char(s, '\n') =~= Seq::<char>::empty());
        assert(body =~= Seq::<char>::empty());
    }
}

/// An entry is read back as it was written, whenever that was.
pub proof fn law_written_entry_is_read_back(e: EntryView, now: nat)
    requires
        writable(e),
    ensures
        parsed_entry(entry_text(e, now)) == Some(e),
{
    let hl = head_lines(e, now);
    let nl = seq!['\n'];
    let head = join(hl, nl);
    let tail = "\n"@ + e.content + "\n"@;
    let raw = entry_text(e, now);
    lemma_entry_text(e, now);
    lemma_head_lines(e, now);
    let s = head + "\n---\n"@ + tail;
    lemma_strip_name("---\n"@, s);
    lemma_find_mark(hl, tail);
    assert(s.take(head.len() as int) =~= head);
    assert(s.skip((head.len() + "\n---\n"@.len()) as int) =~= tail);
    assert(split_file(raw) == Some((head, tail)));
    lemma_lines_of_joined(hl);
    lemma_front_read_back(e, now);
    lemma_body_read_back(e.content);
    law_category_round_trip(e.category);
}

// ---- file names ----

/// No two dots stand side by side.
pub open spec fn no_double_dot(s: Seq<char>) -> bool {
    forall|i: int| 0 <= i && i + 1 < s.len() && #[trigger] s[i] == '.' ==> s[i + 1] != '.'
}

/// No separator of paths, and no zero character.
pub open spec fn no_separator(s: Seq<char>) -> bool {
    forall|i: int|
        0 <= i < s.len() ==> #[trigger] s[i] != '/' && s[i] != '\\' && s[i] != '\0'
}

proof fn lemma_replace_dots(s: Seq<char>)
    requires
        no_separator(s),
    ensures
        no_double_dot(replace(s, ".."@, "__"@)),
        no_separator(replace(s, ".."@, "__"@)),
    decreases s.len(),
{
    reveal_strlit("..");
    reveal_strlit("__");
    lemma_find_from(s, ".."@, 0);
    match find(s, ".."@) {
        Some(i) => {
            let rest = s.skip(i + 2);
            assert forall|j: int| 0 <= j < rest.len() implies #[trigger] rest[j] != '/' && rest[j]
                != '\\' && rest[j] != '\0' by {
                assert(rest[j] == s[i + 2 + j]);
            }
            lemma_replace_dots(rest);
            let r = replace(rest, ".."@, "__"@);
            let head = s.take(i);
            let all = head + "__"@ + r;
            assert(replace(s, ".."@, "__"@) == all);
            assert forall|j: int| 0 <= j && j + 1 < all.len() && #[trigger] all[j]
                == '.' implies all[j + 1] != '.' by {
                if j + 1 < i {
                    assert(all[j] == s[j]);
                    assert(all[j + 1] == s[j + 1]);
                    if s[j + 1] == '.' {
                        assert(s.subrange(j, j + 2) =~= ".."@);
                        assert(occurs_at(s, ".."@, j));
                    }
                } else if j + 1 == i {
                    assert(all[j + 1] == '_');
                } else if j < i + 2 {
                    assert(all[j] == '_');
                } else {
                    assert(all[j] == r[j - i - 2]);
                    assert(all[j + 1] == r[j - i - 1]);
                }
            }
            assert forall|j: int| 0 <= j < all.len() implies #[trigger] all[j] != '/' && all[j]
                != '\\' && all[j] != '\0' by {
                if j < i {
                    assert(all[j] == s[j]);
                } else if j < i + 2 {
                    assert(all[j] == '_');
                } else {
                    assert(all[j] == r[j - i - 2]);
                }
            }
        },
        None => {
            assert forall|j: int| 0 <= j && j + 1 < s.len() && #[trigger] s[j] == '.' implies s[j
                + 1] != '.' by {
                if s[j + 1] == '.' {
                    assert(s.subrange(j, j + 2) =~= ".."@);
                    assert(occurs_at(s, ".."@, j));
                }
            }
        },
    }
}

proof fn lemma_trim_start_any(s: Seq<char>, set: Seq<char>)
    requires
        no_double_dot(s),
        no_separator(s),
    ensures
        no_double_dot(trim_start_any(s, set)),
        no_separator(trim_start_any(s, set)),
    decreases s.len(),
{
    if s.len() > 0 && set.contains(s[0]) {
        let t = s.drop_first();
        assert forall|i: int| 0 <= i && i + 1 < t.len() && #[trigger] t[i] == '.' implies t[i + 1]
            != '.' by {
            assert(t[i] == s[i + 1]);
            assert(t[i + 1] == s[i + 2]);
        }
        assert forall|i: int| 0 <= i < t.len() implies #[trigger] t[i] != '/' && t[i] != '\\'
            && t[i] != '\0' by {
            assert(t[i] == s[i + 1]);
        }
        lemma_trim_start_any(t, set);
    }
}

proof fn lemma_trim_end_any(s: Seq<char>, set: Seq<char>)
    requires
        no_double_dot(s),
        no_separator(s),
    ensures
        no_double_dot(trim_end_any(s, set)),
        no_separator(trim_end_any(s, set)),
        trim_end_any(s, set).len() > 0 ==> !set.contains(trim_end_any(s, set).last()),
    decreases s.len(),
{
    if s.len() > 0 && set.contains(s.last()) {
        let t = s.drop_last();
        assert forall|i: int| 0 <= i && i + 1 < t.len() && #[trigger] t[i] == '.' implies t[i + 1]
            != '.' by {
            assert(t[i] == s[i]);
            assert(t[i + 1] == s[i + 1]);
        }
        assert forall|i: int| 0 <= i < t.len() implies #[trigger] t[i] != '/' && t[i] != '\\'
            && t[i] != '\0' by {
            assert(t[i] == s[i]);
        }
        lemma_trim_end_any(t, set);
    }
}

/// The file of a key, whatever the key, names a file in the directory itself:
/// it is not empty, and neither separators nor two dots in a row are in it.
pub proof fn law_file_name_stays_in_the_directory(key: Seq<char>)
    ensures
        safe_name(key).len() > 0,
        no_separator(file_name(key)),
        no_double_dot(file_name(key)),
{
    reveal_strlit("_");
    reveal_strlit(".md");
    let s = safe_chars(key);
    assert forall|i: int| 0 <= i < s.len() implies #[trigger] s[i] != '/' && s[i] != '\\' && s[i]
        != '\0' by {
        assert(s[i] == safe_char(key[i]));
    }
    lemma_replace_dots(s);
    let r = replace(s, ".."@, "__"@);
    let set = seq!['_', '.'];
    lemma_trim_start_any(r, set);
    lemma_trim_end_any(trim_start_any(r, set), set);
    let n = safe_name(key);
    let f = file_name(key);
    assert(set[1] == '.');
    assert(n.last() != '.') by {
        if trim_any(r, set).len() > 0 && n.last() == '.' {
            assert(set.contains('.'));
        }
    }
    assert forall|i: int| 0 <= i && i + 1 < f.len() && #[trigger] f[i] == '.' implies f[i + 1]
        != '.' by {
        if i + 1 < n.len() {
            assert(f[i] == n[i]);
            assert(f[i + 1] == n[i + 1]);
        } else if i + 1 == n.len() {
            assert(f[i] == n.last());
        } else {
            assert(f[i + 1] == ".md"@[i + 1 - n.len()]);
        }
    }
    assert forall|i: int| 0 <= i < f.len() implies #[trigger] f[i] != '/' && f[i] != '\\' && f[i]
        != '\0' by {
        if i < n.len() {
            assert(f[i] == n[i]);
        } else {
            assert(f[i] == ".md"@[i - n.len()]);
        }
    }
}

} // verus!
