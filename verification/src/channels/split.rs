//! Splitting a long reply into messages of limited length.
use vstd::prelude::*;
use crate::text::{
    chars_of, lemma_rfind_from, occurs_at, rfind, rfind_chars, string_of_range, texts,
};

verus! {

/// Where a text longer than `max` is cut: behind the last newline of its
/// first `max` characters if that newline lies in their second half, else
/// behind their last space, else after all of them.
pub open spec fn cut_point(s: Seq<char>, max: int) -> int {
    let candidate = s.take(max);
    let behind_space = match rfind(candidate, seq![' ']) {
        Some(p) => p + 1,
        None => max,
    };
    match rfind(candidate, seq!['\n']) {
        Some(nl) => if nl >= max / 2 {
            nl + 1
        } else {
            behind_space
        },
        None => behind_space,
    }
}

/// Newlines and spaces, which are dropped where a new chunk would begin with
/// them.
pub open spec fn is_break(c: char) -> bool {
    c == '\n' || c == ' '
}

/// `s` without its leading newlines and spaces.
pub open spec fn skip_breaks(s: Seq<char>) -> Seq<char>
    decreases s.len(),
{
    if s.len() > 0 && is_break(s[0]) {
        skip_breaks(s.drop_first())
    } else {
        s
    }
}

pub proof fn lemma_skip_breaks_len(s: Seq<char>)
    ensures
        skip_breaks(s).len() <= s.len(),
    decreases s.len(),
{
    if s.len() > 0 && is_break(s[0]) {
        lemma_skip_breaks_len(s.drop_first());
    }
}

pub proof fn lemma_cut_point(s: Seq<char>, max: int)
    requires
        0 < max < s.len(),
    ensures
        0 < cut_point(s, max) <= max,
{
    let c = s.take(max);
    lemma_rfind_from(c, seq![' '], c.len() as int);
    lemma_rfind_from(c, seq!['\n'], c.len() as int);
}

/// The chunks of what is left to send.
pub open spec fn chunks_of(s: Seq<char>, max: int) -> Seq<Seq<char>>
    decreases s.len(),
{
    if s.len() == 0 || max <= 0 {
        Seq::empty()
    } else if s.len() <= max {
        seq![s]
    } else {
        let cut = cut_point(s, max);
        let rest = skip_breaks(s.skip(cut));
        proof {
            lemma_cut_point(s, max);
            lemma_skip_breaks_len(s.skip(cut));
        }
        seq![s.take(cut)] + chunks_of(rest, max)
    }
}

/// The chunks of a reply: the reply itself where it is short enough.
pub open spec fn reply_chunks(s: Seq<char>, max: int) -> Seq<Seq<char>> {
    if s.len() <= max {
        seq![s]
    } else {
        chunks_of(s, max)
    }
}

/// Where the first `max` characters of `s[from..]` are cut.
fn cut_index(s: &Vec<char>, from: usize, max: usize) -> (cut: usize)
    requires
        from + max < s@.len(),
        0 < max,
    ensures
        cut == cut_point(s@.skip(from as int), max as int),
{
    let ghost rest = s@.skip(from as int);
    let n: usize = s.len();
    let mut candidate: Vec<char> = Vec::new();
    let mut i: usize = 0;
    while i < max
        invariant
            i <= max,
            from + max < n == s@.len(),
            rest == s@.skip(from as int),
            candidate@ == rest.take(i as int),
        decreases max - i,
    {
        candidate.push(s[from + i]);
        proof {
            assert(rest.take(i + 1) =~= rest.take(i as int).push(rest[i as int]));
        }
        i = i + 1;
    }
    let space: Vec<char> = vec![' '];
    let newline: Vec<char> = vec!['\n'];
    proof {
        assert(space@ =~= seq![' ']);
        assert(newline@ =~= seq!['\n']);
        lemma_rfind_from(candidate@, space@, candidate@.len() as int);
        lemma_rfind_from(candidate@, newline@, candidate@.len() as int);
    }
    let behind_space: usize = match rfind_chars(&candidate, &space) {
        Some(p) => p + 1,
        None => max,
    };
    match rfind_chars(&candidate, &newline) {
        Some(nl) => if nl >= max / 2 {
            nl + 1
        } else {
            behind_space
        },
        None => behind_space,
    }
}

/// The chunks of a reply of at most `max` characters each.
pub fn split_reply(content: &str, max: usize) -> (r: Vec<String>)
    requires
        max > 0 || content@.len() == 0,
    ensures
        texts(r@) == reply_chunks(content@, max as int),
{
    let s = chars_of(content);
    let n: usize = s.len();
    let mut out: Vec<String> = Vec::new();
    if n <= max {
        out.push(content.to_owned());
        proof {
            assert(texts(out@) =~= seq![content@]);
        }
        return out;
    }
    let mut from: usize = 0;
    proof {
        assert(s@.skip(0) =~= s@);
        assert(texts(out@) + chunks_of(s@.skip(0), max as int) =~= chunks_of(content@, max as int));
    }
    while from < n
        invariant
            from <= n == s@.len(),
            0 < max,
            s@ == content@,
            chunks_of(content@, max as int) == texts(out@) + chunks_of(
                s@.skip(from as int),
                max as int,
            ),
        decreases n - from,
    {
        let ghost rest = s@.skip(from as int);
        let ghost before = texts(out@);
        if n - from <= max {
            let last = string_of_range(&s, from, n);
            out.push(last);
            proof {
                assert(last@ =~= rest);
                assert(texts(out@) =~= before + seq![rest]);
                assert(s@.skip(n as int) =~= Seq::<char>::empty());
                assert(texts(out@) + chunks_of(s@.skip(n as int), max as int) =~= texts(out@));
            }
            from = n;
        } else {
            proof {
                lemma_cut_point(rest, max as int);
            }
            let cut = cut_index(&s, from, max);
            let chunk = string_of_range(&s, from, from + cut);
            out.push(chunk);
            proof {
                assert(chunk@ =~= rest.take(cut as int));
                assert(rest.skip(cut as int) =~= s@.skip(from + cut));
                assert(texts(out@) =~= before.push(chunk@));
                assert(before + (seq![chunk@] + chunks_of(
                    skip_breaks(s@.skip(from + cut)),
                    max as int,
                )) =~= texts(out@) + chunks_of(skip_breaks(s@.skip(from + cut)), max as int));
            }
            from = from + cut;
            let ghost behind = from;
            while from < n && (s[from] == '\n' || s[from] == ' ')
                invariant
                    behind <= from <= n == s@.len(),
                    chunks_of(content@, max as int) == texts(out@) + chunks_of(
                        skip_breaks(s@.skip(from as int)),
                        max as int,
                    ),
                decreases n - from,
            {
                proof {
                    assert(s@.skip(from as int).drop_first() =~= s@.skip(from + 1));
                }
                from = from + 1;
            }
        }
    }
    proof {
        assert(s@.skip(from as int) =~= Seq::<char>::empty());
        assert(texts(out@) + Seq::<Seq<char>>::empty() =~= texts(out@));
    }
    out
}

/// No chunk is longer than the limit, and none is empty.
pub proof fn law_chunks_fit(s: Seq<char>, max: int)
    requires
        0 < max,
        s.len() > 0,
    ensures
        forall|i: int|
            0 <= i < reply_chunks(s, max).len() ==> 0 < (#[trigger] reply_chunks(s, max)[i]).len()
                <= max,
    decreases s.len(),
{
    if s.len() > max {
        let cut = cut_point(s, max);
        let rest = skip_breaks(s.skip(cut));
        lemma_cut_point(s, max);
        lemma_skip_breaks_len(s.skip(cut));
        if rest.len() > 0 {
            law_chunks_fit(rest, max);
            assert(chunks_of(rest, max) =~= reply_chunks(rest, max));
        }
        let all = reply_chunks(s, max);
        assert(all =~= seq![s.take(cut)] + chunks_of(rest, max));
        assert forall|i: int| 0 <= i < all.len() implies 0 < (#[trigger] all[i]).len() <= max by {
            if i > 0 {
                assert(all[i] == chunks_of(rest, max)[i - 1]);
                assert(all[i] == reply_chunks(rest, max)[i - 1]);
            }
        }
    }
}

/// `s` without its newlines and spaces.
pub open spec fn without_breaks(s: Seq<char>) -> Seq<char> {
    s.filter(|c: char| !is_break(c))
}

/// The chunks one after the other.
pub open spec fn concat(parts: Seq<Seq<char>>) -> Seq<char>
    decreases parts.len(),
{
    if parts.len() == 0 {
        Seq::empty()
    } else {
        parts[0] + concat(parts.drop_first())
    }
}

proof fn lemma_skip_breaks_keeps(s: Seq<char>)
    ensures
        without_breaks(skip_breaks(s)) == without_breaks(s),
    decreases s.len(),
{
    if s.len() > 0 && is_break(s[0]) {
        lemma_skip_breaks_keeps(s.drop_first());
        assert(s =~= seq![s[0]] + s.drop_first());
        Seq::filter_distributes_over_add(seq![s[0]], s.drop_first(), |c: char| !is_break(c));
        reveal_with_fuel(Seq::filter, 2);
        assert(seq![s[0]].drop_last() =~= Seq::<char>::empty());
        assert(seq![s[0]].filter(|c: char| !is_break(c)) =~= Seq::<char>::empty());
    }
}

/// Splitting loses nothing but newlines and spaces at the cuts: apart from
/// those, the chunks one after the other are the reply.
pub proof fn law_chunks_preserve_content(s: Seq<char>, max: int)
    requires
        0 < max,
    ensures
        without_breaks(concat(reply_chunks(s, max))) == without_breaks(s),
    decreases s.len(),
{
    let all = reply_chunks(s, max);
    if s.len() <= max {
        assert(all.drop_first() =~= Seq::<Seq<char>>::empty());
        assert(concat(all.drop_first()) =~= Seq::<char>::empty());
        assert(concat(all) =~= s);
    } else {
        let cut = cut_point(s, max);
        let tail = s.skip(cut);
        let rest = skip_breaks(tail);
        lemma_cut_point(s, max);
        lemma_skip_breaks_len(tail);
        law_chunks_preserve_content(rest, max);
        assert(all.drop_first() =~= chunks_of(rest, max));
        if rest.len() == 0 {
            assert(concat(chunks_of(rest, max)) =~= rest);
        } else {
            assert(chunks_of(rest, max) =~= reply_chunks(rest, max));
        }
        assert(concat(all) =~= s.take(cut) + concat(chunks_of(rest, max)));
        let p = |c: char| !is_break(c);
        Seq::filter_distributes_over_add(s.take(cut), concat(chunks_of(rest, max)), p);
        lemma_skip_breaks_keeps(tail);
        Seq::filter_distributes_over_add(s.take(cut), tail, p);
        assert(s =~= s.take(cut) + tail);
    }
}

/// Whether no cut of `s` comes right before a newline or a space.
pub open spec fn cut_cleanly(s: Seq<char>, max: int) -> bool
    decreases s.len(),
{
    if max <= 0 || s.len() <= max {
        true
    } else {
        let cut = cut_point(s, max);
        proof {
            lemma_cut_point(s, max);
        }
        !is_break(s[cut]) && cut_cleanly(s.skip(cut), max)
    }
}

proof fn lemma_concat_len(s: Seq<char>, max: int)
    requires
        0 < max,
    ensures
        concat(chunks_of(s, max)).len() <= s.len(),
    decreases s.len(),
{
    let all = chunks_of(s, max);
    if 0 < s.len() <= max {
        assert(all.drop_first() =~= Seq::<Seq<char>>::empty());
        assert(concat(all.drop_first()) =~= Seq::<char>::empty());
    } else if s.len() > max {
        let cut = cut_point(s, max);
        let rest = skip_breaks(s.skip(cut));
        lemma_cut_point(s, max);
        lemma_skip_breaks_len(s.skip(cut));
        lemma_concat_len(rest, max);
        assert(all.drop_first() =~= chunks_of(rest, max));
    }
}

/// The chunks one after the other are the reply itself if and only if no cut
/// comes right before a newline or a space.
pub proof fn law_clean_cuts_keep_everything(s: Seq<char>, max: int)
    requires
        0 < max,
    ensures
        (concat(reply_chunks(s, max)) == s) == cut_cleanly(s, max),
    decreases s.len(),
{
    let all = reply_chunks(s, max);
    if s.len() <= max {
        assert(all.drop_first() =~= Seq::<Seq<char>>::empty());
        assert(concat(all.drop_first()) =~= Seq::<char>::empty());
        assert(concat(all) =~= s);
    } else {
        let cut = cut_point(s, max);
        let tail = s.skip(cut);
        let rest = skip_breaks(tail);
        lemma_cut_point(s, max);
        lemma_skip_breaks_len(tail);
        assert(all.drop_first() =~= chunks_of(rest, max));
        assert(s =~= s.take(cut) + tail);
        assert(tail[0] == s[cut]);
        if is_break(s[cut]) {
            lemma_skip_breaks_len(tail.drop_first());
            lemma_concat_len(rest, max);
        } else {
            assert(rest == tail);
            assert(chunks_of(tail, max) =~= reply_chunks(tail, max));
            law_clean_cuts_keep_everything(tail, max);
            let joined = concat(reply_chunks(tail, max));
            assert(concat(all) =~= s.take(cut) + joined);
            if concat(all) == s {
                assert(s.skip(cut) =~= joined);
            }
        }
    }
}

/// Whether newlines and spaces in `s` stand apart from each other.
pub open spec fn single_breaks(s: Seq<char>) -> bool {
    forall|i: int, j: int|
        0 <= i && j == i + 1 && j < s.len() ==> !(is_break(#[trigger] s[i]) && is_break(
            #[trigger] s[j],
        ))
}

/// Whether there is a space among any `max` characters of `s` in a row.
pub open spec fn spaced(s: Seq<char>, max: int) -> bool {
    forall|i: int| 0 <= i <= s.len() - max ==> (#[trigger] s.skip(i)).take(max).contains(' ')
}

/// A text whose newlines and spaces stand apart from each other, with a space
/// among any `max` characters in a row, comes back unchanged when its chunks
/// are put together; so does a text without newlines and spaces.
pub proof fn law_words_are_kept(s: Seq<char>, max: int)
    requires
        0 < max,
        single_breaks(s) && spaced(s, max) || forall|i: int|
            0 <= i < s.len() ==> !is_break(#[trigger] s[i]),
    ensures
        concat(reply_chunks(s, max)) == s,
{
    lemma_words_are_cut_cleanly(s, max);
    law_clean_cuts_keep_everything(s, max);
}

proof fn lemma_words_are_cut_cleanly(s: Seq<char>, max: int)
    requires
        0 < max,
        single_breaks(s) && spaced(s, max) || forall|i: int|
            0 <= i < s.len() ==> !is_break(#[trigger] s[i]),
    ensures
        cut_cleanly(s, max),
    decreases s.len(),
{
    if s.len() > max {
        let cut = cut_point(s, max);
        let c = s.take(max);
        let tail = s.skip(cut);
        lemma_cut_point(s, max);
        lemma_rfind_from(c, seq![' '], c.len() as int);
        lemma_rfind_from(c, seq!['\n'], c.len() as int);
        if forall|i: int| 0 <= i < s.len() ==> !is_break(#[trigger] s[i]) {
            assert forall|i: int| 0 <= i < tail.len() implies !is_break(#[trigger] tail[i]) by {
                assert(tail[i] == s[i + cut]);
            }
            assert(!is_break(s[cut]));
        } else {
            assert(s.skip(0) =~= s);
            assert(s.skip(0).take(max).contains(' '));
            let p = choose|p: int| 0 <= p < c.len() && c[p] == ' ';
            assert(c.subrange(p, p + 1) =~= seq![' ']);
            assert(occurs_at(c, seq![' '], p));
            let k = cut - 1;
            assert(c.subrange(k, k + 1)[0] == s[k]);
            assert(is_break(s[k]));
            assert(!is_break(s[cut]));
            assert forall|i: int, j: int|
                0 <= i && j == i + 1 && j < tail.len() implies !(is_break(#[trigger] tail[i])
                && is_break(#[trigger] tail[j])) by {
                assert(tail[i] == s[i + cut]);
                assert(tail[j] == s[j + cut]);
            }
            assert forall|i: int| 0 <= i <= tail.len() - max implies (#[trigger] tail.skip(i)).take(
                max,
            ).contains(' ') by {
                assert(tail.skip(i) =~= s.skip(i + cut));
            }
        }
        lemma_words_are_cut_cleanly(tail, max);
    }
}

} // verus!
