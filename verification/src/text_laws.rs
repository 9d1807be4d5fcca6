//! What the operations on texts do, told from the characters.
use vstd::prelude::*;
use crate::text::{
    all_digits, before_char, contains, digits_value, find, first_word, head_word,
    int_of_text, int_text, is_digit, is_white, join, lemma_find_from, lemma_rfind_from, lines,
    nat_of_text, nat_text, occurs_at, replace, rfind, starts_with, strip_prefix, strip_repeated,
    trim, trim_end, trim_end_any, trim_end_char, trim_start, trim_start_any, trim_start_char,
};

verus! {

/// A text is found where it stands first, and exactly if it stands somewhere.
pub proof fn law_find_is_leftmost(s: Seq<char>, pat: Seq<char>)
    ensures
        find(s, pat) matches Some(i) ==> {
            &&& 0 <= i && i + pat.len() <= s.len()
            &&& s.subrange(i, i + pat.len()) == pat
            &&& forall|j: int|
                0 <= j < i ==> #[trigger] s.subrange(j, j + pat.len()) != pat
        },
        find(s, pat) is None ==> forall|j: int|
            0 <= j && j + pat.len() <= s.len() ==> #[trigger] s.subrange(j, j + pat.len()) != pat,
        contains(s, pat) <==> exists|j: int|
            0 <= j && j + pat.len() <= s.len() && #[trigger] s.subrange(j, j + pat.len()) == pat,
{
    lemma_find_from(s, pat, 0);
    match find(s, pat) {
        Some(i) => {
            assert(occurs_at(s, pat, i));
            assert forall|j: int| 0 <= j < i implies #[trigger] s.subrange(j, j + pat.len())
                != pat by {
                assert(!occurs_at(s, pat, j));
            }
        },
        None => {
            assert forall|j: int| 0 <= j && j + pat.len() <= s.len() implies #[trigger] s.subrange(
                j,
                j + pat.len(),
            ) != pat by {
                assert(!occurs_at(s, pat, j));
            }
        },
    }
}

/// A text is found from the end where it stands last.
pub proof fn law_rfind_is_rightmost(s: Seq<char>, pat: Seq<char>)
    ensures
        rfind(s, pat) matches Some(i) ==> {
            &&& 0 <= i && i + pat.len() <= s.len()
            &&& s.subrange(i, i + pat.len()) == pat
            &&& forall|j: int|
                i < j && j + pat.len() <= s.len() ==> #[trigger] s.subrange(j, j + pat.len())
                    != pat
        },
        rfind(s, pat) is None ==> forall|j: int|
            0 <= j && j + pat.len() <= s.len() ==> #[trigger] s.subrange(j, j + pat.len()) != pat,
{
    lemma_rfind_from(s, pat, s.len() as int);
    match rfind(s, pat) {
        Some(i) => {
            assert(occurs_at(s, pat, i));
            assert forall|j: int| i < j && j + pat.len() <= s.len() implies #[trigger] s.subrange(
                j,
                j + pat.len(),
            ) != pat by {
                assert(!occurs_at(s, pat, j));
            }
        },
        None => {
            assert forall|j: int| 0 <= j && j + pat.len() <= s.len() implies #[trigger] s.subrange(
                j,
                j + pat.len(),
            ) != pat by {
                assert(!occurs_at(s, pat, j));
            }
        },
    }
}

/// A character is found at its first position, from the end at its last one.
pub proof fn law_find_char(s: Seq<char>, c: char, i: int)
    requires
        0 <= i < s.len(),
        s[i] == c,
    ensures
        (forall|j: int| 0 <= j < i ==> #[trigger] s[j] != c) ==> find(s, seq![c]) == Some(i),
        (forall|j: int| i < j < s.len() ==> #[trigger] s[j] != c) ==> rfind(s, seq![c]) == Some(i),
{
    let pat = seq![c];
    lemma_find_from(s, pat, 0);
    lemma_rfind_from(s, pat, s.len() as int);
    assert(s.subrange(i, i + 1) =~= pat);
    assert(occurs_at(s, pat, i));
    if let Some(k) = find(s, pat) {
        assert(s.subrange(k, k + 1)[0] == c);
        assert(s[k] == c);
    }
    if let Some(k) = rfind(s, pat) {
        assert(s.subrange(k, k + 1)[0] == c);
        assert(s[k] == c);
    }
}

/// A prefix is what a text begins with; what follows it is the rest.
pub proof fn law_prefix(pat: Seq<char>, rest: Seq<char>, s: Seq<char>)
    ensures
        starts_with(pat + rest, pat),
        strip_prefix(pat + rest, pat) == Some(rest),
        strip_prefix(s, pat) matches Some(r) ==> s == pat + r,
        starts_with(s, pat) <==> strip_prefix(s, pat) is Some,
{
    assert((pat + rest).take(pat.len() as int) =~= pat);
    assert((pat + rest).skip(pat.len() as int) =~= rest);
    if strip_prefix(s, pat) is Some {
        assert(s =~= pat + s.skip(pat.len() as int));
    }
}

/// All characters of a text are white space.
pub open spec fn blank(s: Seq<char>) -> bool {
    forall|i: int| 0 <= i < s.len() ==> is_white(#[trigger] s[i])
}

/// The common separators are white space; letters, digits and signs are not.
pub proof fn law_white_space(c: char)
    ensures
        c == ' ' || c == '\t' || c == '\n' || c == '\r' ==> is_white(c),
        '!' <= c <= '~' ==> !is_white(c),
{
}

proof fn lemma_trim_start(s: Seq<char>) -> (k: int)
    ensures
        0 <= k <= s.len(),
        trim_start(s) == s.skip(k),
        blank(s.take(k)),
        trim_start(s).len() > 0 ==> !is_white(trim_start(s)[0]),
    decreases s.len(),
{
    if s.len() > 0 && is_white(s[0]) {
        let k = lemma_trim_start(s.drop_first());
        assert(s.drop_first().skip(k) =~= s.skip(k + 1));
        assert forall|i: int| 0 <= i < k + 1 implies is_white(#[trigger] s.take(k + 1)[i]) by {
            if i > 0 {
                assert(s.drop_first().take(k)[i - 1] == s[i]);
            }
        }
        k + 1
    } else {
        assert(s.skip(0) =~= s);
        0
    }
}

proof fn lemma_trim_end(s: Seq<char>) -> (k: int)
    ensures
        0 <= k <= s.len(),
        trim_end(s) == s.take(k),
        blank(s.skip(k)),
        trim_end(s).len() > 0 ==> !is_white(trim_end(s).last()),
    decreases s.len(),
{
    if s.len() > 0 && is_white(s.last()) {
        let k = lemma_trim_end(s.drop_last());
        assert(s.drop_last().take(k) =~= s.take(k));
        assert forall|i: int| 0 <= i < s.skip(k).len() implies is_white(
            #[trigger] s.skip(k)[i],
        ) by {
            if i + k < s.len() - 1 {
                assert(s.drop_last().skip(k)[i] == s[i + k]);
            }
        }
        k
    } else {
        assert(s.take(s.len() as int) =~= s);
        s.len() as int
    }
}

/// Trimming drops white space at both ends and nothing else: what is left
/// neither begins nor ends with white space.
pub proof fn law_trim(s: Seq<char>)
    ensures
        exists|a: int, b: int|
            #![trigger s.subrange(a, b)]
            0 <= a <= b <= s.len() && trim(s) == s.subrange(a, b) && blank(s.take(a)) && blank(
                s.skip(b),
            ),
        trim(s).len() > 0 ==> !is_white(trim(s)[0]) && !is_white(trim(s).last()),
        s.len() > 0 && !is_white(s[0]) && !is_white(s.last()) ==> trim(s) == s,
{
    let a = lemma_trim_start(s);
    let t = trim_start(s);
    let n = lemma_trim_end(t);
    let b = a + n;
    assert(t.take(n) =~= s.subrange(a, b));
    assert(t.skip(n) =~= s.skip(b));
}

/// Parts are joined in order with the separator between them.
pub proof fn law_join(parts: Seq<Seq<char>>, last: Seq<char>, sep: Seq<char>)
    ensures
        parts.len() == 0 ==> join(parts, sep).len() == 0 && join(parts.push(last), sep) == last,
        parts.len() > 0 ==> join(parts.push(last), sep) == join(parts, sep) + sep + last,
{
    assert(parts.push(last).drop_last() =~= parts);
}

proof fn lemma_digits_of(n: nat)
    ensures
        all_digits(nat_text(n)),
        nat_text(n).len() > 0,
        digits_value(nat_text(n)) == n,
        nat_text(n)[0] != '-',
        nat_text(n)[0] != '+',
    decreases n,
{
    if n < 10 {
        let t = nat_text(n);
        assert(t.drop_last() =~= Seq::<char>::empty());
        assert(digits_value(Seq::<char>::empty()) == 0);
        assert(t.last() as int == n + 48);
    } else {
        lemma_digits_of(n / 10);
        let t = nat_text(n);
        assert(t.drop_last() =~= nat_text(n / 10));
        assert(t.last() as int == n % 10 + 48);
        assert(t[0] == nat_text(n / 10)[0]);
        assert forall|i: int| 0 <= i < t.len() implies is_digit(#[trigger] t[i]) by {
            if i < t.len() - 1 {
                assert(t[i] == nat_text(n / 10)[i]);
            }
        }
    }
}

/// A number is read back from its text, and no two numbers have the same text.
pub proof fn law_numbers_are_read_back(n: int, m: int)
    ensures
        int_of_text(int_text(n)) == Some(n),
        n >= 0 ==> nat_of_text(nat_text(n as nat)) == Some(n as nat),
        int_text(n) == int_text(m) ==> n == m,
{
    lemma_read_back(n);
    lemma_read_back(m);
}

proof fn lemma_read_back(n: int)
    ensures
        int_of_text(int_text(n)) == Some(n),
        n >= 0 ==> nat_of_text(nat_text(n as nat)) == Some(n as nat),
{
    if n < 0 {
        lemma_digits_of((-n) as nat);
        let t = int_text(n);
        assert(t.drop_first() =~= nat_text((-n) as nat));
    } else {
        lemma_digits_of(n as nat);
    }
}

/// The part before a character holds none, and is followed by the character
/// unless it is the whole text.
pub proof fn law_before_char(s: Seq<char>, c: char)
    ensures
        !before_char(s, c).contains(c),
        s.contains(c) ==> starts_with(s, before_char(s, c).push(c)),
        !s.contains(c) ==> before_char(s, c) == s,
{
    let pat = seq![c];
    lemma_find_from(s, pat, 0);
    match find(s, pat) {
        Some(i) => {
            assert(occurs_at(s, pat, i));
            assert(s.subrange(i, i + 1)[0] == c);
            assert forall|j: int| 0 <= j < i implies s[j] != c by {
                if s[j] == c {
                    assert(s.subrange(j, j + 1) =~= pat);
                    assert(occurs_at(s, pat, j));
                }
            }
            assert(s.take(i).push(c) =~= s.take(i + 1));
        },
        None => {
            assert forall|j: int| 0 <= j < s.len() implies s[j] != c by {
                if s[j] == c {
                    assert(s.subrange(j, j + 1) =~= pat);
                    assert(occurs_at(s, pat, j));
                }
            }
        },
    }
}

proof fn lemma_head_word(s: Seq<char>)
    ensures
        ({
            let w = head_word(s);
            &&& w.len() <= s.len()
            &&& w == s.take(w.len() as int)
            &&& forall|i: int| 0 <= i < w.len() ==> !is_white(#[trigger] w[i])
            &&& w.len() < s.len() ==> is_white(s[w.len() as int])
        }),
    decreases s.len(),
{
    if s.len() > 0 && !is_white(s[0]) {
        lemma_head_word(s.drop_first());
        let w = head_word(s);
        let v = head_word(s.drop_first());
        assert(w =~= s.take(w.len() as int));
        assert forall|i: int| 0 <= i < w.len() implies !is_white(#[trigger] w[i]) by {
            if i > 0 {
                assert(w[i] == v[i - 1]);
            }
        }
    }
}

/// The first word is a run without white space at the beginning of what is
/// left without leading white space, and ends at white space or at the end.
pub proof fn law_first_word(s: Seq<char>)
    ensures
        ({
            let t = trim_start(s);
            let w = first_word(s);
            &&& starts_with(t, w)
            &&& forall|i: int| 0 <= i < w.len() ==> !is_white(#[trigger] w[i])
            &&& w.len() < t.len() ==> is_white(t[w.len() as int])
        }),
        trim_start(s).len() > 0 ==> first_word(s).len() > 0,
{
    let k = lemma_trim_start(s);
    lemma_head_word(trim_start(s));
}

/// Replacing puts the replacement in the place of the leftmost occurrence and
/// goes on behind it; a text without an occurrence stays.
pub proof fn law_replace(s: Seq<char>, pat: Seq<char>, rep: Seq<char>)
    requires
        pat.len() > 0,
    ensures
        !contains(s, pat) ==> replace(s, pat, rep) == s,
        find(s, pat) matches Some(i) ==> replace(s, pat, rep) == s.take(i) + rep + replace(
            s.skip(i + pat.len()),
            pat,
            rep,
        ),
{
    law_find_is_leftmost(s, pat);
}

/// A line ends at the first line feed, without the carriage return before it;
/// the others are the lines of the rest. A text without a line feed is one
/// line, an empty one has none.
pub proof fn law_lines(line: Seq<char>, rest: Seq<char>)
    requires
        !line.contains('\n'),
    ensures
        line.len() > 0 ==> lines(line) == seq![line],
        lines(Seq::empty()) == Seq::<Seq<char>>::empty(),
        line.len() > 0 && line.last() == '\r' ==> lines(line.push('\n') + rest) == seq![
            line.drop_last(),
        ] + lines(rest),
        !(line.len() > 0 && line.last() == '\r') ==> lines(line.push('\n') + rest) == seq![line]
            + lines(rest),
{
    let pat = seq!['\n'];
    let e = Seq::<char>::empty();
    lemma_find_from(line, pat, 0);
    lemma_find_from(e, pat, 0);
    assert forall|j: int| 0 <= j implies !occurs_at(line, pat, j) by {
        if occurs_at(line, pat, j) {
            assert(line.subrange(j, j + 1)[0] == '\n');
            assert(line[j] == '\n');
        }
    }
    assert(find(e, pat) is None) by {
        if find(e, pat) is Some {
            assert(occurs_at(e, pat, find(e, pat)->0));
        }
    }
    let s = line.push('\n') + rest;
    let n = line.len() as int;
    lemma_find_from(s, pat, 0);
    assert(s.subrange(n, n + 1) =~= pat);
    assert(occurs_at(s, pat, n));
    assert forall|j: int| 0 <= j < n implies !occurs_at(s, pat, j) by {
        if occurs_at(s, pat, j) {
            assert(s.subrange(j, j + 1)[0] == '\n');
            assert(line[j] == '\n');
        }
    }
    assert(find(s, pat) == Some(n));
    assert(s.take(n) =~= line);
    assert(s.skip(n + 1) =~= rest);
}

/// Trimming a character drops it at one end, as often as it stands there, and
/// nothing else.
pub proof fn law_trim_char(s: Seq<char>, c: char)
    ensures
        ({
            let t = trim_start_char(s, c);
            &&& t.len() <= s.len()
            &&& t == s.skip(s.len() - t.len())
            &&& forall|i: int| 0 <= i < s.len() - t.len() ==> #[trigger] s[i] == c
            &&& t.len() > 0 ==> t[0] != c
        }),
        ({
            let t = trim_end_char(s, c);
            &&& t.len() <= s.len()
            &&& t == s.take(t.len() as int)
            &&& forall|i: int| t.len() <= i < s.len() ==> #[trigger] s[i] == c
            &&& t.len() > 0 ==> t.last() != c
        }),
    decreases s.len(),
{
    assert(s.skip(0) =~= s);
    assert(s.take(s.len() as int) =~= s);
    if s.len() > 0 {
        law_trim_char(s.drop_first(), c);
        law_trim_char(s.drop_last(), c);
        if s[0] == c {
            let t = trim_start_char(s, c);
            assert(t =~= s.skip(s.len() - t.len()));
            assert forall|i: int| 0 <= i < s.len() - t.len() implies #[trigger] s[i] == c by {
                if i > 0 {
                    assert(s.drop_first()[i - 1] == c);
                }
            }
        }
        if s.last() == c {
            let t = trim_end_char(s, c);
            assert(t =~= s.take(t.len() as int));
            assert forall|i: int| t.len() <= i < s.len() implies #[trigger] s[i] == c by {
                if i < s.len() - 1 {
                    assert(s.drop_last()[i] == c);
                }
            }
        }
    }
}

/// Trimming the characters of a set drops them at one end and nothing else.
pub proof fn law_trim_any(s: Seq<char>, set: Seq<char>)
    ensures
        ({
            let t = trim_start_any(s, set);
            &&& t.len() <= s.len()
            &&& t == s.skip(s.len() - t.len())
            &&& forall|i: int| 0 <= i < s.len() - t.len() ==> set.contains(#[trigger] s[i])
            &&& t.len() > 0 ==> !set.contains(t[0])
        }),
        ({
            let t = trim_end_any(s, set);
            &&& t.len() <= s.len()
            &&& t == s.take(t.len() as int)
            &&& forall|i: int| t.len() <= i < s.len() ==> set.contains(#[trigger] s[i])
            &&& t.len() > 0 ==> !set.contains(t.last())
        }),
    decreases s.len(),
{
    assert(s.skip(0) =~= s);
    assert(s.take(s.len() as int) =~= s);
    if s.len() > 0 {
        law_trim_any(s.drop_first(), set);
        law_trim_any(s.drop_last(), set);
        if set.contains(s[0]) {
            let t = trim_start_any(s, set);
            assert(t =~= s.skip(s.len() - t.len()));
            assert forall|i: int| 0 <= i < s.len() - t.len() implies set.contains(
                #[trigger] s[i],
            ) by {
                if i > 0 {
                    assert(s.drop_first()[i - 1] == s[i]);
                }
            }
        }
        if set.contains(s.last()) {
            let t = trim_end_any(s, set);
            assert(t =~= s.take(t.len() as int));
            assert forall|i: int| t.len() <= i < s.len() implies set.contains(#[trigger] s[i]) by {
                if i < s.len() - 1 {
                    assert(s.drop_last()[i] == s[i]);
                }
            }
        }
    }
}

/// A prefix is stripped as often as it is repeated.
pub proof fn law_strip_repeated(s: Seq<char>, pat: Seq<char>)
    requires
        pat.len() > 0,
    ensures
        strip_repeated(pat + s, pat) == strip_repeated(s, pat),
        !starts_with(s, pat) ==> strip_repeated(s, pat) == s,
        !starts_with(strip_repeated(s, pat), pat),
    decreases s.len(),
{
    assert((pat + s).take(pat.len() as int) =~= pat);
    assert((pat + s).skip(pat.len() as int) =~= s);
    if starts_with(s, pat) {
        law_strip_repeated(s.skip(pat.len() as int), pat);
    }
}

} // verus!
