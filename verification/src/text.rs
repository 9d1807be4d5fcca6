//! Character-level text primitives and the vocabulary their contracts use.
use vstd::prelude::*;

verus! {

/// `String::push` appends the character to the end of the string.
pub assume_specification[ String::push ](s: &mut String, ch: char)
    ensures
        final(s)@ == old(s)@.push(ch),
;

/// What `str::to_lowercase` makes of a text: Unicode lower-casing.
pub uninterp spec fn lowercase(s: Seq<char>) -> Seq<char>;

/// `str::to_lowercase` depends on the characters of its argument alone.
pub assume_specification[ str::to_lowercase ](s: &str) -> (r: String)
    ensures
        r@ == lowercase(s@),
;

/// What `char::is_alphanumeric` says of a character.
pub uninterp spec fn alphanumeric(c: char) -> bool;

/// `char::is_alphanumeric` depends on the character alone.
pub assume_specification[ char::is_alphanumeric ](c: char) -> (r: bool)
    ensures
        r == alphanumeric(c),
;

/// The text of bytes, what is no UTF-8 in them replaced: what
/// `String::from_utf8_lossy` returns.
pub uninterp spec fn lossy_text(bytes: Seq<u8>) -> Seq<char>;

/// `String::from_utf8_lossy`: the text depends on the bytes alone.
#[verifier::external_body]
pub(crate) fn lossy_string(bytes: &[u8]) -> (r: String)
    ensures
        r@ == lossy_text(bytes@),
{
    String::from_utf8_lossy(bytes).into_owned()
}


/// The characters with the Unicode property `White_Space`.
pub open spec fn is_white(c: char) -> bool {
    let n = c as u32;
    ||| 0x09 <= n <= 0x0d
    ||| n == 0x20
    ||| n == 0x85
    ||| n == 0xa0
    ||| n == 0x1680
    ||| 0x2000 <= n <= 0x200a
    ||| n == 0x2028
    ||| n == 0x2029
    ||| n == 0x202f
    ||| n == 0x205f
    ||| n == 0x3000
}

/// Whether `c` is white space.
pub fn white(c: char) -> (r: bool)
    ensures
        r == is_white(c),
{
    let n: u32 = c as u32;
    (0x09 <= n && n <= 0x0d) || n == 0x20 || n == 0x85 || n == 0xa0 || n == 0x1680 || (0x2000 <= n
        && n <= 0x200a) || n == 0x2028 || n == 0x2029 || n == 0x202f || n == 0x205f || n == 0x3000
}

pub open spec fn opt_str(o: Option<&str>) -> Option<Seq<char>> {
    match o {
        Some(s) => Some(s@),
        None => None,
    }
}

pub open spec fn opt_string(o: Option<String>) -> Option<Seq<char>> {
    match o {
        Some(s) => Some(s@),
        None => None,
    }
}

/// The texts of a sequence of strings.
pub open spec fn texts(s: Seq<String>) -> Seq<Seq<char>> {
    Seq::new(s.len(), |i: int| s[i]@)
}

/// The characters of `s`, in order.
pub fn chars_of(s: &str) -> (v: Vec<char>)
    ensures
        v@ == s@,
{
    let mut v: Vec<char> = Vec::new();
    for c in it: s.chars()
        invariant
            v@ == s@.take(it.index() as int),
            it.seq() == s@,
    {
        v.push(c);
    }
    proof {
        assert(s@.take(s@.len() as int) =~= s@);
    }
    v
}

/// The string made of the characters `v[from..to]`.
pub fn string_of_range(v: &[char], from: usize, to: usize) -> (r: String)
    requires
        from <= to <= v@.len(),
    ensures
        r@ == v@.subrange(from as int, to as int),
{
    let mut r = String::new();
    let mut i: usize = from;
    while i < to
        invariant
            from <= i <= to <= v@.len(),
            r@ == v@.subrange(from as int, i as int),
        decreases to - i,
    {
        r.push(v[i]);
        proof {
            assert(v@.subrange(from as int, i as int).push(v@[i as int]) =~= v@.subrange(
                from as int,
                i + 1,
            ));
        }
        i = i + 1;
    }
    r
}

/// The string made of the characters of `v`, in order.
pub fn string_of(v: &[char]) -> (r: String)
    ensures
        r@ == v@,
{
    proof {
        assert(v@.subrange(0, v@.len() as int) =~= v@);
    }
    string_of_range(v, 0, v.len())
}

/// Whether two strings hold the same characters.
pub fn same_str(a: &str, b: &str) -> (r: bool)
    ensures
        r == (a@ == b@),
{
    a.to_owned() == b.to_owned()
}

pub fn cat2(a: &str, b: &str) -> (r: String)
    ensures
        r@ == a@ + b@,
{
    let mut s = a.to_owned();
    s.append(b);
    s
}

pub fn cat3(a: &str, b: &str, c: &str) -> (r: String)
    ensures
        r@ == a@ + b@ + c@,
{
    let mut s = cat2(a, b);
    s.append(c);
    s
}

pub fn cat4(a: &str, b: &str, c: &str, d: &str) -> (r: String)
    ensures
        r@ == a@ + b@ + c@ + d@,
{
    let mut s = cat3(a, b, c);
    s.append(d);
    s
}

pub fn cat5(a: &str, b: &str, c: &str, d: &str, e: &str) -> (r: String)
    ensures
        r@ == a@ + b@ + c@ + d@ + e@,
{
    let mut s = cat4(a, b, c, d);
    s.append(e);
    s
}

// ---- searching ----

/// Whether `pat` stands in `s` at position `i`.
pub open spec fn occurs_at(s: Seq<char>, pat: Seq<char>, i: int) -> bool {
    0 <= i && i + pat.len() <= s.len() && s.subrange(i, i + pat.len()) == pat
}

/// The leftmost position from `i` on at which `pat` stands in `s`.
pub open spec fn find_from(s: Seq<char>, pat: Seq<char>, i: int) -> Option<int>
    decreases s.len() + 1 - i,
{
    if i < 0 || i + pat.len() > s.len() {
        None
    } else if occurs_at(s, pat, i) {
        Some(i)
    } else {
        find_from(s, pat, i + 1)
    }
}

/// The leftmost position at which `pat` stands in `s`.
pub open spec fn find(s: Seq<char>, pat: Seq<char>) -> Option<int> {
    find_from(s, pat, 0)
}

/// The rightmost position at or before `i` at which `pat` stands in `s`.
pub open spec fn rfind_from(s: Seq<char>, pat: Seq<char>, i: int) -> Option<int>
    decreases i + 1,
{
    if i < 0 {
        None
    } else if occurs_at(s, pat, i) {
        Some(i)
    } else {
        rfind_from(s, pat, i - 1)
    }
}

/// The rightmost position at which `pat` stands in `s`.
pub open spec fn rfind(s: Seq<char>, pat: Seq<char>) -> Option<int> {
    rfind_from(s, pat, s.len() as int)
}

pub open spec fn contains(s: Seq<char>, pat: Seq<char>) -> bool {
    find(s, pat) is Some
}

/// `find_from` finds an occurrence if there is one, and the leftmost.
pub proof fn lemma_find_from(s: Seq<char>, pat: Seq<char>, i: int)
    requires
        0 <= i,
    ensures
        match find_from(s, pat, i) {
            Some(k) => i <= k && occurs_at(s, pat, k) && (forall|j: int|
                i <= j < k ==> !occurs_at(s, pat, j)),
            None => forall|j: int| i <= j ==> !occurs_at(s, pat, j),
        },
    decreases s.len() + 1 - i,
{
    if i + pat.len() <= s.len() && !occurs_at(s, pat, i) {
        lemma_find_from(s, pat, i + 1);
    }
}

/// `rfind_from` finds an occurrence if there is one, and the rightmost.
pub proof fn lemma_rfind_from(s: Seq<char>, pat: Seq<char>, i: int)
    ensures
        match rfind_from(s, pat, i) {
            Some(k) => k <= i && occurs_at(s, pat, k) && (forall|j: int|
                k < j <= i ==> !occurs_at(s, pat, j)),
            None => forall|j: int| j <= i ==> !occurs_at(s, pat, j),
        },
    decreases i + 1,
{
    if i >= 0 && !occurs_at(s, pat, i) {
        lemma_rfind_from(s, pat, i - 1);
    }
}

/// Whether `pat` stands in `s` at position `i`.
pub fn match_at(s: &[char], pat: &[char], i: usize) -> (r: bool)
    ensures
        r == occurs_at(s@, pat@, i as int),
{
    if i > s.len() || pat.len() > s.len() - i {
        return false;
    }
    let n: usize = s.len();
    let mut j: usize = 0;
    while j < pat.len()
        invariant
            j <= pat@.len(),
            i + pat@.len() <= n == s@.len(),
            forall|k: int| 0 <= k < j ==> s@[i + k] == pat@[k],
        decreases pat.len() - j,
    {
        if s[i + j] != pat[j] {
            proof {
                assert(s@.subrange(i as int, i + pat@.len())[j as int] != pat@[j as int]);
            }
            return false;
        }
        j = j + 1;
    }
    proof {
        assert(s@.subrange(i as int, i + pat@.len()) =~= pat@);
    }
    true
}

/// The leftmost position from `from` on at which `pat` stands in `s`.
pub fn find_chars(s: &[char], pat: &[char], from: usize) -> (r: Option<usize>)
    ensures
        match r {
            Some(k) => find_from(s@, pat@, from as int) == Some(k as int),
            None => find_from(s@, pat@, from as int) is None,
        },
{
    let mut i: usize = from;
    while i <= s.len() && pat.len() <= s.len() - i
        invariant
            from <= i,
            from <= s@.len() ==> i <= s@.len() + 1,
            find_from(s@, pat@, from as int) == find_from(s@, pat@, i as int),
        decreases s.len() + 1 - i,
    {
        if match_at(s, pat, i) {
            return Some(i);
        }
        if i == s.len() {
            proof {
                assert(find_from(s@, pat@, i + 1) is None);
            }
            return None;
        }
        i = i + 1;
    }
    None
}

/// The rightmost position at which `pat` stands in `s`.
pub fn rfind_chars(s: &[char], pat: &[char]) -> (r: Option<usize>)
    ensures
        match r {
            Some(k) => rfind(s@, pat@) == Some(k as int),
            None => rfind(s@, pat@) is None,
        },
{
    let mut i: usize = s.len();
    loop
        invariant
            i <= s@.len(),
            rfind(s@, pat@) == rfind_from(s@, pat@, i as int),
        decreases i,
    {
        if match_at(s, pat, i) {
            return Some(i);
        }
        if i == 0 {
            proof {
                assert(rfind_from(s@, pat@, -1) is None);
            }
            return None;
        }
        i = i - 1;
    }
}

/// The leftmost position of `c` in `s`.
pub fn find_char(s: &[char], c: char) -> (r: Option<usize>)
    ensures
        match r {
            Some(k) => find(s@, seq![c]) == Some(k as int) && k < s@.len(),
            None => find(s@, seq![c]) is None,
        },
{
    let pat: Vec<char> = vec![c];
    proof {
        assert(pat@ =~= seq![c]);
        lemma_find_from(s@, pat@, 0);
    }
    find_chars(s, &pat, 0)
}

/// Whether `pat` stands somewhere in `s`.
pub fn str_contains(s: &str, pat: &str) -> (r: bool)
    ensures
        r == contains(s@, pat@),
{
    let a = chars_of(s);
    let b = chars_of(pat);
    find_chars(&a, &b, 0).is_some()
}

pub open spec fn starts_with(s: Seq<char>, pat: Seq<char>) -> bool {
    pat.len() <= s.len() && s.take(pat.len() as int) == pat
}

/// What follows the prefix `pat` of `s`.
pub open spec fn strip_prefix(s: Seq<char>, pat: Seq<char>) -> Option<Seq<char>> {
    if starts_with(s, pat) {
        Some(s.skip(pat.len() as int))
    } else {
        None
    }
}

pub fn str_starts_with(s: &str, pat: &str) -> (r: bool)
    ensures
        r == starts_with(s@, pat@),
{
    let a = chars_of(s);
    let b = chars_of(pat);
    proof {
        if b@.len() <= a@.len() {
            assert(a@.subrange(0, b@.len() as int) =~= a@.take(b@.len() as int));
        }
    }
    match_at(&a, &b, 0)
}

/// What follows the prefix `pat` of `s`.
pub fn str_strip_prefix(s: &str, pat: &str) -> (r: Option<String>)
    ensures
        opt_string(r) == strip_prefix(s@, pat@),
{
    if str_starts_with(s, pat) {
        let a = chars_of(s);
        let b = chars_of(pat);
        proof {
            assert(a@.subrange(b@.len() as int, a@.len() as int) =~= a@.skip(b@.len() as int));
        }
        Some(string_of_range(&a, b.len(), a.len()))
    } else {
        None
    }
}

// ---- trimming ----

/// `s` without its leading white space.
pub open spec fn trim_start(s: Seq<char>) -> Seq<char>
    decreases s.len(),
{
    if s.len() > 0 && is_white(s[0]) {
        trim_start(s.drop_first())
    } else {
        s
    }
}

/// `s` without its trailing white space.
pub open spec fn trim_end(s: Seq<char>) -> Seq<char>
    decreases s.len(),
{
    if s.len() > 0 && is_white(s.last()) {
        trim_end(s.drop_last())
    } else {
        s
    }
}

/// `s` without its leading and trailing white space.
pub open spec fn trim(s: Seq<char>) -> Seq<char> {
    trim_end(trim_start(s))
}

/// How many leading characters of `s` are white space.
fn leading_white(s: &[char]) -> (k: usize)
    ensures
        k <= s@.len(),
        trim_start(s@) == s@.skip(k as int),
{
    let mut k: usize = 0;
    proof {
        assert(s@.skip(0) =~= s@);
    }
    while k < s.len() && white(s[k])
        invariant
            k <= s@.len(),
            trim_start(s@) == trim_start(s@.skip(k as int)),
        decreases s.len() - k,
    {
        proof {
            assert(s@.skip(k as int).drop_first() =~= s@.skip(k + 1));
        }
        k = k + 1;
    }
    k
}

/// The end of `s[from..]` without its trailing white space.
fn trimmed_end(s: &[char], from: usize) -> (e: usize)
    requires
        from <= s@.len(),
    ensures
        from <= e <= s@.len(),
        trim_end(s@.skip(from as int)) == s@.subrange(from as int, e as int),
{
    let mut e: usize = s.len();
    proof {
        assert(s@.skip(from as int) =~= s@.subrange(from as int, e as int));
    }
    while e > from && white(s[e - 1])
        invariant
            from <= e <= s@.len(),
            trim_end(s@.skip(from as int)) == trim_end(s@.subrange(from as int, e as int)),
        decreases e,
    {
        proof {
            assert(s@.subrange(from as int, e as int).drop_last() =~= s@.subrange(
                from as int,
                e - 1,
            ));
        }
        e = e - 1;
    }
    e
}

/// `s` without its leading and trailing white space.
pub fn str_trim(s: &str) -> (r: String)
    ensures
        r@ == trim(s@),
{
    let a = chars_of(s);
    let k = leading_white(&a);
    let e = trimmed_end(&a, k);
    string_of_range(&a, k, e)
}

/// `s` without its leading white space.
pub fn str_trim_start(s: &str) -> (r: String)
    ensures
        r@ == trim_start(s@),
{
    let a = chars_of(s);
    let k = leading_white(&a);
    proof {
        assert(a@.subrange(k as int, a@.len() as int) =~= a@.skip(k as int));
    }
    string_of_range(&a, k, a.len())
}

/// `s` without the trailing characters equal to `c`.
pub open spec fn trim_end_char(s: Seq<char>, c: char) -> Seq<char>
    decreases s.len(),
{
    if s.len() > 0 && s.last() == c {
        trim_end_char(s.drop_last(), c)
    } else {
        s
    }
}

/// `s` without the leading characters equal to `c`.
pub open spec fn trim_start_char(s: Seq<char>, c: char) -> Seq<char>
    decreases s.len(),
{
    if s.len() > 0 && s[0] == c {
        trim_start_char(s.drop_first(), c)
    } else {
        s
    }
}

/// `s` without the prefix `pat`, however often it is repeated; an empty `pat`
/// changes nothing.
pub open spec fn strip_repeated(s: Seq<char>, pat: Seq<char>) -> Seq<char>
    decreases s.len(),
{
    if pat.len() > 0 && starts_with(s, pat) {
        strip_repeated(s.skip(pat.len() as int), pat)
    } else {
        s
    }
}

/// `s` without the prefix `pat`, however often it is repeated; an empty `pat`
/// changes nothing.
pub fn str_strip_repeated(s: &str, pat: &str) -> (r: String)
    ensures
        r@ == strip_repeated(s@, pat@),
{
    let a = chars_of(s);
    let p = chars_of(pat);
    let n: usize = a.len();
    let mut k: usize = 0;
    proof {
        assert(a@.skip(0) =~= a@);
    }
    while p.len() > 0 && match_at(&a, &p, k)
        invariant
            k <= n == a@.len(),
            strip_repeated(a@, p@) == strip_repeated(a@.skip(k as int), p@),
        decreases n - k,
    {
        proof {
            assert(a@.skip(k as int).take(p@.len() as int) =~= a@.subrange(k as int, k + p@.len()));
            assert(a@.skip(k as int).skip(p@.len() as int) =~= a@.skip(k + p@.len()));
        }
        k = k + p.len();
    }
    proof {
        let rest = a@.skip(k as int);
        if p@.len() > 0 && starts_with(rest, p@) {
            assert(rest.take(p@.len() as int) =~= a@.subrange(k as int, k + p@.len()));
        }
        assert(a@.subrange(k as int, n as int) =~= rest);
    }
    string_of_range(&a, k, n)
}

/// `s` without the trailing characters equal to `c`.
pub fn str_trim_end_char(s: &str, c: char) -> (r: String)
    ensures
        r@ == trim_end_char(s@, c),
{
    let a = chars_of(s);
    let mut e: usize = a.len();
    proof {
        assert(a@.take(e as int) =~= a@);
    }
    while e > 0 && a[e - 1] == c
        invariant
            e <= a@.len(),
            trim_end_char(a@, c) == trim_end_char(a@.take(e as int), c),
        decreases e,
    {
        proof {
            assert(a@.take(e as int).drop_last() =~= a@.take(e - 1));
        }
        e = e - 1;
    }
    proof {
        assert(a@.subrange(0, e as int) =~= a@.take(e as int));
    }
    string_of_range(&a, 0, e)
}

/// `s` without the leading characters equal to `c`.
pub fn str_trim_start_char(s: &str, c: char) -> (r: String)
    ensures
        r@ == trim_start_char(s@, c),
{
    let a = chars_of(s);
    let mut k: usize = 0;
    proof {
        assert(a@.skip(0) =~= a@);
    }
    while k < a.len() && a[k] == c
        invariant
            k <= a@.len(),
            trim_start_char(a@, c) == trim_start_char(a@.skip(k as int), c),
        decreases a.len() - k,
    {
        proof {
            assert(a@.skip(k as int).drop_first() =~= a@.skip(k + 1));
        }
        k = k + 1;
    }
    proof {
        assert(a@.subrange(k as int, a@.len() as int) =~= a@.skip(k as int));
    }
    string_of_range(&a, k, a.len())
}

// ---- joining ----

/// The parts one after the other, `sep` between them.
pub open spec fn join(parts: Seq<Seq<char>>, sep: Seq<char>) -> Seq<char>
    decreases parts.len(),
{
    if parts.len() == 0 {
        Seq::empty()
    } else if parts.len() == 1 {
        parts[0]
    } else {
        join(parts.drop_last(), sep) + sep + parts.last()
    }
}

/// The parts one after the other, `sep` between them.
pub fn join_strings(parts: &Vec<String>, sep: &str) -> (r: String)
    ensures
        r@ == join(texts(parts@), sep@),
{
    if parts.len() == 0 {
        return String::new();
    }
    let mut r = parts[0].clone();
    let mut i: usize = 1;
    while i < parts.len()
        invariant
            1 <= i <= parts.len(),
            r@ == join(texts(parts@).take(i as int), sep@),
        decreases parts.len() - i,
    {
        r.append(sep);
        r.append(parts[i].as_str());
        proof {
            assert(texts(parts@).take(i + 1).drop_last() =~= texts(parts@).take(i as int));
        }
        i = i + 1;
    }
    proof {
        assert(texts(parts@).take(parts@.len() as int) =~= texts(parts@));
    }
    r
}

// ---- words ----

/// The leading run of characters of `s` that are no white space.
pub open spec fn head_word(s: Seq<char>) -> Seq<char>
    decreases s.len(),
{
    if s.len() == 0 || is_white(s[0]) {
        Seq::empty()
    } else {
        seq![s[0]] + head_word(s.drop_first())
    }
}

/// The first word of `s`, empty where it has none.
pub open spec fn first_word(s: Seq<char>) -> Seq<char> {
    head_word(trim_start(s))
}

/// The first word of `s`, empty where it has none.
pub fn str_first_word(s: &str) -> (r: String)
    ensures
        r@ == first_word(s@),
{
    let a = chars_of(s);
    let k = leading_white(&a);
    let mut r = String::new();
    let mut i: usize = k;
    while i < a.len() && !white(a[i])
        invariant
            k <= i <= a@.len(),
            head_word(a@.skip(k as int)) == r@ + head_word(a@.skip(i as int)),
        decreases a.len() - i,
    {
        let ghost before = r@;
        r.push(a[i]);
        proof {
            assert(a@.skip(i as int).drop_first() =~= a@.skip(i + 1));
            assert(before + (seq![a@[i as int]] + head_word(a@.skip(i + 1))) =~= before.push(
                a@[i as int],
            ) + head_word(a@.skip(i + 1)));
        }
        i = i + 1;
    }
    proof {
        assert(r@ + Seq::<char>::empty() =~= r@);
    }
    r
}

/// The part of `s` before the first `c`, all of it where there is none.
pub open spec fn before_char(s: Seq<char>, c: char) -> Seq<char> {
    match find(s, seq![c]) {
        Some(i) => s.take(i),
        None => s,
    }
}

/// The part of `s` before the first `c`, all of it where there is none.
pub fn str_before_char(s: &str, c: char) -> (r: String)
    ensures
        r@ == before_char(s@, c),
{
    let a = chars_of(s);
    match find_char(&a, c) {
        Some(i) => {
            proof {
                assert(a@.subrange(0, i as int) =~= a@.take(i as int));
            }
            string_of_range(&a, 0, i)
        },
        None => s.to_owned(),
    }
}

// ---- numbers ----

/// The decimal digit of `d < 10`.
pub open spec fn digit_char(d: int) -> char {
    (d + 48) as char
}

/// The decimal notation of a natural number.
pub open spec fn nat_text(n: nat) -> Seq<char>
    decreases n,
{
    if n < 10 {
        seq![digit_char(n as int)]
    } else {
        nat_text(n / 10).push(digit_char((n % 10) as int))
    }
}

/// The decimal notation of an integer.
pub open spec fn int_text(n: int) -> Seq<char> {
    if n < 0 {
        seq!['-'] + nat_text((-n) as nat)
    } else {
        nat_text(n as nat)
    }
}

/// The decimal notation of `n`.
pub fn u64_text(n: u64) -> (r: String)
    ensures
        r@ == nat_text(n as nat),
    decreases n,
{
    if n < 10 {
        let mut r = String::new();
        let d: u8 = 48 + n as u8;
        r.push(d as char);
        proof {
            assert(r@ =~= seq![digit_char(n as int)]);
        }
        r
    } else {
        let mut r = u64_text(n / 10);
        let d: u8 = 48 + (n % 10) as u8;
        r.push(d as char);
        r
    }
}

/// The decimal notation of `n`.
pub fn i64_text(n: i64) -> (r: String)
    ensures
        r@ == int_text(n as int),
{
    if n < 0 {
        let m: u64 = ((-(n + 1)) as u64) + 1;
        let t = u64_text(m);
        let r = cat2("-", t.as_str());
        proof {
            reveal_strlit("-");
            assert("-"@ =~= seq!['-']);
        }
        r
    } else {
        u64_text(n as u64)
    }
}

pub open spec fn is_digit(c: char) -> bool {
    '0' <= c && c <= '9'
}

pub open spec fn all_digits(s: Seq<char>) -> bool {
    forall|i: int| 0 <= i < s.len() ==> is_digit(#[trigger] s[i])
}

/// The number that a run of decimal digits denotes.
pub open spec fn digits_value(s: Seq<char>) -> nat
    decreases s.len(),
{
    if s.len() == 0 {
        0
    } else {
        (digits_value(s.drop_last()) * 10 + (s.last() as int - 48)) as nat
    }
}

/// The integer that a text denotes: an optional sign, then at least one
/// decimal digit and nothing else.
pub open spec fn int_of_text(s: Seq<char>) -> Option<int> {
    let body = if s.len() > 0 && (s[0] == '-' || s[0] == '+') {
        s.drop_first()
    } else {
        s
    };
    if body.len() == 0 || !all_digits(body) {
        None
    } else if s[0] == '-' {
        Some(-(digits_value(body) as int))
    } else {
        Some(digits_value(body) as int)
    }
}

/// The integer that the text denotes, where it fits in 64 bits.
pub fn parse_i64(s: &str) -> (r: Option<i64>)
    ensures
        match r {
            Some(n) => int_of_text(s@) == Some(n as int),
            None => match int_of_text(s@) {
                Some(n) => n < i64::MIN || n > i64::MAX,
                None => true,
            },
        },
{
    let a = chars_of(s);
    let signed: bool = a.len() > 0 && (a[0] == '-' || a[0] == '+');
    let start: usize = if signed {
        1
    } else {
        0
    };
    let ghost body = if signed {
        a@.drop_first()
    } else {
        a@
    };
    proof {
        assert(body =~= a@.skip(start as int));
    }
    if start == a.len() {
        return None;
    }
    let negative: bool = a[0] == '-';
    let mut value: u64 = 0;
    let mut over: bool = false;
    let mut i: usize = start;
    proof {
        assert(body.take(0) =~= Seq::<char>::empty());
    }
    while i < a.len()
        invariant
            start <= i <= a@.len(),
            start <= 1,
            body == a@.skip(start as int),
            a@ == s@,
            body == (if s@[0] == '-' || s@[0] == '+' {
                s@.drop_first()
            } else {
                s@
            }),
            all_digits(body.take(i - start)),
            over ==> digits_value(body.take(i - start)) > 0x8000_0000_0000_0000,
            !over ==> value == digits_value(body.take(i - start)) && value
                <= 0x8000_0000_0000_0000,
        decreases a.len() - i,
    {
        let c = a[i];
        proof {
            assert(body[i - start] == c);
        }
        if c < '0' || c > '9' {
            proof {
                assert(!is_digit(body[i - start]));
            }
            return None;
        }
        let d: u64 = c as u64 - 48;
        proof {
            let k = i - start;
            assert(body.take(k + 1).drop_last() =~= body.take(k));
            assert(body.take(k + 1).last() == c);
            assert forall|j: int| 0 <= j < k + 1 implies is_digit(#[trigger] body.take(k + 1)[j]) by {
                if j < k {
                    assert(body.take(k)[j] == body[j]);
                }
            }
        }
        if !over {
            if value > 922337203685477580 || (value == 922337203685477580 && d > 8) {
                over = true;
            } else {
                value = value * 10 + d;
            }
        }
        i = i + 1;
    }
    proof {
        assert(body.take(body.len() as int) =~= body);
    }
    if over {
        None
    } else if negative {
        if value == 0x8000_0000_0000_0000 {
            Some(i64::MIN)
        } else {
            Some(-(value as i64))
        }
    } else if value == 0x8000_0000_0000_0000 {
        None
    } else {
        Some(value as i64)
    }
}

// ---- replacing ----

/// `s` with every occurrence of `pat`, from the left and without overlap,
/// replaced by `rep`; an empty `pat` changes nothing.
pub open spec fn replace(s: Seq<char>, pat: Seq<char>, rep: Seq<char>) -> Seq<char>
    decreases s.len(),
{
    match find(s, pat) {
        Some(i) => if pat.len() > 0 && 0 <= i && i + pat.len() <= s.len() {
            s.take(i) + rep + replace(s.skip(i + pat.len()), pat, rep)
        } else {
            s
        },
        None => s,
    }
}

proof fn lemma_find_from_skip(s: Seq<char>, pat: Seq<char>, k: int, i: int)
    requires
        0 <= k <= s.len(),
        0 <= i,
    ensures
        match find_from(s.skip(k), pat, i) {
            Some(j) => find_from(s, pat, k + i) == Some(k + j),
            None => find_from(s, pat, k + i) is None,
        },
    decreases s.len() + 1 - k - i,
{
    let t = s.skip(k);
    if i + pat.len() <= t.len() {
        assert(t.subrange(i, i + pat.len()) =~= s.subrange(k + i, k + i + pat.len()));
        if !occurs_at(t, pat, i) {
            lemma_find_from_skip(s, pat, k, i + 1);
        }
    }
}

/// `s` with every occurrence of `pat`, from the left and without overlap,
/// replaced by `rep`; an empty `pat` changes nothing.
pub fn str_replace(s: &str, pat: &str, rep: &str) -> (r: String)
    ensures
        r@ == replace(s@, pat@, rep@),
{
    let a = chars_of(s);
    let p = chars_of(pat);
    if p.len() == 0 {
        return s.to_owned();
    }
    let mut out = String::new();
    let mut k: usize = 0;
    proof {
        assert(a@.skip(0) =~= a@);
        assert(out@ + replace(a@.skip(0), pat@, rep@) =~= replace(s@, pat@, rep@));
    }
    loop
        invariant
            k <= a@.len(),
            a@ == s@,
            p@ == pat@,
            p@.len() > 0,
            replace(s@, pat@, rep@) == out@ + replace(a@.skip(k as int), pat@, rep@),
        decreases a.len() - k,
    {
        proof {
            lemma_find_from_skip(a@, p@, k as int, 0);
            lemma_find_from(a@, p@, k as int);
        }
        match find_chars(&a, &p, k) {
            Some(i) => {
                let ghost rest = a@.skip(k as int);
                let piece = string_of_range(&a, k, i);
                let ghost before = out@;
                out.append(piece.as_str());
                out.append(rep);
                proof {
                    assert(rest.take(i - k) =~= piece@);
                    assert(rest.skip(i - k + p@.len()) =~= a@.skip(i + p@.len()));
                    assert(before + (rest.take(i - k) + rep@ + replace(
                        a@.skip(i + p@.len()),
                        pat@,
                        rep@,
                    )) =~= out@ + replace(a@.skip(i + p@.len()), pat@, rep@));
                }
                k = i + p.len();
            },
            None => {
                let piece = string_of_range(&a, k, a.len());
                out.append(piece.as_str());
                proof {
                    assert(a@.skip(k as int) =~= piece@);
                }
                return out;
            },
        }
    }
}

/// The natural number that a text denotes: an optional `+`, then at least one
/// decimal digit and nothing else.
pub open spec fn nat_of_text(s: Seq<char>) -> Option<nat> {
    let body = if s.len() > 0 && s[0] == '+' {
        s.drop_first()
    } else {
        s
    };
    if body.len() == 0 || !all_digits(body) {
        None
    } else {
        Some(digits_value(body))
    }
}

/// The natural number that the text denotes, where it is at most `max`.
pub open spec fn nat_at_most(s: Seq<char>, max: nat) -> Option<nat> {
    match nat_of_text(s) {
        Some(n) => if n <= max {
            Some(n)
        } else {
            None
        },
        None => None,
    }
}

/// The natural number that the text denotes, where it is at most `max`.
pub fn parse_nat(s: &str, max: u64) -> (r: Option<u64>)
    ensures
        match r {
            Some(n) => nat_at_most(s@, max as nat) == Some(n as nat),
            None => nat_at_most(s@, max as nat) is None,
        },
{
    let a = chars_of(s);
    let signed: bool = a.len() > 0 && a[0] == '+';
    let start: usize = if signed {
        1
    } else {
        0
    };
    let ghost body = if signed {
        a@.drop_first()
    } else {
        a@
    };
    proof {
        assert(body =~= a@.skip(start as int));
    }
    if start == a.len() {
        return None;
    }
    let mut value: u64 = 0;
    let mut over: bool = false;
    let mut i: usize = start;
    proof {
        assert(body.take(0) =~= Seq::<char>::empty());
    }
    while i < a.len()
        invariant
            start <= i <= a@.len(),
            start <= 1,
            body == a@.skip(start as int),
            a@ == s@,
            body == (if s@[0] == '+' {
                s@.drop_first()
            } else {
                s@
            }),
            all_digits(body.take(i - start)),
            over ==> digits_value(body.take(i - start)) > u64::MAX,
            !over ==> value == digits_value(body.take(i - start)),
        decreases a.len() - i,
    {
        let c = a[i];
        proof {
            assert(body[i - start] == c);
        }
        if c < '0' || c > '9' {
            proof {
                assert(!is_digit(body[i - start]));
            }
            return None;
        }
        let d: u64 = c as u64 - 48;
        proof {
            let k = i - start;
            assert(body.take(k + 1).drop_last() =~= body.take(k));
            assert(body.take(k + 1).last() == c);
            assert forall|j: int| 0 <= j < k + 1 implies is_digit(#[trigger] body.take(k + 1)[j]) by {
                if j < k {
                    assert(body.take(k)[j] == body[j]);
                }
            }
        }
        if !over {
            if value > 1844674407370955161 || (value == 1844674407370955161 && d > 5) {
                over = true;
            } else {
                value = value * 10 + d;
            }
        }
        i = i + 1;
    }
    proof {
        assert(body.take(body.len() as int) =~= body);
    }
    if over || value > max {
        None
    } else {
        Some(value)
    }
}

/// The length of the UTF-8 form of `s`.
pub fn byte_len(s: &str) -> (n: usize)
    ensures
        n == vstd::utf8::encode_utf8(s@).len(),
{
    s.as_bytes().len()
}

// ---- optional strings ----

/// The text of an optional string, empty where there is none.
pub open spec fn text_or_empty(o: Option<String>) -> Seq<char> {
    match o {
        Some(s) => s@,
        None => Seq::empty(),
    }
}

/// The text of an optional string, empty where there is none.
pub fn or_empty(o: &Option<String>) -> (r: String)
    ensures
        r@ == text_or_empty(*o),
{
    match o {
        Some(s) => s.clone(),
        None => String::new(),
    }
}

/// Whether an optional string is there and says `t`.
pub open spec fn says(o: Option<String>, t: Seq<char>) -> bool {
    o matches Some(s) && s@ == t
}

/// Whether an optional string is there and says `t`.
pub fn is_text(o: &Option<String>, t: &str) -> (r: bool)
    ensures
        r == says(*o, t@),
{
    match o {
        Some(s) => same_str(s.as_str(), t),
        None => false,
    }
}

// ---- lines ----

/// A line without the carriage return at its end.
pub open spec fn strip_cr(s: Seq<char>) -> Seq<char> {
    if s.len() > 0 && s.last() == '\r' {
        s.drop_last()
    } else {
        s
    }
}

/// The lines of a text: each ends at a line feed, with or without a carriage
/// return before it; what follows the last line feed is a line unless empty.
pub open spec fn lines(s: Seq<char>) -> Seq<Seq<char>>
    decreases s.len(),
{
    match find(s, seq!['\n']) {
        Some(p) => if 0 <= p < s.len() {
            seq![strip_cr(s.take(p))] + lines(s.skip(p + 1))
        } else {
            Seq::empty()
        },
        None => if s.len() == 0 {
            Seq::empty()
        } else {
            seq![s]
        },
    }
}

/// The lines of a text.
pub fn str_lines(s: &str) -> (r: Vec<String>)
    ensures
        texts(r@) == lines(s@),
{
    let a = chars_of(s);
    let n: usize = a.len();
    let mut out: Vec<String> = Vec::new();
    let mut at: usize = 0;
    proof {
        assert(a@.skip(0) =~= a@);
        assert(texts(out@) + lines(a@) =~= lines(a@));
    }
    loop
        invariant
            n == a@.len(),
            a@ == s@,
            at <= n,
            lines(s@) == texts(out@) + lines(a@.skip(at as int)),
        decreases n - at,
    {
        let ghost rest = a@.skip(at as int);
        let pat: Vec<char> = vec!['\n'];
        proof {
            assert(pat@ =~= seq!['\n']);
            lemma_find_in_rest(a@, pat@, at as int);
            lemma_find_from(a@, pat@, at as int);
        }
        match find_chars(&a, &pat, at) {
            Some(p) => {
                let mut e: usize = p;
                if e > at && a[e - 1] == '\r' {
                    e = e - 1;
                }
                let line = string_of_range(&a, at, e);
                proof {
                    assert(rest.take(p - at) =~= a@.subrange(at as int, p as int));
                    assert(line@ =~= strip_cr(rest.take(p - at)));
                    assert(rest.skip(p - at + 1) =~= a@.skip(p + 1));
                }
                let ghost before = texts(out@);
                out.push(line);
                at = p + 1;
                proof {
                    assert(texts(out@) =~= before.push(line@));
                    assert(before + (seq![line@] + lines(a@.skip(at as int))) =~= before.push(line@)
                        + lines(a@.skip(at as int)));
                }
            },
            None => {
                if at < n {
                    let line = string_of_range(&a, at, n);
                    let ghost before = texts(out@);
                    out.push(line);
                    proof {
                        assert(line@ =~= rest);
                        assert(texts(out@) =~= before + seq![rest]);
                    }
                } else {
                    proof {
                        assert(texts(out@) + Seq::<Seq<char>>::empty() =~= texts(out@));
                    }
                }
                return out;
            },
        }
    }
}

/// Looking for a pattern from a position on is looking for it in the rest.
pub proof fn lemma_find_in_rest(s: Seq<char>, pat: Seq<char>, at: int)
    requires
        0 <= at <= s.len(),
    ensures
        match find_from(s, pat, at) {
            Some(k) => find(s.skip(at), pat) == Some(k - at),
            None => find(s.skip(at), pat) is None,
        },
{
    lemma_find_from_in_rest(s, pat, at, 0);
}

proof fn lemma_find_from_in_rest(s: Seq<char>, pat: Seq<char>, at: int, i: int)
    requires
        0 <= at <= s.len(),
        0 <= i,
    ensures
        match find_from(s, pat, at + i) {
            Some(k) => find_from(s.skip(at), pat, i) == Some(k - at),
            None => find_from(s.skip(at), pat, i) is None,
        },
    decreases s.len() + 1 - at - i,
{
    if i + pat.len() <= s.len() - at {
        assert(s.skip(at).subrange(i, i + pat.len()) =~= s.subrange(at + i, at + i + pat.len()));
        lemma_find_from_in_rest(s, pat, at, i + 1);
    }
}

// ---- trimming several characters ----

pub open spec fn trim_start_any(s: Seq<char>, set: Seq<char>) -> Seq<char>
    decreases s.len(),
{
    if s.len() > 0 && set.contains(s[0]) {
        trim_start_any(s.drop_first(), set)
    } else {
        s
    }
}

pub open spec fn trim_end_any(s: Seq<char>, set: Seq<char>) -> Seq<char>
    decreases s.len(),
{
    if s.len() > 0 && set.contains(s.last()) {
        trim_end_any(s.drop_last(), set)
    } else {
        s
    }
}

/// The text without the characters of a set at its ends.
pub open spec fn trim_any(s: Seq<char>, set: Seq<char>) -> Seq<char> {
    trim_end_any(trim_start_any(s, set), set)
}

fn is_one_of(c: char, set: &[char]) -> (r: bool)
    ensures
        r == set@.contains(c),
{
    let mut i: usize = 0;
    while i < set.len()
        invariant
            i <= set@.len(),
            forall|j: int| 0 <= j < i ==> set@[j] != c,
        decreases set.len() - i,
    {
        if set[i] == c {
            proof {
                assert(set@[i as int] == c);
            }
            return true;
        }
        i = i + 1;
    }
    false
}

/// The text without the characters of a set at its ends.
pub fn str_trim_any(s: &str, set: &[char]) -> (r: String)
    ensures
        r@ == trim_any(s@, set@),
{
    let a = chars_of(s);
    let n: usize = a.len();
    let mut k: usize = 0;
    proof {
        assert(a@.skip(0) =~= a@);
    }
    while k < n && is_one_of(a[k], set)
        invariant
            n == a@.len(),
            k <= n,
            trim_start_any(a@, set@) == trim_start_any(a@.skip(k as int), set@),
        decreases n - k,
    {
        proof {
            assert(a@.skip(k as int).drop_first() =~= a@.skip(k + 1));
        }
        k = k + 1;
    }
    let mut e: usize = n;
    let ghost m = a@.skip(k as int);
    proof {
        assert(trim_start_any(a@, set@) == m);
        assert(a@.subrange(k as int, n as int) =~= m);
    }
    while e > k && is_one_of(a[e - 1], set)
        invariant
            n == a@.len(),
            k <= e <= n,
            m == a@.subrange(k as int, n as int),
            trim_end_any(m, set@) == trim_end_any(a@.subrange(k as int, e as int), set@),
        decreases e,
    {
        proof {
            let cur = a@.subrange(k as int, e as int);
            assert(cur.last() == a@[e - 1]);
            assert(cur.drop_last() =~= a@.subrange(k as int, e - 1));
        }
        e = e - 1;
    }
    proof {
        if e > k {
            assert(a@.subrange(k as int, e as int).last() == a@[e - 1]);
        }
    }
    string_of_range(&a, k, e)
}

} // verus!
