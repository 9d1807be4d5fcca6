//! Turning Markdown into the markup of a channel: code is put aside, the rest
//! is rewritten step by step, and the code is put back.
use vstd::prelude::*;
use crate::pattern::{
    opt_texts, regex_first_groups, regex_groups, regex_pieces, regex_replace, regex_replaced,
    regex_split,
};
use crate::text::{
    cat3, chars_of, nat_text, opt_string, replace, str_replace, texts, u64_text,
};

verus! {

/// Code blocks fenced by three backticks, and the text inside.
pub const CODE_BLOCK: &'static str = "(?s)```[\\w]*\\n?(.*?)```";

/// Code between single backticks, and the text inside.
pub const INLINE_CODE: &'static str = "`([^`]+)`";

/// Headings of one to six `#`.
pub const HEADING: &'static str = "(?m)^#{1,6}\\s+(.+)$";

/// Quoted lines.
pub const BLOCKQUOTE: &'static str = "(?m)^>\\s*(.*)$";

/// Links, their text and their target.
pub const LINK: &'static str = "\\[([^\\]]+)\\]\\(([^)]+)\\)";

/// Bold text between double stars.
pub const BOLD_STAR: &'static str = "\\*\\*(.+?)\\*\\*";

/// Bold text between double underscores.
pub const BOLD_UNDER: &'static str = "__(.+?)__";

/// Italic text between single underscores that stand outside words.
pub const ITALIC: &'static str = "(^|[^a-zA-Z0-9])_([^_\\n]+)_((?:[^a-zA-Z0-9])|$)";

/// Text struck through.
pub const STRIKE: &'static str = "~~(.+?)~~";

/// The marker of an unordered list item.
pub const LIST_ITEM: &'static str = "(?m)^[-*]\\s+";

/// The mark that stands for piece `i` of code put aside under `tag`.
pub open spec fn placeholder(tag: Seq<char>, i: nat) -> Seq<char> {
    seq!['\0'] + tag + nat_text(i) + seq!['\0']
}

/// The pieces with the marks for pieces `0`, `1`, ... of code between them.
pub open spec fn with_placeholders(pieces: Seq<Seq<char>>, tag: Seq<char>) -> Seq<char>
    decreases pieces.len(),
{
    if pieces.len() == 0 {
        Seq::empty()
    } else if pieces.len() == 1 {
        pieces[0]
    } else {
        with_placeholders(pieces.drop_last(), tag) + placeholder(tag, (pieces.len() - 2) as nat)
            + pieces.last()
    }
}

/// The text with the code that `pattern` finds replaced by marks.
pub open spec fn set_aside(text: Seq<char>, pattern: Seq<char>, tag: Seq<char>) -> Seq<char> {
    match regex_pieces(pattern, text) {
        Some(pieces) => with_placeholders(pieces, tag),
        None => text,
    }
}

/// The code that `pattern` finds in the text.
pub open spec fn code_of(text: Seq<char>, pattern: Seq<char>) -> Seq<Seq<char>> {
    match regex_groups(pattern, text) {
        Some(groups) => Seq::new(
            groups.len(),
            |i: int|
                match groups[i] {
                    Some(g) => g,
                    None => Seq::empty(),
                },
        ),
        None => Seq::empty(),
    }
}

/// One step of rewriting.
pub open spec fn rewritten(
    text: Seq<char>,
    pattern: Seq<char>,
    replacement: Seq<char>,
) -> Seq<char> {
    match regex_replaced(pattern, text, replacement) {
        Some(t) => t,
        None => text,
    }
}

/// The text with the marks of `tag` replaced by the code, each piece of code
/// set between `open` and `close`.
pub open spec fn put_back(
    text: Seq<char>,
    codes: Seq<Seq<char>>,
    tag: Seq<char>,
    open: Seq<char>,
    close: Seq<char>,
) -> Seq<char>
    decreases codes.len(),
{
    if codes.len() == 0 {
        text
    } else {
        replace(
            put_back(text, codes.drop_last(), tag, open, close),
            placeholder(tag, (codes.len() - 1) as nat),
            open + codes.last() + close,
        )
    }
}

/// The mark that stands for piece `i` of code put aside under `tag`.
fn placeholder_text(tag: &str, i: u64) -> (r: String)
    ensures
        r@ == placeholder(tag@, i as nat),
{
    let mut r = String::new();
    r.push('\0');
    r.append(tag);
    let n = u64_text(i);
    r.append(n.as_str());
    r.push('\0');
    proof {
        assert(r@ =~= placeholder(tag@, i as nat));
    }
    r
}

/// The pieces with the marks for pieces `0`, `1`, ... of code between them.
pub fn number_pieces(pieces: &Vec<String>, tag: &str) -> (r: String)
    ensures
        r@ == with_placeholders(texts(pieces@), tag@),
{
    if pieces.len() == 0 {
        return String::new();
    }
    let mut r = pieces[0].clone();
    let mut i: usize = 1;
    while i < pieces.len()
        invariant
            1 <= i <= pieces.len(),
            r@ == with_placeholders(texts(pieces@).take(i as int), tag@),
        decreases pieces.len() - i,
    {
        let mark = placeholder_text(tag, (i - 1) as u64);
        r.append(mark.as_str());
        r.append(pieces[i].as_str());
        proof {
            assert(texts(pieces@).take(i + 1).drop_last() =~= texts(pieces@).take(i as int));
        }
        i = i + 1;
    }
    proof {
        assert(texts(pieces@).take(pieces@.len() as int) =~= texts(pieces@));
    }
    r
}

/// The text with the code that `pattern` finds replaced by marks, and that
/// code.
pub fn protect_code(text: &str, pattern: &str, tag: &str) -> (r: (String, Vec<String>))
    ensures
        r.0@ == set_aside(text@, pattern@, tag@),
        texts(r.1@) == code_of(text@, pattern@),
{
    let marked = match regex_split(pattern, text) {
        Some(pieces) => number_pieces(&pieces, tag),
        None => text.to_owned(),
    };
    let mut codes: Vec<String> = Vec::new();
    match regex_first_groups(pattern, text) {
        Some(groups) => {
            let mut i: usize = 0;
            while i < groups.len()
                invariant
                    i <= groups.len(),
                    codes@.len() == i,
                    regex_groups(pattern@, text@) == Some(opt_texts(groups@)),
                    forall|k: int|
                        0 <= k < i ==> (#[trigger] codes@[k])@ == code_of(text@, pattern@)[k],
                decreases groups.len() - i,
            {
                let c = match &groups[i] {
                    Some(g) => g.clone(),
                    None => String::new(),
                };
                proof {
                    assert(opt_texts(groups@)[i as int] == opt_string(groups@[i as int]));
                }
                codes.push(c);
                i = i + 1;
            }
        },
        None => {},
    }
    proof {
        assert(texts(codes@) =~= code_of(text@, pattern@));
    }
    (marked, codes)
}

/// One step of rewriting.
pub fn rewrite(text: String, pattern: &str, replacement: &str) -> (r: String)
    ensures
        r@ == rewritten(text@, pattern@, replacement@),
{
    match regex_replace(pattern, text.as_str(), replacement) {
        Some(t) => t,
        None => text,
    }
}

/// The text with the marks of `tag` replaced by the code between `open` and
/// `close`.
pub fn restore_code(
    text: String,
    codes: &Vec<String>,
    tag: &str,
    open: &str,
    close: &str,
) -> (r: String)
    ensures
        r@ == put_back(text@, texts(codes@), tag@, open@, close@),
{
    let mut r = text;
    let mut i: usize = 0;
    proof {
        assert(texts(codes@).take(0) =~= Seq::<Seq<char>>::empty());
    }
    while i < codes.len()
        invariant
            i <= codes.len(),
            r@ == put_back(text@, texts(codes@).take(i as int), tag@, open@, close@),
        decreases codes.len() - i,
    {
        let mark = placeholder_text(tag, i as u64);
        let code = cat3(open, codes[i].as_str(), close);
        r = str_replace(r.as_str(), mark.as_str(), code.as_str());
        proof {
            assert(texts(codes@).take(i + 1).drop_last() =~= texts(codes@).take(i as int));
        }
        i = i + 1;
    }
    proof {
        assert(texts(codes@).take(codes@.len() as int) =~= texts(codes@));
    }
    r
}

/// A character in HTML text: `&`, `<` and `>` as entities.
pub open spec fn html_text_char(c: char) -> Seq<char> {
    if c == '&' {
        "&amp;"@
    } else if c == '<' {
        "&lt;"@
    } else if c == '>' {
        "&gt;"@
    } else {
        seq![c]
    }
}

/// HTML text: every `&`, `<` and `>` as an entity.
pub open spec fn html_text(s: Seq<char>) -> Seq<char>
    decreases s.len(),
{
    if s.len() == 0 {
        Seq::empty()
    } else {
        html_text(s.drop_last()) + html_text_char(s.last())
    }
}

/// A character in an HTML attribute or text: `"` as an entity too.
pub open spec fn html_char(c: char) -> Seq<char> {
    if c == '"' {
        "&quot;"@
    } else {
        html_text_char(c)
    }
}

/// `s` with every `&`, `<`, `>` and `"` as an entity.
pub open spec fn html_escaped(s: Seq<char>) -> Seq<char>
    decreases s.len(),
{
    if s.len() == 0 {
        Seq::empty()
    } else {
        html_escaped(s.drop_last()) + html_char(s.last())
    }
}

/// HTML text: every `&`, `<` and `>` as an entity.
pub fn escape_html_text(text: &str) -> (r: String)
    ensures
        r@ == html_text(text@),
{
    let a = chars_of(text);
    let mut r = String::new();
    let mut i: usize = 0;
    while i < a.len()
        invariant
            i <= a@.len(),
            r@ == html_text(a@.take(i as int)),
        decreases a.len() - i,
    {
        let c = a[i];
        let ghost before = r@;
        if c == '&' {
            r.append("&amp;");
        } else if c == '<' {
            r.append("&lt;");
        } else if c == '>' {
            r.append("&gt;");
        } else {
            r.push(c);
        }
        proof {
            assert(r@ =~= before + html_text_char(c));
            assert(a@.take(i + 1).drop_last() =~= a@.take(i as int));
        }
        i = i + 1;
    }
    proof {
        assert(a@.take(a@.len() as int) =~= a@);
    }
    r
}

/// `text` with every `&`, `<`, `>` and `"` as an entity.
pub fn html_escape(text: &str) -> (r: String)
    ensures
        r@ == html_escaped(text@),
{
    let a = chars_of(text);
    let mut r = String::new();
    let mut i: usize = 0;
    while i < a.len()
        invariant
            i <= a@.len(),
            r@ == html_escaped(a@.take(i as int)),
        decreases a.len() - i,
    {
        let c = a[i];
        let ghost before = r@;
        if c == '"' {
            r.append("&quot;");
        } else if c == '&' {
            r.append("&amp;");
        } else if c == '<' {
            r.append("&lt;");
        } else if c == '>' {
            r.append("&gt;");
        } else {
            r.push(c);
        }
        proof {
            assert(r@ =~= before + html_char(c));
            assert(a@.take(i + 1).drop_last() =~= a@.take(i as int));
        }
        i = i + 1;
    }
    proof {
        assert(a@.take(a@.len() as int) =~= a@);
    }
    r
}

/// Escaped text holds no `<`, no `>` and no `"`.
pub proof fn law_html_escape_leaves_no_markup(s: Seq<char>)
    ensures
        forall|i: int|
            0 <= i < html_escaped(s).len() ==> #[trigger] html_escaped(s)[i] != '<' && html_escaped(
                s,
            )[i] != '>' && html_escaped(s)[i] != '"',
    decreases s.len(),
{
    if s.len() > 0 {
        law_html_escape_leaves_no_markup(s.drop_last());
        reveal_strlit("&amp;");
        reveal_strlit("&lt;");
        reveal_strlit("&gt;");
        reveal_strlit("&quot;");
        let head = html_escaped(s.drop_last());
        let tail = html_char(s.last());
        assert forall|i: int| 0 <= i < html_escaped(s).len() implies #[trigger] html_escaped(s)[i]
            != '<' && html_escaped(s)[i] != '>' && html_escaped(s)[i] != '"' by {
            if i < head.len() {
                assert(html_escaped(s)[i] == head[i]);
            } else {
                assert(html_escaped(s)[i] == tail[i - head.len()]);
            }
        }
    }
}

/// Text without special characters is its own escaped form.
pub proof fn law_html_escape_keeps_plain_text(s: Seq<char>)
    requires
        forall|i: int|
            0 <= i < s.len() ==> #[trigger] s[i] != '<' && s[i] != '>' && s[i] != '"' && s[i]
                != '&',
    ensures
        html_escaped(s) == s,
    decreases s.len(),
{
    if s.len() > 0 {
        law_html_escape_keeps_plain_text(s.drop_last());
        assert(s.drop_last() + seq![s.last()] =~= s);
        assert(s[s.len() - 1] == s.last());
    } else {
        assert(html_escaped(s) =~= s);
    }
}

} // verus!
