//! Markdown text helpers: lines, comment dedenting, headings, and tag escaping.

use crate::options::EscapeTags;
use crate::text::{
    chars_of, extend, is_whitespace, is_ws, join_chars, join_with, push_char, slice_vec,
    split_chars, split_on, starts_with, string_of, trim, trim_chars, trim_start,
};
use vstd::prelude::*;

verus! {

/// `l` without one trailing carriage return.
pub open spec fn strip_cr(l: Seq<char>) -> Seq<char> {
    if l.len() > 0 && l.last() == '\r' {
        l.drop_last()
    } else {
        l
    }
}

/// Pieces of `s` between newlines, with no final empty piece (like `str::lines`, minus
/// the carriage returns).
pub open spec fn lines_of(s: Seq<char>) -> Seq<Seq<char>> {
    let ps = split_on(s, '\n');
    let ps2 = if ps.len() > 0 && ps.last().len() == 0 {
        ps.drop_last()
    } else {
        ps
    };
    ps2.map_values(|l: Seq<char>| strip_cr(l))
}

/// The lines of `s` (`str::lines`).
pub fn lines(s: &Vec<char>) -> (r: Vec<Vec<char>>)
    ensures
        r@.map_values(|x: Vec<char>| x@) == lines_of(s@),
{
    let mut ps = split_chars(s, '\n');
    let ghost pv = ps@.map_values(|x: Vec<char>| x@);
    proof {
        crate::text::lemma_split_on_nonempty(s@, '\n');
    }
    if ps.len() > 0 && ps[ps.len() - 1].len() == 0 {
        assert(ps@[ps.len() - 1]@ == pv.last());
        ps.pop();
        assert(ps@.map_values(|x: Vec<char>| x@) =~= pv.drop_last());
    } else {
        assert(ps.len() > 0 ==> ps@[ps.len() - 1]@ == pv.last());
    }
    let ghost p2 = ps@.map_values(|x: Vec<char>| x@);
    let mut r: Vec<Vec<char>> = Vec::new();
    let mut i: usize = 0;
    while i < ps.len()
        invariant
            i <= ps.len(),
            p2 == ps@.map_values(|x: Vec<char>| x@),
            r@.map_values(|x: Vec<char>| x@) == p2.take(i as int).map_values(|l: Seq<char>| strip_cr(l)),
        decreases ps.len() - i,
    {
        let l = &ps[i];
        let ghost before = r@.map_values(|x: Vec<char>| x@);
        if l.len() > 0 && l[l.len() - 1] == '\r' {
            r.push(slice_vec(l, 0, l.len() - 1));
        } else {
            r.push(slice_vec(l, 0, l.len()));
        }
        i = i + 1;
        assert(r@.map_values(|x: Vec<char>| x@) =~= p2.take(i as int).map_values(|l: Seq<char>| strip_cr(l))) by {
            assert(l@ == p2[i - 1]);
            assert(l@.subrange(0, l@.len() as int) =~= l@);
            assert(r@.map_values(|x: Vec<char>| x@) =~= before.push(strip_cr(p2[i - 1])));
        }
    }
    assert(p2.take(ps.len() as int) =~= p2);
    r
}

/// Number of leading whitespace characters of `l`.
pub open spec fn indent_of(l: Seq<char>) -> nat {
    (l.len() - trim_start(l).len()) as nat
}

/// Smallest indent among non-blank lines (`0` when all are blank).
pub open spec fn min_indent(ls: Seq<Seq<char>>) -> nat
    decreases ls.len(),
{
    if ls.len() == 0 {
        0
    } else {
        let rest = min_indent(ls.drop_last());
        let l = ls.last();
        if trim(l).len() == 0 {
            rest
        } else if all_blank(ls.drop_last()) || indent_of(l) < rest {
            indent_of(l)
        } else {
            rest
        }
    }
}

/// Every line is blank.
pub open spec fn all_blank(ls: Seq<Seq<char>>) -> bool {
    forall|i: int| 0 <= i < ls.len() ==> trim(#[trigger] ls[i]).len() == 0
}

/// One dedented comment line.
pub open spec fn dedent_line(l: Seq<char>, n: nat) -> Seq<char> {
    if trim(l).len() == 0 {
        Seq::<char>::empty()
    } else {
        let s = if n <= l.len() {
            l.skip(n as int)
        } else {
            Seq::<char>::empty()
        };
        if s.len() > 0 && s[0] == ' ' {
            s.drop_first()
        } else {
            s
        }
    }
}

/// Block comment without its common indent (one extra leading space also dropped).
pub open spec fn dedent_spec(comment: Seq<char>) -> Seq<char> {
    let ls = lines_of(trim(comment));
    let n = min_indent(ls);
    join_with(ls.map_values(|l: Seq<char>| dedent_line(l, n)), seq!['\n'])
}

proof fn lemma_trim_start_len(s: Seq<char>)
    ensures
        trim_start(s).len() <= s.len(),
        trim_start(s) == s.skip(s.len() - trim_start(s).len()),
    decreases s.len(),
{
    if s.len() > 0 && is_ws(s[0]) {
        lemma_trim_start_len(s.drop_first());
        assert(s.drop_first().skip(s.drop_first().len() - trim_start(s.drop_first()).len())
            =~= s.skip(s.len() - trim_start(s).len()));
    } else {
        assert(s.skip(0) =~= s);
    }
}

fn leading_ws(l: &Vec<char>) -> (n: usize)
    ensures
        n as nat == indent_of(l@),
        n <= l.len(),
{
    let mut n: usize = 0;
    while n < l.len() && is_whitespace(l[n])
        invariant
            n <= l.len(),
            forall|j: int| 0 <= j < n ==> is_ws(l@[j]),
        decreases l.len() - n,
    {
        n = n + 1;
    }
    proof {
        crate::text::lemma_trim_start_skip_pub(l@, n as int);
    }
    n
}

/// Strip a common leading indent from block comments.
pub fn dedent_comment(comment: &str) -> (r: Vec<char>)
    ensures
        r@ == dedent_spec(comment@),
{
    let t = trim_chars(&chars_of(comment));
    let ls = lines(&t);
    let ghost lv = ls@.map_values(|x: Vec<char>| x@);
    let mut n: usize = 0;
    let mut i: usize = 0;
    while i < ls.len()
        invariant
            i <= ls.len(),
            lv == ls@.map_values(|x: Vec<char>| x@),
            n as nat == min_indent(lv.take(i as int)),
            all_blank(lv.take(i as int)) ==> n == 0,
        decreases ls.len() - i,
    {
        let l = &ls[i];
        assert(lv[i as int] == l@);
        assert(lv.take(i + 1).drop_last() =~= lv.take(i as int));
        let blank = trim_chars(l).len() == 0;
        let ghost was_blank = all_blank(lv.take(i as int));
        if !blank {
            let k = leading_ws(l);
            if was_blank_exec(&ls, i) || k < n {
                n = k;
            }
        }
        i = i + 1;
        assert(all_blank(lv.take(i as int)) ==> all_blank(lv.take(i - 1))) by {
            if all_blank(lv.take(i as int)) {
                assert forall|j: int| 0 <= j < i - 1 implies trim(#[trigger] lv.take(i - 1)[j]).len() == 0 by {
                    assert(lv.take(i - 1)[j] == lv.take(i as int)[j]);
                }
            }
        }
        assert(all_blank(lv.take(i as int)) ==> trim(lv[i - 1]).len() == 0) by {
            if all_blank(lv.take(i as int)) {
                assert(lv.take(i as int)[i - 1] == lv[i - 1]);
            }
        }
    }
    assert(lv.take(ls.len() as int) =~= lv);
    let mut out: Vec<Vec<char>> = Vec::new();
    let mut j: usize = 0;
    while j < ls.len()
        invariant
            j <= ls.len(),
            lv == ls@.map_values(|x: Vec<char>| x@),
            n as nat == min_indent(lv),
            out@.map_values(|x: Vec<char>| x@) == lv.take(j as int).map_values(
                |l: Seq<char>| dedent_line(l, n as nat),
            ),
        decreases ls.len() - j,
    {
        let l = &ls[j];
        assert(lv[j as int] == l@);
        let ghost before = out@.map_values(|x: Vec<char>| x@);
        let line = if trim_chars(l).len() == 0 {
            Vec::new()
        } else {
            let s = if n <= l.len() {
                slice_vec(l, n, l.len())
            } else {
                Vec::new()
            };
            assert(n <= l.len() ==> s@ =~= l@.skip(n as int));
            if s.len() > 0 && s[0] == ' ' {
                let d = slice_vec(&s, 1, s.len());
                assert(d@ =~= s@.drop_first());
                d
            } else {
                s
            }
        };
        assert(line@ =~= dedent_line(l@, n as nat));
        out.push(line);
        j = j + 1;
        assert(out@.map_values(|x: Vec<char>| x@) =~= lv.take(j as int).map_values(
            |l: Seq<char>| dedent_line(l, n as nat),
        )) by {
            assert(out@.map_values(|x: Vec<char>| x@) =~= before.push(dedent_line(lv[j - 1], n as nat)));
        }
    }
    assert(lv.take(ls.len() as int) =~= lv);
    let mut sep: Vec<char> = Vec::new();
    sep.push('\n');
    assert(sep@ =~= seq!['\n']);
    join_chars(&out, &sep)
}

fn was_blank_exec(ls: &Vec<Vec<char>>, i: usize) -> (r: bool)
    requires
        i <= ls.len(),
    ensures
        r == all_blank(ls@.map_values(|x: Vec<char>| x@).take(i as int)),
{
    let ghost lv = ls@.map_values(|x: Vec<char>| x@).take(i as int);
    let mut j: usize = 0;
    while j < i
        invariant
            j <= i <= ls.len(),
            lv == ls@.map_values(|x: Vec<char>| x@).take(i as int),
            forall|k: int| 0 <= k < j ==> trim(#[trigger] lv[k]).len() == 0,
        decreases i - j,
    {
        assert(lv[j as int] == ls@[j as int]@);
        if trim_chars(&ls[j]).len() > 0 {
            return false;
        }
        j = j + 1;
    }
    true
}

/// Markdown ATX heading with `level` hashes, followed by a blank line.
pub open spec fn md_heading_spec(level: nat, text: Seq<char>) -> Seq<char> {
    Seq::new(level, |_i: int| '#') + seq![' '] + text + seq!['\n', '\n']
}

/// Markdown ATX heading with `level` hashes, followed by a blank line.
pub fn md_heading(level: usize, text: &str) -> (r: String)
    ensures
        r@ == md_heading_spec(level as nat, text@),
{
    let mut s = String::new();
    let mut i: usize = 0;
    while i < level
        invariant
            i <= level,
            s@ == Seq::new(i as nat, |_i: int| '#'),
        decreases level - i,
    {
        push_char(&mut s, '#');
        i = i + 1;
        assert(s@ =~= Seq::new(i as nat, |_i: int| '#'));
    }
    push_char(&mut s, ' ');
    s.append(text);
    push_char(&mut s, '\n');
    push_char(&mut s, '\n');
    assert(s@ =~= md_heading_spec(level as nat, text@));
    s
}

/// Appends a blank line.
pub fn push_paragraph_break(out: &mut String)
    ensures
        final(out)@ == old(out)@ + seq!['\n', '\n'],
{
    push_char(out, '\n');
    push_char(out, '\n');
    assert(out@ =~= old(out)@ + seq!['\n', '\n']);
}

/// `//` comment lines for field and enum-value docs inside a fence.
pub open spec fn inline_comment_spec(ls: Seq<Seq<char>>) -> Seq<char>
    decreases ls.len(),
{
    if ls.len() == 0 {
        Seq::<char>::empty()
    } else {
        inline_comment_spec(ls.drop_last()) + seq!['/', '/', ' '] + ls.last() + seq!['\n']
    }
}

/// Appends `// {line}` for each line of `comment`.
pub fn push_inline_comment_lines(out: &mut String, comment: &str)
    ensures
        final(out)@ == old(out)@ + inline_comment_spec(lines_of(comment@)),
{
    let ls = lines(&chars_of(comment));
    let ghost lv = ls@.map_values(|x: Vec<char>| x@);
    let mut i: usize = 0;
    while i < ls.len()
        invariant
            i <= ls.len(),
            lv == ls@.map_values(|x: Vec<char>| x@),
            out@ == old(out)@ + inline_comment_spec(lv.take(i as int)),
        decreases ls.len() - i,
    {
        push_char(out, '/');
        push_char(out, '/');
        push_char(out, ' ');
        crate::text::append_chars(out, &ls[i]);
        push_char(out, '\n');
        assert(lv.take(i + 1).drop_last() =~= lv.take(i as int));
        assert(lv[i as int] == ls@[i as int]@);
        i = i + 1;
        assert(out@ =~= old(out)@ + inline_comment_spec(lv.take(i as int)));
    }
    assert(lv.take(ls.len() as int) =~= lv);
}

/// Characters allowed inside an HTML-like tag token.
pub open spec fn tag_char(c: char) -> bool {
    ('a' <= c && c <= 'z') || ('A' <= c && c <= 'Z') || ('0' <= c && c <= '9') || c == '_' || c
        == '-' || c == '.' || c == ':' || c == '/'
}

/// Length of the run of tag characters at the front of `s`.
pub open spec fn tag_run(s: Seq<char>) -> nat
    decreases s.len(),
{
    if s.len() > 0 && tag_char(s[0]) {
        1 + tag_run(s.drop_first())
    } else {
        0
    }
}

/// Length of the `<name>` token at the front of `s` (`0` when there is none).
pub open spec fn tag_len(s: Seq<char>) -> nat {
    let n = tag_run(s.drop_first());
    if s.len() >= 3 && s[0] == '<' && n >= 1 && 1 + n < s.len() && s[1 + n as int] == '>' {
        n + 2
    } else {
        0
    }
}

/// An escaped tag token.
pub open spec fn escaped_tag(tok: Seq<char>, mode: EscapeTags) -> Seq<char> {
    match mode {
        EscapeTags::Entities => "&lt;"@ + tok.subrange(1, tok.len() - 1) + "&gt;"@,
        _ => seq!['`'] + tok + seq!['`'],
    }
}

/// A prose line with tag tokens outside inline code spans escaped.
pub open spec fn escape_line(s: Seq<char>, mode: EscapeTags, in_code: bool) -> Seq<char>
    decreases s.len(),
{
    if s.len() == 0 {
        Seq::<char>::empty()
    } else if s[0] == '`' {
        seq!['`'] + escape_line(s.drop_first(), mode, !in_code)
    } else if !in_code && tag_len(s) > 0 {
        escaped_tag(s.take(tag_len(s) as int), mode) + escape_line(
            s.skip(tag_len(s) as int),
            mode,
            in_code,
        )
    } else {
        seq![s[0]] + escape_line(s.drop_first(), mode, in_code)
    }
}

/// Whether a line opens or closes a fenced code block.
pub open spec fn is_fence_line(l: Seq<char>) -> bool {
    starts_with(trim_start(l), seq!['`', '`', '`'])
}

/// Lines of prose escaped outside fenced code blocks; `in_fence` is the state after
/// the lines before these.
pub open spec fn escape_lines(ls: Seq<Seq<char>>, mode: EscapeTags, in_fence: bool) -> Seq<Seq<char>>
    decreases ls.len(),
{
    if ls.len() == 0 {
        Seq::<Seq<char>>::empty()
    } else {
        let l = ls[0];
        if is_fence_line(l) {
            seq![l] + escape_lines(ls.drop_first(), mode, !in_fence)
        } else if in_fence {
            seq![l] + escape_lines(ls.drop_first(), mode, in_fence)
        } else {
            seq![escape_line(l, mode, false)] + escape_lines(ls.drop_first(), mode, in_fence)
        }
    }
}

/// Entity and RPC docs as Markdown: verbatim, or with `<tag>` tokens escaped.
pub open spec fn format_doc_spec(text: Seq<char>, mode: EscapeTags) -> Seq<char> {
    match mode {
        EscapeTags::Off => text,
        _ => join_with(escape_lines(split_on(text, '\n'), mode, false), seq!['\n']),
    }
}

fn tag_len_at(s: &Vec<char>, i: usize) -> (n: usize)
    requires
        i <= s.len(),
    ensures
        n as nat == tag_len(s@.skip(i as int)),
{
    let ghost t = s@.skip(i as int);
    if i >= s.len() || s[i] != '<' {
        return 0;
    }
    let mut k: usize = i + 1;
    while k < s.len() && is_tag_char(s[k])
        invariant
            i + 1 <= k <= s.len(),
            forall|j: int| i + 1 <= j < k ==> tag_char(s@[j]),
        decreases s.len() - k,
    {
        k = k + 1;
    }
    proof {
        lemma_tag_run(s@.skip(i + 1), (k - i - 1) as nat);
        assert(t.drop_first() =~= s@.skip(i + 1));
    }
    let n = k - i - 1;
    if n >= 1 && k < s.len() && s[k] == '>' && s.len() - i >= 3 {
        assert(t[1 + n as int] == s@[k as int]);
        n + 2
    } else {
        assert(k < s.len() ==> t[1 + n as int] == s@[k as int]);
        0
    }
}

proof fn lemma_tag_run(s: Seq<char>, n: nat)
    requires
        n <= s.len(),
        forall|j: int| 0 <= j < n ==> tag_char(s[j]),
        n == s.len() || !tag_char(s[n as int]),
    ensures
        tag_run(s) == n,
    decreases n,
{
    if n > 0 {
        let t = s.drop_first();
        assert forall|j: int| 0 <= j < n - 1 implies tag_char(t[j]) by {
            assert(t[j] == s[j + 1]);
        }
        if n - 1 < t.len() {
            assert(t[n - 1] == s[n as int]);
        }
        lemma_tag_run(t, (n - 1) as nat);
    }
}

fn is_tag_char(c: char) -> (r: bool)
    ensures
        r == tag_char(c),
{
    ('a' <= c && c <= 'z') || ('A' <= c && c <= 'Z') || ('0' <= c && c <= '9') || c == '_' || c
        == '-' || c == '.' || c == ':' || c == '/'
}

fn escaped_tag_exec(tok: &Vec<char>, mode: EscapeTags) -> (r: Vec<char>)
    requires
        tok.len() >= 2,
    ensures
        r@ == escaped_tag(tok@, mode),
{
    let mut out: Vec<char> = Vec::new();
    match mode {
        EscapeTags::Entities => {
            out.push('&');
            out.push('l');
            out.push('t');
            out.push(';');
            let inner = slice_vec(tok, 1, tok.len() - 1);
            extend(&mut out, &inner);
            out.push('&');
            out.push('g');
            out.push('t');
            out.push(';');
            proof {
                reveal_strlit("&lt;");
                reveal_strlit("&gt;");
            }
            assert(out@ =~= escaped_tag(tok@, mode));
        },
        _ => {
            out.push('`');
            extend(&mut out, tok);
            out.push('`');
            assert(out@ =~= escaped_tag(tok@, mode));
        },
    }
    out
}

proof fn lemma_escape_step(s: Seq<char>, i: int, mode: EscapeTags, in_code: bool, n: nat)
    requires
        0 <= i < s.len(),
        n == (if s[i] == '`' || in_code { 0 } else { tag_len(s.skip(i)) }),
    ensures
        s[i] == '`' ==> escape_line(s.skip(i), mode, in_code) == seq!['`'] + escape_line(
            s.skip(i + 1),
            mode,
            !in_code,
        ),
        s[i] != '`' && n > 0 ==> i + n <= s.len() && escape_line(s.skip(i), mode, in_code)
            == escaped_tag(s.subrange(i, i + n), mode) + escape_line(s.skip(i + n), mode, in_code),
        s[i] != '`' && n == 0 ==> escape_line(s.skip(i), mode, in_code) == seq![s[i]]
            + escape_line(s.skip(i + 1), mode, in_code),
{
    let rest = s.skip(i);
    assert(rest[0] == s[i]);
    assert(rest.drop_first() =~= s.skip(i + 1));
    if s[i] != '`' && n > 0 {
        assert(rest.take(n as int) =~= s.subrange(i, i + n));
        assert(rest.skip(n as int) =~= s.skip(i + n));
    }
}

fn escape_line_exec(s: &Vec<char>, mode: EscapeTags) -> (r: Vec<char>)
    ensures
        r@ == escape_line(s@, mode, false),
{
    let mut out: Vec<char> = Vec::new();
    let mut i: usize = 0;
    let mut in_code = false;
    assert(s@.skip(0) =~= s@);
    while i < s.len()
        invariant
            i <= s.len(),
            out@ + escape_line(s@.skip(i as int), mode, in_code) == escape_line(s@, mode, false),
        decreases s.len() - i,
    {
        let ghost before = out@;
        let ghost c0 = in_code;
        let tick = s[i] == '`';
        let n = if tick || in_code {
            0
        } else {
            tag_len_at(s, i)
        };
        proof {
            lemma_escape_step(s@, i as int, mode, in_code, n as nat);
        }
        if tick {
            out.push('`');
            in_code = !in_code;
            i = i + 1;
            assert(out@ + escape_line(s@.skip(i as int), mode, in_code) =~= before + (seq!['`']
                + escape_line(s@.skip(i as int), mode, !c0)));
        } else if n > 0 {
            let tok = slice_vec(s, i, i + n);
            let piece = escaped_tag_exec(&tok, mode);
            extend(&mut out, &piece);
            i = i + n;
            assert(out@ + escape_line(s@.skip(i as int), mode, in_code) =~= before + (piece@
                + escape_line(s@.skip(i as int), mode, in_code)));
        } else {
            out.push(s[i]);
            i = i + 1;
            assert(out@ + escape_line(s@.skip(i as int), mode, in_code) =~= before + (seq![
                s@[i - 1],
            ] + escape_line(s@.skip(i as int), mode, in_code)));
        }
    }
    assert(escape_line(s@.skip(i as int), mode, in_code) == Seq::<char>::empty());
    assert(out@ =~= escape_line(s@, mode, false));
    out
}

/// Entity and RPC docs as Markdown: verbatim by default, or with HTML-like `<tag>`
/// tokens in prose (outside code spans and fences) turned into code or entities.
pub fn format_markdown_doc(text: &Vec<char>, mode: EscapeTags) -> (r: Vec<char>)
    ensures
        r@ == format_doc_spec(text@, mode),
{
    if mode == EscapeTags::Off {
        return crate::text::copy_chars(text);
    }
    let ls = split_chars(text, '\n');
    let ghost lv = ls@.map_values(|x: Vec<char>| x@);
    let mut out: Vec<Vec<char>> = Vec::new();
    let mut in_fence = false;
    let mut i: usize = 0;
    let fence: Vec<char> = chars_of("```");
    proof {
        reveal_strlit("```");
        assert(fence@ =~= seq!['`', '`', '`']);
        assert(lv.skip(0) =~= lv);
        assert(out@.map_values(|x: Vec<char>| x@) =~= Seq::<Seq<char>>::empty());
    }
    while i < ls.len()
        invariant
            i <= ls.len(),
            lv == ls@.map_values(|x: Vec<char>| x@),
            fence@ == seq!['`', '`', '`'],
            mode != EscapeTags::Off,
            out@.map_values(|x: Vec<char>| x@) + escape_lines(lv.skip(i as int), mode, in_fence)
                == escape_lines(lv, mode, false),
        decreases ls.len() - i,
    {
        let l = &ls[i];
        let ghost rest = lv.skip(i as int);
        assert(rest[0] == l@);
        assert(rest.drop_first() =~= lv.skip(i + 1));
        let ghost before = out@.map_values(|x: Vec<char>| x@);
        let ts = trim_start_chars(l);
        if crate::text::starts_with_exec(&ts, &fence) {
            out.push(crate::text::copy_chars(l));
            in_fence = !in_fence;
        } else if in_fence {
            out.push(crate::text::copy_chars(l));
        } else {
            out.push(escape_line_exec(l, mode));
        }
        i = i + 1;
        assert(out@.map_values(|x: Vec<char>| x@) + escape_lines(lv.skip(i as int), mode, in_fence)
            =~= escape_lines(lv, mode, false)) by {
            assert(out@.map_values(|x: Vec<char>| x@) =~= before.push(out@[out.len() - 1]@));
        }
    }
    assert(lv.skip(ls.len() as int) =~= Seq::<Seq<char>>::empty());
    assert(out@.map_values(|x: Vec<char>| x@) =~= escape_lines(lv, mode, false));
    let mut sep: Vec<char> = Vec::new();
    sep.push('\n');
    assert(sep@ =~= seq!['\n']);
    join_chars(&out, &sep)
}

fn trim_start_chars(l: &Vec<char>) -> (r: Vec<char>)
    ensures
        r@ == trim_start(l@),
{
    let mut a: usize = 0;
    while a < l.len() && is_whitespace(l[a])
        invariant
            a <= l.len(),
            forall|j: int| 0 <= j < a ==> is_ws(l@[j]),
        decreases l.len() - a,
    {
        a = a + 1;
    }
    proof {
        crate::text::lemma_trim_start_skip_pub(l@, a as int);
    }
    let r = slice_vec(l, a, l.len());
    assert(r@ =~= l@.skip(a as int));
    r
}

/// Entity / RPC docs: dedented, formatted, then a blank line.
pub open spec fn markdown_doc_spec(comment: Seq<char>, mode: EscapeTags) -> Seq<char> {
    format_doc_spec(dedent_spec(comment), mode) + seq!['\n', '\n']
}

/// Appends an entity or RPC doc comment as Markdown prose.
pub fn push_markdown_doc(out: &mut String, comment: &str, mode: EscapeTags)
    ensures
        final(out)@ == old(out)@ + markdown_doc_spec(comment@, mode),
{
    let d = dedent_comment(comment);
    let f = format_markdown_doc(&d, mode);
    crate::text::append_chars(out, &f);
    push_char(out, '\n');
    push_char(out, '\n');
    assert(out@ =~= old(out)@ + markdown_doc_spec(comment@, mode));
}

/// Whether the lines before line `i` of `ls` leave a fenced code block open, starting
/// from `in_fence`.
pub open spec fn inside_fence(ls: Seq<Seq<char>>, i: int, in_fence: bool) -> bool
    decreases i,
{
    if i <= 0 || ls.len() == 0 {
        in_fence
    } else {
        inside_fence(
            ls.drop_first(),
            i - 1,
            if is_fence_line(ls[0]) {
                !in_fence
            } else {
                in_fence
            },
        )
    }
}

proof fn lemma_concat_lacks(a: Seq<char>, b: Seq<char>, c: char)
    requires
        !a.contains(c),
        !b.contains(c),
    ensures
        !(a + b).contains(c),
{
    if (a + b).contains(c) {
        let k = choose|k: int| 0 <= k < (a + b).len() && (a + b)[k] == c;
        if k < a.len() {
            assert(a[k] == c);
        } else {
            assert(b[k - a.len()] == c);
        }
    }
}

proof fn lemma_sub_lacks(s: Seq<char>, a: int, b: int, c: char)
    requires
        !s.contains(c),
        0 <= a <= b <= s.len(),
    ensures
        !s.subrange(a, b).contains(c),
{
    let t = s.subrange(a, b);
    if t.contains(c) {
        let j = choose|j: int| 0 <= j < t.len() && t[j] == c;
        assert(s[a + j] == c);
    }
}

proof fn lemma_escape_line_one_line(s: Seq<char>, mode: EscapeTags, in_code: bool)
    requires
        !s.contains('\n'),
    ensures
        !escape_line(s, mode, in_code).contains('\n'),
    decreases s.len(),
{
    if s.len() > 0 {
        lemma_sub_lacks(s, 1, s.len() as int, '\n');
        assert(s.drop_first() =~= s.subrange(1, s.len() as int));
        if s[0] == '`' {
            lemma_escape_line_one_line(s.drop_first(), mode, !in_code);
            assert(!seq!['`'].contains('\n')) by {
                if seq!['`'].contains('\n') {
                    assert(seq!['`'][0] == '`');
                }
            }
            lemma_concat_lacks(seq!['`'], escape_line(s.drop_first(), mode, !in_code), '\n');
        } else if !in_code && tag_len(s) > 0 {
            let n = tag_len(s) as int;
            let tok = s.take(n);
            let rest = s.skip(n);
            lemma_sub_lacks(s, n, s.len() as int, '\n');
            assert(rest =~= s.subrange(n, s.len() as int));
            lemma_escape_line_one_line(rest, mode, in_code);
            lemma_sub_lacks(s, 0, n, '\n');
            assert(tok =~= s.subrange(0, n));
            let e = escaped_tag(tok, mode);
            assert(!e.contains('\n')) by {
                let tick = seq!['`'];
                assert(!tick.contains('\n')) by {
                    if tick.contains('\n') {
                        assert(tick[0] == '`');
                    }
                }
                match mode {
                    EscapeTags::Entities => {
                        reveal_strlit("&lt;");
                        reveal_strlit("&gt;");
                        let mid = tok.subrange(1, tok.len() - 1);
                        lemma_sub_lacks(tok, 1, tok.len() - 1, '\n');
                        let lt = "&lt;"@;
                        let gt = "&gt;"@;
                        assert(!lt.contains('\n')) by {
                            if lt.contains('\n') {
                                let k = choose|k: int| 0 <= k < lt.len() && lt[k] == '\n';
                                assert(lt =~= seq!['&', 'l', 't', ';']);
                            }
                        }
                        assert(!gt.contains('\n')) by {
                            if gt.contains('\n') {
                                let k = choose|k: int| 0 <= k < gt.len() && gt[k] == '\n';
                                assert(gt =~= seq!['&', 'g', 't', ';']);
                            }
                        }
                        lemma_concat_lacks(lt, mid, '\n');
                        lemma_concat_lacks(lt + mid, gt, '\n');
                    },
                    _ => {
                        lemma_concat_lacks(tick, tok, '\n');
                        lemma_concat_lacks(tick + tok, tick, '\n');
                    },
                }
            }
            lemma_concat_lacks(e, escape_line(rest, mode, in_code), '\n');
        } else {
            lemma_escape_line_one_line(s.drop_first(), mode, in_code);
            assert(!seq![s[0]].contains('\n')) by {
                if seq![s[0]].contains('\n') {
                    assert(seq![s[0]][0] == s[0]);
                }
            }
            lemma_concat_lacks(seq![s[0]], escape_line(s.drop_first(), mode, in_code), '\n');
        }
    }
}

proof fn lemma_escape_lines_keep_fences(ls: Seq<Seq<char>>, mode: EscapeTags, in_fence: bool)
    requires
        forall|i: int| 0 <= i < ls.len() ==> !(#[trigger] ls[i]).contains('\n'),
    ensures
        escape_lines(ls, mode, in_fence).len() == ls.len(),
        forall|i: int|
            0 <= i < ls.len() ==> !(#[trigger] escape_lines(ls, mode, in_fence)[i]).contains('\n'),
        forall|i: int|
            0 <= i < ls.len() && (is_fence_line(ls[i]) || inside_fence(ls, i, in_fence))
                ==> #[trigger] escape_lines(ls, mode, in_fence)[i] == ls[i],
    decreases ls.len(),
{
    if ls.len() > 0 {
        let l = ls[0];
        let next = if is_fence_line(l) {
            !in_fence
        } else {
            in_fence
        };
        let rest = ls.drop_first();
        assert forall|i: int| 0 <= i < rest.len() implies !(#[trigger] rest[i]).contains('\n') by {
            assert(rest[i] == ls[i + 1]);
        }
        lemma_escape_lines_keep_fences(rest, mode, next);
        let tail = escape_lines(rest, mode, next);
        let head = if is_fence_line(l) || in_fence {
            l
        } else {
            escape_line(l, mode, false)
        };
        assert(escape_lines(ls, mode, in_fence) == seq![head] + tail);
        if !(is_fence_line(l) || in_fence) {
            lemma_escape_line_one_line(l, mode, false);
        }
        assert forall|i: int| 0 <= i < ls.len() implies !(#[trigger] escape_lines(
            ls,
            mode,
            in_fence,
        )[i]).contains('\n') by {
            if i > 0 {
                assert(escape_lines(ls, mode, in_fence)[i] == tail[i - 1]);
            }
        }
        assert forall|i: int|
            0 <= i < ls.len() && (is_fence_line(ls[i]) || inside_fence(ls, i, in_fence))
                implies #[trigger] escape_lines(ls, mode, in_fence)[i] == ls[i] by {
            if i > 0 {
                assert(escape_lines(ls, mode, in_fence)[i] == tail[i - 1]);
                assert(rest[i - 1] == ls[i]);
                assert(inside_fence(ls, i, in_fence) == inside_fence(rest, i - 1, next));
            }
        }
    }
}

/// Fenced code blocks in a doc comment (a Mermaid diagram, say) reach the Markdown
/// unchanged: whatever the tag-escaping mode, the formatted doc has as many lines as the
/// comment, and each fence line, and each line inside a fenced block, is the same line.
pub proof fn law_fenced_blocks_pass_through(text: Seq<char>, mode: EscapeTags)
    ensures
        split_on(format_doc_spec(text, mode), '\n').len() == split_on(text, '\n').len(),
        forall|i: int|
            0 <= i < split_on(text, '\n').len() && (is_fence_line(split_on(text, '\n')[i])
                || inside_fence(split_on(text, '\n'), i, false)) ==> #[trigger] split_on(
                format_doc_spec(text, mode),
                '\n',
            )[i] == split_on(text, '\n')[i],
{
    if mode != EscapeTags::Off {
        let ls = split_on(text, '\n');
        crate::text::lemma_split_on_pieces(text, '\n');
        crate::text::lemma_split_on_nonempty(text, '\n');
        lemma_escape_lines_keep_fences(ls, mode, false);
        crate::text::lemma_split_join(escape_lines(ls, mode, false), '\n');
    }
}

} // verus!
