//! Fenced code blocks for synthesized protobuf, with Protovalidate message-level CEL
//! rules moved into fences of their own.

use crate::markdown::{lines, lines_of, markdown_doc_spec, push_markdown_doc};
use crate::options::EscapeTags;
use crate::text::{
    append_chars, chars_of, ends_with, ends_with_exec, join_chars, join_with, push_char,
    rfind_char, last_index_of, slice_vec, split_chars, split_on, starts_with, starts_with_exec,
    string_of, trim_end, trim_start,
};
use vstd::prelude::*;

verus! {

/// `` ```{lang} `` fence around `body`, closed on a line of its own, then a blank line.
pub open spec fn fence_spec(lang: Seq<char>, body: Seq<char>) -> Seq<char> {
    "```"@ + lang + seq!['\n'] + body + (if body.len() > 0 && body.last() == '\n' {
        Seq::<char>::empty()
    } else {
        seq!['\n']
    }) + "```\n\n"@
}

fn push_fence(out: &mut String, lang: &str, body: &str)
    ensures
        final(out)@ == old(out)@ + fence_spec(lang@, body@),
{
    out.append("```");
    out.append(lang);
    push_char(out, '\n');
    out.append(body);
    let bv = chars_of(body);
    if !(bv.len() > 0 && bv[bv.len() - 1] == '\n') {
        push_char(out, '\n');
    }
    out.append("```\n\n");
    assert(out@ =~= old(out)@ + fence_spec(lang@, body@));
}

/// Appends a `protobuf` fence around `body`.
pub fn push_proto_fence_body(out: &mut String, body: &str)
    ensures
        final(out)@ == old(out)@ + fence_spec("protobuf"@, body@),
{
    push_fence(out, "protobuf", body);
}

/// Appends a `cel` fence around `body`.
pub fn push_cel_fence_body(out: &mut String, body: &str)
    ensures
        final(out)@ == old(out)@ + fence_spec("cel"@, body@),
{
    push_fence(out, "cel", body);
}

/// A line that opens a Protovalidate message-level CEL rule.
pub open spec fn is_cel_open(l: Seq<char>) -> bool {
    starts_with(trim_start(l), "option (buf.validate.message).cel"@)
}

/// A line that ends an option statement.
pub open spec fn is_cel_close(l: Seq<char>) -> bool {
    ends_with(trim_end(l), "};"@)
}

/// Lines kept in the protobuf body, CEL blocks closed so far, and the block still open
/// after the lines `ls`.
pub open spec fn cel_state(ls: Seq<Seq<char>>) -> (Seq<Seq<char>>, Seq<Seq<Seq<char>>>, Option<Seq<Seq<char>>>)
    decreases ls.len(),
{
    if ls.len() == 0 {
        (Seq::empty(), Seq::empty(), None)
    } else {
        let st = cel_state(ls.drop_last());
        let l = ls.last();
        match st.2 {
            Some(c) => if is_cel_close(l) {
                (st.0, st.1.push(c.push(l)), None)
            } else {
                (st.0, st.1, Some(c.push(l)))
            },
            None => if is_cel_open(l) {
                if is_cel_close(l) {
                    (st.0, st.1.push(seq![l]), None)
                } else {
                    (st.0, st.1, Some(seq![l]))
                }
            } else {
                (st.0.push(l), st.1, None)
            },
        }
    }
}

/// `body` without its CEL rule blocks, and the blocks in order (a block runs from the
/// opening line through the first line that ends the statement, or to the end).
pub open spec fn split_cel_spec(body: Seq<char>) -> (Seq<char>, Seq<Seq<char>>) {
    let st = cel_state(split_on(body, '\n'));
    let all = match st.2 {
        Some(c) => st.1.push(c),
        None => st.1,
    };
    (join_with(st.0, seq!['\n']), all.map_values(|b: Seq<Seq<char>>| join_with(b, seq!['\n'])))
}

fn trim_end_chars(l: &Vec<char>) -> (r: Vec<char>)
    ensures
        r@ == trim_end(l@),
{
    let mut b: usize = l.len();
    while b > 0 && crate::text::is_whitespace(l[b - 1])
        invariant
            b <= l.len(),
            forall|j: int| b <= j < l.len() ==> crate::text::is_ws(l@[j]),
        decreases b,
    {
        b = b - 1;
    }
    proof {
        lemma_trim_end_take(l@, b as int);
    }
    slice_vec(l, 0, b)
}

proof fn lemma_trim_end_take(s: Seq<char>, b: int)
    requires
        0 <= b <= s.len(),
        forall|j: int| b <= j < s.len() ==> crate::text::is_ws(s[j]),
        b == 0 || !crate::text::is_ws(s[b - 1]),
    ensures
        trim_end(s) == s.subrange(0, b),
    decreases s.len() - b,
{
    if b == s.len() {
        assert(s.subrange(0, b) =~= s);
    } else {
        let t = s.drop_last();
        assert forall|j: int| b <= j < t.len() implies crate::text::is_ws(t[j]) by {
            assert(t[j] == s[j]);
        }
        if b > 0 {
            assert(t[b - 1] == s[b - 1]);
        }
        lemma_trim_end_take(t, b);
        assert(t.subrange(0, b) =~= s.subrange(0, b));
    }
}

fn trim_start_vec(l: &Vec<char>) -> (r: Vec<char>)
    ensures
        r@ == trim_start(l@),
{
    let mut a: usize = 0;
    while a < l.len() && crate::text::is_whitespace(l[a])
        invariant
            a <= l.len(),
            forall|j: int| 0 <= j < a ==> crate::text::is_ws(l@[j]),
        decreases l.len() - a,
    {
        a = a + 1;
    }
    proof {
        crate::text::lemma_trim_start_skip_pub(l@, a as int);
    }
    let r = slice_vec(l, a, l.len());
    assert(r@ =~= l@.skip(a as int));
    r
}

fn is_cel_open_exec(l: &Vec<char>, marker: &Vec<char>) -> (r: bool)
    requires
        marker@ == "option (buf.validate.message).cel"@,
    ensures
        r == is_cel_open(l@),
{
    starts_with_exec(&trim_start_vec(l), marker)
}

fn is_cel_close_exec(l: &Vec<char>, close: &Vec<char>) -> (r: bool)
    requires
        close@ == "};"@,
    ensures
        r == is_cel_close(l@),
{
    ends_with_exec(&trim_end_chars(l), close)
}

/// Nested views of a list of line lists.
pub open spec fn blocks_view(b: Seq<Vec<Vec<char>>>) -> Seq<Seq<Seq<char>>> {
    b.map_values(|x: Vec<Vec<char>>| x@.map_values(|y: Vec<char>| y@))
}

/// Splits Protovalidate message-level CEL rule blocks out of a synthesized message
/// body: the body without them, and each block.
pub fn split_message_cel_blocks(body: &str) -> (r: (String, Vec<String>))
    ensures
        r.0@ == split_cel_spec(body@).0,
        r.1@.map_values(|s: String| s@) == split_cel_spec(body@).1,
{
    let ls = split_chars(&chars_of(body), '\n');
    let ghost lv = ls@.map_values(|x: Vec<char>| x@);
    let marker = chars_of("option (buf.validate.message).cel");
    let close = chars_of("};");
    let mut kept: Vec<Vec<char>> = Vec::new();
    let mut blocks: Vec<Vec<Vec<char>>> = Vec::new();
    let mut cur: Vec<Vec<char>> = Vec::new();
    let mut open = false;
    let mut i: usize = 0;
    while i < ls.len()
        invariant
            i <= ls.len(),
            lv == ls@.map_values(|x: Vec<char>| x@),
            marker@ == "option (buf.validate.message).cel"@,
            close@ == "};"@,
            cel_state(lv.take(i as int)).0 == kept@.map_values(|x: Vec<char>| x@),
            cel_state(lv.take(i as int)).1 == blocks_view(blocks@),
            cel_state(lv.take(i as int)).2 == (if open {
                Some(cur@.map_values(|x: Vec<char>| x@))
            } else {
                None
            }),
        decreases ls.len() - i,
    {
        let l = &ls[i];
        proof {
            assert(lv.take(i + 1).drop_last() =~= lv.take(i as int));
            assert(lv.take(i + 1).last() == l@);
        }
        let ghost kv = kept@.map_values(|x: Vec<char>| x@);
        let ghost bv = blocks_view(blocks@);
        let ghost cv = cur@.map_values(|x: Vec<char>| x@);
        let copy = slice_vec(l, 0, l.len());
        assert(copy@ =~= l@);
        if open {
            cur.push(copy);
            assert(cur@.map_values(|x: Vec<char>| x@) =~= cv.push(l@));
            if is_cel_close_exec(l, &close) {
                let done = cur;
                cur = Vec::new();
                blocks.push(done);
                open = false;
                assert(blocks_view(blocks@) =~= bv.push(cv.push(l@)));
            }
        } else if is_cel_open_exec(l, &marker) {
            cur = Vec::new();
            cur.push(copy);
            assert(cur@.map_values(|x: Vec<char>| x@) =~= seq![l@]);
            if is_cel_close_exec(l, &close) {
                let done = cur;
                cur = Vec::new();
                blocks.push(done);
                assert(blocks_view(blocks@) =~= bv.push(seq![l@]));
            } else {
                open = true;
            }
        } else {
            kept.push(copy);
            assert(kept@.map_values(|x: Vec<char>| x@) =~= kv.push(l@));
        }
        i = i + 1;
    }
    assert(lv.take(ls.len() as int) =~= lv);
    if open {
        let ghost bv = blocks_view(blocks@);
        let ghost cv = cur@.map_values(|x: Vec<char>| x@);
        blocks.push(cur);
        assert(blocks_view(blocks@) =~= bv.push(cv));
    }
    let mut sep: Vec<char> = Vec::new();
    sep.push('\n');
    assert(sep@ =~= seq!['\n']);
    let joined = string_of(&join_chars(&kept, &sep));
    let ghost all = blocks_view(blocks@);
    let mut out: Vec<String> = Vec::new();
    let mut j: usize = 0;
    while j < blocks.len()
        invariant
            j <= blocks.len(),
            all == blocks_view(blocks@),
            sep@ == seq!['\n'],
            out@.map_values(|s: String| s@) == all.take(j as int).map_values(
                |b: Seq<Seq<char>>| join_with(b, seq!['\n']),
            ),
        decreases blocks.len() - j,
    {
        let ghost before = out@.map_values(|s: String| s@);
        assert(all[j as int] == blocks@[j as int]@.map_values(|y: Vec<char>| y@));
        out.push(string_of(&join_chars(&blocks[j], &sep)));
        j = j + 1;
        assert(out@.map_values(|s: String| s@) =~= all.take(j as int).map_values(
            |b: Seq<Seq<char>>| join_with(b, seq!['\n']),
        )) by {
            assert(out@.map_values(|s: String| s@) =~= before.push(join_with(all[j - 1], seq!['\n'])));
        }
    }
    assert(all.take(blocks.len() as int) =~= all);
    (joined, out)
}

/// One `**Protovalidate (CEL)**` section per block.
pub open spec fn cel_sections(bs: Seq<Seq<char>>) -> Seq<char>
    decreases bs.len(),
{
    if bs.len() == 0 {
        Seq::<char>::empty()
    } else {
        cel_sections(bs.drop_last()) + "**Protovalidate (CEL)**\n\n"@ + fence_spec("cel"@, bs.last())
    }
}

/// `*`{file_name}`*` and a blank line; nothing for an empty name.
pub open spec fn file_caption(file_name: Seq<char>) -> Seq<char> {
    if file_name.len() == 0 {
        Seq::<char>::empty()
    } else {
        "*`"@ + file_name + "`*\n\n"@
    }
}

/// Appends the file caption.
pub fn push_file_caption(out: &mut String, file_name: &str)
    ensures
        final(out)@ == old(out)@ + file_caption(file_name@),
{
    if file_name.unicode_len() > 0 {
        out.append("*`");
        out.append(file_name);
        out.append("`*\n\n");
    }
    assert(out@ =~= old(out)@ + file_caption(file_name@));
}

/// Entity doc (as Markdown), file caption, the `protobuf` fence, then one `cel` fence
/// per Protovalidate message-level rule.
pub open spec fn render_fence_spec(
    file_name: Seq<char>,
    entity_doc: Option<Seq<char>>,
    body: Seq<char>,
    mode: EscapeTags,
) -> Seq<char> {
    let split = split_cel_spec(body);
    (match entity_doc {
        Some(c) => markdown_doc_spec(c, mode),
        None => Seq::<char>::empty(),
    }) + file_caption(file_name) + fence_spec("protobuf"@, split.0) + cel_sections(split.1)
}

/// Entity doc, file caption and `protobuf` fence (with CEL rules in fences of their own).
pub fn render_proto_fence(
    file_name: &str,
    entity_doc: &Option<String>,
    body: &str,
    escape_tags: EscapeTags,
) -> (r: String)
    ensures
        r@ == render_fence_spec(
            file_name@,
            match entity_doc {
                Some(s) => Some(s@),
                None => None,
            },
            body@,
            escape_tags,
        ),
{
    let mut out = String::new();
    match entity_doc {
        Some(c) => push_markdown_doc(&mut out, c.as_str(), escape_tags),
        None => {},
    }
    push_file_caption(&mut out, file_name);
    let (rest, blocks) = split_message_cel_blocks(body);
    push_proto_fence_body(&mut out, rest.as_str());
    let ghost bv = blocks@.map_values(|s: String| s@);
    let ghost base = out@;
    let mut i: usize = 0;
    while i < blocks.len()
        invariant
            i <= blocks.len(),
            bv == blocks@.map_values(|s: String| s@),
            out@ == base + cel_sections(bv.take(i as int)),
        decreases blocks.len() - i,
    {
        out.append("**Protovalidate (CEL)**\n\n");
        push_cel_fence_body(&mut out, blocks[i].as_str());
        assert(bv.take(i + 1).drop_last() =~= bv.take(i as int));
        assert(bv[i as int] == blocks@[i as int]@);
        i = i + 1;
        assert(out@ =~= base + cel_sections(bv.take(i as int)));
    }
    assert(bv.take(blocks.len() as int) =~= bv);
    out
}

/// Each line of `ls` behind `indent`, newline-terminated.
pub open spec fn indented_spec(ls: Seq<Seq<char>>, indent: Seq<char>) -> Seq<char>
    decreases ls.len(),
{
    if ls.len() == 0 {
        Seq::<char>::empty()
    } else {
        indented_spec(ls.drop_last(), indent) + indent + ls.last() + seq!['\n']
    }
}

/// Appends each line of `snippet` behind `indent`.
pub fn push_indented_lines(out: &mut String, snippet: &str, indent: &str)
    ensures
        final(out)@ == old(out)@ + indented_spec(lines_of(snippet@), indent@),
{
    let ls = lines(&chars_of(snippet));
    let ghost lv = ls@.map_values(|x: Vec<char>| x@);
    let mut i: usize = 0;
    while i < ls.len()
        invariant
            i <= ls.len(),
            lv == ls@.map_values(|x: Vec<char>| x@),
            out@ == old(out)@ + indented_spec(lv.take(i as int), indent@),
        decreases ls.len() - i,
    {
        out.append(indent);
        append_chars(out, &ls[i]);
        push_char(out, '\n');
        assert(lv.take(i + 1).drop_last() =~= lv.take(i as int));
        assert(lv[i as int] == ls@[i as int]@);
        i = i + 1;
        assert(out@ =~= old(out)@ + indented_spec(lv.take(i as int), indent@));
    }
    assert(lv.take(ls.len() as int) =~= lv);
}

/// Last `.`-separated segment of `fqn`.
pub open spec fn short_type_spec(fqn: Seq<char>) -> Seq<char> {
    fqn.skip(last_index_of(fqn, '.') + 1)
}

/// Last `.`-separated segment of `fqn`.
pub fn short_rpc_type(fqn: &str) -> (r: String)
    ensures
        r@ == short_type_spec(fqn@),
{
    let v = chars_of(fqn);
    let start = match rfind_char(&v, '.') {
        Some(j) => j + 1,
        None => 0,
    };
    let r = slice_vec(&v, start, v.len());
    assert(r@ =~= fqn@.skip(last_index_of(fqn@, '.') + 1));
    string_of(&r)
}

/// `s` without one leading `.`.
pub open spec fn strip_dot_spec(s: Seq<char>) -> Seq<char> {
    if s.len() > 0 && s[0] == '.' {
        s.drop_first()
    } else {
        s
    }
}

/// `s` without one leading `.`.
pub fn strip_leading_dot(s: &str) -> (r: String)
    ensures
        r@ == strip_dot_spec(s@),
{
    let v = chars_of(s);
    if v.len() > 0 && v[0] == '.' {
        let r = slice_vec(&v, 1, v.len());
        assert(r@ =~= s@.drop_first());
        string_of(&r)
    } else {
        string_of(&v)
    }
}

/// Number of lines in the blocks `bs`.
pub open spec fn block_lines(bs: Seq<Seq<Seq<char>>>) -> nat
    decreases bs.len(),
{
    if bs.len() == 0 {
        0
    } else {
        block_lines(bs.drop_last()) + bs.last().len()
    }
}

/// A complete rule block: it opens a message-level rule, and only its last line ends the
/// statement.
pub open spec fn closed_rule(b: Seq<Seq<char>>) -> bool {
    &&& b.len() >= 1
    &&& is_cel_open(b[0])
    &&& is_cel_close(b.last())
    &&& forall|j: int| 0 < j < b.len() - 1 ==> !is_cel_close(#[trigger] b[j])
}

/// A rule block still open at the end: it opens a message-level rule and no line of it
/// ends the statement.
pub open spec fn open_rule(b: Seq<Seq<char>>) -> bool {
    &&& b.len() >= 1
    &&& is_cel_open(b[0])
    &&& forall|j: int| 0 <= j < b.len() ==> !is_cel_close(#[trigger] b[j])
}

/// Splitting Protovalidate message-level rules out of a message body loses and repeats
/// no line: each line stays in the protobuf body or goes into exactly one rule block;
/// no line that opens a rule stays in the body; and each block is one whole rule, from
/// its opening line through the first line that ends the statement (the last block may
/// run to the end of the body when no line ends it).
pub proof fn law_cel_split_moves_whole_rules(ls: Seq<Seq<char>>)
    ensures
        cel_state(ls).0.len() + block_lines(cel_state(ls).1) + (match cel_state(ls).2 {
            Some(c) => c.len(),
            None => 0,
        }) == ls.len(),
        forall|i: int| 0 <= i < cel_state(ls).0.len() ==> !is_cel_open(#[trigger] cel_state(ls).0[i]),
        forall|k: int| 0 <= k < cel_state(ls).1.len() ==> closed_rule(#[trigger] cel_state(ls).1[k]),
        cel_state(ls).2 matches Some(c) ==> open_rule(c),
    decreases ls.len(),
{
    if ls.len() > 0 {
        let pre = ls.drop_last();
        law_cel_split_moves_whole_rules(pre);
        let st = cel_state(pre);
        let l = ls.last();
        match st.2 {
            Some(c) => {
                if is_cel_close(l) {
                    let b = c.push(l);
                    assert(closed_rule(b)) by {
                        assert(b[0] == c[0]);
                        assert forall|j: int| 0 < j < b.len() - 1 implies !is_cel_close(#[trigger] b[j]) by {
                            assert(b[j] == c[j]);
                        }
                    }
                    assert(st.1.push(b).drop_last() =~= st.1);
                    assert forall|k: int| 0 <= k < st.1.push(b).len() implies closed_rule(#[trigger] st.1.push(b)[k]) by {
                        if k < st.1.len() {
                            assert(st.1.push(b)[k] == st.1[k]);
                        }
                    }
                } else {
                    let b = c.push(l);
                    assert(open_rule(b)) by {
                        assert(b[0] == c[0]);
                        assert forall|j: int| 0 <= j < b.len() implies !is_cel_close(#[trigger] b[j]) by {
                            if j < c.len() {
                                assert(b[j] == c[j]);
                            }
                        }
                    }
                }
            },
            None => {
                if is_cel_open(l) {
                    if is_cel_close(l) {
                        let b = seq![l];
                        assert(closed_rule(b));
                        assert(st.1.push(b).drop_last() =~= st.1);
                        assert forall|k: int| 0 <= k < st.1.push(b).len() implies closed_rule(#[trigger] st.1.push(b)[k]) by {
                            if k < st.1.len() {
                                assert(st.1.push(b)[k] == st.1[k]);
                            }
                        }
                    } else {
                        assert(open_rule(seq![l]));
                    }
                } else {
                    assert forall|i: int| 0 <= i < st.0.push(l).len() implies !is_cel_open(#[trigger] st.0.push(l)[i]) by {
                        if i < st.0.len() {
                            assert(st.0.push(l)[i] == st.0[i]);
                        }
                    }
                }
            },
        }
    }
}

} // verus!
