//! Headings of package pages: the anchors that links to entities use are there.

use crate::descriptor::{EnumDesc, FileDesc, Location, MessageDesc, ServiceDesc};
use crate::fence::{cel_sections, fence_spec, file_caption, render_fence_spec};
use crate::link_check::{hash_run, heading_ids_of, heading_titles};
use crate::links::{id_spec, unique_id_spec, unique_ids_spec, LinkContext};
use crate::markdown::{lines_of, markdown_doc_spec, md_heading_spec, strip_cr};
use crate::options::{EscapeTags, Options};
use crate::proto_syntax::{doc_block, enum_spec, message_spec, rpc_section_spec, rpc_sections_spec, service_spec, CtxView};
use crate::render::{
    any_messages_enums, any_services, entity_visits, file_enums_spec, file_messages_spec, file_services_spec,
    messages_enums_spec, named_enums, named_messages, named_services, overview_block, package_page_doc, services_spec,
};
use crate::text::{is_ws, split_on, trim, trim_end, trim_start};
use vstd::prelude::*;

verus! {

/// `s` is empty or ends a line.
pub open spec fn nl_closed(s: Seq<char>) -> bool {
    s.len() == 0 || s.last() == '\n'
}

/// A name that stands alone on a heading line: non-empty, on one line, and without
/// whitespace at either end.
pub open spec fn plain_name(name: Seq<char>) -> bool {
    &&& name.len() > 0
    &&& !name.contains('\n')
    &&& !is_ws(name[0])
    &&& !is_ws(name.last())
}

proof fn lemma_closed_concat(a: Seq<char>, b: Seq<char>)
    requires
        nl_closed(a),
        nl_closed(b),
    ensures
        nl_closed(a + b),
{
    if b.len() > 0 {
        assert((a + b).last() == b.last());
    } else {
        assert(a + b =~= a);
    }
}

proof fn lemma_heading_closed(level: nat, text: Seq<char>)
    ensures
        nl_closed(md_heading_spec(level, text)),
{
}

/// The heading line of `name` at level 3.
pub open spec fn heading_line(name: Seq<char>) -> Seq<char> {
    seq!['#', '#', '#', ' '] + name
}

proof fn lemma_heading_line_of(name: Seq<char>)
    ensures
        md_heading_spec(3, name) == heading_line(name) + seq!['\n'] + seq!['\n'],
{
    assert(Seq::new(3, |_i: int| '#') =~= seq!['#', '#', '#']);
    assert(md_heading_spec(3, name) =~= heading_line(name) + seq!['\n'] + seq!['\n']);
}

proof fn lemma_no_newline_line(name: Seq<char>)
    requires
        !name.contains('\n'),
    ensures
        !heading_line(name).contains('\n'),
{
    let l = heading_line(name);
    if l.contains('\n') {
        let k = choose|k: int| 0 <= k < l.len() && l[k] == '\n';
        if k >= 4 {
            assert(name[k - 4] == '\n');
        }
    }
}

proof fn lemma_heading_is_a_line(a: Seq<char>, name: Seq<char>, c: Seq<char>)
    requires
        nl_closed(a),
        plain_name(name),
    ensures
        lines_of(a + md_heading_spec(3, name) + c).contains(heading_line(name)),
{
    let l = heading_line(name);
    lemma_heading_line_of(name);
    lemma_no_newline_line(name);
    crate::text::lemma_split_on_single(l, '\n');
    let rest = seq!['\n'] + c;
    let tail = l + seq!['\n'] + rest;
    assert(md_heading_spec(3, name) + c =~= tail);
    crate::text::lemma_split_on_concat(l, rest, '\n');
    crate::text::lemma_split_on_nonempty(rest, '\n');
    let s = a + md_heading_spec(3, name) + c;
    let ps = split_on(s, '\n');
    let k: int;
    if a.len() == 0 {
        assert(s =~= tail);
        assert(ps == seq![l] + split_on(rest, '\n'));
        k = 0;
    } else {
        let a0 = a.drop_last();
        assert(s =~= a0 + seq!['\n'] + tail);
        crate::text::lemma_split_on_concat(a0, tail, '\n');
        assert(ps == split_on(a0, '\n') + (seq![l] + split_on(rest, '\n')));
        k = split_on(a0, '\n').len() as int;
    }
    assert(ps[k] == l);
    assert(k < ps.len() - 1);
    let ps2 = if ps.len() > 0 && ps.last().len() == 0 {
        ps.drop_last()
    } else {
        ps
    };
    assert(ps2[k] == l);
    assert(l.last() == name.last());
    assert(strip_cr(l) == l);
    assert(lines_of(s)[k] == l);
}

proof fn lemma_trim_start_space_name(name: Seq<char>)
    requires
        plain_name(name),
    ensures
        trim_start(seq![' '] + name) == name,
{
    let s = seq![' '] + name;
    assert(s[0] == ' ');
    assert(is_ws(s[0]));
    assert(s.drop_first() =~= name);
    assert(trim_start(name) == name);
}

proof fn lemma_trim_end_plain(s: Seq<char>)
    requires
        s.len() > 0,
        !is_ws(s.last()),
    ensures
        trim_end(s) == s,
{
}

proof fn lemma_title_of_heading_line(name: Seq<char>)
    requires
        plain_name(name),
    ensures
        trim(heading_line(name)) == heading_line(name),
        hash_run(heading_line(name)) == 3,
        trim(heading_line(name).skip(3)) == name,
{
    let l = heading_line(name);
    assert(trim_start(l) == l);
    assert(l.last() == name.last());
    lemma_trim_end_plain(l);
    let t1 = l.drop_first();
    let t2 = t1.drop_first();
    let t3 = t2.drop_first();
    assert(l[0] == '#' && t1[0] == '#' && t2[0] == '#');
    assert(t3[0] == ' ');
    assert(hash_run(t3) == 0);
    assert(hash_run(t2) == 1);
    assert(hash_run(t1) == 2);
    assert(hash_run(l) == 3);
    assert(l.skip(3) =~= seq![' '] + name);
    lemma_trim_start_space_name(name);
    lemma_trim_end_plain(name);
}

proof fn lemma_titles_have_heading(ls: Seq<Seq<char>>, name: Seq<char>)
    requires
        plain_name(name),
        ls.contains(heading_line(name)),
    ensures
        heading_titles(ls).contains(name),
    decreases ls.len(),
{
    lemma_title_of_heading_line(name);
    let pre = ls.drop_last();
    if ls.last() == heading_line(name) {
        assert(heading_titles(ls) == heading_titles(pre).push(name));
        assert(heading_titles(ls)[heading_titles(pre).len() as int] == name);
    } else {
        let k = choose|k: int| 0 <= k < ls.len() && ls[k] == heading_line(name);
        assert(pre[k] == ls[k]);
        lemma_titles_have_heading(pre, name);
        let j = choose|j: int| 0 <= j < heading_titles(pre).len() && heading_titles(pre)[j] == name;
        let t = trim(ls.last());
        if hash_run(t) != 0 {
            assert(heading_titles(ls)[j] == heading_titles(pre)[j]);
        }
    }
}

proof fn lemma_ids_keep_bases(bases: Seq<Seq<char>>)
    ensures
        forall|k: int| 0 <= k < bases.len() ==> unique_ids_spec(bases).contains(#[trigger] bases[k]),
    decreases bases.len(),
{
    if bases.len() > 0 {
        let pre = bases.drop_last();
        lemma_ids_keep_bases(pre);
        let u = unique_ids_spec(pre);
        let r = unique_ids_spec(bases);
        assert(r == u.push(unique_id_spec(bases.last(), u)));
        assert forall|k: int| 0 <= k < bases.len() implies r.contains(#[trigger] bases[k]) by {
            let b = bases[k];
            if k < pre.len() {
                assert(pre[k] == b);
                assert(u.contains(b));
                let j = choose|j: int| 0 <= j < u.len() && u[j] == b;
                assert(r[j] == b);
            } else {
                if u.contains(b) {
                    let j = choose|j: int| 0 <= j < u.len() && u[j] == b;
                    assert(r[j] == b);
                } else {
                    assert(r[u.len() as int] == b);
                }
            }
        }
    }
}

/// A page with a level-3 heading line for `name` has a heading with the id of `name`.
proof fn lemma_heading_gives_id(content: Seq<char>, name: Seq<char>)
    requires
        plain_name(name),
        lines_of(content).contains(heading_line(name)),
    ensures
        heading_ids_of(content).contains(id_spec(name)),
{
    let ts = heading_titles(lines_of(content));
    lemma_titles_have_heading(lines_of(content), name);
    let bases = ts.map_values(|t: Seq<char>| id_spec(t));
    let j = choose|j: int| 0 <= j < ts.len() && ts[j] == name;
    assert(bases[j] == id_spec(name));
    lemma_ids_keep_bases(bases);
}

proof fn lemma_fence_closed(lang: Seq<char>, body: Seq<char>)
    ensures
        nl_closed(fence_spec(lang, body)),
{
    reveal_strlit("```\n\n");
    let tail = "```\n\n"@;
    assert(tail.last() == '\n');
    let f = fence_spec(lang, body);
    assert(f.last() == tail.last());
}

proof fn lemma_doc_closed(c: Option<Seq<char>>, mode: EscapeTags)
    ensures
        nl_closed(doc_block(c, mode)),
{
    match c {
        Some(t) => {
            let d = markdown_doc_spec(t, mode);
            assert(d.last() == '\n');
        },
        None => {},
    }
}

proof fn lemma_caption_closed(name: Seq<char>)
    ensures
        nl_closed(file_caption(name)),
{
    reveal_strlit("`*\n\n");
    if name.len() > 0 {
        let tail = "`*\n\n"@;
        assert(tail.last() == '\n');
        assert(file_caption(name).last() == tail.last());
    }
}

proof fn lemma_cel_sections_closed(bs: Seq<Seq<char>>)
    ensures
        nl_closed(cel_sections(bs)),
    decreases bs.len(),
{
    if bs.len() > 0 {
        lemma_cel_sections_closed(bs.drop_last());
        lemma_fence_closed("cel"@, bs.last());
        let head = cel_sections(bs.drop_last()) + "**Protovalidate (CEL)**\n\n"@;
        assert(cel_sections(bs) == head + fence_spec("cel"@, bs.last()));
        assert(fence_spec("cel"@, bs.last()).len() > 0) by {
            reveal_strlit("```\n\n");
        }
        assert(cel_sections(bs).last() == fence_spec("cel"@, bs.last()).last());
    }
}

proof fn lemma_render_fence_closed(file_name: Seq<char>, doc: Option<Seq<char>>, body: Seq<char>, mode: EscapeTags)
    ensures
        nl_closed(render_fence_spec(file_name, doc, body, mode)),
{
    let split = crate::fence::split_cel_spec(body);
    let d = match doc {
        Some(c) => markdown_doc_spec(c, mode),
        None => Seq::<char>::empty(),
    };
    lemma_doc_closed(doc, mode);
    assert(d == doc_block(doc, mode));
    lemma_caption_closed(file_name);
    lemma_fence_closed("protobuf"@, split.0);
    lemma_cel_sections_closed(split.1);
    lemma_closed_concat(d, file_caption(file_name));
    lemma_closed_concat(d + file_caption(file_name), fence_spec("protobuf"@, split.0));
    lemma_closed_concat(d + file_caption(file_name) + fence_spec("protobuf"@, split.0), cel_sections(split.1));
}

proof fn lemma_rpc_sections_closed(locs: Seq<Location>, si: int, ms: Seq<crate::descriptor::MethodDesc>, cv: CtxView)
    ensures
        nl_closed(rpc_sections_spec(locs, si, ms, cv)),
    decreases ms.len(),
{
    if ms.len() > 0 {
        lemma_rpc_sections_closed(locs, si, ms.drop_last(), cv);
        let m = ms.last();
        let sig = crate::proto_syntax::rpc_signature_spec(m, cv) + "\n\n"@;
        reveal_strlit("\n\n");
        assert(nl_closed(sig)) by {
            assert(sig.last() == "\n\n"@.last());
        }
        let fence = match crate::proto_syntax::options_body_spec(m) {
            Some(b) => fence_spec("protobuf"@, b),
            None => Seq::<char>::empty(),
        };
        match crate::proto_syntax::options_body_spec(m) {
            Some(b) => lemma_fence_closed("protobuf"@, b),
            None => {},
        }
        let doc = doc_block(
            crate::comments::leading_spec(
                locs,
                seq![crate::comments::FILE_SERVICE, si as i32, crate::comments::SVC_METHOD, (ms.len() - 1) as i32],
            ),
            crate::proto_syntax::mode_of(cv),
        );
        lemma_doc_closed(
            crate::comments::leading_spec(
                locs,
                seq![crate::comments::FILE_SERVICE, si as i32, crate::comments::SVC_METHOD, (ms.len() - 1) as i32],
            ),
            crate::proto_syntax::mode_of(cv),
        );
        assert(rpc_section_spec(locs, si, ms.len() - 1, m, cv) == sig + fence + doc);
        lemma_closed_concat(sig, fence);
        lemma_closed_concat(sig + fence, doc);
        lemma_closed_concat(rpc_sections_spec(locs, si, ms.drop_last(), cv), sig + fence + doc);
    }
}

proof fn lemma_service_closed(file_name: Seq<char>, locs: Seq<Location>, si: int, svc: ServiceDesc, level: nat, cv: CtxView)
    ensures
        nl_closed(service_spec(file_name, locs, si, svc, level, cv)),
{
    let h = md_heading_spec(level, crate::proto_syntax::or_default(svc.name, "Service"@));
    let c = file_caption(file_name);
    let d = doc_block(crate::comments::leading_spec(locs, seq![crate::comments::FILE_SERVICE, si as i32]), crate::proto_syntax::mode_of(cv));
    let r = rpc_sections_spec(locs, si, svc.method@, cv);
    lemma_heading_closed(level, crate::proto_syntax::or_default(svc.name, "Service"@));
    lemma_caption_closed(file_name);
    lemma_doc_closed(crate::comments::leading_spec(locs, seq![crate::comments::FILE_SERVICE, si as i32]), crate::proto_syntax::mode_of(cv));
    lemma_rpc_sections_closed(locs, si, svc.method@, cv);
    lemma_closed_concat(h, c);
    lemma_closed_concat(h + c, d);
    lemma_closed_concat(h + c + d, r);
}

/// `s` has the level-3 heading of `name` at the start of a line.
pub open spec fn has_heading_at_line(s: Seq<char>, name: Seq<char>) -> bool {
    exists|a: Seq<char>, c: Seq<char>| nl_closed(a) && s == a + md_heading_spec(3, name) + c
}

proof fn lemma_heading_after(x: Seq<char>, s: Seq<char>, y: Seq<char>, name: Seq<char>)
    requires
        nl_closed(x),
        has_heading_at_line(s, name),
    ensures
        has_heading_at_line(x + s + y, name),
{
    let (a, c) = choose|a: Seq<char>, c: Seq<char>| nl_closed(a) && s == a + md_heading_spec(3, name) + c;
    lemma_closed_concat(x, a);
    assert(x + s + y =~= (x + a) + md_heading_spec(3, name) + (c + y));
}

proof fn lemma_file_messages_closed(fname: Seq<char>, locs: Seq<Location>, ms: Seq<MessageDesc>, src: Option<Seq<char>>, mode: EscapeTags)
    ensures
        nl_closed(file_messages_spec(fname, locs, ms, src, mode)),
        forall|i: int| 0 <= i < ms.len() ==> has_heading_at_line(
            file_messages_spec(fname, locs, ms, src, mode),
            crate::proto_syntax::or_default(#[trigger] ms[i].name, "Message"@),
        ),
    decreases ms.len(),
{
    if ms.len() > 0 {
        let pre = ms.drop_last();
        lemma_file_messages_closed(fname, locs, pre, src, mode);
        let a = file_messages_spec(fname, locs, pre, src, mode);
        let n = crate::proto_syntax::or_default(ms.last().name, "Message"@);
        let h = md_heading_spec(3, n);
        let body = message_spec(fname, locs, ms.len() - 1, ms.last(), src, mode);
        assert(file_messages_spec(fname, locs, ms, src, mode) == a + h + body);
        lemma_render_fence_closed(
            fname,
            crate::comments::leading_spec(locs, seq![crate::comments::FILE_MESSAGE, (ms.len() - 1) as i32]),
            crate::proto_syntax::message_body_spec(locs, ms.len() - 1, ms.last(), src),
            mode,
        );
        lemma_heading_closed(3, n);
        lemma_closed_concat(a, h);
        lemma_closed_concat(a + h, body);
        assert forall|i: int| 0 <= i < ms.len() implies has_heading_at_line(
            file_messages_spec(fname, locs, ms, src, mode),
            crate::proto_syntax::or_default(#[trigger] ms[i].name, "Message"@),
        ) by {
            if i == ms.len() - 1 {
                assert(a + h + body == a + md_heading_spec(3, n) + body);
            } else {
                assert(pre[i] == ms[i]);
                lemma_heading_after(Seq::empty(), a, h + body, crate::proto_syntax::or_default(ms[i].name, "Message"@));
                assert(Seq::<char>::empty() + a + (h + body) =~= a + h + body);
            }
        }
    }
}

proof fn lemma_file_enums_closed(fname: Seq<char>, locs: Seq<Location>, es: Seq<EnumDesc>, mode: EscapeTags)
    ensures
        nl_closed(file_enums_spec(fname, locs, es, mode)),
        forall|i: int| 0 <= i < es.len() ==> has_heading_at_line(
            file_enums_spec(fname, locs, es, mode),
            crate::proto_syntax::or_default(#[trigger] es[i].name, "Enum"@),
        ),
    decreases es.len(),
{
    if es.len() > 0 {
        let pre = es.drop_last();
        lemma_file_enums_closed(fname, locs, pre, mode);
        let a = file_enums_spec(fname, locs, pre, mode);
        let n = crate::proto_syntax::or_default(es.last().name, "Enum"@);
        let h = md_heading_spec(3, n);
        let body = enum_spec(fname, locs, es.len() - 1, es.last(), mode);
        assert(file_enums_spec(fname, locs, es, mode) == a + h + body);
        lemma_render_fence_closed(
            fname,
            crate::comments::leading_spec(locs, seq![crate::comments::FILE_ENUM, (es.len() - 1) as i32]),
            crate::proto_syntax::enum_body_spec(locs, es.len() - 1, es.last()),
            mode,
        );
        lemma_heading_closed(3, n);
        lemma_closed_concat(a, h);
        lemma_closed_concat(a + h, body);
        assert forall|i: int| 0 <= i < es.len() implies has_heading_at_line(
            file_enums_spec(fname, locs, es, mode),
            crate::proto_syntax::or_default(#[trigger] es[i].name, "Enum"@),
        ) by {
            if i == es.len() - 1 {
                assert(a + h + body == a + md_heading_spec(3, n) + body);
            } else {
                assert(pre[i] == es[i]);
                lemma_heading_after(Seq::empty(), a, h + body, crate::proto_syntax::or_default(es[i].name, "Enum"@));
                assert(Seq::<char>::empty() + a + (h + body) =~= a + h + body);
            }
        }
    }
}

proof fn lemma_file_services_closed(fname: Seq<char>, locs: Seq<Location>, ss: Seq<ServiceDesc>, cv: CtxView)
    ensures
        nl_closed(file_services_spec(fname, locs, ss, cv)),
        forall|i: int| 0 <= i < ss.len() ==> has_heading_at_line(
            file_services_spec(fname, locs, ss, cv),
            crate::proto_syntax::or_default(#[trigger] ss[i].name, "Service"@),
        ),
    decreases ss.len(),
{
    if ss.len() > 0 {
        let pre = ss.drop_last();
        lemma_file_services_closed(fname, locs, pre, cv);
        let a = file_services_spec(fname, locs, pre, cv);
        let svc = ss.last();
        let n = crate::proto_syntax::or_default(svc.name, "Service"@);
        let sv = service_spec(fname, locs, ss.len() - 1, svc, 3, cv);
        assert(file_services_spec(fname, locs, ss, cv) == a + sv);
        lemma_service_closed(fname, locs, ss.len() - 1, svc, 3, cv);
        lemma_closed_concat(a, sv);
        let rest = file_caption(fname) + doc_block(
            crate::comments::leading_spec(locs, seq![crate::comments::FILE_SERVICE, (ss.len() - 1) as i32]),
            crate::proto_syntax::mode_of(cv),
        ) + rpc_sections_spec(locs, ss.len() - 1, svc.method@, cv);
        assert(sv =~= md_heading_spec(3, n) + rest);
        assert forall|i: int| 0 <= i < ss.len() implies has_heading_at_line(
            file_services_spec(fname, locs, ss, cv),
            crate::proto_syntax::or_default(#[trigger] ss[i].name, "Service"@),
        ) by {
            if i == ss.len() - 1 {
                assert(a + sv =~= a + md_heading_spec(3, n) + rest);
            } else {
                assert(pre[i] == ss[i]);
                lemma_heading_after(Seq::empty(), a, sv, crate::proto_syntax::or_default(ss[i].name, "Service"@));
                assert(Seq::<char>::empty() + a + sv =~= a + sv);
            }
        }
    }
}

proof fn lemma_services_closed(files: Seq<(Seq<char>, FileDesc)>, cv: CtxView)
    ensures
        nl_closed(services_spec(files, cv)),
        forall|p: int, i: int| 0 <= p < files.len() && 0 <= i < files[p].1.service.len() ==> has_heading_at_line(
            services_spec(files, cv),
            crate::proto_syntax::or_default(#[trigger] files[p].1.service@[i].name, "Service"@),
        ),
    decreases files.len(),
{
    if files.len() > 0 {
        let pre = files.drop_last();
        let f = files.last();
        lemma_services_closed(pre, cv);
        lemma_file_services_closed(f.0, f.1.location@, f.1.service@, cv);
        let a = services_spec(pre, cv);
        let b = file_services_spec(f.0, f.1.location@, f.1.service@, cv);
        assert(services_spec(files, cv) == a + b);
        lemma_closed_concat(a, b);
        assert forall|p: int, i: int| 0 <= p < files.len() && 0 <= i < files[p].1.service.len() implies has_heading_at_line(
            services_spec(files, cv),
            crate::proto_syntax::or_default(#[trigger] files[p].1.service@[i].name, "Service"@),
        ) by {
            let n = crate::proto_syntax::or_default(files[p].1.service@[i].name, "Service"@);
            if p == files.len() - 1 {
                lemma_heading_after(a, b, Seq::empty(), n);
                assert(a + b + Seq::<char>::empty() =~= a + b);
            } else {
                assert(pre[p] == files[p]);
                lemma_heading_after(Seq::empty(), a, b, n);
                assert(Seq::<char>::empty() + a + b =~= a + b);
            }
        }
    }
}

proof fn lemma_messages_enums_closed(files: Seq<(Seq<char>, FileDesc)>, cache: Seq<(String, String)>, mode: EscapeTags)
    ensures
        nl_closed(messages_enums_spec(files, cache, mode)),
        forall|p: int, i: int| 0 <= p < files.len() && 0 <= i < files[p].1.message_type.len() ==> has_heading_at_line(
            messages_enums_spec(files, cache, mode),
            crate::proto_syntax::or_default(#[trigger] files[p].1.message_type@[i].name, "Message"@),
        ),
        forall|p: int, i: int| 0 <= p < files.len() && 0 <= i < files[p].1.enum_type.len() ==> has_heading_at_line(
            messages_enums_spec(files, cache, mode),
            crate::proto_syntax::or_default(#[trigger] files[p].1.enum_type@[i].name, "Enum"@),
        ),
    decreases files.len(),
{
    if files.len() > 0 {
        let pre = files.drop_last();
        let f = files.last();
        lemma_messages_enums_closed(pre, cache, mode);
        let src = crate::render::source_lookup(cache, f.0);
        lemma_file_messages_closed(f.0, f.1.location@, f.1.message_type@, src, mode);
        lemma_file_enums_closed(f.0, f.1.location@, f.1.enum_type@, mode);
        let a = messages_enums_spec(pre, cache, mode);
        let m = file_messages_spec(f.0, f.1.location@, f.1.message_type@, src, mode);
        let e = file_enums_spec(f.0, f.1.location@, f.1.enum_type@, mode);
        assert(messages_enums_spec(files, cache, mode) == a + m + e);
        lemma_closed_concat(a, m);
        lemma_closed_concat(a + m, e);
        assert forall|p: int, i: int| 0 <= p < files.len() && 0 <= i < files[p].1.message_type.len() implies has_heading_at_line(
            messages_enums_spec(files, cache, mode),
            crate::proto_syntax::or_default(#[trigger] files[p].1.message_type@[i].name, "Message"@),
        ) by {
            let n = crate::proto_syntax::or_default(files[p].1.message_type@[i].name, "Message"@);
            if p == files.len() - 1 {
                lemma_heading_after(a, m, e, n);
            } else {
                assert(pre[p] == files[p]);
                lemma_heading_after(Seq::empty(), a, m + e, n);
                assert(Seq::<char>::empty() + a + (m + e) =~= a + m + e);
            }
        }
        assert forall|p: int, i: int| 0 <= p < files.len() && 0 <= i < files[p].1.enum_type.len() implies has_heading_at_line(
            messages_enums_spec(files, cache, mode),
            crate::proto_syntax::or_default(#[trigger] files[p].1.enum_type@[i].name, "Enum"@),
        ) by {
            let n = crate::proto_syntax::or_default(files[p].1.enum_type@[i].name, "Enum"@);
            if p == files.len() - 1 {
                lemma_heading_after(a + m, e, Seq::empty(), n);
                assert(a + m + e + Seq::<char>::empty() =~= a + m + e);
            } else {
                assert(pre[p] == files[p]);
                lemma_heading_after(Seq::empty(), a, m + e, n);
                assert(Seq::<char>::empty() + a + (m + e) =~= a + m + e);
            }
        }
    }
}

proof fn lemma_visit_place(files: Seq<(Seq<char>, FileDesc)>, v: (crate::links::EntityKind, Seq<char>, int, int))
    requires
        entity_visits(files).contains(v),
    ensures
        0 <= v.2 < files.len(),
        v.0 == crate::links::EntityKind::Message ==> 0 <= v.3 < files[v.2].1.message_type.len()
            && crate::proto_syntax::or_default(files[v.2].1.message_type@[v.3].name, "Message"@) == v.1,
        v.0 == crate::links::EntityKind::Enum ==> 0 <= v.3 < files[v.2].1.enum_type.len()
            && crate::proto_syntax::or_default(files[v.2].1.enum_type@[v.3].name, "Enum"@) == v.1,
        v.0 == crate::links::EntityKind::Service ==> 0 <= v.3 < files[v.2].1.service.len()
            && crate::proto_syntax::or_default(files[v.2].1.service@[v.3].name, "Service"@) == v.1,
    decreases files.len(),
{
    let pre = files.drop_last();
    let p = files.len() - 1;
    let f = files.last();
    let ev0 = entity_visits(pre);
    let nm = named_messages(f.1.message_type@, p);
    let ne = named_enums(f.1.enum_type@, p);
    let ns = named_services(f.1.service@, p);
    assert(entity_visits(files) == ev0 + nm + ne + ns);
    crate::link_targets::lemma_named_messages(f.1.message_type@, p);
    crate::link_targets::lemma_named_enums(f.1.enum_type@, p);
    crate::link_targets::lemma_named_services(f.1.service@, p);
    let all = entity_visits(files);
    let j = choose|j: int| 0 <= j < all.len() && all[j] == v;
    let n0 = ev0.len();
    let n1 = n0 + nm.len();
    let n2 = n1 + ne.len();
    if j < n0 {
        assert(ev0[j] == v);
        assert(ev0.contains(v));
        lemma_visit_place(pre, v);
        assert(pre[v.2] == files[v.2]);
    } else if j < n1 {
        assert(nm[j - n0] == v);
        assert(nm.contains(v));
    } else if j < n2 {
        assert(ne[j - n1] == v);
        assert(ne.contains(v));
    } else {
        assert(ns[j - n2] == v);
        assert(ns.contains(v));
    }
}

proof fn lemma_overview_closed(files: Seq<(Seq<char>, FileDesc)>, mode: EscapeTags)
    ensures
        nl_closed(overview_block(files, mode)),
{
    match crate::comments::overview_spec(files) {
        Some(o) => {
            let b = overview_block(files, mode);
            assert(b.last() == '\n');
        },
        None => {},
    }
}

/// Under `layout=package`, every message, enum and service of a package has a heading on
/// the package page whose mdBook id is the anchor that links to it carry (the id of its
/// name), for names that stand alone on a heading line.
pub proof fn law_package_page_anchors(
    pkg: Seq<char>,
    files: Seq<(Seq<char>, FileDesc)>,
    links: LinkContext,
    opts: Options,
    cache: Seq<(String, String)>,
    v: (crate::links::EntityKind, Seq<char>, int, int),
)
    requires
        entity_visits(files).contains(v),
        plain_name(v.1),
    ensures
        heading_ids_of(package_page_doc(pkg, files, links, opts, cache).1).contains(id_spec(v.1)),
{
    let mode = opts.escape_tags;
    let rel = crate::links::package_page_spec(links.markdown_root@, pkg);
    let cv: CtxView = Some((Some(links), rel, mode));
    let h1 = md_heading_spec(1, pkg);
    let ov = overview_block(files, mode);
    let hs = md_heading_spec(2, "Services"@);
    let hm = md_heading_spec(2, "Messages and enums"@);
    let sv = services_spec(files, cv);
    let me = messages_enums_spec(files, cache, mode);
    let part_s = if any_services(files) {
        hs + sv
    } else {
        Seq::<char>::empty()
    };
    let part_m = if any_messages_enums(files) {
        hm + me
    } else {
        Seq::<char>::empty()
    };
    let pc = package_page_doc(pkg, files, links, opts, cache).1;
    assert(pc == h1 + ov + part_s + part_m);
    lemma_visit_place(files, v);
    lemma_heading_closed(1, pkg);
    lemma_heading_closed(2, "Services"@);
    lemma_heading_closed(2, "Messages and enums"@);
    lemma_overview_closed(files, mode);
    lemma_services_closed(files, cv);
    lemma_messages_enums_closed(files, cache, mode);
    lemma_closed_concat(h1, ov);
    lemma_closed_concat(hs, sv);
    let p = v.2;
    let n = v.1;
    match v.0 {
        crate::links::EntityKind::Service => {
            assert(files[p].1.service.len() > 0);
            assert(any_services(files));
            lemma_closed_concat(h1 + ov, hs);
            lemma_heading_after(h1 + ov + hs, sv, part_m, n);
            assert(h1 + ov + hs + sv + part_m =~= pc);
        },
        _ => {
            assert(crate::render::has_messages_or_enums(files[p].1));
            assert(any_messages_enums(files));
            lemma_closed_concat(h1 + ov, part_s);
            lemma_closed_concat(h1 + ov + part_s, hm);
            lemma_heading_after(h1 + ov + part_s + hm, me, Seq::empty(), n);
            assert(h1 + ov + part_s + hm + me + Seq::<char>::empty() =~= pc);
        },
    }
    let (a, c) = choose|a: Seq<char>, c: Seq<char>| nl_closed(a) && pc == a + md_heading_spec(3, n) + c;
    lemma_heading_is_a_line(a, n, c);
    lemma_heading_gives_id(pc, n);
}

} // verus!
