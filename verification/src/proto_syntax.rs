//! Protobuf snippets synthesized from descriptors (mdBook `protobuf` fences).
//!
//! Leading comments of a message, enum, service or RPC are emitted as Markdown before
//! the fence; leading comments of fields and enum values stay as `//` lines inside it.

use crate::codegen::{rpc_kind, rpc_kind_spec, RpcKind};
use crate::comments::{
    leading_spec, path2, path3, path4, snippet_spec, CommentIndex, ENUM_VALUE, FILE_ENUM,
    FILE_MESSAGE, FILE_SERVICE, MSG_FIELD, MSG_ONEOF, MSG_OPTIONS, SVC_METHOD,
};
use crate::decimal::{dec, dec_signed, decimal, decimal_signed};
use crate::descriptor::{
    EnumDesc, FieldDesc, FieldLabel, FieldType, IdempotencyLevel, Location, MessageDesc,
    MethodDesc, MethodOpts, NamePart, ServiceDesc, UninterpretedOpt,
};
use crate::fence::{
    fence_spec, file_caption, indented_spec, push_file_caption, push_indented_lines,
    push_proto_fence_body, render_fence_spec, render_proto_fence, short_rpc_type,
    short_type_spec, strip_dot_spec, strip_leading_dot,
};
use crate::links::{backticked_spec, link_type_spec, LinkContext};
use crate::markdown::{
    inline_comment_spec, lines_of, markdown_doc_spec, md_heading, md_heading_spec,
    push_inline_comment_lines, push_markdown_doc,
};
use crate::options::EscapeTags;
use crate::text::{chars_of, contains_sub, join_with, push_char, str_contains, to_string};
use vstd::prelude::*;

verus! {

/// Where a page is rendered, for cross-reference links.
pub struct RenderContext<'a> {
    pub links: Option<&'a LinkContext>,
    pub from_md: &'a str,
    pub escape_tags: EscapeTags,
}

/// `o`, or `d` when absent.
pub open spec fn or_default(o: Option<String>, d: Seq<char>) -> Seq<char> {
    match o {
        Some(s) => s@,
        None => d,
    }
}

/// `o`, or `d` when absent.
pub fn name_or(o: &Option<String>, d: &str) -> (r: String)
    ensures
        r@ == or_default(*o, d@),
{
    match o {
        Some(s) => to_string(s.as_str()),
        None => to_string(d),
    }
}

/// Doc escaping of a render context (`Off` without one).
pub open spec fn mode_of(cv: CtxView) -> EscapeTags {
    match cv {
        Some(c) => c.2,
        None => EscapeTags::Off,
    }
}

/// A render context as plain values: link targets, the page rendered, doc escaping.
pub type CtxView = Option<(Option<LinkContext>, Seq<char>, EscapeTags)>;

/// The plain-value view of a render context.
pub open spec fn ctx_view(ctx: Option<&RenderContext>) -> CtxView {
    match ctx {
        Some(c) => Some(
            (
                match c.links {
                    Some(l) => Some(*l),
                    None => None,
                },
                c.from_md@,
                c.escape_tags,
            ),
        ),
        None => None,
    }
}

fn mode_exec(ctx: Option<&RenderContext>) -> (r: EscapeTags)
    ensures
        r == mode_of(ctx_view(ctx)),
{
    match ctx {
        Some(c) => c.escape_tags,
        None => EscapeTags::Off,
    }
}

/// `//` lines for an optional field or enum-value comment.
pub open spec fn comment_lines(c: Option<Seq<char>>) -> Seq<char> {
    match c {
        Some(t) => inline_comment_spec(lines_of(t)),
        None => Seq::<char>::empty(),
    }
}

/// Markdown prose for an optional entity or RPC comment.
pub open spec fn doc_block(c: Option<Seq<char>>, mode: EscapeTags) -> Seq<char> {
    match c {
        Some(t) => markdown_doc_spec(t, mode),
        None => Seq::<char>::empty(),
    }
}

// ----- enums -----

/// One enum value line, after its `//` comment lines.
pub open spec fn enum_value_spec(locs: Seq<Location>, ei: int, vi: int, v: crate::descriptor::EnumValueDesc) -> Seq<char> {
    comment_lines(leading_spec(locs, seq![FILE_ENUM, ei as i32, ENUM_VALUE, vi as i32])) + "  "@
        + or_default(v.name, "UNKNOWN"@) + " = "@ + dec_signed(
        match v.number {
            Some(n) => n as int,
            None => 0,
        },
    ) + ";\n"@
}

/// Value lines of an enum.
pub open spec fn enum_values_spec(locs: Seq<Location>, ei: int, vals: Seq<crate::descriptor::EnumValueDesc>) -> Seq<char>
    decreases vals.len(),
{
    if vals.len() == 0 {
        Seq::<char>::empty()
    } else {
        enum_values_spec(locs, ei, vals.drop_last()) + enum_value_spec(locs, ei, vals.len() - 1, vals.last())
    }
}

fn push_enum_value(body: &mut String, idx: &CommentIndex, ei: usize, vi: usize, val: &crate::descriptor::EnumValueDesc)
    ensures
        final(body)@ == old(body)@ + enum_value_spec(idx.locations@, ei as int, vi as int, *val),
{
    push_comment_lines(body, &idx.leading_enum_value(ei, vi));
    body.append("  ");
    body.append(name_or(&val.name, "UNKNOWN").as_str());
    body.append(" = ");
    let n: i32 = match val.number {
        Some(n) => n,
        None => 0,
    };
    body.append(decimal_signed(n as i64).as_str());
    body.append(";\n");
    assert(body@ =~= old(body)@ + enum_value_spec(idx.locations@, ei as int, vi as int, *val));
}

/// `enum Name { ... }` body of an enum fence.
pub open spec fn enum_body_spec(locs: Seq<Location>, ei: int, en: EnumDesc) -> Seq<char> {
    "enum "@ + or_default(en.name, "Enum"@) + " {\n"@ + enum_values_spec(locs, ei, en.value@) + "}\n"@
}

/// Enum: leading comment as Markdown, then a `protobuf` fence with the definition.
pub open spec fn enum_spec(
    file_name: Seq<char>,
    locs: Seq<Location>,
    ei: int,
    en: EnumDesc,
    mode: EscapeTags,
) -> Seq<char> {
    render_fence_spec(
        file_name,
        leading_spec(locs, seq![FILE_ENUM, ei as i32]),
        enum_body_spec(locs, ei, en),
        mode,
    )
}

/// The view of an optional comment.
pub open spec fn opt_view(o: Option<String>) -> Option<Seq<char>> {
    match o {
        Some(s) => Some(s@),
        None => None,
    }
}

fn push_comment_lines(out: &mut String, c: &Option<String>)
    ensures
        final(out)@ == old(out)@ + comment_lines(opt_view(*c)),
{
    match c {
        Some(t) => push_inline_comment_lines(out, t.as_str()),
        None => {},
    }
    assert(out@ =~= old(out)@ + comment_lines(opt_view(*c)));
}

/// Enum: leading comment as Markdown, then a `protobuf` fence with the definition.
pub fn synthesize_enum(
    file_name: &str,
    idx: &CommentIndex,
    ei: usize,
    en: &EnumDesc,
    ctx: Option<&RenderContext>,
) -> (r: String)
    ensures
        r@ == enum_spec(file_name@, idx.locations@, ei as int, *en, mode_of(ctx_view(ctx))),
{
    let ghost locs = idx.locations@;
    let mut body = String::new();
    body.append("enum ");
    body.append(name_or(&en.name, "Enum").as_str());
    body.append(" {\n");
    let ghost base = body@;
    let mut vi: usize = 0;
    while vi < en.value.len()
        invariant
            vi <= en.value.len(),
            locs == idx.locations@,
            body@ == base + enum_values_spec(locs, ei as int, en.value@.take(vi as int)),
        decreases en.value.len() - vi,
    {
        let val = &en.value[vi];
        push_enum_value(&mut body, idx, ei, vi, val);
        proof {
            let t = en.value@.take(vi + 1);
            assert(t.drop_last() =~= en.value@.take(vi as int));
            assert(t.last() == *val);
        }
        vi = vi + 1;
        assert(body@ =~= base + enum_values_spec(locs, ei as int, en.value@.take(vi as int)));
    }
    assert(en.value@.take(en.value.len() as int) =~= en.value@);
    body.append("}\n");
    assert(body@ =~= enum_body_spec(locs, ei as int, *en));
    render_proto_fence(file_name, &idx.leading_enum(ei), body.as_str(), mode_exec(ctx))
}

// ----- services and RPCs -----

/// Link (or backticked short name) for an RPC's request or response type.
pub open spec fn type_link_spec(cv: CtxView, fqn: Seq<char>) -> Seq<char> {
    let short = backticked_spec(short_type_spec(strip_dot_spec(fqn)));
    match cv {
        None => short,
        Some(c) => match c.0 {
            Some(l) => link_type_spec(&l, c.1, fqn),
            None => short,
        },
    }
}

/// Link (or backticked short name) for an RPC's request or response type.
pub fn type_link(ctx: Option<&RenderContext>, fqn: &str) -> (r: String)
    ensures
        r@ == type_link_spec(ctx_view(ctx), fqn@),
{
    let short = short_rpc_type(strip_leading_dot(fqn).as_str());
    let mut b = String::new();
    push_char(&mut b, '`');
    b.append(short.as_str());
    push_char(&mut b, '`');
    assert(b@ =~= backticked_spec(short_type_spec(strip_dot_spec(fqn@))));
    match ctx {
        None => b,
        Some(c) => match c.links {
            Some(l) => l.link_type(c.from_md, fqn),
            None => b,
        },
    }
}

/// `stream ` keywords before the request and response of each streaming kind.
pub open spec fn stream_keywords(k: RpcKind) -> (Seq<char>, Seq<char>) {
    match k {
        RpcKind::Unary => (Seq::<char>::empty(), Seq::<char>::empty()),
        RpcKind::ClientStreaming => ("stream "@, Seq::<char>::empty()),
        RpcKind::ServerStreaming => (Seq::<char>::empty(), "stream "@),
        RpcKind::BidiStreaming => ("stream "@, "stream "@),
    }
}

/// `**Name** ( [stream ]In ) returns ( [stream ]Out )`.
pub open spec fn rpc_signature_spec(m: MethodDesc, cv: CtxView) -> Seq<char> {
    let kw = stream_keywords(rpc_kind_spec(m.client_streaming, m.server_streaming));
    "**"@ + or_default(m.name, "Rpc"@) + "** ( "@ + kw.0 + type_link_spec(
        cv,
        or_default(m.input_type, ".google.protobuf.Empty"@),
    ) + " ) returns ( "@ + kw.1 + type_link_spec(
        cv,
        or_default(m.output_type, ".google.protobuf.Empty"@),
    ) + " )"@
}

/// RPC signature as bold prose (not a heading, so it stays out of the book's TOC).
pub fn rpc_signature_markdown(method: &MethodDesc, ctx: Option<&RenderContext>) -> (r: String)
    ensures
        r@ == rpc_signature_spec(*method, ctx_view(ctx)),
{
    let input = name_or(&method.input_type, ".google.protobuf.Empty");
    let output = name_or(&method.output_type, ".google.protobuf.Empty");
    let (in_kw, out_kw) = match rpc_kind(method) {
        RpcKind::Unary => ("", ""),
        RpcKind::ClientStreaming => ("stream ", ""),
        RpcKind::ServerStreaming => ("", "stream "),
        RpcKind::BidiStreaming => ("stream ", "stream "),
    };
    proof {
        reveal_strlit("");
    }
    let mut r = String::new();
    r.append("**");
    r.append(name_or(&method.name, "Rpc").as_str());
    r.append("** ( ");
    r.append(in_kw);
    r.append(type_link(ctx, input.as_str()).as_str());
    r.append(" ) returns ( ");
    r.append(out_kw);
    r.append(type_link(ctx, output.as_str()).as_str());
    r.append(" )");
    assert(r@ =~= rpc_signature_spec(*method, ctx_view(ctx)));
    r
}

/// Option name of an idempotency level (none for the unknown level).
pub open spec fn idempotency_name_spec(l: IdempotencyLevel) -> Option<Seq<char>> {
    match l {
        IdempotencyLevel::NoSideEffects => Some("NO_SIDE_EFFECTS"@),
        IdempotencyLevel::Idempotent => Some("IDEMPOTENT"@),
        IdempotencyLevel::IdempotencyUnknown => None,
    }
}

/// Option name of an idempotency level (none for the unknown level).
pub fn idempotency_level_name(level: IdempotencyLevel) -> (r: Option<&'static str>)
    ensures
        match idempotency_name_spec(level) {
            Some(n) => r matches Some(s) && s@ == n,
            None => r is None,
        },
{
    match level {
        IdempotencyLevel::NoSideEffects => Some("NO_SIDE_EFFECTS"),
        IdempotencyLevel::Idempotent => Some("IDEMPOTENT"),
        IdempotencyLevel::IdempotencyUnknown => None,
    }
}

/// Dotted option name; extension parts in parentheses.
pub open spec fn option_name_spec(ps: Seq<NamePart>) -> Seq<char>
    decreases ps.len(),
{
    if ps.len() == 0 {
        Seq::<char>::empty()
    } else {
        let n = option_name_spec(ps.drop_last());
        let p = ps.last();
        if p.is_extension {
            n + seq!['('] + p.name_part@ + seq![')']
        } else if n.len() > 0 {
            n + seq!['.'] + p.name_part@
        } else {
            p.name_part@
        }
    }
}

/// The first value an uninterpreted option carries.
pub open spec fn option_value_spec(o: UninterpretedOpt) -> Option<Seq<char>> {
    if o.identifier_value is Some {
        Some(o.identifier_value->0@)
    } else if o.positive_int_value is Some {
        Some(dec(o.positive_int_value->0 as nat))
    } else if o.negative_int_value is Some {
        Some(dec_signed(o.negative_int_value->0 as int))
    } else if o.double_value is Some {
        Some(o.double_value->0@)
    } else if o.string_value is Some {
        Some(seq!['"'] + o.string_value->0@ + seq!['"'])
    } else if o.aggregate_value is Some {
        Some(o.aggregate_value->0@)
    } else {
        None
    }
}

/// `option name = value;` for an uninterpreted option with a name and a value.
pub open spec fn format_option_spec(o: UninterpretedOpt) -> Option<Seq<char>> {
    let n = option_name_spec(o.name@);
    if n.len() == 0 {
        None
    } else {
        match option_value_spec(o) {
            Some(v) => Some("option "@ + n + " = "@ + v + ";"@),
            None => None,
        }
    }
}

fn option_value(opt: &UninterpretedOpt) -> (r: Option<String>)
    ensures
        match option_value_spec(*opt) {
            Some(v) => r matches Some(s) && s@ == v,
            None => r is None,
        },
{
    if let Some(s) = &opt.identifier_value {
        Some(to_string(s.as_str()))
    } else if let Some(n) = opt.positive_int_value {
        Some(decimal(n))
    } else if let Some(n) = opt.negative_int_value {
        Some(decimal_signed(n))
    } else if let Some(s) = &opt.double_value {
        Some(to_string(s.as_str()))
    } else if let Some(s) = &opt.string_value {
        let mut q = String::new();
        push_char(&mut q, '"');
        q.append(s.as_str());
        push_char(&mut q, '"');
        assert(q@ =~= seq!['"'] + s@ + seq!['"']);
        Some(q)
    } else if let Some(s) = &opt.aggregate_value {
        Some(to_string(s.as_str()))
    } else {
        None
    }
}

/// `option name = value;` for an uninterpreted option; `None` without a name or value.
pub fn format_uninterpreted_option(opt: &UninterpretedOpt) -> (r: Option<String>)
    ensures
        match format_option_spec(*opt) {
            Some(v) => r matches Some(s) && s@ == v,
            None => r is None,
        },
{
    let mut name = String::new();
    let mut i: usize = 0;
    while i < opt.name.len()
        invariant
            i <= opt.name.len(),
            name@ == option_name_spec(opt.name@.take(i as int)),
        decreases opt.name.len() - i,
    {
        let part = &opt.name[i];
        let piece = part.name_part.as_str();
        let empty = name.as_str().unicode_len() == 0;
        if part.is_extension {
            push_char(&mut name, '(');
            name.append(piece);
            push_char(&mut name, ')');
        } else if !empty {
            push_char(&mut name, '.');
            name.append(piece);
        } else {
            name.append(piece);
        }
        proof {
            let t = opt.name@.take(i + 1);
            assert(t.drop_last() =~= opt.name@.take(i as int));
            assert(t.last() == *part);
        }
        i = i + 1;
        assert(name@ =~= option_name_spec(opt.name@.take(i as int)));
    }
    assert(opt.name@.take(opt.name.len() as int) =~= opt.name@);
    if name.as_str().unicode_len() == 0 {
        return None;
    }
    match option_value(opt) {
        Some(v) => {
            let mut r = String::new();
            r.append("option ");
            r.append(name.as_str());
            r.append(" = ");
            r.append(v.as_str());
            r.append(";");
            assert(r@ =~= "option "@ + name@ + " = "@ + v@ + ";"@);
            Some(r)
        },
        None => None,
    }
}

/// Formatted uninterpreted options, skipping those without a name or value.
pub open spec fn uninterpreted_lines(os: Seq<UninterpretedOpt>) -> Seq<Seq<char>>
    decreases os.len(),
{
    if os.len() == 0 {
        Seq::empty()
    } else {
        let pre = uninterpreted_lines(os.drop_last());
        match format_option_spec(os.last()) {
            Some(l) => pre.push(l),
            None => pre,
        }
    }
}

/// Option statements of an RPC: `deprecated`, idempotency level, then uninterpreted
/// options.
pub open spec fn option_lines(o: MethodOpts) -> Seq<Seq<char>> {
    (if o.deprecated == Some(true) {
        seq!["option deprecated = true;"@]
    } else {
        Seq::empty()
    }) + (match o.idempotency_level {
        Some(l) => match idempotency_name_spec(l) {
            Some(n) => seq!["option idempotency_level = "@ + n + ";"@],
            None => Seq::empty(),
        },
        None => Seq::empty(),
    }) + uninterpreted_lines(o.uninterpreted_option@)
}

/// Body of an RPC's options fence; `None` when the RPC has no options to show.
pub open spec fn options_body_spec(m: MethodDesc) -> Option<Seq<char>> {
    match m.options {
        None => None,
        Some(o) => {
            let ls = option_lines(o);
            if ls.len() == 0 {
                None
            } else {
                Some(join_with(ls, seq!['\n']))
            }
        },
    }
}

/// Body of an RPC's options fence; `None` when the RPC has no options to show.
pub fn synthesize_method_options_body(method: &MethodDesc) -> (r: Option<String>)
    ensures
        match options_body_spec(*method) {
            Some(v) => r matches Some(s) && s@ == v,
            None => r is None,
        },
{
    let opts = match &method.options {
        Some(o) => o,
        None => {
            return None;
        },
    };
    let mut ls: Vec<Vec<char>> = Vec::new();
    if opts.deprecated == Some(true) {
        ls.push(chars_of("option deprecated = true;"));
    }
    match opts.idempotency_level {
        Some(level) => match idempotency_level_name(level) {
            Some(n) => {
                let mut l = String::new();
                l.append("option idempotency_level = ");
                l.append(n);
                l.append(";");
                ls.push(chars_of(l.as_str()));
            },
            None => {},
        },
        None => {},
    }
    let ghost head = ls@.map_values(|x: Vec<char>| x@);
    assert(head =~= (if opts.deprecated == Some(true) {
        seq!["option deprecated = true;"@]
    } else {
        Seq::empty()
    }) + (match opts.idempotency_level {
        Some(l) => match idempotency_name_spec(l) {
            Some(n) => seq!["option idempotency_level = "@ + n + ";"@],
            None => Seq::empty(),
        },
        None => Seq::empty(),
    }));
    let mut i: usize = 0;
    while i < opts.uninterpreted_option.len()
        invariant
            i <= opts.uninterpreted_option.len(),
            ls@.map_values(|x: Vec<char>| x@) == head + uninterpreted_lines(
                opts.uninterpreted_option@.take(i as int),
            ),
        decreases opts.uninterpreted_option.len() - i,
    {
        let ghost before = ls@.map_values(|x: Vec<char>| x@);
        let uo = &opts.uninterpreted_option[i];
        proof {
            let t = opts.uninterpreted_option@.take(i + 1);
            assert(t.drop_last() =~= opts.uninterpreted_option@.take(i as int));
            assert(t.last() == *uo);
        }
        match format_uninterpreted_option(uo) {
            Some(line) => {
                ls.push(chars_of(line.as_str()));
                assert(ls@.map_values(|x: Vec<char>| x@) =~= before.push(line@));
            },
            None => {},
        }
        i = i + 1;
        assert(ls@.map_values(|x: Vec<char>| x@) =~= head + uninterpreted_lines(
            opts.uninterpreted_option@.take(i as int),
        ));
    }
    assert(opts.uninterpreted_option@.take(opts.uninterpreted_option.len() as int)
        =~= opts.uninterpreted_option@);
    if ls.len() == 0 {
        None
    } else {
        let mut sep: Vec<char> = Vec::new();
        sep.push('\n');
        assert(sep@ =~= seq!['\n']);
        Some(crate::text::string_of(&crate::text::join_chars(&ls, &sep)))
    }
}

/// One RPC: signature line, options fence, then its doc comment.
pub open spec fn rpc_section_spec(
    locs: Seq<Location>,
    si: int,
    mi: int,
    m: MethodDesc,
    cv: CtxView,
) -> Seq<char> {
    rpc_signature_spec(m, cv) + "\n\n"@ + (match options_body_spec(m) {
        Some(b) => fence_spec("protobuf"@, b),
        None => Seq::<char>::empty(),
    }) + doc_block(
        leading_spec(locs, seq![FILE_SERVICE, si as i32, SVC_METHOD, mi as i32]),
        mode_of(cv),
    )
}

/// The RPC sections of a service, in order.
pub open spec fn rpc_sections_spec(
    locs: Seq<Location>,
    si: int,
    ms: Seq<MethodDesc>,
    cv: CtxView,
) -> Seq<char>
    decreases ms.len(),
{
    if ms.len() == 0 {
        Seq::<char>::empty()
    } else {
        rpc_sections_spec(locs, si, ms.drop_last(), cv) + rpc_section_spec(
            locs,
            si,
            ms.len() - 1,
            ms.last(),
            cv,
        )
    }
}

/// Service: heading, file caption, service doc, then each RPC.
pub open spec fn service_spec(
    file_name: Seq<char>,
    locs: Seq<Location>,
    si: int,
    svc: ServiceDesc,
    level: nat,
    cv: CtxView,
) -> Seq<char> {
    md_heading_spec(level, or_default(svc.name, "Service"@)) + file_caption(file_name) + doc_block(
        leading_spec(locs, seq![FILE_SERVICE, si as i32]),
        mode_of(cv),
    ) + rpc_sections_spec(locs, si, svc.method@, cv)
}

fn push_doc(out: &mut String, c: &Option<String>, mode: EscapeTags)
    ensures
        final(out)@ == old(out)@ + doc_block(opt_view(*c), mode),
{
    match c {
        Some(t) => push_markdown_doc(out, t.as_str(), mode),
        None => {},
    }
    assert(out@ =~= old(out)@ + doc_block(opt_view(*c), mode));
}

fn push_rpc_section(
    out: &mut String,
    idx: &CommentIndex,
    si: usize,
    mi: usize,
    method: &MethodDesc,
    ctx: Option<&RenderContext>,
)
    ensures
        final(out)@ == old(out)@ + rpc_section_spec(idx.locations@, si as int, mi as int, *method, ctx_view(ctx)),
{
    out.append(rpc_signature_markdown(method, ctx).as_str());
    out.append("\n\n");
    match synthesize_method_options_body(method) {
        Some(body) => push_proto_fence_body(out, body.as_str()),
        None => {},
    }
    push_doc(out, &idx.leading_method(si, mi), mode_exec(ctx));
    assert(out@ =~= old(out)@ + rpc_section_spec(idx.locations@, si as int, mi as int, *method, ctx_view(ctx)));
}

/// Service: heading at `service_heading_level`, file caption, service doc, then each
/// RPC (signature, options, doc).
pub fn synthesize_service(
    file_name: &str,
    idx: &CommentIndex,
    si: usize,
    svc: &ServiceDesc,
    service_heading_level: usize,
    ctx: Option<&RenderContext>,
) -> (r: String)
    ensures
        r@ == service_spec(file_name@, idx.locations@, si as int, *svc, service_heading_level as nat, ctx_view(ctx)),
{
    let mut out = md_heading(service_heading_level, name_or(&svc.name, "Service").as_str());
    push_file_caption(&mut out, file_name);
    push_doc(&mut out, &idx.leading_service(si), mode_exec(ctx));
    let ghost base = out@;
    let mut mi: usize = 0;
    while mi < svc.method.len()
        invariant
            mi <= svc.method.len(),
            out@ == base + rpc_sections_spec(idx.locations@, si as int, svc.method@.take(mi as int), ctx_view(ctx)),
        decreases svc.method.len() - mi,
    {
        push_rpc_section(&mut out, idx, si, mi, &svc.method[mi], ctx);
        proof {
            let t = svc.method@.take(mi + 1);
            assert(t.drop_last() =~= svc.method@.take(mi as int));
            assert(t.last() == svc.method@[mi as int]);
        }
        mi = mi + 1;
        assert(out@ =~= base + rpc_sections_spec(idx.locations@, si as int, svc.method@.take(mi as int), ctx_view(ctx)));
    }
    assert(svc.method@.take(svc.method.len() as int) =~= svc.method@);
    out
}

// ----- messages -----

/// Keyword of a scalar field type.
pub open spec fn scalar_name_spec(t: FieldType) -> Seq<char> {
    match t {
        FieldType::Double => "double"@,
        FieldType::Float => "float"@,
        FieldType::Int64 => "int64"@,
        FieldType::Uint64 => "uint64"@,
        FieldType::Int32 => "int32"@,
        FieldType::Fixed64 => "fixed64"@,
        FieldType::Fixed32 => "fixed32"@,
        FieldType::Bool => "bool"@,
        FieldType::String => "string"@,
        FieldType::Group => "group"@,
        FieldType::Message => "message"@,
        FieldType::Bytes => "bytes"@,
        FieldType::Uint32 => "uint32"@,
        FieldType::Enum => "enum"@,
        FieldType::Sfixed32 => "sfixed32"@,
        FieldType::Sfixed64 => "sfixed64"@,
        FieldType::Sint32 => "sint32"@,
        FieldType::Sint64 => "sint64"@,
    }
}

/// Keyword of a scalar field type; `None` when the type is absent.
pub fn scalar_type_name(ty: Option<FieldType>) -> (r: Option<&'static str>)
    ensures
        match ty {
            Some(t) => r matches Some(s) && s@ == scalar_name_spec(t),
            None => r is None,
        },
{
    let t = match ty {
        Some(t) => t,
        None => {
            return None;
        },
    };
    Some(
        match t {
            FieldType::Double => "double",
            FieldType::Float => "float",
            FieldType::Int64 => "int64",
            FieldType::Uint64 => "uint64",
            FieldType::Int32 => "int32",
            FieldType::Fixed64 => "fixed64",
            FieldType::Fixed32 => "fixed32",
            FieldType::Bool => "bool",
            FieldType::String => "string",
            FieldType::Group => "group",
            FieldType::Message => "message",
            FieldType::Bytes => "bytes",
            FieldType::Uint32 => "uint32",
            FieldType::Enum => "enum",
            FieldType::Sfixed32 => "sfixed32",
            FieldType::Sfixed64 => "sfixed64",
            FieldType::Sint32 => "sint32",
            FieldType::Sint64 => "sint64",
        },
    )
}

/// Type of a field as written in a `.proto` file: its message or enum type without
/// the leading dot, else its scalar keyword, else `bytes`.
pub open spec fn field_type_spec(f: FieldDesc) -> Seq<char> {
    match f.type_ref {
        Some(t) => strip_dot_spec(t@),
        None => match f.field_type {
            Some(t) => scalar_name_spec(t),
            None => "bytes"@,
        },
    }
}

/// Type of a field as written in a `.proto` file.
pub fn field_type_name(field: &FieldDesc) -> (r: String)
    ensures
        r@ == field_type_spec(*field),
{
    match &field.type_ref {
        Some(t) => strip_leading_dot(t.as_str()),
        None => match scalar_type_name(field.field_type) {
            Some(n) => to_string(n),
            None => to_string("bytes"),
        },
    }
}

/// `repeated `, `optional ` (proto3 explicit presence) or nothing.
pub open spec fn label_spec(f: FieldDesc) -> Seq<char> {
    match f.label {
        Some(FieldLabel::Repeated) => "repeated "@,
        _ => if f.proto3_optional == Some(true) {
            "optional "@
        } else {
            Seq::<char>::empty()
        },
    }
}

/// `{indent}{label}{type} {name} = {number};` and a newline.
pub open spec fn field_line_spec(f: FieldDesc, indent: Seq<char>) -> Seq<char> {
    indent + label_spec(f) + field_type_spec(f) + " "@ + or_default(f.name, "field"@) + " = "@
        + dec_signed(
        match f.number {
            Some(n) => n as int,
            None => 0,
        },
    ) + ";\n"@
}

/// Appends a field declaration synthesized from its descriptor.
pub fn append_field(out: &mut String, field: &FieldDesc, indent: &str)
    ensures
        final(out)@ == old(out)@ + field_line_spec(*field, indent@),
{
    let label = match field.label {
        Some(FieldLabel::Repeated) => "repeated ",
        _ => if field.proto3_optional == Some(true) {
            "optional "
        } else {
            ""
        },
    };
    proof {
        reveal_strlit("");
    }
    out.append(indent);
    out.append(label);
    out.append(field_type_name(field).as_str());
    out.append(" ");
    out.append(name_or(&field.name, "field").as_str());
    out.append(" = ");
    let n: i32 = match field.number {
        Some(n) => n,
        None => 0,
    };
    out.append(decimal_signed(n as i64).as_str());
    out.append(";\n");
    assert(out@ =~= old(out)@ + field_line_spec(*field, indent@));
}

/// Optional source text as plain characters.
pub open spec fn src_view(o: Option<&str>) -> Option<Seq<char>> {
    match o {
        Some(s) => Some(s@),
        None => None,
    }
}

/// A field: its `//` comment lines, then its source span when the source is at hand
/// and has one, else a declaration synthesized from the descriptor.
pub open spec fn field_text_spec(
    locs: Seq<Location>,
    mi: int,
    fi: int,
    f: FieldDesc,
    indent: Seq<char>,
    src: Option<Seq<char>>,
) -> Seq<char> {
    let p = seq![FILE_MESSAGE, mi as i32, MSG_FIELD, fi as i32];
    comment_lines(leading_spec(locs, p)) + match src {
        Some(s) => match snippet_spec(locs, s, p) {
            Some(sn) => indented_spec(lines_of(sn), indent),
            None => field_line_spec(f, indent),
        },
        None => field_line_spec(f, indent),
    }
}

fn synthesize_message_field(
    body: &mut String,
    idx: &CommentIndex,
    mi: usize,
    fi: usize,
    field: &FieldDesc,
    indent: &str,
    file_source: Option<&str>,
)
    ensures
        final(body)@ == old(body)@ + field_text_spec(
            idx.locations@,
            mi as int,
            fi as int,
            *field,
            indent@,
            src_view(file_source),
        ),
{
    push_comment_lines(body, &idx.leading_message_field(mi, fi));
    let ghost mid = body@;
    match file_source {
        Some(src) => {
            let p = path4(FILE_MESSAGE, mi as i32, MSG_FIELD, fi as i32);
            match idx.span_snippet(src, &p) {
                Some(snippet) => push_indented_lines(body, snippet.as_str(), indent),
                None => append_field(body, field, indent),
            }
        },
        None => append_field(body, field, indent),
    }
}

/// Source span of a `oneof` block, when the source is at hand and the span holds the
/// word `oneof`.
pub open spec fn oneof_span_spec(locs: Seq<Location>, mi: int, oi: i32, src: Option<Seq<char>>) -> Option<Seq<char>> {
    match src {
        None => None,
        Some(s) => match snippet_spec(locs, s, seq![FILE_MESSAGE, mi as i32, MSG_ONEOF, oi]) {
            Some(sn) => if contains_sub(sn, "oneof"@) {
                Some(sn)
            } else {
                None
            },
            None => None,
        },
    }
}

fn try_push_oneof_span(
    body: &mut String,
    idx: &CommentIndex,
    mi: usize,
    oi: i32,
    file_source: Option<&str>,
) -> (r: bool)
    ensures
        match oneof_span_spec(idx.locations@, mi as int, oi, src_view(file_source)) {
            Some(sn) => r && final(body)@ == old(body)@ + indented_spec(lines_of(sn), "  "@),
            None => !r && final(body)@ == old(body)@,
        },
{
    let src = match file_source {
        Some(s) => s,
        None => {
            return false;
        },
    };
    let p = path4(FILE_MESSAGE, mi as i32, MSG_ONEOF, oi);
    let snippet = match idx.span_snippet(src, &p) {
        Some(s) => s,
        None => {
            return false;
        },
    };
    if !str_contains(snippet.as_str(), "oneof") {
        return false;
    }
    push_indented_lines(body, snippet.as_str(), "  ");
    true
}

/// Name of `oneof` number `oi`, or `payload`.
pub open spec fn oneof_name_spec(msg: MessageDesc, oi: i32) -> Seq<char> {
    if 0 <= oi < msg.oneof_decl.len() {
        or_default(msg.oneof_decl@[oi as int].name, "payload"@)
    } else {
        "payload"@
    }
}

fn oneof_name(msg: &MessageDesc, oi: i32) -> (r: String)
    ensures
        r@ == oneof_name_spec(*msg, oi),
{
    if oi >= 0 && (oi as usize) < msg.oneof_decl.len() {
        name_or(&msg.oneof_decl[oi as usize].name, "payload")
    } else {
        to_string("payload")
    }
}

/// End of the run of fields from `j` that belong to `oneof` number `oi`.
pub open spec fn group_end(fs: Seq<FieldDesc>, j: int, oi: i32) -> int
    decreases fs.len() - j,
{
    if j < 0 || j >= fs.len() || fs[j].oneof_index != Some(oi) {
        j
    } else {
        group_end(fs, j + 1, oi)
    }
}

proof fn lemma_group_end(fs: Seq<FieldDesc>, j: int, oi: i32)
    requires
        0 <= j <= fs.len(),
    ensures
        j <= group_end(fs, j, oi) <= fs.len(),
        j < fs.len() && fs[j].oneof_index == Some(oi) ==> group_end(fs, j, oi) > j,
    decreases fs.len() - j,
{
    if j < fs.len() && fs[j].oneof_index == Some(oi) {
        lemma_group_end(fs, j + 1, oi);
    }
}

/// Fields `j..end` of a `oneof` block, indented one level deeper.
pub open spec fn group_fields_spec(
    locs: Seq<Location>,
    mi: int,
    fs: Seq<FieldDesc>,
    src: Option<Seq<char>>,
    j: int,
    end: int,
) -> Seq<char>
    decreases end - j,
{
    if j >= end || j < 0 || j >= fs.len() {
        Seq::<char>::empty()
    } else {
        field_text_spec(locs, mi, j, fs[j], "    "@, src) + group_fields_spec(locs, mi, fs, src, j + 1, end)
    }
}

/// Message fields from `fi` on; each run of fields of one `oneof` becomes a block
/// (its source span when available, else `oneof name { ... }`).
pub open spec fn fields_from(
    locs: Seq<Location>,
    mi: int,
    msg: MessageDesc,
    src: Option<Seq<char>>,
    fi: int,
) -> Seq<char>
    decreases msg.field@.len() - fi,
{
    let fs = msg.field@;
    if fi < 0 || fi >= fs.len() {
        Seq::<char>::empty()
    } else {
        match fs[fi].oneof_index {
            Some(oi) => {
                let end = group_end(fs, fi, oi);
                if end <= fi || end > fs.len() {
                    Seq::<char>::empty()
                } else {
                    match oneof_span_spec(locs, mi, oi, src) {
                        Some(sn) => indented_spec(lines_of(sn), "  "@) + fields_from(locs, mi, msg, src, end),
                        None => "  oneof "@ + oneof_name_spec(msg, oi) + " {\n"@ + group_fields_spec(
                            locs,
                            mi,
                            fs,
                            src,
                            fi,
                            end,
                        ) + "  }\n"@ + fields_from(locs, mi, msg, src, end),
                    }
                }
            },
            None => field_text_spec(locs, mi, fi, fs[fi], "  "@, src) + fields_from(locs, mi, msg, src, fi + 1),
        }
    }
}

fn in_group(f: &FieldDesc, oi: i32) -> (r: bool)
    ensures
        r == (f.oneof_index == Some(oi)),
{
    match f.oneof_index {
        Some(o) => o == oi,
        None => false,
    }
}

fn skip_group(msg: &MessageDesc, fi: usize, oi: i32) -> (r: usize)
    requires
        fi <= msg.field.len(),
    ensures
        r == group_end(msg.field@, fi as int, oi),
{
    let mut j = fi;
    while j < msg.field.len() && in_group(&msg.field[j], oi)
        invariant
            fi <= j <= msg.field.len(),
            group_end(msg.field@, fi as int, oi) == group_end(msg.field@, j as int, oi),
        decreases msg.field.len() - j,
    {
        j = j + 1;
    }
    j
}

fn push_oneof_fields(
    body: &mut String,
    idx: &CommentIndex,
    mi: usize,
    msg: &MessageDesc,
    fi: usize,
    oi: i32,
    file_source: Option<&str>,
) -> (r: usize)
    requires
        fi <= msg.field.len(),
    ensures
        r == group_end(msg.field@, fi as int, oi),
        final(body)@ == old(body)@ + group_fields_spec(
            idx.locations@,
            mi as int,
            msg.field@,
            src_view(file_source),
            fi as int,
            r as int,
        ),
{
    let ghost fs = msg.field@;
    let ghost end = group_end(fs, fi as int, oi);
    proof {
        lemma_group_end(fs, fi as int, oi);
    }
    let mut j = fi;
    while j < msg.field.len() && in_group(&msg.field[j], oi)
        invariant
            fi <= j <= end <= msg.field.len(),
            fs == msg.field@,
            end == group_end(fs, fi as int, oi),
            end == group_end(fs, j as int, oi),
            body@ + group_fields_spec(idx.locations@, mi as int, fs, src_view(file_source), j as int, end)
                == old(body)@ + group_fields_spec(
                idx.locations@,
                mi as int,
                fs,
                src_view(file_source),
                fi as int,
                end,
            ),
        decreases msg.field.len() - j,
    {
        proof {
            lemma_group_end(fs, j + 1, oi);
        }
        let ghost b0 = body@;
        synthesize_message_field(body, idx, mi, j, &msg.field[j], "    ", file_source);
        j = j + 1;
        assert(body@ + group_fields_spec(idx.locations@, mi as int, fs, src_view(file_source), j as int, end)
            =~= b0 + group_fields_spec(idx.locations@, mi as int, fs, src_view(file_source), j - 1, end));
    }
    j
}

fn synthesize_message_fields(
    body: &mut String,
    idx: &CommentIndex,
    mi: usize,
    msg: &MessageDesc,
    file_source: Option<&str>,
)
    ensures
        final(body)@ == old(body)@ + fields_from(idx.locations@, mi as int, *msg, src_view(file_source), 0),
{
    let ghost locs = idx.locations@;
    let ghost src = src_view(file_source);
    let ghost fs = msg.field@;
    let mut fi: usize = 0;
    while fi < msg.field.len()
        invariant
            fi <= msg.field.len(),
            locs == idx.locations@,
            src == src_view(file_source),
            fs == msg.field@,
            body@ + fields_from(locs, mi as int, *msg, src, fi as int) == old(body)@ + fields_from(
                locs,
                mi as int,
                *msg,
                src,
                0,
            ),
        decreases msg.field.len() - fi,
    {
        let ghost b0 = body@;
        let ghost f0 = fi as int;
        let field = &msg.field[fi];
        match field.oneof_index {
            Some(oi) => {
                proof {
                    lemma_group_end(fs, fi as int, oi);
                }
                if try_push_oneof_span(body, idx, mi, oi, file_source) {
                    fi = skip_group(msg, fi, oi);
                } else {
                    body.append("  oneof ");
                    body.append(oneof_name(msg, oi).as_str());
                    body.append(" {\n");
                    fi = push_oneof_fields(body, idx, mi, msg, fi, oi, file_source);
                    body.append("  }\n");
                }
                assert(body@ + fields_from(locs, mi as int, *msg, src, fi as int) =~= b0 + fields_from(
                    locs,
                    mi as int,
                    *msg,
                    src,
                    f0,
                ));
            },
            None => {
                synthesize_message_field(body, idx, mi, fi, field, "  ", file_source);
                fi = fi + 1;
                assert(body@ + fields_from(locs, mi as int, *msg, src, fi as int) =~= b0 + fields_from(
                    locs,
                    mi as int,
                    *msg,
                    src,
                    f0,
                ));
            },
        }
    }
}

/// Snippet of a message's own options, indented, when the source is at hand.
pub open spec fn message_options_spec(locs: Seq<Location>, mi: int, src: Option<Seq<char>>) -> Seq<char> {
    match src {
        Some(s) => match snippet_spec(locs, s, seq![FILE_MESSAGE, mi as i32, MSG_OPTIONS]) {
            Some(sn) => indented_spec(lines_of(sn), "  "@),
            None => Seq::<char>::empty(),
        },
        None => Seq::<char>::empty(),
    }
}

/// `message Name { ... }` body of a message fence.
pub open spec fn message_body_spec(locs: Seq<Location>, mi: int, msg: MessageDesc, src: Option<Seq<char>>) -> Seq<char> {
    "message "@ + or_default(msg.name, "Message"@) + " {\n"@ + message_options_spec(locs, mi, src)
        + fields_from(locs, mi, msg, src, 0) + "}\n"@
}

/// Message: leading comment as Markdown, then a `protobuf` fence with the definition
/// (and `cel` fences for its Protovalidate message rules).
pub open spec fn message_spec(
    file_name: Seq<char>,
    locs: Seq<Location>,
    mi: int,
    msg: MessageDesc,
    src: Option<Seq<char>>,
    mode: EscapeTags,
) -> Seq<char> {
    render_fence_spec(
        file_name,
        leading_spec(locs, seq![FILE_MESSAGE, mi as i32]),
        message_body_spec(locs, mi, msg, src),
        mode,
    )
}

/// Message: leading comment as Markdown, then a `protobuf` fence with the definition.
/// With the file's source text, option and field declarations keep their source form.
pub fn synthesize_message_with_file(
    file_name: &str,
    idx: &CommentIndex,
    mi: usize,
    msg: &MessageDesc,
    file_source: Option<&str>,
    ctx: Option<&RenderContext>,
) -> (r: String)
    ensures
        r@ == message_spec(file_name@, idx.locations@, mi as int, *msg, src_view(file_source), mode_of(ctx_view(ctx))),
{
    let mut body = String::new();
    body.append("message ");
    body.append(name_or(&msg.name, "Message").as_str());
    body.append(" {\n");
    match file_source {
        Some(src) => {
            let p = path3(FILE_MESSAGE, mi as i32, MSG_OPTIONS);
            match idx.span_snippet(src, &p) {
                Some(snippet) => push_indented_lines(&mut body, snippet.as_str(), "  "),
                None => {},
            }
        },
        None => {},
    }
    let ghost mid = body@;
    synthesize_message_fields(&mut body, idx, mi, msg, file_source);
    body.append("}\n");
    assert(body@ =~= message_body_spec(idx.locations@, mi as int, *msg, src_view(file_source)));
    render_proto_fence(file_name, &idx.leading_message(mi), body.as_str(), mode_exec(ctx))
}


/// `stream ` when the flag is set, nothing otherwise.
pub open spec fn stream_if(flag: Option<bool>) -> Seq<char> {
    if flag == Some(true) {
        "stream "@
    } else {
        Seq::<char>::empty()
    }
}

/// An RPC's signature puts `stream ` before its request exactly when the client
/// streams, and before its response exactly when the server streams; otherwise it is
/// the bold name, the request link and the response link between `( … ) returns ( … )`.
pub proof fn law_rpc_signature_streams_follow_flags(m: MethodDesc, cv: CtxView)
    ensures
        rpc_signature_spec(m, cv) == "**"@ + or_default(m.name, "Rpc"@) + "** ( "@ + stream_if(m.client_streaming)
            + type_link_spec(cv, or_default(m.input_type, ".google.protobuf.Empty"@)) + " ) returns ( "@
            + stream_if(m.server_streaming) + type_link_spec(cv, or_default(m.output_type, ".google.protobuf.Empty"@))
            + " )"@,
{
}

/// A field declaration synthesized from a descriptor opens, after the indent, with
/// `repeated ` when the field is repeated, with `optional ` when it is a proto3
/// optional field that is not repeated, and with its type otherwise: the line keeps
/// the field's cardinality.
pub proof fn law_field_line_keeps_cardinality(f: FieldDesc, indent: Seq<char>)
    ensures
        field_line_spec(f, indent).take(indent.len() as int) == indent,
        f.label == Some(FieldLabel::Repeated) ==> field_line_spec(f, indent).subrange(
            indent.len() as int,
            (indent.len() + 9) as int,
        ) == "repeated "@,
        f.label != Some(FieldLabel::Repeated) && f.proto3_optional == Some(true) ==> field_line_spec(
            f,
            indent,
        ).subrange(indent.len() as int, (indent.len() + 9) as int) == "optional "@,
        f.label != Some(FieldLabel::Repeated) && f.proto3_optional != Some(true) ==> field_line_spec(
            f,
            indent,
        ).subrange(indent.len() as int, (indent.len() + field_type_spec(f).len()) as int) == field_type_spec(f),
{
    reveal_strlit("repeated ");
    reveal_strlit("optional ");
    let rest = field_type_spec(f) + " "@ + or_default(f.name, "field"@) + " = "@ + dec_signed(
        match f.number {
            Some(n) => n as int,
            None => 0,
        },
    ) + ";\n"@;
    let l = label_spec(f);
    assert(field_line_spec(f, indent) =~= indent + l + rest);
    assert((indent + l + rest).take(indent.len() as int) =~= indent);
    if f.label == Some(FieldLabel::Repeated) || f.proto3_optional == Some(true) {
        assert(l.len() == 9);
        assert((indent + l + rest).subrange(indent.len() as int, (indent.len() + 9) as int) =~= l);
    } else {
        assert(l.len() == 0);
        assert((indent + l + rest).subrange(indent.len() as int, (indent.len() + field_type_spec(f).len()) as int)
            =~= field_type_spec(f));
    }
}

} // verus!
