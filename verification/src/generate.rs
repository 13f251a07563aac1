//! Documentation generation: the files produced for a set of descriptors and options.

use crate::descriptor::{EnumDesc, FileDesc, MessageDesc, ServiceDesc};
use crate::init::{merge_init_files, merge_spec, set_all, set_all_exec, stub_paths_spec, init_stub_paths};
use crate::kvmap::{kv_insert, kv_set, kv_view, KvView};
use crate::links::{EntityKind, LinkContext};
use crate::options::{opt_view, parse_parameter, parse_parameter_spec, options_result_view, Layout, Options, OptionsError, OptionsModel};
use crate::proto_markdown::{
    companion_output_path, companion_view, companions_spec, discover_companion_docs, proto_dirs_spec,
    CompanionDoc, CompanionView, FoundMarkdown,
};
use crate::proto_syntax::or_default;
use crate::render::{
    entity_page_rel, entity_pages_spec, enum_pages, file_pages, index_page_spec, message_pages,
    package_page_doc, service_pages,
    all_entities, all_pages_linkable, build_link_context, docs_spec, docs_view, entity_visits,
    groups_view, named_enums, named_messages, named_services, package_entities,
    packages_map, packages_spec, pages_linkable, render_all, visits_linkable,
    GeneratedDoc, PackageGroup, SourceCache,
};
use crate::summary::{render_summary, summary_doc_spec, summary_linkable};
use crate::paths::join_book_root_spec;
use crate::text::{chars_eq, chars_of, starts_with, str_eq, to_string, views};
use vstd::prelude::*;

verus! {

/// Inputs for documentation generation (a plugin request, or descriptors resolved by
/// the CLI).
pub struct GenerateInput {
    pub proto_file: Vec<FileDesc>,
    pub file_to_generate: Vec<String>,
    /// Plugin options (`request.parameter` / `--mdbook_opt=`).
    pub parameter: Option<String>,
    /// Options parsed by the CLI (these win over `parameter`).
    pub options: Option<Options>,
    /// Search roots resolved by the CLI; the plugin leaves this empty and uses
    /// `proto_path=` in the parameter.
    pub proto_search_paths: Vec<String>,
}

/// Why generation was refused.
pub enum GenerateError {
    /// The request names no file to document.
    EmptyFileToGenerate,
    /// The plugin parameter was refused.
    Options(OptionsError),
}

/// Text of a refused generation.
pub open spec fn generate_error_message(e: GenerateError) -> Seq<char> {
    match e {
        GenerateError::EmptyFileToGenerate => "file_to_generate is empty"@,
        GenerateError::Options(o) => crate::options::options_error_message(o@),
    }
}

impl GenerateError {
    /// Human-readable description.
    pub fn message(&self) -> (m: String)
        ensures
            m@ == generate_error_message(*self),
    {
        match self {
            GenerateError::EmptyFileToGenerate => to_string("file_to_generate is empty"),
            GenerateError::Options(e) => e.message(),
        }
    }
}

/// Options of a generation: the CLI's, else the parsed parameter; refused when no
/// file is requested or the parameter is refused.
pub fn resolve_generate_options(input: &GenerateInput) -> (r: Result<Options, GenerateError>)
    ensures
        input.file_to_generate.len() == 0 ==> r matches Err(GenerateError::EmptyFileToGenerate),
        input.file_to_generate.len() > 0 ==> match input.options {
            Some(o) => r matches Ok(p) && p@ == o@,
            None => match parse_parameter_spec(opt_view(input.parameter)) {
                Ok(m) => r matches Ok(p) && p@ == m,
                Err(e) => r matches Err(GenerateError::Options(x)) && x@ == e,
            },
        },
{
    if input.file_to_generate.len() == 0 {
        return Err(GenerateError::EmptyFileToGenerate);
    }
    match &input.options {
        Some(o) => Ok(o.duplicate()),
        None => match parse_parameter(&input.parameter) {
            Ok(o) => Ok(o),
            Err(e) => Err(GenerateError::Options(e)),
        },
    }
}

/// Search roots resolved by the CLI replace the configured ones.
pub fn apply_search_paths(opts: &mut Options, proto_search_paths: &Vec<String>)
    ensures
        proto_search_paths.len() == 0 ==> final(opts)@ == old(opts)@,
        proto_search_paths.len() > 0 ==> final(opts)@ == (OptionsModel {
            proto_search_path: views(proto_search_paths@),
            ..old(opts)@
        }),
{
    if proto_search_paths.len() > 0 {
        opts.proto_search_path = crate::options::copy_strings(proto_search_paths);
    }
}

/// Every message, enum and service of a file has a name.
pub open spec fn file_named(f: FileDesc) -> bool {
    &&& forall|i: int| 0 <= i < f.message_type.len() ==> (#[trigger] f.message_type@[i]).name is Some
    &&& forall|i: int| 0 <= i < f.enum_type.len() ==> (#[trigger] f.enum_type@[i]).name is Some
    &&& forall|i: int| 0 <= i < f.service.len() ==> (#[trigger] f.service@[i]).name is Some
}


/// Every message, enum and service of every file filed under a package has a name.
pub open spec fn groups_named(m: Seq<PackageGroup>) -> bool {
    forall|g: int, q: int| 0 <= g < m.len() && 0 <= q < m[g].1.len() ==> file_named(#[trigger] m[g].1[q].1)
}

fn file_is_named(f: &FileDesc) -> (r: bool)
    ensures
        r == file_named(*f),
{
    let mut k: usize = 0;
    while k < f.message_type.len()
        invariant
            k <= f.message_type.len(),
            forall|j: int| 0 <= j < k ==> (#[trigger] f.message_type@[j]).name is Some,
        decreases f.message_type.len() - k,
    {
        if f.message_type[k].name.is_none() {
            return false;
        }
        k = k + 1;
    }
    let mut k: usize = 0;
    while k < f.enum_type.len()
        invariant
            k <= f.enum_type.len(),
            forall|j: int| 0 <= j < k ==> (#[trigger] f.enum_type@[j]).name is Some,
        decreases f.enum_type.len() - k,
    {
        if f.enum_type[k].name.is_none() {
            return false;
        }
        k = k + 1;
    }
    let mut k: usize = 0;
    while k < f.service.len()
        invariant
            k <= f.service.len(),
            forall|j: int| 0 <= j < k ==> (#[trigger] f.service@[j]).name is Some,
        decreases f.service.len() - k,
    {
        if f.service[k].name.is_none() {
            return false;
        }
        k = k + 1;
    }
    true
}

/// Every message, enum and service of every file that `input` asks for has a name.
pub fn requested_named(input: &GenerateInput) -> (r: bool)
    ensures
        r == groups_named(packages_spec(input.proto_file@, views(input.file_to_generate@))),
{
    let m = packages_map(&input.proto_file, &input.file_to_generate);
    let ghost gm = groups_view(m@);
    let mut g: usize = 0;
    while g < m.len()
        invariant
            g <= m.len(),
            gm == groups_view(m@),
            gm == packages_spec(input.proto_file@, views(input.file_to_generate@)),
            forall|a: int, q: int| 0 <= a < g && 0 <= q < gm[a].1.len() ==> file_named(#[trigger] gm[a].1[q].1),
        decreases m.len() - g,
    {
        let fs = &m[g].1;
        let mut q: usize = 0;
        while q < fs.len()
            invariant
                g < m.len(),
                q <= fs.len(),
                fs == m@[g as int].1,
                gm == groups_view(m@),
                gm == packages_spec(input.proto_file@, views(input.file_to_generate@)),
                forall|a: int, b: int| 0 <= a < g && 0 <= b < gm[a].1.len() ==> file_named(#[trigger] gm[a].1[b].1),
                forall|b: int| 0 <= b < q ==> file_named(#[trigger] gm[g as int].1[b].1),
            decreases fs.len() - q,
        {
            assert(gm[g as int].1[q as int].1 == *fs@[q as int].1);
            if !file_is_named(fs[q].1) {
                assert(gm[g as int].1.len() == fs.len());
                assert(!file_named(gm[g as int].1[q as int].1));
                return false;
            }
            q = q + 1;
        }
        assert forall|a: int, b: int| 0 <= a < g + 1 && 0 <= b < gm[a].1.len() implies file_named(#[trigger] gm[a].1[b].1) by {
            if a == g {
                assert(gm[a].1.len() == fs.len());
            }
        }
        g = g + 1;
    }
    true
}

proof fn lemma_all_entities_contains(m: Seq<PackageGroup>, i: int, e: (Seq<char>, EntityKind, Seq<char>))
    requires
        0 <= i < m.len(),
        package_entities(m[i].0, m[i].1).contains(e),
    ensures
        all_entities(m).contains(e),
    decreases m.len(),
{
    let pre = all_entities(m.drop_last());
    let last = package_entities(m.last().0, m.last().1);
    if i == m.len() - 1 {
        let j = choose|j: int| 0 <= j < last.len() && last[j] == e;
        assert((pre + last)[pre.len() + j] == e);
    } else {
        assert(m.drop_last()[i] == m[i]);
        lemma_all_entities_contains(m.drop_last(), i, e);
        let j = choose|j: int| 0 <= j < pre.len() && pre[j] == e;
        assert((pre + last)[j] == e);
    }
}

proof fn lemma_visit_entity(pkg: Seq<char>, files: Seq<(Seq<char>, FileDesc)>, v: (EntityKind, Seq<char>, int, int))
    requires
        entity_visits(files).contains(v),
    ensures
        package_entities(pkg, files).contains((pkg, v.0, v.1)),
{
    let vs = entity_visits(files);
    let j = choose|j: int| 0 <= j < vs.len() && vs[j] == v;
    assert(package_entities(pkg, files)[j] == (pkg, v.0, v.1));
}

proof fn lemma_named_messages(ms: Seq<MessageDesc>, p: int, i: int)
    requires
        0 <= i < ms.len(),
        ms[i].name is Some,
    ensures
        named_messages(ms, p).contains((EntityKind::Message, ms[i].name->0@, p, i)),
    decreases ms.len(),
{
    let pre = named_messages(ms.drop_last(), p);
    if i == ms.len() - 1 {
        assert(named_messages(ms, p)[pre.len() as int] == (EntityKind::Message, ms[i].name->0@, p, i));
    } else {
        assert(ms.drop_last()[i] == ms[i]);
        lemma_named_messages(ms.drop_last(), p, i);
        let j = choose|j: int| 0 <= j < pre.len() && pre[j] == (EntityKind::Message, ms[i].name->0@, p, i);
        assert(named_messages(ms, p)[j] == pre[j]);
    }
}

proof fn lemma_named_enums(es: Seq<EnumDesc>, p: int, i: int)
    requires
        0 <= i < es.len(),
        es[i].name is Some,
    ensures
        named_enums(es, p).contains((EntityKind::Enum, es[i].name->0@, p, i)),
    decreases es.len(),
{
    let pre = named_enums(es.drop_last(), p);
    if i == es.len() - 1 {
        assert(named_enums(es, p)[pre.len() as int] == (EntityKind::Enum, es[i].name->0@, p, i));
    } else {
        assert(es.drop_last()[i] == es[i]);
        lemma_named_enums(es.drop_last(), p, i);
        let j = choose|j: int| 0 <= j < pre.len() && pre[j] == (EntityKind::Enum, es[i].name->0@, p, i);
        assert(named_enums(es, p)[j] == pre[j]);
    }
}

proof fn lemma_named_services(ss: Seq<ServiceDesc>, p: int, i: int)
    requires
        0 <= i < ss.len(),
        ss[i].name is Some,
    ensures
        named_services(ss, p).contains((EntityKind::Service, ss[i].name->0@, p, i)),
    decreases ss.len(),
{
    let pre = named_services(ss.drop_last(), p);
    if i == ss.len() - 1 {
        assert(named_services(ss, p)[pre.len() as int] == (EntityKind::Service, ss[i].name->0@, p, i));
    } else {
        assert(ss.drop_last()[i] == ss[i]);
        lemma_named_services(ss.drop_last(), p, i);
        let j = choose|j: int| 0 <= j < pre.len() && pre[j] == (EntityKind::Service, ss[i].name->0@, p, i);
        assert(named_services(ss, p)[j] == pre[j]);
    }
}

proof fn lemma_file_visits(files: Seq<(Seq<char>, FileDesc)>, p: int, v: (EntityKind, Seq<char>, int, int))
    requires
        0 <= p < files.len(),
        ({
            let f = files[p].1;
            named_messages(f.message_type@, p).contains(v) || named_enums(f.enum_type@, p).contains(v)
                || named_services(f.service@, p).contains(v)
        }),
    ensures
        entity_visits(files).contains(v),
    decreases files.len(),
{
    let pre = entity_visits(files.drop_last());
    let q = files.len() - 1;
    let f = files.last().1;
    let a = named_messages(f.message_type@, q);
    let b = named_enums(f.enum_type@, q);
    let c = named_services(f.service@, q);
    let all = pre + a + b + c;
    assert(entity_visits(files) == all);
    if p == q {
        if a.contains(v) {
            let j = choose|j: int| 0 <= j < a.len() && a[j] == v;
            assert(all[pre.len() + j] == v);
        } else if b.contains(v) {
            let j = choose|j: int| 0 <= j < b.len() && b[j] == v;
            assert(all[pre.len() + a.len() + j] == v);
        } else {
            let j = choose|j: int| 0 <= j < c.len() && c[j] == v;
            assert(all[pre.len() + a.len() + b.len() + j] == v);
        }
    } else {
        assert(files.drop_last()[p] == files[p]);
        lemma_file_visits(files.drop_last(), p, v);
        let j = choose|j: int| 0 <= j < pre.len() && pre[j] == v;
        assert(all[j] == v);
    }
}

proof fn lemma_linkable(proto: Seq<FileDesc>, names: Seq<Seq<char>>, links: LinkContext)
    requires
        links.known() == all_entities(packages_spec(proto, names)),
    ensures
        forall|i: int| 0 <= i < packages_spec(proto, names).len() ==> visits_linkable(
            links,
            (#[trigger] packages_spec(proto, names)[i]).0,
            packages_spec(proto, names)[i].1,
        ),
        groups_named(packages_spec(proto, names)) ==> forall|i: int| 0 <= i < packages_spec(proto, names).len() ==> pages_linkable(
            links,
            (#[trigger] packages_spec(proto, names)[i]).0,
            packages_spec(proto, names)[i].1,
        ),
{
    let m = packages_spec(proto, names);
    assert forall|i: int| 0 <= i < m.len() implies visits_linkable(links, (#[trigger] m[i]).0, m[i].1) by {
        assert forall|v: (EntityKind, Seq<char>, int, int)| #[trigger] entity_visits(m[i].1).contains(v) implies links.has_entity(
            m[i].0,
            v.0,
            v.1,
        ) by {
            lemma_visit_entity(m[i].0, m[i].1, v);
            lemma_all_entities_contains(m, i, (m[i].0, v.0, v.1));
        }
    }
    if groups_named(m) {
        assert forall|i: int| 0 <= i < m.len() implies pages_linkable(links, (#[trigger] m[i]).0, m[i].1) by {
            let fs = m[i].1;
            let pkg = m[i].0;
            assert(visits_linkable(links, pkg, fs));
            assert forall|p: int, k: int| 0 <= p < fs.len() && 0 <= k < fs[p].1.message_type.len() implies links.has_entity(
                pkg,
                EntityKind::Message,
                or_default(#[trigger] fs[p].1.message_type@[k].name, "Message"@),
            ) by {
                assert(file_named(m[i].1[p].1));
                let ms = fs[p].1.message_type@;
                assert(ms[k].name is Some);
                lemma_named_messages(ms, p, k);
                lemma_file_visits(fs, p, (EntityKind::Message, ms[k].name->0@, p, k));
            }
            assert forall|p: int, k: int| 0 <= p < fs.len() && 0 <= k < fs[p].1.enum_type.len() implies links.has_entity(
                pkg,
                EntityKind::Enum,
                or_default(#[trigger] fs[p].1.enum_type@[k].name, "Enum"@),
            ) by {
                assert(file_named(m[i].1[p].1));
                let es = fs[p].1.enum_type@;
                assert(es[k].name is Some);
                lemma_named_enums(es, p, k);
                lemma_file_visits(fs, p, (EntityKind::Enum, es[k].name->0@, p, k));
            }
            assert forall|p: int, k: int| 0 <= p < fs.len() && 0 <= k < fs[p].1.service.len() implies links.has_entity(
                pkg,
                EntityKind::Service,
                or_default(#[trigger] fs[p].1.service@[k].name, "Service"@),
            ) by {
                assert(file_named(m[i].1[p].1));
                let ss = fs[p].1.service@;
                assert(ss[k].name is Some);
                lemma_named_services(ss, p, k);
                lemma_file_visits(fs, p, (EntityKind::Service, ss[k].name->0@, p, k));
            }
        }
    }
}

/// Text of the first found file read from `path` (empty when none was).
pub open spec fn found_content(found: Seq<FoundMarkdown>, path: Seq<char>) -> Seq<char>
    decreases found.len(),
{
    if found.len() == 0 {
        Seq::<char>::empty()
    } else if found[0].source_path@ == path {
        found[0].content@
    } else {
        found_content(found.drop_first(), path)
    }
}

fn found_content_exec(found: &Vec<FoundMarkdown>, path: &str) -> (r: String)
    ensures
        r@ == found_content(found@, path@),
{
    let pv = chars_of(path);
    let mut i: usize = 0;
    assert(found@.skip(0) =~= found@);
    while i < found.len()
        invariant
            i <= found.len(),
            pv@ == path@,
            found_content(found@, path@) == found_content(found@.skip(i as int), path@),
        decreases found.len() - i,
    {
        assert(found@.skip(i as int)[0] == found@[i as int]);
        assert(found@.skip(i as int).drop_first() =~= found@.skip(i + 1));
        if chars_eq(&chars_of(found[i].source_path.as_str()), &pv) {
            return to_string(found[i].content.as_str());
        }
        i = i + 1;
    }
    String::new()
}

/// Companions of a generation (none when disabled or no directory qualifies).
pub open spec fn companion_list_spec(names: Seq<Seq<char>>, opts: Options, found: Seq<FoundMarkdown>) -> Seq<CompanionView> {
    if opts.no_proto_markdown || proto_dirs_spec(names).len() == 0 {
        Seq::empty()
    } else {
        companions_spec(found)
    }
}

/// Companion copies: output path under `markdown_root`, and the text they were found with.
pub open spec fn companion_files_spec(opts: Options, comps: Seq<CompanionView>, found: Seq<FoundMarkdown>) -> Seq<(Seq<char>, Seq<char>)> {
    comps.map_values(
        |c: CompanionView|
            (join_book_root_spec(opts.book_root@, opts.markdown_root@ + seq!['/'] + c.0), found_content(found, c.4)),
    )
}

/// Scaffold files that mdBook's init writes but generation replaces are dropped.
pub open spec fn filter_stubs(opts: Options, files: Seq<(String, Option<String>)>) -> Seq<(String, Option<String>)> {
    files.filter(|f: (String, Option<String>)| !stub_paths_spec(opts).contains(f.0@))
}

/// Drops the scaffold files that generation replaces.
pub fn filter_init_stubs(opts: &Options, files: Vec<(String, Option<String>)>) -> (r: Vec<(String, Option<String>)>)
    ensures
        r@ == filter_stubs(*opts, files@),
{
    let stubs = init_stub_paths(opts);
    let mut out: Vec<(String, Option<String>)> = Vec::new();
    let ghost all = files@;
    let n = files.len();
    let mut rest = files;
    let mut i: usize = 0;
    while rest.len() > 0
        invariant
            i + rest.len() == all.len(),
            all.len() == n,
            rest@ == all.skip(i as int),
            views(stubs@) == stub_paths_spec(*opts),
            out@ == all.take(i as int).filter(|f: (String, Option<String>)| !stub_paths_spec(*opts).contains(f.0@)),
        decreases rest.len(),
    {
        let f = rest.remove(0);
        assert(f == all[i as int]);
        let mut hit = false;
        let mut k: usize = 0;
        while k < stubs.len()
            invariant
                k <= stubs.len(),
                hit == exists|j: int| 0 <= j < k && views(stubs@)[j] == f.0@,
            decreases stubs.len() - k,
        {
            assert(views(stubs@)[k as int] == stubs@[k as int]@);
            if str_eq(stubs[k].as_str(), f.0.as_str()) {
                hit = true;
            }
            k = k + 1;
        }
        assert(hit == stub_paths_spec(*opts).contains(f.0@));
        let ghost before = out@;
        if !hit {
            out.push(f);
        }
        proof {
            assert(all.take(i + 1).drop_last() =~= all.take(i as int));
            assert(all.take(i + 1).last() == all[i as int]);
            reveal(Seq::filter);
            assert(rest@ =~= all.skip(i + 1));
        }
        i = i + 1;
    }
    assert(all.take(i as int) =~= all);
    out
}

/// The link context of a generation.
pub open spec fn links_for(links: LinkContext, m: Seq<PackageGroup>, opts: Options) -> bool {
    &&& links.layout == opts.layout
    &&& links.book_root@ == opts.book_root@
    &&& links.markdown_root@ == opts.markdown_root@
    &&& links.known() == all_entities(m)
}

/// Files of a generation, sorted by path: the rendered pages, companion copies, the
/// SUMMARY when requested, and in init mode the merged scaffold of a new book.
pub open spec fn output_files_spec(
    proto: Seq<FileDesc>,
    names: Seq<Seq<char>>,
    opts: Options,
    links: LinkContext,
    cache: Seq<(String, String)>,
    found: Seq<FoundMarkdown>,
    init_files: Seq<(String, Option<String>)>,
) -> KvView {
    let gm = packages_spec(proto, names);
    let comps = companion_list_spec(names, opts, found);
    let m1 = set_all(Seq::empty(), docs_spec(gm, opts, links, cache));
    let m2 = set_all(m1, companion_files_spec(opts, comps, found));
    let m3 = match summary_doc_spec(gm, opts, links, comps) {
        Some(d) => kv_insert(m2, d.0, d.1),
        None => m2,
    };
    if opts.init {
        merge_spec(opts, opts.book_root@, filter_stubs(opts, init_files), m3)
    } else {
        m3
    }
}

/// The output files for `input` under the resolved options `opts`.
#[verifier::rlimit(40)]
fn generate_files(
    input: &GenerateInput,
    opts: &Options,
    sources: &SourceCache,
    found: &Vec<FoundMarkdown>,
    init_files: Vec<(String, Option<String>)>,
) -> (r: Vec<(String, String)>)
    requires
        opts.layout != Layout::Package ==> groups_named(
            packages_spec(input.proto_file@, views(input.file_to_generate@)),
        ),
    ensures
        exists|links: LinkContext|
            links_for(links, packages_spec(input.proto_file@, views(input.file_to_generate@)), *opts)
                && kv_view(r@) == output_files_spec(
                input.proto_file@,
                views(input.file_to_generate@),
                *opts,
                links,
                sources.files@,
                found@,
                init_files@,
            ),
{
    let ghost names = views(input.file_to_generate@);
    let by_package = packages_map(&input.proto_file, &input.file_to_generate);
    let ghost gm = groups_view(by_package@);
    let links = build_link_context(&by_package, opts);
    proof {
        lemma_linkable(input.proto_file@, names, links);
    }
    let docs = render_all(&by_package, opts, &links, sources);
    let ghost dv = docs_view(docs@);
    let mut files: Vec<(String, String)> = Vec::new();
    let mut i: usize = 0;
    while i < docs.len()
        invariant
            i <= docs.len(),
            dv == docs_view(docs@),
            kv_view(files@) == set_all(Seq::empty(), dv.take(i as int)),
        decreases docs.len() - i,
    {
        kv_set(&mut files, to_string(docs[i].path.as_str()), to_string(docs[i].content.as_str()));
        proof {
            assert(dv.take(i + 1).drop_last() =~= dv.take(i as int));
            assert(dv.take(i + 1).last() == dv[i as int]);
        }
        i = i + 1;
    }
    assert(dv.take(docs.len() as int) =~= dv);
    let companions = discover_companion_docs(&input.file_to_generate, opts, found);
    let ghost cv = companions@.map_values(|d: CompanionDoc| companion_view(d));
    let ghost cf = companion_files_spec(*opts, cv, found@);
    let ghost m1 = kv_view(files@);
    let mut j: usize = 0;
    while j < companions.len()
        invariant
            j <= companions.len(),
            cv == companions@.map_values(|d: CompanionDoc| companion_view(d)),
            cf == companion_files_spec(*opts, cv, found@),
            kv_view(files@) == set_all(m1, cf.take(j as int)),
        decreases companions.len() - j,
    {
        let c = &companions[j];
        let path = companion_output_path(opts, c);
        let content = found_content_exec(found, c.source_path.as_str());
        kv_set(&mut files, path, content);
        proof {
            assert(cf.take(j + 1).drop_last() =~= cf.take(j as int));
            assert(cf.take(j + 1).last() == cf[j as int]);
        }
        j = j + 1;
    }
    assert(cf.take(companions.len() as int) =~= cf);
    match render_summary(&by_package, opts, &links, &companions) {
        Some((p, c)) => kv_set(&mut files, p, c),
        None => {},
    }
    let ghost init_view = init_files@;
    let r = if opts.init {
        let filtered = filter_init_stubs(opts, init_files);
        merge_init_files(opts, opts.book_root.as_str(), &filtered, &files)
    } else {
        files
    };
    assert(links_for(links, gm, *opts));
    assert(kv_view(r@) == output_files_spec(input.proto_file@, names, *opts, links, sources.files@, found@, init_view));
    r
}

/// Generate the output files for `input` under the resolved options `opts`, with the
/// sources of the requested files read ahead (`sources`), the companion `.md` files
/// found while scanning (`found`), and in init mode mdBook's scaffold (`init_files`);
/// refused when the request names no file.
pub fn generate_from_input(
    input: &GenerateInput,
    opts: &Options,
    sources: &SourceCache,
    found: &Vec<FoundMarkdown>,
    init_files: Vec<(String, Option<String>)>,
) -> (r: Result<Vec<(String, String)>, GenerateError>)
    requires
        input.file_to_generate.len() > 0 && opts.layout != Layout::Package ==> groups_named(
            packages_spec(input.proto_file@, views(input.file_to_generate@)),
        ),
    ensures
        input.file_to_generate.len() == 0 ==> r matches Err(GenerateError::EmptyFileToGenerate),
        input.file_to_generate.len() > 0 ==> (r matches Ok(files) && exists|links: LinkContext|
            links_for(links, packages_spec(input.proto_file@, views(input.file_to_generate@)), *opts)
                && kv_view(files@) == output_files_spec(
                input.proto_file@,
                views(input.file_to_generate@),
                *opts,
                links,
                sources.files@,
                found@,
                init_files@,
            )),
{
    if input.file_to_generate.len() == 0 {
        return Err(GenerateError::EmptyFileToGenerate);
    }
    Ok(generate_files(input, opts, sources, found, init_files))
}

/// Where API markdown goes: `{book_root}/{markdown_root}/`.
pub open spec fn markdown_prefix(opts: Options) -> Seq<char> {
    join_book_root_spec(opts.book_root@, opts.markdown_root@ + seq!['/'])
}

/// Every key of `m` lies under `prefix`.
pub open spec fn keys_under(m: KvView, prefix: Seq<char>) -> bool {
    forall|i: int| 0 <= i < m.len() ==> starts_with(#[trigger] m[i].0, prefix)
}

pub(crate) proof fn lemma_under_prefix(opts: Options, x: Seq<char>)
    ensures
        starts_with(join_book_root_spec(opts.book_root@, opts.markdown_root@ + seq!['/'] + x), markdown_prefix(opts)),
{
    let md = opts.markdown_root@ + seq!['/'];
    let full = join_book_root_spec(opts.book_root@, md + x);
    let pre = markdown_prefix(opts);
    if crate::paths::is_dot_root(opts.book_root@) {
        assert(full.take(pre.len() as int) =~= pre);
    } else {
        assert(full =~= (opts.book_root@ + seq!['/'] + md) + x);
        assert(full.take(pre.len() as int) =~= pre);
    }
}

pub(crate) proof fn lemma_insert_under(m: KvView, k: Seq<char>, v: Seq<char>, prefix: Seq<char>)
    requires
        keys_under(m, prefix),
        starts_with(k, prefix),
    ensures
        keys_under(kv_insert(m, k, v), prefix),
{
    let r = kv_insert(m, k, v);
    let i = crate::kvmap::kv_index(m, k);
    crate::kvmap::lemma_kv_index(m, k);
    crate::kvmap::lemma_kv_pos_bounds(m, k);
    if i >= 0 {
        assert forall|j: int| 0 <= j < r.len() implies starts_with(#[trigger] r[j].0, prefix) by {
            if j != i {
                assert(r[j] == m[j]);
            }
        }
    } else {
        let p = crate::kvmap::kv_pos(m, k);
        assert forall|j: int| 0 <= j < r.len() implies starts_with(#[trigger] r[j].0, prefix) by {
            if j < p {
                assert(r[j] == m[j]);
            } else if j > p {
                assert(r[j] == m[j - 1]);
            } else {
                assert(r[j] == (k, v));
            }
        }
    }
}

pub(crate) proof fn lemma_set_all_under(m: KvView, docs: Seq<(Seq<char>, Seq<char>)>, prefix: Seq<char>)
    requires
        keys_under(m, prefix),
        keys_under(docs, prefix),
    ensures
        keys_under(set_all(m, docs), prefix),
    decreases docs.len(),
{
    if docs.len() > 0 {
        assert(keys_under(docs.drop_last(), prefix)) by {
            assert forall|i: int| 0 <= i < docs.drop_last().len() implies starts_with(#[trigger] docs.drop_last()[i].0, prefix) by {
                assert(docs.drop_last()[i] == docs[i]);
            }
        }
        lemma_set_all_under(m, docs.drop_last(), prefix);
        assert(starts_with(docs[docs.len() - 1].0, prefix));
        lemma_insert_under(set_all(m, docs.drop_last()), docs.last().0, docs.last().1, prefix);
    }
}

proof fn lemma_concat_under(a: KvView, b: KvView, prefix: Seq<char>)
    requires
        keys_under(a, prefix),
        keys_under(b, prefix),
    ensures
        keys_under(a + b, prefix),
{
    assert forall|i: int| 0 <= i < (a + b).len() implies starts_with(#[trigger] (a + b)[i].0, prefix) by {
        if i < a.len() {
            assert((a + b)[i] == a[i]);
        } else {
            assert((a + b)[i] == b[i - a.len()]);
        }
    }
}

proof fn lemma_entity_rel_under(opts: Options, links: LinkContext, pkg: Seq<char>, kind: EntityKind, name: Seq<char>)
    requires
        links.markdown_root@ == opts.markdown_root@,
    ensures
        starts_with(join_book_root_spec(opts.book_root@, entity_page_rel(links, pkg, kind, name)), markdown_prefix(opts)),
{
    let md = opts.markdown_root@;
    match links.layout {
        Layout::Package => {
            assert(entity_page_rel(links, pkg, kind, name) =~= md + seq!['/'] + (pkg + ".md"@));
        },
        _ => {
            assert(entity_page_rel(links, pkg, kind, name) =~= md + seq!['/'] + (crate::links::dots_to_slashes(pkg)
                + crate::links::kind_dir(kind) + name + ".md"@));
        },
    }
    lemma_under_prefix(opts, entity_page_rel(links, pkg, kind, name).skip(md.len() as int + 1));
    assert(md + seq!['/'] + entity_page_rel(links, pkg, kind, name).skip(md.len() as int + 1) =~= entity_page_rel(
        links,
        pkg,
        kind,
        name,
    ));
}

proof fn lemma_message_pages_under(
    pkg: Seq<char>,
    fname: Seq<char>,
    locs: Seq<crate::descriptor::Location>,
    ms: Seq<MessageDesc>,
    links: LinkContext,
    opts: Options,
    src: Option<Seq<char>>,
)
    requires
        links.markdown_root@ == opts.markdown_root@,
    ensures
        keys_under(message_pages(pkg, fname, locs, ms, links, opts, src), markdown_prefix(opts)),
    decreases ms.len(),
{
    if ms.len() > 0 {
        lemma_message_pages_under(pkg, fname, locs, ms.drop_last(), links, opts, src);
        lemma_entity_rel_under(opts, links, pkg, EntityKind::Message, or_default(ms.last().name, "Message"@));
        let prev = message_pages(pkg, fname, locs, ms.drop_last(), links, opts, src);
        let all = message_pages(pkg, fname, locs, ms, links, opts, src);
        assert forall|i: int| 0 <= i < all.len() implies starts_with(#[trigger] all[i].0, markdown_prefix(opts)) by {
            if i < prev.len() {
                assert(all[i] == prev[i]);
            }
        }
    }
}

proof fn lemma_enum_pages_under(
    pkg: Seq<char>,
    fname: Seq<char>,
    locs: Seq<crate::descriptor::Location>,
    es: Seq<EnumDesc>,
    links: LinkContext,
    opts: Options,
)
    requires
        links.markdown_root@ == opts.markdown_root@,
    ensures
        keys_under(enum_pages(pkg, fname, locs, es, links, opts), markdown_prefix(opts)),
    decreases es.len(),
{
    if es.len() > 0 {
        lemma_enum_pages_under(pkg, fname, locs, es.drop_last(), links, opts);
        lemma_entity_rel_under(opts, links, pkg, EntityKind::Enum, or_default(es.last().name, "Enum"@));
        let prev = enum_pages(pkg, fname, locs, es.drop_last(), links, opts);
        let all = enum_pages(pkg, fname, locs, es, links, opts);
        assert forall|i: int| 0 <= i < all.len() implies starts_with(#[trigger] all[i].0, markdown_prefix(opts)) by {
            if i < prev.len() {
                assert(all[i] == prev[i]);
            }
        }
    }
}

proof fn lemma_service_pages_under(
    pkg: Seq<char>,
    fname: Seq<char>,
    locs: Seq<crate::descriptor::Location>,
    ss: Seq<ServiceDesc>,
    links: LinkContext,
    opts: Options,
)
    requires
        links.markdown_root@ == opts.markdown_root@,
    ensures
        keys_under(service_pages(pkg, fname, locs, ss, links, opts), markdown_prefix(opts)),
    decreases ss.len(),
{
    if ss.len() > 0 {
        lemma_service_pages_under(pkg, fname, locs, ss.drop_last(), links, opts);
        lemma_entity_rel_under(opts, links, pkg, EntityKind::Service, or_default(ss.last().name, "Service"@));
        let prev = service_pages(pkg, fname, locs, ss.drop_last(), links, opts);
        let all = service_pages(pkg, fname, locs, ss, links, opts);
        assert forall|i: int| 0 <= i < all.len() implies starts_with(#[trigger] all[i].0, markdown_prefix(opts)) by {
            if i < prev.len() {
                assert(all[i] == prev[i]);
            }
        }
    }
}

proof fn lemma_file_pages_under(
    pkg: Seq<char>,
    files: Seq<(Seq<char>, FileDesc)>,
    links: LinkContext,
    opts: Options,
    cache: Seq<(String, String)>,
)
    requires
        links.markdown_root@ == opts.markdown_root@,
    ensures
        keys_under(file_pages(pkg, files, links, opts, cache), markdown_prefix(opts)),
    decreases files.len(),
{
    if files.len() > 0 {
        let f = files.last();
        lemma_file_pages_under(pkg, files.drop_last(), links, opts, cache);
        lemma_message_pages_under(
            pkg,
            f.0,
            f.1.location@,
            f.1.message_type@,
            links,
            opts,
            crate::render::source_lookup(cache, f.0),
        );
        lemma_enum_pages_under(pkg, f.0, f.1.location@, f.1.enum_type@, links, opts);
        lemma_service_pages_under(pkg, f.0, f.1.location@, f.1.service@, links, opts);
        let pre = markdown_prefix(opts);
        let a = file_pages(pkg, files.drop_last(), links, opts, cache);
        let b = message_pages(
            pkg,
            f.0,
            f.1.location@,
            f.1.message_type@,
            links,
            opts,
            crate::render::source_lookup(cache, f.0),
        );
        let c = enum_pages(pkg, f.0, f.1.location@, f.1.enum_type@, links, opts);
        let d = service_pages(pkg, f.0, f.1.location@, f.1.service@, links, opts);
        lemma_concat_under(a, b, pre);
        lemma_concat_under(a + b, c, pre);
        lemma_concat_under(a + b + c, d, pre);
    }
}

/// Documents of one package group, as `docs_spec` adds them.
pub open spec fn group_docs(g: PackageGroup, opts: Options, links: LinkContext, cache: Seq<(String, String)>) -> KvView {
    if g.0.len() == 0 {
        Seq::empty()
    } else {
        match opts.layout {
            Layout::Package => seq![package_page_doc(g.0, g.1, links, opts, cache)],
            _ => entity_pages_spec(g.0, g.1, links, opts, cache),
        }
    }
}

proof fn lemma_group_under(g: PackageGroup, opts: Options, links: LinkContext, cache: Seq<(String, String)>)
    requires
        links.markdown_root@ == opts.markdown_root@,
        links.layout == opts.layout,
    ensures
        keys_under(group_docs(g, opts, links, cache), markdown_prefix(opts)),
{
    let pre = markdown_prefix(opts);
    let md = opts.markdown_root@;
    if g.0.len() > 0 {
        match opts.layout {
            Layout::Package => {
                assert(crate::links::package_page_spec(md, g.0) =~= md + seq!['/'] + (g.0 + ".md"@));
                lemma_under_prefix(opts, g.0 + ".md"@);
                let d = group_docs(g, opts, links, cache);
                assert(d[0] == package_page_doc(g.0, g.1, links, opts, cache));
            },
            _ => {
                let rel = crate::links::package_index_spec(links.layout, md, g.0);
                assert(rel =~= md + seq!['/'] + (crate::links::dots_to_slashes(g.0) + "/index.md"@));
                lemma_under_prefix(opts, crate::links::dots_to_slashes(g.0) + "/index.md"@);
                lemma_file_pages_under(g.0, g.1, links, opts, cache);
                let head = seq![index_page_spec(g.0, g.1, links, opts)];
                assert(keys_under(head, pre)) by {
                    assert(head[0] == index_page_spec(g.0, g.1, links, opts));
                }
                lemma_concat_under(head, file_pages(g.0, g.1, links, opts, cache), pre);
            },
        }
    }
}

pub(crate) proof fn lemma_docs_under(m: Seq<PackageGroup>, opts: Options, links: LinkContext, cache: Seq<(String, String)>)
    requires
        links.markdown_root@ == opts.markdown_root@,
        links.layout == opts.layout,
    ensures
        keys_under(docs_spec(m, opts, links, cache), markdown_prefix(opts)),
    decreases m.len(),
{
    if m.len() > 0 {
        lemma_docs_under(m.drop_last(), opts, links, cache);
        lemma_group_under(m.last(), opts, links, cache);
        assert(docs_spec(m, opts, links, cache) == docs_spec(m.drop_last(), opts, links, cache) + group_docs(
            m.last(),
            opts,
            links,
            cache,
        ));
        lemma_concat_under(
            docs_spec(m.drop_last(), opts, links, cache),
            group_docs(m.last(), opts, links, cache),
            markdown_prefix(opts),
        );
    }
}

/// A generation without `init` or `summary` writes only under
/// `{book_root}/{markdown_root}/`: the default refresh leaves `book.toml`, the theme,
/// the README and the SUMMARY alone.
pub proof fn law_default_refresh_writes_only_markdown(
    proto: Seq<FileDesc>,
    names: Seq<Seq<char>>,
    opts: Options,
    links: LinkContext,
    cache: Seq<(String, String)>,
    found: Seq<FoundMarkdown>,
    init_files: Seq<(String, Option<String>)>,
)
    requires
        links_for(links, packages_spec(proto, names), opts),
        !opts.init,
        !opts.summary,
    ensures
        keys_under(output_files_spec(proto, names, opts, links, cache, found, init_files), markdown_prefix(opts)),
{
    let gm = packages_spec(proto, names);
    let pre = markdown_prefix(opts);
    let comps = companion_list_spec(names, opts, found);
    lemma_docs_under(gm, opts, links, cache);
    lemma_set_all_under(Seq::empty(), docs_spec(gm, opts, links, cache), pre);
    let cf = companion_files_spec(opts, comps, found);
    assert forall|i: int| 0 <= i < cf.len() implies starts_with(#[trigger] cf[i].0, pre) by {
        lemma_under_prefix(opts, comps[i].0);
    }
    lemma_set_all_under(set_all(Seq::empty(), docs_spec(gm, opts, links, cache)), cf, pre);
}

/// The files of a generation come out sorted by path, each path once, whatever the
/// options.
pub proof fn law_generation_sorted(
    proto: Seq<FileDesc>,
    names: Seq<Seq<char>>,
    opts: Options,
    links: LinkContext,
    cache: Seq<(String, String)>,
    found: Seq<FoundMarkdown>,
    init_files: Seq<(String, Option<String>)>,
)
    ensures
        crate::kvmap::kv_sorted(output_files_spec(proto, names, opts, links, cache, found, init_files)),
{
    let gm = packages_spec(proto, names);
    let comps = companion_list_spec(names, opts, found);
    let d = docs_spec(gm, opts, links, cache);
    assert(crate::kvmap::kv_sorted(Seq::<(Seq<char>, Seq<char>)>::empty()));
    crate::init::lemma_set_all_sorted(Seq::empty(), d);
    let m1 = set_all(Seq::empty(), d);
    let cf = companion_files_spec(opts, comps, found);
    crate::init::lemma_set_all_sorted(m1, cf);
    let m2 = set_all(m1, cf);
    match summary_doc_spec(gm, opts, links, comps) {
        Some(x) => crate::kvmap::law_kv_insert(m2, x.0, x.1),
        None => {},
    }
    if opts.init {
        let m3 = match summary_doc_spec(gm, opts, links, comps) {
            Some(x) => kv_insert(m2, x.0, x.1),
            None => m2,
        };
        crate::init::law_merge_sorted(opts, opts.book_root@, filter_stubs(opts, init_files), m3);
    }
}

} // verus!
