//! The pages that generated links point to are among the generated files.

use crate::descriptor::{EnumDesc, FileDesc, Location, MessageDesc, ServiceDesc};
use crate::generate::{file_named, companion_files_spec, companion_list_spec, filter_stubs, links_for, output_files_spec};
use crate::init::set_all;
use crate::kvmap::{kv_index, kv_insert, kv_pos, lemma_kv_index, lemma_kv_pos_bounds, KvView};
use crate::link_check::{file_exists, law_relative_link_resolves, link_file, no_dotdot};
use crate::links::{file_link_spec, link_from_spec, EntityKind, LinkContext};
use crate::options::{Layout, Options};
use crate::paths::{common_len, is_dot_root, join_book_root_spec, parent_path, path_parts, relative_path_spec, ups};
use crate::text::{join_with, split_on};
use crate::proto_markdown::FoundMarkdown;
use crate::proto_syntax::or_default;
use crate::render::{
    all_entities, docs_spec, entity_page_rel, entity_pages_spec, entity_visits, enum_pages, file_pages, index_page_spec, message_pages,
    named_enums, named_messages, named_services, package_entities, package_page_doc, packages_spec, service_pages,
};
use crate::summary::summary_doc_spec;
use vstd::prelude::*;

verus! {

/// Some file of `m` has the path `k`.
pub open spec fn has_path(m: KvView, k: Seq<char>) -> bool {
    exists|i: int| 0 <= i < m.len() && (#[trigger] m[i]).0 == k
}

proof fn lemma_insert_keeps_paths(m: KvView, k: Seq<char>, v: Seq<char>)
    ensures
        has_path(kv_insert(m, k, v), k),
        forall|k2: Seq<char>| has_path(m, k2) ==> #[trigger] has_path(kv_insert(m, k, v), k2),
{
    lemma_kv_index(m, k);
    let i = kv_index(m, k);
    let r = kv_insert(m, k, v);
    if i >= 0 {
        assert(r[i].0 == k);
        assert forall|k2: Seq<char>| has_path(m, k2) implies #[trigger] has_path(r, k2) by {
            let j = choose|j: int| 0 <= j < m.len() && m[j].0 == k2;
            if j == i {
                assert(r[i].0 == k2);
            } else {
                assert(r[j].0 == k2);
            }
        }
    } else {
        lemma_kv_pos_bounds(m, k);
        let p = kv_pos(m, k);
        assert(r[p].0 == k);
        assert forall|k2: Seq<char>| has_path(m, k2) implies #[trigger] has_path(r, k2) by {
            let j = choose|j: int| 0 <= j < m.len() && m[j].0 == k2;
            if j < p {
                assert(r[j] == m[j]);
            } else {
                assert(r[j + 1] == m[j]);
            }
        }
    }
}

proof fn lemma_set_all_keeps_paths(m: KvView, docs: Seq<(Seq<char>, Seq<char>)>)
    ensures
        forall|k: Seq<char>| has_path(m, k) ==> #[trigger] has_path(set_all(m, docs), k),
        forall|i: int| 0 <= i < docs.len() ==> has_path(set_all(m, docs), #[trigger] docs[i].0),
    decreases docs.len(),
{
    if docs.len() > 0 {
        let pre = docs.drop_last();
        lemma_set_all_keeps_paths(m, pre);
        let m1 = set_all(m, pre);
        lemma_insert_keeps_paths(m1, docs.last().0, docs.last().1);
        assert forall|i: int| 0 <= i < docs.len() implies has_path(set_all(m, docs), #[trigger] docs[i].0) by {
            if i < docs.len() - 1 {
                assert(docs[i] == pre[i]);
                assert(has_path(m1, pre[i].0));
            }
        }
    }
}

/// Where the page of an entity is written.
pub open spec fn page_path(links: LinkContext, opts: Options, pkg: Seq<char>, kind: EntityKind, name: Seq<char>) -> Seq<char> {
    join_book_root_spec(opts.book_root@, entity_page_rel(links, pkg, kind, name))
}

proof fn lemma_message_pages(
    pkg: Seq<char>,
    fname: Seq<char>,
    locs: Seq<Location>,
    ms: Seq<MessageDesc>,
    links: LinkContext,
    opts: Options,
    src: Option<Seq<char>>,
)
    ensures
        message_pages(pkg, fname, locs, ms, links, opts, src).len() == ms.len(),
        forall|i: int| 0 <= i < ms.len() ==> (#[trigger] message_pages(pkg, fname, locs, ms, links, opts, src)[i]).0
            == page_path(links, opts, pkg, EntityKind::Message, or_default(ms[i].name, "Message"@)),
    decreases ms.len(),
{
    if ms.len() > 0 {
        lemma_message_pages(pkg, fname, locs, ms.drop_last(), links, opts, src);
        assert forall|i: int| 0 <= i < ms.len() - 1 implies ms.drop_last()[i] == ms[i] by {}
    }
}

proof fn lemma_enum_pages(
    pkg: Seq<char>,
    fname: Seq<char>,
    locs: Seq<Location>,
    es: Seq<EnumDesc>,
    links: LinkContext,
    opts: Options,
)
    ensures
        enum_pages(pkg, fname, locs, es, links, opts).len() == es.len(),
        forall|i: int| 0 <= i < es.len() ==> (#[trigger] enum_pages(pkg, fname, locs, es, links, opts)[i]).0
            == page_path(links, opts, pkg, EntityKind::Enum, or_default(es[i].name, "Enum"@)),
    decreases es.len(),
{
    if es.len() > 0 {
        lemma_enum_pages(pkg, fname, locs, es.drop_last(), links, opts);
        assert forall|i: int| 0 <= i < es.len() - 1 implies es.drop_last()[i] == es[i] by {}
    }
}

proof fn lemma_service_pages(
    pkg: Seq<char>,
    fname: Seq<char>,
    locs: Seq<Location>,
    ss: Seq<ServiceDesc>,
    links: LinkContext,
    opts: Options,
)
    ensures
        service_pages(pkg, fname, locs, ss, links, opts).len() == ss.len(),
        forall|i: int| 0 <= i < ss.len() ==> (#[trigger] service_pages(pkg, fname, locs, ss, links, opts)[i]).0
            == page_path(links, opts, pkg, EntityKind::Service, or_default(ss[i].name, "Service"@)),
    decreases ss.len(),
{
    if ss.len() > 0 {
        lemma_service_pages(pkg, fname, locs, ss.drop_last(), links, opts);
        assert forall|i: int| 0 <= i < ss.len() - 1 implies ss.drop_last()[i] == ss[i] by {}
    }
}

pub(crate) proof fn lemma_named_messages(ms: Seq<MessageDesc>, p: int)
    ensures
        forall|v: (EntityKind, Seq<char>, int, int)| #[trigger] named_messages(ms, p).contains(v) ==> v.0
            == EntityKind::Message && v.2 == p && 0 <= v.3 < ms.len() && ms[v.3].name is Some && or_default(ms[v.3].name, "Message"@) == v.1,
    decreases ms.len(),
{
    if ms.len() > 0 {
        lemma_named_messages(ms.drop_last(), p);
        let pre = named_messages(ms.drop_last(), p);
        assert forall|v: (EntityKind, Seq<char>, int, int)| #[trigger] named_messages(ms, p).contains(v) implies v.0
            == EntityKind::Message && v.2 == p && 0 <= v.3 < ms.len() && ms[v.3].name is Some && or_default(ms[v.3].name, "Message"@)
            == v.1 by {
            let r = named_messages(ms, p);
            let j = choose|j: int| 0 <= j < r.len() && r[j] == v;
            if j < pre.len() {
                assert(pre[j] == v);
                assert(pre.contains(v));
                assert(ms.drop_last()[v.3] == ms[v.3]);
            }
        }
    }
}

pub(crate) proof fn lemma_named_enums(es: Seq<EnumDesc>, p: int)
    ensures
        forall|v: (EntityKind, Seq<char>, int, int)| #[trigger] named_enums(es, p).contains(v) ==> v.0
            == EntityKind::Enum && v.2 == p && 0 <= v.3 < es.len() && es[v.3].name is Some && or_default(es[v.3].name, "Enum"@) == v.1,
    decreases es.len(),
{
    if es.len() > 0 {
        lemma_named_enums(es.drop_last(), p);
        let pre = named_enums(es.drop_last(), p);
        assert forall|v: (EntityKind, Seq<char>, int, int)| #[trigger] named_enums(es, p).contains(v) implies v.0
            == EntityKind::Enum && v.2 == p && 0 <= v.3 < es.len() && es[v.3].name is Some && or_default(es[v.3].name, "Enum"@)
            == v.1 by {
            let r = named_enums(es, p);
            let j = choose|j: int| 0 <= j < r.len() && r[j] == v;
            if j < pre.len() {
                assert(pre[j] == v);
                assert(pre.contains(v));
                assert(es.drop_last()[v.3] == es[v.3]);
            }
        }
    }
}

pub(crate) proof fn lemma_named_services(ss: Seq<ServiceDesc>, p: int)
    ensures
        forall|v: (EntityKind, Seq<char>, int, int)| #[trigger] named_services(ss, p).contains(v) ==> v.0
            == EntityKind::Service && v.2 == p && 0 <= v.3 < ss.len() && ss[v.3].name is Some && or_default(ss[v.3].name, "Service"@) == v.1,
    decreases ss.len(),
{
    if ss.len() > 0 {
        lemma_named_services(ss.drop_last(), p);
        let pre = named_services(ss.drop_last(), p);
        assert forall|v: (EntityKind, Seq<char>, int, int)| #[trigger] named_services(ss, p).contains(v) implies v.0
            == EntityKind::Service && v.2 == p && 0 <= v.3 < ss.len() && ss[v.3].name is Some && or_default(ss[v.3].name, "Service"@)
            == v.1 by {
            let r = named_services(ss, p);
            let j = choose|j: int| 0 <= j < r.len() && r[j] == v;
            if j < pre.len() {
                assert(pre[j] == v);
                assert(pre.contains(v));
                assert(ss.drop_last()[v.3] == ss[v.3]);
            }
        }
    }
}

proof fn lemma_has_path_concat(a: KvView, b: KvView, k: Seq<char>)
    ensures
        has_path(a, k) ==> has_path(a + b, k),
        has_path(b, k) ==> has_path(a + b, k),
{
    if has_path(a, k) {
        let j = choose|j: int| 0 <= j < a.len() && a[j].0 == k;
        assert((a + b)[j] == a[j]);
    }
    if has_path(b, k) {
        let j = choose|j: int| 0 <= j < b.len() && b[j].0 == k;
        assert((a + b)[a.len() + j] == b[j]);
    }
}

proof fn lemma_file_pages_cover(
    pkg: Seq<char>,
    files: Seq<(Seq<char>, FileDesc)>,
    links: LinkContext,
    opts: Options,
    cache: Seq<(String, String)>,
)
    ensures
        forall|v: (EntityKind, Seq<char>, int, int)| #[trigger] entity_visits(files).contains(v) ==> has_path(
            file_pages(pkg, files, links, opts, cache),
            page_path(links, opts, pkg, v.0, v.1),
        ),
    decreases files.len(),
{
    if files.len() > 0 {
        let pre = files.drop_last();
        let p = files.len() - 1;
        let f = files.last();
        lemma_file_pages_cover(pkg, pre, links, opts, cache);
        let ms = f.1.message_type@;
        let es = f.1.enum_type@;
        let ss = f.1.service@;
        let src = crate::render::source_lookup(cache, f.0);
        let fp0 = file_pages(pkg, pre, links, opts, cache);
        let mp = message_pages(pkg, f.0, f.1.location@, ms, links, opts, src);
        let ep = enum_pages(pkg, f.0, f.1.location@, es, links, opts);
        let sp = service_pages(pkg, f.0, f.1.location@, ss, links, opts);
        assert(file_pages(pkg, files, links, opts, cache) == fp0 + mp + ep + sp);
        let ev0 = entity_visits(pre);
        let nm = named_messages(ms, p);
        let ne = named_enums(es, p);
        let ns = named_services(ss, p);
        assert(entity_visits(files) == ev0 + nm + ne + ns);
        lemma_named_messages(ms, p);
        lemma_named_enums(es, p);
        lemma_named_services(ss, p);
        lemma_message_pages(pkg, f.0, f.1.location@, ms, links, opts, src);
        lemma_enum_pages(pkg, f.0, f.1.location@, es, links, opts);
        lemma_service_pages(pkg, f.0, f.1.location@, ss, links, opts);
        assert forall|v: (EntityKind, Seq<char>, int, int)| #[trigger] entity_visits(files).contains(v) implies has_path(
            file_pages(pkg, files, links, opts, cache),
            page_path(links, opts, pkg, v.0, v.1),
        ) by {
            let all = entity_visits(files);
            let k = page_path(links, opts, pkg, v.0, v.1);
            let j = choose|j: int| 0 <= j < all.len() && all[j] == v;
            let n0 = ev0.len();
            let n1 = n0 + nm.len();
            let n2 = n1 + ne.len();
            if j < n0 {
                assert(ev0[j] == v);
                assert(ev0.contains(v));
                lemma_has_path_concat(fp0, mp, k);
                lemma_has_path_concat(fp0 + mp, ep, k);
                lemma_has_path_concat(fp0 + mp + ep, sp, k);
            } else if j < n1 {
                assert(nm[j - n0] == v);
                assert(nm.contains(v));
                assert(mp[v.3].0 == k);
                assert(has_path(mp, k));
                lemma_has_path_concat(fp0, mp, k);
                lemma_has_path_concat(fp0 + mp, ep, k);
                lemma_has_path_concat(fp0 + mp + ep, sp, k);
            } else if j < n2 {
                assert(ne[j - n1] == v);
                assert(ne.contains(v));
                assert(ep[v.3].0 == k);
                assert(has_path(ep, k));
                lemma_has_path_concat(fp0 + mp, ep, k);
                lemma_has_path_concat(fp0 + mp + ep, sp, k);
            } else {
                assert(ns[j - n2] == v);
                assert(ns.contains(v));
                assert(sp[v.3].0 == k);
                assert(has_path(sp, k));
                lemma_has_path_concat(fp0 + mp + ep, sp, k);
            }
        }
    }
}

proof fn lemma_docs_cover(
    m: Seq<(Seq<char>, Seq<(Seq<char>, FileDesc)>)>,
    opts: Options,
    links: LinkContext,
    cache: Seq<(String, String)>,
)
    requires
        links.layout == opts.layout,
        links.markdown_root@ == opts.markdown_root@,
    ensures
        forall|e: (Seq<char>, EntityKind, Seq<char>)|
            #[trigger] all_entities(m).contains(e) && e.0.len() > 0 ==> has_path(
                docs_spec(m, opts, links, cache),
                page_path(links, opts, e.0, e.1, e.2),
            ),
    decreases m.len(),
{
    if m.len() > 0 {
        let pre = m.drop_last();
        let g = m.last();
        lemma_docs_cover(pre, opts, links, cache);
        let d0 = docs_spec(pre, opts, links, cache);
        let gd = if g.0.len() == 0 {
            Seq::<(Seq<char>, Seq<char>)>::empty()
        } else {
            match opts.layout {
                Layout::Package => seq![package_page_doc(g.0, g.1, links, opts, cache)],
                _ => entity_pages_spec(g.0, g.1, links, opts, cache),
            }
        };
        assert(docs_spec(m, opts, links, cache) == d0 + gd);
        let a0 = all_entities(pre);
        let pe = package_entities(g.0, g.1);
        assert(all_entities(m) == a0 + pe);
        lemma_file_pages_cover(g.0, g.1, links, opts, cache);
        assert forall|e: (Seq<char>, EntityKind, Seq<char>)|
            #[trigger] all_entities(m).contains(e) && e.0.len() > 0 implies has_path(
                docs_spec(m, opts, links, cache),
                page_path(links, opts, e.0, e.1, e.2),
            ) by {
            let k = page_path(links, opts, e.0, e.1, e.2);
            let all = all_entities(m);
            let j = choose|j: int| 0 <= j < all.len() && all[j] == e;
            if j < a0.len() {
                assert(a0[j] == e);
                assert(a0.contains(e));
                lemma_has_path_concat(d0, gd, k);
            } else {
                let t = j - a0.len();
                assert(pe[t] == e);
                let ev = entity_visits(g.1);
                let v = ev[t];
                assert(e == (g.0, v.0, v.1));
                match opts.layout {
                    Layout::Package => {
                        assert(gd[0].0 == k);
                        assert(has_path(gd, k));
                    },
                    _ => {
                        assert(ev.contains(v));
                        let fp = crate::render::file_pages(g.0, g.1, links, opts, cache);
                        assert(has_path(fp, k));
                        let ix = crate::render::index_page_spec(g.0, g.1, links, opts);
                        assert(gd == seq![ix] + fp);
                        lemma_has_path_concat(seq![ix], fp, k);
                    },
                }
                lemma_has_path_concat(d0, gd, k);
            }
        }
    }
}

/// Every entity that a generated page can link to has its page among the generated
/// files: for a message, enum or service of a named package, the page that its links
/// point to (the package page under `layout=package`, its own page otherwise) is written,
/// under the book root.
pub proof fn law_link_targets_are_written(
    proto: Seq<FileDesc>,
    names: Seq<Seq<char>>,
    opts: Options,
    links: LinkContext,
    cache: Seq<(String, String)>,
    found: Seq<FoundMarkdown>,
    init_files: Seq<(String, Option<String>)>,
    pkg: Seq<char>,
    kind: EntityKind,
    name: Seq<char>,
)
    requires
        links_for(links, packages_spec(proto, names), opts),
        links.has_entity(pkg, kind, name),
        pkg.len() > 0,
    ensures
        links.entity_path_spec(pkg, kind, name) matches Some(target) && has_path(
            output_files_spec(proto, names, opts, links, cache, found, init_files),
            join_book_root_spec(opts.book_root@, target),
        ),
{
    let gm = packages_spec(proto, names);
    let k = page_path(links, opts, pkg, kind, name);
    lemma_docs_cover(gm, opts, links, cache);
    let d = docs_spec(gm, opts, links, cache);
    assert(all_entities(gm).contains((pkg, kind, name)));
    assert(has_path(d, k));
    let j = choose|j: int| 0 <= j < d.len() && d[j].0 == k;
    lemma_set_all_keeps_paths(Seq::empty(), d);
    let m1 = set_all(Seq::empty(), d);
    assert(has_path(m1, d[j].0));
    let comps = companion_list_spec(names, opts, found);
    let cf = companion_files_spec(opts, comps, found);
    lemma_set_all_keeps_paths(m1, cf);
    let m2 = set_all(m1, cf);
    assert(has_path(m2, k));
    let m3 = match summary_doc_spec(gm, opts, links, comps) {
        Some(x) => kv_insert(m2, x.0, x.1),
        None => m2,
    };
    match summary_doc_spec(gm, opts, links, comps) {
        Some(x) => lemma_insert_keeps_paths(m2, x.0, x.1),
        None => {},
    }
    assert(has_path(m3, k));
    if opts.init {
        let root = opts.book_root@;
        let m0 = crate::init::init_map_spec(root, filter_stubs(opts, init_files));
        let mi = if crate::init::proto_on(opts) || crate::init::cel_on(opts) {
            crate::init::inject_spec(opts, root, m0)
        } else {
            crate::init::book_comment_spec(root, m0, false)
        };
        lemma_set_all_keeps_paths(mi, m3);
        let i3 = choose|i: int| 0 <= i < m3.len() && m3[i].0 == k;
        assert(has_path(set_all(mi, m3), m3[i3].0));
        lemma_insert_keeps_paths(set_all(mi, m3), join_book_root_spec(root, "README.md"@), crate::init::readme_spec(opts));
    }
}

proof fn lemma_parts_under_root(br: Seq<char>, x: Seq<char>)
    ensures
        path_parts(join_book_root_spec(br, x)) == path_parts(br) + path_parts(x),
{
    if is_dot_root(br) {
        if br.len() == 0 {
            assert(split_on(br, '/') =~= seq![Seq::<char>::empty()]);
            assert(seq![Seq::<char>::empty()].drop_last() =~= Seq::<Seq<char>>::empty());
        } else {
            assert(br.drop_last() =~= Seq::<char>::empty());
            assert(split_on(br.drop_last(), '/') =~= seq![Seq::<char>::empty()]);
            assert(split_on(br, '/') =~= seq![seq!['.']]);
            assert(seq![seq!['.']].drop_last() =~= Seq::<Seq<char>>::empty());
        }
        let ps = split_on(br, '/');
        assert(ps.len() == 1);
        assert(ps.drop_last() =~= Seq::<Seq<char>>::empty());
        assert(crate::paths::kept_parts(ps.drop_last()) =~= Seq::<Seq<char>>::empty());
        assert(!crate::paths::keep_part(ps.last()));
        assert(path_parts(br) =~= Seq::<Seq<char>>::empty());
        assert(join_book_root_spec(br, x) == x);
        assert(path_parts(br) + path_parts(x) =~= path_parts(x));
    } else {
        crate::text::lemma_split_on_concat(br, x, '/');
        crate::paths::lemma_kept_parts_concat(split_on(br, '/'), split_on(x, '/'));
    }
}

proof fn lemma_parent_parts(p: Seq<char>)
    ensures
        path_parts(parent_path(p)) == (if path_parts(p).len() == 0 {
            Seq::<Seq<char>>::empty()
        } else {
            path_parts(p).drop_last()
        }),
{
    let ps = path_parts(p);
    crate::paths::lemma_path_parts_clean(p);
    if ps.len() == 0 {
        crate::paths::lemma_path_parts_join(Seq::<Seq<char>>::empty());
        assert(parent_path(p) =~= Seq::<char>::empty());
        assert(join_with(Seq::<Seq<char>>::empty(), seq!['/']) =~= Seq::<char>::empty());
    } else {
        let d = ps.drop_last();
        assert forall|i: int| 0 <= i < d.len() implies crate::paths::keep_part(#[trigger] d[i]) && !d[i].contains('/') by {
            assert(d[i] == ps[i]);
        }
        crate::paths::lemma_path_parts_join(d);
    }
}

proof fn lemma_common_len_prefix(b: Seq<Seq<char>>, x: Seq<Seq<char>>, y: Seq<Seq<char>>)
    ensures
        common_len(b + x, b + y) == b.len() + common_len(x, y),
    decreases b.len(),
{
    if b.len() > 0 {
        assert((b + x)[0] == b[0] && (b + y)[0] == b[0]);
        assert((b + x).drop_first() =~= b.drop_first() + x);
        assert((b + y).drop_first() =~= b.drop_first() + y);
        lemma_common_len_prefix(b.drop_first(), x, y);
    } else {
        assert(b + x =~= x);
        assert(b + y =~= y);
    }
}

proof fn lemma_common_len_bounds(a: Seq<Seq<char>>, b: Seq<Seq<char>>)
    ensures
        common_len(a, b) <= a.len(),
        common_len(a, b) <= b.len(),
        a.take(common_len(a, b) as int) == b.take(common_len(a, b) as int),
    decreases a.len(),
{
    if !(a.len() == 0 || b.len() == 0 || a[0] != b[0]) {
        lemma_common_len_bounds(a.drop_first(), b.drop_first());
        let j = common_len(a.drop_first(), b.drop_first());
        assert(a.take((j + 1) as int) =~= seq![a[0]] + a.drop_first().take(j as int));
        assert(b.take((j + 1) as int) =~= seq![b[0]] + b.drop_first().take(j as int));
    } else {
        assert(a.take(0) =~= b.take(0));
    }
}

/// The relative link between two paths under a common directory is the relative link
/// between the paths below it.
proof fn lemma_relative_under_root(br: Seq<char>, from_dir: Seq<char>, target: Seq<char>)
    requires
        path_parts(target) != path_parts(from_dir),
    ensures
        relative_path_spec(join_book_root_spec(br, from_dir), join_book_root_spec(br, target))
            == relative_path_spec(from_dir, target),
{
    let b = path_parts(br);
    let f = path_parts(from_dir);
    let t = path_parts(target);
    lemma_parts_under_root(br, from_dir);
    lemma_parts_under_root(br, target);
    lemma_common_len_prefix(b, f, t);
    lemma_common_len_bounds(f, t);
    let i = common_len(f, t);
    let parts = ups((f.len() - i) as nat) + t.skip(i as int);
    let parts2 = ups(((b + f).len() - (b.len() + i)) as nat) + (b + t).skip((b.len() + i) as int);
    assert((b + t).skip((b.len() + i) as int) =~= t.skip(i as int));
    assert(parts2 =~= parts);
    assert(parts.len() > 0) by {
        if parts.len() == 0 {
            assert(f.len() == i && t.len() == i);
            assert(f =~= f.take(i as int));
            assert(t =~= t.take(i as int));
        }
    }
}

/// In the entity layouts, every link that a page writes to a documented entity of a
/// named package resolves, as the link checker reads it (relative to the page's place
/// under the book root), to a file that the generation writes. Paths that climb with
/// `..` are left out.
pub proof fn law_entity_links_resolve(
    proto: Seq<FileDesc>,
    names: Seq<Seq<char>>,
    opts: Options,
    links: LinkContext,
    cache: Seq<(String, String)>,
    found: Seq<FoundMarkdown>,
    init_files: Seq<(String, Option<String>)>,
    from: Seq<char>,
    pkg: Seq<char>,
    kind: EntityKind,
    name: Seq<char>,
)
    requires
        links_for(links, packages_spec(proto, names), opts),
        opts.layout != Layout::Package,
        links.has_entity(pkg, kind, name),
        pkg.len() > 0,
        path_parts(from).len() > 0,
        no_dotdot(path_parts(join_book_root_spec(opts.book_root@, from))),
        no_dotdot(path_parts(join_book_root_spec(opts.book_root@, entity_page_rel(links, pkg, kind, name)))),
        path_parts(entity_page_rel(links, pkg, kind, name)) != path_parts(parent_path(from)),
    ensures
        link_from_spec(&links, from, pkg, kind, name) == file_link_spec(from, entity_page_rel(links, pkg, kind, name)),
        file_exists(
            output_files_spec(proto, names, opts, links, cache, found, init_files).map_values(
                |p: (Seq<char>, Seq<char>)| p.0,
            ),
            link_file(
                join_book_root_spec(opts.book_root@, from),
                relative_path_spec(parent_path(from), entity_page_rel(links, pkg, kind, name)),
            ),
        ),
{
    let br = opts.book_root@;
    let target = entity_page_rel(links, pkg, kind, name);
    let page2 = join_book_root_spec(br, from);
    let target2 = join_book_root_spec(br, target);
    let rel = relative_path_spec(parent_path(from), target);
    law_link_targets_are_written(proto, names, opts, links, cache, found, init_files, pkg, kind, name);
    let out = output_files_spec(proto, names, opts, links, cache, found, init_files);
    assert(has_path(out, target2));
    lemma_parts_under_root(br, from);
    lemma_parts_under_root(br, target);
    lemma_parts_under_root(br, parent_path(from));
    lemma_parent_parts(from);
    lemma_parent_parts(page2);
    let b = path_parts(br);
    let f = path_parts(from);
    assert((b + f).drop_last() =~= b + f.drop_last());
    assert(path_parts(parent_path(page2)) == path_parts(join_book_root_spec(br, parent_path(from))));
    lemma_relative_under_root(br, parent_path(from), target);
    assert(relative_path_spec(parent_path(page2), target2) == relative_path_spec(
        join_book_root_spec(br, parent_path(from)),
        target2,
    ));
    assert(relative_path_spec(parent_path(page2), target2) == rel);
    assert(path_parts(target2) != path_parts(parent_path(page2))) by {
        if path_parts(target2) == path_parts(parent_path(page2)) {
            let t = path_parts(target);
            let fd = f.drop_last();
            assert(b + t == b + fd);
            assert(t =~= (b + t).skip(b.len() as int));
            assert(fd =~= (b + fd).skip(b.len() as int));
        }
    }
    law_relative_link_resolves(page2, target2);
    let keys = out.map_values(|p: (Seq<char>, Seq<char>)| p.0);
    let j = choose|j: int| 0 <= j < out.len() && out[j].0 == target2;
    assert(keys[j] == target2);
}

/// The link context built for a generation knows exactly the named messages, enums and
/// services of every package: `(package, kind, name)` is known iff some file of that
/// package has a top-level descriptor of that kind and name.
pub proof fn law_link_context_knows_exactly_the_entities(
    m: Seq<(Seq<char>, Seq<(Seq<char>, FileDesc)>)>,
    pkg: Seq<char>,
    kind: EntityKind,
    name: Seq<char>,
)
    ensures
        all_entities(m).contains((pkg, kind, name)) <==> exists|g: int, v: (EntityKind, Seq<char>, int, int)|
            0 <= g < m.len() && m[g].0 == pkg && #[trigger] entity_visits(m[g].1).contains(v) && v.0 == kind && v.1
                == name,
    decreases m.len(),
{
    if m.len() > 0 {
        let pre = m.drop_last();
        law_link_context_knows_exactly_the_entities(pre, pkg, kind, name);
        let last = m.last();
        let pe = package_entities(last.0, last.1);
        let ev = entity_visits(last.1);
        assert(all_entities(m) == all_entities(pre) + pe);
        if all_entities(m).contains((pkg, kind, name)) {
            let a = all_entities(m);
            let j = choose|j: int| 0 <= j < a.len() && a[j] == (pkg, kind, name);
            if j < all_entities(pre).len() {
                assert(all_entities(pre)[j] == (pkg, kind, name));
                assert(all_entities(pre).contains((pkg, kind, name)));
                let (g, v) = choose|g: int, v: (EntityKind, Seq<char>, int, int)|
                    0 <= g < pre.len() && pre[g].0 == pkg && #[trigger] entity_visits(pre[g].1).contains(v) && v.0
                        == kind && v.1 == name;
                assert(m[g] == pre[g]);
            } else {
                let t = j - all_entities(pre).len();
                assert(pe[t] == (last.0, ev[t].0, ev[t].1));
                assert(ev.contains(ev[t]));
                assert(m[m.len() - 1] == last);
            }
        }
        if exists|g: int, v: (EntityKind, Seq<char>, int, int)|
            0 <= g < m.len() && m[g].0 == pkg && #[trigger] entity_visits(m[g].1).contains(v) && v.0 == kind && v.1
                == name {
            let (g, v) = choose|g: int, v: (EntityKind, Seq<char>, int, int)|
                0 <= g < m.len() && m[g].0 == pkg && #[trigger] entity_visits(m[g].1).contains(v) && v.0 == kind
                    && v.1 == name;
            if g < pre.len() {
                assert(pre[g] == m[g]);
                assert(all_entities(pre).contains((pkg, kind, name)));
                let j = choose|j: int| 0 <= j < all_entities(pre).len() && all_entities(pre)[j] == (pkg, kind, name);
                assert(all_entities(m)[j] == (pkg, kind, name));
            } else {
                let t = choose|t: int| 0 <= t < ev.len() && ev[t] == v;
                assert(pe[t] == (pkg, kind, name));
                assert(all_entities(m)[all_entities(pre).len() + t] == (pkg, kind, name));
            }
        }
    }
}

proof fn lemma_init_map_paths(br: Seq<char>, files: Seq<(String, Option<String>)>)
    ensures
        forall|i: int| 0 <= i < files.len() && (#[trigger] files[i]).1 is Some ==> has_path(
            crate::init::init_map_spec(br, files),
            join_book_root_spec(br, files[i].0@),
        ),
    decreases files.len(),
{
    if files.len() > 0 {
        let pre = files.drop_last();
        lemma_init_map_paths(br, pre);
        let m = crate::init::init_map_spec(br, pre);
        match files.last().1 {
            Some(c) => lemma_insert_keeps_paths(m, join_book_root_spec(br, files.last().0@), c@),
            None => {},
        }
        assert forall|i: int| 0 <= i < files.len() && (#[trigger] files[i]).1 is Some implies has_path(
            crate::init::init_map_spec(br, files),
            join_book_root_spec(br, files[i].0@),
        ) by {
            if i < files.len() - 1 {
                assert(pre[i] == files[i]);
            }
        }
    }
}

proof fn lemma_book_comment_keeps_paths(br: Seq<char>, m: KvView, enabled: bool)
    ensures
        forall|k: Seq<char>| has_path(m, k) ==> #[trigger] has_path(crate::init::book_comment_spec(br, m, enabled), k),
{
    let key = join_book_root_spec(br, "book.toml"@);
    match crate::kvmap::kv_get(m, key) {
        Some(b) => lemma_insert_keeps_paths(m, key, b + crate::init::book_comment(enabled)),
        None => lemma_insert_keeps_paths(m, key, crate::text::trim_start(crate::init::book_comment(enabled))),
    }
}

/// A new book keeps every scaffold file it is given (that has text), every generated
/// document, and the starter `README.md`, each under the book root; wiring in
/// highlighting only adds or rewrites files.
pub proof fn law_merge_keeps_every_file(
    opts: Options,
    br: Seq<char>,
    init_files: Seq<(String, Option<String>)>,
    docs: KvView,
)
    ensures
        forall|i: int| 0 <= i < init_files.len() && (#[trigger] init_files[i]).1 is Some ==> has_path(
            crate::init::merge_spec(opts, br, init_files, docs),
            join_book_root_spec(br, init_files[i].0@),
        ),
        forall|i: int| 0 <= i < docs.len() ==> has_path(crate::init::merge_spec(opts, br, init_files, docs), #[trigger] docs[i].0),
        has_path(crate::init::merge_spec(opts, br, init_files, docs), join_book_root_spec(br, "README.md"@)),
{
    let m0 = crate::init::init_map_spec(br, init_files);
    lemma_init_map_paths(br, init_files);
    let m1 = if crate::init::proto_on(opts) || crate::init::cel_on(opts) {
        crate::init::inject_spec(opts, br, m0)
    } else {
        crate::init::book_comment_spec(br, m0, false)
    };
    assert(forall|k: Seq<char>| has_path(m0, k) ==> #[trigger] has_path(m1, k)) by {
        if crate::init::proto_on(opts) || crate::init::cel_on(opts) {
            let k1 = join_book_root_spec(br, "theme/highlight-protobuf.js"@);
            let k2 = join_book_root_spec(br, "theme/highlight-cel.js"@);
            let k3 = join_book_root_spec(br, "theme/index.hbs"@);
            let a = if crate::init::proto_on(opts) {
                kv_insert(m0, k1, crate::init::proto_js_spec())
            } else {
                m0
            };
            if crate::init::proto_on(opts) {
                lemma_insert_keeps_paths(m0, k1, crate::init::proto_js_spec());
            }
            let b = if crate::init::cel_on(opts) {
                kv_insert(a, k2, crate::init::cel_js_spec())
            } else {
                a
            };
            if crate::init::cel_on(opts) {
                lemma_insert_keeps_paths(a, k2, crate::init::cel_js_spec());
            }
            let c = match crate::kvmap::kv_get(b, k3) {
                Some(ix) => kv_insert(b, k3, crate::init::patched_index(ix, opts)),
                None => b,
            };
            match crate::kvmap::kv_get(b, k3) {
                Some(ix) => lemma_insert_keeps_paths(b, k3, crate::init::patched_index(ix, opts)),
                None => {},
            }
            lemma_book_comment_keeps_paths(br, c, true);
        } else {
            lemma_book_comment_keeps_paths(br, m0, false);
        }
    }
    lemma_set_all_keeps_paths(m1, docs);
    let m2 = set_all(m1, docs);
    lemma_insert_keeps_paths(m2, join_book_root_spec(br, "README.md"@), crate::init::readme_spec(opts));
}

/// Number of messages, enums and services in `files`.
pub open spec fn descriptor_count(files: Seq<(Seq<char>, FileDesc)>) -> nat
    decreases files.len(),
{
    if files.len() == 0 {
        0
    } else {
        descriptor_count(files.drop_last()) + files.last().1.message_type@.len() + files.last().1.enum_type@.len()
            + files.last().1.service@.len()
    }
}

/// Under the entity layouts a package gets its index page plus one page per message,
/// enum and service.
pub proof fn law_entity_pages_count(
    pkg: Seq<char>,
    files: Seq<(Seq<char>, FileDesc)>,
    links: LinkContext,
    opts: Options,
    cache: Seq<(String, String)>,
)
    ensures
        entity_pages_spec(pkg, files, links, opts, cache).len() == 1 + descriptor_count(files),
    decreases files.len(),
{
    if files.len() > 0 {
        let pre = files.drop_last();
        let f = files.last();
        law_entity_pages_count(pkg, pre, links, opts, cache);
        lemma_message_pages(pkg, f.0, f.1.location@, f.1.message_type@, links, opts, crate::render::source_lookup(cache, f.0));
        lemma_enum_pages(pkg, f.0, f.1.location@, f.1.enum_type@, links, opts);
        lemma_service_pages(pkg, f.0, f.1.location@, f.1.service@, links, opts);
    }
}

proof fn lemma_all_named_messages(ms: Seq<MessageDesc>, p: int)
    requires
        forall|i: int| 0 <= i < ms.len() ==> (#[trigger] ms[i]).name is Some,
    ensures
        named_messages(ms, p).len() == ms.len(),
        forall|i: int| 0 <= i < ms.len() ==> #[trigger] named_messages(ms, p)[i] == (
            EntityKind::Message,
            ms[i].name->0@,
            p,
            i,
        ),
    decreases ms.len(),
{
    if ms.len() > 0 {
        assert(ms[ms.len() - 1].name is Some);
        lemma_all_named_messages(ms.drop_last(), p);
        assert forall|i: int| 0 <= i < ms.len() - 1 implies ms.drop_last()[i] == ms[i] by {}
    }
}

proof fn lemma_all_named_enums(es: Seq<EnumDesc>, p: int)
    requires
        forall|i: int| 0 <= i < es.len() ==> (#[trigger] es[i]).name is Some,
    ensures
        named_enums(es, p).len() == es.len(),
        forall|i: int| 0 <= i < es.len() ==> #[trigger] named_enums(es, p)[i] == (
            EntityKind::Enum,
            es[i].name->0@,
            p,
            i,
        ),
    decreases es.len(),
{
    if es.len() > 0 {
        assert(es[es.len() - 1].name is Some);
        lemma_all_named_enums(es.drop_last(), p);
        assert forall|i: int| 0 <= i < es.len() - 1 implies es.drop_last()[i] == es[i] by {}
    }
}

proof fn lemma_all_named_services(ss: Seq<ServiceDesc>, p: int)
    requires
        forall|i: int| 0 <= i < ss.len() ==> (#[trigger] ss[i]).name is Some,
    ensures
        named_services(ss, p).len() == ss.len(),
        forall|i: int| 0 <= i < ss.len() ==> #[trigger] named_services(ss, p)[i] == (
            EntityKind::Service,
            ss[i].name->0@,
            p,
            i,
        ),
    decreases ss.len(),
{
    if ss.len() > 0 {
        assert(ss[ss.len() - 1].name is Some);
        lemma_all_named_services(ss.drop_last(), p);
        assert forall|i: int| 0 <= i < ss.len() - 1 implies ss.drop_last()[i] == ss[i] by {}
    }
}

/// With every entity named, the entity pages of `files` lie, in order, at the pages of
/// the entities that `entity_visits` lists.
proof fn lemma_file_pages_paths(
    pkg: Seq<char>,
    files: Seq<(Seq<char>, FileDesc)>,
    links: LinkContext,
    opts: Options,
    cache: Seq<(String, String)>,
)
    requires
        forall|p: int| 0 <= p < files.len() ==> file_named(#[trigger] files[p].1),
    ensures
        file_pages(pkg, files, links, opts, cache).len() == entity_visits(files).len(),
        forall|j: int|
            0 <= j < entity_visits(files).len() ==> (#[trigger] file_pages(pkg, files, links, opts, cache)[j]).0
                == page_path(links, opts, pkg, entity_visits(files)[j].0, entity_visits(files)[j].1),
    decreases files.len(),
{
    if files.len() > 0 {
        let pre = files.drop_last();
        let p = files.len() - 1;
        let f = files.last();
        assert forall|q: int| 0 <= q < pre.len() implies file_named(#[trigger] pre[q].1) by {
            assert(pre[q] == files[q]);
        }
        assert(file_named(files[p].1));
        lemma_file_pages_paths(pkg, pre, links, opts, cache);
        let ms = f.1.message_type@;
        let es = f.1.enum_type@;
        let ss = f.1.service@;
        lemma_all_named_messages(ms, p);
        lemma_all_named_enums(es, p);
        lemma_all_named_services(ss, p);
        let src = crate::render::source_lookup(cache, f.0);
        lemma_message_pages(pkg, f.0, f.1.location@, ms, links, opts, src);
        lemma_enum_pages(pkg, f.0, f.1.location@, es, links, opts);
        lemma_service_pages(pkg, f.0, f.1.location@, ss, links, opts);
        let fp = file_pages(pkg, pre, links, opts, cache);
        let mp = message_pages(pkg, f.0, f.1.location@, ms, links, opts, src);
        let ep = enum_pages(pkg, f.0, f.1.location@, es, links, opts);
        let sp = service_pages(pkg, f.0, f.1.location@, ss, links, opts);
        let pv = entity_visits(pre);
        let nm = named_messages(ms, p);
        let ne = named_enums(es, p);
        let ns = named_services(ss, p);
        let all_p = fp + mp + ep + sp;
        let all_v = pv + nm + ne + ns;
        assert(file_pages(pkg, files, links, opts, cache) == all_p);
        assert(entity_visits(files) == all_v);
        assert forall|j: int| 0 <= j < all_v.len() implies (#[trigger] all_p[j]).0 == page_path(
            links,
            opts,
            pkg,
            all_v[j].0,
            all_v[j].1,
        ) by {
            let a = fp.len();
            let b = a + mp.len();
            let c = b + ep.len();
            if j < a {
                assert(all_p[j] == fp[j] && all_v[j] == pv[j]);
            } else if j < b {
                assert(all_p[j] == mp[j - a] && all_v[j] == nm[j - a]);
            } else if j < c {
                assert(all_p[j] == ep[j - b] && all_v[j] == ne[j - b]);
            } else {
                assert(all_p[j] == sp[j - c] && all_v[j] == ns[j - c]);
            }
        }
    }
}

/// Under the entity layouts, with every message, enum and service named, a package's
/// pages are its index page (`# package`, the overview, `## Contents` and one link per
/// entity in visit order), then one page per entity, in the same order, each at that
/// entity's page path.
pub proof fn law_entity_pages_follow_the_visits(
    pkg: Seq<char>,
    files: Seq<(Seq<char>, FileDesc)>,
    links: LinkContext,
    opts: Options,
    cache: Seq<(String, String)>,
)
    requires
        forall|p: int| 0 <= p < files.len() ==> file_named(#[trigger] files[p].1),
    ensures
        entity_pages_spec(pkg, files, links, opts, cache).len() == 1 + entity_visits(files).len(),
        entity_pages_spec(pkg, files, links, opts, cache)[0] == index_page_spec(pkg, files, links, opts),
        forall|j: int|
            0 <= j < entity_visits(files).len() ==> (#[trigger] entity_pages_spec(pkg, files, links, opts, cache)[j + 1]).0
                == page_path(links, opts, pkg, entity_visits(files)[j].0, entity_visits(files)[j].1),
{
    lemma_file_pages_paths(pkg, files, links, opts, cache);
    let fp = file_pages(pkg, files, links, opts, cache);
    let all = entity_pages_spec(pkg, files, links, opts, cache);
    assert forall|j: int| 0 <= j < entity_visits(files).len() implies (#[trigger] all[j + 1]).0 == page_path(
        links,
        opts,
        pkg,
        entity_visits(files)[j].0,
        entity_visits(files)[j].1,
    ) by {
        assert(all[j + 1] == fp[j]);
    }
}

/// The groups with a non-empty package name, in order.
pub open spec fn named_groups(m: Seq<(Seq<char>, Seq<(Seq<char>, FileDesc)>)>) -> Seq<(Seq<char>, Seq<(Seq<char>, FileDesc)>)>
    decreases m.len(),
{
    if m.len() == 0 {
        Seq::empty()
    } else if m.last().0.len() == 0 {
        named_groups(m.drop_last())
    } else {
        named_groups(m.drop_last()).push(m.last())
    }
}

/// Under `layout=package` the documents are one package page per named package, in the
/// order of the packages (the unnamed package gets none); each page opens with
/// `# {package}` and a blank line.
pub proof fn law_package_layout_one_page_per_package(
    m: Seq<(Seq<char>, Seq<(Seq<char>, FileDesc)>)>,
    opts: Options,
    links: LinkContext,
    cache: Seq<(String, String)>,
)
    requires
        opts.layout == Layout::Package,
    ensures
        docs_spec(m, opts, links, cache) == named_groups(m).map_values(
            |g: (Seq<char>, Seq<(Seq<char>, FileDesc)>)| package_page_doc(g.0, g.1, links, opts, cache),
        ),
        forall|i: int| 0 <= i < named_groups(m).len() ==> crate::text::starts_with(
            (#[trigger] package_page_doc(named_groups(m)[i].0, named_groups(m)[i].1, links, opts, cache)).1,
            "# "@ + named_groups(m)[i].0 + "\n\n"@,
        ),
    decreases m.len(),
{
    if m.len() > 0 {
        law_package_layout_one_page_per_package(m.drop_last(), opts, links, cache);
        let f = |g: (Seq<char>, Seq<(Seq<char>, FileDesc)>)| package_page_doc(g.0, g.1, links, opts, cache);
        if m.last().0.len() > 0 {
            assert(named_groups(m).map_values(f) =~= named_groups(m.drop_last()).map_values(f).push(f(m.last())));
        }
    }
    reveal_strlit("# ");
    reveal_strlit("\n\n");
    assert forall|i: int| 0 <= i < named_groups(m).len() implies crate::text::starts_with(
        (#[trigger] package_page_doc(named_groups(m)[i].0, named_groups(m)[i].1, links, opts, cache)).1,
        "# "@ + named_groups(m)[i].0 + "\n\n"@,
    ) by {
        let g = named_groups(m)[i];
        let c = package_page_doc(g.0, g.1, links, opts, cache).1;
        let h = crate::markdown::md_heading_spec(1, g.0);
        assert(Seq::new(1, |_i: int| '#') + seq![' '] =~= "# "@);
        assert(h =~= "# "@ + g.0 + "\n\n"@);
        assert(c.take(h.len() as int) =~= h);
    }
}

/// Rank of a kind in visiting order: messages, then enums, then services.
pub open spec fn kind_rank(k: EntityKind) -> int {
    match k {
        EntityKind::Message => 0,
        EntityKind::Enum => 1,
        EntityKind::Service => 2,
    }
}

/// Visit `a` comes strictly before visit `b`: by file, then kind, then index.
pub open spec fn visit_before(a: (EntityKind, Seq<char>, int, int), b: (EntityKind, Seq<char>, int, int)) -> bool {
    a.2 < b.2 || (a.2 == b.2 && (kind_rank(a.0) < kind_rank(b.0) || (a.0 == b.0 && a.3 < b.3)))
}

proof fn lemma_named_in_order(ms: Seq<(EntityKind, Seq<char>, int, int)>, k: EntityKind, p: int, n: int)
    requires
        forall|j: int| 0 <= j < ms.len() ==> (#[trigger] ms[j]).0 == k && ms[j].2 == p && 0 <= ms[j].3 < n,
        forall|a: int, b: int| 0 <= a < b < ms.len() ==> (#[trigger] ms[a]).3 < (#[trigger] ms[b]).3,
    ensures
        forall|a: int, b: int| 0 <= a < b < ms.len() ==> visit_before(#[trigger] ms[a], #[trigger] ms[b]),
{
}

proof fn lemma_named_messages_order(ms: Seq<crate::descriptor::MessageDesc>, p: int)
    ensures
        forall|j: int| 0 <= j < named_messages(ms, p).len() ==> (#[trigger] named_messages(ms, p)[j]).0
            == EntityKind::Message && named_messages(ms, p)[j].2 == p && 0 <= named_messages(ms, p)[j].3 < ms.len()
            && ms[named_messages(ms, p)[j].3].name is Some && or_default(ms[named_messages(ms, p)[j].3].name, "Message"@)
            == named_messages(ms, p)[j].1,
        forall|a: int, b: int| 0 <= a < b < named_messages(ms, p).len() ==> (#[trigger] named_messages(ms, p)[a]).3 < (
        #[trigger] named_messages(ms, p)[b]).3,
    decreases ms.len(),
{
    if ms.len() > 0 {
        lemma_named_messages_order(ms.drop_last(), p);
        let pre = named_messages(ms.drop_last(), p);
        assert forall|j: int| 0 <= j < pre.len() implies ms[pre[j].3] == ms.drop_last()[pre[j].3] by {}
    }
}

proof fn lemma_named_enums_order(es: Seq<crate::descriptor::EnumDesc>, p: int)
    ensures
        forall|j: int| 0 <= j < named_enums(es, p).len() ==> (#[trigger] named_enums(es, p)[j]).0
            == EntityKind::Enum && named_enums(es, p)[j].2 == p && 0 <= named_enums(es, p)[j].3 < es.len()
            && es[named_enums(es, p)[j].3].name is Some && or_default(es[named_enums(es, p)[j].3].name, "Enum"@)
            == named_enums(es, p)[j].1,
        forall|a: int, b: int| 0 <= a < b < named_enums(es, p).len() ==> (#[trigger] named_enums(es, p)[a]).3 < (
        #[trigger] named_enums(es, p)[b]).3,
    decreases es.len(),
{
    if es.len() > 0 {
        lemma_named_enums_order(es.drop_last(), p);
        let pre = named_enums(es.drop_last(), p);
        assert forall|j: int| 0 <= j < pre.len() implies es[pre[j].3] == es.drop_last()[pre[j].3] by {}
    }
}

proof fn lemma_named_services_order(ss: Seq<crate::descriptor::ServiceDesc>, p: int)
    ensures
        forall|j: int| 0 <= j < named_services(ss, p).len() ==> (#[trigger] named_services(ss, p)[j]).0
            == EntityKind::Service && named_services(ss, p)[j].2 == p && 0 <= named_services(ss, p)[j].3 < ss.len()
            && ss[named_services(ss, p)[j].3].name is Some && or_default(ss[named_services(ss, p)[j].3].name, "Service"@)
            == named_services(ss, p)[j].1,
        forall|a: int, b: int| 0 <= a < b < named_services(ss, p).len() ==> (#[trigger] named_services(ss, p)[a]).3 < (
        #[trigger] named_services(ss, p)[b]).3,
    decreases ss.len(),
{
    if ss.len() > 0 {
        lemma_named_services_order(ss.drop_last(), p);
        let pre = named_services(ss.drop_last(), p);
        assert forall|j: int| 0 <= j < pre.len() implies ss[pre[j].3] == ss.drop_last()[pre[j].3] by {}
    }
}

/// Entities are visited file by file in list order; within a file its named messages,
/// then named enums, then named services, each in descriptor order: every visit names
/// the descriptor at its file and index, and visits come in strictly increasing
/// (file, kind, index) order, so each descriptor is visited at most once.
pub proof fn law_entity_visits_in_order(files: Seq<(Seq<char>, FileDesc)>)
    ensures
        forall|j: int| 0 <= j < entity_visits(files).len() ==> {
            let v = #[trigger] entity_visits(files)[j];
            &&& 0 <= v.2 < files.len()
            &&& v.0 == EntityKind::Message ==> 0 <= v.3 < files[v.2].1.message_type.len()
                && files[v.2].1.message_type@[v.3].name is Some && or_default(files[v.2].1.message_type@[v.3].name, "Message"@) == v.1
            &&& v.0 == EntityKind::Enum ==> 0 <= v.3 < files[v.2].1.enum_type.len()
                && files[v.2].1.enum_type@[v.3].name is Some && or_default(files[v.2].1.enum_type@[v.3].name, "Enum"@) == v.1
            &&& v.0 == EntityKind::Service ==> 0 <= v.3 < files[v.2].1.service.len()
                && files[v.2].1.service@[v.3].name is Some && or_default(files[v.2].1.service@[v.3].name, "Service"@) == v.1
        },
        forall|a: int, b: int| 0 <= a < b < entity_visits(files).len() ==> visit_before(
            #[trigger] entity_visits(files)[a],
            #[trigger] entity_visits(files)[b],
        ),
    decreases files.len(),
{
    if files.len() > 0 {
        let pre = files.drop_last();
        let p = files.len() - 1;
        let f = files.last();
        law_entity_visits_in_order(pre);
        let ev0 = entity_visits(pre);
        let nm = named_messages(f.1.message_type@, p);
        let ne = named_enums(f.1.enum_type@, p);
        let ns = named_services(f.1.service@, p);
        lemma_named_messages_order(f.1.message_type@, p);
        lemma_named_enums_order(f.1.enum_type@, p);
        lemma_named_services_order(f.1.service@, p);
        let all = entity_visits(files);
        assert(all == ev0 + nm + ne + ns);
        let n0 = ev0.len();
        let n1 = n0 + nm.len();
        let n2 = n1 + ne.len();
        assert forall|j: int| 0 <= j < all.len() implies {
            let v = #[trigger] all[j];
            &&& 0 <= v.2 < files.len()
            &&& v.0 == EntityKind::Message ==> 0 <= v.3 < files[v.2].1.message_type.len()
                && files[v.2].1.message_type@[v.3].name is Some && or_default(files[v.2].1.message_type@[v.3].name, "Message"@) == v.1
            &&& v.0 == EntityKind::Enum ==> 0 <= v.3 < files[v.2].1.enum_type.len()
                && files[v.2].1.enum_type@[v.3].name is Some && or_default(files[v.2].1.enum_type@[v.3].name, "Enum"@) == v.1
            &&& v.0 == EntityKind::Service ==> 0 <= v.3 < files[v.2].1.service.len()
                && files[v.2].1.service@[v.3].name is Some && or_default(files[v.2].1.service@[v.3].name, "Service"@) == v.1
        } by {
            if j < n0 {
                assert(all[j] == ev0[j]);
                assert(pre[ev0[j].2] == files[ev0[j].2]);
            } else if j < n1 {
                assert(all[j] == nm[j - n0]);
            } else if j < n2 {
                assert(all[j] == ne[j - n1]);
            } else {
                assert(all[j] == ns[j - n2]);
            }
        }
        assert forall|a: int, b: int| 0 <= a < b < all.len() implies visit_before(#[trigger] all[a], #[trigger] all[b]) by {
            if b < n0 {
                assert(all[a] == ev0[a] && all[b] == ev0[b]);
            } else if a < n0 {
                assert(all[a] == ev0[a]);
                assert(ev0[a].2 < p);
            } else if b < n1 {
                assert(all[a] == nm[a - n0] && all[b] == nm[b - n0]);
            } else if a < n1 {
                assert(all[a] == nm[a - n0]);
                if b < n2 {
                    assert(all[b] == ne[b - n1]);
                } else {
                    assert(all[b] == ns[b - n2]);
                }
            } else if b < n2 {
                assert(all[a] == ne[a - n1] && all[b] == ne[b - n1]);
            } else if a < n2 {
                assert(all[a] == ne[a - n1] && all[b] == ns[b - n2]);
            } else {
                assert(all[a] == ns[a - n2] && all[b] == ns[b - n2]);
            }
        }
    }
}

} // verus!
