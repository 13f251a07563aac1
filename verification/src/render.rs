//! Markdown pages rendered from descriptors: grouping by package, entity listing, and
//! the package and entity layouts.

use crate::comments::{files_view, overview_spec, package_overview, CommentIndex};
use crate::descriptor::Location;
use crate::links::{entity_rel_path_spec, package_index_spec, package_page_spec, summary_link_spec};
use crate::options::Layout;
use crate::markdown::{format_doc_spec, format_markdown_doc, md_heading, md_heading_spec, push_paragraph_break};
use crate::options::EscapeTags;
use crate::paths::join_book_root_spec;
use crate::proto_syntax::{
    ctx_view, enum_spec, message_spec, name_or, service_spec, src_view, synthesize_enum,
    synthesize_message_with_file, synthesize_service, CtxView, RenderContext,
};
use crate::descriptor::{EnumDesc, FileDesc, MessageDesc, ServiceDesc};
use crate::links::{entity_view, EntityKind, EntityRef, LinkContext};
use crate::options::Options;
use crate::proto_syntax::or_default;
use crate::text::{append_chars, push_char, chars_eq, chars_of, lemma_str_lt_irrefl, lemma_str_lt_total, lemma_str_lt_trans, str_less, str_lt, to_string, views};
use vstd::prelude::*;

verus! {

/// Sources of `.proto` files by name, read ahead of rendering (first entry wins).
pub struct SourceCache {
    pub files: Vec<(String, String)>,
}

/// Source text recorded for `name` in `files`.
pub open spec fn source_lookup(files: Seq<(String, String)>, name: Seq<char>) -> Option<Seq<char>>
    decreases files.len(),
{
    if files.len() == 0 {
        None
    } else if files[0].0@ == name {
        Some(files[0].1@)
    } else {
        source_lookup(files.drop_first(), name)
    }
}

impl SourceCache {
    /// An empty cache (no sources: fields and options are synthesized).
    pub fn new() -> (r: Self)
        ensures
            r.files@.len() == 0,
    {
        SourceCache { files: Vec::new() }
    }

    /// Source text of `file_name`, when it was read.
    pub fn load(&self, file_name: &str) -> (r: Option<&str>)
        ensures
            match source_lookup(self.files@, file_name@) {
                Some(t) => r matches Some(s) && s@ == t,
                None => r is None,
            },
    {
        let n = chars_of(file_name);
        let mut i: usize = 0;
        assert(self.files@.skip(0) =~= self.files@);
        while i < self.files.len()
            invariant
                i <= self.files.len(),
                n@ == file_name@,
                source_lookup(self.files@, file_name@) == source_lookup(self.files@.skip(i as int), file_name@),
            decreases self.files.len() - i,
        {
            assert(self.files@.skip(i as int)[0] == self.files@[i as int]);
            assert(self.files@.skip(i as int).drop_first() =~= self.files@.skip(i + 1));
            if chars_eq(&chars_of(self.files[i].0.as_str()), &n) {
                return Some(self.files[i].1.as_str());
            }
            i = i + 1;
        }
        None
    }
}

/// First file named `name`.
pub open spec fn find_file(files: Seq<FileDesc>, name: Seq<char>) -> Option<FileDesc>
    decreases files.len(),
{
    if files.len() == 0 {
        None
    } else if files[0].name matches Some(n) && n@ == name {
        Some(files[0])
    } else {
        find_file(files.drop_first(), name)
    }
}

/// Package of a file (empty when unset).
pub open spec fn package_of(f: FileDesc) -> Seq<char> {
    or_default(f.package, Seq::<char>::empty())
}

/// Files of one package, by request name.
pub type PackageGroup = (Seq<char>, Seq<(Seq<char>, FileDesc)>);

/// Index of the group keyed `k`, or `-1`.
pub open spec fn key_index(m: Seq<PackageGroup>, k: Seq<char>) -> int
    decreases m.len(),
{
    if m.len() == 0 {
        -1
    } else if m.last().0 == k {
        m.len() - 1
    } else {
        key_index(m.drop_last(), k)
    }
}

/// Number of leading groups whose key sorts before `k`.
pub open spec fn key_pos(m: Seq<PackageGroup>, k: Seq<char>) -> int
    decreases m.len(),
{
    if m.len() == 0 || !str_lt(m[0].0, k) {
        0
    } else {
        1 + key_pos(m.drop_first(), k)
    }
}

/// `m` with `v` appended to group `k` (a new group, in key order, when there is none).
pub open spec fn add_entry(m: Seq<PackageGroup>, k: Seq<char>, v: (Seq<char>, FileDesc)) -> Seq<PackageGroup> {
    let i = key_index(m, k);
    if i >= 0 {
        m.update(i, (k, m[i].1.push(v)))
    } else {
        m.insert(key_pos(m, k), (k, seq![v]))
    }
}

/// Requested files grouped by package: groups in package order, files of a group in
/// request order; names with no file are skipped.
pub open spec fn packages_spec(files: Seq<FileDesc>, names: Seq<Seq<char>>) -> Seq<PackageGroup>
    decreases names.len(),
{
    if names.len() == 0 {
        Seq::empty()
    } else {
        let m = packages_spec(files, names.drop_last());
        let n = names.last();
        match find_file(files, n) {
            Some(f) => add_entry(m, package_of(f), (n, f)),
            None => m,
        }
    }
}

/// Group keys strictly increase.
pub open spec fn keys_sorted(m: Seq<PackageGroup>) -> bool {
    forall|i: int, j: int| 0 <= i < j < m.len() ==> str_lt(#[trigger] m[i].0, #[trigger] m[j].0)
}

/// Groups of references as plain values.
pub open spec fn groups_view(m: Seq<(String, Vec<(String, &FileDesc)>)>) -> Seq<PackageGroup> {
    m.map_values(|g: (String, Vec<(String, &FileDesc)>)| (g.0@, files_view(g.1@)))
}

/// `key_index` finds the group keyed `k`, or reports that none is.
pub proof fn lemma_key_index(m: Seq<PackageGroup>, k: Seq<char>)
    ensures
        -1 <= key_index(m, k) < m.len(),
        key_index(m, k) >= 0 ==> m[key_index(m, k)].0 == k,
        key_index(m, k) < 0 ==> forall|i: int| 0 <= i < m.len() ==> m[i].0 != k,
    decreases m.len(),
{
    if m.len() > 0 && m.last().0 != k {
        lemma_key_index(m.drop_last(), k);
        assert forall|i: int| 0 <= i < m.len() - 1 implies m[i] == m.drop_last()[i] by {}
    }
}

/// In key-sorted groups, `key_pos` splits the keys below `k` from the others.
pub proof fn lemma_key_pos(m: Seq<PackageGroup>, k: Seq<char>)
    requires
        keys_sorted(m),
    ensures
        0 <= key_pos(m, k) <= m.len(),
        forall|i: int| 0 <= i < key_pos(m, k) ==> str_lt(#[trigger] m[i].0, k),
        forall|i: int| key_pos(m, k) <= i < m.len() ==> !str_lt(#[trigger] m[i].0, k),
    decreases m.len(),
{
    if m.len() > 0 {
        let t = m.drop_first();
        assert(keys_sorted(t)) by {
            assert forall|i: int, j: int| 0 <= i < j < t.len() implies str_lt(#[trigger] t[i].0, #[trigger] t[j].0) by {
                assert(t[i] == m[i + 1] && t[j] == m[j + 1]);
            }
        }
        lemma_key_pos(t, k);
        if str_lt(m[0].0, k) {
            assert forall|i: int| 0 <= i < key_pos(m, k) implies str_lt(#[trigger] m[i].0, k) by {
                if i > 0 {
                    assert(m[i] == t[i - 1]);
                }
            }
            assert forall|i: int| key_pos(m, k) <= i < m.len() implies !str_lt(#[trigger] m[i].0, k) by {
                assert(m[i] == t[i - 1]);
            }
        } else {
            assert forall|i: int| 0 <= i < m.len() implies !str_lt(#[trigger] m[i].0, k) by {
                if i > 0 && str_lt(m[i].0, k) {
                    lemma_str_lt_trans(m[0].0, m[i].0, k);
                }
            }
        }
    }
}

proof fn lemma_add_entry_sorted(m: Seq<PackageGroup>, k: Seq<char>, v: (Seq<char>, FileDesc))
    requires
        keys_sorted(m),
    ensures
        keys_sorted(add_entry(m, k, v)),
{
    lemma_key_index(m, k);
    let i = key_index(m, k);
    if i < 0 {
        lemma_key_pos(m, k);
        let p = key_pos(m, k);
        let r = m.insert(p, (k, seq![v]));
        assert forall|a: int, b: int| 0 <= a < b < r.len() implies str_lt(#[trigger] r[a].0, #[trigger] r[b].0) by {
            if a < p && b < p {
                assert(r[a] == m[a] && r[b] == m[b]);
            } else if a < p && b == p {
                assert(r[a] == m[a]);
            } else if a < p && b > p {
                assert(r[a] == m[a] && r[b] == m[b - 1]);
            } else if a == p {
                assert(r[b] == m[b - 1]);
                assert(!str_lt(m[b - 1].0, k));
                lemma_str_lt_total(k, m[b - 1].0);
            } else {
                assert(r[a] == m[a - 1] && r[b] == m[b - 1]);
            }
        }
    }
}

/// Grouping by package yields each package once, in package-name order.
pub proof fn law_packages_sorted(files: Seq<FileDesc>, names: Seq<Seq<char>>)
    ensures
        keys_sorted(packages_spec(files, names)),
    decreases names.len(),
{
    if names.len() > 0 {
        law_packages_sorted(files, names.drop_last());
        let m = packages_spec(files, names.drop_last());
        match find_file(files, names.last()) {
            Some(f) => lemma_add_entry_sorted(m, package_of(f), (names.last(), f)),
            None => {},
        }
    }
}

/// The requested names, in request order, whose first matching file is in package
/// `k`, each with that file.
pub open spec fn requested_in(files: Seq<FileDesc>, names: Seq<Seq<char>>, k: Seq<char>) -> Seq<(Seq<char>, FileDesc)>
    decreases names.len(),
{
    if names.len() == 0 {
        Seq::empty()
    } else {
        let r = requested_in(files, names.drop_last(), k);
        match find_file(files, names.last()) {
            Some(f) => if package_of(f) == k {
                r.push((names.last(), f))
            } else {
                r
            },
            None => r,
        }
    }
}

/// Grouping by package files each requested name, in request order, under the package
/// of the first file with that name, and skips names that no file has: every group
/// holds exactly the requests of its package, and every package with a request has a
/// group.
pub proof fn law_packages_hold_exactly_their_requests(files: Seq<FileDesc>, names: Seq<Seq<char>>)
    ensures
        forall|i: int|
            0 <= i < packages_spec(files, names).len() ==> {
                &&& (#[trigger] packages_spec(files, names)[i]).1 == requested_in(files, names, packages_spec(files, names)[i].0)
                &&& packages_spec(files, names)[i].1.len() > 0
            },
        forall|k: Seq<char>|
            (#[trigger] requested_in(files, names, k)).len() > 0 ==> exists|i: int|
                0 <= i < packages_spec(files, names).len() && (#[trigger] packages_spec(files, names)[i]).0 == k,
    decreases names.len(),
{
    if names.len() > 0 {
        let init = names.drop_last();
        let n = names.last();
        law_packages_hold_exactly_their_requests(files, init);
        law_packages_sorted(files, init);
        let m0 = packages_spec(files, init);
        let m = packages_spec(files, names);
        match find_file(files, n) {
            None => {
                assert forall|k: Seq<char>| requested_in(files, names, k) == requested_in(files, init, k) by {}
            },
            Some(f) => {
                let pk = package_of(f);
                let v = (n, f);
                lemma_key_index(m0, pk);
                let ki = key_index(m0, pk);
                assert forall|k: Seq<char>| k != pk implies requested_in(files, names, k) == requested_in(files, init, k) by {}
                assert(requested_in(files, names, pk) == requested_in(files, init, pk).push(v));
                if ki >= 0 {
                    assert(m == m0.update(ki, (pk, m0[ki].1.push(v))));
                    assert forall|i: int| 0 <= i < m.len() implies {
                        &&& (#[trigger] m[i]).1 == requested_in(files, names, m[i].0)
                        &&& m[i].1.len() > 0
                    } by {
                        if i != ki {
                            assert(m[i] == m0[i]);
                            if m0[i].0 == pk {
                                if i < ki {
                                    assert(str_lt(m0[i].0, m0[ki].0));
                                } else {
                                    assert(str_lt(m0[ki].0, m0[i].0));
                                }
                                lemma_str_lt_irrefl(pk);
                            }
                        }
                    }
                    assert forall|k: Seq<char>| (#[trigger] requested_in(files, names, k)).len() > 0 implies exists|i: int|
                        0 <= i < m.len() && (#[trigger] m[i]).0 == k by {
                        if k == pk {
                            assert(m[ki].0 == k);
                        } else {
                            assert(requested_in(files, init, k).len() > 0);
                            let i = choose|i: int| 0 <= i < m0.len() && (#[trigger] m0[i]).0 == k;
                            assert(m[i].0 == k);
                        }
                    }
                } else {
                    let p = key_pos(m0, pk);
                    lemma_key_pos(m0, pk);
                    assert(m == m0.insert(p, (pk, seq![v])));
                    if requested_in(files, init, pk).len() > 0 {
                        let i = choose|i: int| 0 <= i < m0.len() && (#[trigger] m0[i]).0 == pk;
                    }
                    assert(requested_in(files, init, pk) =~= Seq::<(Seq<char>, FileDesc)>::empty());
                    assert(requested_in(files, names, pk) =~= seq![v]);
                    assert forall|i: int| 0 <= i < m.len() implies {
                        &&& (#[trigger] m[i]).1 == requested_in(files, names, m[i].0)
                        &&& m[i].1.len() > 0
                    } by {
                        if i < p {
                            assert(m[i] == m0[i]);
                        } else if i > p {
                            assert(m[i] == m0[i - 1]);
                        }
                    }
                    assert forall|k: Seq<char>| (#[trigger] requested_in(files, names, k)).len() > 0 implies exists|i: int|
                        0 <= i < m.len() && (#[trigger] m[i]).0 == k by {
                        if k == pk {
                            assert(m[p].0 == k);
                        } else {
                            assert(requested_in(files, init, k).len() > 0);
                            let i = choose|i: int| 0 <= i < m0.len() && (#[trigger] m0[i]).0 == k;
                            if i < p {
                                assert(m[i].0 == k);
                            } else {
                                assert(m[i + 1].0 == k);
                            }
                        }
                    }
                }
            },
        }
    }
}

fn group_index(m: &Vec<(String, Vec<(String, &FileDesc)>)>, pkg: &str) -> (r: Option<usize>)
    ensures
        match r {
            Some(i) => i < m.len() && key_index(groups_view(m@), pkg@) == i,
            None => key_index(groups_view(m@), pkg@) == -1,
        },
{
    let ghost gm = groups_view(m@);
    let pv = chars_of(pkg);
    let mut k: usize = m.len();
    assert(gm.take(k as int) =~= gm);
    while k > 0
        invariant
            k <= m.len(),
            gm == groups_view(m@),
            pv@ == pkg@,
            key_index(gm, pkg@) == key_index(gm.take(k as int), pkg@),
        decreases k,
    {
        assert(gm.take(k as int).last() == gm[k - 1]);
        assert(gm.take(k as int).drop_last() =~= gm.take(k - 1));
        if chars_eq(&chars_of(m[k - 1].0.as_str()), &pv) {
            return Some(k - 1);
        }
        k = k - 1;
    }
    None
}

fn find_file_index(files: &Vec<FileDesc>, name: &str) -> (r: Option<usize>)
    ensures
        match find_file(files@, name@) {
            Some(f) => r matches Some(i) && i < files.len() && files@[i as int] == f,
            None => r is None,
        },
{
    let n = chars_of(name);
    let mut i: usize = 0;
    assert(files@.skip(0) =~= files@);
    while i < files.len()
        invariant
            i <= files.len(),
            n@ == name@,
            find_file(files@, name@) == find_file(files@.skip(i as int), name@),
        decreases files.len() - i,
    {
        assert(files@.skip(i as int)[0] == files@[i as int]);
        assert(files@.skip(i as int).drop_first() =~= files@.skip(i + 1));
        match &files[i].name {
            Some(fname) => {
                if chars_eq(&chars_of(fname.as_str()), &n) {
                    return Some(i);
                }
            },
            None => {},
        }
        i = i + 1;
    }
    None
}

/// Requested files grouped by package (package-name order); within a package the
/// files keep the order of `file_to_generate`. Names with no descriptor are skipped.
pub fn packages_map<'a>(proto_files: &'a Vec<FileDesc>, file_to_generate: &Vec<String>) -> (r: Vec<(String, Vec<(String, &'a FileDesc)>)>)
    ensures
        groups_view(r@) == packages_spec(proto_files@, views(file_to_generate@)),
        keys_sorted(groups_view(r@)),
{
    let ghost names = views(file_to_generate@);
    let mut m: Vec<(String, Vec<(String, &'a FileDesc)>)> = Vec::new();
    let mut t: usize = 0;
    while t < file_to_generate.len()
        invariant
            t <= file_to_generate.len(),
            names == views(file_to_generate@),
            groups_view(m@) == packages_spec(proto_files@, names.take(t as int)),
        decreases file_to_generate.len() - t,
    {
        let name = file_to_generate[t].as_str();
        proof {
            assert(names.take(t + 1).drop_last() =~= names.take(t as int));
            assert(names.take(t + 1).last() == name@);
            law_packages_sorted(proto_files@, names.take(t as int));
        }
        let ghost gm = groups_view(m@);
        match find_file_index(proto_files, name) {
            Some(fi) => {
                let file: &'a FileDesc = &proto_files[fi];
                let pkg = match &file.package {
                    Some(p) => to_string(p.as_str()),
                    None => String::new(),
                };
                assert(pkg@ == package_of(*file));
                let entry: (String, &'a FileDesc) = (to_string(name), file);
                proof {
                    lemma_key_index(gm, pkg@);
                }
                let found_at = group_index(&m, pkg.as_str());
                if let Some(k1) = found_at {
                    let k = k1 + 1;
                    let mut g = m.remove(k - 1);
                    let ghost gv = files_view(g.1@);
                    g.1.push(entry);
                    assert(files_view(g.1@) =~= gv.push((name@, *file)));
                    m.insert(k - 1, g);
                    assert(groups_view(m@) =~= add_entry(gm, pkg@, (name@, *file)));
                } else {
                    let mut p: usize = 0;
                    assert(gm.skip(0) =~= gm);
                    while p < m.len() && str_less(m[p].0.as_str(), pkg.as_str())
                        invariant
                            p <= m.len(),
                            gm == groups_view(m@),
                            key_pos(gm, pkg@) == p + key_pos(gm.skip(p as int), pkg@),
                        decreases m.len() - p,
                    {
                        assert(gm.skip(p as int)[0] == gm[p as int]);
                        assert(gm.skip(p as int).drop_first() =~= gm.skip(p + 1));
                        p = p + 1;
                    }
                    proof {
                        if p < m.len() {
                            assert(gm.skip(p as int)[0] == gm[p as int]);
                        }
                        assert(key_pos(gm, pkg@) == p);
                    }
                    let mut v: Vec<(String, &'a FileDesc)> = Vec::new();
                    v.push(entry);
                    assert(files_view(v@) =~= seq![(name@, *file)]);
                    m.insert(p, (pkg, v));
                    assert(groups_view(m@) =~= add_entry(gm, pkg@, (name@, *file)));
                }
            },
            None => {},
        }
        t = t + 1;
        assert(groups_view(m@) == packages_spec(proto_files@, names.take(t as int)));
    }
    assert(names.take(file_to_generate.len() as int) =~= names);
    proof {
        law_packages_sorted(proto_files@, names);
    }
    m
}

/// A visited entity: kind, name, position of its file in the list, and its index in
/// that file's messages, enums or services.
pub struct EntityVisit {
    pub kind: EntityKind,
    pub name: String,
    pub file_pos: usize,
    pub index: usize,
}

/// A visit as plain values.
pub open spec fn visit_view(v: EntityVisit) -> (EntityKind, Seq<char>, int, int) {
    (v.kind, v.name@, v.file_pos as int, v.index as int)
}

/// Named messages of a file (at position `p`), in descriptor order.
pub open spec fn named_messages(ms: Seq<MessageDesc>, p: int) -> Seq<(EntityKind, Seq<char>, int, int)>
    decreases ms.len(),
{
    if ms.len() == 0 {
        Seq::empty()
    } else {
        let pre = named_messages(ms.drop_last(), p);
        match ms.last().name {
            Some(n) => pre.push((EntityKind::Message, n@, p, ms.len() - 1)),
            None => pre,
        }
    }
}

/// Named enums of a file, in descriptor order.
pub open spec fn named_enums(es: Seq<EnumDesc>, p: int) -> Seq<(EntityKind, Seq<char>, int, int)>
    decreases es.len(),
{
    if es.len() == 0 {
        Seq::empty()
    } else {
        let pre = named_enums(es.drop_last(), p);
        match es.last().name {
            Some(n) => pre.push((EntityKind::Enum, n@, p, es.len() - 1)),
            None => pre,
        }
    }
}

/// Named services of a file, in descriptor order.
pub open spec fn named_services(ss: Seq<ServiceDesc>, p: int) -> Seq<(EntityKind, Seq<char>, int, int)>
    decreases ss.len(),
{
    if ss.len() == 0 {
        Seq::empty()
    } else {
        let pre = named_services(ss.drop_last(), p);
        match ss.last().name {
            Some(n) => pre.push((EntityKind::Service, n@, p, ss.len() - 1)),
            None => pre,
        }
    }
}

/// Entities in link and SUMMARY order: files in list order; in each, messages, then
/// enums, then services, in descriptor order (unnamed ones skipped).
pub open spec fn entity_visits(files: Seq<(Seq<char>, FileDesc)>) -> Seq<(EntityKind, Seq<char>, int, int)>
    decreases files.len(),
{
    if files.len() == 0 {
        Seq::empty()
    } else {
        let p = files.len() - 1;
        let f = files.last().1;
        entity_visits(files.drop_last()) + named_messages(f.message_type@, p) + named_enums(f.enum_type@, p)
            + named_services(f.service@, p)
    }
}

fn push_named_messages(out: &mut Vec<EntityVisit>, ms: &Vec<MessageDesc>, p: usize)
    ensures
        final(out)@.map_values(|v: EntityVisit| visit_view(v)) == old(out)@.map_values(
            |v: EntityVisit| visit_view(v),
        ) + named_messages(ms@, p as int),
{
    let ghost base = out@.map_values(|v: EntityVisit| visit_view(v));
    let mut i: usize = 0;
    while i < ms.len()
        invariant
            i <= ms.len(),
            out@.map_values(|v: EntityVisit| visit_view(v)) == base + named_messages(ms@.take(i as int), p as int),
        decreases ms.len() - i,
    {
        let ghost before = out@.map_values(|v: EntityVisit| visit_view(v));
        proof {
            assert(ms@.take(i + 1).drop_last() =~= ms@.take(i as int));
            assert(ms@.take(i + 1).last() == ms@[i as int]);
        }
        match &ms[i].name {
            Some(n) => {
                out.push(EntityVisit { kind: EntityKind::Message, name: to_string(n.as_str()), file_pos: p, index: i });
                assert(out@.map_values(|v: EntityVisit| visit_view(v)) =~= before.push(
                    (EntityKind::Message, n@, p as int, i as int),
                ));
            },
            None => {},
        }
        i = i + 1;
    }
    assert(ms@.take(ms.len() as int) =~= ms@);
}

fn push_named_enums(out: &mut Vec<EntityVisit>, es: &Vec<EnumDesc>, p: usize)
    ensures
        final(out)@.map_values(|v: EntityVisit| visit_view(v)) == old(out)@.map_values(
            |v: EntityVisit| visit_view(v),
        ) + named_enums(es@, p as int),
{
    let ghost base = out@.map_values(|v: EntityVisit| visit_view(v));
    let mut i: usize = 0;
    while i < es.len()
        invariant
            i <= es.len(),
            out@.map_values(|v: EntityVisit| visit_view(v)) == base + named_enums(es@.take(i as int), p as int),
        decreases es.len() - i,
    {
        let ghost before = out@.map_values(|v: EntityVisit| visit_view(v));
        proof {
            assert(es@.take(i + 1).drop_last() =~= es@.take(i as int));
            assert(es@.take(i + 1).last() == es@[i as int]);
        }
        match &es[i].name {
            Some(n) => {
                out.push(EntityVisit { kind: EntityKind::Enum, name: to_string(n.as_str()), file_pos: p, index: i });
                assert(out@.map_values(|v: EntityVisit| visit_view(v)) =~= before.push(
                    (EntityKind::Enum, n@, p as int, i as int),
                ));
            },
            None => {},
        }
        i = i + 1;
    }
    assert(es@.take(es.len() as int) =~= es@);
}

fn push_named_services(out: &mut Vec<EntityVisit>, ss: &Vec<ServiceDesc>, p: usize)
    ensures
        final(out)@.map_values(|v: EntityVisit| visit_view(v)) == old(out)@.map_values(
            |v: EntityVisit| visit_view(v),
        ) + named_services(ss@, p as int),
{
    let ghost base = out@.map_values(|v: EntityVisit| visit_view(v));
    let mut i: usize = 0;
    while i < ss.len()
        invariant
            i <= ss.len(),
            out@.map_values(|v: EntityVisit| visit_view(v)) == base + named_services(ss@.take(i as int), p as int),
        decreases ss.len() - i,
    {
        let ghost before = out@.map_values(|v: EntityVisit| visit_view(v));
        proof {
            assert(ss@.take(i + 1).drop_last() =~= ss@.take(i as int));
            assert(ss@.take(i + 1).last() == ss@[i as int]);
        }
        match &ss[i].name {
            Some(n) => {
                out.push(EntityVisit { kind: EntityKind::Service, name: to_string(n.as_str()), file_pos: p, index: i });
                assert(out@.map_values(|v: EntityVisit| visit_view(v)) =~= before.push(
                    (EntityKind::Service, n@, p as int, i as int),
                ));
            },
            None => {},
        }
        i = i + 1;
    }
    assert(ss@.take(ss.len() as int) =~= ss@);
}

/// Entities of `files` in link and SUMMARY order (files in list order; in each file
/// messages, then enums, then services, in descriptor order).
pub fn for_each_entity_in_files(files: &Vec<(String, &FileDesc)>) -> (r: Vec<EntityVisit>)
    ensures
        r@.map_values(|v: EntityVisit| visit_view(v)) == entity_visits(files_view(files@)),
{
    let ghost fv = files_view(files@);
    let mut out: Vec<EntityVisit> = Vec::new();
    let mut p: usize = 0;
    while p < files.len()
        invariant
            p <= files.len(),
            fv == files_view(files@),
            out@.map_values(|v: EntityVisit| visit_view(v)) == entity_visits(fv.take(p as int)),
        decreases files.len() - p,
    {
        let f: &FileDesc = files[p].1;
        proof {
            assert(fv.take(p + 1).drop_last() =~= fv.take(p as int));
            assert(fv.take(p + 1).last().1 == *f);
        }
        push_named_messages(&mut out, &f.message_type, p);
        push_named_enums(&mut out, &f.enum_type, p);
        push_named_services(&mut out, &f.service, p);
        p = p + 1;
    }
    assert(fv.take(files.len() as int) =~= fv);
    out
}

/// The entities of one package as `(package, kind, name)`.
pub open spec fn package_entities(package: Seq<char>, files: Seq<(Seq<char>, FileDesc)>) -> Seq<(Seq<char>, EntityKind, Seq<char>)> {
    entity_visits(files).map_values(|v: (EntityKind, Seq<char>, int, int)| (package, v.0, v.1))
}

/// Entity references of one package in link and SUMMARY order.
pub fn collect_entities(package: &str, files: &Vec<(String, &FileDesc)>) -> (r: Vec<EntityRef>)
    ensures
        r@.map_values(|e: EntityRef| entity_view(e)) == package_entities(package@, files_view(files@)),
{
    let visits = for_each_entity_in_files(files);
    let ghost vv = visits@.map_values(|v: EntityVisit| visit_view(v));
    let mut out: Vec<EntityRef> = Vec::new();
    let mut i: usize = 0;
    while i < visits.len()
        invariant
            i <= visits.len(),
            vv == visits@.map_values(|v: EntityVisit| visit_view(v)),
            out@.map_values(|e: EntityRef| entity_view(e)) == vv.take(i as int).map_values(
                |v: (EntityKind, Seq<char>, int, int)| (package@, v.0, v.1),
            ),
        decreases visits.len() - i,
    {
        let ghost before = out@.map_values(|e: EntityRef| entity_view(e));
        let v = &visits[i];
        out.push(EntityRef { package: to_string(package), kind: v.kind, name: to_string(v.name.as_str()) });
        i = i + 1;
        assert(out@.map_values(|e: EntityRef| entity_view(e)) =~= vv.take(i as int).map_values(
            |v: (EntityKind, Seq<char>, int, int)| (package@, v.0, v.1),
        )) by {
            assert(out@.map_values(|e: EntityRef| entity_view(e)) =~= before.push((package@, vv[i - 1].0, vv[i - 1].1)));
        }
    }
    assert(vv.take(visits.len() as int) =~= vv);
    out
}

/// Entities of all packages, packages in order.
pub open spec fn all_entities(m: Seq<PackageGroup>) -> Seq<(Seq<char>, EntityKind, Seq<char>)>
    decreases m.len(),
{
    if m.len() == 0 {
        Seq::empty()
    } else {
        all_entities(m.drop_last()) + package_entities(m.last().0, m.last().1)
    }
}

/// Link context over every entity of every package.
pub fn build_link_context(by_package: &Vec<(String, Vec<(String, &FileDesc)>)>, opts: &Options) -> (r: LinkContext)
    ensures
        r.layout == opts.layout,
        r.book_root@ == opts.book_root@,
        r.markdown_root@ == opts.markdown_root@,
        r.known() == all_entities(groups_view(by_package@)),
{
    let ghost gm = groups_view(by_package@);
    let mut entities: Vec<EntityRef> = Vec::new();
    let mut i: usize = 0;
    while i < by_package.len()
        invariant
            i <= by_package.len(),
            gm == groups_view(by_package@),
            entities@.map_values(|e: EntityRef| entity_view(e)) == all_entities(gm.take(i as int)),
        decreases by_package.len() - i,
    {
        let ghost before = entities@.map_values(|e: EntityRef| entity_view(e));
        let mut more = collect_entities(by_package[i].0.as_str(), &by_package[i].1);
        let ghost mv = more@.map_values(|e: EntityRef| entity_view(e));
        entities.append(&mut more);
        proof {
            assert(gm.take(i + 1).drop_last() =~= gm.take(i as int));
            assert(gm.take(i + 1).last() == gm[i as int]);
        }
        i = i + 1;
        assert(entities@.map_values(|e: EntityRef| entity_view(e)) =~= before + mv);
    }
    assert(gm.take(by_package.len() as int) =~= gm);
    LinkContext::new(opts.layout, opts.book_root.as_str(), opts.markdown_root.as_str(), entities)
}

/// A generated Markdown file.
pub struct GeneratedDoc {
    pub path: String,
    pub content: String,
}

/// Formatted package overview and a blank line (nothing without an overview).
pub open spec fn overview_block(files: Seq<(Seq<char>, FileDesc)>, mode: EscapeTags) -> Seq<char> {
    match overview_spec(files) {
        Some(o) => format_doc_spec(o, mode) + seq!['\n', '\n'],
        None => Seq::<char>::empty(),
    }
}

fn push_overview(out: &mut String, files: &Vec<(String, &FileDesc)>, mode: EscapeTags)
    ensures
        final(out)@ == old(out)@ + overview_block(files_view(files@), mode),
{
    match package_overview(files) {
        Some(o) => {
            let f = format_markdown_doc(&chars_of(o.as_str()), mode);
            append_chars(out, &f);
            push_paragraph_break(out);
        },
        None => {},
    }
    assert(out@ =~= old(out)@ + overview_block(files_view(files@), mode));
}

/// Services of one file on a package page.
pub open spec fn file_services_spec(fname: Seq<char>, locs: Seq<Location>, ss: Seq<ServiceDesc>, cv: CtxView) -> Seq<char>
    decreases ss.len(),
{
    if ss.len() == 0 {
        Seq::<char>::empty()
    } else {
        file_services_spec(fname, locs, ss.drop_last(), cv) + service_spec(fname, locs, ss.len() - 1, ss.last(), 3, cv)
    }
}

/// Services of every file on a package page.
pub open spec fn services_spec(files: Seq<(Seq<char>, FileDesc)>, cv: CtxView) -> Seq<char>
    decreases files.len(),
{
    if files.len() == 0 {
        Seq::<char>::empty()
    } else {
        services_spec(files.drop_last(), cv) + file_services_spec(
            files.last().0,
            files.last().1.location@,
            files.last().1.service@,
            cv,
        )
    }
}

/// Messages of one file on a package page, each under a `###` heading.
pub open spec fn file_messages_spec(
    fname: Seq<char>,
    locs: Seq<Location>,
    ms: Seq<MessageDesc>,
    src: Option<Seq<char>>,
    mode: EscapeTags,
) -> Seq<char>
    decreases ms.len(),
{
    if ms.len() == 0 {
        Seq::<char>::empty()
    } else {
        file_messages_spec(fname, locs, ms.drop_last(), src, mode) + md_heading_spec(3, or_default(ms.last().name, "Message"@))
            + message_spec(fname, locs, ms.len() - 1, ms.last(), src, mode)
    }
}

/// Enums of one file on a package page, each under a `###` heading.
pub open spec fn file_enums_spec(fname: Seq<char>, locs: Seq<Location>, es: Seq<EnumDesc>, mode: EscapeTags) -> Seq<char>
    decreases es.len(),
{
    if es.len() == 0 {
        Seq::<char>::empty()
    } else {
        file_enums_spec(fname, locs, es.drop_last(), mode) + md_heading_spec(3, or_default(es.last().name, "Enum"@))
            + enum_spec(fname, locs, es.len() - 1, es.last(), mode)
    }
}

/// Messages, then enums, of every file on a package page.
pub open spec fn messages_enums_spec(files: Seq<(Seq<char>, FileDesc)>, cache: Seq<(String, String)>, mode: EscapeTags) -> Seq<char>
    decreases files.len(),
{
    if files.len() == 0 {
        Seq::<char>::empty()
    } else {
        let f = files.last();
        messages_enums_spec(files.drop_last(), cache, mode) + file_messages_spec(
            f.0,
            f.1.location@,
            f.1.message_type@,
            source_lookup(cache, f.0),
            mode,
        ) + file_enums_spec(f.0, f.1.location@, f.1.enum_type@, mode)
    }
}

/// Some file has a service.
pub open spec fn any_services(files: Seq<(Seq<char>, FileDesc)>) -> bool {
    exists|i: int| 0 <= i < files.len() && #[trigger] files[i].1.service.len() > 0
}

/// Some file has a message or an enum.
pub open spec fn any_messages_enums(files: Seq<(Seq<char>, FileDesc)>) -> bool {
    exists|i: int| 0 <= i < files.len() && has_messages_or_enums(#[trigger] files[i].1)
}

/// The file has a message or an enum.
pub open spec fn has_messages_or_enums(f: FileDesc) -> bool {
    f.message_type.len() > 0 || f.enum_type.len() > 0
}

/// Package page (`layout=package`): path, and content: `# package`, overview,
/// `## Services` with each service at `###`, then `## Messages and enums` with each
/// message and enum at `###`.
pub open spec fn package_page_doc(
    pkg: Seq<char>,
    files: Seq<(Seq<char>, FileDesc)>,
    links: LinkContext,
    opts: Options,
    cache: Seq<(String, String)>,
) -> (Seq<char>, Seq<char>) {
    let rel = package_page_spec(links.markdown_root@, pkg);
    let mode = opts.escape_tags;
    let cv: CtxView = Some((Some(links), rel, mode));
    (
        join_book_root_spec(opts.book_root@, rel),
        md_heading_spec(1, pkg) + overview_block(files, mode) + (if any_services(files) {
            md_heading_spec(2, "Services"@) + services_spec(files, cv)
        } else {
            Seq::<char>::empty()
        }) + (if any_messages_enums(files) {
            md_heading_spec(2, "Messages and enums"@) + messages_enums_spec(files, cache, mode)
        } else {
            Seq::<char>::empty()
        }),
    )
}

fn push_file_services(out: &mut String, fname: &str, file: &FileDesc, ctx: &RenderContext)
    ensures
        final(out)@ == old(out)@ + file_services_spec(fname@, file.location@, file.service@, ctx_view(Some(ctx))),
{
    let idx = CommentIndex::from_file(file);
    let mut i: usize = 0;
    while i < file.service.len()
        invariant
            i <= file.service.len(),
            idx.locations@ == file.location@,
            out@ == old(out)@ + file_services_spec(fname@, file.location@, file.service@.take(i as int), ctx_view(Some(ctx))),
        decreases file.service.len() - i,
    {
        out.append(synthesize_service(fname, &idx, i, &file.service[i], 3, Some(ctx)).as_str());
        proof {
            assert(file.service@.take(i + 1).drop_last() =~= file.service@.take(i as int));
            assert(file.service@.take(i + 1).last() == file.service@[i as int]);
        }
        i = i + 1;
    }
    assert(file.service@.take(file.service.len() as int) =~= file.service@);
}

fn push_file_messages(out: &mut String, fname: &str, file: &FileDesc, src: Option<&str>, ctx: &RenderContext)
    ensures
        final(out)@ == old(out)@ + file_messages_spec(
            fname@,
            file.location@,
            file.message_type@,
            src_view(src),
            ctx.escape_tags,
        ),
{
    let idx = CommentIndex::from_file(file);
    let mut i: usize = 0;
    while i < file.message_type.len()
        invariant
            i <= file.message_type.len(),
            idx.locations@ == file.location@,
            out@ == old(out)@ + file_messages_spec(
                fname@,
                file.location@,
                file.message_type@.take(i as int),
                src_view(src),
                ctx.escape_tags,
            ),
        decreases file.message_type.len() - i,
    {
        let msg = &file.message_type[i];
        out.append(md_heading(3, name_or(&msg.name, "Message").as_str()).as_str());
        out.append(synthesize_message_with_file(fname, &idx, i, msg, src, Some(ctx)).as_str());
        proof {
            assert(file.message_type@.take(i + 1).drop_last() =~= file.message_type@.take(i as int));
            assert(file.message_type@.take(i + 1).last() == *msg);
        }
        i = i + 1;
    }
    assert(file.message_type@.take(file.message_type.len() as int) =~= file.message_type@);
}

fn push_file_enums(out: &mut String, fname: &str, file: &FileDesc, ctx: &RenderContext)
    ensures
        final(out)@ == old(out)@ + file_enums_spec(fname@, file.location@, file.enum_type@, ctx.escape_tags),
{
    let idx = CommentIndex::from_file(file);
    let mut i: usize = 0;
    while i < file.enum_type.len()
        invariant
            i <= file.enum_type.len(),
            idx.locations@ == file.location@,
            out@ == old(out)@ + file_enums_spec(fname@, file.location@, file.enum_type@.take(i as int), ctx.escape_tags),
        decreases file.enum_type.len() - i,
    {
        let en = &file.enum_type[i];
        out.append(md_heading(3, name_or(&en.name, "Enum").as_str()).as_str());
        out.append(synthesize_enum(fname, &idx, i, en, Some(ctx)).as_str());
        proof {
            assert(file.enum_type@.take(i + 1).drop_last() =~= file.enum_type@.take(i as int));
            assert(file.enum_type@.take(i + 1).last() == *en);
        }
        i = i + 1;
    }
    assert(file.enum_type@.take(file.enum_type.len() as int) =~= file.enum_type@);
}

fn has_services(files: &Vec<(String, &FileDesc)>) -> (r: bool)
    ensures
        r == any_services(files_view(files@)),
{
    let ghost fv = files_view(files@);
    let mut i: usize = 0;
    while i < files.len()
        invariant
            i <= files.len(),
            fv == files_view(files@),
            forall|j: int| 0 <= j < i ==> #[trigger] fv[j].1.service.len() == 0,
        decreases files.len() - i,
    {
        assert(fv[i as int].1 == *files@[i as int].1);
        if files[i].1.service.len() > 0 {
            assert(fv[i as int].1.service.len() > 0);
            return true;
        }
        i = i + 1;
    }
    false
}

fn has_messages_enums(files: &Vec<(String, &FileDesc)>) -> (r: bool)
    ensures
        r == any_messages_enums(files_view(files@)),
{
    let ghost fv = files_view(files@);
    let mut i: usize = 0;
    while i < files.len()
        invariant
            i <= files.len(),
            fv == files_view(files@),
            forall|j: int| 0 <= j < i ==> !has_messages_or_enums(#[trigger] fv[j].1),
        decreases files.len() - i,
    {
        assert(fv[i as int].1 == *files@[i as int].1);
        if files[i].1.message_type.len() > 0 || files[i].1.enum_type.len() > 0 {
            assert(has_messages_or_enums(fv[i as int].1));
            return true;
        }
        i = i + 1;
    }
    false
}

fn push_services(out: &mut String, files: &Vec<(String, &FileDesc)>, ctx: &RenderContext)
    ensures
        final(out)@ == old(out)@ + services_spec(files_view(files@), ctx_view(Some(ctx))),
{
    let ghost fv = files_view(files@);
    let mut i: usize = 0;
    while i < files.len()
        invariant
            i <= files.len(),
            fv == files_view(files@),
            out@ == old(out)@ + services_spec(fv.take(i as int), ctx_view(Some(ctx))),
        decreases files.len() - i,
    {
        push_file_services(out, files[i].0.as_str(), files[i].1, ctx);
        proof {
            assert(fv.take(i + 1).drop_last() =~= fv.take(i as int));
            assert(fv.take(i + 1).last() == (files@[i as int].0@, *files@[i as int].1));
        }
        i = i + 1;
    }
    assert(fv.take(files.len() as int) =~= fv);
}

fn push_messages_enums(out: &mut String, files: &Vec<(String, &FileDesc)>, source: &SourceCache, ctx: &RenderContext)
    ensures
        final(out)@ == old(out)@ + messages_enums_spec(files_view(files@), source.files@, ctx.escape_tags),
{
    let ghost fv = files_view(files@);
    let mut i: usize = 0;
    while i < files.len()
        invariant
            i <= files.len(),
            fv == files_view(files@),
            out@ == old(out)@ + messages_enums_spec(fv.take(i as int), source.files@, ctx.escape_tags),
        decreases files.len() - i,
    {
        let fname = files[i].0.as_str();
        let file: &FileDesc = files[i].1;
        push_file_messages(out, fname, file, source.load(fname), ctx);
        push_file_enums(out, fname, file, ctx);
        proof {
            assert(fv.take(i + 1).drop_last() =~= fv.take(i as int));
            assert(fv.take(i + 1).last() == (fname@, *file));
        }
        i = i + 1;
    }
    assert(fv.take(files.len() as int) =~= fv);
}

/// Package page (`layout=package`): `(path, content)`.
pub fn render_package_page(
    package: &str,
    files: &Vec<(String, &FileDesc)>,
    links: &LinkContext,
    opts: &Options,
    source: &SourceCache,
) -> (r: (String, String))
    ensures
        (r.0@, r.1@) == package_page_doc(package@, files_view(files@), *links, *opts, source.files@),
{
    let ghost fv = files_view(files@);
    let rel = links.package_page_rel(package);
    let path = opts.output_path(rel.as_str());
    let ctx = RenderContext { links: Some(links), from_md: rel.as_str(), escape_tags: opts.escape_tags };
    assert(ctx_view(Some(&ctx)) == Some((Some(*links), rel@, opts.escape_tags)));
    let mut out = md_heading(1, package);
    push_overview(&mut out, files, opts.escape_tags);
    if has_services(files) {
        out.append(md_heading(2, "Services").as_str());
        push_services(&mut out, files, &ctx);
    }
    if has_messages_enums(files) {
        out.append(md_heading(2, "Messages and enums").as_str());
        push_messages_enums(&mut out, files, source, &ctx);
    }
    assert(out@ =~= package_page_doc(package@, fv, *links, *opts, source.files@).1);
    (path, out)
}

/// `- [name](rel)` lines of a package index, one per entity.
pub open spec fn index_lines(
    links: LinkContext,
    pkg: Seq<char>,
    index_rel: Seq<char>,
    vs: Seq<(EntityKind, Seq<char>, int, int)>,
) -> Seq<char>
    decreases vs.len(),
{
    if vs.len() == 0 {
        Seq::<char>::empty()
    } else {
        let v = vs.last();
        index_lines(links, pkg, index_rel, vs.drop_last()) + "- "@ + summary_link_spec(
            index_rel,
            entity_rel_path_spec(links.layout, links.markdown_root@, pkg, v.0, v.1),
            v.1,
        ) + seq!['\n']
    }
}

/// Package index page of the entity layouts: `# package`, overview, `## Contents`, and
/// a link to every entity page.
pub open spec fn index_page_spec(pkg: Seq<char>, files: Seq<(Seq<char>, FileDesc)>, links: LinkContext, opts: Options) -> (Seq<char>, Seq<char>) {
    let rel = package_index_spec(links.layout, links.markdown_root@, pkg);
    (
        join_book_root_spec(opts.book_root@, rel),
        md_heading_spec(1, pkg) + overview_block(files, opts.escape_tags) + md_heading_spec(2, "Contents"@)
            + index_lines(links, pkg, rel, entity_visits(files)),
    )
}

/// Page path of an entity.
pub open spec fn entity_page_rel(links: LinkContext, pkg: Seq<char>, kind: EntityKind, name: Seq<char>) -> Seq<char> {
    entity_rel_path_spec(links.layout, links.markdown_root@, pkg, kind, name)
}

/// One page per message of a file.
pub open spec fn message_pages(
    pkg: Seq<char>,
    fname: Seq<char>,
    locs: Seq<Location>,
    ms: Seq<MessageDesc>,
    links: LinkContext,
    opts: Options,
    src: Option<Seq<char>>,
) -> Seq<(Seq<char>, Seq<char>)>
    decreases ms.len(),
{
    if ms.len() == 0 {
        Seq::empty()
    } else {
        let name = or_default(ms.last().name, "Message"@);
        message_pages(pkg, fname, locs, ms.drop_last(), links, opts, src).push(
            (
                join_book_root_spec(opts.book_root@, entity_page_rel(links, pkg, EntityKind::Message, name)),
                md_heading_spec(1, name) + message_spec(fname, locs, ms.len() - 1, ms.last(), src, opts.escape_tags),
            ),
        )
    }
}

/// One page per enum of a file.
pub open spec fn enum_pages(
    pkg: Seq<char>,
    fname: Seq<char>,
    locs: Seq<Location>,
    es: Seq<EnumDesc>,
    links: LinkContext,
    opts: Options,
) -> Seq<(Seq<char>, Seq<char>)>
    decreases es.len(),
{
    if es.len() == 0 {
        Seq::empty()
    } else {
        let name = or_default(es.last().name, "Enum"@);
        enum_pages(pkg, fname, locs, es.drop_last(), links, opts).push(
            (
                join_book_root_spec(opts.book_root@, entity_page_rel(links, pkg, EntityKind::Enum, name)),
                md_heading_spec(1, name) + enum_spec(fname, locs, es.len() - 1, es.last(), opts.escape_tags),
            ),
        )
    }
}

/// One page per service of a file (service heading at level 1).
pub open spec fn service_pages(
    pkg: Seq<char>,
    fname: Seq<char>,
    locs: Seq<Location>,
    ss: Seq<ServiceDesc>,
    links: LinkContext,
    opts: Options,
) -> Seq<(Seq<char>, Seq<char>)>
    decreases ss.len(),
{
    if ss.len() == 0 {
        Seq::empty()
    } else {
        let name = or_default(ss.last().name, "Service"@);
        let rel = entity_page_rel(links, pkg, EntityKind::Service, name);
        service_pages(pkg, fname, locs, ss.drop_last(), links, opts).push(
            (
                join_book_root_spec(opts.book_root@, rel),
                service_spec(fname, locs, ss.len() - 1, ss.last(), 1, Some((Some(links), rel, opts.escape_tags))),
            ),
        )
    }
}

/// Entity pages of every file: per file its messages, enums, then services.
pub open spec fn file_pages(
    pkg: Seq<char>,
    files: Seq<(Seq<char>, FileDesc)>,
    links: LinkContext,
    opts: Options,
    cache: Seq<(String, String)>,
) -> Seq<(Seq<char>, Seq<char>)>
    decreases files.len(),
{
    if files.len() == 0 {
        Seq::empty()
    } else {
        let f = files.last();
        file_pages(pkg, files.drop_last(), links, opts, cache) + message_pages(
            pkg,
            f.0,
            f.1.location@,
            f.1.message_type@,
            links,
            opts,
            source_lookup(cache, f.0),
        ) + enum_pages(pkg, f.0, f.1.location@, f.1.enum_type@, links, opts) + service_pages(
            pkg,
            f.0,
            f.1.location@,
            f.1.service@,
            links,
            opts,
        )
    }
}

/// Pages of one package under the entity layouts: its index, then every entity page.
pub open spec fn entity_pages_spec(
    pkg: Seq<char>,
    files: Seq<(Seq<char>, FileDesc)>,
    links: LinkContext,
    opts: Options,
    cache: Seq<(String, String)>,
) -> Seq<(Seq<char>, Seq<char>)> {
    seq![index_page_spec(pkg, files, links, opts)] + file_pages(pkg, files, links, opts, cache)
}

/// Every message, enum and service of `files` (under its name, or the default name
/// when unnamed) and every listed entity has a page in `links`.
pub open spec fn pages_linkable(links: LinkContext, pkg: Seq<char>, files: Seq<(Seq<char>, FileDesc)>) -> bool {
    &&& visits_linkable(links, pkg, files)
    &&& forall|p: int, i: int| 0 <= p < files.len() && 0 <= i < files[p].1.message_type.len() ==> links.has_entity(
        pkg,
        EntityKind::Message,
        or_default(#[trigger] files[p].1.message_type@[i].name, "Message"@),
    )
    &&& forall|p: int, i: int| 0 <= p < files.len() && 0 <= i < files[p].1.enum_type.len() ==> links.has_entity(
        pkg,
        EntityKind::Enum,
        or_default(#[trigger] files[p].1.enum_type@[i].name, "Enum"@),
    )
    &&& forall|p: int, i: int| 0 <= p < files.len() && 0 <= i < files[p].1.service.len() ==> links.has_entity(
        pkg,
        EntityKind::Service,
        or_default(#[trigger] files[p].1.service@[i].name, "Service"@),
    )
}

/// Every listed entity of `files` has a page in `links`.
pub open spec fn visits_linkable(links: LinkContext, pkg: Seq<char>, files: Seq<(Seq<char>, FileDesc)>) -> bool {
    forall|v: (EntityKind, Seq<char>, int, int)| #[trigger] entity_visits(files).contains(v) ==> links.has_entity(pkg, v.0, v.1)
}

/// Pages as plain values.
pub open spec fn pages_view(v: Seq<(String, String)>) -> Seq<(Seq<char>, Seq<char>)> {
    v.map_values(|p: (String, String)| (p.0@, p.1@))
}

fn linked_path(links: &LinkContext, package: &str, kind: EntityKind, name: &str) -> (r: String)
    requires
        links.has_entity(package@, kind, name@),
    ensures
        r@ == entity_page_rel(*links, package@, kind, name@),
{
    match links.entity_path(package, kind, name) {
        Some(p) => p,
        None => String::new(),
    }
}

fn push_message_pages(
    pages: &mut Vec<(String, String)>,
    package: &str,
    fname: &str,
    file: &FileDesc,
    links: &LinkContext,
    opts: &Options,
    src: Option<&str>,
)
    requires
        forall|i: int| 0 <= i < file.message_type.len() ==> links.has_entity(
            package@,
            EntityKind::Message,
            or_default(#[trigger] file.message_type@[i].name, "Message"@),
        ),
    ensures
        pages_view(final(pages)@) == pages_view(old(pages)@) + message_pages(
            package@,
            fname@,
            file.location@,
            file.message_type@,
            *links,
            *opts,
            src_view(src),
        ),
{
    let idx = CommentIndex::from_file(file);
    let ghost base = pages_view(pages@);
    let mut i: usize = 0;
    while i < file.message_type.len()
        invariant
            i <= file.message_type.len(),
            idx.locations@ == file.location@,
            forall|i: int| 0 <= i < file.message_type.len() ==> links.has_entity(
                package@,
                EntityKind::Message,
                or_default(#[trigger] file.message_type@[i].name, "Message"@),
            ),
            pages_view(pages@) == base + message_pages(
                package@,
                fname@,
                file.location@,
                file.message_type@.take(i as int),
                *links,
                *opts,
                src_view(src),
            ),
        decreases file.message_type.len() - i,
    {
        let ghost before = pages_view(pages@);
        let msg = &file.message_type[i];
        let name = name_or(&msg.name, "Message");
        let rel = linked_path(links, package, EntityKind::Message, name.as_str());
        let path = opts.output_path(rel.as_str());
        let ctx = RenderContext { links: Some(links), from_md: rel.as_str(), escape_tags: opts.escape_tags };
        let mut page = md_heading(1, name.as_str());
        page.append(synthesize_message_with_file(fname, &idx, i, msg, src, Some(&ctx)).as_str());
        pages.push((path, page));
        proof {
            assert(file.message_type@.take(i + 1).drop_last() =~= file.message_type@.take(i as int));
            assert(file.message_type@.take(i + 1).last() == *msg);
        }
        i = i + 1;
        assert(pages_view(pages@) =~= before.push((pages@[pages@.len() - 1].0@, pages@[pages@.len() - 1].1@)));
    }
    assert(file.message_type@.take(file.message_type.len() as int) =~= file.message_type@);
}

fn push_enum_pages(
    pages: &mut Vec<(String, String)>,
    package: &str,
    fname: &str,
    file: &FileDesc,
    links: &LinkContext,
    opts: &Options,
)
    requires
        forall|i: int| 0 <= i < file.enum_type.len() ==> links.has_entity(
            package@,
            EntityKind::Enum,
            or_default(#[trigger] file.enum_type@[i].name, "Enum"@),
        ),
    ensures
        pages_view(final(pages)@) == pages_view(old(pages)@) + enum_pages(
            package@,
            fname@,
            file.location@,
            file.enum_type@,
            *links,
            *opts,
        ),
{
    let idx = CommentIndex::from_file(file);
    let ghost base = pages_view(pages@);
    let mut i: usize = 0;
    while i < file.enum_type.len()
        invariant
            i <= file.enum_type.len(),
            idx.locations@ == file.location@,
            forall|i: int| 0 <= i < file.enum_type.len() ==> links.has_entity(
                package@,
                EntityKind::Enum,
                or_default(#[trigger] file.enum_type@[i].name, "Enum"@),
            ),
            pages_view(pages@) == base + enum_pages(
                package@,
                fname@,
                file.location@,
                file.enum_type@.take(i as int),
                *links,
                *opts,
            ),
        decreases file.enum_type.len() - i,
    {
        let ghost before = pages_view(pages@);
        let en = &file.enum_type[i];
        let name = name_or(&en.name, "Enum");
        let rel = linked_path(links, package, EntityKind::Enum, name.as_str());
        let path = opts.output_path(rel.as_str());
        let ctx = RenderContext { links: Some(links), from_md: rel.as_str(), escape_tags: opts.escape_tags };
        let mut page = md_heading(1, name.as_str());
        page.append(synthesize_enum(fname, &idx, i, en, Some(&ctx)).as_str());
        pages.push((path, page));
        proof {
            assert(file.enum_type@.take(i + 1).drop_last() =~= file.enum_type@.take(i as int));
            assert(file.enum_type@.take(i + 1).last() == *en);
        }
        i = i + 1;
        assert(pages_view(pages@) =~= before.push((pages@[pages@.len() - 1].0@, pages@[pages@.len() - 1].1@)));
    }
    assert(file.enum_type@.take(file.enum_type.len() as int) =~= file.enum_type@);
}

fn push_service_pages(
    pages: &mut Vec<(String, String)>,
    package: &str,
    fname: &str,
    file: &FileDesc,
    links: &LinkContext,
    opts: &Options,
)
    requires
        forall|i: int| 0 <= i < file.service.len() ==> links.has_entity(
            package@,
            EntityKind::Service,
            or_default(#[trigger] file.service@[i].name, "Service"@),
        ),
    ensures
        pages_view(final(pages)@) == pages_view(old(pages)@) + service_pages(
            package@,
            fname@,
            file.location@,
            file.service@,
            *links,
            *opts,
        ),
{
    let idx = CommentIndex::from_file(file);
    let ghost base = pages_view(pages@);
    let mut i: usize = 0;
    while i < file.service.len()
        invariant
            i <= file.service.len(),
            idx.locations@ == file.location@,
            forall|i: int| 0 <= i < file.service.len() ==> links.has_entity(
                package@,
                EntityKind::Service,
                or_default(#[trigger] file.service@[i].name, "Service"@),
            ),
            pages_view(pages@) == base + service_pages(
                package@,
                fname@,
                file.location@,
                file.service@.take(i as int),
                *links,
                *opts,
            ),
        decreases file.service.len() - i,
    {
        let ghost before = pages_view(pages@);
        let svc = &file.service[i];
        let name = name_or(&svc.name, "Service");
        let rel = linked_path(links, package, EntityKind::Service, name.as_str());
        let path = opts.output_path(rel.as_str());
        let ctx = RenderContext { links: Some(links), from_md: rel.as_str(), escape_tags: opts.escape_tags };
        assert(ctx_view(Some(&ctx)) == Some((Some(*links), rel@, opts.escape_tags)));
        let page = synthesize_service(fname, &idx, i, svc, 1, Some(&ctx));
        pages.push((path, page));
        proof {
            assert(file.service@.take(i + 1).drop_last() =~= file.service@.take(i as int));
            assert(file.service@.take(i + 1).last() == *svc);
        }
        i = i + 1;
        assert(pages_view(pages@) =~= before.push((pages@[pages@.len() - 1].0@, pages@[pages@.len() - 1].1@)));
    }
    assert(file.service@.take(file.service.len() as int) =~= file.service@);
}

fn index_page(package: &str, files: &Vec<(String, &FileDesc)>, links: &LinkContext, opts: &Options) -> (r: (String, String))
    requires
        pages_linkable(*links, package@, files_view(files@)),
    ensures
        (r.0@, r.1@) == index_page_spec(package@, files_view(files@), *links, *opts),
{
    let ghost fv = files_view(files@);
    let index_rel = links.package_index_rel(package);
    let index_path = opts.output_path(index_rel.as_str());
    let mut index = md_heading(1, package);
    push_overview(&mut index, files, opts.escape_tags);
    index.append(md_heading(2, "Contents").as_str());
    let visits = for_each_entity_in_files(files);
    let ghost vv = visits@.map_values(|v: EntityVisit| visit_view(v));
    let ghost base = index@;
    let mut i: usize = 0;
    while i < visits.len()
        invariant
            i <= visits.len(),
            vv == visits@.map_values(|v: EntityVisit| visit_view(v)),
            vv == entity_visits(fv),
            fv == files_view(files@),
            pages_linkable(*links, package@, fv),
            index@ == base + index_lines(*links, package@, index_rel@, vv.take(i as int)),
        decreases visits.len() - i,
    {
        let v = &visits[i];
        assert(vv[i as int] == visit_view(*v));
        assert(entity_visits(fv).contains(vv[i as int]));
        let p = linked_path(links, package, v.kind, v.name.as_str());
        index.append("- ");
        index.append(links.summary_link(index_rel.as_str(), p.as_str(), v.name.as_str()).as_str());
        push_char(&mut index, '\n');
        proof {
            assert(vv.take(i + 1).drop_last() =~= vv.take(i as int));
            assert(vv.take(i + 1).last() == vv[i as int]);
        }
        i = i + 1;
        assert(index@ =~= base + index_lines(*links, package@, index_rel@, vv.take(i as int)));
    }
    assert(vv.take(visits.len() as int) =~= vv);
    (index_path, index)
}

/// Package index plus one page per message, enum and service (the entity layouts).
pub fn render_entity_pages(
    package: &str,
    files: &Vec<(String, &FileDesc)>,
    links: &LinkContext,
    opts: &Options,
    source: &SourceCache,
) -> (r: Vec<(String, String)>)
    requires
        pages_linkable(*links, package@, files_view(files@)),
    ensures
        pages_view(r@) == entity_pages_spec(package@, files_view(files@), *links, *opts, source.files@),
{
    let ghost fv = files_view(files@);
    let mut pages: Vec<(String, String)> = Vec::new();
    let first = index_page(package, files, links, opts);
    pages.push(first);
    assert(pages_view(pages@) =~= seq![index_page_spec(package@, fv, *links, *opts)]);
    let ghost base = pages_view(pages@);
    let mut p: usize = 0;
    while p < files.len()
        invariant
            p <= files.len(),
            fv == files_view(files@),
            pages_linkable(*links, package@, fv),
            pages_view(pages@) == base + file_pages(package@, fv.take(p as int), *links, *opts, source.files@),
        decreases files.len() - p,
    {
        let fname = files[p].0.as_str();
        let file: &FileDesc = files[p].1;
        assert(fv[p as int] == (fname@, *file));
        assert forall|i: int| 0 <= i < file.message_type.len() implies links.has_entity(
            package@,
            EntityKind::Message,
            or_default(#[trigger] file.message_type@[i].name, "Message"@),
        ) by {
            assert(fv[p as int].1.message_type@[i] == file.message_type@[i]);
        }
        assert forall|i: int| 0 <= i < file.enum_type.len() implies links.has_entity(
            package@,
            EntityKind::Enum,
            or_default(#[trigger] file.enum_type@[i].name, "Enum"@),
        ) by {
            assert(fv[p as int].1.enum_type@[i] == file.enum_type@[i]);
        }
        assert forall|i: int| 0 <= i < file.service.len() implies links.has_entity(
            package@,
            EntityKind::Service,
            or_default(#[trigger] file.service@[i].name, "Service"@),
        ) by {
            assert(fv[p as int].1.service@[i] == file.service@[i]);
        }
        push_message_pages(&mut pages, package, fname, file, links, opts, source.load(fname));
        push_enum_pages(&mut pages, package, fname, file, links, opts);
        push_service_pages(&mut pages, package, fname, file, links, opts);
        proof {
            assert(fv.take(p + 1).drop_last() =~= fv.take(p as int));
            assert(fv.take(p + 1).last() == (fname@, *file));
        }
        p = p + 1;
    }
    assert(fv.take(files.len() as int) =~= fv);
    pages
}

/// Documents for every named package, packages in order: one page per package
/// (`layout=package`), or an index plus entity pages (`entity`, `split`).
pub open spec fn docs_spec(m: Seq<PackageGroup>, opts: Options, links: LinkContext, cache: Seq<(String, String)>) -> Seq<(Seq<char>, Seq<char>)>
    decreases m.len(),
{
    if m.len() == 0 {
        Seq::empty()
    } else {
        let g = m.last();
        docs_spec(m.drop_last(), opts, links, cache) + if g.0.len() == 0 {
            Seq::empty()
        } else {
            match opts.layout {
                Layout::Package => seq![package_page_doc(g.0, g.1, links, opts, cache)],
                _ => entity_pages_spec(g.0, g.1, links, opts, cache),
            }
        }
    }
}

/// Documents as plain values.
pub open spec fn docs_view(v: Seq<GeneratedDoc>) -> Seq<(Seq<char>, Seq<char>)> {
    v.map_values(|d: GeneratedDoc| (d.path@, d.content@))
}

/// Under the entity layouts, every named package's entities have pages in `links`.
pub open spec fn all_pages_linkable(m: Seq<PackageGroup>, opts: Options, links: LinkContext) -> bool {
    opts.layout != Layout::Package ==> forall|i: int|
        0 <= i < m.len() && (#[trigger] m[i]).0.len() > 0 ==> pages_linkable(links, m[i].0, m[i].1)
}

/// Package or entity markdown for every package, in package order (the unnamed
/// package is skipped).
pub fn render_all(
    by_package: &Vec<(String, Vec<(String, &FileDesc)>)>,
    opts: &Options,
    links: &LinkContext,
    source: &SourceCache,
) -> (r: Vec<GeneratedDoc>)
    requires
        all_pages_linkable(groups_view(by_package@), *opts, *links),
    ensures
        docs_view(r@) == docs_spec(groups_view(by_package@), *opts, *links, source.files@),
{
    let ghost gm = groups_view(by_package@);
    let mut docs: Vec<GeneratedDoc> = Vec::new();
    let mut i: usize = 0;
    while i < by_package.len()
        invariant
            i <= by_package.len(),
            gm == groups_view(by_package@),
            all_pages_linkable(gm, *opts, *links),
            docs_view(docs@) == docs_spec(gm.take(i as int), *opts, *links, source.files@),
        decreases by_package.len() - i,
    {
        let ghost before = docs_view(docs@);
        let package = by_package[i].0.as_str();
        let files = &by_package[i].1;
        assert(gm[i as int] == (package@, files_view(files@)));
        proof {
            assert(gm.take(i + 1).drop_last() =~= gm.take(i as int));
            assert(gm.take(i + 1).last() == gm[i as int]);
        }
        if package.unicode_len() > 0 {
            match opts.layout {
                Layout::Package => {
                    let (path, content) = render_package_page(package, files, links, opts, source);
                    docs.push(GeneratedDoc { path, content });
                    assert(docs_view(docs@) =~= before + seq![package_page_doc(package@, files_view(files@), *links, *opts, source.files@)]);
                },
                _ => {
                    let pages = render_entity_pages(package, files, links, opts, source);
                    let ghost pv = pages_view(pages@);
                    let mut k: usize = 0;
                    while k < pages.len()
                        invariant
                            k <= pages.len(),
                            pv == pages_view(pages@),
                            docs_view(docs@) == before + pv.take(k as int),
                        decreases pages.len() - k,
                    {
                        let ghost b2 = docs_view(docs@);
                        let path = to_string(pages[k].0.as_str());
                        let content = to_string(pages[k].1.as_str());
                        docs.push(GeneratedDoc { path, content });
                        k = k + 1;
                        assert(docs_view(docs@) =~= before + pv.take(k as int)) by {
                            assert(docs_view(docs@) =~= b2.push(pv[k - 1]));
                        }
                    }
                    assert(pv.take(pages.len() as int) =~= pv);
                },
            }
        } else {
            assert(docs_view(docs@) =~= before + Seq::<(Seq<char>, Seq<char>)>::empty());
        }
        i = i + 1;
    }
    assert(gm.take(by_package.len() as int) =~= gm);
    docs
}

} // verus!
