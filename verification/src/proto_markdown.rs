//! Hand-written `.md` companions found beside the requested `.proto` files: their
//! output names, titles, and which directories are searched.

use crate::markdown::{lines, lines_of};
use crate::options::Options;
use crate::paths::{dotdot, join_book_root_spec, parent_path, path_components, path_parts};
use crate::text::{
    chars_eq, chars_of, ends_with, join_chars, join_with, slice_vec, str_less, str_lt, string_of,
    to_string, trim, trim_chars, views,
};
use vstd::prelude::*;

verus! {

/// A companion markdown file copied into `{markdown_root}/`.
pub struct CompanionDoc {
    /// Path relative to `markdown_root` (e.g. `acme.example.v1.README.md`).
    pub output_rel: String,
    /// Link title for SUMMARY (first `#` heading, else the humanized stem).
    pub title: String,
    /// Source directory relative to the corpus root (`acme/example/v1`).
    pub source_dir: String,
    pub stem: String,
    /// Where the file was read from.
    pub source_path: String,
}

/// The normal components of a path (`..` dropped as well as empty pieces and `.`).
pub open spec fn normal_parts(p: Seq<char>) -> Seq<Seq<char>> {
    path_parts(p).filter(|c: Seq<char>| c != dotdot())
}

/// Components of `dir` joined with dots.
pub open spec fn dot_path(dir: Seq<char>) -> Seq<char> {
    join_with(normal_parts(dir), seq!['.'])
}

/// `{a.b.c}.{stem}.md` for directory `a/b/c`, or `{stem}.md` at the root.
pub open spec fn companion_name_spec(dir: Seq<char>, stem: Seq<char>) -> Seq<char> {
    let d = dot_path(dir);
    if d.len() == 0 {
        stem + ".md"@
    } else {
        d + seq!['.'] + stem + ".md"@
    }
}

fn normal_components(p: &str) -> (r: Vec<Vec<char>>)
    ensures
        r@.map_values(|x: Vec<char>| x@) == normal_parts(p@),
{
    let parts = path_components(&chars_of(p));
    let ghost pv = parts@.map_values(|x: Vec<char>| x@);
    let mut dd: Vec<char> = Vec::new();
    dd.push('.');
    dd.push('.');
    assert(dd@ =~= dotdot());
    let mut out: Vec<Vec<char>> = Vec::new();
    let mut i: usize = 0;
    while i < parts.len()
        invariant
            i <= parts.len(),
            pv == parts@.map_values(|x: Vec<char>| x@),
            pv == path_parts(p@),
            dd@ == dotdot(),
            out@.map_values(|x: Vec<char>| x@) == pv.take(i as int).filter(|c: Seq<char>| c != dotdot()),
        decreases parts.len() - i,
    {
        let ghost before = out@.map_values(|x: Vec<char>| x@);
        proof {
            assert(pv.take(i + 1).drop_last() =~= pv.take(i as int));
            assert(pv.take(i + 1).last() == parts@[i as int]@);
        }
        if !chars_eq(&parts[i], &dd) {
            let c = slice_vec(&parts[i], 0, parts[i].len());
            assert(c@ =~= parts@[i as int]@);
            out.push(c);
            assert(out@.map_values(|x: Vec<char>| x@) =~= before.push(parts@[i as int]@));
        }
        i = i + 1;
        assert(out@.map_values(|x: Vec<char>| x@) =~= pv.take(i as int).filter(|c: Seq<char>| c != dotdot())) by {
            reveal(Seq::filter);
        }
    }
    assert(pv.take(parts.len() as int) =~= pv);
    out
}

/// Output name of a companion `{stem}.md` found in `rel_dir`.
pub fn companion_output_name(rel_dir: &str, stem: &str) -> (r: String)
    ensures
        r@ == companion_name_spec(rel_dir@, stem@),
{
    let parts = normal_components(rel_dir);
    let mut dot: Vec<char> = Vec::new();
    dot.push('.');
    assert(dot@ =~= seq!['.']);
    let d = join_chars(&parts, &dot);
    let mut r = string_of(&d);
    if d.len() > 0 {
        r.append(".");
    }
    r.append(stem);
    r.append(".md");
    proof {
        reveal_strlit(".");
    }
    assert(r@ =~= companion_name_spec(rel_dir@, stem@));
    r
}

/// Module path implied by a companion output name: `out` without `.md` and then
/// without `.{stem}`.
pub open spec fn module_path_spec(out: Seq<char>, stem: Seq<char>) -> Option<Seq<char>> {
    if !ends_with(out, ".md"@) {
        None
    } else {
        let base = out.take(out.len() - 3);
        let suffix = seq!['.'] + stem;
        if ends_with(base, suffix) {
            Some(base.take(base.len() - suffix.len()))
        } else {
            None
        }
    }
}

/// Dot-separated module path implied by a companion output name
/// (`acme.example.v1.README.md` with stem `README` gives `acme.example.v1`).
pub fn module_path_from_companion_output(output_rel: &str, stem: &str) -> (r: Option<String>)
    ensures
        match module_path_spec(output_rel@, stem@) {
            Some(m) => r matches Some(s) && s@ == m,
            None => r is None,
        },
{
    let v = chars_of(output_rel);
    let ext = chars_of(".md");
    proof {
        reveal_strlit(".md");
    }
    if !crate::text::ends_with_exec(&v, &ext) {
        return None;
    }
    let base = slice_vec(&v, 0, v.len() - 3);
    assert(base@ =~= output_rel@.take(output_rel@.len() - 3));
    let mut suffix: Vec<char> = Vec::new();
    suffix.push('.');
    crate::text::extend(&mut suffix, &chars_of(stem));
    assert(suffix@ =~= seq!['.'] + stem@);
    if crate::text::ends_with_exec(&base, &suffix) {
        let m = slice_vec(&base, 0, base.len() - suffix.len());
        assert(m@ =~= base@.take(base@.len() - suffix@.len()));
        Some(string_of(&m))
    } else {
        None
    }
}

/// A companion's output name gives back its directory's module path; a companion at
/// the corpus root has none.
pub proof fn law_module_path_inverts_output_name(dir: Seq<char>, stem: Seq<char>)
    ensures
        dot_path(dir).len() > 0 ==> module_path_spec(companion_name_spec(dir, stem), stem) == Some(dot_path(dir)),
        dot_path(dir).len() == 0 ==> module_path_spec(companion_name_spec(dir, stem), stem) is None,
{
    let d = dot_path(dir);
    let out = companion_name_spec(dir, stem);
    reveal_strlit(".md");
    assert(ends_with(out, ".md"@)) by {
        assert(out.skip(out.len() - 3) =~= ".md"@);
    }
    let base = out.take(out.len() - 3);
    let suffix = seq!['.'] + stem;
    if d.len() > 0 {
        assert(base =~= d + suffix);
        assert(base.skip(base.len() - suffix.len()) =~= suffix);
        assert(base.take(base.len() - suffix.len()) =~= d);
    } else {
        assert(base =~= stem);
    }
}

/// Components of a path joined with `/` (`..`, `.` and empty pieces dropped).
pub open spec fn normalized_dir(p: Seq<char>) -> Seq<char> {
    join_with(normal_parts(p), seq!['/'])
}

/// `path` reduced to its normal components.
pub fn normalize_rel_dir(path: &str) -> (r: String)
    ensures
        r@ == normalized_dir(path@),
{
    let parts = normal_components(path);
    let mut sep: Vec<char> = Vec::new();
    sep.push('/');
    assert(sep@ =~= seq!['/']);
    string_of(&join_chars(&parts, &sep))
}

/// A line that is a Markdown heading, as the title it gives (hashes and spaces removed).
pub open spec fn heading_title(l: Seq<char>) -> Option<Seq<char>> {
    let t = trim(l);
    if t.len() > 0 && t[0] == '#' {
        let r = trim(drop_hashes(t.drop_first()));
        if r.len() > 0 {
            Some(r)
        } else {
            None
        }
    } else {
        None
    }
}

/// `s` without its leading `#` characters.
pub open spec fn drop_hashes(s: Seq<char>) -> Seq<char>
    decreases s.len(),
{
    if s.len() > 0 && s[0] == '#' {
        drop_hashes(s.drop_first())
    } else {
        s
    }
}

/// The title of the first heading among `ls`.
pub open spec fn first_heading(ls: Seq<Seq<char>>) -> Option<Seq<char>>
    decreases ls.len(),
{
    if ls.len() == 0 {
        None
    } else {
        match heading_title(ls[0]) {
            Some(t) => Some(t),
            None => first_heading(ls.drop_first()),
        }
    }
}

/// `s` is `readme` in any ASCII case.
pub open spec fn is_readme(s: Seq<char>) -> bool {
    s.len() == 6 && (s[0] == 'r' || s[0] == 'R') && (s[1] == 'e' || s[1] == 'E') && (s[2] == 'a' || s[2]
        == 'A') && (s[3] == 'd' || s[3] == 'D') && (s[4] == 'm' || s[4] == 'M') && (s[5] == 'e' || s[5]
        == 'E')
}

/// `README` for a readme stem; otherwise the stem with `-` and `_` turned into spaces.
pub open spec fn humanize_spec(stem: Seq<char>) -> Seq<char> {
    if is_readme(stem) {
        "README"@
    } else {
        stem.map_values(|c: char| if c == '-' || c == '_' { ' ' } else { c })
    }
}

/// Link title of a companion: its first heading, else its humanized stem.
pub open spec fn title_spec(stem: Seq<char>, content: Seq<char>) -> Seq<char> {
    match first_heading(lines_of(content)) {
        Some(t) => t,
        None => humanize_spec(stem),
    }
}

/// `README` for a readme stem; otherwise the stem with `-` and `_` turned into spaces.
pub fn humanize_stem(stem: &str) -> (r: String)
    ensures
        r@ == humanize_spec(stem@),
{
    let v = chars_of(stem);
    if v.len() == 6 && (v[0] == 'r' || v[0] == 'R') && (v[1] == 'e' || v[1] == 'E') && (v[2] == 'a'
        || v[2] == 'A') && (v[3] == 'd' || v[3] == 'D') && (v[4] == 'm' || v[4] == 'M') && (v[5] == 'e'
        || v[5] == 'E') {
        proof {
            reveal_strlit("README");
        }
        return to_string("README");
    }
    let mut out: Vec<char> = Vec::new();
    let mut i: usize = 0;
    while i < v.len()
        invariant
            i <= v.len(),
            v@ == stem@,
            out@ == v@.take(i as int).map_values(|c: char| if c == '-' || c == '_' { ' ' } else { c }),
        decreases v.len() - i,
    {
        let c = v[i];
        out.push(if c == '-' || c == '_' { ' ' } else { c });
        i = i + 1;
        assert(out@ =~= v@.take(i as int).map_values(|c: char| if c == '-' || c == '_' { ' ' } else { c }));
    }
    assert(v@.take(v.len() as int) =~= v@);
    string_of(&out)
}

fn heading_title_exec(l: &Vec<char>) -> (r: Option<Vec<char>>)
    ensures
        match heading_title(l@) {
            Some(t) => r matches Some(v) && v@ == t,
            None => r is None,
        },
{
    let t = trim_chars(l);
    if t.len() > 0 && t[0] == '#' {
        let mut k: usize = 1;
        while k < t.len() && t[k] == '#'
            invariant
                1 <= k <= t.len(),
                drop_hashes(t@.drop_first()) == drop_hashes(t@.skip(k as int)),
            decreases t.len() - k,
        {
            assert(t@.skip(k as int).drop_first() =~= t@.skip(k + 1));
            k = k + 1;
        }
        let rest = slice_vec(&t, k, t.len());
        assert(rest@ =~= t@.skip(k as int));
        assert(drop_hashes(t@.skip(k as int)) == t@.skip(k as int));
        let r = trim_chars(&rest);
        if r.len() > 0 {
            Some(r)
        } else {
            None
        }
    } else {
        None
    }
}

/// Link title of a companion: its first heading, else its humanized stem.
pub fn title_from_markdown(stem: &str, content: &str) -> (r: String)
    ensures
        r@ == title_spec(stem@, content@),
{
    let ls = lines(&chars_of(content));
    let ghost lv = ls@.map_values(|x: Vec<char>| x@);
    let mut i: usize = 0;
    assert(lv.skip(0) =~= lv);
    while i < ls.len()
        invariant
            i <= ls.len(),
            lv == ls@.map_values(|x: Vec<char>| x@),
            lv == lines_of(content@),
            first_heading(lv) == first_heading(lv.skip(i as int)),
        decreases ls.len() - i,
    {
        assert(lv.skip(i as int)[0] == ls@[i as int]@);
        assert(lv.skip(i as int).drop_first() =~= lv.skip(i + 1));
        match heading_title_exec(&ls[i]) {
            Some(t) => {
                return string_of(&t);
            },
            None => {},
        }
        i = i + 1;
    }
    humanize_stem(stem)
}

/// Stem of a companion candidate: a `.md` file whose stem is not empty and does not
/// start with a dot.
pub open spec fn candidate_stem(file_name: Seq<char>) -> Option<Seq<char>> {
    if ends_with(file_name, ".md"@) && file_name.len() > 3 && file_name[0] != '.' {
        Some(file_name.take(file_name.len() - 3))
    } else {
        None
    }
}

/// Stem of a companion candidate file name.
pub fn companion_candidate(file_name: &str) -> (r: Option<String>)
    ensures
        match candidate_stem(file_name@) {
            Some(s) => r matches Some(t) && t@ == s,
            None => r is None,
        },
{
    let v = chars_of(file_name);
    let ext = chars_of(".md");
    proof {
        reveal_strlit(".md");
    }
    if crate::text::ends_with_exec(&v, &ext) && v.len() > 3 && v[0] != '.' {
        let s = slice_vec(&v, 0, v.len() - 3);
        assert(s@ =~= file_name@.take(file_name@.len() - 3));
        Some(string_of(&s))
    } else {
        None
    }
}

/// The name climbs out of its root with a `..` component.
pub open spec fn has_parent_dir(name: Seq<char>) -> bool {
    path_parts(name).contains(dotdot())
}

/// Directory of a requested `.proto`, normalized.
pub open spec fn proto_dir_of(name: Seq<char>) -> Seq<char> {
    normalized_dir(parent_path(name))
}

/// Directories of the requested files (names with `..` skipped), each once, in order
/// of first request.
pub open spec fn proto_dirs_spec(names: Seq<Seq<char>>) -> Seq<Seq<char>>
    decreases names.len(),
{
    if names.len() == 0 {
        Seq::empty()
    } else {
        let pre = proto_dirs_spec(names.drop_last());
        let n = names.last();
        if has_parent_dir(n) || pre.contains(proto_dir_of(n)) {
            pre
        } else {
            pre.push(proto_dir_of(n))
        }
    }
}

/// `d` and each of its ancestors, deepest first (the root itself excluded).
pub open spec fn ancestors(d: Seq<char>) -> Seq<Seq<char>> {
    let ps = normal_parts(d);
    Seq::new(ps.len(), |k: int| join_with(ps.take(ps.len() - k), seq!['/']))
}

/// Directories searched for companions: each requested directory, then its ancestors.
pub open spec fn scan_dirs_spec(dirs: Seq<Seq<char>>) -> Seq<Seq<char>>
    decreases dirs.len(),
{
    if dirs.len() == 0 {
        Seq::empty()
    } else {
        scan_dirs_spec(dirs.drop_last()) + ancestors(dirs.last())
    }
}

proof fn lemma_proto_dirs_from_names(names: Seq<Seq<char>>)
    ensures
        forall|i: int|
            0 <= i < proto_dirs_spec(names).len() ==> exists|j: int|
                0 <= j < names.len() && !has_parent_dir(names[j]) && #[trigger] proto_dirs_spec(
                    names,
                )[i] == proto_dir_of(names[j]),
    decreases names.len(),
{
    if names.len() > 0 {
        let pre = names.drop_last();
        lemma_proto_dirs_from_names(pre);
        assert forall|i: int|
            0 <= i < proto_dirs_spec(names).len() implies exists|j: int|
                0 <= j < names.len() && !has_parent_dir(names[j]) && #[trigger] proto_dirs_spec(
                    names,
                )[i] == proto_dir_of(names[j]) by {
            if i < proto_dirs_spec(pre).len() {
                let j = choose|j: int|
                    0 <= j < pre.len() && !has_parent_dir(pre[j]) && proto_dirs_spec(pre)[i]
                        == proto_dir_of(pre[j]);
                assert(pre[j] == names[j]);
            } else {
                assert(proto_dirs_spec(names)[i] == proto_dir_of(names[names.len() - 1]));
            }
        }
    }
}

proof fn lemma_scan_dirs_from_dirs(dirs: Seq<Seq<char>>)
    ensures
        forall|i: int|
            0 <= i < scan_dirs_spec(dirs).len() ==> exists|k: int|
                0 <= k < dirs.len() && ancestors(dirs[k]).contains(
                    #[trigger] scan_dirs_spec(dirs)[i],
                ),
    decreases dirs.len(),
{
    if dirs.len() > 0 {
        let pre = dirs.drop_last();
        lemma_scan_dirs_from_dirs(pre);
        let a = ancestors(dirs.last());
        assert(scan_dirs_spec(dirs) == scan_dirs_spec(pre) + a);
        assert forall|i: int| 0 <= i < scan_dirs_spec(dirs).len() implies exists|k: int|
            0 <= k < dirs.len() && ancestors(dirs[k]).contains(
                #[trigger] scan_dirs_spec(dirs)[i],
            ) by {
            let n = scan_dirs_spec(pre).len();
            if i < n {
                assert(scan_dirs_spec(dirs)[i] == scan_dirs_spec(pre)[i]);
                let k = choose|k: int|
                    0 <= k < pre.len() && ancestors(pre[k]).contains(scan_dirs_spec(pre)[i]);
                assert(pre[k] == dirs[k]);
            } else {
                assert(scan_dirs_spec(dirs)[i] == a[i - n]);
                assert(a.contains(a[i - n]));
                assert(dirs[dirs.len() - 1] == dirs.last());
            }
        }
    }
}

/// Companion Markdown is looked for only on the ancestor chains of the requested protos:
/// every directory scanned is the directory of a requested `.proto` (one that does not
/// climb out of its root with `..`) or one of that directory's ancestors.
pub proof fn law_companions_only_on_ancestor_chains(names: Seq<Seq<char>>)
    ensures
        forall|i: int|
            0 <= i < scan_dirs_spec(proto_dirs_spec(names)).len() ==> exists|j: int|
                0 <= j < names.len() && !has_parent_dir(names[j]) && ancestors(
                    proto_dir_of(names[j]),
                ).contains(#[trigger] scan_dirs_spec(proto_dirs_spec(names))[i]),
{
    let dirs = proto_dirs_spec(names);
    lemma_proto_dirs_from_names(names);
    lemma_scan_dirs_from_dirs(dirs);
    assert forall|i: int| 0 <= i < scan_dirs_spec(dirs).len() implies exists|j: int|
        0 <= j < names.len() && !has_parent_dir(names[j]) && ancestors(proto_dir_of(names[j])).contains(
            #[trigger] scan_dirs_spec(dirs)[i],
        ) by {
        let k = choose|k: int| 0 <= k < dirs.len() && ancestors(dirs[k]).contains(scan_dirs_spec(dirs)[i]);
        let j = choose|j: int| 0 <= j < names.len() && !has_parent_dir(names[j]) && dirs[k] == proto_dir_of(names[j]);
    }
}

fn contains_str(v: &Vec<String>, s: &str) -> (r: bool)
    ensures
        r == views(v@).contains(s@),
{
    let sv = chars_of(s);
    let mut i: usize = 0;
    while i < v.len()
        invariant
            i <= v.len(),
            sv@ == s@,
            forall|j: int| 0 <= j < i ==> views(v@)[j] != s@,
        decreases v.len() - i,
    {
        if chars_eq(&chars_of(v[i].as_str()), &sv) {
            assert(views(v@)[i as int] == s@);
            return true;
        }
        i = i + 1;
    }
    false
}

/// Directories of the requested `.proto` files, each once.
pub fn collect_proto_dirs(file_to_generate: &Vec<String>) -> (r: Vec<String>)
    ensures
        views(r@) == proto_dirs_spec(views(file_to_generate@)),
{
    let ghost names = views(file_to_generate@);
    let mut dd: Vec<char> = Vec::new();
    dd.push('.');
    dd.push('.');
    assert(dd@ =~= dotdot());
    let mut out: Vec<String> = Vec::new();
    let mut i: usize = 0;
    while i < file_to_generate.len()
        invariant
            i <= file_to_generate.len(),
            names == views(file_to_generate@),
            dd@ == dotdot(),
            views(out@) == proto_dirs_spec(names.take(i as int)),
        decreases file_to_generate.len() - i,
    {
        let name = file_to_generate[i].as_str();
        proof {
            assert(names.take(i + 1).drop_last() =~= names.take(i as int));
            assert(names.take(i + 1).last() == name@);
        }
        let parts = path_components(&chars_of(name));
        let ghost pv = parts@.map_values(|x: Vec<char>| x@);
        let mut up = false;
        let mut k: usize = 0;
        while k < parts.len()
            invariant
                k <= parts.len(),
                pv == parts@.map_values(|x: Vec<char>| x@),
                dd@ == dotdot(),
                up == exists|j: int| 0 <= j < k && pv[j] == dotdot(),
            decreases parts.len() - k,
        {
            assert(pv[k as int] == parts@[k as int]@);
            if chars_eq(&parts[k], &dd) {
                up = true;
            }
            k = k + 1;
        }
        assert(up == has_parent_dir(name@)) by {
            if up {
                let j = choose|j: int| 0 <= j < parts.len() && pv[j] == dotdot();
                assert(path_parts(name@)[j] == dotdot());
            }
        }
        if !up {
            let d = normalize_rel_dir(crate::paths::parent_dir(name).as_str());
            let ghost before = views(out@);
            if !contains_str(&out, d.as_str()) {
                out.push(d);
                assert(views(out@) =~= before.push(proto_dir_of(name@)));
            }
        }
        i = i + 1;
    }
    assert(names.take(file_to_generate.len() as int) =~= names);
    out
}

/// Directories searched for companions, in search order.
pub fn companion_scan_dirs(file_to_generate: &Vec<String>) -> (r: Vec<String>)
    ensures
        views(r@) == scan_dirs_spec(proto_dirs_spec(views(file_to_generate@))),
{
    let dirs = collect_proto_dirs(file_to_generate);
    let ghost dv = views(dirs@);
    let mut sep: Vec<char> = Vec::new();
    sep.push('/');
    assert(sep@ =~= seq!['/']);
    let mut out: Vec<String> = Vec::new();
    let mut i: usize = 0;
    while i < dirs.len()
        invariant
            i <= dirs.len(),
            dv == views(dirs@),
            sep@ == seq!['/'],
            views(out@) == scan_dirs_spec(dv.take(i as int)),
        decreases dirs.len() - i,
    {
        let d = dirs[i].as_str();
        proof {
            assert(dv.take(i + 1).drop_last() =~= dv.take(i as int));
            assert(dv.take(i + 1).last() == d@);
        }
        let parts = normal_components(d);
        let ghost ps = parts@.map_values(|x: Vec<char>| x@);
        let ghost base = views(out@);
        let mut n: usize = parts.len();
        while n > 0
            invariant
                n <= parts.len(),
                ps == parts@.map_values(|x: Vec<char>| x@),
                ps == normal_parts(d@),
                sep@ == seq!['/'],
                views(out@) == base + ancestors(d@).take(parts.len() - n),
            decreases n,
        {
            let ghost b2 = views(out@);
            let mut prefix: Vec<Vec<char>> = Vec::new();
            let mut k: usize = 0;
            while k < n
                invariant
                    k <= n <= parts.len(),
                    ps == parts@.map_values(|x: Vec<char>| x@),
                    prefix@.map_values(|x: Vec<char>| x@) == ps.take(k as int),
                decreases n - k,
            {
                let c = slice_vec(&parts[k], 0, parts[k].len());
                assert(c@ =~= ps[k as int]);
                let ghost bp = prefix@.map_values(|x: Vec<char>| x@);
                prefix.push(c);
                assert(prefix@.map_values(|x: Vec<char>| x@) =~= bp.push(ps[k as int]));
                k = k + 1;
                assert(prefix@.map_values(|x: Vec<char>| x@) =~= ps.take(k as int));
            }
            out.push(string_of(&join_chars(&prefix, &sep)));
            n = n - 1;
            assert(views(out@) =~= base + ancestors(d@).take(parts.len() - n)) by {
                assert(views(out@) =~= b2.push(join_with(ps.take(n + 1), seq!['/'])));
                assert(ancestors(d@)[parts.len() - n - 1] == join_with(ps.take(n + 1), seq!['/']));
                assert(ancestors(d@).take(parts.len() - n) =~= ancestors(d@).take(parts.len() - n - 1).push(
                    join_with(ps.take(n + 1), seq!['/']),
                ));
            }
        }
        assert(ancestors(d@).take(parts.len() as int) =~= ancestors(d@));
        i = i + 1;
    }
    assert(dv.take(dirs.len() as int) =~= dv);
    out
}

/// A `.md` file found while scanning a directory, with its text.
pub struct FoundMarkdown {
    /// The scanned directory (relative to the search root).
    pub dir: String,
    pub file_name: String,
    pub source_path: String,
    pub content: String,
}

/// A companion as plain values: output name, title, source directory, stem, source path.
pub type CompanionView = (Seq<char>, Seq<char>, Seq<char>, Seq<char>, Seq<char>);

/// The companion a found file gives, if it is a candidate.
pub open spec fn doc_of(f: FoundMarkdown) -> Option<CompanionView> {
    match candidate_stem(f.file_name@) {
        Some(stem) => {
            let dir = normalized_dir(f.dir@);
            Some((companion_name_spec(dir, stem), title_spec(stem, f.content@), dir, stem, f.source_path@))
        },
        None => None,
    }
}

/// Number of leading companions whose name sorts before `k`.
pub open spec fn doc_pos(m: Seq<CompanionView>, k: Seq<char>) -> int
    decreases m.len(),
{
    if m.len() == 0 || !str_lt(m[0].0, k) {
        0
    } else {
        1 + doc_pos(m.drop_first(), k)
    }
}

/// `m` with `d` added in name order, unless a companion of that name is already there.
pub open spec fn add_doc(m: Seq<CompanionView>, d: CompanionView) -> Seq<CompanionView> {
    if exists|i: int| 0 <= i < m.len() && (#[trigger] m[i]).0 == d.0 {
        m
    } else {
        m.insert(doc_pos(m, d.0), d)
    }
}

/// Companions of the found files: the first file of each output name, sorted by name.
pub open spec fn companions_spec(found: Seq<FoundMarkdown>) -> Seq<CompanionView>
    decreases found.len(),
{
    if found.len() == 0 {
        Seq::empty()
    } else {
        let m = companions_spec(found.drop_last());
        match doc_of(found.last()) {
            Some(d) => add_doc(m, d),
            None => m,
        }
    }
}

/// A companion as plain values.
pub open spec fn companion_view(d: CompanionDoc) -> CompanionView {
    (d.output_rel@, d.title@, d.source_dir@, d.stem@, d.source_path@)
}

/// Companion docs for the requested files, from the `.md` files found while scanning
/// `companion_scan_dirs` in order: none when companions are disabled or no directory
/// qualifies.
pub fn discover_companion_docs(
    file_to_generate: &Vec<String>,
    opts: &Options,
    found: &Vec<FoundMarkdown>,
) -> (r: Vec<CompanionDoc>)
    ensures
        r@.map_values(|d: CompanionDoc| companion_view(d)) == (if opts.no_proto_markdown
            || proto_dirs_spec(views(file_to_generate@)).len() == 0 {
            Seq::empty()
        } else {
            companions_spec(found@)
        }),
{
    let mut out: Vec<CompanionDoc> = Vec::new();
    if opts.no_proto_markdown || collect_proto_dirs(file_to_generate).len() == 0 {
        assert(out@.map_values(|d: CompanionDoc| companion_view(d)) =~= Seq::<CompanionView>::empty());
        return out;
    }
    let mut i: usize = 0;
    while i < found.len()
        invariant
            i <= found.len(),
            out@.map_values(|d: CompanionDoc| companion_view(d)) == companions_spec(found@.take(i as int)),
        decreases found.len() - i,
    {
        let f = &found[i];
        proof {
            assert(found@.take(i + 1).drop_last() =~= found@.take(i as int));
            assert(found@.take(i + 1).last() == *f);
        }
        let ghost m = out@.map_values(|d: CompanionDoc| companion_view(d));
        match companion_candidate(f.file_name.as_str()) {
            Some(stem) => {
                let dir = normalize_rel_dir(f.dir.as_str());
                let key = companion_output_name(dir.as_str(), stem.as_str());
                let kv = chars_of(key.as_str());
                let mut seen = false;
                let mut j: usize = 0;
                while j < out.len()
                    invariant
                        j <= out.len(),
                        kv@ == key@,
                        m == out@.map_values(|d: CompanionDoc| companion_view(d)),
                        seen == exists|t: int| 0 <= t < j && (#[trigger] m[t]).0 == key@,
                    decreases out.len() - j,
                {
                    if chars_eq(&chars_of(out[j].output_rel.as_str()), &kv) {
                        assert(m[j as int].0 == key@);
                        seen = true;
                    }
                    j = j + 1;
                }
                if !seen {
                    let mut p: usize = 0;
                    assert(m.skip(0) =~= m);
                    while p < out.len() && str_less(out[p].output_rel.as_str(), key.as_str())
                        invariant
                            p <= out.len(),
                            m == out@.map_values(|d: CompanionDoc| companion_view(d)),
                            doc_pos(m, key@) == p + doc_pos(m.skip(p as int), key@),
                        decreases out.len() - p,
                    {
                        assert(m.skip(p as int)[0] == m[p as int]);
                        assert(m.skip(p as int).drop_first() =~= m.skip(p + 1));
                        p = p + 1;
                    }
                    proof {
                        if p < out.len() {
                            assert(m.skip(p as int)[0] == m[p as int]);
                        }
                    }
                    let title = title_from_markdown(stem.as_str(), f.content.as_str());
                    let doc = CompanionDoc {
                        output_rel: key,
                        title,
                        source_dir: dir,
                        stem,
                        source_path: to_string(f.source_path.as_str()),
                    };
                    out.insert(p, doc);
                    assert(out@.map_values(|d: CompanionDoc| companion_view(d)) =~= add_doc(m, doc_of(*f)->0));
                }
            },
            None => {},
        }
        i = i + 1;
    }
    assert(found@.take(found.len() as int) =~= found@);
    out
}

/// Where a companion is written: `{book_root}/{markdown_root}/{output_rel}`.
pub fn companion_output_path(opts: &Options, doc: &CompanionDoc) -> (r: String)
    ensures
        r@ == join_book_root_spec(opts.book_root@, opts.markdown_root@ + seq!['/'] + doc.output_rel@),
{
    let mut rel = to_string(opts.markdown_root.as_str());
    crate::text::push_char(&mut rel, '/');
    rel.append(doc.output_rel.as_str());
    opts.output_path(rel.as_str())
}

} // verus!
