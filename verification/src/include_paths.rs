//! Where `.proto` files sit under include paths and module roots, reasoned over path
//! components as Unix paths have them, and the compiler runs that turn them into
//! descriptors.

use crate::descriptor::FileDesc;
use crate::input::{has_file_named, has_file_named_exec, sort_dedup, sorted_unique, InputError};
use crate::proto_deps::{file_name_of, file_name_spec, parent_of, parent_spec};
use crate::runner::{cwd_view, Invocation};
use crate::text::{chars_of, join_with, split_chars, split_on, string_of, to_string, views};
use vstd::prelude::*;

verus! {

/// The path begins at the root.
pub open spec fn rooted(p: Seq<char>) -> bool {
    p.len() > 0 && p[0] == '/'
}

/// A piece between slashes that names something (`.` and empty pieces do not).
pub open spec fn named_piece(s: Seq<char>) -> bool {
    s.len() > 0 && s != seq!['.']
}

/// Components of `p` after the root, as `Path::components` yields them: a leading `.`
/// of a relative path kept, other `.` and empty pieces dropped.
pub open spec fn comps(p: Seq<char>) -> Seq<Seq<char>> {
    let pieces = split_on(p, '/');
    (if !rooted(p) && pieces[0] == seq!['.'] {
        seq![seq!['.']]
    } else {
        Seq::empty()
    }) + pieces.filter(|s: Seq<char>| named_piece(s))
}

/// Number of components of `p`, the root counted.
pub open spec fn comp_count(p: Seq<char>) -> int {
    comps(p).len() + if rooted(p) {
        1int
    } else {
        0int
    }
}

/// What is left of `p` below `base` (`Path::strip_prefix`), when `base` is a prefix.
pub open spec fn strip_spec(p: Seq<char>, base: Seq<char>) -> Option<Seq<Seq<char>>> {
    let a = comps(p);
    let b = comps(base);
    if rooted(p) == rooted(base) && b.len() <= a.len() && a.take(b.len() as int) == b {
        Some(a.skip(b.len() as int))
    } else {
        None
    }
}

/// A normal component: neither `.` nor `..`.
pub open spec fn normal_comp(c: Seq<char>) -> bool {
    c != seq!['.'] && c != seq!['.', '.']
}

/// The normal components of `rest`, joined with `/`.
pub open spec fn rel_name(rest: Seq<Seq<char>>) -> Seq<char> {
    join_with(rest.filter(|c: Seq<char>| normal_comp(c)), seq!['/'])
}

/// Name of `file` under include path `inc`, when it lies below it and the name is not
/// empty.
pub open spec fn name_under(file: Seq<char>, inc: Seq<char>) -> Option<Seq<char>> {
    match strip_spec(file, inc) {
        Some(rest) => if rel_name(rest).len() > 0 {
            Some(rel_name(rest))
        } else {
            None
        },
        None => None,
    }
}

/// The include path that names `file`: of those it lies under, the one with the most
/// components, the earlier one on a tie (the include paths are tried deepest first).
pub open spec fn best_include(file: Seq<char>, incs: Seq<Seq<char>>) -> Option<int>
    decreases incs.len(),
{
    if incs.len() == 0 {
        None
    } else {
        let b = best_include(file, incs.drop_last());
        let j = incs.len() - 1;
        if name_under(file, incs[j]) is Some {
            match b {
                None => Some(j),
                Some(i) => if comp_count(incs[j]) > comp_count(incs[i]) {
                    Some(j)
                } else {
                    Some(i)
                },
            }
        } else {
            b
        }
    }
}

/// Descriptor name of `file` under the include paths.
pub open spec fn file_name_under(file: Seq<char>, incs: Seq<Seq<char>>) -> Option<Seq<char>> {
    match best_include(file, incs) {
        Some(i) => name_under(file, incs[i]),
        None => None,
    }
}

/// Names of `files` under the include paths, in order; the first file under none of
/// them is the error.
pub open spec fn names_under(files: Seq<Seq<char>>, incs: Seq<Seq<char>>) -> Result<Seq<Seq<char>>, Seq<char>>
    decreases files.len(),
{
    if files.len() == 0 {
        Ok(Seq::empty())
    } else {
        match names_under(files.drop_last(), incs) {
            Err(e) => Err(e),
            Ok(ns) => match file_name_under(files.last(), incs) {
                Some(n) => Ok(ns.push(n)),
                None => Err(files.last()),
            },
        }
    }
}

/// Rootedness and components of `p`.
pub fn path_comps(p: &str) -> (r: (bool, Vec<String>))
    ensures
        r.0 == rooted(p@),
        views(r.1@) == comps(p@),
{
    let v = chars_of(p);
    let pieces = split_chars(&v, '/');
    let ghost pv = pieces@.map_values(|x: Vec<char>| x@);
    proof {
        crate::text::lemma_split_on_nonempty(p@, '/');
    }
    let is_rooted = v.len() > 0 && v[0] == '/';
    let mut out: Vec<String> = Vec::new();
    let lead = !is_rooted && pieces[0].len() == 1 && pieces[0][0] == '.';
    proof {
        assert(pieces@[0]@ == pv[0]);
        if pieces@[0]@.len() == 1 {
            assert(pv[0] == seq!['.'] <==> pieces@[0]@[0] == '.') by {
                if pieces@[0]@[0] == '.' {
                    assert(pv[0] =~= seq!['.']);
                }
            }
        }
    }
    if lead {
        out.push(to_string("."));
        proof {
            reveal_strlit(".");
            assert("."@ =~= seq!['.']);
        }
        assert(views(out@) =~= seq![seq!['.']]);
    }
    let ghost base = views(out@);
    let ghost keep = |s: Seq<char>| named_piece(s);
    let mut i: usize = 0;
    while i < pieces.len()
        invariant
            i <= pieces.len(),
            pv == pieces@.map_values(|x: Vec<char>| x@),
            keep == (|s: Seq<char>| named_piece(s)),
            views(out@) == base + pv.take(i as int).filter(keep),
        decreases pieces.len() - i,
    {
        let piece = &pieces[i];
        let named = piece.len() > 0 && !(piece.len() == 1 && piece[0] == '.');
        let ghost before = views(out@);
        proof {
            assert(piece@ == pv[i as int]);
            assert(named == named_piece(piece@)) by {
                if piece@.len() == 1 && piece@[0] == '.' {
                    assert(piece@ =~= seq!['.']);
                }
                if piece@ == seq!['.'] {
                    assert(piece@[0] == '.');
                }
            }
            assert(pv.take(i + 1).drop_last() =~= pv.take(i as int));
            reveal(Seq::filter);
        }
        if named {
            out.push(string_of(piece));
            assert(views(out@) =~= before.push(piece@));
        }
        i = i + 1;
    }
    assert(pv.take(pieces.len() as int) =~= pv);
    (is_rooted, out)
}

fn strings_eq(a: &String, b: &String) -> (r: bool)
    ensures
        r == (a@ == b@),
{
    crate::text::str_eq(a.as_str(), b.as_str())
}

/// What is left of `p` below `base`, when `base` is a prefix of it.
pub fn strip_components(p: &str, base: &str) -> (r: Option<Vec<String>>)
    ensures
        match strip_spec(p@, base@) {
            Some(rest) => r matches Some(v) && views(v@) == rest,
            None => r is None,
        },
{
    let (pr, pc) = path_comps(p);
    let (br, bc) = path_comps(base);
    if pr != br || bc.len() > pc.len() {
        return None;
    }
    let mut i: usize = 0;
    while i < bc.len()
        invariant
            i <= bc.len() <= pc.len(),
            views(pc@) == comps(p@),
            views(bc@) == comps(base@),
            forall|j: int| 0 <= j < i ==> pc@[j]@ == bc@[j]@,
        decreases bc.len() - i,
    {
        if !strings_eq(&pc[i], &bc[i]) {
            assert(views(pc@)[i as int] != views(bc@)[i as int]);
            assert(views(pc@).take(bc.len() as int)[i as int] == views(pc@)[i as int]);
            return None;
        }
        i = i + 1;
    }
    assert(views(pc@).take(bc.len() as int) =~= views(bc@));
    let mut rest: Vec<String> = Vec::new();
    let mut k: usize = bc.len();
    while k < pc.len()
        invariant
            bc.len() <= k <= pc.len(),
            views(pc@) == comps(p@),
            views(rest@) == views(pc@).subrange(bc.len() as int, k as int),
        decreases pc.len() - k,
    {
        let ghost before = views(rest@);
        rest.push(to_string(pc[k].as_str()));
        assert(views(rest@) =~= before.push(views(pc@)[k as int]));
        k = k + 1;
        assert(views(rest@) =~= views(pc@).subrange(bc.len() as int, k as int));
    }
    assert(views(pc@).subrange(bc.len() as int, pc.len() as int) =~= views(pc@).skip(bc.len() as int));
    Some(rest)
}

fn is_normal(c: &String) -> (r: bool)
    ensures
        r == normal_comp(c@),
{
    let v = chars_of(c.as_str());
    let r = !(v.len() == 1 && v[0] == '.') && !(v.len() == 2 && v[0] == '.' && v[1] == '.');
    proof {
        if v@.len() == 1 && v@[0] == '.' {
            assert(v@ =~= seq!['.']);
        }
        if v@.len() == 2 && v@[0] == '.' && v@[1] == '.' {
            assert(v@ =~= seq!['.', '.']);
        }
        if v@ == seq!['.'] {
            assert(v@[0] == '.');
        }
        if v@ == seq!['.', '.'] {
            assert(v@[0] == '.' && v@[1] == '.');
        }
    }
    r
}

/// The normal components of `rest`, joined with `/`.
pub fn join_normal(rest: &Vec<String>) -> (r: String)
    ensures
        r@ == rel_name(views(rest@)),
{
    let ghost rv = views(rest@);
    let ghost keep = |c: Seq<char>| normal_comp(c);
    let mut kept: Vec<String> = Vec::new();
    let mut i: usize = 0;
    while i < rest.len()
        invariant
            i <= rest.len(),
            rv == views(rest@),
            keep == (|c: Seq<char>| normal_comp(c)),
            views(kept@) == rv.take(i as int).filter(keep),
        decreases rest.len() - i,
    {
        let ghost before = views(kept@);
        proof {
            assert(rv.take(i + 1).drop_last() =~= rv.take(i as int));
            reveal(Seq::filter);
        }
        if is_normal(&rest[i]) {
            kept.push(rest[i].clone());
            assert(views(kept@) =~= before.push(rv[i as int]));
        }
        i = i + 1;
    }
    assert(rv.take(rest.len() as int) =~= rv);
    let r = crate::text::join_strings(&kept, "/");
    proof {
        reveal_strlit("/");
        assert("/"@ =~= seq!['/']);
    }
    r
}

/// Name of `file` under include path `inc`, when it lies below it and the name is not
/// empty.
pub fn name_under_include(file: &str, inc: &str) -> (r: Option<String>)
    ensures
        match name_under(file@, inc@) {
            Some(n) => r matches Some(s) && s@ == n,
            None => r is None,
        },
{
    match strip_components(file, inc) {
        Some(rest) => {
            let n = join_normal(&rest);
            if n.as_str().unicode_len() > 0 {
                Some(n)
            } else {
                None
            }
        },
        None => None,
    }
}

/// Number of components of `p`, the root counted.
pub fn component_count(p: &str) -> (r: u128)
    ensures
        r == comp_count(p@),
{
    let (is_rooted, c) = path_comps(p);
    assert(views(c@).len() == c@.len());
    if is_rooted {
        c.len() as u128 + 1
    } else {
        c.len() as u128
    }
}

proof fn lemma_best_include_bound(file: Seq<char>, incs: Seq<Seq<char>>)
    ensures
        match best_include(file, incs) {
            Some(i) => 0 <= i < incs.len() && name_under(file, incs[i]) is Some,
            None => true,
        },
    decreases incs.len(),
{
    if incs.len() > 0 {
        lemma_best_include_bound(file, incs.drop_last());
    }
}

/// Descriptor name of `file` under the include paths.
pub fn file_name_under_includes(file: &str, incs: &Vec<String>) -> (r: Option<String>)
    ensures
        match file_name_under(file@, views(incs@)) {
            Some(n) => r matches Some(s) && s@ == n,
            None => r is None,
        },
{
    let ghost iv = views(incs@);
    let mut best: Option<(usize, String)> = None;
    let mut best_count: u128 = 0;
    let mut i: usize = 0;
    while i < incs.len()
        invariant
            i <= incs.len(),
            iv == views(incs@),
            match best_include(file@, iv.take(i as int)) {
                Some(j) => best matches Some((b, n)) && b == j && name_under(file@, iv[j]) == Some(n@)
                    && best_count == comp_count(iv[j]),
                None => best is None,
            },
        decreases incs.len() - i,
    {
        proof {
            assert(iv.take(i + 1).drop_last() =~= iv.take(i as int));
            assert(iv.take(i + 1)[i as int] == iv[i as int]);
            lemma_best_include_bound(file@, iv.take(i as int));
            match best_include(file@, iv.take(i as int)) {
                Some(j) => {
                    assert(iv.take(i + 1)[j] == iv[j]);
                    assert(iv.take(i as int)[j] == iv[j]);
                },
                None => {},
            }
        }
        match name_under_include(file, incs[i].as_str()) {
            Some(n) => {
                let c = component_count(incs[i].as_str());
                let take = match &best {
                    None => true,
                    Some(_) => c > best_count,
                };
                if take {
                    best = Some((i, n));
                    best_count = c;
                }
            },
            None => {},
        }
        i = i + 1;
    }
    assert(iv.take(incs.len() as int) =~= iv);
    match best {
        Some((_, n)) => Some(n),
        None => None,
    }
}

/// Descriptor names of `.proto` files under the include paths (`-I`), sorted and each
/// once; a file is named relative to the deepest include path it lies under. Refused,
/// with the first such file, when a file lies under none.
pub fn protoc_file_args(files: &Vec<String>, incs: &Vec<String>) -> (r: Result<Vec<String>, InputError>)
    ensures
        match names_under(views(files@), views(incs@)) {
            Ok(ns) => r matches Ok(v) && views(v@) == sorted_unique(ns),
            Err(f) => r matches Err(InputError::NotUnderProtoPath(p)) && p@ == f,
        },
{
    let ghost fv = views(files@);
    let mut names: Vec<String> = Vec::new();
    let mut i: usize = 0;
    assert(fv.take(0) =~= Seq::<Seq<char>>::empty());
    assert(views(names@) =~= Seq::<Seq<char>>::empty());
    while i < files.len()
        invariant
            i <= files.len(),
            fv == views(files@),
            names_under(fv.take(i as int), views(incs@)) == Ok::<Seq<Seq<char>>, Seq<char>>(views(names@)),
        decreases files.len() - i,
    {
        proof {
            assert(fv.take(i + 1).drop_last() =~= fv.take(i as int));
            assert(fv.take(i + 1).last() == fv[i as int]);
        }
        match file_name_under_includes(files[i].as_str(), incs) {
            Some(n) => {
                let ghost before = views(names@);
                names.push(n);
                assert(views(names@) =~= before.push(names@[names.len() - 1]@));
            },
            None => {
                proof {
                    lemma_names_under_err_prefix(fv, views(incs@), i as int);
                }
                return Err(InputError::NotUnderProtoPath(files[i].clone()));
            },
        }
        i = i + 1;
    }
    assert(fv.take(files.len() as int) =~= fv);
    Ok(sort_dedup(&names))
}

proof fn lemma_names_under_err_prefix(fs: Seq<Seq<char>>, incs: Seq<Seq<char>>, i: int)
    requires
        0 <= i < fs.len(),
        names_under(fs.take(i + 1), incs) == Err::<Seq<Seq<char>>, Seq<char>>(fs[i]),
    ensures
        names_under(fs, incs) == Err::<Seq<Seq<char>>, Seq<char>>(fs[i]),
    decreases fs.len(),
{
    if fs.len() == i + 1 {
        assert(fs.take(i + 1) =~= fs);
    } else {
        assert(fs.drop_last().take(i + 1) =~= fs.take(i + 1));
        lemma_names_under_err_prefix(fs.drop_last(), incs, i);
    }
}

fn has_parent_dir(rest: &Vec<String>) -> (r: bool)
    ensures
        r == views(rest@).contains(seq!['.', '.']),
{
    let mut i: usize = 0;
    while i < rest.len()
        invariant
            i <= rest.len(),
            forall|j: int| 0 <= j < i ==> views(rest@)[j] != seq!['.', '.'],
        decreases rest.len() - i,
    {
        let v = chars_of(rest[i].as_str());
        if v.len() == 2 && v[0] == '.' && v[1] == '.' {
            assert(v@ =~= seq!['.', '.']);
            assert(views(rest@)[i as int] == v@);
            return true;
        }
        proof {
            if v@ == seq!['.', '.'] {
                assert(v@[0] == '.' && v@[1] == '.');
            }
            assert(views(rest@)[i as int] == v@);
        }
        i = i + 1;
    }
    false
}

/// Name of `path` relative to the module root: its components below the root joined
/// with `/`, `.` skipped; refused when the path is not below the root, or climbs with
/// `..` below it.
pub fn proto_name_relative_to_module(module_root: &str, path: &str) -> (r: Result<String, InputError>)
    ensures
        match strip_spec(path@, module_root@) {
            None => r matches Err(InputError::NotUnderModuleRoot(p, m)) && p@ == path@ && m@ == module_root@,
            Some(rest) => if rest.contains(seq!['.', '.']) {
                r matches Err(InputError::InvalidPathComponent(p)) && p@ == path@
            } else {
                r matches Ok(n) && n@ == rel_name(rest)
            },
        },
{
    match strip_components(path, module_root) {
        None => Err(InputError::NotUnderModuleRoot(to_string(path), to_string(module_root))),
        Some(rest) => if has_parent_dir(&rest) {
            Err(InputError::InvalidPathComponent(to_string(path)))
        } else {
            Ok(join_normal(&rest))
        },
    }
}

/// What the caller found on disk about one input path.
pub struct InputFacts {
    /// The path as given.
    pub path: String,
    /// It is a regular file.
    pub is_file: bool,
    /// Its directory (its parent when it is a file) holds a `buf.yaml` file.
    pub dir_has_buf_yaml: bool,
}

/// Directory of an input: its parent when it is a file, else itself.
pub open spec fn input_dir(f: InputFacts) -> Option<Seq<char>> {
    if f.is_file {
        parent_spec(f.path@)
    } else {
        Some(f.path@)
    }
}

/// Root of the protos of the inputs: the first input directory holding a `buf.yaml`,
/// else the directory of the first input. `None` when a file input has no parent.
pub open spec fn proto_root_spec(inputs: Seq<InputFacts>) -> Option<Seq<char>>
    decreases inputs.len(),
{
    if inputs.len() == 0 {
        None
    } else {
        let f = inputs[0];
        match input_dir(f) {
            None => None,
            Some(d) => if f.dir_has_buf_yaml {
                Some(d)
            } else if inputs.len() == 1 {
                Some(d)
            } else {
                match proto_root_search(inputs.drop_first()) {
                    Some(Some(r)) => Some(r),
                    Some(None) => Some(d),
                    None => None,
                }
            },
        }
    }
}

/// The first directory holding a `buf.yaml` among `inputs` (`Some(None)` when none
/// does); `None` when a file input met before has no parent.
pub open spec fn proto_root_search(inputs: Seq<InputFacts>) -> Option<Option<Seq<char>>>
    decreases inputs.len(),
{
    if inputs.len() == 0 {
        Some(None)
    } else {
        match input_dir(inputs[0]) {
            None => None,
            Some(d) => if inputs[0].dir_has_buf_yaml {
                Some(Some(d))
            } else {
                proto_root_search(inputs.drop_first())
            },
        }
    }
}

fn input_dir_exec(f: &InputFacts) -> (r: Option<String>)
    ensures
        match input_dir(*f) {
            Some(d) => r matches Some(s) && s@ == d,
            None => r is None,
        },
{
    if f.is_file {
        parent_of(f.path.as_str())
    } else {
        Some(to_string(f.path.as_str()))
    }
}

fn search_from(inputs: &Vec<InputFacts>, start: usize) -> (r: Option<Option<String>>)
    requires
        start <= inputs.len(),
    ensures
        match proto_root_search(inputs@.skip(start as int)) {
            Some(Some(d)) => r matches Some(Some(s)) && s@ == d,
            Some(None) => r matches Some(None),
            None => r is None,
        },
    decreases inputs.len() - start,
{
    if start == inputs.len() {
        assert(inputs@.skip(start as int) =~= Seq::<InputFacts>::empty());
        return Some(None);
    }
    let ghost rest = inputs@.skip(start as int);
    assert(rest[0] == inputs@[start as int]);
    assert(rest.drop_first() =~= inputs@.skip(start + 1));
    match input_dir_exec(&inputs[start]) {
        None => None,
        Some(d) => if inputs[start].dir_has_buf_yaml {
            Some(Some(d))
        } else {
            search_from(inputs, start + 1)
        },
    }
}

/// Root of the protos of the inputs: the first input directory holding a `buf.yaml`,
/// else the directory of the first input; refused when there is no input, or a file
/// input met on the way has no parent.
pub fn infer_proto_root(inputs: &Vec<InputFacts>) -> (r: Result<String, InputError>)
    ensures
        inputs.len() == 0 ==> r matches Err(InputError::NoProtoRoot),
        inputs.len() > 0 ==> match proto_root_spec(inputs@) {
            Some(d) => r matches Ok(s) && s@ == d,
            None => r matches Err(InputError::NoParent),
        },
{
    if inputs.len() == 0 {
        return Err(InputError::NoProtoRoot);
    }
    assert(inputs@.skip(1) =~= inputs@.drop_first());
    match input_dir_exec(&inputs[0]) {
        None => Err(InputError::NoParent),
        Some(d) => if inputs[0].dir_has_buf_yaml || inputs.len() == 1 {
            Ok(d)
        } else {
            match search_from(inputs, 1) {
                Some(Some(r)) => Ok(r),
                Some(None) => Ok(d),
                None => Err(InputError::NoParent),
            }
        },
    }
}

/// Include paths of a protoc compilation: the given `-I` paths, else the inferred root;
/// the dependency export appended when asked for and not already among them.
pub open spec fn protoc_includes_spec(
    proto_paths: Seq<Seq<char>>,
    inferred_root: Seq<char>,
    export: Option<Seq<char>>,
) -> Seq<Seq<char>> {
    let base = if proto_paths.len() == 0 {
        seq![inferred_root]
    } else {
        proto_paths
    };
    match export {
        Some(e) => if base.contains(e) {
            base
        } else {
            base.push(e)
        },
        None => base,
    }
}

fn contains_string(v: &Vec<String>, s: &str) -> (r: bool)
    ensures
        r == views(v@).contains(s@),
{
    let mut i: usize = 0;
    while i < v.len()
        invariant
            i <= v.len(),
            forall|j: int| 0 <= j < i ==> views(v@)[j] != s@,
        decreases v.len() - i,
    {
        assert(views(v@)[i as int] == v@[i as int]@);
        if crate::text::str_eq(v[i].as_str(), s) {
            return true;
        }
        i = i + 1;
    }
    false
}

/// Include paths of a protoc compilation.
pub fn protoc_include_paths(proto_paths: &Vec<String>, inferred_root: &str, export: &Option<String>) -> (r: Vec<String>)
    ensures
        views(r@) == protoc_includes_spec(
            views(proto_paths@),
            inferred_root@,
            match export {
                Some(e) => Some(e@),
                None => None,
            },
        ),
{
    let mut base: Vec<String> = if proto_paths.len() == 0 {
        let mut b: Vec<String> = Vec::new();
        b.push(to_string(inferred_root));
        assert(views(b@) =~= seq![inferred_root@]);
        b
    } else {
        crate::options::copy_strings(proto_paths)
    };
    match export {
        Some(e) => {
            if !contains_string(&base, e.as_str()) {
                let ghost before = views(base@);
                base.push(to_string(e.as_str()));
                assert(views(base@) =~= before.push(e@));
            }
        },
        None => {},
    }
    base
}

/// Arguments of the protoc run that writes the descriptor set: source info and imports
/// included, each include path after `-I`, then the file names.
pub open spec fn protoc_compile_args(fds_path: Seq<char>, includes: Seq<Seq<char>>, names: Seq<Seq<char>>) -> Seq<Seq<char>> {
    seq!["--descriptor_set_out"@, fds_path, "--include_imports"@, "--include_source_info"@]
        + crate::runner::include_args(includes) + names
}

/// The protoc run that compiles `names` into a descriptor set at `fds_path`.
pub fn protoc_compile_invocation(protoc: &str, fds_path: &str, includes: &Vec<String>, names: &Vec<String>) -> (r: Invocation)
    ensures
        r.program@ == protoc@,
        views(r.args@) == protoc_compile_args(fds_path@, views(includes@), views(names@)),
        r.cwd is None,
{
    let mut args: Vec<String> = Vec::new();
    args.push(to_string("--descriptor_set_out"));
    args.push(to_string(fds_path));
    args.push(to_string("--include_imports"));
    args.push(to_string("--include_source_info"));
    let ghost head = views(args@);
    assert(head =~= seq!["--descriptor_set_out"@, fds_path@, "--include_imports"@, "--include_source_info"@]);
    let ghost iv = views(includes@);
    let mut i: usize = 0;
    while i < includes.len()
        invariant
            i <= includes.len(),
            iv == views(includes@),
            views(args@) == head + crate::runner::include_args(iv.take(i as int)),
        decreases includes.len() - i,
    {
        let ghost before = views(args@);
        args.push(to_string("-I"));
        args.push(to_string(includes[i].as_str()));
        proof {
            assert(iv.take(i + 1).drop_last() =~= iv.take(i as int));
            assert(iv.take(i + 1).last() == iv[i as int]);
            assert(views(args@) =~= before.push("-I"@).push(iv[i as int]));
        }
        i = i + 1;
        assert(views(args@) =~= head + crate::runner::include_args(iv.take(i as int)));
    }
    assert(iv.take(includes.len() as int) =~= iv);
    let ghost mid = views(args@);
    let mut k: usize = 0;
    while k < names.len()
        invariant
            k <= names.len(),
            views(args@) == mid + views(names@).take(k as int),
        decreases names.len() - k,
    {
        let ghost before = views(args@);
        args.push(to_string(names[k].as_str()));
        assert(views(args@) =~= before.push(views(names@)[k as int]));
        k = k + 1;
        assert(views(args@) =~= mid + views(names@).take(k as int));
    }
    assert(views(names@).take(names.len() as int) =~= views(names@));
    Invocation { program: to_string(protoc), args, cwd: None }
}

/// `buf build -o FDS`, run from the module root.
pub fn buf_build_invocation(buf: &str, module_root: &str, fds_path: &str) -> (r: Invocation)
    ensures
        r.program@ == buf@,
        views(r.args@) == seq!["build"@, "-o"@, fds_path@],
        cwd_view(r.cwd) == Some(module_root@),
{
    let mut args: Vec<String> = Vec::new();
    args.push(to_string("build"));
    args.push(to_string("-o"));
    args.push(to_string(fds_path));
    assert(views(args@) =~= seq!["build"@, "-o"@, fds_path@]);
    Invocation { program: to_string(buf), args, cwd: Some(to_string(module_root)) }
}

/// Search roots after a buf compilation: the module root, the dependency export when
/// there is one, then the given `-I` paths.
pub open spec fn buf_search_paths_spec(module_root: Seq<char>, export: Option<Seq<char>>, proto_paths: Seq<Seq<char>>) -> Seq<Seq<char>> {
    seq![module_root] + (match export {
        Some(e) => seq![e],
        None => Seq::empty(),
    }) + proto_paths
}

/// Search roots after a buf compilation.
pub fn buf_search_paths(module_root: &str, export: &Option<String>, proto_paths: &Vec<String>) -> (r: Vec<String>)
    ensures
        views(r@) == buf_search_paths_spec(
            module_root@,
            match export {
                Some(e) => Some(e@),
                None => None,
            },
            views(proto_paths@),
        ),
{
    let mut r: Vec<String> = Vec::new();
    r.push(to_string(module_root));
    match export {
        Some(e) => r.push(to_string(e.as_str())),
        None => {},
    }
    let ghost head = views(r@);
    let mut k: usize = 0;
    while k < proto_paths.len()
        invariant
            k <= proto_paths.len(),
            views(r@) == head + views(proto_paths@).take(k as int),
        decreases proto_paths.len() - k,
    {
        let ghost before = views(r@);
        r.push(to_string(proto_paths[k].as_str()));
        assert(views(r@) =~= before.push(views(proto_paths@)[k as int]));
        k = k + 1;
        assert(views(r@) =~= head + views(proto_paths@).take(k as int));
    }
    assert(views(proto_paths@).take(proto_paths.len() as int) =~= views(proto_paths@));
    assert(views(r@) =~= buf_search_paths_spec(
        module_root@,
        match export {
            Some(e) => Some(e@),
            None => None,
        },
        views(proto_paths@),
    ));
    r
}

/// Names of module files that the descriptors know, over `paths` below the module root:
/// refused at the first path that has no module name when `strict`, such paths skipped
/// otherwise.
pub open spec fn module_names_spec(root: Seq<char>, paths: Seq<Seq<char>>, files: Seq<FileDesc>, strict: bool) -> Result<
    Seq<Seq<char>>,
    Seq<char>,
>
    decreases paths.len(),
{
    if paths.len() == 0 {
        Ok(Seq::empty())
    } else {
        match module_names_spec(root, paths.drop_last(), files, strict) {
            Err(e) => Err(e),
            Ok(ns) => {
                let p = paths.last();
                match strip_spec(p, root) {
                    Some(rest) => if !rest.contains(seq!['.', '.']) {
                        if has_file_named(files, rel_name(rest)) {
                            Ok(ns.push(rel_name(rest)))
                        } else {
                            Ok(ns)
                        }
                    } else if strict {
                        Err(p)
                    } else {
                        Ok(ns)
                    },
                    None => if strict {
                        Err(p)
                    } else {
                        Ok(ns)
                    },
                }
            },
        }
    }
}

/// Requested names for a buf compilation: each path's name relative to the module root,
/// kept when the descriptors have a file of that name, then sorted and deduplicated.
/// With `strict` (paths the caller named) a path outside the root or climbing with `..`
/// is refused with its error; otherwise (files found by walking the module) it is
/// skipped.
pub fn module_proto_names(module_root: &str, paths: &Vec<String>, proto_file: &Vec<FileDesc>, strict: bool) -> (r: Result<Vec<String>, InputError>)
    ensures
        match module_names_spec(module_root@, views(paths@), proto_file@, strict) {
            Ok(ns) => r matches Ok(v) && views(v@) == sorted_unique(ns),
            Err(p) => r is Err && (match strip_spec(p, module_root@) {
                None => r matches Err(InputError::NotUnderModuleRoot(x, m)) && x@ == p && m@ == module_root@,
                Some(_) => r matches Err(InputError::InvalidPathComponent(x)) && x@ == p,
            }),
        },
{
    let ghost pv = views(paths@);
    let mut names: Vec<String> = Vec::new();
    let mut i: usize = 0;
    assert(pv.take(0) =~= Seq::<Seq<char>>::empty());
    assert(views(names@) =~= Seq::<Seq<char>>::empty());
    while i < paths.len()
        invariant
            i <= paths.len(),
            pv == views(paths@),
            module_names_spec(module_root@, pv.take(i as int), proto_file@, strict) == Ok::<Seq<Seq<char>>, Seq<char>>(
                views(names@),
            ),
        decreases paths.len() - i,
    {
        proof {
            assert(pv.take(i + 1).drop_last() =~= pv.take(i as int));
            assert(pv.take(i + 1).last() == pv[i as int]);
            assert(pv[i as int] == paths@[i as int]@);
        }
        match proto_name_relative_to_module(module_root, paths[i].as_str()) {
            Ok(n) => {
                if has_file_named_exec(proto_file, n.as_str()) {
                    let ghost before = views(names@);
                    names.push(n);
                    assert(views(names@) =~= before.push(names@[names.len() - 1]@));
                }
            },
            Err(e) => {
                if strict {
                    proof {
                        lemma_module_names_err_prefix(module_root@, pv, proto_file@, i as int);
                    }
                    return Err(e);
                }
            },
        }
        i = i + 1;
    }
    assert(pv.take(paths.len() as int) =~= pv);
    Ok(sort_dedup(&names))
}

proof fn lemma_module_names_err_prefix(root: Seq<char>, ps: Seq<Seq<char>>, files: Seq<FileDesc>, i: int)
    requires
        0 <= i < ps.len(),
        module_names_spec(root, ps.take(i + 1), files, true) == Err::<Seq<Seq<char>>, Seq<char>>(ps[i]),
    ensures
        module_names_spec(root, ps, files, true) == Err::<Seq<Seq<char>>, Seq<char>>(ps[i]),
    decreases ps.len(),
{
    if ps.len() == i + 1 {
        assert(ps.take(i + 1) =~= ps);
    } else {
        assert(ps.drop_last().take(i + 1) =~= ps.take(i + 1));
        lemma_module_names_err_prefix(root, ps.drop_last(), files, i);
    }
}

/// The path's extension is `proto` (`Path::extension`: after the last `.` of the file
/// name, a leading dot not counting).
pub open spec fn has_proto_extension(p: Seq<char>) -> bool {
    match file_name_spec(p) {
        Some(n) => {
            let i = crate::text::last_index_of(n, '.');
            i > 0 && n.skip(i + 1) == "proto"@
        },
        None => false,
    }
}

/// The path's extension is `proto`.
pub fn is_proto_path(p: &str) -> (r: bool)
    ensures
        r == has_proto_extension(p@),
{
    match file_name_of(p) {
        Some(n) => {
            let v = chars_of(n.as_str());
            match crate::text::rfind_char(&v, '.') {
                Some(i) => if i > 0 {
                    let ext = crate::text::slice_vec(&v, i + 1, v.len());
                    assert(ext@ =~= v@.skip(i + 1));
                    let e = string_of(&ext);
                    crate::text::str_eq(e.as_str(), "proto")
                } else {
                    false
                },
                None => false,
            }
        },
        None => false,
    }
}

/// A parent path is shorter than the path.
pub proof fn lemma_parent_shorter(p: Seq<char>)
    ensures
        match parent_spec(p) {
            Some(q) => q.len() < p.len(),
            None => true,
        },
    decreases p.len(),
{
    lemma_strip_trailing_len(p);
    let t = crate::proto_deps::strip_trailing_slashes(p);
    if !(t.len() == 0 || t == seq!['/']) {
        lemma_last_index_hit(t, '/');
        let i = crate::text::last_index_of(t, '/');
        if i == 0 {
            assert(t.len() >= 2) by {
                if t.len() == 1 {
                    assert(t =~= seq!['/']);
                }
            }
        }
    }
}

proof fn lemma_last_index_hit(s: Seq<char>, c: char)
    ensures
        -1 <= crate::text::last_index_of(s, c) < s.len(),
        crate::text::last_index_of(s, c) >= 0 ==> s[crate::text::last_index_of(s, c)] == c,
    decreases s.len(),
{
    if s.len() > 0 && s.last() != c {
        lemma_last_index_hit(s.drop_last(), c);
        let k = crate::text::last_index_of(s.drop_last(), c);
        if k >= 0 {
            assert(s.drop_last()[k] == s[k]);
        }
    }
}

proof fn lemma_strip_trailing_len(p: Seq<char>)
    ensures
        crate::proto_deps::strip_trailing_slashes(p).len() <= p.len(),
    decreases p.len(),
{
    if p.len() > 1 && p.last() == '/' {
        lemma_strip_trailing_len(p.drop_last());
    }
}

/// The directories that a search for a module root visits: `dir`, then each parent in
/// turn up to the top (`PathBuf::pop` until it fails).
pub open spec fn ancestors_spec(dir: Seq<char>) -> Seq<Seq<char>>
    decreases dir.len(),
{
    match parent_spec(dir) {
        None => seq![dir],
        Some(q) => {
            proof {
                lemma_parent_shorter(dir);
            }
            if q.len() < dir.len() {
                seq![dir] + ancestors_spec(q)
            } else {
                seq![dir]
            }
        },
    }
}

/// The directories that a search for a module root visits, `dir` first.
pub fn ancestor_dirs(dir: &str) -> (r: Vec<String>)
    ensures
        views(r@) == ancestors_spec(dir@),
    decreases dir@.len(),
{
    let mut r: Vec<String> = Vec::new();
    r.push(to_string(dir));
    proof {
        lemma_parent_shorter(dir@);
    }
    match parent_of(dir) {
        None => {
            assert(views(r@) =~= seq![dir@]);
            r
        },
        Some(q) => {
            let rest = ancestor_dirs(q.as_str());
            let mut k: usize = 0;
            while k < rest.len()
                invariant
                    k <= rest.len(),
                    views(r@) == seq![dir@] + views(rest@).take(k as int),
                decreases rest.len() - k,
            {
                let ghost before = views(r@);
                r.push(to_string(rest[k].as_str()));
                assert(views(r@) =~= before.push(views(rest@)[k as int]));
                k = k + 1;
                assert(views(r@) =~= seq![dir@] + views(rest@).take(k as int));
            }
            assert(views(rest@).take(rest.len() as int) =~= views(rest@));
            r
        },
    }
}

/// The module root: the first visited directory that holds `buf.yaml` or `buf.yml`
/// (`has_config[i]` tells for `dirs[i]`); refused, naming the input, when none does.
pub fn buf_module_root(dirs: &Vec<String>, has_config: &Vec<bool>, input: &str) -> (r: Result<String, InputError>)
    requires
        dirs.len() == has_config.len(),
    ensures
        match r {
            Ok(d) => exists|i: int|
                0 <= i < dirs.len() && has_config@[i] && d@ == dirs@[i]@ && forall|j: int| 0 <= j < i ==> !has_config@[j],
            Err(e) => (e matches InputError::NoBufModule(x) && x@ == input@) && forall|j: int|
                0 <= j < dirs.len() ==> !has_config@[j],
        },
{
    let mut i: usize = 0;
    while i < dirs.len()
        invariant
            i <= dirs.len() == has_config.len(),
            forall|j: int| 0 <= j < i ==> !has_config@[j],
        decreases dirs.len() - i,
    {
        if has_config[i] {
            return Ok(to_string(dirs[i].as_str()));
        }
        i = i + 1;
    }
    Err(InputError::NoBufModule(to_string(input)))
}

} // verus!
