//! Relative POSIX paths: components, joining, and relative links.

use crate::text::{
    chars_eq, chars_of, copy_chars, is_single, join_chars, join_with, push_char, split_chars, split_on, starts_with,
    string_of, to_string, trim, trim_chars,
};
use vstd::prelude::*;

verus! {

/// The component `..`.
pub open spec fn dotdot() -> Seq<char> {
    seq!['.', '.']
}

/// A piece between slashes that names something (not empty, not `.`).
pub open spec fn keep_part(p: Seq<char>) -> bool {
    p.len() > 0 && p != seq!['.']
}

/// The pieces of `ps` that name something, in order.
pub open spec fn kept_parts(ps: Seq<Seq<char>>) -> Seq<Seq<char>>
    decreases ps.len(),
{
    if ps.len() == 0 {
        Seq::<Seq<char>>::empty()
    } else {
        let pre = kept_parts(ps.drop_last());
        if keep_part(ps.last()) {
            pre.push(ps.last())
        } else {
            pre
        }
    }
}

/// Components of a slash-separated path (empty pieces and `.` dropped).
pub open spec fn path_parts(p: Seq<char>) -> Seq<Seq<char>> {
    kept_parts(split_on(p, '/'))
}

/// Keeping the named pieces of two lists one after the other is keeping them of both.
pub proof fn lemma_kept_parts_concat(a: Seq<Seq<char>>, b: Seq<Seq<char>>)
    ensures
        kept_parts(a + b) == kept_parts(a) + kept_parts(b),
    decreases b.len(),
{
    if b.len() == 0 {
        assert(a + b =~= a);
        assert(kept_parts(a) + kept_parts(b) =~= kept_parts(a));
    } else {
        assert((a + b).drop_last() =~= a + b.drop_last());
        lemma_kept_parts_concat(a, b.drop_last());
        if keep_part(b.last()) {
            assert(kept_parts(a + b) =~= kept_parts(a) + kept_parts(b));
        }
    }
}

/// Pieces that all name something are kept as they are.
pub proof fn lemma_kept_parts_all(ps: Seq<Seq<char>>)
    requires
        forall|i: int| 0 <= i < ps.len() ==> keep_part(#[trigger] ps[i]),
    ensures
        kept_parts(ps) == ps,
    decreases ps.len(),
{
    if ps.len() > 0 {
        assert forall|i: int| 0 <= i < ps.drop_last().len() implies keep_part(#[trigger] ps.drop_last()[i]) by {
            assert(ps.drop_last()[i] == ps[i]);
        }
        lemma_kept_parts_all(ps.drop_last());
        assert(keep_part(ps[ps.len() - 1]));
        assert(ps.drop_last().push(ps.last()) =~= ps);
    }
}

/// The kept pieces are pieces of `ps` that name something.
pub proof fn lemma_kept_parts_from(ps: Seq<Seq<char>>)
    ensures
        forall|i: int|
            0 <= i < kept_parts(ps).len() ==> keep_part(#[trigger] kept_parts(ps)[i]) && ps.contains(kept_parts(ps)[i]),
    decreases ps.len(),
{
    if ps.len() > 0 {
        lemma_kept_parts_from(ps.drop_last());
        let pre = kept_parts(ps.drop_last());
        assert forall|i: int| 0 <= i < kept_parts(ps).len() implies keep_part(#[trigger] kept_parts(ps)[i]) && ps.contains(
            kept_parts(ps)[i],
        ) by {
            if i < pre.len() {
                assert(kept_parts(ps)[i] == pre[i]);
                let k = choose|k: int| 0 <= k < ps.drop_last().len() && ps.drop_last()[k] == pre[i];
                assert(ps[k] == pre[i]);
            } else {
                assert(kept_parts(ps)[i] == ps.last());
                assert(ps[ps.len() - 1] == ps.last());
            }
        }
    }
}

/// The components of a path name something and hold no `/`.
pub proof fn lemma_path_parts_clean(p: Seq<char>)
    ensures
        forall|i: int|
            0 <= i < path_parts(p).len() ==> keep_part(#[trigger] path_parts(p)[i]) && !path_parts(p)[i].contains('/'),
{
    crate::text::lemma_split_on_pieces(p, '/');
    lemma_kept_parts_from(split_on(p, '/'));
    assert forall|i: int| 0 <= i < path_parts(p).len() implies keep_part(#[trigger] path_parts(p)[i]) && !path_parts(
        p,
    )[i].contains('/') by {
        let x = path_parts(p)[i];
        let k = choose|k: int| 0 <= k < split_on(p, '/').len() && split_on(p, '/')[k] == x;
        assert(!split_on(p, '/')[k].contains('/'));
    }
}

/// Components that name something and hold no `/`, joined with `/`, are the components
/// of the result.
pub proof fn lemma_path_parts_join(parts: Seq<Seq<char>>)
    requires
        forall|i: int| 0 <= i < parts.len() ==> keep_part(#[trigger] parts[i]) && !parts[i].contains('/'),
    ensures
        path_parts(join_with(parts, seq!['/'])) == parts,
{
    if parts.len() == 0 {
        let e = seq![Seq::<char>::empty()];
        assert(split_on(Seq::<char>::empty(), '/') =~= e);
        assert(e.drop_last() =~= Seq::<Seq<char>>::empty());
        assert(!keep_part(e.last()));
        assert(kept_parts(e.drop_last()) =~= Seq::<Seq<char>>::empty());
    } else {
        assert forall|i: int| 0 <= i < parts.len() implies !(#[trigger] parts[i]).contains('/') by {}
        crate::text::lemma_split_join(parts, '/');
        lemma_kept_parts_all(parts);
    }
}

/// Parent directory of `p` (empty when `p` has at most one component).
pub open spec fn parent_path(p: Seq<char>) -> Seq<char> {
    let ps = path_parts(p);
    if ps.len() == 0 {
        Seq::<char>::empty()
    } else {
        join_with(ps.drop_last(), seq!['/'])
    }
}

/// Last component of `p` (empty when there is none).
pub open spec fn file_name(p: Seq<char>) -> Seq<char> {
    let ps = path_parts(p);
    if ps.len() == 0 {
        Seq::<char>::empty()
    } else {
        ps.last()
    }
}

/// Number of leading components on which `a` and `b` agree.
pub open spec fn common_len(a: Seq<Seq<char>>, b: Seq<Seq<char>>) -> nat
    decreases a.len(),
{
    if a.len() == 0 || b.len() == 0 || a[0] != b[0] {
        0
    } else {
        1 + common_len(a.drop_first(), b.drop_first())
    }
}

/// `n` copies of `..`.
pub open spec fn ups(n: nat) -> Seq<Seq<char>> {
    Seq::new(n, |_i: int| dotdot())
}

/// Relative link from directory `from_dir` to `target`.
pub open spec fn relative_path_spec(from_dir: Seq<char>, target: Seq<char>) -> Seq<char> {
    let f = path_parts(from_dir);
    let t = path_parts(target);
    let i = common_len(f, t);
    let parts = ups((f.len() - i) as nat) + t.skip(i as int);
    if parts.len() == 0 {
        file_name(target)
    } else {
        join_with(parts, seq!['/'])
    }
}

/// Whether `book_root` is the output root itself.
pub open spec fn is_dot_root(book_root: Seq<char>) -> bool {
    book_root.len() == 0 || book_root == seq!['.']
}

/// `{book_root}/{rel}`, or `rel` when `book_root` is `.` or empty.
pub open spec fn join_book_root_spec(book_root: Seq<char>, rel: Seq<char>) -> Seq<char> {
    if is_dot_root(book_root) {
        rel
    } else {
        book_root + seq!['/'] + rel
    }
}

/// Why a configured relative path was refused.
#[derive(Clone, Debug, PartialEq, Eq)]
pub enum PathError {
    /// The path starts at the filesystem root.
    Absolute(String),
    /// The path climbs out with `..`.
    ParentDir(String),
}

/// Text of a refused path.
pub open spec fn path_error_message(e: PathError) -> Seq<char> {
    match e {
        PathError::Absolute(p) => "path must be relative: "@ + p@,
        PathError::ParentDir(p) => "path must not contain `..`: "@ + p@,
    }
}

impl PathError {
    /// Human-readable description.
    pub fn message(&self) -> (m: String)
        ensures
            m@ == path_error_message(*self),
    {
        match self {
            PathError::Absolute(p) => {
                let mut m = String::new();
                m.append("path must be relative: ");
                m.append(p.as_str());
                m
            },
            PathError::ParentDir(p) => {
                let mut m = String::new();
                m.append("path must not contain `..`: ");
                m.append(p.as_str());
                m
            },
        }
    }
}

/// Outcome of normalizing a configured relative path.
pub open spec fn normalize_spec(raw: Seq<char>, default: Seq<char>) -> Result<Seq<char>, bool> {
    let t = trim(raw);
    if starts_with(t, seq!['/']) {
        Err(true)
    } else if path_parts(t).contains(dotdot()) {
        Err(false)
    } else if path_parts(t).len() == 0 {
        Ok(default)
    } else {
        Ok(join_with(path_parts(t), seq!['/']))
    }
}

/// Components of `p` (empty pieces and `.` dropped).
pub fn path_components(p: &Vec<char>) -> (r: Vec<Vec<char>>)
    ensures
        r@.map_values(|x: Vec<char>| x@) == path_parts(p@),
{
    let pieces = split_chars(p, '/');
    let ghost pv = pieces@.map_values(|x: Vec<char>| x@);
    let mut r: Vec<Vec<char>> = Vec::new();
    let mut i: usize = 0;
    while i < pieces.len()
        invariant
            i <= pieces.len(),
            pv == pieces@.map_values(|x: Vec<char>| x@),
            r@.map_values(|x: Vec<char>| x@) == kept_parts(pv.take(i as int)),
        decreases pieces.len() - i,
    {
        let piece = &pieces[i];
        let keep = piece.len() > 0 && !is_single(piece, '.');
        proof {
            assert(pv.take(i + 1).drop_last() =~= pv.take(i as int));
            assert(pv.take(i + 1).last() == piece@);
        }
        let ghost before = r@.map_values(|x: Vec<char>| x@);
        if keep {
            r.push(copy_chars(piece));
            assert(r@.map_values(|x: Vec<char>| x@) =~= before.push(piece@));
        }
        i = i + 1;
    }
    assert(pv.take(pieces.len() as int) =~= pv);
    r
}

proof fn lemma_common_len(a: Seq<Seq<char>>, b: Seq<Seq<char>>, i: int)
    requires
        0 <= i <= a.len(),
        i <= b.len(),
        forall|j: int| 0 <= j < i ==> a[j] == b[j],
        i == a.len() || i == b.len() || a[i] != b[i],
    ensures
        common_len(a, b) == i,
    decreases i,
{
    if i > 0 {
        assert(a[0] == b[0]);
        let a1 = a.drop_first();
        let b1 = b.drop_first();
        assert forall|j: int| 0 <= j < i - 1 implies a1[j] == b1[j] by {
            assert(a1[j] == a[j + 1] && b1[j] == b[j + 1]);
        }
        if i - 1 < a1.len() && i - 1 < b1.len() {
            assert(a1[i - 1] == a[i] && b1[i - 1] == b[i]);
        }
        lemma_common_len(a1, b1, i - 1);
    }
}

/// Relative POSIX path from directory `from_dir` to `target` (mdBook link form).
pub fn relative_path_from_dir(from_dir: &str, target: &str) -> (r: String)
    ensures
        r@ == relative_path_spec(from_dir@, target@),
{
    let fv = chars_of(from_dir);
    let tv = chars_of(target);
    let f = path_components(&fv);
    let t = path_components(&tv);
    let ghost fs = f@.map_values(|x: Vec<char>| x@);
    let ghost ts = t@.map_values(|x: Vec<char>| x@);
    let mut i: usize = 0;
    while i < f.len() && i < t.len() && chars_eq(&f[i], &t[i])
        invariant
            i <= f.len(),
            i <= t.len(),
            fs == f@.map_values(|x: Vec<char>| x@),
            ts == t@.map_values(|x: Vec<char>| x@),
            forall|j: int| 0 <= j < i ==> fs[j] == ts[j],
        decreases f.len() - i,
    {
        i = i + 1;
    }
    proof {
        lemma_common_len(fs, ts, i as int);
    }
    let mut parts: Vec<Vec<char>> = Vec::new();
    let n_up = f.len() - i;
    let mut k: usize = 0;
    while k < n_up
        invariant
            k <= n_up,
            parts@.map_values(|x: Vec<char>| x@) == ups(k as nat),
        decreases n_up - k,
    {
        let mut up: Vec<char> = Vec::new();
        up.push('.');
        up.push('.');
        let ghost before = parts@.map_values(|x: Vec<char>| x@);
        parts.push(up);
        k = k + 1;
        assert(parts@.map_values(|x: Vec<char>| x@) =~= ups(k as nat)) by {
            assert(up@ =~= dotdot());
            assert(before.push(up@) =~= ups(k as nat));
        }
    }
    let mut j: usize = i;
    while j < t.len()
        invariant
            i <= j <= t.len(),
            ts == t@.map_values(|x: Vec<char>| x@),
            parts@.map_values(|x: Vec<char>| x@) == ups(n_up as nat) + ts.subrange(i as int, j as int),
        decreases t.len() - j,
    {
        let ghost before = parts@.map_values(|x: Vec<char>| x@);
        parts.push(copy_chars(&t[j]));
        j = j + 1;
        assert(parts@.map_values(|x: Vec<char>| x@) =~= before.push(ts[j - 1]));
        assert(parts@.map_values(|x: Vec<char>| x@) =~= ups(n_up as nat) + ts.subrange(i as int, j as int));
    }
    assert(ts.subrange(i as int, t.len() as int) =~= ts.skip(i as int));
    if parts.len() == 0 {
        if t.len() == 0 {
            String::new()
        } else {
            string_of(&t[t.len() - 1])
        }
    } else {
        let mut sep: Vec<char> = Vec::new();
        sep.push('/');
        let joined = join_chars(&parts, &sep);
        assert(sep@ =~= seq!['/']);
        string_of(&joined)
    }
}

/// Parent directory of `p` (`Path::parent`, as a normalized relative path).
pub fn parent_dir(p: &str) -> (r: String)
    ensures
        r@ == parent_path(p@),
{
    let pv = chars_of(p);
    let mut parts = path_components(&pv);
    if parts.len() == 0 {
        return String::new();
    }
    let ghost before = parts@.map_values(|x: Vec<char>| x@);
    parts.pop();
    assert(parts@.map_values(|x: Vec<char>| x@) =~= before.drop_last());
    let mut sep: Vec<char> = Vec::new();
    sep.push('/');
    assert(sep@ =~= seq!['/']);
    let joined = join_chars(&parts, &sep);
    string_of(&joined)
}

/// Last component of `p` (`Path::file_name`).
pub fn file_name_of(p: &str) -> (r: String)
    ensures
        r@ == file_name(p@),
{
    let pv = chars_of(p);
    let parts = path_components(&pv);
    if parts.len() == 0 {
        String::new()
    } else {
        string_of(&parts[parts.len() - 1])
    }
}

/// `{book_root}/{rel}` under the output root; `rel` alone when `book_root` is `.`.
pub fn join_book_root(book_root: &str, rel: &str) -> (r: String)
    ensures
        r@ == join_book_root_spec(book_root@, rel@),
{
    let b = chars_of(book_root);
    if b.len() == 0 || is_single(&b, '.') {
        return to_string(rel);
    }
    let mut r = to_string(book_root);
    push_char(&mut r, '/');
    r.append(rel);
    r
}

/// Normalize a relative path option: trims, drops `.` and empty components, rejects
/// absolute paths and `..`; an empty result becomes `default`.
pub fn normalize_rel_path(raw: &str, default: &str) -> (r: Result<String, PathError>)
    ensures
        match r {
            Ok(s) => normalize_spec(raw@, default@) == Ok::<Seq<char>, bool>(s@),
            Err(PathError::Absolute(s)) => normalize_spec(raw@, default@) == Err::<Seq<char>, bool>(
                true,
            ) && s@ == raw@,
            Err(PathError::ParentDir(s)) => normalize_spec(raw@, default@) == Err::<Seq<char>, bool>(
                false,
            ) && s@ == raw@,
        },
{
    let v = chars_of(raw);
    let t = trim_chars(&v);
    if t.len() > 0 && t[0] == '/' {
        assert(starts_with(t@, seq!['/'])) by {
            assert(t@.take(1) =~= seq!['/']);
        }
        return Err(PathError::Absolute(to_string(raw)));
    }
    assert(!starts_with(t@, seq!['/'])) by {
        if t@.len() > 0 {
            assert(t@.take(1)[0] == t@[0]);
        }
    }
    let parts = path_components(&t);
    let ghost ps = parts@.map_values(|x: Vec<char>| x@);
    let mut i: usize = 0;
    while i < parts.len()
        invariant
            i <= parts.len(),
            ps == parts@.map_values(|x: Vec<char>| x@),
            ps == path_parts(t@),
            t@ == trim(raw@),
            !starts_with(t@, seq!['/']),
            forall|j: int| 0 <= j < i ==> ps[j] != dotdot(),
        decreases parts.len() - i,
    {
        let p = &parts[i];
        assert(ps[i as int] == parts@[i as int]@);
        if p.len() == 2 && p[0] == '.' && p[1] == '.' {
            assert(ps[i as int] =~= dotdot());
            assert(ps.contains(dotdot()));
            assert(normalize_spec(raw@, default@) == Err::<Seq<char>, bool>(false));
            return Err(PathError::ParentDir(to_string(raw)));
        }
        assert(ps[i as int] != dotdot()) by {
            if ps[i as int].len() == 2 {
                assert(ps[i as int][0] == p@[0]);
            }
        }
        i = i + 1;
    }
    assert(!ps.contains(dotdot()));
    if parts.len() == 0 {
        return Ok(to_string(default));
    }
    let mut sep: Vec<char> = Vec::new();
    sep.push('/');
    assert(sep@ =~= seq!['/']);
    let joined = join_chars(&parts, &sep);
    Ok(string_of(&joined))
}

} // verus!
