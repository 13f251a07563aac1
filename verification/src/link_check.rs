//! Relative Markdown links of a generated documentation tree, resolved against the
//! files of the tree.

use crate::decimal::{dec, decimal};
use crate::links::{heading_ids_spec, id_spec, package_layout_link_spec, unique_heading_ids};
use crate::markdown::{lines, lines_of};
use crate::paths::{dotdot, parent_path, path_components, path_parts};
use crate::text::{
    chars_eq, chars_of, find_from, join_chars, join_with, occurs_at, slice_vec, split_on, starts_with,
    str_starts_with, string_of, to_string, trim, trim_chars, views,
};
use vstd::prelude::*;

verus! {

/// A broken link.
pub struct LinkError {
    /// The page holding the link.
    pub file: String,
    pub target: String,
    pub message: String,
}

/// Index of the first occurrence of `p` in `s`, or `-1`.
pub open spec fn find_first(s: Seq<char>, p: Seq<char>) -> int
    decreases s.len(),
{
    if s.len() < p.len() {
        -1
    } else if s.take(p.len() as int) == p {
        0
    } else if s.len() == 0 {
        -1
    } else {
        let r = find_first(s.drop_first(), p);
        if r < 0 {
            -1
        } else {
            r + 1
        }
    }
}

proof fn lemma_find_first(s: Seq<char>, p: Seq<char>, i: int)
    requires
        p.len() > 0,
        -1 <= i,
        i >= 0 ==> occurs_at(s, p, i),
        forall|j: int| 0 <= j && (i < 0 || j < i) ==> !occurs_at(s, p, j),
    ensures
        find_first(s, p) == i,
    decreases s.len(),
{
    if s.len() < p.len() {
    } else if s.take(p.len() as int) == p {
        assert(s.subrange(0, p.len() as int) =~= s.take(p.len() as int));
        assert(occurs_at(s, p, 0));
    } else {
        assert(!occurs_at(s, p, 0)) by {
            assert(s.subrange(0, p.len() as int) =~= s.take(p.len() as int));
        }
        let t = s.drop_first();
        assert forall|j: int| 0 <= j && (i - 1 < 0 || j < i - 1) implies !occurs_at(t, p, j) by {
            assert(!occurs_at(s, p, j + 1));
            if j + p.len() <= t.len() {
                assert(t.subrange(j, j + p.len()) =~= s.subrange(j + 1, j + 1 + p.len()));
            }
        }
        if i >= 1 {
            assert(t.subrange(i - 1, i - 1 + p.len()) =~= s.subrange(i, i + p.len()));
            lemma_find_first(t, p, i - 1);
        } else {
            lemma_find_first(t, p, -1);
        }
    }
}

fn find_first_exec(s: &Vec<char>, p: &Vec<char>) -> (r: Option<usize>)
    requires
        p.len() > 0,
    ensures
        match r {
            Some(i) => find_first(s@, p@) == i as int && i + p.len() <= s.len(),
            None => find_first(s@, p@) == -1,
        },
{
    match find_from(s, p, 0) {
        Some(i) => {
            proof {
                lemma_find_first(s@, p@, i as int);
            }
            assert(occurs_at(s@, p@, i as int));
            Some(i)
        },
        None => {
            proof {
                lemma_find_first(s@, p@, -1);
            }
            None
        },
    }
}

/// Link targets of one line: each `](target)` preceded by a `[` on the line.
pub open spec fn line_links(rest: Seq<char>) -> Seq<Seq<char>>
    decreases rest.len(),
{
    let s = find_first(rest, seq![']', '(']);
    if s < 0 || s + 2 > rest.len() || !rest.take(s).contains('[') {
        Seq::empty()
    } else {
        let ts = s + 2;
        let e = find_first(rest.skip(ts), seq![')']);
        if e < 0 || ts + e + 1 > rest.len() {
            Seq::empty()
        } else {
            seq![rest.subrange(ts, ts + e)] + line_links(rest.skip(ts + e + 1))
        }
    }
}

/// Link targets of the lines `ls`, each with its 1-based line number.
pub open spec fn links_of_lines(ls: Seq<Seq<char>>) -> Seq<(Seq<char>, int)>
    decreases ls.len(),
{
    if ls.len() == 0 {
        Seq::empty()
    } else {
        let n = ls.len() as int;
        links_of_lines(ls.drop_last()) + line_links(ls.last()).map_values(|t: Seq<char>| (t, n))
    }
}

fn has_open_bracket(v: &Vec<char>, hi: usize) -> (r: bool)
    requires
        hi <= v.len(),
    ensures
        r == v@.take(hi as int).contains('['),
{
    let mut i: usize = 0;
    while i < hi
        invariant
            i <= hi <= v.len(),
            forall|j: int| 0 <= j < i ==> v@[j] != '[',
        decreases hi - i,
    {
        if v[i] == '[' {
            assert(v@.take(hi as int)[i as int] == '[');
            return true;
        }
        i = i + 1;
    }
    assert forall|j: int| 0 <= j < hi implies v@.take(hi as int)[j] != '[' by {}
    false
}

fn line_links_exec(line: &Vec<char>) -> (r: Vec<Vec<char>>)
    ensures
        r@.map_values(|x: Vec<char>| x@) == line_links(line@),
{
    let open = chars_of("](");
    let close = chars_of(")");
    proof {
        reveal_strlit("](");
        reveal_strlit(")");
        assert(open@ =~= seq![']', '(']);
        assert(close@ =~= seq![')']);
    }
    let mut out: Vec<Vec<char>> = Vec::new();
    let mut rest = slice_vec(line, 0, line.len());
    assert(rest@ =~= line@);
    loop
        invariant
            open@ == seq![']', '('],
            close@ == seq![')'],
            out@.map_values(|x: Vec<char>| x@) + line_links(rest@) == line_links(line@),
        decreases rest.len(),
    {
        let ghost before = out@.map_values(|x: Vec<char>| x@);
        let s = match find_first_exec(&rest, &open) {
            Some(s) => s,
            None => {
                assert(line_links(rest@) =~= Seq::<Seq<char>>::empty());
                assert(out@.map_values(|x: Vec<char>| x@) =~= line_links(line@));
                return out;
            },
        };
        if !has_open_bracket(&rest, s) {
            assert(line_links(rest@) =~= Seq::<Seq<char>>::empty());
            assert(out@.map_values(|x: Vec<char>| x@) =~= line_links(line@));
            return out;
        }
        let ts = s + 2;
        let tail = slice_vec(&rest, ts, rest.len());
        assert(tail@ =~= rest@.skip(ts as int));
        let e = match find_first_exec(&tail, &close) {
            Some(e) => e,
            None => {
                assert(line_links(rest@) =~= Seq::<Seq<char>>::empty());
                assert(out@.map_values(|x: Vec<char>| x@) =~= line_links(line@));
                return out;
            },
        };
        let target = slice_vec(&rest, ts, ts + e);
        let next = slice_vec(&rest, ts + e + 1, rest.len());
        assert(next@ =~= rest@.skip(ts + e + 1));
        assert(line_links(rest@) == seq![target@] + line_links(next@));
        out.push(target);
        assert(out@.map_values(|x: Vec<char>| x@) =~= before.push(target@));
        rest = next;
        assert(out@.map_values(|x: Vec<char>| x@) + line_links(rest@) =~= line_links(line@));
    }
}

/// Link targets of `content`, each with its 1-based line number.
pub open spec fn links_spec(content: Seq<char>) -> Seq<(Seq<char>, int)> {
    links_of_lines(lines_of(content))
}

/// Link targets of `content` (`[label](target)`), each with its 1-based line number.
pub fn extract_links(content: &str) -> (r: Vec<(String, usize)>)
    ensures
        r@.map_values(|p: (String, usize)| (p.0@, p.1 as int)) == links_spec(content@),
{
    let ls = lines(&chars_of(content));
    let ghost lv = ls@.map_values(|x: Vec<char>| x@);
    let mut out: Vec<(String, usize)> = Vec::new();
    let mut i: usize = 0;
    while i < ls.len()
        invariant
            i <= ls.len(),
            lv == ls@.map_values(|x: Vec<char>| x@),
            out@.map_values(|p: (String, usize)| (p.0@, p.1 as int)) == links_of_lines(lv.take(i as int)),
        decreases ls.len() - i,
    {
        let targets = line_links_exec(&ls[i]);
        let ghost tv = targets@.map_values(|x: Vec<char>| x@);
        let ghost base = out@.map_values(|p: (String, usize)| (p.0@, p.1 as int));
        let n = i + 1;
        let mut k: usize = 0;
        while k < targets.len()
            invariant
                k <= targets.len(),
                n == i + 1,
                tv == targets@.map_values(|x: Vec<char>| x@),
                out@.map_values(|p: (String, usize)| (p.0@, p.1 as int)) == base + tv.take(k as int).map_values(
                    |t: Seq<char>| (t, n as int),
                ),
            decreases targets.len() - k,
        {
            let ghost b2 = out@.map_values(|p: (String, usize)| (p.0@, p.1 as int));
            out.push((string_of(&targets[k]), n));
            k = k + 1;
            assert(out@.map_values(|p: (String, usize)| (p.0@, p.1 as int)) =~= base + tv.take(k as int).map_values(
                |t: Seq<char>| (t, n as int),
            )) by {
                assert(out@.map_values(|p: (String, usize)| (p.0@, p.1 as int)) =~= b2.push((tv[k - 1], n as int)));
            }
        }
        proof {
            assert(tv.take(targets.len() as int) =~= tv);
            assert(lv.take(i + 1).drop_last() =~= lv.take(i as int));
            assert(lv.take(i + 1).last() == ls@[i as int]@);
        }
        i = i + 1;
    }
    assert(lv.take(ls.len() as int) =~= lv);
    out
}

/// Number of leading `#` of `s`.
pub open spec fn hash_run(s: Seq<char>) -> nat
    decreases s.len(),
{
    if s.len() > 0 && s[0] == '#' {
        1 + hash_run(s.drop_first())
    } else {
        0
    }
}

/// Heading titles of the lines `ls`: the text after the leading hashes of each
/// trimmed line that starts with `#`.
pub open spec fn heading_titles(ls: Seq<Seq<char>>) -> Seq<Seq<char>>
    decreases ls.len(),
{
    if ls.len() == 0 {
        Seq::empty()
    } else {
        let pre = heading_titles(ls.drop_last());
        let t = trim(ls.last());
        let h = hash_run(t);
        if h == 0 {
            pre
        } else {
            pre.push(trim(t.skip(h as int)))
        }
    }
}

/// mdBook heading ids of a page.
pub open spec fn heading_ids_of(content: Seq<char>) -> Seq<Seq<char>> {
    heading_ids_spec(heading_titles(lines_of(content)))
}

proof fn lemma_hash_run(s: Seq<char>, k: nat)
    requires
        k <= s.len(),
        forall|j: int| 0 <= j < k ==> s[j] == '#',
        k == s.len() || s[k as int] != '#',
    ensures
        hash_run(s) == k,
    decreases k,
{
    if k > 0 {
        let t = s.drop_first();
        assert forall|j: int| 0 <= j < k - 1 implies t[j] == '#' by {
            assert(t[j] == s[j + 1]);
        }
        if k < s.len() {
            assert(t[k - 1] == s[k as int]);
        }
        lemma_hash_run(t, (k - 1) as nat);
    }
}

/// mdBook heading ids of a page, in document order.
pub fn extract_heading_ids(content: &str) -> (r: Vec<String>)
    ensures
        views(r@) == heading_ids_of(content@),
{
    let ls = lines(&chars_of(content));
    let ghost lv = ls@.map_values(|x: Vec<char>| x@);
    let mut titles: Vec<String> = Vec::new();
    let mut i: usize = 0;
    while i < ls.len()
        invariant
            i <= ls.len(),
            lv == ls@.map_values(|x: Vec<char>| x@),
            views(titles@) == heading_titles(lv.take(i as int)),
        decreases ls.len() - i,
    {
        let t = trim_chars(&ls[i]);
        let mut h: usize = 0;
        while h < t.len() && t[h] == '#'
            invariant
                h <= t.len(),
                forall|j: int| 0 <= j < h ==> t@[j] == '#',
            decreases t.len() - h,
        {
            h = h + 1;
        }
        proof {
            lemma_hash_run(t@, h as nat);
            assert(lv.take(i + 1).drop_last() =~= lv.take(i as int));
            assert(lv.take(i + 1).last() == ls@[i as int]@);
        }
        if h > 0 {
            let ghost before = views(titles@);
            let rest = slice_vec(&t, h, t.len());
            assert(rest@ =~= t@.skip(h as int));
            titles.push(string_of(&trim_chars(&rest)));
            assert(views(titles@) =~= before.push(trim(t@.skip(h as int))));
        }
        i = i + 1;
    }
    assert(lv.take(ls.len() as int) =~= lv);
    unique_heading_ids(&titles)
}

/// `(file part, anchor)` of a link target, split at the first `#`.
pub open spec fn split_anchor_spec(target: Seq<char>) -> (Seq<char>, Option<Seq<char>>) {
    let i = find_first(target, seq!['#']);
    if i < 0 || i >= target.len() {
        (target, None)
    } else {
        (target.take(i), Some(target.skip(i + 1)))
    }
}

/// `(file part, anchor)` of a link target, split at the first `#`.
pub fn split_anchor(target: &str) -> (r: (String, Option<String>))
    ensures
        r.0@ == split_anchor_spec(target@).0,
        match split_anchor_spec(target@).1 {
            Some(a) => r.1 matches Some(s) && s@ == a,
            None => r.1 is None,
        },
{
    let v = chars_of(target);
    let mut hash: Vec<char> = Vec::new();
    hash.push('#');
    assert(hash@ =~= seq!['#']);
    match find_first_exec(&v, &hash) {
        Some(i) => {
            let f = slice_vec(&v, 0, i);
            let a = slice_vec(&v, i + 1, v.len());
            assert(f@ =~= target@.take(i as int));
            assert(a@ =~= target@.skip(i + 1));
            (string_of(&f), Some(string_of(&a)))
        },
        None => (to_string(target), None),
    }
}

/// `path` with each `..` cancelling the component before it (kept when there is none).
pub open spec fn resolve_parts(ps: Seq<Seq<char>>) -> Seq<Seq<char>>
    decreases ps.len(),
{
    if ps.len() == 0 {
        Seq::empty()
    } else {
        let pre = resolve_parts(ps.drop_last());
        if ps.last() == dotdot() && pre.len() > 0 && pre.last() != dotdot() {
            pre.drop_last()
        } else {
            pre.push(ps.last())
        }
    }
}

/// The file a link on page `page` points at: the page itself for an anchor-only link,
/// else the link joined to the page's directory.
pub open spec fn link_file(page: Seq<char>, file_part: Seq<char>) -> Seq<char> {
    if file_part.len() == 0 {
        page
    } else if parent_path(page).len() == 0 {
        file_part
    } else {
        parent_path(page) + seq!['/'] + file_part
    }
}

/// A file of the tree is at `p` (`..` resolved against the components before it).
pub open spec fn file_exists(all_paths: Seq<Seq<char>>, p: Seq<char>) -> bool {
    exists|i: int| 0 <= i < all_paths.len() && resolve_parts(path_parts(all_paths[i])) == resolve_parts(path_parts(p))
}

/// Heading ids of the page whose components are those of `p` (none when no page is).
pub open spec fn headings_at(pages: Seq<(String, String)>, p: Seq<char>) -> Seq<Seq<char>>
    decreases pages.len(),
{
    if pages.len() == 0 {
        Seq::empty()
    } else if path_parts(pages.last().0@) == path_parts(p) {
        heading_ids_of(pages.last().1@)
    } else {
        headings_at(pages.drop_last(), p)
    }
}

/// A target outside the tree (web or mail).
pub open spec fn is_external(t: Seq<char>) -> bool {
    starts_with(t, "http://"@) || starts_with(t, "https://"@) || starts_with(t, "mailto:"@)
}

/// Problem with one link, if any: its file is missing, or its anchor names no heading
/// of that file.
pub open spec fn link_problem(
    pages: Seq<(String, String)>,
    all_paths: Seq<Seq<char>>,
    page: Seq<char>,
    target: Seq<char>,
    line: int,
) -> Option<Seq<char>> {
    if is_external(target) {
        None
    } else {
        let sp = split_anchor_spec(target);
        let f = link_file(page, sp.0);
        if !file_exists(all_paths, f) {
            Some("broken link at line "@ + dec(line as nat) + ": file not found"@)
        } else {
            match sp.1 {
                Some(a) => if headings_at(pages, f).contains(a) {
                    None
                } else {
                    Some("broken anchor #"@ + a + " at line "@ + dec(line as nat))
                },
                None => None,
            }
        }
    }
}

/// Broken links of one page, in order.
pub open spec fn page_errors(
    pages: Seq<(String, String)>,
    all_paths: Seq<Seq<char>>,
    page: Seq<char>,
    links: Seq<(Seq<char>, int)>,
) -> Seq<(Seq<char>, Seq<char>, Seq<char>)>
    decreases links.len(),
{
    if links.len() == 0 {
        Seq::empty()
    } else {
        let pre = page_errors(pages, all_paths, page, links.drop_last());
        let l = links.last();
        match link_problem(pages, all_paths, page, l.0, l.1) {
            Some(m) => pre.push((page, l.0, m)),
            None => pre,
        }
    }
}

/// Broken links of every page, pages in order.
pub open spec fn tree_errors(
    pages: Seq<(String, String)>,
    all_paths: Seq<Seq<char>>,
    upto: Seq<(String, String)>,
) -> Seq<(Seq<char>, Seq<char>, Seq<char>)>
    decreases upto.len(),
{
    if upto.len() == 0 {
        Seq::empty()
    } else {
        tree_errors(pages, all_paths, upto.drop_last()) + page_errors(
            pages,
            all_paths,
            upto.last().0@,
            links_spec(upto.last().1@),
        )
    }
}

/// A link error as plain values.
pub open spec fn error_view(e: LinkError) -> (Seq<char>, Seq<char>, Seq<char>) {
    (e.file@, e.target@, e.message@)
}

fn resolved_components(p: &str) -> (r: Vec<Vec<char>>)
    ensures
        r@.map_values(|x: Vec<char>| x@) == resolve_parts(path_parts(p@)),
{
    let parts = path_components(&chars_of(p));
    let ghost pv = parts@.map_values(|x: Vec<char>| x@);
    let mut dd: Vec<char> = Vec::new();
    dd.push('.');
    dd.push('.');
    assert(dd@ =~= dotdot());
    let mut out: Vec<Vec<char>> = Vec::new();
    let mut i: usize = 0;
    while i < parts.len()
        invariant
            i <= parts.len(),
            pv == parts@.map_values(|x: Vec<char>| x@),
            dd@ == dotdot(),
            out@.map_values(|x: Vec<char>| x@) == resolve_parts(pv.take(i as int)),
        decreases parts.len() - i,
    {
        let ghost before = out@.map_values(|x: Vec<char>| x@);
        proof {
            assert(pv.take(i + 1).drop_last() =~= pv.take(i as int));
            assert(pv.take(i + 1).last() == parts@[i as int]@);
        }
        let up = chars_eq(&parts[i], &dd);
        if up && out.len() > 0 && !chars_eq(&out[out.len() - 1], &dd) {
            assert(before.last() == out@[out.len() - 1]@);
            out.pop();
            assert(out@.map_values(|x: Vec<char>| x@) =~= before.drop_last());
        } else {
            assert(out.len() > 0 ==> before.last() == out@[out.len() - 1]@);
            let c = slice_vec(&parts[i], 0, parts[i].len());
            assert(c@ =~= pv[i as int]);
            out.push(c);
            assert(out@.map_values(|x: Vec<char>| x@) =~= before.push(pv[i as int]));
        }
        i = i + 1;
    }
    assert(pv.take(parts.len() as int) =~= pv);
    out
}

fn same_parts(a: &Vec<Vec<char>>, b: &Vec<Vec<char>>) -> (r: bool)
    ensures
        r == (a@.map_values(|x: Vec<char>| x@) == b@.map_values(|x: Vec<char>| x@)),
{
    let ghost av = a@.map_values(|x: Vec<char>| x@);
    let ghost bv = b@.map_values(|x: Vec<char>| x@);
    if a.len() != b.len() {
        assert(av.len() != bv.len());
        return false;
    }
    let mut i: usize = 0;
    while i < a.len()
        invariant
            i <= a.len() == b.len(),
            av == a@.map_values(|x: Vec<char>| x@),
            bv == b@.map_values(|x: Vec<char>| x@),
            forall|j: int| 0 <= j < i ==> av[j] == bv[j],
        decreases a.len() - i,
    {
        assert(av[i as int] == a@[i as int]@ && bv[i as int] == b@[i as int]@);
        if !chars_eq(&a[i], &b[i]) {
            assert(av[i as int] != bv[i as int]);
            return false;
        }
        i = i + 1;
    }
    assert(av =~= bv);
    true
}

fn file_exists_exec(all_paths: &Vec<String>, p: &str) -> (r: bool)
    ensures
        r == file_exists(views(all_paths@), p@),
{
    let want = resolved_components(p);
    let mut i: usize = 0;
    while i < all_paths.len()
        invariant
            i <= all_paths.len(),
            want@.map_values(|x: Vec<char>| x@) == resolve_parts(path_parts(p@)),
            forall|j: int| 0 <= j < i ==> resolve_parts(path_parts(#[trigger] views(all_paths@)[j])) != resolve_parts(path_parts(p@)),
        decreases all_paths.len() - i,
    {
        assert(views(all_paths@)[i as int] == all_paths@[i as int]@);
        if same_parts(&resolved_components(all_paths[i].as_str()), &want) {
            return true;
        }
        i = i + 1;
    }
    false
}

fn headings_at_exec(pages: &Vec<(String, String)>, p: &str) -> (r: Vec<String>)
    ensures
        views(r@) == headings_at(pages@, p@),
{
    let want = path_components(&chars_of(p));
    let mut k: usize = pages.len();
    assert(pages@.take(k as int) =~= pages@);
    while k > 0
        invariant
            k <= pages.len(),
            want@.map_values(|x: Vec<char>| x@) == path_parts(p@),
            headings_at(pages@, p@) == headings_at(pages@.take(k as int), p@),
        decreases k,
    {
        assert(pages@.take(k as int).last() == pages@[k - 1]);
        assert(pages@.take(k as int).drop_last() =~= pages@.take(k - 1));
        if same_parts(&path_components(&chars_of(pages[k - 1].0.as_str())), &want) {
            return extract_heading_ids(pages[k - 1].1.as_str());
        }
        k = k - 1;
    }
    Vec::new()
}

fn contains_string(v: &Vec<String>, s: &str) -> (r: bool)
    ensures
        r == views(v@).contains(s@),
{
    let mut i: usize = 0;
    while i < v.len()
        invariant
            i <= v.len(),
            forall|j: int| 0 <= j < i ==> views(v@)[j] != s@,
        decreases v.len() - i,
    {
        if crate::text::str_eq(v[i].as_str(), s) {
            assert(views(v@)[i as int] == s@);
            return true;
        }
        i = i + 1;
    }
    false
}

fn link_file_exec(page: &str, file_part: &str) -> (r: String)
    ensures
        r@ == link_file(page@, file_part@),
{
    if file_part.unicode_len() == 0 {
        return to_string(page);
    }
    let parent = crate::paths::parent_dir(page);
    if parent.as_str().unicode_len() == 0 {
        to_string(file_part)
    } else {
        let mut r = parent;
        crate::text::push_char(&mut r, '/');
        r.append(file_part);
        r
    }
}

fn check_link(
    pages: &Vec<(String, String)>,
    all_paths: &Vec<String>,
    page: &str,
    target: &str,
    line: usize,
) -> (r: Option<String>)
    ensures
        match link_problem(pages@, views(all_paths@), page@, target@, line as int) {
            Some(m) => r matches Some(s) && s@ == m,
            None => r is None,
        },
{
    if str_starts_with(target, "http://") || str_starts_with(target, "https://") || str_starts_with(
        target,
        "mailto:",
    ) {
        return None;
    }
    let (file_part, anchor) = split_anchor(target);
    let f = link_file_exec(page, file_part.as_str());
    if !file_exists_exec(all_paths, f.as_str()) {
        let mut m = to_string("broken link at line ");
        m.append(decimal(line as u64).as_str());
        m.append(": file not found");
        return Some(m);
    }
    match anchor {
        Some(a) => {
            let ids = headings_at_exec(pages, f.as_str());
            if contains_string(&ids, a.as_str()) {
                None
            } else {
                let mut m = to_string("broken anchor #");
                m.append(a.as_str());
                m.append(" at line ");
                m.append(decimal(line as u64).as_str());
                Some(m)
            }
        },
        None => None,
    }
}

/// Broken links of the Markdown `pages` (path relative to the tree root, content)
/// given every file path of the tree.
pub fn check_tree(pages: &Vec<(String, String)>, all_paths: &Vec<String>) -> (r: Vec<LinkError>)
    ensures
        r@.map_values(|e: LinkError| error_view(e)) == tree_errors(pages@, views(all_paths@), pages@),
{
    let mut errors: Vec<LinkError> = Vec::new();
    let mut i: usize = 0;
    while i < pages.len()
        invariant
            i <= pages.len(),
            errors@.map_values(|e: LinkError| error_view(e)) == tree_errors(pages@, views(all_paths@), pages@.take(i as int)),
        decreases pages.len() - i,
    {
        let page = pages[i].0.as_str();
        let links = extract_links(pages[i].1.as_str());
        let ghost lv = links@.map_values(|p: (String, usize)| (p.0@, p.1 as int));
        let ghost base = errors@.map_values(|e: LinkError| error_view(e));
        let mut k: usize = 0;
        while k < links.len()
            invariant
                k <= links.len(),
                lv == links@.map_values(|p: (String, usize)| (p.0@, p.1 as int)),
                errors@.map_values(|e: LinkError| error_view(e)) == base + page_errors(
                    pages@,
                    views(all_paths@),
                    page@,
                    lv.take(k as int),
                ),
            decreases links.len() - k,
        {
            let ghost b2 = errors@.map_values(|e: LinkError| error_view(e));
            let target = links[k].0.as_str();
            match check_link(pages, all_paths, page, target, links[k].1) {
                Some(m) => {
                    errors.push(LinkError { file: to_string(page), target: to_string(target), message: m });
                    assert(errors@.map_values(|e: LinkError| error_view(e)) =~= b2.push((page@, target@, m@)));
                },
                None => {},
            }
            proof {
                assert(lv.take(k + 1).drop_last() =~= lv.take(k as int));
                assert(lv.take(k + 1).last() == lv[k as int]);
            }
            k = k + 1;
        }
        proof {
            assert(lv.take(links.len() as int) =~= lv);
            assert(pages@.take(i + 1).drop_last() =~= pages@.take(i as int));
            assert(pages@.take(i + 1).last() == pages@[i as int]);
        }
        i = i + 1;
    }
    assert(pages@.take(pages.len() as int) =~= pages@);
    errors
}

/// Report of broken links: a header line, then `  file: target — message` per link.
pub open spec fn report_spec(es: Seq<(Seq<char>, Seq<char>, Seq<char>)>) -> Seq<char>
    decreases es.len(),
{
    if es.len() == 0 {
        "markdown link check failed:\n"@
    } else {
        let e = es.last();
        report_spec(es.drop_last()) + "  "@ + e.0 + ": "@ + e.1 + " \u{2014} "@ + e.2 + "\n"@
    }
}

/// `Ok` when no link of the tree is broken, else the report of broken links.
pub fn assert_tree(pages: &Vec<(String, String)>, all_paths: &Vec<String>) -> (r: Result<(), String>)
    ensures
        ({
            let es = tree_errors(pages@, views(all_paths@), pages@);
            &&& es.len() == 0 ==> r is Ok
            &&& es.len() > 0 ==> (r matches Err(m) && m@ == report_spec(es))
        }),
{
    let errors = check_tree(pages, all_paths);
    if errors.len() == 0 {
        return Ok(());
    }
    let ghost ev = errors@.map_values(|e: LinkError| error_view(e));
    let mut msg = to_string("markdown link check failed:\n");
    let mut i: usize = 0;
    while i < errors.len()
        invariant
            i <= errors.len(),
            ev == errors@.map_values(|e: LinkError| error_view(e)),
            msg@ == report_spec(ev.take(i as int)),
        decreases errors.len() - i,
    {
        msg.append("  ");
        msg.append(errors[i].file.as_str());
        msg.append(": ");
        msg.append(errors[i].target.as_str());
        msg.append(" \u{2014} ");
        msg.append(errors[i].message.as_str());
        msg.append("\n");
        proof {
            assert(ev.take(i + 1).drop_last() =~= ev.take(i as int));
            assert(ev.take(i + 1).last() == ev[i as int]);
        }
        i = i + 1;
    }
    assert(ev.take(errors.len() as int) =~= ev);
    Err(msg)
}

proof fn lemma_common_prefix(a: Seq<Seq<char>>, b: Seq<Seq<char>>)
    ensures
        crate::paths::common_len(a, b) <= a.len(),
        crate::paths::common_len(a, b) <= b.len(),
        a.take(crate::paths::common_len(a, b) as int) == b.take(crate::paths::common_len(a, b) as int),
    decreases a.len(),
{
    let i = crate::paths::common_len(a, b);
    if a.len() == 0 || b.len() == 0 || a[0] != b[0] {
        assert(a.take(0) =~= b.take(0));
    } else {
        lemma_common_prefix(a.drop_first(), b.drop_first());
        let j = crate::paths::common_len(a.drop_first(), b.drop_first());
        assert(a.take(i as int) =~= seq![a[0]] + a.drop_first().take(j as int));
        assert(b.take(i as int) =~= seq![b[0]] + b.drop_first().take(j as int));
    }
}

/// No component is `..`.
pub open spec fn no_dotdot(ps: Seq<Seq<char>>) -> bool {
    forall|i: int| 0 <= i < ps.len() ==> (#[trigger] ps[i]) != dotdot()
}

proof fn lemma_resolve_append(z: Seq<Seq<char>>, c: Seq<Seq<char>>)
    requires
        no_dotdot(c),
    ensures
        resolve_parts(z + c) == resolve_parts(z) + c,
    decreases c.len(),
{
    if c.len() == 0 {
        assert(z + c =~= z);
        assert(resolve_parts(z) + c =~= resolve_parts(z));
    } else {
        assert((z + c).drop_last() =~= z + c.drop_last());
        assert(no_dotdot(c.drop_last())) by {
            assert forall|i: int| 0 <= i < c.drop_last().len() implies (#[trigger] c.drop_last()[i]) != dotdot() by {
                assert(c.drop_last()[i] == c[i]);
            }
        }
        lemma_resolve_append(z, c.drop_last());
        assert(c[c.len() - 1] != dotdot());
        assert((z + c).last() == c.last());
        assert(resolve_parts(z) + c =~= (resolve_parts(z) + c.drop_last()).push(c.last()));
    }
}

proof fn lemma_resolve_ups(a: Seq<Seq<char>>, k: nat)
    requires
        no_dotdot(a),
        k <= a.len(),
    ensures
        resolve_parts(a + crate::paths::ups(k)) == a.take(a.len() - k),
    decreases k,
{
    if k == 0 {
        assert(a + crate::paths::ups(0) =~= a);
        lemma_resolve_append(Seq::empty(), a);
        assert(Seq::<Seq<char>>::empty() + a =~= a);
        assert(resolve_parts(Seq::<Seq<char>>::empty()) =~= Seq::<Seq<char>>::empty());
        assert(a.take(a.len() as int) =~= a);
    } else {
        let k1 = (k - 1) as nat;
        lemma_resolve_ups(a, k1);
        assert((a + crate::paths::ups(k)).drop_last() =~= a + crate::paths::ups(k1));
        assert((a + crate::paths::ups(k)).last() == dotdot());
        let pre = a.take(a.len() - k1);
        assert(pre.len() > 0);
        assert(pre.last() == a[a.len() - k]);
        assert(pre.drop_last() =~= a.take(a.len() - k));
    }
}

/// A link that a page at `page` writes to `target`, relative to the page's directory
/// (as the renderer's links are), resolves under the link checker's reading to the
/// components of `target`: such links never dangle while their target is written.
pub proof fn law_relative_link_resolves(page: Seq<char>, target: Seq<char>)
    requires
        no_dotdot(path_parts(page)),
        no_dotdot(path_parts(target)),
        path_parts(target) != path_parts(parent_path(page)),
    ensures
        resolve_parts(path_parts(link_file(page, crate::paths::relative_path_spec(parent_path(page), target))))
            == resolve_parts(path_parts(target)),
{
    let pp = path_parts(page);
    let t = path_parts(target);
    crate::paths::lemma_path_parts_clean(page);
    crate::paths::lemma_path_parts_clean(target);
    let f: Seq<Seq<char>> = if pp.len() == 0 {
        Seq::empty()
    } else {
        pp.drop_last()
    };
    let d = parent_path(page);
    assert forall|i: int| 0 <= i < f.len() implies crate::paths::keep_part(#[trigger] f[i]) && !f[i].contains('/')
        && f[i] != dotdot() by {
        assert(f[i] == pp[i]);
    }
    if pp.len() > 0 {
        crate::paths::lemma_path_parts_join(f);
    } else {
        assert(d =~= Seq::<char>::empty());
        crate::paths::lemma_path_parts_join(f);
        assert(join_with(f, seq!['/']) =~= Seq::<char>::empty());
    }
    assert(path_parts(d) == f);
    lemma_common_prefix(f, t);
    let i = crate::paths::common_len(f, t);
    let k = (f.len() - i) as nat;
    let rest = t.skip(i as int);
    let parts = crate::paths::ups(k) + rest;
    assert(parts.len() > 0) by {
        if parts.len() == 0 {
            assert(f =~= f.take(i as int));
            assert(t =~= t.take(i as int));
        }
    }
    assert forall|j: int| 0 <= j < parts.len() implies crate::paths::keep_part(#[trigger] parts[j]) && !parts[j].contains(
        '/',
    ) by {
        if j < k {
            assert(parts[j] == dotdot());
            assert(!dotdot().contains('/')) by {
                if dotdot().contains('/') {
                    let q = choose|q: int| 0 <= q < dotdot().len() && dotdot()[q] == '/';
                }
            }
        } else {
            assert(parts[j] == t[j - k + i]);
        }
    }
    let rel = join_with(parts, seq!['/']);
    crate::paths::lemma_path_parts_join(parts);
    assert(crate::paths::relative_path_spec(d, target) == rel);
    assert(rel.len() > 0) by {
        if rel.len() == 0 {
            assert(rel =~= Seq::<char>::empty());
            crate::paths::lemma_path_parts_join(Seq::<Seq<char>>::empty());
            assert(join_with(Seq::<Seq<char>>::empty(), seq!['/']) =~= Seq::<char>::empty());
        }
    }
    assert(no_dotdot(rest)) by {
        assert forall|j: int| 0 <= j < rest.len() implies (#[trigger] rest[j]) != dotdot() by {
            assert(rest[j] == t[j + i]);
        }
    }
    assert(no_dotdot(f));
    if d.len() == 0 {
        assert(f.len() == 0) by {
            if f.len() > 0 {
                crate::paths::lemma_path_parts_join(Seq::<Seq<char>>::empty());
                assert(d =~= join_with(Seq::<Seq<char>>::empty(), seq!['/']));
            }
        }
        assert(link_file(page, rel) == rel);
        assert(i == 0);
        assert(parts =~= t.skip(0));
        assert(t.skip(0) =~= t);
        lemma_resolve_append(Seq::empty(), t);
        assert(Seq::<Seq<char>>::empty() + t =~= t);
        assert(resolve_parts(Seq::<Seq<char>>::empty()) =~= Seq::<Seq<char>>::empty());
        assert(Seq::<Seq<char>>::empty() + parts =~= parts);
        lemma_resolve_append(Seq::empty(), parts);
    } else {
        let lf = d + seq!['/'] + rel;
        assert(link_file(page, rel) == lf);
        crate::text::lemma_split_on_concat(d, rel, '/');
        crate::paths::lemma_kept_parts_concat(split_on(d, '/'), split_on(rel, '/'));
        assert(path_parts(lf) == f + parts);
        assert(f + parts =~= (f + crate::paths::ups(k)) + rest);
        lemma_resolve_append(f + crate::paths::ups(k), rest);
        lemma_resolve_ups(f, k);
        assert(f.take(f.len() - k) =~= f.take(i as int));
        assert(t.take(i as int) + rest =~= t);
        lemma_resolve_append(Seq::empty(), t);
        assert(Seq::<Seq<char>>::empty() + t =~= t);
        assert(resolve_parts(Seq::<Seq<char>>::empty()) =~= Seq::<Seq<char>>::empty());
    }
}


/// In the package layout, a link to an entity documented on another page names a file
/// that, read relative to the linking page's directory as the link checker reads it,
/// is that other page, followed by the entity's heading id; a link to an entity on the
/// same page is only that heading id.
pub proof fn law_package_layout_links_reach_their_page(from: Seq<char>, target: Seq<char>, name: Seq<char>)
    ensures
        path_parts(from) == path_parts(target) ==> package_layout_link_spec(from, target, name) == seq!['['] + name
            + seq![']', '(', '#'] + id_spec(name) + seq![')'],
        no_dotdot(path_parts(from)) && no_dotdot(path_parts(target)) && path_parts(target) != path_parts(
            parent_path(from),
        ) && path_parts(from) != path_parts(target) ==> exists|d: Seq<char>|
            package_layout_link_spec(from, target, name) == seq!['['] + name + seq![']', '('] + d + seq!['#']
                + id_spec(name) + seq![')'] && resolve_parts(path_parts(link_file(from, d))) == resolve_parts(
                path_parts(target),
            ),
{
    if no_dotdot(path_parts(from)) && no_dotdot(path_parts(target)) && path_parts(target) != path_parts(
        parent_path(from),
    ) && path_parts(from) != path_parts(target) {
        let d = crate::paths::relative_path_spec(parent_path(from), target);
        law_relative_link_resolves(from, target);
        assert(package_layout_link_spec(from, target, name) == seq!['['] + name + seq![']', '('] + d + seq!['#']
            + id_spec(name) + seq![')']);
    }
}

/// `headings_at` reads the last page whose path has the components asked for.
proof fn lemma_headings_at_last(pages: Seq<(String, String)>, p: Seq<char>, i: int)
    requires
        0 <= i < pages.len(),
        path_parts(pages[i].0@) == path_parts(p),
        forall|j: int| i < j < pages.len() ==> path_parts((#[trigger] pages[j]).0@) != path_parts(p),
    ensures
        headings_at(pages, p) == heading_ids_of(pages[i].1@),
    decreases pages.len(),
{
    if i < pages.len() - 1 {
        let pre = pages.drop_last();
        assert(path_parts(pages[pages.len() - 1].0@) != path_parts(p));
        assert forall|j: int| i < j < pre.len() implies path_parts((#[trigger] pre[j]).0@) != path_parts(p) by {
            assert(pre[j] == pages[j]);
        }
        lemma_headings_at_last(pre, p, i);
    }
}

/// A link `file#anchor` whose file exists is reported broken exactly when the anchor
/// is not a heading id of the page it leads to (the last page written at that path),
/// whichever page writes the link.
pub proof fn law_anchor_is_checked_on_the_target_page(
    pages: Seq<(String, String)>,
    all_paths: Seq<Seq<char>>,
    page: Seq<char>,
    target: Seq<char>,
    line: int,
    file: Seq<char>,
    anchor: Seq<char>,
    i: int,
)
    requires
        !is_external(target),
        split_anchor_spec(target) == (file, Some(anchor)),
        file_exists(all_paths, link_file(page, file)),
        0 <= i < pages.len(),
        path_parts(pages[i].0@) == path_parts(link_file(page, file)),
        forall|j: int| i < j < pages.len() ==> path_parts((#[trigger] pages[j]).0@) != path_parts(link_file(page, file)),
    ensures
        link_problem(pages, all_paths, page, target, line) is None <==> heading_ids_of(pages[i].1@).contains(anchor),
{
    lemma_headings_at_last(pages, link_file(page, file), i);
}


/// Web and mail links are never reported; any other link is reported when its file
/// (read relative to the linking page's directory) is missing, and a link to an
/// existing file with no anchor is not reported.
pub proof fn law_link_reported_when_file_missing(
    pages: Seq<(String, String)>,
    all_paths: Seq<Seq<char>>,
    page: Seq<char>,
    target: Seq<char>,
    line: int,
)
    ensures
        is_external(target) ==> link_problem(pages, all_paths, page, target, line) is None,
        !is_external(target) && !file_exists(all_paths, link_file(page, split_anchor_spec(target).0)) ==> link_problem(
            pages,
            all_paths,
            page,
            target,
            line,
        ) is Some,
        !is_external(target) && file_exists(all_paths, link_file(page, split_anchor_spec(target).0))
            && split_anchor_spec(target).1 is None ==> link_problem(pages, all_paths, page, target, line) is None,
{
}

} // verus!
