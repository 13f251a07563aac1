//! Layout-aware paths, mdBook heading anchors, and cross-reference links.

use crate::codegen::{split_proto_type_name, split_type_name_spec};
use crate::decimal::{dec, lemma_dec_injective, push_decimal};
use crate::options::Layout;
use crate::paths::{
    file_name, file_name_of, join_book_root, join_book_root_spec, parent_dir, parent_path,
    path_components, path_parts, relative_path_from_dir, relative_path_spec,
};
use crate::text::{
    chars_eq, chars_of, copy_chars, is_ws, is_whitespace, last_index_of, push_char, rfind_char,
    slice_vec, string_of, to_string, trim, trim_chars, views,
};
use vstd::prelude::*;
use vstd::set_lib::{lemma_int_range, lemma_len_subset, lemma_map_size, set_int_range};

verus! {

/// `str::to_lowercase` of `s` (full Unicode case mapping).
pub uninterp spec fn lowercase(s: Seq<char>) -> Seq<char>;

/// `char::is_alphanumeric` of `c` (Unicode `Alphabetic` or `Numeric`).
pub uninterp spec fn alphanumeric(c: char) -> bool;

/// `str::to_lowercase`: the result is `lowercase` of the argument.
#[verifier::external_body]
fn to_lowercase(s: &str) -> (r: String)
    ensures
        r@ == lowercase(s@),
{
    s.to_lowercase()
}

/// `char::is_alphanumeric`: the result is `alphanumeric` of the argument.
#[verifier::external_body]
fn is_alphanumeric(c: char) -> (r: bool)
    ensures
        r == alphanumeric(c),
{
    c.is_alphanumeric()
}

/// Keeps alphanumerics, `_`, and `-`; turns whitespace into `-`; drops the rest.
pub open spec fn slug_filter(s: Seq<char>) -> Seq<char>
    decreases s.len(),
{
    if s.len() == 0 {
        Seq::<char>::empty()
    } else {
        let pre = slug_filter(s.drop_last());
        let c = s.last();
        if alphanumeric(c) || c == '_' || c == '-' {
            pre.push(c)
        } else if is_ws(c) {
            pre.push('-')
        } else {
            pre
        }
    }
}

/// mdBook heading id of `content` (`mdbook-html` `id_from_content`).
pub open spec fn id_spec(content: Seq<char>) -> Seq<char> {
    slug_filter(lowercase(trim(content)))
}

/// mdBook heading id of `content`, as mdBook gives it to a heading.
pub fn id_from_content(content: &str) -> (r: String)
    ensures
        r@ == id_spec(content@),
{
    let t = trim_chars(&chars_of(content));
    let ts = string_of(&t);
    let low = chars_of(to_lowercase(ts.as_str()).as_str());
    let mut out = String::new();
    let mut i: usize = 0;
    while i < low.len()
        invariant
            i <= low.len(),
            out@ == slug_filter(low@.take(i as int)),
        decreases low.len() - i,
    {
        let c = low[i];
        assert(low@.take(i + 1).drop_last() =~= low@.take(i as int));
        if is_alphanumeric(c) || c == '_' || c == '-' {
            push_char(&mut out, c);
        } else if is_whitespace(c) {
            push_char(&mut out, '-');
        }
        i = i + 1;
    }
    assert(low@.take(low.len() as int) =~= low@);
    out
}

/// Heading anchor id compatible with mdBook HTML output.
pub fn heading_slug(name: &str) -> (r: String)
    ensures
        r@ == id_spec(name@),
{
    id_from_content(name)
}

/// `{base}-{k}`.
pub open spec fn candidate(base: Seq<char>, k: nat) -> Seq<char> {
    base + seq!['-'] + dec(k)
}

/// `k` is the smallest positive counter whose candidate is unused.
pub open spec fn is_first_free(base: Seq<char>, used: Seq<Seq<char>>, k: nat) -> bool {
    &&& k >= 1
    &&& !used.contains(candidate(base, k))
    &&& forall|j: nat| 1 <= j < k ==> used.contains(#[trigger] candidate(base, j))
}

/// The id assigned to `base` when `used` ids are taken.
pub open spec fn unique_id_spec(base: Seq<char>, used: Seq<Seq<char>>) -> Seq<char> {
    if !used.contains(base) {
        base
    } else {
        candidate(base, choose|k: nat| is_first_free(base, used, k))
    }
}

/// Ids assigned in document order to headings with the given base ids.
pub open spec fn unique_ids_spec(bases: Seq<Seq<char>>) -> Seq<Seq<char>>
    decreases bases.len(),
{
    if bases.len() == 0 {
        Seq::<Seq<char>>::empty()
    } else {
        let pre = unique_ids_spec(bases.drop_last());
        pre.push(unique_id_spec(bases.last(), pre))
    }
}

/// Unique mdBook heading ids for titles in document order.
pub open spec fn heading_ids_spec(titles: Seq<Seq<char>>) -> Seq<Seq<char>> {
    unique_ids_spec(titles.map_values(|t: Seq<char>| id_spec(t)))
}

/// No element occurs twice.
pub open spec fn all_distinct(s: Seq<Seq<char>>) -> bool {
    forall|i: int, j: int| 0 <= i < j < s.len() ==> s[i] != s[j]
}

proof fn lemma_candidate_injective(base: Seq<char>, a: nat, b: nat)
    requires
        candidate(base, a) == candidate(base, b),
    ensures
        a == b,
{
    let n = base.len() + 1;
    assert(candidate(base, a).skip(n as int) =~= dec(a));
    assert(candidate(base, b).skip(n as int) =~= dec(b));
    lemma_dec_injective(a, b);
}

/// Some counter in `1..=used.len() + 1` has an unused candidate.
proof fn lemma_free_exists(base: Seq<char>, used: Seq<Seq<char>>)
    ensures
        exists|k: nat| 1 <= k <= used.len() + 1 && !used.contains(#[trigger] candidate(base, k)),
{
    let n: int = used.len() as int;
    let x = set_int_range(1, n + 2);
    lemma_int_range(1, n + 2);
    let f = |k: int| candidate(base, k as nat);
    assert forall|a: int, b: int| x.contains(a) && x.contains(b) && #[trigger] f(a) == #[trigger] f(b)
        implies a == b by {
        lemma_candidate_injective(base, a as nat, b as nat);
    }
    let y = x.map(f);
    lemma_map_size(x, y, f);
    if forall|k: nat| 1 <= k <= n + 1 ==> used.contains(#[trigger] candidate(base, k)) {
        let u = used.to_set();
        assert(y.subset_of(u)) by {
            assert forall|c: Seq<char>| y.contains(c) implies u.contains(c) by {
                let k = choose|k: int| x.contains(k) && f(k) == c;
                assert(used.contains(candidate(base, k as nat)));
            }
        }
        used.lemma_cardinality_of_set();
        vstd::seq_lib::seq_to_set_is_finite(used);
        lemma_len_subset(y, u);
        assert(false);
    }
}

/// Some counter is the first free one.
proof fn lemma_first_free_exists(base: Seq<char>, used: Seq<Seq<char>>, k0: nat)
    requires
        k0 >= 1,
        !used.contains(candidate(base, k0)),
    ensures
        exists|k: nat| is_first_free(base, used, k),
    decreases k0,
{
    if exists|j: nat| 1 <= j < k0 && !used.contains(#[trigger] candidate(base, j)) {
        let j = choose|j: nat| 1 <= j < k0 && !used.contains(#[trigger] candidate(base, j));
        lemma_first_free_exists(base, used, j);
    } else {
        assert(is_first_free(base, used, k0));
    }
}

/// The assigned id is not among the taken ones.
pub proof fn lemma_unique_id_fresh(base: Seq<char>, used: Seq<Seq<char>>)
    ensures
        !used.contains(unique_id_spec(base, used)),
{
    if used.contains(base) {
        lemma_free_exists(base, used);
        let k0 = choose|k: nat| 1 <= k <= used.len() + 1 && !used.contains(#[trigger] candidate(base, k));
        lemma_first_free_exists(base, used, k0);
    }
}

/// Assigned heading ids never repeat within a document.
pub proof fn lemma_unique_ids_distinct(bases: Seq<Seq<char>>)
    ensures
        unique_ids_spec(bases).len() == bases.len(),
        all_distinct(unique_ids_spec(bases)),
    decreases bases.len(),
{
    if bases.len() > 0 {
        let pre = unique_ids_spec(bases.drop_last());
        lemma_unique_ids_distinct(bases.drop_last());
        lemma_unique_id_fresh(bases.last(), pre);
        let r = unique_ids_spec(bases);
        assert forall|i: int, j: int| 0 <= i < j < r.len() implies r[i] != r[j] by {
            if j == r.len() - 1 {
                assert(pre.contains(r[i]));
            } else {
                assert(r[i] == pre[i] && r[j] == pre[j]);
            }
        }
    }
}

proof fn lemma_unique_ids_prefix(bases: Seq<Seq<char>>, i: int)
    requires
        0 <= i <= bases.len(),
    ensures
        unique_ids_spec(bases).take(i) == unique_ids_spec(bases.take(i)),
    decreases bases.len(),
{
    lemma_unique_ids_distinct(bases);
    if i < bases.len() {
        lemma_unique_ids_prefix(bases.drop_last(), i);
        lemma_unique_ids_distinct(bases.drop_last());
        assert(bases.drop_last().take(i) =~= bases.take(i));
        assert(unique_ids_spec(bases).take(i) =~= unique_ids_spec(bases.drop_last()).take(i));
    } else {
        assert(bases.take(i) =~= bases);
        assert(unique_ids_spec(bases).take(i) =~= unique_ids_spec(bases));
    }
}

/// Each heading gets its base slug when no earlier heading of the page holds that id,
/// else the base with the smallest `-k` suffix (k from 1) that no earlier heading holds.
pub proof fn law_heading_id_is_first_free(titles: Seq<Seq<char>>, i: int)
    requires
        0 <= i < titles.len(),
    ensures
        ({
            let r = heading_ids_spec(titles);
            let b = id_spec(titles[i]);
            let earlier = r.take(i);
            &&& !earlier.contains(b) ==> r[i] == b
            &&& earlier.contains(b) ==> exists|k: nat| is_first_free(b, earlier, k) && r[i] == candidate(b, k)
        }),
{
    let bases = titles.map_values(|t: Seq<char>| id_spec(t));
    let r = unique_ids_spec(bases);
    lemma_unique_ids_distinct(bases);
    lemma_unique_ids_prefix(bases, i);
    lemma_unique_ids_prefix(bases, i + 1);
    lemma_unique_ids_distinct(bases.take(i + 1));
    assert(bases.take(i + 1).drop_last() =~= bases.take(i));
    assert(bases.take(i + 1).last() == bases[i]);
    let earlier = r.take(i);
    assert(unique_ids_spec(bases.take(i + 1)) == earlier.push(unique_id_spec(bases[i], earlier)));
    assert(r[i] == r.take(i + 1)[i]);
    assert(r[i] == unique_id_spec(bases[i], earlier));
    let b = bases[i];
    if earlier.contains(b) {
        lemma_free_exists(b, earlier);
        let k0 = choose|k: nat| 1 <= k <= earlier.len() + 1 && !earlier.contains(#[trigger] candidate(b, k));
        lemma_first_free_exists(b, earlier, k0);
        let k = choose|k: nat| is_first_free(b, earlier, k);
        assert(r[i] == candidate(b, k));
    }
}


/// Law: mdBook-style ids assigned to a document's headings are pairwise distinct, one
/// per heading.
pub proof fn law_heading_ids_distinct(titles: Seq<Seq<char>>)
    ensures
        heading_ids_spec(titles).len() == titles.len(),
        all_distinct(heading_ids_spec(titles)),
{
    lemma_unique_ids_distinct(titles.map_values(|t: Seq<char>| id_spec(t)));
}

/// `x` is among `used`.
fn contains_chars(used: &Vec<Vec<char>>, x: &Vec<char>) -> (r: bool)
    ensures
        r == used@.map_values(|v: Vec<char>| v@).contains(x@),
{
    let ghost uv = used@.map_values(|v: Vec<char>| v@);
    let mut i: usize = 0;
    while i < used.len()
        invariant
            i <= used.len(),
            uv == used@.map_values(|v: Vec<char>| v@),
            forall|j: int| 0 <= j < i ==> uv[j] != x@,
        decreases used.len() - i,
    {
        assert(uv[i as int] == used@[i as int]@);
        if chars_eq(&used[i], x) {
            assert(uv.contains(x@));
            return true;
        }
        i = i + 1;
    }
    false
}

fn unique_id(base: &Vec<char>, used: &Vec<Vec<char>>) -> (r: Vec<char>)
    requires
        used.len() < usize::MAX,
    ensures
        r@ == unique_id_spec(base@, used@.map_values(|v: Vec<char>| v@)),
{
    let ghost uv = used@.map_values(|v: Vec<char>| v@);
    if !contains_chars(used, base) {
        return copy_chars(base);
    }
    proof {
        lemma_free_exists(base@, uv);
    }
    let mut counter: usize = 1;
    while counter <= used.len()
        invariant
            1 <= counter <= used.len() + 1,
            used.len() < usize::MAX,
            uv == used@.map_values(|v: Vec<char>| v@),
            uv.contains(base@),
            exists|k: nat| 1 <= k <= uv.len() + 1 && !uv.contains(#[trigger] candidate(base@, k)),
            forall|j: nat| 1 <= j < counter ==> uv.contains(#[trigger] candidate(base@, j)),
        decreases used.len() + 1 - counter,
    {
        let mut cand = copy_chars(base);
        cand.push('-');
        let mut digits = String::new();
        push_decimal(&mut digits, counter as u64);
        let dv = chars_of(digits.as_str());
        crate::text::extend(&mut cand, &dv);
        assert(cand@ =~= candidate(base@, counter as nat));
        if !contains_chars(used, &cand) {
            proof {
                assert(is_first_free(base@, uv, counter as nat));
                let k = choose|k: nat| is_first_free(base@, uv, k);
                if k < counter {
                    assert(uv.contains(candidate(base@, k)));
                } else if k > counter {
                    assert(uv.contains(candidate(base@, counter as nat)));
                }
            }
            return cand;
        }
        counter = counter + 1;
    }
    let mut cand = copy_chars(base);
    cand.push('-');
    let mut digits = String::new();
    push_decimal(&mut digits, counter as u64);
    let dv = chars_of(digits.as_str());
    crate::text::extend(&mut cand, &dv);
    assert(cand@ =~= candidate(base@, counter as nat));
    proof {
        assert(is_first_free(base@, uv, counter as nat)) by {
            let k0 = choose|k: nat| 1 <= k <= uv.len() + 1 && !uv.contains(#[trigger] candidate(base@, k));
            if k0 < counter {
                assert(uv.contains(candidate(base@, k0)));
            }
        }
        let k = choose|k: nat| is_first_free(base@, uv, k);
        if k < counter {
            assert(uv.contains(candidate(base@, k)));
        } else if k > counter {
            assert(uv.contains(candidate(base@, counter as nat)));
        }
    }
    cand
}

/// Assigns mdBook-style unique heading ids in document order (appends `-1`, `-2`, … on
/// collision).
pub fn unique_heading_ids(titles: &Vec<String>) -> (r: Vec<String>)
    ensures
        views(r@) == heading_ids_spec(views(titles@)),
        all_distinct(views(r@)),
{
    let ghost bases = views(titles@).map_values(|t: Seq<char>| id_spec(t));
    let mut used: Vec<Vec<char>> = Vec::new();
    let mut out: Vec<String> = Vec::new();
    let mut i: usize = 0;
    while i < titles.len()
        invariant
            i <= titles.len(),
            bases == views(titles@).map_values(|t: Seq<char>| id_spec(t)),
            used.len() == i,
            used@.map_values(|v: Vec<char>| v@) == unique_ids_spec(bases.take(i as int)),
            views(out@) == unique_ids_spec(bases.take(i as int)),
        decreases titles.len() - i,
    {
        let base = chars_of(id_from_content(titles[i].as_str()).as_str());
        assert(bases.take(i + 1).drop_last() =~= bases.take(i as int));
        assert(bases.take(i + 1).last() == base@);
        let id = unique_id(&base, &used);
        let ghost u0 = used@.map_values(|v: Vec<char>| v@);
        let ghost o0 = views(out@);
        out.push(string_of(&id));
        used.push(id);
        assert(used@.map_values(|v: Vec<char>| v@) =~= u0.push(id@));
        assert(views(out@) =~= o0.push(id@));
        i = i + 1;
    }
    assert(bases.take(titles.len() as int) =~= bases);
    proof {
        law_heading_ids_distinct(views(titles@));
    }
    out
}

/// A kind of documented entity.
#[derive(Clone, Copy, Debug, PartialEq, Eq, Hash, Structural)]
pub enum EntityKind {
    Message,
    Enum,
    Service,
}

/// A documented entity.
#[derive(Clone, Debug, PartialEq, Eq, Hash)]
pub struct EntityRef {
    pub package: String,
    pub kind: EntityKind,
    pub name: String,
}

/// `s` with every `.` turned into `/`.
pub open spec fn dots_to_slashes(s: Seq<char>) -> Seq<char> {
    s.map_values(|c: char| if c == '.' { '/' } else { c })
}

/// `{markdown_root}/{package}.md`.
pub open spec fn package_page_spec(markdown_root: Seq<char>, package: Seq<char>) -> Seq<char> {
    markdown_root + seq!['/'] + package + ".md"@
}

/// Package landing page under a layout.
pub open spec fn package_index_spec(layout: Layout, markdown_root: Seq<char>, package: Seq<char>) -> Seq<char> {
    match layout {
        Layout::Package => package_page_spec(markdown_root, package),
        _ => markdown_root + seq!['/'] + dots_to_slashes(package) + "/index.md"@,
    }
}

/// Directory segment for entities of a kind.
pub open spec fn kind_dir(kind: EntityKind) -> Seq<char> {
    match kind {
        EntityKind::Message => "/messages/"@,
        EntityKind::Enum => "/enums/"@,
        EntityKind::Service => "/services/"@,
    }
}

/// Page that documents an entity under a layout.
pub open spec fn entity_rel_path_spec(
    layout: Layout,
    markdown_root: Seq<char>,
    package: Seq<char>,
    kind: EntityKind,
    name: Seq<char>,
) -> Seq<char> {
    match layout {
        Layout::Package => package_page_spec(markdown_root, package),
        _ => markdown_root + seq!['/'] + dots_to_slashes(package) + kind_dir(kind) + name + ".md"@,
    }
}

fn dots_to_slashes_exec(s: &str) -> (r: String)
    ensures
        r@ == dots_to_slashes(s@),
{
    let v = chars_of(s);
    let mut out = String::new();
    let mut i: usize = 0;
    while i < v.len()
        invariant
            i <= v.len(),
            out@ == dots_to_slashes(v@.take(i as int)),
        decreases v.len() - i,
    {
        push_char(&mut out, if v[i] == '.' { '/' } else { v[i] });
        i = i + 1;
        assert(out@ =~= dots_to_slashes(v@.take(i as int)));
    }
    assert(v@.take(v.len() as int) =~= v@);
    out
}

/// `{markdown_root}/{package}.md`.
pub fn package_page_rel(markdown_root: &str, package: &str) -> (r: String)
    ensures
        r@ == package_page_spec(markdown_root@, package@),
{
    let mut r = to_string(markdown_root);
    push_char(&mut r, '/');
    r.append(package);
    r.append(".md");
    r
}

/// Package landing page: the package page, or `{pkg dirs}/index.md` for entity layouts.
pub fn package_index_rel(layout: Layout, markdown_root: &str, package: &str) -> (r: String)
    ensures
        r@ == package_index_spec(layout, markdown_root@, package@),
{
    match layout {
        Layout::Package => package_page_rel(markdown_root, package),
        _ => {
            let mut r = to_string(markdown_root);
            push_char(&mut r, '/');
            r.append(dots_to_slashes_exec(package).as_str());
            r.append("/index.md");
            r
        },
    }
}

fn kind_dir_exec(kind: EntityKind) -> (r: &'static str)
    ensures
        r@ == kind_dir(kind),
{
    match kind {
        EntityKind::Message => "/messages/",
        EntityKind::Enum => "/enums/",
        EntityKind::Service => "/services/",
    }
}

/// Page that documents an entity under a layout.
pub fn entity_rel_path(layout: Layout, markdown_root: &str, package: &str, kind: EntityKind, name: &str) -> (r: String)
    ensures
        r@ == entity_rel_path_spec(layout, markdown_root@, package@, kind, name@),
{
    match layout {
        Layout::Package => package_page_rel(markdown_root, package),
        _ => {
            let mut r = to_string(markdown_root);
            push_char(&mut r, '/');
            r.append(dots_to_slashes_exec(package).as_str());
            r.append(kind_dir_exec(kind));
            r.append(name);
            r.append(".md");
            r
        },
    }
}

/// `{book_root}/{path}` under the output root.
pub fn with_book_root(book_root: &str, path: &str) -> (r: String)
    ensures
        r@ == join_book_root_spec(book_root@, path@),
{
    join_book_root(book_root, path)
}

/// Relative POSIX path from `from_dir` to `target`.
pub fn relative_path(from_dir: &str, target: &str) -> (r: String)
    ensures
        r@ == relative_path_spec(from_dir@, target@),
{
    relative_path_from_dir(from_dir, target)
}

/// `Path::file_stem`: the file name without its last extension.
pub open spec fn file_stem_spec(p: Seq<char>) -> Seq<char> {
    let n = file_name(p);
    let j = last_index_of(n, '.');
    if j <= 0 {
        n
    } else {
        n.take(j)
    }
}

fn file_stem(p: &str) -> (r: String)
    ensures
        r@ == file_stem_spec(p@),
{
    let n = chars_of(file_name_of(p).as_str());
    match rfind_char(&n, '.') {
        None => string_of(&n),
        Some(j) => {
            if j == 0 {
                string_of(&n)
            } else {
                let s = slice_vec(&n, 0, j);
                assert(s@ =~= n@.take(j as int));
                string_of(&s)
            }
        },
    }
}

/// Model of a resolved entity reference.
pub open spec fn entity_view(e: EntityRef) -> (Seq<char>, EntityKind, Seq<char>) {
    (e.package@, e.kind, e.name@)
}

/// Cross-reference paths for every documented entity.
pub struct LinkContext {
    pub layout: Layout,
    pub book_root: String,
    pub markdown_root: String,
    pub entities: Vec<EntityRef>,
}

impl LinkContext {
    /// The entities this context can link to.
    pub open spec fn known(&self) -> Seq<(Seq<char>, EntityKind, Seq<char>)> {
        self.entities@.map_values(|e: EntityRef| entity_view(e))
    }

    /// The entity `(package, kind, name)` is documented.
    pub open spec fn has_entity(&self, package: Seq<char>, kind: EntityKind, name: Seq<char>) -> bool {
        self.known().contains((package, kind, name))
    }

    /// Page of a documented entity, `None` for unknown entities.
    pub open spec fn entity_path_spec(&self, package: Seq<char>, kind: EntityKind, name: Seq<char>) -> Option<Seq<char>> {
        if self.has_entity(package, kind, name) {
            Some(entity_rel_path_spec(self.layout, self.markdown_root@, package, kind, name))
        } else {
            None
        }
    }

    /// A context for `entities` under a layout.
    pub fn new(layout: Layout, book_root: &str, markdown_root: &str, entities: Vec<EntityRef>) -> (r: Self)
        ensures
            r.layout == layout,
            r.book_root@ == book_root@,
            r.markdown_root@ == markdown_root@,
            r.known() == entities@.map_values(|e: EntityRef| entity_view(e)),
    {
        LinkContext {
            layout,
            book_root: to_string(book_root),
            markdown_root: to_string(markdown_root),
            entities,
        }
    }

    /// `{markdown_root}/{package}.md`.
    pub fn package_page_rel(&self, package: &str) -> (r: String)
        ensures
            r@ == package_page_spec(self.markdown_root@, package@),
    {
        package_page_rel(self.markdown_root.as_str(), package)
    }

    /// Package landing page under this layout.
    pub fn package_index_rel(&self, package: &str) -> (r: String)
        ensures
            r@ == package_index_spec(self.layout, self.markdown_root@, package@),
    {
        package_index_rel(self.layout, self.markdown_root.as_str(), package)
    }

    /// Page of a documented entity.
    pub fn entity_path(&self, package: &str, kind: EntityKind, name: &str) -> (r: Option<String>)
        ensures
            match self.entity_path_spec(package@, kind, name@) {
                Some(p) => r matches Some(s) && s@ == p,
                None => r is None,
            },
    {
        let ghost k = self.known();
        let pv = chars_of(package);
        let nv = chars_of(name);
        let mut i: usize = 0;
        while i < self.entities.len()
            invariant
                i <= self.entities.len(),
                k == self.entities@.map_values(|e: EntityRef| entity_view(e)),
                pv@ == package@,
                nv@ == name@,
                forall|j: int| 0 <= j < i ==> k[j] != (package@, kind, name@),
            decreases self.entities.len() - i,
        {
            let e = &self.entities[i];
            assert(k[i as int] == entity_view(*e));
            if e.kind == kind && chars_eq(&chars_of(e.package.as_str()), &pv) && chars_eq(
                &chars_of(e.name.as_str()),
                &nv,
            ) {
                assert(k.contains((package@, kind, name@)));
                return Some(entity_rel_path(self.layout, self.markdown_root.as_str(), package, kind, name));
            }
            i = i + 1;
        }
        None
    }

    /// Markdown link from page `from` to a documented entity; `` `.pkg.Name` `` when unknown.
    pub fn link_from(&self, from: &str, package: &str, kind: EntityKind, name: &str) -> (r: String)
        ensures
            r@ == link_from_spec(self, from@, package@, kind, name@),
    {
        match self.entity_path(package, kind, name) {
            None => {
                let mut r = String::new();
                push_char(&mut r, '`');
                push_char(&mut r, '.');
                r.append(package);
                push_char(&mut r, '.');
                r.append(name);
                push_char(&mut r, '`');
                r
            },
            Some(target) => match self.layout {
                Layout::Package => package_layout_link(from, target.as_str(), name),
                _ => file_link(from, target.as_str()),
            },
        }
    }

    /// Link for a fully-qualified type: to its message or enum when documented, else
    /// the name in backticks.
    pub fn link_type(&self, from: &str, fqn: &str) -> (r: String)
        ensures
            r@ == link_type_spec(self, from@, fqn@),
    {
        match split_proto_type_name(fqn) {
            None => backticked(fqn),
            Some((pkg, ident)) => {
                if self.entity_path(pkg.as_str(), EntityKind::Message, ident.as_str()).is_some() {
                    return self.link_from(from, pkg.as_str(), EntityKind::Message, ident.as_str());
                }
                if self.entity_path(pkg.as_str(), EntityKind::Enum, ident.as_str()).is_some() {
                    return self.link_from(from, pkg.as_str(), EntityKind::Enum, ident.as_str());
                }
                backticked(fqn)
            },
        }
    }

    /// `[title](rel)` from page `from` to `target`.
    pub fn summary_link(&self, from: &str, target: &str, title: &str) -> (r: String)
        ensures
            r@ == summary_link_spec(from@, target@, title@),
    {
        summary_link(from, target, title)
    }
}

/// `` `s` ``.
pub open spec fn backticked_spec(s: Seq<char>) -> Seq<char> {
    seq!['`'] + s + seq!['`']
}

fn backticked(s: &str) -> (r: String)
    ensures
        r@ == backticked_spec(s@),
{
    let mut r = String::new();
    push_char(&mut r, '`');
    r.append(s);
    push_char(&mut r, '`');
    r
}

/// `[label](rel)` where `rel` leads from the directory of `from` to `target`.
pub open spec fn summary_link_spec(from: Seq<char>, target: Seq<char>, title: Seq<char>) -> Seq<char> {
    seq!['['] + title + seq![']', '('] + relative_path_spec(parent_path(from), target) + seq![')']
}

/// `[title](rel)` from page `from` to `target`.
pub fn summary_link(from: &str, target: &str, title: &str) -> (r: String)
    ensures
        r@ == summary_link_spec(from@, target@, title@),
{
    let rel = relative_path(parent_dir(from).as_str(), target);
    let mut r = String::new();
    push_char(&mut r, '[');
    r.append(title);
    push_char(&mut r, ']');
    push_char(&mut r, '(');
    r.append(rel.as_str());
    push_char(&mut r, ')');
    assert(r@ =~= summary_link_spec(from@, target@, title@));
    r
}

/// Link to an entity page, labelled with the page's file stem.
pub open spec fn file_link_spec(from: Seq<char>, target: Seq<char>) -> Seq<char> {
    summary_link_spec(from, target, file_stem_spec(target))
}

fn file_link(from: &str, target: &str) -> (r: String)
    ensures
        r@ == file_link_spec(from@, target@),
{
    let label = file_stem(target);
    summary_link(from, target, label.as_str())
}

/// Link to an entity heading on a package page (in-page when `from` is that page).
pub open spec fn package_layout_link_spec(from: Seq<char>, target: Seq<char>, name: Seq<char>) -> Seq<char> {
    if path_parts(from) == path_parts(target) {
        seq!['['] + name + seq![']', '(', '#'] + id_spec(name) + seq![')']
    } else {
        seq!['['] + name + seq![']', '('] + relative_path_spec(parent_path(from), target) + seq!['#']
            + id_spec(name) + seq![')']
    }
}

fn same_path(a: &str, b: &str) -> (r: bool)
    ensures
        r == (path_parts(a@) == path_parts(b@)),
{
    let pa = path_components(&chars_of(a));
    let pb = path_components(&chars_of(b));
    let ghost va = pa@.map_values(|x: Vec<char>| x@);
    let ghost vb = pb@.map_values(|x: Vec<char>| x@);
    if pa.len() != pb.len() {
        assert(va.len() != vb.len());
        return false;
    }
    let mut i: usize = 0;
    while i < pa.len()
        invariant
            i <= pa.len(),
            pa.len() == pb.len(),
            va == pa@.map_values(|x: Vec<char>| x@),
            vb == pb@.map_values(|x: Vec<char>| x@),
            va == path_parts(a@),
            vb == path_parts(b@),
            forall|j: int| 0 <= j < i ==> va[j] == vb[j],
        decreases pa.len() - i,
    {
        assert(va[i as int] == pa@[i as int]@ && vb[i as int] == pb@[i as int]@);
        if !chars_eq(&pa[i], &pb[i]) {
            assert(va[i as int] != vb[i as int]);
            assert(va != vb);
            return false;
        }
        i = i + 1;
    }
    assert(va =~= vb);
    true
}

fn package_layout_link(from: &str, target: &str, name: &str) -> (r: String)
    ensures
        r@ == package_layout_link_spec(from@, target@, name@),
{
    let slug = heading_slug(name);
    let mut r = String::new();
    push_char(&mut r, '[');
    r.append(name);
    push_char(&mut r, ']');
    push_char(&mut r, '(');
    if !same_path(from, target) {
        let rel = relative_path(parent_dir(from).as_str(), target);
        r.append(rel.as_str());
    }
    push_char(&mut r, '#');
    r.append(slug.as_str());
    push_char(&mut r, ')');
    assert(r@ =~= package_layout_link_spec(from@, target@, name@));
    r
}

/// Link text for an entity reference.
pub open spec fn link_from_spec(
    ctx: &LinkContext,
    from: Seq<char>,
    package: Seq<char>,
    kind: EntityKind,
    name: Seq<char>,
) -> Seq<char> {
    match ctx.entity_path_spec(package, kind, name) {
        None => seq!['`', '.'] + package + seq!['.'] + name + seq!['`'],
        Some(target) => match ctx.layout {
            Layout::Package => package_layout_link_spec(from, target, name),
            _ => file_link_spec(from, target),
        },
    }
}

/// Link text for a fully-qualified type.
pub open spec fn link_type_spec(ctx: &LinkContext, from: Seq<char>, fqn: Seq<char>) -> Seq<char> {
    match split_type_name_spec(fqn) {
        None => backticked_spec(fqn),
        Some((pkg, ident)) => if ctx.has_entity(pkg, EntityKind::Message, ident) {
            link_from_spec(ctx, from, pkg, EntityKind::Message, ident)
        } else if ctx.has_entity(pkg, EntityKind::Enum, ident) {
            link_from_spec(ctx, from, pkg, EntityKind::Enum, ident)
        } else {
            backticked_spec(fqn)
        },
    }
}

} // verus!
