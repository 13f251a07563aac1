//! `SourceCodeInfo` comment lookup and source-span snippets.

use crate::descriptor::{FileDesc, Location};
use crate::text::{str_less, str_lt, chars_of, join_chars, join_with, slice_vec, split_chars, split_on, string_of, trim, trim_str};
use vstd::prelude::*;

verus! {

/// Field number of `FileDescriptorProto.message_type`.
pub const FILE_MESSAGE: i32 = 4;
/// Field number of `FileDescriptorProto.enum_type`.
pub const FILE_ENUM: i32 = 5;
/// Field number of `FileDescriptorProto.service`.
pub const FILE_SERVICE: i32 = 6;
/// Field number of `FileDescriptorProto.package`.
pub const FILE_PACKAGE: i32 = 2;
/// Field number of `DescriptorProto.field`.
pub const MSG_FIELD: i32 = 2;
/// Field number of `DescriptorProto.oneof_decl`.
pub const MSG_ONEOF: i32 = 8;
/// Field number of `DescriptorProto.options`.
pub const MSG_OPTIONS: i32 = 7;
/// Field number of `EnumDescriptorProto.value`.
pub const ENUM_VALUE: i32 = 2;
/// Field number of `ServiceDescriptorProto.method`.
pub const SVC_METHOD: i32 = 2;

/// The location recorded for `path`: the last one in file order (a later location for
/// the same path replaces an earlier one); none for the empty path.
pub open spec fn lookup(locs: Seq<Location>, path: Seq<i32>) -> Option<Location>
    decreases locs.len(),
{
    if path.len() == 0 || locs.len() == 0 {
        None
    } else if locs.last().path@ == path {
        Some(locs.last())
    } else {
        lookup(locs.drop_last(), path)
    }
}

/// A comment as documentation text: trimmed, and absent when blank.
pub open spec fn comment_text(c: Option<String>) -> Option<Seq<char>> {
    match c {
        Some(s) => if trim(s@).len() > 0 {
            Some(trim(s@))
        } else {
            None
        },
        None => None,
    }
}

/// Leading comment recorded for `path`.
pub open spec fn leading_spec(locs: Seq<Location>, path: Seq<i32>) -> Option<Seq<char>> {
    match lookup(locs, path) {
        Some(l) => comment_text(l.leading_comments),
        None => None,
    }
}

/// Trailing comment recorded for `path`.
pub open spec fn trailing_spec(locs: Seq<Location>, path: Seq<i32>) -> Option<Seq<char>> {
    match lookup(locs, path) {
        Some(l) => comment_text(l.trailing_comments),
        None => None,
    }
}

/// Source text covered by a span `[start_line, start_col, end_col]` or
/// `[start_line, start_col, end_line, end_col]` (zero-based lines, columns counted in
/// characters); absent when the span does not lie within `src`.
pub open spec fn span_text(src: Seq<char>, span: Seq<i32>) -> Option<Seq<char>> {
    let ls = split_on(src, '\n');
    if span.len() != 3 && span.len() != 4 {
        None
    } else {
        let sl = span[0] as int;
        let sc = span[1] as int;
        let el = if span.len() == 3 {
            sl
        } else {
            span[2] as int
        };
        let ec = if span.len() == 3 {
            span[2] as int
        } else {
            span[3] as int
        };
        if !(0 <= sl <= el < ls.len() && 0 <= sc <= ls[sl].len() && 0 <= ec <= ls[el].len()) {
            None
        } else if sl == el {
            if sc <= ec {
                Some(ls[sl].subrange(sc, ec))
            } else {
                None
            }
        } else {
            Some(
                join_with(
                    seq![ls[sl].skip(sc)] + ls.subrange(sl + 1, el) + seq![ls[el].take(ec)],
                    seq!['\n'],
                ),
            )
        }
    }
}

/// Source snippet for the location recorded at `path`.
pub open spec fn snippet_spec(locs: Seq<Location>, src: Seq<char>, path: Seq<i32>) -> Option<Seq<char>> {
    match lookup(locs, path) {
        Some(l) => if l.span@.len() == 0 {
            None
        } else {
            span_text(src, l.span@)
        },
        None => None,
    }
}

/// Comment lookup over a file's `SourceCodeInfo`.
pub struct CommentIndex<'a> {
    pub locations: &'a Vec<Location>,
}

fn ints_eq(a: &Vec<i32>, b: &Vec<i32>) -> (r: bool)
    ensures
        r == (a@ == b@),
{
    if a.len() != b.len() {
        return false;
    }
    let mut i: usize = 0;
    while i < a.len()
        invariant
            i <= a.len() == b.len(),
            forall|j: int| 0 <= j < i ==> a@[j] == b@[j],
        decreases a.len() - i,
    {
        if a[i] != b[i] {
            return false;
        }
        i = i + 1;
    }
    assert(a@ =~= b@);
    true
}

fn trimmed_comment(c: &Option<String>) -> (r: Option<String>)
    ensures
        match comment_text(*c) {
            Some(t) => r matches Some(s) && s@ == t,
            None => r is None,
        },
{
    match c {
        Some(s) => {
            let t = trim_str(s.as_str());
            if t.as_str().unicode_len() > 0 {
                Some(t)
            } else {
                None
            }
        },
        None => None,
    }
}

/// `[a, b]`.
pub fn path2(a: i32, b: i32) -> (r: Vec<i32>)
    ensures
        r@ == seq![a, b],
{
    let mut r: Vec<i32> = Vec::new();
    r.push(a);
    r.push(b);
    assert(r@ =~= seq![a, b]);
    r
}

/// `[a, b, c]`.
pub fn path3(a: i32, b: i32, c: i32) -> (r: Vec<i32>)
    ensures
        r@ == seq![a, b, c],
{
    let mut r = path2(a, b);
    r.push(c);
    assert(r@ =~= seq![a, b, c]);
    r
}

/// `[a, b, c, d]`.
pub fn path4(a: i32, b: i32, c: i32, d: i32) -> (r: Vec<i32>)
    ensures
        r@ == seq![a, b, c, d],
{
    let mut r = path3(a, b, c);
    r.push(d);
    assert(r@ =~= seq![a, b, c, d]);
    r
}

impl<'a> CommentIndex<'a> {
    /// Index over the locations of `file`.
    pub fn from_file(file: &'a FileDesc) -> (r: Self)
        ensures
            r.locations@ == file.location@,
    {
        CommentIndex { locations: &file.location }
    }

    fn find(&self, path: &Vec<i32>) -> (r: Option<usize>)
        ensures
            match lookup(self.locations@, path@) {
                Some(l) => r matches Some(i) && i < self.locations.len() && self.locations@[i as int] == l,
                None => r is None,
            },
    {
        if path.len() == 0 {
            return None;
        }
        let ghost locs = self.locations@;
        let mut k: usize = self.locations.len();
        assert(locs.take(k as int) =~= locs);
        while k > 0
            invariant
                k <= self.locations.len(),
                locs == self.locations@,
                path@.len() > 0,
                lookup(locs, path@) == lookup(locs.take(k as int), path@),
            decreases k,
        {
            let ghost t = locs.take(k as int);
            assert(t.last() == self.locations@[k - 1]);
            assert(t.drop_last() =~= locs.take(k - 1));
            if ints_eq(&self.locations[k - 1].path, path) {
                return Some(k - 1);
            }
            k = k - 1;
        }
        None
    }

    /// Leading comment recorded for `path`, trimmed; `None` when absent or blank.
    pub fn leading(&self, path: &Vec<i32>) -> (r: Option<String>)
        ensures
            match leading_spec(self.locations@, path@) {
                Some(t) => r matches Some(s) && s@ == t,
                None => r is None,
            },
    {
        match self.find(path) {
            Some(i) => trimmed_comment(&self.locations[i].leading_comments),
            None => None,
        }
    }

    /// Trailing comment recorded for `path`, trimmed; `None` when absent or blank.
    pub fn trailing(&self, path: &Vec<i32>) -> (r: Option<String>)
        ensures
            match trailing_spec(self.locations@, path@) {
                Some(t) => r matches Some(s) && s@ == t,
                None => r is None,
            },
    {
        match self.find(path) {
            Some(i) => trimmed_comment(&self.locations[i].trailing_comments),
            None => None,
        }
    }

    /// Source text covered by the span recorded for `path`.
    pub fn span_snippet(&self, source: &str, path: &Vec<i32>) -> (r: Option<String>)
        ensures
            match snippet_spec(self.locations@, source@, path@) {
                Some(t) => r matches Some(s) && s@ == t,
                None => r is None,
            },
    {
        match self.find(path) {
            Some(i) => {
                let span = &self.locations[i].span;
                if span.len() == 0 {
                    None
                } else {
                    extract_span_snippet(source, span)
                }
            },
            None => None,
        }
    }

    /// Leading comment of top-level message `mi` (path `[4, mi]`).
    pub fn leading_message(&self, mi: usize) -> (r: Option<String>)
        ensures
            match leading_spec(self.locations@, seq![FILE_MESSAGE, mi as i32]) {
                Some(t) => r matches Some(s) && s@ == t,
                None => r is None,
            },
    {
        self.leading(&path2(FILE_MESSAGE, mi as i32))
    }

    /// Leading comment of field `fi` of message `mi` (path `[4, mi, 2, fi]`).
    pub fn leading_message_field(&self, mi: usize, fi: usize) -> (r: Option<String>)
        ensures
            match leading_spec(self.locations@, seq![FILE_MESSAGE, mi as i32, MSG_FIELD, fi as i32]) {
                Some(t) => r matches Some(s) && s@ == t,
                None => r is None,
            },
    {
        self.leading(&path4(FILE_MESSAGE, mi as i32, MSG_FIELD, fi as i32))
    }

    /// Leading comment of enum `ei` (path `[5, ei]`).
    pub fn leading_enum(&self, ei: usize) -> (r: Option<String>)
        ensures
            match leading_spec(self.locations@, seq![FILE_ENUM, ei as i32]) {
                Some(t) => r matches Some(s) && s@ == t,
                None => r is None,
            },
    {
        self.leading(&path2(FILE_ENUM, ei as i32))
    }

    /// Leading comment of value `vi` of enum `ei` (path `[5, ei, 2, vi]`).
    pub fn leading_enum_value(&self, ei: usize, vi: usize) -> (r: Option<String>)
        ensures
            match leading_spec(self.locations@, seq![FILE_ENUM, ei as i32, ENUM_VALUE, vi as i32]) {
                Some(t) => r matches Some(s) && s@ == t,
                None => r is None,
            },
    {
        self.leading(&path4(FILE_ENUM, ei as i32, ENUM_VALUE, vi as i32))
    }

    /// Leading comment of service `si` (path `[6, si]`).
    pub fn leading_service(&self, si: usize) -> (r: Option<String>)
        ensures
            match leading_spec(self.locations@, seq![FILE_SERVICE, si as i32]) {
                Some(t) => r matches Some(s) && s@ == t,
                None => r is None,
            },
    {
        self.leading(&path2(FILE_SERVICE, si as i32))
    }

    /// Leading comment of RPC `mi` of service `si` (path `[6, si, 2, mi]`).
    pub fn leading_method(&self, si: usize, mi: usize) -> (r: Option<String>)
        ensures
            match leading_spec(self.locations@, seq![FILE_SERVICE, si as i32, SVC_METHOD, mi as i32]) {
                Some(t) => r matches Some(s) && s@ == t,
                None => r is None,
            },
    {
        self.leading(&path4(FILE_SERVICE, si as i32, SVC_METHOD, mi as i32))
    }
}

/// Source text covered by `span` (see `span_text`).
pub fn extract_span_snippet(source: &str, span: &Vec<i32>) -> (r: Option<String>)
    ensures
        match span_text(source@, span@) {
            Some(t) => r matches Some(s) && s@ == t,
            None => r is None,
        },
{
    let ls = split_chars(&chars_of(source), '\n');
    let ghost lv = ls@.map_values(|x: Vec<char>| x@);
    if span.len() != 3 && span.len() != 4 {
        return None;
    }
    let sl = span[0];
    let sc = span[1];
    let el = if span.len() == 3 {
        sl
    } else {
        span[2]
    };
    let ec = if span.len() == 3 {
        span[2]
    } else {
        span[3]
    };
    if sl < 0 || el < sl || sc < 0 || ec < 0 {
        return None;
    }
    let slu = sl as usize;
    let elu = el as usize;
    let scu = sc as usize;
    let ecu = ec as usize;
    if elu >= ls.len() || scu > ls[slu].len() || ecu > ls[elu].len() {
        assert(slu < ls.len() ==> lv[slu as int] == ls@[slu as int]@);
        assert(elu < ls.len() ==> lv[elu as int] == ls@[elu as int]@);
        return None;
    }
    assert(lv[slu as int] == ls@[slu as int]@);
    assert(lv[elu as int] == ls@[elu as int]@);
    if slu == elu {
        if scu <= ecu {
            let piece = slice_vec(&ls[slu], scu, ecu);
            return Some(string_of(&piece));
        } else {
            return None;
        }
    }
    let mut pieces: Vec<Vec<char>> = Vec::new();
    pieces.push(slice_vec(&ls[slu], scu, ls[slu].len()));
    let mut j: usize = slu + 1;
    let ghost first = lv[slu as int].skip(sc as int);
    assert(pieces@.map_values(|x: Vec<char>| x@) =~= seq![first] + lv.subrange(slu + 1, j as int));
    while j < elu
        invariant
            slu < j <= elu < ls.len(),
            lv == ls@.map_values(|x: Vec<char>| x@),
            pieces@.map_values(|x: Vec<char>| x@) == seq![first] + lv.subrange(slu + 1, j as int),
        decreases elu - j,
    {
        let ghost before = pieces@.map_values(|x: Vec<char>| x@);
        let p = slice_vec(&ls[j], 0, ls[j].len());
        assert(p@ =~= lv[j as int]);
        pieces.push(p);
        j = j + 1;
        assert(pieces@.map_values(|x: Vec<char>| x@) =~= seq![first] + lv.subrange(slu + 1, j as int))
            by {
            assert(pieces@.map_values(|x: Vec<char>| x@) =~= before.push(lv[j - 1]));
        }
    }
    let ghost before = pieces@.map_values(|x: Vec<char>| x@);
    pieces.push(slice_vec(&ls[elu], 0, ecu));
    assert(pieces@.map_values(|x: Vec<char>| x@) =~= seq![first] + lv.subrange(slu + 1, elu as int)
        + seq![lv[elu as int].take(ec as int)]) by {
        assert(pieces@.map_values(|x: Vec<char>| x@) =~= before.push(lv[elu as int].take(ec as int)));
    }
    let mut sep: Vec<char> = Vec::new();
    sep.push('\n');
    assert(sep@ =~= seq!['\n']);
    let joined = join_chars(&pieces, &sep);
    Some(string_of(&joined))
}

/// Name-keyed files as plain values.
pub open spec fn files_view(files: Seq<(String, &FileDesc)>) -> Seq<(Seq<char>, FileDesc)> {
    files.map_values(|p: (String, &FileDesc)| (p.0@, *p.1))
}

/// Position at which `name` goes into `s` so that it follows every entry whose name
/// does not sort after it.
pub open spec fn insert_pos(s: Seq<(Seq<char>, FileDesc)>, name: Seq<char>) -> int
    decreases s.len(),
{
    if s.len() == 0 {
        0
    } else if str_lt(name, s[0].0) {
        0
    } else {
        1 + insert_pos(s.drop_first(), name)
    }
}

/// Files sorted by name; files with equal names keep their order (a stable sort).
pub open spec fn sort_by_name(files: Seq<(Seq<char>, FileDesc)>) -> Seq<(Seq<char>, FileDesc)>
    decreases files.len(),
{
    if files.len() == 0 {
        files
    } else {
        let s = sort_by_name(files.drop_last());
        s.insert(insert_pos(s, files.last().0), files.last())
    }
}

/// Package comment (path `[2]`) of the first file in `files` that has one.
pub open spec fn first_package_comment(files: Seq<(Seq<char>, FileDesc)>) -> Option<Seq<char>>
    decreases files.len(),
{
    if files.len() == 0 {
        None
    } else {
        match leading_spec(files[0].1.location@, seq![FILE_PACKAGE]) {
            Some(c) => Some(c),
            None => first_package_comment(files.drop_first()),
        }
    }
}

/// Package overview: the package comment of the first file, in name order, that has one.
pub open spec fn overview_spec(files: Seq<(Seq<char>, FileDesc)>) -> Option<Seq<char>> {
    first_package_comment(sort_by_name(files))
}

proof fn lemma_insert_pos(s: Seq<(Seq<char>, FileDesc)>, name: Seq<char>, j: int)
    requires
        0 <= j <= s.len(),
        forall|k: int| 0 <= k < j ==> !str_lt(name, #[trigger] s[k].0),
        j == s.len() || str_lt(name, s[j].0),
    ensures
        insert_pos(s, name) == j,
    decreases j,
{
    if j > 0 {
        assert(!str_lt(name, s[0].0));
        let t = s.drop_first();
        assert forall|k: int| 0 <= k < j - 1 implies !str_lt(name, #[trigger] t[k].0) by {
            assert(t[k] == s[k + 1]);
        }
        if j < s.len() {
            assert(t[j - 1] == s[j]);
        }
        lemma_insert_pos(t, name, j - 1);
    }
}

/// Package overview: the package comment (path `[2]`) of the first file, sorted by
/// name, that carries one.
pub fn package_overview(files: &Vec<(String, &FileDesc)>) -> (r: Option<String>)
    ensures
        match overview_spec(files_view(files@)) {
            Some(t) => r matches Some(s) && s@ == t,
            None => r is None,
        },
{
    let ghost fv = files_view(files@);
    // Stable insertion sort of the indices by file name.
    let mut order: Vec<usize> = Vec::new();
    let mut i: usize = 0;
    while i < files.len()
        invariant
            i <= files.len(),
            fv == files_view(files@),
            forall|k: int| 0 <= k < order.len() ==> order@[k] < i,
            order@.map_values(|k: usize| fv[k as int]) == sort_by_name(fv.take(i as int)),
        decreases files.len() - i,
    {
        let ghost sorted = order@.map_values(|k: usize| fv[k as int]);
        let name = files[i].0.as_str();
        assert(fv[i as int].0 == name@);
        let mut p: usize = 0;
        while p < order.len() && !str_less(name, files[order[p]].0.as_str())
            invariant
                p <= order.len(),
                fv == files_view(files@),
                forall|k: int| 0 <= k < order.len() ==> order@[k] < i,
                sorted == order@.map_values(|k: usize| fv[k as int]),
                name@ == fv[i as int].0,
                i < files.len(),
                forall|k: int| 0 <= k < p ==> !str_lt(name@, #[trigger] sorted[k].0),
            decreases order.len() - p,
        {
            assert(sorted[p as int] == fv[order@[p as int] as int]);
            p = p + 1;
        }
        proof {
            if p < order.len() {
                assert(sorted[p as int] == fv[order@[p as int] as int]);
            }
            lemma_insert_pos(sorted, name@, p as int);
            assert(fv.take(i + 1).drop_last() =~= fv.take(i as int));
            assert(fv.take(i + 1).last() == fv[i as int]);
        }
        order.insert(p, i);
        i = i + 1;
        assert(order@.map_values(|k: usize| fv[k as int]) =~= sorted.insert(p as int, fv[i - 1]));
    }
    assert(fv.take(files.len() as int) =~= fv);
    let ghost sorted = order@.map_values(|k: usize| fv[k as int]);
    let mut j: usize = 0;
    let pkg = path1(FILE_PACKAGE);
    assert(sorted.skip(0) =~= sorted);
    while j < order.len()
        invariant
            j <= order.len(),
            fv == files_view(files@),
            forall|k: int| 0 <= k < order.len() ==> order@[k] < files.len(),
            sorted == order@.map_values(|k: usize| fv[k as int]),
            pkg@ == seq![FILE_PACKAGE],
            overview_spec(fv) == first_package_comment(sorted.skip(j as int)),
        decreases order.len() - j,
    {
        let f: &FileDesc = files[order[j]].1;
        assert(sorted.skip(j as int)[0] == fv[order@[j as int] as int]);
        assert(sorted.skip(j as int).drop_first() =~= sorted.skip(j + 1));
        let idx = CommentIndex::from_file(f);
        let c = idx.leading(&pkg);
        if c.is_some() {
            return c;
        }
        j = j + 1;
    }
    None
}

/// `[a]`.
pub fn path1(a: i32) -> (r: Vec<i32>)
    ensures
        r@ == seq![a],
{
    let mut r: Vec<i32> = Vec::new();
    r.push(a);
    assert(r@ =~= seq![a]);
    r
}


/// The package comment carried by one name-keyed file.
pub open spec fn package_comment_of(f: (Seq<char>, FileDesc)) -> Option<Seq<char>> {
    leading_spec(f.1.location@, seq![FILE_PACKAGE])
}

/// No two files share a name.
pub open spec fn names_distinct(files: Seq<(Seq<char>, FileDesc)>) -> bool {
    forall|i: int, j: int| 0 <= i < j < files.len() ==> #[trigger] files[i].0 != #[trigger] files[j].0
}

/// `a < b <= c` gives `a < c`.
proof fn lemma_lt_le(a: Seq<char>, b: Seq<char>, c: Seq<char>)
    requires
        str_lt(a, b),
        !str_lt(c, b),
    ensures
        str_lt(a, c),
{
    crate::text::lemma_str_lt_total(b, c);
    if str_lt(b, c) {
        crate::text::lemma_str_lt_trans(a, b, c);
    }
}

/// `a < b` rules out `b < a`.
proof fn lemma_lt_asym(a: Seq<char>, b: Seq<char>)
    requires
        str_lt(a, b),
    ensures
        !str_lt(b, a),
{
    if str_lt(b, a) {
        crate::text::lemma_str_lt_trans(a, b, a);
        crate::text::lemma_str_lt_irrefl(a);
    }
}

/// `insert_pos` stops at the first entry whose name sorts after `name`.
proof fn lemma_insert_pos_props(s: Seq<(Seq<char>, FileDesc)>, name: Seq<char>)
    ensures
        0 <= insert_pos(s, name) <= s.len(),
        forall|k: int| 0 <= k < insert_pos(s, name) ==> !str_lt(name, #[trigger] s[k].0),
        insert_pos(s, name) < s.len() ==> str_lt(name, s[insert_pos(s, name)].0),
    decreases s.len(),
{
    if s.len() > 0 && !str_lt(name, s[0].0) {
        let t = s.drop_first();
        lemma_insert_pos_props(t, name);
        assert forall|k: int| 0 <= k < insert_pos(s, name) implies !str_lt(name, #[trigger] s[k].0) by {
            if k > 0 {
                assert(s[k] == t[k - 1]);
            }
        }
        if insert_pos(s, name) < s.len() {
            assert(s[insert_pos(s, name)] == t[insert_pos(t, name)]);
        }
    }
}

/// Sorting by name keeps exactly the files it is given, and orders them by name.
proof fn lemma_sort_by_name(files: Seq<(Seq<char>, FileDesc)>)
    ensures
        sort_by_name(files).len() == files.len(),
        forall|x: (Seq<char>, FileDesc)| sort_by_name(files).contains(x) <==> files.contains(x),
        forall|i: int, j: int|
            0 <= i < j < files.len() ==> !str_lt(
                #[trigger] sort_by_name(files)[j].0,
                #[trigger] sort_by_name(files)[i].0,
            ),
    decreases files.len(),
{
    if files.len() > 0 {
        let init = files.drop_last();
        let x = files.last();
        let s = sort_by_name(init);
        lemma_sort_by_name(init);
        lemma_insert_pos_props(s, x.0);
        let p = insert_pos(s, x.0);
        let t = s.insert(p, x);
        assert(sort_by_name(files) == t);
        assert forall|y: (Seq<char>, FileDesc)| t.contains(y) <==> files.contains(y) by {
            if t.contains(y) {
                let k = choose|k: int| 0 <= k < t.len() && t[k] == y;
                if k < p {
                    assert(s[k] == y);
                    assert(s.contains(y));
                    assert(init.contains(y));
                    let m = choose|m: int| 0 <= m < init.len() && init[m] == y;
                    assert(files[m] == y);
                } else if k == p {
                    assert(files[files.len() - 1] == y);
                } else {
                    assert(s[k - 1] == y);
                    assert(s.contains(y));
                    assert(init.contains(y));
                    let m = choose|m: int| 0 <= m < init.len() && init[m] == y;
                    assert(files[m] == y);
                }
            }
            if files.contains(y) {
                let k = choose|k: int| 0 <= k < files.len() && files[k] == y;
                if k == files.len() - 1 {
                    assert(t[p] == y);
                } else {
                    assert(init[k] == y);
                    assert(init.contains(y));
                    assert(s.contains(y));
                    let m = choose|m: int| 0 <= m < s.len() && s[m] == y;
                    if m < p {
                        assert(t[m] == y);
                    } else {
                        assert(t[m + 1] == y);
                    }
                }
            }
        }
        assert forall|i: int, j: int| 0 <= i < j < files.len() implies !str_lt(
            #[trigger] t[j].0,
            #[trigger] t[i].0,
        ) by {
            if j < p {
                assert(t[i] == s[i] && t[j] == s[j]);
            } else if j == p {
                assert(t[i] == s[i]);
            } else if i == p {
                assert(t[j] == s[j - 1]);
                if j - 1 > p {
                    assert(!str_lt(s[j - 1].0, s[p].0));
                } else {
                    crate::text::lemma_str_lt_irrefl(s[p].0);
                }
                lemma_lt_le(x.0, s[p].0, s[j - 1].0);
                lemma_lt_asym(x.0, s[j - 1].0);
            } else if i < p {
                assert(t[i] == s[i] && t[j] == s[j - 1]);
            } else {
                assert(t[i] == s[i - 1] && t[j] == s[j - 1]);
            }
        }
    }
}

/// `first_package_comment` is the comment of the first file that carries one.
proof fn lemma_first_package_comment(s: Seq<(Seq<char>, FileDesc)>) -> (k: int)
    ensures
        first_package_comment(s) is None ==> forall|j: int|
            0 <= j < s.len() ==> (#[trigger] package_comment_of(s[j])) is None,
        first_package_comment(s) is Some ==> {
            &&& 0 <= k < s.len()
            &&& package_comment_of(s[k]) == first_package_comment(s)
            &&& forall|j: int| 0 <= j < k ==> (#[trigger] package_comment_of(s[j])) is None
        },
    decreases s.len(),
{
    if s.len() == 0 {
        0
    } else if package_comment_of(s[0]) is Some {
        0
    } else {
        let t = s.drop_first();
        let k = lemma_first_package_comment(t);
        assert forall|j: int| 0 < j < s.len() implies package_comment_of(s[j]) == package_comment_of(t[j - 1]) by {}
        k + 1
    }
}

/// The package overview does not depend on the order in which files with distinct
/// names are given: any reordering gives the same overview.
pub proof fn law_overview_ignores_file_order(
    files: Seq<(Seq<char>, FileDesc)>,
    reordered: Seq<(Seq<char>, FileDesc)>,
)
    requires
        names_distinct(files),
        reordered.to_multiset() == files.to_multiset(),
    ensures
        overview_spec(reordered) == overview_spec(files),
{
    broadcast use vstd::seq_lib::to_multiset_contains;
    let s1 = sort_by_name(files);
    let s2 = sort_by_name(reordered);
    lemma_sort_by_name(files);
    lemma_sort_by_name(reordered);
    assert forall|x: (Seq<char>, FileDesc)| s2.contains(x) <==> s1.contains(x) by {
        assert(reordered.contains(x) <==> reordered.to_multiset().count(x) > 0);
        assert(files.contains(x) <==> files.to_multiset().count(x) > 0);
    }
    let k1 = lemma_first_package_comment(s1);
    let k2 = lemma_first_package_comment(s2);
    if first_package_comment(s1) is None {
        if first_package_comment(s2) is Some {
            assert(s2.contains(s2[k2]));
            let j = choose|j: int| 0 <= j < s1.len() && s1[j] == s2[k2];
            assert(package_comment_of(s1[j]) is None);
        }
    } else if first_package_comment(s2) is None {
        assert(s1.contains(s1[k1]));
        let j = choose|j: int| 0 <= j < s2.len() && s2[j] == s1[k1];
        assert(package_comment_of(s2[j]) is None);
    } else {
        let a = s1[k1];
        let b = s2[k2];
        assert(s2.contains(b));
        let j1 = choose|j: int| 0 <= j < s1.len() && s1[j] == b;
        assert(package_comment_of(s1[j1]) is Some);
        assert(j1 >= k1);
        if j1 > k1 {
            assert(!str_lt(s1[j1].0, s1[k1].0));
        }
        assert(s1.contains(a));
        let j2 = choose|j: int| 0 <= j < s2.len() && s2[j] == a;
        assert(package_comment_of(s2[j2]) is Some);
        assert(j2 >= k2);
        if j2 > k2 {
            assert(!str_lt(s2[j2].0, s2[k2].0));
        }
        crate::text::lemma_str_lt_total(a.0, b.0);
        assert(a.0 == b.0);
        assert(files.contains(a) && files.contains(b));
        let ia = choose|i: int| 0 <= i < files.len() && files[i] == a;
        let ib = choose|i: int| 0 <= i < files.len() && files[i] == b;
        if ia < ib {
            assert(files[ia].0 != files[ib].0);
        } else if ib < ia {
            assert(files[ib].0 != files[ia].0);
        }
        assert(a == b);
    }
}

} // verus!
