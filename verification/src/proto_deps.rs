//! Buf dependency exports for protoc `-I`: where they live, when a cached export can be
//! reused, and what makes a fresh export acceptable.

use crate::decimal::{dec, decimal, decimal_u128, digit};
use crate::text::{chars_of, ends_with, last_index_of, rfind_char, slice_vec, string_of, to_string, trim, trim_str};
use vstd::prelude::*;

verus! {

/// `b` under directory `a` (`b` alone when `a` is empty; no doubled `/`).
pub open spec fn join_spec(a: Seq<char>, b: Seq<char>) -> Seq<char> {
    if a.len() == 0 {
        b
    } else if a.last() == '/' {
        a + b
    } else {
        a + seq!['/'] + b
    }
}

/// `b` under directory `a`.
pub fn join_path(a: &str, b: &str) -> (r: String)
    ensures
        r@ == join_spec(a@, b@),
{
    let av = chars_of(a);
    let mut r = to_string(a);
    if av.len() > 0 && av[av.len() - 1] != '/' {
        crate::text::push_char(&mut r, '/');
    }
    r.append(b);
    r
}

/// `p` without trailing slashes (a lone `/` kept).
pub open spec fn strip_trailing_slashes(p: Seq<char>) -> Seq<char>
    decreases p.len(),
{
    if p.len() > 1 && p.last() == '/' {
        strip_trailing_slashes(p.drop_last())
    } else {
        p
    }
}

/// Parent directory of `p`: empty for a bare name, `/` for a top-level entry; none for
/// the root or an empty path.
pub open spec fn parent_spec(p: Seq<char>) -> Option<Seq<char>> {
    let t = strip_trailing_slashes(p);
    if t.len() == 0 || t == seq!['/'] {
        None
    } else {
        let i = last_index_of(t, '/');
        if i < 0 {
            Some(Seq::<char>::empty())
        } else if i == 0 {
            Some(seq!['/'])
        } else {
            Some(t.take(i))
        }
    }
}

/// Last component of `p`, when there is one.
pub open spec fn file_name_spec(p: Seq<char>) -> Option<Seq<char>> {
    let t = strip_trailing_slashes(p);
    if t.len() == 0 || t == seq!['/'] {
        None
    } else {
        Some(t.skip(last_index_of(t, '/') + 1))
    }
}

fn strip_trailing(p: &Vec<char>) -> (r: Vec<char>)
    ensures
        r@ == strip_trailing_slashes(p@),
{
    let mut n: usize = p.len();
    assert(p@.take(n as int) =~= p@);
    while n > 1 && p[n - 1] == '/'
        invariant
            n <= p.len(),
            strip_trailing_slashes(p@) == strip_trailing_slashes(p@.take(n as int)),
        decreases n,
    {
        assert(p@.take(n as int).drop_last() =~= p@.take(n - 1));
        n = n - 1;
    }
    let r = slice_vec(p, 0, n);
    assert(r@ =~= p@.take(n as int));
    proof {
        assert(p@.take(p.len() as int) =~= p@);
    }
    r
}

/// Parent directory of `p`.
pub fn parent_of(p: &str) -> (r: Option<String>)
    ensures
        match parent_spec(p@) {
            Some(q) => r matches Some(s) && s@ == q,
            None => r is None,
        },
{
    let t = strip_trailing(&chars_of(p));
    if t.len() == 0 || (t.len() == 1 && t[0] == '/') {
        assert(t.len() == 1 ==> t@ =~= seq!['/']);
        return None;
    }
    assert(t@ != seq!['/']) by {
        if t@.len() == 1 {
            assert(t@[0] != '/');
        }
    }
    match rfind_char(&t, '/') {
        None => Some(String::new()),
        Some(i) => if i == 0 {
            let mut s = String::new();
            crate::text::push_char(&mut s, '/');
            assert(s@ =~= seq!['/']);
            Some(s)
        } else {
            let q = slice_vec(&t, 0, i);
            assert(q@ =~= t@.take(i as int));
            Some(string_of(&q))
        },
    }
}

/// Last component of `p`.
pub fn file_name_of(p: &str) -> (r: Option<String>)
    ensures
        match file_name_spec(p@) {
            Some(q) => r matches Some(s) && s@ == q,
            None => r is None,
        },
{
    let t = strip_trailing(&chars_of(p));
    if t.len() == 0 || (t.len() == 1 && t[0] == '/') {
        assert(t.len() == 1 ==> t@ =~= seq!['/']);
        return None;
    }
    assert(t@ != seq!['/']) by {
        if t@.len() == 1 {
            assert(t@[0] != '/');
        }
    }
    let start = match rfind_char(&t, '/') {
        Some(i) => i + 1,
        None => 0,
    };
    let q = slice_vec(&t, start, t.len());
    assert(q@ =~= t@.skip(last_index_of(t@, '/') + 1));
    Some(string_of(&q))
}

/// The Protovalidate schema inside an export.
pub fn validate_proto_path(export_dir: &str) -> (r: String)
    ensures
        r@ == join_spec(export_dir@, "buf/validate/validate.proto"@),
{
    join_path(export_dir, "buf/validate/validate.proto")
}

/// The parent of `p`, or `.`.
pub open spec fn parent_or_dot(p: Seq<char>) -> Seq<char> {
    match parent_spec(p) {
        Some(q) => q,
        None => seq!['.'],
    }
}

fn parent_or_dot_exec(p: &str) -> (r: String)
    ensures
        r@ == parent_or_dot(p@),
{
    match parent_of(p) {
        Some(q) => q,
        None => {
            let mut s = String::new();
            crate::text::push_char(&mut s, '.');
            assert(s@ =~= seq!['.']);
            s
        },
    }
}

/// The export's name, or `proto-deps`.
pub open spec fn export_name(p: Seq<char>) -> Seq<char> {
    match file_name_spec(p) {
        Some(n) => n,
        None => "proto-deps"@,
    }
}

fn export_name_exec(p: &str) -> (r: String)
    ensures
        r@ == export_name(p@),
{
    match file_name_of(p) {
        Some(n) => n,
        None => to_string("proto-deps"),
    }
}

/// Lock file guarding an export, beside it.
pub fn export_lock_path(export_dir: &str) -> (r: String)
    ensures
        r@ == join_spec(parent_or_dot(export_dir@), ".proto-deps.export.lock"@),
{
    join_path(parent_or_dot_exec(export_dir).as_str(), ".proto-deps.export.lock")
}

/// Stamp recording the schema size of a finished export.
pub fn export_stamp_path(export_dir: &str) -> (r: String)
    ensures
        r@ == join_spec(export_dir@, ".export.stamp"@),
{
    join_path(export_dir, ".export.stamp")
}

/// Staging directory for a fresh export, unique by `nonce` (nanoseconds of the clock).
pub fn staging_export_dir(export_dir: &str, nonce: u128) -> (r: String)
    ensures
        r@ == join_spec(parent_or_dot(export_dir@), export_name(export_dir@) + ".staging-"@ + dec(nonce as nat)),
{
    let mut name = export_name_exec(export_dir);
    name.append(".staging-");
    name.append(decimal_u128(nonce).as_str());
    join_path(parent_or_dot_exec(export_dir).as_str(), name.as_str())
}

/// Where a replaced export is moved before removal.
pub fn trash_export_dir(export_dir: &str) -> (r: String)
    ensures
        r@ == join_spec(parent_or_dot(export_dir@), export_name(export_dir@) + ".export-trash"@),
{
    let mut name = export_name_exec(export_dir);
    name.append(".export-trash");
    join_path(parent_or_dot_exec(export_dir).as_str(), name.as_str())
}

/// Smallest acceptable size of the exported schema (it is about 200 KiB).
pub open spec fn min_validate_bytes() -> u64 {
    100000
}

/// Smallest acceptable size of the exported schema.
pub fn min_validate_size() -> (r: u64)
    ensures
        r == min_validate_bytes(),
{
    100000
}

/// Digit value of an ASCII digit.
pub open spec fn digit_value(c: char) -> int {
    (c as int) - ('0' as int)
}

/// Value of a run of ASCII digits.
pub open spec fn digits_value(s: Seq<char>) -> int
    decreases s.len(),
{
    if s.len() == 0 {
        0
    } else {
        digits_value(s.drop_last()) * 10 + digit_value(s.last())
    }
}

/// Every character is an ASCII digit.
pub open spec fn all_digits(s: Seq<char>) -> bool {
    forall|i: int| 0 <= i < s.len() ==> '0' <= #[trigger] s[i] && s[i] <= '9'
}

/// `u64::from_str`: optional `+`, then at least one ASCII digit, within range.
pub open spec fn parse_u64_spec(s: Seq<char>) -> Option<u64> {
    let d = if s.len() > 0 && s[0] == '+' {
        s.drop_first()
    } else {
        s
    };
    if d.len() > 0 && all_digits(d) && digits_value(d) <= u64::MAX {
        Some(digits_value(d) as u64)
    } else {
        None
    }
}

proof fn lemma_digits_nonneg(s: Seq<char>)
    requires
        all_digits(s),
    ensures
        digits_value(s) >= 0,
    decreases s.len(),
{
    if s.len() > 0 {
        assert(all_digits(s.drop_last())) by {
            assert forall|i: int| 0 <= i < s.drop_last().len() implies '0' <= #[trigger] s.drop_last()[i] && s.drop_last()[i] <= '9' by {
                assert(s.drop_last()[i] == s[i]);
            }
        }
        lemma_digits_nonneg(s.drop_last());
        assert('0' <= s[s.len() - 1]);
    }
}

/// `u64::from_str`.
pub fn parse_u64(s: &str) -> (r: Option<u64>)
    ensures
        r == parse_u64_spec(s@),
{
    let v = chars_of(s);
    let start: usize = if v.len() > 0 && v[0] == '+' {
        1
    } else {
        0
    };
    let d = slice_vec(&v, start, v.len());
    proof {
        if start == 1 {
            assert(d@ =~= s@.drop_first());
        } else {
            assert(d@ =~= s@);
        }
    }
    if d.len() == 0 {
        return None;
    }
    let mut acc: u64 = 0;
    let mut i: usize = 0;
    while i < d.len()
        invariant
            i <= d.len(),
            d@ == (if s@.len() > 0 && s@[0] == '+' {
                s@.drop_first()
            } else {
                s@
            }),
            all_digits(d@.take(i as int)),
            acc as int == digits_value(d@.take(i as int)),
        decreases d.len() - i,
    {
        let c = d[i];
        proof {
            assert(d@.take(i + 1).drop_last() =~= d@.take(i as int));
            assert(d@.take(i + 1).last() == c);
        }
        if !('0' <= c && c <= '9') {
            assert(!all_digits(d@)) by {
                assert(d@[i as int] == c);
            }
            return None;
        }
        let dv: u64 = (c as u32 - '0' as u32) as u64;
        assert(dv as int == digit_value(c));
        if acc > (u64::MAX - dv) / 10 {
            proof {
                assert(acc * 10 + dv > u64::MAX) by (nonlinear_arith)
                    requires
                        acc > (u64::MAX - dv) / 10,
                        dv <= 9,
                ;
                assert(digits_value(d@.take(i + 1)) == acc * 10 + dv);
                assert(all_digits(d@.take(i + 1))) by {
                    assert forall|j: int| 0 <= j < i + 1 implies '0' <= #[trigger] d@.take(i + 1)[j] && d@.take(i + 1)[j] <= '9' by {
                        if j < i {
                            assert(d@.take(i + 1)[j] == d@.take(i as int)[j]);
                        }
                    }
                }
                lemma_digits_prefix_bound(d@, (i + 1) as int);
            }
            return None;
        }
        proof {
            assert(acc * 10 + dv <= u64::MAX) by (nonlinear_arith)
                requires
                    acc <= (u64::MAX - dv) / 10,
                    dv <= 9,
            ;
        }
        acc = acc * 10 + dv;
        i = i + 1;
        assert(all_digits(d@.take(i as int))) by {
            assert forall|j: int| 0 <= j < i implies '0' <= #[trigger] d@.take(i as int)[j] && d@.take(i as int)[j] <= '9' by {
                if j < i - 1 {
                    assert(d@.take(i as int)[j] == d@.take(i - 1)[j]);
                }
            }
        }
    }
    assert(d@.take(d.len() as int) =~= d@);
    Some(acc)
}

proof fn lemma_digits_prefix_bound(d: Seq<char>, k: int)
    requires
        0 < k <= d.len(),
        all_digits(d.take(k)),
    ensures
        all_digits(d) ==> digits_value(d) >= digits_value(d.take(k)),
    decreases d.len() - k,
{
    if k < d.len() && all_digits(d) {
        assert(all_digits(d.take(k + 1))) by {
            assert forall|j: int| 0 <= j < k + 1 implies '0' <= #[trigger] d.take(k + 1)[j] && d.take(k + 1)[j] <= '9' by {
                assert(d.take(k + 1)[j] == d[j]);
            }
        }
        lemma_digits_prefix_bound(d, k + 1);
        assert(d.take(k + 1).drop_last() =~= d.take(k));
        lemma_digits_nonneg(d.take(k));
        assert('0' <= d[k]);
        assert(digits_value(d.take(k + 1)) >= digits_value(d.take(k)) * 10);
        assert(digits_value(d.take(k)) * 10 >= digits_value(d.take(k)));
    } else if k == d.len() {
        assert(d.take(k) =~= d);
    }
}

/// The stamp's recorded size: its trimmed text as a decimal `u64`.
pub open spec fn stamp_size(text: Seq<char>) -> Option<u64> {
    parse_u64_spec(trim(text))
}

/// The file's bytes end like a complete proto (`}` and a line break).
pub open spec fn tail_complete_spec(bytes: Seq<u8>) -> bool {
    (bytes.len() >= 2 && bytes[bytes.len() - 2] == 0x7du8 && bytes[bytes.len() - 1] == 0x0au8) || (
    bytes.len() >= 3 && bytes[bytes.len() - 3] == 0x7du8 && bytes[bytes.len() - 2] == 0x0du8
        && bytes[bytes.len() - 1] == 0x0au8)
}

/// The file's bytes end like a complete proto (guards against a write cut short).
pub fn validate_proto_tail(tail: &Vec<u8>) -> (r: bool)
    ensures
        r == tail_complete_spec(tail@),
{
    let n = tail.len();
    (n >= 2 && tail[n - 2] == 0x7du8 && tail[n - 1] == 0x0au8) || (n >= 3 && tail[n - 3] == 0x7du8
        && tail[n - 2] == 0x0du8 && tail[n - 1] == 0x0au8)
}

/// A cached export is reused only when its schema exists, is large enough, matches the
/// stamp's size, and ends completely.
pub open spec fn export_current_spec(size: Option<u64>, stamp: Option<Seq<char>>, tail_complete: bool) -> bool {
    match size {
        None => false,
        Some(n) => n >= min_validate_bytes() && match stamp {
            Some(t) => stamp_size(t) == Some(n),
            None => false,
        } && tail_complete,
    }
}

/// Whether a cached export can be reused, from the schema's size (if it exists), the
/// stamp's text (if readable), and whether the schema ends completely.
pub fn export_is_current(size: Option<u64>, stamp: &Option<String>, tail_complete: bool) -> (r: bool)
    ensures
        r == export_current_spec(
            size,
            match stamp {
                Some(s) => Some(s@),
                None => None,
            },
            tail_complete,
        ),
{
    let n = match size {
        None => {
            return false;
        },
        Some(n) => n,
    };
    if n < min_validate_size() {
        return false;
    }
    let recorded = match stamp {
        Some(t) => parse_u64(trim_str(t.as_str()).as_str()),
        None => {
            return false;
        },
    };
    if recorded != Some(n) {
        return false;
    }
    tail_complete
}

/// What to do for an export: reuse the cached one, or build into a staging directory.
pub enum ExportStep {
    Reuse(String),
    Rebuild { staging: String },
}

/// Reuse the export when not refreshing and it is current; else rebuild it in staging.
pub fn ensure_proto_deps_export(export_dir: &str, refresh: bool, current: bool, nonce: u128) -> (r: ExportStep)
    ensures
        !refresh && current ==> (r matches ExportStep::Reuse(p) && p@ == export_dir@),
        !(!refresh && current) ==> (r matches ExportStep::Rebuild { staging } && staging@ == join_spec(
            parent_or_dot(export_dir@),
            export_name(export_dir@) + ".staging-"@ + dec(nonce as nat),
        )),
{
    if !refresh && current {
        ExportStep::Reuse(to_string(export_dir))
    } else {
        ExportStep::Rebuild { staging: staging_export_dir(export_dir, nonce) }
    }
}

/// Why a fresh export is refused: no schema, a schema too small, or one cut short.
pub open spec fn export_problem(
    validate: Seq<char>,
    proto_root: Seq<char>,
    is_file: bool,
    size: u64,
    tail_complete: bool,
) -> Option<Seq<char>> {
    if !is_file {
        Some("buf export missing "@ + validate + "; run `buf dep update` in "@ + proto_root)
    } else if size < min_validate_bytes() {
        Some("buf export produced unexpectedly small "@ + validate + "; expected at least 100000 bytes"@)
    } else if !tail_complete {
        Some("buf export produced incomplete "@ + validate + "; file does not end with a closing brace"@)
    } else {
        None
    }
}

/// Checks a fresh export's schema; its size on success.
pub fn validate_export_dir(
    export_dir: &str,
    proto_root: &str,
    is_file: bool,
    size: u64,
    tail_complete: bool,
) -> (r: Result<u64, String>)
    ensures
        match export_problem(join_spec(export_dir@, "buf/validate/validate.proto"@), proto_root@, is_file, size, tail_complete) {
            Some(m) => r matches Err(s) && s@ == m,
            None => r == Ok::<u64, String>(size),
        },
{
    let validate = validate_proto_path(export_dir);
    if !is_file {
        let mut m = to_string("buf export missing ");
        m.append(validate.as_str());
        m.append("; run `buf dep update` in ");
        m.append(proto_root);
        return Err(m);
    }
    if size < min_validate_size() {
        let mut m = to_string("buf export produced unexpectedly small ");
        m.append(validate.as_str());
        m.append("; expected at least 100000 bytes");
        return Err(m);
    }
    if !tail_complete {
        let mut m = to_string("buf export produced incomplete ");
        m.append(validate.as_str());
        m.append("; file does not end with a closing brace");
        return Err(m);
    }
    Ok(size)
}

/// Stamp file text for a schema of `size` bytes.
pub fn export_stamp_text(size: u64) -> (r: String)
    ensures
        r@ == dec(size as nat) + seq!['\n'],
{
    let mut s = decimal(size);
    crate::text::push_char(&mut s, '\n');
    s
}

proof fn lemma_digit_value(k: nat)
    requires
        k < 10,
    ensures
        digit_value(digit(k)) == k,
        '0' <= digit(k) && digit(k) <= '9',
{
}

proof fn lemma_dec_digits(n: nat)
    ensures
        dec(n).len() > 0,
        all_digits(dec(n)),
        digits_value(dec(n)) == n,
    decreases n,
{
    if n < 10 {
        lemma_digit_value(n);
        assert(dec(n).drop_last() =~= Seq::<char>::empty());
        assert(dec(n).last() == digit(n));
        assert(digits_value(Seq::<char>::empty()) == 0);
        assert(digits_value(dec(n)) == digits_value(dec(n).drop_last()) * 10 + digit_value(dec(n).last()));
    } else {
        lemma_dec_digits(n / 10);
        lemma_digit_value(n % 10);
        let d = dec(n);
        assert(d.drop_last() =~= dec(n / 10));
        assert(d.last() == digit(n % 10));
        assert(digits_value(d) == digits_value(dec(n / 10)) * 10 + digit_value(digit(n % 10)));
        assert((n / 10) * 10 + n % 10 == n);
        assert forall|i: int| 0 <= i < d.len() implies '0' <= #[trigger] d[i] && d[i] <= '9' by {
            if i < d.len() - 1 {
                assert(d[i] == dec(n / 10)[i]);
            }
        }
    }
}

proof fn lemma_trim_stamp(n: nat)
    ensures
        trim(dec(n) + seq!['\n']) == dec(n),
{
    lemma_dec_digits(n);
    let s = dec(n) + seq!['\n'];
    assert(s[0] == dec(n)[0]);
    assert(!crate::text::is_ws(s[0]));
    assert(crate::text::trim_start(s) == s);
    assert(s.drop_last() =~= dec(n));
    assert(crate::text::is_ws(s.last()));
    assert(dec(n).last() == dec(n)[dec(n).len() - 1]);
    assert(crate::text::trim_end(dec(n)) == dec(n));
}

/// The stamp written for a schema of `n` bytes reads back as `n`; so an export whose
/// schema still has that size, is large enough and ends completely is reused.
pub proof fn law_stamp_round_trip(n: u64)
    ensures
        stamp_size(dec(n as nat) + seq!['\n']) == Some(n),
        n >= min_validate_bytes() ==> export_current_spec(Some(n), Some(dec(n as nat) + seq!['\n']), true),
{
    lemma_trim_stamp(n as nat);
    lemma_dec_digits(n as nat);
    assert(dec(n as nat)[0] != '+');
}

} // verus!
