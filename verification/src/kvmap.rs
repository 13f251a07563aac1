//! Output files keyed by path: a vector kept sorted by key, each key once.

use crate::text::{chars_eq, chars_of, lemma_str_lt_total, lemma_str_lt_trans, str_less, str_lt};
use vstd::prelude::*;

verus! {

/// Path/content pairs as plain values.
pub type KvView = Seq<(Seq<char>, Seq<char>)>;

/// Path/content pairs as plain values.
pub open spec fn kv_view(v: Seq<(String, String)>) -> KvView {
    v.map_values(|p: (String, String)| (p.0@, p.1@))
}

/// Index of the entry keyed `k`, or `-1`.
pub open spec fn kv_index(m: KvView, k: Seq<char>) -> int
    decreases m.len(),
{
    if m.len() == 0 {
        -1
    } else if m.last().0 == k {
        m.len() - 1
    } else {
        kv_index(m.drop_last(), k)
    }
}

/// Number of leading entries whose key sorts before `k`.
pub open spec fn kv_pos(m: KvView, k: Seq<char>) -> int
    decreases m.len(),
{
    if m.len() == 0 || !str_lt(m[0].0, k) {
        0
    } else {
        1 + kv_pos(m.drop_first(), k)
    }
}

/// `m` with `k` set to `v` (replacing, or inserted in key order).
pub open spec fn kv_insert(m: KvView, k: Seq<char>, v: Seq<char>) -> KvView {
    let i = kv_index(m, k);
    if i >= 0 {
        m.update(i, (k, v))
    } else {
        m.insert(kv_pos(m, k), (k, v))
    }
}

/// Content stored under `k`.
pub open spec fn kv_get(m: KvView, k: Seq<char>) -> Option<Seq<char>> {
    let i = kv_index(m, k);
    if i >= 0 {
        Some(m[i].1)
    } else {
        None
    }
}

/// Keys strictly increase (so each key occurs once).
pub open spec fn kv_sorted(m: KvView) -> bool {
    forall|i: int, j: int| 0 <= i < j < m.len() ==> str_lt(#[trigger] m[i].0, #[trigger] m[j].0)
}

/// The entry keyed `k` is where `kv_index` says, or there is none.
pub proof fn lemma_kv_index(m: KvView, k: Seq<char>)
    ensures
        -1 <= kv_index(m, k) < m.len(),
        kv_index(m, k) >= 0 ==> m[kv_index(m, k)].0 == k,
        kv_index(m, k) < 0 ==> forall|i: int| 0 <= i < m.len() ==> m[i].0 != k,
    decreases m.len(),
{
    if m.len() > 0 && m.last().0 != k {
        lemma_kv_index(m.drop_last(), k);
        assert forall|i: int| 0 <= i < m.len() - 1 implies m[i] == m.drop_last()[i] by {}
    }
}

proof fn lemma_kv_index_unique(m: KvView, k: Seq<char>, j: int)
    requires
        kv_sorted(m),
        0 <= j < m.len(),
        m[j].0 == k,
    ensures
        kv_index(m, k) == j,
{
    lemma_kv_index(m, k);
    let i = kv_index(m, k);
    if i != j {
        crate::text::lemma_str_lt_irrefl(k);
    }
}

proof fn lemma_kv_pos(m: KvView, k: Seq<char>)
    requires
        kv_sorted(m),
    ensures
        0 <= kv_pos(m, k) <= m.len(),
        forall|i: int| 0 <= i < kv_pos(m, k) ==> str_lt(#[trigger] m[i].0, k),
        forall|i: int| kv_pos(m, k) <= i < m.len() ==> !str_lt(#[trigger] m[i].0, k),
    decreases m.len(),
{
    if m.len() > 0 {
        let t = m.drop_first();
        assert(kv_sorted(t)) by {
            assert forall|i: int, j: int| 0 <= i < j < t.len() implies str_lt(#[trigger] t[i].0, #[trigger] t[j].0) by {
                assert(t[i] == m[i + 1] && t[j] == m[j + 1]);
            }
        }
        lemma_kv_pos(t, k);
        if str_lt(m[0].0, k) {
            assert forall|i: int| 0 <= i < kv_pos(m, k) implies str_lt(#[trigger] m[i].0, k) by {
                if i > 0 {
                    assert(m[i] == t[i - 1]);
                }
            }
            assert forall|i: int| kv_pos(m, k) <= i < m.len() implies !str_lt(#[trigger] m[i].0, k) by {
                assert(m[i] == t[i - 1]);
            }
        } else {
            assert forall|i: int| 0 <= i < m.len() implies !str_lt(#[trigger] m[i].0, k) by {
                if i > 0 && str_lt(m[i].0, k) {
                    lemma_str_lt_trans(m[0].0, m[i].0, k);
                }
            }
        }
    }
}

/// `kv_pos` is a position in `m`.
pub proof fn lemma_kv_pos_bounds(m: KvView, k: Seq<char>)
    ensures
        0 <= kv_pos(m, k) <= m.len(),
    decreases m.len(),
{
    if m.len() > 0 && str_lt(m[0].0, k) {
        lemma_kv_pos_bounds(m.drop_first(), k);
    }
}

/// Setting a key keeps the keys sorted; reading the key back gives what was written,
/// and every other key reads as before.
pub proof fn law_kv_insert(m: KvView, k: Seq<char>, v: Seq<char>)
    requires
        kv_sorted(m),
    ensures
        kv_sorted(kv_insert(m, k, v)),
        kv_get(kv_insert(m, k, v), k) == Some(v),
        forall|k2: Seq<char>| k2 != k ==> kv_get(#[trigger] kv_insert(m, k, v), k2) == kv_get(m, k2),
{
    lemma_kv_index(m, k);
    let i = kv_index(m, k);
    let r = kv_insert(m, k, v);
    if i >= 0 {
        assert(kv_sorted(r)) by {
            assert forall|a: int, b: int| 0 <= a < b < r.len() implies str_lt(#[trigger] r[a].0, #[trigger] r[b].0) by {
                assert(r[a].0 == m[a].0 && r[b].0 == m[b].0);
            }
        }
        lemma_kv_index_unique(r, k, i);
        assert forall|k2: Seq<char>| k2 != k implies kv_get(#[trigger] kv_insert(m, k, v), k2) == kv_get(m, k2) by {
            lemma_kv_index(m, k2);
            let j = kv_index(m, k2);
            if j >= 0 {
                assert(r[j].0 == k2);
                lemma_kv_index_unique(r, k2, j);
            } else {
                lemma_kv_index(r, k2);
                if kv_index(r, k2) >= 0 {
                    assert(r[kv_index(r, k2)].0 == m[kv_index(r, k2)].0);
                }
            }
        }
    } else {
        lemma_kv_pos(m, k);
        let p = kv_pos(m, k);
        assert(kv_sorted(r)) by {
            assert forall|a: int, b: int| 0 <= a < b < r.len() implies str_lt(#[trigger] r[a].0, #[trigger] r[b].0) by {
                if a < p && b < p {
                    assert(r[a] == m[a] && r[b] == m[b]);
                } else if a < p && b == p {
                    assert(r[a] == m[a]);
                } else if a < p && b > p {
                    assert(r[a] == m[a] && r[b] == m[b - 1]);
                } else if a == p {
                    assert(r[b] == m[b - 1]);
                    lemma_str_lt_total(k, m[b - 1].0);
                } else {
                    assert(r[a] == m[a - 1] && r[b] == m[b - 1]);
                }
            }
        }
        lemma_kv_index_unique(r, k, p);
        assert forall|k2: Seq<char>| k2 != k implies kv_get(#[trigger] kv_insert(m, k, v), k2) == kv_get(m, k2) by {
            lemma_kv_index(m, k2);
            let j = kv_index(m, k2);
            if j >= 0 {
                let j2 = if j < p { j } else { j + 1 };
                assert(r[j2] == m[j]);
                lemma_kv_index_unique(r, k2, j2);
            } else {
                lemma_kv_index(r, k2);
                let j3 = kv_index(r, k2);
                if j3 >= 0 {
                    if j3 < p {
                        assert(r[j3] == m[j3]);
                    } else if j3 > p {
                        assert(r[j3] == m[j3 - 1]);
                    }
                }
            }
        }
    }
}

/// Index of the entry keyed `k`.
pub fn kv_find(m: &Vec<(String, String)>, k: &str) -> (r: Option<usize>)
    ensures
        match r {
            Some(i) => i < m.len() && kv_index(kv_view(m@), k@) == i,
            None => kv_index(kv_view(m@), k@) == -1,
        },
{
    let ghost mv = kv_view(m@);
    let kv = chars_of(k);
    let mut j: usize = m.len();
    assert(mv.take(j as int) =~= mv);
    while j > 0
        invariant
            j <= m.len(),
            mv == kv_view(m@),
            kv@ == k@,
            kv_index(mv, k@) == kv_index(mv.take(j as int), k@),
        decreases j,
    {
        assert(mv.take(j as int).last() == mv[j - 1]);
        assert(mv.take(j as int).drop_last() =~= mv.take(j - 1));
        if chars_eq(&chars_of(m[j - 1].0.as_str()), &kv) {
            return Some(j - 1);
        }
        j = j - 1;
    }
    None
}

/// Content stored under `k`.
pub fn kv_lookup<'a>(m: &'a Vec<(String, String)>, k: &str) -> (r: Option<&'a str>)
    ensures
        match kv_get(kv_view(m@), k@) {
            Some(v) => r matches Some(s) && s@ == v,
            None => r is None,
        },
{
    match kv_find(m, k) {
        Some(i) => Some(m[i].1.as_str()),
        None => None,
    }
}

/// Sets `k` to `v`.
pub fn kv_set(m: &mut Vec<(String, String)>, k: String, v: String)
    ensures
        kv_view(final(m)@) == kv_insert(kv_view(old(m)@), k@, v@),
{
    let ghost mv = kv_view(m@);
    match kv_find(m, k.as_str()) {
        Some(i) => {
            let _ = m.remove(i);
            m.insert(i, (k, v));
            assert(kv_view(m@) =~= kv_insert(mv, k@, v@));
        },
        None => {
            let mut p: usize = 0;
            assert(mv.skip(0) =~= mv);
            while p < m.len() && str_less(m[p].0.as_str(), k.as_str())
                invariant
                    p <= m.len(),
                    mv == kv_view(m@),
                    kv_pos(mv, k@) == p + kv_pos(mv.skip(p as int), k@),
                decreases m.len() - p,
            {
                assert(mv.skip(p as int)[0] == mv[p as int]);
                assert(mv.skip(p as int).drop_first() =~= mv.skip(p + 1));
                p = p + 1;
            }
            proof {
                if p < m.len() {
                    assert(mv.skip(p as int)[0] == mv[p as int]);
                }
            }
            m.insert(p, (k, v));
            assert(kv_view(m@) =~= kv_insert(mv, k@, v@));
        },
    }
}

} // verus!
