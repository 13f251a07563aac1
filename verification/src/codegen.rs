//! Descriptor helpers: RPC streaming kinds and type-name splitting.

use crate::descriptor::MethodDesc;
use crate::text::{chars_of, last_index_of, rfind_char, slice_vec, starts_with, string_of};
use vstd::prelude::*;

verus! {

/// gRPC / Connect streaming classification of an RPC.
#[derive(Clone, Copy, Debug, PartialEq, Eq, Structural)]
pub enum RpcKind {
    Unary,
    ClientStreaming,
    ServerStreaming,
    BidiStreaming,
}

/// Streaming kind from the two streaming flags (absent means `false`).
pub open spec fn rpc_kind_spec(client: Option<bool>, server: Option<bool>) -> RpcKind {
    let c = client == Some(true);
    let s = server == Some(true);
    if !c && !s {
        RpcKind::Unary
    } else if c && !s {
        RpcKind::ClientStreaming
    } else if !c && s {
        RpcKind::ServerStreaming
    } else {
        RpcKind::BidiStreaming
    }
}

/// Streaming kind of an RPC.
pub fn rpc_kind(method: &MethodDesc) -> (r: RpcKind)
    ensures
        r == rpc_kind_spec(method.client_streaming, method.server_streaming),
{
    let client = match method.client_streaming {
        Some(b) => b,
        None => false,
    };
    let server = match method.server_streaming {
        Some(b) => b,
        None => false,
    };
    if !client && !server {
        RpcKind::Unary
    } else if client && !server {
        RpcKind::ClientStreaming
    } else if !client && server {
        RpcKind::ServerStreaming
    } else {
        RpcKind::BidiStreaming
    }
}

/// `(package, type)` of a fully-qualified `.pkg.Type` name.
pub open spec fn split_type_name_spec(fqn: Seq<char>) -> Option<(Seq<char>, Seq<char>)> {
    if !starts_with(fqn, seq!['.']) {
        None
    } else {
        let s = fqn.skip(1);
        let j = last_index_of(s, '.');
        if j < 0 {
            None
        } else {
            let pkg = s.take(j);
            let msg = s.skip(j + 1);
            if pkg.len() == 0 || msg.len() == 0 {
                None
            } else {
                Some((pkg, msg))
            }
        }
    }
}

/// Split a fully-qualified protobuf type name (`.pkg.Type`) into package and type.
///
/// `None` when `fqn` lacks the leading `.`, has no inner `.`, or has an empty segment.
pub fn split_proto_type_name(fqn: &str) -> (r: Option<(String, String)>)
    ensures
        match split_type_name_spec(fqn@) {
            None => r is None,
            Some((p, m)) => r matches Some((rp, rm)) && rp@ == p && rm@ == m,
        },
{
    let v = chars_of(fqn);
    if v.len() == 0 || v[0] != '.' {
        assert(!starts_with(v@, seq!['.'])) by {
            if v@.len() > 0 {
                assert(v@.take(1)[0] == v@[0]);
            }
        }
        return None;
    }
    assert(starts_with(v@, seq!['.'])) by {
        assert(v@.take(1) =~= seq!['.']);
    }
    let s = slice_vec(&v, 1, v.len());
    assert(s@ =~= v@.skip(1));
    match rfind_char(&s, '.') {
        None => None,
        Some(j) => {
            if j == 0 || j + 1 == s.len() {
                return None;
            }
            let pkg = slice_vec(&s, 0, j);
            let msg = slice_vec(&s, j + 1, s.len());
            assert(pkg@ =~= s@.take(j as int));
            assert(msg@ =~= s@.skip(j + 1));
            Some((string_of(&pkg), string_of(&msg)))
        },
    }
}

/// `.{p}.{m}`.
pub open spec fn dotted(p: Seq<char>, m: Seq<char>) -> Seq<char> {
    seq!['.'] + p + seq!['.'] + m
}

/// A fully-qualified name splits at its last `.`: the parts are non-empty, the type
/// has no `.`, and the name is `.{package}.{type}`; conversely every such name splits
/// back into its package and type.
pub proof fn law_type_name_splits_at_last_dot(fqn: Seq<char>, p: Seq<char>, m: Seq<char>)
    ensures
        split_type_name_spec(fqn) matches Some(r) ==> (fqn == dotted(r.0, r.1) && r.0.len() > 0 && r.1.len() > 0
            && !r.1.contains('.')),
        (p.len() > 0 && m.len() > 0 && !m.contains('.')) ==> split_type_name_spec(dotted(p, m)) == Some((p, m)),
{
    match split_type_name_spec(fqn) {
        Some(r) => {
            let s = fqn.skip(1);
            let j = last_index_of(s, '.');
            crate::text::lemma_last_index_of_props(s, '.');
            assert(fqn =~= dotted(r.0, r.1)) by {
                assert(fqn.take(1) =~= seq!['.']);
                assert(fqn =~= seq!['.'] + s);
                assert(s =~= s.take(j) + seq!['.'] + s.skip(j + 1));
            }
            assert(!r.1.contains('.')) by {
                if r.1.contains('.') {
                    let k = choose|k: int| 0 <= k < r.1.len() && r.1[k] == '.';
                    assert(s[j + 1 + k] == '.');
                }
            }
        },
        None => {},
    }
    if p.len() > 0 && m.len() > 0 && !m.contains('.') {
        let f = dotted(p, m);
        let s = f.skip(1);
        assert(f.take(1) =~= seq!['.']);
        assert(s =~= p + seq!['.'] + m);
        let j = p.len() as int;
        assert forall|k: int| j < k < s.len() implies s[k] != '.' by {
            assert(s[k] == m[k - j - 1]);
        }
        crate::text::lemma_last_index_of(s, '.', j);
        assert(s.take(j) =~= p);
        assert(s.skip(j + 1) =~= m);
    }
}

} // verus!
