//! Checks on the vendored Highlight.js grammars: SHA-256 hashes in lowercase hex, and
//! the fields of each grammar's `*.meta.json`.

use crate::init::{mdbook_version, mdbook_version_spec};
use crate::text::{chars_of, contains_sub, ends_with, str_contains, string_of_range};
use sha2::Digest;
use sha2::Sha256;
use vstd::prelude::*;

verus! {

/// The SHA-256 digest of a byte string.
pub uninterp spec fn sha256_spec(bytes: Seq<u8>) -> Seq<u8>;

/// `sha2::Sha256::digest` (through `digest::Digest`): the SHA-256 digest of `bytes`.
/// Claimed: the result is the digest named `sha256_spec` of the bytes, 32 bytes long
/// (the output type of `Sha256` is a 32-byte array).
#[verifier::external_body]
fn sha256_digest(bytes: &Vec<u8>) -> (r: Vec<u8>)
    ensures
        r@ == sha256_spec(bytes@),
        r@.len() == 32,
{
    Sha256::digest(bytes.as_slice()).to_vec()
}

/// Lowercase hexadecimal digit of `d` (below 16).
pub open spec fn hex_digit(d: nat) -> char {
    "0123456789abcdef"@[d as int]
}

/// `bytes` in lowercase hexadecimal, two digits per byte (`format!("{:x}", ..)` of a
/// digest).
pub open spec fn hex_lower(bytes: Seq<u8>) -> Seq<char>
    decreases bytes.len(),
{
    if bytes.len() == 0 {
        Seq::empty()
    } else {
        hex_lower(bytes.drop_last()) + seq![
            hex_digit((bytes.last() / 16) as nat),
            hex_digit((bytes.last() % 16) as nat),
        ]
    }
}

/// `bytes` in lowercase hexadecimal.
pub fn hex_string(bytes: &Vec<u8>) -> (r: String)
    ensures
        r@ == hex_lower(bytes@),
{
    let digits = chars_of("0123456789abcdef");
    proof {
        reveal_strlit("0123456789abcdef");
    }
    let mut r = String::new();
    let mut i: usize = 0;
    while i < bytes.len()
        invariant
            i <= bytes.len(),
            digits@ == "0123456789abcdef"@,
            digits@.len() == 16,
            r@ == hex_lower(bytes@.take(i as int)),
        decreases bytes.len() - i,
    {
        let b = bytes[i];
        crate::text::push_char(&mut r, digits[(b / 16) as usize]);
        crate::text::push_char(&mut r, digits[(b % 16) as usize]);
        proof {
            assert(bytes@.take(i + 1).drop_last() =~= bytes@.take(i as int));
            assert(bytes@.take(i + 1).last() == b);
        }
        i = i + 1;
    }
    assert(bytes@.take(bytes.len() as int) =~= bytes@);
    r
}

/// The SHA-256 digest of `bytes` in lowercase hexadecimal.
pub fn sha256_hex_bytes(bytes: &Vec<u8>) -> (r: String)
    ensures
        r@ == hex_lower(sha256_spec(bytes@)),
{
    let d = sha256_digest(bytes);
    hex_string(&d)
}

/// The vendored file hashes to the value recorded in its metadata.
pub fn vendored_hash_matches(bytes: &Vec<u8>, expected: &str) -> (r: bool)
    ensures
        r == (hex_lower(sha256_spec(bytes@)) == expected@),
{
    let h = sha256_hex_bytes(bytes);
    crate::text::str_eq(h.as_str(), expected)
}

/// A metadata file of a vendored grammar: its name ends in `.meta.json`.
pub fn is_meta_file(file_name: &str) -> (r: bool)
    ensures
        r == ends_with(file_name@, ".meta.json"@),
{
    let v = chars_of(file_name);
    let s = chars_of(".meta.json");
    crate::text::ends_with_exec(&v, &s)
}

/// `Path::file_stem` of a file name: `None` for no name, `.` or `..`; the whole name
/// when it has no `.` after its first character; else the part before the last `.`.
pub open spec fn file_stem_spec(name: Seq<char>) -> Option<Seq<char>> {
    if name.len() == 0 || name == seq!['.'] || name == seq!['.', '.'] {
        None
    } else {
        let i = crate::text::last_index_of(name, '.');
        if i > 0 {
            Some(name.take(i))
        } else {
            Some(name)
        }
    }
}

/// Name of the grammar: the metadata's `grammar` field, else the metadata file's stem
/// without a `.meta` suffix; none when neither exists.
pub open spec fn grammar_spec(grammar: Option<Seq<char>>, meta_file_name: Seq<char>) -> Option<Seq<char>> {
    match grammar {
        Some(g) => Some(g),
        None => match file_stem_spec(meta_file_name) {
            Some(st) => Some(
                if ends_with(st, ".meta"@) {
                    st.take(st.len() - ".meta"@.len())
                } else {
                    st
                },
            ),
            None => None,
        },
    }
}

/// Name of the grammar: the metadata's `grammar` field, else the metadata file's stem
/// without a `.meta` suffix.
pub fn grammar_name(grammar: &Option<String>, meta_file_name: &str) -> (r: Option<String>)
    ensures
        opt_view(r) == grammar_spec(opt_view(*grammar), meta_file_name@),
{
    match grammar {
        Some(g) => Some(g.clone()),
        None => {
            let v = chars_of(meta_file_name);
            let dot_name = v.len() == 1 && v[0] == '.';
            let dotdot_name = v.len() == 2 && v[0] == '.' && v[1] == '.';
            proof {
                if v@ == seq!['.'] {
                    assert(v@[0] == '.');
                }
                if v@ == seq!['.', '.'] {
                    assert(v@[0] == '.' && v@[1] == '.');
                }
                if dot_name {
                    assert(v@ =~= seq!['.']);
                }
                if dotdot_name {
                    assert(v@ =~= seq!['.', '.']);
                }
            }
            if v.len() == 0 || dot_name || dotdot_name {
                return None;
            }
            let stem = match crate::text::rfind_char(&v, '.') {
                Some(i) => if i > 0 {
                    crate::text::slice_vec(&v, 0, i)
                } else {
                    crate::text::copy_chars(&v)
                },
                None => crate::text::copy_chars(&v),
            };
            proof {
                match crate::text::last_index_of(v@, '.') {
                    i => if i > 0 {
                        assert(v@.subrange(0, i) =~= v@.take(i));
                    },
                }
            }
            let suffix = chars_of(".meta");
            if crate::text::ends_with_exec(&stem, &suffix) {
                Some(string_of_range(&stem, 0, stem.len() - suffix.len()))
            } else {
                Some(crate::text::string_of(&stem))
            }
        },
    }
}

/// The metadata's mdBook pin is part of the mdBook version this library is built with.
pub fn mdbook_pin_matches(pin: &str) -> (r: bool)
    ensures
        r == contains_sub(mdbook_version_spec(), pin@),
{
    str_contains(mdbook_version(), pin)
}

/// What to check of a grammar's upstream source.
pub enum UpstreamCheck {
    /// A local grammar: only the vendored hash is checked.
    Local,
    /// Fetch `url` and compare its hash with `expected`.
    Fetch { url: String, expected: String },
}

/// A metadata string that is present and not empty.
pub open spec fn present(v: Option<Seq<char>>) -> Option<Seq<char>> {
    match v {
        Some(s) => if s.len() > 0 {
            Some(s)
        } else {
            None
        },
        None => None,
    }
}

/// The optional string as plain values.
pub open spec fn opt_view(v: Option<String>) -> Option<Seq<char>> {
    match v {
        Some(s) => Some(s@),
        None => None,
    }
}

/// The upstream check from the `upstream_file_url` and `upstream_sha256` fields (an
/// empty string counts as absent): both absent is a local grammar, both present a
/// fetch; one without the other is refused.
pub fn upstream_check(url: &Option<String>, sha: &Option<String>) -> (r: Result<UpstreamCheck, ()>)
    ensures
        match (present(opt_view(*url)), present(opt_view(*sha))) {
            (None, None) => r matches Ok(UpstreamCheck::Local),
            (Some(u), Some(e)) => r matches Ok(UpstreamCheck::Fetch { url: x, expected: y }) && x@ == u && y@
                == e,
            _ => r is Err,
        },
{
    let u = match url {
        Some(s) => if s.as_str().unicode_len() > 0 {
            Some(s.clone())
        } else {
            None
        },
        None => None,
    };
    let e = match sha {
        Some(s) => if s.as_str().unicode_len() > 0 {
            Some(s.clone())
        } else {
            None
        },
        None => None,
    };
    match (u, e) {
        (None, None) => Ok(UpstreamCheck::Local),
        (Some(x), Some(y)) => Ok(UpstreamCheck::Fetch { url: x, expected: y }),
        _ => Err(()),
    }
}


/// What `serde_json` reads from `bytes` at the top-level key `key`: none when the bytes
/// are not JSON; otherwise the string there, if the value is an object whose `key`
/// holds a string.
pub uninterp spec fn json_string_field(bytes: Seq<u8>, key: Seq<char>) -> Option<Option<Seq<char>>>;

/// The text of `serde_json`'s error on bytes that are not JSON.
pub uninterp spec fn json_parse_error(bytes: Seq<u8>) -> Seq<char>;

/// `serde_json::from_slice` into a `serde_json::Value`, then `Value::get(key)` and
/// `Value::as_str`. Claimed: the outcome is what `json_string_field` and
/// `json_parse_error` name for these bytes and this key; whether the bytes parse does
/// not depend on the key.
#[verifier::external_body]
fn json_field_raw(bytes: &Vec<u8>, key: &str) -> (r: Result<Option<String>, String>)
    ensures
        match r {
            Ok(f) => json_string_field(bytes@, key@) == Some(opt_view(f)) && forall|k: Seq<char>|
                #[trigger] json_string_field(bytes@, k) is Some,
            Err(e) => e@ == json_parse_error(bytes@) && forall|k: Seq<char>|
                #[trigger] json_string_field(bytes@, k) is None,
        },
{
    match serde_json::from_slice::<serde_json::Value>(bytes.as_slice()) {
        Ok(v) => Ok(v.get(key).and_then(|x| x.as_str()).map(str::to_string)),
        Err(e) => Err(format!("{e}")),
    }
}

/// The fields of a grammar's `*.meta.json` that the vendor check reads; a field is
/// none when it is missing or not a string.
pub struct MetaJson {
    pub grammar: Option<String>,
    pub mdbook_pin: Option<String>,
    pub vendored_file: Option<String>,
    pub vendored_sha256: Option<String>,
    pub upstream_file_url: Option<String>,
    pub upstream_sha256: Option<String>,
}

/// The fields of a `*.meta.json` file's bytes; refused with `serde_json`'s error when
/// the bytes are not JSON.
pub fn read_meta(bytes: &Vec<u8>) -> (r: Result<MetaJson, String>)
    ensures
        match json_string_field(bytes@, "grammar"@) {
            None => r matches Err(e) && e@ == "parse meta.json: "@ + json_parse_error(bytes@),
            Some(g) => r matches Ok(m) && {
                &&& opt_view(m.grammar) == g
                &&& json_string_field(bytes@, "mdbook_pin"@) == Some(opt_view(m.mdbook_pin))
                &&& json_string_field(bytes@, "vendored_file"@) == Some(opt_view(m.vendored_file))
                &&& json_string_field(bytes@, "vendored_sha256"@) == Some(opt_view(m.vendored_sha256))
                &&& json_string_field(bytes@, "upstream_file_url"@) == Some(opt_view(m.upstream_file_url))
                &&& json_string_field(bytes@, "upstream_sha256"@) == Some(opt_view(m.upstream_sha256))
            },
        },
{
    let grammar = match json_field_raw(bytes, "grammar") {
        Ok(f) => f,
        Err(e) => {
            let mut m = crate::text::to_string("parse meta.json: ");
            m.append(e.as_str());
            return Err(m);
        },
    };
    let mdbook_pin = meta_field(bytes, "mdbook_pin");
    let vendored_file = meta_field(bytes, "vendored_file");
    let vendored_sha256 = meta_field(bytes, "vendored_sha256");
    let upstream_file_url = meta_field(bytes, "upstream_file_url");
    let upstream_sha256 = meta_field(bytes, "upstream_sha256");
    Ok(MetaJson { grammar, mdbook_pin, vendored_file, vendored_sha256, upstream_file_url, upstream_sha256 })
}

/// One string field of bytes already known to be JSON.
fn meta_field(bytes: &Vec<u8>, key: &str) -> (r: Option<String>)
    requires
        json_string_field(bytes@, "grammar"@) is Some,
    ensures
        json_string_field(bytes@, key@) == Some(opt_view(r)),
{
    match json_field_raw(bytes, key) {
        Ok(f) => f,
        Err(_) => {
            assert(json_string_field(bytes@, "grammar"@) is None);
            None
        },
    }
}

} // verus!
