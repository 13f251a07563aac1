//! The protoc plugin protocol on the wire: requests and descriptor sets decoded with
//! buffa under the descriptor memory budget, and responses encoded.

use crate::kvmap::kv_view;
use crate::options::opt_view;
use crate::text::{to_string, views};
use buffa::{DecodeOptions, Message};
use buffa_descriptor::generated::compiler::code_generator_response::File as ResponseFile;
use buffa_descriptor::generated::compiler::{CodeGeneratorRequest, CodeGeneratorResponse};
use buffa_descriptor::generated::descriptor::{FileDescriptorProto, FileDescriptorSet};
use vstd::prelude::*;

verus! {

/// Element-memory budget for descriptor input (a plugin request or a descriptor set):
/// 1 GiB, since descriptor structs take several times their wire size.
pub const DESCRIPTOR_ELEMENT_MEMORY_LIMIT: usize = 1073741824;

/// `supported_features` of the response: proto3 `optional` fields are understood.
pub const FEATURE_PROTO3_OPTIONAL: u64 = 1;

#[verifier::external_type_specification]
#[verifier::external_body]
pub struct ExFileDescriptorProto(FileDescriptorProto);

/// What buffa decodes from `bytes` as a `CodeGeneratorRequest` under an element-memory
/// budget of `limit`: the number of file descriptors, the names to generate and the
/// parameter; none when the bytes do not decode.
pub uninterp spec fn decoded_request(bytes: Seq<u8>, limit: usize) -> Option<(nat, Seq<Seq<char>>, Option<Seq<char>>)>;

/// The text of buffa's error on `bytes` that do not decode as a request.
pub uninterp spec fn request_decode_error(bytes: Seq<u8>, limit: usize) -> Seq<char>;

/// `buffa::DecodeOptions::decode_from_slice` on a `CodeGeneratorRequest`, with an
/// element-memory limit. Claimed: the outcome is what the names `decoded_request` and
/// `request_decode_error` give for these bytes and this limit (decoding reads nothing
/// else). The file descriptors come back as buffa's; what they hold is not stated.
#[verifier::external_body]
fn decode_request_raw(bytes: &Vec<u8>, limit: usize) -> (r: Result<(Vec<FileDescriptorProto>, Vec<String>, Option<String>), String>)
    ensures
        match r {
            Ok(t) => decoded_request(bytes@, limit) == Some((t.0.len() as nat, views(t.1@), opt_view(t.2))),
            Err(e) => decoded_request(bytes@, limit) is None && e@ == request_decode_error(bytes@, limit),
        },
{
    match DecodeOptions::new().with_element_memory_limit(limit).decode_from_slice::<CodeGeneratorRequest>(bytes.as_slice()) {
        Ok(req) => Ok((req.proto_file, req.file_to_generate, req.parameter)),
        Err(e) => Err(format!("{e}")),
    }
}

/// What buffa decodes from `bytes` as a `FileDescriptorSet` under an element-memory
/// budget of `limit`: the name of each file descriptor, in order; none when the bytes
/// do not decode.
pub uninterp spec fn decoded_descriptor_set(bytes: Seq<u8>, limit: usize) -> Option<Seq<Option<Seq<char>>>>;

/// The text of buffa's error on `bytes` that do not decode as a descriptor set.
pub uninterp spec fn descriptor_set_decode_error(bytes: Seq<u8>, limit: usize) -> Seq<char>;

/// `buffa::DecodeOptions::decode_from_slice` on a `FileDescriptorSet`, with an
/// element-memory limit; each file comes with its `name`. Claimed: the outcome is what
/// the names `decoded_descriptor_set` and `descriptor_set_decode_error` give for these
/// bytes and this limit. What the file descriptors hold besides their names is not
/// stated.
#[verifier::external_body]
fn decode_descriptor_set_raw(bytes: &Vec<u8>, limit: usize) -> (r: Result<(Vec<FileDescriptorProto>, Vec<Option<String>>), String>)
    ensures
        match r {
            Ok(t) => t.0.len() == t.1.len() && decoded_descriptor_set(bytes@, limit) == Some(
                t.1@.map_values(|n: Option<String>| opt_view(n)),
            ),
            Err(e) => decoded_descriptor_set(bytes@, limit) is None && e@ == descriptor_set_decode_error(bytes@, limit),
        },
{
    match DecodeOptions::new().with_element_memory_limit(limit).decode_from_slice::<FileDescriptorSet>(bytes.as_slice()) {
        Ok(set) => {
            let names = set.file.iter().map(|f| f.name.clone()).collect();
            Ok((set.file, names))
        },
        Err(e) => Err(format!("{e}")),
    }
}

/// The bytes buffa encodes for a `CodeGeneratorResponse` with this error, these
/// supported features and these `(name, content)` files, in order; none when the
/// encoded message would exceed the 2 GiB protobuf limit.
pub uninterp spec fn encoded_response(
    error: Option<Seq<char>>,
    features: Option<u64>,
    files: Seq<(Seq<char>, Seq<char>)>,
) -> Option<Seq<u8>>;

/// buffa's text for a message whose encoded size exceeds the protobuf limit.
pub open spec fn too_large_text() -> Seq<char> {
    "message encoded size exceeds the 2 GiB protobuf limit"@
}

/// `buffa::Message::try_encode_to_vec` on a `CodeGeneratorResponse` built from these
/// values (each file with a name and content, no insertion point). Claimed: the bytes
/// are `encoded_response` of them; when that is none (the message is over the 2 GiB
/// limit), buffa's `MessageTooLarge` error, the only one it returns, with its text.
#[verifier::external_body]
fn encode_response(error: &Option<String>, features: Option<u64>, files: &Vec<(String, String)>) -> (r: Result<Vec<u8>, String>)
    ensures
        match r {
            Ok(b) => encoded_response(opt_view(*error), features, kv_view(files@)) == Some(b@),
            Err(e) => encoded_response(opt_view(*error), features, kv_view(files@)) is None && e@ == too_large_text(),
        },
{
    let file = files.iter().map(|(n, c)| ResponseFile { name: Some(n.clone()), content: Some(c.clone()), ..Default::default() }).collect();
    let response = CodeGeneratorResponse { error: error.clone(), supported_features: features, file, ..Default::default() };
    match response.try_encode_to_vec() {
        Ok(b) => Ok(b),
        Err(e) => Err(format!("{e}")),
    }
}

/// A plugin request: its file descriptors, the names to generate and the parameter,
/// decoded under the descriptor budget; refused with buffa's error when the bytes do
/// not decode.
pub fn request_parts(bytes: &Vec<u8>) -> (r: Result<(Vec<FileDescriptorProto>, Vec<String>, Option<String>), String>)
    ensures
        match decoded_request(bytes@, DESCRIPTOR_ELEMENT_MEMORY_LIMIT) {
            Some((n, names, p)) => r matches Ok(t) && t.0.len() == n && views(t.1@) == names && opt_view(t.2) == p,
            None => r matches Err(e) && e@ == "decode CodeGeneratorRequest: "@ + request_decode_error(
                bytes@,
                DESCRIPTOR_ELEMENT_MEMORY_LIMIT,
            ),
        },
{
    match decode_request_raw(bytes, DESCRIPTOR_ELEMENT_MEMORY_LIMIT) {
        Ok(t) => Ok(t),
        Err(e) => {
            let mut m = to_string("decode CodeGeneratorRequest: ");
            m.append(e.as_str());
            Err(m)
        },
    }
}

/// The names that are present, in order.
pub open spec fn present_names(ns: Seq<Option<Seq<char>>>) -> Seq<Seq<char>>
    decreases ns.len(),
{
    if ns.len() == 0 {
        Seq::empty()
    } else {
        match ns.last() {
            Some(n) => present_names(ns.drop_last()).push(n),
            None => present_names(ns.drop_last()),
        }
    }
}

/// The file descriptors of a descriptor set read from `path`, and the names of those
/// that have one, in order; refused with buffa's error, naming the path, when the bytes
/// do not decode.
pub fn descriptor_set_files(path: &str, bytes: &Vec<u8>) -> (r: Result<(Vec<FileDescriptorProto>, Vec<String>), String>)
    ensures
        match decoded_descriptor_set(bytes@, DESCRIPTOR_ELEMENT_MEMORY_LIMIT) {
            Some(ns) => r matches Ok(t) && t.0.len() == ns.len() && views(t.1@) == present_names(ns),
            None => r matches Err(e) && e@ == "decode FileDescriptorSet "@ + path@ + ": "@
                + descriptor_set_decode_error(bytes@, DESCRIPTOR_ELEMENT_MEMORY_LIMIT),
        },
{
    match decode_descriptor_set_raw(bytes, DESCRIPTOR_ELEMENT_MEMORY_LIMIT) {
        Ok((files, all)) => {
            let ghost nv = all@.map_values(|n: Option<String>| opt_view(n));
            let mut names: Vec<String> = Vec::new();
            let mut i: usize = 0;
            while i < all.len()
                invariant
                    i <= all.len(),
                    nv == all@.map_values(|n: Option<String>| opt_view(n)),
                    views(names@) == present_names(nv.take(i as int)),
                decreases all.len() - i,
            {
                proof {
                    assert(nv.take(i + 1).drop_last() =~= nv.take(i as int));
                    assert(nv.take(i + 1).last() == opt_view(all@[i as int]));
                }
                let ghost before = views(names@);
                match &all[i] {
                    Some(n) => {
                        names.push(n.clone());
                        assert(views(names@) =~= before.push(n@));
                    },
                    None => {},
                }
                i = i + 1;
            }
            assert(nv.take(all.len() as int) =~= nv);
            Ok((files, names))
        },
        Err(e) => {
            let mut m = to_string("decode FileDescriptorSet ");
            m.append(path);
            m.append(": ");
            m.append(e.as_str());
            Err(m)
        },
    }
}

/// The response bytes for generated `(name, content)` files: no error, proto3
/// `optional` supported, one file per pair in order; refused, naming the cause, when
/// the response would exceed the 2 GiB protobuf limit.
pub fn response_bytes(pairs: &Vec<(String, String)>) -> (r: Result<Vec<u8>, String>)
    ensures
        match encoded_response(None, Some(1u64), kv_view(pairs@)) {
            Some(b) => r matches Ok(v) && v@ == b,
            None => r matches Err(e) && e@ == "encode CodeGeneratorResponse: "@ + too_large_text(),
        },
{
    match encode_response(&None, Some(FEATURE_PROTO3_OPTIONAL), pairs) {
        Ok(b) => Ok(b),
        Err(e) => {
            let mut m = to_string("encode CodeGeneratorResponse: ");
            m.append(e.as_str());
            Err(m)
        },
    }
}

} // verus!
