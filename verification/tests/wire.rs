use buffa::Message;
use buffa_descriptor::generated::compiler::{CodeGeneratorRequest, CodeGeneratorResponse};
use buffa_descriptor::generated::descriptor::{FileDescriptorProto, FileDescriptorSet};
use protobuf_mdbook::wire::{
    descriptor_set_files, request_parts, response_bytes, DESCRIPTOR_ELEMENT_MEMORY_LIMIT, FEATURE_PROTO3_OPTIONAL,
};

#[test]
fn descriptor_decode_uses_tooling_budget() {
    assert_eq!(DESCRIPTOR_ELEMENT_MEMORY_LIMIT, 1024 * 1024 * 1024);
    assert!(DESCRIPTOR_ELEMENT_MEMORY_LIMIT > buffa::DEFAULT_ELEMENT_MEMORY_LIMIT);
}

#[test]
fn roundtrip_empty_request() {
    let wire = CodeGeneratorRequest::default().encode_to_vec();
    let (files, names, parameter) = request_parts(&wire).expect("decodes");
    assert!(files.is_empty());
    assert!(names.is_empty());
    assert_eq!(parameter, None);
}

#[test]
fn request_parts_keep_names_and_parameter() {
    let req = CodeGeneratorRequest {
        file_to_generate: vec!["a.proto".to_string()],
        parameter: Some("init".to_string()),
        proto_file: vec![FileDescriptorProto { name: Some("a.proto".to_string()), ..Default::default() }],
        ..Default::default()
    };
    let (files, names, parameter) = request_parts(&req.encode_to_vec()).expect("decodes");
    assert_eq!(files.len(), 1);
    assert_eq!(files[0].name.as_deref(), Some("a.proto"));
    assert_eq!(names, vec!["a.proto".to_string()]);
    assert_eq!(parameter.as_deref(), Some("init"));
}

#[test]
fn undecodable_request_is_refused_with_the_decode_error() {
    let err = request_parts(&vec![0xff, 0xff, 0xff]).unwrap_err();
    assert!(err.starts_with("decode CodeGeneratorRequest: "), "{err}");
}

#[test]
fn descriptor_set_names_only_named_files() {
    let set = FileDescriptorSet {
        file: vec![
            FileDescriptorProto { name: Some("x.proto".to_string()), ..Default::default() },
            FileDescriptorProto::default(),
        ],
        ..Default::default()
    };
    let (files, names) = descriptor_set_files("set.binpb", &set.encode_to_vec()).expect("decodes");
    assert_eq!(files.len(), 2);
    assert_eq!(names, vec!["x.proto".to_string()]);
    let err = descriptor_set_files("bad.binpb", &vec![0xff, 0xff]).unwrap_err();
    assert!(err.starts_with("decode FileDescriptorSet bad.binpb: "), "{err}");
}

#[test]
fn response_has_no_error_proto3_optional_and_every_file() {
    let pairs = vec![("a.md".to_string(), "# A\n".to_string()), ("b.md".to_string(), "# B\n".to_string())];
    let bytes = response_bytes(&pairs).expect("encodes");
    let resp: CodeGeneratorResponse = buffa::DecodeOptions::new().decode_from_slice(&bytes).expect("decodes");
    assert_eq!(resp.error, None);
    assert_eq!(resp.supported_features, Some(FEATURE_PROTO3_OPTIONAL));
    assert_eq!(resp.file.len(), 2);
    assert_eq!(resp.file[1].name.as_deref(), Some("b.md"));
    assert_eq!(resp.file[1].content.as_deref(), Some("# B\n"));
}
