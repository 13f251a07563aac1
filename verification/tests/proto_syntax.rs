use protobuf_mdbook::codegen::{rpc_kind, RpcKind};
use protobuf_mdbook::comments::CommentIndex;
use protobuf_mdbook::descriptor::{
    FieldDesc, FileDesc, IdempotencyLevel, MessageDesc, MethodDesc, MethodOpts, OneofDesc, ServiceDesc,
};
use protobuf_mdbook::proto_syntax::{
    rpc_signature_markdown, synthesize_message_with_file, synthesize_method_options_body, synthesize_service,
};

fn method() -> MethodDesc {
    MethodDesc {
        name: None,
        input_type: None,
        output_type: None,
        options: None,
        client_streaming: None,
        server_streaming: None,
    }
}

fn empty_file() -> FileDesc {
    FileDesc { name: None, package: None, message_type: vec![], enum_type: vec![], service: vec![], location: vec![] }
}

fn idempotent_options() -> MethodOpts {
    MethodOpts { deprecated: None, idempotency_level: Some(IdempotencyLevel::NoSideEffects), uninterpreted_option: vec![] }
}

fn field(name: &str, number: i32, fqn: &str) -> FieldDesc {
    FieldDesc {
        name: Some(name.to_string()),
        number: Some(number),
        label: None,
        field_type: None,
        type_ref: Some(fqn.to_string()),
        oneof_index: Some(0),
        proto3_optional: None,
    }
}

#[test]
fn rpc_kind_matrix() {
    let mut m = method();
    assert_eq!(rpc_kind(&m), RpcKind::Unary);
    m.client_streaming = Some(true);
    assert_eq!(rpc_kind(&m), RpcKind::ClientStreaming);
    m.server_streaming = Some(true);
    assert_eq!(rpc_kind(&m), RpcKind::BidiStreaming);
    m.client_streaming = Some(false);
    assert_eq!(rpc_kind(&m), RpcKind::ServerStreaming);
}

fn rpc_signature_case() {
    let mut m = method();
    m.name = Some("EchoServerStream".to_string());
    m.input_type = Some(".acme.example.v1.EchoServerStreamRequest".to_string());
    m.output_type = Some(".acme.example.v1.EchoServerStreamResponse".to_string());
    m.client_streaming = Some(false);
    m.server_streaming = Some(true);
    let line = rpc_signature_markdown(&m, None);
    assert!(line.contains("**EchoServerStream**"));
    assert!(line.contains("returns ( stream "));
}

#[test]
fn proto_syntax_rpc_signature_server_streaming() {
    rpc_signature_case();
}

#[test]
fn mod_rpc_signature_server_streaming() {
    rpc_signature_case();
}

fn method_options_case() {
    let mut m = method();
    m.options = Some(idempotent_options());
    let body = synthesize_method_options_body(&m).expect("options");
    assert!(body.contains("option idempotency_level = NO_SIDE_EFFECTS;"));
}

#[test]
fn proto_syntax_method_options_idempotency() {
    method_options_case();
}

#[test]
fn mod_method_options_idempotency() {
    method_options_case();
}

fn oneof_case() {
    let msg = MessageDesc {
        name: Some("RelayConnectRequest".to_string()),
        oneof_decl: vec![OneofDesc { name: Some("payload".to_string()) }],
        field: vec![field("open", 1, ".acme.example.v1.RelayOpen"), field("frame", 2, ".acme.example.v1.RelayFrame")],
    };
    let file = empty_file();
    let idx = CommentIndex::from_file(&file);
    let md = synthesize_message_with_file("gateway.proto", &idx, 0, &msg, None, None);
    assert!(md.contains("oneof payload"));
    assert!(md.contains("RelayOpen open = 1;"));
    let oneof_pos = md.find("oneof payload").expect("oneof");
    let open_pos = md.find("RelayOpen open").expect("open");
    assert!(oneof_pos < open_pos);
}

#[test]
fn proto_syntax_message_oneof_block_from_descriptor() {
    oneof_case();
}

#[test]
fn mod_message_oneof_block_from_descriptor() {
    oneof_case();
}

fn service_case() {
    let file = empty_file();
    let idx = CommentIndex::from_file(&file);
    let mut m = method();
    m.name = Some("GetCommits".to_string());
    m.input_type = Some(".pkg.GetCommitsRequest".to_string());
    m.output_type = Some(".pkg.GetCommitsResponse".to_string());
    m.options = Some(idempotent_options());
    let svc = ServiceDesc { name: Some("CommitService".to_string()), method: vec![m] };
    let md = synthesize_service("commit.proto", &idx, 0, &svc, 3, None);
    let sig = md.find("**GetCommits**").expect("signature line");
    let opt = md.find("option idempotency_level").expect("options");
    assert!(sig < opt);
    assert!(!md.contains("service CommitService"));
}

#[test]
fn proto_syntax_service_rpc_order_signature_options_doc() {
    service_case();
}

#[test]
fn mod_service_rpc_order_signature_options_doc() {
    service_case();
}
