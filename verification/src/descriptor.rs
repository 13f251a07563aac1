//! Plain-value model of the protobuf descriptors that documentation is rendered from
//! (the fields of `google.protobuf.FileDescriptorProto` that the renderer reads).

use vstd::prelude::*;

verus! {

/// A `SourceCodeInfo.Location`.
#[derive(Clone, Debug, PartialEq, Eq)]
pub struct Location {
    pub path: Vec<i32>,
    pub span: Vec<i32>,
    pub leading_comments: Option<String>,
    pub trailing_comments: Option<String>,
}

/// `FieldDescriptorProto.Label`.
#[derive(Clone, Copy, Debug, PartialEq, Eq, Structural)]
pub enum FieldLabel {
    Optional,
    Required,
    Repeated,
}

/// `FieldDescriptorProto.Type`.
#[derive(Clone, Copy, Debug, PartialEq, Eq, Structural)]
pub enum FieldType {
    Double,
    Float,
    Int64,
    Uint64,
    Int32,
    Fixed64,
    Fixed32,
    Bool,
    String,
    Group,
    Message,
    Bytes,
    Uint32,
    Enum,
    Sfixed32,
    Sfixed64,
    Sint32,
    Sint64,
}

/// A message field.
#[derive(Clone, Debug, PartialEq, Eq)]
pub struct FieldDesc {
    pub name: Option<String>,
    pub number: Option<i32>,
    pub label: Option<FieldLabel>,
    pub field_type: Option<FieldType>,
    /// `type_name`: fully-qualified message or enum type.
    pub type_ref: Option<String>,
    pub oneof_index: Option<i32>,
    pub proto3_optional: Option<bool>,
}

/// A `oneof` declaration.
#[derive(Clone, Debug, PartialEq, Eq)]
pub struct OneofDesc {
    pub name: Option<String>,
}

/// A message type.
#[derive(Clone, Debug, PartialEq, Eq)]
pub struct MessageDesc {
    pub name: Option<String>,
    pub field: Vec<FieldDesc>,
    pub oneof_decl: Vec<OneofDesc>,
}

/// An enum value.
#[derive(Clone, Debug, PartialEq, Eq)]
pub struct EnumValueDesc {
    pub name: Option<String>,
    pub number: Option<i32>,
}

/// An enum type.
#[derive(Clone, Debug, PartialEq, Eq)]
pub struct EnumDesc {
    pub name: Option<String>,
    pub value: Vec<EnumValueDesc>,
}

/// `MethodOptions.IdempotencyLevel`.
#[derive(Clone, Copy, Debug, PartialEq, Eq, Structural)]
pub enum IdempotencyLevel {
    IdempotencyUnknown,
    NoSideEffects,
    Idempotent,
}

/// One part of an uninterpreted option name.
#[derive(Clone, Debug, PartialEq, Eq)]
pub struct NamePart {
    pub name_part: String,
    pub is_extension: bool,
}

/// `UninterpretedOption`. The floating-point `double_value` is held as its decimal
/// rendering and `string_value` as the text its bytes decode to (absent when they are
/// not UTF-8).
#[derive(Clone, Debug, PartialEq, Eq)]
pub struct UninterpretedOpt {
    pub name: Vec<NamePart>,
    pub identifier_value: Option<String>,
    pub positive_int_value: Option<u64>,
    pub negative_int_value: Option<i64>,
    pub double_value: Option<String>,
    pub string_value: Option<String>,
    pub aggregate_value: Option<String>,
}

/// `MethodOptions`.
#[derive(Clone, Debug, PartialEq, Eq)]
pub struct MethodOpts {
    pub deprecated: Option<bool>,
    pub idempotency_level: Option<IdempotencyLevel>,
    pub uninterpreted_option: Vec<UninterpretedOpt>,
}

/// An RPC.
#[derive(Clone, Debug, PartialEq, Eq)]
pub struct MethodDesc {
    pub name: Option<String>,
    pub input_type: Option<String>,
    pub output_type: Option<String>,
    pub options: Option<MethodOpts>,
    pub client_streaming: Option<bool>,
    pub server_streaming: Option<bool>,
}

/// A service.
#[derive(Clone, Debug, PartialEq, Eq)]
pub struct ServiceDesc {
    pub name: Option<String>,
    pub method: Vec<MethodDesc>,
}

/// A `.proto` file.
#[derive(Clone, Debug, PartialEq, Eq)]
pub struct FileDesc {
    pub name: Option<String>,
    pub package: Option<String>,
    pub message_type: Vec<MessageDesc>,
    pub enum_type: Vec<EnumDesc>,
    pub service: Vec<ServiceDesc>,
    /// `source_code_info.location` (empty when the file carries no source info).
    pub location: Vec<Location>,
}

} // verus!
