//! Generate mdBook documentation trees from protobuf descriptors.

pub mod text;
pub mod paths;
pub mod codegen;
pub mod decimal;
pub mod descriptor;
pub mod links;
pub mod markdown;
pub mod options;
pub mod comments;
pub mod fence;
pub mod proto_syntax;
pub mod render;
pub mod proto_markdown;
pub mod summary;
pub mod kvmap;
pub mod init;
pub mod generate;
pub mod link_check;
pub mod link_targets;
pub mod output_paths;
pub mod anchors;
pub mod input;
pub mod wire;
pub mod include_paths;
pub mod cli;
pub mod examples;
pub mod runner;
pub mod proto_deps;
pub mod xtask;
