//! The repository's registry of check order and image settings.

use crate::text::{to_string, views};
use crate::xtask::{CheckStep, ImageEngine};
use vstd::prelude::*;

verus! {

/// Canonical order of the repository checks.
pub open spec fn check_order_spec() -> Seq<CheckStep> {
    seq![
        CheckStep::Toolchain,
        CheckStep::BufLint,
        CheckStep::Fmt,
        CheckStep::Check,
        CheckStep::Clippy,
        CheckStep::Test,
        CheckStep::BuildPlugin,
        CheckStep::HighlightRust,
        CheckStep::BookInit,
        CheckStep::BookLinks,
    ]
}

/// Canonical order of the repository checks.
pub fn check_order() -> (r: Vec<CheckStep>)
    ensures
        r@ == check_order_spec(),
{
    let mut v: Vec<CheckStep> = Vec::new();
    v.push(CheckStep::Toolchain);
    v.push(CheckStep::BufLint);
    v.push(CheckStep::Fmt);
    v.push(CheckStep::Check);
    v.push(CheckStep::Clippy);
    v.push(CheckStep::Test);
    v.push(CheckStep::BuildPlugin);
    v.push(CheckStep::HighlightRust);
    v.push(CheckStep::BookInit);
    v.push(CheckStep::BookLinks);
    assert(v@ =~= check_order_spec());
    v
}

/// Engines tried, in order, when the engine is `auto`.
pub open spec fn image_auto_order_spec() -> Seq<ImageEngine> {
    seq![ImageEngine::Docker, ImageEngine::Buildah]
}

/// Engines tried, in order, when the engine is `auto`.
pub fn image_auto_order() -> (r: Vec<ImageEngine>)
    ensures
        r@ == image_auto_order_spec(),
{
    let mut v: Vec<ImageEngine> = Vec::new();
    v.push(ImageEngine::Docker);
    v.push(ImageEngine::Buildah);
    assert(v@ =~= image_auto_order_spec());
    v
}

/// Dockerfile of the image.
pub fn image_file() -> (r: &'static str)
    ensures
        r@ == "Dockerfile"@,
{
    "Dockerfile"
}

/// Build context of the image.
pub fn image_context() -> (r: &'static str)
    ensures
        r@ == "."@,
{
    "."
}

/// Default tag of the local image.
pub fn image_tag() -> (r: &'static str)
    ensures
        r@ == "protobuf-mdbook:local"@,
{
    "protobuf-mdbook:local"
}

/// Platform the image is built for.
pub fn image_platform() -> (r: &'static str)
    ensures
        r@ == "linux/amd64"@,
{
    "linux/amd64"
}

/// Entry point run by the image smoke test.
pub fn image_smoke_program() -> (r: &'static str)
    ensures
        r@ == "/protoc-gen-mdbook"@,
{
    "/protoc-gen-mdbook"
}

/// Arguments of the image smoke test.
pub fn image_smoke_args() -> (r: Vec<String>)
    ensures
        views(r@) == seq!["--version"@],
{
    let mut v: Vec<String> = Vec::new();
    v.push(to_string("--version"));
    assert(views(v@) =~= seq!["--version"@]);
    v
}

/// HTML report of the llvm-cov coverage run.
pub fn llvm_cov_report() -> (r: &'static str)
    ensures
        r@ == "target/coverage/llvm-cov/html/index.html"@,
{
    "target/coverage/llvm-cov/html/index.html"
}

/// HTML report of the tarpaulin coverage run.
pub fn tarpaulin_report() -> (r: &'static str)
    ensures
        r@ == "target/coverage/tarpaulin/tarpaulin-report.html"@,
{
    "target/coverage/tarpaulin/tarpaulin-report.html"
}

} // verus!
