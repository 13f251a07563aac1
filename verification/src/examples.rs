//! The example `.proto` corpus used by integration runs and repository tasks.

use crate::text::{push_char, to_string, views};
use vstd::prelude::*;

verus! {

/// Canonical example `.proto` inputs (the vendored `buf/validate/validate.proto` is
/// not among them).
pub open spec fn example_inputs_spec() -> Seq<Seq<char>> {
    seq![
        "acme/example/v1/echo.proto"@,
        "acme/example/v1/gateway.proto"@,
        "acme/example/v2/types.proto"@,
        "acme/example/v2/catalog.proto"@,
        "acme/example/v2/services.proto"@,
        "acme/example/v3alpha1/types.proto"@,
        "acme/example/v3alpha1/pipeline.proto"@,
        "acme/example/v3alpha1/services.proto"@,
    ]
}

/// Canonical example `.proto` inputs.
pub fn example_proto_inputs() -> (r: Vec<String>)
    ensures
        views(r@) == example_inputs_spec(),
{
    let mut v: Vec<String> = Vec::new();
    v.push(to_string("acme/example/v1/echo.proto"));
    v.push(to_string("acme/example/v1/gateway.proto"));
    v.push(to_string("acme/example/v2/types.proto"));
    v.push(to_string("acme/example/v2/catalog.proto"));
    v.push(to_string("acme/example/v2/services.proto"));
    v.push(to_string("acme/example/v3alpha1/types.proto"));
    v.push(to_string("acme/example/v3alpha1/pipeline.proto"));
    v.push(to_string("acme/example/v3alpha1/services.proto"));
    assert(views(v@) =~= example_inputs_spec());
    v
}

/// The Buf module of the examples under a crate directory.
pub fn examples_proto_dir(manifest_dir: &str) -> (r: String)
    ensures
        r@ == manifest_dir@ + "/examples/proto"@,
{
    let mut r = to_string(manifest_dir);
    r.append("/examples/proto");
    r
}

/// Plugin options for example runs: `layout={layout},proto_path=.` and the extra
/// options, comma-separated.
pub open spec fn examples_opt_spec(layout: Seq<char>, extra: Seq<char>) -> Seq<char> {
    "layout="@ + layout + ",proto_path=."@ + if extra.len() == 0 {
        Seq::<char>::empty()
    } else {
        seq![','] + extra
    }
}

/// Plugin options for example runs.
pub fn format_examples_mdbook_opt(layout: &str, extra_opt: &str) -> (r: String)
    ensures
        r@ == examples_opt_spec(layout@, extra_opt@),
{
    let mut opt = to_string("layout=");
    opt.append(layout);
    opt.append(",proto_path=.");
    if extra_opt.unicode_len() > 0 {
        push_char(&mut opt, ',');
        opt.append(extra_opt);
    }
    assert(opt@ =~= examples_opt_spec(layout@, extra_opt@));
    opt
}

} // verus!
