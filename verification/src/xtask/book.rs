//! Guided generation of the repository's `api-book` from the example protos.

use crate::examples::{example_inputs_spec, example_proto_inputs, examples_proto_dir};
use crate::input::Compiler;
use crate::options::{cli_args_spec, parse_parameter_spec, OptionsError};
use crate::proto_deps::{join_path, join_spec};
use crate::runner::{include_args, cli_run_args_spec, cwd_view, protoc_args_spec, run_generation, Driver, Invocation, RunSpec};
use crate::text::{contains_sub, split_on, str_contains, to_string, views};
use vstd::prelude::*;

verus! {

/// Which binary drives guided book generation.
#[derive(Clone, Copy, Debug, PartialEq, Eq, Structural)]
pub enum GeneratorArg {
    /// `protoc` with the `protoc-gen-mdbook` plugin.
    Protoc,
    /// The `protobuf-mdbook` CLI (buf compiler on the examples).
    Cli,
}

impl Default for GeneratorArg {
    fn default() -> (r: Self)
        ensures
            r == GeneratorArg::Protoc,
    {
        GeneratorArg::Protoc
    }
}

/// The book directory under the repository root.
pub open spec fn api_book_spec(root: Seq<char>) -> Seq<char> {
    join_spec(root, "api-book"@)
}

/// The book directory under the repository root.
pub fn api_book(root: &str) -> (r: String)
    ensures
        r@ == api_book_spec(root@),
{
    join_path(root, "api-book")
}

/// Where the buf dependencies of the examples are exported.
pub fn proto_deps_export(root: &str) -> (r: String)
    ensures
        r@ == join_spec(root@, "target/proto-deps"@),
{
    join_path(root, "target/proto-deps")
}

/// Plugin options of a guided run: `[init,]layout=L[,summary][,book=B,mdbook_out=B]`,
/// with `B` the book directory.
pub open spec fn mdbook_opt_spec(root: Seq<char>, layout: Seq<char>, summary: bool, init: bool, with_book: bool) -> Seq<char> {
    (if init {
        "init,layout="@
    } else {
        "layout="@
    }) + layout + (if summary {
        ",summary"@
    } else {
        Seq::empty()
    }) + (if with_book {
        ",book="@ + api_book_spec(root) + ",mdbook_out="@ + api_book_spec(root)
    } else {
        Seq::empty()
    })
}

/// Plugin options of a guided run.
pub fn mdbook_opt(root: &str, layout: &str, summary: bool, init: bool, with_book: bool) -> (r: String)
    ensures
        r@ == mdbook_opt_spec(root@, layout@, summary, init, with_book),
{
    let mut opt = if init {
        to_string("init,layout=")
    } else {
        to_string("layout=")
    };
    opt.append(layout);
    if summary {
        opt.append(",summary");
    }
    if with_book {
        let book = api_book(root);
        opt.append(",book=");
        opt.append(book.as_str());
        opt.append(",mdbook_out=");
        opt.append(book.as_str());
    }
    opt
}

/// An existing output directory is cleared before an `init` run.
pub fn clear_before_init(out_exists: bool, mdbook_opt: &str) -> (r: bool)
    ensures
        r == (out_exists && contains_sub(mdbook_opt@, "init"@)),
{
    out_exists && str_contains(mdbook_opt, "init")
}

/// Error text when the book has not been initialised.
pub open spec fn missing_book_toml_spec(root: Seq<char>) -> Seq<char> {
    api_book_spec(root) + " is missing book.toml; run `cargo xtask book-init` first"@
}

/// Error text when the book has not been initialised.
pub fn missing_book_toml_message(root: &str) -> (r: String)
    ensures
        r@ == missing_book_toml_spec(root@),
{
    let mut m = api_book(root);
    m.append(" is missing book.toml; run `cargo xtask book-init` first");
    m
}

/// Options of a refresh of the book: refused until the book has a `book.toml`.
pub fn book_refresh(root: &str, layout: &str, summary: bool, book_toml_exists: bool) -> (r: Result<String, String>)
    ensures
        book_toml_exists ==> (r matches Ok(o) && o@ == mdbook_opt_spec(root@, layout@, summary, false, true)),
        !book_toml_exists ==> (r matches Err(m) && m@ == missing_book_toml_spec(root@)),
{
    if !book_toml_exists {
        Err(missing_book_toml_message(root))
    } else {
        Ok(mdbook_opt(root, layout, summary, false, true))
    }
}

/// Options of an initialising run: a markdown-only run skips the mdBook scaffold.
pub fn book_init_opt(root: &str, layout: &str, summary: bool, markdown_only: bool) -> (r: String)
    ensures
        r@ == mdbook_opt_spec(root@, layout@, summary, !markdown_only, false),
{
    mdbook_opt(root, layout, summary, !markdown_only, false)
}

/// The run over the examples under `root`: from the examples directory, `protoc` with the
/// plugin (searching `.` and the exported dependencies) or the CLI (searching `.`), into
/// `out_dir` with options `opt`. `binary` is the plugin or the CLI; refused when the CLI
/// cannot take the options.
pub fn example_run(
    root: &str,
    generator: GeneratorArg,
    protoc: &str,
    binary: &str,
    deps: &str,
    out_dir: &str,
    opt: &str,
) -> (r: Result<Invocation, OptionsError>)
    ensures
        generator == GeneratorArg::Protoc ==> (r matches Ok(inv) && inv.program@ == protoc@
            && views(inv.args@) == seq!["-I"@, "."@, "-I"@, deps@] + seq![
                "--plugin=protoc-gen-mdbook="@ + binary@,
                "--mdbook_out="@ + out_dir@,
                "--mdbook_opt="@ + opt@,
            ] + example_inputs_spec() && cwd_view(inv.cwd) == Some(root@ + "/examples/proto"@)),
        generator == GeneratorArg::Cli ==> (match parse_parameter_spec(Some(opt@)) {
            Ok(m) => r matches Ok(inv) && inv.program@ == binary@ && views(inv.args@) == seq![
                "-o"@,
                out_dir@,
            ] + cli_args_spec(m) + seq!["-I"@, "."@] + example_inputs_spec() && cwd_view(inv.cwd) == Some(
                root@ + "/examples/proto"@,
            ),
            Err(e) => r matches Err(x) && x@ == e,
        }),
{
    let mut search: Vec<String> = Vec::new();
    search.push(to_string("."));
    if generator == GeneratorArg::Protoc {
        search.push(to_string(deps));
    }
    let spec = RunSpec {
        out: to_string(out_dir),
        mdbook_opt: to_string(opt),
        inputs: example_proto_inputs(),
        search_paths: search,
        cwd: Some(examples_proto_dir(root)),
    };
    let driver = if generator == GeneratorArg::Protoc {
        Driver::protoc_plugin(to_string(protoc), to_string(binary))
    } else {
        Driver::cli(to_string(binary), Compiler::Buf)
    };
    proof {
        let sp = views(spec.search_paths@);
        reveal_with_fuel(crate::runner::include_args, 3);
        if generator == GeneratorArg::Protoc {
            assert(sp =~= seq!["."@, deps@]);
            assert(sp.drop_last() =~= seq!["."@]);
            assert(sp.drop_last().drop_last() =~= Seq::<Seq<char>>::empty());
            assert(crate::runner::include_args(sp) =~= seq!["-I"@, "."@, "-I"@, deps@]);
        } else {
            assert(sp =~= seq!["."@]);
            assert(sp.drop_last() =~= Seq::<Seq<char>>::empty());
            assert(crate::runner::include_args(sp) =~= seq!["-I"@, "."@]);
        }
    }
    let r0 = run_generation(&spec, &driver);
    let ghost full: Seq<Seq<char>> = seq!["-I"@, "."@, "-I"@, deps@] + seq![
        "--plugin=protoc-gen-mdbook="@ + binary@,
        "--mdbook_out="@ + out_dir@,
        "--mdbook_opt="@ + opt@,
    ] + example_inputs_spec();
    proof {
        if generator == GeneratorArg::Protoc {
            let sp = views(spec.search_paths@);
            assert(include_args(sp) =~= seq!["-I"@, "."@, "-I"@, deps@]);
            if opt@.len() > 0 {
                assert(protoc_args_spec(spec, binary@) =~= full);
            } else {
                assert(protoc_args_spec(spec, binary@) =~= full.take(6) + full.skip(7));
            }
        } else {
            if opt@.len() == 0 {
                lemma_empty_opt_defaults(opt@);
            }
            match parse_parameter_spec(Some(opt@)) {
                Ok(m) => {
                    assert(cli_run_args_spec(spec, Compiler::Buf, cli_args_spec(m)) =~= seq!["-o"@, out_dir@]
                        + cli_args_spec(m) + seq!["-I"@, "."@] + example_inputs_spec());
                    if opt@.len() == 0 {
                        assert(cli_args_spec(m) =~= Seq::<Seq<char>>::empty());
                        assert(cli_run_args_spec(spec, Compiler::Buf, Seq::empty()) =~= cli_run_args_spec(
                            spec,
                            Compiler::Buf,
                            cli_args_spec(m),
                        ));
                    }
                },
                Err(_) => {},
            }
        }
    }
    let r = match r0 {
        Ok(inv) => {
            if generator == GeneratorArg::Protoc && opt.unicode_len() == 0 {
                let mut args = inv.args;
                let ghost old_args = args@;
                let ghost before = views(args@);
                assert(before == full.take(6) + full.skip(7));
                assert(args.len() == before.len());
                let mut m = to_string("--mdbook_opt=");
                m.append(opt);
                args.insert(6, m);
                proof {
                    assert(m@ == "--mdbook_opt="@ + opt@);
                    assert(args@ == old_args.insert(6, m));
                    assert(views(args@) =~= before.insert(6, m@));
                    assert(full[6] == m@);
                    assert(before.insert(6, m@) =~= full);
                }
                Ok(Invocation { program: inv.program, args, cwd: inv.cwd })
            } else {
                Ok(inv)
            }
        },
        Err(e) => Err(e),
    };
    r
}

proof fn lemma_empty_opt_defaults(opt: Seq<char>)
    requires
        opt.len() == 0,
    ensures
        parse_parameter_spec(Some(opt)) == Ok::<crate::options::OptionsModel, crate::options::OptionsErrorModel>(
            crate::options::default_model(),
        ),
        cli_args_spec(crate::options::default_model()) =~= Seq::<Seq<char>>::empty(),
{
    assert(split_on(opt, ',') =~= seq![Seq::<char>::empty()]);
    assert(seq![Seq::<char>::empty()].drop_last() =~= Seq::<Seq<char>>::empty());
    assert(crate::text::trim(Seq::<char>::empty()) =~= Seq::<char>::empty());
    let e = seq![Seq::<char>::empty()];
    assert(e.drop_last() =~= Seq::<Seq<char>>::empty());
    assert(crate::options::trimmed_nonempty(e.drop_last()) =~= Seq::<Seq<char>>::empty());
    assert(crate::text::trim(e.last()).len() == 0);
    assert(crate::options::trimmed_nonempty(e) =~= Seq::<Seq<char>>::empty());
    assert(crate::options::parameter_tokens(opt) =~= Seq::<Seq<char>>::empty());
    assert(Seq::<crate::options::TokenSpec>::empty().contains(crate::options::TokenSpec::Theme) == false);
}

} // verus!
