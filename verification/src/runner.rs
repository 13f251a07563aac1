//! Command lines for one generation run: `protoc` with the plugin, or the CLI.

use crate::input::Compiler;
use crate::options::{cli_args_spec, parameter_to_cli_args, parse_parameter_spec, OptionsError, OptionsErrorModel};
use crate::text::{to_string, views};
use vstd::prelude::*;

verus! {

/// Which binary drives generation.
pub enum Driver {
    ProtocPlugin { protoc: String, plugin: String },
    Cli { cli: String, compiler: Compiler },
}

impl Driver {
    /// `protoc` with the `protoc-gen-mdbook` plugin.
    pub fn protoc_plugin(protoc: String, plugin: String) -> (r: Self)
        ensures
            r matches Driver::ProtocPlugin { protoc: p, plugin: q } && p@ == protoc@ && q@ == plugin@,
    {
        Driver::ProtocPlugin { protoc, plugin }
    }

    /// The `protobuf-mdbook` CLI with a compiler.
    pub fn cli(cli: String, compiler: Compiler) -> (r: Self)
        ensures
            r matches Driver::Cli { cli: c, compiler: k } && c@ == cli@ && k == compiler,
    {
        Driver::Cli { cli, compiler }
    }
}

/// Inputs of one generation run.
pub struct RunSpec {
    pub out: String,
    pub mdbook_opt: String,
    pub inputs: Vec<String>,
    pub search_paths: Vec<String>,
    pub cwd: Option<String>,
}

/// A program to run: its path, arguments, and working directory.
pub struct Invocation {
    pub program: String,
    pub args: Vec<String>,
    pub cwd: Option<String>,
}

/// `-I {path}` for each search path.
pub open spec fn include_args(ps: Seq<Seq<char>>) -> Seq<Seq<char>>
    decreases ps.len(),
{
    if ps.len() == 0 {
        Seq::empty()
    } else {
        include_args(ps.drop_last()) + seq!["-I"@, ps.last()]
    }
}

/// Arguments of a `protoc` run with the plugin.
pub open spec fn protoc_args_spec(spec: RunSpec, plugin: Seq<char>) -> Seq<Seq<char>> {
    include_args(views(spec.search_paths@)) + seq![
        "--plugin=protoc-gen-mdbook="@ + plugin,
        "--mdbook_out="@ + spec.out@,
    ] + (if spec.mdbook_opt@.len() == 0 {
        Seq::empty()
    } else {
        seq!["--mdbook_opt="@ + spec.mdbook_opt@]
    }) + views(spec.inputs@)
}

/// Arguments of a CLI run, given the CLI form of the options.
pub open spec fn cli_run_args_spec(spec: RunSpec, compiler: Compiler, option_args: Seq<Seq<char>>) -> Seq<Seq<char>> {
    seq!["-o"@, spec.out@] + option_args + (if compiler == Compiler::Protoc {
        seq!["--compiler"@, "protoc"@]
    } else {
        Seq::empty()
    }) + include_args(views(spec.search_paths@)) + views(spec.inputs@)
}

/// The optional working directory as plain values.
pub open spec fn cwd_view(c: Option<String>) -> Option<Seq<char>> {
    match c {
        Some(s) => Some(s@),
        None => None,
    }
}

fn push_includes(args: &mut Vec<String>, paths: &Vec<String>)
    ensures
        views(final(args)@) == views(old(args)@) + include_args(views(paths@)),
{
    let ghost base = views(args@);
    let ghost pv = views(paths@);
    let mut i: usize = 0;
    while i < paths.len()
        invariant
            i <= paths.len(),
            pv == views(paths@),
            views(args@) == base + include_args(pv.take(i as int)),
        decreases paths.len() - i,
    {
        let ghost before = views(args@);
        args.push(to_string("-I"));
        args.push(to_string(paths[i].as_str()));
        assert(views(args@) =~= before.push("-I"@).push(pv[i as int]));
        proof {
            assert(pv.take(i + 1).drop_last() =~= pv.take(i as int));
            assert(pv.take(i + 1).last() == pv[i as int]);
        }
        i = i + 1;
        assert(views(args@) =~= base + include_args(pv.take(i as int)));
    }
    assert(pv.take(paths.len() as int) =~= pv);
}

fn push_all(args: &mut Vec<String>, more: &Vec<String>)
    ensures
        views(final(args)@) == views(old(args)@) + views(more@),
{
    let ghost base = views(args@);
    let mut i: usize = 0;
    while i < more.len()
        invariant
            i <= more.len(),
            views(args@) == base + views(more@).take(i as int),
        decreases more.len() - i,
    {
        let ghost before = views(args@);
        args.push(to_string(more[i].as_str()));
        assert(views(args@) =~= before.push(views(more@)[i as int]));
        i = i + 1;
        assert(views(args@) =~= base + views(more@).take(i as int));
    }
    assert(views(more@).take(more.len() as int) =~= views(more@));
}

/// The command line for one run: `protoc` with the plugin, or the CLI with the options
/// in CLI form (refused when the options are refused).
pub fn run_generation(spec: &RunSpec, driver: &Driver) -> (r: Result<Invocation, OptionsError>)
    ensures
        match driver {
            Driver::ProtocPlugin { protoc, plugin } => r matches Ok(inv) && inv.program@ == protoc@
                && views(inv.args@) == protoc_args_spec(*spec, plugin@) && cwd_view(inv.cwd) == cwd_view(spec.cwd),
            Driver::Cli { cli, compiler } => if spec.mdbook_opt@.len() == 0 {
                r matches Ok(inv) && inv.program@ == cli@ && views(inv.args@) == cli_run_args_spec(
                    *spec,
                    *compiler,
                    Seq::empty(),
                ) && cwd_view(inv.cwd) == cwd_view(spec.cwd)
            } else {
                match parse_parameter_spec(Some(spec.mdbook_opt@)) {
                    Ok(m) => r matches Ok(inv) && inv.program@ == cli@ && views(inv.args@) == cli_run_args_spec(
                        *spec,
                        *compiler,
                        cli_args_spec(m),
                    ) && cwd_view(inv.cwd) == cwd_view(spec.cwd),
                    Err(e) => r matches Err(x) && x@ == e,
                }
            },
        },
{
    let cwd = match &spec.cwd {
        Some(c) => Some(to_string(c.as_str())),
        None => None,
    };
    match driver {
        Driver::ProtocPlugin { protoc, plugin } => {
            let mut args: Vec<String> = Vec::new();
            push_includes(&mut args, &spec.search_paths);
            let mut p = to_string("--plugin=protoc-gen-mdbook=");
            p.append(plugin.as_str());
            args.push(p);
            let mut o = to_string("--mdbook_out=");
            o.append(spec.out.as_str());
            args.push(o);
            if spec.mdbook_opt.as_str().unicode_len() > 0 {
                let mut m = to_string("--mdbook_opt=");
                m.append(spec.mdbook_opt.as_str());
                args.push(m);
            }
            push_all(&mut args, &spec.inputs);
            assert(views(args@) =~= protoc_args_spec(*spec, plugin@));
            Ok(Invocation { program: to_string(protoc.as_str()), args, cwd })
        },
        Driver::Cli { cli, compiler } => {
            let mut args: Vec<String> = Vec::new();
            args.push(to_string("-o"));
            args.push(to_string(spec.out.as_str()));
            assert(views(args@) =~= seq!["-o"@, spec.out@]);
            let opt_args: Vec<String> = if spec.mdbook_opt.as_str().unicode_len() > 0 {
                match parameter_to_cli_args(spec.mdbook_opt.as_str()) {
                    Ok(more) => more,
                    Err(e) => {
                        return Err(e);
                    },
                }
            } else {
                Vec::new()
            };
            push_all(&mut args, &opt_args);
            let ghost a1 = views(args@);
            if *compiler == Compiler::Protoc {
                args.push(to_string("--compiler"));
                args.push(to_string("protoc"));
                assert(views(args@) =~= a1 + seq!["--compiler"@, "protoc"@]);
            } else {
                assert(views(args@) =~= a1 + Seq::<Seq<char>>::empty());
            }
            push_includes(&mut args, &spec.search_paths);
            push_all(&mut args, &spec.inputs);
            assert(views(args@) =~= cli_run_args_spec(*spec, *compiler, views(opt_args@)));
            Ok(Invocation { program: to_string(cli.as_str()), args, cwd })
        },
    }
}

/// Failure message of a run whose process exited unsuccessfully.
pub fn failure_message(spec: &RunSpec, driver: &Driver) -> (r: String)
    ensures
        r@ == (match driver {
            Driver::ProtocPlugin { .. } => "protoc failed (opt="@,
            Driver::Cli { .. } => "protobuf-mdbook failed (opt="@,
        }) + spec.mdbook_opt@ + ")"@,
{
    let mut m = match driver {
        Driver::ProtocPlugin { .. } => to_string("protoc failed (opt="),
        Driver::Cli { .. } => to_string("protobuf-mdbook failed (opt="),
    };
    m.append(spec.mdbook_opt.as_str());
    m.append(")");
    m
}

} // verus!
