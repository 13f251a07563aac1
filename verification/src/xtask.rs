//! Repository tasks: the registry of checks, cargo feature flags, image engines, and
//! the command lines the tasks run.

pub mod book;
pub mod check;
pub mod ci;
pub mod docker;
pub mod image;
pub mod policy;
pub mod vendor;

use crate::text::{join_with, to_string, views};
use vstd::prelude::*;

verus! {

/// A registered repository check.
#[derive(Clone, Copy, Debug, PartialEq, Eq, Structural)]
pub enum CheckStep {
    Toolchain,
    BufLint,
    Fmt,
    Check,
    Clippy,
    Test,
    BuildPlugin,
    HighlightRust,
    BookInit,
    BookLinks,
}

/// Command-line name of a check.
pub open spec fn step_name_spec(s: CheckStep) -> Seq<char> {
    match s {
        CheckStep::Toolchain => "toolchain"@,
        CheckStep::BufLint => "buf-lint"@,
        CheckStep::Fmt => "fmt"@,
        CheckStep::Check => "check"@,
        CheckStep::Clippy => "clippy"@,
        CheckStep::Test => "test"@,
        CheckStep::BuildPlugin => "build-plugin"@,
        CheckStep::HighlightRust => "highlight-rust"@,
        CheckStep::BookInit => "book-init"@,
        CheckStep::BookLinks => "book-links"@,
    }
}

impl CheckStep {
    /// Command-line name of the check.
    pub fn name(&self) -> (r: &'static str)
        ensures
            r@ == step_name_spec(*self),
    {
        match self {
            CheckStep::Toolchain => "toolchain",
            CheckStep::BufLint => "buf-lint",
            CheckStep::Fmt => "fmt",
            CheckStep::Check => "check",
            CheckStep::Clippy => "clippy",
            CheckStep::Test => "test",
            CheckStep::BuildPlugin => "build-plugin",
            CheckStep::HighlightRust => "highlight-rust",
            CheckStep::BookInit => "book-init",
            CheckStep::BookLinks => "book-links",
        }
    }

    /// The check runs the `buf` CLI (lint, format, or the dependency export).
    pub fn needs_buf(&self) -> (r: bool)
        ensures
            r == (*self == CheckStep::BufLint || *self == CheckStep::Fmt || *self == CheckStep::BookInit),
    {
        match self {
            CheckStep::BufLint | CheckStep::Fmt | CheckStep::BookInit => true,
            _ => false,
        }
    }
}

/// Cargo feature selection forwarded to build, lint and test commands.
pub struct FeatureArgs {
    pub all_features: bool,
    pub features: Vec<String>,
    pub no_default_features: bool,
}

/// Cargo flags for a feature selection.
pub open spec fn feature_args_spec(all: bool, features: Seq<Seq<char>>, no_default: bool) -> Seq<Seq<char>> {
    (if all {
        seq!["--all-features"@]
    } else {
        Seq::empty()
    }) + (if no_default {
        seq!["--no-default-features"@]
    } else {
        Seq::empty()
    }) + (if features.len() > 0 {
        seq!["--features"@, join_with(features, seq![','])]
    } else {
        Seq::empty()
    })
}

impl FeatureArgs {
    /// Cargo flags: `--all-features`, `--no-default-features`, `--features a,b`.
    pub fn cargo_args(&self) -> (r: Vec<String>)
        ensures
            views(r@) == feature_args_spec(self.all_features, views(self.features@), self.no_default_features),
    {
        let mut r: Vec<String> = Vec::new();
        if self.all_features {
            r.push(to_string("--all-features"));
        }
        let ghost a = views(r@);
        if self.no_default_features {
            r.push(to_string("--no-default-features"));
        }
        let ghost b = views(r@);
        if self.features.len() > 0 {
            let mut joined = String::new();
            let mut i: usize = 0;
            while i < self.features.len()
                invariant
                    i <= self.features.len(),
                    joined@ == join_with(views(self.features@).take(i as int), seq![',']),
                decreases self.features.len() - i,
            {
                if i > 0 {
                    crate::text::push_char(&mut joined, ',');
                }
                joined.append(self.features[i].as_str());
                proof {
                    let t = views(self.features@).take(i + 1);
                    assert(t.drop_last() =~= views(self.features@).take(i as int));
                    if i == 0 {
                        assert(joined@ =~= t[0]);
                    }
                }
                i = i + 1;
            }
            assert(views(self.features@).take(self.features.len() as int) =~= views(self.features@));
            r.push(to_string("--features"));
            r.push(joined);
        }
        assert(views(r@) =~= feature_args_spec(self.all_features, views(self.features@), self.no_default_features));
        r
    }
}

/// OCI image engine (`auto` picks the first usable one).
#[derive(Clone, Copy, Debug, PartialEq, Eq, Structural)]
pub enum ImageEngine {
    Auto,
    Docker,
    Buildah,
}

/// A program with arguments, run from an optional directory.
pub struct CommandSpec {
    pub program: String,
    pub args: Vec<String>,
    pub cwd: Option<String>,
}

/// A command as plain values.
pub open spec fn command_view(c: CommandSpec) -> (Seq<char>, Seq<Seq<char>>, Option<Seq<char>>) {
    (
        c.program@,
        views(c.args@),
        match c.cwd {
            Some(d) => Some(d@),
            None => None,
        },
    )
}

impl CommandSpec {
    /// `program` with no arguments, run from the current directory.
    pub fn new(program: &str) -> (r: Self)
        ensures
            command_view(r) == (program@, Seq::<Seq<char>>::empty(), None::<Seq<char>>),
    {
        let r = CommandSpec { program: to_string(program), args: Vec::new(), cwd: None };
        assert(views(r.args@) =~= Seq::<Seq<char>>::empty());
        r
    }

    /// The command with `a` appended.
    pub fn arg(self, a: &str) -> (r: Self)
        ensures
            command_view(r) == (command_view(self).0, command_view(self).1.push(a@), command_view(self).2),
    {
        let CommandSpec { program, mut args, cwd } = self;
        let ghost before = views(args@);
        args.push(to_string(a));
        assert(views(args@) =~= before.push(a@));
        CommandSpec { program, args, cwd }
    }

    /// The command run from `dir`.
    pub fn current_dir(self, dir: &str) -> (r: Self)
        ensures
            command_view(r) == (command_view(self).0, command_view(self).1, Some(dir@)),
    {
        let CommandSpec { program, args, cwd } = self;
        CommandSpec { program, args, cwd: Some(to_string(dir)) }
    }
}

/// The command with each of `more` appended.
pub fn with_args(c: CommandSpec, more: &Vec<&str>) -> (r: CommandSpec)
    ensures
        command_view(r) == (
            command_view(c).0,
            command_view(c).1 + more@.map_values(|s: &str| s@),
            command_view(c).2,
        ),
{
    let mut r = c;
    let ghost base = command_view(r).1;
    let mut i: usize = 0;
    while i < more.len()
        invariant
            i <= more.len(),
            command_view(r) == (command_view(c).0, base + more@.map_values(|s: &str| s@).take(i as int), command_view(c).2),
            base == command_view(c).1,
        decreases more.len() - i,
    {
        r = r.arg(more[i]);
        i = i + 1;
        assert(base + more@.map_values(|s: &str| s@).take(i as int) =~= (base + more@.map_values(|s: &str| s@).take(i - 1)).push(more@[i - 1]@));
    }
    assert(more@.map_values(|s: &str| s@).take(more.len() as int) =~= more@.map_values(|s: &str| s@));
    r
}

} // verus!
