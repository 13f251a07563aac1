//! Selecting repository checks, and the cargo command lines they run.

use crate::text::views;
use crate::xtask::policy::{check_order, check_order_spec};
use crate::xtask::{command_view, feature_args_spec, with_args, CheckStep, CommandSpec, FeatureArgs};
use vstd::prelude::*;

verus! {

/// Checks selected: those listed in `only` (when given), else all but `exclude`; always
/// in registry order, each once.
pub open spec fn selected_spec(only: Seq<CheckStep>, exclude: Seq<CheckStep>) -> Seq<CheckStep> {
    check_order_spec().filter(
        |s: CheckStep|
            if only.len() == 0 {
                !exclude.contains(s)
            } else {
                only.contains(s)
            },
    )
}

fn contains_step(v: &Vec<CheckStep>, s: CheckStep) -> (r: bool)
    ensures
        r == v@.contains(s),
{
    let mut i: usize = 0;
    while i < v.len()
        invariant
            i <= v.len(),
            forall|j: int| 0 <= j < i ==> v@[j] != s,
        decreases v.len() - i,
    {
        if v[i] == s {
            return true;
        }
        i = i + 1;
    }
    false
}

/// The selected checks in registry order; refused when the selection is empty.
pub fn select_steps(only: &Vec<CheckStep>, exclude: &Vec<CheckStep>) -> (r: Result<Vec<CheckStep>, String>)
    ensures
        selected_spec(only@, exclude@).len() == 0 ==> (r matches Err(m) && m@
            == "the check selection is empty; choose at least one registered step"@),
        selected_spec(only@, exclude@).len() > 0 ==> (r matches Ok(v) && v@ == selected_spec(only@, exclude@)),
{
    let order = check_order();
    let ghost f = |s: CheckStep|
        if only@.len() == 0 {
            !exclude@.contains(s)
        } else {
            only@.contains(s)
        };
    let mut out: Vec<CheckStep> = Vec::new();
    let mut i: usize = 0;
    while i < order.len()
        invariant
            i <= order.len(),
            order@ == check_order_spec(),
            f == (|s: CheckStep|
                if only@.len() == 0 {
                    !exclude@.contains(s)
                } else {
                    only@.contains(s)
                }),
            out@ == order@.take(i as int).filter(f),
        decreases order.len() - i,
    {
        let s = order[i];
        let keep = if only.len() == 0 {
            !contains_step(exclude, s)
        } else {
            contains_step(only, s)
        };
        let ghost before = out@;
        if keep {
            out.push(s);
        }
        proof {
            assert(order@.take(i + 1).drop_last() =~= order@.take(i as int));
            assert(order@.take(i + 1).last() == s);
            reveal(Seq::filter);
        }
        i = i + 1;
    }
    assert(order@.take(order.len() as int) =~= order@);
    if out.len() == 0 {
        Err(crate::text::to_string("the check selection is empty; choose at least one registered step"))
    } else {
        Ok(out)
    }
}

/// `cargo fmt --all -- --check`.
pub fn fmt_check_command() -> (r: CommandSpec)
    ensures
        command_view(r) == ("cargo"@, seq!["fmt"@, "--all"@, "--"@, "--check"@], None::<Seq<char>>),
{
    let c = CommandSpec::new("cargo").arg("fmt").arg("--all").arg("--").arg("--check");
    assert(command_view(c).1 =~= seq!["fmt"@, "--all"@, "--"@, "--check"@]);
    c
}

/// `cargo {subcommand} --locked --workspace --all-targets`, the feature flags, and
/// `-- -D warnings` when warnings are denied.
pub open spec fn cargo_quality_args(sub: Seq<char>, features: Seq<Seq<char>>, deny: bool) -> Seq<Seq<char>> {
    seq![sub, "--locked"@, "--workspace"@, "--all-targets"@] + features + (if deny {
        seq!["--"@, "-D"@, "warnings"@]
    } else {
        Seq::empty()
    })
}

/// A cargo build, lint or test command with the feature selection.
pub fn cargo_quality(subcommand: &str, features: &FeatureArgs, deny_warnings: bool) -> (r: CommandSpec)
    ensures
        command_view(r) == (
            "cargo"@,
            cargo_quality_args(
                subcommand@,
                feature_args_spec(features.all_features, views(features.features@), features.no_default_features),
                deny_warnings,
            ),
            None::<Seq<char>>,
        ),
{
    let mut c = CommandSpec::new("cargo").arg(subcommand).arg("--locked").arg("--workspace").arg("--all-targets");
    let fa = features.cargo_args();
    let mut i: usize = 0;
    let ghost base = command_view(c).1;
    while i < fa.len()
        invariant
            i <= fa.len(),
            command_view(c) == ("cargo"@, base + views(fa@).take(i as int), None::<Seq<char>>),
        decreases fa.len() - i,
    {
        c = c.arg(fa[i].as_str());
        i = i + 1;
        assert(base + views(fa@).take(i as int) =~= (base + views(fa@).take(i - 1)).push(views(fa@)[i - 1]));
    }
    assert(views(fa@).take(fa.len() as int) =~= views(fa@));
    if deny_warnings {
        c = c.arg("--").arg("-D").arg("warnings");
    }
    assert(command_view(c).1 =~= cargo_quality_args(
        subcommand@,
        feature_args_spec(features.all_features, views(features.features@), features.no_default_features),
        deny_warnings,
    ));
    c
}

/// Position of a check in the registry.
pub open spec fn step_rank(s: CheckStep) -> int {
    match s {
        CheckStep::Toolchain => 0,
        CheckStep::BufLint => 1,
        CheckStep::Fmt => 2,
        CheckStep::Check => 3,
        CheckStep::Clippy => 4,
        CheckStep::Test => 5,
        CheckStep::BuildPlugin => 6,
        CheckStep::HighlightRust => 7,
        CheckStep::BookInit => 8,
        CheckStep::BookLinks => 9,
    }
}

/// The checks of `s` come in strictly increasing registry position.
pub open spec fn in_registry_order(s: Seq<CheckStep>) -> bool {
    forall|i: int, j: int| 0 <= i < j < s.len() ==> step_rank(#[trigger] s[i]) < step_rank(#[trigger] s[j])
}

proof fn lemma_registry_ranks()
    ensures
        check_order_spec().len() == 10,
        forall|i: int| 0 <= i < 10 ==> step_rank(#[trigger] check_order_spec()[i]) == i,
{
    let o = check_order_spec();
    assert(step_rank(o[0]) == 0 && step_rank(o[1]) == 1 && step_rank(o[2]) == 2 && step_rank(o[3]) == 3);
    assert(step_rank(o[4]) == 4 && step_rank(o[5]) == 5 && step_rank(o[6]) == 6 && step_rank(o[7]) == 7);
    assert(step_rank(o[8]) == 8 && step_rank(o[9]) == 9);
}

proof fn lemma_filter_keeps_order(s: Seq<CheckStep>, p: spec_fn(CheckStep) -> bool)
    requires
        in_registry_order(s),
    ensures
        in_registry_order(s.filter(p)),
    decreases s.len(),
{
    reveal(Seq::filter);
    if s.len() > 0 {
        let pre = s.drop_last();
        assert(in_registry_order(pre)) by {
            assert forall|i: int, j: int| 0 <= i < j < pre.len() implies step_rank(#[trigger] pre[i])
                < step_rank(#[trigger] pre[j]) by {
                assert(pre[i] == s[i] && pre[j] == s[j]);
            }
        }
        lemma_filter_keeps_order(pre, p);
        let f = pre.filter(p);
        if p(s.last()) {
            let g = f.push(s.last());
            assert forall|i: int, j: int| 0 <= i < j < g.len() implies step_rank(#[trigger] g[i])
                < step_rank(#[trigger] g[j]) by {
                if j == g.len() - 1 {
                    assert(f.contains(f[i]));
                    pre.lemma_filter_contains_rev(p, f[i]);
                    let k = choose|k: int| 0 <= k < pre.len() && pre[k] == f[i];
                    assert(pre[k] == s[k]);
                    assert(g[j] == s[s.len() - 1]);
                } else {
                    assert(g[i] == f[i] && g[j] == f[j]);
                }
            }
        }
    }
}

/// The checks that run are exactly those asked for (the listed ones, or all but the
/// excluded ones), each once, in registry order, whatever order and repetitions the
/// request had.
pub proof fn law_selection_is_canonical(only: Seq<CheckStep>, exclude: Seq<CheckStep>)
    ensures
        in_registry_order(selected_spec(only, exclude)),
        selected_spec(only, exclude).no_duplicates(),
        forall|s: CheckStep| #[trigger]
            selected_spec(only, exclude).contains(s) <==> (if only.len() == 0 {
                !exclude.contains(s)
            } else {
                only.contains(s)
            }),
{
    let o = check_order_spec();
    let p = |s: CheckStep|
        if only.len() == 0 {
            !exclude.contains(s)
        } else {
            only.contains(s)
        };
    lemma_registry_ranks();
    assert(in_registry_order(o));
    lemma_filter_keeps_order(o, p);
    let r = selected_spec(only, exclude);
    assert(r == o.filter(p));
    assert forall|i: int, j: int| 0 <= i < r.len() && 0 <= j < r.len() && i != j implies r[i] != r[j] by {
        if i < j {
            assert(step_rank(r[i]) < step_rank(r[j]));
        } else {
            assert(step_rank(r[j]) < step_rank(r[i]));
        }
    }
    assert forall|s: CheckStep| #[trigger] r.contains(s) <==> p(s) by {
        if r.contains(s) {
            let k = choose|k: int| 0 <= k < r.len() && r[k] == s;
            o.lemma_filter_pred(p, k);
        }
        if p(s) {
            let i = step_rank(s);
            assert(0 <= i < 10);
            assert(step_rank(o[i]) == i);
            assert(o[i] == s);
            o.lemma_filter_contains(p, i);
        }
    }
}

} // verus!
