//! Toolchain pins, and the cargo and buf command lines of the formatting, lint and
//! build tasks.

use crate::markdown::{lines, lines_of};
use crate::proto_deps::{join_path, join_spec};
use crate::text::{
    chars_of, slice_vec, split_chars, split_on, starts_with, str_contains, string_of, trim,
    trim_chars, views,
};
use crate::xtask::{command_view, CommandSpec};
use vstd::prelude::*;

verus! {

/// Version of the `buf-toolchain` crate that the repository installs.
pub fn buf_toolchain_version() -> (r: &'static str)
    ensures
        r@ == "1.69.0"@,
{
    "1.69.0"
}

/// Buf CLI version of a `buf-toolchain` pin: the part before the first `-`
/// (`1.73.0-rc.1` is CLI `1.73.0`).
pub open spec fn cli_version_spec(pin: Seq<char>) -> Seq<char> {
    split_on(pin, '-')[0]
}

/// `buf-toolchain` crate versions track Buf CLI semver, with optional `-rc` / `-hotfix`
/// suffixes; this is the CLI version a pin stands for.
pub fn buf_cli_version_from_toolchain_pin(pin: &str) -> (r: String)
    ensures
        r@ == cli_version_spec(pin@),
{
    let v = chars_of(pin);
    let parts = split_chars(&v, '-');
    proof {
        crate::text::lemma_split_on_nonempty(pin@, '-');
        assert(parts@[0]@ == parts@.map_values(|p: Vec<char>| p@)[0]);
    }
    string_of(&parts[0])
}

/// `s` without its leading run of `c`.
pub open spec fn drop_lead(s: Seq<char>, c: char) -> Seq<char>
    decreases s.len(),
{
    if s.len() > 0 && s[0] == c {
        drop_lead(s.drop_first(), c)
    } else {
        s
    }
}

/// `s` without its trailing run of `c`.
pub open spec fn drop_trail(s: Seq<char>, c: char) -> Seq<char>
    decreases s.len(),
{
    if s.len() > 0 && s.last() == c {
        drop_trail(s.drop_last(), c)
    } else {
        s
    }
}

/// `str::trim_matches` with a `char`: both runs of `c` removed.
pub open spec fn trim_matches_spec(s: Seq<char>, c: char) -> Seq<char> {
    drop_trail(drop_lead(s, c), c)
}

proof fn lemma_drop_lead_skip(s: Seq<char>, c: char, a: int)
    requires
        0 <= a <= s.len(),
        forall|j: int| 0 <= j < a ==> s[j] == c,
        a == s.len() || s[a] != c,
    ensures
        drop_lead(s, c) == s.skip(a),
    decreases a,
{
    if a == 0 {
        assert(s.skip(0) =~= s);
    } else {
        let t = s.drop_first();
        assert forall|j: int| 0 <= j < a - 1 implies t[j] == c by {
            assert(t[j] == s[j + 1]);
        }
        if a - 1 < t.len() {
            assert(t[a - 1] == s[a]);
        }
        lemma_drop_lead_skip(t, c, a - 1);
        assert(t.skip(a - 1) =~= s.skip(a));
    }
}

proof fn lemma_drop_trail_take(s: Seq<char>, c: char, b: int)
    requires
        0 <= b <= s.len(),
        forall|j: int| b <= j < s.len() ==> s[j] == c,
        b == 0 || s[b - 1] != c,
    ensures
        drop_trail(s, c) == s.take(b),
    decreases s.len() - b,
{
    if b == s.len() {
        assert(s.take(b) =~= s);
    } else {
        let t = s.drop_last();
        assert forall|j: int| b <= j < t.len() implies t[j] == c by {
            assert(t[j] == s[j]);
        }
        if b > 0 {
            assert(t[b - 1] == s[b - 1]);
        }
        lemma_drop_trail_take(t, c, b);
        assert(t.take(b) =~= s.take(b));
    }
}

/// `v` without its leading run of `c` (`str::trim_start_matches`).
pub fn drop_lead_chars(v: &Vec<char>, c: char) -> (r: Vec<char>)
    ensures
        r@ == drop_lead(v@, c),
{
    let mut a: usize = 0;
    while a < v.len() && v[a] == c
        invariant
            a <= v.len(),
            forall|j: int| 0 <= j < a ==> v@[j] == c,
        decreases v.len() - a,
    {
        a = a + 1;
    }
    proof {
        lemma_drop_lead_skip(v@, c, a as int);
        assert(v@.subrange(a as int, v.len() as int) =~= v@.skip(a as int));
    }
    slice_vec(v, a, v.len())
}

/// `v` without its trailing run of `c` (`str::trim_end_matches`).
pub fn drop_trail_chars(v: &Vec<char>, c: char) -> (r: Vec<char>)
    ensures
        r@ == drop_trail(v@, c),
{
    let mut b: usize = v.len();
    while b > 0 && v[b - 1] == c
        invariant
            b <= v.len(),
            forall|j: int| b <= j < v.len() ==> v@[j] == c,
        decreases b,
    {
        b = b - 1;
    }
    proof {
        lemma_drop_trail_take(v@, c, b as int);
        assert(v@.subrange(0, b as int) =~= v@.take(b as int));
    }
    slice_vec(v, 0, b)
}

/// A TOML string value as written after `=`: whitespace trimmed, then double and single
/// quotes stripped from both ends.
pub open spec fn toml_string_spec(raw: Seq<char>) -> Seq<char> {
    trim_matches_spec(trim_matches_spec(trim(raw), '"'), '\'')
}

fn toml_string_chars(raw: &Vec<char>) -> (r: Vec<char>)
    ensures
        r@ == toml_string_spec(raw@),
{
    let t = trim_chars(raw);
    let a = drop_lead_chars(&t, '"');
    let b = drop_trail_chars(&a, '"');
    let c = drop_lead_chars(&b, '\'');
    drop_trail_chars(&c, '\'')
}

/// A TOML string value as written after `=`, without its quotes.
pub fn trim_toml_string(raw: &str) -> (r: String)
    ensures
        r@ == toml_string_spec(raw@),
{
    let v = chars_of(raw);
    string_of(&toml_string_chars(&v))
}

/// A one-line TOML array of strings: the brackets dropped, the items split at commas,
/// each unquoted, empty items left out.
pub open spec fn toml_array_spec(raw: Seq<char>) -> Seq<Seq<char>> {
    let body = drop_trail(drop_lead(trim(raw), '['), ']');
    split_on(body, ',').map_values(|p: Seq<char>| toml_string_spec(trim(p))).filter(
        |s: Seq<char>| s.len() > 0,
    )
}

fn toml_array_chars(raw: &Vec<char>) -> (r: Vec<String>)
    ensures
        views(r@) == toml_array_spec(raw@),
{
    let t = trim_chars(raw);
    let a = drop_lead_chars(&t, '[');
    let body = drop_trail_chars(&a, ']');
    let parts = split_chars(&body, ',');
    let ghost pv = parts@.map_values(|p: Vec<char>| p@);
    let ghost items = pv.map_values(|p: Seq<char>| toml_string_spec(trim(p)));
    let ghost keep = |s: Seq<char>| s.len() > 0;
    let mut out: Vec<String> = Vec::new();
    let mut i: usize = 0;
    while i < parts.len()
        invariant
            i <= parts.len(),
            pv == parts@.map_values(|p: Vec<char>| p@),
            items == pv.map_values(|p: Seq<char>| toml_string_spec(trim(p))),
            keep == (|s: Seq<char>| s.len() > 0),
            views(out@) == items.take(i as int).filter(keep),
        decreases parts.len() - i,
    {
        let p = trim_chars(&parts[i]);
        let item = toml_string_chars(&p);
        let ghost before = views(out@);
        proof {
            assert(parts@[i as int]@ == pv[i as int]);
            assert(item@ == items[i as int]);
            assert(items.take(i + 1).drop_last() =~= items.take(i as int));
            reveal(Seq::filter);
        }
        if item.len() > 0 {
            out.push(string_of(&item));
            assert(views(out@) =~= before.push(item@));
        }
        i = i + 1;
    }
    assert(items.take(parts.len() as int) =~= items);
    out
}

/// The strings of a one-line TOML array such as `["rustfmt", "clippy"]`.
pub fn parse_toml_string_array(raw: &str) -> (r: Vec<String>)
    ensures
        views(r@) == toml_array_spec(raw@),
{
    let v = chars_of(raw);
    toml_array_chars(&v)
}

/// The channel and components that `rust-toolchain.toml` pins.
pub struct ToolchainPin {
    pub channel: String,
    pub components: Vec<String>,
}

/// One line of `rust-toolchain.toml` applied to what was read so far: a `channel = `
/// line sets the channel, a `components = ` line sets the components.
pub open spec fn pin_step(st: (Option<Seq<char>>, Seq<Seq<char>>), line: Seq<char>) -> (
    Option<Seq<char>>,
    Seq<Seq<char>>,
) {
    let l = trim(line);
    if starts_with(l, "channel = "@) {
        (Some(toml_string_spec(l.skip("channel = "@.len() as int))), st.1)
    } else if starts_with(l, "components = "@) {
        (st.0, toml_array_spec(l.skip("components = "@.len() as int)))
    } else {
        st
    }
}

/// What the lines `ls` pin, the later line winning.
pub open spec fn pin_scan(ls: Seq<Seq<char>>) -> (Option<Seq<char>>, Seq<Seq<char>>)
    decreases ls.len(),
{
    if ls.len() == 0 {
        (None, Seq::empty())
    } else {
        pin_step(pin_scan(ls.drop_last()), ls.last())
    }
}

/// Error text when `rust-toolchain.toml` has no channel.
pub open spec fn missing_channel_message() -> Seq<char> {
    "rust-toolchain.toml missing channel"@
}

/// The pin in the text of `rust-toolchain.toml`; refused when no line sets the channel.
pub fn parse_toolchain_pin(content: &str) -> (r: Result<ToolchainPin, String>)
    ensures
        match pin_scan(lines_of(content@)) {
            (None, _) => r matches Err(m) && m@ == missing_channel_message(),
            (Some(ch), comps) => r matches Ok(p) && p.channel@ == ch && views(p.components@) == comps,
        },
{
    let v = chars_of(content);
    let ls = lines(&v);
    let ghost lv = ls@.map_values(|x: Vec<char>| x@);
    let chan_key = chars_of("channel = ");
    let comp_key = chars_of("components = ");
    let mut channel: Option<Vec<char>> = None;
    let mut components: Vec<String> = Vec::new();
    let mut i: usize = 0;
    while i < ls.len()
        invariant
            i <= ls.len(),
            lv == ls@.map_values(|x: Vec<char>| x@),
            chan_key@ == "channel = "@,
            comp_key@ == "components = "@,
            pin_scan(lv.take(i as int)) == (
                match channel {
                    Some(c) => Some(c@),
                    None => None::<Seq<char>>,
                },
                views(components@),
            ),
        decreases ls.len() - i,
    {
        let line = trim_chars(&ls[i]);
        proof {
            assert(ls@[i as int]@ == lv[i as int]);
            assert(lv.take(i + 1).drop_last() =~= lv.take(i as int));
            assert(lv.take(i + 1).last() == lv[i as int]);
        }
        match crate::text::strip_prefix(&line, &chan_key) {
            Some(rest) => {
                channel = Some(toml_string_chars(&rest));
            },
            None => match crate::text::strip_prefix(&line, &comp_key) {
                Some(rest) => {
                    components = toml_array_chars(&rest);
                },
                None => {},
            },
        }
        i = i + 1;
    }
    assert(lv.take(ls.len() as int) =~= lv);
    match channel {
        Some(c) => Ok(ToolchainPin { channel: string_of(&c), components }),
        None => Err(crate::text::to_string("rust-toolchain.toml missing channel")),
    }
}

/// Length of the leading run of non-whitespace characters of `s`.
pub open spec fn word_len(s: Seq<char>) -> nat
    decreases s.len(),
{
    if s.len() == 0 || crate::text::is_ws(s[0]) {
        0
    } else {
        1 + word_len(s.drop_first())
    }
}

/// The second whitespace-separated word of `s` (`split_whitespace().nth(1)`).
pub open spec fn second_word(s: Seq<char>) -> Option<Seq<char>> {
    let a = crate::text::trim_start(s);
    let rest = crate::text::trim_start(a.skip(word_len(a) as int));
    if rest.len() == 0 {
        None
    } else {
        Some(rest.take(word_len(rest) as int))
    }
}

proof fn lemma_word_len(s: Seq<char>, k: int)
    requires
        0 <= k <= s.len(),
        forall|j: int| 0 <= j < k ==> !crate::text::is_ws(s[j]),
        k == s.len() || crate::text::is_ws(s[k]),
    ensures
        word_len(s) == k,
    decreases k,
{
    if k > 0 {
        let t = s.drop_first();
        assert forall|j: int| 0 <= j < k - 1 implies !crate::text::is_ws(t[j]) by {
            assert(t[j] == s[j + 1]);
        }
        if k - 1 < t.len() {
            assert(t[k - 1] == s[k]);
        }
        lemma_word_len(t, k - 1);
    }
}

fn word_end(v: &Vec<char>, from: usize) -> (r: usize)
    requires
        from <= v.len(),
    ensures
        from <= r <= v.len(),
        r - from == word_len(v@.skip(from as int)),
{
    let mut k: usize = from;
    while k < v.len() && !crate::text::is_whitespace(v[k])
        invariant
            from <= k <= v.len(),
            forall|j: int| from <= j < k ==> !crate::text::is_ws(v@[j]),
        decreases v.len() - k,
    {
        k = k + 1;
    }
    proof {
        let t = v@.skip(from as int);
        assert forall|j: int| 0 <= j < k - from implies !crate::text::is_ws(t[j]) by {
            assert(t[j] == v@[j + from]);
        }
        if k < v.len() {
            assert(t[k - from] == v@[k as int]);
        }
        lemma_word_len(t, k - from);
    }
    k
}

fn ws_end(v: &Vec<char>, from: usize) -> (r: usize)
    requires
        from <= v.len(),
    ensures
        from <= r <= v.len(),
        crate::text::trim_start(v@.skip(from as int)) == v@.skip(r as int),
{
    let mut k: usize = from;
    while k < v.len() && crate::text::is_whitespace(v[k])
        invariant
            from <= k <= v.len(),
            forall|j: int| from <= j < k ==> crate::text::is_ws(v@[j]),
        decreases v.len() - k,
    {
        k = k + 1;
    }
    proof {
        let t = v@.skip(from as int);
        assert forall|j: int| 0 <= j < k - from implies crate::text::is_ws(t[j]) by {
            assert(t[j] == v@[j + from]);
        }
        if k < v.len() {
            assert(t[k - from] == v@[k as int]);
        }
        crate::text::lemma_trim_start_skip_pub(t, k - from);
        assert(t.skip(k - from) =~= v@.skip(k as int));
    }
    k
}

/// The active toolchain version in `rustc -V` output: its second word.
pub fn rustc_active_version(rustc_v: &str) -> (r: Option<String>)
    ensures
        match second_word(rustc_v@) {
            Some(w) => r matches Some(x) && x@ == w,
            None => r is None,
        },
{
    let v = chars_of(rustc_v);
    let a = ws_end(&v, 0);
    assert(v@.skip(0) =~= v@);
    let b = word_end(&v, a);
    proof {
        assert(v@.skip(a as int).skip(b - a) =~= v@.skip(b as int));
    }
    let c = ws_end(&v, b);
    if c == v.len() {
        None
    } else {
        let d = word_end(&v, c);
        proof {
            assert(v@.skip(c as int).take(d - c) =~= v@.subrange(c as int, d as int));
        }
        Some(crate::text::string_of_range(&v, c, d))
    }
}

/// Some line of `installed` begins with `component`.
pub open spec fn component_installed(installed: Seq<char>, component: Seq<char>) -> bool {
    exists|i: int| 0 <= i < lines_of(installed).len() && starts_with(lines_of(installed)[i], component)
}

/// The pinned components that `rustup component list --installed` does not list.
pub open spec fn missing_components_spec(comps: Seq<Seq<char>>, installed: Seq<char>) -> Seq<Seq<char>> {
    comps.filter(|c: Seq<char>| !component_installed(installed, c))
}

/// How the active toolchain compares with the pin.
pub struct ToolchainStatus {
    /// `rustc -V` mentions the pinned channel.
    pub channel_matches: bool,
    /// Pinned components that are not installed, in pin order.
    pub missing: Vec<String>,
}

impl ToolchainStatus {
    /// The active toolchain differs from the pin.
    pub fn divergent(&self) -> (r: bool)
        ensures
            r == (!self.channel_matches || self.missing.len() > 0),
    {
        !self.channel_matches || self.missing.len() > 0
    }

    /// The check fails: the toolchain diverges and strict mode was asked for.
    pub fn fails(&self, strict: bool) -> (r: bool)
        ensures
            r == (strict && (!self.channel_matches || self.missing.len() > 0)),
    {
        strict && self.divergent()
    }
}

fn installed_has(ls: &Vec<Vec<char>>, comp: &Vec<char>, Ghost(installed): Ghost<Seq<char>>) -> (r: bool)
    requires
        ls@.map_values(|x: Vec<char>| x@) == lines_of(installed),
    ensures
        r == component_installed(installed, comp@),
{
    let mut i: usize = 0;
    while i < ls.len()
        invariant
            i <= ls.len(),
            ls@.map_values(|x: Vec<char>| x@) == lines_of(installed),
            forall|j: int| 0 <= j < i ==> !starts_with(lines_of(installed)[j], comp@),
        decreases ls.len() - i,
    {
        assert(ls@[i as int]@ == lines_of(installed)[i as int]);
        if crate::text::starts_with_exec(&ls[i], comp) {
            return true;
        }
        i = i + 1;
    }
    false
}

/// Compares `rustc -V` output and the installed-component list with the pin.
pub fn toolchain_status(pin: &ToolchainPin, rustc_v: &str, installed: &str) -> (r: ToolchainStatus)
    ensures
        r.channel_matches == crate::text::contains_sub(rustc_v@, pin.channel@),
        views(r.missing@) == missing_components_spec(views(pin.components@), installed@),
{
    let channel_matches = str_contains(rustc_v, pin.channel.as_str());
    let iv = chars_of(installed);
    let ls = lines(&iv);
    let ghost comps = views(pin.components@);
    let ghost keep = |c: Seq<char>| !component_installed(installed@, c);
    let mut missing: Vec<String> = Vec::new();
    let mut i: usize = 0;
    while i < pin.components.len()
        invariant
            i <= pin.components.len(),
            comps == views(pin.components@),
            keep == (|c: Seq<char>| !component_installed(installed@, c)),
            ls@.map_values(|x: Vec<char>| x@) == lines_of(installed@),
            views(missing@) == comps.take(i as int).filter(keep),
        decreases pin.components.len() - i,
    {
        let comp = chars_of(pin.components[i].as_str());
        let found = installed_has(&ls, &comp, Ghost(installed@));
        let ghost before = views(missing@);
        proof {
            assert(comps[i as int] == pin.components@[i as int]@);
            assert(comps.take(i + 1).drop_last() =~= comps.take(i as int));
            reveal(Seq::filter);
        }
        if !found {
            missing.push(string_of(&comp));
            assert(views(missing@) =~= before.push(comp@));
        }
        i = i + 1;
    }
    assert(comps.take(pin.components.len() as int) =~= comps);
    ToolchainStatus { channel_matches, missing }
}

/// `buf --version`, the probe run before every buf task.
pub fn buf_version_command() -> (r: CommandSpec)
    ensures
        command_view(r) == ("buf"@, seq!["--version"@], None::<Seq<char>>),
{
    let c = CommandSpec::new("buf").arg("--version");
    assert(command_view(c).1 =~= seq!["--version"@]);
    c
}

/// The output of `buf --version` names the CLI version that the pin stands for.
pub fn buf_version_matches(version_output: &str, pin: &str) -> (r: bool)
    ensures
        r == crate::text::contains_sub(trim(version_output@), cli_version_spec(pin@)),
{
    let t = crate::text::trim_str(version_output);
    let cli = buf_cli_version_from_toolchain_pin(pin);
    str_contains(t.as_str(), cli.as_str())
}

/// The example protos directory under the repository root.
pub open spec fn examples_dir_spec(root: Seq<char>) -> Seq<char> {
    join_spec(root, "examples/proto"@)
}

/// A `buf` subcommand run from the example protos directory.
fn buf_in_examples(root: &str, args: &Vec<&str>) -> (r: CommandSpec)
    ensures
        command_view(r) == ("buf"@, args@.map_values(|s: &str| s@), Some(examples_dir_spec(root@))),
{
    let dir = join_path(root, "examples/proto");
    let c = crate::xtask::with_args(CommandSpec::new("buf"), args);
    assert(Seq::<Seq<char>>::empty() + args@.map_values(|s: &str| s@) =~= args@.map_values(|s: &str| s@));
    c.current_dir(dir.as_str())
}

/// `buf lint` over the examples, after the `buf --version` probe.
pub fn buf_lint(root: &str) -> (r: Vec<CommandSpec>)
    ensures
        r.len() == 2,
        command_view(r[0]) == ("buf"@, seq!["--version"@], None::<Seq<char>>),
        command_view(r[1]) == ("buf"@, seq!["lint"@], Some(examples_dir_spec(root@))),
{
    let mut args: Vec<&str> = Vec::new();
    args.push("lint");
    let lint = buf_in_examples(root, &args);
    assert(args@.map_values(|s: &str| s@) =~= seq!["lint"@]);
    let mut r: Vec<CommandSpec> = Vec::new();
    r.push(buf_version_command());
    r.push(lint);
    r
}

/// `buf format -w` over the examples, after the `buf --version` probe.
pub fn buf_format(root: &str) -> (r: Vec<CommandSpec>)
    ensures
        r.len() == 2,
        command_view(r[0]) == ("buf"@, seq!["--version"@], None::<Seq<char>>),
        command_view(r[1]) == ("buf"@, seq!["format"@, "-w"@], Some(examples_dir_spec(root@))),
{
    let mut args: Vec<&str> = Vec::new();
    args.push("format");
    args.push("-w");
    let f = buf_in_examples(root, &args);
    assert(args@.map_values(|s: &str| s@) =~= seq!["format"@, "-w"@]);
    let mut r: Vec<CommandSpec> = Vec::new();
    r.push(buf_version_command());
    r.push(f);
    r
}

/// `buf format --diff` over the examples, after the `buf --version` probe.
pub fn buf_format_check(root: &str) -> (r: Vec<CommandSpec>)
    ensures
        r.len() == 2,
        command_view(r[0]) == ("buf"@, seq!["--version"@], None::<Seq<char>>),
        command_view(r[1]) == ("buf"@, seq!["format"@, "--diff"@], Some(examples_dir_spec(root@))),
{
    let mut args: Vec<&str> = Vec::new();
    args.push("format");
    args.push("--diff");
    let f = buf_in_examples(root, &args);
    assert(args@.map_values(|s: &str| s@) =~= seq!["format"@, "--diff"@]);
    let mut r: Vec<CommandSpec> = Vec::new();
    r.push(buf_version_command());
    r.push(f);
    r
}

/// `cargo fmt --all` from the root, then `buf format -w` over the examples (with its
/// probe).
pub fn fmt(root: &str) -> (r: Vec<CommandSpec>)
    ensures
        r.len() == 3,
        command_view(r[0]) == ("cargo"@, seq!["fmt"@, "--all"@], Some(root@)),
        command_view(r[1]) == ("buf"@, seq!["--version"@], None::<Seq<char>>),
        command_view(r[2]) == ("buf"@, seq!["format"@, "-w"@], Some(examples_dir_spec(root@))),
{
    let c = CommandSpec::new("cargo").arg("fmt").arg("--all").current_dir(root);
    assert(command_view(c).1 =~= seq!["fmt"@, "--all"@]);
    let mut args: Vec<&str> = Vec::new();
    args.push("format");
    args.push("-w");
    let f = buf_in_examples(root, &args);
    assert(args@.map_values(|s: &str| s@) =~= seq!["format"@, "-w"@]);
    let mut r: Vec<CommandSpec> = Vec::new();
    r.push(c);
    r.push(buf_version_command());
    r.push(f);
    r
}

/// `cargo build --locked --release -p protobuf-mdbook` from the root.
pub fn build_plugin(root: &str) -> (r: CommandSpec)
    ensures
        command_view(r) == (
            "cargo"@,
            seq!["build"@, "--locked"@, "--release"@, "-p"@, "protobuf-mdbook"@],
            Some(root@),
        ),
{
    let c = CommandSpec::new("cargo").arg("build").arg("--locked").arg("--release").arg("-p").arg(
        "protobuf-mdbook",
    ).current_dir(root);
    assert(command_view(c).1 =~= seq!["build"@, "--locked"@, "--release"@, "-p"@, "protobuf-mdbook"@]);
    c
}

/// Where a release build puts binary `name`: `target/release/{name}` under the root.
pub fn release_bin(root: &str, name: &str) -> (r: String)
    ensures
        r@ == join_spec(root@, "target/release/"@ + name@),
{
    let mut rel = crate::text::to_string("target/release/");
    rel.append(name);
    join_path(root, rel.as_str())
}

} // verus!
