//! Decisions of the standalone command line: merging `--opt` values into one plugin
//! parameter, naming the output root, and refusing conflicting arguments.

use crate::options::{opt_view, parse_parameter, parse_parameter_spec, OptionsError, OptionsErrorModel};
use crate::text::{
    chars_of, contains_sub, join_with, split_chars, split_on, str_contains, string_of, to_string, trim, trim_chars,
    views,
};
use vstd::prelude::*;

verus! {

/// The non-empty trimmed comma-separated pieces of one `--opt` value.
pub open spec fn opt_pieces(o: Seq<char>) -> Seq<Seq<char>> {
    split_on(o, ',').map_values(|p: Seq<char>| trim(p)).filter(|p: Seq<char>| p.len() > 0)
}

/// The pieces of every `--opt` value, in order.
pub open spec fn all_pieces(opts: Seq<Seq<char>>) -> Seq<Seq<char>>
    decreases opts.len(),
{
    if opts.len() == 0 {
        Seq::empty()
    } else {
        all_pieces(opts.drop_last()) + opt_pieces(opts.last())
    }
}

/// `--opt` values as one plugin parameter: pieces joined with commas, none when empty.
pub open spec fn merged_opts_spec(opts: Seq<Seq<char>>) -> Option<Seq<char>> {
    if all_pieces(opts).len() == 0 {
        None
    } else {
        Some(join_with(all_pieces(opts), seq![',']))
    }
}

fn push_pieces(out: &mut Vec<String>, o: &str)
    ensures
        views(final(out)@) == views(old(out)@) + opt_pieces(o@),
{
    let v = chars_of(o);
    let parts = split_chars(&v, ',');
    let ghost pv = parts@.map_values(|x: Vec<char>| x@);
    let ghost tv = pv.map_values(|p: Seq<char>| trim(p));
    let ghost keep = |p: Seq<char>| p.len() > 0;
    let ghost base = views(out@);
    let mut i: usize = 0;
    while i < parts.len()
        invariant
            i <= parts.len(),
            pv == parts@.map_values(|x: Vec<char>| x@),
            tv == pv.map_values(|p: Seq<char>| trim(p)),
            keep == (|p: Seq<char>| p.len() > 0),
            views(out@) == base + tv.take(i as int).filter(keep),
        decreases parts.len() - i,
    {
        let t = trim_chars(&parts[i]);
        let ghost before = views(out@);
        proof {
            assert(parts@[i as int]@ == pv[i as int]);
            assert(t@ == tv[i as int]);
            assert(tv.take(i + 1).drop_last() =~= tv.take(i as int));
            reveal(Seq::filter);
        }
        if t.len() > 0 {
            out.push(string_of(&t));
            assert(views(out@) =~= before.push(t@));
            assert(base + tv.take(i + 1).filter(keep) =~= (base + tv.take(i as int).filter(keep)).push(t@));
        } else {
            assert(base + tv.take(i + 1).filter(keep) =~= base + tv.take(i as int).filter(keep));
        }
        i = i + 1;
    }
    assert(tv.take(parts.len() as int) =~= tv);
}

/// `--opt` values as one plugin parameter.
pub fn merge_opts(opts: &Vec<String>) -> (r: Option<String>)
    ensures
        opt_view(r) == merged_opts_spec(views(opts@)),
{
    let ghost ov = views(opts@);
    let mut pieces: Vec<String> = Vec::new();
    let mut i: usize = 0;
    while i < opts.len()
        invariant
            i <= opts.len(),
            ov == views(opts@),
            views(pieces@) == all_pieces(ov.take(i as int)),
        decreases opts.len() - i,
    {
        push_pieces(&mut pieces, opts[i].as_str());
        proof {
            assert(ov.take(i + 1).drop_last() =~= ov.take(i as int));
            assert(ov.take(i + 1).last() == ov[i as int]);
        }
        i = i + 1;
    }
    assert(ov.take(opts.len() as int) =~= ov);
    if pieces.len() == 0 {
        None
    } else {
        let r = crate::text::join_strings(&pieces, ",");
        proof {
            reveal_strlit(",");
            assert(","@ =~= seq![',']);
        }
        Some(r)
    }
}

/// The parameter once `-o DIR` is given: `mdbook_out=DIR` appended (after a comma when
/// there are other options) unless the parameter already names `mdbook_out=`.
pub open spec fn with_output_spec(parameter: Option<Seq<char>>, out: Option<Seq<char>>) -> Option<Seq<char>> {
    match out {
        None => parameter,
        Some(o) => {
            let p = match parameter {
                Some(s) => s,
                None => Seq::empty(),
            };
            let q = if contains_sub(p, "mdbook_out="@) {
                p
            } else {
                (if p.len() > 0 {
                    p + seq![',']
                } else {
                    p
                }) + "mdbook_out="@ + o
            };
            if q.len() == 0 {
                None
            } else {
                Some(q)
            }
        },
    }
}

/// The parameter once `-o DIR` is given.
pub fn with_output(parameter: Option<String>, out: &Option<String>) -> (r: Option<String>)
    ensures
        opt_view(r) == with_output_spec(opt_view(parameter), opt_view(*out)),
{
    match out {
        None => parameter,
        Some(o) => {
            let mut p = match parameter {
                Some(s) => s,
                None => String::new(),
            };
            if !str_contains(p.as_str(), "mdbook_out=") {
                if p.as_str().unicode_len() > 0 {
                    crate::text::push_char(&mut p, ',');
                }
                p.append("mdbook_out=");
                p.append(o.as_str());
            }
            if p.as_str().unicode_len() == 0 {
                None
            } else {
                Some(p)
            }
        },
    }
}

/// Why the command line was refused.
pub enum CliError {
    /// No output root: `-o` missing and no `mdbook_out=` option.
    OutputRequired,
    /// No output root while `book=` is set.
    OutputRequiredWithBook,
    /// `--request` was combined with input paths.
    RequestWithInputs,
    /// The merged options were refused.
    Options(OptionsError),
}

/// Text of a refused command line.
pub open spec fn cli_error_message(e: CliError) -> Seq<char> {
    match e {
        CliError::OutputRequired => "`-o / --output` is required"@,
        CliError::OutputRequiredWithBook => "`-o / --output` is required unless `mdbook_out=` is set in --opt"@,
        CliError::RequestWithInputs => "--request cannot be combined with INPUT paths"@,
        CliError::Options(o) => crate::options::options_error_message(o@),
    }
}

impl CliError {
    /// Human-readable description.
    pub fn message(&self) -> (m: String)
        ensures
            m@ == cli_error_message(*self),
    {
        match self {
            CliError::OutputRequired => to_string("`-o / --output` is required"),
            CliError::OutputRequiredWithBook => to_string(
                "`-o / --output` is required unless `mdbook_out=` is set in --opt",
            ),
            CliError::RequestWithInputs => to_string("--request cannot be combined with INPUT paths"),
            CliError::Options(e) => e.message(),
        }
    }
}

/// `--request` reads the request from stdin, so input paths are refused beside it.
pub fn check_request(request: bool, n_inputs: usize) -> (r: Result<(), CliError>)
    ensures
        (request && n_inputs > 0) ==> r matches Err(CliError::RequestWithInputs),
        !(request && n_inputs > 0) ==> r is Ok,
{
    if request && n_inputs > 0 {
        Err(CliError::RequestWithInputs)
    } else {
        Ok(())
    }
}

/// The directory the files are written under: `-o`, else the `mdbook_out=` option;
/// refused when neither is given, or the options are refused.
pub fn output_root(cli_output: &Option<String>, parameter: &Option<String>) -> (r: Result<String, CliError>)
    ensures
        match *cli_output {
            Some(o) => r matches Ok(x) && x@ == o@,
            None => match parse_parameter_spec(opt_view(*parameter)) {
                Err(e) => r matches Err(CliError::Options(x)) && x@ == e,
                Ok(m) => match m.mdbook_out {
                    Some(x) => r matches Ok(y) && y@ == x,
                    None => if m.book is Some {
                        r matches Err(CliError::OutputRequiredWithBook)
                    } else {
                        r matches Err(CliError::OutputRequired)
                    },
                },
            },
        },
{
    match cli_output {
        Some(o) => Ok(o.clone()),
        None => match parse_parameter(parameter) {
            Err(e) => Err(CliError::Options(e)),
            Ok(opts) => match opts.mdbook_out {
                Some(x) => Ok(x),
                None => if opts.book.is_some() {
                    Err(CliError::OutputRequiredWithBook)
                } else {
                    Err(CliError::OutputRequired)
                },
            },
        },
    }
}

} // verus!
