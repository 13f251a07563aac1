//! Resolving CLI inputs into descriptors: which inputs to read, and how descriptor
//! sets, compiled files and requested names combine.

use crate::descriptor::FileDesc;
use crate::generate::GenerateInput;
use crate::options::Options;
use crate::text::{
    chars_eq, chars_of, contains_sub, lemma_str_lt_total, lemma_str_lt_trans, slice_vec, str_contains,
    str_less, str_lt, string_of, to_string, views,
};
use vstd::prelude::*;

verus! {

/// Compiler for `.proto` inputs when no descriptor set is given.
#[derive(Clone, Copy, Debug, PartialEq, Eq, Structural)]
pub enum Compiler {
    Buf,
    Protoc,
}

impl Default for Compiler {
    fn default() -> (r: Self)
        ensures
            r == Compiler::Buf,
    {
        Compiler::Buf
    }
}

/// Arguments for input resolution (from the CLI or tests).
pub struct ResolveArgs {
    pub compiler: Compiler,
    pub descriptor_sets: Vec<String>,
    pub inputs: Vec<String>,
    pub proto_paths: Vec<String>,
    pub protoc_path: Option<String>,
    pub buf_path: Option<String>,
    pub proto_deps_export: Option<String>,
    pub from_request: bool,
}

impl Default for ResolveArgs {
    fn default() -> (r: Self)
        ensures
            r.compiler == Compiler::Buf,
            r.descriptor_sets.len() == 0,
            r.inputs.len() == 0,
            r.proto_paths.len() == 0,
            r.protoc_path is None,
            r.buf_path is None,
            r.proto_deps_export is None,
            !r.from_request,
    {
        ResolveArgs {
            compiler: Compiler::Buf,
            descriptor_sets: Vec::new(),
            inputs: Vec::new(),
            proto_paths: Vec::new(),
            protoc_path: None,
            buf_path: None,
            proto_deps_export: None,
            from_request: false,
        }
    }
}

/// Resolved descriptors before option parsing.
pub struct ResolvedInput {
    pub proto_file: Vec<FileDesc>,
    pub file_to_generate: Vec<String>,
    pub proto_search_paths: Vec<String>,
}

impl ResolvedInput {
    /// Generation input with the CLI's options; search roots travel on the input,
    /// not in the parameter.
    pub fn into_generate_input(self, options: Options) -> (r: GenerateInput)
        ensures
            r.proto_file@ == self.proto_file@,
            r.file_to_generate@ == self.file_to_generate@,
            r.parameter is None,
            r.options matches Some(o) && o@ == options@,
            r.proto_search_paths@ == self.proto_search_paths@,
    {
        GenerateInput {
            proto_file: self.proto_file,
            file_to_generate: self.file_to_generate,
            parameter: None,
            options: Some(options),
            proto_search_paths: self.proto_search_paths,
        }
    }
}

/// Why inputs could not be resolved.
#[derive(Clone, Debug, PartialEq, Eq)]
pub enum InputError {
    /// Neither `.proto` inputs, descriptor sets nor a request were given.
    NoInputs,
    /// The inputs yielded no descriptor.
    NoDescriptors,
    /// No requested file is among the descriptors.
    EmptyFileToGenerate,
    /// A `.proto` path climbs with `..`.
    ParentDirInProtoPath(String),
    /// `buf` is neither given nor on `PATH`.
    BufNotFound,
    /// A `.proto` file lies under none of the include paths.
    NotUnderProtoPath(String),
    /// A path lies outside the module root: the path, then the root.
    NotUnderModuleRoot(String, String),
    /// A path below the module root climbs with `..`.
    InvalidPathComponent(String),
    /// A file input without the `.proto` extension.
    NotAProtoFile(String),
    /// An input that is neither a file nor a directory.
    InputNotFound(String),
    /// The inputs name no `.proto` file.
    NoProtoInputs,
    /// A compiler was asked to compile no input.
    NoCompilerInputs(Compiler),
    /// No `buf.yaml` above the first input.
    NoBufModule(String),
    /// A file input with no parent directory.
    NoParent,
    /// No input to infer the proto root from.
    NoProtoRoot,
}

/// Text of refused inputs.
pub open spec fn input_error_message(e: InputError) -> Seq<char> {
    match e {
        InputError::NoInputs => "no inputs: pass proto paths, --descriptor-set, or --request -"@,
        InputError::NoDescriptors => "no protobuf descriptors resolved from inputs"@,
        InputError::EmptyFileToGenerate => "file_to_generate is empty after resolving inputs"@,
        InputError::ParentDirInProtoPath(n) => "proto path must not contain `..`: "@ + n@,
        InputError::BufNotFound => "buf not found on PATH; install with: cargo install buf-toolchain --locked --version 1.69.0"@,
        InputError::NotUnderProtoPath(p) => p@ + " is not under any --proto-path (-I) directory; add an include path"@,
        InputError::NotUnderModuleRoot(p, root) => p@ + " is not under module root "@ + root@,
        InputError::NotAProtoFile(p) => "not a .proto file: "@ + p@,
        InputError::InputNotFound(p) => "input not found: "@ + p@,
        InputError::NoProtoInputs => "no .proto inputs found"@,
        InputError::NoCompilerInputs(c) => match c {
            Compiler::Buf => "no inputs provided for buf compilation"@,
            Compiler::Protoc => "no inputs provided for protoc compilation"@,
        },
        InputError::NoBufModule(p) => "no Buf module (buf.yaml) found for "@ + p@
            + "; pass a module root or use `--compiler protoc`"@,
        InputError::NoParent => "input file has no parent directory"@,
        InputError::NoProtoRoot => "no inputs to infer proto root"@,
        InputError::InvalidPathComponent(p) => "invalid path component in "@ + p@ + ": ParentDir"@,
    }
}

impl InputError {
    /// Human-readable description.
    pub fn message(&self) -> (m: String)
        ensures
            m@ == input_error_message(*self),
    {
        match self {
            InputError::NoInputs => to_string("no inputs: pass proto paths, --descriptor-set, or --request -"),
            InputError::NoDescriptors => to_string("no protobuf descriptors resolved from inputs"),
            InputError::EmptyFileToGenerate => to_string("file_to_generate is empty after resolving inputs"),
            InputError::ParentDirInProtoPath(n) => {
                let mut m = to_string("proto path must not contain `..`: ");
                m.append(n.as_str());
                m
            },
            InputError::BufNotFound => to_string(
                "buf not found on PATH; install with: cargo install buf-toolchain --locked --version 1.69.0",
            ),
            InputError::NotUnderProtoPath(p) => {
                let mut m = to_string(p.as_str());
                m.append(" is not under any --proto-path (-I) directory; add an include path");
                m
            },
            InputError::NotUnderModuleRoot(p, root) => {
                let mut m = to_string(p.as_str());
                m.append(" is not under module root ");
                m.append(root.as_str());
                m
            },
            InputError::NotAProtoFile(p) => {
                let mut m = to_string("not a .proto file: ");
                m.append(p.as_str());
                m
            },
            InputError::InputNotFound(p) => {
                let mut m = to_string("input not found: ");
                m.append(p.as_str());
                m
            },
            InputError::NoProtoInputs => to_string("no .proto inputs found"),
            InputError::NoCompilerInputs(c) => match c {
                Compiler::Buf => to_string("no inputs provided for buf compilation"),
                Compiler::Protoc => to_string("no inputs provided for protoc compilation"),
            },
            InputError::NoBufModule(p) => {
                let mut m = to_string("no Buf module (buf.yaml) found for ");
                m.append(p.as_str());
                m.append("; pass a module root or use `--compiler protoc`");
                m
            },
            InputError::NoParent => to_string("input file has no parent directory"),
            InputError::NoProtoRoot => to_string("no inputs to infer proto root"),
            InputError::InvalidPathComponent(p) => {
                let mut m = to_string("invalid path component in ");
                m.append(p.as_str());
                m.append(": ParentDir");
                m
            },
        }
    }
}

/// What the caller reads before resolving: the request on stdin, only descriptor sets,
/// or descriptor sets plus `.proto` inputs compiled with a compiler.
#[derive(Clone, Copy, Debug, PartialEq, Eq, Structural)]
pub enum InputPlan {
    FromRequest,
    DescriptorSetsOnly,
    Compile(Compiler),
}

/// What to read for `args`.
pub open spec fn plan_spec(from_request: bool, n_sets: nat, n_inputs: nat, compiler: Compiler) -> Result<InputPlan, InputError> {
    if from_request {
        Ok(InputPlan::FromRequest)
    } else if n_inputs > 0 {
        Ok(InputPlan::Compile(compiler))
    } else if n_sets > 0 {
        Ok(InputPlan::DescriptorSetsOnly)
    } else {
        Err(InputError::NoInputs)
    }
}

/// What to read for `args`; refused when nothing is given.
pub fn input_plan(args: &ResolveArgs) -> (r: Result<InputPlan, InputError>)
    ensures
        r == plan_spec(args.from_request, args.descriptor_sets.len() as nat, args.inputs.len() as nat, args.compiler),
{
    if args.from_request {
        Ok(InputPlan::FromRequest)
    } else if args.inputs.len() > 0 {
        Ok(InputPlan::Compile(args.compiler))
    } else if args.descriptor_sets.len() > 0 {
        Ok(InputPlan::DescriptorSetsOnly)
    } else {
        Err(InputError::NoInputs)
    }
}

/// Position at which a file named `n` goes into a name-sorted list.
pub open spec fn file_pos(m: Seq<FileDesc>, n: Seq<char>) -> int
    decreases m.len(),
{
    if m.len() == 0 || !str_lt(m[0].name->0@, n) {
        0
    } else {
        1 + file_pos(m.drop_first(), n)
    }
}

/// `m` with `f` stored under its name (replacing a file of that name, else inserted in
/// name order); nameless files are skipped.
pub open spec fn add_file(m: Seq<FileDesc>, f: FileDesc) -> Seq<FileDesc> {
    match f.name {
        None => m,
        Some(n) => {
            let i = name_index(m, n@);
            if i >= 0 {
                m.update(i, f)
            } else {
                m.insert(file_pos(m, n@), f)
            }
        },
    }
}

/// Index of the last file named `n`, or `-1`.
pub open spec fn name_index(m: Seq<FileDesc>, n: Seq<char>) -> int
    decreases m.len(),
{
    if m.len() == 0 {
        -1
    } else if m.last().name->0@ == n {
        m.len() - 1
    } else {
        name_index(m.drop_last(), n)
    }
}

proof fn lemma_name_index(m: Seq<FileDesc>, n: Seq<char>)
    ensures
        -1 <= name_index(m, n) < m.len(),
        name_index(m, n) >= 0 ==> m[name_index(m, n)].name->0@ == n,
        name_index(m, n) < 0 ==> forall|i: int| 0 <= i < m.len() ==> (#[trigger] m[i]).name->0@ != n,
    decreases m.len(),
{
    if m.len() > 0 && m.last().name->0@ != n {
        lemma_name_index(m.drop_last(), n);
        assert forall|i: int| 0 <= i < m.len() - 1 implies m[i] == m.drop_last()[i] by {}
    }
}

proof fn lemma_name_index_unique(m: Seq<FileDesc>, n: Seq<char>, j: int)
    requires
        files_sorted(m),
        0 <= j < m.len(),
        m[j].name->0@ == n,
    ensures
        name_index(m, n) == j,
{
    lemma_name_index(m, n);
    let i = name_index(m, n);
    crate::text::lemma_str_lt_irrefl(n);
    if 0 <= i < j {
        assert(str_lt(m[i].name->0@, m[j].name->0@));
    } else if i > j {
        assert(str_lt(m[j].name->0@, m[i].name->0@));
    }
}

/// Files merged by name (a later file replaces an earlier one), sorted by name.
pub open spec fn add_files(m: Seq<FileDesc>, fs: Seq<FileDesc>) -> Seq<FileDesc>
    decreases fs.len(),
{
    if fs.len() == 0 {
        m
    } else {
        add_file(add_files(m, fs.drop_last()), fs.last())
    }
}

/// Named files with names strictly increasing.
pub open spec fn files_sorted(m: Seq<FileDesc>) -> bool {
    &&& forall|i: int| 0 <= i < m.len() ==> (#[trigger] m[i]).name is Some
    &&& forall|i: int, j: int| 0 <= i < j < m.len() ==> str_lt((#[trigger] m[i]).name->0@, (#[trigger] m[j]).name->0@)
}

proof fn lemma_add_file_sorted(m: Seq<FileDesc>, f: FileDesc)
    requires
        files_sorted(m),
    ensures
        files_sorted(add_file(m, f)),
{
    if let Some(n) = f.name {
        lemma_name_index(m, n@);
        if name_index(m, n@) >= 0 {
            let i = name_index(m, n@);
            let r = m.update(i, f);
            assert forall|a: int, b: int| 0 <= a < b < r.len() implies str_lt(
                (#[trigger] r[a]).name->0@,
                (#[trigger] r[b]).name->0@,
            ) by {
                assert(r[a].name->0@ == m[a].name->0@);
                assert(r[b].name->0@ == m[b].name->0@);
            }
        } else {
            lemma_file_pos(m, n@);
            let p = file_pos(m, n@);
            let r = m.insert(p, f);
            assert forall|a: int, b: int| 0 <= a < b < r.len() implies str_lt(
                (#[trigger] r[a]).name->0@,
                (#[trigger] r[b]).name->0@,
            ) by {
                if a < p && b < p {
                    assert(r[a] == m[a] && r[b] == m[b]);
                } else if a < p && b == p {
                    assert(r[a] == m[a]);
                } else if a < p && b > p {
                    assert(r[a] == m[a] && r[b] == m[b - 1]);
                } else if a == p {
                    assert(r[b] == m[b - 1]);
                    lemma_str_lt_total(n@, m[b - 1].name->0@);
                } else {
                    assert(r[a] == m[a - 1] && r[b] == m[b - 1]);
                }
            }
        }
    }
}

proof fn lemma_file_pos(m: Seq<FileDesc>, n: Seq<char>)
    requires
        files_sorted(m),
    ensures
        0 <= file_pos(m, n) <= m.len(),
        forall|i: int| 0 <= i < file_pos(m, n) ==> str_lt((#[trigger] m[i]).name->0@, n),
        forall|i: int| file_pos(m, n) <= i < m.len() ==> !str_lt((#[trigger] m[i]).name->0@, n),
    decreases m.len(),
{
    if m.len() > 0 {
        let t = m.drop_first();
        assert(files_sorted(t)) by {
            assert forall|i: int, j: int| 0 <= i < j < t.len() implies str_lt(
                (#[trigger] t[i]).name->0@,
                (#[trigger] t[j]).name->0@,
            ) by {
                assert(t[i] == m[i + 1] && t[j] == m[j + 1]);
            }
        }
        lemma_file_pos(t, n);
        if str_lt(m[0].name->0@, n) {
            assert forall|i: int| 0 <= i < file_pos(m, n) implies str_lt((#[trigger] m[i]).name->0@, n) by {
                if i > 0 {
                    assert(m[i] == t[i - 1]);
                }
            }
            assert forall|i: int| file_pos(m, n) <= i < m.len() implies !str_lt((#[trigger] m[i]).name->0@, n) by {
                assert(m[i] == t[i - 1]);
            }
        } else {
            assert forall|i: int| 0 <= i < m.len() implies !str_lt((#[trigger] m[i]).name->0@, n) by {
                if i > 0 && str_lt(m[i].name->0@, n) {
                    lemma_str_lt_trans(m[0].name->0@, m[i].name->0@, n);
                }
            }
        }
    }
}

proof fn lemma_add_files_sorted(m: Seq<FileDesc>, fs: Seq<FileDesc>)
    requires
        files_sorted(m),
    ensures
        files_sorted(add_files(m, fs)),
    decreases fs.len(),
{
    if fs.len() > 0 {
        lemma_add_files_sorted(m, fs.drop_last());
        lemma_add_file_sorted(add_files(m, fs.drop_last()), fs.last());
    }
}

fn name_before(out: &Vec<FileDesc>, p: usize, n: &str) -> (r: bool)
    requires
        p < out.len(),
        out@[p as int].name is Some,
    ensures
        r == str_lt(out@[p as int].name->0@, n@),
{
    match &out[p].name {
        Some(x) => str_less(x.as_str(), n),
        None => false,
    }
}

fn insert_file(out: &mut Vec<FileDesc>, f: FileDesc)
    requires
        files_sorted(old(out)@),
    ensures
        final(out)@ == add_file(old(out)@, f),
        files_sorted(final(out)@),
{
    proof {
        lemma_add_file_sorted(out@, f);
    }
    let ghost m = out@;
    let n = match &f.name {
        Some(n) => to_string(n.as_str()),
        None => {
            return;
        },
    };
    let nv = chars_of(n.as_str());
    let mut i: usize = 0;
    while i < out.len()
        invariant
            i <= out.len(),
            m == out@,
            m == old(out)@,
            nv@ == n@,
            f.name matches Some(x) && x@ == n@,
            files_sorted(m),
            forall|j: int| 0 <= j < i ==> (#[trigger] m[j]).name->0@ != n@,
        decreases out.len() - i,
    {
        let same = match &out[i].name {
            Some(x) => chars_eq(&chars_of(x.as_str()), &nv),
            None => false,
        };
        if same {
            assert(m[i as int].name->0@ == n@);
            proof {
                lemma_name_index_unique(m, n@, i as int);
                assert(f.name->0@ == n@);
                assert(name_index(m, f.name->0@) == i);
                assert(add_file(m, f) == m.update(i as int, f));
            }
            let _ = out.remove(i);
            out.insert(i, f);
            assert(out@ =~= m.update(i as int, f));
            return;
        }
        i = i + 1;
    }
    let mut p: usize = 0;
    assert(m.skip(0) =~= m);
    while p < out.len() && name_before(out, p, n.as_str())
        invariant
            p <= out.len(),
            m == out@,
            files_sorted(m),
            file_pos(m, n@) == p + file_pos(m.skip(p as int), n@),
        decreases out.len() - p,
    {
        assert(m.skip(p as int)[0] == m[p as int]);
        assert(m.skip(p as int).drop_first() =~= m.skip(p + 1));
        p = p + 1;
    }
    proof {
        if p < out.len() {
            assert(m.skip(p as int)[0] == m[p as int]);
        }
        lemma_name_index(m, n@);
        if name_index(m, n@) >= 0 {
            assert(m[name_index(m, n@)].name->0@ == n@);
        }
    }
    out.insert(p, f);
    assert(out@ =~= add_file(m, f));
}

/// Adds `files` to `into` by name: a file replaces one of the same name; the result is
/// sorted by name and holds only named files.
pub fn merge_proto_files(into: &mut Vec<FileDesc>, files: Vec<FileDesc>)
    ensures
        final(into)@ == add_files(add_files(Seq::empty(), old(into)@), files@),
        files_sorted(final(into)@),
{
    let ghost first = into@;
    let n0 = into.len();
    let mut out: Vec<FileDesc> = Vec::new();
    let mut i: usize = 0;
    while into.len() > 0
        invariant
            i + into.len() == first.len(),
            first.len() == n0,
            into@ == first.skip(i as int),
            out@ == add_files(Seq::empty(), first.take(i as int)),
            files_sorted(out@),
        decreases into.len(),
    {
        let f = into.remove(0);
        assert(f == first[i as int]);
        insert_file(&mut out, f);
        proof {
            assert(first.take(i + 1).drop_last() =~= first.take(i as int));
            assert(into@ =~= first.skip(i + 1));
        }
        i = i + 1;
    }
    assert(first.take(i as int) =~= first);
    let ghost second = files@;
    let n1 = files.len();
    let mut rest = files;
    let mut k: usize = 0;
    let ghost mid = out@;
    assert(second.take(0) =~= Seq::<FileDesc>::empty());
    while rest.len() > 0
        invariant
            k + rest.len() == second.len(),
            second.len() == n1,
            rest@ == second.skip(k as int),
            out@ == add_files(mid, second.take(k as int)),
            files_sorted(out@),
        decreases rest.len(),
    {
        let f = rest.remove(0);
        assert(f == second[k as int]);
        insert_file(&mut out, f);
        proof {
            assert(second.take(k + 1).drop_last() =~= second.take(k as int));
            assert(rest@ =~= second.skip(k + 1));
        }
        k = k + 1;
    }
    assert(second.take(k as int) =~= second);
    *into = out;
}

/// Some file is named `n`.
pub open spec fn has_file_named(files: Seq<FileDesc>, n: Seq<char>) -> bool {
    exists|i: int| 0 <= i < files.len() && ((#[trigger] files[i]).name matches Some(x) && x@ == n)
}

/// Some file of `files` is named `n`.
pub fn has_file_named_exec(files: &Vec<FileDesc>, n: &str) -> (r: bool)
    ensures
        r == has_file_named(files@, n@),
{
    let nv = chars_of(n);
    let mut i: usize = 0;
    while i < files.len()
        invariant
            i <= files.len(),
            nv@ == n@,
            forall|j: int| 0 <= j < i ==> !((#[trigger] files@[j]).name matches Some(x) && x@ == n@),
        decreases files.len() - i,
    {
        match &files[i].name {
            Some(x) => {
                if chars_eq(&chars_of(x.as_str()), &nv) {
                    return true;
                }
            },
            None => {},
        }
        i = i + 1;
    }
    false
}

/// Requested names that name one of the files, in order.
pub open spec fn filter_names_spec(files: Seq<FileDesc>, wanted: Seq<Seq<char>>) -> Seq<Seq<char>> {
    wanted.filter(|n: Seq<char>| has_file_named(files, n))
}

/// Requested names that name one of `proto_file`, in order.
pub fn filter_file_to_generate(proto_file: &Vec<FileDesc>, wanted: &Vec<String>) -> (r: Vec<String>)
    ensures
        views(r@) == filter_names_spec(proto_file@, views(wanted@)),
{
    let ghost wv = views(wanted@);
    let mut out: Vec<String> = Vec::new();
    let mut i: usize = 0;
    while i < wanted.len()
        invariant
            i <= wanted.len(),
            wv == views(wanted@),
            views(out@) == wv.take(i as int).filter(|n: Seq<char>| has_file_named(proto_file@, n)),
        decreases wanted.len() - i,
    {
        let ghost before = views(out@);
        if has_file_named_exec(proto_file, wanted[i].as_str()) {
            out.push(to_string(wanted[i].as_str()));
            assert(views(out@) =~= before.push(wv[i as int]));
        }
        proof {
            assert(wv.take(i + 1).drop_last() =~= wv.take(i as int));
            assert(wv.take(i + 1).last() == wv[i as int]);
            reveal(Seq::filter);
        }
        i = i + 1;
    }
    assert(wv.take(wanted.len() as int) =~= wv);
    out
}

/// Position at which `n` goes into a sorted list of names.
pub open spec fn name_pos(m: Seq<Seq<char>>, n: Seq<char>) -> int
    decreases m.len(),
{
    if m.len() == 0 || !str_lt(m[0], n) {
        0
    } else {
        1 + name_pos(m.drop_first(), n)
    }
}

/// Names sorted, each once.
pub open spec fn sorted_unique(names: Seq<Seq<char>>) -> Seq<Seq<char>>
    decreases names.len(),
{
    if names.len() == 0 {
        Seq::empty()
    } else {
        let m = sorted_unique(names.drop_last());
        let n = names.last();
        if m.contains(n) {
            m
        } else {
            m.insert(name_pos(m, n), n)
        }
    }
}

fn contains_name(out: &Vec<String>, n: &str) -> (r: bool)
    ensures
        r == views(out@).contains(n@),
{
    let ghost m = views(out@);
    let mut j: usize = 0;
    while j < out.len()
        invariant
            j <= out.len(),
            m == views(out@),
            forall|t: int| 0 <= t < j ==> m[t] != n@,
        decreases out.len() - j,
    {
        assert(m[j as int] == out@[j as int]@);
        if crate::text::str_eq(out[j].as_str(), n) {
            return true;
        }
        j = j + 1;
    }
    false
}

fn name_insert_pos(out: &Vec<String>, n: &str) -> (r: usize)
    ensures
        r == name_pos(views(out@), n@),
        r <= out.len(),
{
    let ghost m = views(out@);
    let mut p: usize = 0;
    assert(m.skip(0) =~= m);
    while p < out.len() && str_less(out[p].as_str(), n)
        invariant
            p <= out.len(),
            m == views(out@),
            name_pos(m, n@) == p + name_pos(m.skip(p as int), n@),
        decreases out.len() - p,
    {
        assert(m.skip(p as int)[0] == m[p as int]);
        assert(m.skip(p as int).drop_first() =~= m.skip(p + 1));
        p = p + 1;
    }
    proof {
        if p < out.len() {
            assert(m.skip(p as int)[0] == m[p as int]);
        }
    }
    p
}

/// Names sorted by code point, each once (`sort` then `dedup`).
pub fn sort_dedup(names: &Vec<String>) -> (r: Vec<String>)
    ensures
        views(r@) == sorted_unique(views(names@)),
{
    let ghost nv = views(names@);
    let mut out: Vec<String> = Vec::new();
    let mut i: usize = 0;
    while i < names.len()
        invariant
            i <= names.len(),
            nv == views(names@),
            views(out@) == sorted_unique(nv.take(i as int)),
        decreases names.len() - i,
    {
        let n = names[i].as_str();
        proof {
            assert(nv.take(i + 1).drop_last() =~= nv.take(i as int));
            assert(nv.take(i + 1).last() == n@);
        }
        let ghost m = views(out@);
        if !contains_name(&out, n) {
            let p = name_insert_pos(&out, n);
            out.insert(p, to_string(n));
            assert(views(out@) =~= m.insert(p as int, n@));
        }
        i = i + 1;
    }
    assert(nv.take(names.len() as int) =~= nv);
    out
}

/// `into` followed by each of `more` not already listed.
pub open spec fn union_paths(into: Seq<Seq<char>>, more: Seq<Seq<char>>) -> Seq<Seq<char>>
    decreases more.len(),
{
    if more.len() == 0 {
        into
    } else {
        let m = union_paths(into, more.drop_last());
        if m.contains(more.last()) {
            m
        } else {
            m.push(more.last())
        }
    }
}

/// Names of the files in descriptor-set lists, in order (nameless files skipped).
pub open spec fn set_names(sets: Seq<(Seq<FileDesc>, Seq<Seq<char>>)>) -> Seq<Seq<char>>
    decreases sets.len(),
{
    if sets.len() == 0 {
        Seq::empty()
    } else {
        set_names(sets.drop_last()) + sets.last().1
    }
}

/// Files of descriptor sets merged in order.
pub open spec fn set_files(sets: Seq<(Seq<FileDesc>, Seq<Seq<char>>)>) -> Seq<FileDesc>
    decreases sets.len(),
{
    if sets.len() == 0 {
        Seq::empty()
    } else {
        add_files(set_files(sets.drop_last()), sets.last().0)
    }
}

/// A loaded descriptor set as plain values.
pub open spec fn set_view(s: (Vec<FileDesc>, Vec<String>)) -> (Seq<FileDesc>, Seq<Seq<char>>) {
    (s.0@, views(s.1@))
}

/// Outcome of resolution, given the loaded descriptor sets (`sets`) and what the
/// request or the compiler produced (`produced`).
pub open spec fn resolved_spec(
    from_request: bool,
    n_inputs: nat,
    proto_paths: Seq<Seq<char>>,
    sets: Seq<(Seq<FileDesc>, Seq<Seq<char>>)>,
    produced: Option<(Seq<FileDesc>, Seq<Seq<char>>, Seq<Seq<char>>)>,
) -> Result<(Seq<FileDesc>, Seq<Seq<char>>, Seq<Seq<char>>), InputError> {
    if from_request {
        match produced {
            Some(p) => Ok(p),
            None => Err(InputError::NoInputs),
        }
    } else if n_inputs == 0 && sets.len() == 0 {
        Err(InputError::NoInputs)
    } else {
        let c = combined_spec(n_inputs, proto_paths, sets, produced);
        if c.0.len() == 0 {
            Err(InputError::NoDescriptors)
        } else if sorted_unique(c.1).len() == 0 {
            Err(InputError::EmptyFileToGenerate)
        } else {
            Ok((c.0, sorted_unique(c.1), c.2))
        }
    }
}

/// Files, requested names and search roots before the final checks.
pub open spec fn combined_spec(
    n_inputs: nat,
    proto_paths: Seq<Seq<char>>,
    sets: Seq<(Seq<FileDesc>, Seq<Seq<char>>)>,
    produced: Option<(Seq<FileDesc>, Seq<Seq<char>>, Seq<Seq<char>>)>,
) -> (Seq<FileDesc>, Seq<Seq<char>>, Seq<Seq<char>>) {
    let files0 = set_files(sets);
    let names0 = set_names(sets);
    if n_inputs == 0 {
        (files0, names0, proto_paths)
    } else {
        match produced {
            Some(c) => (
                add_files(files0, c.0),
                if names0.len() == 0 {
                    c.1
                } else {
                    filter_names_spec(add_files(files0, c.0), names0)
                },
                union_paths(proto_paths, c.2),
            ),
            None => (files0, names0, proto_paths),
        }
    }
}

/// Names in strictly increasing order (so each occurs once).
pub open spec fn strictly_sorted(ns: Seq<Seq<char>>) -> bool {
    forall|i: int, j: int| 0 <= i < j < ns.len() ==> crate::text::str_lt(#[trigger] ns[i], #[trigger] ns[j])
}

proof fn lemma_name_pos(m: Seq<Seq<char>>, n: Seq<char>)
    requires
        strictly_sorted(m),
    ensures
        0 <= name_pos(m, n) <= m.len(),
        forall|i: int| 0 <= i < name_pos(m, n) ==> crate::text::str_lt(#[trigger] m[i], n),
        forall|i: int| name_pos(m, n) <= i < m.len() ==> !crate::text::str_lt(#[trigger] m[i], n),
    decreases m.len(),
{
    if m.len() > 0 {
        let t = m.drop_first();
        assert(strictly_sorted(t)) by {
            assert forall|i: int, j: int| 0 <= i < j < t.len() implies crate::text::str_lt(#[trigger] t[i], #[trigger] t[j]) by {
                assert(t[i] == m[i + 1] && t[j] == m[j + 1]);
            }
        }
        lemma_name_pos(t, n);
        if crate::text::str_lt(m[0], n) {
            assert forall|i: int| 0 <= i < name_pos(m, n) implies crate::text::str_lt(#[trigger] m[i], n) by {
                if i > 0 {
                    assert(m[i] == t[i - 1]);
                }
            }
            assert forall|i: int| name_pos(m, n) <= i < m.len() implies !crate::text::str_lt(#[trigger] m[i], n) by {
                assert(m[i] == t[i - 1]);
            }
        } else {
            assert forall|i: int| 0 <= i < m.len() implies !crate::text::str_lt(#[trigger] m[i], n) by {
                if i > 0 && crate::text::str_lt(m[i], n) {
                    crate::text::lemma_str_lt_trans(m[0], m[i], n);
                }
            }
        }
    }
}

proof fn lemma_sorted_unique_sorted(names: Seq<Seq<char>>)
    ensures
        strictly_sorted(sorted_unique(names)),
    decreases names.len(),
{
    if names.len() > 0 {
        lemma_sorted_unique_sorted(names.drop_last());
        let m = sorted_unique(names.drop_last());
        let n = names.last();
        if !m.contains(n) {
            lemma_name_pos(m, n);
            let p = name_pos(m, n);
            let r = m.insert(p, n);
            assert forall|a: int, b: int| 0 <= a < b < r.len() implies crate::text::str_lt(#[trigger] r[a], #[trigger] r[b]) by {
                if b < p {
                    assert(r[a] == m[a] && r[b] == m[b]);
                } else if b == p {
                    assert(r[a] == m[a]);
                } else if a < p {
                    assert(r[a] == m[a] && r[b] == m[b - 1]);
                } else if a == p {
                    assert(r[b] == m[b - 1]);
                    crate::text::lemma_str_lt_total(n, m[b - 1]);
                    if n == m[b - 1] {
                        assert(m.contains(n));
                    }
                } else {
                    assert(r[a] == m[a - 1] && r[b] == m[b - 1]);
                }
            }
        }
    }
}

proof fn lemma_union_paths(into: Seq<Seq<char>>, more: Seq<Seq<char>>)
    ensures
        union_paths(into, more).len() >= into.len(),
        union_paths(into, more).take(into.len() as int) == into,
        forall|i: int| into.len() <= i < union_paths(into, more).len() ==> !union_paths(into, more).take(i).contains(
            #[trigger] union_paths(into, more)[i],
        ),
    decreases more.len(),
{
    if more.len() == 0 {
        assert(into.take(into.len() as int) =~= into);
    } else {
        lemma_union_paths(into, more.drop_last());
        let m = union_paths(into, more.drop_last());
        let x = more.last();
        if !m.contains(x) {
            let r = m.push(x);
            assert(r.take(into.len() as int) =~= m.take(into.len() as int));
            assert forall|i: int| into.len() <= i < r.len() implies !r.take(i).contains(#[trigger] r[i]) by {
                if i < m.len() {
                    assert(r.take(i) =~= m.take(i));
                    assert(r[i] == m[i]);
                } else {
                    assert(r.take(i) =~= m);
                }
            }
        }
    }
}

/// Resolving inputs other than a request gives the requested names in strictly
/// increasing order (each once), and search roots that begin with the given
/// `--proto-path`s, followed by the compiler's extra roots, each added once.
pub proof fn law_resolved_names_sorted_and_paths_extended(
    n_inputs: nat,
    proto_paths: Seq<Seq<char>>,
    sets: Seq<(Seq<FileDesc>, Seq<Seq<char>>)>,
    produced: Option<(Seq<FileDesc>, Seq<Seq<char>>, Seq<Seq<char>>)>,
)
    ensures
        resolved_spec(false, n_inputs, proto_paths, sets, produced) matches Ok(v) ==> {
            &&& strictly_sorted(v.1)
            &&& v.2.len() >= proto_paths.len()
            &&& v.2.take(proto_paths.len() as int) == proto_paths
            &&& forall|i: int| proto_paths.len() <= i < v.2.len() ==> !v.2.take(i).contains(#[trigger] v.2[i])
        },
{
    let c = combined_spec(n_inputs, proto_paths, sets, produced);
    lemma_sorted_unique_sorted(c.1);
    match produced {
        Some(pr) => lemma_union_paths(proto_paths, pr.2),
        None => {},
    }
    assert(proto_paths.take(proto_paths.len() as int) =~= proto_paths);
}


/// A resolved input as plain values.
pub open spec fn resolved_view(r: ResolvedInput) -> (Seq<FileDesc>, Seq<Seq<char>>, Seq<Seq<char>>) {
    (r.proto_file@, views(r.file_to_generate@), views(r.proto_search_paths@))
}

/// Combines what was read for `args`: the request as it came (`from_request`), or the
/// descriptor sets (`sets`, in order) with the files compiled from `.proto` inputs
/// (`compiled`): files merged by name, requested names filtered to known files when
/// sets name them, sorted and deduplicated, search roots extended. Refused when there
/// are no inputs, no descriptors, or no requested file.
pub fn resolve_inputs(
    args: &ResolveArgs,
    sets: Vec<(Vec<FileDesc>, Vec<String>)>,
    compiled: Option<ResolvedInput>,
) -> (r: Result<ResolvedInput, InputError>)
    ensures
        match resolved_spec(
            args.from_request,
            args.inputs.len() as nat,
            views(args.proto_paths@),
            sets@.map_values(|s: (Vec<FileDesc>, Vec<String>)| set_view(s)),
            match compiled {
                Some(c) => Some(resolved_view(c)),
                None => None,
            },
        ) {
            Ok(v) => r matches Ok(x) && resolved_view(x) == v,
            Err(e) => r == Err::<ResolvedInput, InputError>(e),
        },
{
    let ghost sv = sets@.map_values(|s: (Vec<FileDesc>, Vec<String>)| set_view(s));
    if args.from_request {
        return match compiled {
            Some(c) => Ok(c),
            None => Err(InputError::NoInputs),
        };
    }
    if args.inputs.len() == 0 && sets.len() == 0 {
        return Err(InputError::NoInputs);
    }
    let mut proto_file: Vec<FileDesc> = Vec::new();
    let mut names: Vec<String> = Vec::new();
    let n_sets = sets.len();
    let mut rest = sets;
    let mut i: usize = 0;
    assert(sv.take(0) =~= Seq::<(Seq<FileDesc>, Seq<Seq<char>>)>::empty());
    while rest.len() > 0
        invariant
            i + rest.len() == sv.len(),
            sv.len() == n_sets,
            rest@.map_values(|s: (Vec<FileDesc>, Vec<String>)| set_view(s)) == sv.skip(i as int),
            proto_file@ == set_files(sv.take(i as int)),
            views(names@) == set_names(sv.take(i as int)),
            files_sorted(proto_file@),
        decreases rest.len(),
    {
        let ghost rv = rest@;
        let (files, more) = rest.remove(0);
        let ghost s0 = sv[i as int];
        assert(s0 == (files@, views(more@))) by {
            assert(sv.skip(i as int)[0] == s0);
        }
        let ghost pf0 = proto_file@;
        proof {
            lemma_readd(pf0);
        }
        merge_proto_files(&mut proto_file, files);
        let mut more = more;
        let ghost nb = views(names@);
        let ghost mv = views(more@);
        names.append(&mut more);
        assert(views(names@) =~= nb + mv);
        proof {
            assert(sv.take(i + 1).drop_last() =~= sv.take(i as int));
            assert(sv.take(i + 1).last() == s0);
            assert forall|j: int| 0 <= j < rest@.len() implies rest@[j] == rv[j + 1] by {}
            assert(rest@.map_values(|s: (Vec<FileDesc>, Vec<String>)| set_view(s)) =~= sv.skip(i + 1)) by {
                assert forall|j: int| 0 <= j < rest@.len() implies set_view(rest@[j]) == sv.skip(i as int)[j + 1] by {
                    assert(rest@[j] == rv[j + 1]);
                }
            }
        }
        i = i + 1;
    }
    assert(sv.take(i as int) =~= sv);
    let mut paths = crate::options::copy_strings(&args.proto_paths);
    if args.inputs.len() > 0 {
        match compiled {
            Some(c) => {
                let ghost cv = resolved_view(c);
                let ResolvedInput { proto_file: cf, file_to_generate: cn, proto_search_paths: cp } = c;
                proof {
                    lemma_readd(proto_file@);
                }
                merge_proto_files(&mut proto_file, cf);
                if names.len() == 0 {
                    names = cn;
                } else {
                    names = filter_file_to_generate(&proto_file, &names);
                }
                let mut k: usize = 0;
                let ghost p0 = views(paths@);
                while k < cp.len()
                    invariant
                        k <= cp.len(),
                        views(paths@) == union_paths(p0, views(cp@).take(k as int)),
                    decreases cp.len() - k,
                {
                    let ghost pb = views(paths@);
                    let p = cp[k].as_str();
                    let mut present = false;
                    let mut j: usize = 0;
                    while j < paths.len()
                        invariant
                            j <= paths.len(),
                            pb == views(paths@),
                            present == exists|t: int| 0 <= t < j && pb[t] == p@,
                        decreases paths.len() - j,
                    {
                        assert(pb[j as int] == paths@[j as int]@);
                        if crate::text::str_eq(paths[j].as_str(), p) {
                            present = true;
                        }
                        j = j + 1;
                    }
                    if !present {
                        paths.push(to_string(p));
                        assert(views(paths@) =~= pb.push(p@));
                    }
                    proof {
                        assert(views(cp@).take(k + 1).drop_last() =~= views(cp@).take(k as int));
                        assert(views(cp@).take(k + 1).last() == p@);
                    }
                    k = k + 1;
                }
                assert(views(cp@).take(cp.len() as int) =~= views(cp@));
            },
            None => {},
        }
    }
    if proto_file.len() == 0 {
        return Err(InputError::NoDescriptors);
    }
    let sorted = sort_dedup(&names);
    if sorted.len() == 0 {
        return Err(InputError::EmptyFileToGenerate);
    }
    Ok(ResolvedInput { proto_file, file_to_generate: sorted, proto_search_paths: paths })
}

proof fn lemma_readd(m: Seq<FileDesc>)
    requires
        files_sorted(m),
    ensures
        add_files(Seq::empty(), m) == m,
    decreases m.len(),
{
    if m.len() > 0 {
        let t = m.drop_last();
        assert(files_sorted(t)) by {
            assert forall|i: int, j: int| 0 <= i < j < t.len() implies str_lt(
                (#[trigger] t[i]).name->0@,
                (#[trigger] t[j]).name->0@,
            ) by {
                assert(t[i] == m[i] && t[j] == m[j]);
            }
        }
        lemma_readd(t);
        let f = m.last();
        let n = f.name->0;
        assert forall|i: int| 0 <= i < t.len() implies (#[trigger] t[i]).name->0@ != n@ by {
            assert(t[i] == m[i]);
            assert(str_lt(m[i].name->0@, m[m.len() - 1].name->0@));
            crate::text::lemma_str_lt_irrefl(n@);
        }
        lemma_name_index(t, n@);
        if name_index(t, n@) >= 0 {
            assert(t[name_index(t, n@)].name->0@ == n@);
        }
        lemma_file_pos(t, n@);
        assert forall|i: int| 0 <= i < t.len() implies str_lt((#[trigger] t[i]).name->0@, n@) by {
            assert(t[i] == m[i]);
        }
        assert(file_pos(t, n@) == t.len());
        assert(t.insert(t.len() as int, f) =~= m);
    }
}

/// `path` with `\` turned into `/` and leading `./` pieces removed; refused when it
/// contains `..`.
pub open spec fn proto_name_spec(path: Seq<char>) -> Result<Seq<char>, Seq<char>> {
    let name = path.map_values(|c: char| if c == '\\' { '/' } else { c });
    if contains_sub(name, ".."@) {
        Err(name)
    } else {
        Ok(strip_dot_slashes(name))
    }
}

/// `s` without its leading `./` pieces.
pub open spec fn strip_dot_slashes(s: Seq<char>) -> Seq<char>
    decreases s.len(),
{
    if s.len() >= 2 && s[0] == '.' && s[1] == '/' {
        strip_dot_slashes(s.skip(2))
    } else {
        s
    }
}

/// Descriptor name of a `.proto` input path.
pub fn proto_name_from_path(path: &str) -> (r: Result<String, InputError>)
    ensures
        match proto_name_spec(path@) {
            Ok(n) => r matches Ok(s) && s@ == n,
            Err(n) => r matches Err(InputError::ParentDirInProtoPath(s)) && s@ == n,
        },
{
    let v = chars_of(path);
    let mut name: Vec<char> = Vec::new();
    let mut i: usize = 0;
    while i < v.len()
        invariant
            i <= v.len(),
            v@ == path@,
            name@ == v@.take(i as int).map_values(|c: char| if c == '\\' { '/' } else { c }),
        decreases v.len() - i,
    {
        name.push(if v[i] == '\\' { '/' } else { v[i] });
        i = i + 1;
        assert(name@ =~= v@.take(i as int).map_values(|c: char| if c == '\\' { '/' } else { c }));
    }
    assert(v@.take(v.len() as int) =~= v@);
    let dd = chars_of("..");
    proof {
        reveal_strlit("..");
    }
    if crate::text::contains_exec(&name, &dd) {
        return Err(InputError::ParentDirInProtoPath(string_of(&name)));
    }
    let mut k: usize = 0;
    assert(name@.skip(0) =~= name@);
    while name.len() >= 2 && k <= name.len() - 2 && name[k] == '.' && name[k + 1] == '/'
        invariant
            k <= name.len(),
            strip_dot_slashes(name@) == strip_dot_slashes(name@.skip(k as int)),
        decreases name.len() - k,
    {
        assert(name@.skip(k as int).skip(2) =~= name@.skip(k + 2));
        k = k + 2;
    }
    let r = slice_vec(&name, k, name.len());
    assert(r@ =~= name@.skip(k as int));
    Ok(string_of(&r))
}

/// Buf executable: the one given, else `buf` when it runs from `PATH`.
pub fn resolve_buf_path(explicit: &Option<String>, buf_on_path: bool) -> (r: Result<String, InputError>)
    ensures
        match explicit {
            Some(p) => r matches Ok(s) && s@ == p@,
            None => if buf_on_path {
                r matches Ok(s) && s@ == "buf"@
            } else {
                r == Err::<String, InputError>(InputError::BufNotFound)
            },
        },
{
    match explicit {
        Some(p) => Ok(to_string(p.as_str())),
        None => if buf_on_path {
            Ok(to_string("buf"))
        } else {
            Err(InputError::BufNotFound)
        },
    }
}

} // verus!
