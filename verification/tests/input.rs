use protobuf_mdbook::descriptor::FileDesc;
use protobuf_mdbook::include_paths::{
    ancestor_dirs, buf_module_root, infer_proto_root, is_proto_path, module_proto_names, proto_name_relative_to_module, protoc_compile_invocation,
    protoc_file_args, protoc_include_paths, strip_components, InputFacts,
};
use protobuf_mdbook::input::{
    filter_file_to_generate, input_plan, merge_proto_files, proto_name_from_path, resolve_buf_path, resolve_inputs,
    Compiler, InputError, InputPlan, ResolveArgs, ResolvedInput,
};

fn file(name: &str, package: &str) -> FileDesc {
    FileDesc {
        name: Some(name.to_string()),
        package: Some(package.to_string()),
        message_type: Vec::new(),
        enum_type: Vec::new(),
        service: Vec::new(),
        location: Vec::new(),
    }
}

fn empty_fails() {
    let err = resolve_inputs(&ResolveArgs::default(), vec![], None).err().expect("empty");
    assert!(err.message().contains("no inputs"));
}

#[test]
fn input_resolve_inputs_empty_fails() {
    empty_fails();
}

#[test]
fn mod_resolve_inputs_empty_fails() {
    empty_fails();
}

fn buf_without_module_fails() {
    let fixture = "/workspace/protobuf-mdbook/tests/fixtures/doc_rich.proto";
    let dirs = ancestor_dirs("/workspace/protobuf-mdbook/tests/fixtures");
    assert_eq!(dirs, vec!["/workspace/protobuf-mdbook/tests/fixtures", "/workspace/protobuf-mdbook/tests", "/workspace/protobuf-mdbook", "/workspace", "/"]);
    let none = vec![false; dirs.len()];
    let err = buf_module_root(&dirs, &none, fixture).err().expect("no buf module");
    let msg = err.message();
    assert!(msg.contains("buf.yaml") || msg.contains("--compiler protoc"));
}

#[test]
fn input_resolve_inputs_buf_without_module_fails() {
    buf_without_module_fails();
}

#[test]
fn mod_resolve_inputs_buf_without_module_fails() {
    buf_without_module_fails();
}

#[test]
fn buf_module_root_is_the_nearest_configured_dir() {
    let dirs = ancestor_dirs("/m/acme/v1");
    let flags: Vec<bool> = dirs.iter().map(|d| d == "/m" || d == "/").collect();
    assert_eq!(buf_module_root(&dirs, &flags, "x.proto"), Ok("/m".to_string()));
    assert_eq!(ancestor_dirs("a/b"), vec!["a/b", "a", ""]);
}

fn missing_include_fails() {
    let fixture = "/workspace/protobuf-mdbook/tests/fixtures/doc_rich.proto".to_string();
    let err = protoc_file_args(&vec![fixture], &vec!["/nowhere".to_string()]).err().expect("outside include");
    assert!(err.message().contains("not under any --proto-path"));
}

#[test]
fn input_resolve_inputs_protoc_missing_include_fails() {
    missing_include_fails();
}

#[test]
fn mod_resolve_inputs_protoc_missing_include_fails() {
    missing_include_fails();
}

// Own scenarios.

#[test]
fn protoc_names_use_the_deepest_include() {
    let files = vec!["/r/protos/acme/v1/a.proto".to_string(), "/r/protos/b.proto".to_string()];
    let incs = vec!["/r".to_string(), "/r/protos".to_string(), "/r/protos/".to_string()];
    assert_eq!(protoc_file_args(&files, &incs), Ok(vec!["acme/v1/a.proto".to_string(), "b.proto".to_string()]));
}

#[test]
fn protoc_names_are_sorted_and_unique() {
    let files = vec!["/r/b.proto".to_string(), "/r/a.proto".to_string(), "/r/./b.proto".to_string()];
    assert_eq!(
        protoc_file_args(&files, &vec!["/r".to_string()]),
        Ok(vec!["a.proto".to_string(), "b.proto".to_string()])
    );
}

#[test]
fn strip_prefix_is_by_component() {
    assert_eq!(strip_components("/ab/c", "/a"), None);
    assert_eq!(strip_components("/a/b/c", "/a/"), Some(vec!["b".to_string(), "c".to_string()]));
    assert_eq!(strip_components("a/b", "/a"), None);
}

#[test]
fn module_relative_names() {
    assert_eq!(proto_name_relative_to_module("/m", "/m/acme/./x.proto"), Ok("acme/x.proto".to_string()));
    assert_eq!(
        proto_name_relative_to_module("/m", "/other/x.proto").err().unwrap().message(),
        "/other/x.proto is not under module root /m"
    );
    assert_eq!(
        proto_name_relative_to_module("/m", "/m/../x.proto").err().unwrap().message(),
        "invalid path component in /m/../x.proto: ParentDir"
    );
}

#[test]
fn module_names_keep_known_files() {
    let files = vec![file("acme/a.proto", "p"), file("acme/b.proto", "p")];
    let paths = vec!["/m/acme/b.proto".to_string(), "/m/acme/zz.proto".to_string(), "/m/acme/a.proto".to_string()];
    assert_eq!(module_proto_names("/m", &paths, &files, true), Ok(vec!["acme/a.proto".to_string(), "acme/b.proto".to_string()]));
    let outside = vec!["/elsewhere/a.proto".to_string()];
    assert!(module_proto_names("/m", &outside, &files, true).is_err());
    assert_eq!(module_proto_names("/m", &outside, &files, false), Ok(vec![]));
}

#[test]
fn proto_root_prefers_buf_module_dirs() {
    let facts = |p: &str, f: bool, y: bool| InputFacts { path: p.to_string(), is_file: f, dir_has_buf_yaml: y };
    assert_eq!(infer_proto_root(&vec![facts("a/x.proto", true, false)]), Ok("a".to_string()));
    assert_eq!(
        infer_proto_root(&vec![facts("a/x.proto", true, false), facts("mod", false, true)]),
        Ok("mod".to_string())
    );
    assert_eq!(infer_proto_root(&vec![]), Err(InputError::NoProtoRoot));
    assert_eq!(infer_proto_root(&vec![facts("", true, false)]), Err(InputError::NoParent));
    assert_eq!(InputError::NoProtoRoot.message(), "no inputs to infer proto root");
    assert_eq!(protoc_include_paths(&vec![], "a", &Some("dep".to_string())), vec!["a", "dep"]);
    assert_eq!(protoc_include_paths(&vec!["dep".to_string()], "a", &Some("dep".to_string())), vec!["dep"]);
}

#[test]
fn protoc_compile_arguments() {
    let inv = protoc_compile_invocation("protoc", "/t/out.binpb", &vec!["inc".to_string()], &vec!["a.proto".to_string()]);
    assert_eq!(
        inv.args,
        vec!["--descriptor_set_out", "/t/out.binpb", "--include_imports", "--include_source_info", "-I", "inc", "a.proto"]
    );
    assert!(is_proto_path("dir/a.proto"));
    assert!(!is_proto_path("dir/.proto"));
    assert!(!is_proto_path("dir/a.txt"));
}

#[test]
fn plan_prefers_request_then_inputs_then_sets() {
    let mut args = ResolveArgs::default();
    assert_eq!(input_plan(&args), Err(InputError::NoInputs));
    args.descriptor_sets.push("a.binpb".to_string());
    assert_eq!(input_plan(&args), Ok(InputPlan::DescriptorSetsOnly));
    args.inputs.push("a.proto".to_string());
    args.compiler = Compiler::Protoc;
    assert_eq!(input_plan(&args), Ok(InputPlan::Compile(Compiler::Protoc)));
    args.from_request = true;
    assert_eq!(input_plan(&args), Ok(InputPlan::FromRequest));
}

#[test]
fn descriptor_sets_only_resolve_requested_files() {
    let mut args = ResolveArgs::default();
    args.descriptor_sets.push("a.binpb".to_string());
    let sets = vec![(vec![file("b.proto", "p"), file("a.proto", "p")], vec!["b.proto".to_string(), "a.proto".to_string()])];
    let r: ResolvedInput = resolve_inputs(&args, sets, None).ok().expect("resolved");
    assert_eq!(r.file_to_generate, vec!["a.proto", "b.proto"]);
    assert_eq!(r.proto_file.len(), 2);
}

#[test]
fn descriptor_sets_without_requested_files_fail() {
    let mut args = ResolveArgs::default();
    args.descriptor_sets.push("a.binpb".to_string());
    let sets = vec![(vec![file("a.proto", "p")], vec![])];
    let err = resolve_inputs(&args, sets, None).err().expect("no file");
    assert_eq!(err, InputError::EmptyFileToGenerate);
}

#[test]
fn merge_replaces_files_by_name() {
    let mut into = vec![file("a.proto", "old")];
    merge_proto_files(&mut into, vec![file("a.proto", "new"), file("0.proto", "z")]);
    let names: Vec<&str> = into.iter().map(|f| f.name.as_deref().unwrap()).collect();
    assert_eq!(names, ["0.proto", "a.proto"]);
    assert_eq!(into[1].package.as_deref(), Some("new"));
}

#[test]
fn filter_keeps_known_names_in_order() {
    let files = vec![file("a.proto", "p"), file("b.proto", "p")];
    let wanted = vec!["b.proto".to_string(), "zz.proto".to_string(), "a.proto".to_string()];
    assert_eq!(filter_file_to_generate(&files, &wanted), vec!["b.proto", "a.proto"]);
}

#[test]
fn proto_names_normalise_and_refuse_parent_dirs() {
    assert_eq!(proto_name_from_path("./acme\\v1\\a.proto"), Ok("acme/v1/a.proto".to_string()));
    assert_eq!(
        proto_name_from_path("../x.proto").err().unwrap().message(),
        "proto path must not contain `..`: ../x.proto"
    );
}

#[test]
fn buf_path_explicit_or_found() {
    assert_eq!(resolve_buf_path(&Some("/opt/buf".to_string()), false), Ok("/opt/buf".to_string()));
    assert_eq!(resolve_buf_path(&None, true), Ok("buf".to_string()));
    assert_eq!(resolve_buf_path(&None, false), Err(InputError::BufNotFound));
}

fn protoc_fixture_succeeds() {
    let fixture_dir = "/workspace/protobuf-mdbook/tests/fixtures".to_string();
    let fixture = format!("{fixture_dir}/doc_rich.proto");
    let names = protoc_file_args(&vec![fixture.clone()], &vec![fixture_dir.clone()]).expect("under include");
    assert_eq!(names, vec!["doc_rich.proto".to_string()]);
    let mut args = ResolveArgs::default();
    args.compiler = Compiler::Protoc;
    args.inputs = vec![fixture];
    args.proto_paths = vec![fixture_dir];
    let compiled = ResolvedInput {
        proto_file: vec![file("doc_rich.proto", "fixtures.v1")],
        file_to_generate: names,
        proto_search_paths: vec![],
    };
    let resolved = resolve_inputs(&args, vec![], Some(compiled)).ok().expect("protoc resolve");
    assert!(resolved.file_to_generate.iter().any(|n| n.contains("doc_rich.proto")));
}

#[test]
fn input_resolve_inputs_protoc_fixture_succeeds() {
    protoc_fixture_succeeds();
}

#[test]
fn mod_resolve_inputs_protoc_fixture_succeeds() {
    protoc_fixture_succeeds();
}
