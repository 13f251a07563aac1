use protobuf_mdbook::cli::{check_request, merge_opts, output_root, with_output, CliError};
use protobuf_mdbook::decimal::{decimal, decimal_signed};
use protobuf_mdbook::examples::{example_proto_inputs, examples_proto_dir, format_examples_mdbook_opt};
use protobuf_mdbook::init::mdbook_version;
use protobuf_mdbook::input::Compiler;
use protobuf_mdbook::kvmap::{kv_lookup, kv_set};
use protobuf_mdbook::links::unique_heading_ids;
use protobuf_mdbook::options::{apply_book_src, book_toml_path, parse_parameter};
use protobuf_mdbook::proto_markdown::{collect_proto_dirs, companion_scan_dirs};
use protobuf_mdbook::proto_deps::{
    ensure_proto_deps_export, export_is_current, export_stamp_text, parse_u64, staging_export_dir,
    validate_export_dir, validate_proto_tail, ExportStep,
};
use protobuf_mdbook::runner::{failure_message, run_generation, Driver, RunSpec};
use protobuf_mdbook::summary::{
    render_summary_markdown, summary_warning, validate_summary_warn, Summary, SummaryChapter, SummaryLeaf,
};

#[test]
fn mdbook_pin_is_the_linked_mdbook_core() {
    assert_eq!(mdbook_version(), "0.5.4");
}

#[test]
fn merged_opts_trim_and_join() {
    assert_eq!(merge_opts(&vec![" init, layout=entity ".to_string(), ",summary,,".to_string()]), Some("init,layout=entity,summary".to_string()));
    assert_eq!(merge_opts(&vec![" , ".to_string()]), None);
    assert_eq!(merge_opts(&vec![]), None);
}

#[test]
fn output_flag_adds_mdbook_out_once() {
    assert_eq!(with_output(Some("init".to_string()), &Some("out".to_string())), Some("init,mdbook_out=out".to_string()));
    assert_eq!(with_output(None, &Some("out".to_string())), Some("mdbook_out=out".to_string()));
    assert_eq!(
        with_output(Some("mdbook_out=x".to_string()), &Some("out".to_string())),
        Some("mdbook_out=x".to_string())
    );
    assert_eq!(with_output(Some("summary".to_string()), &None), Some("summary".to_string()));
}

#[test]
fn output_root_rules() {
    assert_eq!(output_root(&Some("o".to_string()), &None).ok(), Some("o".to_string()));
    assert_eq!(output_root(&None, &Some("mdbook_out=./book".to_string())).ok(), Some("./book".to_string()));
    assert!(matches!(output_root(&None, &None), Err(CliError::OutputRequired)));
    assert!(matches!(output_root(&None, &Some("book=./b".to_string())), Err(CliError::OutputRequiredWithBook)));
    assert!(matches!(output_root(&None, &Some("layout=zzz".to_string())), Err(CliError::Options(_))));
    assert_eq!(CliError::OutputRequired.message(), "`-o / --output` is required");
    assert!(matches!(check_request(true, 1), Err(CliError::RequestWithInputs)));
    assert!(check_request(true, 0).is_ok());
}

#[test]
fn book_src_sets_paths_unless_explicit() {
    let mut o = parse_parameter(&None).unwrap();
    apply_book_src(&mut o, "content");
    assert_eq!(o.markdown_root, "content/packages");
    assert_eq!(o.summary_path, "content/SUMMARY.md");
    let mut e = parse_parameter(&Some("markdown_root=api".to_string())).unwrap();
    apply_book_src(&mut e, "src");
    assert_eq!(e.markdown_root, "api");
    assert_eq!(e.summary_path, "src/SUMMARY.md");
    assert_eq!(book_toml_path("./api-book"), "./api-book/book.toml");
    assert_eq!(book_toml_path("./api-book/book.toml"), "./api-book/book.toml");
}

#[test]
fn stamp_written_is_read_back_as_current() {
    let size = 200_123u64;
    let stamp = export_stamp_text(size);
    assert_eq!(stamp, "200123\n");
    assert!(export_is_current(Some(size), &Some(stamp.clone()), true));
    assert!(!export_is_current(Some(size + 1), &Some(stamp.clone()), true));
    assert!(!export_is_current(Some(99_999), &Some("99999\n".to_string()), true));
    assert!(!export_is_current(Some(size), &Some(stamp), false));
    assert!(!export_is_current(None, &None, true));
    assert_eq!(parse_u64("+12"), Some(12));
    assert_eq!(parse_u64("18446744073709551616"), None);
}

#[test]
fn export_plan_and_validation() {
    assert!(matches!(ensure_proto_deps_export("target/proto-deps", false, true, 7), ExportStep::Reuse(d) if d == "target/proto-deps"));
    assert!(matches!(
        ensure_proto_deps_export("target/proto-deps", true, true, 7),
        ExportStep::Rebuild { staging } if staging == "target/proto-deps.staging-7"
    ));
    assert_eq!(staging_export_dir("deps", 3), "deps.staging-3");
    assert!(validate_proto_tail(&b"message X {}\n".to_vec()));
    assert!(validate_proto_tail(&b"}\r\n".to_vec()));
    assert!(!validate_proto_tail(&b"message X {".to_vec()));
    assert_eq!(validate_export_dir("e", "r", true, 150_000, true), Ok(150_000));
    assert_eq!(
        validate_export_dir("e", "r", false, 0, false),
        Err("buf export missing e/buf/validate/validate.proto; run `buf dep update` in r".to_string())
    );
    assert!(validate_export_dir("e", "r", true, 10, true).unwrap_err().contains("unexpectedly small"));
    assert!(validate_export_dir("e", "r", true, 150_000, false).unwrap_err().contains("incomplete"));
}

#[test]
fn decimal_renderings() {
    assert_eq!(decimal(0), "0");
    assert_eq!(decimal(1234567890), "1234567890");
    assert_eq!(decimal_signed(-42), "-42");
    assert_eq!(decimal_signed(i64::MIN), "-9223372036854775808");
}

#[test]
fn heading_ids_are_unique_in_document_order() {
    let ids = unique_heading_ids(&vec!["Foo".to_string(), "foo".to_string(), "Bar".to_string(), "FOO".to_string()]);
    assert_eq!(ids, vec!["foo", "foo-1", "bar", "foo-2"]);
}

#[test]
fn kv_set_reads_back_and_keeps_order() {
    let mut m: Vec<(String, String)> = Vec::new();
    kv_set(&mut m, "b".to_string(), "1".to_string());
    kv_set(&mut m, "a".to_string(), "2".to_string());
    kv_set(&mut m, "b".to_string(), "3".to_string());
    assert_eq!(kv_lookup(&m, "b"), Some("3"));
    assert_eq!(kv_lookup(&m, "a"), Some("2"));
    assert_eq!(kv_lookup(&m, "c"), None);
    assert_eq!(m.iter().map(|(k, _)| k.as_str()).collect::<Vec<_>>(), ["a", "b"]);
}

#[test]
fn example_corpus_and_options() {
    assert_eq!(example_proto_inputs().len(), 8);
    assert_eq!(examples_proto_dir("/repo"), "/repo/examples/proto");
    assert_eq!(format_examples_mdbook_opt("entity", ""), "layout=entity,proto_path=.");
    assert_eq!(format_examples_mdbook_opt("split", "summary"), "layout=split,proto_path=.,summary");
}

#[test]
fn run_generation_command_lines() {
    let spec = RunSpec {
        out: "out".to_string(),
        mdbook_opt: "init,layout=entity".to_string(),
        inputs: vec!["a.proto".to_string()],
        search_paths: vec![".".to_string()],
        cwd: None,
    };
    let protoc = Driver::protoc_plugin("protoc".to_string(), "/bin/plugin".to_string());
    let inv = run_generation(&spec, &protoc).ok().unwrap();
    assert_eq!(
        inv.args,
        vec!["-I", ".", "--plugin=protoc-gen-mdbook=/bin/plugin", "--mdbook_out=out", "--mdbook_opt=init,layout=entity", "a.proto"]
    );
    let cli = Driver::cli("protobuf-mdbook".to_string(), Compiler::Protoc);
    let inv = run_generation(&spec, &cli).ok().unwrap();
    assert_eq!(inv.args[0], "-o");
    assert!(inv.args.contains(&"--init".to_string()));
    assert!(inv.args.contains(&"--compiler".to_string()));
    assert_eq!(failure_message(&spec, &cli), "protobuf-mdbook failed (opt=init,layout=entity)");
}

#[test]
fn summary_markdown_layout() {
    let s = Summary {
        title: Some("API".to_string()),
        chapters: vec![SummaryChapter {
            name: "acme.v1".to_string(),
            location: Some("packages/acme.v1.md".to_string()),
            nested: vec![SummaryLeaf { name: "Foo".to_string(), location: "packages/acme/v1/messages/Foo.md".to_string() }],
        }],
    };
    let md = render_summary_markdown(&s);
    assert!(md.starts_with("# API\n\n"));
    assert!(md.contains("[acme.v1](packages/acme.v1.md)"));
    assert!(md.contains("[Foo](packages/acme/v1/messages/Foo.md)"));
}

#[test]
fn summary_parse_warnings() {
    assert_eq!(
        summary_warning(Some("bad".to_string())),
        Some("protobuf-mdbook: warning: generated SUMMARY.md failed parse_summary: bad".to_string())
    );
    assert_eq!(summary_warning(None), None);
    assert_eq!(validate_summary_warn("# Summary\n\n- [A](a.md)\n    - [B](b.md)\n"), None);
    let broken = "# Summary\n\n[Prefix](p.md)\n\n- [A](a.md)\n\n[Suffix](s.md)\n\n- [B](b.md)\n";
    let w = validate_summary_warn(broken).expect("mdBook refuses a list after suffix chapters");
    assert!(w.starts_with("protobuf-mdbook: warning: generated SUMMARY.md failed parse_summary: "));
}

#[test]
fn companion_scan_covers_ancestor_chains_only() {
    let files = vec!["acme/v1/a.proto".to_string(), "acme/v1/b.proto".to_string(), "../up.proto".to_string()];
    assert_eq!(collect_proto_dirs(&files), vec!["acme/v1".to_string()]);
    assert_eq!(companion_scan_dirs(&files), vec!["acme/v1".to_string(), "acme".to_string()]);
}

#[test]
fn missing_output_flag_fails() {
    let err = output_root(&None, &None).unwrap_err();
    let stderr = err.message();
    assert!(stderr.contains("-o") || stderr.contains("--output"), "stderr: {stderr}");
}

#[test]
fn request_and_inputs_conflict_fails() {
    let err = check_request(true, 1).unwrap_err();
    let stderr = err.message();
    assert!(stderr.contains("--request"), "stderr: {stderr}");
}
