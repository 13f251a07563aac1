use protobuf_mdbook::descriptor::{
    EnumDesc, EnumValueDesc, FieldDesc, FieldLabel, FieldType, FileDesc, MessageDesc, MethodDesc, ServiceDesc,
};
use protobuf_mdbook::generate::{generate_from_input, requested_named, resolve_generate_options, GenerateInput};
use protobuf_mdbook::kvmap::kv_lookup;
use protobuf_mdbook::link_check::{assert_tree, check_tree};
use protobuf_mdbook::options::parse_parameter;
use protobuf_mdbook::proto_markdown::FoundMarkdown;
use protobuf_mdbook::render::SourceCache;

fn field(name: &str, number: i32, t: FieldType, type_ref: Option<&str>) -> FieldDesc {
    FieldDesc {
        name: Some(name.to_string()),
        number: Some(number),
        label: Some(FieldLabel::Optional),
        field_type: Some(t),
        type_ref: type_ref.map(|s| s.to_string()),
        oneof_index: None,
        proto3_optional: None,
    }
}

fn echo_file() -> FileDesc {
    FileDesc {
        name: Some("acme/example/v1/echo.proto".to_string()),
        package: Some("acme.example.v1".to_string()),
        message_type: vec![
            MessageDesc {
                name: Some("EchoRequest".to_string()),
                field: vec![
                    field("message", 1, FieldType::String, None),
                    field("mood", 2, FieldType::Enum, Some(".acme.example.v1.Mood")),
                ],
                oneof_decl: vec![],
            },
            MessageDesc {
                name: Some("EchoResponse".to_string()),
                field: vec![field("request", 1, FieldType::Message, Some(".acme.example.v1.EchoRequest"))],
                oneof_decl: vec![],
            },
        ],
        enum_type: vec![EnumDesc {
            name: Some("Mood".to_string()),
            value: vec![
                EnumValueDesc { name: Some("MOOD_UNSPECIFIED".to_string()), number: Some(0) },
                EnumValueDesc { name: Some("MOOD_HAPPY".to_string()), number: Some(1) },
            ],
        }],
        service: vec![ServiceDesc {
            name: Some("EchoService".to_string()),
            method: vec![MethodDesc {
                name: Some("Echo".to_string()),
                input_type: Some(".acme.example.v1.EchoRequest".to_string()),
                output_type: Some(".acme.example.v1.EchoResponse".to_string()),
                options: None,
                client_streaming: Some(false),
                server_streaming: Some(false),
            }],
        }],
        location: vec![],
    }
}

fn input(param: &str) -> GenerateInput {
    GenerateInput {
        proto_file: vec![echo_file()],
        file_to_generate: vec!["acme/example/v1/echo.proto".to_string()],
        parameter: Some(param.to_string()),
        options: None,
        proto_search_paths: vec![],
    }
}

fn generate(param: &str) -> Vec<(String, String)> {
    let inp = input(param);
    let opts = resolve_generate_options(&inp).ok().expect("options");
    generate_from_input(&inp, &opts, &SourceCache::new(), &vec![], vec![]).ok().expect("files")
}

fn no_broken_links(files: &Vec<(String, String)>) {
    let paths: Vec<String> = files.iter().map(|(p, _)| p.clone()).collect();
    let errors = check_tree(files, &paths);
    for e in &errors {
        println!("{}: {} ({})", e.file, e.target, e.message);
    }
    assert!(errors.is_empty());
    assert_eq!(assert_tree(files, &paths), Ok(()));
}

#[test]
fn package_layout_writes_one_page_per_package() {
    let files = generate("layout=package");
    let page = kv_lookup(&files, "src/packages/acme.example.v1.md").expect("package page");
    assert!(page.contains("EchoRequest"));
    assert!(page.contains("EchoService"));
    assert!(page.contains("```protobuf"));
    no_broken_links(&files);
}

#[test]
fn package_layout_with_summary_links_every_page() {
    let files = generate("layout=package,summary");
    let summary = kv_lookup(&files, "src/SUMMARY.md").expect("summary");
    assert!(summary.contains("acme.example.v1"));
    assert_eq!(protobuf_mdbook::summary::validate_summary_warn(summary), None);
    no_broken_links(&files);
}

#[test]
fn entity_layout_writes_entity_pages_whose_links_resolve() {
    let files = generate("layout=entity,summary");
    let summary = kv_lookup(&files, "src/SUMMARY.md").expect("summary");
    assert_eq!(protobuf_mdbook::summary::validate_summary_warn(summary), None);
    assert!(files.iter().any(|(p, _)| p.contains("EchoRequest")));
    assert!(files.iter().any(|(p, _)| p.contains("EchoService")));
    no_broken_links(&files);
}

#[test]
fn split_layout_links_resolve() {
    let files = generate("layout=split,summary");
    no_broken_links(&files);
}

#[test]
fn generation_output_is_sorted_by_path() {
    let files = generate("layout=entity,summary");
    let keys: Vec<&String> = files.iter().map(|(k, _)| k).collect();
    let mut sorted = keys.clone();
    sorted.sort();
    assert_eq!(keys, sorted);
}

#[test]
fn empty_request_is_refused() {
    let mut inp = input("layout=package");
    inp.file_to_generate.clear();
    let err = resolve_generate_options(&inp).err().expect("refused");
    assert_eq!(err.message(), "file_to_generate is empty");
}

#[test]
fn cli_options_win_over_parameter() {
    let mut inp = input("layout=package");
    inp.options = Some(parse_parameter(&Some("layout=entity".to_string())).unwrap());
    let opts = resolve_generate_options(&inp).ok().expect("options");
    assert_eq!(opts.layout, protobuf_mdbook::options::Layout::Entity);
}

#[test]
fn broken_links_are_reported() {
    let files = vec![("src/a.md".to_string(), "# A\n\nSee [b](b.md) and [top](#a) and [x](#nope).\n".to_string())];
    let paths = vec!["src/a.md".to_string()];
    let errors = check_tree(&files, &paths);
    assert_eq!(errors.len(), 2);
    assert!(errors[0].message.contains("file not found"));
    assert!(errors[1].message.contains("broken anchor #nope"));
    assert!(assert_tree(&files, &paths).is_err());
}

#[test]
fn default_refresh_writes_only_under_markdown_root() {
    for param in ["layout=package", "layout=entity", "layout=split", "layout=entity,book_root=docs"] {
        let files = generate(param);
        let prefix = if param.contains("book_root=docs") { "docs/src/packages/" } else { "src/packages/" };
        assert!(!files.is_empty());
        assert!(files.iter().all(|(p, _)| p.starts_with(prefix)), "{param}");
    }
}

#[test]
fn relative_links_between_pages_resolve() {
    use_relative("src/packages/acme/v1/messages/Foo.md", "src/packages/acme/v1/enums/Bar.md");
    use_relative("src/SUMMARY.md", "src/packages/acme.v1.md");
    use_relative("content/api/x.md", "src/packages/acme.v1.md");
}

fn use_relative(page: &str, target: &str) {
    let dir = page.rsplit_once('/').map(|(d, _)| d).unwrap_or("");
    let rel = protobuf_mdbook::paths::relative_path_from_dir(dir, target);
    let files = vec![
        (page.to_string(), format!("# Page\n\n[t]({rel})\n")),
        (target.to_string(), "# Target\n".to_string()),
    ];
    let paths: Vec<String> = files.iter().map(|(p, _)| p.clone()).collect();
    assert!(check_tree(&files, &paths).is_empty(), "{page} -> {rel}");
}

fn readme() -> FoundMarkdown {
    FoundMarkdown {
        dir: "acme/example/v1".to_string(),
        file_name: "README.md".to_string(),
        source_path: "examples/proto/acme/example/v1/README.md".to_string(),
        content: "# acme.example.v1\n\nEcho services.\n".to_string(),
    }
}

fn generate_examples(param: &str) -> Vec<(String, String)> {
    let inp = input(param);
    let opts = resolve_generate_options(&inp).ok().expect("options");
    generate_from_input(&inp, &opts, &SourceCache::new(), &vec![readme()], vec![]).ok().expect("files")
}

fn has(files: &Vec<(String, String)>, path: &str) -> bool {
    kv_lookup(files, path).is_some()
}

#[test]
fn links_resolve_package_layout() {
    let files = generate_examples("layout=package");
    no_broken_links(&files);
    assert!(!has(&files, "book.toml"));
    assert!(!has(&files, "src/packages/buf.validate.md"), "BSR protovalidate export must not be an input");
    assert!(has(&files, "src/packages/acme.example.v1.README.md"), "companion markdown copied beside protos");
}

#[test]
fn links_resolve_entity_layout() {
    no_broken_links(&generate_examples("layout=entity"));
}

#[test]
fn links_resolve_split_layout() {
    no_broken_links(&generate_examples("layout=split"));
}

#[test]
fn summary_without_init_emits_summary_only() {
    let files = generate_examples("layout=package,summary");
    no_broken_links(&files);
    assert!(has(&files, "src/SUMMARY.md"));
    assert!(!has(&files, "book.toml"));
}

#[test]
fn custom_markdown_root_and_summary_path() {
    let files = generate_examples("layout=package,markdown_root=content/api,summary_path=content/SUMMARY.md,summary");
    assert!(has(&files, "content/api/acme.example.v1.md"));
    assert!(!files.iter().any(|(p, _)| p.starts_with("src/packages")));
    assert!(has(&files, "content/SUMMARY.md"));
    no_broken_links(&files);
}

#[test]
fn book_root_prefixes_all_output() {
    let files = generate_examples("layout=package,book_root=docs");
    assert!(has(&files, "docs/src/packages/acme.example.v1.md"));
    assert!(!files.iter().any(|(p, _)| p.starts_with("src/packages")));
}

#[test]
fn every_linkable_entity_has_its_page() {
    let files = generate("layout=entity,book_root=docs");
    for p in [
        "docs/src/packages/acme/example/v1/messages/EchoRequest.md",
        "docs/src/packages/acme/example/v1/messages/EchoResponse.md",
        "docs/src/packages/acme/example/v1/enums/Mood.md",
        "docs/src/packages/acme/example/v1/services/EchoService.md",
    ] {
        assert!(has(&files, p), "{p}");
    }
    let split = generate("layout=split");
    assert!(has(&split, "src/packages/acme/example/v1/index.md"));
    assert!(has(&split, "src/packages/acme/example/v1/enums/Mood.md"));
    assert!(has(&generate("layout=package"), "src/packages/acme.example.v1.md"));
}

#[test]
fn init_with_book_root_writes_everything_under_it() {
    let inp = input("init,layout=split,book_root=docs");
    let opts = resolve_generate_options(&inp).ok().expect("options");
    let scaffold = vec![
        ("book.toml".to_string(), Some("[book]\ntitle = \"x\"\n".to_string())),
        ("theme/index.hbs".to_string(), Some("<script src=\"{{ path_to_root }}highlight.js\"></script>\n".to_string())),
        ("src/chapter_1.md".to_string(), Some("# Chapter 1\n".to_string())),
    ];
    let files = generate_from_input(&inp, &opts, &SourceCache::new(), &vec![readme()], scaffold).ok().expect("files");
    assert!(has(&files, "docs/book.toml"));
    assert!(has(&files, "docs/README.md"));
    assert!(has(&files, "docs/src/SUMMARY.md"));
    assert!(files.iter().all(|(p, _)| p.starts_with("docs/")), "{:?}", files.iter().map(|(p, _)| p).collect::<Vec<_>>());
}

#[test]
fn package_page_has_an_anchor_for_every_entity() {
    let files = generate("layout=package");
    let page = kv_lookup(&files, "src/packages/acme.example.v1.md").expect("package page");
    let ids = protobuf_mdbook::link_check::extract_heading_ids(page);
    for name in ["EchoRequest", "EchoResponse", "Mood", "EchoService"] {
        let id = protobuf_mdbook::links::heading_slug(name);
        assert!(ids.contains(&id), "{id} in {ids:?}");
    }
}

#[test]
fn generation_refuses_an_empty_request() {
    let good = input("layout=package");
    let opts = resolve_generate_options(&good).ok().expect("options");
    let mut inp = input("bogus");
    inp.file_to_generate.clear();
    let err = generate_from_input(&inp, &opts, &SourceCache::new(), &vec![], vec![]).err().expect("refused");
    assert!(err.message().contains("file_to_generate is empty"));
}

fn unnamed_dependency() -> FileDesc {
    FileDesc {
        name: Some("dep/unnamed.proto".to_string()),
        package: Some("dep.v1".to_string()),
        message_type: vec![MessageDesc { name: None, field: vec![], oneof_decl: vec![] }],
        enum_type: vec![],
        service: vec![],
        location: vec![],
    }
}

#[test]
fn unnamed_descriptors_outside_the_request_do_not_matter() {
    let mut inp = input("layout=entity");
    inp.proto_file.push(unnamed_dependency());
    assert!(requested_named(&inp));
    let opts = resolve_generate_options(&inp).ok().expect("options");
    let files = generate_from_input(&inp, &opts, &SourceCache::new(), &vec![], vec![]).ok().expect("files");
    assert!(files.iter().any(|(p, _)| p.contains("EchoRequest")));
    assert!(!files.iter().any(|(p, _)| p.contains("dep")));
    inp.file_to_generate.push("dep/unnamed.proto".to_string());
    assert!(!requested_named(&inp));
}
