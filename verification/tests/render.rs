use protobuf_mdbook::codegen::split_proto_type_name;
use protobuf_mdbook::comments::package_overview;
use protobuf_mdbook::descriptor::{FileDesc, Location};
use protobuf_mdbook::fence::{render_proto_fence, split_message_cel_blocks};
use protobuf_mdbook::links::{heading_slug, id_from_content};
use protobuf_mdbook::markdown::push_markdown_doc;
use protobuf_mdbook::options::EscapeTags;
use protobuf_mdbook::paths::relative_path_from_dir;
use protobuf_mdbook::proto_markdown::{companion_output_name, module_path_from_companion_output};
use protobuf_mdbook::render::{build_link_context, packages_map, render_entity_pages, SourceCache};
use protobuf_mdbook::options::parse_parameter;
use protobuf_mdbook::descriptor::{EnumDesc, MessageDesc, ServiceDesc};

fn file(name: &str, package: &str) -> FileDesc {
    FileDesc {
        name: Some(name.to_string()),
        package: Some(package.to_string()),
        message_type: Vec::new(),
        enum_type: Vec::new(),
        service: Vec::new(),
        location: Vec::new(),
    }
}

#[test]
fn split_proto_type_name_acme_echo() {
    assert_eq!(
        split_proto_type_name(".acme.example.v1.EchoUnaryRequest"),
        Some(("acme.example.v1".to_string(), "EchoUnaryRequest".to_string()))
    );
}

#[test]
fn module_path_from_companion_output_parses() {
    assert_eq!(
        module_path_from_companion_output("acme.example.v1.README.md", "README"),
        Some("acme.example.v1".into())
    );
    assert_eq!(module_path_from_companion_output("acme.README.md", "README"), Some("acme".into()));
}

#[test]
fn companion_output_name_dots() {
    assert_eq!(companion_output_name("acme/example/v1", "README"), "acme.example.v1.README.md");
}

#[test]
fn mdbook_slug_for_pascal_case_message() {
    assert_eq!(heading_slug("GetOrganizationsResponse"), "getorganizationsresponse");
}

#[test]
fn id_from_content_matches_mdbook_behavior() {
    let cases = [
        ("GetOrganizationsResponse", "getorganizationsresponse"),
        ("中文標題 CJK title", "中文標題-cjk-title"),
        ("_-_12345", "_-_12345"),
    ];
    for (input, expected) in cases {
        assert_eq!(id_from_content(input), expected, "input: {input:?}");
    }
}

#[test]
fn relative_path_from_dir_cases() {
    let cases = [
        ("src", "src/packages/acme.md", "packages/acme.md"),
        ("src/packages", "src/packages/acme.md", "acme.md"),
        ("content/api", "src/packages/acme.md", "../../src/packages/acme.md"),
    ];
    for (from, target, expected) in cases {
        assert_eq!(relative_path_from_dir(from, target), expected, "from={from:?} target={target:?}");
    }
}

#[test]
fn packages_map_preserves_file_to_generate_order_within_package() {
    let proto_files = vec![file("pkg/a.proto", "acme.v1"), file("pkg/b.proto", "acme.v1")];

    let forward_inputs = vec!["pkg/a.proto".to_string(), "pkg/b.proto".to_string()];
    let forward = packages_map(&proto_files, &forward_inputs);
    let reverse_inputs = vec!["pkg/b.proto".to_string(), "pkg/a.proto".to_string()];
    let reverse = packages_map(&proto_files, &reverse_inputs);

    let group = |m: &Vec<(String, Vec<(String, &FileDesc)>)>| -> Vec<String> {
        let (_, files) = m.iter().find(|(k, _)| k == "acme.v1").expect("package");
        files.iter().map(|(n, _)| n.clone()).collect()
    };
    assert_eq!(group(&forward), ["pkg/a.proto", "pkg/b.proto"]);
    assert_eq!(group(&reverse), ["pkg/b.proto", "pkg/a.proto"]);
}

fn entity_doc_case() {
    let md = render_proto_fence(
        "foo.proto",
        &Some("```mermaid\nflowchart LR\n  A --> B\n```".to_string()),
        "message X {}\n",
        EscapeTags::Off,
    );
    assert!(md.contains("```mermaid"));
    let fence_start = md.find("```protobuf").expect("fence");
    let mermaid_start = md.find("```mermaid").expect("mermaid");
    assert!(mermaid_start < fence_start);
    assert!(!md[fence_start..].contains("```mermaid"));
}

#[test]
fn proto_syntax_entity_doc_outside_fence() {
    entity_doc_case();
}

#[test]
fn mod_entity_doc_outside_fence() {
    entity_doc_case();
}

// Own scenarios.

#[test]
fn split_proto_type_name_needs_leading_dot_and_package() {
    assert_eq!(split_proto_type_name(".Top"), None);
    assert_eq!(split_proto_type_name("acme.v1.Foo"), None);
    assert_eq!(split_proto_type_name(".a.b.C"), Some(("a.b".to_string(), "C".to_string())));
}

#[test]
fn packages_map_groups_by_package_sorted() {
    let proto_files = vec![file("b.proto", "zeta.v1"), file("a.proto", "alpha.v1")];
    let inputs = vec!["b.proto".to_string(), "a.proto".to_string()];
    let m = packages_map(&proto_files, &inputs);
    let keys: Vec<&str> = m.iter().map(|(k, _)| k.as_str()).collect();
    assert_eq!(keys, ["alpha.v1", "zeta.v1"]);
}

#[test]
fn companion_name_inverts_to_module_path() {
    let out = companion_output_name("acme/example", "README");
    assert_eq!(module_path_from_companion_output(&out, "README"), Some("acme.example".to_string()));
}

#[test]
fn render_fence_without_doc_starts_with_fence() {
    let md = render_proto_fence("foo.proto", &None, "message X {}\n", EscapeTags::Off);
    assert!(md.contains("```protobuf"));
    assert!(md.contains("message X {}"));
}

#[test]
fn fenced_blocks_in_docs_pass_through() {
    let doc = "Flow of <Req>:\n```mermaid\ngraph TD; A<B>-->C\n```\nafter <Resp>";
    let mut out = String::new();
    push_markdown_doc(&mut out, doc, EscapeTags::Entities);
    assert_eq!(out, "Flow of &lt;Req&gt;:\n```mermaid\ngraph TD; A<B>-->C\n```\nafter &lt;Resp&gt;\n\n");
    let mut ticks = String::new();
    push_markdown_doc(&mut ticks, doc, EscapeTags::Backticks);
    assert_eq!(ticks, "Flow of `<Req>`:\n```mermaid\ngraph TD; A<B>-->C\n```\nafter `<Resp>`\n\n");
}

#[test]
fn cel_split_moves_whole_rules_and_keeps_other_lines() {
    let body = "message M {\n  option (buf.validate.message).cel = {\n    id: \"a\"\n    expression: \"this.x > 0\"\n  };\n  string x = 1 [(buf.validate.field).cel = {id: \"f\"}];\n  option (buf.validate.message).cel = {id: \"b\"};\n}\n";
    let (kept, blocks) = split_message_cel_blocks(body);
    assert_eq!(kept, "message M {\n  string x = 1 [(buf.validate.field).cel = {id: \"f\"}];\n}\n");
    assert_eq!(
        blocks,
        vec![
            "  option (buf.validate.message).cel = {\n    id: \"a\"\n    expression: \"this.x > 0\"\n  };".to_string(),
            "  option (buf.validate.message).cel = {id: \"b\"};".to_string(),
        ]
    );
    let lines = |s: &str| s.split('\n').count();
    assert_eq!(lines(&kept) + blocks.iter().map(|b| lines(b)).sum::<usize>(), lines(body));
}

fn file_with_package_comment(name: &str, comment: &str) -> FileDesc {
    let mut f = file(name, "acme.v1");
    f.location.push(Location {
        path: vec![2],
        span: vec![0, 0, 10],
        leading_comments: Some(comment.to_string()),
        trailing_comments: None,
    });
    f
}

#[test]
fn package_overview_ignores_file_order() {
    let a = file_with_package_comment("a.proto", " Alpha overview.\n");
    let b = file_with_package_comment("b.proto", " Beta overview.\n");
    let c = file("c.proto", "acme.v1");
    let forward = vec![("a.proto".to_string(), &a), ("b.proto".to_string(), &b), ("c.proto".to_string(), &c)];
    let backward = vec![("c.proto".to_string(), &c), ("b.proto".to_string(), &b), ("a.proto".to_string(), &a)];
    assert_eq!(package_overview(&forward), Some("Alpha overview.".to_string()));
    assert_eq!(package_overview(&backward), Some("Alpha overview.".to_string()));
    let none = vec![("c.proto".to_string(), &c)];
    assert_eq!(package_overview(&none), None);
}

#[test]
fn packages_map_files_each_request_under_its_package() {
    let proto_files = vec![
        file("x/one.proto", "beta.v1"),
        file("x/two.proto", "alpha.v1"),
        file("x/three.proto", "beta.v1"),
        file("x/one.proto", "alpha.v1"),
    ];
    let inputs = vec![
        "x/three.proto".to_string(),
        "missing.proto".to_string(),
        "x/one.proto".to_string(),
        "x/two.proto".to_string(),
    ];
    let m = packages_map(&proto_files, &inputs);
    let keys: Vec<&str> = m.iter().map(|(k, _)| k.as_str()).collect();
    assert_eq!(keys, ["alpha.v1", "beta.v1"]);
    let names = |i: usize| -> Vec<&str> { m[i].1.iter().map(|(n, _)| n.as_str()).collect() };
    assert_eq!(names(0), ["x/two.proto"]);
    assert_eq!(names(1), ["x/three.proto", "x/one.proto"]);
    assert_eq!(m[1].1[1].1.package.as_deref(), Some("beta.v1"));
}

#[test]
fn entity_pages_follow_index_order() {
    let mut f = file("acme/v1/a.proto", "acme.v1");
    f.message_type.push(MessageDesc { name: Some("Zed".to_string()), field: vec![], oneof_decl: vec![] });
    f.enum_type.push(EnumDesc { name: Some("Alpha".to_string()), value: vec![] });
    f.service.push(ServiceDesc { name: Some("Svc".to_string()), method: vec![] });
    let proto_files = vec![f];
    let inputs = vec!["acme/v1/a.proto".to_string()];
    let opts = parse_parameter(&Some("layout=entity".to_string())).ok().expect("options");
    let by_package = packages_map(&proto_files, &inputs);
    let links = build_link_context(&by_package, &opts);
    let pages = render_entity_pages("acme.v1", &by_package[0].1, &links, &opts, &SourceCache::new());
    assert_eq!(pages.len(), 4);
    assert!(pages[0].1.starts_with("# acme.v1\n\n"));
    let zed = pages[0].1.find("[Zed]").expect("Zed listed");
    let alpha = pages[0].1.find("[Alpha]").expect("Alpha listed");
    let svc = pages[0].1.find("[Svc]").expect("Svc listed");
    assert!(zed < alpha && alpha < svc);
    assert!(pages[1].0.ends_with("Zed.md"));
    assert!(pages[2].0.ends_with("Alpha.md"));
    assert!(pages[3].0.ends_with("Svc.md"));
}
