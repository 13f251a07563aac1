use protobuf_mdbook::descriptor::{FileDesc, MessageDesc, ServiceDesc};
use protobuf_mdbook::options::parse_parameter;
use protobuf_mdbook::render::build_link_context;
use protobuf_mdbook::summary::{render_summary, render_summary_markdown, Summary, SummaryChapter, SummaryLeaf};

fn rich_file(pkg: &str) -> FileDesc {
    FileDesc {
        name: Some("acme/example/v1/a.proto".to_string()),
        package: Some(pkg.to_string()),
        message_type: vec![MessageDesc { name: Some("EchoUnaryRequest".to_string()), field: vec![], oneof_decl: vec![] }],
        enum_type: vec![],
        service: vec![ServiceDesc { name: Some("EchoService".to_string()), method: vec![] }],
        location: vec![],
    }
}

fn summary_for(param: &str) -> String {
    let file = rich_file("acme.example.v1");
    let by_package = vec![("acme.example.v1".to_string(), vec![("acme/example/v1/a.proto".to_string(), &file)])];
    let opts = parse_parameter(&Some(param.to_string())).unwrap();
    let links = build_link_context(&by_package, &opts);
    let out = render_summary(&by_package, &opts, &links, &vec![]).expect("summary");
    assert_eq!(out.0, "src/SUMMARY.md");
    out.1
}

#[test]
fn rendered_summary_parses() {
    let link = SummaryChapter {
        name: "Chapter".to_string(),
        location: Some("src/chapter.md".to_string()),
        nested: vec![SummaryLeaf { name: "Nested".to_string(), location: "src/nested.md".to_string() }],
    };
    let summary = Summary { title: Some("Book".to_string()), chapters: vec![link] };
    let md = render_summary_markdown(&summary);
    mdbook_summary::parse_summary(&md).expect("round-trip");
    assert!(md.starts_with("# Book\n"));
}

#[test]
fn render_summary_entity_layout_lists_entities() {
    let md = summary_for("summary,layout=entity,no_proto_markdown");
    mdbook_summary::parse_summary(&md).expect("valid SUMMARY");
    assert!(md.contains("Message EchoUnaryRequest"));
    assert!(md.contains("Service EchoService"));
}

#[test]
fn render_summary_split_layout_nests_entities() {
    let md = summary_for("summary,layout=split,no_proto_markdown");
    mdbook_summary::parse_summary(&md).expect("valid SUMMARY");
    assert!(md.contains("[acme.example.v1]"));
    assert!(md.contains("Message EchoUnaryRequest"));
}
