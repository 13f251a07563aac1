use protobuf_mdbook::options::{
    build_options_from_cli, options_to_cli_args, parameter_to_cli_args, parse_parameter, CliOptionsInput,
    EscapeTags, Layout, OptionsError,
};
use protobuf_mdbook::paths::join_book_root;

fn param(s: &str) -> Option<String> {
    Some(s.to_string())
}

#[test]
fn summary_without_init_is_valid() {
    let o = parse_parameter(&param("summary,layout=entity")).unwrap();
    assert!(!o.init);
    assert!(o.summary);
    assert_eq!(o.layout, Layout::Entity);
}

#[test]
fn title_requires_init() {
    let err = parse_parameter(&param("title=My Book")).unwrap_err();
    assert!(err.message().contains("title"));
}

#[test]
fn parses_init_and_layout() {
    let o = parse_parameter(&param("init,layout=entity")).unwrap();
    assert!(o.init);
    assert_eq!(o.layout, Layout::Entity);
}

#[test]
fn markdown_only_is_deprecated_noop() {
    let o = parse_parameter(&param("markdown_only,summary")).unwrap();
    assert!(!o.init);
    assert!(o.summary);
}

#[test]
fn no_proto_highlight_requires_init() {
    let err = parse_parameter(&param("no_proto_highlight")).unwrap_err();
    assert!(err.message().contains("no_proto_highlight"));
}

#[test]
fn parses_no_proto_markdown() {
    let o = parse_parameter(&param("no_proto_markdown,summary")).unwrap();
    assert!(o.no_proto_markdown);
    assert!(o.summary);
}

#[test]
fn proto_highlight_default_on_for_init() {
    let o = parse_parameter(&param("init")).unwrap();
    assert!(o.proto_highlight());
}

#[test]
fn proto_highlight_off_when_flag_set() {
    let o = parse_parameter(&param("init,no_proto_highlight")).unwrap();
    assert!(!o.proto_highlight());
}

#[test]
fn cel_highlight_default_on_for_init() {
    let o = parse_parameter(&param("init")).unwrap();
    assert!(o.cel_highlight());
}

#[test]
fn cel_highlight_off_when_flag_set() {
    let o = parse_parameter(&param("init,no_cel_highlight")).unwrap();
    assert!(!o.cel_highlight());
    assert!(o.proto_highlight());
}

#[test]
fn no_cel_highlight_requires_init() {
    let err = parse_parameter(&param("no_cel_highlight")).unwrap_err();
    assert!(err.message().contains("no_cel_highlight"));
}

#[test]
fn parses_markdown_root_and_summary_path() {
    let o = parse_parameter(&param("markdown_root=content/api,summary_path=content/SUMMARY.md")).unwrap();
    assert_eq!(o.markdown_root, "content/api");
    assert_eq!(o.summary_path, "content/SUMMARY.md");
    assert_eq!(o.output_path("content/api/acme.example.v1.md"), "content/api/acme.example.v1.md");
    assert_eq!(
        o.output_path("content/api/acme.example.v1.md"),
        join_book_root(".", "content/api/acme.example.v1.md")
    );
}

#[test]
fn book_root_prefixes_output_paths() {
    let o = parse_parameter(&param("book_root=docs")).unwrap();
    assert_eq!(o.output_path("src/packages/acme.example.v1.md"), "docs/src/packages/acme.example.v1.md");
}

#[test]
fn parses_book_and_mdbook_out() {
    let o = parse_parameter(&param("book=./api-book,mdbook_out=./api-book")).unwrap();
    assert_eq!(o.book.as_deref(), Some("./api-book"));
    assert_eq!(o.mdbook_out.as_deref(), Some("./api-book"));
}

#[test]
fn escape_tags_defaults_off() {
    let o = parse_parameter(&None).unwrap();
    assert_eq!(o.escape_tags, EscapeTags::Off);
}

#[test]
fn parses_escape_tags_bare_flag() {
    let o = parse_parameter(&param("escape_tags")).unwrap();
    assert_eq!(o.escape_tags, EscapeTags::Backticks);
}

#[test]
fn parses_escape_tags_backticks_and_entities() {
    let backticks = parse_parameter(&param("escape_tags=backticks")).unwrap();
    assert_eq!(backticks.escape_tags, EscapeTags::Backticks);
    let entities = parse_parameter(&param("escape_tags=entities")).unwrap();
    assert_eq!(entities.escape_tags, EscapeTags::Entities);
}

#[test]
fn unknown_escape_tags_value_errors() {
    let err = parse_parameter(&param("escape_tags=foo")).unwrap_err();
    assert!(err.message().contains("escape_tags"));
}

#[test]
fn parameter_to_cli_args_round_trip() {
    let p = "init,layout=entity,title=My Book,no_proto_highlight";
    let args = parameter_to_cli_args(p).unwrap();
    assert!(args.contains(&"--init".to_string()));
    assert!(args.contains(&"--layout".to_string()));
    assert!(args.contains(&"entity".to_string()));
    assert!(args.contains(&"--title".to_string()));
    assert!(args.contains(&"My Book".to_string()));
    assert!(args.contains(&"--no-proto-highlight".to_string()));
}

#[test]
fn options_to_cli_args_escape_tags_entities() {
    let opts = parse_parameter(&param("escape_tags=entities")).unwrap();
    let args = options_to_cli_args(&opts);
    assert_eq!(args, vec!["--escape-tags", "entities"]);
}

#[test]
fn build_options_from_cli_matches_parse_parameter() {
    let mut input = CliOptionsInput::default();
    input.summary = true;
    input.layout = Layout::Entity;
    input.markdown_root = Some("content/api".to_string());
    let from_cli = build_options_from_cli(input).unwrap();
    let from_param = parse_parameter(&param("summary,layout=entity,markdown_root=content/api")).unwrap();
    assert_eq!(from_cli.summary, from_param.summary);
    assert_eq!(from_cli.layout, from_param.layout);
    assert_eq!(from_cli.markdown_root, from_param.markdown_root);
    assert_eq!(from_cli.explicit_markdown_root, from_param.explicit_markdown_root);
}

// Own scenarios.

#[test]
fn parse_parameter_defaults_when_absent() {
    let o = parse_parameter(&None).unwrap();
    assert!(!o.init);
    assert!(!o.summary);
    assert_eq!(o.layout, Layout::Package);
    assert_eq!(o.markdown_root, "src/packages");
    assert_eq!(o.summary_path, "src/SUMMARY.md");
    assert_eq!(o.book_root, ".");
}

#[test]
fn unknown_option_is_refused() {
    assert!(parse_parameter(&param("frobnicate")).is_err());
}

#[test]
fn unknown_layout_is_refused() {
    let err = parse_parameter(&param("layout=tree")).unwrap_err();
    assert!(err.message().contains("layout"));
}

#[test]
fn split_layout_parses() {
    let o = parse_parameter(&param("layout=split")).unwrap();
    assert_eq!(o.layout, Layout::Split);
}

#[test]
fn highlight_off_without_init() {
    let o = parse_parameter(&param("summary")).unwrap();
    assert!(!o.proto_highlight());
    assert!(!o.cel_highlight());
}

#[test]
fn theme_is_an_init_only_no_op() {
    let o = parse_parameter(&param("init,theme")).unwrap();
    assert!(o.init);
    let plain = parse_parameter(&param("init")).unwrap();
    assert_eq!(options_to_cli_args(&o), options_to_cli_args(&plain));
    let e = parse_parameter(&param("theme")).unwrap_err();
    assert_eq!(e, OptionsError::ThemeRequiresInit);
    assert_eq!(e.message(), "`theme` is only valid with `init`");
}
