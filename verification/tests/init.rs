use protobuf_mdbook::init::{
    init_readme_content, inject_syntax_highlighting, merge_init_files, syntax_highlight_begin, theme_book_js,
    theme_highlight_js,
};
use protobuf_mdbook::kvmap::{kv_find, kv_lookup};
use protobuf_mdbook::options::parse_parameter;

fn opts(s: &str) -> protobuf_mdbook::options::Options {
    parse_parameter(&Some(s.to_string())).unwrap()
}

fn index_map(index: String) -> Vec<(String, String)> {
    vec![("theme/index.hbs".to_string(), index)]
}

fn contains_key(out: &Vec<(String, String)>, k: &str) -> bool {
    kv_find(out, k).is_some()
}

#[test]
fn init_readme_mentions_mermaid_rumdl_and_lychee() {
    let o = opts("init");
    let readme = init_readme_content(&o);
    assert!(readme.contains("```mermaid"));
    assert!(readme.contains("mdbook-mermaid"));
    assert!(readme.contains("rumdl"));
    assert!(readme.contains("lychee"));
    assert!(readme.contains("without") && readme.contains("init"));
    assert!(readme.contains("highlight-protobuf") || readme.contains("Protobuf"));
    assert!(readme.contains("CEL") || readme.contains("cel"));
    assert!(readme.contains("src/packages"));
}

#[test]
fn init_readme_no_highlight_when_disabled() {
    let o = opts("init,no_proto_highlight,no_cel_highlight");
    let readme = init_readme_content(&o);
    assert!(readme.contains("no_proto_highlight"));
    assert!(readme.contains("no_cel_highlight"));
}

#[test]
fn init_readme_reflects_custom_paths() {
    let o = opts("init,markdown_root=content/api,summary_path=content/SUMMARY.md");
    let readme = init_readme_content(&o);
    assert!(readme.contains("content/api"));
    assert!(readme.contains("content/SUMMARY.md"));
}

#[test]
fn inject_skips_when_legacy_highlight_markers_present() {
    let o = opts("init");
    let mut out = index_map(format!(
        "head\n{}\n<!-- protoc-gen-mdbook: syntax highlight begin -->\n<!-- protoc-gen-mdbook: syntax highlight end -->\n{}\n",
        theme_highlight_js(),
        theme_book_js()
    ));
    inject_syntax_highlighting(&o, ".", &mut out);
    let index = kv_lookup(&out, "theme/index.hbs").expect("index.hbs");
    assert!(index.contains("protoc-gen-mdbook: syntax highlight begin"));
    assert!(!index.contains("protobuf-mdbook: syntax highlight begin"));
}

#[test]
fn inject_patches_index_hbs_with_inline_grammars() {
    let o = opts("init");
    let mut out = index_map(format!("head\n{}\n{}\n", theme_highlight_js(), theme_book_js()));
    inject_syntax_highlighting(&o, ".", &mut out);
    let index = kv_lookup(&out, "theme/index.hbs").expect("index.hbs");
    assert!(index.contains(syntax_highlight_begin()));
    assert!(index.contains("<script>"));
    assert!(index.contains("hljs.registerLanguage(\"protobuf\""));
    assert!(index.contains("hljs.registerLanguage(\"cel\""));
    assert!(!index.contains(r#"resource "highlight-protobuf.js""#));
    let hl = index.find(theme_highlight_js()).expect("highlight.js");
    let marker = index.find(syntax_highlight_begin()).expect("marker");
    let bk = index.find(theme_book_js()).expect("book.js");
    assert!(hl < marker && marker < bk);
    assert!(contains_key(&out, "theme/highlight-protobuf.js"));
    assert!(contains_key(&out, "theme/highlight-cel.js"));
}

#[test]
fn inject_cel_only_when_no_proto_highlight() {
    let o = opts("init,no_proto_highlight");
    let mut out = index_map(format!("head\n{}\n{}\n", theme_highlight_js(), theme_book_js()));
    inject_syntax_highlighting(&o, ".", &mut out);
    let index = kv_lookup(&out, "theme/index.hbs").expect("index.hbs");
    assert!(!index.contains("hljs.registerLanguage(\"protobuf\""));
    assert!(index.contains("hljs.registerLanguage(\"cel\""));
    assert!(!contains_key(&out, "theme/highlight-protobuf.js"));
    assert!(contains_key(&out, "theme/highlight-cel.js"));
}

#[test]
fn inject_proto_only_when_no_cel_highlight() {
    let o = opts("init,no_cel_highlight");
    let mut out = index_map(format!("head\n{}\n{}\n", theme_highlight_js(), theme_book_js()));
    inject_syntax_highlighting(&o, ".", &mut out);
    let index = kv_lookup(&out, "theme/index.hbs").expect("index.hbs");
    assert!(index.contains("hljs.registerLanguage(\"protobuf\""));
    assert!(!index.contains("hljs.registerLanguage(\"cel\""));
    assert!(contains_key(&out, "theme/highlight-protobuf.js"));
    assert!(!contains_key(&out, "theme/highlight-cel.js"));
}

// Own scenarios.

#[test]
fn inject_under_book_root_uses_prefixed_keys() {
    let o = opts("init,book_root=docs");
    let mut out = vec![(
        "docs/theme/index.hbs".to_string(),
        format!("head\n{}\n{}\n", theme_highlight_js(), theme_book_js()),
    )];
    inject_syntax_highlighting(&o, "docs", &mut out);
    assert!(contains_key(&out, "docs/theme/highlight-protobuf.js"));
    assert!(contains_key(&out, "docs/theme/highlight-cel.js"));
    let index = kv_lookup(&out, "docs/theme/index.hbs").expect("index");
    assert!(index.contains(syntax_highlight_begin()));
}

#[test]
fn inject_twice_is_idempotent_on_index() {
    let o = opts("init");
    let mut out = index_map(format!("head\n{}\n{}\n", theme_highlight_js(), theme_book_js()));
    inject_syntax_highlighting(&o, ".", &mut out);
    let once = kv_lookup(&out, "theme/index.hbs").unwrap().to_string();
    inject_syntax_highlighting(&o, ".", &mut out);
    let twice = kv_lookup(&out, "theme/index.hbs").unwrap().to_string();
    assert_eq!(once, twice);
}

#[test]
fn merge_keeps_generated_pages_and_scaffold_sorted() {
    let o = opts("init");
    let init_files = vec![
        ("book.toml".to_string(), Some("[book]\n".to_string())),
        ("src/SUMMARY.md".to_string(), Some("# Summary\n".to_string())),
    ];
    let docs = vec![("src/packages/acme.md".to_string(), "# acme\n".to_string())];
    let merged = merge_init_files(&o, ".", &init_files, &docs);
    assert!(contains_key(&merged, "book.toml"));
    assert_eq!(kv_lookup(&merged, "src/packages/acme.md"), Some("# acme\n"));
    let keys: Vec<&String> = merged.iter().map(|(k, _)| k).collect();
    let mut sorted = keys.clone();
    sorted.sort();
    assert_eq!(keys, sorted);
}
