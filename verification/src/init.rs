//! Init mode: the starter README, syntax-highlighting wiring for mdBook themes, and
//! merging the scaffold files of a new book with the generated pages.

use crate::kvmap::{kv_find, kv_get, kv_insert, kv_lookup, kv_set, kv_sorted, kv_view, law_kv_insert, KvView};
use crate::options::Options;
use crate::paths::{join_book_root, join_book_root_spec};
use crate::text::{
    chars_of, contains_sub, find_from, occurs_at, push_char, slice_vec, str_contains, string_of,
    to_string, trim, trim_start, trim_str,
};
use vstd::prelude::*;

verus! {

/// `mdbook_core::MDBOOK_VERSION`, the version of the `mdbook-core` crate this library
/// is built with (0.5.4: the constant is that crate's package version).
#[verifier::external_body]
pub fn mdbook_version() -> (r: &'static str)
    ensures
        r@ == mdbook_version_spec(),
{
    mdbook_core::MDBOOK_VERSION
}

/// The pinned mdBook version.
pub open spec fn mdbook_version_spec() -> Seq<char> {
    "0.5.4"@
}

/// Highlight.js 10 grammar registering the `protobuf` language.
pub open spec fn proto_js_spec() -> Seq<char> {
    "hljs.registerLanguage(\"protobuf\", function (hljs) {\n  return {\n    name: \"Protocol Buffers\",\n    keywords: {\n      keyword: \"syntax edition package import weak public option optional required repeated reserved extensions extend to max oneof map message enum service rpc returns stream group default\",\n      built_in: \"double float int32 int64 uint32 uint64 sint32 sint64 fixed32 fixed64 sfixed32 sfixed64 bool string bytes\",\n      literal: \"true false inf nan\"\n    },\n    contains: [\n      hljs.QUOTE_STRING_MODE,\n      hljs.APOS_STRING_MODE,\n      hljs.NUMBER_MODE,\n      hljs.C_LINE_COMMENT_MODE,\n      hljs.C_BLOCK_COMMENT_MODE\n    ]\n  };\n});"@
}

/// Highlight.js 10 grammar registering the `cel` language.
pub open spec fn cel_js_spec() -> Seq<char> {
    "hljs.registerLanguage(\"cel\", function (hljs) {\n  return {\n    name: \"Common Expression Language\",\n    keywords: {\n      keyword: \"in\",\n      literal: \"true false null\",\n      built_in: \"size has matches startsWith endsWith contains exists all exists_one map filter int uint double string bytes bool duration timestamp dyn type\"\n    },\n    contains: [\n      hljs.QUOTE_STRING_MODE,\n      hljs.APOS_STRING_MODE,\n      hljs.NUMBER_MODE,\n      hljs.C_LINE_COMMENT_MODE\n    ]\n  };\n});"@
}

/// Highlight.js 10 grammar registering the `protobuf` language.
pub fn proto_highlight_js() -> (r: &'static str)
    ensures
        r@ == proto_js_spec(),
{
    "hljs.registerLanguage(\"protobuf\", function (hljs) {\n  return {\n    name: \"Protocol Buffers\",\n    keywords: {\n      keyword: \"syntax edition package import weak public option optional required repeated reserved extensions extend to max oneof map message enum service rpc returns stream group default\",\n      built_in: \"double float int32 int64 uint32 uint64 sint32 sint64 fixed32 fixed64 sfixed32 sfixed64 bool string bytes\",\n      literal: \"true false inf nan\"\n    },\n    contains: [\n      hljs.QUOTE_STRING_MODE,\n      hljs.APOS_STRING_MODE,\n      hljs.NUMBER_MODE,\n      hljs.C_LINE_COMMENT_MODE,\n      hljs.C_BLOCK_COMMENT_MODE\n    ]\n  };\n});"
}

/// Highlight.js 10 grammar registering the `cel` language.
pub fn cel_highlight_js() -> (r: &'static str)
    ensures
        r@ == cel_js_spec(),
{
    "hljs.registerLanguage(\"cel\", function (hljs) {\n  return {\n    name: \"Common Expression Language\",\n    keywords: {\n      keyword: \"in\",\n      literal: \"true false null\",\n      built_in: \"size has matches startsWith endsWith contains exists all exists_one map filter int uint double string bytes bool duration timestamp dyn type\"\n    },\n    contains: [\n      hljs.QUOTE_STRING_MODE,\n      hljs.APOS_STRING_MODE,\n      hljs.NUMBER_MODE,\n      hljs.C_LINE_COMMENT_MODE\n    ]\n  };\n});"
}

/// Opening marker of the injected highlight block.
pub open spec fn begin_marker() -> Seq<char> {
    "protobuf-mdbook: syntax highlight begin"@
}

/// Closing marker of the injected highlight block.
pub open spec fn end_marker() -> Seq<char> {
    "protobuf-mdbook: syntax highlight end"@
}

/// Opening marker written by earlier releases.
pub open spec fn legacy_begin_marker() -> Seq<char> {
    "protoc-gen-mdbook: syntax highlight begin"@
}

/// The `highlight.js` script tag of mdBook's theme.
pub open spec fn theme_highlight_spec() -> Seq<char> {
    "<script src=\"{{ resource \"highlight.js\" }}\"></script>"@
}

/// The `highlight.js` script tag of mdBook's theme.
pub fn theme_highlight_js() -> (r: &'static str)
    ensures
        r@ == theme_highlight_spec(),
{
    "<script src=\"{{ resource \"highlight.js\" }}\"></script>"
}

/// The `book.js` script tag of mdBook's theme.
pub fn theme_book_js() -> (r: &'static str)
    ensures
        r@ == "<script src=\"{{ resource \"book.js\" }}\"></script>"@,
{
    "<script src=\"{{ resource \"book.js\" }}\"></script>"
}

/// The opening marker of the injected highlight block.
pub fn syntax_highlight_begin() -> (r: &'static str)
    ensures
        r@ == begin_marker(),
{
    "protobuf-mdbook: syntax highlight begin"
}

/// `theme/index.hbs` already carries a highlight block (current or earlier marker).
pub open spec fn has_highlight_block(index: Seq<char>) -> bool {
    contains_sub(index, begin_marker()) || contains_sub(index, legacy_begin_marker())
}

/// `theme/index.hbs` already carries a highlight block (current or earlier marker).
pub fn index_has_syntax_highlight_block(index: &str) -> (r: bool)
    ensures
        r == has_highlight_block(index@),
{
    str_contains(index, "protobuf-mdbook: syntax highlight begin") || str_contains(
        index,
        "protoc-gen-mdbook: syntax highlight begin",
    )
}

/// `book.toml` already carries the highlighting comment.
pub open spec fn has_book_comment(book: Seq<char>) -> bool {
    contains_sub(book, "protobuf-mdbook: syntax highlighting"@) || contains_sub(
        book,
        "protoc-gen-mdbook: syntax highlighting"@,
    )
}

/// `book.toml` already carries the highlighting comment.
pub fn book_toml_has_syntax_highlight_comment(book: &str) -> (r: bool)
    ensures
        r == has_book_comment(book@),
{
    str_contains(book, "protobuf-mdbook: syntax highlighting") || str_contains(
        book,
        "protoc-gen-mdbook: syntax highlighting",
    )
}

/// Whether init wires protobuf highlighting.
pub open spec fn proto_on(opts: Options) -> bool {
    opts.init && !opts.no_proto_highlight
}

/// Whether init wires CEL highlighting.
pub open spec fn cel_on(opts: Options) -> bool {
    opts.init && !opts.no_cel_highlight
}

/// Grammars inlined into `theme/index.hbs`, one per enabled language.
pub open spec fn snippet_body(opts: Options) -> Seq<char> {
    let p = trim(proto_js_spec());
    let c = trim(cel_js_spec());
    if proto_on(opts) && cel_on(opts) {
        p + seq!['\n'] + c
    } else if proto_on(opts) {
        p
    } else if cel_on(opts) {
        c
    } else {
        Seq::<char>::empty()
    }
}

/// The marked `<script>` block of inline grammars for `theme/index.hbs`.
pub open spec fn index_snippet_spec(opts: Options) -> Seq<char> {
    "        <!-- "@ + begin_marker() + " -->\n        <script>\n"@ + snippet_body(opts)
        + "\n        </script>\n        <!-- "@ + end_marker() + " -->\n"@
}

/// The marked `<script>` block of inline grammars for `theme/index.hbs`.
pub fn syntax_highlight_index_hbs_snippet(opts: &Options) -> (r: String)
    ensures
        r@ == index_snippet_spec(*opts),
{
    let p = trim_str(proto_highlight_js());
    let c = trim_str(cel_highlight_js());
    let mut body = String::new();
    if opts.proto_highlight() {
        body.append(p.as_str());
    }
    if opts.cel_highlight() {
        if opts.proto_highlight() {
            push_char(&mut body, '\n');
        }
        body.append(c.as_str());
    }
    assert(body@ =~= snippet_body(*opts));
    let mut r = String::new();
    r.append("        <!-- ");
    r.append("protobuf-mdbook: syntax highlight begin");
    r.append(" -->\n        <script>\n");
    r.append(body.as_str());
    r.append("\n        </script>\n        <!-- ");
    r.append("protobuf-mdbook: syntax highlight end");
    r.append(" -->\n");
    assert(r@ =~= index_snippet_spec(*opts));
    r
}

/// `i` is the first place `p` occurs in `s`.
pub open spec fn first_at(s: Seq<char>, p: Seq<char>, i: int) -> bool {
    occurs_at(s, p, i) && forall|j: int| 0 <= j < i ==> !occurs_at(s, p, j)
}

/// `theme/index.hbs` with the grammar block inserted on a new line right after the
/// first `highlight.js` script tag; unchanged when it already has a block or no tag.
pub open spec fn patched_index(index: Seq<char>, opts: Options) -> Seq<char> {
    if has_highlight_block(index) || !contains_sub(index, theme_highlight_spec()) {
        index
    } else {
        let i = choose|i: int| first_at(index, theme_highlight_spec(), i);
        let p = i + theme_highlight_spec().len();
        index.take(p) + seq!['\n'] + index_snippet_spec(opts) + index.skip(p)
    }
}

fn patch_index(index: &str, opts: &Options) -> (r: String)
    ensures
        r@ == patched_index(index@, *opts),
{
    if index_has_syntax_highlight_block(index) {
        return to_string(index);
    }
    let iv = chars_of(index);
    let tag = chars_of(theme_highlight_js());
    match find_from(&iv, &tag, 0) {
        None => {
            assert(!contains_sub(index@, theme_highlight_spec())) by {
                assert forall|j: int| !occurs_at(index@, theme_highlight_spec(), j) by {
                    if j >= 0 {
                        assert(!occurs_at(iv@, tag@, j));
                    }
                }
            }
            to_string(index)
        },
        Some(i) => {
            assert(first_at(index@, theme_highlight_spec(), i as int));
            assert(contains_sub(index@, theme_highlight_spec()));
            let ghost c = choose|c: int| first_at(index@, theme_highlight_spec(), c);
            assert(c == i) by {
                if c < i {
                    assert(!occurs_at(index@, theme_highlight_spec(), c));
                } else if c > i {
                    assert(!occurs_at(index@, theme_highlight_spec(), i as int));
                }
            }
            assert(occurs_at(iv@, tag@, i as int));
            assert(i + tag@.len() <= iv@.len());
            assert(tag@.len() == tag.len());
            assert(iv@.len() == iv.len());
            let p = i + tag.len();
            let mut r = string_of(&slice_vec(&iv, 0, p));
            push_char(&mut r, '\n');
            r.append(syntax_highlight_index_hbs_snippet(opts).as_str());
            r.append(string_of(&slice_vec(&iv, p, iv.len())).as_str());
            assert(r@ =~= patched_index(index@, *opts));
            r
        },
    }
}

/// The `book.toml` highlighting comment (enabled or disabled variant).
pub open spec fn book_comment(enabled: bool) -> Seq<char> {
    if enabled {
        "\n# --- protobuf-mdbook: syntax highlighting (enabled at init) ---\n# Generated API pages use ```protobuf fences; Protovalidate message-level CEL rules also\n# emit ```cel fences. Init patches theme/index.hbs with inline <script> grammars after\n# highlight.js and before book.js (mdBook does not bundle arbitrary theme/*.js via\n# {{ resource }} — only inlined scripts in index.hbs are reliable).\n#\n# To disable: delete the \"protobuf-mdbook: syntax highlight\" block in theme/index.hbs and\n# optional theme/highlight-*.js reference copies. On a future init:\n#   no_proto_highlight — skip protobuf grammar only\n#   no_cel_highlight   — skip CEL grammar only (protobuf can stay on)\n# Re-init does not replace an existing highlight block when markers are already present.\n# See the plugin repository README (Syntax highlighting) for custom themes and limitations.\n# Attribution: assets/highlightjs/NOTICE (protobuf: BSD-3-Clause; cel: repo-authored).\n# --- end protobuf-mdbook syntax highlighting ---\n"@
    } else {
        "\n# --- protobuf-mdbook: syntax highlighting (disabled at init) ---\n# Pass init without no_proto_highlight / no_cel_highlight, or patch theme/index.hbs yourself.\n# --- end protobuf-mdbook syntax highlighting ---\n"@
    }
}

/// Files with the `book.toml` highlighting comment appended (or a `book.toml` holding
/// only the comment), unless the comment is already there.
pub open spec fn book_comment_spec(book_root: Seq<char>, m: KvView, enabled: bool) -> KvView {
    let key = join_book_root_spec(book_root, "book.toml"@);
    match kv_get(m, key) {
        Some(b) => if has_book_comment(b) {
            m
        } else {
            kv_insert(m, key, b + book_comment(enabled))
        },
        None => kv_insert(m, key, trim_start(book_comment(enabled))),
    }
}

/// Appends the highlighting comment to `book.toml`.
pub fn append_book_toml_highlight_comment(book_root: &str, out: &mut Vec<(String, String)>, enabled: bool)
    ensures
        kv_view(final(out)@) == book_comment_spec(book_root@, kv_view(old(out)@), enabled),
{
    let key = join_book_root(book_root, "book.toml");
    let comment = if enabled {
        "\n# --- protobuf-mdbook: syntax highlighting (enabled at init) ---\n# Generated API pages use ```protobuf fences; Protovalidate message-level CEL rules also\n# emit ```cel fences. Init patches theme/index.hbs with inline <script> grammars after\n# highlight.js and before book.js (mdBook does not bundle arbitrary theme/*.js via\n# {{ resource }} — only inlined scripts in index.hbs are reliable).\n#\n# To disable: delete the \"protobuf-mdbook: syntax highlight\" block in theme/index.hbs and\n# optional theme/highlight-*.js reference copies. On a future init:\n#   no_proto_highlight — skip protobuf grammar only\n#   no_cel_highlight   — skip CEL grammar only (protobuf can stay on)\n# Re-init does not replace an existing highlight block when markers are already present.\n# See the plugin repository README (Syntax highlighting) for custom themes and limitations.\n# Attribution: assets/highlightjs/NOTICE (protobuf: BSD-3-Clause; cel: repo-authored).\n# --- end protobuf-mdbook syntax highlighting ---\n"
    } else {
        "\n# --- protobuf-mdbook: syntax highlighting (disabled at init) ---\n# Pass init without no_proto_highlight / no_cel_highlight, or patch theme/index.hbs yourself.\n# --- end protobuf-mdbook syntax highlighting ---\n"
    };
    assert(comment@ == book_comment(enabled));
    let current = match kv_lookup(out, key.as_str()) {
        Some(b) => Some(to_string(b)),
        None => None,
    };
    match current {
        Some(b) => {
            if !book_toml_has_syntax_highlight_comment(b.as_str()) {
                let mut nb = b;
                nb.append(comment);
                kv_set(out, key, nb);
            }
        },
        None => {
            let t = crate::text::string_of(&trim_start_vec(&chars_of(comment)));
            kv_set(out, key, t);
        },
    }
}

fn trim_start_vec(l: &Vec<char>) -> (r: Vec<char>)
    ensures
        r@ == trim_start(l@),
{
    let mut a: usize = 0;
    while a < l.len() && crate::text::is_whitespace(l[a])
        invariant
            a <= l.len(),
            forall|j: int| 0 <= j < a ==> crate::text::is_ws(l@[j]),
        decreases l.len() - a,
    {
        a = a + 1;
    }
    proof {
        crate::text::lemma_trim_start_skip_pub(l@, a as int);
    }
    let r = slice_vec(l, a, l.len());
    assert(r@ =~= l@.skip(a as int));
    r
}

/// Highlighting wired into the files of a new book: grammar reference copies, the
/// patched `theme/index.hbs`, and the `book.toml` comment.
pub open spec fn inject_spec(opts: Options, book_root: Seq<char>, m: KvView) -> KvView {
    let m1 = if proto_on(opts) {
        kv_insert(m, join_book_root_spec(book_root, "theme/highlight-protobuf.js"@), proto_js_spec())
    } else {
        m
    };
    let m2 = if cel_on(opts) {
        kv_insert(m1, join_book_root_spec(book_root, "theme/highlight-cel.js"@), cel_js_spec())
    } else {
        m1
    };
    let key = join_book_root_spec(book_root, "theme/index.hbs"@);
    let m3 = match kv_get(m2, key) {
        Some(ix) => kv_insert(m2, key, patched_index(ix, opts)),
        None => m2,
    };
    book_comment_spec(book_root, m3, true)
}

/// Wires syntax highlighting into the files of a new book.
pub fn inject_syntax_highlighting(opts: &Options, book_root: &str, out: &mut Vec<(String, String)>)
    ensures
        kv_view(final(out)@) == inject_spec(*opts, book_root@, kv_view(old(out)@)),
{
    if opts.proto_highlight() {
        kv_set(out, join_book_root(book_root, "theme/highlight-protobuf.js"), to_string(proto_highlight_js()));
    }
    if opts.cel_highlight() {
        kv_set(out, join_book_root(book_root, "theme/highlight-cel.js"), to_string(cel_highlight_js()));
    }
    let key = join_book_root(book_root, "theme/index.hbs");
    let patched = match kv_lookup(out, key.as_str()) {
        Some(ix) => Some(patch_index(ix, opts)),
        None => None,
    };
    match patched {
        Some(p) => kv_set(out, key, p),
        None => {},
    }
    append_book_toml_highlight_comment(book_root, out, true);
}

/// README text of the syntax-highlighting section.
pub open spec fn highlight_section_spec(opts: Options) -> Seq<char> {
    if proto_on(opts) || cel_on(opts) {
        "## Syntax highlighting\n\nInit patches `theme/index.hbs` with Highlight.js 10.1.1 grammars between `highlight.js` and `book.js`. See the **protobuf-mdbook** repository README (**Syntax highlighting**) for custom themes, re-init behavior, and CEL limitations."@ + (if proto_on(opts) {
            "\n- **Protobuf:** ` ```protobuf ` fences (disable: `no_proto_highlight`)."@
        } else {
            Seq::<char>::empty()
        }) + (if cel_on(opts) {
            "\n- **CEL:** ` ```cel ` fences for Protovalidate message-level rules (disable: `no_cel_highlight`)."@
        } else {
            Seq::<char>::empty()
        }) + "\n"@
    } else {
        "## Syntax highlighting\n\nDisabled at init (`no_proto_highlight` and/or `no_cel_highlight`). See the plugin repository\nREADME for how to add grammars manually.\n\n"@
    }
}

/// Starter README of an initialized book.
pub open spec fn readme_spec(opts: Options) -> Seq<char> {
    "# Generated mdBook project\n\nThis file was created by **protobuf-mdbook** when you passed `init`. You can edit or delete it.\n\n## Next steps\n\n1. Customize `book.toml`, `"@ + opts.summary_path@ + "`, themes, and preprocessors to taste.\n2. API reference pages live under `"@ + opts.markdown_root@ + "/` (set via `markdown_root=` if you relocate them).\n3. Preview locally (install an **mdbook** CLI whose major.minor matches the plugin pin):\n\n   ```bash\n   mdbook serve\n   mdbook build\n   ```\n\n   The generator reports its pinned mdBook version:\n\n   ```bash\n   protobuf-mdbook --version\n   # or: protoc-gen-mdbook --version\n   ```\n\n   Expected pin: **"@ + mdbook_version_spec()
        + "** (also declared in the crate `Cargo.toml`).\n\n"@ + highlight_section_spec(opts) + "## Diagrams (` ```mermaid ` fences)\n\nIf any generated pages include ` ```mermaid ` blocks (from protobuf comments), configure\n[mdbook-mermaid](https://github.com/badboy/mdbook-mermaid) yourself in `book.toml`. Using\nMermaid in your protos is optional; rendering it in the book is your setup.\n\n## Doc linting\n\n- [rumdl](https://github.com/rvben/rumdl) — Markdown style\n- [lychee](https://github.com/lycheeiver/lychee) — link checking\n\n## Regenerating API pages\n\nAfter the first `init` run, call the plugin **without** `init` so `book.toml`, this README,\nyour SUMMARY, and theme files are preserved. Only `"@ + opts.markdown_root@ + "/**/*.md` are refreshed.\nUse the same `markdown_root=` and `summary_path=` as your book layout when regenerating.\n"@
}

/// Starter README beside `book.toml` (init mode only).
pub fn init_readme_content(opts: &Options) -> (r: String)
    ensures
        r@ == readme_spec(*opts),
{
    let mut h = String::new();
    if opts.proto_highlight() || opts.cel_highlight() {
        h.append("## Syntax highlighting\n\nInit patches `theme/index.hbs` with Highlight.js 10.1.1 grammars between `highlight.js` and `book.js`. See the **protobuf-mdbook** repository README (**Syntax highlighting**) for custom themes, re-init behavior, and CEL limitations.");
        if opts.proto_highlight() {
            h.append("\n- **Protobuf:** ` ```protobuf ` fences (disable: `no_proto_highlight`).");
        }
        if opts.cel_highlight() {
            h.append("\n- **CEL:** ` ```cel ` fences for Protovalidate message-level rules (disable: `no_cel_highlight`).");
        }
        h.append("\n");
    } else {
        h.append("## Syntax highlighting\n\nDisabled at init (`no_proto_highlight` and/or `no_cel_highlight`). See the plugin repository\nREADME for how to add grammars manually.\n\n");
    }
    assert(h@ =~= highlight_section_spec(*opts));
    let mut r = String::new();
    r.append("# Generated mdBook project\n\nThis file was created by **protobuf-mdbook** when you passed `init`. You can edit or delete it.\n\n## Next steps\n\n1. Customize `book.toml`, `");
    r.append(opts.summary_path.as_str());
    r.append("`, themes, and preprocessors to taste.\n2. API reference pages live under `");
    r.append(opts.markdown_root.as_str());
    r.append("/` (set via `markdown_root=` if you relocate them).\n3. Preview locally (install an **mdbook** CLI whose major.minor matches the plugin pin):\n\n   ```bash\n   mdbook serve\n   mdbook build\n   ```\n\n   The generator reports its pinned mdBook version:\n\n   ```bash\n   protobuf-mdbook --version\n   # or: protoc-gen-mdbook --version\n   ```\n\n   Expected pin: **");
    r.append(mdbook_version());
    r.append("** (also declared in the crate `Cargo.toml`).\n\n");
    r.append(h.as_str());
    r.append("## Diagrams (` ```mermaid ` fences)\n\nIf any generated pages include ` ```mermaid ` blocks (from protobuf comments), configure\n[mdbook-mermaid](https://github.com/badboy/mdbook-mermaid) yourself in `book.toml`. Using\nMermaid in your protos is optional; rendering it in the book is your setup.\n\n## Doc linting\n\n- [rumdl](https://github.com/rvben/rumdl) — Markdown style\n- [lychee](https://github.com/lycheeiver/lychee) — link checking\n\n## Regenerating API pages\n\nAfter the first `init` run, call the plugin **without** `init` so `book.toml`, this README,\nyour SUMMARY, and theme files are preserved. Only `");
    r.append(opts.markdown_root.as_str());
    r.append("/**/*.md` are refreshed.\nUse the same `markdown_root=` and `summary_path=` as your book layout when regenerating.\n");
    assert(r@ =~= readme_spec(*opts));
    r
}

/// Paths of mdBook's init scaffold replaced by generated files.
pub open spec fn stub_paths_spec(opts: Options) -> Seq<Seq<char>> {
    if opts.summary_path@ != "src/SUMMARY.md"@ {
        seq!["src/SUMMARY.md"@, "src/chapter_1.md"@, opts.summary_path@]
    } else {
        seq!["src/SUMMARY.md"@, "src/chapter_1.md"@]
    }
}

/// Paths of mdBook's init scaffold replaced by generated files.
pub fn init_stub_paths(opts: &Options) -> (r: Vec<String>)
    ensures
        crate::text::views(r@) == stub_paths_spec(*opts),
{
    let mut paths: Vec<String> = Vec::new();
    paths.push(to_string("src/SUMMARY.md"));
    paths.push(to_string("src/chapter_1.md"));
    if !crate::text::str_eq(opts.summary_path.as_str(), "src/SUMMARY.md") {
        paths.push(to_string(opts.summary_path.as_str()));
    }
    assert(crate::text::views(paths@) =~= stub_paths_spec(*opts));
    paths
}

/// Scaffold files under the book root (files that are not UTF-8 text are dropped).
pub open spec fn init_map_spec(book_root: Seq<char>, files: Seq<(String, Option<String>)>) -> KvView
    decreases files.len(),
{
    if files.len() == 0 {
        Seq::empty()
    } else {
        let m = init_map_spec(book_root, files.drop_last());
        match files.last().1 {
            Some(s) => kv_insert(m, join_book_root_spec(book_root, files.last().0@), s@),
            None => m,
        }
    }
}

/// `m` with each of `docs` set in order.
pub open spec fn set_all(m: KvView, docs: Seq<(Seq<char>, Seq<char>)>) -> KvView
    decreases docs.len(),
{
    if docs.len() == 0 {
        m
    } else {
        let m1 = set_all(m, docs.drop_last());
        kv_insert(m1, docs.last().0, docs.last().1)
    }
}

/// Files of a new book: the scaffold under the book root, highlighting wired in (or
/// the disabled comment), the generated pages, and the starter README; sorted by path.
pub open spec fn merge_spec(
    opts: Options,
    book_root: Seq<char>,
    init_files: Seq<(String, Option<String>)>,
    docs: Seq<(Seq<char>, Seq<char>)>,
) -> KvView {
    let m0 = init_map_spec(book_root, init_files);
    let m1 = if proto_on(opts) || cel_on(opts) {
        inject_spec(opts, book_root, m0)
    } else {
        book_comment_spec(book_root, m0, false)
    };
    let m2 = set_all(m1, docs);
    kv_insert(m2, join_book_root_spec(book_root, "README.md"@), readme_spec(opts))
}

/// Sets each of `docs` in order.
pub fn set_all_exec(out: &mut Vec<(String, String)>, docs: &Vec<(String, String)>)
    ensures
        kv_view(final(out)@) == set_all(kv_view(old(out)@), kv_view(docs@)),
{
    let ghost dv = kv_view(docs@);
    let ghost base = kv_view(out@);
    let mut i: usize = 0;
    while i < docs.len()
        invariant
            i <= docs.len(),
            dv == kv_view(docs@),
            kv_view(out@) == set_all(base, dv.take(i as int)),
        decreases docs.len() - i,
    {
        kv_set(out, to_string(docs[i].0.as_str()), to_string(docs[i].1.as_str()));
        proof {
            assert(dv.take(i + 1).drop_last() =~= dv.take(i as int));
            assert(dv.take(i + 1).last() == dv[i as int]);
        }
        i = i + 1;
    }
    assert(dv.take(docs.len() as int) =~= dv);
}

/// Files of a new book: mdBook's scaffold (`init_files`, relative to the book root),
/// highlighting, the generated `docs`, and the starter README, sorted by path.
pub fn merge_init_files(
    opts: &Options,
    book_root: &str,
    init_files: &Vec<(String, Option<String>)>,
    docs: &Vec<(String, String)>,
) -> (r: Vec<(String, String)>)
    ensures
        kv_view(r@) == merge_spec(*opts, book_root@, init_files@, kv_view(docs@)),
{
    let mut out: Vec<(String, String)> = Vec::new();
    let mut i: usize = 0;
    while i < init_files.len()
        invariant
            i <= init_files.len(),
            kv_view(out@) == init_map_spec(book_root@, init_files@.take(i as int)),
        decreases init_files.len() - i,
    {
        proof {
            assert(init_files@.take(i + 1).drop_last() =~= init_files@.take(i as int));
            assert(init_files@.take(i + 1).last() == init_files@[i as int]);
        }
        match &init_files[i].1 {
            Some(s) => kv_set(&mut out, join_book_root(book_root, init_files[i].0.as_str()), to_string(s.as_str())),
            None => {},
        }
        i = i + 1;
    }
    assert(init_files@.take(init_files.len() as int) =~= init_files@);
    if opts.proto_highlight() || opts.cel_highlight() {
        inject_syntax_highlighting(opts, book_root, &mut out);
    } else {
        append_book_toml_highlight_comment(book_root, &mut out, false);
    }
    set_all_exec(&mut out, docs);
    kv_set(&mut out, join_book_root(book_root, "README.md"), init_readme_content(opts));
    out
}

/// The block that init inserts carries the current begin marker.
proof fn lemma_patch_has_block(index: Seq<char>, opts: Options, p: int)
    requires
        0 <= p <= index.len(),
    ensures
        has_highlight_block(index.take(p) + seq!['\n'] + index_snippet_spec(opts) + index.skip(p)),
{
    reveal_strlit("        <!-- ");
    reveal_strlit("protobuf-mdbook: syntax highlight begin");
    let head = "        <!-- "@;
    let s = index.take(p) + seq!['\n'] + index_snippet_spec(opts) + index.skip(p);
    let at = p + 1 + head.len();
    let b = begin_marker();
    assert(s.subrange(at, at + b.len()) =~= b) by {
        assert forall|k: int| 0 <= k < b.len() implies s.subrange(at, at + b.len())[k] == b[k] by {
            assert(s[at + k] == index_snippet_spec(opts)[head.len() + k]);
        }
    }
    assert(occurs_at(s, b, at));
}

proof fn lemma_first_occurrence(s: Seq<char>, p: Seq<char>, j: int)
    requires
        occurs_at(s, p, j),
    ensures
        exists|i: int| first_at(s, p, i),
    decreases j,
{
    if exists|k: int| 0 <= k < j && occurs_at(s, p, k) {
        let k = choose|k: int| 0 <= k < j && occurs_at(s, p, k);
        lemma_first_occurrence(s, p, k);
    } else {
        assert(first_at(s, p, j));
    }
}

/// Once init has put a highlight block into `theme/index.hbs`, a later init, with any
/// options, leaves the file as it is: re-init never replaces the block.
pub proof fn law_reinit_keeps_highlight_block(index: Seq<char>, first: Options, later: Options)
    ensures
        patched_index(patched_index(index, first), later) == patched_index(index, first),
{
    if !(has_highlight_block(index) || !contains_sub(index, theme_highlight_spec())) {
        let j = choose|j: int| occurs_at(index, theme_highlight_spec(), j);
        lemma_first_occurrence(index, theme_highlight_spec(), j);
        let i = choose|i: int| first_at(index, theme_highlight_spec(), i);
        let p = i + theme_highlight_spec().len();
        lemma_patch_has_block(index, first, p);
    }
}

/// The files of a new book come out sorted by path, each path once.
pub proof fn law_merge_sorted(
    opts: Options,
    book_root: Seq<char>,
    init_files: Seq<(String, Option<String>)>,
    docs: Seq<(Seq<char>, Seq<char>)>,
)
    ensures
        kv_sorted(merge_spec(opts, book_root, init_files, docs)),
{
    lemma_init_map_sorted(book_root, init_files);
    let m0 = init_map_spec(book_root, init_files);
    if proto_on(opts) || cel_on(opts) {
        lemma_inject_sorted(opts, book_root, m0);
    } else {
        lemma_book_comment_sorted(book_root, m0, false);
    }
    let m1 = if proto_on(opts) || cel_on(opts) {
        inject_spec(opts, book_root, m0)
    } else {
        book_comment_spec(book_root, m0, false)
    };
    lemma_set_all_sorted(m1, docs);
    law_kv_insert(set_all(m1, docs), join_book_root_spec(book_root, "README.md"@), readme_spec(opts));
}

proof fn lemma_init_map_sorted(book_root: Seq<char>, files: Seq<(String, Option<String>)>)
    ensures
        kv_sorted(init_map_spec(book_root, files)),
    decreases files.len(),
{
    if files.len() > 0 {
        lemma_init_map_sorted(book_root, files.drop_last());
        match files.last().1 {
            Some(s) => law_kv_insert(init_map_spec(book_root, files.drop_last()), join_book_root_spec(book_root, files.last().0@), s@),
            None => {},
        }
    }
}

/// Setting entries one by one keeps a sorted map sorted.
pub proof fn lemma_set_all_sorted(m: KvView, docs: Seq<(Seq<char>, Seq<char>)>)
    requires
        kv_sorted(m),
    ensures
        kv_sorted(set_all(m, docs)),
    decreases docs.len(),
{
    if docs.len() > 0 {
        lemma_set_all_sorted(m, docs.drop_last());
        law_kv_insert(set_all(m, docs.drop_last()), docs.last().0, docs.last().1);
    }
}

proof fn lemma_book_comment_sorted(book_root: Seq<char>, m: KvView, enabled: bool)
    requires
        kv_sorted(m),
    ensures
        kv_sorted(book_comment_spec(book_root, m, enabled)),
{
    let key = join_book_root_spec(book_root, "book.toml"@);
    match kv_get(m, key) {
        Some(b) => law_kv_insert(m, key, b + book_comment(enabled)),
        None => law_kv_insert(m, key, trim_start(book_comment(enabled))),
    }
}

proof fn lemma_inject_sorted(opts: Options, book_root: Seq<char>, m: KvView)
    requires
        kv_sorted(m),
    ensures
        kv_sorted(inject_spec(opts, book_root, m)),
{
    law_kv_insert(m, join_book_root_spec(book_root, "theme/highlight-protobuf.js"@), proto_js_spec());
    let m1 = if proto_on(opts) {
        kv_insert(m, join_book_root_spec(book_root, "theme/highlight-protobuf.js"@), proto_js_spec())
    } else {
        m
    };
    law_kv_insert(m1, join_book_root_spec(book_root, "theme/highlight-cel.js"@), cel_js_spec());
    let m2 = if cel_on(opts) {
        kv_insert(m1, join_book_root_spec(book_root, "theme/highlight-cel.js"@), cel_js_spec())
    } else {
        m1
    };
    let key = join_book_root_spec(book_root, "theme/index.hbs"@);
    match kv_get(m2, key) {
        Some(ix) => law_kv_insert(m2, key, patched_index(ix, opts)),
        None => {},
    }
    let m3 = match kv_get(m2, key) {
        Some(ix) => kv_insert(m2, key, patched_index(ix, opts)),
        None => m2,
    };
    lemma_book_comment_sorted(book_root, m3, true);
}

} // verus!
