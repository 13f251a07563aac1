//! Plugin options: the comma-separated `request.parameter` language and its CLI form.

use crate::paths::{join_book_root, join_book_root_spec, normalize_rel_path, normalize_spec, PathError};
use crate::text::{
    chars_eq, chars_of, split_chars, split_on, starts_with, string_of, strip_prefix, to_string,
    trim, trim_chars, views,
};
use vstd::prelude::*;

verus! {

/// Documentation rollup.
#[derive(Clone, Copy, Debug, PartialEq, Eq, Structural)]
pub enum Layout {
    /// One page per package.
    Package,
    /// One page per message, enum, and service.
    Entity,
    /// Package index plus one page per entity.
    Split,
}

impl Default for Layout {
    fn default() -> (r: Self)
        ensures
            r == Layout::Package,
    {
        Layout::Package
    }
}

/// How to rewrite HTML-like `<tag>` tokens in leading-comment prose for mdBook.
#[derive(Clone, Copy, Debug, PartialEq, Eq, Structural)]
pub enum EscapeTags {
    /// Prose is copied verbatim.
    Off,
    /// `<tag>` becomes `` `<tag>` ``.
    Backticks,
    /// `<tag>` becomes `&lt;tag&gt;`.
    Entities,
}

impl Default for EscapeTags {
    fn default() -> (r: Self)
        ensures
            r == EscapeTags::Off,
    {
        EscapeTags::Off
    }
}

/// Generator options.
#[derive(Clone, Debug)]
pub struct Options {
    pub init: bool,
    pub summary: bool,
    pub no_proto_highlight: bool,
    pub no_cel_highlight: bool,
    pub no_proto_markdown: bool,
    pub book_root: String,
    /// Directory for generated API markdown, relative to `book_root` (default `src/packages`).
    pub markdown_root: String,
    /// Path to generated SUMMARY when `summary` or `init` (default `src/SUMMARY.md`).
    pub summary_path: String,
    /// Book root directory or path to `book.toml` (`book=`).
    pub book: Option<String>,
    /// Protoc output root for validation with `book=` (`mdbook_out=`).
    pub mdbook_out: Option<String>,
    pub explicit_book_root: bool,
    pub explicit_markdown_root: bool,
    pub explicit_summary_path: bool,
    pub title: Option<String>,
    pub ignore_git: bool,
    pub layout: Layout,
    /// Extra directories to resolve `FileDescriptorProto.name` when reading source for spans.
    pub proto_search_path: Vec<String>,
    /// Rewrite HTML-like angle-bracket tokens in leading-comment prose.
    pub escape_tags: EscapeTags,
}

/// Mathematical model of [`Options`].
pub struct OptionsModel {
    pub init: bool,
    pub summary: bool,
    pub no_proto_highlight: bool,
    pub no_cel_highlight: bool,
    pub no_proto_markdown: bool,
    pub book_root: Seq<char>,
    pub markdown_root: Seq<char>,
    pub summary_path: Seq<char>,
    pub book: Option<Seq<char>>,
    pub mdbook_out: Option<Seq<char>>,
    pub explicit_book_root: bool,
    pub explicit_markdown_root: bool,
    pub explicit_summary_path: bool,
    pub title: Option<Seq<char>>,
    pub ignore_git: bool,
    pub layout: Layout,
    pub proto_search_path: Seq<Seq<char>>,
    pub escape_tags: EscapeTags,
}

/// View of an optional string.
pub open spec fn opt_view(o: Option<String>) -> Option<Seq<char>> {
    match o {
        Some(s) => Some(s@),
        None => None,
    }
}

impl View for Options {
    type V = OptionsModel;

    open spec fn view(&self) -> OptionsModel {
        OptionsModel {
            init: self.init,
            summary: self.summary,
            no_proto_highlight: self.no_proto_highlight,
            no_cel_highlight: self.no_cel_highlight,
            no_proto_markdown: self.no_proto_markdown,
            book_root: self.book_root@,
            markdown_root: self.markdown_root@,
            summary_path: self.summary_path@,
            book: opt_view(self.book),
            mdbook_out: opt_view(self.mdbook_out),
            explicit_book_root: self.explicit_book_root,
            explicit_markdown_root: self.explicit_markdown_root,
            explicit_summary_path: self.explicit_summary_path,
            title: opt_view(self.title),
            ignore_git: self.ignore_git,
            layout: self.layout,
            proto_search_path: views(self.proto_search_path@),
            escape_tags: self.escape_tags,
        }
    }
}

/// The default options.
pub open spec fn default_model() -> OptionsModel {
    OptionsModel {
        init: false,
        summary: false,
        no_proto_highlight: false,
        no_cel_highlight: false,
        no_proto_markdown: false,
        book_root: seq!['.'],
        markdown_root: "src/packages"@,
        summary_path: "src/SUMMARY.md"@,
        book: None,
        mdbook_out: None,
        explicit_book_root: false,
        explicit_markdown_root: false,
        explicit_summary_path: false,
        title: None,
        ignore_git: true,
        layout: Layout::Package,
        proto_search_path: Seq::<Seq<char>>::empty(),
        escape_tags: EscapeTags::Off,
    }
}

/// Default API markdown directory.
pub fn default_markdown_root() -> (r: &'static str)
    ensures
        r@ == "src/packages"@,
{
    "src/packages"
}

/// Default SUMMARY path.
pub fn default_summary_path() -> (r: &'static str)
    ensures
        r@ == "src/SUMMARY.md"@,
{
    "src/SUMMARY.md"
}

/// A copy of a list of strings.
pub fn copy_strings(v: &Vec<String>) -> (r: Vec<String>)
    ensures
        r@ == v@,
        views(r@) == views(v@),
{
    let mut r: Vec<String> = Vec::new();
    let mut i: usize = 0;
    while i < v.len()
        invariant
            i <= v.len(),
            r@ == v@.take(i as int),
        decreases v.len() - i,
    {
        let c = v[i].clone();
        r.push(c);
        i = i + 1;
        assert(r@ =~= v@.take(i as int));
    }
    assert(v@.take(v.len() as int) =~= v@);
    r
}

/// A copy of an optional string.
pub fn copy_opt(o: &Option<String>) -> (r: Option<String>)
    ensures
        opt_view(r) == opt_view(*o),
{
    match o {
        Some(s) => Some(s.clone()),
        None => None,
    }
}

impl Options {
    /// The default options.
    pub fn new_default() -> (r: Options)
        ensures
            r@ == default_model(),
    {
        let r = Options {
            init: false,
            summary: false,
            no_proto_highlight: false,
            no_cel_highlight: false,
            no_proto_markdown: false,
            book_root: to_string("."),
            markdown_root: to_string(default_markdown_root()),
            summary_path: to_string(default_summary_path()),
            book: None,
            mdbook_out: None,
            explicit_book_root: false,
            explicit_markdown_root: false,
            explicit_summary_path: false,
            title: None,
            ignore_git: true,
            layout: Layout::Package,
            proto_search_path: Vec::new(),
            escape_tags: EscapeTags::Off,
        };
        proof {
            reveal_strlit(".");
            assert(r.book_root@ =~= seq!['.']);
            assert(views(r.proto_search_path@) =~= Seq::<Seq<char>>::empty());
        }
        r
    }

    /// A copy of these options.
    pub fn duplicate(&self) -> (r: Options)
        ensures
            r@ == self@,
    {
        Options {
            init: self.init,
            summary: self.summary,
            no_proto_highlight: self.no_proto_highlight,
            no_cel_highlight: self.no_cel_highlight,
            no_proto_markdown: self.no_proto_markdown,
            book_root: self.book_root.clone(),
            markdown_root: self.markdown_root.clone(),
            summary_path: self.summary_path.clone(),
            book: copy_opt(&self.book),
            mdbook_out: copy_opt(&self.mdbook_out),
            explicit_book_root: self.explicit_book_root,
            explicit_markdown_root: self.explicit_markdown_root,
            explicit_summary_path: self.explicit_summary_path,
            title: copy_opt(&self.title),
            ignore_git: self.ignore_git,
            layout: self.layout,
            proto_search_path: copy_strings(&self.proto_search_path),
            escape_tags: self.escape_tags,
        }
    }

    /// Search roots for `.proto` sources, in order.
    pub fn proto_search_paths(&self) -> (r: Vec<String>)
        ensures
            views(r@) == self@.proto_search_path,
    {
        copy_strings(&self.proto_search_path)
    }

    /// Whether a SUMMARY is generated.
    pub fn render_summary(&self) -> (r: bool)
        ensures
            r == (self.summary || self.init),
    {
        self.summary || self.init
    }

    /// Whether SUMMARY lists packages only (init mode).
    pub fn package_only_summary(&self) -> (r: bool)
        ensures
            r == self.init,
    {
        self.init
    }

    /// Whether init wires protobuf highlighting.
    pub fn proto_highlight(&self) -> (r: bool)
        ensures
            r == (self.init && !self.no_proto_highlight),
    {
        self.init && !self.no_proto_highlight
    }

    /// Whether init wires CEL highlighting.
    pub fn cel_highlight(&self) -> (r: bool)
        ensures
            r == (self.init && !self.no_cel_highlight),
    {
        self.init && !self.no_cel_highlight
    }

    /// Output path for a plugin-relative file: `{book_root}/{rel}`.
    pub fn output_path(&self, rel: &str) -> (r: String)
        ensures
            r@ == join_book_root_spec(self.book_root@, rel@),
    {
        join_book_root(self.book_root.as_str(), rel)
    }
}

impl Default for Options {
    fn default() -> (r: Self)
        ensures
            r@ == default_model(),
    {
        Options::new_default()
    }
}

/// A parsed comma-separated plugin option (before it is applied).
#[derive(Clone, Debug, PartialEq, Eq)]
pub enum ParsedToken {
    Init,
    Summary,
    NoProtoHighlight,
    NoCelHighlight,
    NoProtoMarkdown,
    MarkdownOnly,
    Theme,
    EscapeTags(EscapeTags),
    Layout(Layout),
    BookRoot(String),
    MarkdownRoot(String),
    SummaryPath(String),
    Book(String),
    MdbookOut(String),
    Title(String),
    IgnoreGit(bool),
    ProtoPath(Vec<String>),
}

/// Mathematical model of [`ParsedToken`].
pub enum TokenSpec {
    Init,
    Summary,
    NoProtoHighlight,
    NoCelHighlight,
    NoProtoMarkdown,
    MarkdownOnly,
    Theme,
    EscapeTags(EscapeTags),
    Layout(Layout),
    BookRoot(Seq<char>),
    MarkdownRoot(Seq<char>),
    SummaryPath(Seq<char>),
    Book(Seq<char>),
    MdbookOut(Seq<char>),
    Title(Seq<char>),
    IgnoreGit(bool),
    ProtoPath(Seq<Seq<char>>),
}

impl View for ParsedToken {
    type V = TokenSpec;

    open spec fn view(&self) -> TokenSpec {
        match self {
            ParsedToken::Init => TokenSpec::Init,
            ParsedToken::Summary => TokenSpec::Summary,
            ParsedToken::NoProtoHighlight => TokenSpec::NoProtoHighlight,
            ParsedToken::NoCelHighlight => TokenSpec::NoCelHighlight,
            ParsedToken::NoProtoMarkdown => TokenSpec::NoProtoMarkdown,
            ParsedToken::MarkdownOnly => TokenSpec::MarkdownOnly,
            ParsedToken::Theme => TokenSpec::Theme,
            ParsedToken::EscapeTags(e) => TokenSpec::EscapeTags(*e),
            ParsedToken::Layout(l) => TokenSpec::Layout(*l),
            ParsedToken::BookRoot(s) => TokenSpec::BookRoot(s@),
            ParsedToken::MarkdownRoot(s) => TokenSpec::MarkdownRoot(s@),
            ParsedToken::SummaryPath(s) => TokenSpec::SummaryPath(s@),
            ParsedToken::Book(s) => TokenSpec::Book(s@),
            ParsedToken::MdbookOut(s) => TokenSpec::MdbookOut(s@),
            ParsedToken::Title(s) => TokenSpec::Title(s@),
            ParsedToken::IgnoreGit(b) => TokenSpec::IgnoreGit(*b),
            ParsedToken::ProtoPath(v) => TokenSpec::ProtoPath(views(v@)),
        }
    }
}

/// Why options were refused.
#[derive(Clone, Debug, PartialEq, Eq)]
pub enum OptionsError {
    /// `ignore=` with a value other than `git` or `none`.
    UnknownIgnore(String),
    /// `layout=` with a value other than `package`, `entity`, or `split`.
    UnknownLayout(String),
    /// `escape_tags=` with a value other than `backticks` or `entities`.
    UnknownEscapeTags(String),
    /// A token that names no option.
    UnknownOption(String),
    /// A path option that is absolute or climbs with `..`.
    BadPath(PathError),
    /// `no_proto_highlight` without `init`.
    NoProtoHighlightRequiresInit,
    /// `no_cel_highlight` without `init`.
    NoCelHighlightRequiresInit,
    /// `title=` without `init`.
    TitleRequiresInit,
    /// `ignore=none` without `init`.
    IgnoreNoneRequiresInit,
    /// `theme` without `init`.
    ThemeRequiresInit,
}

/// Mathematical model of [`OptionsError`].
pub enum OptionsErrorModel {
    UnknownIgnore(Seq<char>),
    UnknownLayout(Seq<char>),
    UnknownEscapeTags(Seq<char>),
    UnknownOption(Seq<char>),
    /// `absolute` tells an absolute path from one with `..`; `raw` is the value given.
    BadPath { absolute: bool, raw: Seq<char> },
    NoProtoHighlightRequiresInit,
    NoCelHighlightRequiresInit,
    TitleRequiresInit,
    IgnoreNoneRequiresInit,
    ThemeRequiresInit,
}

impl View for OptionsError {
    type V = OptionsErrorModel;

    open spec fn view(&self) -> OptionsErrorModel {
        match self {
            OptionsError::UnknownIgnore(s) => OptionsErrorModel::UnknownIgnore(s@),
            OptionsError::UnknownLayout(s) => OptionsErrorModel::UnknownLayout(s@),
            OptionsError::UnknownEscapeTags(s) => OptionsErrorModel::UnknownEscapeTags(s@),
            OptionsError::UnknownOption(s) => OptionsErrorModel::UnknownOption(s@),
            OptionsError::BadPath(PathError::Absolute(s)) => OptionsErrorModel::BadPath {
                absolute: true,
                raw: s@,
            },
            OptionsError::BadPath(PathError::ParentDir(s)) => OptionsErrorModel::BadPath {
                absolute: false,
                raw: s@,
            },
            OptionsError::NoProtoHighlightRequiresInit => OptionsErrorModel::NoProtoHighlightRequiresInit,
            OptionsError::NoCelHighlightRequiresInit => OptionsErrorModel::NoCelHighlightRequiresInit,
            OptionsError::TitleRequiresInit => OptionsErrorModel::TitleRequiresInit,
            OptionsError::IgnoreNoneRequiresInit => OptionsErrorModel::IgnoreNoneRequiresInit,
            OptionsError::ThemeRequiresInit => OptionsErrorModel::ThemeRequiresInit,
        }
    }
}

/// `s` in double quotes.
fn quoted(s: &String) -> (r: String)
    ensures
        r@ == seq!['"'] + s@ + seq!['"'],
{
    let mut r = String::new();
    crate::text::push_char(&mut r, '"');
    r.append(s.as_str());
    crate::text::push_char(&mut r, '"');
    r
}

/// Text of a refused option.
pub open spec fn options_error_message(e: OptionsErrorModel) -> Seq<char> {
    match e {
        OptionsErrorModel::UnknownIgnore(v) => "unknown ignore value "@ + seq!['"'] + v + seq!['"'] + "; use git or none"@,
        OptionsErrorModel::UnknownLayout(v) => "unknown layout "@ + seq!['"'] + v + seq!['"']
            + "; use package, entity, or split"@,
        OptionsErrorModel::UnknownEscapeTags(v) => "unknown escape_tags value "@ + seq!['"'] + v + seq!['"']
            + "; use backticks or entities"@,
        OptionsErrorModel::UnknownOption(v) => "unknown plugin option: "@ + seq!['"'] + v + seq!['"'],
        OptionsErrorModel::BadPath { absolute, raw } => if absolute {
            "path must be relative: "@ + raw
        } else {
            "path must not contain `..`: "@ + raw
        },
        OptionsErrorModel::NoProtoHighlightRequiresInit => "`no_proto_highlight` is only valid with `init`"@,
        OptionsErrorModel::NoCelHighlightRequiresInit => "`no_cel_highlight` is only valid with `init`"@,
        OptionsErrorModel::TitleRequiresInit => "`title` is only valid with `init`"@,
        OptionsErrorModel::IgnoreNoneRequiresInit => "`ignore=none` is only valid with `init`"@,
        OptionsErrorModel::ThemeRequiresInit => "`theme` is only valid with `init`"@,
    }
}

impl OptionsError {
    /// Human-readable description.
    pub fn message(&self) -> (m: String)
        ensures
            m@ == options_error_message(self@),
    {
        match self {
            OptionsError::UnknownIgnore(v) => {
                let mut m = to_string("unknown ignore value ");
                m.append(quoted(v).as_str());
                m.append("; use git or none");
                m
            },
            OptionsError::UnknownLayout(v) => {
                let mut m = to_string("unknown layout ");
                m.append(quoted(v).as_str());
                m.append("; use package, entity, or split");
                m
            },
            OptionsError::UnknownEscapeTags(v) => {
                let mut m = to_string("unknown escape_tags value ");
                m.append(quoted(v).as_str());
                m.append("; use backticks or entities");
                m
            },
            OptionsError::UnknownOption(v) => {
                let mut m = to_string("unknown plugin option: ");
                m.append(quoted(v).as_str());
                m
            },
            OptionsError::BadPath(e) => e.message(),
            OptionsError::NoProtoHighlightRequiresInit => to_string(
                "`no_proto_highlight` is only valid with `init`",
            ),
            OptionsError::NoCelHighlightRequiresInit => to_string(
                "`no_cel_highlight` is only valid with `init`",
            ),
            OptionsError::TitleRequiresInit => to_string("`title` is only valid with `init`"),
            OptionsError::IgnoreNoneRequiresInit => to_string(
                "`ignore=none` is only valid with `init`",
            ),
            OptionsError::ThemeRequiresInit => to_string("`theme` is only valid with `init`"),
        }
    }
}

/// The non-empty pieces of `ps`, in order.
pub open spec fn nonempty_parts(ps: Seq<Seq<char>>) -> Seq<Seq<char>>
    decreases ps.len(),
{
    if ps.len() == 0 {
        Seq::<Seq<char>>::empty()
    } else {
        let pre = nonempty_parts(ps.drop_last());
        if ps.last().len() > 0 {
            pre.push(ps.last())
        } else {
            pre
        }
    }
}

/// The pieces of `ps` trimmed, empty ones dropped.
pub open spec fn trimmed_nonempty(ps: Seq<Seq<char>>) -> Seq<Seq<char>>
    decreases ps.len(),
{
    if ps.len() == 0 {
        Seq::<Seq<char>>::empty()
    } else {
        let pre = trimmed_nonempty(ps.drop_last());
        if trim(ps.last()).len() > 0 {
            pre.push(trim(ps.last()))
        } else {
            pre
        }
    }
}

/// The tokens of a comma-separated parameter string.
pub open spec fn parameter_tokens(p: Seq<char>) -> Seq<Seq<char>> {
    trimmed_nonempty(split_on(p, ','))
}

/// Model of a path error from `normalize_spec`.
pub open spec fn path_error(absolute: bool, raw: Seq<char>) -> OptionsErrorModel {
    OptionsErrorModel::BadPath { absolute, raw }
}

/// What one token means.
pub open spec fn parse_token_spec(t: Seq<char>) -> Result<TokenSpec, OptionsErrorModel> {
    if starts_with(t, "book_root="@) {
        let v = t.skip("book_root="@.len() as int);
        match normalize_spec(v, seq!['.']) {
            Ok(n) => Ok(TokenSpec::BookRoot(n)),
            Err(a) => Err(path_error(a, v)),
        }
    } else if starts_with(t, "markdown_root="@) {
        let v = t.skip("markdown_root="@.len() as int);
        match normalize_spec(v, "src/packages"@) {
            Ok(n) => Ok(TokenSpec::MarkdownRoot(n)),
            Err(a) => Err(path_error(a, v)),
        }
    } else if starts_with(t, "summary_path="@) {
        let v = t.skip("summary_path="@.len() as int);
        match normalize_spec(v, "src/SUMMARY.md"@) {
            Ok(n) => Ok(TokenSpec::SummaryPath(n)),
            Err(a) => Err(path_error(a, v)),
        }
    } else if starts_with(t, "book="@) {
        Ok(TokenSpec::Book(t.skip("book="@.len() as int)))
    } else if starts_with(t, "mdbook_out="@) {
        Ok(TokenSpec::MdbookOut(t.skip("mdbook_out="@.len() as int)))
    } else if starts_with(t, "title="@) {
        Ok(TokenSpec::Title(t.skip("title="@.len() as int)))
    } else if starts_with(t, "ignore="@) {
        let v = t.skip("ignore="@.len() as int);
        if v == "git"@ {
            Ok(TokenSpec::IgnoreGit(true))
        } else if v == "none"@ {
            Ok(TokenSpec::IgnoreGit(false))
        } else {
            Err(OptionsErrorModel::UnknownIgnore(v))
        }
    } else if starts_with(t, "proto_path="@) {
        Ok(TokenSpec::ProtoPath(nonempty_parts(split_on(t.skip("proto_path="@.len() as int), ':'))))
    } else if starts_with(t, "layout="@) {
        let v = t.skip("layout="@.len() as int);
        if v == "package"@ {
            Ok(TokenSpec::Layout(Layout::Package))
        } else if v == "entity"@ {
            Ok(TokenSpec::Layout(Layout::Entity))
        } else if v == "split"@ {
            Ok(TokenSpec::Layout(Layout::Split))
        } else {
            Err(OptionsErrorModel::UnknownLayout(v))
        }
    } else if t == "escape_tags"@ {
        Ok(TokenSpec::EscapeTags(EscapeTags::Backticks))
    } else if starts_with(t, "escape_tags="@) {
        let v = t.skip("escape_tags="@.len() as int);
        if v == "backticks"@ {
            Ok(TokenSpec::EscapeTags(EscapeTags::Backticks))
        } else if v == "entities"@ {
            Ok(TokenSpec::EscapeTags(EscapeTags::Entities))
        } else {
            Err(OptionsErrorModel::UnknownEscapeTags(v))
        }
    } else if t == "init"@ {
        Ok(TokenSpec::Init)
    } else if t == "summary"@ {
        Ok(TokenSpec::Summary)
    } else if t == "no_proto_highlight"@ {
        Ok(TokenSpec::NoProtoHighlight)
    } else if t == "no_cel_highlight"@ {
        Ok(TokenSpec::NoCelHighlight)
    } else if t == "no_proto_markdown"@ {
        Ok(TokenSpec::NoProtoMarkdown)
    } else if t == "markdown_only"@ {
        Ok(TokenSpec::MarkdownOnly)
    } else if t == "theme"@ {
        Ok(TokenSpec::Theme)
    } else {
        Err(OptionsErrorModel::UnknownOption(t))
    }
}

/// Options after applying one token.
pub open spec fn apply_token_spec(m: OptionsModel, t: TokenSpec) -> OptionsModel {
    match t {
        TokenSpec::Init => OptionsModel { init: true, ..m },
        TokenSpec::Summary => OptionsModel { summary: true, ..m },
        TokenSpec::NoProtoHighlight => OptionsModel { no_proto_highlight: true, ..m },
        TokenSpec::NoCelHighlight => OptionsModel { no_cel_highlight: true, ..m },
        TokenSpec::NoProtoMarkdown => OptionsModel { no_proto_markdown: true, ..m },
        TokenSpec::MarkdownOnly => m,
        TokenSpec::Theme => m,
        TokenSpec::EscapeTags(e) => OptionsModel { escape_tags: e, ..m },
        TokenSpec::Layout(l) => OptionsModel { layout: l, ..m },
        TokenSpec::BookRoot(v) => OptionsModel { book_root: v, explicit_book_root: true, ..m },
        TokenSpec::MarkdownRoot(v) => OptionsModel {
            markdown_root: v,
            explicit_markdown_root: true,
            ..m
        },
        TokenSpec::SummaryPath(v) => OptionsModel {
            summary_path: v,
            explicit_summary_path: true,
            ..m
        },
        TokenSpec::Book(v) => OptionsModel { book: Some(v), ..m },
        TokenSpec::MdbookOut(v) => OptionsModel { mdbook_out: Some(v), ..m },
        TokenSpec::Title(v) => OptionsModel { title: Some(v), ..m },
        TokenSpec::IgnoreGit(b) => OptionsModel { ignore_git: b, ..m },
        TokenSpec::ProtoPath(ps) => OptionsModel { proto_search_path: ps, ..m },
    }
}

/// Options after applying `ts` in order.
pub open spec fn apply_all(m: OptionsModel, ts: Seq<TokenSpec>) -> OptionsModel
    decreases ts.len(),
{
    if ts.len() == 0 {
        m
    } else {
        apply_token_spec(apply_all(m, ts.drop_last()), ts.last())
    }
}

/// Every token parsed, or the error of the first one that fails.
pub open spec fn parse_all(toks: Seq<Seq<char>>) -> Result<Seq<TokenSpec>, OptionsErrorModel>
    decreases toks.len(),
{
    if toks.len() == 0 {
        Ok(Seq::<TokenSpec>::empty())
    } else {
        match parse_all(toks.drop_last()) {
            Err(e) => Err(e),
            Ok(ps) => match parse_token_spec(toks.last()) {
                Ok(p) => Ok(ps.push(p)),
                Err(e) => Err(e),
            },
        }
    }
}

/// The first init-only rule that `m` breaks.
pub open spec fn validate_spec(m: OptionsModel) -> Option<OptionsErrorModel> {
    if m.no_proto_highlight && !m.init {
        Some(OptionsErrorModel::NoProtoHighlightRequiresInit)
    } else if m.no_cel_highlight && !m.init {
        Some(OptionsErrorModel::NoCelHighlightRequiresInit)
    } else if !m.init && m.title is Some {
        Some(OptionsErrorModel::TitleRequiresInit)
    } else if !m.init && !m.ignore_git {
        Some(OptionsErrorModel::IgnoreNoneRequiresInit)
    } else {
        None
    }
}

/// Options satisfy every init-only rule.
pub open spec fn valid_model(m: OptionsModel) -> bool {
    validate_spec(m) is None
}

/// What a whole parameter string means.
pub open spec fn parse_parameter_spec(p: Option<Seq<char>>) -> Result<OptionsModel, OptionsErrorModel> {
    match p {
        None => Ok(default_model()),
        Some(s) => match parse_all(parameter_tokens(s)) {
            Err(e) => Err(e),
            Ok(ts) => {
                let m = apply_all(default_model(), ts);
                match validate_spec(m) {
                    Some(e) => Err(e),
                    None => if !m.init && ts.contains(TokenSpec::Theme) {
                        Err(OptionsErrorModel::ThemeRequiresInit)
                    } else {
                        Ok(m)
                    },
                }
            },
        },
    }
}

/// View of a result of options.
pub open spec fn options_result_view(r: Result<Options, OptionsError>) -> Result<
    OptionsModel,
    OptionsErrorModel,
> {
    match r {
        Ok(o) => Ok(o@),
        Err(e) => Err(e@),
    }
}

/// Checks that `v` equals the literal `lit`.
fn is_lit(v: &Vec<char>, lit: &str) -> (r: bool)
    ensures
        r == (v@ == lit@),
{
    let l = chars_of(lit);
    chars_eq(v, &l)
}

/// `v` with the literal prefix `lit` removed, when it starts with it.
fn after(v: &Vec<char>, lit: &str) -> (r: Option<Vec<char>>)
    ensures
        match r {
            Some(rest) => starts_with(v@, lit@) && rest@ == v@.skip(lit@.len() as int),
            None => !starts_with(v@, lit@),
        },
{
    let l = chars_of(lit);
    strip_prefix(v, &l)
}

/// A normalized path token value, or its error.
fn path_value(v: &Vec<char>, default: &str) -> (r: Result<String, OptionsError>)
    ensures
        match normalize_spec(v@, default@) {
            Ok(n) => r matches Ok(s) && s@ == n,
            Err(a) => r matches Err(e) && e@ == path_error(a, v@),
        },
{
    let raw = string_of(v);
    match normalize_rel_path(raw.as_str(), default) {
        Ok(s) => Ok(s),
        Err(e) => Err(OptionsError::BadPath(e)),
    }
}

/// The non-empty `:`-separated pieces of `v`.
fn proto_path_list(v: &Vec<char>) -> (r: Vec<String>)
    ensures
        views(r@) == nonempty_parts(split_on(v@, ':')),
{
    let pieces = split_chars(v, ':');
    let ghost pv = pieces@.map_values(|x: Vec<char>| x@);
    let mut r: Vec<String> = Vec::new();
    let mut i: usize = 0;
    while i < pieces.len()
        invariant
            i <= pieces.len(),
            pv == pieces@.map_values(|x: Vec<char>| x@),
            views(r@) == nonempty_parts(pv.take(i as int)),
        decreases pieces.len() - i,
    {
        proof {
            assert(pv.take(i + 1).drop_last() =~= pv.take(i as int));
            assert(pv.take(i + 1).last() == pieces@[i as int]@);
        }
        let ghost before = r@;
        if pieces[i].len() > 0 {
            r.push(string_of(&pieces[i]));
            assert(views(r@) =~= views(before).push(pieces@[i as int]@));
        }
        i = i + 1;
    }
    assert(pv.take(pieces.len() as int) =~= pv);
    r
}

/// Parse one comma-separated plugin option.
pub fn parse_token(token: &str) -> (r: Result<ParsedToken, OptionsError>)
    ensures
        match r {
            Ok(p) => parse_token_spec(token@) == Ok::<TokenSpec, OptionsErrorModel>(p@),
            Err(e) => parse_token_spec(token@) == Err::<TokenSpec, OptionsErrorModel>(e@),
        },
{
    let t = chars_of(token);
    if let Some(v) = after(&t, "book_root=") {
        return match path_value(&v, ".") {
            Ok(s) => {
                proof {
                    reveal_strlit(".");
                    assert(seq!['.'] =~= "."@);
                }
                Ok(ParsedToken::BookRoot(s))
            },
            Err(e) => {
                proof {
                    reveal_strlit(".");
                    assert(seq!['.'] =~= "."@);
                }
                Err(e)
            },
        };
    }
    if let Some(v) = after(&t, "markdown_root=") {
        return match path_value(&v, default_markdown_root()) {
            Ok(s) => Ok(ParsedToken::MarkdownRoot(s)),
            Err(e) => Err(e),
        };
    }
    if let Some(v) = after(&t, "summary_path=") {
        return match path_value(&v, default_summary_path()) {
            Ok(s) => Ok(ParsedToken::SummaryPath(s)),
            Err(e) => Err(e),
        };
    }
    if let Some(v) = after(&t, "book=") {
        return Ok(ParsedToken::Book(string_of(&v)));
    }
    if let Some(v) = after(&t, "mdbook_out=") {
        return Ok(ParsedToken::MdbookOut(string_of(&v)));
    }
    if let Some(v) = after(&t, "title=") {
        return Ok(ParsedToken::Title(string_of(&v)));
    }
    if let Some(v) = after(&t, "ignore=") {
        if is_lit(&v, "git") {
            return Ok(ParsedToken::IgnoreGit(true));
        }
        if is_lit(&v, "none") {
            return Ok(ParsedToken::IgnoreGit(false));
        }
        return Err(OptionsError::UnknownIgnore(string_of(&v)));
    }
    if let Some(v) = after(&t, "proto_path=") {
        return Ok(ParsedToken::ProtoPath(proto_path_list(&v)));
    }
    if let Some(v) = after(&t, "layout=") {
        if is_lit(&v, "package") {
            return Ok(ParsedToken::Layout(Layout::Package));
        }
        if is_lit(&v, "entity") {
            return Ok(ParsedToken::Layout(Layout::Entity));
        }
        if is_lit(&v, "split") {
            return Ok(ParsedToken::Layout(Layout::Split));
        }
        return Err(OptionsError::UnknownLayout(string_of(&v)));
    }
    if is_lit(&t, "escape_tags") {
        return Ok(ParsedToken::EscapeTags(EscapeTags::Backticks));
    }
    if let Some(v) = after(&t, "escape_tags=") {
        if is_lit(&v, "backticks") {
            return Ok(ParsedToken::EscapeTags(EscapeTags::Backticks));
        }
        if is_lit(&v, "entities") {
            return Ok(ParsedToken::EscapeTags(EscapeTags::Entities));
        }
        return Err(OptionsError::UnknownEscapeTags(string_of(&v)));
    }
    if is_lit(&t, "init") {
        return Ok(ParsedToken::Init);
    }
    if is_lit(&t, "summary") {
        return Ok(ParsedToken::Summary);
    }
    if is_lit(&t, "no_proto_highlight") {
        return Ok(ParsedToken::NoProtoHighlight);
    }
    if is_lit(&t, "no_cel_highlight") {
        return Ok(ParsedToken::NoCelHighlight);
    }
    if is_lit(&t, "no_proto_markdown") {
        return Ok(ParsedToken::NoProtoMarkdown);
    }
    if is_lit(&t, "markdown_only") {
        return Ok(ParsedToken::MarkdownOnly);
    }
    if is_lit(&t, "theme") {
        return Ok(ParsedToken::Theme);
    }
    Err(OptionsError::UnknownOption(to_string(token)))
}

/// Apply one parsed option to `opts`.
#[verifier::rlimit(60)]
pub fn apply_parsed(opts: &mut Options, token: ParsedToken)
    ensures
        final(opts)@ == apply_token_spec(old(opts)@, token@),
{
    match token {
        ParsedToken::Init => opts.init = true,
        ParsedToken::Summary => opts.summary = true,
        ParsedToken::NoProtoHighlight => opts.no_proto_highlight = true,
        ParsedToken::NoCelHighlight => opts.no_cel_highlight = true,
        ParsedToken::NoProtoMarkdown => opts.no_proto_markdown = true,
        ParsedToken::MarkdownOnly => {},
        ParsedToken::Theme => {},
        ParsedToken::EscapeTags(mode) => opts.escape_tags = mode,
        ParsedToken::Layout(layout) => opts.layout = layout,
        ParsedToken::BookRoot(v) => {
            opts.book_root = v;
            opts.explicit_book_root = true;
        },
        ParsedToken::MarkdownRoot(v) => {
            opts.markdown_root = v;
            opts.explicit_markdown_root = true;
        },
        ParsedToken::SummaryPath(v) => {
            opts.summary_path = v;
            opts.explicit_summary_path = true;
        },
        ParsedToken::Book(v) => opts.book = Some(v),
        ParsedToken::MdbookOut(v) => opts.mdbook_out = Some(v),
        ParsedToken::Title(v) => opts.title = Some(v),
        ParsedToken::IgnoreGit(v) => opts.ignore_git = v,
        ParsedToken::ProtoPath(paths) => opts.proto_search_path = paths,
    }
}

/// Whether the token is the deprecated `markdown_only`.
pub fn is_markdown_only(token: &ParsedToken) -> (r: bool)
    ensures
        r == (token@ is MarkdownOnly),
{
    match token {
        ParsedToken::MarkdownOnly => true,
        _ => false,
    }
}

/// Init-only checks after all tokens are applied.
pub fn validate_options(opts: &Options) -> (r: Result<(), OptionsError>)
    ensures
        match validate_spec(opts@) {
            Some(e) => r matches Err(x) && x@ == e,
            None => r is Ok,
        },
{
    if opts.no_proto_highlight && !opts.init {
        return Err(OptionsError::NoProtoHighlightRequiresInit);
    }
    if opts.no_cel_highlight && !opts.init {
        return Err(OptionsError::NoCelHighlightRequiresInit);
    }
    if !opts.init {
        if opts.title.is_some() {
            return Err(OptionsError::TitleRequiresInit);
        }
        if !opts.ignore_git {
            return Err(OptionsError::IgnoreNoneRequiresInit);
        }
    }
    Ok(())
}

/// The trimmed non-empty tokens of a parameter string.
pub fn parameter_token_list(param: &str) -> (r: Vec<Vec<char>>)
    ensures
        r@.map_values(|x: Vec<char>| x@) == parameter_tokens(param@),
{
    let v = chars_of(param);
    let pieces = split_chars(&v, ',');
    let ghost pv = pieces@.map_values(|x: Vec<char>| x@);
    let mut r: Vec<Vec<char>> = Vec::new();
    let mut i: usize = 0;
    while i < pieces.len()
        invariant
            i <= pieces.len(),
            pv == pieces@.map_values(|x: Vec<char>| x@),
            r@.map_values(|x: Vec<char>| x@) == trimmed_nonempty(pv.take(i as int)),
        decreases pieces.len() - i,
    {
        proof {
            assert(pv.take(i + 1).drop_last() =~= pv.take(i as int));
            assert(pv.take(i + 1).last() == pieces@[i as int]@);
        }
        let ghost before = r@.map_values(|x: Vec<char>| x@);
        let t = trim_chars(&pieces[i]);
        if t.len() > 0 {
            r.push(t);
            assert(r@.map_values(|x: Vec<char>| x@) =~= before.push(trim(pv[i as int])));
        }
        i = i + 1;
    }
    assert(pv.take(pieces.len() as int) =~= pv);
    r
}

/// Parse a comma-separated option string (`None` gives the defaults).
pub fn parse_parameter(parameter: &Option<String>) -> (r: Result<Options, OptionsError>)
    ensures
        options_result_view(r) == parse_parameter_spec(opt_view(*parameter)),
        r matches Ok(o) ==> valid_model(o@),
{
    let mut opts = Options::new_default();
    let param = match parameter {
        None => return Ok(opts),
        Some(p) => p,
    };
    assert(opt_view(*parameter) == Some(param@));
    let toks = parameter_token_list(param.as_str());
    let ghost tv = toks@.map_values(|x: Vec<char>| x@);
    let ghost mut parsed: Seq<TokenSpec> = Seq::empty();
    let mut saw_theme = false;
    let mut i: usize = 0;
    while i < toks.len()
        invariant
            i <= toks.len(),
            tv == toks@.map_values(|x: Vec<char>| x@),
            tv == parameter_tokens(param@),
            opt_view(*parameter) == Some(param@),
            parse_all(tv.take(i as int)) == Ok::<Seq<TokenSpec>, OptionsErrorModel>(parsed),
            opts@ == apply_all(default_model(), parsed),
            saw_theme == parsed.contains(TokenSpec::Theme),
        decreases toks.len() - i,
    {
        proof {
            assert(tv.take(i + 1).drop_last() =~= tv.take(i as int));
            assert(tv.take(i + 1).last() == toks@[i as int]@);
        }
        let tok = string_of(&toks[i]);
        let p = match parse_token(tok.as_str()) {
            Ok(p) => p,
            Err(e) => {
                proof {
                    assert(parse_token_spec(tv.take(i + 1).last()) == Err::<TokenSpec, OptionsErrorModel>(e@));
                    assert(parse_all(tv.take(i + 1)) == Err::<Seq<TokenSpec>, OptionsErrorModel>(e@));
                    lemma_parse_all_err_prefix(tv, (i + 1) as int);
                    assert(parse_all(tv) == Err::<Seq<TokenSpec>, OptionsErrorModel>(e@));
                    assert(parse_all(parameter_tokens(param@)) == Err::<Seq<TokenSpec>, OptionsErrorModel>(e@));
                }
                return Err(e);
            },
        };
        let ghost pv = p@;
        let theme_tok = match p {
            ParsedToken::Theme => true,
            _ => false,
        };
        apply_parsed(&mut opts, p);
        proof {
            assert(parsed.push(pv).drop_last() =~= parsed);
            assert(parsed.push(pv).contains(TokenSpec::Theme) == (parsed.contains(TokenSpec::Theme) || pv == TokenSpec::Theme)) by {
                if parsed.push(pv).contains(TokenSpec::Theme) && pv != TokenSpec::Theme {
                    let k = choose|k: int| 0 <= k < parsed.push(pv).len() && parsed.push(pv)[k] == TokenSpec::Theme;
                    assert(parsed[k] == TokenSpec::Theme);
                }
                if parsed.contains(TokenSpec::Theme) {
                    let k = choose|k: int| 0 <= k < parsed.len() && parsed[k] == TokenSpec::Theme;
                    assert(parsed.push(pv)[k] == TokenSpec::Theme);
                }
                if pv == TokenSpec::Theme {
                    assert(parsed.push(pv)[parsed.len() as int] == TokenSpec::Theme);
                }
            }
            parsed = parsed.push(pv);
        }
        if theme_tok {
            saw_theme = true;
        }
        i = i + 1;
    }
    assert(tv.take(toks.len() as int) =~= tv);
    match validate_options(&opts) {
        Ok(()) => {},
        Err(e) => return Err(e),
    }
    if saw_theme && !opts.init {
        return Err(OptionsError::ThemeRequiresInit);
    }
    Ok(opts)
}

proof fn lemma_not_prefix_at(s: Seq<char>, p: Seq<char>, i: int)
    requires
        0 <= i < p.len(),
        i < s.len() ==> s[i] != p[i],
    ensures
        !starts_with(s, p),
{
    if starts_with(s, p) {
        assert(s.take(p.len() as int)[i] == p[i]);
    }
}


proof fn lemma_parse_all_err_anywhere(toks: Seq<Seq<char>>, k: int)
    requires
        0 <= k < toks.len(),
        parse_token_spec(toks[k]) is Err,
    ensures
        parse_all(toks) is Err,
    decreases toks.len(),
{
    if k < toks.len() - 1 {
        assert(toks.drop_last()[k] == toks[k]);
        lemma_parse_all_err_anywhere(toks.drop_last(), k);
    }
}

/// One token that names no option, or whose value is refused, makes the whole option
/// string fail, wherever it stands.
pub proof fn law_bad_token_fails_all(s: Seq<char>, k: int)
    requires
        0 <= k < parameter_tokens(s).len(),
        parse_token_spec(parameter_tokens(s)[k]) is Err,
    ensures
        parse_parameter_spec(Some(s)) is Err,
{
    lemma_parse_all_err_anywhere(parameter_tokens(s), k);
}

/// The deprecated `markdown_only` changes nothing: an option string with it appended
/// means what the string means without it.
pub proof fn law_markdown_only_is_a_no_op(s: Seq<char>)
    ensures
        parse_parameter_spec(Some(s + ","@ + "markdown_only"@)) == parse_parameter_spec(Some(s)),
{
    reveal_strlit(",");
    reveal_strlit("markdown_only");
    let mo = "markdown_only"@;
    assert(s + ","@ + mo =~= s + seq![','] + mo);
    crate::text::lemma_split_on_concat(s, mo, ',');
    assert(!mo.contains(',')) by {
        if mo.contains(',') {
            let j = choose|j: int| 0 <= j < mo.len() && mo[j] == ',';
            assert(mo =~= seq!['m', 'a', 'r', 'k', 'd', 'o', 'w', 'n', '_', 'o', 'n', 'l', 'y']);
        }
    }
    crate::text::lemma_split_on_single(mo, ',');
    let ps = split_on(s, ',');
    let all = ps + seq![mo];
    assert(split_on(s + ","@ + mo, ',') == all);
    assert(all.drop_last() =~= ps);
    assert(trim(mo) == mo) by {
        assert(mo =~= seq!['m', 'a', 'r', 'k', 'd', 'o', 'w', 'n', '_', 'o', 'n', 'l', 'y']);
        assert(!crate::text::is_ws(mo[0]));
        assert(crate::text::trim_start(mo) == mo);
        assert(!crate::text::is_ws(mo.last()));
        assert(crate::text::trim_end(mo) == mo);
    }
    let ts = parameter_tokens(s);
    assert(parameter_tokens(s + ","@ + mo) == ts.push(mo));
    assert(ts.push(mo).drop_last() =~= ts);
    assert(parse_token_spec(mo) == Ok::<TokenSpec, OptionsErrorModel>(TokenSpec::MarkdownOnly)) by {
        assert(mo =~= seq!['m', 'a', 'r', 'k', 'd', 'o', 'w', 'n', '_', 'o', 'n', 'l', 'y']);
        reveal_strlit("book_root=");
        lemma_not_prefix_at(mo, "book_root="@, 0);
        reveal_strlit("markdown_root=");
        lemma_not_prefix_at(mo, "markdown_root="@, 13);
        reveal_strlit("summary_path=");
        lemma_not_prefix_at(mo, "summary_path="@, 0);
        reveal_strlit("book=");
        lemma_not_prefix_at(mo, "book="@, 0);
        reveal_strlit("mdbook_out=");
        lemma_not_prefix_at(mo, "mdbook_out="@, 1);
        reveal_strlit("title=");
        lemma_not_prefix_at(mo, "title="@, 0);
        reveal_strlit("ignore=");
        lemma_not_prefix_at(mo, "ignore="@, 0);
        reveal_strlit("proto_path=");
        lemma_not_prefix_at(mo, "proto_path="@, 0);
        reveal_strlit("layout=");
        lemma_not_prefix_at(mo, "layout="@, 0);
        reveal_strlit("escape_tags=");
        lemma_not_prefix_at(mo, "escape_tags="@, 0);
        reveal_strlit("escape_tags");
        reveal_strlit("init");
        reveal_strlit("summary");
        reveal_strlit("no_proto_highlight");
        reveal_strlit("no_cel_highlight");
        reveal_strlit("no_proto_markdown");
        assert(mo != "escape_tags"@ && mo != "init"@ && mo != "summary"@);
        assert(mo != "no_proto_highlight"@ && mo != "no_cel_highlight"@ && mo != "no_proto_markdown"@);
    }
    match parse_all(ts) {
        Ok(pts) => {
            let pts2 = pts.push(TokenSpec::MarkdownOnly);
            assert(pts2.drop_last() =~= pts);
            assert(apply_all(default_model(), pts2) == apply_all(default_model(), pts));
            assert(pts2.contains(TokenSpec::Theme) == pts.contains(TokenSpec::Theme)) by {
                if pts2.contains(TokenSpec::Theme) {
                    let j = choose|j: int| 0 <= j < pts2.len() && pts2[j] == TokenSpec::Theme;
                    assert(j < pts.len());
                    assert(pts[j] == TokenSpec::Theme);
                }
                if pts.contains(TokenSpec::Theme) {
                    let j = choose|j: int| 0 <= j < pts.len() && pts[j] == TokenSpec::Theme;
                    assert(pts2[j] == TokenSpec::Theme);
                }
            }
        },
        Err(_) => {},
    }
}

/// An error in a prefix of the tokens is the error of the whole list.
proof fn lemma_parse_all_err_prefix(toks: Seq<Seq<char>>, k: int)
    requires
        0 <= k <= toks.len(),
        parse_all(toks.take(k)) is Err,
    ensures
        parse_all(toks) == parse_all(toks.take(k)),
    decreases toks.len() - k,
{
    if k < toks.len() {
        assert(toks.take(k + 1).drop_last() =~= toks.take(k));
        lemma_parse_all_err_prefix(toks, k + 1);
    } else {
        assert(toks.take(k) =~= toks);
    }
}

/// `[f]` when `b`, else nothing.
pub open spec fn flag(b: bool, f: Seq<char>) -> Seq<Seq<char>> {
    if b {
        seq![f]
    } else {
        Seq::<Seq<char>>::empty()
    }
}

/// `[f, v]` when `b`, else nothing.
pub open spec fn kv(b: bool, f: Seq<char>, v: Seq<char>) -> Seq<Seq<char>> {
    if b {
        seq![f, v]
    } else {
        Seq::<Seq<char>>::empty()
    }
}

/// `[f, v]` when `o` is `Some(v)`, else nothing.
pub open spec fn opt_kv(o: Option<Seq<char>>, f: Seq<char>) -> Seq<Seq<char>> {
    match o {
        Some(v) => seq![f, v],
        None => Seq::<Seq<char>>::empty(),
    }
}

/// Option value naming a layout.
pub open spec fn layout_name_spec(l: Layout) -> Seq<char> {
    match l {
        Layout::Package => "package"@,
        Layout::Entity => "entity"@,
        Layout::Split => "split"@,
    }
}

/// CLI form of `escape_tags`.
pub open spec fn escape_args(e: EscapeTags) -> Seq<Seq<char>> {
    match e {
        EscapeTags::Off => Seq::<Seq<char>>::empty(),
        EscapeTags::Backticks => seq!["--escape-tags"@],
        EscapeTags::Entities => seq!["--escape-tags"@, "entities"@],
    }
}

/// CLI flags for mode and layout.
pub open spec fn cli_head(m: OptionsModel) -> Seq<Seq<char>> {
    flag(m.init, "--init"@) + flag(m.summary, "--summary"@) + kv(
        m.layout != Layout::Package,
        "--layout"@,
        layout_name_spec(m.layout),
    )
}

/// CLI flags for explicit paths and the title.
pub open spec fn cli_paths(m: OptionsModel) -> Seq<Seq<char>> {
    kv(m.explicit_book_root, "--book-root"@, m.book_root) + opt_kv(m.book, "--book"@) + kv(
        m.explicit_markdown_root,
        "--markdown-root"@,
        m.markdown_root,
    ) + kv(m.explicit_summary_path, "--summary-path"@, m.summary_path) + opt_kv(
        m.title,
        "--title"@,
    )
}

/// CLI flags for init switches and tag escaping.
pub open spec fn cli_tail(m: OptionsModel) -> Seq<Seq<char>> {
    kv(!m.ignore_git, "--ignore"@, "none"@) + flag(m.no_proto_highlight, "--no-proto-highlight"@)
        + flag(m.no_cel_highlight, "--no-cel-highlight"@) + flag(
        m.no_proto_markdown,
        "--no-proto-markdown"@,
    ) + escape_args(m.escape_tags)
}

/// Native `protobuf-mdbook` argv for options (excluding `-o`, `-I`, and inputs).
pub open spec fn cli_args_spec(m: OptionsModel) -> Seq<Seq<char>> {
    cli_head(m) + cli_paths(m) + cli_tail(m)
}

/// Option value naming a layout.
pub fn layout_name(layout: Layout) -> (r: &'static str)
    ensures
        r@ == layout_name_spec(layout),
{
    match layout {
        Layout::Package => "package",
        Layout::Entity => "entity",
        Layout::Split => "split",
    }
}

/// Appends `flag` when `enabled`.
fn push_bool_flag(args: &mut Vec<String>, enabled: bool, f: &str)
    ensures
        views(final(args)@) == views(old(args)@) + flag(enabled, f@),
{
    let ghost before = args@;
    if enabled {
        args.push(to_string(f));
    }
    assert(views(args@) =~= views(before) + flag(enabled, f@));
}

/// Appends `flag value` when `enabled`.
fn push_kv(args: &mut Vec<String>, enabled: bool, f: &str, value: &str)
    ensures
        views(final(args)@) == views(old(args)@) + kv(enabled, f@, value@),
{
    let ghost before = args@;
    if enabled {
        args.push(to_string(f));
        args.push(to_string(value));
    }
    assert(views(args@) =~= views(before) + kv(enabled, f@, value@));
}

/// Appends `flag value` when `value` is present.
fn push_opt_kv(args: &mut Vec<String>, f: &str, value: &Option<String>)
    ensures
        views(final(args)@) == views(old(args)@) + opt_kv(opt_view(*value), f@),
{
    let ghost before = args@;
    if let Some(v) = value {
        args.push(to_string(f));
        args.push(v.clone());
    }
    assert(views(args@) =~= views(before) + opt_kv(opt_view(*value), f@));
}

fn push_cli_head(args: &mut Vec<String>, opts: &Options)
    ensures
        views(final(args)@) == views(old(args)@) + cli_head(opts@),
{
    let ghost a0 = views(args@);
    push_bool_flag(args, opts.init, "--init");
    push_bool_flag(args, opts.summary, "--summary");
    push_kv(args, opts.layout != Layout::Package, "--layout", layout_name(opts.layout));
    assert(views(args@) =~= a0 + cli_head(opts@));
}

fn push_cli_paths(args: &mut Vec<String>, opts: &Options)
    ensures
        views(final(args)@) == views(old(args)@) + cli_paths(opts@),
{
    let ghost a0 = views(args@);
    push_kv(args, opts.explicit_book_root, "--book-root", opts.book_root.as_str());
    push_opt_kv(args, "--book", &opts.book);
    push_kv(args, opts.explicit_markdown_root, "--markdown-root", opts.markdown_root.as_str());
    push_kv(args, opts.explicit_summary_path, "--summary-path", opts.summary_path.as_str());
    push_opt_kv(args, "--title", &opts.title);
    assert(views(args@) =~= a0 + cli_paths(opts@));
}

fn push_cli_tail(args: &mut Vec<String>, opts: &Options)
    ensures
        views(final(args)@) == views(old(args)@) + cli_tail(opts@),
{
    let ghost a0 = views(args@);
    push_kv(args, !opts.ignore_git, "--ignore", "none");
    push_bool_flag(args, opts.no_proto_highlight, "--no-proto-highlight");
    push_bool_flag(args, opts.no_cel_highlight, "--no-cel-highlight");
    push_bool_flag(args, opts.no_proto_markdown, "--no-proto-markdown");
    let ghost a1 = views(args@);
    match opts.escape_tags {
        EscapeTags::Off => {},
        EscapeTags::Backticks => {
            args.push(to_string("--escape-tags"));
        },
        EscapeTags::Entities => {
            push_kv(args, true, "--escape-tags", "entities");
        },
    }
    assert(views(args@) =~= a1 + escape_args(opts.escape_tags));
    assert(views(args@) =~= a0 + cli_tail(opts@));
}

/// Map options to native `protobuf-mdbook` argv tokens (excluding `-o`, `-I`, inputs).
pub fn options_to_cli_args(opts: &Options) -> (args: Vec<String>)
    ensures
        views(args@) == cli_args_spec(opts@),
{
    let mut args: Vec<String> = Vec::new();
    assert(views(args@) =~= Seq::<Seq<char>>::empty());
    push_cli_head(&mut args, opts);
    assert(views(args@) =~= cli_head(opts@));
    push_cli_paths(&mut args, opts);
    push_cli_tail(&mut args, opts);
    args
}

/// Fields collected from native `protobuf-mdbook` flags.
#[derive(Clone, Debug)]
pub struct CliOptionsInput {
    pub init: bool,
    pub summary: bool,
    pub layout: Layout,
    pub book_root: Option<String>,
    pub book: Option<String>,
    pub markdown_root: Option<String>,
    pub summary_path: Option<String>,
    pub title: Option<String>,
    pub ignore_git: bool,
    pub no_proto_highlight: bool,
    pub no_cel_highlight: bool,
    pub no_proto_markdown: bool,
    pub escape_tags: EscapeTags,
}

impl Default for CliOptionsInput {
    fn default() -> (r: Self)
        ensures
            !r.init && !r.summary && r.layout == Layout::Package && r.book_root is None
                && r.book is None && r.markdown_root is None && r.summary_path is None
                && r.title is None && r.ignore_git && !r.no_proto_highlight
                && !r.no_cel_highlight && !r.no_proto_markdown && r.escape_tags
                == EscapeTags::Off,
    {
        CliOptionsInput {
            init: false,
            summary: false,
            layout: Layout::Package,
            book_root: None,
            book: None,
            markdown_root: None,
            summary_path: None,
            title: None,
            ignore_git: true,
            no_proto_highlight: false,
            no_cel_highlight: false,
            no_proto_markdown: false,
            escape_tags: EscapeTags::Off,
        }
    }
}

/// Options set directly from CLI flags, before path options.
pub open spec fn cli_base_model(input: CliOptionsInput) -> OptionsModel {
    OptionsModel {
        init: input.init,
        summary: input.summary,
        layout: input.layout,
        book: opt_view(input.book),
        title: opt_view(input.title),
        ignore_git: input.ignore_git,
        no_proto_highlight: input.no_proto_highlight,
        no_cel_highlight: input.no_cel_highlight,
        no_proto_markdown: input.no_proto_markdown,
        escape_tags: input.escape_tags,
        ..default_model()
    }
}

/// Which path option a CLI value sets.
pub enum PathOption {
    BookRoot,
    MarkdownRoot,
    SummaryPath,
}

/// The default value of a path option.
pub open spec fn path_default(which: PathOption) -> Seq<char> {
    match which {
        PathOption::BookRoot => seq!['.'],
        PathOption::MarkdownRoot => "src/packages"@,
        PathOption::SummaryPath => "src/SUMMARY.md"@,
    }
}

/// The token that sets path option `which` to `n`.
pub open spec fn path_token(which: PathOption, n: Seq<char>) -> TokenSpec {
    match which {
        PathOption::BookRoot => TokenSpec::BookRoot(n),
        PathOption::MarkdownRoot => TokenSpec::MarkdownRoot(n),
        PathOption::SummaryPath => TokenSpec::SummaryPath(n),
    }
}

/// Applies an optional CLI path value to a pending result.
pub open spec fn with_path(
    r: Result<OptionsModel, OptionsErrorModel>,
    v: Option<Seq<char>>,
    which: PathOption,
) -> Result<OptionsModel, OptionsErrorModel> {
    match r {
        Err(e) => Err(e),
        Ok(m) => match v {
            None => Ok(m),
            Some(raw) => match normalize_spec(raw, path_default(which)) {
                Ok(n) => Ok(apply_token_spec(m, path_token(which, n))),
                Err(a) => Err(path_error(a, raw)),
            },
        },
    }
}

/// What native CLI flags mean.
pub open spec fn build_from_cli_spec(input: CliOptionsInput) -> Result<OptionsModel, OptionsErrorModel> {
    let r = with_path(
        with_path(
            with_path(
                Ok(cli_base_model(input)),
                opt_view(input.book_root),
                PathOption::BookRoot,
            ),
            opt_view(input.markdown_root),
            PathOption::MarkdownRoot,
        ),
        opt_view(input.summary_path),
        PathOption::SummaryPath,
    );
    match r {
        Err(e) => Err(e),
        Ok(m) => match validate_spec(m) {
            Some(e) => Err(e),
            None => Ok(m),
        },
    }
}

/// Build validated options from native CLI flags.
#[verifier::rlimit(100)]
pub fn build_options_from_cli(input: CliOptionsInput) -> (r: Result<Options, OptionsError>)
    ensures
        options_result_view(r) == build_from_cli_spec(input),
        r matches Ok(o) ==> valid_model(o@),
{
    let ghost inp = input;
    let mut opts = Options::new_default();
    opts.init = input.init;
    opts.summary = input.summary;
    opts.layout = input.layout;
    opts.book = input.book;
    opts.title = input.title;
    opts.ignore_git = input.ignore_git;
    opts.no_proto_highlight = input.no_proto_highlight;
    opts.no_cel_highlight = input.no_cel_highlight;
    opts.no_proto_markdown = input.no_proto_markdown;
    opts.escape_tags = input.escape_tags;
    assert(opts@ == cli_base_model(inp));
    if let Some(v) = input.book_root {
        let vv = chars_of(v.as_str());
        match path_value(&vv, ".") {
            Ok(n) => {
                proof {
                    reveal_strlit(".");
                    assert(seq!['.'] =~= "."@);
                }
                apply_parsed(&mut opts, ParsedToken::BookRoot(n));
            },
            Err(e) => {
                proof {
                    reveal_strlit(".");
                    assert(seq!['.'] =~= "."@);
                }
                return Err(e);
            },
        }
    }
    let ghost r1 = with_path(Ok(cli_base_model(inp)), opt_view(inp.book_root), PathOption::BookRoot);
    assert(r1 == Ok::<OptionsModel, OptionsErrorModel>(opts@));
    if let Some(v) = input.markdown_root {
        let vv = chars_of(v.as_str());
        match path_value(&vv, default_markdown_root()) {
            Ok(n) => apply_parsed(&mut opts, ParsedToken::MarkdownRoot(n)),
            Err(e) => return Err(e),
        }
    }
    let ghost r2 = with_path(r1, opt_view(inp.markdown_root), PathOption::MarkdownRoot);
    assert(r2 == Ok::<OptionsModel, OptionsErrorModel>(opts@));
    if let Some(v) = input.summary_path {
        let vv = chars_of(v.as_str());
        match path_value(&vv, default_summary_path()) {
            Ok(n) => apply_parsed(&mut opts, ParsedToken::SummaryPath(n)),
            Err(e) => return Err(e),
        }
    }
    match validate_options(&opts) {
        Ok(()) => Ok(opts),
        Err(e) => Err(e),
    }
}

/// Parse a protoc-style option string and emit equivalent CLI argv tokens.
pub fn parameter_to_cli_args(param: &str) -> (r: Result<Vec<String>, OptionsError>)
    ensures
        match parse_parameter_spec(Some(param@)) {
            Ok(m) => r matches Ok(args) && views(args@) == cli_args_spec(m),
            Err(e) => r matches Err(x) && x@ == e,
        },
{
    let p = Some(to_string(param));
    match parse_parameter(&p) {
        Ok(opts) => Ok(options_to_cli_args(&opts)),
        Err(e) => Err(e),
    }
}

/// Whether a parameter string uses the deprecated `markdown_only` token (the caller
/// warns about it).
pub fn markdown_only_used(param: &str) -> (r: bool)
    ensures
        r == parameter_tokens(param@).contains("markdown_only"@),
{
    let toks = parameter_token_list(param);
    let ghost tv = toks@.map_values(|x: Vec<char>| x@);
    let mo = chars_of("markdown_only");
    let mut i: usize = 0;
    while i < toks.len()
        invariant
            i <= toks.len(),
            mo@ == "markdown_only"@,
            tv == parameter_tokens(param@),
            tv == toks@.map_values(|x: Vec<char>| x@),
            forall|j: int| 0 <= j < i ==> tv[j] != "markdown_only"@,
        decreases toks.len() - i,
    {
        assert(tv[i as int] == toks@[i as int]@);
        if chars_eq(&toks[i], &mo) {
            assert(tv.contains("markdown_only"@));
            return true;
        }
        i = i + 1;
    }
    false
}

/// Options once the book's `[book] src` is known (from `book=`): API markdown under
/// `{src}/packages` and the SUMMARY at `{src}/SUMMARY.md`, each unless set explicitly.
pub open spec fn book_src_spec(m: OptionsModel, src: Seq<char>) -> OptionsModel {
    OptionsModel {
        markdown_root: if m.explicit_markdown_root {
            m.markdown_root
        } else {
            crate::proto_deps::join_spec(src, "packages"@)
        },
        summary_path: if m.explicit_summary_path {
            m.summary_path
        } else {
            crate::proto_deps::join_spec(src, "SUMMARY.md"@)
        },
        ..m
    }
}

/// Applies the book's `[book] src` to the options.
pub fn apply_book_src(opts: &mut Options, src: &str)
    ensures
        final(opts)@ == book_src_spec(old(opts)@, src@),
{
    if !opts.explicit_markdown_root {
        opts.markdown_root = crate::proto_deps::join_path(src, "packages");
    }
    if !opts.explicit_summary_path {
        opts.summary_path = crate::proto_deps::join_path(src, "SUMMARY.md");
    }
}

/// The `book.toml` that `book=` names: the path itself when it names a file called
/// `book.toml`, else `book.toml` inside it.
pub open spec fn book_toml_spec(book: Seq<char>) -> Seq<char> {
    if crate::proto_deps::file_name_spec(book) == Some("book.toml"@) {
        book
    } else {
        crate::proto_deps::join_spec(book, "book.toml"@)
    }
}

/// The `book.toml` that `book=` names.
pub fn book_toml_path(book: &str) -> (r: String)
    ensures
        r@ == book_toml_spec(book@),
{
    let named = match crate::proto_deps::file_name_of(book) {
        Some(n) => crate::text::str_eq(n.as_str(), "book.toml"),
        None => false,
    };
    if named {
        to_string(book)
    } else {
        crate::proto_deps::join_path(book, "book.toml")
    }
}


/// When every token of an option string names an option, the string is refused exactly
/// when the options it sets break an init-only rule (a highlight switch, a title,
/// `ignore=none` or `theme` without `init`); otherwise it means the default options
/// with each token applied in order, a later token overriding an earlier one.
pub proof fn law_parameter_refused_only_by_init_rules(s: Seq<char>)
    requires
        parse_all(parameter_tokens(s)) is Ok,
    ensures
        ({
            let ts = parse_all(parameter_tokens(s))->Ok_0;
            let m = apply_all(default_model(), ts);
            &&& parse_parameter_spec(Some(s)) is Err <==> (!m.init && (m.no_proto_highlight || m.no_cel_highlight
                || m.title is Some || !m.ignore_git || ts.contains(TokenSpec::Theme)))
            &&& parse_parameter_spec(Some(s)) is Ok ==> parse_parameter_spec(Some(s)) == Ok::<
                OptionsModel,
                OptionsErrorModel,
            >(m)
        }),
{
}

/// Without path flags, native CLI flags are refused exactly when they break an
/// init-only rule; otherwise the options are the flags as given, with the default
/// paths (book root `.`).
pub proof fn law_cli_flags_without_paths(input: CliOptionsInput)
    requires
        input.book_root is None,
        input.markdown_root is None,
        input.summary_path is None,
    ensures
        build_from_cli_spec(input) is Err <==> (!input.init && (input.title is Some || input.no_proto_highlight
            || input.no_cel_highlight || !input.ignore_git)),
        build_from_cli_spec(input) is Ok ==> build_from_cli_spec(input) == Ok::<OptionsModel, OptionsErrorModel>(
            cli_base_model(input),
        ),
        cli_base_model(input).book_root == seq!['.'],
{
}

/// The native argv of options lists, in this order and only where it applies:
/// `--init`, `--summary`, `--layout N`, `--book-root`, `--book`, `--markdown-root`,
/// `--summary-path`, `--title`, `--ignore none`, the three `--no-*` switches, and
/// `--escape-tags [entities]`.
pub proof fn law_cli_args_order(m: OptionsModel)
    ensures
        cli_args_spec(m) == flag(m.init, "--init"@) + flag(m.summary, "--summary"@) + kv(
            m.layout != Layout::Package,
            "--layout"@,
            layout_name_spec(m.layout),
        ) + kv(m.explicit_book_root, "--book-root"@, m.book_root) + opt_kv(m.book, "--book"@) + kv(
            m.explicit_markdown_root,
            "--markdown-root"@,
            m.markdown_root,
        ) + kv(m.explicit_summary_path, "--summary-path"@, m.summary_path) + opt_kv(m.title, "--title"@) + kv(
            !m.ignore_git,
            "--ignore"@,
            "none"@,
        ) + flag(m.no_proto_highlight, "--no-proto-highlight"@) + flag(m.no_cel_highlight, "--no-cel-highlight"@)
            + flag(m.no_proto_markdown, "--no-proto-markdown"@) + escape_args(m.escape_tags),
{
    let h = cli_head(m);
    let p1 = kv(m.explicit_book_root, "--book-root"@, m.book_root);
    let a5 = opt_kv(m.book, "--book"@);
    let a6 = kv(m.explicit_markdown_root, "--markdown-root"@, m.markdown_root);
    let a7 = kv(m.explicit_summary_path, "--summary-path"@, m.summary_path);
    let a8 = opt_kv(m.title, "--title"@);
    vstd::seq_lib::lemma_concat_associative(h, p1, a5);
    vstd::seq_lib::lemma_concat_associative(h, p1 + a5, a6);
    vstd::seq_lib::lemma_concat_associative(h, p1 + a5 + a6, a7);
    vstd::seq_lib::lemma_concat_associative(h, p1 + a5 + a6 + a7, a8);
    let hp = h + cli_paths(m);
    let t1 = kv(!m.ignore_git, "--ignore"@, "none"@);
    let b2 = flag(m.no_proto_highlight, "--no-proto-highlight"@);
    let b3 = flag(m.no_cel_highlight, "--no-cel-highlight"@);
    let b4 = flag(m.no_proto_markdown, "--no-proto-markdown"@);
    let b5 = escape_args(m.escape_tags);
    vstd::seq_lib::lemma_concat_associative(hp, t1, b2);
    vstd::seq_lib::lemma_concat_associative(hp, t1 + b2, b3);
    vstd::seq_lib::lemma_concat_associative(hp, t1 + b2 + b3, b4);
    vstd::seq_lib::lemma_concat_associative(hp, t1 + b2 + b3 + b4, b5);
}

} // verus!
