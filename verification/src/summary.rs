//! `SUMMARY.md` navigation for the generated documentation.

use crate::comments::files_view;
use crate::descriptor::FileDesc;
use crate::links::{package_index_spec, package_page_spec, relative_path, EntityKind, LinkContext};
use crate::options::{Layout, Options};
use crate::paths::{join_book_root_spec, parent_dir, parent_path, relative_path_spec};
use crate::proto_markdown::{companion_view, CompanionDoc, CompanionView};
use crate::proto_syntax::or_default;
use crate::render::{
    entity_page_rel, entity_visits, for_each_entity_in_files, groups_view, visit_view,
    visits_linkable, EntityVisit, PackageGroup,
};
use crate::text::{push_char, starts_with, to_string};
use vstd::prelude::*;

verus! {

/// Book title used when none is configured.
pub fn default_book_title() -> (r: &'static str)
    ensures
        r@ == default_title_spec(),
{
    "Protobuf documentation"
}

/// Book title used when none is configured.
pub open spec fn default_title_spec() -> Seq<char> {
    "Protobuf documentation"@
}

/// A nested SUMMARY link.
pub struct SummaryLeaf {
    pub name: String,
    pub location: String,
}

/// A top-level SUMMARY entry: a link (or a draft chapter without a location) and the
/// links nested under it.
pub struct SummaryChapter {
    pub name: String,
    pub location: Option<String>,
    pub nested: Vec<SummaryLeaf>,
}

/// A SUMMARY: title and chapters.
pub struct Summary {
    pub title: Option<String>,
    pub chapters: Vec<SummaryChapter>,
}

/// A chapter as plain values.
pub type ChapterView = (Seq<char>, Option<Seq<char>>, Seq<(Seq<char>, Seq<char>)>);

/// Nested links as plain values.
pub open spec fn leaves_view(ls: Seq<SummaryLeaf>) -> Seq<(Seq<char>, Seq<char>)> {
    ls.map_values(|l: SummaryLeaf| (l.name@, l.location@))
}

/// A chapter as plain values.
pub open spec fn chapter_view(c: SummaryChapter) -> ChapterView {
    (
        c.name@,
        match c.location {
            Some(l) => Some(l@),
            None => None,
        },
        leaves_view(c.nested@),
    )
}

/// `  - [name](location)` lines.
pub open spec fn leaves_md(ls: Seq<(Seq<char>, Seq<char>)>) -> Seq<char>
    decreases ls.len(),
{
    if ls.len() == 0 {
        Seq::<char>::empty()
    } else {
        leaves_md(ls.drop_last()) + "  - ["@ + ls.last().0 + "]("@ + ls.last().1 + ")\n"@
    }
}

/// `- [name](location)` and the nested lines of a chapter.
pub open spec fn chapter_md(c: ChapterView) -> Seq<char> {
    "- ["@ + c.0 + "]("@ + (match c.1 {
        Some(l) => l,
        None => Seq::<char>::empty(),
    }) + ")\n"@ + leaves_md(c.2)
}

/// Every chapter in order.
pub open spec fn chapters_md(cs: Seq<ChapterView>) -> Seq<char>
    decreases cs.len(),
{
    if cs.len() == 0 {
        Seq::<char>::empty()
    } else {
        chapters_md(cs.drop_last()) + chapter_md(cs.last())
    }
}

/// SUMMARY markdown: `# title` and a blank line, then the chapter list.
pub open spec fn summary_md(title: Option<Seq<char>>, cs: Seq<ChapterView>) -> Seq<char> {
    (match title {
        Some(t) => "# "@ + t + "\n\n"@,
        None => Seq::<char>::empty(),
    }) + chapters_md(cs)
}

fn push_chapter(out: &mut String, c: &SummaryChapter)
    ensures
        final(out)@ == old(out)@ + chapter_md(chapter_view(*c)),
{
    out.append("- [");
    out.append(c.name.as_str());
    out.append("](");
    match &c.location {
        Some(l) => out.append(l.as_str()),
        None => {},
    }
    out.append(")\n");
    let ghost head = out@;
    let ghost lv = leaves_view(c.nested@);
    let mut i: usize = 0;
    while i < c.nested.len()
        invariant
            i <= c.nested.len(),
            lv == leaves_view(c.nested@),
            out@ == head + leaves_md(lv.take(i as int)),
        decreases c.nested.len() - i,
    {
        out.append("  - [");
        out.append(c.nested[i].name.as_str());
        out.append("](");
        out.append(c.nested[i].location.as_str());
        out.append(")\n");
        proof {
            assert(lv.take(i + 1).drop_last() =~= lv.take(i as int));
            assert(lv.take(i + 1).last() == (c.nested@[i as int].name@, c.nested@[i as int].location@));
        }
        i = i + 1;
        assert(out@ =~= head + leaves_md(lv.take(i as int)));
    }
    assert(lv.take(c.nested.len() as int) =~= lv);
    assert(out@ =~= old(out)@ + chapter_md(chapter_view(*c)));
}

/// SUMMARY markdown for `summary`.
pub fn render_summary_markdown(summary: &Summary) -> (r: String)
    ensures
        r@ == summary_md(
            match summary.title {
                Some(t) => Some(t@),
                None => None,
            },
            summary.chapters@.map_values(|c: SummaryChapter| chapter_view(c)),
        ),
{
    let mut out = String::new();
    match &summary.title {
        Some(t) => {
            out.append("# ");
            out.append(t.as_str());
            out.append("\n\n");
        },
        None => {},
    }
    let ghost head = out@;
    let ghost cv = summary.chapters@.map_values(|c: SummaryChapter| chapter_view(c));
    let mut i: usize = 0;
    while i < summary.chapters.len()
        invariant
            i <= summary.chapters.len(),
            cv == summary.chapters@.map_values(|c: SummaryChapter| chapter_view(c)),
            out@ == head + chapters_md(cv.take(i as int)),
        decreases summary.chapters.len() - i,
    {
        push_chapter(&mut out, &summary.chapters[i]);
        proof {
            assert(cv.take(i + 1).drop_last() =~= cv.take(i as int));
            assert(cv.take(i + 1).last() == chapter_view(summary.chapters@[i as int]));
        }
        i = i + 1;
    }
    assert(cv.take(summary.chapters.len() as int) =~= cv);
    out
}

/// Link from the SUMMARY at `summary_from` to `target`.
pub open spec fn summary_path_spec(summary_from: Seq<char>, target: Seq<char>) -> Seq<char> {
    relative_path_spec(parent_path(summary_from), target)
}

/// Relative link path from the SUMMARY file to `target`.
pub fn link_path_for_summary(summary_from: &str, target: &str) -> (r: String)
    ensures
        r@ == summary_path_spec(summary_from@, target@),
{
    relative_path(parent_dir(summary_from).as_str(), target)
}

/// Page a package's SUMMARY entry points at: its package page, or under the entity
/// layouts its index page.
pub open spec fn package_target_spec(links: LinkContext, layout: Layout, pkg: Seq<char>) -> Seq<char> {
    match layout {
        Layout::Package => package_page_spec(links.markdown_root@, pkg),
        _ => package_index_spec(links.layout, links.markdown_root@, pkg),
    }
}

/// Page a package's SUMMARY entry points at.
pub fn package_target(links: &LinkContext, layout: Layout, package: &str) -> (r: String)
    ensures
        r@ == package_target_spec(*links, layout, package@),
{
    match layout {
        Layout::Package => links.package_page_rel(package),
        _ => links.package_index_rel(package),
    }
}

/// `Message Name`, `Enum Name` or `Service Name`.
pub open spec fn entity_title(kind: EntityKind, name: Seq<char>) -> Seq<char> {
    match kind {
        EntityKind::Message => "Message "@ + name,
        EntityKind::Enum => "Enum "@ + name,
        EntityKind::Service => "Service "@ + name,
    }
}

/// Entity links of a package for SUMMARY, in link and SUMMARY order.
pub open spec fn entity_items_spec(
    links: LinkContext,
    pkg: Seq<char>,
    from: Seq<char>,
    vs: Seq<(EntityKind, Seq<char>, int, int)>,
) -> Seq<(Seq<char>, Seq<char>)> {
    vs.map_values(
        |v: (EntityKind, Seq<char>, int, int)|
            (entity_title(v.0, v.1), summary_path_spec(from, entity_page_rel(links, pkg, v.0, v.1))),
    )
}

/// Entity links of a package for SUMMARY, in link and SUMMARY order.
pub fn entity_summary_items(
    package: &str,
    files: &Vec<(String, &FileDesc)>,
    links: &LinkContext,
    summary_from: &str,
) -> (r: Vec<SummaryLeaf>)
    requires
        visits_linkable(*links, package@, files_view(files@)),
    ensures
        leaves_view(r@) == entity_items_spec(*links, package@, summary_from@, entity_visits(files_view(files@))),
{
    let visits = for_each_entity_in_files(files);
    let ghost vv = visits@.map_values(|v: EntityVisit| visit_view(v));
    let mut out: Vec<SummaryLeaf> = Vec::new();
    let mut i: usize = 0;
    while i < visits.len()
        invariant
            i <= visits.len(),
            vv == visits@.map_values(|v: EntityVisit| visit_view(v)),
            vv == entity_visits(files_view(files@)),
            visits_linkable(*links, package@, files_view(files@)),
            leaves_view(out@) == entity_items_spec(*links, package@, summary_from@, vv.take(i as int)),
        decreases visits.len() - i,
    {
        let v = &visits[i];
        assert(vv[i as int] == visit_view(*v));
        assert(entity_visits(files_view(files@)).contains(vv[i as int]));
        let ghost before = leaves_view(out@);
        let target = match links.entity_path(package, v.kind, v.name.as_str()) {
            Some(p) => p,
            None => String::new(),
        };
        let path = link_path_for_summary(summary_from, target.as_str());
        let mut title = String::new();
        match v.kind {
            EntityKind::Message => title.append("Message "),
            EntityKind::Enum => title.append("Enum "),
            EntityKind::Service => title.append("Service "),
        }
        title.append(v.name.as_str());
        out.push(SummaryLeaf { name: title, location: path });
        i = i + 1;
        assert(leaves_view(out@) =~= entity_items_spec(*links, package@, summary_from@, vv.take(i as int))) by {
            assert(leaves_view(out@) =~= before.push(
                (
                    entity_title(vv[i - 1].0, vv[i - 1].1),
                    summary_path_spec(summary_from@, entity_page_rel(*links, package@, vv[i - 1].0, vv[i - 1].1)),
                ),
            ));
        }
    }
    assert(vv.take(visits.len() as int) =~= vv);
    out
}

/// One flat-layout chapter for a package.
pub open spec fn flat_chapter_spec(
    pkg: Seq<char>,
    files: Seq<(Seq<char>, FileDesc)>,
    layout: Layout,
    package_only: bool,
    links: LinkContext,
    from: Seq<char>,
) -> ChapterView {
    let index = summary_path_spec(from, package_index_spec(links.layout, links.markdown_root@, pkg));
    match layout {
        Layout::Package => (pkg, Some(summary_path_spec(from, package_page_spec(links.markdown_root@, pkg))), Seq::empty()),
        Layout::Split => if package_only {
            (pkg, Some(index), Seq::empty())
        } else {
            (pkg, Some(index), entity_items_spec(links, pkg, from, entity_visits(files)))
        },
        Layout::Entity => if package_only {
            (pkg, Some(index), Seq::empty())
        } else {
            (pkg, None, entity_items_spec(links, pkg, from, entity_visits(files)))
        },
    }
}

/// One flat-layout chapter for a package: a link to its page or index, with entity
/// links nested under it in the entity layouts (unless SUMMARY lists packages only).
pub fn flat_package_chapter(
    package: &str,
    files: &Vec<(String, &FileDesc)>,
    layout: Layout,
    package_only: bool,
    links: &LinkContext,
    summary_from: &str,
) -> (r: SummaryChapter)
    requires
        layout != Layout::Package && !package_only ==> visits_linkable(*links, package@, files_view(files@)),
    ensures
        chapter_view(r) == flat_chapter_spec(package@, files_view(files@), layout, package_only, *links, summary_from@),
{
    let r = match layout {
        Layout::Package => {
            let target = links.package_page_rel(package);
            SummaryChapter {
                name: to_string(package),
                location: Some(link_path_for_summary(summary_from, target.as_str())),
                nested: Vec::new(),
            }
        },
        _ => {
            let target = links.package_index_rel(package);
            let index = link_path_for_summary(summary_from, target.as_str());
            if package_only {
                SummaryChapter { name: to_string(package), location: Some(index), nested: Vec::new() }
            } else {
                let nested = entity_summary_items(package, files, links, summary_from);
                match layout {
                    Layout::Split => SummaryChapter { name: to_string(package), location: Some(index), nested },
                    _ => SummaryChapter { name: to_string(package), location: None, nested },
                }
            }
        },
    };
    assert(leaves_view(Seq::<SummaryLeaf>::empty()) =~= Seq::empty());
    r
}

/// Flat chapters of every package, packages in order.
pub open spec fn flat_chapters_spec(
    m: Seq<PackageGroup>,
    layout: Layout,
    package_only: bool,
    links: LinkContext,
    from: Seq<char>,
) -> Seq<ChapterView> {
    m.map_values(|g: PackageGroup| flat_chapter_spec(g.0, g.1, layout, package_only, links, from))
}

/// Under the entity layouts with entity links listed, every package's entities have
/// pages in `links`.
pub open spec fn summary_linkable(m: Seq<PackageGroup>, layout: Layout, package_only: bool, links: LinkContext) -> bool {
    layout != Layout::Package && !package_only ==> forall|i: int|
        0 <= i < m.len() ==> visits_linkable(links, (#[trigger] m[i]).0, m[i].1)
}

/// One top-level chapter per package (flat layouts).
pub fn build_flat_summary_chapters(
    by_package: &Vec<(String, Vec<(String, &FileDesc)>)>,
    layout: Layout,
    package_only: bool,
    links: &LinkContext,
    summary_from: &str,
) -> (r: Vec<SummaryChapter>)
    requires
        summary_linkable(groups_view(by_package@), layout, package_only, *links),
    ensures
        r@.map_values(|c: SummaryChapter| chapter_view(c)) == flat_chapters_spec(
            groups_view(by_package@),
            layout,
            package_only,
            *links,
            summary_from@,
        ),
{
    let ghost gm = groups_view(by_package@);
    let mut out: Vec<SummaryChapter> = Vec::new();
    let mut i: usize = 0;
    while i < by_package.len()
        invariant
            i <= by_package.len(),
            gm == groups_view(by_package@),
            summary_linkable(gm, layout, package_only, *links),
            out@.map_values(|c: SummaryChapter| chapter_view(c)) == flat_chapters_spec(
                gm.take(i as int),
                layout,
                package_only,
                *links,
                summary_from@,
            ),
        decreases by_package.len() - i,
    {
        let ghost before = out@.map_values(|c: SummaryChapter| chapter_view(c));
        assert(gm[i as int] == (by_package@[i as int].0@, files_view(by_package@[i as int].1@)));
        let c = flat_package_chapter(by_package[i].0.as_str(), &by_package[i].1, layout, package_only, links, summary_from);
        out.push(c);
        i = i + 1;
        assert(out@.map_values(|c: SummaryChapter| chapter_view(c)) =~= flat_chapters_spec(
            gm.take(i as int),
            layout,
            package_only,
            *links,
            summary_from@,
        )) by {
            assert(out@.map_values(|c: SummaryChapter| chapter_view(c)) =~= before.push(
                flat_chapter_spec(gm[i - 1].0, gm[i - 1].1, layout, package_only, *links, summary_from@),
            ));
        }
    }
    assert(gm.take(by_package.len() as int) =~= gm);
    out
}

/// A companion's SUMMARY chapter: its title, linking to its copy under `markdown_root`.
pub open spec fn companion_chapter_spec(markdown_root: Seq<char>, from: Seq<char>, c: CompanionView) -> ChapterView {
    (c.1, Some(summary_path_spec(from, markdown_root + seq!['/'] + c.0)), Seq::empty())
}

/// H1 of the generated SUMMARY: the configured title in init mode, else the default.
pub open spec fn summary_title_spec(opts: Options) -> Seq<char> {
    if opts.init {
        or_default(opts.title, default_title_spec())
    } else {
        default_title_spec()
    }
}

/// Chapters of the generated SUMMARY: companion documents (unless disabled), then one
/// chapter per package.
pub open spec fn summary_chapters_spec(
    m: Seq<PackageGroup>,
    opts: Options,
    links: LinkContext,
    companions: Seq<CompanionView>,
) -> Seq<ChapterView> {
    (if opts.no_proto_markdown {
        Seq::empty()
    } else {
        companions.map_values(|c: CompanionView| companion_chapter_spec(opts.markdown_root@, opts.summary_path@, c))
    }) + flat_chapters_spec(m, opts.layout, opts.init, links, opts.summary_path@)
}

/// The SUMMARY file, when `summary` or `init` is set: `(path, markdown)`.
pub open spec fn summary_doc_spec(
    m: Seq<PackageGroup>,
    opts: Options,
    links: LinkContext,
    companions: Seq<CompanionView>,
) -> Option<(Seq<char>, Seq<char>)> {
    if !(opts.summary || opts.init) {
        None
    } else {
        Some(
            (
                join_book_root_spec(opts.book_root@, opts.summary_path@),
                summary_md(Some(summary_title_spec(opts)), summary_chapters_spec(m, opts, links, companions)),
            ),
        )
    }
}

/// Build SUMMARY navigation when `summary` or `init` is set.
pub fn render_summary(
    by_package: &Vec<(String, Vec<(String, &FileDesc)>)>,
    opts: &Options,
    links: &LinkContext,
    companions: &Vec<CompanionDoc>,
) -> (r: Option<(String, String)>)
    requires
        summary_linkable(groups_view(by_package@), opts.layout, opts.init, *links),
    ensures
        match summary_doc_spec(groups_view(by_package@), *opts, *links, companions@.map_values(|c: CompanionDoc| companion_view(c))) {
            Some(d) => r matches Some(p) && p.0@ == d.0 && p.1@ == d.1,
            None => r is None,
        },
{
    if !opts.render_summary() {
        return None;
    }
    let title = if opts.init {
        match &opts.title {
            Some(t) => to_string(t.as_str()),
            None => to_string(default_book_title()),
        }
    } else {
        to_string(default_book_title())
    };
    let mut chapters: Vec<SummaryChapter> = Vec::new();
    if !opts.no_proto_markdown {
        let mut i: usize = 0;
        while i < companions.len()
            invariant
                i <= companions.len(),
                chapters@.map_values(|c: SummaryChapter| chapter_view(c)) == companions@.take(i as int).map_values(
                    |c: CompanionDoc| companion_chapter_spec(opts.markdown_root@, opts.summary_path@, companion_view(c)),
                ),
            decreases companions.len() - i,
        {
            let ghost before = chapters@.map_values(|c: SummaryChapter| chapter_view(c));
            let c = &companions[i];
            let mut target = to_string(opts.markdown_root.as_str());
            push_char(&mut target, '/');
            target.append(c.output_rel.as_str());
            assert(target@ =~= opts.markdown_root@ + seq!['/'] + c.output_rel@);
            let loc = link_path_for_summary(opts.summary_path.as_str(), target.as_str());
            let ch = SummaryChapter { name: to_string(c.title.as_str()), location: Some(loc), nested: Vec::new() };
            assert(leaves_view(ch.nested@) =~= Seq::empty());
            assert(chapter_view(ch) == companion_chapter_spec(opts.markdown_root@, opts.summary_path@, companion_view(*c)));
            chapters.push(ch);
            i = i + 1;
            assert(chapters@.map_values(|c: SummaryChapter| chapter_view(c)) =~= companions@.take(i as int).map_values(
                |c: CompanionDoc| companion_chapter_spec(opts.markdown_root@, opts.summary_path@, companion_view(c)),
            )) by {
                assert(chapters@.map_values(|c: SummaryChapter| chapter_view(c)) =~= before.push(
                    companion_chapter_spec(opts.markdown_root@, opts.summary_path@, companion_view(companions@[i - 1])),
                ));
            }
        }
        assert(companions@.take(companions.len() as int) =~= companions@);
        assert(companions@.map_values(|c: CompanionDoc| companion_view(c)).map_values(
            |c: CompanionView| companion_chapter_spec(opts.markdown_root@, opts.summary_path@, c),
        ) =~= companions@.map_values(
            |c: CompanionDoc| companion_chapter_spec(opts.markdown_root@, opts.summary_path@, companion_view(c)),
        ));
    }
    let ghost head = chapters@.map_values(|c: SummaryChapter| chapter_view(c));
    let mut flat = build_flat_summary_chapters(by_package, opts.layout, opts.init, links, opts.summary_path.as_str());
    let ghost fv = flat@.map_values(|c: SummaryChapter| chapter_view(c));
    chapters.append(&mut flat);
    assert(chapters@.map_values(|c: SummaryChapter| chapter_view(c)) =~= head + fv);
    let summary = Summary { title: Some(title), chapters };
    let md = render_summary_markdown(&summary);
    Some((opts.output_path(opts.summary_path.as_str()), md))
}

/// What `mdbook_summary::parse_summary` reports on a SUMMARY text: `None` when the text
/// parses, else the text of its error.
pub uninterp spec fn summary_parse_error(text: Seq<char>) -> Option<Seq<char>>;

/// `mdbook_summary::parse_summary`, reduced to its error: `None` when the SUMMARY text
/// parses, else the error's text. Claimed: the result is `summary_parse_error` of the
/// text (the parser reads nothing but its argument).
#[verifier::external_body]
fn parse_summary_error(text: &str) -> (r: Option<String>)
    ensures
        match r {
            Some(m) => summary_parse_error(text@) == Some(m@),
            None => summary_parse_error(text@) is None,
        },
{
    match mdbook_summary::parse_summary(text) {
        Ok(_) => None,
        Err(e) => Some(format!("{e}")),
    }
}

/// The warning for a SUMMARY that mdBook cannot parse, from the parser's error.
pub open spec fn summary_warning_spec(parse_error: Option<Seq<char>>) -> Option<Seq<char>> {
    match parse_error {
        Some(e) => Some("protobuf-mdbook: warning: generated SUMMARY.md failed parse_summary: "@ + e),
        None => None,
    }
}

/// The warning for a SUMMARY that mdBook cannot parse, from the parser's error.
pub fn summary_warning(parse_error: Option<String>) -> (r: Option<String>)
    ensures
        match r {
            Some(w) => summary_warning_spec(match parse_error {
                Some(e) => Some(e@),
                None => None,
            }) == Some(w@),
            None => parse_error is None,
        },
{
    match parse_error {
        Some(e) => {
            let mut w = to_string("protobuf-mdbook: warning: generated SUMMARY.md failed parse_summary: ");
            w.append(e.as_str());
            Some(w)
        },
        None => None,
    }
}

/// The warning to print when mdBook cannot parse the rendered SUMMARY `text`, if any.
pub fn validate_summary_warn(text: &str) -> (r: Option<String>)
    ensures
        match r {
            Some(w) => summary_warning_spec(summary_parse_error(text@)) == Some(w@),
            None => summary_parse_error(text@) is None,
        },
{
    summary_warning(parse_summary_error(text))
}

/// The generated SUMMARY opens with `# {title}` and a blank line: the configured title
/// in init mode, else the default title.
pub proof fn law_summary_title(
    m: Seq<PackageGroup>,
    opts: Options,
    links: LinkContext,
    companions: Seq<CompanionView>,
)
    ensures
        summary_doc_spec(m, opts, links, companions) matches Some(d) ==> starts_with(
            d.1,
            "# "@ + summary_title_spec(opts) + "\n\n"@,
        ),
{
    match summary_doc_spec(m, opts, links, companions) {
        Some(d) => {
            let head = "# "@ + summary_title_spec(opts) + "\n\n"@;
            assert(d.1.take(head.len() as int) =~= head);
        },
        None => {},
    }
}


/// The word that opens the SUMMARY title of each kind of entity.
pub open spec fn kind_word(kind: EntityKind) -> Seq<char> {
    match kind {
        EntityKind::Message => "Message"@,
        EntityKind::Enum => "Enum"@,
        EntityKind::Service => "Service"@,
    }
}

/// Each SUMMARY entity entry is titled with its entity's kind word, a space and its
/// name (`Enum Mood` for an enum `Mood`), so entries of different kinds never share a
/// title; and it leads to that entity's page.
pub proof fn law_entity_items_titled_by_kind(
    links: LinkContext,
    pkg: Seq<char>,
    from: Seq<char>,
    vs: Seq<(EntityKind, Seq<char>, int, int)>,
)
    ensures
        entity_items_spec(links, pkg, from, vs).len() == vs.len(),
        forall|i: int|
            0 <= i < vs.len() ==> (#[trigger] entity_items_spec(links, pkg, from, vs)[i]).0 == kind_word(vs[i].0)
                + seq![' '] + vs[i].1,
        forall|i: int|
            0 <= i < vs.len() ==> (#[trigger] entity_items_spec(links, pkg, from, vs)[i]).1 == summary_path_spec(
                from,
                entity_page_rel(links, pkg, vs[i].0, vs[i].1),
            ),
        forall|i: int, j: int|
            0 <= i < vs.len() && 0 <= j < vs.len() && vs[i].0 != vs[j].0 ==> (#[trigger] entity_items_spec(
                links,
                pkg,
                from,
                vs,
            )[i]).0 != (#[trigger] entity_items_spec(links, pkg, from, vs)[j]).0,
{
    reveal_strlit("Message ");
    reveal_strlit("Enum ");
    reveal_strlit("Service ");
    reveal_strlit("Message");
    reveal_strlit("Enum");
    reveal_strlit("Service");
    let items = entity_items_spec(links, pkg, from, vs);
    assert forall|i: int| 0 <= i < vs.len() implies (#[trigger] items[i]).0 == kind_word(vs[i].0) + seq![' ']
        + vs[i].1 by {
        match vs[i].0 {
            EntityKind::Message => assert("Message "@ + vs[i].1 =~= "Message"@ + seq![' '] + vs[i].1),
            EntityKind::Enum => assert("Enum "@ + vs[i].1 =~= "Enum"@ + seq![' '] + vs[i].1),
            EntityKind::Service => assert("Service "@ + vs[i].1 =~= "Service"@ + seq![' '] + vs[i].1),
        }
    }
    assert forall|i: int, j: int|
        0 <= i < vs.len() && 0 <= j < vs.len() && vs[i].0 != vs[j].0 implies (#[trigger] items[i]).0
            != (#[trigger] items[j]).0 by {
        let a = items[i].0;
        let b = items[j].0;
        // The kind words differ in their first letter.
        assert(a[0] == kind_word(vs[i].0)[0]);
        assert(b[0] == kind_word(vs[j].0)[0]);
    }
}

} // verus!
