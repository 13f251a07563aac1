//! Where the files of a generation land.

use crate::descriptor::FileDesc;
use crate::generate::{
    companion_files_spec, companion_list_spec, filter_stubs, keys_under, lemma_docs_under, lemma_insert_under,
    lemma_set_all_under, lemma_under_prefix, links_for, markdown_prefix, output_files_spec,
};
use crate::init::set_all;
use crate::kvmap::{kv_insert, KvView};
use crate::links::LinkContext;
use crate::options::Options;
use crate::paths::join_book_root_spec;
use crate::proto_markdown::FoundMarkdown;
use crate::render::{docs_spec, packages_spec};
use crate::summary::summary_doc_spec;
use crate::text::starts_with;
use vstd::prelude::*;

verus! {

/// `{book_root}/`.
pub open spec fn root_prefix(opts: Options) -> Seq<char> {
    opts.book_root@ + seq!['/']
}

proof fn lemma_joined_under_root(opts: Options, rel: Seq<char>)
    requires
        !crate::paths::is_dot_root(opts.book_root@),
    ensures
        starts_with(join_book_root_spec(opts.book_root@, rel), root_prefix(opts)),
{
    let full = join_book_root_spec(opts.book_root@, rel);
    assert(full =~= root_prefix(opts) + rel);
    assert(full.take(root_prefix(opts).len() as int) =~= root_prefix(opts));
}

proof fn lemma_markdown_under_root(m: KvView, opts: Options)
    requires
        !crate::paths::is_dot_root(opts.book_root@),
        keys_under(m, markdown_prefix(opts)),
    ensures
        keys_under(m, root_prefix(opts)),
{
    let md = opts.markdown_root@ + seq!['/'];
    assert(markdown_prefix(opts) =~= root_prefix(opts) + md);
    assert forall|i: int| 0 <= i < m.len() implies starts_with(#[trigger] m[i].0, root_prefix(opts)) by {
        let k = m[i].0;
        let mp = markdown_prefix(opts);
        assert(starts_with(k, mp));
        assert(k.take(mp.len() as int) == mp);
        assert(k.take(root_prefix(opts).len() as int) =~= mp.take(root_prefix(opts).len() as int));
        assert(mp.take(root_prefix(opts).len() as int) =~= root_prefix(opts));
    }
}

proof fn lemma_init_map_under(opts: Options, files: Seq<(String, Option<String>)>)
    requires
        !crate::paths::is_dot_root(opts.book_root@),
    ensures
        keys_under(crate::init::init_map_spec(opts.book_root@, files), root_prefix(opts)),
    decreases files.len(),
{
    if files.len() > 0 {
        lemma_init_map_under(opts, files.drop_last());
        let m = crate::init::init_map_spec(opts.book_root@, files.drop_last());
        match files.last().1 {
            Some(s) => {
                lemma_joined_under_root(opts, files.last().0@);
                lemma_insert_under(m, join_book_root_spec(opts.book_root@, files.last().0@), s@, root_prefix(opts));
            },
            None => {},
        }
    }
}

proof fn lemma_book_comment_under(opts: Options, m: KvView, enabled: bool)
    requires
        !crate::paths::is_dot_root(opts.book_root@),
        keys_under(m, root_prefix(opts)),
    ensures
        keys_under(crate::init::book_comment_spec(opts.book_root@, m, enabled), root_prefix(opts)),
{
    let key = join_book_root_spec(opts.book_root@, "book.toml"@);
    lemma_joined_under_root(opts, "book.toml"@);
    match crate::kvmap::kv_get(m, key) {
        Some(b) => lemma_insert_under(m, key, b + crate::init::book_comment(enabled), root_prefix(opts)),
        None => lemma_insert_under(m, key, crate::text::trim_start(crate::init::book_comment(enabled)), root_prefix(opts)),
    }
}

proof fn lemma_inject_under(opts: Options, m: KvView)
    requires
        !crate::paths::is_dot_root(opts.book_root@),
        keys_under(m, root_prefix(opts)),
    ensures
        keys_under(crate::init::inject_spec(opts, opts.book_root@, m), root_prefix(opts)),
{
    let root = opts.book_root@;
    let pre = root_prefix(opts);
    let k1 = join_book_root_spec(root, "theme/highlight-protobuf.js"@);
    let k2 = join_book_root_spec(root, "theme/highlight-cel.js"@);
    let k3 = join_book_root_spec(root, "theme/index.hbs"@);
    lemma_joined_under_root(opts, "theme/highlight-protobuf.js"@);
    lemma_joined_under_root(opts, "theme/highlight-cel.js"@);
    lemma_joined_under_root(opts, "theme/index.hbs"@);
    let m1 = if crate::init::proto_on(opts) {
        kv_insert(m, k1, crate::init::proto_js_spec())
    } else {
        m
    };
    if crate::init::proto_on(opts) {
        lemma_insert_under(m, k1, crate::init::proto_js_spec(), pre);
    }
    let m2 = if crate::init::cel_on(opts) {
        kv_insert(m1, k2, crate::init::cel_js_spec())
    } else {
        m1
    };
    if crate::init::cel_on(opts) {
        lemma_insert_under(m1, k2, crate::init::cel_js_spec(), pre);
    }
    let m3 = match crate::kvmap::kv_get(m2, k3) {
        Some(ix) => kv_insert(m2, k3, crate::init::patched_index(ix, opts)),
        None => m2,
    };
    match crate::kvmap::kv_get(m2, k3) {
        Some(ix) => lemma_insert_under(m2, k3, crate::init::patched_index(ix, opts), pre),
        None => {},
    }
    lemma_book_comment_under(opts, m3, true);
}

/// With a `book_root` other than `.`, every file of a generation, whatever the options
/// (pages, companions, the SUMMARY, and in init mode the whole book), lies under
/// `{book_root}/`.
pub proof fn law_book_root_prefixes_all_output(
    proto: Seq<FileDesc>,
    names: Seq<Seq<char>>,
    opts: Options,
    links: LinkContext,
    cache: Seq<(String, String)>,
    found: Seq<FoundMarkdown>,
    init_files: Seq<(String, Option<String>)>,
)
    requires
        links_for(links, packages_spec(proto, names), opts),
        !crate::paths::is_dot_root(opts.book_root@),
    ensures
        keys_under(output_files_spec(proto, names, opts, links, cache, found, init_files), root_prefix(opts)),
{
    let gm = packages_spec(proto, names);
    let pre = root_prefix(opts);
    let mpre = markdown_prefix(opts);
    let comps = companion_list_spec(names, opts, found);
    lemma_docs_under(gm, opts, links, cache);
    let d = docs_spec(gm, opts, links, cache);
    assert(keys_under(Seq::<(Seq<char>, Seq<char>)>::empty(), mpre));
    lemma_set_all_under(Seq::empty(), d, mpre);
    let m1 = set_all(Seq::empty(), d);
    let cf = companion_files_spec(opts, comps, found);
    assert forall|i: int| 0 <= i < cf.len() implies starts_with(#[trigger] cf[i].0, mpre) by {
        lemma_under_prefix(opts, comps[i].0);
    }
    lemma_set_all_under(m1, cf, mpre);
    let m2 = set_all(m1, cf);
    lemma_markdown_under_root(m2, opts);
    let m3 = match summary_doc_spec(gm, opts, links, comps) {
        Some(x) => kv_insert(m2, x.0, x.1),
        None => m2,
    };
    match summary_doc_spec(gm, opts, links, comps) {
        Some(x) => {
            lemma_joined_under_root(opts, opts.summary_path@);
            lemma_insert_under(m2, x.0, x.1, pre);
        },
        None => {},
    }
    if opts.init {
        let root = opts.book_root@;
        let stubs = filter_stubs(opts, init_files);
        lemma_init_map_under(opts, stubs);
        let m0 = crate::init::init_map_spec(root, stubs);
        let mi = if crate::init::proto_on(opts) || crate::init::cel_on(opts) {
            crate::init::inject_spec(opts, root, m0)
        } else {
            crate::init::book_comment_spec(root, m0, false)
        };
        if crate::init::proto_on(opts) || crate::init::cel_on(opts) {
            lemma_inject_under(opts, m0);
        } else {
            lemma_book_comment_under(opts, m0, false);
        }
        lemma_set_all_under(mi, m3, pre);
        lemma_joined_under_root(opts, "README.md"@);
        lemma_insert_under(set_all(mi, m3), join_book_root_spec(root, "README.md"@), crate::init::readme_spec(opts), pre);
    }
}

/// Every key of `m` lies under `prefix` or is `extra`.
pub open spec fn keys_under_or(m: KvView, prefix: Seq<char>, extra: Seq<char>) -> bool {
    forall|i: int| 0 <= i < m.len() ==> starts_with(#[trigger] m[i].0, prefix) || m[i].0 == extra
}

proof fn lemma_insert_extra(m: KvView, k: Seq<char>, v: Seq<char>, prefix: Seq<char>)
    requires
        keys_under(m, prefix),
    ensures
        keys_under_or(kv_insert(m, k, v), prefix, k),
{
    let r = kv_insert(m, k, v);
    let i = crate::kvmap::kv_index(m, k);
    crate::kvmap::lemma_kv_index(m, k);
    crate::kvmap::lemma_kv_pos_bounds(m, k);
    if i >= 0 {
        assert forall|j: int| 0 <= j < r.len() implies starts_with(#[trigger] r[j].0, prefix) || r[j].0 == k by {
            if j != i {
                assert(r[j] == m[j]);
            }
        }
    } else {
        let p = crate::kvmap::kv_pos(m, k);
        assert forall|j: int| 0 <= j < r.len() implies starts_with(#[trigger] r[j].0, prefix) || r[j].0 == k by {
            if j < p {
                assert(r[j] == m[j]);
            } else if j > p {
                assert(r[j] == m[j - 1]);
            }
        }
    }
}

/// Without `init`, `summary` adds exactly one file to the default output: every file
/// lies under `{book_root}/{markdown_root}/`, except the SUMMARY at
/// `{book_root}/{summary_path}`, and that one only when `summary` is set.
pub proof fn law_summary_adds_only_the_summary(
    proto: Seq<FileDesc>,
    names: Seq<Seq<char>>,
    opts: Options,
    links: LinkContext,
    cache: Seq<(String, String)>,
    found: Seq<FoundMarkdown>,
    init_files: Seq<(String, Option<String>)>,
)
    requires
        links_for(links, packages_spec(proto, names), opts),
        !opts.init,
    ensures
        keys_under_or(
            output_files_spec(proto, names, opts, links, cache, found, init_files),
            markdown_prefix(opts),
            join_book_root_spec(opts.book_root@, opts.summary_path@),
        ),
        !opts.summary ==> keys_under(
            output_files_spec(proto, names, opts, links, cache, found, init_files),
            markdown_prefix(opts),
        ),
{
    let gm = packages_spec(proto, names);
    let mpre = markdown_prefix(opts);
    let sp = join_book_root_spec(opts.book_root@, opts.summary_path@);
    let comps = companion_list_spec(names, opts, found);
    lemma_docs_under(gm, opts, links, cache);
    let d = docs_spec(gm, opts, links, cache);
    assert(keys_under(Seq::<(Seq<char>, Seq<char>)>::empty(), mpre));
    lemma_set_all_under(Seq::empty(), d, mpre);
    let m1 = set_all(Seq::empty(), d);
    let cf = companion_files_spec(opts, comps, found);
    assert forall|i: int| 0 <= i < cf.len() implies starts_with(#[trigger] cf[i].0, mpre) by {
        lemma_under_prefix(opts, comps[i].0);
    }
    lemma_set_all_under(m1, cf, mpre);
    let m2 = set_all(m1, cf);
    match summary_doc_spec(gm, opts, links, comps) {
        Some(x) => {
            assert(x.0 == sp);
            lemma_insert_extra(m2, x.0, x.1, mpre);
        },
        None => {
            assert(keys_under_or(m2, mpre, sp));
        },
    }
}

} // verus!
