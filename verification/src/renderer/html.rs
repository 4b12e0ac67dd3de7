//! The site plan: which pages the site has, what each shows and where it is
//! written.  Rendering the templates and writing the files is left to the
//! caller, which follows the plan in order.

use vstd::prelude::*;
use crate::config::{Config, GiscusCommentsConfig};
use crate::date::{date_lt, Date};
use crate::parser::frontmatter::FrontMatter;
use crate::parser::markdown::{post_from_source, url_text, BlogPost, ContentKind, PostMetadata, Timestamp};
use crate::date::year_text;
use crate::renderer::template::{CommentsConfigTemplate, PageLink, PostNav};
use crate::sorting::{distinct, sort_indices, sorted_by, strict_total_on};
use crate::text::{
    compare_strings, decimal, drop_while, equal_ignoring_ascii_case, eq_ignore_ascii_case,
    lemma_str_lt_asymmetric, lemma_str_lt_irreflexive, lemma_str_lt_total,
    lemma_str_lt_transitive, str_eq, str_lt, views,
};

verus! {

broadcast use vstd::string::group_string_axioms;

/// A public item of the given kind (`"post"` or `"page"`): neither a draft nor
/// private.
pub open spec fn is_listed(p: BlogPost, kind: Seq<char>) -> bool {
    p.metadata.kind@ == kind && !p.metadata.draft && !p.metadata.private
}

/// The positions of the listed items of a kind, in order.
pub open spec fn listed_indices(items: Seq<BlogPost>, kind: Seq<char>) -> Seq<usize>
    decreases items.len(),
{
    if items.len() == 0 {
        seq![]
    } else {
        let rest = listed_indices(items.drop_last(), kind);
        if is_listed(items.last(), kind) {
            rest.push((items.len() - 1) as usize)
        } else {
            rest
        }
    }
}

pub proof fn lemma_listed_indices(items: Seq<BlogPost>, kind: Seq<char>)
    requires
        items.len() <= usize::MAX,
    ensures
        forall|k: int|
            0 <= k < listed_indices(items, kind).len() ==> #[trigger] listed_indices(items, kind)[k]
                < items.len() && is_listed(items[listed_indices(items, kind)[k] as int], kind),
        forall|i: int|
            0 <= i < items.len() && is_listed(items[i], kind) ==> listed_indices(
                items,
                kind,
            ).contains(i as usize),
        forall|a: int, b: int|
            0 <= a < b < listed_indices(items, kind).len() ==> #[trigger] listed_indices(
                items,
                kind,
            )[a] < #[trigger] listed_indices(items, kind)[b],
    decreases items.len(),
{
    if items.len() > 0 {
        let init = items.drop_last();
        lemma_listed_indices(init, kind);
        assert forall|i: int| 0 <= i < init.len() implies init[i] == items[i] by {}
        let rest = listed_indices(init, kind);
        let l = listed_indices(items, kind);
        if is_listed(items.last(), kind) {
            assert(l == rest.push((items.len() - 1) as usize));
            assert forall|k: int| 0 <= k < l.len() implies #[trigger] l[k] < items.len() && is_listed(
                items[l[k] as int],
                kind,
            ) by {
                if k < rest.len() {
                    assert(l[k] == rest[k]);
                }
            }
            assert forall|a: int, b: int| 0 <= a < b < l.len() implies #[trigger] l[a] < #[trigger] l[b] by {
                if b < rest.len() {
                    assert(l[a] == rest[a] && l[b] == rest[b]);
                } else {
                    assert(l[a] == rest[a]);
                }
            }
        } else {
            assert(l == rest);
        }
        if is_listed(items.last(), kind) {
            let r = rest.push((items.len() - 1) as usize);
            assert forall|i: int| 0 <= i < items.len() && is_listed(items[i], kind) implies r.contains(
                i as usize,
            ) by {
                if i < items.len() - 1 {
                    assert(rest.contains(i as usize));
                    let k = choose|k: int| 0 <= k < rest.len() && rest[k] == i as usize;
                    assert(r[k] == i as usize);
                } else {
                    assert(r[rest.len() as int] == i as usize);
                }
            }
        }
    }
}

fn listed(items: &Vec<BlogPost>, kind: &str) -> (r: Vec<usize>)
    ensures
        r@ == listed_indices(items@, kind@),
{
    let mut r: Vec<usize> = Vec::new();
    let mut i: usize = 0;
    while i < items.len()
        invariant
            i <= items.len(),
            r@ == listed_indices(items@.take(i as int), kind@),
        decreases items.len() - i,
    {
        let ghost init = items@.take(i as int);
        assert(items@.take(i + 1).drop_last() =~= init);
        if str_eq(items[i].metadata.kind.as_str(), kind) && items[i].is_public() {
            r.push(i);
        }
        i = i + 1;
    }
    assert(items@.take(items.len() as int) =~= items@);
    r
}

/// `a` is listed before `b`: newer date first, then later modification, then
/// title in order.
pub open spec fn newer(a: PostMetadata, b: PostMetadata) -> bool {
    ||| date_lt(b.date, a.date)
    ||| (a.date == b.date && str_lt(b.created_at@, a.created_at@))
    ||| (a.date == b.date && a.created_at@ == b.created_at@ && str_lt(a.title@, b.title@))
}

/// `a` and `b` tie in `newer`.
pub open spec fn same_rank(a: PostMetadata, b: PostMetadata) -> bool {
    a.date == b.date && a.created_at@ == b.created_at@ && a.title@ == b.title@
}

/// The order of the post list: `newer`, and the given order among ties (a
/// stable sort).
pub open spec fn post_before(posts: Seq<BlogPost>, i: int, j: int) -> bool {
    newer(posts[i].metadata, posts[j].metadata) || (same_rank(
        posts[i].metadata,
        posts[j].metadata,
    ) && i < j)
}

pub open spec fn post_order(posts: Seq<BlogPost>) -> spec_fn(int, int) -> bool {
    |i: int, j: int| post_before(posts, i, j)
}

proof fn lemma_date_lt_order(a: Date, b: Date, c: Date)
    ensures
        !date_lt(a, a),
        a == b || date_lt(a, b) || date_lt(b, a),
        date_lt(a, b) && date_lt(b, c) ==> date_lt(a, c),
        date_lt(a, b) ==> !date_lt(b, a),
{
}

proof fn lemma_newer_order(a: PostMetadata, b: PostMetadata, c: PostMetadata)
    ensures
        !newer(a, a),
        newer(a, b) ==> !newer(b, a),
        newer(a, b) && newer(b, c) ==> newer(a, c),
        newer(a, b) || newer(b, a) || same_rank(a, b),
        same_rank(a, b) ==> !newer(a, b),
        newer(a, b) && same_rank(b, c) ==> newer(a, c),
        same_rank(a, b) && newer(b, c) ==> newer(a, c),
{
    lemma_date_lt_order(a.date, b.date, c.date);
    lemma_date_lt_order(b.date, a.date, c.date);
    lemma_str_lt_irreflexive(a.created_at@);
    lemma_str_lt_irreflexive(a.title@);
    lemma_str_lt_irreflexive(b.created_at@);
    lemma_str_lt_irreflexive(b.title@);
    lemma_str_lt_total(a.created_at@, b.created_at@);
    lemma_str_lt_total(a.title@, b.title@);
    if str_lt(a.created_at@, b.created_at@) {
        lemma_str_lt_asymmetric(a.created_at@, b.created_at@);
    }
    if str_lt(b.created_at@, a.created_at@) {
        lemma_str_lt_asymmetric(b.created_at@, a.created_at@);
    }
    if str_lt(a.title@, b.title@) {
        lemma_str_lt_asymmetric(a.title@, b.title@);
    }
    if str_lt(b.title@, a.title@) {
        lemma_str_lt_asymmetric(b.title@, a.title@);
    }
    if str_lt(c.created_at@, b.created_at@) && str_lt(b.created_at@, a.created_at@) {
        lemma_str_lt_transitive(c.created_at@, b.created_at@, a.created_at@);
    }
    if str_lt(a.title@, b.title@) && str_lt(b.title@, c.title@) {
        lemma_str_lt_transitive(a.title@, b.title@, c.title@);
    }
}

/// Law: the post list order is a strict total order on distinct positions, so
/// the sorted list is unique.
pub proof fn law_post_order_total(posts: Seq<BlogPost>, i: int, j: int, k: int)
    requires
        0 <= i < posts.len(),
        0 <= j < posts.len(),
        0 <= k < posts.len(),
    ensures
        !post_before(posts, i, i),
        i != j ==> post_before(posts, i, j) || post_before(posts, j, i),
        post_before(posts, i, j) ==> !post_before(posts, j, i),
        post_before(posts, i, j) && post_before(posts, j, k) ==> post_before(posts, i, k),
{
    let a = posts[i].metadata;
    let b = posts[j].metadata;
    let c = posts[k].metadata;
    lemma_newer_order(a, b, c);
    lemma_newer_order(b, a, c);
    lemma_newer_order(a, a, a);
}

proof fn lemma_post_order_strict_total(posts: Seq<BlogPost>, items: Seq<usize>)
    requires
        forall|k: int| 0 <= k < items.len() ==> #[trigger] items[k] < posts.len(),
    ensures
        strict_total_on(post_order(posts), items),
{
    let lt = post_order(posts);
    assert forall|a: usize| items.contains(a) implies !#[trigger] lt(a as int, a as int) by {
        let k = choose|k: int| 0 <= k < items.len() && items[k] == a;
        law_post_order_total(posts, a as int, a as int, a as int);
    }
    assert forall|a: usize, b: usize|
        items.contains(a) && items.contains(b) && a != b implies #[trigger] lt(a as int, b as int)
        || #[trigger] lt(b as int, a as int) by {
        let ka = choose|k: int| 0 <= k < items.len() && items[k] == a;
        let kb = choose|k: int| 0 <= k < items.len() && items[k] == b;
        law_post_order_total(posts, a as int, b as int, b as int);
    }
    assert forall|a: usize, b: usize, c: usize|
        items.contains(a) && items.contains(b) && items.contains(c) && #[trigger] lt(
            a as int,
            b as int,
        ) && #[trigger] lt(b as int, c as int) implies lt(a as int, c as int) by {
        let ka = choose|k: int| 0 <= k < items.len() && items[k] == a;
        let kb = choose|k: int| 0 <= k < items.len() && items[k] == b;
        let kc = choose|k: int| 0 <= k < items.len() && items[k] == c;
        law_post_order_total(posts, a as int, b as int, c as int);
    }
}

fn post_before_exec(posts: &Vec<BlogPost>, i: usize, j: usize) -> (r: bool)
    requires
        i < posts.len(),
        j < posts.len(),
    ensures
        r == post_before(posts@, i as int, j as int),
{
    let a = &posts[i].metadata;
    let b = &posts[j].metadata;
    if b.date.before(&a.date) {
        return true;
    }
    if a.date.before(&b.date) {
        proof {
            lemma_date_lt_order(a.date, b.date, b.date);
        }
        return false;
    }
    proof {
        lemma_date_lt_order(a.date, b.date, b.date);
    }
    let c = compare_strings(b.created_at.as_str(), a.created_at.as_str());
    if c == -1 {
        return true;
    }
    if c == 1 {
        proof {
            lemma_str_lt_asymmetric(a.created_at@, b.created_at@);
        }
        return false;
    }
    assert(a.date == b.date);
    assert(a.created_at@ == b.created_at@);
    let t = compare_strings(a.title.as_str(), b.title.as_str());
    if t == -1 {
        assert(newer(*a, *b));
        return true;
    }
    if t == 1 {
        proof {
            lemma_str_lt_asymmetric(b.title@, a.title@);
        }
        return false;
    }
    i < j
}

/// The listed posts in list order.
fn sorted_posts(posts: &Vec<BlogPost>) -> (r: Vec<usize>)
    ensures
        r@.len() == listed_indices(posts@, "post"@).len(),
        forall|x: usize| r@.contains(x) <==> listed_indices(posts@, "post"@).contains(x),
        sorted_by(r@, post_order(posts@)),
        distinct(r@),
{
    let items = listed(posts, "post");
    proof {
        lemma_listed_indices(posts@, "post"@);
        lemma_post_order_strict_total(posts@, items@);
    }
    let before = |a: usize, b: usize| -> (r: bool)
        requires
            a < posts.len(),
            b < posts.len(),
        ensures
            r == post_before(posts@, a as int, b as int),
        { post_before_exec(posts, a, b) };
    proof {
        assert forall|a: usize, b: usize|
            items@.contains(a) && items@.contains(b) implies #[trigger] before.requires((a, b)) by {
            let ka = choose|k: int| 0 <= k < items@.len() && items@[k] == a;
            let kb = choose|k: int| 0 <= k < items@.len() && items@[k] == b;
        }
    }
    sort_indices(&items, &before, Ghost(post_order(posts@)))
}

/// `Option<usize>`'s order: absent first, then by value.
pub open spec fn order_lt(a: Option<usize>, b: Option<usize>) -> bool {
    match (a, b) {
        (None, Some(_)) => true,
        (Some(x), Some(y)) => x < y,
        _ => false,
    }
}

/// The order of the page navigation: by `order`, then by title, then as given.
pub open spec fn page_before(pages: Seq<BlogPost>, i: int, j: int) -> bool {
    let a = pages[i].metadata;
    let b = pages[j].metadata;
    ||| order_lt(a.order, b.order)
    ||| (a.order == b.order && str_lt(a.title@, b.title@))
    ||| (a.order == b.order && a.title@ == b.title@ && i < j)
}

pub open spec fn page_order(pages: Seq<BlogPost>) -> spec_fn(int, int) -> bool {
    |i: int, j: int| page_before(pages, i, j)
}

/// Law: the page navigation order is a strict total order on distinct positions.
pub proof fn law_page_order_total(pages: Seq<BlogPost>, i: int, j: int, k: int)
    requires
        0 <= i < pages.len(),
        0 <= j < pages.len(),
        0 <= k < pages.len(),
    ensures
        !page_before(pages, i, i),
        i != j ==> page_before(pages, i, j) || page_before(pages, j, i),
        page_before(pages, i, j) ==> !page_before(pages, j, i),
        page_before(pages, i, j) && page_before(pages, j, k) ==> page_before(pages, i, k),
{
    let a = pages[i].metadata;
    let b = pages[j].metadata;
    let c = pages[k].metadata;
    lemma_str_lt_irreflexive(a.title@);
    lemma_str_lt_total(a.title@, b.title@);
    if str_lt(a.title@, b.title@) {
        lemma_str_lt_asymmetric(a.title@, b.title@);
    }
    if str_lt(b.title@, a.title@) {
        lemma_str_lt_asymmetric(b.title@, a.title@);
    }
    if str_lt(a.title@, b.title@) && str_lt(b.title@, c.title@) {
        lemma_str_lt_transitive(a.title@, b.title@, c.title@);
    }
}

proof fn lemma_page_order_strict_total(pages: Seq<BlogPost>, items: Seq<usize>)
    requires
        forall|k: int| 0 <= k < items.len() ==> #[trigger] items[k] < pages.len(),
    ensures
        strict_total_on(page_order(pages), items),
{
    let lt = page_order(pages);
    assert forall|a: usize| items.contains(a) implies !#[trigger] lt(a as int, a as int) by {
        let k = choose|k: int| 0 <= k < items.len() && items[k] == a;
        law_page_order_total(pages, a as int, a as int, a as int);
    }
    assert forall|a: usize, b: usize|
        items.contains(a) && items.contains(b) && a != b implies #[trigger] lt(a as int, b as int)
        || #[trigger] lt(b as int, a as int) by {
        let ka = choose|k: int| 0 <= k < items.len() && items[k] == a;
        let kb = choose|k: int| 0 <= k < items.len() && items[k] == b;
        law_page_order_total(pages, a as int, b as int, b as int);
    }
    assert forall|a: usize, b: usize, c: usize|
        items.contains(a) && items.contains(b) && items.contains(c) && #[trigger] lt(
            a as int,
            b as int,
        ) && #[trigger] lt(b as int, c as int) implies lt(a as int, c as int) by {
        let ka = choose|k: int| 0 <= k < items.len() && items[k] == a;
        let kb = choose|k: int| 0 <= k < items.len() && items[k] == b;
        let kc = choose|k: int| 0 <= k < items.len() && items[k] == c;
        law_page_order_total(pages, a as int, b as int, c as int);
    }
}

fn page_before_exec(pages: &Vec<BlogPost>, i: usize, j: usize) -> (r: bool)
    requires
        i < pages.len(),
        j < pages.len(),
    ensures
        r == page_before(pages@, i as int, j as int),
{
    let a = &pages[i].metadata;
    let b = &pages[j].metadata;
    match (a.order, b.order) {
        (None, Some(_)) => return true,
        (Some(_), None) => return false,
        (Some(x), Some(y)) => {
            if x < y {
                return true;
            }
            if y < x {
                return false;
            }
        },
        (None, None) => {},
    }
    let t = compare_strings(a.title.as_str(), b.title.as_str());
    if t == -1 {
        return true;
    }
    if t == 1 {
        proof {
            lemma_str_lt_asymmetric(b.title@, a.title@);
        }
        return false;
    }
    i < j
}

/// The navigation entry of a page: its label, or its title when it has none,
/// and its URL.
pub open spec fn page_link_of(p: BlogPost, link: PageLink) -> bool {
    &&& link.label@ == (match p.metadata.label {
        Some(l) => l@,
        None => p.metadata.title@,
    })
    &&& link.url@ == p.metadata.url@
}

/// The navigation entries `links` list the public pages in the order `order`,
/// which is `page_before` order.
pub open spec fn page_links_ok(
    order: Seq<usize>,
    links: Seq<PageLink>,
    pages: Seq<BlogPost>,
    public_pages: Seq<usize>,
) -> bool {
    &&& order.len() == public_pages.len()
    &&& forall|x: usize| order.contains(x) <==> public_pages.contains(x)
    &&& sorted_by(order, page_order(pages))
    &&& distinct(order)
    &&& links.len() == order.len()
    &&& forall|k: int|
        0 <= k < links.len() ==> order[k] < pages.len() && page_link_of(
            pages[order[k] as int],
            #[trigger] links[k],
        )
}

/// The navigation of the site: one entry per listed page, in `page_before`
/// order.
fn build_page_links(pages: &Vec<BlogPost>, public_pages: &Vec<usize>) -> (r: (Vec<usize>, Vec<PageLink>))
    requires
        public_pages@ == listed_indices(pages@, "page"@),
    ensures
        page_links_ok(r.0@, r.1@, pages@, public_pages@),
{
    proof {
        lemma_listed_indices(pages@, "page"@);
        lemma_page_order_strict_total(pages@, public_pages@);
    }
    let before = |a: usize, b: usize| -> (r: bool)
        requires
            a < pages.len(),
            b < pages.len(),
        ensures
            r == page_before(pages@, a as int, b as int),
        { page_before_exec(pages, a, b) };
    proof {
        assert forall|a: usize, b: usize|
            public_pages@.contains(a) && public_pages@.contains(b) implies #[trigger] before.requires(
            (a, b),
        ) by {
            let ka = choose|k: int| 0 <= k < public_pages@.len() && public_pages@[k] == a;
            let kb = choose|k: int| 0 <= k < public_pages@.len() && public_pages@[k] == b;
        }
    }
    let order = sort_indices(public_pages, &before, Ghost(page_order(pages@)));
    let mut links: Vec<PageLink> = Vec::new();
    let mut k: usize = 0;
    while k < order.len()
        invariant
            k <= order.len(),
            forall|x: usize| order@.contains(x) <==> public_pages@.contains(x),
            public_pages@ == listed_indices(pages@, "page"@),
            forall|m: int|
                0 <= m < listed_indices(pages@, "page"@).len() ==> #[trigger] listed_indices(
                    pages@,
                    "page"@,
                )[m] < pages@.len(),
            links@.len() == k,
            forall|m: int| 0 <= m < k ==> page_link_of(pages@[order@[m] as int], #[trigger] links@[m]),
        decreases order.len() - k,
    {
        let idx = order[k];
        proof {
            assert(order@.contains(idx));
            let m = choose|m: int| 0 <= m < public_pages@.len() && public_pages@[m] == idx;
            assert(listed_indices(pages@, "page"@)[m] < pages@.len());
        }
        let meta = &pages[idx].metadata;
        let label = match &meta.label {
            Some(l) => l.clone(),
            None => meta.title.clone(),
        };
        links.push(PageLink { label, url: meta.url.clone() });
        k = k + 1;
    }
    proof {
        assert forall|m: int| 0 <= m < order@.len() implies order@[m] < pages@.len() by {
            assert(order@.contains(order@[m]));
            let q = choose|q: int| 0 <= q < public_pages@.len() && public_pages@[q] == order@[m];
        }
    }
    (order, links)
}

/// The giscus settings to embed: only when comments are on, the system is
/// `giscus` and its settings are given.
pub open spec fn comments_of(config: Config) -> Option<GiscusCommentsConfig> {
    if !config.comments.enabled || config.comments.system@ != "giscus"@ {
        None
    } else {
        config.comments.giscus
    }
}

/// The template settings carry the giscus settings unchanged.
pub open spec fn template_of(g: GiscusCommentsConfig, t: CommentsConfigTemplate) -> bool {
    &&& t.repo == g.repo
    &&& t.repo_id == g.repo_id
    &&& t.category == g.category
    &&& t.category_id == g.category_id
    &&& t.mapping == g.mapping
    &&& t.strict == g.strict
    &&& t.reactions_enabled == g.reactions_enabled
    &&& t.emit_metadata == g.emit_metadata
    &&& t.input_position == g.input_position
    &&& t.theme == g.theme
    &&& t.lang == g.lang
}

/// The comment settings that pages embed, if any.
pub fn build_comments_config(config: &Config) -> (r: Option<CommentsConfigTemplate>)
    ensures
        r is Some <==> comments_of(*config) is Some,
        r matches Some(t) ==> template_of(comments_of(*config).unwrap(), t),
{
    if !config.comments.enabled || !str_eq(config.comments.system.as_str(), "giscus") {
        return None;
    }
    match &config.comments.giscus {
        Some(g) => Some(
            CommentsConfigTemplate {
                repo: g.repo.clone(),
                repo_id: g.repo_id.clone(),
                category: g.category.clone(),
                category_id: g.category_id.clone(),
                mapping: g.mapping.clone(),
                strict: g.strict.clone(),
                reactions_enabled: g.reactions_enabled.clone(),
                emit_metadata: g.emit_metadata.clone(),
                input_position: g.input_position.clone(),
                theme: g.theme.clone(),
                lang: g.lang.clone(),
            },
        ),
        None => None,
    }
}

/// A post page to render: the post (a position in the post list given to
/// `plan_site`), links to its neighbours in the list, and where it goes, as
/// path segments under the output directory.
#[derive(Clone, Debug)]
pub struct PostOutput {
    pub post: usize,
    pub prev: Option<PostNav>,
    pub next: Option<PostNav>,
    pub path: Vec<String>,
}

/// A standalone page to render, and where it goes.
#[derive(Clone, Debug)]
pub struct PageOutput {
    pub page: usize,
    pub path: Vec<String>,
}

/// A list page to render: the posts it shows, its number and the count of pages
/// in its list, the heading and base URL of that list, and where it goes.
#[derive(Clone, Debug)]
pub struct ListOutput {
    pub posts: Vec<usize>,
    pub page: usize,
    pub total_pages: usize,
    pub heading: String,
    pub base_url: String,
    pub path: Vec<String>,
}

/// A navigation link to a post: its title and URL.
pub open spec fn nav_of(p: BlogPost, n: PostNav) -> bool {
    n.title@ == p.metadata.title@ && n.url@ == p.metadata.url@
}

/// The link to position `k` of the post list, none outside it.
pub open spec fn nav_at(n: Option<PostNav>, posts: Seq<BlogPost>, sorted: Seq<usize>, k: int) -> bool {
    if 0 <= k < sorted.len() {
        n matches Some(x) && nav_of(posts[sorted[k] as int], x)
    } else {
        n is None
    }
}

/// Where a post is written: `post/<slug>.html`.
pub open spec fn post_path(p: BlogPost) -> Seq<Seq<char>> {
    seq!["post"@, p.metadata.slug@ + ".html"@]
}

pub open spec fn slash_pred() -> spec_fn(char) -> bool {
    |c: char| c == '/'
}

/// Where a page is written: its URL without leading slashes, then `index.html`.
pub open spec fn page_path(p: BlogPost) -> Seq<Seq<char>> {
    seq![drop_while(p.metadata.url@, slash_pred()), "index.html"@]
}

/// Path segments joined by `/`.
pub open spec fn joined(segs: Seq<Seq<char>>) -> Seq<char>
    decreases segs.len(),
{
    if segs.len() == 0 {
        Seq::empty()
    } else if segs.len() == 1 {
        segs[0]
    } else {
        joined(segs.drop_last()) + "/"@ + segs.last()
    }
}

/// A post whose URL is the one its slug gives, as `from_source` makes it.
pub open spec fn post_url_consistent(p: BlogPost) -> bool {
    p.metadata.url@ == url_text(p.metadata.date, p.metadata.slug@, ContentKind::Post)
}

proof fn lemma_post_path_matches_url(post: BlogPost)
    requires
        post_url_consistent(post),
    ensures
        post.metadata.url@ == "/"@ + joined(post_path(post)),
{
    reveal_strlit("/");
    reveal_strlit("/post/");
    reveal_strlit("post");
    let segs = post_path(post);
    assert(segs.drop_last() =~= seq!["post"@]);
    assert(joined(segs.drop_last()) == "post"@);
    assert(post.metadata.url@ =~= "/"@ + joined(segs));
}

/// A post or page read from its file is written where its URL points: a
/// post's URL is `/` and its output path joined by `/`; a page's URL is `/` and
/// the directory of its output path, and the file there is `index.html`.
pub proof fn law_written_where_url_points(
    post: BlogPost,
    path: Seq<char>,
    content: Seq<char>,
    frontmatter: Option<FrontMatter>,
    modified: Timestamp,
    kind: ContentKind,
)
    requires
        post_from_source(post, path, content, frontmatter, modified, kind),
    ensures
        kind == ContentKind::Post ==> post.metadata.url@ == "/"@ + joined(post_path(post)),
        kind == ContentKind::Page ==> post.metadata.url@ == "/"@ + page_path(post)[0]
            && page_path(post)[1] == "index.html"@,
{
    reveal_strlit("/");
    reveal_strlit("/p/");
    reveal_strlit("p");
    let m = post.metadata;
    if kind == ContentKind::Post {
        lemma_post_path_matches_url(post);
    } else {
        let u = m.url@;
        assert(u[0] == '/');
        assert(u.len() > 1 && u[1] == 'p');
        assert(drop_while(u, slash_pred()) == drop_while(u.drop_first(), slash_pred()));
        assert(drop_while(u.drop_first(), slash_pred()) == u.drop_first());
        assert(u =~= "/"@ + u.drop_first());
    }
}

/// The page for position `k` of the post list.
pub open spec fn post_output_ok(o: PostOutput, posts: Seq<BlogPost>, sorted: Seq<usize>, k: int) -> bool {
    &&& o.post == sorted[k]
    &&& nav_at(o.prev, posts, sorted, k - 1)
    &&& nav_at(o.next, posts, sorted, k + 1)
    &&& views(o.path@) == post_path(posts[sorted[k] as int])
}

/// Number of pages of a list of `n` posts, `per_page` to a page: at least one.
pub open spec fn total_pages(n: nat, per_page: nat) -> nat {
    if n == 0 {
        1
    } else {
        n / per_page + if n % per_page == 0 {
            0nat
        } else {
            1nat
        }
    }
}

/// The first post of every page but the first lies within the list.
proof fn lemma_page_start(n: int, per_page: int, k: int)
    requires
        per_page > 0,
        n > 0,
        0 <= k,
        k + 1 <= total_pages(n as nat, per_page as nat),
    ensures
        k * per_page < n,
{
    let q = n / per_page;
    let r = n % per_page;
    assert(n == q * per_page + r && 0 <= r < per_page) by (nonlinear_arith)
        requires
            per_page > 0,
            q == n / per_page,
            r == n % per_page,
    ;
    if r == 0 {
        assert(k * per_page < n) by (nonlinear_arith)
            requires
                k + 1 <= q,
                n == q * per_page,
                per_page > 0,
                k >= 0,
        ;
    } else {
        assert(k * per_page < n) by (nonlinear_arith)
            requires
                k <= q,
                n == q * per_page + r,
                0 < r,
                per_page > 0,
                k >= 0,
        ;
    }
}

/// The pages of a list hold all of its posts.
proof fn lemma_pages_hold_all(n: int, per_page: int)
    requires
        per_page > 0,
        n >= 0,
    ensures
        per_page * total_pages(n as nat, per_page as nat) >= n,
{
    let q = n / per_page;
    let r = n % per_page;
    assert(n == q * per_page + r && 0 <= r < per_page) by (nonlinear_arith)
        requires
            per_page > 0,
            q == n / per_page,
            r == n % per_page,
    ;
    let t = total_pages(n as nat, per_page as nat) as int;
    if n > 0 {
        assert(per_page * t >= n) by (nonlinear_arith)
            requires
                t == q + (if r == 0 {
                    0int
                } else {
                    1int
                }),
                n == q * per_page + r,
                0 <= r < per_page,
        ;
    }
}

/// The file that page `page` of the list at `base` goes to: `base` without its
/// leading slashes, then `.html` for the first page and `-page-<page>.html` for
/// the others.
pub open spec fn list_page_path(base: Seq<char>, page: nat) -> Seq<Seq<char>> {
    let b = drop_while(base, slash_pred());
    if page == 1 {
        seq![b + ".html"@]
    } else {
        seq![b + "-page-"@ + decimal(page) + ".html"@]
    }
}

/// Page `page` of the list of posts `idx`: the posts from `(page - 1) *
/// per_page`, at most `per_page` of them.
pub open spec fn list_page_ok(
    o: ListOutput,
    idx: Seq<usize>,
    base: Seq<char>,
    heading: Seq<char>,
    page: nat,
    per_page: nat,
) -> bool {
    let start = (page - 1) * per_page;
    let end = if start + per_page <= idx.len() {
        start + per_page
    } else {
        idx.len() as int
    };
    &&& o.posts@ == idx.subrange(start, end)
    &&& o.page == page
    &&& o.total_pages == total_pages(idx.len(), per_page)
    &&& o.heading@ == heading
    &&& o.base_url@ == base
    &&& views(o.path@) == list_page_path(base, page)
}

/// All pages of the list of posts `idx`, in order.
pub open spec fn list_group_ok(
    outs: Seq<ListOutput>,
    idx: Seq<usize>,
    base: Seq<char>,
    heading: Seq<char>,
    per_page: nat,
) -> bool {
    &&& outs.len() == total_pages(idx.len(), per_page)
    &&& forall|k: int|
        0 <= k < outs.len() ==> list_page_ok(#[trigger] outs[k], idx, base, heading, (k + 1) as nat, per_page)
}

/// The posts that list pages show, page after page.
pub open spec fn shown_posts(outs: Seq<ListOutput>) -> Seq<usize>
    decreases outs.len(),
{
    if outs.len() == 0 {
        Seq::empty()
    } else {
        shown_posts(outs.drop_last()) + outs.last().posts@
    }
}

proof fn lemma_shown_prefix(
    outs: Seq<ListOutput>,
    idx: Seq<usize>,
    base: Seq<char>,
    heading: Seq<char>,
    per_page: nat,
    m: int,
)
    requires
        per_page > 0,
        list_group_ok(outs, idx, base, heading, per_page),
        0 <= m <= outs.len(),
    ensures
        shown_posts(outs.take(m)) == idx.take(if per_page * m <= idx.len() {
            per_page * m
        } else {
            idx.len() as int
        }),
    decreases m,
{
    if m == 0 {
        assert(outs.take(0) =~= Seq::<ListOutput>::empty());
        assert(idx.take(0) =~= Seq::<usize>::empty());
    } else {
        lemma_shown_prefix(outs, idx, base, heading, per_page, m - 1);
        let t = outs.take(m);
        assert(t.drop_last() =~= outs.take(m - 1));
        assert(t.last() == outs[m - 1]);
        assert(list_page_ok(outs[m - 1], idx, base, heading, m as nat, per_page));
        let n = idx.len() as int;
        let pp = per_page as int;
        let a = (m - 1) * pp;
        if n > 0 {
            lemma_page_start(n, pp, m - 1);
        } else {
            assert(a == 0) by (nonlinear_arith)
                requires
                    m == 1,
                    a == (m - 1) * pp,
            ;
        }
        assert(a <= n);
        assert(pp * (m - 1) == a && pp * m == a + pp) by (nonlinear_arith)
            requires
                a == (m - 1) * pp,
        ;
        let b = if a + pp <= n {
            a + pp
        } else {
            n
        };
        assert(outs[m - 1].posts@ == idx.subrange(a, b));
        assert(idx.take(a) + idx.subrange(a, b) =~= idx.take(b));
    }
}

/// The pages of a list show each of its posts once, in the list's order, at
/// most `per_page` to a page.
pub proof fn law_list_pages_show_each_post_once(
    outs: Seq<ListOutput>,
    idx: Seq<usize>,
    base: Seq<char>,
    heading: Seq<char>,
    per_page: nat,
)
    requires
        per_page > 0,
        list_group_ok(outs, idx, base, heading, per_page),
    ensures
        shown_posts(outs) == idx,
        forall|k: int| 0 <= k < outs.len() ==> #[trigger] outs[k].posts@.len() <= per_page,
        forall|k: int| 0 <= k < outs.len() - 1 ==> #[trigger] outs[k].posts@.len() == per_page,
        outs.len() == 1 || outs.last().posts@.len() > 0,
{
    let m = outs.len() as int;
    lemma_shown_prefix(outs, idx, base, heading, per_page, m);
    assert(outs.take(m) =~= outs);
    let n = idx.len() as int;
    lemma_pages_hold_all(n, per_page as int);
    assert(idx.take(n) =~= idx);
    assert forall|k: int| 0 <= k < outs.len() implies #[trigger] outs[k].posts@.len() <= per_page by {
        assert(list_page_ok(outs[k], idx, base, heading, (k + 1) as nat, per_page));
        let start = k * per_page;
        if n > 0 {
            lemma_page_start(n, per_page as int, k);
        } else {
            assert(start == 0) by (nonlinear_arith)
                requires
                    k == 0,
                    start == k * per_page,
            ;
        }
        assert(((k + 1) as nat - 1) * per_page == start);
    }
    assert forall|k: int| 0 <= k < outs.len() - 1 implies #[trigger] outs[k].posts@.len() == per_page by {
        assert(list_page_ok(outs[k], idx, base, heading, (k + 1) as nat, per_page));
        let start = k * per_page;
        assert(n > 0);
        lemma_page_start(n, per_page as int, k + 1);
        assert((k + 1) * per_page == start + per_page) by (nonlinear_arith)
            requires
                start == k * per_page,
        ;
        assert(((k + 1) as nat - 1) * per_page == start);
    }
    if outs.len() > 1 {
        let k = outs.len() - 1;
        assert(list_page_ok(outs[k], idx, base, heading, (k + 1) as nat, per_page));
        lemma_page_start(n, per_page as int, k);
        assert(((k + 1) as nat - 1) * per_page == k * per_page);
        assert(outs.last() == outs[k]);
    }
}

/// A list of the site: its posts, base URL and heading.
pub type ListGroup = (Seq<usize>, Seq<char>, Seq<char>);

/// The pages of the lists, list after list.
pub open spec fn groups_ok(outs: Seq<ListOutput>, groups: Seq<ListGroup>, per_page: nat) -> bool
    decreases groups.len(),
{
    if groups.len() == 0 {
        outs.len() == 0
    } else {
        let t = total_pages(groups[0].0.len(), per_page) as int;
        &&& outs.len() >= t
        &&& list_group_ok(outs.take(t), groups[0].0, groups[0].1, groups[0].2, per_page)
        &&& groups_ok(outs.skip(t), groups.drop_first(), per_page)
    }
}

proof fn lemma_groups_ok_push(
    outs: Seq<ListOutput>,
    groups: Seq<ListGroup>,
    new: Seq<ListOutput>,
    g: ListGroup,
    per_page: nat,
)
    requires
        groups_ok(outs, groups, per_page),
        list_group_ok(new, g.0, g.1, g.2, per_page),
    ensures
        groups_ok(outs + new, groups.push(g), per_page),
    decreases groups.len(),
{
    if groups.len() == 0 {
        assert(groups.push(g) =~= seq![g]);
        assert(outs + new =~= new);
        let t = total_pages(g.0.len(), per_page) as int;
        assert(new.take(t) =~= new);
        assert(new.skip(t) =~= Seq::<ListOutput>::empty());
        assert(seq![g].drop_first() =~= Seq::<ListGroup>::empty());
        assert(groups_ok(Seq::<ListOutput>::empty(), Seq::<ListGroup>::empty(), per_page));
        assert(seq![g][0] == g);
        assert(groups_ok(new, seq![g], per_page));
    } else {
        let t = total_pages(groups[0].0.len(), per_page) as int;
        lemma_groups_ok_push(outs.skip(t), groups.drop_first(), new, g, per_page);
        assert((outs + new).take(t) =~= outs.take(t));
        assert((outs + new).skip(t) =~= outs.skip(t) + new);
        assert(groups.push(g).drop_first() =~= groups.drop_first().push(g));
        assert(groups.push(g)[0] == groups[0]);
        assert((outs + new).len() >= t);
        assert(groups_ok(outs + new, groups.push(g), per_page));
    }
}

/// A category or tag as a path segment: its words joined with `-`, slashes
/// and backslashes turned into `-`.
pub fn sanitize_segment(value: &str) -> (r: String)
    ensures
        r@ == crate::text::segment_text(value@),
{
    let v = crate::text::segment_chars(value);
    crate::text::string_of(&v)
}

fn one_segment(a: &str) -> (r: Vec<String>)
    ensures
        views(r@) == seq![a@],
{
    let mut r: Vec<String> = Vec::new();
    r.push(a.to_string());
    assert(views(r@) =~= seq![a@]);
    r
}

fn strings_of_segments(a: &str, b: &str) -> (r: Vec<String>)
    ensures
        views(r@) == seq![a@, b@],
{
    let mut r: Vec<String> = Vec::new();
    r.push(a.to_string());
    r.push(b.to_string());
    assert(views(r@) =~= seq![a@, b@]);
    r
}

fn trim_leading_slashes(s: &str) -> (r: String)
    ensures
        r@ == drop_while(s@, slash_pred()),
{
    let v = crate::text::chars_of(s);
    let n = v.len();
    let mut i: usize = 0;
    assert(v@.subrange(0, n as int) =~= v@);
    while i < n && v[i] == '/'
        invariant
            i <= n == v.len(),
            drop_while(v@, slash_pred()) == drop_while(v@.subrange(i as int, n as int), slash_pred()),
        decreases n - i,
    {
        assert(v@.subrange(i as int, n as int).drop_first() =~= v@.subrange(i + 1, n as int));
        i = i + 1;
    }
    crate::text::string_from(&v, i, n)
}

/// Appends the pages of the list of posts `idx` at `base` with `heading`,
/// `per_page` posts to a page.
fn push_list_pages(out: &mut Vec<ListOutput>, idx: &Vec<usize>, base: &str, heading: &str, per_page: usize)
    requires
        per_page > 0,
    ensures
        final(out)@.len() >= old(out)@.len(),
        final(out)@.take(old(out)@.len() as int) == old(out)@,
        list_group_ok(final(out)@.skip(old(out)@.len() as int), idx@, base@, heading@, per_page as nat),
{
    let n = idx.len();
    let total: usize = if n == 0 {
        1
    } else if n % per_page == 0 {
        n / per_page
    } else {
        assert(n / per_page < n) by (nonlinear_arith)
            requires
                per_page > 1,
                n > 0,
        ;
        n / per_page + 1
    };
    assert(total == total_pages(n as nat, per_page as nat));
    let trimmed_base = trim_leading_slashes(base);
    let ghost start_len = out@.len();
    let ghost before = out@;
    let mut done: usize = 0;
    while done < total
        invariant
            n == idx.len(),
            per_page > 0,
            total == total_pages(n as nat, per_page as nat),
            done <= total,
            trimmed_base@ == drop_while(base@, slash_pred()),
            out@.len() == start_len + done,
            out@.take(start_len as int) == before,
            before.len() == start_len,
            forall|k: int|
                0 <= k < done ==> list_page_ok(
                    #[trigger] out@.skip(start_len as int)[k],
                    idx@,
                    base@,
                    heading@,
                    (k + 1) as nat,
                    per_page as nat,
                ),
        decreases total - done,
    {
        let page = done + 1;
        proof {
            if n > 0 {
                lemma_page_start(n as int, per_page as int, page - 1);
            } else {
                assert((page - 1) * per_page == 0) by (nonlinear_arith)
                    requires
                        page == 1,
                ;
            }
        }
        let start: usize = (page - 1) * per_page;
        let end: usize = if n - start <= per_page {
            n
        } else {
            start + per_page
        };
        let mut posts: Vec<usize> = Vec::new();
        let mut i = start;
        while i < end
            invariant
                start <= i <= end <= n == idx.len(),
                posts@ == idx@.subrange(start as int, i as int),
            decreases end - i,
        {
            posts.push(idx[i]);
            i = i + 1;
            assert(posts@ =~= idx@.subrange(start as int, i as int));
        }
        let mut file: Vec<char> = Vec::new();
        crate::text::push_str(&mut file, trimmed_base.as_str());
        if page > 1 {
            crate::text::push_str(&mut file, "-page-");
            crate::text::push_decimal(&mut file, page as u64);
        }
        crate::text::push_str(&mut file, ".html");
        let file = crate::text::string_of(&file);
        let mut path: Vec<String> = Vec::new();
        path.push(file);
        assert(views(path@) =~= list_page_path(base@, page as nat));
        let ghost prev = out@;
        out.push(
            ListOutput {
                posts,
                page,
                total_pages: total,
                heading: heading.to_string(),
                base_url: base.to_string(),
                path,
            },
        );
        proof {
            assert(out@.take(start_len as int) =~= prev.take(start_len as int));
            assert forall|k: int| 0 <= k < page implies list_page_ok(
                #[trigger] out@.skip(start_len as int)[k],
                idx@,
                base@,
                heading@,
                (k + 1) as nat,
                per_page as nat,
            ) by {
                assert(out@.skip(start_len as int)[k] == out@[start_len + k]);
                if k < page - 1 {
                    assert(prev.skip(start_len as int)[k] == prev[start_len + k]);
                }
            }
        }
        done = done + 1;
    }
    proof {
        assert(out@.skip(start_len as int).len() == total);
    }
}

/// A post's categories, or its tags.
pub open spec fn labels_of(m: PostMetadata, tags: bool) -> Seq<String> {
    if tags {
        m.tags@
    } else {
        m.categories@
    }
}

/// `c` is a non-empty category (or tag) of one of the first `k` posts of the list.
pub open spec fn label_in_prefix(
    posts: Seq<BlogPost>,
    sorted: Seq<usize>,
    k: int,
    c: Seq<char>,
    tags: bool,
) -> bool {
    c.len() > 0 && exists|a: int, j: int|
        0 <= a < k && 0 <= j < labels_of(posts[sorted[a] as int].metadata, tags).len()
            && (#[trigger] labels_of(posts[sorted[a] as int].metadata, tags)[j])@ == c
}

/// The strings in strictly increasing order, so without repeats.
pub open spec fn strictly_increasing(v: Seq<Seq<char>>) -> bool {
    forall|i: int, j: int| 0 <= i < j < v.len() ==> str_lt(#[trigger] v[i], #[trigger] v[j])
}

/// Adds `s` to a strictly increasing list of strings unless it is there.
fn insert_unique(list: &mut Vec<String>, s: &String)
    requires
        strictly_increasing(views(old(list)@)),
    ensures
        strictly_increasing(views(final(list)@)),
        forall|c: Seq<char>| views(final(list)@).contains(c) <==> (views(old(list)@).contains(c)
            || c == s@),
{
    let ghost old_v = views(list@);
    let mut p: usize = 0;
    while p < list.len() && compare_strings(list[p].as_str(), s.as_str()) == -1
        invariant
            p <= list.len(),
            list@ == old(list)@,
            old_v == views(list@),
            strictly_increasing(old_v),
            forall|k: int| 0 <= k < p ==> str_lt(#[trigger] old_v[k], s@),
        decreases list.len() - p,
    {
        p = p + 1;
    }
    if p < list.len() && str_eq(list[p].as_str(), s.as_str()) {
        proof {
            assert(old_v[p as int] == s@);
            assert(old_v.contains(s@));
        }
        return ;
    }
    proof {
        if p < list.len() {
            lemma_str_lt_total(old_v[p as int], s@);
            assert(str_lt(s@, old_v[p as int]));
        }
    }
    list.insert(p, s.clone());
    proof {
        let nv = views(list@);
        assert(nv =~= old_v.insert(p as int, s@));
        assert forall|a: int, b: int| 0 <= a < b < nv.len() implies str_lt(
            #[trigger] nv[a],
            #[trigger] nv[b],
        ) by {
            if a < p && b == p {
            } else if a < p && b > p {
                if b - 1 > p {
                    lemma_str_lt_transitive(s@, old_v[p as int], old_v[b - 1]);
                }
                lemma_str_lt_transitive(old_v[a], s@, old_v[b - 1]);
            } else if a == p && b > p {
                if b - 1 > p {
                    lemma_str_lt_transitive(s@, old_v[p as int], old_v[b - 1]);
                }
            } else if a > p {
                assert(nv[a] == old_v[a - 1] && nv[b] == old_v[b - 1]);
            }
        }
        assert forall|c: Seq<char>| nv.contains(c) <==> (old_v.contains(c) || c == s@) by {
            if nv.contains(c) {
                let k = choose|k: int| 0 <= k < nv.len() && nv[k] == c;
                if k < p {
                    assert(old_v[k] == c);
                } else if k > p {
                    assert(old_v[k - 1] == c);
                }
            }
            if old_v.contains(c) {
                let k = choose|k: int| 0 <= k < old_v.len() && old_v[k] == c;
                if k < p {
                    assert(nv[k] == c);
                } else {
                    assert(nv[k + 1] == c);
                }
            }
            if c == s@ {
                assert(nv[p as int] == c);
            }
        }
    }
}

/// The distinct non-empty categories (or tags) of the listed posts, in order
/// (sorted and deduplicated).
fn collect_labels(posts: &Vec<BlogPost>, sorted: &Vec<usize>, tags: bool) -> (r: Vec<String>)
    requires
        forall|k: int| 0 <= k < sorted@.len() ==> #[trigger] sorted@[k] < posts@.len(),
    ensures
        strictly_increasing(views(r@)),
        forall|c: Seq<char>| views(r@).contains(c) <==> label_in_prefix(
            posts@,
            sorted@,
            sorted@.len() as int,
            c,
            tags,
        ),
{
    let mut list: Vec<String> = Vec::new();
    let mut k: usize = 0;
    while k < sorted.len()
        invariant
            k <= sorted.len(),
            forall|m: int| 0 <= m < sorted@.len() ==> #[trigger] sorted@[m] < posts@.len(),
            strictly_increasing(views(list@)),
            forall|c: Seq<char>| views(list@).contains(c) <==> label_in_prefix(
                posts@,
                sorted@,
                k as int,
                c,
                tags,
            ),
        decreases sorted.len() - k,
    {
        let meta = &posts[sorted[k]].metadata;
        let labels = if tags {
            &meta.tags
        } else {
            &meta.categories
        };
        let ghost ls = labels_of(posts@[sorted@[k as int] as int].metadata, tags);
        assert(labels@ == ls);
        let mut j: usize = 0;
        while j < labels.len()
            invariant
                k < sorted.len(),
                j <= labels.len(),
                labels@ == ls,
                ls == labels_of(posts@[sorted@[k as int] as int].metadata, tags),
                forall|m: int| 0 <= m < sorted@.len() ==> #[trigger] sorted@[m] < posts@.len(),
                strictly_increasing(views(list@)),
                forall|c: Seq<char>| views(list@).contains(c) <==> (label_in_prefix(
                    posts@,
                    sorted@,
                    k as int,
                    c,
                    tags,
                ) || (c.len() > 0 && exists|q: int| 0 <= q < j && (#[trigger] ls[q])@ == c)),
            decreases labels.len() - j,
        {
            let ghost before = views(list@);
            if !labels[j].as_str().is_empty() {
                insert_unique(&mut list, &labels[j]);
            }
            proof {
                assert forall|c: Seq<char>| views(list@).contains(c) <==> (label_in_prefix(
                    posts@,
                    sorted@,
                    k as int,
                    c,
                    tags,
                ) || (c.len() > 0 && exists|q: int| 0 <= q < j + 1 && (#[trigger] ls[q])@ == c)) by {
                    if c.len() > 0 && exists|q: int| 0 <= q < j + 1 && (#[trigger] ls[q])@ == c {
                        let q = choose|q: int| 0 <= q < j + 1 && (#[trigger] ls[q])@ == c;
                        if q < j {
                            assert(exists|q: int| 0 <= q < j && (#[trigger] ls[q])@ == c);
                        }
                    }
                    if c.len() > 0 && exists|q: int| 0 <= q < j && (#[trigger] ls[q])@ == c {
                        let q = choose|q: int| 0 <= q < j && (#[trigger] ls[q])@ == c;
                        assert(0 <= q < j + 1 && ls[q]@ == c);
                    }
                    if c == ls[j as int]@ && c.len() > 0 {
                        assert(0 <= j < j + 1 && ls[j as int]@ == c);
                    }
                }
            }
            j = j + 1;
        }
        proof {
            assert forall|c: Seq<char>| views(list@).contains(c) <==> label_in_prefix(
                posts@,
                sorted@,
                k + 1,
                c,
                tags,
            ) by {
                if label_in_prefix(posts@, sorted@, k + 1, c, tags) {
                    let (a, q) = choose|a: int, q: int|
                        0 <= a < k + 1 && 0 <= q < labels_of(posts@[sorted@[a] as int].metadata, tags).len()
                            && (#[trigger] labels_of(posts@[sorted@[a] as int].metadata, tags)[q])@ == c;
                    if a < k {
                        assert(label_in_prefix(posts@, sorted@, k as int, c, tags));
                    } else {
                        assert(ls[q]@ == c);
                    }
                }
                if label_in_prefix(posts@, sorted@, k as int, c, tags) {
                    let (a, q) = choose|a: int, q: int|
                        0 <= a < k && 0 <= q < labels_of(posts@[sorted@[a] as int].metadata, tags).len()
                            && (#[trigger] labels_of(posts@[sorted@[a] as int].metadata, tags)[q])@ == c;
                    assert(0 <= a < k + 1);
                }
                if c.len() > 0 && exists|q: int| 0 <= q < j && (#[trigger] ls[q])@ == c {
                    let q = choose|q: int| 0 <= q < j && (#[trigger] ls[q])@ == c;
                    assert(labels_of(posts@[sorted@[k as int] as int].metadata, tags)[q]@ == c);
                }
            }
        }
        k = k + 1;
    }
    list
}

/// The post has `c` among its categories (or tags), up to ASCII case.
pub open spec fn has_label(p: BlogPost, c: Seq<char>, tags: bool) -> bool {
    exists|j: int|
        0 <= j < labels_of(p.metadata, tags).len() && eq_ignore_ascii_case(
            (#[trigger] labels_of(p.metadata, tags)[j])@,
            c,
        )
}

/// The listed posts that carry the category (or tag) `c`, in list order.
pub open spec fn label_posts(posts: Seq<BlogPost>, sorted: Seq<usize>, c: Seq<char>, tags: bool) -> Seq<
    usize,
> {
    sorted.filter(|i: usize| has_label(posts[i as int], c, tags))
}

/// The list of a category (or tag): its posts, `/category/<segment>` (or
/// `/tag/<segment>`) and `分类：<c>` (or `标签：<c>`).
pub open spec fn label_group(posts: Seq<BlogPost>, sorted: Seq<usize>, c: Seq<char>, tags: bool) -> ListGroup {
    (
        label_posts(posts, sorted, c, tags),
        (if tags {
            "/tag/"@
        } else {
            "/category/"@
        }) + crate::text::segment_text(c),
        (if tags {
            "标签："@
        } else {
            "分类："@
        }) + c,
    )
}

/// The lists of the site, in the order their pages are written: all posts
/// (from `index.html` on), then each category, then each tag.
pub open spec fn site_lists(
    posts: Seq<BlogPost>,
    sorted: Seq<usize>,
    cats: Seq<Seq<char>>,
    tags: Seq<Seq<char>>,
) -> Seq<ListGroup> {
    seq![(sorted, "/index"@, "永远保持初学者的心"@)] + cats.map_values(
        |c: Seq<char>| label_group(posts, sorted, c, false),
    ) + tags.map_values(|t: Seq<char>| label_group(posts, sorted, t, true))
}

/// The posts of the list of category `ci` (or tag `ci`) of a plan.
pub open spec fn label_list(plan: SitePlan, posts: Seq<BlogPost>, ci: int, tags: bool) -> Seq<usize> {
    let cats = views(plan.categories@);
    let lists = site_lists(posts, plan.sorted_posts@, cats, views(plan.tags@));
    if tags {
        lists[1 + cats.len() + ci].0
    } else {
        lists[1 + ci].0
    }
}

proof fn lemma_label_list(
    plan: SitePlan,
    posts: Seq<BlogPost>,
    pages: Seq<BlogPost>,
    config: Config,
    ci: int,
    tags: bool,
    x: usize,
)
    requires
        site_plan_ok(plan, posts, pages, config),
        0 <= ci < (if tags {
            plan.tags@.len()
        } else {
            plan.categories@.len()
        }),
    ensures
        label_list(plan, posts, ci, tags).contains(x) <==> plan.sorted_posts@.contains(x) && exists|j: int|
            0 <= j < labels_of(posts[x as int].metadata, tags).len() && eq_ignore_ascii_case(
                (#[trigger] labels_of(posts[x as int].metadata, tags)[j])@,
                (if tags {
                    plan.tags@[ci]
                } else {
                    plan.categories@[ci]
                })@,
            ),
{
    let sorted = plan.sorted_posts@;
    let cats = views(plan.categories@);
    let tgs = views(plan.tags@);
    let c = if tags {
        tgs[ci]
    } else {
        cats[ci]
    };
    let lists = site_lists(posts, sorted, cats, tgs);
    let first = seq![(sorted, "/index"@, "永远保持初学者的心"@)];
    let cm = cats.map_values(|l: Seq<char>| label_group(posts, sorted, l, false));
    let tm = tgs.map_values(|l: Seq<char>| label_group(posts, sorted, l, true));
    assert(lists == first + cm + tm);
    if tags {
        assert(lists[1 + cats.len() + ci] == tm[ci]);
    } else {
        assert(lists[1 + ci] == cm[ci]);
    }
    assert(label_list(plan, posts, ci, tags) == label_group(posts, sorted, c, tags).0);
    let pred = |i: usize| has_label(posts[i as int], c, tags);
    let f = sorted.filter(pred);
    assert(label_list(plan, posts, ci, tags) == f);
    if f.contains(x) {
        sorted.lemma_filter_contains_rev(pred, x);
        let i = choose|i: int| 0 <= i < f.len() && f[i] == x;
        sorted.lemma_filter_pred(pred, i);
    }
    if sorted.contains(x) && has_label(posts[x as int], c, tags) {
        let k = choose|k: int| 0 <= k < sorted.len() && sorted[k] == x;
        sorted.lemma_filter_contains(pred, k);
    }
}

/// Law: the list of a category (or tag) holds exactly the public posts that
/// carry it, in any place among their categories (or tags), up to ASCII case.
pub proof fn law_label_lists_hold_labelled_posts(
    plan: SitePlan,
    posts: Seq<BlogPost>,
    pages: Seq<BlogPost>,
    config: Config,
)
    requires
        site_plan_ok(plan, posts, pages, config),
    ensures
        forall|ci: int, x: usize|
            0 <= ci < plan.categories@.len() ==> (#[trigger] label_list(plan, posts, ci, false).contains(x)
                <==> plan.sorted_posts@.contains(x) && exists|j: int|
                0 <= j < posts[x as int].metadata.categories@.len() && eq_ignore_ascii_case(
                    (#[trigger] posts[x as int].metadata.categories@[j])@,
                    plan.categories@[ci]@,
                )),
        forall|ci: int, x: usize|
            0 <= ci < plan.tags@.len() ==> (#[trigger] label_list(plan, posts, ci, true).contains(x)
                <==> plan.sorted_posts@.contains(x) && exists|j: int|
                0 <= j < posts[x as int].metadata.tags@.len() && eq_ignore_ascii_case(
                    (#[trigger] posts[x as int].metadata.tags@[j])@,
                    plan.tags@[ci]@,
                )),
{
    assert forall|ci: int, x: usize| 0 <= ci < plan.categories@.len() implies (#[trigger] label_list(
        plan,
        posts,
        ci,
        false,
    ).contains(x) <==> plan.sorted_posts@.contains(x) && exists|j: int|
        0 <= j < posts[x as int].metadata.categories@.len() && eq_ignore_ascii_case(
            (#[trigger] posts[x as int].metadata.categories@[j])@,
            plan.categories@[ci]@,
        )) by {
        lemma_label_list(plan, posts, pages, config, ci, false, x);
    }
    assert forall|ci: int, x: usize| 0 <= ci < plan.tags@.len() implies (#[trigger] label_list(
        plan,
        posts,
        ci,
        true,
    ).contains(x) <==> plan.sorted_posts@.contains(x) && exists|j: int|
        0 <= j < posts[x as int].metadata.tags@.len() && eq_ignore_ascii_case(
            (#[trigger] posts[x as int].metadata.tags@[j])@,
            plan.tags@[ci]@,
        )) by {
        lemma_label_list(plan, posts, pages, config, ci, true, x);
    }
}

fn has_label_exec(p: &BlogPost, c: &str, tags: bool) -> (r: bool)
    ensures
        r == has_label(*p, c@, tags),
{
    let labels = if tags {
        &p.metadata.tags
    } else {
        &p.metadata.categories
    };
    let mut j: usize = 0;
    while j < labels.len()
        invariant
            j <= labels.len(),
            labels@ == labels_of(p.metadata, tags),
            forall|q: int| 0 <= q < j ==> !eq_ignore_ascii_case((#[trigger] labels@[q])@, c@),
        decreases labels.len() - j,
    {
        if equal_ignoring_ascii_case(labels[j].as_str(), c) {
            return true;
        }
        j = j + 1;
    }
    false
}

fn filter_by_label(posts: &Vec<BlogPost>, sorted: &Vec<usize>, c: &str, tags: bool) -> (r: Vec<usize>)
    requires
        forall|k: int| 0 <= k < sorted@.len() ==> #[trigger] sorted@[k] < posts@.len(),
    ensures
        r@ == label_posts(posts@, sorted@, c@, tags),
{
    let mut r: Vec<usize> = Vec::new();
    let mut k: usize = 0;
    while k < sorted.len()
        invariant
            k <= sorted.len(),
            forall|m: int| 0 <= m < sorted@.len() ==> #[trigger] sorted@[m] < posts@.len(),
            r@ == sorted@.take(k as int).filter(|i: usize| has_label(posts@[i as int], c@, tags)),
        decreases sorted.len() - k,
    {
        proof {
            assert(sorted@.take(k + 1).drop_last() =~= sorted@.take(k as int));
            reveal(Seq::filter);
        }
        let i = sorted[k];
        if has_label_exec(&posts[i], c, tags) {
            r.push(i);
        }
        k = k + 1;
    }
    assert(sorted@.take(sorted.len() as int) =~= sorted@);
    r
}

fn nav_to(posts: &Vec<BlogPost>, sorted: &Vec<usize>, k: usize) -> (r: Option<PostNav>)
    requires
        forall|m: int| 0 <= m < sorted@.len() ==> #[trigger] sorted@[m] < posts@.len(),
    ensures
        nav_at(r, posts@, sorted@, k as int),
{
    if k < sorted.len() {
        let m = &posts[sorted[k]].metadata;
        Some(PostNav { title: m.title.clone(), url: m.url.clone() })
    } else {
        None
    }
}

fn post_output(posts: &Vec<BlogPost>, sorted: &Vec<usize>, k: usize) -> (r: PostOutput)
    requires
        k < sorted@.len(),
        forall|m: int| 0 <= m < sorted@.len() ==> #[trigger] sorted@[m] < posts@.len(),
    ensures
        post_output_ok(r, posts@, sorted@, k as int),
{
    let prev = if k == 0 {
        None
    } else {
        nav_to(posts, sorted, k - 1)
    };
    let next = if k < sorted.len() - 1 {
        nav_to(posts, sorted, k + 1)
    } else {
        None
    };
    let m = &posts[sorted[k]].metadata;
    let mut file: Vec<char> = Vec::new();
    crate::text::push_str(&mut file, m.slug.as_str());
    crate::text::push_str(&mut file, ".html");
    let file = crate::text::string_of(&file);
    let path = strings_of_segments("post", file.as_str());
    assert(views(path@) =~= post_path(posts@[sorted@[k as int] as int]));
    PostOutput { post: sorted[k], prev, next, path }
}

/// What the site consists of, in the order it is written: every post, every
/// page, the list pages (the first of all posts being `index.html`), the tag
/// index and the feed.
#[derive(Clone, Debug)]
pub struct SitePlan {
    /// The public posts, newest first (positions in the post list).
    pub sorted_posts: Vec<usize>,
    /// The public pages, in the order given (positions in the page list).
    pub public_pages: Vec<usize>,
    /// The site navigation.
    pub page_links: Vec<PageLink>,
    /// The comment settings that pages embed.
    pub comments: Option<CommentsConfigTemplate>,
    pub post_outputs: Vec<PostOutput>,
    pub page_outputs: Vec<PageOutput>,
    /// The distinct non-empty categories of the public posts, sorted.
    pub categories: Vec<String>,
    /// The distinct non-empty tags of the public posts, sorted.
    pub tags: Vec<String>,
    pub list_outputs: Vec<ListOutput>,
    /// Where the index of all tags goes: `tags.html`.
    pub tags_path: Vec<String>,
    /// Where the feed goes: `rss.xml`.
    pub feed_path: Vec<String>,
}

/// The plan of a site built from `posts` and `pages` with `config`.
pub open spec fn site_plan_ok(plan: SitePlan, posts: Seq<BlogPost>, pages: Seq<BlogPost>, config: Config) -> bool {
    let sorted = plan.sorted_posts@;
    let listed = listed_indices(posts, "post"@);
    let public_pages = listed_indices(pages, "page"@);
    let cats = views(plan.categories@);
    let tags = views(plan.tags@);
    // the post list
    &&& sorted.len() == listed.len()
    &&& forall|x: usize| sorted.contains(x) <==> listed.contains(x)
    &&& sorted_by(sorted, post_order(posts))
    &&& distinct(sorted)
    // the navigation
    &&& plan.public_pages@ == public_pages
    &&& exists|order: Seq<usize>| page_links_ok(order, plan.page_links@, pages, public_pages)
    // comments
    &&& (plan.comments is Some <==> comments_of(config) is Some)
    &&& (plan.comments matches Some(t) ==> template_of(comments_of(config).unwrap(), t))
    // post pages
    &&& plan.post_outputs@.len() == sorted.len()
    &&& forall|k: int| 0 <= k < sorted.len() ==> post_output_ok(#[trigger] plan.post_outputs@[k], posts, sorted, k)
    // standalone pages
    &&& plan.page_outputs@.len() == public_pages.len()
    &&& forall|k: int|
        0 <= k < public_pages.len() ==> (#[trigger] plan.page_outputs@[k]).page == public_pages[k]
            && views(plan.page_outputs@[k].path@) == page_path(pages[public_pages[k] as int])
    // categories, tags and lists
    &&& strictly_increasing(cats)
    &&& (forall|c: Seq<char>| cats.contains(c) <==> label_in_prefix(posts, sorted, sorted.len() as int, c, false))
    &&& strictly_increasing(tags)
    &&& (forall|c: Seq<char>| tags.contains(c) <==> label_in_prefix(posts, sorted, sorted.len() as int, c, true))
    &&& groups_ok(plan.list_outputs@, site_lists(posts, sorted, cats, tags), config.pagination.posts_per_page as nat)
    // the tag index and the feed
    &&& views(plan.tags_path@) == seq!["tags.html"@]
    &&& views(plan.feed_path@) == seq!["rss.xml"@]
}

/// Law: in a site plan, every post page is written where the post's URL
/// points, and every standalone page where the page's URL points.
pub proof fn law_plan_writes_at_urls(plan: SitePlan, posts: Seq<BlogPost>, pages: Seq<BlogPost>, config: Config)
    requires
        site_plan_ok(plan, posts, pages, config),
        forall|i: int| 0 <= i < posts.len() ==> post_url_consistent(#[trigger] posts[i]),
        forall|i: int| 0 <= i < pages.len() ==> (#[trigger] pages[i]).metadata.url@.len() > 0
            && pages[i].metadata.url@[0] == '/' && (pages[i].metadata.url@.len() == 1
            || pages[i].metadata.url@[1] != '/'),
        posts.len() <= usize::MAX,
        pages.len() <= usize::MAX,
    ensures
        forall|k: int|
            0 <= k < plan.post_outputs@.len() ==> {
                let o = #[trigger] plan.post_outputs@[k];
                &&& o.post < posts.len()
                &&& posts[o.post as int].metadata.url@ == "/"@ + joined(views(o.path@))
            },
        forall|k: int|
            0 <= k < plan.page_outputs@.len() ==> {
                let o = #[trigger] plan.page_outputs@[k];
                &&& o.page < pages.len()
                &&& pages[o.page as int].metadata.url@ == "/"@ + views(o.path@)[0]
                &&& views(o.path@)[1] == "index.html"@
            },
{
    reveal_strlit("/");
    lemma_listed_indices(posts, "post"@);
    lemma_listed_indices(pages, "page"@);
    let sorted = plan.sorted_posts@;
    assert forall|k: int| 0 <= k < plan.post_outputs@.len() implies {
        let o = #[trigger] plan.post_outputs@[k];
        &&& o.post < posts.len()
        &&& posts[o.post as int].metadata.url@ == "/"@ + joined(views(o.path@))
    } by {
        assert(post_output_ok(plan.post_outputs@[k], posts, sorted, k));
        assert(sorted.contains(sorted[k]));
        let listed = listed_indices(posts, "post"@);
        let j = choose|j: int| 0 <= j < listed.len() && listed[j] == sorted[k];
        assert(listed[j] < posts.len());
        lemma_post_path_matches_url(posts[sorted[k] as int]);
    }
    let public_pages = listed_indices(pages, "page"@);
    assert forall|k: int| 0 <= k < plan.page_outputs@.len() implies {
        let o = #[trigger] plan.page_outputs@[k];
        &&& o.page < pages.len()
        &&& pages[o.page as int].metadata.url@ == "/"@ + views(o.path@)[0]
        &&& views(o.path@)[1] == "index.html"@
    } by {
        let o = plan.page_outputs@[k];
        assert(public_pages[k] < pages.len());
        let u = pages[o.page as int].metadata.url@;
        assert(drop_while(u, slash_pred()) == drop_while(u.drop_first(), slash_pred()));
        if u.len() > 1 {
            assert(u.drop_first()[0] == u[1]);
        }
        assert(drop_while(u.drop_first(), slash_pred()) == u.drop_first());
        assert(u =~= "/"@ + u.drop_first());
    }
}

/// Law: the plan's post list runs newest first: of two posts in it, the
/// earlier never has the earlier date, and of two posts of the same date the
/// earlier was not modified before the later.  Each post page links back to
/// the post before it and on to the post after it in that list, by title and
/// URL, and the first and last link no further.
pub proof fn law_plan_post_order_and_links(plan: SitePlan, posts: Seq<BlogPost>, pages: Seq<BlogPost>, config: Config)
    requires
        site_plan_ok(plan, posts, pages, config),
    ensures
        forall|i: int, j: int|
            0 <= i < j < plan.sorted_posts@.len() ==> {
                let a = #[trigger] posts[plan.sorted_posts@[i] as int].metadata;
                let b = #[trigger] posts[plan.sorted_posts@[j] as int].metadata;
                &&& !(a.date.year < b.date.year || (a.date.year == b.date.year && a.date.month
                    < b.date.month) || (a.date.year == b.date.year && a.date.month == b.date.month
                    && a.date.day < b.date.day))
                &&& a.date == b.date ==> !str_lt(a.created_at@, b.created_at@)
                &&& a.date == b.date && a.created_at@ == b.created_at@ ==> !str_lt(b.title@, a.title@)
            },
        forall|k: int|
            0 <= k < plan.post_outputs@.len() ==> {
                let o = #[trigger] plan.post_outputs@[k];
                &&& o.post == plan.sorted_posts@[k]
                &&& (k == 0 <==> o.prev is None)
                &&& (k > 0 ==> o.prev.unwrap().title@ == posts[plan.sorted_posts@[k - 1] as int].metadata.title@
                    && o.prev.unwrap().url@ == posts[plan.sorted_posts@[k - 1] as int].metadata.url@)
                &&& (k == plan.post_outputs@.len() - 1 <==> o.next is None)
                &&& (k < plan.post_outputs@.len() - 1 ==> o.next.unwrap().title@
                    == posts[plan.sorted_posts@[k + 1] as int].metadata.title@ && o.next.unwrap().url@
                    == posts[plan.sorted_posts@[k + 1] as int].metadata.url@)
            },
{
    let sorted = plan.sorted_posts@;
    assert forall|i: int, j: int| 0 <= i < j < sorted.len() implies {
        let a = #[trigger] posts[sorted[i] as int].metadata;
        let b = #[trigger] posts[sorted[j] as int].metadata;
        &&& !(a.date.year < b.date.year || (a.date.year == b.date.year && a.date.month < b.date.month)
            || (a.date.year == b.date.year && a.date.month == b.date.month && a.date.day < b.date.day))
        &&& a.date == b.date ==> !str_lt(a.created_at@, b.created_at@)
        &&& a.date == b.date && a.created_at@ == b.created_at@ ==> !str_lt(b.title@, a.title@)
    } by {
        let a = posts[sorted[i] as int].metadata;
        let b = posts[sorted[j] as int].metadata;
        assert(post_order(posts)(sorted[i] as int, sorted[j] as int));
        lemma_newer_order(a, b, b);
        if str_lt(a.created_at@, b.created_at@) {
            lemma_str_lt_asymmetric(a.created_at@, b.created_at@);
            lemma_str_lt_irreflexive(a.created_at@);
        }
        if str_lt(b.title@, a.title@) {
            lemma_str_lt_asymmetric(b.title@, a.title@);
        }
        lemma_str_lt_irreflexive(a.title@);
    }
    assert forall|k: int| 0 <= k < plan.post_outputs@.len() implies {
        let o = #[trigger] plan.post_outputs@[k];
        &&& o.post == sorted[k]
        &&& (k == 0 <==> o.prev is None)
        &&& (k > 0 ==> o.prev.unwrap().title@ == posts[sorted[k - 1] as int].metadata.title@
            && o.prev.unwrap().url@ == posts[sorted[k - 1] as int].metadata.url@)
        &&& (k == plan.post_outputs@.len() - 1 <==> o.next is None)
        &&& (k < plan.post_outputs@.len() - 1 ==> o.next.unwrap().title@ == posts[sorted[k
            + 1] as int].metadata.title@ && o.next.unwrap().url@ == posts[sorted[k + 1] as int].metadata.url@)
    } by {
        assert(post_output_ok(plan.post_outputs@[k], posts, sorted, k));
    }
}

/// Law: the site navigation lists every public page once, each by its label
/// (its title when it has none) and URL; a page with an `order` never comes
/// before one without, lower orders come first, and among equal orders titles
/// come in order.
pub proof fn law_page_links_order(plan: SitePlan, posts: Seq<BlogPost>, pages: Seq<BlogPost>, config: Config)
    requires
        site_plan_ok(plan, posts, pages, config),
    ensures
        exists|order: Seq<usize>|
            {
                &&& #[trigger] order.len() == plan.page_links@.len()
                &&& forall|x: usize| order.contains(x) <==> listed_indices(pages, "page"@).contains(x)
                &&& forall|k: int|
                    0 <= k < order.len() ==> {
                        let p = #[trigger] pages[order[k] as int].metadata;
                        &&& order[k] < pages.len()
                        &&& plan.page_links@[k].url@ == p.url@
                        &&& plan.page_links@[k].label@ == (if p.label is Some {
                            p.label.unwrap()@
                        } else {
                            p.title@
                        })
                    }
                &&& forall|i: int, j: int|
                    0 <= i < j < order.len() ==> {
                        let a = #[trigger] pages[order[i] as int].metadata;
                        let b = #[trigger] pages[order[j] as int].metadata;
                        &&& !(a.order is Some && b.order is None)
                        &&& (a.order is Some && b.order is Some ==> a.order.unwrap() <= b.order.unwrap())
                        &&& a.order == b.order ==> !str_lt(b.title@, a.title@)
                    }
            },
{
    let public_pages = listed_indices(pages, "page"@);
    let order = choose|order: Seq<usize>| page_links_ok(order, plan.page_links@, pages, public_pages);
    assert(page_links_ok(order, plan.page_links@, pages, public_pages));
    assert forall|i: int, j: int| 0 <= i < j < order.len() implies {
        let a = #[trigger] pages[order[i] as int].metadata;
        let b = #[trigger] pages[order[j] as int].metadata;
        &&& !(a.order is Some && b.order is None)
        &&& (a.order is Some && b.order is Some ==> a.order.unwrap() <= b.order.unwrap())
        &&& a.order == b.order ==> !str_lt(b.title@, a.title@)
    } by {
        let a = pages[order[i] as int].metadata;
        let b = pages[order[j] as int].metadata;
        assert(page_order(pages)(order[i] as int, order[j] as int));
        if str_lt(b.title@, a.title@) {
            lemma_str_lt_asymmetric(b.title@, a.title@);
            lemma_str_lt_irreflexive(a.title@);
        }
    }
    assert forall|k: int| 0 <= k < order.len() implies {
        let p = #[trigger] pages[order[k] as int].metadata;
        &&& order[k] < pages.len()
        &&& plan.page_links@[k].url@ == p.url@
        &&& plan.page_links@[k].label@ == (if p.label is Some {
            p.label.unwrap()@
        } else {
            p.title@
        })
    } by {
        assert(page_link_of(pages[order[k] as int], plan.page_links@[k]));
    }
}

/// Plans the site: which pages it has, what each shows and where it goes.
/// Every page is written where the links of the site point: a post as
/// `post/<slug>.html`, a standalone page under its URL as `index.html`, the
/// list of all posts as `index.html`, `index-page-2.html`, ..., the lists of a
/// category and of a tag as `category/<name>.html` and `tag/<name>.html` (page
/// `k > 1` as `<name>-page-<k>.html`), then `tags.html` and `rss.xml`.
pub fn plan_site(posts: &Vec<BlogPost>, pages: &Vec<BlogPost>, config: &Config) -> (plan: SitePlan)
    requires
        config.pagination.posts_per_page > 0,
    ensures
        site_plan_ok(plan, posts@, pages@, *config),
{
    let sorted = sorted_posts(posts);
    assert(posts@.len() == posts.len() && pages@.len() == pages.len());
    proof {
        lemma_listed_indices(posts@, "post"@);
        lemma_listed_indices(pages@, "page"@);
        assert forall|m: int| 0 <= m < sorted@.len() implies #[trigger] sorted@[m] < posts@.len() by {
            assert(sorted@.contains(sorted@[m]));
            let q = choose|q: int|
                0 <= q < listed_indices(posts@, "post"@).len() && listed_indices(posts@, "post"@)[q]
                    == sorted@[m];
        }
    }
    let public_pages = listed(pages, "page");
    let (order, page_links) = build_page_links(pages, &public_pages);
    let comments = build_comments_config(config);
    let mut post_outputs: Vec<PostOutput> = Vec::new();
    let mut k: usize = 0;
    while k < sorted.len()
        invariant
            k <= sorted.len(),
            forall|m: int| 0 <= m < sorted@.len() ==> #[trigger] sorted@[m] < posts@.len(),
            post_outputs@.len() == k,
            forall|m: int| 0 <= m < k ==> post_output_ok(#[trigger] post_outputs@[m], posts@, sorted@, m),
        decreases sorted.len() - k,
    {
        post_outputs.push(post_output(posts, &sorted, k));
        k = k + 1;
    }
    let mut page_outputs: Vec<PageOutput> = Vec::new();
    let mut k: usize = 0;
    while k < public_pages.len()
        invariant
            k <= public_pages.len(),
            public_pages@ == listed_indices(pages@, "page"@),
            forall|m: int|
                0 <= m < listed_indices(pages@, "page"@).len() ==> #[trigger] listed_indices(
                    pages@,
                    "page"@,
                )[m] < pages@.len(),
            page_outputs@.len() == k,
            forall|m: int|
                0 <= m < k ==> (#[trigger] page_outputs@[m]).page == public_pages@[m] && views(
                    page_outputs@[m].path@,
                ) == page_path(pages@[public_pages@[m] as int]),
        decreases public_pages.len() - k,
    {
        let idx = public_pages[k];
        assert(listed_indices(pages@, "page"@)[k as int] < pages@.len());
        let first = trim_leading_slashes(pages[idx].metadata.url.as_str());
        let path = strings_of_segments(first.as_str(), "index.html");
        page_outputs.push(PageOutput { page: idx, path });
        k = k + 1;
    }
    let categories = collect_labels(posts, &sorted, false);
    let tags = collect_labels(posts, &sorted, true);
    let mut list_outputs: Vec<ListOutput> = Vec::new();
    let per_page = config.pagination.posts_per_page;
    push_list_pages(&mut list_outputs, &sorted, "/index", "永远保持初学者的心", per_page);
    let ghost cats_v = views(categories@);
    let ghost tags_v = views(tags@);
    let ghost all = site_lists(posts@, sorted@, cats_v, tags_v);
    proof {
        assert(list_outputs@.skip(0) =~= list_outputs@);
        lemma_groups_ok_push(
            Seq::<ListOutput>::empty(),
            Seq::<ListGroup>::empty(),
            list_outputs@,
            (sorted@, "/index"@, "永远保持初学者的心"@),
            per_page as nat,
        );
        assert(Seq::<ListOutput>::empty() + list_outputs@ =~= list_outputs@);
        assert(Seq::<ListGroup>::empty().push((sorted@, "/index"@, "永远保持初学者的心"@))
            =~= all.take(1));
    }
    let mut c: usize = 0;
    while c < categories.len()
        invariant
            c <= categories.len(),
            cats_v == views(categories@),
            tags_v == views(tags@),
            all == site_lists(posts@, sorted@, cats_v, tags_v),
            forall|m: int| 0 <= m < sorted@.len() ==> #[trigger] sorted@[m] < posts@.len(),
            per_page == config.pagination.posts_per_page,
            per_page > 0,
            groups_ok(list_outputs@, all.take(1 + c), per_page as nat),
        decreases categories.len() - c,
    {
        let cat = &categories[c];
        let group_posts = filter_by_label(posts, &sorted, cat.as_str(), false);
        let mut base: Vec<char> = Vec::new();
        crate::text::push_str(&mut base, "/category/");
        let seg = sanitize_segment(cat.as_str());
        crate::text::push_str(&mut base, seg.as_str());
        let base = crate::text::string_of(&base);
        let mut heading: Vec<char> = Vec::new();
        crate::text::push_str(&mut heading, "分类：");
        crate::text::push_str(&mut heading, cat.as_str());
        let heading = crate::text::string_of(&heading);
        let ghost before = list_outputs@;
        push_list_pages(&mut list_outputs, &group_posts, base.as_str(), heading.as_str(), per_page);
        proof {
            let g = label_group(posts@, sorted@, cat@, false);
            assert(base@ =~= g.1);
            assert(heading@ =~= g.2);
            assert(list_outputs@ =~= before + list_outputs@.skip(before.len() as int));
            lemma_groups_ok_push(before, all.take(1 + c), list_outputs@.skip(before.len() as int), g, per_page as nat);
            assert(all[1 + c] == g);
            assert(all.take(1 + c).push(g) =~= all.take(1 + c + 1));
        }
        c = c + 1;
    }
    let mut t: usize = 0;
    while t < tags.len()
        invariant
            t <= tags.len(),
            c == categories.len(),
            cats_v == views(categories@),
            tags_v == views(tags@),
            all == site_lists(posts@, sorted@, cats_v, tags_v),
            forall|m: int| 0 <= m < sorted@.len() ==> #[trigger] sorted@[m] < posts@.len(),
            per_page == config.pagination.posts_per_page,
            per_page > 0,
            groups_ok(list_outputs@, all.take(1 + c + t), per_page as nat),
        decreases tags.len() - t,
    {
        let tag = &tags[t];
        let group_posts = filter_by_label(posts, &sorted, tag.as_str(), true);
        let mut base: Vec<char> = Vec::new();
        crate::text::push_str(&mut base, "/tag/");
        let seg = sanitize_segment(tag.as_str());
        crate::text::push_str(&mut base, seg.as_str());
        let base = crate::text::string_of(&base);
        let mut heading: Vec<char> = Vec::new();
        crate::text::push_str(&mut heading, "标签：");
        crate::text::push_str(&mut heading, tag.as_str());
        let heading = crate::text::string_of(&heading);
        let ghost before = list_outputs@;
        push_list_pages(&mut list_outputs, &group_posts, base.as_str(), heading.as_str(), per_page);
        proof {
            let g = label_group(posts@, sorted@, tag@, true);
            assert(base@ =~= g.1);
            assert(heading@ =~= g.2);
            assert(list_outputs@ =~= before + list_outputs@.skip(before.len() as int));
            lemma_groups_ok_push(before, all.take(1 + c + t), list_outputs@.skip(before.len() as int), g, per_page as nat);
            assert(all[1 + c + t] == g);
            assert(all.take(1 + c + t).push(g) =~= all.take(1 + c + t + 1));
        }
        t = t + 1;
    }
    proof {
        assert(all.take(1 + c + t) =~= all);
    }
    let plan = SitePlan {
        sorted_posts: sorted,
        public_pages,
        page_links,
        comments,
        post_outputs,
        page_outputs,
        categories,
        tags,
        list_outputs,
        tags_path: one_segment("tags.html"),
        feed_path: one_segment("rss.xml"),
    };
    proof {
        assert(plan.page_links@.len() == public_pages@.len());
        assert(page_links_ok(order@, plan.page_links@, pages@, public_pages@));
    }
    plan
}

} // verus!
