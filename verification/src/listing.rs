//! The paged post list of the single-page blog layout: which posts each list
//! page shows and how the pages link to each other.

use vstd::prelude::*;
use crate::text::{decimal, push_decimal, push_str, string_of};

verus! {

broadcast use vstd::string::group_string_axioms;

/// Posts shown on one list page.
pub const LIST_PER_PAGE: usize = 1;

/// One page of the post list: the posts `start..end` of the list, the page's
/// own address and those of its neighbours (empty where there is none), and
/// the files it is written to.
pub struct ListPage {
    pub number: usize,
    pub start: usize,
    pub end: usize,
    pub current_url: String,
    pub prev_url: String,
    pub next_url: String,
    pub files: Vec<String>,
}

/// The files of list page `p`: `p/list/<p>/index.html`, and for the first page
/// also the list's index, `p/list/index.html`.
pub open spec fn list_files(p: nat) -> Seq<Seq<char>> {
    if p == 1 {
        seq![list_url(p) + "index.html"@, "p/list/index.html"@]
    } else {
        seq![list_url(p) + "index.html"@]
    }
}

/// The address of list page `p`: `p/list/<p>/`.
pub open spec fn list_url(p: nat) -> Seq<char> {
    "p/list/"@ + decimal(p) + "/"@
}

/// The number of the last page that has posts: the posts divided by the page
/// size, rounded up (zero without posts).
pub open spec fn last_page_num(length: nat) -> nat {
    length / (LIST_PER_PAGE as nat) + if length % (LIST_PER_PAGE as nat) > 0 {
        1nat
    } else {
        0nat
    }
}

/// The number of pages written: as many as hold posts, and one without posts.
pub open spec fn list_page_count(length: nat) -> nat {
    if length == 0 {
        1
    } else {
        last_page_num(length)
    }
}

/// Page `p` of a list of `length` posts.  A page links back to the page before
/// it; it links forward to the page after it when more posts follow, and the
/// last of several pages links forward to itself.
pub open spec fn list_page_ok(pg: ListPage, p: nat, length: nat) -> bool {
    let start = ((p - 1) * (LIST_PER_PAGE as nat)) as nat;
    let end = start + LIST_PER_PAGE as nat;
    &&& pg.number == p
    &&& pg.start == start
    &&& pg.end == if end < length {
        end
    } else {
        length
    }
    &&& pg.current_url@ == list_url(p)
    &&& crate::text::views(pg.files@) == list_files(p)
    &&& pg.prev_url@ == if p > 1 {
        list_url((p - 1) as nat)
    } else {
        Seq::<char>::empty()
    }
    &&& pg.next_url@ == if end < length {
        list_url(p + 1)
    } else if p > 1 {
        list_url(p)
    } else {
        Seq::<char>::empty()
    }
}

/// The whole paged list of `length` posts.
pub open spec fn list_pages_ok(pages: Seq<ListPage>, length: nat) -> bool {
    &&& pages.len() == list_page_count(length)
    &&& forall|k: int| 0 <= k < pages.len() ==> list_page_ok(#[trigger] pages[k], (k + 1) as nat, length)
}

fn list_url_string(p: usize) -> (r: String)
    ensures
        r@ == list_url(p as nat),
{
    let mut v: Vec<char> = Vec::new();
    push_str(&mut v, "p/list/");
    push_decimal(&mut v, p as u64);
    push_str(&mut v, "/");
    assert(v@ =~= list_url(p as nat));
    string_of(&v)
}

/// The numbers of the pages that hold posts, `1..=last`.
pub fn page_numbers(last: usize) -> (r: Vec<i32>)
    requires
        last <= i32::MAX,
    ensures
        r@.len() == last,
        forall|k: int| 0 <= k < last ==> #[trigger] r@[k] == k + 1,
{
    let mut r: Vec<i32> = Vec::new();
    let mut i: usize = 0;
    while i < last
        invariant
            i <= last <= i32::MAX,
            r@.len() == i,
            forall|k: int| 0 <= k < i ==> #[trigger] r@[k] == k + 1,
        decreases last - i,
    {
        i = i + 1;
        r.push(i as i32);
    }
    r
}

/// The pages of the list of `length` posts (see `list_pages_ok`), with the
/// number of the last page that holds posts.
pub fn post_list_pages(length: usize) -> (r: (usize, Vec<ListPage>))
    ensures
        r.0 == last_page_num(length as nat),
        list_pages_ok(r.1@, length as nat),
{
    let mut last = length / LIST_PER_PAGE;
    if length % LIST_PER_PAGE > 0 {
        last = last + 1;
    }
    let mut pages: Vec<ListPage> = Vec::new();
    let mut current_page: usize = 1;
    let mut start: usize = 0;
    let mut prev_url = String::new();
    let mut next_url = String::new();
    assert(prev_url@ =~= Seq::<char>::empty());
    loop
        invariant_except_break
            1 <= current_page,
            current_page == 1 || start < length,
            start == current_page - 1,
            pages@.len() == current_page - 1,
            forall|k: int| 0 <= k < pages@.len() ==> list_page_ok(#[trigger] pages@[k], (k + 1) as nat, length as nat),
            current_page > 1 ==> next_url@ == list_url(current_page as nat),
            current_page == 1 ==> next_url@ == Seq::<char>::empty(),
        ensures
            list_pages_ok(pages@, length as nat),
        decreases length - start,
    {
        let end = start + LIST_PER_PAGE;
        let current_url = list_url_string(current_page);
        if current_page > 1 {
            prev_url = list_url_string(current_page - 1);
        } else {
            prev_url = String::new();
        }
        let is_end = end >= length;
        let page_end = if is_end {
            length
        } else {
            next_url = list_url_string(current_page + 1);
            end
        };
        let mut files: Vec<String> = Vec::new();
        files.push(page_file(current_url.as_str()));
        if current_page == 1 {
            files.push("p/list/index.html".to_string());
        }
        assert(crate::text::views(files@) =~= list_files(current_page as nat));
        let page = ListPage {
            files,
            number: current_page,
            start,
            end: page_end,
            current_url,
            prev_url: prev_url.clone(),
            next_url: next_url.clone(),
        };
        assert(list_page_ok(page, current_page as nat, length as nat));
        pages.push(page);
        if is_end {
            assert(pages@.len() == list_page_count(length as nat));
            break;
        }
        current_page = current_page + 1;
        start = end;
    }
    (last, pages)
}

/// The list pages show every post once, in order: the first page starts at the
/// first post, each page starts where the one before it ended, and the last
/// ends at the last post.  Neighbouring pages link to each other.
pub proof fn law_list_pages_cover_posts(pages: Seq<ListPage>, length: nat)
    requires
        list_pages_ok(pages, length),
    ensures
        pages.len() >= 1,
        pages[0].start == 0,
        pages.last().end == length,
        forall|k: int| 0 <= k < pages.len() ==> #[trigger] pages[k].start <= pages[k].end,
        forall|k: int|
            0 <= k < pages.len() - 1 ==> #[trigger] pages[k].end == pages[k + 1].start,
        forall|k: int|
            0 <= k < pages.len() - 1 ==> #[trigger] pages[k].next_url@ == pages[k + 1].current_url@
                && pages[k + 1].prev_url@ == pages[k].current_url@,
{
    assert(list_page_ok(pages[0], 1, length));
    let n = pages.len() as int;
    assert(list_page_ok(pages[n - 1], n as nat, length));
    assert forall|k: int| 0 <= k < pages.len() implies #[trigger] pages[k].start <= pages[k].end by {
        assert(list_page_ok(pages[k], (k + 1) as nat, length));
    }
    assert forall|k: int| 0 <= k < pages.len() - 1 implies #[trigger] pages[k].end == pages[k + 1].start by {
        assert(list_page_ok(pages[k], (k + 1) as nat, length));
        assert(list_page_ok(pages[k + 1], (k + 2) as nat, length));
    }
    assert forall|k: int| 0 <= k < pages.len() - 1 implies #[trigger] pages[k].next_url@
        == pages[k + 1].current_url@ && pages[k + 1].prev_url@ == pages[k].current_url@ by {
        assert(list_page_ok(pages[k], (k + 1) as nat, length));
        assert(list_page_ok(pages[k + 1], (k + 2) as nat, length));
    }
}

/// The file a page at `url` is written to: `<url>index.html`.
pub fn page_file(url: &str) -> (r: String)
    ensures
        r@ == url@ + "index.html"@,
{
    let mut v: Vec<char> = Vec::new();
    push_str(&mut v, url);
    push_str(&mut v, "index.html");
    assert(v@ =~= url@ + "index.html"@);
    string_of(&v)
}

} // verus!
