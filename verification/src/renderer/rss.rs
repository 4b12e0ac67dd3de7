//! The RSS feed of the latest posts.

use vstd::prelude::*;
use chrono::TimeZone;
use crate::config::Config;
use crate::date::{is_calendar_date, Date};
use crate::error::AlogError;
use crate::parser::markdown::BlogPost;
use crate::renderer::html::{is_listed, lemma_listed_indices, listed_indices, post_before, SitePlan, site_plan_ok};
use crate::text::{chars_of, decimal, drop_last_while, push_str, string_from, string_of, zero_pad};

verus! {

broadcast use vstd::string::group_string_axioms;

/// Posts that the feed lists at most.
pub const RSS_ITEM_LIMIT: usize = 20;

/// One entry of the feed.
#[derive(Clone, Debug)]
pub struct RssItem {
    pub title: String,
    pub link: String,
    pub description: String,
    pub pub_date: String,
}

/// An entry by its texts: title, link, description, publication date.
pub type RssItemText = (Seq<char>, Seq<char>, Seq<char>, Seq<char>);

pub open spec fn item_text(i: RssItem) -> RssItemText {
    (i.title@, i.link@, i.description@, i.pub_date@)
}

/// The XML that the `rss` crate writes for a channel with this title, link,
/// description and language, and these items (each with a title, link,
/// description and publication date).
pub uninterp spec fn rss_channel_xml(
    title: Seq<char>,
    link: Seq<char>,
    description: Seq<char>,
    language: Seq<char>,
    items: Seq<RssItemText>,
) -> Seq<char>;

/// Builds an `rss::Channel` with `ChannelBuilder` and its items with
/// `ItemBuilder`, and writes it with `to_string`.  Claimed: the text is the
/// named function of the channel's fields and items.
#[verifier::external_body]
fn channel_xml(
    title: &str,
    link: &str,
    description: &str,
    language: &str,
    items: &Vec<RssItem>,
) -> (r: String)
    ensures
        r@ == rss_channel_xml(
            title@,
            link@,
            description@,
            language@,
            items@.map_values(|i: RssItem| item_text(i)),
        ),
{
    let items: Vec<rss::Item> = items.iter().map(
        |i|
            rss::ItemBuilder::default().title(i.title.clone()).link(i.link.clone()).description(
                i.description.clone(),
            ).pub_date(i.pub_date.clone()).build(),
    ).collect();
    rss::ChannelBuilder::default().title(title).link(link).description(description).language(
        Some(language.to_string()),
    ).items(items).build().to_string()
}

/// Day of the week of a date, 0 for Sunday (Sakamoto's rule on the proleptic
/// Gregorian calendar, with floor division).
pub open spec fn weekday(d: Date) -> int {
    let m = d.month as int;
    let y = if m < 3 {
        d.year - 1
    } else {
        d.year as int
    };
    let t = seq![0int, 3, 2, 5, 0, 3, 5, 1, 4, 6, 2, 4];
    (y + y / 4 - y / 100 + y / 400 + t[m - 1] + d.day) % 7
}

pub open spec fn weekday_name(w: int) -> Seq<char> {
    seq!["Sun"@, "Mon"@, "Tue"@, "Wed"@, "Thu"@, "Fri"@, "Sat"@][w]
}

pub open spec fn month_name(m: int) -> Seq<char> {
    seq!["Jan"@, "Feb"@, "Mar"@, "Apr"@, "May"@, "Jun"@, "Jul"@, "Aug"@, "Sep"@, "Oct"@, "Nov"@, "Dec"@][m
        - 1]
}

/// The RFC 2822 form of midnight UTC on a date, as `chrono` writes it: short
/// weekday, day without padding, short month, four-digit year, then
/// `00:00:00 +0000`; e.g. `Sun, 2 Jan 2022 00:00:00 +0000`.
pub open spec fn rfc2822_midnight(d: Date) -> Seq<char> {
    weekday_name(weekday(d)) + ", "@ + decimal(d.day as nat) + " "@ + month_name(d.month as int)
        + " "@ + zero_pad(decimal(d.year as nat), 4) + " 00:00:00 +0000"@
}

/// Calls `chrono`'s `to_rfc2822` on midnight UTC of the date.  The date must be
/// one `NaiveDate` holds, with a year from 0 to 9999 (`to_rfc2822` panics on
/// others).  Claimed: the text is the named function of the date.
#[verifier::external_body]
fn rfc2822_date(d: Date) -> (r: String)
    requires
        is_calendar_date(d),
        0 <= d.year <= 9999,
    ensures
        r@ == rfc2822_midnight(d),
{
    let day = chrono::NaiveDate::from_ymd_opt(d.year, d.month, d.day).unwrap();
    chrono::Utc.from_utc_datetime(&day.and_hms_opt(0, 0, 0).unwrap()).to_rfc2822()
}

pub open spec fn slash_pred() -> spec_fn(char) -> bool {
    |c: char| c == '/'
}

/// The feed entry of a post: its title, the base URL without trailing slashes
/// followed by the post's URL, its summary (empty when it has none), and
/// midnight UTC of its date.
pub open spec fn feed_item(p: BlogPost, base_url: Seq<char>) -> RssItemText {
    (
        p.metadata.title@,
        drop_last_while(base_url, slash_pred()) + p.metadata.url@,
        match p.metadata.summary {
            Some(s) => s@,
            None => Seq::<char>::empty(),
        },
        rfc2822_midnight(p.metadata.date),
    )
}

/// The posts the feed lists: the first twenty.
pub open spec fn feed_posts(posts: Seq<BlogPost>) -> Seq<BlogPost> {
    if posts.len() <= 20 {
        posts
    } else {
        posts.take(20)
    }
}

/// The feed: a channel titled after the site, linking to `base_url`, in
/// `en-us`, with the entries of the first twenty posts.
pub open spec fn feed_text(posts: Seq<BlogPost>, config: Config, base_url: Seq<char>) -> Seq<char> {
    rss_channel_xml(
        config.site_title@,
        base_url,
        config.site_title@ + " generated with alog"@,
        "en-us"@,
        feed_posts(posts).map_values(|p: BlogPost| feed_item(p, base_url)),
    )
}

/// The dates that the feed can show: dates `NaiveDate` holds, in years 0 to
/// 9999.
pub open spec fn feed_dates_ok(posts: Seq<BlogPost>) -> bool {
    forall|k: int|
        0 <= k < feed_posts(posts).len() ==> is_calendar_date(
            #[trigger] feed_posts(posts)[k].metadata.date,
        ) && 0 <= feed_posts(posts)[k].metadata.date.year <= 9999
}

fn trim_trailing_slashes(s: &str) -> (r: String)
    ensures
        r@ == drop_last_while(s@, slash_pred()),
{
    let v = chars_of(s);
    let mut j: usize = v.len();
    assert(v@.subrange(0, j as int) =~= v@);
    while j > 0 && v[j - 1] == '/'
        invariant
            j <= v.len(),
            drop_last_while(v@, slash_pred()) == drop_last_while(v@.subrange(0, j as int), slash_pred()),
        decreases j,
    {
        assert(v@.subrange(0, j as int).drop_last() =~= v@.subrange(0, j - 1));
        j = j - 1;
    }
    string_from(&v, 0, j)
}

/// The posts at the positions `order`, in that order.
pub open spec fn ordered(posts: Seq<BlogPost>, order: Seq<usize>) -> Seq<BlogPost> {
    order.map_values(|i: usize| posts[i as int])
}

pub open spec fn positions_ok(posts: Seq<BlogPost>, order: Seq<usize>) -> bool {
    forall|k: int| 0 <= k < order.len() ==> #[trigger] order[k] < posts.len()
}

fn identity_order(n: usize) -> (r: Vec<usize>)
    ensures
        r@.len() == n,
        forall|k: int| 0 <= k < n ==> #[trigger] r@[k] == k,
{
    let mut r: Vec<usize> = Vec::new();
    let mut i: usize = 0;
    while i < n
        invariant
            i <= n,
            r@.len() == i,
            forall|k: int| 0 <= k < i ==> #[trigger] r@[k] == k,
        decreases n - i,
    {
        r.push(i);
        i = i + 1;
    }
    r
}

proof fn lemma_identity_ordered(posts: Seq<BlogPost>, order: Seq<usize>)
    requires
        order.len() == posts.len(),
        forall|k: int| 0 <= k < posts.len() ==> #[trigger] order[k] == k,
    ensures
        ordered(posts, order) == posts,
        positions_ok(posts, order),
{
    assert(ordered(posts, order) =~= posts);
}

fn dates_ok_at(posts: &[BlogPost], order: &Vec<usize>) -> (r: bool)
    requires
        positions_ok(posts@, order@),
    ensures
        r == feed_dates_ok(ordered(posts@, order@)),
{
    let n = if order.len() <= RSS_ITEM_LIMIT {
        order.len()
    } else {
        RSS_ITEM_LIMIT
    };
    let ghost shown = feed_posts(ordered(posts@, order@));
    let mut k: usize = 0;
    while k < n
        invariant
            k <= n == shown.len(),
            n <= order@.len(),
            shown == feed_posts(ordered(posts@, order@)),
            positions_ok(posts@, order@),
            forall|m: int| 0 <= m < n ==> shown[m] == posts@[order@[m] as int],
            forall|m: int|
                0 <= m < k ==> is_calendar_date(#[trigger] shown[m].metadata.date) && 0
                    <= shown[m].metadata.date.year <= 9999,
        decreases n - k,
    {
        let d = posts[order[k]].metadata.date;
        if !d.is_valid() || d.year < 0 || d.year > 9999 {
            assert(shown[k as int] == posts@[order@[k as int] as int]);
            return false;
        }
        k = k + 1;
    }
    true
}

/// Law: the feed is the channel of the site (its title, the base URL, the
/// site's description and `en-us`) whose entries are the first twenty posts in
/// order, each with the post's title, the base URL without trailing slashes
/// joined to the post's URL, the post's summary (empty when it has none) and
/// the RFC 2822 form of midnight on the post's date.
pub proof fn law_feed_entries(posts: Seq<BlogPost>, config: Config, base_url: Seq<char>)
    ensures
        feed_text(posts, config, base_url) == rss_channel_xml(
            config.site_title@,
            base_url,
            config.site_title@ + " generated with alog"@,
            "en-us"@,
            Seq::new(
                if posts.len() <= 20 {
                    posts.len()
                } else {
                    20
                },
                |k: int|
                    (
                        posts[k].metadata.title@,
                        drop_last_while(base_url, slash_pred()) + posts[k].metadata.url@,
                        match posts[k].metadata.summary {
                            Some(s) => s@,
                            None => Seq::<char>::empty(),
                        },
                        rfc2822_midnight(posts[k].metadata.date),
                    ),
            ),
        ),
{
    let n: nat = if posts.len() <= 20 {
        posts.len()
    } else {
        20
    };
    let entries = Seq::new(
        n,
        |k: int|
            (
                posts[k].metadata.title@,
                drop_last_while(base_url, slash_pred()) + posts[k].metadata.url@,
                match posts[k].metadata.summary {
                    Some(s) => s@,
                    None => Seq::<char>::empty(),
                },
                rfc2822_midnight(posts[k].metadata.date),
            ),
    );
    let items = feed_posts(posts).map_values(|p: BlogPost| feed_item(p, base_url));
    assert(items.len() == n);
    assert forall|k: int| 0 <= k < n implies items[k] == entries[k] by {
        assert(feed_posts(posts)[k] == posts[k]);
    }
    assert(items =~= entries);
}

/// Whether the feed can show the dates of these posts (see `feed_dates_ok`).
pub fn feed_dates_valid(posts: &[BlogPost]) -> (r: bool)
    ensures
        r == feed_dates_ok(posts@),
{
    let order = identity_order(posts.len());
    proof {
        lemma_identity_ordered(posts@, order@);
    }
    dates_ok_at(posts, &order)
}

/// The feed of the posts at the positions `order`.
fn feed_of(posts: &[BlogPost], order: &Vec<usize>, config: &Config, base_url: &str) -> (r: String)
    requires
        positions_ok(posts@, order@),
        feed_dates_ok(ordered(posts@, order@)),
    ensures
        r@ == feed_text(ordered(posts@, order@), *config, base_url@),
{
    let n = if order.len() <= RSS_ITEM_LIMIT {
        order.len()
    } else {
        RSS_ITEM_LIMIT
    };
    let ghost list = ordered(posts@, order@);
    let ghost shown = feed_posts(list);
    assert(shown.len() == n);
    let base = trim_trailing_slashes(base_url);
    let mut items: Vec<RssItem> = Vec::new();
    let mut k: usize = 0;
    while k < n
        invariant
            k <= n == shown.len(),
            list == ordered(posts@, order@),
            shown == feed_posts(list),
            n <= order@.len(),
            positions_ok(posts@, order@),
            forall|m: int| 0 <= m < n ==> shown[m] == posts@[order@[m] as int],
            feed_dates_ok(list),
            base@ == drop_last_while(base_url@, slash_pred()),
            items@.len() == k,
            forall|m: int| 0 <= m < k ==> item_text(#[trigger] items@[m]) == feed_item(shown[m], base_url@),
        decreases n - k,
    {
        let p = &posts[order[k]];
        assert(shown[k as int] == posts@[order@[k as int] as int]);
        let mut link: Vec<char> = Vec::new();
        push_str(&mut link, base.as_str());
        push_str(&mut link, p.metadata.url.as_str());
        let link = string_of(&link);
        let description = match &p.metadata.summary {
            Some(s) => s.clone(),
            None => String::new(),
        };
        let pub_date = rfc2822_date(p.metadata.date);
        items.push(RssItem { title: p.metadata.title.clone(), link, description, pub_date });
        k = k + 1;
    }
    assert(items@.map_values(|i: RssItem| item_text(i)) =~= shown.map_values(
        |p: BlogPost| feed_item(p, base_url@),
    ));
    let mut desc: Vec<char> = Vec::new();
    push_str(&mut desc, config.site_title.as_str());
    push_str(&mut desc, " generated with alog");
    let desc = string_of(&desc);
    channel_xml(config.site_title.as_str(), base_url, desc.as_str(), "en-us", &items)
}

/// The RSS feed of the latest twenty posts, as XML.
pub fn generate_rss_feed(posts: &[BlogPost], config: &Config, base_url: &str) -> (r: Result<String, AlogError>)
    requires
        feed_dates_ok(posts@),
    ensures
        r matches Ok(xml) && xml@ == feed_text(posts@, *config, base_url@),
{
    let order = identity_order(posts.len());
    proof {
        lemma_identity_ordered(posts@, order@);
    }
    Ok(feed_of(posts, &order, config, base_url))
}

/// Law: the site's feed takes the plan's posts, which lie within `posts`, are
/// all public posts, and come newest first.
pub proof fn law_site_feed_newest_first(
    plan: SitePlan,
    posts: Seq<BlogPost>,
    pages: Seq<BlogPost>,
    config: Config,
)
    requires
        site_plan_ok(plan, posts, pages, config),
        posts.len() <= usize::MAX,
    ensures
        positions_ok(posts, plan.sorted_posts@),
        forall|k: int|
            0 <= k < plan.sorted_posts@.len() ==> is_listed(
                #[trigger] ordered(posts, plan.sorted_posts@)[k],
                "post"@,
            ),
        forall|i: int, j: int|
            0 <= i < j < plan.sorted_posts@.len() ==> post_before(
                posts,
                plan.sorted_posts@[i] as int,
                plan.sorted_posts@[j] as int,
            ),
{
    let sorted = plan.sorted_posts@;
    let listed = listed_indices(posts, "post"@);
    lemma_listed_indices(posts, "post"@);
    assert forall|k: int| 0 <= k < sorted.len() implies #[trigger] sorted[k] < posts.len() && is_listed(
        posts[sorted[k] as int],
        "post"@,
    ) by {
        assert(sorted.contains(sorted[k]));
        let q = choose|q: int| 0 <= q < listed.len() && listed[q] == sorted[k];
        assert(listed[q] < posts.len());
    }
    assert forall|k: int| 0 <= k < sorted.len() implies is_listed(
        #[trigger] ordered(posts, sorted)[k],
        "post"@,
    ) by {
        assert(sorted[k] < posts.len());
    }
}

/// The address the site's feed links to.
pub open spec fn site_base_url() -> Seq<char> {
    "http://localhost:7878"@
}

/// The site's feed, `rss.xml`: the feed of the plan's public posts, newest
/// first, linking to `http://localhost:7878`.  None when a position of the plan
/// lies outside `posts` or the feed cannot show a date (see `feed_dates_ok`).
pub fn site_feed(posts: &Vec<BlogPost>, plan: &SitePlan, config: &Config) -> (r: Option<String>)
    ensures
        r is Some <==> positions_ok(posts@, plan.sorted_posts@) && feed_dates_ok(
            ordered(posts@, plan.sorted_posts@),
        ),
        r matches Some(xml) ==> xml@ == feed_text(
            ordered(posts@, plan.sorted_posts@),
            *config,
            site_base_url(),
        ),
{
    let order = &plan.sorted_posts;
    let mut k: usize = 0;
    while k < order.len()
        invariant
            k <= order@.len(),
            order@ == plan.sorted_posts@,
            forall|m: int| 0 <= m < k ==> #[trigger] order@[m] < posts@.len(),
        decreases order.len() - k,
    {
        if order[k] >= posts.len() {
            assert(!positions_ok(posts@, order@));
            return None;
        }
        k = k + 1;
    }
    if !dates_ok_at(posts.as_slice(), order) {
        return None;
    }
    Some(feed_of(posts.as_slice(), order, config, "http://localhost:7878"))
}

} // verus!
