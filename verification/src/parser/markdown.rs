//! Posts and pages: their metadata, derived from frontmatter, file name and
//! directories, and their HTML.

use vstd::prelude::*;
use chrono::Datelike;
use crate::date::{
    chrono_parse_date, chrono_parse_datetime_date, iso_text, parse_date_with_format,
    parse_datetime_date_with_format, two_digit_text, year_text, Date,
};
use crate::error::AlogError;
use crate::paths::{path_file_name, path_file_stem, std_file_name, std_file_stem};
use crate::text::{
    chars_of, decimal, digit_or_dash_pred, drop_while, find_para_end, first_paragraph,
    is_blank, push_decimal, push_range, push_str, remove_all, remove_all_exec,
    remove_stars_and_ticks, segment_chars, skip_digits_and_dashes, slug_text, string_from,
    clone_opt, clone_strings, opt_view, owned, string_of, trim, trim_bounds, trim_dash_bounds, trimmed, truncated, views,
    without_stars_and_ticks,
};
use super::frontmatter::{
    directory_date, extract_directory_date, extract_filename_date, filename_date,
    frontmatter_split, split_frontmatter, FrontMatter,
};

verus! {

broadcast use vstd::string::group_string_axioms;

/// Whether a file is a dated post or a standalone page.
#[derive(Clone, Copy, Debug, PartialEq, Eq, Structural)]
pub enum ContentKind {
    Post,
    Page,
}

/// What a post or page shows, and where it goes.
#[derive(Clone, Debug)]
pub struct PostMetadata {
    pub title: String,
    pub date: Date,
    pub category: String,
    pub categories: Vec<String>,
    pub tags: Vec<String>,
    pub summary: Option<String>,
    pub slug: String,
    pub url: String,
    pub created_at: String,
    pub year: String,
    pub month: String,
    pub day: String,
    pub formatted_date: String,
    pub html_content: String,
    pub order: Option<usize>,
    pub label: Option<String>,
    pub path: Option<String>,
    pub layout: Option<String>,
    pub draft: bool,
    pub private: bool,
    pub kind: String,
}

/// A parsed Markdown file: its metadata and its Markdown body.
#[derive(Clone, Debug)]
pub struct BlogPost {
    pub metadata: PostMetadata,
    pub content: String,
}

/// The moment a file was last modified, as its UTC date and its
/// `%Y-%m-%d %H:%M:%S` text.
#[derive(Clone, Debug)]
pub struct Timestamp {
    pub date: Date,
    pub text: String,
}

/// What `chrono` gives for a UNIX time in seconds: the UTC date and the
/// `%Y-%m-%d %H:%M:%S` text, or nothing when the time is out of its range.
pub uninterp spec fn chrono_utc(secs: int) -> Option<(Date, Seq<char>)>;

/// Calls `chrono::DateTime::<Utc>::from_timestamp(secs, 0)`, then `date_naive`
/// and `format("%Y-%m-%d %H:%M:%S")`.  Claimed: the result is the named
/// function of `secs`.
#[verifier::external_body]
fn utc_from_unix(secs: i64) -> (r: Option<(Date, String)>)
    ensures
        r matches Some(p) ==> chrono_utc(secs as int) == Some((p.0, p.1@)),
        r is None ==> chrono_utc(secs as int) is None,
{
    chrono::DateTime::<chrono::Utc>::from_timestamp(secs, 0).map(
        |t| {
            let d = t.date_naive();
            (
                Date { year: d.year(), month: d.month(), day: d.day() },
                t.format("%Y-%m-%d %H:%M:%S").to_string(),
            )
        },
    )
}

impl Timestamp {
    /// The UTC timestamp of a UNIX time in seconds.
    pub fn from_unix(secs: i64) -> (r: Option<Timestamp>)
        ensures
            r matches Some(t) ==> chrono_utc(secs as int) == Some((t.date, t.text@)),
            r is None ==> chrono_utc(secs as int) is None,
    {
        match utc_from_unix(secs) {
            Some((date, text)) => Some(Timestamp { date, text }),
            None => None,
        }
    }
}

/// What `pulldown_cmark` renders a Markdown text to.
pub uninterp spec fn commonmark_html(markdown: Seq<char>) -> Seq<char>;

/// Renders Markdown to HTML with `pulldown_cmark` (its `Parser` and
/// `html::push_html`).  Claimed: the result is the named function of the text.
#[verifier::external_body]
pub fn markdown_to_html(markdown: &str) -> (r: String)
    ensures
        r@ == commonmark_html(markdown@),
{
    let parser = pulldown_cmark::Parser::new(markdown);
    let mut html_output = String::new();
    pulldown_cmark::html::push_html(&mut html_output, parser);
    html_output
}

/// The summary drawn from a Markdown body: its first paragraph with heading
/// marks, bold and emphasis stars and backticks removed, trimmed, cut to 200
/// characters; none for an empty body.
pub open spec fn summary_of(markdown: Seq<char>) -> Option<Seq<char>> {
    let content = trim(markdown);
    if content.len() == 0 {
        None
    } else {
        let para = first_paragraph(content);
        let clean = trim(
            without_stars_and_ticks(
                remove_all(
                    remove_all(remove_all(remove_all(para, "# "@), "## "@), "### "@),
                    "**"@,
                ),
            ),
        );
        Some(truncated(clean, 200))
    }
}

/// Law: a post has a summary exactly when its text is not blank; a summary
/// holds at most 203 characters (200 and the `...` of a cut) and never a `*`
/// or a backtick.
pub proof fn law_summary_shape(markdown: Seq<char>)
    ensures
        summary_of(markdown) is None <==> trim(markdown).len() == 0,
        summary_of(markdown) is Some ==> summary_of(markdown).unwrap().len() <= 203,
        summary_of(markdown) is Some ==> forall|i: int|
            0 <= i < summary_of(markdown).unwrap().len() ==> #[trigger] summary_of(markdown).unwrap()[i]
                != '*' && summary_of(markdown).unwrap()[i] != '`',
{
    let content = trim(markdown);
    if content.len() > 0 {
        let para = first_paragraph(content);
        let pred = |c: char| c != '*' && c != '`';
        let f = without_stars_and_ticks(
            remove_all(remove_all(remove_all(remove_all(para, "# "@), "## "@), "### "@), "**"@),
        );
        let a = drop_while(f, crate::text::ws_pred());
        crate::text::lemma_drop_while_len(f, crate::text::ws_pred());
        let clean = crate::text::drop_last_while(a, crate::text::ws_pred());
        crate::text::lemma_drop_last_while_prefix(a, crate::text::ws_pred());
        assert(clean == trim(f));
        assert forall|i: int| 0 <= i < clean.len() implies clean[i] != '*' && clean[i] != '`' by {
            assert(clean[i] == a[i]);
            assert(a[i] == f[f.len() - a.len() + i]);
            let g = remove_all(remove_all(remove_all(remove_all(para, "# "@), "## "@), "### "@), "**"@);
            g.lemma_filter_pred(pred, f.len() - a.len() + i);
        }
        let r = truncated(clean, 200);
        reveal_strlit("...");
        assert forall|i: int| 0 <= i < r.len() implies #[trigger] r[i] != '*' && r[i] != '`' by {
            if clean.len() > 200 && i >= 200 {
                assert(r[i] == "..."@[i - 200]);
            } else {
                assert(r[i] == clean[i]);
            }
        }
    }
}

/// The text cut to `max_chars` characters, with `...` appended when it was
/// longer.
pub fn truncate_chars(value: &str, max_chars: usize) -> (r: String)
    ensures
        r@ == truncated(value@, max_chars as nat),
{
    let v = chars_of(value);
    let v = &v;
    if v.len() <= max_chars {
        return string_of(v);
    }
    let mut out: Vec<char> = Vec::new();
    push_range(&mut out, v, 0, max_chars);
    push_str(&mut out, "...");
    assert(v@.subrange(0, max_chars as int) =~= v@.take(max_chars as int));
    string_of(&out)
}

/// The summary of a post: the first paragraph of its trimmed text, Markdown
/// marks removed, at most 200 characters (see `summary_of`); none when the text
/// is blank.
pub fn generate_summary(markdown_content: &str) -> (r: Option<String>)
    ensures
        r matches Some(s) ==> summary_of(markdown_content@) == Some(s@),
        r is None ==> summary_of(markdown_content@) is None,
{
    let v = chars_of(markdown_content);
    let (lo, hi) = trim_bounds(&v, 0, v.len());
    assert(v@.subrange(0, v@.len() as int) =~= v@);
    if lo == hi {
        return None;
    }
    let content = string_from(&v, lo, hi);
    let cv = chars_of(content.as_str());
    let e = find_para_end(&cv);
    let mut para: Vec<char> = Vec::new();
    push_range(&mut para, &cv, 0, e);
    assert(para@ =~= first_paragraph(cv@));
    let a = remove_all_exec(&para, "# ");
    let b = remove_all_exec(&a, "## ");
    let c = remove_all_exec(&b, "### ");
    let d = remove_all_exec(&c, "**");
    let f = remove_stars_and_ticks(&d);
    let (i, j) = trim_bounds(&f, 0, f.len());
    assert(f@.subrange(0, f@.len() as int) =~= f@);
    let mut clean: Vec<char> = Vec::new();
    push_range(&mut clean, &f, i, j);
    assert(clean@ =~= f@.subrange(i as int, j as int));
    let clean = string_of(&clean);
    Some(truncate_chars(clean.as_str(), 200))
}

/// The formats tried, in order, on a frontmatter date with a time of day.
pub open spec fn datetime_formats() -> Seq<Seq<char>> {
    seq![
        "%Y-%m-%d %H:%M"@,
        "%Y-%m-%d %H:%M:%S"@,
        "%Y-%-m-%-d %H:%M"@,
        "%Y-%-m-%-d %H:%M:%S"@,
        "%Y/%m/%d %H:%M"@,
        "%Y/%-m/%-d %H:%M"@,
        "%Y%m%d%H%M"@,
    ]
}

/// The formats tried, in order, on a frontmatter date without a time.
pub open spec fn date_only_formats() -> Seq<Seq<char>> {
    seq!["%Y-%m-%d"@, "%Y-%-m-%-d"@, "%Y/%m/%d"@, "%Y/%-m/%-d"@]
}

/// The date of the first of the formats that reads `text` as a date and time.
pub open spec fn first_datetime_match(text: Seq<char>, formats: Seq<Seq<char>>) -> Option<Date>
    decreases formats.len(),
{
    if formats.len() == 0 {
        None
    } else {
        match chrono_parse_datetime_date(text, formats[0]) {
            Some(d) => Some(d),
            None => first_datetime_match(text, formats.drop_first()),
        }
    }
}

/// The first of the formats that reads `text` as a date.
pub open spec fn first_date_match(text: Seq<char>, formats: Seq<Seq<char>>) -> Option<Date>
    decreases formats.len(),
{
    if formats.len() == 0 {
        None
    } else {
        match chrono_parse_date(text, formats[0]) {
            Some(d) => Some(d),
            None => first_date_match(text, formats.drop_first()),
        }
    }
}

/// The date a frontmatter value gives: trimmed, it is read with each date-and-
/// time format, then with each date format, and the first that fits counts.
pub open spec fn date_value(value: Seq<char>) -> Option<Date> {
    let t = trim(value);
    match first_datetime_match(t, datetime_formats()) {
        Some(d) => Some(d),
        None => first_date_match(t, date_only_formats()),
    }
}

fn first_datetime_exec(text: &str, formats: &Vec<&str>) -> (r: Option<Date>)
    ensures
        r == first_datetime_match(text@, formats@.map_values(|f: &str| f@)),
{
    let ghost all = formats@.map_values(|f: &str| f@);
    let mut i: usize = 0;
    assert(all.skip(0) =~= all);
    while i < formats.len()
        invariant
            i <= formats.len(),
            all == formats@.map_values(|f: &str| f@),
            first_datetime_match(text@, all) == first_datetime_match(text@, all.skip(i as int)),
        decreases formats.len() - i,
    {
        assert(all.skip(i as int)[0] == formats@[i as int]@);
        assert(all.skip(i as int).drop_first() =~= all.skip(i + 1));
        let d = parse_datetime_date_with_format(text, formats[i]);
        if d.is_some() {
            return d;
        }
        i = i + 1;
    }
    assert(all.skip(i as int) =~= Seq::<Seq<char>>::empty());
    None
}

fn first_date_exec(text: &str, formats: &Vec<&str>) -> (r: Option<Date>)
    ensures
        r == first_date_match(text@, formats@.map_values(|f: &str| f@)),
{
    let ghost all = formats@.map_values(|f: &str| f@);
    let mut i: usize = 0;
    assert(all.skip(0) =~= all);
    while i < formats.len()
        invariant
            i <= formats.len(),
            all == formats@.map_values(|f: &str| f@),
            first_date_match(text@, all) == first_date_match(text@, all.skip(i as int)),
        decreases formats.len() - i,
    {
        assert(all.skip(i as int)[0] == formats@[i as int]@);
        assert(all.skip(i as int).drop_first() =~= all.skip(i + 1));
        let d = parse_date_with_format(text, formats[i]);
        if d.is_some() {
            return d;
        }
        i = i + 1;
    }
    assert(all.skip(i as int) =~= Seq::<Seq<char>>::empty());
    None
}

/// The date a frontmatter value gives (see `date_value`).
pub fn parse_date_value(value: &str) -> (r: Option<Date>)
    ensures
        r == date_value(value@),
{
    let t = trimmed(value);
    let with_time = vec![
        "%Y-%m-%d %H:%M",
        "%Y-%m-%d %H:%M:%S",
        "%Y-%-m-%-d %H:%M",
        "%Y-%-m-%-d %H:%M:%S",
        "%Y/%m/%d %H:%M",
        "%Y/%-m/%-d %H:%M",
        "%Y%m%d%H%M",
    ];
    assert(with_time@.map_values(|f: &str| f@) =~= datetime_formats());
    match first_datetime_exec(t.as_str(), &with_time) {
        Some(d) => Some(d),
        None => {
            let date_formats = vec!["%Y-%m-%d", "%Y-%-m-%-d", "%Y/%m/%d", "%Y/%-m/%-d"];
            assert(date_formats@.map_values(|f: &str| f@) =~= date_only_formats());
            first_date_exec(t.as_str(), &date_formats)
        },
    }
}

/// The file stem of a file name, or the name itself when it has none.
pub open spec fn stem_or_name(filename: Seq<char>) -> Seq<char> {
    match std_file_stem(filename) {
        Some(s) => s,
        None => filename,
    }
}

/// The title a post without one gets: its file stem without the leading digits
/// and dashes of a date, trimmed.
pub open spec fn fallback_title_text(filename: Seq<char>) -> Seq<char> {
    trim(drop_while(stem_or_name(filename), digit_or_dash_pred()))
}

fn stem_chars(filename: &str) -> (r: Vec<char>)
    ensures
        r@ == stem_or_name(filename@),
{
    match path_file_stem(filename) {
        Some(s) => chars_of(s.as_str()),
        None => chars_of(filename),
    }
}

/// The title of a file without one: see `fallback_title_text`.
pub fn fallback_title(filename: &str) -> (r: String)
    ensures
        r@ == fallback_title_text(filename@),
{
    let stem = stem_chars(filename);
    let k = skip_digits_and_dashes(&stem);
    assert(stem@.skip(k as int) =~= stem@.subrange(k as int, stem.len() as int));
    let (i, j) = trim_bounds(&stem, k, stem.len());
    string_from(&stem, i, j)
}

/// A text as a slug: see `slug_text`.
pub fn normalize_slug(value: &str) -> (r: String)
    ensures
        r@ == slug_text(value@),
{
    let v = segment_chars(value);
    let (i, j) = trim_dash_bounds(&v);
    string_from(&v, i, j)
}

/// The slug that the frontmatter asks for: a page's `path`, else its `slug`;
/// a post's `slug`.
pub open spec fn explicit_slug(frontmatter: Option<FrontMatter>, kind: ContentKind) -> Option<
    Seq<char>,
> {
    match frontmatter {
        None => None,
        Some(fm) => if kind == ContentKind::Page && fm.path is Some {
            opt_view(fm.path)
        } else {
            opt_view(fm.slug)
        },
    }
}

/// The slug of a file: the explicit one when it is not blank, else the file
/// stem without its date prefix (the whole stem when nothing else is left),
/// normalized by `slug_text`.
pub open spec fn derived_slug(
    filename: Seq<char>,
    frontmatter: Option<FrontMatter>,
    kind: ContentKind,
) -> Seq<char> {
    match explicit_slug(frontmatter, kind) {
        Some(e) if trim(e).len() > 0 => slug_text(e),
        _ => {
            let stem = stem_or_name(filename);
            let rest = drop_while(stem, digit_or_dash_pred());
            slug_text(
                if rest.len() == 0 {
                    stem
                } else {
                    rest
                },
            )
        },
    }
}

/// The slug of a post or page: see `derived_slug`.
pub fn derive_slug(filename: &str, frontmatter: &Option<FrontMatter>, kind: ContentKind) -> (r:
    String)
    ensures
        r@ == derived_slug(filename@, *frontmatter, kind),
{
    let explicit: Option<&String> = match frontmatter {
        None => None,
        Some(fm) => if kind == ContentKind::Page && fm.path.is_some() {
            fm.path.as_ref()
        } else {
            fm.slug.as_ref()
        },
    };
    if let Some(e) = explicit {
        if !is_blank(e.as_str()) {
            return normalize_slug(e.as_str());
        }
    }
    let stem = stem_chars(filename);
    let k = skip_digits_and_dashes(&stem);
    if k == stem.len() {
        assert(stem@.skip(k as int).len() == 0);
        let whole = string_of(&stem);
        normalize_slug(whole.as_str())
    } else {
        let rest = string_from(&stem, k, stem.len());
        assert(stem@.skip(k as int) =~= stem@.subrange(k as int, stem.len() as int));
        normalize_slug(rest.as_str())
    }
}

/// The URL of a post, `/post/<slug>.html`, where the site writes it; or of a
/// page, `/p/<slug>/`.
pub open spec fn url_text(date: Date, slug: Seq<char>, kind: ContentKind) -> Seq<char> {
    match kind {
        ContentKind::Post => "/post/"@ + slug + ".html"@,
        ContentKind::Page => "/p/"@ + slug + "/"@,
    }
}

/// The URL of a post or page: see `url_text`.
pub fn ablog_url(date: Date, slug: &str, kind: ContentKind) -> (r: String)
    ensures
        r@ == url_text(date, slug@, kind),
{
    let mut v: Vec<char> = Vec::new();
    match kind {
        ContentKind::Post => {
            push_str(&mut v, "/post/");
            push_str(&mut v, slug);
            push_str(&mut v, ".html");
        },
        ContentKind::Page => {
            push_str(&mut v, "/p/");
            push_str(&mut v, slug);
            push_str(&mut v, "/");
        },
    }
    assert(v@ =~= url_text(date, slug@, kind));
    string_of(&v)
}

/// The date the frontmatter gives: `date`, or `post-date` when `date` is absent,
/// read by `date_value`.
pub open spec fn frontmatter_date(frontmatter: Option<FrontMatter>) -> Option<Date> {
    match frontmatter {
        None => None,
        Some(fm) => match fm.date {
            Some(d) => date_value(d@),
            None => match fm.post_date {
                Some(p) => date_value(p@),
                None => None,
            },
        },
    }
}

/// The date of a post: from its frontmatter, else from its file name, else
/// from its directories, else the day it was last modified.
pub open spec fn post_date(
    frontmatter: Option<FrontMatter>,
    filename: Seq<char>,
    path: Seq<char>,
    modified: Date,
) -> Date {
    match frontmatter_date(frontmatter) {
        Some(d) => d,
        None => match filename_date(filename) {
            Ok(d) => d,
            Err(_) => match directory_date(path) {
                Some(d) => d,
                None => modified,
            },
        },
    }
}

/// The title: the frontmatter's when it is not blank, else `fallback_title_text`.
pub open spec fn post_title(frontmatter: Option<FrontMatter>, filename: Seq<char>) -> Seq<char> {
    match frontmatter {
        Some(fm) => match fm.title {
            Some(t) if trim(t@).len() > 0 => t@,
            _ => fallback_title_text(filename),
        },
        None => fallback_title_text(filename),
    }
}

/// The categories: the frontmatter's list, or its single `category` when the
/// list is empty.
pub open spec fn post_categories(frontmatter: Option<FrontMatter>) -> Seq<Seq<char>> {
    match frontmatter {
        None => seq![],
        Some(fm) => if fm.categories@.len() == 0 {
            match fm.category {
                Some(c) => seq![c@],
                None => seq![],
            }
        } else {
            views(fm.categories@)
        },
    }
}

/// `"post"` or `"page"`.
pub open spec fn kind_text(kind: ContentKind) -> Seq<char> {
    match kind {
        ContentKind::Post => "post"@,
        ContentKind::Page => "page"@,
    }
}

/// The post that a Markdown file gives, field by field: `path` is where it was
/// read from, `content` its text, `frontmatter` what its YAML block parsed to
/// (none when absent or invalid), `modified` when it was last changed.
pub open spec fn post_from_source(
    post: BlogPost,
    path: Seq<char>,
    content: Seq<char>,
    frontmatter: Option<FrontMatter>,
    modified: Timestamp,
    kind: ContentKind,
) -> bool {
    let filename = std_file_name(path).unwrap();
    let body = frontmatter_split(content).1;
    let date = post_date(frontmatter, filename, path, modified.date);
    let slug = derived_slug(filename, frontmatter, kind);
    let cats = post_categories(frontmatter);
    let m = post.metadata;
    &&& post.content@ == body
    &&& m.title@ == post_title(frontmatter, filename)
    &&& m.date == date
    &&& views(m.categories@) == cats
    &&& m.category@ == (if cats.len() > 0 {
        cats[0]
    } else {
        Seq::<char>::empty()
    })
    &&& views(m.tags@) == (match frontmatter {
        Some(fm) => views(fm.tags@),
        None => seq![],
    })
    &&& opt_view(m.summary) == (match frontmatter {
        Some(fm) if fm.summary is Some => opt_view(fm.summary),
        _ => summary_of(body),
    })
    &&& m.slug@ == slug
    &&& m.url@ == url_text(date, slug, kind)
    &&& m.created_at@ == modified.text@
    &&& m.year@ == year_text(date.year as int)
    &&& m.month@ == two_digit_text(date.month as int)
    &&& m.day@ == two_digit_text(date.day as int)
    &&& m.formatted_date@ == iso_text(date)
    &&& m.html_content@ == commonmark_html(body)
    &&& m.order == (match frontmatter {
        Some(fm) => fm.order,
        None => None,
    })
    &&& m.label == (match frontmatter {
        Some(fm) => fm.label,
        None => None,
    })
    &&& m.path == (match frontmatter {
        Some(fm) => fm.path,
        None => None,
    })
    &&& m.layout == (match frontmatter {
        Some(fm) => fm.layout,
        None => None,
    })
    &&& m.draft == (match frontmatter {
        Some(fm) => fm.draft,
        None => false,
    })
    &&& m.private == (match frontmatter {
        Some(fm) => fm.private,
        None => false,
    })
    &&& m.kind@ == kind_text(kind)
}

fn frontmatter_date_exec(frontmatter: &Option<FrontMatter>) -> (r: Option<Date>)
    ensures
        r == frontmatter_date(*frontmatter),
{
    match frontmatter {
        None => None,
        Some(fm) => match &fm.date {
            Some(d) => parse_date_value(d.as_str()),
            None => match &fm.post_date {
                Some(p) => parse_date_value(p.as_str()),
                None => None,
            },
        },
    }
}

fn categories_of(frontmatter: &Option<FrontMatter>) -> (r: Vec<String>)
    ensures
        views(r@) == post_categories(*frontmatter),
{
    match frontmatter {
        None => {
            let r: Vec<String> = Vec::new();
            assert(views(r@) =~= seq![]);
            r
        },
        Some(fm) => {
            if fm.categories.len() == 0 {
                let mut r: Vec<String> = Vec::new();
                match &fm.category {
                    Some(c) => {
                        r.push(c.clone());
                        assert(views(r@) =~= seq![c@]);
                    },
                    None => {
                        assert(views(r@) =~= seq![]);
                    },
                }
                r
            } else {
                clone_strings(&fm.categories)
            }
        },
    }
}

/// Law: the date of a post read with frontmatter.  The `date` key gives it
/// when it reads as a date; without a `date` key, the `post-date` key does.
/// When the key that counts is absent or does not read as a date, the post is
/// dated as if it had no frontmatter.
pub proof fn law_frontmatter_dates(
    post: BlogPost,
    bare: BlogPost,
    path: Seq<char>,
    content: Seq<char>,
    bare_content: Seq<char>,
    fm: FrontMatter,
    modified: Timestamp,
    kind: ContentKind,
)
    requires
        post_from_source(post, path, content, Some(fm), modified, kind),
        post_from_source(bare, path, bare_content, None, modified, kind),
    ensures
        fm.date is Some && date_value(fm.date.unwrap()@) is Some ==> post.metadata.date == date_value(
            fm.date.unwrap()@,
        ).unwrap(),
        fm.date is None && fm.post_date is Some && date_value(fm.post_date.unwrap()@) is Some
            ==> post.metadata.date == date_value(fm.post_date.unwrap()@).unwrap(),
        fm.date is Some && date_value(fm.date.unwrap()@) is None ==> post.metadata.date
            == bare.metadata.date,
        fm.date is None && fm.post_date is None ==> post.metadata.date == bare.metadata.date,
        fm.date is None && fm.post_date is Some && date_value(fm.post_date.unwrap()@) is None
            ==> post.metadata.date == bare.metadata.date,
{
}

/// Law: the slug and URL of a file read with frontmatter.  A page takes its
/// `path` when it has one, else its `slug`; a post takes its `slug`.  A value
/// that is blank once trimmed counts for nothing, and the file is then named
/// as if it had no frontmatter.  The URL follows the slug.
pub proof fn law_frontmatter_slugs(
    post: BlogPost,
    bare: BlogPost,
    path: Seq<char>,
    content: Seq<char>,
    bare_content: Seq<char>,
    fm: FrontMatter,
    modified: Timestamp,
    kind: ContentKind,
)
    requires
        post_from_source(post, path, content, Some(fm), modified, kind),
        post_from_source(bare, path, bare_content, None, modified, kind),
    ensures
        kind == ContentKind::Page && fm.path is Some && trim(fm.path.unwrap()@).len() > 0
            ==> post.metadata.slug@ == slug_text(fm.path.unwrap()@) && post.metadata.url@ == "/p/"@
            + slug_text(fm.path.unwrap()@) + "/"@,
        kind == ContentKind::Page && fm.path is None && fm.slug is Some && trim(fm.slug.unwrap()@).len()
            > 0 ==> post.metadata.slug@ == slug_text(fm.slug.unwrap()@) && post.metadata.url@ == "/p/"@
            + slug_text(fm.slug.unwrap()@) + "/"@,
        kind == ContentKind::Post && fm.slug is Some && trim(fm.slug.unwrap()@).len() > 0
            ==> post.metadata.slug@ == slug_text(fm.slug.unwrap()@) && post.metadata.url@ == "/post/"@
            + slug_text(fm.slug.unwrap()@) + ".html"@,
        kind == ContentKind::Page && fm.path is Some && trim(fm.path.unwrap()@).len() == 0
            ==> post.metadata.slug@ == bare.metadata.slug@ && post.metadata.url@ == bare.metadata.url@,
        kind == ContentKind::Page && fm.path is None && fm.slug is None ==> post.metadata.slug@
            == bare.metadata.slug@ && post.metadata.url@ == bare.metadata.url@,
        kind == ContentKind::Post && fm.slug is None ==> post.metadata.slug@ == bare.metadata.slug@
            && post.metadata.url@ == bare.metadata.url@,
{
}

/// Law: what a post read with frontmatter takes from it.  A non-blank `title`
/// is the title; the `categories` are the categories, or, when there are none,
/// the single `category`; the first category is the main one; the tags,
/// summary (when given), order, label, path, layout and the draft and private
/// flags are copied.  Without frontmatter, lists are empty and flags false.
pub proof fn law_frontmatter_fields(
    post: BlogPost,
    path: Seq<char>,
    content: Seq<char>,
    frontmatter: Option<FrontMatter>,
    modified: Timestamp,
    kind: ContentKind,
)
    requires
        post_from_source(post, path, content, frontmatter, modified, kind),
    ensures
        frontmatter is Some && frontmatter.unwrap().title is Some && trim(
            frontmatter.unwrap().title.unwrap()@,
        ).len() > 0 ==> post.metadata.title@ == frontmatter.unwrap().title.unwrap()@,
        frontmatter is Some && frontmatter.unwrap().categories@.len() > 0 ==> views(
            post.metadata.categories@,
        ) == views(frontmatter.unwrap().categories@) && post.metadata.category@
            == frontmatter.unwrap().categories@[0]@,
        frontmatter is Some && frontmatter.unwrap().categories@.len() == 0
            && frontmatter.unwrap().category is Some ==> views(post.metadata.categories@) == seq![
            frontmatter.unwrap().category.unwrap()@,
        ] && post.metadata.category@ == frontmatter.unwrap().category.unwrap()@,
        frontmatter is Some ==> views(post.metadata.tags@) == views(frontmatter.unwrap().tags@),
        frontmatter is Some && frontmatter.unwrap().summary is Some ==> post.metadata.summary is Some
            && post.metadata.summary.unwrap()@ == frontmatter.unwrap().summary.unwrap()@,
        frontmatter is Some ==> post.metadata.order == frontmatter.unwrap().order
            && post.metadata.label == frontmatter.unwrap().label && post.metadata.path
            == frontmatter.unwrap().path && post.metadata.layout == frontmatter.unwrap().layout
            && post.metadata.draft == frontmatter.unwrap().draft && post.metadata.private
            == frontmatter.unwrap().private,
        frontmatter is None ==> post.metadata.categories@.len() == 0 && post.metadata.category@.len()
            == 0 && post.metadata.tags@.len() == 0 && !post.metadata.draft && !post.metadata.private,
        kind == ContentKind::Post ==> post.metadata.kind@ == "post"@,
        kind == ContentKind::Page ==> post.metadata.kind@ == "page"@,
{
    let m = post.metadata;
    if frontmatter is None {
        assert(views(m.categories@).len() == 0);
        assert(views(m.tags@).len() == 0);
    }
}

impl BlogPost {
    /// The post or page that a Markdown file gives.  `path` is the file's path,
    /// `content` its text, `frontmatter` what its YAML block parsed to (none when
    /// it has none or it does not parse), `modified` when it was last changed.
    /// Fails only when the path has no file name.
    pub fn from_source(
        path: &str,
        content: &str,
        frontmatter: Option<FrontMatter>,
        modified: &Timestamp,
        kind: ContentKind,
    ) -> (r: Result<BlogPost, AlogError>)
        ensures
            std_file_name(path@) is None ==> r == Err::<BlogPost, AlogError>(
                AlogError::InvalidFilename,
            ),
            std_file_name(path@) is Some ==> (r matches Ok(post) && post_from_source(
                post,
                path@,
                content@,
                frontmatter,
                *modified,
                kind,
            )),
    {
        let filename = match path_file_name(path) {
            Some(f) => f,
            None => return Err(AlogError::InvalidFilename),
        };
        let markdown_content = owned(split_frontmatter(content).1);
        let date = match frontmatter_date_exec(&frontmatter) {
            Some(d) => d,
            None => match extract_filename_date(filename.as_str()) {
                Ok(d) => d,
                Err(_) => match extract_directory_date(path) {
                    Some(d) => d,
                    None => modified.date,
                },
            },
        };
        let title = match &frontmatter {
            Some(fm) => match &fm.title {
                Some(t) => if !is_blank(t.as_str()) {
                    t.clone()
                } else {
                    fallback_title(filename.as_str())
                },
                None => fallback_title(filename.as_str()),
            },
            None => fallback_title(filename.as_str()),
        };
        let categories = categories_of(&frontmatter);
        let category = if categories.len() > 0 {
            categories[0].clone()
        } else {
            String::new()
        };
        let slug = derive_slug(filename.as_str(), &frontmatter, kind);
        let url = ablog_url(date, slug.as_str(), kind);
        let html_content = markdown_to_html(markdown_content.as_str());
        let tags = match &frontmatter {
            Some(fm) => clone_strings(&fm.tags),
            None => Vec::new(),
        };
        let summary = match &frontmatter {
            Some(fm) => match &fm.summary {
                Some(s) => Some(s.clone()),
                None => generate_summary(markdown_content.as_str()),
            },
            None => generate_summary(markdown_content.as_str()),
        };
        let kind_name = match kind {
            ContentKind::Post => "post".to_string(),
            ContentKind::Page => "page".to_string(),
        };
        let (order, label, fm_path, layout, draft, private) = match &frontmatter {
            Some(fm) => (
                fm.order,
                clone_opt(&fm.label),
                clone_opt(&fm.path),
                clone_opt(&fm.layout),
                fm.draft,
                fm.private,
            ),
            None => (None, None, None, None, false, false),
        };
        let metadata = PostMetadata {
            title,
            date,
            category,
            categories,
            tags,
            summary,
            slug,
            url,
            created_at: modified.text.clone(),
            year: date.year_string(),
            month: date.month_string(),
            day: date.day_string(),
            formatted_date: date.to_string(),
            html_content,
            order,
            label,
            path: fm_path,
            layout,
            draft,
            private,
            kind: kind_name,
        };
        let post = BlogPost { metadata, content: markdown_content };
        assert(views(post.metadata.tags@) == (match frontmatter {
            Some(fm) => views(fm.tags@),
            None => seq![],
        }));
        Ok(post)
    }

    /// Neither a draft nor private.
    pub fn is_public(&self) -> (r: bool)
        ensures
            r == (!self.metadata.draft && !self.metadata.private),
    {
        !self.metadata.draft && !self.metadata.private
    }
}

} // verus!
