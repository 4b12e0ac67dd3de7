//! Posts of the single-page blog layout: each post knows its neighbours.

use vstd::prelude::*;
use crate::sorting::{sort_indices, sorted_by, strict_total_on};
use crate::paths::{path_file_name, std_file_name};
use crate::parser::markdown::{commonmark_html, markdown_to_html};
use crate::text::{
    char_index_at_byte, chars_of, is_byte_boundary, push_str, string_from, string_of, trim,
    trim_bounds, utf8_len,
};
use chrono::TimeZone;

verus! {

broadcast use vstd::string::group_string_axioms;

/// A post, with the previous and next post in publication order.
#[derive(Debug)]
pub struct PostData {
    pub title: String,
    pub url: String,
    pub description: String,
    pub content: String,
    pub keywords: String,
    pub post_date: String,
    pub post_date_int: i64,
    pub author: String,
    pub prev_post: Box<Option<PostData>>,
    pub next_post: Box<Option<PostData>>,
}

impl PostData {
    /// A post with every text empty, date 0 and no neighbours.
    pub fn new() -> (r: Self)
        ensures
            r.title@.len() == 0 && r.url@.len() == 0 && r.description@.len() == 0,
            r.content@.len() == 0 && r.keywords@.len() == 0 && r.post_date@.len() == 0,
            r.author@.len() == 0,
            r.post_date_int == 0,
            *r.prev_post is None && *r.next_post is None,
    {
        PostData {
            title: String::new(),
            url: String::new(),
            description: String::new(),
            content: String::new(),
            keywords: String::new(),
            post_date: String::new(),
            post_date_int: 0,
            author: String::new(),
            prev_post: Box::new(None),
            next_post: Box::new(None),
        }
    }

    /// A copy of the post and its neighbours.
    pub fn duplicate(&self) -> (r: Self)
        ensures
            r == *self,
        decreases self,
    {
        let prev = match &*self.prev_post {
            Some(p) => Some(p.duplicate()),
            None => None,
        };
        let next = match &*self.next_post {
            Some(p) => Some(p.duplicate()),
            None => None,
        };
        PostData {
            title: self.title.clone(),
            url: self.url.clone(),
            description: self.description.clone(),
            content: self.content.clone(),
            keywords: self.keywords.clone(),
            post_date: self.post_date.clone(),
            post_date_int: self.post_date_int,
            author: self.author.clone(),
            prev_post: Box::new(prev),
            next_post: Box::new(next),
        }
    }
}

/// Publication order: by date, the given order among posts of the same date.
pub open spec fn published_before(posts: Seq<PostData>, i: int, j: int) -> bool {
    posts[i].post_date_int < posts[j].post_date_int || (posts[i].post_date_int
        == posts[j].post_date_int && i < j)
}

pub open spec fn publication_order(posts: Seq<PostData>) -> spec_fn(int, int) -> bool {
    |i: int, j: int| published_before(posts, i, j)
}

/// The `i`-th post of `list` with its neighbours set: the previous post is the
/// previous linked post (itself with its own previous post), the next post is
/// the next one of `list` as it is.  The first keeps its previous post and the
/// last its next post.
pub open spec fn linked_at(list: Seq<PostData>, i: nat) -> PostData
    decreases i,
{
    let p = list[i as int];
    PostData {
        prev_post: if i > 0 {
            Box::new(Some(linked_at(list, (i - 1) as nat)))
        } else {
            p.prev_post
        },
        next_post: if i + 1 < list.len() {
            Box::new(Some(list[i + 1 as int]))
        } else {
            p.next_post
        },
        ..p
    }
}

/// The posts in publication order, each linked to its neighbours.
pub open spec fn linked_posts(posts: Seq<PostData>, order: Seq<usize>, r: Seq<PostData>) -> bool {
    let list = order.map_values(|i: usize| posts[i as int]);
    &&& order.len() == posts.len()
    &&& forall|x: usize| order.contains(x) <==> x < posts.len()
    &&& sorted_by(order, publication_order(posts))
    &&& r.len() == posts.len()
    &&& forall|k: int| 0 <= k < r.len() ==> #[trigger] r[k] == linked_at(list, k as nat)
}

proof fn lemma_publication_order(posts: Seq<PostData>, items: Seq<usize>)
    requires
        forall|k: int| 0 <= k < items.len() ==> #[trigger] items[k] < posts.len(),
    ensures
        strict_total_on(publication_order(posts), items),
{
}

/// The posts in publication order, each linked to its previous and next post.
pub fn get_posts(posts: Vec<PostData>) -> (r: Vec<PostData>)
    ensures
        exists|order: Seq<usize>| linked_posts(posts@, order, r@),
{
    let n = posts.len();
    let mut items: Vec<usize> = Vec::new();
    let mut i: usize = 0;
    while i < n
        invariant
            i <= n == posts.len(),
            items@ == Seq::new(i as nat, |k: int| k as usize),
        decreases n - i,
    {
        items.push(i);
        i = i + 1;
        assert(items@ =~= Seq::new(i as nat, |k: int| k as usize));
    }
    proof {
        assert forall|x: usize| items@.contains(x) <==> x < n by {
            if x < n {
                assert(items@[x as int] == x);
            }
        }
    }
    let before = |a: usize, b: usize| -> (r: bool)
        requires
            a < posts.len(),
            b < posts.len(),
        ensures
            r == published_before(posts@, a as int, b as int),
        { posts[a].post_date_int < posts[b].post_date_int || (posts[a].post_date_int
            == posts[b].post_date_int && a < b) };
    proof {
        lemma_publication_order(posts@, items@);
    }
    let order = sort_indices(&items, &before, Ghost(publication_order(posts@)));
    let ghost list = order@.map_values(|i: usize| posts@[i as int]);
    proof {
        assert forall|k: int| 0 <= k < order@.len() implies #[trigger] order@[k] < n by {
            assert(order@.contains(order@[k]));
        }
    }
    let mut out: Vec<PostData> = Vec::new();
    let mut prev: Option<PostData> = None;
    let mut k: usize = 0;
    while k < n
        invariant
            k <= n == posts.len() == order@.len(),
            list == order@.map_values(|i: usize| posts@[i as int]),
            forall|m: int| 0 <= m < order@.len() ==> #[trigger] order@[m] < n,
            out@.len() == k,
            forall|m: int| 0 <= m < k ==> #[trigger] out@[m] == linked_at(list, m as nat),
            k > 0 ==> prev == Some(linked_at(list, (k - 1) as nat)),
        decreases n - k,
    {
        let mut post = posts[order[k]].duplicate();
        if k > 0 {
            post.prev_post = Box::new(prev);
        }
        if k < n - 1 {
            post.next_post = Box::new(Some(posts[order[k + 1]].duplicate()));
        }
        assert(post == linked_at(list, k as nat));
        prev = Some(post.duplicate());
        out.push(post);
        k = k + 1;
    }
    assert(linked_posts(posts@, order@, out@));
    out
}

/// The pattern of a date prefix in a file name: digits and dashes ending in a dash.
pub open spec fn date_prefix_pattern() -> Seq<char> {
    "^[\\d\\-]+-"@
}

/// The pattern of the JSON block that may open a post, optionally inside an
/// HTML comment.
pub open spec fn config_block_pattern() -> Seq<char> {
    "\\s*(<!--)?\\s*(\\{[\\s\\S]*?\\})\\s*(-->)?\\s*"@
}

/// What `regex` makes of `pattern` replacing every match in `text` with
/// `replacement`; none when the pattern does not compile.
pub uninterp spec fn regex_replaced(pattern: Seq<char>, text: Seq<char>, replacement: Seq<char>) -> Option<Seq<char>>;

/// The groups of the first match of `pattern` in `text` (`Regex::captures`),
/// each by its text when it took part: `None` when the pattern does not
/// compile, `Some(None)` when nothing matches.
pub uninterp spec fn regex_captures(pattern: Seq<char>, text: Seq<char>) -> Option<Option<Seq<Option<Seq<char>>>>>;

/// A string field of a JSON text: `None` when the text is not JSON,
/// `Some(None)` when the value has no such key, `Some(Some(None))` when the
/// field is not a string, `Some(Some(Some(s)))` for the string `s`.
pub uninterp spec fn json_string_field(json: Seq<char>, key: Seq<char>) -> Option<Option<Option<Seq<char>>>>;

/// `chrono`'s `Utc.timestamp_opt(secs, 0)` formatted as `p/%Y/%m/%d/`, the day
/// directory of a post's URL; none when the time is out of range.
pub uninterp spec fn utc_day_path(secs: int) -> Option<Seq<char>>;

/// `chrono`'s `DateTime::parse_from_str(text, format)`, by its UNIX timestamp.
pub uninterp spec fn parsed_timestamp(text: Seq<char>, format: Seq<char>) -> Option<int>;

/// Calls `Regex::new(pattern)` and `replace_all(text, replacement)`.  Claimed:
/// the result is the named function of the three texts.
#[verifier::external_body]
fn replace_all_matches(pattern: &str, text: &str, replacement: &str) -> (r: Option<String>)
    ensures
        r matches Some(x) ==> regex_replaced(pattern@, text@, replacement@) == Some(x@),
        r is None ==> regex_replaced(pattern@, text@, replacement@) is None,
{
    regex::Regex::new(pattern).ok().map(|re| re.replace_all(text, replacement).into_owned())
}

/// The texts of the groups, in order.
pub open spec fn group_texts(groups: Seq<Option<String>>) -> Seq<Option<Seq<char>>> {
    groups.map_values(|g: Option<String>| crate::text::opt_view(g))
}

/// Calls `Regex::new(pattern)` and `captures(text)`, keeping each group's text.
/// Claimed: the result is the named function of the two texts.
#[verifier::external_body]
pub(crate) fn first_captures(pattern: &str, text: &str) -> (r: Option<Option<Vec<Option<String>>>>)
    ensures
        match r {
            None => regex_captures(pattern@, text@) is None,
            Some(None) => regex_captures(pattern@, text@) == Some(None::<Seq<Option<Seq<char>>>>),
            Some(Some(gs)) => regex_captures(pattern@, text@) == Some(Some(group_texts(gs@))),
        },
{
    regex::Regex::new(pattern).ok().map(
        |re|
            re.captures(text).map(
                |c| c.iter().map(|m| m.map(|m| m.as_str().to_string())).collect(),
            ),
    )
}

/// Calls `serde_json::from_str::<Value>(json)`, `get(key)` and `as_str`.
/// Claimed: the result is the named function of the two texts.
#[verifier::external_body]
fn json_field(json: &str, key: &str) -> (r: Option<Option<Option<String>>>)
    ensures
        match r {
            None => json_string_field(json@, key@) is None,
            Some(None) => json_string_field(json@, key@) == Some(None::<Option<Seq<char>>>),
            Some(Some(None)) => json_string_field(json@, key@) == Some(Some(None::<Seq<char>>)),
            Some(Some(Some(s))) => json_string_field(json@, key@) == Some(Some(Some(s@))),
        },
{
    serde_json::from_str::<serde_json::Value>(json).ok().map(
        |v| v.get(key).map(|f| f.as_str().map(|s| s.to_string())),
    )
}

/// Calls `chrono::Utc.timestamp_opt(secs, 0)` and formats the time as
/// `p/%Y/%m/%d/`, a format that `chrono` always writes.  Claimed: the result is
/// the named function of the time.
#[verifier::external_body]
fn format_day_path(secs: i64) -> (r: Option<String>)
    ensures
        r matches Some(x) ==> utc_day_path(secs as int) == Some(x@),
        r is None ==> utc_day_path(secs as int) is None,
{
    chrono::Utc.timestamp_opt(secs, 0).single().map(|t| t.format("p/%Y/%m/%d/").to_string())
}

/// Calls `chrono::DateTime::parse_from_str(text, format)` and `timestamp`.
/// Claimed: the result is the named function of the two texts.
#[verifier::external_body]
fn parse_timestamp(text: &str, format: &str) -> (r: Option<i64>)
    ensures
        r matches Some(t) ==> parsed_timestamp(text@, format@) == Some(t as int),
        r is None ==> parsed_timestamp(text@, format@) is None,
{
    chrono::DateTime::parse_from_str(text, format).ok().map(|t| t.timestamp())
}

/// `s` without its trailing `".md"`s (`trim_end_matches(".md")`).
pub open spec fn strip_md(s: Seq<char>) -> Seq<char>
    decreases s.len(),
{
    if s.len() >= 3 && s.skip(s.len() - 3) == ".md"@ {
        strip_md(s.take(s.len() - 3))
    } else {
        s
    }
}

/// `'/'` replaced by `'_'`.
pub open spec fn slashes_to_underscores(s: Seq<char>) -> Seq<char> {
    s.map_values(|c: char| if c == '/' { '_' } else { c })
}

/// What the URL part taken from a file name is, when it can be computed: the
/// file name without trailing `.md`, its date prefix removed, slashes turned
/// into underscores.
pub open spec fn filename_url(path: Seq<char>) -> Option<Seq<char>> {
    match std_file_name(path) {
        None => None,
        Some(name) => match regex_replaced(date_prefix_pattern(), strip_md(name), ""@) {
            None => None,
            Some(t) => Some(slashes_to_underscores(t)),
        },
    }
}

fn strip_md_exec(v: &Vec<char>) -> (k: usize)
    ensures
        k <= v.len(),
        v@.take(k as int) == strip_md(v@),
{
    let mut k = v.len();
    assert(v@.take(k as int) =~= v@);
    while k >= 3 && v[k - 3] == '.' && v[k - 2] == 'm' && v[k - 1] == 'd'
        invariant
            k <= v.len(),
            strip_md(v@) == strip_md(v@.take(k as int)),
        decreases k,
    {
        proof {
            reveal_strlit(".md");
            let t = v@.take(k as int);
            assert(t.skip(t.len() - 3) =~= ".md"@);
            assert(t.take(t.len() - 3) =~= v@.take(k - 3));
        }
        k = k - 3;
    }
    proof {
        reveal_strlit(".md");
        let t = v@.take(k as int);
        if t.len() >= 3 && t.skip(t.len() - 3) == ".md"@ {
            assert(t.skip(t.len() - 3)[0] == v@[k - 3]);
            assert(t.skip(t.len() - 3)[1] == v@[k - 2]);
            assert(t.skip(t.len() - 3)[2] == v@[k - 1]);
        }
    }
    k
}

/// The URL part that a file name gives: see `filename_url`.
pub fn try_post_filename_as_url(file_path: &str) -> (r: Option<String>)
    ensures
        r matches Some(u) ==> filename_url(file_path@) == Some(u@),
        r is None ==> filename_url(file_path@) is None,
{
    let name = match path_file_name(file_path) {
        Some(n) => n,
        None => return None,
    };
    let v = chars_of(name.as_str());
    let k = strip_md_exec(&v);
    let stem = string_from(&v, 0, k);
    assert(stem@ == strip_md(name@));
    let replaced = match replace_all_matches("^[\\d\\-]+-", stem.as_str(), "") {
        Some(t) => t,
        None => return None,
    };
    let w = chars_of(replaced.as_str());
    let mut out: Vec<char> = Vec::new();
    let mut i: usize = 0;
    while i < w.len()
        invariant
            i <= w.len(),
            out@ == slashes_to_underscores(w@.take(i as int)),
        decreases w.len() - i,
    {
        if w[i] == '/' {
            out.push('_');
        } else {
            out.push(w[i]);
        }
        i = i + 1;
        assert(out@ =~= slashes_to_underscores(w@.take(i as int)));
    }
    assert(w@.take(w.len() as int) =~= w@);
    Some(string_of(&out))
}

/// The file name of a post as a URL part: see `filename_url`.
pub fn get_post_filename_as_url(file_path: &str) -> (r: String)
    requires
        filename_url(file_path@) is Some,
    ensures
        filename_url(file_path@) == Some(r@),
{
    try_post_filename_as_url(file_path).unwrap()
}

/// The format `post_date` is read with, once `" +00:00"` is appended.
pub open spec fn post_date_format() -> Seq<char> {
    "%Y-%m-%d %H:%M %z"@
}

/// The opening block of a post, when its JSON group matched: the whole match
/// and the JSON text.
pub open spec fn config_match(content: Seq<char>) -> Option<(Seq<char>, Seq<char>)> {
    match regex_captures(config_block_pattern(), content) {
        Some(Some(gs)) => if gs.len() > 2 && gs[2] is Some {
            Some(
                (
                    match gs[0] {
                        Some(w) => w,
                        None => Seq::<char>::empty(),
                    },
                    gs[2].unwrap(),
                ),
            )
        } else {
            None
        },
        _ => None,
    }
}

/// A JSON field used as text: its string, or `default` when absent.
pub open spec fn field_or(f: Option<Option<Option<Seq<char>>>>, default: Seq<char>) -> Seq<char> {
    match f {
        Some(Some(Some(s))) => s,
        _ => default,
    }
}

/// The field can be read: the text is JSON and the field, if present, is a string.
pub open spec fn field_readable(f: Option<Option<Option<Seq<char>>>>) -> bool {
    f is Some && f != Some(Some(None::<Seq<char>>))
}

/// The inputs on which reading a post does not fail: its file name gives a URL
/// part, the file time is in range, and, when the post opens with a JSON block,
/// the block is JSON whose URL, if given, is a string, its date reads as
/// `%Y-%m-%d %H:%M`, and the block ends on a character boundary of the trimmed
/// content.
pub open spec fn md_source_ok(path: Seq<char>, content: Seq<char>, created_secs: u64) -> bool {
    &&& filename_url(path) is Some
    &&& utc_day_path((created_secs as i64) as int) is Some
    &&& regex_captures(config_block_pattern(), content) is Some
    &&& match config_match(content) {
        None => true,
        Some((whole, json)) => block_ok(content, whole, json),
    }
}

/// The opening block `whole` with JSON `json` can be read (see `md_source_ok`).
pub open spec fn block_ok(content: Seq<char>, whole: Seq<char>, json: Seq<char>) -> bool {
    let date = field_or(json_string_field(json, "post_date"@), Seq::<char>::empty());
    &&& (regex_captures(config_block_pattern(), content) matches Some(Some(gs)) && gs[0] is Some)
    &&& json_string_field(json, "title"@) is Some
    &&& field_readable(json_string_field(json, "url"@))
    &&& parsed_timestamp(date + " +00:00"@, post_date_format()) is Some
    &&& utc_day_path(parsed_timestamp(date + " +00:00"@, post_date_format()).unwrap()) is Some
    &&& exists|k: int| is_byte_boundary(trim(content), utf8_len(whole), k)
}

/// The post read from a Markdown file at `path` with text `content`, created
/// `created_secs` seconds ago: titled and dated by its opening JSON block when
/// it has one, by its file name and file time otherwise; its content is the
/// HTML of the trimmed text after that block.
pub open spec fn md_post_ok(p: PostData, path: Seq<char>, content: Seq<char>, created_secs: u64) -> bool {
    let cleaned = trim(content);
    let name = filename_url(path).unwrap();
    let secs = (created_secs as i64) as int;
    &&& p.description@.len() == 0
    &&& p.keywords@.len() == 0
    &&& p.author@.len() == 0
    &&& *p.prev_post is None
    &&& *p.next_post is None
    &&& match config_match(content) {
        None => {
            &&& p.title@ == name
            &&& p.post_date@.len() == 0
            &&& p.post_date_int == secs
            &&& p.url@ == utc_day_path(secs).unwrap() + name + "/"@
            &&& p.content@ == commonmark_html(cleaned)
        },
        Some((whole, json)) => {
            let date = field_or(json_string_field(json, "post_date"@), Seq::<char>::empty());
            let ts = parsed_timestamp(date + " +00:00"@, post_date_format()).unwrap();
            let k = choose|k: int| is_byte_boundary(cleaned, utf8_len(whole), k);
            &&& p.title@ == field_or(json_string_field(json, "title"@), Seq::<char>::empty())
            &&& p.post_date@ == date
            &&& p.post_date_int == ts
            &&& p.url@ == utc_day_path(ts).unwrap() + field_or(
                json_string_field(json, "url"@),
                name,
            ) + "/"@
            &&& p.content@ == commonmark_html(cleaned.skip(k))
        },
    }
}

/// A field of a JSON object as text; the default when it cannot be had: the
/// text is not JSON, the field is absent, or its value is not a string.
pub fn get_val_from_json(json: &str, key: &str, default_val: String) -> (r: String)
    ensures
        r@ == field_or(json_string_field(json@, key@), default_val@),
{
    match json_field(json, key) {
        Some(Some(Some(s))) => s,
        _ => default_val,
    }
}

/// The URL part of a post: the block's `url`, or the one its file name gives.
pub fn get_post_url(json: &str, file_path: &str) -> (r: String)
    requires
        field_readable(json_string_field(json@, "url"@)),
        !(json_string_field(json@, "url"@) matches Some(Some(Some(_)))) ==> filename_url(
            file_path@,
        ) is Some,
    ensures
        r@ == field_or(json_string_field(json@, "url"@), filename_url(file_path@).unwrap()),
{
    match json_field(json, "url") {
        Some(Some(Some(s))) => s,
        _ => get_post_filename_as_url(file_path),
    }
}

fn check_field(json: &str, key: &str) -> (r: bool)
    ensures
        r == field_readable(json_string_field(json@, key@)),
{
    match json_field(json, key) {
        None => false,
        Some(Some(None)) => false,
        _ => true,
    }
}

fn concat3(a: &str, b: &str, c: &str) -> (r: String)
    ensures
        r@ == a@ + b@ + c@,
{
    let mut v: Vec<char> = Vec::new();
    push_str(&mut v, a);
    push_str(&mut v, b);
    push_str(&mut v, c);
    assert(v@ =~= a@ + b@ + c@);
    string_of(&v)
}

/// The post that a Markdown file gives (see `md_post_ok`), or none on the inputs
/// on which reading it fails (see `md_source_ok`).
pub fn try_parse_md_source(file_path: &str, md_content: &str, created_secs: u64) -> (r: Option<PostData>)
    ensures
        r is Some <==> md_source_ok(file_path@, md_content@, created_secs),
        r matches Some(p) ==> md_post_ok(p, file_path@, md_content@, created_secs),
{
    let v = chars_of(md_content);
    let (lo, hi) = trim_bounds(&v, 0, v.len());
    assert(v@.subrange(0, v@.len() as int) =~= v@);
    let cleaned = string_from(&v, lo, hi);
    let secs = created_secs as i64;
    let name = match try_post_filename_as_url(file_path) {
        Some(n) => n,
        None => return None,
    };
    let day = match format_day_path(secs) {
        Some(d) => d,
        None => return None,
    };
    let mut post = PostData::new();
    post.post_date_int = secs;
    post.url = concat3(day.as_str(), name.as_str(), "/");
    post.title = name.clone();
    post.content = cleaned.clone();
    let caps = match first_captures("\\s*(<!--)?\\s*(\\{[\\s\\S]*?\\})\\s*(-->)?\\s*", md_content) {
        Some(c) => c,
        None => return None,
    };
    if let Some(groups) = caps {
        if groups.len() > 2 && groups[2].is_some() {
            let json = match &groups[2] {
                Some(j) => j.clone(),
                None => String::new(),
            };
            let whole = match &groups[0] {
                Some(w) => w.clone(),
                None => return None,
            };
            assert(config_match(md_content@) == Some((whole@, json@)));
            if json_field(json.as_str(), "title").is_none() || !check_field(json.as_str(), "url") {
                return None;
            }
            post.title = get_val_from_json(json.as_str(), "title", String::new());
            post.post_date = get_val_from_json(json.as_str(), "post_date", String::new());
            let mut sv: Vec<char> = Vec::new();
            push_str(&mut sv, post.post_date.as_str());
            push_str(&mut sv, " +00:00");
            assert(sv@ =~= post.post_date@ + " +00:00"@);
            let stamp_text = string_of(&sv);
            let ts = match parse_timestamp(stamp_text.as_str(), "%Y-%m-%d %H:%M %z") {
                Some(t) => t,
                None => return None,
            };
            post.post_date_int = ts;
            let day = match format_day_path(ts) {
                Some(d) => d,
                None => return None,
            };
            let url_part = get_post_url(json.as_str(), file_path);
            post.url = concat3(day.as_str(), url_part.as_str(), "/");
            let wv = chars_of(whole.as_str());
            let cv = chars_of(cleaned.as_str());
            let wlen = crate::text::utf8_length(&wv);
            let k = match char_index_at_byte(&cv, wlen) {
                Some(k) => k,
                None => return None,
            };
            proof {
                let c = choose|m: int| is_byte_boundary(cv@, utf8_len(whole@), m);
                if c != k {
                    if c < k {
                        crate::text::lemma_utf8_len_take_increasing(cv@, c, k as int);
                    } else {
                        crate::text::lemma_utf8_len_take_increasing(cv@, k as int, c);
                    }
                }
            }
            let rest = string_from(&cv, k, cv.len());
            assert(rest@ =~= cv@.skip(k as int));
            assert(cv@ == trim(md_content@));
            assert(is_byte_boundary(trim(md_content@), utf8_len(whole@), k as int));
            post.content = markdown_to_html(rest.as_str());
            return Some(post);
        }
    }
    post.content = markdown_to_html(post.content.as_str());
    Some(post)
}

} // verus!
