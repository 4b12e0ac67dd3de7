//! YAML frontmatter: splitting it from the Markdown body, and the metadata it carries.

use vstd::prelude::*;
use vstd::string::StrSliceExecFns;
use crate::date::{
    calendar_date, chrono_parse_date, date_from_ymd, parse_date_with_format, Date,
};
use crate::error::AlogError;
use crate::paths::{path_file_name, path_file_stem, path_parent, std_file_name, std_file_stem, std_parent};
use crate::text::{
    ascii_byte_at, chars_of, lemma_utf8_len_at_least_len, parse_i32, parse_i32_spec, parse_u32, parse_u32_spec, skip_ws,
    string_from, trim, trim_bounds, trim_start, utf8_len, utf8_len_and_byte, views,
};

verus! {

broadcast use vstd::string::group_string_axioms;

/// One past the end of the line that starts at `i`: just after the next `'\n'`,
/// or the end of `s` when no newline follows.
pub open spec fn line_end(s: Seq<char>, i: int) -> int
    decreases s.len() - i,
{
    if i < 0 || i >= s.len() {
        s.len() as int
    } else if s[i] == '\n' {
        i + 1
    } else {
        line_end(s, i + 1)
    }
}

/// A line is a frontmatter delimiter when, trimmed, it reads `---`.
pub open spec fn is_delimiter(line: Seq<char>) -> bool {
    trim(line) == seq!['-', '-', '-']
}

/// The line of `s` starting at `i`.
pub open spec fn line_at(s: Seq<char>, i: int) -> Seq<char> {
    s.subrange(i, line_end(s, i))
}

pub proof fn lemma_line_end(s: Seq<char>, i: int)
    requires
        0 <= i < s.len(),
    ensures
        i < line_end(s, i) <= s.len(),
        forall|m: int| i <= m < line_end(s, i) - 1 ==> s[m] != '\n',
        line_end(s, i) < s.len() ==> s[line_end(s, i) - 1] == '\n',
        line_end(s, i) == s.len() ==> (s[s.len() - 1] == '\n' || forall|m: int|
            i <= m < s.len() ==> s[m] != '\n'),
    decreases s.len() - i,
{
    if s[i] != '\n' {
        assert(line_end(s, i) == line_end(s, i + 1));
        if i + 1 < s.len() {
            lemma_line_end(s, i + 1);
        } else {
            assert(line_end(s, i + 1) == s.len());
        }
    }
}

/// Start of the first delimiter line among the lines that follow one another
/// from line start `i`, if any.
pub open spec fn closing_delimiter(s: Seq<char>, i: int) -> Option<int>
    decreases s.len() - i,
{
    if i < 0 || i >= s.len() {
        None
    } else if is_delimiter(line_at(s, i)) {
        Some(i)
    } else {
        proof {
            lemma_line_end(s, i);
        }
        closing_delimiter(s, line_end(s, i))
    }
}

/// What `split_frontmatter` returns, by views: the YAML text between an opening
/// delimiter on the first line and the next delimiter line, and the body after
/// that closing line with its leading whitespace removed.  Without both
/// delimiters there is no YAML and the body is the whole content.
pub open spec fn frontmatter_split(s: Seq<char>) -> (Option<Seq<char>>, Seq<char>) {
    if s.len() == 0 || !is_delimiter(line_at(s, 0)) {
        (None, s)
    } else {
        let e0 = line_end(s, 0);
        match closing_delimiter(s, e0) {
            Some(j) => (Some(s.subrange(e0, j)), trim_start(s.skip(line_end(s, j)))),
            None => (None, s),
        }
    }
}

/// Executable `line_end`.
fn find_line_end(v: &Vec<char>, i: usize) -> (e: usize)
    requires
        i < v.len(),
    ensures
        e == line_end(v@, i as int),
        i < e <= v.len(),
{
    proof {
        lemma_line_end(v@, i as int);
    }
    let mut k = i;
    while k < v.len() && v[k] != '\n'
        invariant
            i <= k <= v.len(),
            line_end(v@, i as int) == line_end(v@, k as int),
        decreases v.len() - k,
    {
        k = k + 1;
    }
    if k < v.len() {
        k + 1
    } else {
        k
    }
}

/// Whether `v[lo..hi]` is a delimiter line.
fn is_delimiter_range(v: &Vec<char>, lo: usize, hi: usize) -> (r: bool)
    requires
        lo <= hi <= v.len(),
    ensures
        r == is_delimiter(v@.subrange(lo as int, hi as int)),
{
    let (i, j) = trim_bounds(v, lo, hi);
    if j - i == 3 && v[i] == '-' && v[i + 1] == '-' && v[i + 2] == '-' {
        assert(v@.subrange(i as int, j as int) =~= seq!['-', '-', '-']);
        true
    } else {
        assert(v@.subrange(i as int, j as int) != seq!['-', '-', '-']) by {
            if j - i == 3 {
                assert(v@.subrange(i as int, j as int)[0] == v@[i as int]);
                assert(v@.subrange(i as int, j as int)[1] == v@[i + 1]);
                assert(v@.subrange(i as int, j as int)[2] == v@[i + 2]);
            }
        }
        false
    }
}

/// Split a Markdown file into optional YAML frontmatter and body.
///
/// Delimiters are recognized by complete lines, so a `---` occurring inside
/// the article body cannot accidentally terminate the metadata block.
pub fn split_frontmatter(content: &str) -> (r: (Option<&str>, &str))
    ensures
        r.0 is Some <==> frontmatter_split(content@).0 is Some,
        r.0 matches Some(y) ==> frontmatter_split(content@).0 == Some(y@),
        r.1@ == frontmatter_split(content@).1,
{
    let v = chars_of(content);
    let n = v.len();
    if n == 0 {
        return (None, content);
    }
    let e0 = find_line_end(&v, 0);
    if !is_delimiter_range(&v, 0, e0) {
        return (None, content);
    }
    let mut i = e0;
    while i < n
        invariant
            n == v.len() == content@.len(),
            v@ == content@,
            0 < e0 <= i <= n,
            e0 == line_end(v@, 0),
            is_delimiter(line_at(v@, 0)),
            closing_delimiter(v@, e0 as int) == closing_delimiter(v@, i as int),
        decreases n - i,
    {
        let e = find_line_end(&v, i);
        if is_delimiter_range(&v, i, e) {
            assert(closing_delimiter(v@, i as int) == Some(i as int));
            assert(frontmatter_split(content@).0 == Some(content@.subrange(e0 as int, i as int)));
            let yaml = content.substring_char(e0, i);
            let b = skip_ws(&v, e, n);
            assert(v@.skip(e as int) =~= v@.subrange(e as int, n as int));
            let body = content.substring_char(b, n);
            return (Some(yaml), body);
        }
        i = e;
    }
    (None, content)
}

/// Every line of the YAML block that `frontmatter_split` finds, after the
/// opening delimiter, is not a delimiter: the block ends at the first line that
/// reads `---` once trimmed.
pub open spec fn is_line_start(s: Seq<char>, k: int) -> bool {
    k == 0 || (0 < k <= s.len() && s[k - 1] == '\n')
}

proof fn lemma_no_earlier_delimiter(s: Seq<char>, i: int, j: int)
    requires
        0 <= i,
        closing_delimiter(s, i) == Some(j),
    ensures
        i <= j < s.len(),
        is_delimiter(line_at(s, j)),
        forall|k: int|
            i <= k < j && (k == i || is_line_start(s, k)) ==> !is_delimiter(#[trigger] line_at(s, k)),
    decreases s.len() - i,
{
    if i < s.len() && !is_delimiter(line_at(s, i)) {
        lemma_line_end(s, i);
        let e = line_end(s, i);
        lemma_no_earlier_delimiter(s, e, j);
        assert forall|k: int|
            i <= k < j && (k == i || is_line_start(s, k)) implies !is_delimiter(
                #[trigger] line_at(s, k),
            ) by {
            if k != i && k < e {
                assert(s[k - 1] != '\n');
            }
        }
    }
}

/// Law: the frontmatter block is delimited by whole lines.  When a YAML block is
/// found, the content reads: an opening delimiter line, the YAML text, a closing
/// delimiter line, then whitespace and the body; and no line inside the YAML
/// text is itself a delimiter, so a `---` within the block's lines never ends it
/// early, and one inside the body never matters.
pub proof fn law_frontmatter_lines(s: Seq<char>)
    ensures
        frontmatter_split(s).0 matches Some(y) ==> {
            let e0 = line_end(s, 0);
            let j = e0 + y.len();
            let e = line_end(s, j);
            &&& is_delimiter(s.take(e0))
            &&& s.subrange(e0, j) == y
            &&& j < s.len()
            &&& is_delimiter(line_at(s, j))
            &&& frontmatter_split(s).1 == trim_start(s.skip(e))
            &&& forall|k: int|
                e0 <= k < j && is_line_start(s, k) ==> !is_delimiter(#[trigger] line_at(s, k))
        },
        frontmatter_split(s).0 is None ==> frontmatter_split(s).1 == s,
{
    if s.len() > 0 && is_delimiter(line_at(s, 0)) {
        lemma_line_end(s, 0);
        let e0 = line_end(s, 0);
        if let Some(j) = closing_delimiter(s, e0) {
            lemma_no_earlier_delimiter(s, e0, j);
            assert(s.take(e0) == line_at(s, 0));
        }
    }
}

/// The metadata block of a post, as its YAML frontmatter gives it.
#[derive(Clone, Debug)]
pub struct FrontMatter {
    pub title: Option<String>,
    pub date: Option<String>,
    /// The `post-date` key.
    pub post_date: Option<String>,
    pub category: Option<String>,
    pub categories: Vec<String>,
    pub tags: Vec<String>,
    pub summary: Option<String>,
    pub order: Option<usize>,
    pub label: Option<String>,
    pub path: Option<String>,
    pub layout: Option<String>,
    pub slug: Option<String>,
    pub draft: bool,
    pub private: bool,
}

impl Default for FrontMatter {
    /// No key given: every optional field absent, lists empty, flags false.
    fn default() -> (r: FrontMatter)
        ensures
            r.title is None && r.date is None && r.post_date is None && r.category is None,
            r.categories@.len() == 0 && r.tags@.len() == 0,
            r.summary is None && r.order is None && r.label is None && r.path is None,
            r.layout is None && r.slug is None,
            !r.draft && !r.private,
    {
        FrontMatter {
            title: None,
            date: None,
            post_date: None,
            category: None,
            categories: Vec::new(),
            tags: Vec::new(),
            summary: None,
            order: None,
            label: None,
            path: None,
            layout: None,
            slug: None,
            draft: false,
            private: false,
        }
    }
}

/// A YAML value found under a key meant to hold a string or a list of strings.
pub enum YamlStrings {
    /// The key is absent or its value is `null`.
    Null,
    /// A single string.
    Text(String),
    /// A sequence; each item is `Some` when it is a string.
    Sequence(Vec<Option<String>>),
    /// Any other value, by its debug form.
    Other(String),
}

/// The strings among the items, in order.
pub open spec fn string_items(items: Seq<Option<String>>) -> Seq<Seq<char>>
    decreases items.len(),
{
    if items.len() == 0 {
        seq![]
    } else {
        let rest = string_items(items.drop_last());
        match items.last() {
            Some(s) => rest.push(s@),
            None => rest,
        }
    }
}

/// The list of strings that a `categories` or `tags` value stands for: none for
/// null, one for a string, the string items of a sequence; any other value is an
/// error that shows it.
pub fn string_vec_from_yaml(value: YamlStrings) -> (r: Result<Vec<String>, AlogError>)
    ensures
        match value {
            YamlStrings::Null => r matches Ok(v) && v@.len() == 0,
            YamlStrings::Text(s) => r matches Ok(v) && views(v@) == seq![s@],
            YamlStrings::Sequence(items) => r matches Ok(v) && views(v@) == string_items(items@),
            YamlStrings::Other(found) => r == Err::<Vec<String>, AlogError>(
                AlogError::ExpectedStrings(found),
            ),
        },
{
    match value {
        YamlStrings::Null => Ok(Vec::new()),
        YamlStrings::Text(s) => {
            let mut v: Vec<String> = Vec::new();
            v.push(s);
            assert(views(v@) =~= seq![v@[0]@]);
            Ok(v)
        },
        YamlStrings::Sequence(items) => {
            let mut v: Vec<String> = Vec::new();
            let mut i: usize = 0;
            while i < items.len()
                invariant
                    i <= items.len(),
                    views(v@) =~= string_items(items@.take(i as int)),
                decreases items.len() - i,
            {
                assert(items@.take(i + 1).drop_last() =~= items@.take(i as int));
                match &items[i] {
                    Some(s) => {
                        v.push(s.clone());
                    },
                    None => {},
                }
                i = i + 1;
            }
            assert(items@.take(items.len() as int) =~= items@);
            Ok(v)
        },
        YamlStrings::Other(found) => Err(AlogError::ExpectedStrings(found)),
    }
}

/// The format a file-name date candidate is read with: `%Y-%m-%d` when it is
/// ten bytes long with a `-` as its fifth byte, `%Y%m%d` otherwise.
pub open spec fn candidate_format(c: Seq<char>) -> Seq<char> {
    if utf8_len(c) == 10 && ascii_byte_at(c, 4, '-') {
        "%Y-%m-%d"@
    } else {
        "%Y%m%d"@
    }
}

/// The first `n` characters of `s` (all of it when shorter).
pub open spec fn first_chars(s: Seq<char>, n: nat) -> Seq<char> {
    if s.len() <= n {
        s
    } else {
        s.take(n as int)
    }
}

/// The date at the start of a file name: the file stem's first ten characters
/// are tried, then its first eight, each with `candidate_format`.
pub open spec fn filename_date(filename: Seq<char>) -> Result<Date, AlogError> {
    match std_file_stem(filename) {
        None => Err(AlogError::InvalidFilename),
        Some(stem) => {
            let c10 = first_chars(stem, 10);
            let c8 = first_chars(stem, 8);
            match chrono_parse_date(c10, candidate_format(c10)) {
                Some(d) => Ok(d),
                None => match chrono_parse_date(c8, candidate_format(c8)) {
                    Some(d) => Ok(d),
                    None => Err(AlogError::NoFilenameDate),
                },
            }
        },
    }
}

fn parse_candidate(stem: &Vec<char>, n: usize) -> (r: Option<Date>)
    requires
        n <= 10,
    ensures
        r == chrono_parse_date(
            first_chars(stem@, n as nat),
            candidate_format(first_chars(stem@, n as nat)),
        ),
{
    let k = if stem.len() <= n {
        stem.len()
    } else {
        n
    };
    let c = string_from(stem, 0, k);
    assert(c@ =~= first_chars(stem@, n as nat));
    let cv = chars_of(c.as_str());
    let (len, dash) = utf8_len_and_byte(&cv, 4, '-');
    let format = if len == 10 && dash {
        "%Y-%m-%d"
    } else {
        "%Y%m%d"
    };
    parse_date_with_format(c.as_str(), format)
}

/// The date that a file name starts with, as `YYYY-MM-DD` or `YYYYMMDD`.
pub fn extract_filename_date(filename: &str) -> (r: Result<Date, AlogError>)
    ensures
        r == filename_date(filename@),
{
    let stem = match path_file_stem(filename) {
        Some(s) => s,
        None => return Err(AlogError::InvalidFilename),
    };
    let sv = chars_of(stem.as_str());
    match parse_candidate(&sv, 10) {
        Some(d) => Ok(d),
        None => match parse_candidate(&sv, 8) {
            Some(d) => Ok(d),
            None => Err(AlogError::NoFilenameDate),
        },
    }
}

/// The file name of the parent of `path`, when both exist.
pub open spec fn parent_name(path: Seq<char>) -> Option<Seq<char>> {
    match std_parent(path) {
        Some(p) => std_file_name(p),
        None => None,
    }
}

/// The date that the directories holding a post give: `.../<year>/<month>/`
/// gives the first of that month, and so does `.../<month>/<year>/` when the
/// innermost directory is a four-digit year.
pub open spec fn directory_date(path: Seq<char>) -> Option<Date> {
    match std_parent(path) {
        None => None,
        Some(parent) => match std_file_name(parent) {
            None => None,
            Some(name) => {
                let outer = parent_name(parent);
                if parse_i32_spec(name) is Some && 1000 <= parse_i32_spec(name).unwrap() <= 9999 {
                    match outer {
                        Some(o) => match parse_u32_spec(o) {
                            Some(m) => calendar_date(parse_i32_spec(name).unwrap(), m, 1),
                            None => None,
                        },
                        None => None,
                    }
                } else if utf8_len(name) == 2 {
                    match outer {
                        Some(o) => match (parse_i32_spec(o), parse_u32_spec(name)) {
                            (Some(y), Some(m)) => calendar_date(y, m, 1),
                            _ => None,
                        },
                        None => None,
                    }
                } else {
                    None
                }
            },
        },
    }
}

fn outer_name(parent: &str) -> (r: Option<String>)
    ensures
        r matches Some(s) ==> parent_name(parent@) == Some(s@),
        r is None ==> parent_name(parent@) is None,
{
    match path_parent(parent) {
        Some(p) => path_file_name(p.as_str()),
        None => None,
    }
}

/// The first day of the month that the post's directories name, if they do.
pub fn extract_directory_date(path: &str) -> (r: Option<Date>)
    ensures
        r == directory_date(path@),
{
    let parent = match path_parent(path) {
        Some(p) => p,
        None => return None,
    };
    let name = match path_file_name(parent.as_str()) {
        Some(n) => n,
        None => return None,
    };
    let nv = chars_of(name.as_str());
    if let Some(year) = parse_i32(&nv) {
        if 1000 <= year && year <= 9999 {
            let outer = match outer_name(parent.as_str()) {
                Some(o) => o,
                None => return None,
            };
            let ov = chars_of(outer.as_str());
            let month = match parse_u32(&ov) {
                Some(m) => m,
                None => return None,
            };
            return date_from_ymd(year, month, 1);
        }
    }
    if nv.len() <= 2 {
        let (len, _) = utf8_len_and_byte(&nv, 0, '-');
        if len == 2 {
            let outer = match outer_name(parent.as_str()) {
                Some(o) => o,
                None => return None,
            };
            let ov = chars_of(outer.as_str());
            let year = match parse_i32(&ov) {
                Some(y) => y,
                None => return None,
            };
            let month = match parse_u32(&nv) {
                Some(m) => m,
                None => return None,
            };
            return date_from_ymd(year, month, 1);
        }
    } else {
        proof {
            lemma_utf8_len_at_least_len(nv@);
        }
    }
    None
}

/// An entry of the site's page navigation.
#[derive(Clone, Debug)]
pub struct PageItem {
    pub order: Option<usize>,
    pub label: String,
    pub path: String,
    pub filename: String,
    pub url: String,
}

} // verus!
