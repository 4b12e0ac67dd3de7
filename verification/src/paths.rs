//! The parts of `std::path` that the library reads from a path, by name.
//!
//! A path is handled as its text.  `Path::file_name`, `file_stem`,
//! `extension` and `parent` split that text by the platform's component rules;
//! their results are named functions of the text.

use vstd::prelude::*;
use std::path::Path;
use crate::sorting::{sort_indices, sorted_by, strict_total_on};
use crate::text::{chars_of, views};

verus! {

/// What `Path::file_name` gives for a path text.
pub uninterp spec fn std_file_name(path: Seq<char>) -> Option<Seq<char>>;

/// What `Path::file_stem` gives for a path text.
pub uninterp spec fn std_file_stem(path: Seq<char>) -> Option<Seq<char>>;

/// What `Path::extension` gives for a path text.
pub uninterp spec fn std_extension(path: Seq<char>) -> Option<Seq<char>>;

/// What `Path::parent` gives for a path text.
pub uninterp spec fn std_parent(path: Seq<char>) -> Option<Seq<char>>;

/// What `Path::eq` says of two path texts (equality of their components).
pub uninterp spec fn std_same_path(a: Seq<char>, b: Seq<char>) -> bool;

/// Calls `Path::file_name`.  Claimed: the result is the named function of the
/// path text.
#[verifier::external_body]
pub(crate) fn path_file_name(path: &str) -> (r: Option<String>)
    ensures
        r matches Some(s) ==> std_file_name(path@) == Some(s@),
        r is None ==> std_file_name(path@) is None,
{
    Path::new(path).file_name().and_then(|n| n.to_str()).map(|n| n.to_string())
}

/// Calls `Path::file_stem`.  Claimed: the result is the named function of the
/// path text.
#[verifier::external_body]
pub(crate) fn path_file_stem(path: &str) -> (r: Option<String>)
    ensures
        r matches Some(s) ==> std_file_stem(path@) == Some(s@),
        r is None ==> std_file_stem(path@) is None,
{
    Path::new(path).file_stem().and_then(|n| n.to_str()).map(|n| n.to_string())
}

/// Calls `Path::extension`.  Claimed: the result is the named function of the
/// path text.
#[verifier::external_body]
pub(crate) fn path_extension(path: &str) -> (r: Option<String>)
    ensures
        r matches Some(s) ==> std_extension(path@) == Some(s@),
        r is None ==> std_extension(path@) is None,
{
    Path::new(path).extension().and_then(|n| n.to_str()).map(|n| n.to_string())
}

/// Calls `Path::parent`.  Claimed: the result is the named function of the path
/// text.
#[verifier::external_body]
pub(crate) fn path_parent(path: &str) -> (r: Option<String>)
    ensures
        r matches Some(s) ==> std_parent(path@) == Some(s@),
        r is None ==> std_parent(path@) is None,
{
    Path::new(path).parent().and_then(|n| n.to_str()).map(|n| n.to_string())
}

/// Calls `Path::eq`.  Claimed: the result is the named function of the two path
/// texts.
#[verifier::external_body]
pub(crate) fn same_path(a: &str, b: &str) -> (r: bool)
    ensures
        r == std_same_path(a@, b@),
{
    Path::new(a) == Path::new(b)
}

/// The rank of a character in the order of paths: the separator before every
/// other character, the others by code point.
pub open spec fn path_rank(c: char) -> int {
    if c == '/' {
        -1
    } else {
        c as u32 as int
    }
}

/// The order of `PathBuf`s on paths made of plain names joined by `/`: name by
/// name, a name before every longer name that it begins.  Character by
/// character, this is the order of the texts with the separator ranked first.
pub open spec fn path_lt(a: Seq<char>, b: Seq<char>) -> bool
    decreases a.len(),
{
    if b.len() == 0 {
        false
    } else if a.len() == 0 {
        true
    } else if a[0] != b[0] {
        path_rank(a[0]) < path_rank(b[0])
    } else {
        path_lt(a.drop_first(), b.drop_first())
    }
}

proof fn lemma_path_lt_irreflexive(a: Seq<char>)
    ensures
        !path_lt(a, a),
    decreases a.len(),
{
    if a.len() > 0 {
        lemma_path_lt_irreflexive(a.drop_first());
    }
}

proof fn lemma_path_lt_transitive(a: Seq<char>, b: Seq<char>, c: Seq<char>)
    requires
        path_lt(a, b),
        path_lt(b, c),
    ensures
        path_lt(a, c),
    decreases a.len(),
{
    if a.len() > 0 && b.len() > 0 && c.len() > 0 && a[0] == b[0] && b[0] == c[0] {
        lemma_path_lt_transitive(a.drop_first(), b.drop_first(), c.drop_first());
    }
}

proof fn lemma_path_lt_total(a: Seq<char>, b: Seq<char>)
    ensures
        a == b || path_lt(a, b) || path_lt(b, a),
    decreases a.len(),
{
    if a.len() > 0 && b.len() > 0 {
        if a[0] == b[0] {
            lemma_path_lt_total(a.drop_first(), b.drop_first());
            if a.drop_first() == b.drop_first() {
                assert(a =~= seq![a[0]] + a.drop_first());
                assert(b =~= seq![b[0]] + b.drop_first());
            }
        } else {
            vstd::utf8::char_u32_cast(a[0], a[0] as u32);
            vstd::utf8::char_u32_cast(b[0], b[0] as u32);
        }
    } else if a.len() == 0 && b.len() == 0 {
        assert(a =~= b);
    }
}

/// The order in which content files are read: by path, the given order among
/// equal paths.
pub open spec fn file_before(files: Seq<Seq<char>>, i: int, j: int) -> bool {
    path_lt(files[i], files[j]) || (files[i] == files[j] && i < j)
}

pub open spec fn file_order(files: Seq<Seq<char>>) -> spec_fn(int, int) -> bool {
    |i: int, j: int| file_before(files, i, j)
}

fn path_before(a: &Vec<char>, b: &Vec<char>) -> (r: bool)
    ensures
        r == path_lt(a@, b@),
{
    let mut i: usize = 0;
    assert(a@.skip(0) =~= a@);
    assert(b@.skip(0) =~= b@);
    while i < a.len() && i < b.len() && a[i] == b[i]
        invariant
            i <= a.len(),
            i <= b.len(),
            path_lt(a@, b@) == path_lt(a@.skip(i as int), b@.skip(i as int)),
        decreases a.len() - i,
    {
        assert(a@.skip(i as int).drop_first() =~= a@.skip(i + 1));
        assert(b@.skip(i as int).drop_first() =~= b@.skip(i + 1));
        i = i + 1;
    }
    if i == b.len() {
        return false;
    }
    if i == a.len() {
        return true;
    }
    assert(a@.skip(i as int)[0] == a@[i as int]);
    assert(b@.skip(i as int)[0] == b@[i as int]);
    if a[i] == '/' {
        true
    } else if b[i] == '/' {
        false
    } else {
        (a[i] as u32) < (b[i] as u32)
    }
}

/// Whether a path names a Markdown file: its extension is `md`.
pub fn is_markdown_file(path: &str) -> (r: bool)
    ensures
        r == (std_extension(path@) == Some("md"@)),
{
    match path_extension(path) {
        Some(e) => crate::text::str_eq(e.as_str(), "md"),
        None => false,
    }
}

/// Whether a path text ends with `.md`: the test by which the single-page
/// layout picks its Markdown files.
pub fn ends_with_md(path: &str) -> (r: bool)
    ensures
        r == (path@.len() >= 3 && path@.skip(path@.len() - 3) == ".md"@),
{
    let v = chars_of(path);
    let n = v.len();
    proof {
        reveal_strlit(".md");
    }
    if n < 3 {
        return false;
    }
    let r = v[n - 3] == '.' && v[n - 2] == 'm' && v[n - 1] == 'd';
    proof {
        let t = v@.skip(n - 3);
        if r {
            assert(t =~= ".md"@);
        } else if t == ".md"@ {
            assert(t[0] == v@[n - 3] && t[1] == v@[n - 2] && t[2] == v@[n - 1]);
        }
    }
    r
}

/// The content files in the order they are read: sorted by path (see
/// `path_lt`), each file once for each time it was given.
pub fn sort_content_files(files: &Vec<String>) -> (r: Vec<String>)
    ensures
        exists|order: Seq<usize>|
            {
                &&& #[trigger] order.len() == files@.len()
                &&& forall|x: usize| order.contains(x) <==> x < files@.len()
                &&& sorted_by(order, file_order(views(files@)))
                &&& views(r@) == order.map_values(|i: usize| files@[i as int]@)
            },
{
    let n = files.len();
    let mut keys: Vec<Vec<char>> = Vec::new();
    let mut items: Vec<usize> = Vec::new();
    let mut i: usize = 0;
    while i < n
        invariant
            i <= n == files.len(),
            items@ == Seq::new(i as nat, |k: int| k as usize),
            keys@.len() == i,
            forall|k: int| 0 <= k < i ==> #[trigger] keys@[k]@ == files@[k]@,
        decreases n - i,
    {
        keys.push(chars_of(files[i].as_str()));
        items.push(i);
        i = i + 1;
        assert(items@ =~= Seq::new(i as nat, |k: int| k as usize));
    }
    proof {
        assert forall|x: usize| items@.contains(x) <==> x < n by {
            if x < n {
                assert(items@[x as int] == x);
            }
        }
    }
    let ghost fs = views(files@);
    let before = |a: usize, b: usize| -> (r: bool)
        requires
            a < keys@.len(),
            b < keys@.len(),
            keys@.len() == files@.len(),
            forall|k: int| 0 <= k < keys@.len() ==> #[trigger] keys@[k]@ == files@[k]@,
        ensures
            r == file_before(views(files@), a as int, b as int),
        {
            path_before(&keys[a], &keys[b]) || (a < b && crate::text::chars_eq(&keys[a], &keys[b]))
        };
    proof {
        assert forall|a: usize| items@.contains(a) implies !#[trigger] file_order(fs)(a as int, a as int) by {
            lemma_path_lt_irreflexive(fs[a as int]);
        }
        assert forall|a: usize, b: usize|
            items@.contains(a) && items@.contains(b) && a != b implies #[trigger] file_order(fs)(a as int, b as int)
                || #[trigger] file_order(fs)(b as int, a as int) by {
            lemma_path_lt_total(fs[a as int], fs[b as int]);
        }
        assert forall|a: usize, b: usize, c: usize|
            items@.contains(a) && items@.contains(b) && items@.contains(c) && #[trigger] file_order(fs)(a as int, b as int)
                && #[trigger] file_order(fs)(b as int, c as int) implies file_order(fs)(a as int, c as int) by {
            if path_lt(fs[a as int], fs[b as int]) && path_lt(fs[b as int], fs[c as int]) {
                lemma_path_lt_transitive(fs[a as int], fs[b as int], fs[c as int]);
            }
        }
        assert(strict_total_on(file_order(fs), items@));
    }
    let order = sort_indices(&items, &before, Ghost(file_order(fs)));
    let mut r: Vec<String> = Vec::new();
    let mut k: usize = 0;
    proof {
        assert forall|m: int| 0 <= m < order@.len() implies #[trigger] order@[m] < n by {
            assert(order@.contains(order@[m]));
        }
    }
    while k < n
        invariant
            k <= n == files.len() == order@.len(),
            forall|m: int| 0 <= m < order@.len() ==> #[trigger] order@[m] < n,
            r@.len() == k,
            forall|m: int| 0 <= m < k ==> #[trigger] r@[m]@ == files@[order@[m] as int]@,
        decreases n - k,
    {
        r.push(files[order[k]].clone());
        k = k + 1;
    }
    assert(views(r@) =~= order@.map_values(|i: usize| files@[i as int]@));
    r
}

} // verus!
