//! The request handling of the built-in single-threaded server: which files a
//! request asks for, and the response that carries one.

use vstd::prelude::*;
use crate::posts::{first_captures, regex_captures};
use crate::text::{chars_of, drop_while, push_str, string_from, string_of};

verus! {

broadcast use vstd::string::group_string_axioms;

/// The request line pattern: `GET `, then the target up to the next space.
pub open spec fn request_pattern() -> Seq<char> {
    "^GET (.*?) "@
}

/// The target of a request line, as the first group of `request_pattern`
/// matches it; none when the request does not match.
pub open spec fn request_target(request: Seq<char>) -> Option<Seq<char>> {
    match regex_captures(request_pattern(), request) {
        Some(Some(gs)) => if gs.len() > 1 && gs[1] is Some {
            Some(gs[1].unwrap())
        } else {
            None
        },
        _ => None,
    }
}

pub open spec fn slash_pred() -> spec_fn(char) -> bool {
    |c: char| c == '/'
}

/// What `urlencoding::decode` gives for a text, when it is valid.
pub uninterp spec fn url_decoded(text: Seq<char>) -> Option<Seq<char>>;

/// Calls `urlencoding::decode`.  Claimed: the result is the named function of
/// the text.
#[verifier::external_body]
fn decode_url(text: &str) -> (r: Option<String>)
    ensures
        r matches Some(d) ==> url_decoded(text@) == Some(d@),
        r is None ==> url_decoded(text@) is None,
{
    urlencoding::decode(text).ok().map(|d| d.into_owned())
}

/// The files a request asks for, in the order they are tried: the target
/// without leading slashes followed by `index.html`, percent-decoded when that
/// decodes; then the target without leading slashes as it is.
pub open spec fn request_files(request: Seq<char>) -> Option<(Seq<char>, Seq<char>)> {
    match request_target(request) {
        None => None,
        Some(t) => {
            let url = drop_while(t, slash_pred());
            let index = url + "index.html"@;
            Some(
                (
                    match url_decoded(index) {
                        Some(d) => d,
                        None => index,
                    },
                    url,
                ),
            )
        },
    }
}

/// The files a request asks for (see `request_files`); none when its first line
/// is not a `GET` request line.
pub fn requested_files(request: &str) -> (r: Option<(String, String)>)
    ensures
        r is Some <==> request_files(request@) is Some,
        r matches Some(p) ==> request_files(request@) == Some((p.0@, p.1@)),
{
    let groups = match first_captures("^GET (.*?) ", request) {
        Some(Some(gs)) => gs,
        _ => return None,
    };
    if groups.len() < 2 {
        return None;
    }
    let target = match &groups[1] {
        Some(t) => t.clone(),
        None => return None,
    };
    let tv = chars_of(target.as_str());
    let mut i: usize = 0;
    assert(tv@.subrange(0, tv@.len() as int) =~= tv@);
    while i < tv.len() && tv[i] == '/'
        invariant
            i <= tv.len(),
            drop_while(tv@, slash_pred()) == drop_while(tv@.subrange(i as int, tv@.len() as int), slash_pred()),
        decreases tv.len() - i,
    {
        assert(tv@.subrange(i as int, tv@.len() as int).drop_first() =~= tv@.subrange(i + 1, tv@.len() as int));
        i = i + 1;
    }
    let url = string_from(&tv, i, tv.len());
    let mut iv: Vec<char> = Vec::new();
    push_str(&mut iv, url.as_str());
    push_str(&mut iv, "index.html");
    let index = string_of(&iv);
    assert(index@ =~= url@ + "index.html"@);
    let file = match decode_url(index.as_str()) {
        Some(d) => d,
        None => index,
    };
    Some((file, url))
}

/// The response that carries a page: a `200 OK` status line, a blank line, the
/// contents.
pub fn http_response(contents: &str) -> (r: String)
    ensures
        r@ == "HTTP/1.1 200 OK\r\n\r\n"@ + contents@,
{
    let mut v: Vec<char> = Vec::new();
    push_str(&mut v, "HTTP/1.1 200 OK\r\n\r\n");
    push_str(&mut v, contents);
    assert(v@ =~= "HTTP/1.1 200 OK\r\n\r\n"@ + contents@);
    string_of(&v)
}

} // verus!
