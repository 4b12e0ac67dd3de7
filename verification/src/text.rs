//! Character-level string utilities with their specifications.
//!
//! Strings are modelled by their views, `Seq<char>`.  The executable helpers
//! work on `Vec<char>` and on sub-ranges of one.

use vstd::prelude::*;

verus! {

broadcast use vstd::string::group_string_axioms;

/// Unicode `White_Space` property, as used by `char::is_whitespace`.
pub open spec fn is_ws(c: char) -> bool {
    ||| ('\u{9}' <= c && c <= '\u{d}')
    ||| c == ' '
    ||| c == '\u{85}'
    ||| c == '\u{a0}'
    ||| c == '\u{1680}'
    ||| ('\u{2000}' <= c && c <= '\u{200a}')
    ||| c == '\u{2028}'
    ||| c == '\u{2029}'
    ||| c == '\u{202f}'
    ||| c == '\u{205f}'
    ||| c == '\u{3000}'
}

/// Executable `char::is_whitespace`.
pub fn is_whitespace(c: char) -> (r: bool)
    ensures
        r == is_ws(c),
{
    ('\u{9}' <= c && c <= '\u{d}') || c == ' ' || c == '\u{85}' || c == '\u{a0}' || c
        == '\u{1680}' || ('\u{2000}' <= c && c <= '\u{200a}') || c == '\u{2028}' || c
        == '\u{2029}' || c == '\u{202f}' || c == '\u{205f}' || c == '\u{3000}'
}

/// ASCII decimal digit.
pub open spec fn is_digit(c: char) -> bool {
    '0' <= c && c <= '9'
}

/// The leading characters of `s` that satisfy `p` removed.
pub open spec fn drop_while(s: Seq<char>, p: spec_fn(char) -> bool) -> Seq<char>
    decreases s.len(),
{
    if s.len() > 0 && p(s[0]) {
        drop_while(s.drop_first(), p)
    } else {
        s
    }
}

/// The trailing characters of `s` that satisfy `p` removed.
pub open spec fn drop_last_while(s: Seq<char>, p: spec_fn(char) -> bool) -> Seq<char>
    decreases s.len(),
{
    if s.len() > 0 && p(s.last()) {
        drop_last_while(s.drop_last(), p)
    } else {
        s
    }
}

pub open spec fn ws_pred() -> spec_fn(char) -> bool {
    |c: char| is_ws(c)
}

/// `str::trim_start`.
pub open spec fn trim_start(s: Seq<char>) -> Seq<char> {
    drop_while(s, ws_pred())
}

/// `str::trim_end`.
pub open spec fn trim_end(s: Seq<char>) -> Seq<char> {
    drop_last_while(s, ws_pred())
}

/// `str::trim`.
pub open spec fn trim(s: Seq<char>) -> Seq<char> {
    trim_end(trim_start(s))
}

/// Appends one character to a string (`String::push`).
#[verifier::external_body]
fn push_char(s: &mut String, c: char)
    ensures
        final(s)@ == old(s)@.push(c),
{
    s.push(c);
}

/// The characters of a string slice, in order.
pub fn chars_of(s: &str) -> (v: Vec<char>)
    ensures
        v@ == s@,
{
    let mut v: Vec<char> = Vec::new();
    for c in it: s.chars()
        invariant
            it.seq() == s@,
            v@ == s@.take(it.index() as int),
    {
        v.push(c);
    }
    assert(v@ =~= s@);
    v
}

/// The string made of `v[lo..hi]`.
pub fn string_from(v: &Vec<char>, lo: usize, hi: usize) -> (r: String)
    requires
        lo <= hi <= v.len(),
    ensures
        r@ == v@.subrange(lo as int, hi as int),
{
    let mut r = String::new();
    let mut i = lo;
    while i < hi
        invariant
            lo <= i <= hi <= v.len(),
            r@ == v@.subrange(lo as int, i as int),
        decreases hi - i,
    {
        push_char(&mut r, v[i]);
        i = i + 1;
        assert(r@ =~= v@.subrange(lo as int, i as int));
    }
    r
}

/// The string made of all of `v`.
pub fn string_of(v: &Vec<char>) -> (r: String)
    ensures
        r@ == v@,
{
    let r = string_from(v, 0, v.len());
    assert(v@.subrange(0, v@.len() as int) =~= v@);
    r
}

/// Appends `v[lo..hi]` to `out`.
pub fn push_range(out: &mut Vec<char>, v: &Vec<char>, lo: usize, hi: usize)
    requires
        lo <= hi <= v.len(),
    ensures
        final(out)@ == old(out)@ + v@.subrange(lo as int, hi as int),
{
    let mut i = lo;
    while i < hi
        invariant
            lo <= i <= hi <= v.len(),
            out@ == old(out)@ + v@.subrange(lo as int, i as int),
        decreases hi - i,
    {
        out.push(v[i]);
        i = i + 1;
        assert(out@ =~= old(out)@ + v@.subrange(lo as int, i as int));
    }
}

/// Appends all characters of a string slice to `out`.
pub fn push_str(out: &mut Vec<char>, s: &str)
    ensures
        final(out)@ == old(out)@ + s@,
{
    let v = chars_of(s);
    push_range(out, &v, 0, v.len());
    assert(v@.subrange(0, v@.len() as int) =~= v@);
}

/// Index of the first character of `v[lo..hi]` that is not whitespace (or `hi`).
pub fn skip_ws(v: &Vec<char>, lo: usize, hi: usize) -> (i: usize)
    requires
        lo <= hi <= v.len(),
    ensures
        lo <= i <= hi,
        v@.subrange(i as int, hi as int) == trim_start(v@.subrange(lo as int, hi as int)),
{
    let mut i = lo;
    while i < hi && is_whitespace(v[i])
        invariant
            lo <= i <= hi <= v.len(),
            trim_start(v@.subrange(lo as int, hi as int)) == trim_start(
                v@.subrange(i as int, hi as int),
            ),
        decreases hi - i,
    {
        assert(v@.subrange(i as int, hi as int).drop_first() =~= v@.subrange(
            i + 1,
            hi as int,
        ));
        i = i + 1;
    }
    i
}

/// End of `v[lo..hi]` once its trailing whitespace is removed.
pub fn skip_ws_back(v: &Vec<char>, lo: usize, hi: usize) -> (j: usize)
    requires
        lo <= hi <= v.len(),
    ensures
        lo <= j <= hi,
        v@.subrange(lo as int, j as int) == trim_end(v@.subrange(lo as int, hi as int)),
{
    let mut j = hi;
    while j > lo && is_whitespace(v[j - 1])
        invariant
            lo <= j <= hi <= v.len(),
            trim_end(v@.subrange(lo as int, hi as int)) == trim_end(
                v@.subrange(lo as int, j as int),
            ),
        decreases j - lo,
    {
        assert(v@.subrange(lo as int, j as int).drop_last() =~= v@.subrange(
            lo as int,
            j - 1,
        ));
        j = j - 1;
    }
    j
}

/// Bounds of `trim(v[lo..hi])` within `v`.
pub fn trim_bounds(v: &Vec<char>, lo: usize, hi: usize) -> (r: (usize, usize))
    requires
        lo <= hi <= v.len(),
    ensures
        lo <= r.0 <= r.1 <= hi,
        v@.subrange(r.0 as int, r.1 as int) == trim(v@.subrange(lo as int, hi as int)),
{
    let i = skip_ws(v, lo, hi);
    let j = skip_ws_back(v, i, hi);
    (i, j)
}

/// `s.trim().to_string()`.
pub fn trimmed(s: &str) -> (r: String)
    ensures
        r@ == trim(s@),
{
    let v = chars_of(s);
    let (i, j) = trim_bounds(&v, 0, v.len());
    assert(v@.subrange(0, v@.len() as int) =~= v@);
    string_from(&v, i, j)
}

/// `s.trim().is_empty()`.
pub fn is_blank(s: &str) -> (r: bool)
    ensures
        r == (trim(s@).len() == 0),
{
    let v = chars_of(s);
    let (i, j) = trim_bounds(&v, 0, v.len());
    assert(v@.subrange(0, v@.len() as int) =~= v@);
    i == j
}

/// Whether two character sequences are equal.
pub fn chars_eq(a: &Vec<char>, b: &Vec<char>) -> (r: bool)
    ensures
        r == (a@ == b@),
{
    if a.len() != b.len() {
        return false;
    }
    let mut i: usize = 0;
    while i < a.len()
        invariant
            a.len() == b.len(),
            0 <= i <= a.len(),
            a@.take(i as int) == b@.take(i as int),
        decreases a.len() - i,
    {
        if a[i] != b[i] {
            assert(a@[i as int] != b@[i as int]);
            return false;
        }
        i = i + 1;
        assert(a@.take(i as int) =~= a@.take(i - 1).push(a@[i - 1]));
        assert(b@.take(i as int) =~= b@.take(i - 1).push(b@[i - 1]));
    }
    assert(a@ =~= a@.take(a.len() as int));
    assert(b@ =~= b@.take(b.len() as int));
    true
}

/// Whether two strings are equal.
pub fn str_eq(a: &str, b: &str) -> (r: bool)
    ensures
        r == (a@ == b@),
{
    let va = chars_of(a);
    let vb = chars_of(b);
    chars_eq(&va, &vb)
}

/// The decimal digit character for `d < 10`.
pub open spec fn digit_char(d: nat) -> char {
    if d == 0 {
        '0'
    } else if d == 1 {
        '1'
    } else if d == 2 {
        '2'
    } else if d == 3 {
        '3'
    } else if d == 4 {
        '4'
    } else if d == 5 {
        '5'
    } else if d == 6 {
        '6'
    } else if d == 7 {
        '7'
    } else if d == 8 {
        '8'
    } else {
        '9'
    }
}

/// The value of an ASCII digit character.
pub open spec fn digit_value(c: char) -> nat {
    if c == '0' {
        0
    } else if c == '1' {
        1
    } else if c == '2' {
        2
    } else if c == '3' {
        3
    } else if c == '4' {
        4
    } else if c == '5' {
        5
    } else if c == '6' {
        6
    } else if c == '7' {
        7
    } else if c == '8' {
        8
    } else {
        9
    }
}

/// Decimal representation of `n`, without leading zeros (`Display` for integers).
pub open spec fn decimal(n: nat) -> Seq<char>
    decreases n,
{
    if n < 10 {
        seq![digit_char(n)]
    } else {
        decimal(n / 10).push(digit_char(n % 10))
    }
}

/// `s` left-padded with `'0'` to at least `width` characters.
pub open spec fn zero_pad(s: Seq<char>, width: nat) -> Seq<char> {
    if s.len() >= width {
        s
    } else {
        Seq::new((width - s.len()) as nat, |i: int| '0') + s
    }
}

/// The value of a sequence of ASCII digits.
pub open spec fn digits_value(s: Seq<char>) -> nat
    decreases s.len(),
{
    if s.len() == 0 {
        0
    } else {
        digits_value(s.drop_last()) * 10 + digit_value(s.last())
    }
}

pub open spec fn all_digits(s: Seq<char>) -> bool {
    forall|i: int| 0 <= i < s.len() ==> is_digit(#[trigger] s[i])
}

/// What `str::parse::<u32>` accepts: an optional `+`, then one or more ASCII
/// digits whose value fits in a `u32`.
pub open spec fn parse_u32_spec(s: Seq<char>) -> Option<u32> {
    let d = if s.len() > 0 && s[0] == '+' {
        s.drop_first()
    } else {
        s
    };
    if d.len() > 0 && all_digits(d) && digits_value(d) <= u32::MAX {
        Some(digits_value(d) as u32)
    } else {
        None
    }
}

/// What `str::parse::<i32>` accepts: an optional `+` or `-`, then one or more
/// ASCII digits whose signed value fits in an `i32`.
pub open spec fn parse_i32_spec(s: Seq<char>) -> Option<i32> {
    let neg = s.len() > 0 && s[0] == '-';
    let d = if s.len() > 0 && (s[0] == '+' || s[0] == '-') {
        s.drop_first()
    } else {
        s
    };
    if d.len() > 0 && all_digits(d) {
        if neg && digits_value(d) <= 0x8000_0000 {
            Some((-digits_value(d)) as i32)
        } else if !neg && digits_value(d) <= 0x7fff_ffff {
            Some(digits_value(d) as i32)
        } else {
            None
        }
    } else {
        None
    }
}

/// Executable `digit_char`.
pub fn digit_to_char(d: u64) -> (c: char)
    requires
        d < 10,
    ensures
        c == digit_char(d as nat),
{
    if d == 0 {
        '0'
    } else if d == 1 {
        '1'
    } else if d == 2 {
        '2'
    } else if d == 3 {
        '3'
    } else if d == 4 {
        '4'
    } else if d == 5 {
        '5'
    } else if d == 6 {
        '6'
    } else if d == 7 {
        '7'
    } else if d == 8 {
        '8'
    } else {
        '9'
    }
}

/// Appends the decimal representation of `n` to `out`.
pub fn push_decimal(out: &mut Vec<char>, n: u64)
    ensures
        final(out)@ == old(out)@ + decimal(n as nat),
    decreases n,
{
    if n < 10 {
        out.push(digit_to_char(n));
        assert(final(out)@ =~= old(out)@ + decimal(n as nat));
    } else {
        push_decimal(out, n / 10);
        out.push(digit_to_char(n % 10));
        assert(final(out)@ =~= old(out)@ + decimal(n as nat));
    }
}

pub proof fn lemma_decimal_len(n: nat)
    ensures
        1 <= decimal(n).len(),
        n < 10 ==> decimal(n).len() == 1,
        10 <= n < 100 ==> decimal(n).len() == 2,
        100 <= n < 1000 ==> decimal(n).len() == 3,
        1000 <= n < 10000 ==> decimal(n).len() == 4,
        10000 <= n ==> decimal(n).len() >= 5,
    decreases n,
{
    if n >= 10 {
        lemma_decimal_len(n / 10);
    }
}

/// Appends `zero_pad(decimal(n), width)` to `out`.
pub fn push_padded(out: &mut Vec<char>, n: u64, width: usize)
    requires
        width <= 4,
    ensures
        final(out)@ == old(out)@ + zero_pad(decimal(n as nat), width as nat),
{
    proof {
        lemma_decimal_len(n as nat);
    }
    let len: usize = if n < 10 {
        1
    } else if n < 100 {
        2
    } else if n < 1000 {
        3
    } else if n < 10000 {
        4
    } else {
        5
    };
    let ghost start = out@;
    let mut k = len;
    while k < width
        invariant
            len <= k,
            k <= width || k == len,
            len == decimal(n as nat).len() || (len == 5 && decimal(n as nat).len() >= 5),
            width <= 4,
            out@ == start + Seq::new((k - len) as nat, |i: int| '0'),
        decreases width - k,
    {
        out.push('0');
        k = k + 1;
        assert(out@ =~= start + Seq::new((k - len) as nat, |i: int| '0'));
    }
    push_decimal(out, n);
    proof {
        if decimal(n as nat).len() >= width {
            assert(k == len);
            assert(out@ =~= start + decimal(n as nat));
        } else {
            assert(out@ =~= start + zero_pad(decimal(n as nat), width as nat));
        }
    }
}

/// Executable `is_digit`.
pub fn is_ascii_digit(c: char) -> (r: bool)
    ensures
        r == is_digit(c),
{
    '0' <= c && c <= '9'
}

fn digit_of(c: char) -> (d: u64)
    requires
        is_digit(c),
    ensures
        d == digit_value(c),
        d < 10,
{
    if c == '0' {
        0
    } else if c == '1' {
        1
    } else if c == '2' {
        2
    } else if c == '3' {
        3
    } else if c == '4' {
        4
    } else if c == '5' {
        5
    } else if c == '6' {
        6
    } else if c == '7' {
        7
    } else if c == '8' {
        8
    } else {
        9
    }
}

proof fn lemma_digits_value_prefix(s: Seq<char>, k: int)
    requires
        0 <= k <= s.len(),
    ensures
        digits_value(s.take(k)) <= digits_value(s),
    decreases s.len(),
{
    if k < s.len() {
        assert(s.drop_last().take(k) =~= s.take(k));
        lemma_digits_value_prefix(s.drop_last(), k);
    } else {
        assert(s.take(k) =~= s);
    }
}

/// Value of the ASCII digits `v[lo..hi]` if they are all digits and the value is
/// at most `bound`; `None` otherwise.
fn digits_upto(v: &Vec<char>, lo: usize, hi: usize, bound: u64) -> (r: Option<u64>)
    requires
        lo <= hi <= v.len(),
        bound <= 0x1_0000_0000,
    ensures
        r is Some <==> (all_digits(v@.subrange(lo as int, hi as int)) && digits_value(
            v@.subrange(lo as int, hi as int),
        ) <= bound),
        r matches Some(x) ==> x == digits_value(v@.subrange(lo as int, hi as int)),
{
    let ghost d = v@.subrange(lo as int, hi as int);
    let mut acc: u64 = 0;
    let mut i = lo;
    let mut too_big = false;
    while i < hi
        invariant
            lo <= i <= hi <= v.len(),
            d == v@.subrange(lo as int, hi as int),
            bound <= 0x1_0000_0000,
            all_digits(d.take(i - lo)),
            !too_big ==> acc == digits_value(d.take(i - lo)) && acc <= bound,
            too_big ==> digits_value(d.take(i - lo)) > bound,
        decreases hi - i,
    {
        let c = v[i];
        if !is_ascii_digit(c) {
            assert(d[i - lo] == c);
            return None;
        }
        let dv = digit_of(c);
        proof {
            assert(d.take(i + 1 - lo).drop_last() =~= d.take(i - lo));
            assert(d.take(i + 1 - lo).last() == c);
            assert(all_digits(d.take(i + 1 - lo)));
        }
        if !too_big {
            let next = acc * 10 + dv;
            if next > bound {
                too_big = true;
            } else {
                acc = next;
            }
        } else {
            proof {
                assert(digits_value(d.take(i + 1 - lo)) >= digits_value(d.take(i - lo)) * 10);
            }
        }
        i = i + 1;
    }
    assert(d.take(i - lo) =~= d);
    if too_big {
        None
    } else {
        Some(acc)
    }
}

/// Executable `parse_u32_spec` (`str::parse::<u32>`).
pub fn parse_u32(v: &Vec<char>) -> (r: Option<u32>)
    ensures
        r == parse_u32_spec(v@),
{
    let lo: usize = if v.len() > 0 && v[0] == '+' {
        1
    } else {
        0
    };
    assert(v@.subrange(lo as int, v.len() as int) =~= (if v@.len() > 0 && v@[0] == '+' {
        v@.drop_first()
    } else {
        v@
    }));
    if lo == v.len() {
        return None;
    }
    match digits_upto(v, lo, v.len(), 0xffff_ffff) {
        Some(x) => Some(x as u32),
        None => None,
    }
}

/// Executable `parse_i32_spec` (`str::parse::<i32>`).
pub fn parse_i32(v: &Vec<char>) -> (r: Option<i32>)
    ensures
        r == parse_i32_spec(v@),
{
    let neg = v.len() > 0 && v[0] == '-';
    let lo: usize = if v.len() > 0 && (v[0] == '+' || v[0] == '-') {
        1
    } else {
        0
    };
    assert(v@.subrange(lo as int, v.len() as int) =~= (if v@.len() > 0 && (v@[0] == '+'
        || v@[0] == '-') {
        v@.drop_first()
    } else {
        v@
    }));
    if lo == v.len() {
        return None;
    }
    let bound: u64 = if neg {
        0x8000_0000
    } else {
        0x7fff_ffff
    };
    match digits_upto(v, lo, v.len(), bound) {
        Some(x) => {
            if neg {
                if x == 0x8000_0000 {
                    Some(-2147483648i32)
                } else {
                    Some(-(x as i32))
                }
            } else {
                Some(x as i32)
            }
        },
        None => None,
    }
}

/// Length of the run of non-whitespace characters that starts `s`.
pub open spec fn word_len(s: Seq<char>) -> nat
    decreases s.len(),
{
    if s.len() > 0 && !is_ws(s[0]) {
        1 + word_len(s.drop_first())
    } else {
        0
    }
}

pub proof fn lemma_word_len(s: Seq<char>)
    ensures
        word_len(s) <= s.len(),
        s.len() > 0 && !is_ws(s[0]) ==> word_len(s) >= 1,
    decreases s.len(),
{
    if s.len() > 0 && !is_ws(s[0]) {
        lemma_word_len(s.drop_first());
    }
}

pub proof fn lemma_drop_while_len(s: Seq<char>, p: spec_fn(char) -> bool)
    ensures
        drop_while(s, p).len() <= s.len(),
        drop_while(s, p).len() > 0 ==> !p(drop_while(s, p)[0]),
        drop_while(s, p) == s.skip(s.len() - drop_while(s, p).len()),
    decreases s.len(),
{
    if s.len() > 0 && p(s[0]) {
        lemma_drop_while_len(s.drop_first(), p);
        let d = drop_while(s.drop_first(), p);
        assert(s.drop_first().skip(s.drop_first().len() - d.len()) =~= s.skip(
            s.len() - d.len(),
        ));
    } else {
        assert(s.skip(0) =~= s);
    }
}

/// The whitespace-separated words of `s` (`str::split_whitespace`).
pub open spec fn words(s: Seq<char>) -> Seq<Seq<char>>
    decreases s.len(),
{
    let t = trim_start(s);
    if t.len() == 0 {
        seq![]
    } else {
        proof {
            lemma_drop_while_len(s, ws_pred());
            lemma_word_len(t);
        }
        seq![t.take(word_len(t) as int)] + words(t.skip(word_len(t) as int))
    }
}

/// The words joined with `'-'` between them (`join("-")`).
pub open spec fn join_dash(ws: Seq<Seq<char>>) -> Seq<char>
    decreases ws.len(),
{
    if ws.len() == 0 {
        seq![]
    } else if ws.len() == 1 {
        ws[0]
    } else {
        ws[0] + seq!['-'] + join_dash(ws.drop_first())
    }
}

pub proof fn lemma_join_dash_push(ws: Seq<Seq<char>>, w: Seq<char>)
    ensures
        join_dash(ws.push(w)) == (if ws.len() == 0 {
            w
        } else {
            join_dash(ws) + seq!['-'] + w
        }),
    decreases ws.len(),
{
    if ws.len() == 0 {
        assert(ws.push(w) =~= seq![w]);
    } else if ws.len() == 1 {
        assert(ws.push(w).drop_first() =~= seq![w]);
        assert(join_dash(seq![w]) == w);
        assert(ws.push(w)[0] == ws[0]);
        assert(join_dash(ws.push(w)) =~= join_dash(ws) + seq!['-'] + w);
    } else {
        lemma_join_dash_push(ws.drop_first(), w);
        assert(ws.push(w).drop_first() =~= ws.drop_first().push(w));
        assert(join_dash(ws.push(w)) =~= join_dash(ws) + seq!['-'] + w);
    }
}

/// `'/'` and `'\\'` replaced by `'-'`.
pub open spec fn slashes_to_dashes(s: Seq<char>) -> Seq<char> {
    s.map_values(|c: char| if c == '/' || c == '\\' { '-' } else { c })
}

pub open spec fn dash_pred() -> spec_fn(char) -> bool {
    |c: char| c == '-'
}

/// Path segment for a category or tag: its words joined with `'-'`, with
/// slashes and backslashes turned into `'-'`.
pub open spec fn segment_text(s: Seq<char>) -> Seq<char> {
    slashes_to_dashes(join_dash(words(s)))
}

/// A slug: `segment_text` without leading or trailing `'-'`.
pub open spec fn slug_text(s: Seq<char>) -> Seq<char> {
    drop_last_while(drop_while(segment_text(s), dash_pred()), dash_pred())
}

/// No character of `s` is whitespace, `'/'` or `'\\'`.
pub open spec fn plain_segment(s: Seq<char>) -> bool {
    forall|i: int| 0 <= i < s.len() ==> !is_ws(#[trigger] s[i]) && s[i] != '/' && s[i] != '\\'
}

proof fn lemma_word_no_ws(s: Seq<char>)
    ensures
        forall|i: int| 0 <= i < word_len(s) ==> !is_ws(#[trigger] s[i]),
    decreases s.len(),
{
    if s.len() > 0 && !is_ws(s[0]) {
        lemma_word_no_ws(s.drop_first());
        lemma_word_len(s);
        assert forall|i: int| 0 <= i < word_len(s) implies !is_ws(#[trigger] s[i]) by {
            if i > 0 {
                assert(s[i] == s.drop_first()[i - 1]);
            }
        }
    }
}

proof fn lemma_words_no_ws(s: Seq<char>)
    ensures
        forall|k: int, i: int|
            0 <= k < words(s).len() && 0 <= i < words(s)[k].len() ==> !is_ws(#[trigger] words(s)[k][i]),
    decreases s.len(),
{
    let t = trim_start(s);
    if t.len() > 0 {
        lemma_drop_while_len(s, ws_pred());
        lemma_word_len(t);
        let w = word_len(t) as int;
        let rest = t.skip(w);
        lemma_words_no_ws(rest);
        lemma_word_no_ws(t);
        assert(words(s) == seq![t.take(w)] + words(rest));
        assert forall|k: int, i: int|
            0 <= k < words(s).len() && 0 <= i < words(s)[k].len() implies !is_ws(#[trigger] words(s)[k][i]) by {
            if k == 0 {
                assert(words(s)[0] == t.take(w));
                assert(t.take(w)[i] == t[i]);
            } else {
                assert(words(s)[k] == words(rest)[k - 1]);
            }
        }
    }
}

proof fn lemma_join_dash_no_ws(ws: Seq<Seq<char>>)
    requires
        forall|k: int, i: int| 0 <= k < ws.len() && 0 <= i < ws[k].len() ==> !is_ws(#[trigger] ws[k][i]),
    ensures
        forall|i: int| 0 <= i < join_dash(ws).len() ==> !is_ws(#[trigger] join_dash(ws)[i]),
    decreases ws.len(),
{
    if ws.len() > 1 {
        let rest = ws.drop_first();
        assert forall|k: int, i: int| 0 <= k < rest.len() && 0 <= i < rest[k].len() implies !is_ws(
            #[trigger] rest[k][i],
        ) by {
            assert(rest[k] == ws[k + 1]);
        }
        lemma_join_dash_no_ws(rest);
        let j = join_dash(ws);
        assert(j == ws[0] + seq!['-'] + join_dash(rest));
        assert forall|i: int| 0 <= i < j.len() implies !is_ws(#[trigger] j[i]) by {
            if i < ws[0].len() {
                assert(j[i] == ws[0][i]);
            } else if i > ws[0].len() {
                assert(j[i] == join_dash(rest)[i - ws[0].len() - 1]);
            }
        }
    } else if ws.len() == 1 {
        assert(join_dash(ws) == ws[0]);
    }
}

/// The segment text of any text is plain.
proof fn lemma_segment_text_plain(s: Seq<char>)
    ensures
        plain_segment(segment_text(s)),
{
    lemma_words_no_ws(s);
    lemma_join_dash_no_ws(words(s));
}

proof fn lemma_word_len_plain(t: Seq<char>)
    requires
        forall|i: int| 0 <= i < t.len() ==> !is_ws(#[trigger] t[i]),
    ensures
        word_len(t) == t.len(),
    decreases t.len(),
{
    if t.len() > 0 {
        assert forall|i: int| 0 <= i < t.drop_first().len() implies !is_ws(#[trigger] t.drop_first()[i]) by {
            assert(t.drop_first()[i] == t[i + 1]);
        }
        lemma_word_len_plain(t.drop_first());
    }
}

/// Text without whitespace is a single word, or none when empty.
proof fn lemma_words_of_plain(t: Seq<char>)
    requires
        forall|i: int| 0 <= i < t.len() ==> !is_ws(#[trigger] t[i]),
    ensures
        words(t) == (if t.len() == 0 {
            Seq::<Seq<char>>::empty()
        } else {
            seq![t]
        }),
{
    if t.len() > 0 {
        assert(!is_ws(t[0]));
        assert(trim_start(t) == t);
        lemma_word_len_plain(t);
        assert(t.take(t.len() as int) =~= t);
        assert(t.skip(t.len() as int) =~= Seq::<char>::empty());
        assert(trim_start(Seq::<char>::empty()) == Seq::<char>::empty());
        assert(words(Seq::<char>::empty()) =~= Seq::<Seq<char>>::empty());
        assert(words(t) =~= seq![t]);
    } else {
        assert(trim_start(t) == t);
    }
}

pub proof fn lemma_drop_last_while_prefix(s: Seq<char>, p: spec_fn(char) -> bool)
    ensures
        drop_last_while(s, p) == s.take(drop_last_while(s, p).len() as int),
        drop_last_while(s, p).len() <= s.len(),
        drop_last_while(s, p).len() > 0 ==> !p(drop_last_while(s, p).last()),
    decreases s.len(),
{
    if s.len() > 0 && p(s.last()) {
        lemma_drop_last_while_prefix(s.drop_last(), p);
        let d = drop_last_while(s.drop_last(), p);
        assert(s.drop_last().take(d.len() as int) =~= s.take(d.len() as int));
    } else {
        assert(s.take(s.len() as int) =~= s);
    }
}

/// Law: a slug is its own slug, so normalizing a slug (`normalize_slug`) a
/// second time changes nothing.
pub proof fn law_slug_idempotent(s: Seq<char>)
    ensures
        slug_text(slug_text(s)) == slug_text(s),
{
    let seg = segment_text(s);
    lemma_segment_text_plain(s);
    let a = drop_while(seg, dash_pred());
    lemma_drop_while_len(seg, dash_pred());
    let u = drop_last_while(a, dash_pred());
    lemma_drop_last_while_prefix(a, dash_pred());
    assert(u == slug_text(s));
    assert forall|i: int| 0 <= i < u.len() implies !is_ws(#[trigger] u[i]) && u[i] != '/' && u[i] != '\\' by {
        assert(u[i] == a[i]);
        assert(a[i] == seg[seg.len() - a.len() + i]);
    }
    lemma_words_of_plain(u);
    let seg2 = segment_text(u);
    if u.len() == 0 {
        assert(seg2 =~= Seq::<char>::empty());
    } else {
        assert(join_dash(seq![u]) == u);
        assert(seg2 =~= u);
        assert(u[0] == a[0]);
        assert(!dash_pred()(u[0]));
        assert(drop_while(u, dash_pred()) == u);
        assert(drop_last_while(u, dash_pred()) == u);
    }
}

fn word_end(v: &Vec<char>, a: usize, n: usize) -> (b: usize)
    requires
        a <= n <= v.len(),
    ensures
        a <= b <= n,
        b - a == word_len(v@.subrange(a as int, n as int)),
{
    let mut k = a;
    while k < n && !is_whitespace(v[k])
        invariant
            a <= k <= n <= v.len(),
            word_len(v@.subrange(a as int, n as int)) == (k - a) + word_len(
                v@.subrange(k as int, n as int),
            ),
        decreases n - k,
    {
        assert(v@.subrange(k as int, n as int).drop_first() =~= v@.subrange(
            k + 1,
            n as int,
        ));
        k = k + 1;
    }
    k
}

/// Appends `join_dash(words(s))` to `out`.
fn push_dash_joined_words(out: &mut Vec<char>, s: &str)
    ensures
        final(out)@ == old(out)@ + join_dash(words(s@)),
{
    let v = chars_of(s);
    let n = v.len();
    let ghost start = out@;
    let ghost mut acc: Seq<Seq<char>> = seq![];
    let mut i: usize = 0;
    let mut first = true;
    assert(v@.subrange(0, n as int) =~= v@);
    loop
        invariant
            first == (acc.len() == 0),
            start == old(out)@,
            n == v.len(),
            v@ == s@,
            i <= n,
            words(v@) == acc + words(v@.subrange(i as int, n as int)),
            out@ == start + join_dash(acc),
        decreases n - i,
    {
        let a = skip_ws(&v, i, n);
        if a == n {
            assert(words(v@.subrange(i as int, n as int)) =~= seq![]);
            assert(acc + seq![] =~= acc);
            assert(words(v@) == acc);
            return ;
        }
        let b = word_end(&v, a, n);
        proof {
            let r = v@.subrange(i as int, n as int);
            let t = trim_start(r);
            assert(t == v@.subrange(a as int, n as int));
            lemma_word_len(t);
            assert(t.take(word_len(t) as int) =~= v@.subrange(a as int, b as int));
            assert(t.skip(word_len(t) as int) =~= v@.subrange(b as int, n as int));
            assert(words(r) == seq![v@.subrange(a as int, b as int)] + words(
                v@.subrange(b as int, n as int),
            ));
            lemma_join_dash_push(acc, v@.subrange(a as int, b as int));
            assert(acc + words(r) =~= acc.push(v@.subrange(a as int, b as int)) + words(
                v@.subrange(b as int, n as int),
            ));
        }
        if !first {
            out.push('-');
        }
        push_range(out, &v, a, b);
        first = false;
        assert(out@ =~= start + join_dash(acc.push(v@.subrange(a as int, b as int))));
        proof {
            acc = acc.push(v@.subrange(a as int, b as int));
        }
        i = b;
    }
}

/// The characters of `segment_text(s)`.
pub fn segment_chars(s: &str) -> (r: Vec<char>)
    ensures
        r@ == segment_text(s@),
{
    let mut w: Vec<char> = Vec::new();
    push_dash_joined_words(&mut w, s);
    assert(w@ =~= join_dash(words(s@)));
    let mut r: Vec<char> = Vec::new();
    let mut i: usize = 0;
    while i < w.len()
        invariant
            i <= w.len(),
            r@ =~= slashes_to_dashes(w@.take(i as int)),
        decreases w.len() - i,
    {
        let c = w[i];
        if c == '/' || c == '\\' {
            r.push('-');
        } else {
            r.push(c);
        }
        i = i + 1;
        assert(w@.take(i as int) =~= w@.take(i - 1).push(c));
        assert(r@ =~= slashes_to_dashes(w@.take(i as int)));
    }
    assert(w@.take(w.len() as int) =~= w@);
    r
}

/// Bounds of `v` once leading and trailing `'-'` are removed.
pub fn trim_dash_bounds(v: &Vec<char>) -> (r: (usize, usize))
    ensures
        r.0 <= r.1 <= v.len(),
        v@.subrange(r.0 as int, r.1 as int) == drop_last_while(
            drop_while(v@, dash_pred()),
            dash_pred(),
        ),
{
    let n = v.len();
    let mut i: usize = 0;
    assert(v@.subrange(0, n as int) =~= v@);
    while i < n && v[i] == '-'
        invariant
            i <= n == v.len(),
            drop_while(v@, dash_pred()) == drop_while(v@.subrange(i as int, n as int), dash_pred()),
        decreases n - i,
    {
        assert(v@.subrange(i as int, n as int).drop_first() =~= v@.subrange(i + 1, n as int));
        i = i + 1;
    }
    let mut j: usize = n;
    while j > i && v[j - 1] == '-'
        invariant
            i <= j <= n == v.len(),
            drop_last_while(v@.subrange(i as int, n as int), dash_pred()) == drop_last_while(
                v@.subrange(i as int, j as int),
                dash_pred(),
            ),
        decreases j - i,
    {
        assert(v@.subrange(i as int, j as int).drop_last() =~= v@.subrange(i as int, j - 1));
        j = j - 1;
    }
    (i, j)
}

/// Number of bytes that `c` takes in UTF-8.
pub open spec fn char_utf8_len(c: char) -> nat {
    if (c as u32) < 0x80 {
        1
    } else if (c as u32) < 0x800 {
        2
    } else if (c as u32) < 0x10000 {
        3
    } else {
        4
    }
}

/// Number of bytes that `s` takes in UTF-8 (`str::len`).
#[verifier::opaque]
pub open spec fn utf8_len(s: Seq<char>) -> nat
    decreases s.len(),
{
    if s.len() == 0 {
        0
    } else {
        utf8_len(s.drop_last()) + char_utf8_len(s.last())
    }
}

/// Whether the UTF-8 byte at offset `b` of `s` is the ASCII character `c`.
pub open spec fn ascii_byte_at(s: Seq<char>, b: nat, c: char) -> bool {
    exists|k: int| 0 <= k < s.len() && utf8_len(s.take(k)) == b && s[k] == c
}

/// The strings' views.
pub open spec fn views(v: Seq<String>) -> Seq<Seq<char>> {
    v.map_values(|s: String| s@)
}

/// Executable `char_utf8_len`.
pub fn utf8_width(c: char) -> (n: usize)
    ensures
        n == char_utf8_len(c),
{
    let u = c as u32;
    if u < 0x80 {
        1
    } else if u < 0x800 {
        2
    } else if u < 0x10000 {
        3
    } else {
        4
    }
}

/// Whether some `k < i` has its UTF-8 offset at `b` and holds `c`.
pub open spec fn byte_hit_before(s: Seq<char>, b: nat, c: char, i: int) -> bool {
    exists|k: int| 0 <= k < i && utf8_len(s.take(k)) == b && s[k] == c
}

proof fn lemma_byte_hit_step(s: Seq<char>, b: nat, c: char, i: int)
    requires
        0 <= i < s.len(),
    ensures
        byte_hit_before(s, b, c, i + 1) == (byte_hit_before(s, b, c, i) || (utf8_len(
            s.take(i),
        ) == b && s[i] == c)),
{
    if byte_hit_before(s, b, c, i + 1) {
        let k = choose|k: int| 0 <= k < i + 1 && utf8_len(s.take(k)) == b && s[k] == c;
        if k < i {
            assert(byte_hit_before(s, b, c, i));
        }
    }
    if byte_hit_before(s, b, c, i) {
        let k = choose|k: int| 0 <= k < i && utf8_len(s.take(k)) == b && s[k] == c;
        assert(0 <= k < i + 1 && utf8_len(s.take(k)) == b && s[k] == c);
    }
    if utf8_len(s.take(i)) == b && s[i] == c {
        assert(0 <= i < i + 1 && utf8_len(s.take(i)) == b && s[i] == c);
    }
}

/// UTF-8 length of `v`, and whether the byte at offset `b` is the ASCII `c`.
pub fn utf8_len_and_byte(v: &Vec<char>, b: usize, c: char) -> (r: (usize, bool))
    requires
        v.len() < 0x1000_0000,
    ensures
        r.0 == utf8_len(v@),
        r.1 == ascii_byte_at(v@, b as nat, c),
{
    let mut off: usize = 0;
    let mut found = false;
    let mut i: usize = 0;
    proof {
        reveal(utf8_len);
        assert(utf8_len(v@.take(0)) == 0);
    }
    while i < v.len()
        invariant
            i <= v.len() < 0x1000_0000,
            off == utf8_len(v@.take(i as int)),
            off <= 4 * i,
            found == byte_hit_before(v@, b as nat, c, i as int),
        decreases v.len() - i,
    {
        proof {
            lemma_byte_hit_step(v@, b as nat, c, i as int);
        }
        if off == b && v[i] == c {
            found = true;
        }
        let w = utf8_width(v[i]);
        proof {
            assert(v@.take(i + 1).drop_last() =~= v@.take(i as int));
            reveal(utf8_len);
        }
        off = off + w;
        i = i + 1;
    }
    assert(v@.take(v.len() as int) =~= v@);
    (off, found)
}

pub proof fn lemma_utf8_len_at_least_len(s: Seq<char>)
    ensures
        utf8_len(s) >= s.len(),
    decreases s.len(),
{
    reveal(utf8_len);
    if s.len() > 0 {
        lemma_utf8_len_at_least_len(s.drop_last());
    }
}

/// `s` with every non-overlapping occurrence of `pat`, found left to right,
/// removed (`str::replace(pat, "")`).
pub open spec fn remove_all(s: Seq<char>, pat: Seq<char>) -> Seq<char>
    decreases s.len(),
{
    if s.len() == 0 {
        s
    } else if pat.len() > 0 && pat.len() <= s.len() && s.take(pat.len() as int) == pat {
        remove_all(s.skip(pat.len() as int), pat)
    } else {
        seq![s[0]] + remove_all(s.drop_first(), pat)
    }
}

/// Whether `v[i..]` starts with `pat`.
pub fn starts_with_at(v: &Vec<char>, i: usize, pat: &Vec<char>) -> (r: bool)
    requires
        i <= v.len(),
    ensures
        r == (pat.len() <= v.len() - i && v@.skip(i as int).take(pat.len() as int) == pat@),
{
    if pat.len() > v.len() - i {
        return false;
    }
    let mut k: usize = 0;
    while k < pat.len()
        invariant
            k <= pat.len() <= v.len() - i,
            v@.subrange(i as int, i + k) == pat@.take(k as int),
        decreases pat.len() - k,
    {
        if v[i + k] != pat[k] {
            assert(v@.skip(i as int).take(pat.len() as int)[k as int] != pat@[k as int]);
            return false;
        }
        k = k + 1;
        assert(v@.subrange(i as int, i + k) =~= pat@.take(k as int));
    }
    assert(v@.skip(i as int).take(pat.len() as int) =~= v@.subrange(i as int, i + k));
    assert(pat@.take(k as int) =~= pat@);
    true
}

/// `remove_all(v, pat)`.
pub fn remove_all_exec(v: &Vec<char>, pat: &str) -> (r: Vec<char>)
    ensures
        r@ == remove_all(v@, pat@),
{
    let p = chars_of(pat);
    let mut out: Vec<char> = Vec::new();
    let mut i: usize = 0;
    assert(v@.skip(0) =~= v@);
    while i < v.len()
        invariant
            i <= v.len(),
            p@ == pat@,
            remove_all(v@, pat@) == out@ + remove_all(v@.skip(i as int), pat@),
        decreases v.len() - i,
    {
        let ghost rest = v@.skip(i as int);
        if p.len() > 0 && starts_with_at(v, i, &p) {
            assert(rest.skip(p.len() as int) =~= v@.skip(i + p.len()));
            i = i + p.len();
        } else {
            assert(rest.drop_first() =~= v@.skip(i + 1));
            assert(rest[0] == v@[i as int]);
            out.push(v[i]);
            assert(out@ + remove_all(v@.skip(i + 1), pat@) =~= out@.drop_last() + (seq![
                v@[i as int],
            ] + remove_all(v@.skip(i + 1), pat@)));
            i = i + 1;
        }
    }
    assert(v@.skip(i as int) =~= Seq::<char>::empty());
    assert(out@ + Seq::<char>::empty() =~= out@);
    out
}

/// `s` without the characters `'*'` and `` '`' ``.
pub open spec fn without_stars_and_ticks(s: Seq<char>) -> Seq<char> {
    s.filter(|c: char| c != '*' && c != '`')
}

pub fn remove_stars_and_ticks(v: &Vec<char>) -> (r: Vec<char>)
    ensures
        r@ == without_stars_and_ticks(v@),
{
    let mut out: Vec<char> = Vec::new();
    let mut i: usize = 0;
    while i < v.len()
        invariant
            i <= v.len(),
            out@ == without_stars_and_ticks(v@.take(i as int)),
        decreases v.len() - i,
    {
        let c = v[i];
        proof {
            assert(v@.take(i + 1).drop_last() =~= v@.take(i as int));
            reveal(Seq::filter);
        }
        if c != '*' && c != '`' {
            out.push(c);
        }
        i = i + 1;
    }
    assert(v@.take(v.len() as int) =~= v@);
    out
}

/// Start of the first blank-line break (`"\n\n"`) at or after `i`, or the end.
pub open spec fn para_end(s: Seq<char>, i: int) -> int
    decreases s.len() - i,
{
    if i < 0 || i + 1 >= s.len() {
        s.len() as int
    } else if s[i] == '\n' && s[i + 1] == '\n' {
        i
    } else {
        para_end(s, i + 1)
    }
}

/// The text before the first `"\n\n"` (`split_once("\n\n")`, or all of it).
pub open spec fn first_paragraph(s: Seq<char>) -> Seq<char> {
    s.take(para_end(s, 0))
}

proof fn lemma_para_end(s: Seq<char>, i: int)
    requires
        0 <= i <= s.len(),
    ensures
        i <= para_end(s, i) <= s.len(),
        forall|k: int|
            i <= k < para_end(s, i) ==> !(#[trigger] s[k] == '\n' && k + 1 < s.len() && s[k + 1] == '\n'),
        para_end(s, i) == s.len() || (para_end(s, i) + 1 < s.len() && s[para_end(s, i)] == '\n'
            && s[para_end(s, i) + 1] == '\n'),
    decreases s.len() - i,
{
    if i + 1 < s.len() && !(s[i] == '\n' && s[i + 1] == '\n') {
        lemma_para_end(s, i + 1);
    }
}

/// Law: the first paragraph is the longest beginning of the text without a
/// blank line in it: it begins the text, holds no `"\n\n"` (not even one that
/// its last character would start), and is either the whole text or followed
/// in the text by `"\n\n"`.
pub proof fn law_first_paragraph(s: Seq<char>)
    ensures
        first_paragraph(s).len() <= s.len(),
        first_paragraph(s) == s.take(first_paragraph(s).len() as int),
        forall|k: int|
            0 <= k < first_paragraph(s).len() ==> !(#[trigger] s[k] == '\n' && k + 1 < s.len() && s[k
                + 1] == '\n'),
        first_paragraph(s).len() == s.len() || (first_paragraph(s).len() + 1 < s.len() && s[first_paragraph(
            s,
        ).len() as int] == '\n' && s[first_paragraph(s).len() + 1int] == '\n'),
{
    lemma_para_end(s, 0);
}

pub fn find_para_end(v: &Vec<char>) -> (e: usize)
    ensures
        e == para_end(v@, 0),
        e <= v.len(),
{
    let mut i: usize = 0;
    while i < v.len() && i + 1 < v.len()
        invariant
            i <= v.len(),
            para_end(v@, 0) == para_end(v@, i as int),
        decreases v.len() - i,
    {
        if v[i] == '\n' && v[i + 1] == '\n' {
            return i;
        }
        i = i + 1;
    }
    v.len()
}

/// At most `n` characters of `s`, followed by `"..."` when some were cut.
pub open spec fn truncated(s: Seq<char>, n: nat) -> Seq<char> {
    if s.len() <= n {
        s
    } else {
        s.take(n as int) + "..."@
    }
}

pub open spec fn digit_or_dash_pred() -> spec_fn(char) -> bool {
    |c: char| is_digit(c) || c == '-'
}

/// Index of the first character of `v` that is neither an ASCII digit nor `'-'`.
pub fn skip_digits_and_dashes(v: &Vec<char>) -> (i: usize)
    ensures
        i <= v.len(),
        v@.skip(i as int) == drop_while(v@, digit_or_dash_pred()),
{
    let n = v.len();
    let mut i: usize = 0;
    assert(v@.skip(0) =~= v@);
    while i < n && (is_ascii_digit(v[i]) || v[i] == '-')
        invariant
            i <= n == v.len(),
            drop_while(v@, digit_or_dash_pred()) == drop_while(v@.skip(i as int), digit_or_dash_pred()),
        decreases n - i,
    {
        assert(v@.skip(i as int).drop_first() =~= v@.skip(i + 1));
        i = i + 1;
    }
    i
}

/// A copy of a list of strings.
pub fn clone_strings(v: &Vec<String>) -> (r: Vec<String>)
    ensures
        r@ == v@,
{
    let mut r: Vec<String> = Vec::new();
    let mut i: usize = 0;
    while i < v.len()
        invariant
            i <= v.len(),
            r@ == v@.take(i as int),
        decreases v.len() - i,
    {
        r.push(v[i].clone());
        i = i + 1;
        assert(r@ =~= v@.take(i as int));
    }
    assert(v@.take(v.len() as int) =~= v@);
    r
}

/// A copy of an optional string.
pub fn clone_opt(o: &Option<String>) -> (r: Option<String>)
    ensures
        r == *o,
{
    match o {
        Some(s) => Some(s.clone()),
        None => None,
    }
}

/// The optional string's view.
pub open spec fn opt_view(o: Option<String>) -> Option<Seq<char>> {
    match o {
        Some(s) => Some(s@),
        None => None,
    }
}

/// An owned copy of a string slice.
pub fn owned(s: &str) -> (r: String)
    ensures
        r@ == s@,
{
    s.to_string()
}

/// Lexicographic order of strings by code point, which is how `String`'s `Ord`
/// orders them (byte-wise on UTF-8).
pub open spec fn str_lt(a: Seq<char>, b: Seq<char>) -> bool
    decreases a.len(),
{
    if b.len() == 0 {
        false
    } else if a.len() == 0 {
        true
    } else if a[0] != b[0] {
        (a[0] as u32) < (b[0] as u32)
    } else {
        str_lt(a.drop_first(), b.drop_first())
    }
}

pub proof fn lemma_str_lt_irreflexive(a: Seq<char>)
    ensures
        !str_lt(a, a),
    decreases a.len(),
{
    if a.len() > 0 {
        lemma_str_lt_irreflexive(a.drop_first());
    }
}

pub proof fn lemma_str_lt_transitive(a: Seq<char>, b: Seq<char>, c: Seq<char>)
    requires
        str_lt(a, b),
        str_lt(b, c),
    ensures
        str_lt(a, c),
    decreases a.len(),
{
    if a.len() > 0 && b.len() > 0 && c.len() > 0 && a[0] == b[0] && b[0] == c[0] {
        lemma_str_lt_transitive(a.drop_first(), b.drop_first(), c.drop_first());
    }
}

pub proof fn lemma_str_lt_total(a: Seq<char>, b: Seq<char>)
    ensures
        a == b || str_lt(a, b) || str_lt(b, a),
    decreases a.len(),
{
    if a.len() > 0 && b.len() > 0 {
        if a[0] == b[0] {
            lemma_str_lt_total(a.drop_first(), b.drop_first());
            if a.drop_first() == b.drop_first() {
                assert(a =~= seq![a[0]] + a.drop_first());
                assert(b =~= seq![b[0]] + b.drop_first());
            }
        } else {
            vstd::utf8::char_u32_cast(a[0], a[0] as u32);
            vstd::utf8::char_u32_cast(b[0], b[0] as u32);
        }
    } else if a.len() == 0 && b.len() == 0 {
        assert(a =~= b);
    }
}

pub proof fn lemma_str_lt_asymmetric(a: Seq<char>, b: Seq<char>)
    requires
        str_lt(a, b),
    ensures
        !str_lt(b, a),
{
    if str_lt(b, a) {
        lemma_str_lt_transitive(a, b, a);
        lemma_str_lt_irreflexive(a);
    }
}

/// Three-way comparison of strings: -1, 0 or 1 as `a` sorts before, equal to or
/// after `b`.
pub fn compare_strings(a: &str, b: &str) -> (r: i8)
    ensures
        r == -1 || r == 0 || r == 1,
        r == -1 <==> str_lt(a@, b@),
        r == 0 <==> a@ == b@,
        r == 1 <==> str_lt(b@, a@),
{
    let va = chars_of(a);
    let vb = chars_of(b);
    let mut i: usize = 0;
    proof {
        lemma_str_lt_total(a@, b@);
        if str_lt(a@, b@) {
            lemma_str_lt_asymmetric(a@, b@);
            lemma_str_lt_irreflexive(a@);
        }
        if str_lt(b@, a@) {
            lemma_str_lt_asymmetric(b@, a@);
            lemma_str_lt_irreflexive(a@);
        }
        assert(va@.skip(0) =~= va@);
        assert(vb@.skip(0) =~= vb@);
    }
    while i < va.len() && i < vb.len() && va[i] == vb[i]
        invariant
            i <= va.len(),
            i <= vb.len(),
            va@.take(i as int) == vb@.take(i as int),
            str_lt(va@, vb@) == str_lt(va@.skip(i as int), vb@.skip(i as int)),
            str_lt(vb@, va@) == str_lt(vb@.skip(i as int), va@.skip(i as int)),
        decreases va.len() - i,
    {
        assert(va@.skip(i as int).drop_first() =~= va@.skip(i + 1));
        assert(vb@.skip(i as int).drop_first() =~= vb@.skip(i + 1));
        i = i + 1;
        assert(va@.take(i as int) =~= va@.take(i - 1).push(va@[i - 1]));
        assert(vb@.take(i as int) =~= vb@.take(i - 1).push(vb@[i - 1]));
    }
    if i == va.len() && i == vb.len() {
        assert(va@ =~= va@.take(i as int));
        assert(vb@ =~= vb@.take(i as int));
        return 0;
    }
    if i == va.len() {
        assert(va@.skip(i as int).len() == 0);
        proof {
            if va@ == vb@ {
                assert(va@.len() == vb@.len());
            }
        }
        return -1;
    }
    if i == vb.len() {
        assert(vb@.skip(i as int).len() == 0);
        proof {
            if va@ == vb@ {
                assert(va@.len() == vb@.len());
            }
        }
        return 1;
    }
    assert(va@.skip(i as int)[0] == va@[i as int]);
    assert(vb@.skip(i as int)[0] == vb@[i as int]);
    proof {
        if va@ == vb@ {
            assert(va@[i as int] == vb@[i as int]);
        }
    }
    if (va[i] as u32) < (vb[i] as u32) {
        -1
    } else {
        1
    }
}

/// ASCII case folding of one character.
pub open spec fn ascii_lower(c: char) -> char {
    if 'A' <= c && c <= 'Z' {
        ((c as u32) + 32) as char
    } else {
        c
    }
}

/// Equality up to ASCII case (`str::eq_ignore_ascii_case`).
pub open spec fn eq_ignore_ascii_case(a: Seq<char>, b: Seq<char>) -> bool {
    a.len() == b.len() && forall|i: int| 0 <= i < a.len() ==> ascii_lower(#[trigger] a[i])
        == ascii_lower(b[i])
}

fn lower_char(c: char) -> (r: u32)
    ensures
        r == ascii_lower(c) as u32,
{
    let u = c as u32;
    if 'A' <= c && c <= 'Z' {
        assert(0x41 <= u <= 0x5a);
        assert(((u + 32) as char) as u32 == u + 32);
        u + 32
    } else {
        u
    }
}

/// Executable `eq_ignore_ascii_case`.
pub fn equal_ignoring_ascii_case(a: &str, b: &str) -> (r: bool)
    ensures
        r == eq_ignore_ascii_case(a@, b@),
{
    let va = chars_of(a);
    let vb = chars_of(b);
    if va.len() != vb.len() {
        return false;
    }
    let mut i: usize = 0;
    while i < va.len()
        invariant
            i <= va.len() == vb.len(),
            va@ == a@,
            vb@ == b@,
            forall|k: int| 0 <= k < i ==> ascii_lower(#[trigger] va@[k]) == ascii_lower(vb@[k]),
        decreases va.len() - i,
    {
        let la = lower_char(va[i]);
        let lb = lower_char(vb[i]);
        if la != lb {
            proof {
                let x = ascii_lower(va@[i as int]);
                let y = ascii_lower(vb@[i as int]);
                assert(x != y);
                assert(!eq_ignore_ascii_case(a@, b@)) by {
                    if eq_ignore_ascii_case(a@, b@) {
                        assert(ascii_lower(a@[i as int]) == ascii_lower(b@[i as int]));
                    }
                }
            }
            return false;
        }
        proof {
            let x = ascii_lower(va@[i as int]);
            let y = ascii_lower(vb@[i as int]);
            vstd::utf8::char_u32_cast(x, x as u32);
            vstd::utf8::char_u32_cast(y, y as u32);
        }
        i = i + 1;
    }
    true
}

/// `k` is the position of the character that starts at UTF-8 byte offset `b`
/// (or the end, when `b` is the whole length).
pub open spec fn is_byte_boundary(s: Seq<char>, b: nat, k: int) -> bool {
    0 <= k <= s.len() && utf8_len(s.take(k)) == b
}

pub proof fn lemma_utf8_len_take_increasing(s: Seq<char>, i: int, j: int)
    requires
        0 <= i < j <= s.len(),
    ensures
        utf8_len(s.take(i)) < utf8_len(s.take(j)),
    decreases j - i,
{
    reveal(utf8_len);
    assert(s.take(j).drop_last() =~= s.take(j - 1));
    if i < j - 1 {
        lemma_utf8_len_take_increasing(s, i, j - 1);
    }
}

/// UTF-8 length of `v`.
pub fn utf8_length(v: &Vec<char>) -> (n: u128)
    ensures
        n == utf8_len(v@),
{
    let mut off: u128 = 0;
    let mut i: usize = 0;
    proof {
        reveal(utf8_len);
        assert(utf8_len(v@.take(0)) == 0);
    }
    while i < v.len()
        invariant
            i <= v.len(),
            off == utf8_len(v@.take(i as int)),
            off <= 4 * i,
        decreases v.len() - i,
    {
        let w = utf8_width(v[i]);
        proof {
            assert(v@.take(i + 1).drop_last() =~= v@.take(i as int));
            reveal(utf8_len);
        }
        off = off + w as u128;
        i = i + 1;
    }
    assert(v@.take(v.len() as int) =~= v@);
    off
}

/// The character position at UTF-8 byte offset `b` of `v`, if `b` falls on a
/// character boundary.
pub fn char_index_at_byte(v: &Vec<char>, b: u128) -> (r: Option<usize>)
    ensures
        r matches Some(k) ==> is_byte_boundary(v@, b as nat, k as int),
        r is None ==> forall|k: int| !is_byte_boundary(v@, b as nat, k),
{
    let mut off: u128 = 0;
    let mut k: usize = 0;
    proof {
        reveal(utf8_len);
        assert(utf8_len(v@.take(0)) == 0);
    }
    while k < v.len() && off < b
        invariant
            k <= v.len(),
            off == utf8_len(v@.take(k as int)),
            off <= b || k == 0,
            off <= 4 * k,
            forall|m: int| 0 <= m < k ==> utf8_len(v@.take(m)) < b,
        decreases v.len() - k,
    {
        let w = utf8_width(v[k]);
        proof {
            assert(v@.take(k + 1).drop_last() =~= v@.take(k as int));
            reveal(utf8_len);
        }
        if w as u128 > b - off {
            proof {
                assert forall|m: int| !is_byte_boundary(v@, b as nat, m) by {
                    if 0 <= m <= v@.len() && utf8_len(v@.take(m)) == b {
                        if m > k {
                            lemma_utf8_len_take_increasing(v@, k + 1, m);
                        }
                    }
                }
            }
            return None;
        }
        off = off + w as u128;
        k = k + 1;
    }
    if off == b {
        Some(k)
    } else {
        proof {
            assert forall|m: int| !is_byte_boundary(v@, b as nat, m) by {
                if 0 <= m <= v@.len() && utf8_len(v@.take(m)) == b {
                    if m > k {
                        lemma_utf8_len_take_increasing(v@, k as int, m);
                    }
                }
            }
        }
        None
    }
}

} // verus!
