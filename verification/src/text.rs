//! Character-level helpers shared by the parsers and renderers: conversion
//! between `str` and character vectors, decimal numbers, ASCII case folding.

use vstd::prelude::*;
use vstd::string::StringExecFns;

verus! {

/// The characters of `s`, as an indexable vector.
pub fn chars_of(s: &str) -> (v: Vec<char>)
    ensures
        v@ == s@,
{
    let mut v: Vec<char> = Vec::new();
    for c in it: s.chars()
        invariant
            v@ == it.seq().take(it.index() as int),
            it.seq() == s@,
    {
        v.push(c);
    }
    v
}

/// Appends one character (`String::push`).
#[verifier::external_body]
pub(crate) fn push_char(s: &mut String, c: char)
    ensures
        final(s)@ == old(s)@.push(c),
{
    s.push(c);
}

/// Appends a string slice.
pub fn push_str(s: &mut String, t: &str)
    ensures
        final(s)@ == old(s)@ + t@,
{
    s.append(t);
}

/// A `String` holding exactly the given characters.
pub fn string_of(cs: &[char]) -> (r: String)
    ensures
        r@ == cs@,
{
    let mut r = String::new();
    let mut i: usize = 0;
    while i < cs.len()
        invariant
            i <= cs@.len(),
            r@ == cs@.take(i as int),
        decreases cs@.len() - i,
    {
        push_char(&mut r, cs[i]);
        i = i + 1;
        assert(r@ =~= cs@.take(i as int));
    }
    assert(cs@.take(cs@.len() as int) =~= cs@);
    r
}

/// A copy of `s` as an owned `String`.
pub fn owned(s: &str) -> (r: String)
    ensures
        r@ == s@,
{
    let mut r = String::new();
    r.append(s);
    assert(r@ =~= s@);
    r
}

/// Character-wise equality of two strings.
pub fn str_eq(a: &str, b: &str) -> (r: bool)
    ensures
        r == (a@ == b@),
{
    let va = chars_of(a);
    let vb = chars_of(b);
    chars_eq(&va, &vb)
}

/// Element-wise equality of two character slices.
pub fn chars_eq(a: &[char], b: &[char]) -> (r: bool)
    ensures
        r == (a@ == b@),
{
    if a.len() != b.len() {
        return false;
    }
    let mut i: usize = 0;
    while i < a.len()
        invariant
            a@.len() == b@.len(),
            i <= a@.len(),
            forall|j: int| 0 <= j < i ==> a@[j] == b@[j],
        decreases a@.len() - i,
    {
        if a[i] != b[i] {
            return false;
        }
        i = i + 1;
    }
    assert(a@ =~= b@);
    true
}

// ---- ASCII classification and case folding ---------------------------------

/// `char::is_ascii_uppercase`.
pub open spec fn is_upper(c: char) -> bool {
    'A' <= c && c <= 'Z'
}

/// `char::is_ascii_digit`.
pub open spec fn is_digit(c: char) -> bool {
    '0' <= c && c <= '9'
}

/// `char::is_ascii_alphanumeric`.
pub open spec fn is_alnum(c: char) -> bool {
    is_upper(c) || ('a' <= c && c <= 'z') || is_digit(c)
}

/// `char::to_ascii_lowercase`: ASCII capitals map to small letters, every
/// other character is unchanged.
pub open spec fn lower_char(c: char) -> char {
    if is_upper(c) {
        ((c as u32) + 32) as char
    } else {
        c
    }
}

/// `str::to_ascii_lowercase`.
pub open spec fn lower(s: Seq<char>) -> Seq<char> {
    s.map_values(|c: char| lower_char(c))
}

/// `str::eq_ignore_ascii_case`.
pub open spec fn eq_ignore_case(a: Seq<char>, b: Seq<char>) -> bool {
    lower(a) == lower(b)
}

/// ASCII lowercase of a character.
pub fn to_lower_char(c: char) -> (r: char)
    ensures
        r == lower_char(c),
{
    if 'A' <= c && c <= 'Z' {
        let b: u8 = c as u8;
        let r = (b + 32) as char;
        assert(r == ((c as u32) + 32) as char);
        r
    } else {
        c
    }
}

/// Whether a character is an ASCII letter or digit.
pub fn is_alnum_char(c: char) -> (r: bool)
    ensures
        r == is_alnum(c),
{
    ('A' <= c && c <= 'Z') || ('a' <= c && c <= 'z') || ('0' <= c && c <= '9')
}

/// ASCII-lowercased copy of `s`.
pub fn to_lower(s: &str) -> (r: String)
    ensures
        r@ == lower(s@),
{
    let cs = chars_of(s);
    let mut out: Vec<char> = Vec::new();
    let mut i: usize = 0;
    while i < cs.len()
        invariant
            cs@ == s@,
            i <= cs@.len(),
            out@ == lower(cs@.take(i as int)),
        decreases cs@.len() - i,
    {
        out.push(to_lower_char(cs[i]));
        i = i + 1;
        assert(out@ =~= lower(cs@.take(i as int)));
    }
    assert(cs@.take(cs@.len() as int) =~= cs@);
    string_of(&out)
}

/// Case-insensitive (ASCII) equality of two strings.
pub fn eq_ignore_ascii_case(a: &str, b: &str) -> (r: bool)
    ensures
        r == eq_ignore_case(a@, b@),
{
    let la = to_lower(a);
    let lb = to_lower(b);
    str_eq(la.as_str(), lb.as_str())
}

// ---- decimal numbers --------------------------------------------------------

/// The decimal digit character for `d < 10`.
pub open spec fn digit_char(d: nat) -> char {
    if d == 0 {
        '0'
    } else if d == 1 {
        '1'
    } else if d == 2 {
        '2'
    } else if d == 3 {
        '3'
    } else if d == 4 {
        '4'
    } else if d == 5 {
        '5'
    } else if d == 6 {
        '6'
    } else if d == 7 {
        '7'
    } else if d == 8 {
        '8'
    } else {
        '9'
    }
}

fn digit(d: u64) -> (c: char)
    requires
        d < 10,
    ensures
        c == digit_char(d as nat),
{
    if d == 0 {
        '0'
    } else if d == 1 {
        '1'
    } else if d == 2 {
        '2'
    } else if d == 3 {
        '3'
    } else if d == 4 {
        '4'
    } else if d == 5 {
        '5'
    } else if d == 6 {
        '6'
    } else if d == 7 {
        '7'
    } else if d == 8 {
        '8'
    } else {
        '9'
    }
}

/// Decimal rendering of `n` (what `format!("{n}")` prints).
pub open spec fn decimal(n: nat) -> Seq<char>
    decreases n,
{
    if n < 10 {
        seq![digit_char(n)]
    } else {
        decimal(n / 10).push(digit_char(n % 10))
    }
}

/// Appends the decimal rendering of `n`.
pub fn push_decimal(s: &mut String, n: u64)
    ensures
        final(s)@ == old(s)@ + decimal(n as nat),
    decreases n,
{
    if n >= 10 {
        push_decimal(s, n / 10);
    }
    let c = digit(n % 10);
    push_char(s, c);
    assert(s@ =~= old(s)@ + decimal(n as nat));
}

/// The decimal rendering of `n` as a new string.
pub fn decimal_string(n: u64) -> (r: String)
    ensures
        r@ == decimal(n as nat),
{
    let mut r = String::new();
    push_decimal(&mut r, n);
    assert(r@ =~= decimal(n as nat));
    r
}

/// Value of a string of ASCII digits.
pub open spec fn digits_value(s: Seq<char>) -> nat
    decreases s.len(),
{
    if s.len() == 0 {
        0
    } else {
        digits_value(s.drop_last()) * 10 + ((s.last() as u32) - 48) as nat
    }
}

/// A non-empty run of ASCII digits.
pub open spec fn all_digits(s: Seq<char>) -> bool {
    forall|i: int| 0 <= i < s.len() ==> is_digit(#[trigger] s[i])
}

/// `str::parse::<u64>`: an optional `+`, then one or more ASCII digits whose
/// value fits in 64 bits.
pub open spec fn parse_u64(s: Seq<char>) -> Option<u64> {
    let body = if s.len() > 0 && s[0] == '+' { s.drop_first() } else { s };
    if body.len() > 0 && all_digits(body) && digits_value(body) <= u64::MAX {
        Some(digits_value(body) as u64)
    } else {
        None
    }
}

proof fn lemma_digits_value_grows(s: Seq<char>, i: int)
    requires
        0 <= i <= s.len(),
        all_digits(s),
    ensures
        digits_value(s.take(i)) <= digits_value(s),
    decreases s.len() - i,
{
    if i < s.len() {
        lemma_digits_value_grows(s, i + 1);
        assert(s.take(i + 1).drop_last() =~= s.take(i));
    } else {
        assert(s.take(i) =~= s);
    }
}

/// Parses a decimal `u64` as `str::parse::<u64>` does.
pub fn parse_u64_str(s: &str) -> (r: Option<u64>)
    ensures
        r == parse_u64(s@),
{
    let cs = chars_of(s);
    let start: usize = if cs.len() > 0 && cs[0] == '+' { 1 } else { 0 };
    let ghost body = if cs@.len() > 0 && cs@[0] == '+' { cs@.drop_first() } else { cs@ };
    assert(body =~= cs@.skip(start as int));
    if start >= cs.len() {
        return None;
    }
    let mut acc: u64 = 0;
    let mut i: usize = start;
    while i < cs.len()
        invariant
            cs@ == s@,
            start <= i <= cs@.len(),
            body == cs@.skip(start as int),
            body == (if s@.len() > 0 && s@[0] == '+' { s@.drop_first() } else { s@ }),
            all_digits(body.take(i - start)),
            acc as nat == digits_value(body.take(i - start)),
        decreases cs@.len() - i,
    {
        let c = cs[i];
        if !('0' <= c && c <= '9') {
            assert(!all_digits(body)) by {
                assert(body[i - start] == c);
            }
            return None;
        }
        let d: u64 = ((c as u32) - 48) as u64;
        let ghost k: int = (i - start) as int;
        assert(body.take(k + 1).drop_last() =~= body.take(k));
        assert(body.take(k + 1).last() == c);
        assert(all_digits(body.take(k + 1))) by {
            assert forall|j: int| 0 <= j < k + 1 implies is_digit(#[trigger] body.take(k + 1)[j]) by {
                if j < k {
                    assert(body.take(k + 1)[j] == body.take(k)[j]);
                }
            }
        }
        match acc.checked_mul(10) {
            Some(m) => match m.checked_add(d) {
                Some(v) => {
                    acc = v;
                },
                None => {
                    proof {
                        if all_digits(body) {
                            lemma_digits_value_grows(body, k + 1);
                        }
                    }
                    return None;
                },
            },
            None => {
                proof {
                    if all_digits(body) {
                        lemma_digits_value_grows(body, k + 1);
                    }
                }
                return None;
            },
        }
        i = i + 1;
    }
    assert(body.take(cs@.len() - start) =~= body);
    Some(acc)
}

// ---- bytes to text -------------------------------------------------------------

/// `String::from_utf8_lossy`: the text of `bytes`, with each invalid
/// sequence replaced by U+FFFD.
pub uninterp spec fn utf8_lossy(bytes: Seq<u8>) -> Seq<char>;

/// Decodes bytes as `String::from_utf8_lossy` does. Its contract states that
/// the result is [`utf8_lossy`] of the bytes and, as the documentation says,
/// that valid UTF-8 is decoded unchanged; how invalid input is replaced is
/// not stated.
#[verifier::external_body]
pub(crate) fn lossy_string(bytes: &[u8]) -> (s: String)
    ensures
        s@ == utf8_lossy(bytes@),
        vstd::utf8::valid_utf8(bytes@) ==> s@ == vstd::utf8::decode_utf8(bytes@),
{
    String::from_utf8_lossy(bytes).into_owned()
}

// ---- whitespace ------------------------------------------------------------------

/// `char::is_whitespace`: the Unicode `White_Space` property.
pub open spec fn is_white(c: char) -> bool {
    ('\t' <= c && c <= '\r') || c == ' ' || c == '\u{85}' || c == '\u{a0}' || c == '\u{1680}'
        || ('\u{2000}' <= c && c <= '\u{200a}') || c == '\u{2028}' || c == '\u{2029}' || c
        == '\u{202f}' || c == '\u{205f}' || c == '\u{3000}'
}

/// Whether a character is white space (`char::is_whitespace`).
pub fn is_white_char(c: char) -> (r: bool)
    ensures
        r == is_white(c),
{
    ('\t' <= c && c <= '\r') || c == ' ' || c == '\u{85}' || c == '\u{a0}' || c == '\u{1680}'
        || ('\u{2000}' <= c && c <= '\u{200a}') || c == '\u{2028}' || c == '\u{2029}' || c
        == '\u{202f}' || c == '\u{205f}' || c == '\u{3000}'
}

/// `str::trim_start`.
pub open spec fn trim_start(s: Seq<char>) -> Seq<char>
    decreases s.len(),
{
    if s.len() > 0 && is_white(s[0]) {
        trim_start(s.drop_first())
    } else {
        s
    }
}

/// `str::trim_end`.
pub open spec fn trim_end(s: Seq<char>) -> Seq<char>
    decreases s.len(),
{
    if s.len() > 0 && is_white(s.last()) {
        trim_end(s.drop_last())
    } else {
        s
    }
}

/// `str::trim`.
pub open spec fn trim(s: Seq<char>) -> Seq<char> {
    trim_end(trim_start(s))
}

/// `str::trim_start_matches(c)` for a single character.
pub open spec fn strip_leading(s: Seq<char>, c: char) -> Seq<char>
    decreases s.len(),
{
    if s.len() > 0 && s[0] == c {
        strip_leading(s.drop_first(), c)
    } else {
        s
    }
}

/// `str::trim_end_matches(c)` for a single character.
pub open spec fn strip_trailing(s: Seq<char>, c: char) -> Seq<char>
    decreases s.len(),
{
    if s.len() > 0 && s.last() == c {
        strip_trailing(s.drop_last(), c)
    } else {
        s
    }
}

/// Start of `cs` after leading characters for which `white` (or `== c`) holds.
fn skip_front(cs: &[char], lo: usize, hi: usize, c: Option<char>) -> (r: usize)
    requires
        lo <= hi <= cs@.len(),
    ensures
        lo <= r <= hi,
        c matches Some(ch) ==> strip_leading(cs@.subrange(lo as int, hi as int), ch)
            == cs@.subrange(r as int, hi as int),
        c is None ==> trim_start(cs@.subrange(lo as int, hi as int)) == cs@.subrange(
            r as int,
            hi as int,
        ),
{
    let mut i = lo;
    while i < hi
        invariant
            lo <= i <= hi <= cs@.len(),
            c matches Some(ch) ==> strip_leading(cs@.subrange(lo as int, hi as int), ch)
                == strip_leading(cs@.subrange(i as int, hi as int), ch),
            c is None ==> trim_start(cs@.subrange(lo as int, hi as int)) == trim_start(
                cs@.subrange(i as int, hi as int),
            ),
        ensures
            lo <= i <= hi,
            c matches Some(ch) ==> strip_leading(cs@.subrange(lo as int, hi as int), ch)
                == cs@.subrange(i as int, hi as int),
            c is None ==> trim_start(cs@.subrange(lo as int, hi as int)) == cs@.subrange(
                i as int,
                hi as int,
            ),
        decreases hi - i,
    {
        let hit = match c {
            Some(ch) => cs[i] == ch,
            None => is_white_char(cs[i]),
        };
        if !hit {
            assert(cs@.subrange(i as int, hi as int)[0] == cs@[i as int]);
            break;
        }
        assert(cs@.subrange(i as int, hi as int).drop_first() =~= cs@.subrange(i + 1, hi as int));
        i = i + 1;
    }
    i
}

/// End of `cs` before trailing characters for which `white` (or `== c`) holds.
fn skip_back(cs: &[char], lo: usize, hi: usize, c: Option<char>) -> (r: usize)
    requires
        lo <= hi <= cs@.len(),
    ensures
        lo <= r <= hi,
        c matches Some(ch) ==> strip_trailing(cs@.subrange(lo as int, hi as int), ch)
            == cs@.subrange(lo as int, r as int),
        c is None ==> trim_end(cs@.subrange(lo as int, hi as int)) == cs@.subrange(
            lo as int,
            r as int,
        ),
{
    let mut j = hi;
    while j > lo
        invariant
            lo <= j <= hi <= cs@.len(),
            c matches Some(ch) ==> strip_trailing(cs@.subrange(lo as int, hi as int), ch)
                == strip_trailing(cs@.subrange(lo as int, j as int), ch),
            c is None ==> trim_end(cs@.subrange(lo as int, hi as int)) == trim_end(
                cs@.subrange(lo as int, j as int),
            ),
        ensures
            lo <= j <= hi,
            c matches Some(ch) ==> strip_trailing(cs@.subrange(lo as int, hi as int), ch)
                == cs@.subrange(lo as int, j as int),
            c is None ==> trim_end(cs@.subrange(lo as int, hi as int)) == cs@.subrange(
                lo as int,
                j as int,
            ),
        decreases j - lo,
    {
        let hit = match c {
            Some(ch) => cs[j - 1] == ch,
            None => is_white_char(cs[j - 1]),
        };
        if !hit {
            assert(cs@.subrange(lo as int, j as int).last() == cs@[j - 1]);
            break;
        }
        assert(cs@.subrange(lo as int, j as int).drop_last() =~= cs@.subrange(lo as int, j - 1));
        j = j - 1;
    }
    j
}

/// A copy of `cs[lo..hi]`.
pub fn slice_chars(cs: &[char], lo: usize, hi: usize) -> (r: Vec<char>)
    requires
        lo <= hi <= cs@.len(),
    ensures
        r@ == cs@.subrange(lo as int, hi as int),
{
    let mut r: Vec<char> = Vec::new();
    let mut i = lo;
    while i < hi
        invariant
            lo <= i <= hi <= cs@.len(),
            r@ == cs@.subrange(lo as int, i as int),
        decreases hi - i,
    {
        r.push(cs[i]);
        assert(r@ =~= cs@.subrange(lo as int, i + 1));
        i = i + 1;
    }
    r
}

/// `str::trim` on a character vector.
pub fn trim_vec(cs: &[char]) -> (r: Vec<char>)
    ensures
        r@ == trim(cs@),
{
    assert(cs@.subrange(0, cs@.len() as int) =~= cs@);
    let lo = skip_front(cs, 0, cs.len(), None);
    let hi = skip_back(cs, lo, cs.len(), None);
    slice_chars(cs, lo, hi)
}

/// `str::trim`.
pub fn trim_str(s: &str) -> (r: String)
    ensures
        r@ == trim(s@),
{
    let cs = chars_of(s);
    let t = trim_vec(&cs);
    string_of(&t)
}

/// `str::trim_start_matches(c)`.
pub fn strip_leading_vec(cs: &[char], c: char) -> (r: Vec<char>)
    ensures
        r@ == strip_leading(cs@, c),
{
    assert(cs@.subrange(0, cs@.len() as int) =~= cs@);
    let lo = skip_front(cs, 0, cs.len(), Some(c));
    slice_chars(cs, lo, cs.len())
}

/// `str::trim_matches(c)`: both ends.
pub fn strip_both_vec(cs: &[char], c: char) -> (r: Vec<char>)
    ensures
        r@ == strip_trailing(strip_leading(cs@, c), c),
{
    assert(cs@.subrange(0, cs@.len() as int) =~= cs@);
    let lo = skip_front(cs, 0, cs.len(), Some(c));
    let hi = skip_back(cs, lo, cs.len(), Some(c));
    slice_chars(cs, lo, hi)
}

// ---- lines -------------------------------------------------------------------------

/// Position of the first `c` in `s`, or its length.
pub open spec fn find_char(s: Seq<char>, c: char) -> nat
    decreases s.len(),
{
    if s.len() == 0 || s[0] == c {
        0
    } else {
        1 + find_char(s.drop_first(), c)
    }
}

/// A line without its `\r` before the line feed.
pub open spec fn strip_cr(line: Seq<char>) -> Seq<char> {
    if line.len() > 0 && line.last() == '\r' {
        line.drop_last()
    } else {
        line
    }
}

/// `str::lines`: the text split at line feeds, each line without a `\r`
/// that precedes its line feed; a final line feed ends the last line.
pub open spec fn lines(s: Seq<char>) -> Seq<Seq<char>>
    decreases s.len(),
{
    if s.len() == 0 {
        seq![]
    } else {
        let i = find_char(s, '\n');
        if i >= s.len() {
            seq![s]
        } else {
            seq![strip_cr(s.take(i as int))] + lines(s.skip(i + 1int))
        }
    }
}

proof fn lemma_find_char(s: Seq<char>, c: char)
    ensures
        find_char(s, c) <= s.len(),
        find_char(s, c) < s.len() ==> s[find_char(s, c) as int] == c,
        forall|j: int| 0 <= j < find_char(s, c) ==> s[j] != c,
    decreases s.len(),
{
    if s.len() > 0 && s[0] != c {
        lemma_find_char(s.drop_first(), c);
        assert forall|j: int| 0 <= j < find_char(s, c) implies s[j] != c by {
            if j > 0 {
                assert(s[j] == s.drop_first()[j - 1]);
            }
        }
    }
}

/// `ls.join("\n")`.
pub open spec fn joined(ls: Seq<Seq<char>>) -> Seq<char>
    decreases ls.len(),
{
    if ls.len() == 0 {
        seq![]
    } else if ls.len() == 1 {
        ls[0]
    } else {
        joined(ls.drop_last()) + seq!['\n'] + ls.last()
    }
}

/// A line of a text: no line feed, and no carriage return at its end.
pub open spec fn plain_line(l: Seq<char>) -> bool {
    &&& forall|j: int| 0 <= j < l.len() ==> l[j] != '\n'
    &&& !(l.len() > 0 && l.last() == '\r')
}

proof fn lemma_find_first(a: Seq<char>, b: Seq<char>, c: char)
    requires
        forall|j: int| 0 <= j < a.len() ==> a[j] != c,
    ensures
        find_char(a + seq![c] + b, c) == a.len(),
{
    let s = a + seq![c] + b;
    lemma_find_char(s, c);
    assert(s[a.len() as int] == c);
    if find_char(s, c) < a.len() {
        assert(s[find_char(s, c) as int] == a[find_char(s, c) as int]);
    }
}

proof fn lemma_joined_front(ls: Seq<Seq<char>>)
    requires
        ls.len() >= 2,
    ensures
        joined(ls) == ls[0] + seq!['\n'] + joined(ls.drop_first()),
    decreases ls.len(),
{
    if ls.len() == 2 {
        assert(ls.drop_last() =~= seq![ls[0]]);
        assert(ls.drop_first() =~= seq![ls[1]]);
        assert(joined(ls.drop_last()) == ls[0]);
        assert(joined(ls.drop_first()) == ls[1]);
        assert(joined(ls) =~= ls[0] + seq!['\n'] + joined(ls.drop_first()));
    } else {
        lemma_joined_front(ls.drop_last());
        assert(ls.drop_last().drop_first() =~= ls.drop_first().drop_last());
        assert(ls.drop_first().last() == ls.last());
        assert(joined(ls) =~= ls[0] + seq!['\n'] + joined(ls.drop_first()));
    }
}

/// The lines of a text are plain of line feeds.
pub proof fn lemma_lines_have_no_lf(s: Seq<char>)
    ensures
        forall|k: int, j: int| 0 <= k < lines(s).len() && 0 <= j < lines(s)[k].len() ==> #[trigger] lines(s)[k][j] != '\n',
    decreases s.len(),
{
    if s.len() > 0 {
        lemma_find_char(s, '\n');
        let i = find_char(s, '\n');
        if i < s.len() {
            lemma_lines_have_no_lf(s.skip(i + 1int));
            let first = strip_cr(s.take(i as int));
            assert forall|k: int, j: int| 0 <= k < lines(s).len() && 0 <= j < lines(s)[k].len() implies #[trigger] lines(s)[k][j] != '\n' by {
                if k == 0 {
                    assert(lines(s)[0] == first);
                    assert(first[j] == s[j]);
                } else {
                    assert(lines(s)[k] == lines(s.skip(i + 1int))[k - 1]);
                }
            }
        }
    }
}

/// Joining plain lines with line feeds, with a final one, reads back as
/// the same lines.
pub proof fn lemma_lines_of_joined(ls: Seq<Seq<char>>)
    requires
        ls.len() > 0,
        forall|k: int| 0 <= k < ls.len() ==> plain_line(#[trigger] ls[k]),
    ensures
        lines(joined(ls) + seq!['\n']) == ls,
    decreases ls.len(),
{
    let s = joined(ls) + seq!['\n'];
    assert(plain_line(ls[0]));
    if ls.len() == 1 {
        assert(s =~= ls[0] + seq!['\n'] + Seq::<char>::empty());
        lemma_find_first(ls[0], Seq::<char>::empty(), '\n');
        assert(s.take(ls[0].len() as int) =~= ls[0]);
        assert(s.skip(ls[0].len() + 1int) =~= Seq::<char>::empty());
        assert(strip_cr(ls[0]) == ls[0]);
        assert(lines(Seq::<char>::empty()) == Seq::<Seq<char>>::empty());
        assert(lines(s) == seq![strip_cr(s.take(ls[0].len() as int))] + lines(s.skip(ls[0].len() + 1int)));
        assert(lines(s) =~= ls);
    } else {
        let rest = joined(ls.drop_first()) + seq!['\n'];
        lemma_joined_front(ls);
        assert(s =~= ls[0] + seq!['\n'] + rest);
        lemma_find_first(ls[0], rest, '\n');
        assert(s.take(ls[0].len() as int) =~= ls[0]);
        assert(s.skip(ls[0].len() + 1int) =~= rest);
        assert forall|k: int| 0 <= k < ls.drop_first().len() implies plain_line(#[trigger] ls.drop_first()[k]) by {
            assert(ls.drop_first()[k] == ls[k + 1]);
        }
        lemma_lines_of_joined(ls.drop_first());
        assert(strip_cr(ls[0]) == ls[0]);
        assert(lines(s) == seq![strip_cr(s.take(ls[0].len() as int))] + lines(s.skip(ls[0].len() + 1int)));
        assert(lines(s) =~= seq![ls[0]] + ls.drop_first());
        assert(seq![ls[0]] + ls.drop_first() =~= ls);
    }
}

/// Joining lines free of line feeds, with a final line feed, reads back as
/// one line per joined line, each without a trailing carriage return.
pub proof fn lemma_lines_of_joined_lines(ls: Seq<Seq<char>>)
    requires
        ls.len() > 0,
        forall|k: int, j: int| 0 <= k < ls.len() && 0 <= j < ls[k].len() ==> #[trigger] ls[k][j] != '\n',
    ensures
        lines(joined(ls) + seq!['\n']).len() == ls.len(),
        forall|k: int| 0 <= k < ls.len() ==> #[trigger] lines(joined(ls) + seq!['\n'])[k] == strip_cr(ls[k]),
    decreases ls.len(),
{
    let s = joined(ls) + seq!['\n'];
    assert forall|j: int| 0 <= j < ls[0].len() implies ls[0][j] != '\n' by {
        assert(ls[0][j] != '\n');
    }
    if ls.len() == 1 {
        assert(s =~= ls[0] + seq!['\n'] + Seq::<char>::empty());
        lemma_find_first(ls[0], Seq::<char>::empty(), '\n');
        assert(s.take(ls[0].len() as int) =~= ls[0]);
        assert(s.skip(ls[0].len() + 1int) =~= Seq::<char>::empty());
        assert(lines(Seq::<char>::empty()) == Seq::<Seq<char>>::empty());
        assert(lines(s) == seq![strip_cr(s.take(ls[0].len() as int))] + lines(s.skip(ls[0].len() + 1int)));
        assert(lines(s) =~= seq![strip_cr(ls[0])]);
    } else {
        let rest = joined(ls.drop_first()) + seq!['\n'];
        lemma_joined_front(ls);
        assert(s =~= ls[0] + seq!['\n'] + rest);
        lemma_find_first(ls[0], rest, '\n');
        assert(s.take(ls[0].len() as int) =~= ls[0]);
        assert(s.skip(ls[0].len() + 1int) =~= rest);
        let t = ls.drop_first();
        assert forall|k: int, j: int| 0 <= k < t.len() && 0 <= j < t[k].len() implies #[trigger] t[k][j] != '\n' by {
            assert(t[k] == ls[k + 1]);
            assert(ls[k + 1][j] != '\n');
        }
        lemma_lines_of_joined_lines(t);
        assert(lines(s) == seq![strip_cr(s.take(ls[0].len() as int))] + lines(s.skip(ls[0].len() + 1int)));
        assert(lines(s) =~= seq![strip_cr(ls[0])] + lines(rest));
        assert forall|k: int| 0 <= k < ls.len() implies #[trigger] lines(s)[k] == strip_cr(ls[k]) by {
            if k > 0 {
                assert(lines(s)[k] == lines(rest)[k - 1]);
                assert(lines(rest)[k - 1] == strip_cr(t[k - 1]));
                assert(t[k - 1] == ls[k]);
            }
        }
    }
}

/// The lines of `s`, as `str::lines` yields them.
pub fn split_lines(s: &str) -> (r: Vec<String>)
    ensures
        r@.map_values(|x: String| x@) == lines(s@),
{
    let cs = chars_of(s);
    let mut out: Vec<String> = Vec::new();
    let mut start: usize = 0;
    assert(cs@.skip(0) =~= cs@);
    while start < cs.len()
        invariant
            cs@ == s@,
            start <= cs@.len(),
            lines(s@) == out@.map_values(|x: String| x@) + lines(cs@.skip(start as int)),
        decreases cs@.len() - start,
    {
        let ghost rest = cs@.skip(start as int);
        let mut i = start;
        while i < cs.len() && cs[i] != '\n'
            invariant
                start <= i <= cs@.len(),
                forall|j: int| start <= j < i ==> cs@[j] != '\n',
            decreases cs@.len() - i,
        {
            i = i + 1;
        }
        proof {
            lemma_find_char(rest, '\n');
            let k = (i - start) as int;
            assert forall|j: int| 0 <= j < k implies rest[j] != '\n' by {
                assert(rest[j] == cs@[start + j]);
            }
            if i < cs@.len() {
                assert(rest[k] == '\n');
                if find_char(rest, '\n') < k {
                    assert(rest[find_char(rest, '\n') as int] != '\n');
                }
            }
            assert(find_char(rest, '\n') == k);
        }
        let mut hi = i;
        if i < cs.len() && hi > start && cs[hi - 1] == '\r' {
            hi = hi - 1;
        }
        let piece = crate::text::slice_chars(&cs, start, hi);
        let line = string_of(&piece);
        let ghost before = out@;
        out.push(line);
        proof {
            assert(out@.map_values(|x: String| x@) =~= before.map_values(|x: String| x@).push(
                line@,
            ));
            if i >= cs@.len() {
                assert(piece@ =~= rest);
                assert(cs@.skip(cs@.len() as int) =~= Seq::<char>::empty());
                assert(lines(cs@.skip(cs@.len() as int)) =~= Seq::<Seq<char>>::empty());
                assert(lines(rest) == seq![rest]);
            } else {
                assert(rest.take(i - start) =~= cs@.subrange(start as int, i as int));
                assert(piece@ =~= strip_cr(rest.take(i - start)));
                assert(rest.skip(i - start + 1) =~= cs@.skip(i + 1));
            }
        }
        if i >= cs.len() {
            start = cs.len();
            assert(lines(s@) =~= out@.map_values(|x: String| x@) + lines(cs@.skip(start as int)));
        } else {
            start = i + 1;
            assert(lines(s@) =~= out@.map_values(|x: String| x@) + lines(cs@.skip(start as int)));
        }
    }
    assert(cs@.skip(start as int) =~= Seq::<char>::empty());
    assert(out@.map_values(|x: String| x@) + seq![] =~= out@.map_values(|x: String| x@));
    out
}

/// `ls.join("\n")`.
pub fn join_lines(ls: &[String]) -> (r: String)
    ensures
        r@ == joined(ls@.map_values(|x: String| x@)),
{
    let ghost v = ls@.map_values(|x: String| x@);
    let mut r = String::new();
    let mut i: usize = 0;
    while i < ls.len()
        invariant
            i <= ls@.len(),
            v == ls@.map_values(|x: String| x@),
            r@ == joined(v.take(i as int)),
        decreases ls@.len() - i,
    {
        assert(v.take(i + 1).drop_last() =~= v.take(i as int));
        if i > 0 {
            push_char(&mut r, '\n');
        }
        push_str(&mut r, ls[i].as_str());
        assert(r@ =~= joined(v.take(i + 1)));
        i = i + 1;
    }
    assert(v.take(ls@.len() as int) =~= v);
    r
}

// ---- optional text and lists of text ----------------------------------------

/// The text of an optional string.
pub open spec fn opt_str(o: Option<String>) -> Option<Seq<char>> {
    match o {
        Some(s) => Some(s@),
        None => None,
    }
}

/// The texts of a list of strings.
pub open spec fn views(v: Seq<String>) -> Seq<Seq<char>> {
    v.map_values(|s: String| s@)
}

/// Whether some string of `v` equals `s`.
pub fn contains_str(v: &[String], s: &str) -> (r: bool)
    ensures
        r == views(v@).contains(s@),
{
    let mut i: usize = 0;
    while i < v.len()
        invariant
            i <= v@.len(),
            forall|j: int| 0 <= j < i ==> v@[j]@ != s@,
        decreases v@.len() - i,
    {
        if str_eq(v[i].as_str(), s) {
            assert(views(v@)[i as int] == s@);
            return true;
        }
        i = i + 1;
    }
    assert forall|j: int| 0 <= j < views(v@).len() implies views(v@)[j] != s@ by {
        assert(views(v@)[j] == v@[j]@);
    }
    false
}

/// `str::parse::<u32>`.
pub open spec fn parse_u32(s: Seq<char>) -> Option<u32> {
    match parse_u64(s) {
        Some(v) => if v <= u32::MAX {
            Some(v as u32)
        } else {
            None
        },
        None => None,
    }
}

/// Parses a decimal `u32` as `str::parse::<u32>` does.
pub fn parse_u32_str(s: &str) -> (r: Option<u32>)
    ensures
        r == parse_u32(s@),
{
    match parse_u64_str(s) {
        Some(v) => if v <= 4294967295u64 {
            Some(v as u32)
        } else {
            None
        },
        None => None,
    }
}

/// `str::parse::<i32>`: an optional sign, then one or more ASCII digits
/// whose signed value fits in 32 bits.
pub open spec fn parse_i32(s: Seq<char>) -> Option<i32> {
    let neg = s.len() > 0 && s[0] == '-';
    let body = if s.len() > 0 && (s[0] == '+' || s[0] == '-') {
        s.drop_first()
    } else {
        s
    };
    if body.len() > 0 && all_digits(body) {
        if neg {
            if digits_value(body) <= 2147483648 {
                Some((0 - digits_value(body)) as i32)
            } else {
                None
            }
        } else if digits_value(body) <= 2147483647 {
            Some(digits_value(body) as i32)
        } else {
            None
        }
    } else {
        None
    }
}

/// Parses a decimal `i32` as `str::parse::<i32>` does.
pub fn parse_i32_str(s: &str) -> (r: Option<i32>)
    ensures
        r == parse_i32(s@),
{
    let cs = chars_of(s);
    if cs.len() > 0 && cs[0] == '-' {
        let rest = slice_chars(&cs, 1, cs.len());
        assert(rest@ == s@.drop_first());
        if rest.len() == 0 || rest[0] == '+' {
            proof {
                if rest@.len() > 0 {
                    assert(!is_digit(rest@[0]));
                }
            }
            return None;
        }
        let body = string_of(&rest);
        assert(parse_u64(body@) == (if body@.len() > 0 && all_digits(body@) && digits_value(body@) <= u64::MAX {
            Some(digits_value(body@) as u64)
        } else {
            None
        }));
        match parse_u64_str(body.as_str()) {
            Some(v) => if v <= 2147483648u64 {
                let r: i64 = 0i64 - (v as i64);
                Some(r as i32)
            } else {
                None
            },
            None => None,
        }
    } else {
        match parse_u64_str(s) {
            Some(v) => if v <= 2147483647u64 {
                Some(v as i32)
            } else {
                None
            },
            None => None,
        }
    }
}

/// Case-insensitive equality is symmetric.
pub proof fn lemma_eq_ignore_case_symmetric(a: Seq<char>, b: Seq<char>)
    ensures
        eq_ignore_case(a, b) == eq_ignore_case(b, a),
{
}

/// A copy of a list of strings.
pub fn copy_texts(v: &[String]) -> (r: Vec<String>)
    ensures
        views(r@) == views(v@),
{
    let mut out: Vec<String> = Vec::new();
    let mut i: usize = 0;
    while i < v.len()
        invariant
            i <= v@.len(),
            views(out@) == views(v@).take(i as int),
        decreases v@.len() - i,
    {
        let ghost before = views(out@);
        out.push(owned(v[i].as_str()));
        assert(views(out@) =~= before.push(v@[i as int]@));
        assert(views(v@).take(i + 1) =~= views(v@).take(i as int).push(v@[i as int]@));
        i = i + 1;
    }
    assert(views(v@).take(i as int) =~= views(v@));
    out
}

/// Whether some entry of `v` equals `s` ignoring case, either way round.
pub proof fn lemma_managed_by_flip(v: Seq<Seq<char>>, s: Seq<char>)
    ensures
        (exists|i: int| 0 <= i < v.len() && eq_ignore_case(#[trigger] v[i], s)) == (exists|i: int|
            0 <= i < v.len() && eq_ignore_case(s, #[trigger] v[i])),
{
}

} // verus!
