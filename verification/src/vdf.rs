//! Minimal Valve KeyValues (VDF) parser.
//!
//! Handles the quoted-token + brace-block subset used by Steam's
//! `libraryfolders.vdf` and `appmanifest_*.acf`: `"key" "value"` pairs and
//! `"key" { ... }` blocks, `//` line comments, and the escapes `\n`, `\t`,
//! `\\` and `\"` inside strings. No `#include`, no conditionals, no unquoted
//! keys.

use vstd::prelude::*;
use crate::error::Error;
use crate::text::{owned, push_decimal, push_str, decimal, str_eq, lossy_string, utf8_lossy};
use vstd::string::StringSliceAdditionalSpecFns;
use std::collections::BTreeMap;

verus! {

/// A KeyValues value: a string, or an ordered list of key/value pairs.
#[derive(Debug)]
pub enum Vdf {
    Str(String),
    Obj(Vec<(String, Vdf)>),
}

/// The mathematical value of a [`Vdf`].
pub enum VdfModel {
    Str(Seq<char>),
    Obj(Seq<(Seq<char>, VdfModel)>),
}

/// What a value holds, with text for strings.
pub open spec fn model(v: Vdf) -> VdfModel
    decreases v,
{
    match v {
        Vdf::Str(s) => VdfModel::Str(s@),
        Vdf::Obj(pairs) => VdfModel::Obj(pairs_model(pairs@)),
    }
}

/// What an object's pairs hold.
pub open spec fn pairs_model(ps: Seq<(String, Vdf)>) -> Seq<(Seq<char>, VdfModel)>
    decreases ps,
{
    if ps.len() == 0 {
        seq![]
    } else {
        pairs_model(ps.drop_last()).push((ps.last().0@, model(ps.last().1)))
    }
}

impl View for Vdf {
    type V = VdfModel;

    open spec fn view(&self) -> VdfModel {
        model(*self)
    }
}

/// The model of the pairs has one entry per pair, each the pair's model.
pub proof fn lemma_pairs_model(ps: Seq<(String, Vdf)>)
    ensures
        pairs_model(ps).len() == ps.len(),
        forall|i: int|
            0 <= i < ps.len() ==> #[trigger] pairs_model(ps)[i] == (ps[i].0@, model(ps[i].1)),
    decreases ps.len(),
{
    if ps.len() > 0 {
        lemma_pairs_model(ps.drop_last());
    }
}

/// Adding a pair adds its model at the end.
pub proof fn lemma_pairs_model_push(ps: Seq<(String, Vdf)>, p: (String, Vdf))
    ensures
        pairs_model(ps.push(p)) == pairs_model(ps).push((p.0@, model(p.1))),
{
    assert(ps.push(p).drop_last() =~= ps);
}

// ---- the grammar, over the document's bytes --------------------------------

/// `u8::is_ascii_whitespace`: space, tab, line feed, form feed, carriage return.
pub open spec fn ws_byte(c: u8) -> bool {
    c == 32 || c == 9 || c == 10 || c == 12 || c == 13
}

/// A `//` comment starts at `p`.
pub open spec fn comment_at(b: Seq<u8>, p: nat) -> bool {
    p + 1 < b.len() && b[p as int] == 47 && b[p + 1int] == 47
}

/// Position of the first byte at or after `p` that is neither whitespace
/// nor inside a `//` comment.
pub open spec fn skip_ws(b: Seq<u8>, p: nat) -> nat
    decreases b.len() - p,
{
    if p >= b.len() {
        p
    } else if comment_at(b, p) {
        skip_comment(b, p + 2)
    } else if ws_byte(b[p as int]) {
        skip_ws(b, p + 1)
    } else {
        p
    }
}

/// Inside a line comment at `p`: resume after the next line feed.
pub open spec fn skip_comment(b: Seq<u8>, p: nat) -> nat
    decreases b.len() - p,
{
    if p >= b.len() {
        p
    } else if b[p as int] == 10 {
        skip_ws(b, p + 1)
    } else {
        skip_comment(b, p + 1)
    }
}

/// The byte an escape `\c` stands for.
pub open spec fn unescape(c: u8) -> u8 {
    if c == 110 {
        10
    } else if c == 116 {
        9
    } else {
        c
    }
}

/// What went wrong, for the error message.
#[derive(Clone, Copy, PartialEq, Eq, Debug)]
pub enum VdfFault {
    ExpectedClose,
    StrayClose,
    ExpectedValue,
    ExpectedQuote,
    EofInEscape,
    Unterminated,
}

/// The parser's message for a fault.
pub open spec fn fault_message(f: VdfFault) -> Seq<char> {
    match f {
        VdfFault::ExpectedClose => "unexpected EOF, expected '}'"@,
        VdfFault::StrayClose => "unexpected '}' at top level"@,
        VdfFault::ExpectedValue => "expected '{' or quoted value after key"@,
        VdfFault::ExpectedQuote => "expected '\"'"@,
        VdfFault::EofInEscape => "EOF in escape"@,
        VdfFault::Unterminated => "unterminated string"@,
    }
}

/// The text of the error raised for `f` at byte offset `p`.
pub open spec fn fault_text(f: VdfFault, p: nat) -> Seq<char> {
    fault_message(f) + " at byte "@ + decimal(p)
}

/// The error reports fault `f` at byte offset `p`.
pub open spec fn is_fault(e: Error, f: VdfFault, p: nat) -> bool {
    e matches Error::Vdf(m) && m@ == fault_text(f, p)
}

/// Rest of a quoted string whose opening quote precedes `p`: its decoded
/// bytes and the position after the closing quote.
pub open spec fn str_body(b: Seq<u8>, p: nat) -> Result<(Seq<u8>, nat), (VdfFault, nat)>
    decreases b.len() - p,
{
    if p >= b.len() {
        Err((VdfFault::Unterminated, p))
    } else if b[p as int] == 34 {
        Ok((seq![], p + 1))
    } else if b[p as int] == 92 {
        if p + 1 >= b.len() {
            Err((VdfFault::EofInEscape, p + 1))
        } else {
            match str_body(b, p + 2) {
                Ok((rest, e)) => Ok((seq![unescape(b[p + 1int])] + rest, e)),
                Err(x) => Err(x),
            }
        }
    } else {
        match str_body(b, p + 1) {
            Ok((rest, e)) => Ok((seq![b[p as int]] + rest, e)),
            Err(x) => Err(x),
        }
    }
}

/// A quoted string at `p` (after whitespace).
pub open spec fn quoted(b: Seq<u8>, p: nat) -> Result<(Seq<u8>, nat), (VdfFault, nat)> {
    let q = skip_ws(b, p);
    if q < b.len() && b[q as int] == 34 {
        str_body(b, q + 1)
    } else {
        Err((VdfFault::ExpectedQuote, q))
    }
}

pub type BodyResult = Result<(Seq<(Seq<char>, VdfModel)>, nat), (VdfFault, nat)>;

/// Key/value pairs from `p` up to end of input (`top`) or the closing brace.
pub open spec fn body(b: Seq<u8>, p: nat, top: bool) -> BodyResult
    decreases b.len() - p,
{
    let q = skip_ws(b, p);
    if q >= b.len() {
        if top {
            Ok((seq![], q))
        } else {
            Err((VdfFault::ExpectedClose, q))
        }
    } else if b[q as int] == 125 {
        if top {
            Err((VdfFault::StrayClose, q))
        } else {
            Ok((seq![], q + 1))
        }
    } else {
        match quoted(b, q) {
            Err(x) => Err(x),
            Ok((kb, q2)) => {
                let key = utf8_lossy(kb);
                let q3 = skip_ws(b, q2);
                if q3 < b.len() && b[q3 as int] == 123 && p < q3 + 1 {
                    match body(b, q3 + 1, false) {
                        Err(x) => Err(x),
                        Ok((child, q4)) => {
                            if p < q4 <= b.len() {
                                match body(b, q4, top) {
                                    Err(x) => Err(x),
                                    Ok((rest, q5)) => Ok(
                                        (seq![(key, VdfModel::Obj(child))] + rest, q5),
                                    ),
                                }
                            } else {
                                Err((VdfFault::ExpectedClose, q4))
                            }
                        },
                    }
                } else if q3 < b.len() && b[q3 as int] == 34 {
                    match quoted(b, q3) {
                        Err(x) => Err(x),
                        Ok((vb, q4)) => {
                            if p < q4 <= b.len() {
                                match body(b, q4, top) {
                                    Err(x) => Err(x),
                                    Ok((rest, q5)) => Ok(
                                        (seq![(key, VdfModel::Str(utf8_lossy(vb)))] + rest, q5),
                                    ),
                                }
                            } else {
                                Err((VdfFault::ExpectedClose, q4))
                            }
                        },
                    }
                } else {
                    Err((VdfFault::ExpectedValue, q3))
                }
            },
        }
    }
}

/// The document: a top-level object body.
pub open spec fn document(b: Seq<u8>) -> Result<VdfModel, (VdfFault, nat)> {
    match body(b, 0, true) {
        Ok((pairs, _)) => Ok(VdfModel::Obj(pairs)),
        Err(x) => Err(x),
    }
}

// ---- facts about positions ---------------------------------------------------

proof fn lemma_skip_ws(b: Seq<u8>, p: nat)
    requires
        p <= b.len(),
    ensures
        p <= skip_ws(b, p) <= b.len(),
        skip_ws(b, p) < b.len() ==> !ws_byte(b[skip_ws(b, p) as int]) && !comment_at(
            b,
            skip_ws(b, p),
        ),
    decreases b.len() - p, 0nat,
{
    if p < b.len() {
        if comment_at(b, p) {
            lemma_skip_comment(b, p + 2);
        } else if ws_byte(b[p as int]) {
            lemma_skip_ws(b, p + 1);
        }
    }
}

proof fn lemma_skip_comment(b: Seq<u8>, p: nat)
    requires
        p <= b.len(),
    ensures
        p <= skip_comment(b, p) <= b.len(),
        skip_comment(b, p) < b.len() ==> !ws_byte(b[skip_comment(b, p) as int]) && !comment_at(
            b,
            skip_comment(b, p),
        ),
    decreases b.len() - p, 1nat,
{
    if p < b.len() {
        if b[p as int] == 10 {
            lemma_skip_ws(b, p + 1);
        } else {
            lemma_skip_comment(b, p + 1);
        }
    }
}

proof fn lemma_str_body(b: Seq<u8>, p: nat)
    requires
        p <= b.len(),
    ensures
        str_body(b, p) matches Ok((_, e)) ==> p < e <= b.len(),
        str_body(b, p) matches Err((_, e)) ==> e <= b.len(),
    decreases b.len() - p,
{
    if p < b.len() && b[p as int] != 34 {
        if b[p as int] == 92 {
            if p + 1 < b.len() {
                lemma_str_body(b, p + 2);
            }
        } else {
            lemma_str_body(b, p + 1);
        }
    }
}

proof fn lemma_quoted(b: Seq<u8>, p: nat)
    requires
        p <= b.len(),
    ensures
        quoted(b, p) matches Ok((_, e)) ==> p < e <= b.len(),
        quoted(b, p) matches Err((_, e)) ==> e <= b.len(),
{
    lemma_skip_ws(b, p);
    let q = skip_ws(b, p);
    if q < b.len() && b[q as int] == 34 {
        lemma_str_body(b, q + 1);
    }
}

proof fn lemma_body(b: Seq<u8>, p: nat, top: bool)
    requires
        p <= b.len(),
    ensures
        body(b, p, top) matches Ok((_, e)) ==> p <= e <= b.len() && (!top ==> p < e),
        body(b, p, top) matches Err((_, e)) ==> e <= b.len(),
    decreases b.len() - p,
{
    lemma_skip_ws(b, p);
    let q = skip_ws(b, p);
    if q < b.len() && b[q as int] != 125 {
        lemma_quoted(b, q);
        if let Ok((kb, q2)) = quoted(b, q) {
            lemma_skip_ws(b, q2);
            let q3 = skip_ws(b, q2);
            if q3 < b.len() && b[q3 as int] == 123 {
                lemma_body(b, q3 + 1, false);
                if let Ok((child, q4)) = body(b, q3 + 1, false) {
                    lemma_body(b, q4, top);
                }
            } else if q3 < b.len() && b[q3 as int] == 34 {
                lemma_quoted(b, q3);
                if let Ok((vb, q4)) = quoted(b, q3) {
                    lemma_body(b, q4, top);
                }
            }
        }
    }
}

/// Prepends already-parsed pairs to the result of parsing the rest.
pub open spec fn prepend(acc: Seq<(Seq<char>, VdfModel)>, r: BodyResult) -> BodyResult {
    match r {
        Ok((rest, e)) => Ok((acc + rest, e)),
        Err(x) => Err(x),
    }
}

/// A string read from the rest of the input, with `acc` read before it.
pub open spec fn prepend_bytes(acc: Seq<u8>, r: Result<(Seq<u8>, nat), (VdfFault, nat)>) -> Result<
    (Seq<u8>, nat),
    (VdfFault, nat),
> {
    match r {
        Ok((rest, e)) => Ok((acc + rest, e)),
        Err(x) => Err(x),
    }
}

// ---- the parser -------------------------------------------------------------

/// Parse a full VDF document. The top level is treated as an object body
/// (zero or more `"key" value` pairs).
pub fn parse(input: &str) -> (r: Result<Vdf, Error>)
    ensures
        match document(input.spec_bytes()) {
            Ok(v) => r matches Ok(d) && d@ == v,
            Err((f, p)) => r matches Err(e) && is_fault(e, f, p),
        },
{
    let mut p = Parser { chars: input.as_bytes(), pos: 0 };
    let pairs = p.parse_body(true)?;
    Ok(Vdf::Obj(pairs))
}

struct Parser<'a> {
    chars: &'a [u8],
    pos: usize,
}

impl<'a> Parser<'a> {
    fn err(&self, msg: &str) -> (e: Error)
        ensures
            e matches Error::Vdf(m) && m@ == msg@ + " at byte "@ + decimal(self.pos as nat),
    {
        let mut s = owned(msg);
        push_str(&mut s, " at byte ");
        push_decimal(&mut s, self.pos as u64);
        Error::Vdf(s)
    }

    fn peek(&self, off: usize) -> (r: Option<u8>)
        requires
            self.pos + off <= usize::MAX,
        ensures
            r == (if self.pos + off < self.chars@.len() {
                Some(self.chars@[self.pos + off])
            } else {
                None
            }),
    {
        let i = self.pos + off;
        if i < self.chars.len() {
            Some(self.chars[i])
        } else {
            None
        }
    }

    fn skip_ws(&mut self)
        requires
            old(self).pos <= old(self).chars@.len(),
        ensures
            final(self).chars == old(self).chars,
            final(self).pos == skip_ws(old(self).chars@, old(self).pos as nat),
    {
        let ghost b = self.chars@;
        let ghost p0 = self.pos as nat;
        loop
            invariant
                self.chars@ == b,
                self.chars == old(self).chars,
                self.pos <= b.len(),
                skip_ws(b, p0) == skip_ws(b, self.pos as nat),
            ensures
                self.chars == old(self).chars,
                skip_ws(b, p0) == self.pos as nat,
            decreases b.len() - self.pos,
        {
            if self.pos >= self.chars.len() {
                break;
            }
            let c = self.chars[self.pos];
            if c == 47 && self.peek(1) == Some(47u8) {
                let ghost before = self.pos;
                self.pos = self.pos + 2;
                while self.pos < self.chars.len() && self.chars[self.pos] != 10
                    invariant
                        self.pos >= before + 2,
                        self.chars@ == b,
                        self.chars == old(self).chars,
                        self.pos <= b.len(),
                        skip_ws(b, p0) == skip_comment(b, self.pos as nat),
                    decreases b.len() - self.pos,
                {
                    self.pos = self.pos + 1;
                }
            } else if c == 32 || c == 9 || c == 10 || c == 12 || c == 13 {
                self.pos = self.pos + 1;
            } else {
                break;
            }
        }
    }

    /// A quoted string (after optional whitespace), with escapes decoded.
    fn parse_string(&mut self) -> (r: Result<String, Error>)
        requires
            old(self).pos <= old(self).chars@.len(),
        ensures
            final(self).chars == old(self).chars,
            match quoted(old(self).chars@, old(self).pos as nat) {
                Ok((bytes, e)) => r matches Ok(s) && s@ == utf8_lossy(bytes) && final(self).pos
                    == e,
                Err((f, p)) => r matches Err(err) && is_fault(err, f, p),
            },
    {
        let ghost b = self.chars@;
        proof {
            lemma_skip_ws(b, self.pos as nat);
        }
        self.skip_ws();
        if !(self.pos < self.chars.len() && self.chars[self.pos] == 34) {
            return Err(self.err("expected '\"'"));
        }
        self.pos = self.pos + 1;
        let ghost start = self.pos as nat;
        let mut buf: Vec<u8> = Vec::new();
        while self.pos < self.chars.len()
            invariant
                self.chars@ == b,
                self.chars == old(self).chars,
                start <= self.pos <= b.len(),
                quoted(b, old(self).pos as nat) == str_body(b, start),
                str_body(b, start) == prepend_bytes(buf@, str_body(b, self.pos as nat)),
            decreases b.len() - self.pos,
        {
            let c = self.chars[self.pos];
            if c == 34 {
                self.pos = self.pos + 1;
                assert(buf@ + seq![] =~= buf@);
                return Ok(lossy_string(buf.as_slice()));
            } else if c == 92 {
                self.pos = self.pos + 1;
                if self.pos >= self.chars.len() {
                    return Err(self.err("EOF in escape"));
                }
                let e = self.chars[self.pos];
                let d: u8 = if e == 110 {
                    10
                } else if e == 116 {
                    9
                } else {
                    e
                };
                proof {
                    let ghost rest = str_body(b, (self.pos + 1) as nat);
                    if let Ok((r, en)) = rest {
                        assert(buf@.push(d) + r =~= buf@ + (seq![d] + r));
                    }
                }
                buf.push(d);
                self.pos = self.pos + 1;
            } else {
                proof {
                    let ghost rest = str_body(b, (self.pos + 1) as nat);
                    if let Ok((r, en)) = rest {
                        assert(buf@.push(c) + r =~= buf@ + (seq![c] + r));
                    }
                }
                buf.push(c);
                self.pos = self.pos + 1;
            }
        }
        Err(self.err("unterminated string"))
    }

    /// Parse a sequence of `key value` pairs until EOF (top level) or `}`.
    fn parse_body(&mut self, top: bool) -> (r: Result<Vec<(String, Vdf)>, Error>)
        requires
            old(self).pos <= old(self).chars@.len(),
        ensures
            final(self).chars == old(self).chars,
            match body(old(self).chars@, old(self).pos as nat, top) {
                Ok((pairs, e)) => r matches Ok(v) && pairs_model(v@) == pairs && final(self).pos
                    == e,
                Err((f, p)) => r matches Err(err) && is_fault(err, f, p),
            },
        decreases old(self).chars@.len() - old(self).pos,
    {
        let ghost b = self.chars@;
        let ghost p0 = self.pos as nat;
        let mut pairs: Vec<(String, Vdf)> = Vec::new();
        loop
            invariant
                self.chars@ == b,
                self.chars == old(self).chars,
                p0 <= self.pos <= b.len(),
                p0 == old(self).pos,
                body(b, p0, top) == prepend(pairs_model(pairs@), body(b, self.pos as nat, top)),
            decreases b.len() - self.pos,
        {
            let ghost p = self.pos as nat;
            proof {
                lemma_skip_ws(b, p);
                lemma_body(b, p, top);
            }
            self.skip_ws();
            if self.pos >= self.chars.len() {
                if top {
                    assert(pairs_model(pairs@) + seq![] =~= pairs_model(pairs@));
                    return Ok(pairs);
                }
                return Err(self.err("unexpected EOF, expected '}'"));
            }
            if self.chars[self.pos] == 125 {
                if top {
                    return Err(self.err("unexpected '}' at top level"));
                }
                self.pos = self.pos + 1;
                assert(pairs_model(pairs@) + seq![] =~= pairs_model(pairs@));
                return Ok(pairs);
            }
            let ghost q = self.pos as nat;
            proof {
                lemma_quoted(b, q);
            }
            let key = self.parse_string()?;
            let ghost q2 = self.pos as nat;
            proof {
                lemma_skip_ws(b, q2);
            }
            self.skip_ws();
            let ghost q3 = self.pos as nat;
            if self.pos < self.chars.len() && self.chars[self.pos] == 123 {
                self.pos = self.pos + 1;
                proof {
                    lemma_body(b, q3 + 1, false);
                }
                let child = self.parse_body(false)?;
                let ghost q4 = self.pos as nat;
                let ghost item = (key, Vdf::Obj(child));
                proof {
                    lemma_pairs_model_push(pairs@, item);
                    let ghost rest = body(b, q4, top);
                    if let Ok((r, e)) = rest {
                        assert(pairs_model(pairs@).push((key@, model(item.1))) + r
                            =~= pairs_model(pairs@) + (seq![(key@, model(item.1))] + r));
                    }
                }
                pairs.push((key, Vdf::Obj(child)));
            } else if self.pos < self.chars.len() && self.chars[self.pos] == 34 {
                proof {
                    lemma_quoted(b, q3);
                }
                let val = self.parse_string()?;
                let ghost q4 = self.pos as nat;
                let ghost item = (key, Vdf::Str(val));
                proof {
                    lemma_pairs_model_push(pairs@, item);
                    let ghost rest = body(b, q4, top);
                    if let Ok((r, e)) = rest {
                        assert(pairs_model(pairs@).push((key@, model(item.1))) + r
                            =~= pairs_model(pairs@) + (seq![(key@, model(item.1))] + r));
                    }
                }
                pairs.push((key, Vdf::Str(val)));
            } else {
                return Err(self.err("expected '{' or quoted value after key"));
            }
        }
    }
}

// ---- accessors --------------------------------------------------------------

/// The position of the first pair whose key is `key`, if any.
pub open spec fn first_key(ps: Seq<(Seq<char>, VdfModel)>, key: Seq<char>) -> Option<int> {
    if exists|i: int| 0 <= i < ps.len() && ps[i].0 == key {
        Some(
            choose|i: int|
                0 <= i < ps.len() && ps[i].0 == key && forall|j: int|
                    0 <= j < i ==> ps[j].0 != key,
        )
    } else {
        None
    }
}

/// The child under `key` (first match) of an object; `None` for a string.
pub open spec fn child(m: VdfModel, key: Seq<char>) -> Option<VdfModel> {
    match m {
        VdfModel::Obj(ps) => match first_key(ps, key) {
            Some(i) => Some(ps[i].1),
            None => None,
        },
        VdfModel::Str(_) => None,
    }
}

/// `String`'s `Ord` behaves as a total order (what `BTreeMap` relies on).
pub open spec fn string_order_lawful() -> bool {
    vstd::laws_cmp::obeys_cmp::<String>()
}

/// The map that inserting each string-valued pair, in order, builds.
pub open spec fn string_children(ps: Seq<(String, Vdf)>) -> Map<String, String>
    decreases ps.len(),
{
    if ps.len() == 0 {
        Map::empty()
    } else {
        let m = string_children(ps.drop_last());
        match ps.last().1 {
            Vdf::Str(s) => m.insert(ps.last().0, s),
            Vdf::Obj(_) => m,
        }
    }
}

/// Where key `k` stands in `acc`, searching from position `j`.
pub open spec fn key_index(acc: Seq<(Seq<char>, Seq<char>)>, k: Seq<char>, j: int) -> Option<int>
    decreases acc.len() - j,
{
    if j < 0 || j >= acc.len() {
        None
    } else if acc[j].0 == k {
        Some(j)
    } else {
        key_index(acc, k, j + 1)
    }
}

/// `acc` with key `k` set to `v`: in place where `k` already stands, else
/// added at the end.
pub open spec fn put_pair(acc: Seq<(Seq<char>, Seq<char>)>, k: Seq<char>, v: Seq<char>) -> Seq<
    (Seq<char>, Seq<char>),
> {
    match key_index(acc, k, 0) {
        Some(i) => acc.update(i, (k, v)),
        None => acc.push((k, v)),
    }
}

/// The string children of `ps` as key/text pairs: each key once, where it
/// first has a string value, holding the text of its last string-valued pair.
pub open spec fn string_pairs(ps: Seq<(String, Vdf)>) -> Seq<(Seq<char>, Seq<char>)>
    decreases ps.len(),
{
    if ps.len() == 0 {
        seq![]
    } else {
        let acc = string_pairs(ps.drop_last());
        match ps.last().1 {
            Vdf::Str(s) => put_pair(acc, ps.last().0@, s@),
            Vdf::Obj(_) => acc,
        }
    }
}

/// The views of a list of string pairs.
pub open spec fn pair_views(v: Seq<(String, String)>) -> Seq<(Seq<char>, Seq<char>)> {
    v.map_values(|p: (String, String)| (p.0@, p.1@))
}

/// No key occurs twice.
pub open spec fn keys_distinct(acc: Seq<(Seq<char>, Seq<char>)>) -> bool {
    forall|i: int, j: int| 0 <= i < j < acc.len() ==> acc[i].0 != acc[j].0
}

proof fn lemma_key_index_skip(acc: Seq<(Seq<char>, Seq<char>)>, k: Seq<char>, j: int)
    requires
        0 <= j <= acc.len(),
        forall|i: int| 0 <= i < j ==> acc[i].0 != k,
    ensures
        key_index(acc, k, 0) == key_index(acc, k, j),
    decreases j,
{
    if j > 0 {
        lemma_key_index_skip(acc, k, j - 1);
    }
}

proof fn lemma_key_index_none(acc: Seq<(Seq<char>, Seq<char>)>, k: Seq<char>, j: int)
    requires
        0 <= j <= acc.len(),
        forall|i: int| j <= i < acc.len() ==> acc[i].0 != k,
    ensures
        key_index(acc, k, j) is None,
    decreases acc.len() - j,
{
    if j < acc.len() {
        lemma_key_index_none(acc, k, j + 1);
    }
}

impl Vdf {
    /// Get a child value by key (first match) when this is an object.
    pub fn get(&self, key: &str) -> (r: Option<&Vdf>)
        ensures
            match r {
                Some(v) => child(self@, key@) == Some(v@),
                None => child(self@, key@) is None,
            },
    {
        match self {
            Vdf::Obj(pairs) => {
                proof {
                    lemma_pairs_model(pairs@);
                }
                let ghost ps = pairs_model(pairs@);
                assert(self@ == VdfModel::Obj(ps));
                let mut i: usize = 0;
                while i < pairs.len()
                    invariant
                        self@ == VdfModel::Obj(ps),
                        ps == pairs_model(pairs@),
                        i <= pairs@.len(),
                        ps.len() == pairs@.len(),
                        forall|k: int|
                            0 <= k < pairs@.len() ==> #[trigger] ps[k] == (
                                pairs@[k].0@,
                                model(pairs@[k].1),
                            ),
                        forall|j: int| 0 <= j < i ==> ps[j].0 != key@,
                    decreases pairs@.len() - i,
                {
                    if str_eq(pairs[i].0.as_str(), key) {
                        let found = &pairs[i].1;
                        assert(ps[i as int].0 == key@);
                        let ghost k = choose|k: int|
                            0 <= k < ps.len() && ps[k].0 == key@ && forall|j: int|
                                0 <= j < k ==> ps[j].0 != key@;
                        assert(0 <= i < ps.len() && ps[i as int].0 == key@ && forall|j: int|
                            0 <= j < i ==> ps[j].0 != key@);
                        assert(k == i as int) by {
                            if k < i as int {
                                assert(ps[k].0 != key@);
                            } else if k > i as int {
                                assert(ps[i as int].0 != key@);
                            }
                        }
                        assert(first_key(ps, key@) == Some(i as int));
                        assert(found@ == ps[i as int].1);
                        return Some(found);
                    }
                    i = i + 1;
                }
                None
            },
            Vdf::Str(_) => None,
        }
    }

    /// The string, when this is a string.
    pub fn as_str(&self) -> (r: Option<&str>)
        ensures
            match self@ {
                VdfModel::Str(s) => r matches Some(t) && t@ == s,
                VdfModel::Obj(_) => r is None,
            },
    {
        match self {
            Vdf::Str(s) => Some(s.as_str()),
            Vdf::Obj(_) => None,
        }
    }

    /// The pairs, when this is an object.
    pub fn as_obj(&self) -> (r: Option<&[(String, Vdf)]>)
        ensures
            match self@ {
                VdfModel::Obj(ps) => r matches Some(t) && pairs_model(t@) == ps,
                VdfModel::Str(_) => r is None,
            },
    {
        match self {
            Vdf::Obj(pairs) => Some(pairs.as_slice()),
            Vdf::Str(_) => None,
        }
    }

    /// The string children as key/text pairs, in the order in which each key
    /// first has a string value; a later pair with the same key gives the
    /// text. Object children are left out, and a string value has none.
    pub fn str_pairs(&self) -> (r: Vec<(String, String)>)
        ensures
            pair_views(r@) == match self {
                Vdf::Obj(pairs) => string_pairs(pairs@),
                Vdf::Str(_) => seq![],
            },
            keys_distinct(pair_views(r@)),
    {
        let mut r: Vec<(String, String)> = Vec::new();
        if let Vdf::Obj(pairs) = self {
            let mut i: usize = 0;
            while i < pairs.len()
                invariant
                    i <= pairs@.len(),
                    pair_views(r@) == string_pairs(pairs@.take(i as int)),
                    keys_distinct(pair_views(r@)),
                decreases pairs@.len() - i,
            {
                assert(pairs@.take(i + 1).drop_last() =~= pairs@.take(i as int));
                if let Vdf::Str(s) = &pairs[i].1 {
                    let key = &pairs[i].0;
                    let ghost acc = pair_views(r@);
                    let mut j: usize = 0;
                    let mut found = false;
                    while j < r.len() && !found
                        invariant
                            j <= r@.len(),
                            acc == pair_views(r@),
                            forall|q: int| 0 <= q < j ==> acc[q].0 != key@,
                            found ==> j < r@.len() && acc[j as int].0 == key@,
                        decreases r@.len() - j + (if found { 0int } else { 1int }),
                    {
                        if str_eq(r[j].0.as_str(), key.as_str()) {
                            found = true;
                        } else {
                            j = j + 1;
                        }
                    }
                    proof {
                        lemma_key_index_skip(acc, key@, j as int);
                    }
                    if found {
                        let x = (key.clone(), s.clone());
                        proof {
                            assert(acc[j as int].0 == key@);
                        }
                        r.set(j, x);
                        assert(pair_views(r@) =~= acc.update(j as int, (key@, s@)));
                        assert(keys_distinct(pair_views(r@))) by {
                            assert forall|a: int, b: int| 0 <= a < b < pair_views(r@).len() implies pair_views(r@)[a].0 != pair_views(r@)[b].0 by {
                                assert(acc[a].0 != acc[b].0);
                            }
                        }
                    } else {
                        proof {
                            lemma_key_index_none(acc, key@, j as int);
                        }
                        r.push((key.clone(), s.clone()));
                        assert(pair_views(r@) =~= acc.push((key@, s@)));
                        assert(keys_distinct(pair_views(r@))) by {
                            assert forall|a: int, b: int| 0 <= a < b < pair_views(r@).len() implies pair_views(r@)[a].0 != pair_views(r@)[b].0 by {
                                if b < acc.len() {
                                    assert(acc[a].0 != acc[b].0);
                                } else {
                                    assert(acc[a].0 != key@);
                                }
                            }
                        }
                    }
                }
                i = i + 1;
            }
            assert(pairs@.take(pairs@.len() as int) =~= pairs@);
        }
        r
    }

    /// Flatten an object into a key->string map (string children only; a
    /// later pair overrides an earlier one with the same key).
    pub fn str_map(&self) -> (m: BTreeMap<String, String>)
        ensures
            string_order_lawful() ==> m@ == match self {
                Vdf::Obj(pairs) => string_children(pairs@),
                Vdf::Str(_) => Map::empty(),
            },
    {
        let mut m = BTreeMap::new();
        if let Vdf::Obj(pairs) = self {
            let mut i: usize = 0;
            while i < pairs.len()
                invariant
                    i <= pairs@.len(),
                    string_order_lawful() ==> m@ == string_children(
                        pairs@.take(i as int),
                    ),
                decreases pairs@.len() - i,
            {
                assert(pairs@.take(i + 1).drop_last() =~= pairs@.take(i as int));
                if let Vdf::Str(s) = &pairs[i].1 {
                    m.insert(pairs[i].0.clone(), s.clone());
                }
                i = i + 1;
            }
            assert(pairs@.take(pairs@.len() as int) =~= pairs@);
        }
        m
    }
}

} // verus!
