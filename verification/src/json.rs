//! JSON documents as the launchers' and games' configuration files hold
//! them, and reading values out of them. Numbers are kept as their text.

use vstd::prelude::*;
use crate::text::str_eq;

verus! {

/// A JSON value. An object's members keep their order.
#[derive(Debug)]
pub enum Json {
    Null,
    Bool(bool),
    /// A number, as its text.
    Number(String),
    Str(String),
    Array(Vec<Json>),
    Object(Vec<(String, Json)>),
}

/// The value of the first member named `key` at position `k` or later.
pub open spec fn member_from(ps: Seq<(String, Json)>, key: Seq<char>, k: int) -> Option<Json>
    decreases ps.len() - k,
{
    if k < 0 || k >= ps.len() {
        None
    } else if ps[k].0@ == key {
        Some(ps[k].1)
    } else {
        member_from(ps, key, k + 1)
    }
}

/// The member `key` of an object (the first one of that name); none for
/// anything else.
pub open spec fn field_of(j: Json, key: Seq<char>) -> Option<Json> {
    match j {
        Json::Object(ps) => member_from(ps@, key, 0),
        _ => None,
    }
}

/// The text of a string value.
pub open spec fn text_of(j: Json) -> Option<Seq<char>> {
    match j {
        Json::Str(s) => Some(s@),
        _ => None,
    }
}

/// The text of an optional string value.
pub open spec fn opt_text(j: Option<Json>) -> Option<Seq<char>> {
    match j {
        Some(v) => text_of(v),
        None => None,
    }
}

/// The text of member `key`, when it is a string.
pub open spec fn field_text(j: Json, key: Seq<char>) -> Option<Seq<char>> {
    opt_text(field_of(j, key))
}

/// The items of an array; none for anything else.
pub open spec fn items_of(j: Json) -> Seq<Json> {
    match j {
        Json::Array(v) => v@,
        _ => seq![],
    }
}

/// The items of an optional array.
pub open spec fn opt_items(j: Option<Json>) -> Seq<Json> {
    match j {
        Some(v) => items_of(v),
        None => seq![],
    }
}

/// The members of an object; none for anything else.
pub open spec fn members_of(j: Json) -> Seq<(String, Json)> {
    match j {
        Json::Object(ps) => ps@,
        _ => seq![],
    }
}

impl Json {
    /// The member `key` of an object (`value["key"]`, absent as `None`).
    pub fn field(&self, key: &str) -> (r: Option<&Json>)
        ensures
            match field_of(*self, key@) {
                Some(v) => r matches Some(x) && *x == v,
                None => r is None,
            },
    {
        match self {
            Json::Object(ps) => {
                let mut k: usize = 0;
                while k < ps.len()
                    invariant
                        k <= ps@.len(),
                        field_of(*self, key@) == member_from(ps@, key@, 0),
                        member_from(ps@, key@, 0) == member_from(ps@, key@, k as int),
                    decreases ps@.len() - k,
                {
                    if str_eq(ps[k].0.as_str(), key) {
                        assert(member_from(ps@, key@, k as int) == Some(ps@[k as int].1));
                        return Some(&ps[k].1);
                    }
                    k = k + 1;
                }
                None
            },
            _ => None,
        }
    }

    /// The text of a string value.
    pub fn as_text(&self) -> (r: Option<&str>)
        ensures
            match text_of(*self) {
                Some(t) => r matches Some(s) && s@ == t,
                None => r is None,
            },
    {
        match self {
            Json::Str(s) => Some(s.as_str()),
            _ => None,
        }
    }

    /// The items of an array (none for anything else).
    pub fn items(&self) -> (r: &[Json])
        ensures
            r@ == items_of(*self),
    {
        match self {
            Json::Array(v) => v.as_slice(),
            _ => &[],
        }
    }

    /// The members of an object (none for anything else).
    pub fn members(&self) -> (r: &[(String, Json)])
        ensures
            r@ == members_of(*self),
    {
        match self {
            Json::Object(ps) => ps.as_slice(),
            _ => &[],
        }
    }

    /// The text of member `key`, when it is a string.
    pub fn field_text(&self, key: &str) -> (r: Option<&str>)
        ensures
            match field_text(*self, key@) {
                Some(t) => r matches Some(s) && s@ == t,
                None => r is None,
            },
    {
        match self.field(key) {
            Some(v) => v.as_text(),
            None => None,
        }
    }
}

// ---- changing members -----------------------------------------------------------------

proof fn lemma_member_update(ps: Seq<(String, Json)>, i: int, x: (String, Json), key: Seq<char>, k: int)
    requires
        0 <= i < ps.len(),
        x.0@ == ps[i].0@,
        key != ps[i].0@,
        0 <= k,
    ensures
        member_from(ps.update(i, x), key, k) == member_from(ps, key, k),
    decreases ps.len() - k,
{
    if k < ps.len() {
        lemma_member_update(ps, i, x, key, k + 1);
    }
}

proof fn lemma_member_update_hit(ps: Seq<(String, Json)>, i: int, x: (String, Json), k: int)
    requires
        0 <= k <= i < ps.len(),
        x.0@ == ps[i].0@,
        forall|j: int| 0 <= j < i ==> ps[j].0@ != ps[i].0@,
    ensures
        member_from(ps.update(i, x), x.0@, k) == Some(x.1),
    decreases i - k,
{
    if k < i {
        lemma_member_update_hit(ps, i, x, k + 1);
    }
}

proof fn lemma_member_push(ps: Seq<(String, Json)>, x: (String, Json), key: Seq<char>, k: int)
    requires
        key != x.0@,
        0 <= k <= ps.len(),
    ensures
        member_from(ps.push(x), key, k) == member_from(ps, key, k),
    decreases ps.len() - k,
{
    if k < ps.len() {
        lemma_member_push(ps, x, key, k + 1);
        assert(ps.push(x)[k] == ps[k]);
    } else {
        assert(ps.push(x)[k] == x);
        assert(member_from(ps.push(x), key, k + 1) is None);
    }
}

proof fn lemma_member_push_hit(ps: Seq<(String, Json)>, x: (String, Json), k: int)
    requires
        0 <= k <= ps.len(),
        member_from(ps, x.0@, k) is None,
    ensures
        member_from(ps.push(x), x.0@, k) == Some(x.1),
    decreases ps.len() - k,
{
    if k < ps.len() {
        lemma_member_push_hit(ps, x, k + 1);
        assert(ps.push(x)[k] == ps[k]);
    } else {
        assert(ps.push(x)[k] == x);
    }
}

proof fn lemma_member_absent(ps: Seq<(String, Json)>, key: Seq<char>, k: int)
    requires
        forall|i: int| 0 <= i < ps.len() ==> ps[i].0@ != key,
        0 <= k,
    ensures
        member_from(ps, key, k) is None,
    decreases ps.len() - k,
{
    if k < ps.len() {
        lemma_member_absent(ps, key, k + 1);
    }
}

/// Sets member `key`: the first member of that name takes the value, or a
/// new member is added at the end. Every other member is kept.
pub fn set_member(ps: &mut Vec<(String, Json)>, key: &str, v: Json)
    ensures
        member_from(final(ps)@, key@, 0) == Some(v),
        forall|other: Seq<char>| other != key@ ==> member_from(final(ps)@, other, 0) == member_from(old(ps)@, other, 0),
{
    let mut k: usize = 0;
    while k < ps.len()
        invariant
            k <= ps@.len(),
            *ps == *old(ps),
            forall|j: int| 0 <= j < k ==> ps@[j].0@ != key@,
        decreases ps@.len() - k,
    {
        if str_eq(ps[k].0.as_str(), key) {
            let ghost before = ps@;
            let x = (crate::text::owned(key), v);
            let ghost xv = x;
            ps.set(k, x);
            proof {
                lemma_member_update_hit(before, k as int, xv, 0);
                assert forall|other: Seq<char>| other != key@ implies member_from(ps@, other, 0) == member_from(before, other, 0) by {
                    lemma_member_update(before, k as int, xv, other, 0);
                }
            }
            return;
        }
        k = k + 1;
    }
    let ghost before = ps@;
    proof {
        lemma_member_absent(before, key@, 0);
    }
    let x = (crate::text::owned(key), v);
    let ghost xv = x;
    ps.push(x);
    proof {
        lemma_member_push_hit(before, xv, 0);
        assert forall|other: Seq<char>| other != key@ implies member_from(ps@, other, 0) == member_from(before, other, 0) by {
            lemma_member_push(before, xv, other, 0);
        }
    }
}

/// The texts of the string items among the first `n`.
pub open spec fn texts_upto(items: Seq<Json>, n: int) -> Seq<Seq<char>>
    decreases n,
{
    if n <= 0 {
        seq![]
    } else {
        match text_of(items[n - 1]) {
            Some(t) => texts_upto(items, n - 1).push(t),
            None => texts_upto(items, n - 1),
        }
    }
}

/// The texts of the string items of a list (others are skipped).
pub fn texts_of(items: &[Json]) -> (r: Vec<String>)
    ensures
        crate::text::views(r@) == texts_upto(items@, items@.len() as int),
{
    let mut out: Vec<String> = Vec::new();
    let mut i: usize = 0;
    while i < items.len()
        invariant
            i <= items@.len(),
            crate::text::views(out@) == texts_upto(items@, i as int),
        decreases items@.len() - i,
    {
        if let Some(t) = items[i].as_text() {
            let ghost before = crate::text::views(out@);
            out.push(crate::text::owned(t));
            assert(crate::text::views(out@) =~= before.push(t@));
        }
        i = i + 1;
    }
    out
}

/// A list of strings as JSON string items.
pub fn str_items(v: &[String]) -> (r: Vec<Json>)
    ensures
        r@.len() == v@.len(),
        forall|k: int| 0 <= k < v@.len() ==> text_of(#[trigger] r@[k]) == Some(v@[k]@),
{
    let mut out: Vec<Json> = Vec::new();
    let mut i: usize = 0;
    while i < v.len()
        invariant
            i <= v@.len(),
            out@.len() == i,
            forall|k: int| 0 <= k < i ==> text_of(#[trigger] out@[k]) == Some(v@[k]@),
        decreases v@.len() - i,
    {
        out.push(Json::Str(crate::text::owned(v[i].as_str())));
        i = i + 1;
    }
    out
}

} // verus!
