//! Creation Engine plugins: recognising plugin files, reading the masters a
//! plugin declares in its header, ordering plugins after their masters, and
//! rewriting `plugins.txt` so that the managed set reflects the deployed mods
//! while the user's base/DLC masters and other entries stay untouched.

use vstd::prelude::*;
use vstd::multiset::Multiset;
use crate::text::{
    lower, owned, str_eq, to_lower, trim, trim_vec, chars_of, string_of, lossy_string, utf8_lossy,
    trim_start, strip_leading, lines, joined, split_lines, join_lines, push_char, push_str, plain_line,
    strip_cr, lemma_lines_have_no_lf, lemma_lines_of_joined, lemma_lines_of_joined_lines,
};
use crate::paths::{extension_of, path_file_name, last_dot, file_name, extension, find_last_dot};

verus! {

// ---- plugin headers -------------------------------------------------------------

/// Little-endian 16-bit value at `i`.
pub open spec fn le16(b: Seq<u8>, i: int) -> nat {
    b[i] as nat + b[i + 1] as nat * 256
}

/// Little-endian 32-bit value at `i`.
pub open spec fn le32(b: Seq<u8>, i: int) -> nat {
    b[i] as nat + b[i + 1] as nat * 256 + b[i + 2] as nat * 65536 + b[i + 3] as nat * 16777216
}

/// The four bytes at `i` spell `t`.
pub open spec fn tag_at(b: Seq<u8>, i: int, t: Seq<u8>) -> bool {
    b[i] == t[0] && b[i + 1] == t[1] && b[i + 2] == t[2] && b[i + 3] == t[3]
}

/// The `MAST` field tag.
pub open spec fn tag_mast() -> Seq<u8> {
    seq![77u8, 65u8, 83u8, 84u8]
}

/// The `XXXX` field tag (a 32-bit size for the next field).
pub open spec fn tag_xxxx() -> Seq<u8> {
    seq![88u8, 88u8, 88u8, 88u8]
}

/// The `TES3` record tag (Morrowind).
pub open spec fn tag_tes3() -> Seq<u8> {
    seq![84u8, 69u8, 83u8, 51u8]
}

/// The `TES4` record tag (later games).
pub open spec fn tag_tes4() -> Seq<u8> {
    seq![84u8, 69u8, 83u8, 52u8]
}

/// Index of the first NUL byte, or the length when there is none.
pub open spec fn first_nul(d: Seq<u8>) -> nat
    decreases d.len(),
{
    if d.len() == 0 || d[0] == 0 {
        0
    } else {
        1 + first_nul(d.drop_first())
    }
}

/// A NUL-terminated string field: its trimmed text, unless empty.
pub open spec fn zstring_of(d: Seq<u8>) -> Option<Seq<char>> {
    let s = trim(utf8_lossy(d.take(first_nul(d) as int)));
    if s.len() == 0 {
        None
    } else {
        Some(s)
    }
}

/// Masters named by `MAST` subrecords in a TES4 field list (`type[4]
/// size:u16 data`); an `XXXX` field of size 4 gives the next field's size.
pub open spec fn tes4_fields(b: Seq<u8>, oversize: Option<nat>) -> Seq<Seq<char>>
    decreases b.len(),
{
    if b.len() < 6 {
        seq![]
    } else {
        let size = match oversize {
            Some(n) => n,
            None => le16(b, 4),
        };
        let data = b.skip(6);
        if data.len() < size {
            seq![]
        } else {
            let rest = data.skip(size as int);
            if tag_at(b, 0, tag_xxxx()) && size == 4 {
                tes4_fields(rest, Some(le32(data, 0)))
            } else if tag_at(b, 0, tag_mast()) {
                match zstring_of(data.take(size as int)) {
                    Some(n) => seq![n] + tes4_fields(rest, None),
                    None => tes4_fields(rest, None),
                }
            } else {
                tes4_fields(rest, None)
            }
        }
    }
}

/// Masters named by `MAST` subrecords in a TES3 field list (`type[4]
/// size:u32 data`).
pub open spec fn tes3_fields(b: Seq<u8>) -> Seq<Seq<char>>
    decreases b.len(),
{
    if b.len() < 8 {
        seq![]
    } else {
        let size = le32(b, 4);
        let data = b.skip(8);
        if data.len() < size {
            seq![]
        } else {
            let rest = data.skip(size as int);
            if tag_at(b, 0, tag_mast()) {
                match zstring_of(data.take(size as int)) {
                    Some(n) => seq![n] + tes3_fields(rest),
                    None => tes3_fields(rest),
                }
            } else {
                tes3_fields(rest)
            }
        }
    }
}

/// The buffer starts with four ASCII capitals or digits.
pub open spec fn looks_like_field_spec(b: Seq<u8>) -> bool {
    b.len() >= 4 && forall|i: int|
        0 <= i < 4 ==> (65 <= #[trigger] b[i] <= 90 || 48 <= b[i] <= 57)
}

/// The masters declared in the header of a plugin whose file starts with
/// `d`. Files shorter than a record header, with a header larger than 1 MiB,
/// or of an unknown type declare none.
pub open spec fn header_masters(d: Seq<u8>) -> Seq<Seq<char>> {
    if d.len() < 24 {
        seq![]
    } else {
        let size = le32(d, 4);
        if size > 1048576 {
            seq![]
        } else if tag_at(d, 0, tag_tes3()) {
            let end: int = if 24 + (if size >= 8 { size - 8 } else { 0 }) <= d.len() {
                24 + (if size >= 8 { size - 8 } else { 0 })
            } else {
                d.len() as int
            };
            tes3_fields(d.subrange(16, end))
        } else if tag_at(d, 0, tag_tes4()) {
            let end: int = if 24 + size <= d.len() {
                (24 + size) as int
            } else {
                d.len() as int
            };
            let body = d.subrange(20, end);
            if looks_like_field_spec(body.skip(4)) {
                tes4_fields(body.skip(4), None)
            } else if looks_like_field_spec(body) {
                tes4_fields(body, None)
            } else {
                seq![]
            }
        } else {
            seq![]
        }
    }
}

fn read_le16(b: &[u8], i: usize) -> (r: u64)
    requires
        i + 2 <= b@.len(),
    ensures
        r == le16(b@, i as int),
{
    (b[i] as u64) + (b[i + 1] as u64) * 256
}

fn read_le32(b: &[u8], i: usize) -> (r: u64)
    requires
        i + 4 <= b@.len(),
    ensures
        r == le32(b@, i as int),
{
    (b[i] as u64) + (b[i + 1] as u64) * 256 + (b[i + 2] as u64) * 65536 + (b[i + 3] as u64)
        * 16777216
}

fn is_tag(b: &[u8], t0: u8, t1: u8, t2: u8, t3: u8) -> (r: bool)
    requires
        b@.len() >= 4,
    ensures
        r == tag_at(b@, 0, seq![t0, t1, t2, t3]),
{
    b[0] == t0 && b[1] == t1 && b[2] == t2 && b[3] == t3
}

/// Null-terminated string field → trimmed `String`; `None` when empty.
fn zstring(data: &[u8]) -> (r: Option<String>)
    ensures
        match zstring_of(data@) {
            Some(s) => r matches Some(t) && t@ == s,
            None => r is None,
        },
{
    let mut end: usize = 0;
    assert(data@.skip(0) =~= data@);
    while end < data.len() && data[end] != 0
        invariant
            end <= data@.len(),
            first_nul(data@) == end + first_nul(data@.skip(end as int)),
        decreases data@.len() - end,
    {
        assert(data@.skip(end as int).drop_first() =~= data@.skip(end + 1));
        end = end + 1;
    }
    proof {
        let rest = data@.skip(end as int);
        if end < data@.len() {
            assert(rest[0] == data@[end as int]);
        }
        assert(first_nul(rest) == 0);
    }
    let text = lossy_string(&data[0..end]);
    assert(data@.subrange(0, end as int) =~= data@.take(end as int));
    let cs = chars_of(text.as_str());
    let t = trim_vec(&cs);
    if t.len() == 0 {
        None
    } else {
        Some(string_of(&t))
    }
}

/// Does the buffer start with a plausible subrecord type (4 ASCII uppercase
/// letters or digits)?
fn looks_like_field(buf: &[u8]) -> (r: bool)
    ensures
        r == looks_like_field_spec(buf@),
{
    if buf.len() < 4 {
        return false;
    }
    let mut i: usize = 0;
    while i < 4
        invariant
            buf@.len() >= 4,
            i <= 4,
            forall|j: int| 0 <= j < i ==> (65 <= #[trigger] buf@[j] <= 90 || 48 <= buf@[j] <= 57),
        decreases 4 - i,
    {
        let b = buf[i];
        if !((65 <= b && b <= 90) || (48 <= b && b <= 57)) {
            return false;
        }
        i = i + 1;
    }
    true
}

/// Walk TES4 subrecords (`type[4] size:u16 data`) collecting MAST strings.
fn parse_fields_tes4(buf: &[u8]) -> (out: Vec<String>)
    ensures
        views(out@) == tes4_fields(buf@, None),
{
    let mut out: Vec<String> = Vec::new();
    let mut pos: usize = 0;
    let mut oversize: Option<u64> = None;
    assert(buf@.skip(0) =~= buf@);
    assert(views(out@) + tes4_fields(buf@, None) =~= tes4_fields(buf@, None));
    loop
        invariant
            pos <= buf@.len(),
            tes4_fields(buf@, None) == views(out@) + tes4_fields(
                buf@.skip(pos as int),
                match oversize {
                    Some(n) => Some(n as nat),
                    None => None,
                },
            ),
        decreases buf@.len() - pos,
    {
        let ghost b = buf@.skip(pos as int);
        let ghost over = match oversize {
            Some(n) => Some(n as nat),
            None => None::<nat>,
        };
        if buf.len() - pos < 6 {
            assert(views(out@) + seq![] =~= views(out@));
            return out;
        }
        let declared = read_le16(buf, pos + 4);
        assert(le16(buf@, pos + 4) == le16(b, 4));
        let size: u64 = match oversize {
            Some(n) => n,
            None => declared,
        };
        oversize = None;
        let avail = (buf.len() - pos - 6) as u64;
        assert(b.skip(6) =~= buf@.skip(pos + 6));
        if avail < size {
            assert(views(out@) + seq![] =~= views(out@));
            return out;
        }
        let start = pos + 6;
        let stop = start + size as usize;
        assert(b.skip(6).skip(size as int) =~= buf@.skip(stop as int));
        assert(b.skip(6).take(size as int) =~= buf@.subrange(start as int, stop as int));
        let tag = &buf[pos..pos + 4];
        assert(tag@ =~= buf@.subrange(pos as int, pos + 4));
        if is_tag(tag, 88, 88, 88, 88) && size == 4 {
            assert(tag_at(b, 0, tag_xxxx()));
            let next = read_le32(buf, start);
            assert(le32(buf@, start as int) == le32(b.skip(6), 0));
            oversize = Some(next);
        } else if is_tag(tag, 77, 65, 83, 84) {
            assert(tag_at(b, 0, tag_mast()));
            match zstring(&buf[start..stop]) {
                Some(name) => {
                    let ghost before = out@;
                    out.push(name);
                    assert(views(out@) =~= views(before).push(name@));
                    assert(views(out@) + tes4_fields(buf@.skip(stop as int), None) =~= views(
                        before,
                    ) + (seq![name@] + tes4_fields(buf@.skip(stop as int), None)));
                },
                None => {},
            }
        } else {
            assert(!tag_at(b, 0, tag_xxxx()) || size != 4);
            assert(!tag_at(b, 0, tag_mast()));
        }
        pos = stop;
    }
}

/// Walk TES3 subrecords (`type[4] size:u32 data`) collecting MAST strings.
fn parse_fields_tes3(buf: &[u8]) -> (out: Vec<String>)
    ensures
        views(out@) == tes3_fields(buf@),
{
    let mut out: Vec<String> = Vec::new();
    let mut pos: usize = 0;
    assert(buf@.skip(0) =~= buf@);
    assert(views(out@) + tes3_fields(buf@) =~= tes3_fields(buf@));
    loop
        invariant
            pos <= buf@.len(),
            tes3_fields(buf@) == views(out@) + tes3_fields(buf@.skip(pos as int)),
        decreases buf@.len() - pos,
    {
        let ghost b = buf@.skip(pos as int);
        if buf.len() - pos < 8 {
            assert(views(out@) + seq![] =~= views(out@));
            return out;
        }
        let size = read_le32(buf, pos + 4);
        assert(le32(buf@, pos + 4) == le32(b, 4));
        let avail = (buf.len() - pos - 8) as u64;
        assert(b.skip(8) =~= buf@.skip(pos + 8));
        if avail < size {
            assert(views(out@) + seq![] =~= views(out@));
            return out;
        }
        let start = pos + 8;
        let stop = start + size as usize;
        assert(b.skip(8).skip(size as int) =~= buf@.skip(stop as int));
        assert(b.skip(8).take(size as int) =~= buf@.subrange(start as int, stop as int));
        let tag = &buf[pos..pos + 4];
        assert(tag@ =~= buf@.subrange(pos as int, pos + 4));
        if is_tag(tag, 77, 65, 83, 84) {
            assert(tag_at(b, 0, tag_mast()));
            match zstring(&buf[start..stop]) {
                Some(name) => {
                    let ghost before = out@;
                    out.push(name);
                    assert(views(out@) =~= views(before).push(name@));
                    assert(views(out@) + tes3_fields(buf@.skip(stop as int)) =~= views(before) + (
                    seq![name@] + tes3_fields(buf@.skip(stop as int))));
                },
                None => {},
            }
        } else {
            assert(!tag_at(b, 0, tag_mast()));
        }
        pos = stop;
    }
}

/// Master (dependency) filenames declared in a plugin's file header, in
/// declaration order, given the plugin file's leading bytes (at least its
/// header record). Returns empty on unrecognized data.
///
/// Supports the modern Creation Engine `TES4` header (Skyrim-era 24-byte and
/// Oblivion-era 20-byte record headers) and Morrowind's `TES3` header.
pub fn masters_of(data: &[u8]) -> (r: Vec<String>)
    ensures
        views(r@) == header_masters(data@),
{
    if data.len() < 24 {
        return Vec::new();
    }
    let size = read_le32(data, 4);
    if size > 1048576 {
        return Vec::new();
    }
    let hdr = &data[0..4];
    assert(hdr@ =~= data@.subrange(0, 4));
    if is_tag(hdr, 84, 69, 83, 51) {
        assert(tag_at(data@, 0, tag_tes3()));
        let want: u64 = 24 + if size >= 8 { size - 8 } else { 0 };
        let end: usize = if want <= data.len() as u64 { want as usize } else { data.len() };
        parse_fields_tes3(&data[16..end])
    } else if is_tag(hdr, 84, 69, 83, 52) {
        assert(tag_at(data@, 0, tag_tes4()));
        assert(!tag_at(data@, 0, tag_tes3()));
        let want: u64 = 24 + size;
        let end: usize = if want <= data.len() as u64 { want as usize } else { data.len() };
        let body = &data[20..end];
        let modern = &body[4..body.len()];
        assert(modern@ =~= body@.skip(4));
        if looks_like_field(modern) {
            parse_fields_tes4(modern)
        } else if looks_like_field(body) {
            parse_fields_tes4(body)
        } else {
            Vec::new()
        }
    } else {
        assert(!tag_at(data@, 0, tag_tes3()) && !tag_at(data@, 0, tag_tes4()));
        Vec::new()
    }
}

// ---- plugin files and their order -------------------------------------------------

/// The views of a list of strings.
pub open spec fn views(v: Seq<String>) -> Seq<Seq<char>> {
    v.map_values(|s: String| s@)
}

/// The views of a master table.
pub open spec fn table_view(t: Seq<(String, Vec<String>)>) -> Seq<(Seq<char>, Seq<Seq<char>>)> {
    t.map_values(|p: (String, Vec<String>)| (p.0@, views(p.1@)))
}

/// The masters recorded for `key`: the first entry with that key.
pub open spec fn lookup(t: Seq<(Seq<char>, Seq<Seq<char>>)>, key: Seq<char>) -> Option<
    Seq<Seq<char>>,
>
    decreases t.len(),
{
    if t.len() == 0 {
        None
    } else if t[0].0 == key {
        Some(t[0].1)
    } else {
        lookup(t.drop_first(), key)
    }
}

/// A plugin named `x` (lowercase) may be emitted once every master it
/// declares that is itself in the list (`names`) has been emitted.
pub open spec fn ready(
    names: Seq<Seq<char>>,
    t: Seq<(Seq<char>, Seq<Seq<char>>)>,
    emitted: Set<Seq<char>>,
    x: Seq<char>,
) -> bool {
    match lookup(t, x) {
        None => true,
        Some(ms) => masters_emitted(names, emitted, ms),
    }
}

/// Every master in `ms` that is in the list has been emitted.
pub open spec fn masters_emitted(
    names: Seq<Seq<char>>,
    emitted: Set<Seq<char>>,
    ms: Seq<Seq<char>>,
) -> bool {
    forall|k: int| 0 <= k < ms.len() ==> !names.contains(ms[k]) || emitted.contains(ms[k])
}

/// Position in `rem` of the first plugin that is ready.
pub open spec fn find_ready(
    names: Seq<Seq<char>>,
    t: Seq<(Seq<char>, Seq<Seq<char>>)>,
    emitted: Set<Seq<char>>,
    rem: Seq<int>,
) -> Option<int>
    decreases rem.len(),
{
    if rem.len() == 0 {
        None
    } else if ready(names, t, emitted, names[rem[0]]) {
        Some(0)
    } else {
        match find_ready(names, t, emitted, rem.drop_first()) {
            Some(p) => Some(p + 1),
            None => None,
        }
    }
}

/// The position picked next: the first ready plugin, or the first remaining
/// one when none is ready (a cycle).
pub open spec fn pick(
    names: Seq<Seq<char>>,
    t: Seq<(Seq<char>, Seq<Seq<char>>)>,
    emitted: Set<Seq<char>>,
    rem: Seq<int>,
) -> int {
    match find_ready(names, t, emitted, rem) {
        Some(p) => p,
        None => 0,
    }
}

/// Indices of `names` in emission order, starting from the remaining
/// indices `rem` and the set of names already emitted.
pub open spec fn topo(
    names: Seq<Seq<char>>,
    t: Seq<(Seq<char>, Seq<Seq<char>>)>,
    rem: Seq<int>,
    emitted: Set<Seq<char>>,
) -> Seq<int>
    decreases rem.len(),
{
    if rem.len() == 0 {
        seq![]
    } else {
        let p = pick(names, t, emitted, rem);
        proof {
            lemma_pick(names, t, emitted, rem);
        }
        seq![rem[p]] + topo(names, t, rem.remove(p), emitted.insert(names[rem[p]]))
    }
}

/// `0, 1, ..., n - 1`.
pub open spec fn upto(n: nat) -> Seq<int> {
    Seq::new(n, |i: int| i)
}

/// The order in which `sort_by_masters` emits the plugins, as indices into
/// `order`: the greedy stable topological order of the lowercased names.
pub open spec fn master_order(order: Seq<Seq<char>>, t: Seq<(Seq<char>, Seq<Seq<char>>)>) -> Seq<
    int,
> {
    let names = order.map_values(|s: Seq<char>| lower(s));
    topo(names, t, upto(order.len()), Set::empty())
}

pub proof fn lemma_find_ready(
    names: Seq<Seq<char>>,
    t: Seq<(Seq<char>, Seq<Seq<char>>)>,
    emitted: Set<Seq<char>>,
    rem: Seq<int>,
)
    ensures
        find_ready(names, t, emitted, rem) matches Some(p) ==> 0 <= p < rem.len() && ready(
            names,
            t,
            emitted,
            names[rem[p]],
        ) && forall|q: int| 0 <= q < p ==> !ready(names, t, emitted, #[trigger] names[rem[q]]),
        find_ready(names, t, emitted, rem) is None ==> forall|q: int|
            0 <= q < rem.len() ==> !ready(names, t, emitted, #[trigger] names[rem[q]]),
    decreases rem.len(),
{
    if rem.len() > 0 && !ready(names, t, emitted, names[rem[0]]) {
        lemma_find_ready(names, t, emitted, rem.drop_first());
        assert forall|q: int| 1 <= q < rem.len() implies #[trigger] names[rem[q]] == names[
            rem.drop_first()[q - 1]
        ] by {}
    }
}

pub proof fn lemma_pick(
    names: Seq<Seq<char>>,
    t: Seq<(Seq<char>, Seq<Seq<char>>)>,
    emitted: Set<Seq<char>>,
    rem: Seq<int>,
)
    requires
        rem.len() > 0,
    ensures
        0 <= pick(names, t, emitted, rem) < rem.len(),
{
    lemma_find_ready(names, t, emitted, rem);
}

/// Every index of `rem` is emitted exactly once, and nothing else is.
proof fn lemma_topo_perm(
    names: Seq<Seq<char>>,
    t: Seq<(Seq<char>, Seq<Seq<char>>)>,
    rem: Seq<int>,
    emitted: Set<Seq<char>>,
)
    ensures
        topo(names, t, rem, emitted).to_multiset() == rem.to_multiset(),
        topo(names, t, rem, emitted).len() == rem.len(),
    decreases rem.len(),
{
    broadcast use vstd::seq_lib::group_to_multiset_ensures;
    broadcast use vstd::multiset::group_multiset_axioms;

    if rem.len() > 0 {
        let p = pick(names, t, emitted, rem);
        lemma_pick(names, t, emitted, rem);
        let rest = rem.remove(p);
        lemma_topo_perm(names, t, rest, emitted.insert(names[rem[p]]));
        vstd::seq_lib::to_multiset_remove(rem, p);
        let tp = topo(names, t, rest, emitted.insert(names[rem[p]]));
        assert(topo(names, t, rem, emitted) == seq![rem[p]] + tp);
        vstd::seq_lib::lemma_multiset_commutative(seq![rem[p]], tp);
        assert(seq![rem[p]].to_multiset() =~= Multiset::empty().insert(rem[p])) by {
            assert(seq![rem[p]] == Seq::<int>::empty().push(rem[p]));
        }
        assert(rem.contains(rem[p]));
        assert(rem.to_multiset().count(rem[p]) > 0);
        assert(rem.to_multiset() =~= rem.to_multiset().remove(rem[p]).insert(rem[p]));
    }
}

/// When nothing ever blocks, emission keeps the given order.
proof fn lemma_topo_identity(
    names: Seq<Seq<char>>,
    t: Seq<(Seq<char>, Seq<Seq<char>>)>,
    rem: Seq<int>,
    emitted: Set<Seq<char>>,
)
    requires
        forall|e: Set<Seq<char>>, x: Seq<char>| #[trigger] ready(names, t, e, x),
    ensures
        topo(names, t, rem, emitted) == rem,
    decreases rem.len(),
{
    if rem.len() > 0 {
        assert(ready(names, t, emitted, names[rem[0]]));
        assert(pick(names, t, emitted, rem) == 0);
        lemma_topo_identity(names, t, rem.remove(0), emitted.insert(names[rem[0]]));
        assert(seq![rem[0]] + rem.remove(0) =~= rem);
    }
}

/// Membership of `x` among the views of `v`.
pub fn contains_str(v: &[String], x: &str) -> (r: bool)
    ensures
        r == views(v@).contains(x@),
{
    let mut i: usize = 0;
    while i < v.len()
        invariant
            i <= v@.len(),
            forall|j: int| 0 <= j < i ==> v@[j]@ != x@,
        decreases v@.len() - i,
    {
        if str_eq(v[i].as_str(), x) {
            assert(views(v@)[i as int] == x@);
            return true;
        }
        i = i + 1;
    }
    assert forall|j: int| 0 <= j < views(v@).len() implies views(v@)[j] != x@ by {}
    false
}

fn lookup_masters<'a>(t: &'a [(String, Vec<String>)], key: &str) -> (r: Option<&'a Vec<String>>)
    ensures
        match lookup(table_view(t@), key@) {
            Some(ms) => r matches Some(v) && views(v@) == ms,
            None => r is None,
        },
{
    let ghost tv = table_view(t@);
    assert(tv.skip(0) =~= tv);
    let mut i: usize = 0;
    while i < t.len()
        invariant
            i <= t@.len(),
            tv == table_view(t@),
            lookup(tv, key@) == lookup(tv.skip(i as int), key@),
        decreases t@.len() - i,
    {
        assert(tv.skip(i as int).drop_first() =~= tv.skip(i + 1));
        assert(tv.skip(i as int)[0] == tv[i as int]);
        if str_eq(t[i].0.as_str(), key) {
            return Some(&t[i].1);
        }
        i = i + 1;
    }
    None
}

fn is_ready(
    lowered: &[String],
    t: &[(String, Vec<String>)],
    emitted: &[String],
    x: &str,
) -> (r: bool)
    ensures
        r == ready(views(lowered@), table_view(t@), views(emitted@).to_set(), x@),
{
    match lookup_masters(t, x) {
        None => true,
        Some(ms) => {
            let mut k: usize = 0;
            while k < ms.len()
                invariant
                    k <= ms@.len(),
                    lookup(table_view(t@), x@) == Some(views(ms@)),
                    forall|j: int|
                        0 <= j < k ==> !views(lowered@).contains(views(ms@)[j]) || views(
                            emitted@,
                        ).to_set().contains(views(ms@)[j]),
                decreases ms@.len() - k,
            {
                let m = ms[k].as_str();
                if contains_str(lowered, m) && !contains_str(emitted, m) {
                    assert(views(ms@)[k as int] == m@);
                    assert(views(lowered@).contains(views(ms@)[k as int]) && !views(
                        emitted@,
                    ).to_set().contains(views(ms@)[k as int]));
                    assert(lookup(table_view(t@), x@) == Some(views(ms@)));
                    let ghost msv = views(ms@);
                    assert(0 <= k < msv.len());
                    assert(!(!views(lowered@).contains(msv[k as int]) || views(emitted@).to_set().contains(msv[k as int])));
                    assert(!masters_emitted(views(lowered@), views(emitted@).to_set(), msv));
                    assert(!ready(views(lowered@), table_view(t@), views(emitted@).to_set(), x@));
                    return false;
                }
                k = k + 1;
            }
            true
        },
    }
}

/// Stable topological sort: every plugin loads after its declared masters
/// (when both are in the list); relative order is otherwise preserved.
/// `masters` maps lowercase plugin filename to lowercase master filenames
/// (the first entry for a name counts). Cycles (malformed data) are broken at
/// the earliest remaining entry.
pub fn sort_by_masters(order: &[String], masters: &[(String, Vec<String>)]) -> (out: Vec<String>)
    ensures
        out@ == master_order(views(order@), table_view(masters@)).map_values(|i: int| order@[i]),
{
    let ghost ov = views(order@);
    let ghost tv = table_view(masters@);
    let ghost names = ov.map_values(|s: Seq<char>| lower(s));
    let mut lowered: Vec<String> = Vec::new();
    let mut i: usize = 0;
    while i < order.len()
        invariant
            i <= order@.len(),
            ov == views(order@),
            names == ov.map_values(|s: Seq<char>| lower(s)),
            views(lowered@) == names.take(i as int),
        decreases order@.len() - i,
    {
        let l = to_lower(order[i].as_str());
        let ghost before = lowered@;
        lowered.push(l);
        assert(views(lowered@) =~= views(before).push(l@));
        assert(names.take(i + 1) =~= names.take(i as int).push(names[i as int]));
        i = i + 1;
    }
    assert(names.take(order@.len() as int) =~= names);
    let mut remaining: Vec<usize> = Vec::new();
    let mut k: usize = 0;
    while k < order.len()
        invariant
            k <= order@.len(),
            remaining@.map_values(|j: usize| j as int) == upto(k as nat),
        decreases order@.len() - k,
    {
        let ghost before = remaining@;
        remaining.push(k);
        assert(remaining@ == before.push(k));
        assert(remaining@.map_values(|j: usize| j as int) =~= before.map_values(
            |j: usize| j as int,
        ).push(k as int));
        assert(remaining@.map_values(|j: usize| j as int) =~= upto((k + 1) as nat));
        k = k + 1;
    }
    let ghost all = upto(order@.len());
    let mut emitted: Vec<String> = Vec::new();
    let mut out: Vec<String> = Vec::new();
    let ghost mut done: Seq<int> = seq![];
    proof {
        assert(remaining@.map_values(|j: usize| j as int) == all);
        assert forall|j: int| 0 <= j < remaining@.len() implies remaining@[j] < order@.len() by {
            assert(remaining@.map_values(|j: usize| j as int)[j] == j);
        }
        assert(views(emitted@).to_set() =~= Set::<Seq<char>>::empty());
        assert(done + topo(names, tv, all, Set::empty()) =~= topo(names, tv, all, Set::empty()));
        assert(out@ =~= done.map_values(|j: int| order@[j]));
    }
    while remaining.len() > 0
        invariant
            views(lowered@) == names,
            names.len() == order@.len(),
            ov == views(order@),
            names == ov.map_values(|s: Seq<char>| lower(s)),
            tv == table_view(masters@),
            forall|j: int|
                0 <= j < remaining@.len() ==> remaining@[j] < order@.len(),
            topo(names, tv, all, Set::empty()) == done + topo(
                names,
                tv,
                remaining@.map_values(|j: usize| j as int),
                views(emitted@).to_set(),
            ),
            out@ == done.map_values(|j: int| order@[j]),
        decreases remaining@.len(),
    {
        let ghost rem = remaining@.map_values(|j: usize| j as int);
        let ghost eset = views(emitted@).to_set();
        // Find the first ready entry.
        let mut p: usize = 0;
        let mut found = false;
        assert(rem.skip(0) =~= rem);
        while p < remaining.len()
            invariant_except_break
                !found,
            invariant
                views(lowered@) == names,
                rem == remaining@.map_values(|j: usize| j as int),
                eset == views(emitted@).to_set(),
                forall|j: int|
                    0 <= j < remaining@.len() ==> remaining@[j] < lowered@.len(),
                p <= remaining@.len(),
                find_ready(names, tv, eset, rem) == (match find_ready(
                    names,
                    tv,
                    eset,
                    rem.skip(p as int),
                ) {
                    Some(q) => Some(q + p),
                    None => None,
                }),
                tv == table_view(masters@),
            ensures
                found ==> p < remaining@.len() && ready(names, tv, eset, names[rem[p as int]]),
                !found ==> p == remaining@.len(),
                p <= remaining@.len(),
                find_ready(names, tv, eset, rem) == (match find_ready(
                    names,
                    tv,
                    eset,
                    rem.skip(p as int),
                ) {
                    Some(q) => Some(q + p),
                    None => None,
                }),
            decreases remaining@.len() - p,
        {
            let idx = remaining[p];
            assert(rem.skip(p as int).drop_first() =~= rem.skip(p + 1));
            assert(rem.skip(p as int)[0] == idx as int);
            if is_ready(lowered.as_slice(), masters, emitted.as_slice(), lowered[idx].as_str()) {
                found = true;
                break;
            }
            p = p + 1;
        }
        if !found {
            p = 0;
        }
        proof {
            if found {
                assert(rem.skip(p as int)[0] == rem[p as int]);
                assert(find_ready(names, tv, eset, rem.skip(p as int)) == Some(0int));
                assert(find_ready(names, tv, eset, rem) == Some(p as int));
            } else {
                assert(rem.skip(remaining@.len() as int).len() == 0);
            }
            assert(pick(names, tv, eset, rem) == p as int);
        }
        let idx = remaining.remove(p);
        let name = to_lower(order[idx].as_str());
        proof {
            assert(remaining@.map_values(|j: usize| j as int) =~= rem.remove(p as int));
            assert(topo(names, tv, rem, eset) == seq![idx as int] + topo(
                names,
                tv,
                rem.remove(p as int),
                eset.insert(names[idx as int]),
            ));
            assert(done + (seq![idx as int] + topo(
                names,
                tv,
                rem.remove(p as int),
                eset.insert(names[idx as int]),
            )) =~= done.push(idx as int) + topo(
                names,
                tv,
                rem.remove(p as int),
                eset.insert(names[idx as int]),
            ));
        }
        let ghost before = emitted@;
        emitted.push(name);
        proof {
            assert(views(emitted@) =~= views(before).push(names[idx as int]));
            vstd::seq_lib::seq_to_set_distributes_over_add(views(before), seq![names[idx as int]]);
            assert(views(before).push(names[idx as int]) =~= views(before) + seq![names[idx as int]]);
            assert(seq![names[idx as int]].to_set() =~= Set::empty().insert(names[idx as int])) by {
                assert(seq![names[idx as int]][0] == names[idx as int]);
            }
            assert(views(emitted@).to_set() =~= eset.insert(names[idx as int]));
        }
        out.push(order[idx].clone());
        proof {
            done = done.push(idx as int);
            assert(out@ =~= done.map_values(|j: int| order@[j]));
        }
    }
    proof {
        assert(remaining@.map_values(|j: usize| j as int) =~= Seq::<int>::empty());
        assert(done + seq![] =~= done);
    }
    out
}

/// `sort_by_masters` keeps every plugin exactly once: it emits a
/// permutation of the positions of `order`.
pub proof fn sort_keeps_every_plugin(
    order: Seq<Seq<char>>,
    t: Seq<(Seq<char>, Seq<Seq<char>>)>,
)
    ensures
        master_order(order, t).len() == order.len(),
        master_order(order, t).to_multiset() == upto(order.len()).to_multiset(),
{
    let names = order.map_values(|s: Seq<char>| lower(s));
    lemma_topo_perm(names, t, upto(order.len()), Set::empty());
}

/// Without masters that are themselves in the list, `sort_by_masters`
/// leaves the order untouched.
pub proof fn sort_without_deps_is_identity(
    order: Seq<Seq<char>>,
    t: Seq<(Seq<char>, Seq<Seq<char>>)>,
)
    requires
        forall|x: Seq<char>|
            #[trigger] lookup(t, x) matches Some(ms) ==> forall|k: int|
                0 <= k < ms.len() ==> !order.map_values(|s: Seq<char>| lower(s)).contains(ms[k]),
    ensures
        master_order(order, t) == upto(order.len()),
{
    let names = order.map_values(|s: Seq<char>| lower(s));
    assert forall|e: Set<Seq<char>>, x: Seq<char>| #[trigger] ready(names, t, e, x) by {
        if let Some(ms) = lookup(t, x) {
        }
    }
    lemma_topo_identity(names, t, upto(order.len()), Set::empty());
}

/// The in-list master relation is acyclic, witnessed by a rank that is
/// strictly smaller for every in-list master than for its dependent.
pub open spec fn ranked(
    names: Seq<Seq<char>>,
    t: Seq<(Seq<char>, Seq<Seq<char>>)>,
    rank: spec_fn(Seq<char>) -> nat,
) -> bool {
    forall|i: int, k: int|
        #![trigger names[i], lookup(t, names[i])->0[k]]
        0 <= i < names.len() && lookup(t, names[i]) is Some && 0 <= k < lookup(
            t,
            names[i],
        )->0.len() && names.contains(lookup(t, names[i])->0[k]) ==> rank(
            lookup(t, names[i])->0[k],
        ) < rank(names[i])
}

/// Every name not yet emitted still has an index among `rem`.
#[verifier::opaque]
pub open spec fn covered(names: Seq<Seq<char>>, rem: Seq<int>, emitted: Set<Seq<char>>) -> bool {
    forall|i: int|
        0 <= i < names.len() && !emitted.contains(#[trigger] names[i]) ==> exists|q: int|
            0 <= q < rem.len() && names[rem[q]] == names[i]
}

/// Every remaining index points into the list.
#[verifier::opaque]
pub open spec fn valid_indices(names: Seq<Seq<char>>, rem: Seq<int>) -> bool {
    forall|q: int| 0 <= q < rem.len() ==> 0 <= #[trigger] rem[q] < names.len()
}

/// `q` is the position of a remaining plugin of least rank.
pub open spec fn min_at(
    names: Seq<Seq<char>>,
    rem: Seq<int>,
    rank: spec_fn(Seq<char>) -> nat,
    q: int,
) -> bool {
    0 <= q < rem.len() && forall|q2: int|
        0 <= q2 < rem.len() ==> rank(names[rem[q]]) <= rank(#[trigger] names[rem[q2]])
}

proof fn lemma_min_rank(names: Seq<Seq<char>>, rem: Seq<int>, rank: spec_fn(Seq<char>) -> nat)
    requires
        rem.len() > 0,
    ensures
        exists|q: int| #[trigger] min_at(names, rem, rank, q),
    decreases rem.len(),
{
    if rem.len() > 1 {
        let tail = rem.drop_first();
        lemma_min_rank(names, tail, rank);
        let q = choose|q: int| #[trigger] min_at(names, tail, rank, q);
        if rank(names[rem[0]]) <= rank(names[tail[q]]) {
            assert forall|q2: int| 0 <= q2 < rem.len() implies rank(names[rem[0]]) <= rank(
                #[trigger] names[rem[q2]],
            ) by {
                if q2 > 0 {
                    assert(names[rem[q2]] == names[tail[q2 - 1]]);
                }
            }
            assert(min_at(names, rem, rank, 0));
        } else {
            assert forall|q2: int| 0 <= q2 < rem.len() implies rank(names[rem[q + 1]]) <= rank(
                #[trigger] names[rem[q2]],
            ) by {
                if q2 > 0 {
                    assert(names[rem[q2]] == names[tail[q2 - 1]]);
                } else {
                    assert(names[rem[q + 1]] == names[tail[q]]);
                }
            }
            assert(min_at(names, rem, rank, q + 1));
        }
    } else {
        assert forall|q2: int| 0 <= q2 < rem.len() implies rank(names[rem[0]]) <= rank(
            #[trigger] names[rem[q2]],
        ) by {}
        assert(min_at(names, rem, rank, 0));
    }
}

/// In an acyclic list something remaining is always ready.
proof fn lemma_something_ready(
    names: Seq<Seq<char>>,
    t: Seq<(Seq<char>, Seq<Seq<char>>)>,
    rem: Seq<int>,
    emitted: Set<Seq<char>>,
    rank: spec_fn(Seq<char>) -> nat,
)
    requires
        rem.len() > 0,
        ranked(names, t, rank),
        covered(names, rem, emitted),
        valid_indices(names, rem),
    ensures
        find_ready(names, t, emitted, rem) is Some,
{
    reveal(covered);
    reveal(valid_indices);
    lemma_min_rank(names, rem, rank);
    let q = choose|q: int| #[trigger] min_at(names, rem, rank, q);
    lemma_find_ready(names, t, emitted, rem);
    let x = names[rem[q]];
    if !ready(names, t, emitted, x) {
        let ms = lookup(t, x)->0;
        let k = choose|k: int|
            0 <= k < ms.len() && !(!names.contains(ms[k]) || emitted.contains(ms[k]));
        let j = choose|j: int| 0 <= j < names.len() && names[j] == ms[k];
        assert(!emitted.contains(names[j]));
        let q2 = choose|q2: int| 0 <= q2 < rem.len() && names[rem[q2]] == names[j];
        assert(rank(names[rem[q]]) <= rank(names[rem[q2]]));
        assert(names[rem[q]] == names[rem[q]]);
        assert(lookup(t, names[rem[q]])->0[k] == ms[k]);
        assert(rank(ms[k]) < rank(names[rem[q]]));
    }
}

/// `m` was emitted before position `a` of `out` (or before `out` began).
pub open spec fn seen_before(
    names: Seq<Seq<char>>,
    out: Seq<int>,
    emitted: Set<Seq<char>>,
    a: int,
    m: Seq<char>,
) -> bool {
    emitted.contains(m) || exists|b: int| 0 <= b < a && #[trigger] names[out[b]] == m
}

/// The in-list masters of the plugin at position `a` were emitted earlier.
pub open spec fn placed_after_masters(
    names: Seq<Seq<char>>,
    t: Seq<(Seq<char>, Seq<Seq<char>>)>,
    out: Seq<int>,
    emitted: Set<Seq<char>>,
    a: int,
) -> bool {
    lookup(t, names[out[a]]) matches Some(ms) ==> forall|k: int|
        0 <= k < ms.len() && names.contains(ms[k]) ==> seen_before(
            names,
            out,
            emitted,
            a,
            #[trigger] ms[k],
        )
}

proof fn lemma_shift_placed(
    names: Seq<Seq<char>>,
    t: Seq<(Seq<char>, Seq<Seq<char>>)>,
    first: int,
    tail: Seq<int>,
    emitted: Set<Seq<char>>,
    a: int,
)
    requires
        1 <= a < tail.len() + 1,
        placed_after_masters(names, t, tail, emitted.insert(names[first]), a - 1),
    ensures
        placed_after_masters(names, t, seq![first] + tail, emitted, a),
{
    let out = seq![first] + tail;
    let e2 = emitted.insert(names[first]);
    assert(out[a] == tail[a - 1]);
    if let Some(ms) = lookup(t, names[out[a]]) {
        assert forall|k: int| 0 <= k < ms.len() && names.contains(ms[k]) implies seen_before(
            names,
            out,
            emitted,
            a,
            #[trigger] ms[k],
        ) by {
            let m = ms[k];
            assert(seen_before(names, tail, e2, a - 1, m));
            if !emitted.contains(m) {
                if m == names[first] {
                    assert(names[out[0]] == m);
                } else {
                    let b = choose|b: int| 0 <= b < a - 1 && #[trigger] names[tail[b]] == m;
                    assert(out[b + 1] == tail[b]);
                    assert(names[out[b + 1]] == m);
                }
            }
        }
    }
}

proof fn lemma_covered_step(names: Seq<Seq<char>>, rem: Seq<int>, emitted: Set<Seq<char>>, p: int)
    requires
        0 <= p < rem.len(),
        covered(names, rem, emitted),
        valid_indices(names, rem),
    ensures
        covered(names, rem.remove(p), emitted.insert(names[rem[p]])),
        valid_indices(names, rem.remove(p)),
{
    reveal(covered);
    reveal(valid_indices);
    let rest = rem.remove(p);
    let e2 = emitted.insert(names[rem[p]]);
    assert forall|i: int|
        0 <= i < names.len() && !e2.contains(#[trigger] names[i]) implies exists|q: int|
        0 <= q < rest.len() && names[rest[q]] == names[i] by {
        let q = choose|q: int| 0 <= q < rem.len() && names[rem[q]] == names[i];
        if q < p {
            assert(rest[q] == rem[q]);
        } else {
            assert(q != p);
            assert(rest[q - 1] == rem[q]);
        }
    }
    assert forall|q: int| 0 <= q < rest.len() implies 0 <= #[trigger] rest[q] < names.len() by {
        if q < p {
            assert(rest[q] == rem[q]);
        } else {
            assert(rest[q] == rem[q + 1]);
        }
    }
}

/// Each emitted plugin's in-list masters are emitted before it (or were
/// already emitted).
#[verifier::rlimit(40)]
proof fn lemma_topo_masters_first(
    names: Seq<Seq<char>>,
    t: Seq<(Seq<char>, Seq<Seq<char>>)>,
    rem: Seq<int>,
    emitted: Set<Seq<char>>,
    rank: spec_fn(Seq<char>) -> nat,
)
    requires
        ranked(names, t, rank),
        covered(names, rem, emitted),
        valid_indices(names, rem),
    ensures
        forall|a: int|
            0 <= a < topo(names, t, rem, emitted).len() ==> #[trigger] placed_after_masters(
                names,
                t,
                topo(names, t, rem, emitted),
                emitted,
                a,
            ),
    decreases rem.len(),
{
    if rem.len() > 0 {
        lemma_something_ready(names, t, rem, emitted, rank);
        lemma_find_ready(names, t, emitted, rem);
        let p = pick(names, t, emitted, rem);
        let x = names[rem[p]];
        let rest = rem.remove(p);
        let e2 = emitted.insert(x);
        lemma_covered_step(names, rem, emitted, p);
        lemma_topo_masters_first(names, t, rest, e2, rank);
        let tail = topo(names, t, rest, e2);
        let out = topo(names, t, rem, emitted);
        assert(out == seq![rem[p]] + tail);
        lemma_topo_perm(names, t, rest, e2);
        assert forall|a: int| 0 <= a < out.len() implies #[trigger] placed_after_masters(
            names,
            t,
            out,
            emitted,
            a,
        ) by {
            if a == 0 {
                assert(out[0] == rem[p]);
                assert(ready(names, t, emitted, x));
                if let Some(ms) = lookup(t, x) {
                    assert(masters_emitted(names, emitted, ms));
                }
            } else {
                assert(placed_after_masters(names, t, tail, e2, a - 1));
                lemma_shift_placed(names, t, rem[p], tail, emitted, a);
            }
        }
    }
}

/// Masters first: when the in-list master relation is acyclic, every plugin
/// that `sort_by_masters` emits comes after each of its declared masters that
/// is in the list.
pub proof fn sort_puts_masters_first(
    order: Seq<Seq<char>>,
    t: Seq<(Seq<char>, Seq<Seq<char>>)>,
    rank: spec_fn(Seq<char>) -> nat,
    a: int,
    k: int,
)
    requires
        ranked(order.map_values(|s: Seq<char>| lower(s)), t, rank),
        0 <= a < master_order(order, t).len(),
        lookup(t, lower(order[master_order(order, t)[a]])) is Some,
        0 <= k < lookup(t, lower(order[master_order(order, t)[a]]))->0.len(),
        order.map_values(|s: Seq<char>| lower(s)).contains(
            lookup(t, lower(order[master_order(order, t)[a]]))->0[k],
        ),
    ensures
        exists|b: int|
            0 <= b < a && lower(order[master_order(order, t)[b]]) == lookup(
                t,
                lower(order[master_order(order, t)[a]]),
            )->0[k],
{
    let names = order.map_values(|s: Seq<char>| lower(s));
    let all = upto(order.len());
    assert(covered(names, all, Set::empty())) by {
        reveal(covered);
        assert forall|i: int| 0 <= i < names.len() && !Set::<Seq<char>>::empty().contains(
            #[trigger] names[i],
        ) implies exists|q: int| 0 <= q < all.len() && names[all[q]] == names[i] by {
            assert(all[i] == i);
        }
    }
    assert(valid_indices(names, all)) by {
        reveal(valid_indices);
    }
    lemma_topo_masters_first(names, t, all, Set::empty(), rank);
    lemma_topo_perm(names, t, all, Set::empty());
    let out = master_order(order, t);
    assert(out.to_multiset().count(out[a]) > 0) by {
        vstd::seq_lib::to_multiset_contains(out, out[a]);
        assert(out.contains(out[a]));
    }
    vstd::seq_lib::to_multiset_contains(all, out[a]);
    assert(0 <= out[a] < order.len());
    assert(names[out[a]] == lower(order[out[a]]));
    let ms = lookup(t, names[out[a]])->0;
    let m = ms[k];
    assert(placed_after_masters(names, t, out, Set::empty(), a));
    assert(seen_before(names, out, Set::empty(), a, ms[k]));
    let b = choose|b: int| 0 <= b < a && #[trigger] names[out[b]] == m;
    assert(out.to_multiset().count(out[b]) > 0) by {
        vstd::seq_lib::to_multiset_contains(out, out[b]);
        assert(out.contains(out[b]));
    }
    vstd::seq_lib::to_multiset_contains(all, out[b]);
    assert(names[out[b]] == lower(order[out[b]]));
}

// ---- recognising plugin files ---------------------------------------------------

/// The lowercased extension of a path's file name is `esp`, `esm` or `esl`.
pub open spec fn is_plugin_path(p: Seq<char>) -> bool {
    match path_file_name(p) {
        Some(name) => match extension_of(name) {
            Some(e) => lower(e) == "esp"@ || lower(e) == "esm"@ || lower(e) == "esl"@,
            None => false,
        },
        None => false,
    }
}

/// Is this a Creation Engine plugin file?
pub fn is_plugin(path: &str) -> (r: bool)
    ensures
        r == is_plugin_path(path@),
{
    match file_name(path) {
        Some(name) => match extension(name.as_str()) {
            Some(e) => {
                let l = to_lower(e.as_str());
                str_eq(l.as_str(), "esp") || str_eq(l.as_str(), "esm") || str_eq(l.as_str(), "esl")
            },
            None => false,
        },
        None => false,
    }
}

/// What follows the last `.` of a name (the whole name without one).
pub open spec fn after_last_dot(s: Seq<char>) -> Seq<char> {
    s.skip(last_dot(s) + 1)
}

/// Load masters (`.esm`) before light masters (`.esl`) before normal plugins.
pub open spec fn rank_of(name: Seq<char>) -> u8 {
    let e = lower(after_last_dot(name));
    if e == "esm"@ {
        0
    } else if e == "esl"@ {
        1
    } else {
        2
    }
}

/// The load rank of a plugin file name: `.esm` 0, `.esl` 1, others 2.
pub fn master_rank(name: &str) -> (r: u8)
    ensures
        r == rank_of(name@),
{
    let cs = chars_of(name);
    let n = cs.len();
    let start = match find_last_dot(&cs) {
        Some(i) => i + 1,
        None => 0,
    };
    let tail = crate::text::slice_chars(&cs, start, cs.len());
    assert(tail@ =~= after_last_dot(name@));
    let ext = string_of(&tail);
    let l = to_lower(ext.as_str());
    if str_eq(l.as_str(), "esm") {
        0
    } else if str_eq(l.as_str(), "esl") {
        1
    } else {
        2
    }
}

/// The names of rank `k`, in their given order.
pub open spec fn of_rank(names: Seq<Seq<char>>, k: u8) -> Seq<Seq<char>> {
    names.filter(|n: Seq<char>| rank_of(n) == k)
}

/// Plugin file names stably sorted by [`master_rank`]: masters, then light
/// masters, then the rest, each group in its given order.
pub fn order_by_rank(names: &[String]) -> (r: Vec<String>)
    ensures
        views(r@) == of_rank(views(names@), 0) + of_rank(views(names@), 1) + of_rank(
            views(names@),
            2,
        ),
{
    let ghost v = views(names@);
    let mut groups: Vec<Vec<String>> = Vec::new();
    let mut out: Vec<String> = Vec::new();
    let mut k: u8 = 0;
    while k < 3
        invariant
            k <= 3,
            v == views(names@),
            views(out@) == (if k == 0 {
                seq![]
            } else if k == 1 {
                of_rank(v, 0)
            } else if k == 2 {
                of_rank(v, 0) + of_rank(v, 1)
            } else {
                of_rank(v, 0) + of_rank(v, 1) + of_rank(v, 2)
            }),
        decreases 3 - k,
    {
        let ghost before = views(out@);
        let mut i: usize = 0;
        while i < names.len()
            invariant
                i <= names@.len(),
                v == views(names@),
                views(out@) == before + of_rank(v.take(i as int), k),
            decreases names@.len() - i,
        {
            proof {
                assert(v.take(i + 1).drop_last() =~= v.take(i as int));
                reveal_with_fuel(Seq::<Seq<char>>::filter, 1);
            }
            if master_rank(names[i].as_str()) == k {
                let ghost b2 = out@;
                out.push(names[i].clone());
                assert(views(out@) =~= views(b2).push(names@[i as int]@));
            }
            i = i + 1;
        }
        assert(v.take(names@.len() as int) =~= v);
        k = k + 1;
    }
    out
}

// ---- plugins.txt ---------------------------------------------------------------------

/// A `plugins.txt` line's plugin name: trimmed, without the `*` active marker.
pub open spec fn line_name(line: Seq<char>) -> Seq<char> {
    trim(strip_leading(trim(line), '*'))
}

/// Blank lines and `#` comments.
pub open spec fn is_comment(line: Seq<char>) -> bool {
    line_name(line).len() == 0 || (trim_start(line).len() > 0 && trim_start(line)[0] == '#')
}

/// A line survives a rewrite unless it names a managed plugin.
pub open spec fn keeps_line(managed: Seq<Seq<char>>, line: Seq<char>) -> bool {
    is_comment(line) || !managed.map_values(|m: Seq<char>| lower(m)).contains(lower(line_name(line)))
}

/// The lines of `existing` that a rewrite keeps, in place.
pub open spec fn kept_lines(existing: Seq<char>, managed: Seq<Seq<char>>) -> Seq<Seq<char>> {
    lines(existing).filter(|l: Seq<char>| keeps_line(managed, l))
}

/// `plugins.txt` after a rewrite: the kept lines, then `*name` for each
/// active plugin, one per line, with a final line feed.
pub open spec fn plugins_txt(
    existing: Seq<char>,
    active: Seq<Seq<char>>,
    managed: Seq<Seq<char>>,
) -> Seq<char> {
    joined(kept_lines(existing, managed) + active.map_values(|a: Seq<char>| seq!['*'] + a)) + seq![
        '\n',
    ]
}

fn line_name_of(line: &str) -> (r: String)
    ensures
        r@ == line_name(line@),
{
    let cs = chars_of(line);
    let t1 = trim_vec(&cs);
    let t2 = crate::text::strip_leading_vec(&t1, '*');
    let t3 = trim_vec(&t2);
    string_of(&t3)
}

fn keeps(managed_lower: &[String], line: &str) -> (r: bool)
    ensures
        r == (line_name(line@).len() == 0 || (trim_start(line@).len() > 0 && trim_start(line@)[0]
            == '#') || !views(managed_lower@).contains(lower(line_name(line@)))),
{
    let name = line_name_of(line);
    let lname = to_lower(name.as_str());
    let cs = chars_of(line);
    let ts = trim_start_vec(&cs);
    let comment = name.as_str().is_empty() || (ts.len() > 0 && ts[0] == '#');
    comment || !contains_str(managed_lower, lname.as_str())
}

fn trim_start_vec(cs: &[char]) -> (r: Vec<char>)
    ensures
        r@ == trim_start(cs@),
{
    let mut i: usize = 0;
    assert(cs@.skip(0) =~= cs@);
    while i < cs.len() && crate::text::is_white_char(cs[i])
        invariant
            i <= cs@.len(),
            trim_start(cs@) == trim_start(cs@.skip(i as int)),
        decreases cs@.len() - i,
    {
        assert(cs@.skip(i as int).drop_first() =~= cs@.skip(i + 1));
        i = i + 1;
    }
    proof {
        if i < cs@.len() {
            assert(cs@.skip(i as int)[0] == cs@[i as int]);
        }
    }
    let r = crate::text::slice_chars(cs, i, cs.len());
    assert(r@ =~= cs@.skip(i as int));
    r
}

/// Rewrite the contents of `plugins.txt` so the managed set reflects the
/// deployed mods.
///
/// * `active`  — plugin filenames to enable, in final order.
/// * `managed` — every plugin filename modeman controls (so stale entries
///   from a previous deploy are pruned even when now disabled).
///
/// Lines for plugins outside `managed` (base game, DLC, hand-added), blank
/// lines and comments are kept verbatim and in place.
pub fn plugins_txt_contents(existing: &str, active: &[String], managed: &[String]) -> (r: String)
    ensures
        r@ == plugins_txt(existing@, views(active@), views(managed@)),
{
    let ghost mv = views(managed@);
    let mut managed_lower: Vec<String> = Vec::new();
    let mut i: usize = 0;
    while i < managed.len()
        invariant
            i <= managed@.len(),
            mv == views(managed@),
            views(managed_lower@) == mv.take(i as int).map_values(|m: Seq<char>| lower(m)),
        decreases managed@.len() - i,
    {
        let l = to_lower(managed[i].as_str());
        let ghost b = managed_lower@;
        managed_lower.push(l);
        assert(views(managed_lower@) =~= views(b).push(l@));
        assert(mv.take(i + 1).map_values(|m: Seq<char>| lower(m)) =~= mv.take(i as int).map_values(
            |m: Seq<char>| lower(m),
        ).push(lower(mv[i as int])));
        i = i + 1;
    }
    assert(mv.take(managed@.len() as int) =~= mv);
    let all = split_lines(existing);
    let ghost ls = lines(existing@);
    let ghost keep = |l: Seq<char>| keeps_line(mv, l);
    let mut out: Vec<String> = Vec::new();
    let mut j: usize = 0;
    while j < all.len()
        invariant
            j <= all@.len(),
            views(all@) == ls,
            views(managed_lower@) == mv.map_values(|m: Seq<char>| lower(m)),
            views(out@) == ls.take(j as int).filter(keep),
            keep == (|l: Seq<char>| keeps_line(mv, l)),
        decreases all@.len() - j,
    {
        proof {
            assert(ls.take(j + 1).drop_last() =~= ls.take(j as int));
            reveal_with_fuel(Seq::<Seq<char>>::filter, 1);
            assert(ls[j as int] == all@[j as int]@);
        }
        if keeps(managed_lower.as_slice(), all[j].as_str()) {
            let ghost b = out@;
            out.push(all[j].clone());
            assert(views(out@) =~= views(b).push(all@[j as int]@));
        }
        j = j + 1;
    }
    assert(ls.take(all@.len() as int) =~= ls);
    let ghost kept = views(out@);
    let mut a: usize = 0;
    while a < active.len()
        invariant
            a <= active@.len(),
            views(out@) == kept + views(active@).take(a as int).map_values(
                |x: Seq<char>| seq!['*'] + x,
            ),
        decreases active@.len() - a,
    {
        let mut line = String::new();
        push_char(&mut line, '*');
        push_str(&mut line, active[a].as_str());
        let ghost b = out@;
        out.push(line);
        assert(views(out@) =~= views(b).push(seq!['*'] + active@[a as int]@));
        assert(views(active@).take(a + 1).map_values(|x: Seq<char>| seq!['*'] + x) =~= views(
            active@,
        ).take(a as int).map_values(|x: Seq<char>| seq!['*'] + x).push(seq!['*'] + active@[a as int]@));
        a = a + 1;
    }
    assert(views(active@).take(active@.len() as int) =~= views(active@));
    let mut body = join_lines(out.as_slice());
    push_char(&mut body, '\n');
    assert(body@ =~= plugins_txt(existing@, views(active@), views(managed@)));
    body
}

/// `plugins.txt` with all managed plugins removed, leaving base entries.
pub fn clear_plugins_txt(existing: &str, managed: &[String]) -> (r: String)
    ensures
        r@ == plugins_txt(existing@, seq![], views(managed@)),
{
    let none: Vec<String> = Vec::new();
    let r = plugins_txt_contents(existing, none.as_slice(), managed);
    assert(views(none@) =~= Seq::<Seq<char>>::empty());
    r
}

proof fn lemma_filter_all_kept(s: Seq<Seq<char>>, p: spec_fn(Seq<char>) -> bool)
    requires
        forall|i: int| 0 <= i < s.len() ==> p(#[trigger] s[i]),
    ensures
        s.filter(p) == s,
    decreases s.len(),
{
    reveal_with_fuel(Seq::<Seq<char>>::filter, 1);
    if s.len() > 0 {
        assert forall|i: int| 0 <= i < s.drop_last().len() implies p(#[trigger] s.drop_last()[i]) by {
            assert(s.drop_last()[i] == s[i]);
        }
        lemma_filter_all_kept(s.drop_last(), p);
        assert(s.drop_last().push(s.last()) =~= s);
    }
}

proof fn lemma_filter_none_kept(s: Seq<Seq<char>>, p: spec_fn(Seq<char>) -> bool)
    requires
        forall|i: int| 0 <= i < s.len() ==> !p(#[trigger] s[i]),
    ensures
        s.filter(p) == Seq::<Seq<char>>::empty(),
    decreases s.len(),
{
    reveal_with_fuel(Seq::<Seq<char>>::filter, 1);
    if s.len() > 0 {
        assert forall|i: int| 0 <= i < s.drop_last().len() implies !p(#[trigger] s.drop_last()[i]) by {
            assert(s.drop_last()[i] == s[i]);
        }
        lemma_filter_none_kept(s.drop_last(), p);
    }
}

/// Clearing after a rewrite gives what clearing before it gives: the base
/// entries come back as they were and no active plugin stays listed. This
/// holds when each active plugin is written as a plain line that names a
/// managed plugin, and no kept line of the old file ends in a carriage
/// return (which reading it back would drop).
pub proof fn clear_after_rewrite_restores(existing: Seq<char>, active: Seq<Seq<char>>, managed: Seq<Seq<char>>)
    requires
        forall|k: int|
            0 <= k < lines(existing).len() && keeps_line(managed, #[trigger] lines(existing)[k]) ==> !(
            lines(existing)[k].len() > 0 && lines(existing)[k].last() == '\r'),
        forall|k: int|
            0 <= k < active.len() ==> !keeps_line(managed, seq!['*'] + #[trigger] active[k]) && plain_line(
                seq!['*'] + active[k],
            ),
    ensures
        plugins_txt(plugins_txt(existing, active, managed), seq![], managed) == plugins_txt(
            existing,
            seq![],
            managed,
        ),
{
    let keep = |l: Seq<char>| keeps_line(managed, l);
    let kept = kept_lines(existing, managed);
    let marked = active.map_values(|a: Seq<char>| seq!['*'] + a);
    let all = kept + marked;
    let text = plugins_txt(existing, active, managed);
    assert(text == joined(all) + seq!['\n']);
    lemma_lines_have_no_lf(existing);
    assert forall|i: int| 0 <= i < kept.len() implies keep(#[trigger] kept[i]) && plain_line(kept[i]) by {
        lines(existing).lemma_filter_pred(keep, i);
        assert(kept.contains(kept[i]));
        lines(existing).lemma_filter_contains_rev(keep, kept[i]);
        let j = choose|j: int| 0 <= j < lines(existing).len() && lines(existing)[j] == kept[i];
        assert(lines(existing)[j] == kept[i]);
        assert forall|c: int| 0 <= c < kept[i].len() implies kept[i][c] != '\n' by {
            assert(lines(existing)[j][c] != '\n');
        }
    }
    assert forall|i: int| 0 <= i < marked.len() implies !keep(#[trigger] marked[i]) && plain_line(marked[i]) by {
        assert(marked[i] == seq!['*'] + active[i]);
    }
    assert forall|i: int| 0 <= i < all.len() implies plain_line(#[trigger] all[i]) by {
        if i < kept.len() {
            assert(all[i] == kept[i]);
        } else {
            assert(all[i] == marked[i - kept.len()]);
        }
    }
    lemma_filter_all_kept(kept, keep);
    lemma_filter_none_kept(marked, keep);
    Seq::filter_distributes_over_add(kept, marked, keep);
    assert(seq![].map_values(|a: Seq<char>| seq!['*'] + a) =~= Seq::<Seq<char>>::empty());
    if all.len() > 0 {
        lemma_lines_of_joined(all);
        assert(kept_lines(text, managed) == all.filter(keep));
        assert(kept_lines(text, managed) =~= kept);
        assert(kept + Seq::<Seq<char>>::empty() =~= kept);
    } else {
        assert(kept.len() == 0);
        assert(joined(all) =~= Seq::<char>::empty());
        assert(text =~= seq!['\n']);
        assert(text.take(0) =~= Seq::<char>::empty());
        assert(text.skip(1) =~= Seq::<char>::empty());
        assert(text[0] == '\n');
        assert(crate::text::find_char(text, '\n') == 0);
        assert(lines(Seq::<char>::empty()) == Seq::<Seq<char>>::empty());
        assert(strip_cr(Seq::<char>::empty()) == Seq::<char>::empty());
        assert(lines(text) == seq![strip_cr(text.take(0))] + lines(text.skip(1)));
        assert(lines(text) =~= seq![Seq::<char>::empty()]);
        assert(keep(Seq::<char>::empty()));
        assert(kept_lines(text, managed) =~= seq![Seq::<char>::empty()]) by {
            reveal_with_fuel(Seq::<Seq<char>>::filter, 2);
        }
        assert(joined(seq![Seq::<char>::empty()]) =~= Seq::<char>::empty());
    }
}

/// A rewritten `plugins.txt` reads back, line by line, as the lines of the
/// old file that it keeps, in their old order, followed by `*name` for each
/// active plugin in the order of `active`. Holds for plugin names that hold
/// no line feed and do not end in a carriage return (reading the file back
/// would split or trim those).
pub proof fn rewrite_lists_active_plugins_in_order(
    existing: Seq<char>,
    active: Seq<Seq<char>>,
    managed: Seq<Seq<char>>,
)
    requires
        forall|k: int| 0 <= k < active.len() ==> plain_line(#[trigger] active[k]),
    ensures
        kept_lines(existing, managed).len() + active.len() > 0 ==> lines(plugins_txt(existing, active, managed)).len()
            == kept_lines(existing, managed).len() + active.len(),
        forall|k: int|
            0 <= k < kept_lines(existing, managed).len() ==> #[trigger] lines(plugins_txt(existing, active, managed))[k]
                == strip_cr(kept_lines(existing, managed)[k]),
        forall|k: int|
            0 <= k < active.len() ==> #[trigger] lines(plugins_txt(existing, active, managed))[kept_lines(
                existing,
                managed,
            ).len() + k] == seq!['*'] + active[k],
{
    let keep = |l: Seq<char>| keeps_line(managed, l);
    let kept = kept_lines(existing, managed);
    let marked = active.map_values(|a: Seq<char>| seq!['*'] + a);
    let all = kept + marked;
    let text = plugins_txt(existing, active, managed);
    assert(text == joined(all) + seq!['\n']);
    lemma_lines_have_no_lf(existing);
    assert forall|i: int, c: int| 0 <= i < kept.len() && 0 <= c < kept[i].len() implies #[trigger] kept[i][c] != '\n' by {
        assert(kept.contains(kept[i]));
        lines(existing).lemma_filter_contains_rev(keep, kept[i]);
        let j = choose|j: int| 0 <= j < lines(existing).len() && lines(existing)[j] == kept[i];
        assert(lines(existing)[j] == kept[i]);
        assert(lines(existing)[j][c] != '\n');
    }
    assert forall|i: int| 0 <= i < marked.len() implies plain_line(#[trigger] marked[i]) by {
        assert(marked[i] == seq!['*'] + active[i]);
        assert(plain_line(active[i]));
        assert forall|c: int| 0 <= c < marked[i].len() implies marked[i][c] != '\n' by {
            if c > 0 {
                assert(marked[i][c] == active[i][c - 1]);
            }
        }
        if active[i].len() > 0 {
            assert(marked[i].last() == active[i].last());
        }
    }
    if all.len() > 0 {
        assert forall|k: int, j: int| 0 <= k < all.len() && 0 <= j < all[k].len() implies #[trigger] all[k][j] != '\n' by {
            if k < kept.len() {
                assert(all[k] == kept[k]);
                assert(kept[k][j] != '\n');
            } else {
                assert(all[k] == marked[k - kept.len()]);
                assert(plain_line(marked[k - kept.len()]));
            }
        }
        lemma_lines_of_joined_lines(all);
        assert forall|k: int| 0 <= k < kept.len() implies #[trigger] lines(text)[k] == strip_cr(kept[k]) by {
            assert(lines(text)[k] == strip_cr(all[k]));
            assert(all[k] == kept[k]);
        }
        assert forall|k: int| 0 <= k < active.len() implies #[trigger] lines(text)[kept.len() + k] == seq!['*'] + active[k] by {
            assert(lines(text)[kept.len() + k] == strip_cr(all[kept.len() + k]));
            assert(all[kept.len() + k] == marked[k]);
            assert(plain_line(marked[k]));
        }
    }
}

/// The load-order file in an appdata folder: an existing entry named
/// `plugins.txt` in any case (the first listed), else `plugins.txt`.
/// `entries` are the names of the folder's entries.
pub fn plugins_txt_path(appdata: &str, entries: &[String]) -> (r: String)
    ensures
        (exists|i: int| 0 <= i < entries@.len() && crate::text::eq_ignore_case(#[trigger] entries@[i]@, "plugins.txt"@))
            ==> exists|i: int|
            0 <= i < entries@.len() && crate::text::eq_ignore_case(entries@[i]@, "plugins.txt"@) && (forall|j: int|
                0 <= j < i ==> !crate::text::eq_ignore_case(#[trigger] entries@[j]@, "plugins.txt"@)) && r@
                == crate::paths::path_join(appdata@, entries@[i]@),
        (forall|i: int| 0 <= i < entries@.len() ==> !crate::text::eq_ignore_case(#[trigger] entries@[i]@, "plugins.txt"@))
            ==> r@ == crate::paths::path_join(appdata@, "plugins.txt"@),
{
    let mut i: usize = 0;
    while i < entries.len()
        invariant
            i <= entries@.len(),
            forall|j: int| 0 <= j < i ==> !crate::text::eq_ignore_case(#[trigger] entries@[j]@, "plugins.txt"@),
        decreases entries@.len() - i,
    {
        if crate::text::eq_ignore_ascii_case(entries[i].as_str(), "plugins.txt") {
            return crate::paths::join(appdata, entries[i].as_str());
        }
        i = i + 1;
    }
    crate::paths::join(appdata, "plugins.txt")
}

} // verus!
