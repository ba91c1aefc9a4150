//! Free mod platforms (Thunderstore, mod.io, GameBanana) behind one shape:
//! what a browse list and a file list hold, the request URLs, and how each
//! platform's answers become those lists. The HTTP exchange and the JSON
//! decoding are the caller's.

use vstd::prelude::*;
use crate::error::Error;
use crate::text::{chars_of, decimal, decimal_string, owned, push_char, push_str, str_eq, trim, trim_str, views};

verus! {

/// How to sort/scope a browse listing.
#[derive(Debug, Clone, Copy, PartialEq, Eq, Structural)]
pub enum ListSort {
    Top,
    Newest,
    Updated,
}

/// A mod as shown in a browse list.
#[derive(Debug, Clone)]
pub struct ListedMod {
    /// Platform-specific id (passed back to `files`).
    pub id: String,
    pub name: String,
    pub author: String,
    pub summary: String,
    pub downloads: u64,
}

/// A downloadable file/version of a mod.
#[derive(Debug, Clone)]
pub struct RemoteFile {
    pub id: String,
    pub name: String,
    pub version: String,
    pub url: String,
    pub size: u64,
}

/// The text of a listed mod: id, name, author, summary, downloads.
pub open spec fn listed_view(m: ListedMod) -> (Seq<char>, Seq<char>, Seq<char>, Seq<char>, u64) {
    (m.id@, m.name@, m.author@, m.summary@, m.downloads)
}

/// The text of a remote file: id, name, version, url, size.
pub open spec fn remote_view(f: RemoteFile) -> (Seq<char>, Seq<char>, Seq<char>, Seq<char>, u64) {
    (f.id@, f.name@, f.version@, f.url@, f.size)
}

// ---- Thunderstore -------------------------------------------------------------------

/// Thunderstore's platform name.
pub const THUNDERSTORE: &'static str = "thunderstore";

/// One published version of a Thunderstore package, as listed.
#[derive(Debug, Clone)]
pub struct TsVersion {
    pub description: String,
    pub downloads: u64,
}

/// A Thunderstore package, as listed.
#[derive(Debug, Clone)]
pub struct TsPackage {
    pub name: String,
    pub owner: String,
    pub date_created: String,
    pub date_updated: String,
    pub versions: Vec<TsVersion>,
}

/// One downloadable version, from a package's detail page.
#[derive(Debug, Clone)]
pub struct TsDetailVersion {
    pub full_name: String,
    pub version_number: String,
    pub download_url: String,
    pub file_size: u64,
}

/// Total downloads of the first `n` versions.
pub open spec fn downloads_upto(vs: Seq<TsVersion>, n: int) -> int
    decreases n,
{
    if n <= 0 {
        0
    } else {
        downloads_upto(vs, n - 1) + vs[n - 1].downloads
    }
}

/// Total downloads over all versions.
pub open spec fn total_downloads(p: TsPackage) -> int {
    downloads_upto(p.versions@, p.versions@.len() as int)
}

proof fn lemma_downloads_grow(vs: Seq<TsVersion>, i: int, n: int)
    requires
        0 <= i <= n <= vs.len(),
    ensures
        downloads_upto(vs, i) <= downloads_upto(vs, n),
    decreases n - i,
{
    if i < n {
        lemma_downloads_grow(vs, i, n - 1);
    }
}

/// The downloads of all versions together (which must fit in 64 bits).
pub fn package_downloads(p: &TsPackage) -> (n: u64)
    requires
        total_downloads(*p) <= u64::MAX,
    ensures
        n == total_downloads(*p),
{
    let mut n: u64 = 0;
    let mut i: usize = 0;
    while i < p.versions.len()
        invariant
            i <= p.versions@.len(),
            n == downloads_upto(p.versions@, i as int),
            total_downloads(*p) <= u64::MAX,
        decreases p.versions@.len() - i,
    {
        proof {
            lemma_downloads_grow(p.versions@, i + 1, p.versions@.len() as int);
        }
        n = n + p.versions[i].downloads;
        i = i + 1;
    }
    n
}

/// A package as a browse entry: `owner/name`, the first version's
/// description, and the downloads of all versions.
pub fn ts_to_listed(p: &TsPackage) -> (m: ListedMod)
    requires
        total_downloads(*p) <= u64::MAX,
    ensures
        m.id@ == p.owner@ + seq!['/'] + p.name@,
        m.name@ == p.name@,
        m.author@ == p.owner@,
        m.summary@ == if p.versions@.len() > 0 {
            p.versions@[0].description@
        } else {
            seq![]
        },
        m.downloads == total_downloads(*p),
{
    let mut id = owned(p.owner.as_str());
    push_char(&mut id, '/');
    push_str(&mut id, p.name.as_str());
    let summary = if p.versions.len() > 0 {
        owned(p.versions[0].description.as_str())
    } else {
        String::new()
    };
    ListedMod {
        id,
        name: owned(p.name.as_str()),
        author: owned(p.owner.as_str()),
        summary,
        downloads: package_downloads(p),
    }
}

/// `a` comes strictly before `b` in a listing sorted by `sort`: more
/// downloads, or a later creation / update date (dates compared as text).
pub open spec fn ts_before(sort: ListSort, a: TsPackage, b: TsPackage) -> bool {
    match sort {
        ListSort::Top => total_downloads(a) > total_downloads(b),
        ListSort::Newest => crate::redmod::text_lt(b.date_created@, a.date_created@),
        ListSort::Updated => crate::redmod::text_lt(b.date_updated@, a.date_updated@),
    }
}

/// `x` placed after the last entry it does not come strictly before.
pub open spec fn insert_sorted<T>(s: Seq<T>, x: T, before: spec_fn(T, T) -> bool) -> Seq<T>
    decreases s.len(),
{
    if s.len() == 0 {
        seq![x]
    } else if !before(x, s.last()) {
        s.push(x)
    } else {
        insert_sorted(s.drop_last(), x, before).push(s.last())
    }
}

/// A stable sort by `before`: entries that neither precedes keep their
/// order.
pub open spec fn stable_sorted<T>(s: Seq<T>, before: spec_fn(T, T) -> bool) -> Seq<T>
    decreases s.len(),
{
    if s.len() == 0 {
        seq![]
    } else {
        insert_sorted(stable_sorted(s.drop_last(), before), s.last(), before)
    }
}

proof fn lemma_insert_sorted_at<T>(s: Seq<T>, x: T, before: spec_fn(T, T) -> bool, pos: int)
    requires
        0 <= pos <= s.len(),
        pos == 0 || !before(x, s[pos - 1]),
        forall|k: int| pos <= k < s.len() ==> before(x, s[k]),
    ensures
        insert_sorted(s, x, before) == s.insert(pos, x),
    decreases s.len(),
{
    if s.len() == 0 {
        assert(s.insert(pos, x) =~= seq![x]);
    } else if pos == s.len() {
        assert(s.insert(pos, x) =~= s.push(x));
    } else {
        lemma_insert_sorted_at(s.drop_last(), x, before, pos);
        assert(s.insert(pos, x) =~= s.drop_last().insert(pos, x).push(s.last()));
    }
}

fn ts_precedes(sort: ListSort, a: &TsPackage, b: &TsPackage) -> (r: bool)
    requires
        total_downloads(*a) <= u64::MAX,
        total_downloads(*b) <= u64::MAX,
    ensures
        r == ts_before(sort, *a, *b),
{
    match sort {
        ListSort::Top => package_downloads(a) > package_downloads(b),
        ListSort::Newest => crate::redmod::text_less(b.date_created.as_str(), a.date_created.as_str()),
        ListSort::Updated => crate::redmod::text_less(b.date_updated.as_str(), a.date_updated.as_str()),
    }
}

/// The packages sorted for a listing (most downloads, newest, or most
/// recently updated first); ties keep their order. Each package's download
/// total must fit in 64 bits.
pub fn sort_packages(packages: Vec<TsPackage>, sort: ListSort) -> (r: Vec<TsPackage>)
    requires
        forall|i: int| 0 <= i < packages@.len() ==> total_downloads(#[trigger] packages@[i]) <= u64::MAX,
    ensures
        r@ == stable_sorted(packages@, |a: TsPackage, b: TsPackage| ts_before(sort, a, b)),
{
    let ghost before = |a: TsPackage, b: TsPackage| ts_before(sort, a, b);
    let ghost all = packages@;
    let mut out: Vec<TsPackage> = Vec::new();
    let mut rest = packages;
    let ghost mut i: int = 0;
    assert(all.skip(0) =~= all);
    while rest.len() > 0
        invariant
            0 <= i <= all.len(),
            i + rest@.len() == all.len(),
            rest@ == all.skip(i as int),
            forall|k: int| 0 <= k < all.len() ==> total_downloads(#[trigger] all[k]) <= u64::MAX,
            forall|k: int| 0 <= k < out@.len() ==> total_downloads(#[trigger] out@[k]) <= u64::MAX,
            out@ == stable_sorted(all.take(i as int), before),
            before == (|a: TsPackage, b: TsPackage| ts_before(sort, a, b)),
        decreases rest@.len(),
    {
        let x = rest.remove(0);
        assert(x == all[i as int]);
        assert(rest@ =~= all.skip(i + 1));
        let mut pos: usize = out.len();
        while pos > 0 && ts_precedes(sort, &x, &out[pos - 1])
            invariant
                pos <= out@.len(),
                total_downloads(x) <= u64::MAX,
                forall|k: int| 0 <= k < out@.len() ==> total_downloads(#[trigger] out@[k]) <= u64::MAX,
                forall|k: int| pos <= k < out@.len() ==> ts_before(sort, x, out@[k]),
            decreases pos,
        {
            pos = pos - 1;
        }
        proof {
            lemma_insert_sorted_at(out@, x, before, pos as int);
            assert(all.take(i + 1).drop_last() =~= all.take(i as int));
            assert(all.take(i + 1).last() == x);
        }
        let ghost prev = out@;
        out.insert(pos, x);
        assert forall|k: int| 0 <= k < out@.len() implies total_downloads(#[trigger] out@[k]) <= u64::MAX by {
            if k < pos {
                assert(out@[k] == prev[k]);
            } else if k > pos {
                assert(out@[k] == prev[k - 1]);
            }
        }
        proof {
            i = i + 1;
        }
    }
    assert(all.take(i as int) =~= all);
    out
}

/// The browse entry of a package.
pub open spec fn ts_listed(p: TsPackage) -> (Seq<char>, Seq<char>, Seq<char>, Seq<char>, u64) {
    (
        p.owner@ + seq!['/'] + p.name@,
        p.name@,
        p.owner@,
        if p.versions@.len() > 0 {
            p.versions@[0].description@
        } else {
            seq![]
        },
        total_downloads(p) as u64,
    )
}

/// The listing URL of a community; a game without one is not on the
/// platform.
pub fn ts_list_url(game: &str) -> (r: Result<String, Error>)
    ensures
        game@.len() == 0 ==> (r matches Err(Error::GameUnsupported(p)) && p@ == THUNDERSTORE@),
        game@.len() > 0 ==> (r matches Ok(u) && u@ == "https://thunderstore.io/c/"@ + game@ + "/api/v1/package/"@),
{
    if game.is_empty() {
        return Err(Error::GameUnsupported(owned(THUNDERSTORE)));
    }
    let mut u = owned("https://thunderstore.io/c/");
    push_str(&mut u, game);
    push_str(&mut u, "/api/v1/package/");
    Ok(u)
}

/// The browse list: the packages sorted for the listing, the first 100.
pub fn ts_listing(packages: Vec<TsPackage>, sort: ListSort) -> (r: Vec<ListedMod>)
    requires
        forall|i: int| 0 <= i < packages@.len() ==> total_downloads(#[trigger] packages@[i]) <= u64::MAX,
    ensures
        r@.map_values(|m: ListedMod| listed_view(m)) == ({
            let s = stable_sorted(packages@, |a: TsPackage, b: TsPackage| ts_before(sort, a, b));
            s.take(if s.len() < 100 { s.len() as int } else { 100 }).map_values(|p: TsPackage| ts_listed(p))
        }),
{
    let ghost all = packages@;
    let sorted = sort_packages(packages, sort);
    proof {
        lemma_stable_sorted_keeps(all, |a: TsPackage, b: TsPackage| ts_before(sort, a, b));
    }
    assert forall|k: int| 0 <= k < sorted@.len() implies total_downloads(#[trigger] sorted@[k]) <= u64::MAX by {
        assert(sorted@.contains(sorted@[k]));
        assert(all.contains(sorted@[k]));
        let j = choose|j: int| 0 <= j < all.len() && all[j] == sorted@[k];
    }
    let n: usize = if sorted.len() < 100 { sorted.len() } else { 100 };
    let mut out: Vec<ListedMod> = Vec::new();
    let mut i: usize = 0;
    while i < n
        invariant
            i <= n <= sorted@.len(),
            forall|k: int| 0 <= k < sorted@.len() ==> total_downloads(#[trigger] sorted@[k]) <= u64::MAX,
            out@.map_values(|m: ListedMod| listed_view(m)) == sorted@.take(i as int).map_values(
                |p: TsPackage| ts_listed(p),
            ),
        decreases n - i,
    {
        let m = ts_to_listed(&sorted[i]);
        let ghost before = out@.map_values(|m: ListedMod| listed_view(m));
        out.push(m);
        assert(out@.map_values(|m: ListedMod| listed_view(m)) =~= before.push(ts_listed(sorted@[i as int])));
        assert(sorted@.take(i + 1).map_values(|p: TsPackage| ts_listed(p)) =~= sorted@.take(i as int).map_values(
            |p: TsPackage| ts_listed(p),
        ).push(ts_listed(sorted@[i as int])));
        i = i + 1;
    }
    out
}

/// Sorting keeps the entries (as a multiset), so bounds on every entry
/// carry over.
pub proof fn lemma_stable_sorted_keeps<T>(s: Seq<T>, before: spec_fn(T, T) -> bool)
    ensures
        stable_sorted(s, before).to_multiset() == s.to_multiset(),
        stable_sorted(s, before).len() == s.len(),
        forall|x: T| stable_sorted(s, before).contains(x) <==> s.contains(x),
    decreases s.len(),
{
    broadcast use vstd::seq_lib::group_to_multiset_ensures;
    if s.len() > 0 {
        lemma_stable_sorted_keeps(s.drop_last(), before);
        lemma_insert_sorted_keeps(stable_sorted(s.drop_last(), before), s.last(), before);
        assert(s =~= s.drop_last().push(s.last()));
    } else {
        assert(stable_sorted(s, before) =~= s);
    }
    assert forall|x: T| stable_sorted(s, before).contains(x) <==> s.contains(x) by {
        assert(stable_sorted(s, before).to_multiset().count(x) == s.to_multiset().count(x));
    }
}

proof fn lemma_insert_sorted_keeps<T>(s: Seq<T>, x: T, before: spec_fn(T, T) -> bool)
    ensures
        insert_sorted(s, x, before).to_multiset() == s.to_multiset().insert(x),
        insert_sorted(s, x, before).len() == s.len() + 1,
    decreases s.len(),
{
    broadcast use vstd::seq_lib::group_to_multiset_ensures;
    if s.len() > 0 && before(x, s.last()) {
        lemma_insert_sorted_keeps(s.drop_last(), x, before);
        assert(s =~= s.drop_last().push(s.last()));
        assert(insert_sorted(s.drop_last(), x, before).push(s.last()).to_multiset() =~= s.to_multiset().insert(x));
    }
}

/// No entry of `s` comes strictly before an earlier one.
pub open spec fn in_order<T>(s: Seq<T>, before: spec_fn(T, T) -> bool) -> bool {
    forall|i: int, j: int| 0 <= i < j < s.len() ==> !before(#[trigger] s[j], #[trigger] s[i])
}

/// `before` is a strict weak order: asymmetric, and "not before" chains.
pub open spec fn strict_weak<T>(before: spec_fn(T, T) -> bool) -> bool {
    &&& forall|a: T, b: T| #[trigger] before(a, b) ==> !before(b, a)
    &&& forall|a: T, b: T, c: T|
        #![trigger before(a, b), before(b, c)]
        !before(a, b) && !before(b, c) ==> !before(a, c)
}

proof fn lemma_insert_sorted_in_order<T>(s: Seq<T>, x: T, before: spec_fn(T, T) -> bool)
    requires
        strict_weak(before),
        in_order(s, before),
    ensures
        in_order(insert_sorted(s, x, before), before),
        forall|k: int| 0 <= k < insert_sorted(s, x, before).len() ==> (#[trigger] insert_sorted(s, x, before)[k] == x
            || s.contains(insert_sorted(s, x, before)[k])),
    decreases s.len(),
{
    lemma_insert_sorted_keeps(s, x, before);
    if s.len() == 0 {
    } else if !before(x, s.last()) {
        let r = s.push(x);
        assert forall|i: int, j: int| 0 <= i < j < r.len() implies !before(#[trigger] r[j], #[trigger] r[i]) by {
            assert(r[i] == s[i]);
            if j < s.len() {
                assert(r[j] == s[j]);
            } else if i < s.len() - 1 {
                assert(!before(s[s.len() - 1], s[i]));
                assert(!before(x, s[s.len() - 1]));
            }
        }
        assert forall|k: int| 0 <= k < r.len() implies (#[trigger] r[k] == x || s.contains(r[k])) by {
            if k < s.len() {
                assert(r[k] == s[k]);
            }
        }
    } else {
        let d = s.drop_last();
        assert(in_order(d, before)) by {
            assert forall|i: int, j: int| 0 <= i < j < d.len() implies !before(#[trigger] d[j], #[trigger] d[i]) by {
                assert(d[i] == s[i] && d[j] == s[j]);
            }
        }
        lemma_insert_sorted_in_order(d, x, before);
        let t = insert_sorted(d, x, before);
        let r = t.push(s.last());
        assert forall|k: int| 0 <= k < t.len() implies !before(s.last(), #[trigger] t[k]) by {
            if t[k] != x {
                let w = choose|w: int| 0 <= w < d.len() && d[w] == t[k];
                assert(s[w] == d[w]);
                assert(s[s.len() - 1] == s.last());
            }
        }
        assert forall|i: int, j: int| 0 <= i < j < r.len() implies !before(#[trigger] r[j], #[trigger] r[i]) by {
            if j < t.len() {
                assert(r[i] == t[i] && r[j] == t[j]);
            } else {
                assert(r[i] == t[i]);
            }
        }
        assert forall|k: int| 0 <= k < r.len() implies (#[trigger] r[k] == x || s.contains(r[k])) by {
            if k < t.len() {
                assert(r[k] == t[k]);
                if t[k] != x {
                    let w = choose|w: int| 0 <= w < d.len() && d[w] == t[k];
                    assert(s[w] == d[w]);
                }
            } else {
                assert(s[s.len() - 1] == r[k]);
            }
        }
    }
}

proof fn lemma_stable_sorted_in_order<T>(s: Seq<T>, before: spec_fn(T, T) -> bool)
    requires
        strict_weak(before),
    ensures
        in_order(stable_sorted(s, before), before),
    decreases s.len(),
{
    if s.len() > 0 {
        lemma_stable_sorted_in_order(s.drop_last(), before);
        lemma_insert_sorted_in_order(stable_sorted(s.drop_last(), before), s.last(), before);
    }
}

/// A Thunderstore listing comes out in its sort's order: no package is
/// listed after one it should precede (more downloads, or a later creation
/// or update date, comes first).
pub proof fn listing_follows_its_sort(packages: Seq<TsPackage>, sort: ListSort)
    ensures
        in_order(
            stable_sorted(packages, |a: TsPackage, b: TsPackage| ts_before(sort, a, b)),
            |a: TsPackage, b: TsPackage| ts_before(sort, a, b),
        ),
{
    let before = |a: TsPackage, b: TsPackage| ts_before(sort, a, b);
    assert forall|a: TsPackage, b: TsPackage| #[trigger] before(a, b) implies !before(b, a) by {
        crate::redmod::lemma_text_lt_order(a.date_created@, b.date_created@, a.date_created@);
        crate::redmod::lemma_text_lt_order(a.date_updated@, b.date_updated@, a.date_updated@);
    }
    assert forall|a: TsPackage, b: TsPackage, c: TsPackage|
        #![trigger before(a, b), before(b, c)]
        !before(a, b) && !before(b, c) implies !before(a, c) by {
        crate::redmod::lemma_text_lt_order(c.date_created@, a.date_created@, b.date_created@);
        crate::redmod::lemma_text_lt_order(b.date_created@, a.date_created@, c.date_created@);
        crate::redmod::lemma_text_lt_order(c.date_created@, b.date_created@, a.date_created@);
        crate::redmod::lemma_text_lt_order(c.date_updated@, a.date_updated@, b.date_updated@);
        crate::redmod::lemma_text_lt_order(b.date_updated@, a.date_updated@, c.date_updated@);
        crate::redmod::lemma_text_lt_order(c.date_updated@, b.date_updated@, a.date_updated@);
    }
    lemma_stable_sorted_in_order(packages, before);
}

/// The detail-page URL of a package id `namespace/name`; an id without a
/// `/` is refused.
pub fn ts_files_url(mod_id: &str) -> (r: Result<String, Error>)
    ensures
        match split_at_slash(mod_id@) {
            Some((ns, name)) => r matches Ok(u) && u@ == "https://thunderstore.io/api/experimental/package/"@ + ns + seq!['/'] + name + seq!['/'],
            None => r matches Err(Error::Other(m)) && m@ == "bad thunderstore id: "@ + mod_id@,
        },
{
    let cs = chars_of(mod_id);
    let mut k: usize = 0;
    while k < cs.len() && cs[k] != '/'
        invariant
            cs@ == mod_id@,
            k <= cs@.len(),
            forall|j: int| 0 <= j < k ==> cs@[j] != '/',
        decreases cs@.len() - k,
    {
        k = k + 1;
    }
    if k == cs.len() {
        let mut m = owned("bad thunderstore id: ");
        push_str(&mut m, mod_id);
        return Err(Error::Other(m));
    }
    proof {
        lemma_split_at(mod_id@, k as int);
    }
    let ns = crate::text::string_of(&crate::text::slice_chars(&cs, 0, k));
    let name = crate::text::string_of(&crate::text::slice_chars(&cs, k + 1, cs.len()));
    let mut u = owned("https://thunderstore.io/api/experimental/package/");
    push_str(&mut u, ns.as_str());
    push_char(&mut u, '/');
    push_str(&mut u, name.as_str());
    push_char(&mut u, '/');
    Ok(u)
}

/// `str::split_once('/')`.
pub open spec fn split_at_slash(s: Seq<char>) -> Option<(Seq<char>, Seq<char>)> {
    if exists|k: int| 0 <= k < s.len() && s[k] == '/' {
        let k = choose|k: int| 0 <= k < s.len() && s[k] == '/' && forall|j: int| 0 <= j < k ==> s[j] != '/';
        Some((s.take(k), s.skip(k + 1)))
    } else {
        None
    }
}

proof fn lemma_split_at(s: Seq<char>, k: int)
    requires
        0 <= k < s.len(),
        s[k] == '/',
        forall|j: int| 0 <= j < k ==> s[j] != '/',
    ensures
        split_at_slash(s) == Some((s.take(k), s.skip(k + 1))),
        s.take(k) == s.subrange(0, k),
        s.skip(k + 1) == s.subrange(k + 1, s.len() as int),
{
    let c = choose|c: int| 0 <= c < s.len() && s[c] == '/' && forall|j: int| 0 <= j < c ==> s[j] != '/';
    assert(0 <= k < s.len() && s[k] == '/' && forall|j: int| 0 <= j < k ==> s[j] != '/');
    if c < k {
        assert(s[c] != '/');
    } else if c > k {
        assert(s[k] != '/');
    }
    assert(s.take(k) =~= s.subrange(0, k));
    assert(s.skip(k + 1) =~= s.subrange(k + 1, s.len() as int));
}

/// The downloadable versions of a package: id and version are the version
/// number, the name is the full name.
pub fn ts_files(versions: &[TsDetailVersion]) -> (r: Vec<RemoteFile>)
    ensures
        r@.map_values(|f: RemoteFile| remote_view(f)) == versions@.map_values(
            |v: TsDetailVersion| (v.version_number@, v.full_name@, v.version_number@, v.download_url@, v.file_size),
        ),
{
    let mut out: Vec<RemoteFile> = Vec::new();
    let mut i: usize = 0;
    while i < versions.len()
        invariant
            i <= versions@.len(),
            out@.map_values(|f: RemoteFile| remote_view(f)) == versions@.take(i as int).map_values(
                |v: TsDetailVersion| (v.version_number@, v.full_name@, v.version_number@, v.download_url@, v.file_size),
            ),
        decreases versions@.len() - i,
    {
        let v = &versions[i];
        let f = RemoteFile {
            id: owned(v.version_number.as_str()),
            name: owned(v.full_name.as_str()),
            version: owned(v.version_number.as_str()),
            url: owned(v.download_url.as_str()),
            size: v.file_size,
        };
        let ghost before = out@.map_values(|f: RemoteFile| remote_view(f));
        out.push(f);
        assert(out@.map_values(|f: RemoteFile| remote_view(f)) =~= before.push(remote_view(f)));
        assert(versions@.take(i + 1).map_values(
            |v: TsDetailVersion| (v.version_number@, v.full_name@, v.version_number@, v.download_url@, v.file_size),
        ) =~= versions@.take(i as int).map_values(
            |v: TsDetailVersion| (v.version_number@, v.full_name@, v.version_number@, v.download_url@, v.file_size),
        ).push(remote_view(f)));
        i = i + 1;
    }
    assert(versions@.take(i as int) =~= versions@);
    out
}

// ---- mod.io -------------------------------------------------------------------------

/// mod.io's platform name.
pub const MODIO: &'static str = "mod.io";

/// A mod as mod.io lists it.
#[derive(Debug, Clone)]
pub struct ModioMod {
    pub id: u64,
    pub name: String,
    pub summary: String,
    /// The submitter's user name, when given.
    pub submitted_by: Option<String>,
    /// Total downloads, when stats are given.
    pub downloads_total: Option<u64>,
}

/// A file as mod.io lists it.
#[derive(Debug, Clone)]
pub struct ModioFile {
    pub id: u64,
    pub version: Option<String>,
    pub filename: String,
    pub filesize: u64,
    pub binary_url: String,
}

/// A mod.io API key must not be blank.
pub fn modio_check_key(api_key: &str) -> (r: Result<(), Error>)
    ensures
        trim(api_key@).len() == 0 ==> (r matches Err(Error::Other(m)) && m@ == "mod.io API key required"@),
        trim(api_key@).len() > 0 ==> r is Ok,
{
    let t = trim_str(api_key);
    if t.as_str().is_empty() {
        return Err(Error::Other(owned("mod.io API key required")));
    }
    Ok(())
}

/// `url` with the API key as a query parameter.
pub open spec fn keyed(url: Seq<char>, key: Seq<char>) -> Seq<char> {
    url + (if url.contains('?') {
        seq!['&']
    } else {
        seq!['?']
    }) + "api_key="@ + key
}

/// Adds the API key to a request URL.
pub fn with_key(url: &str, api_key: &str) -> (r: String)
    ensures
        r@ == keyed(url@, api_key@),
{
    let cs = chars_of(url);
    let mut has_q = false;
    let mut i: usize = 0;
    while i < cs.len()
        invariant
            cs@ == url@,
            i <= cs@.len(),
            has_q == exists|j: int| 0 <= j < i && cs@[j] == '?',
        decreases cs@.len() - i,
    {
        if cs[i] == '?' {
            has_q = true;
        }
        i = i + 1;
    }
    let mut r = owned(url);
    push_char(&mut r, if has_q { '&' } else { '?' });
    push_str(&mut r, "api_key=");
    push_str(&mut r, api_key);
    assert(has_q == url@.contains('?'));
    r
}

/// The `_sort` value of a listing.
pub open spec fn modio_sort_of(sort: ListSort) -> Seq<char> {
    match sort {
        ListSort::Top => "-popular"@,
        ListSort::Newest => "-id"@,
        ListSort::Updated => "-date_updated"@,
    }
}

/// The listing URL for a game id; a game without one is not on mod.io.
pub fn modio_list_url(game: &str, sort: ListSort) -> (r: Result<String, Error>)
    ensures
        game@.len() == 0 ==> (r matches Err(Error::GameUnsupported(p)) && p@ == MODIO@),
        game@.len() > 0 ==> (r matches Ok(u) && u@ == "https://api.mod.io/v1/games/"@ + game@
            + "/mods?_limit=100&_sort="@ + modio_sort_of(sort)),
{
    if game.is_empty() {
        return Err(Error::GameUnsupported(owned(MODIO)));
    }
    let mut u = owned("https://api.mod.io/v1/games/");
    push_str(&mut u, game);
    push_str(&mut u, "/mods?_limit=100&_sort=");
    push_str(&mut u, match sort {
        ListSort::Top => "-popular",
        ListSort::Newest => "-id",
        ListSort::Updated => "-date_updated",
    });
    Ok(u)
}

/// The files URL of a mod.
pub fn modio_files_url(game: &str, mod_id: &str) -> (r: String)
    ensures
        r@ == "https://api.mod.io/v1/games/"@ + game@ + "/mods/"@ + mod_id@ + "/files"@,
{
    let mut u = owned("https://api.mod.io/v1/games/");
    push_str(&mut u, game);
    push_str(&mut u, "/mods/");
    push_str(&mut u, mod_id);
    push_str(&mut u, "/files");
    u
}

/// A mod.io mod as a browse entry.
pub open spec fn modio_listed(m: ModioMod) -> (Seq<char>, Seq<char>, Seq<char>, Seq<char>, u64) {
    (
        decimal(m.id as nat),
        m.name@,
        match m.submitted_by {
            Some(u) => u@,
            None => seq![],
        },
        m.summary@,
        match m.downloads_total {
            Some(d) => d,
            None => 0,
        },
    )
}

/// The browse list from mod.io's answer.
pub fn modio_listing(mods: &[ModioMod]) -> (r: Vec<ListedMod>)
    ensures
        r@.map_values(|m: ListedMod| listed_view(m)) == mods@.map_values(|m: ModioMod| modio_listed(m)),
{
    let mut out: Vec<ListedMod> = Vec::new();
    let mut i: usize = 0;
    while i < mods.len()
        invariant
            i <= mods@.len(),
            out@.map_values(|m: ListedMod| listed_view(m)) == mods@.take(i as int).map_values(
                |m: ModioMod| modio_listed(m),
            ),
        decreases mods@.len() - i,
    {
        let m = &mods[i];
        let l = ListedMod {
            id: decimal_string(m.id),
            name: owned(m.name.as_str()),
            author: match &m.submitted_by {
                Some(u) => owned(u.as_str()),
                None => String::new(),
            },
            summary: owned(m.summary.as_str()),
            downloads: match m.downloads_total {
                Some(d) => d,
                None => 0,
            },
        };
        let ghost before = out@.map_values(|m: ListedMod| listed_view(m));
        out.push(l);
        assert(out@.map_values(|m: ListedMod| listed_view(m)) =~= before.push(listed_view(l)));
        assert(mods@.take(i + 1).map_values(|m: ModioMod| modio_listed(m)) =~= mods@.take(i as int).map_values(
            |m: ModioMod| modio_listed(m),
        ).push(modio_listed(mods@[i as int])));
        i = i + 1;
    }
    assert(mods@.take(i as int) =~= mods@);
    out
}

/// A mod.io file as a downloadable file (its URL carries the key).
pub open spec fn modio_remote(f: ModioFile, key: Seq<char>) -> (Seq<char>, Seq<char>, Seq<char>, Seq<char>, u64) {
    (
        decimal(f.id as nat),
        f.filename@,
        match f.version {
            Some(v) => v@,
            None => seq![],
        },
        keyed(f.binary_url@, key),
        f.filesize,
    )
}

/// The file list from mod.io's answer.
pub fn modio_files(files: &[ModioFile], api_key: &str) -> (r: Vec<RemoteFile>)
    ensures
        r@.map_values(|f: RemoteFile| remote_view(f)) == files@.map_values(|f: ModioFile| modio_remote(f, api_key@)),
{
    let mut out: Vec<RemoteFile> = Vec::new();
    let mut i: usize = 0;
    while i < files.len()
        invariant
            i <= files@.len(),
            out@.map_values(|f: RemoteFile| remote_view(f)) == files@.take(i as int).map_values(
                |f: ModioFile| modio_remote(f, api_key@),
            ),
        decreases files@.len() - i,
    {
        let f = &files[i];
        let r = RemoteFile {
            id: decimal_string(f.id),
            name: owned(f.filename.as_str()),
            version: match &f.version {
                Some(v) => owned(v.as_str()),
                None => String::new(),
            },
            url: with_key(f.binary_url.as_str(), api_key),
            size: f.filesize,
        };
        let ghost before = out@.map_values(|f: RemoteFile| remote_view(f));
        out.push(r);
        assert(out@.map_values(|f: RemoteFile| remote_view(f)) =~= before.push(remote_view(r)));
        assert(files@.take(i + 1).map_values(|f: ModioFile| modio_remote(f, api_key@)) =~= files@.take(
            i as int,
        ).map_values(|f: ModioFile| modio_remote(f, api_key@)).push(modio_remote(files@[i as int], api_key@)));
        i = i + 1;
    }
    assert(files@.take(i as int) =~= files@);
    out
}

// ---- GameBanana -----------------------------------------------------------------------

/// GameBanana's platform name.
pub const GAMEBANANA: &'static str = "gamebanana";

/// A record of a GameBanana subfeed.
#[derive(Debug, Clone)]
pub struct GbRecord {
    pub id: u64,
    pub name: String,
    pub submitter: Option<String>,
    pub text: String,
    pub views: u64,
    /// The record's model (`Mod`, or another kind of submission).
    pub model: String,
}

/// A file of a GameBanana download page.
#[derive(Debug, Clone)]
pub struct GbFile {
    pub id: u64,
    pub file: String,
    pub filesize: u64,
    pub download_url: String,
    pub version: String,
}

/// The subfeed URL for a game id; a game without one is not on GameBanana.
pub fn gb_list_url(game: &str) -> (r: Result<String, Error>)
    ensures
        game@.len() == 0 ==> (r matches Err(Error::GameUnsupported(p)) && p@ == GAMEBANANA@),
        game@.len() > 0 ==> (r matches Ok(u) && u@ == "https://gamebanana.com/apiv11/Game/"@ + game@ + "/Subfeed?_nPage=1"@),
{
    if game.is_empty() {
        return Err(Error::GameUnsupported(owned(GAMEBANANA)));
    }
    let mut u = owned("https://gamebanana.com/apiv11/Game/");
    push_str(&mut u, game);
    push_str(&mut u, "/Subfeed?_nPage=1");
    Ok(u)
}

/// The download page URL of a mod.
pub fn gb_files_url(mod_id: &str) -> (r: String)
    ensures
        r@ == "https://gamebanana.com/apiv11/Mod/"@ + mod_id@ + "/DownloadPage"@,
{
    let mut u = owned("https://gamebanana.com/apiv11/Mod/");
    push_str(&mut u, mod_id);
    push_str(&mut u, "/DownloadPage");
    u
}

/// A record that is a mod (no model given, or `Mod`).
pub open spec fn is_mod_record(r: GbRecord) -> bool {
    r.model@.len() == 0 || r.model@ == "Mod"@
}

/// A record as a browse entry (views stand in for downloads).
pub open spec fn gb_listed(r: GbRecord) -> (Seq<char>, Seq<char>, Seq<char>, Seq<char>, u64) {
    (
        decimal(r.id as nat),
        r.name@,
        match r.submitter {
            Some(s) => s@,
            None => seq![],
        },
        r.text@,
        r.views,
    )
}

/// The browse entries of the mod records among the first `n`.
pub open spec fn gb_listed_upto(rs: Seq<GbRecord>, n: int) -> Seq<(Seq<char>, Seq<char>, Seq<char>, Seq<char>, u64)>
    decreases n,
{
    if n <= 0 {
        seq![]
    } else if is_mod_record(rs[n - 1]) {
        gb_listed_upto(rs, n - 1).push(gb_listed(rs[n - 1]))
    } else {
        gb_listed_upto(rs, n - 1)
    }
}

/// The browse list from a subfeed: its mod records, in order.
pub fn records_to_listed(records: &[GbRecord]) -> (r: Vec<ListedMod>)
    ensures
        r@.map_values(|m: ListedMod| listed_view(m)) == gb_listed_upto(records@, records@.len() as int),
{
    let mut out: Vec<ListedMod> = Vec::new();
    let mut i: usize = 0;
    while i < records.len()
        invariant
            i <= records@.len(),
            out@.map_values(|m: ListedMod| listed_view(m)) == gb_listed_upto(records@, i as int),
        decreases records@.len() - i,
    {
        let r = &records[i];
        if r.model.as_str().is_empty() || str_eq(r.model.as_str(), "Mod") {
            let l = ListedMod {
                id: decimal_string(r.id),
                name: owned(r.name.as_str()),
                author: match &r.submitter {
                    Some(s) => owned(s.as_str()),
                    None => String::new(),
                },
                summary: owned(r.text.as_str()),
                downloads: r.views,
            };
            let ghost before = out@.map_values(|m: ListedMod| listed_view(m));
            out.push(l);
            assert(out@.map_values(|m: ListedMod| listed_view(m)) =~= before.push(listed_view(l)));
        }
        i = i + 1;
    }
    out
}

/// A download page file as a downloadable file.
pub open spec fn gb_remote(f: GbFile) -> (Seq<char>, Seq<char>, Seq<char>, Seq<char>, u64) {
    (decimal(f.id as nat), f.file@, f.version@, f.download_url@, f.filesize)
}

/// The file list of a download page.
pub fn gb_files(files: &[GbFile]) -> (r: Vec<RemoteFile>)
    ensures
        r@.map_values(|f: RemoteFile| remote_view(f)) == files@.map_values(|f: GbFile| gb_remote(f)),
{
    let mut out: Vec<RemoteFile> = Vec::new();
    let mut i: usize = 0;
    while i < files.len()
        invariant
            i <= files@.len(),
            out@.map_values(|f: RemoteFile| remote_view(f)) == files@.take(i as int).map_values(|f: GbFile| gb_remote(f)),
        decreases files@.len() - i,
    {
        let f = &files[i];
        let r = RemoteFile {
            id: decimal_string(f.id),
            name: owned(f.file.as_str()),
            version: owned(f.version.as_str()),
            url: owned(f.download_url.as_str()),
            size: f.filesize,
        };
        let ghost before = out@.map_values(|f: RemoteFile| remote_view(f));
        out.push(r);
        assert(out@.map_values(|f: RemoteFile| remote_view(f)) =~= before.push(remote_view(r)));
        assert(files@.take(i + 1).map_values(|f: GbFile| gb_remote(f)) =~= files@.take(i as int).map_values(
            |f: GbFile| gb_remote(f),
        ).push(gb_remote(files@[i as int])));
        i = i + 1;
    }
    assert(files@.take(i as int) =~= files@);
    out
}

// ---- the browse panel ---------------------------------------------------------------

/// The browse sources, in the order of the source picker.
#[derive(Debug, Clone, Copy, PartialEq, Eq, Structural)]
pub enum Source {
    Nexus,
    Thunderstore,
    Modio,
    GameBanana,
}

impl Source {
    /// The source at a picker index; anything unknown is Nexus.
    pub fn from_index(i: usize) -> (r: Source)
        ensures
            r == if i == 1 {
                Source::Thunderstore
            } else if i == 2 {
                Source::Modio
            } else if i == 3 {
                Source::GameBanana
            } else {
                Source::Nexus
            },
    {
        if i == 1 {
            Source::Thunderstore
        } else if i == 2 {
            Source::Modio
        } else if i == 3 {
            Source::GameBanana
        } else {
            Source::Nexus
        }
    }
}

/// `%20` replaced by a blank, scanning from the left.
pub open spec fn unescape_spaces(s: Seq<char>) -> Seq<char>
    decreases s.len(),
{
    if s.len() == 0 {
        seq![]
    } else if s.len() >= 3 && s[0] == '%' && s[1] == '2' && s[2] == '0' {
        seq![' '] + unescape_spaces(s.skip(3))
    } else {
        seq![s[0]] + unescape_spaces(s.skip(1))
    }
}

/// The position of the first `c` in `s`, or its length.
pub open spec fn first_of(s: Seq<char>, c: char) -> int
    decreases s.len(),
{
    if s.len() == 0 || s[0] == c {
        0
    } else {
        1 + first_of(s.drop_first(), c)
    }
}

/// The text after the last `c` in `s` (all of `s` without one).
pub open spec fn after_last(s: Seq<char>, c: char) -> Seq<char>
    decreases s.len(),
{
    if s.len() == 0 {
        seq![]
    } else if s.last() == c {
        seq![]
    } else {
        after_last(s.drop_last(), c).push(s.last())
    }
}

/// The file name a download URL names: the last path segment before any
/// query, with `%20` decoded; `None` when it is empty.
pub open spec fn uri_file_name(uri: Seq<char>) -> Option<Seq<char>> {
    let name = after_last(uri.take(first_of(uri, '?')), '/');
    if name.len() == 0 {
        None
    } else {
        Some(unescape_spaces(name))
    }
}

proof fn lemma_first_of(s: Seq<char>, c: char)
    ensures
        0 <= first_of(s, c) <= s.len(),
        first_of(s, c) < s.len() ==> s[first_of(s, c)] == c,
        forall|j: int| 0 <= j < first_of(s, c) ==> s[j] != c,
    decreases s.len(),
{
    if s.len() > 0 && s[0] != c {
        lemma_first_of(s.drop_first(), c);
        assert forall|j: int| 0 <= j < first_of(s, c) implies s[j] != c by {
            if j > 0 {
                assert(s[j] == s.drop_first()[j - 1]);
            }
        }
    }
}

/// The file name a download URL names.
pub fn filename_from_uri(uri: &str) -> (r: Option<String>)
    ensures
        opt_str_eq(r, uri_file_name(uri@)),
{
    let cs = chars_of(uri);
    let mut q: usize = 0;
    assert(uri@.skip(0) =~= uri@);
    while q < cs.len() && cs[q] != '?'
        invariant
            cs@ == uri@,
            q <= cs@.len(),
            first_of(uri@, '?') == q + first_of(uri@.skip(q as int), '?'),
        decreases cs@.len() - q,
    {
        assert(uri@.skip(q as int).drop_first() =~= uri@.skip(q + 1));
        q = q + 1;
    }
    proof {
        if q < cs@.len() {
            assert(uri@.skip(q as int)[0] == '?');
        } else {
            assert(uri@.skip(q as int).len() == 0);
        }
    }
    let ghost head = uri@.take(q as int);
    let mut start: usize = q;
    assert(head.take(q as int) =~= head);
    assert(head.skip(q as int) =~= Seq::<char>::empty());
    while start > 0 && cs[start - 1] != '/'
        invariant
            cs@ == uri@,
            start <= q <= cs@.len(),
            head == uri@.take(q as int),
            after_last(head, '/') == after_last(head.take(start as int), '/') + head.skip(start as int),
        decreases start,
    {
        assert(head.take(start as int).drop_last() =~= head.take(start - 1));
        assert(head.take(start as int).last() == cs@[start - 1]);
        assert(head.skip(start - 1) =~= seq![cs@[start - 1]] + head.skip(start as int));
        start = start - 1;
    }
    proof {
        if start > 0 {
            assert(head.take(start as int).last() == '/');
        } else {
            assert(head.take(0) =~= Seq::<char>::empty());
        }
        assert(after_last(head, '/') =~= head.skip(start as int));
    }
    if start == q {
        return None;
    }
    let mut out = String::new();
    let mut i: usize = start;
    assert(head.skip(start as int) =~= cs@.subrange(start as int, q as int));
    while i < q
        invariant
            cs@ == uri@,
            start <= i <= q <= cs@.len(),
            unescape_spaces(cs@.subrange(start as int, q as int)) == out@ + unescape_spaces(cs@.subrange(i as int, q as int)),
        decreases q - i,
    {
        if q - i > 2 && cs[i] == '%' && cs[i + 1] == '2' && cs[i + 2] == '0' {
            assert(cs@.subrange(i as int, q as int).skip(3) =~= cs@.subrange(i + 3, q as int));
            push_char(&mut out, ' ');
            i = i + 3;
        } else {
            assert(cs@.subrange(i as int, q as int).skip(1) =~= cs@.subrange(i + 1, q as int));
            push_char(&mut out, cs[i]);
            i = i + 1;
        }
    }
    assert(cs@.subrange(q as int, q as int) =~= Seq::<char>::empty());
    Some(out)
}

/// An optional string has the given text.
pub open spec fn opt_str_eq(r: Option<String>, t: Option<Seq<char>>) -> bool {
    match (r, t) {
        (Some(s), Some(x)) => s@ == x,
        (None, None) => true,
        _ => false,
    }
}

} // verus!
