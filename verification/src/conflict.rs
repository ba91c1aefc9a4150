//! Conflict detection: which enabled mods provide the same file, and which
//! one wins. The winner is the last provider in load order, as the deployer
//! lets a later mod's link replace an earlier one.

use vstd::prelude::*;
use crate::redmod::{lemma_text_lt_order, text_less, text_lt};
use crate::text::{owned, str_eq, views};

verus! {

/// A file that more than one enabled mod provides, and the mod that wins it.
#[derive(Debug, Clone)]
pub struct FileConflict {
    /// Path relative to the deploy root, forward-slashed.
    pub rel_path: String,
    /// Providing mod slugs, in load order (earliest first).
    pub providers: Vec<String>,
    /// Slug that wins (last in load order).
    pub winner: String,
}

/// Each source's slug and the relative paths of its files.
pub open spec fn source_views(s: Seq<(String, Vec<String>)>) -> Seq<(Seq<char>, Seq<Seq<char>>)> {
    s.map_values(|x: (String, Vec<String>)| (x.0@, views(x.1@)))
}

/// The slugs among the first `n` sources that provide `rel`, in order, each
/// once.
pub open spec fn providers_upto(srcs: Seq<(Seq<char>, Seq<Seq<char>>)>, rel: Seq<char>, n: int) -> Seq<
    Seq<char>,
>
    decreases n,
{
    if n <= 0 {
        seq![]
    } else {
        let p = providers_upto(srcs, rel, n - 1);
        if srcs[n - 1].1.contains(rel) && !p.contains(srcs[n - 1].0) {
            p.push(srcs[n - 1].0)
        } else {
            p
        }
    }
}

/// The slugs of the sources that provide `rel`, in load order, each once.
pub open spec fn providers_of(srcs: Seq<(Seq<char>, Seq<Seq<char>>)>, rel: Seq<char>) -> Seq<Seq<char>> {
    providers_upto(srcs, rel, srcs.len() as int)
}

/// Whether `rel` is provided by more than one mod.
pub open spec fn is_conflict(srcs: Seq<(Seq<char>, Seq<Seq<char>>)>, rel: Seq<char>) -> bool {
    providers_of(srcs, rel).len() > 1
}

/// What the conflict list states: one entry per conflicting path, sorted by
/// path, each with its providers in load order and the last as winner.
pub open spec fn conflicts_reported(
    srcs: Seq<(Seq<char>, Seq<Seq<char>>)>,
    out: Seq<FileConflict>,
) -> bool {
    &&& forall|k: int|
        0 <= k < out.len() ==> {
            let c = #[trigger] out[k];
            &&& views(c.providers@) == providers_of(srcs, c.rel_path@)
            &&& is_conflict(srcs, c.rel_path@)
            &&& c.winner@ == providers_of(srcs, c.rel_path@).last()
        }
    &&& forall|k: int, l: int|
        0 <= k < l < out.len() ==> text_lt(#[trigger] out[k].rel_path@, #[trigger] out[l].rel_path@)
    &&& forall|i: int, j: int| #![trigger srcs[i].1[j]]
        0 <= i < srcs.len() && 0 <= j < srcs[i].1.len() && is_conflict(srcs, srcs[i].1[j])
            ==> exists|k: int| 0 <= k < out.len() && #[trigger] out[k].rel_path@ == srcs[i].1[j]
}

/// Whether some string of `keys` is `p`.
pub open spec fn has_path(keys: Seq<String>, p: Seq<char>) -> bool {
    exists|m: int| 0 <= m < keys.len() && #[trigger] keys[m]@ == p
}

/// No string of `keys` occurs twice.
pub open spec fn distinct(keys: Seq<String>) -> bool {
    forall|a: int, b: int| 0 <= a < b < keys.len() ==> #[trigger] keys[a]@ != #[trigger] keys[b]@
}

/// The distinct relative paths of all sources, in encounter order.
fn distinct_paths(sources: &[(String, Vec<String>)]) -> (keys: Vec<String>)
    ensures
        distinct(keys@),
        forall|i: int, j: int| #![trigger sources@[i].1@[j]]
            0 <= i < sources@.len() && 0 <= j < sources@[i].1@.len() ==> has_path(keys@, sources@[i].1@[j]@),
{
    let mut keys: Vec<String> = Vec::new();
    let mut i: usize = 0;
    while i < sources.len()
        invariant
            i <= sources@.len(),
            distinct(keys@),
            forall|i2: int, j: int| #![trigger sources@[i2].1@[j]]
                0 <= i2 < i && 0 <= j < sources@[i2].1@.len() ==> has_path(keys@, sources@[i2].1@[j]@),
        decreases sources@.len() - i,
    {
        let files = &sources[i].1;
        let mut j: usize = 0;
        while j < files.len()
            invariant
                i < sources@.len(),
                *files == sources@[i as int].1,
                j <= files@.len(),
                distinct(keys@),
                forall|i2: int, j2: int| #![trigger sources@[i2].1@[j2]]
                    0 <= i2 < i && 0 <= j2 < sources@[i2].1@.len() ==> has_path(keys@, sources@[i2].1@[j2]@),
                forall|j2: int| #![trigger files@[j2]] 0 <= j2 < j ==> has_path(keys@, files@[j2]@),
            decreases files@.len() - j,
        {
            if !crate::text::contains_str(keys.as_slice(), files[j].as_str()) {
                proof {
                    assert forall|m: int| 0 <= m < keys@.len() implies keys@[m]@ != files@[j as int]@ by {
                        assert(views(keys@)[m] == keys@[m]@);
                    }
                }
                let ghost before = keys@;
                keys.push(owned(files[j].as_str()));
                proof {
                    assert(keys@[before.len() as int]@ == files@[j as int]@);
                    assert forall|p: Seq<char>| has_path(before, p) implies has_path(keys@, p) by {
                        let w = choose|m: int| 0 <= m < before.len() && #[trigger] before[m]@ == p;
                        assert(keys@[w] == before[w]);
                    }
                    assert(has_path(keys@, files@[j as int]@));
                }
            } else {
                proof {
                    let w = choose|m: int| 0 <= m < views(keys@).len() && views(keys@)[m] == files@[j as int]@;
                    assert(keys@[w]@ == views(keys@)[w]);
                }
            }
            j = j + 1;
        }
        i = i + 1;
    }
    keys
}

/// Whether `files` holds `rel`.
fn holds_path(files: &Vec<String>, rel: &str) -> (r: bool)
    ensures
        r == views(files@).contains(rel@),
{
    crate::text::contains_str(files.as_slice(), rel)
}

/// The providers of `rel`, in load order, each once.
fn providers_for(sources: &[(String, Vec<String>)], rel: &str) -> (r: Vec<String>)
    ensures
        views(r@) == providers_of(source_views(sources@), rel@),
{
    let ghost sv = source_views(sources@);
    let mut out: Vec<String> = Vec::new();
    let mut i: usize = 0;
    while i < sources.len()
        invariant
            sv == source_views(sources@),
            i <= sources@.len(),
            views(out@) == providers_upto(sv, rel@, i as int),
        decreases sources@.len() - i,
    {
        assert(sv[i as int] == (sources@[i as int].0@, views(sources@[i as int].1@)));
        if holds_path(&sources[i].1, rel) && !crate::text::contains_str(out.as_slice(), sources[i].0.as_str()) {
            let ghost before = views(out@);
            out.push(owned(sources[i].0.as_str()));
            assert(views(out@) =~= before.push(sources@[i as int].0@));
        }
        i = i + 1;
    }
    out
}

/// Whether a conflict entry is right for its path.
pub open spec fn reported(srcs: Seq<(Seq<char>, Seq<Seq<char>>)>, c: FileConflict) -> bool {
    &&& views(c.providers@) == providers_of(srcs, c.rel_path@)
    &&& is_conflict(srcs, c.rel_path@)
    &&& c.winner@ == providers_of(srcs, c.rel_path@).last()
}

/// Entries strictly ascending by path.
pub open spec fn sorted_by_path(out: Seq<FileConflict>) -> bool {
    forall|k: int, l: int|
        0 <= k < l < out.len() ==> text_lt(#[trigger] out[k].rel_path@, #[trigger] out[l].rel_path@)
}

/// Whether some entry is for `p`.
pub open spec fn has_entry(out: Seq<FileConflict>, p: Seq<char>) -> bool {
    exists|k: int| 0 <= k < out.len() && #[trigger] out[k].rel_path@ == p
}

/// Inserts `c` at its place in a list sorted by path that has no entry for
/// its path.
fn insert_sorted(out: &mut Vec<FileConflict>, c: FileConflict)
    requires
        sorted_by_path(old(out)@),
        !has_entry(old(out)@, c.rel_path@),
    ensures
        sorted_by_path(final(out)@),
        exists|pos: int| 0 <= pos <= old(out)@.len() && final(out)@ == old(out)@.insert(pos, c),
{
    let mut pos: usize = 0;
    while pos < out.len() && text_less(out[pos].rel_path.as_str(), c.rel_path.as_str())
        invariant
            pos <= out@.len(),
            out@ == old(out)@,
            forall|k: int| 0 <= k < pos ==> text_lt(#[trigger] out@[k].rel_path@, c.rel_path@),
        decreases out@.len() - pos,
    {
        pos = pos + 1;
    }
    let ghost before = out@;
    let ghost rel = c.rel_path@;
    proof {
        if pos < before.len() {
            assert(before[pos as int].rel_path@ != rel);
            lemma_text_lt_order(before[pos as int].rel_path@, rel, rel);
            assert(text_lt(rel, before[pos as int].rel_path@));
            assert forall|l: int| pos <= l < before.len() implies text_lt(rel, #[trigger] before[l].rel_path@) by {
                if l > pos {
                    lemma_text_lt_order(rel, before[pos as int].rel_path@, before[l].rel_path@);
                }
            }
        }
    }
    out.insert(pos, c);
    proof {
        assert forall|k: int, l: int|
            0 <= k < l < out@.len() implies text_lt(#[trigger] out@[k].rel_path@, #[trigger] out@[l].rel_path@) by {
            if l < pos {
                assert(out@[k] == before[k] && out@[l] == before[l]);
            } else if l == pos {
                assert(out@[k] == before[k]);
            } else if k < pos {
                assert(out@[k] == before[k] && out@[l] == before[l - 1]);
                lemma_text_lt_order(before[k].rel_path@, rel, before[l - 1].rel_path@);
            } else if k == pos {
                assert(out@[l] == before[l - 1]);
            } else {
                assert(out@[k] == before[k - 1] && out@[l] == before[l - 1]);
            }
        }
    }
}

/// Detects file conflicts across mods. `sources` holds each mod's slug and
/// the relative (forward-slashed) paths of its files, in load order
/// (earliest, lowest priority, first).
pub fn detect(sources: &[(String, Vec<String>)]) -> (r: Vec<FileConflict>)
    ensures
        conflicts_reported(source_views(sources@), r@),
{
    let ghost sv = source_views(sources@);
    let keys = distinct_paths(sources);
    let mut out: Vec<FileConflict> = Vec::new();
    let mut i: usize = 0;
    while i < keys.len()
        invariant
            sv == source_views(sources@),
            i <= keys@.len(),
            distinct(keys@),
            forall|k: int| 0 <= k < out@.len() ==> reported(sv, #[trigger] out@[k]),
            sorted_by_path(out@),
            forall|k: int| 0 <= k < out@.len() ==> has_path(keys@.take(i as int), #[trigger] out@[k].rel_path@),
            forall|m: int| 0 <= m < i && is_conflict(sv, #[trigger] keys@[m]@) ==> has_entry(out@, keys@[m]@),
        decreases keys@.len() - i,
    {
        let rel = keys[i].as_str();
        let provs = providers_for(sources, rel);
        if provs.len() > 1 {
            let winner = owned(provs[provs.len() - 1].as_str());
            assert(views(provs@)[provs@.len() - 1] == provs@[provs@.len() - 1]@);
            let c = FileConflict { rel_path: owned(rel), providers: provs, winner };
            proof {
                if has_entry(out@, rel@) {
                    let k = choose|k: int| 0 <= k < out@.len() && #[trigger] out@[k].rel_path@ == rel@;
                    assert(has_path(keys@.take(i as int), out@[k].rel_path@));
                    let m = choose|m: int| 0 <= m < keys@.take(i as int).len() && #[trigger] keys@.take(i as int)[m]@ == out@[k].rel_path@;
                    assert(keys@[m]@ == keys@[i as int]@);
                }
            }
            let ghost before = out@;
            insert_sorted(&mut out, c);
            proof {
                let pos = choose|pos: int| 0 <= pos <= before.len() && out@ == before.insert(pos, c);
                assert forall|k: int| 0 <= k < out@.len() implies reported(sv, #[trigger] out@[k]) && has_path(
                    keys@.take(i + 1),
                    out@[k].rel_path@,
                ) by {
                    if k < pos {
                        assert(out@[k] == before[k]);
                        assert(has_path(keys@.take(i as int), before[k].rel_path@));
                        let m = choose|m: int| 0 <= m < keys@.take(i as int).len() && #[trigger] keys@.take(i as int)[m]@ == before[k].rel_path@;
                        assert(keys@.take(i + 1)[m] == keys@.take(i as int)[m]);
                    } else if k > pos {
                        assert(out@[k] == before[k - 1]);
                        assert(has_path(keys@.take(i as int), before[k - 1].rel_path@));
                        let m = choose|m: int| 0 <= m < keys@.take(i as int).len() && #[trigger] keys@.take(i as int)[m]@ == before[k - 1].rel_path@;
                        assert(keys@.take(i + 1)[m] == keys@.take(i as int)[m]);
                    } else {
                        assert(out@[k] == c);
                        assert(keys@.take(i + 1)[i as int]@ == rel@);
                    }
                }
                assert forall|m: int| 0 <= m < i + 1 && is_conflict(sv, #[trigger] keys@[m]@) implies has_entry(out@, keys@[m]@) by {
                    if m < i {
                        let k = choose|k: int| 0 <= k < before.len() && #[trigger] before[k].rel_path@ == keys@[m]@;
                        if k < pos {
                            assert(out@[k] == before[k]);
                        } else {
                            assert(out@[k + 1] == before[k]);
                        }
                    } else {
                        assert(out@[pos] == c);
                    }
                }
            }
        } else {
            proof {
                assert forall|k: int| 0 <= k < out@.len() implies has_path(keys@.take(i + 1), #[trigger] out@[k].rel_path@) by {
                    let m = choose|m: int| 0 <= m < keys@.take(i as int).len() && #[trigger] keys@.take(i as int)[m]@ == out@[k].rel_path@;
                    assert(keys@.take(i + 1)[m] == keys@.take(i as int)[m]);
                }
            }
        }
        i = i + 1;
    }
    proof {
        assert forall|a: int, b: int| #![trigger sv[a].1[b]]
            0 <= a < sv.len() && 0 <= b < sv[a].1.len() && is_conflict(sv, sv[a].1[b]) implies exists|k: int|
                0 <= k < out@.len() && #[trigger] out@[k].rel_path@ == sv[a].1[b] by {
            assert(sv[a].1[b] == sources@[a].1@[b]@);
            assert(has_path(keys@, sources@[a].1@[b]@));
            let m = choose|m: int| 0 <= m < keys@.len() && #[trigger] keys@[m]@ == sources@[a].1@[b]@;
            assert(has_entry(out@, keys@[m]@));
        }
    }
    out
}

/// Builds ordered `(slug, dir)` sources: for each slug in order, its
/// directory (`dirs[i]`, when the mod is known) if it is a directory
/// (`is_dir[i]`).
pub fn sources_for(ordered_slugs: &[String], dirs: &[Option<String>], is_dir: &[bool]) -> (r: Vec<(String, String)>)
    requires
        dirs@.len() == ordered_slugs@.len(),
        is_dir@.len() == ordered_slugs@.len(),
    ensures
        r@.map_values(|p: (String, String)| (p.0@, p.1@)) == sources_upto(
            views(ordered_slugs@),
            dirs@.map_values(|d: Option<String>| crate::text::opt_str(d)),
            is_dir@,
            ordered_slugs@.len() as int,
        ),
{
    let mut out: Vec<(String, String)> = Vec::new();
    let mut i: usize = 0;
    while i < ordered_slugs.len()
        invariant
            i <= ordered_slugs@.len(),
            dirs@.len() == ordered_slugs@.len(),
            is_dir@.len() == ordered_slugs@.len(),
            out@.map_values(|p: (String, String)| (p.0@, p.1@)) == sources_upto(
                views(ordered_slugs@),
                dirs@.map_values(|d: Option<String>| crate::text::opt_str(d)),
                is_dir@,
                i as int,
            ),
        decreases ordered_slugs@.len() - i,
    {
        assert(views(ordered_slugs@)[i as int] == ordered_slugs@[i as int]@);
        assert(dirs@.map_values(|d: Option<String>| crate::text::opt_str(d))[i as int] == crate::text::opt_str(dirs@[i as int]));
        if let Some(d) = &dirs[i] {
            if is_dir[i] {
                let ghost before = out@.map_values(|p: (String, String)| (p.0@, p.1@));
                out.push((owned(ordered_slugs[i].as_str()), owned(d.as_str())));
                assert(out@.map_values(|p: (String, String)| (p.0@, p.1@)) =~= before.push(
                    (ordered_slugs@[i as int]@, d@),
                ));
            }
        }
        i = i + 1;
    }
    out
}

/// The `(slug, dir)` pairs of the first `n` slugs whose dir is known and is
/// a directory.
pub open spec fn sources_upto(slugs: Seq<Seq<char>>, dirs: Seq<Option<Seq<char>>>, is_dir: Seq<bool>, n: int) -> Seq<
    (Seq<char>, Seq<char>),
>
    decreases n,
{
    if n <= 0 {
        seq![]
    } else {
        let prev = sources_upto(slugs, dirs, is_dir, n - 1);
        match dirs[n - 1] {
            Some(d) => if is_dir[n - 1] {
                prev.push((slugs[n - 1], d))
            } else {
                prev
            },
            None => prev,
        }
    }
}

} // verus!
