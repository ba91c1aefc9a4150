//! Deployment bookkeeping: how files are linked into the game's deploy
//! root, the manifest that lets a deploy be reverted, and the decisions a
//! deploy makes for each file (which mod wins, what to back up, which
//! directories to remove first). The filesystem work is the caller's.

use vstd::prelude::*;
use crate::paths::{file_name, join, parent, path_file_name, path_join, path_parent};
use crate::text::{chars_of, owned, push_str, str_eq, views};

verus! {

/// Suffix of a backed-up original file.
pub const BACKUP_SUFFIX: &'static str = ".modeman-orig";

/// How files are placed into the game dir.
#[derive(Debug, Clone, Copy, PartialEq, Eq, Structural)]
pub enum LinkMethod {
    /// Symbolic links: robust, cross-filesystem, cheap. The default.
    Symlink,
    /// Hard links: appear as real files, but need the mod store and the game
    /// dir on one filesystem.
    Hardlink,
}

impl Default for LinkMethod {
    fn default() -> (r: LinkMethod)
        ensures
            r == LinkMethod::Symlink,
    {
        LinkMethod::Symlink
    }
}

/// Records what a deploy created so it can be cleanly reverted.
#[derive(Debug, Clone)]
pub struct DeployManifest {
    /// Relative paths (under the deploy root) of links we created.
    pub links: Vec<String>,
    /// Relative dirs we created (deepest first for removal).
    pub dirs: Vec<String>,
    /// Relative paths whose pre-existing real file was moved aside.
    pub backups: Vec<String>,
}

impl DeployManifest {
    /// A manifest of nothing.
    pub fn empty() -> (m: DeployManifest)
        ensures
            m.links@.len() == 0,
            m.dirs@.len() == 0,
            m.backups@.len() == 0,
    {
        DeployManifest { links: Vec::new(), dirs: Vec::new(), backups: Vec::new() }
    }

    /// Records a link, once per path.
    pub fn record_link(&mut self, rel: &str)
        ensures
            views(final(self).links@) == if views(old(self).links@).contains(rel@) {
                views(old(self).links@)
            } else {
                views(old(self).links@).push(rel@)
            },
            final(self).dirs == old(self).dirs,
            final(self).backups == old(self).backups,
    {
        if !crate::text::contains_str(self.links.as_slice(), rel) {
            let ghost before = views(self.links@);
            self.links.push(owned(rel));
            assert(views(self.links@) =~= before.push(rel@));
        }
    }

    /// Whether this deploy has linked `rel`.
    pub fn has_link(&self, rel: &str) -> (r: bool)
        ensures
            r == views(self.links@).contains(rel@),
    {
        crate::text::contains_str(self.links.as_slice(), rel)
    }

    /// Records a backed-up original.
    pub fn record_backup(&mut self, rel: &str)
        ensures
            views(final(self).backups@) == views(old(self).backups@).push(rel@),
            final(self).links == old(self).links,
            final(self).dirs == old(self).dirs,
    {
        let ghost before = views(self.backups@);
        self.backups.push(owned(rel));
        assert(views(self.backups@) =~= before.push(rel@));
    }
}

/// One mod's source tree plus its load-order rank (higher wins conflicts).
#[derive(Debug, Clone)]
pub struct DeploySource {
    pub root: String,
    pub rank: usize,
}

/// Links mod files into the game dir with a [`LinkMethod`]; the last source
/// in load order wins on a path conflict.
#[derive(Debug, Clone, Copy)]
pub struct LinkDeployer {
    pub method: LinkMethod,
}

impl LinkDeployer {
    /// A deployer that places files with `method`.
    pub fn new(method: LinkMethod) -> (d: LinkDeployer)
        ensures
            d.method == method,
    {
        LinkDeployer { method }
    }
}

/// Where the original at `dst` is kept: `dst` with the backup suffix added
/// to its file name (`Path::with_file_name`).
pub open spec fn backup_of(dst: Seq<char>) -> Seq<char> {
    match path_file_name(dst) {
        Some(n) => match path_parent(dst) {
            Some(p) => path_join(p, n + BACKUP_SUFFIX@),
            None => n + BACKUP_SUFFIX@,
        },
        None => path_join(dst, BACKUP_SUFFIX@),
    }
}

/// The backup path of a deployed file.
pub fn backup_path(dst: &str) -> (r: String)
    ensures
        r@ == backup_of(dst@),
{
    match file_name(dst) {
        Some(n) => {
            let mut name = n;
            push_str(&mut name, BACKUP_SUFFIX);
            match parent(dst) {
                Some(p) => join(p.as_str(), name.as_str()),
                None => name,
            }
        },
        None => join(dst, BACKUP_SUFFIX),
    }
}

/// What to do with whatever is at a destination before linking over it.
#[derive(Debug, Clone, Copy, PartialEq, Eq, Structural)]
pub enum ShadowAction {
    /// Nothing is there.
    Nothing,
    /// A link (ours, from earlier in this deploy): remove it.
    RemoveLink,
    /// A real file with no backup yet: move it to the backup path and
    /// record the backup.
    BackUp,
    /// A real file whose original is already backed up: remove it.
    RemoveFile,
}

/// Chooses how to clear a destination so that a vanilla file is never lost.
/// `linked_here` says that this deploy already linked the destination (a
/// lower-ranked mod's file, which with hard links is no symlink): such a
/// link is removed, never backed up as if it were an original.
pub fn shadow_action(dst_is_symlink: bool, linked_here: bool, dst_exists: bool, backup_exists: bool) -> (r: ShadowAction)
    ensures
        r == if dst_is_symlink || linked_here {
            ShadowAction::RemoveLink
        } else if dst_exists {
            if !backup_exists {
                ShadowAction::BackUp
            } else {
                ShadowAction::RemoveFile
            }
        } else {
            ShadowAction::Nothing
        },
{
    if dst_is_symlink || linked_here {
        ShadowAction::RemoveLink
    } else if dst_exists {
        if !backup_exists {
            ShadowAction::BackUp
        } else {
            ShadowAction::RemoveFile
        }
    } else {
        ShadowAction::Nothing
    }
}

/// Index `x` placed after the last index whose rank is not above its own.
pub open spec fn insert_by_rank(s: Seq<int>, ranks: Seq<usize>, x: int) -> Seq<int>
    decreases s.len(),
{
    if s.len() == 0 {
        seq![x]
    } else if ranks[s.last()] <= ranks[x] {
        s.push(x)
    } else {
        insert_by_rank(s.drop_last(), ranks, x).push(s.last())
    }
}

/// The indices `0..n` stably sorted by rank.
pub open spec fn rank_order(ranks: Seq<usize>, n: int) -> Seq<int>
    decreases n,
{
    if n <= 0 {
        seq![]
    } else {
        insert_by_rank(rank_order(ranks, n - 1), ranks, n - 1)
    }
}

proof fn lemma_insert_rank_at(s: Seq<int>, ranks: Seq<usize>, x: int, pos: int)
    requires
        0 <= pos <= s.len(),
        pos == 0 || ranks[s[pos - 1]] <= ranks[x],
        forall|k: int| pos <= k < s.len() ==> ranks[s[k]] > ranks[x],
    ensures
        insert_by_rank(s, ranks, x) == s.insert(pos, x),
    decreases s.len(),
{
    if s.len() == 0 {
        assert(s.insert(pos, x) =~= seq![x]);
    } else if pos == s.len() {
        assert(s.insert(pos, x) =~= s.push(x));
    } else {
        lemma_insert_rank_at(s.drop_last(), ranks, x, pos);
        assert(s.insert(pos, x) =~= s.drop_last().insert(pos, x).push(s.last()));
    }
}

proof fn lemma_rank_order_bounds(ranks: Seq<usize>, n: int)
    requires
        0 <= n <= ranks.len(),
    ensures
        rank_order(ranks, n).len() == n,
        forall|k: int| 0 <= k < n ==> 0 <= #[trigger] rank_order(ranks, n)[k] < n,
    decreases n,
{
    if n > 0 {
        lemma_rank_order_bounds(ranks, n - 1);
        lemma_insert_rank_bounds(rank_order(ranks, n - 1), ranks, n - 1, n);
    }
}

proof fn lemma_insert_rank_bounds(s: Seq<int>, ranks: Seq<usize>, x: int, n: int)
    requires
        0 <= x < n <= ranks.len(),
        forall|k: int| 0 <= k < s.len() ==> 0 <= #[trigger] s[k] < n,
    ensures
        insert_by_rank(s, ranks, x).len() == s.len() + 1,
        forall|k: int| 0 <= k < s.len() + 1 ==> 0 <= #[trigger] insert_by_rank(s, ranks, x)[k] < n,
    decreases s.len(),
{
    if s.len() > 0 && ranks[s.last()] > ranks[x] {
        lemma_insert_rank_bounds(s.drop_last(), ranks, x, n);
    }
}

/// The order in which the sources are applied: by rank, so higher ranks
/// overwrite earlier links; sources of equal rank keep their order.
pub fn order_by_rank(sources: &[DeploySource]) -> (r: Vec<usize>)
    ensures
        r@.map_values(|i: usize| i as int) == rank_order(
            sources@.map_values(|s: DeploySource| s.rank),
            sources@.len() as int,
        ),
{
    let ghost ranks = sources@.map_values(|s: DeploySource| s.rank);
    let mut out: Vec<usize> = Vec::new();
    let mut i: usize = 0;
    while i < sources.len()
        invariant
            ranks == sources@.map_values(|s: DeploySource| s.rank),
            i <= sources@.len(),
            out@.map_values(|j: usize| j as int) == rank_order(ranks, i as int),
        decreases sources@.len() - i,
    {
        proof {
            lemma_rank_order_bounds(ranks, i as int);
        }
        let ghost ov = out@.map_values(|j: usize| j as int);
        assert forall|k: int| 0 <= k < out@.len() implies (#[trigger] out@[k] as int) < i by {
            assert(ov[k] == out@[k] as int);
        }
        let mut pos: usize = out.len();
        while pos > 0 && sources[out[pos - 1]].rank > sources[i].rank
            invariant
                pos <= out@.len(),
                ov == out@.map_values(|j: usize| j as int),
                ov == rank_order(ranks, i as int),
                i < sources@.len(),
                ranks == sources@.map_values(|s: DeploySource| s.rank),
                forall|k: int| 0 <= k < ov.len() ==> 0 <= #[trigger] ov[k] < i,
                forall|k: int| 0 <= k < out@.len() ==> (#[trigger] out@[k] as int) < i,
                forall|k: int| pos <= k < out@.len() ==> ranks[ov[k]] > ranks[i as int],
            decreases pos,
        {
            assert(ov[pos - 1] == out@[pos - 1] as int);
            pos = pos - 1;
        }
        proof {
            if pos > 0 {
                assert(ov[pos - 1] == out@[pos - 1] as int);
            }
            lemma_insert_rank_at(ov, ranks, i as int, pos as int);
        }
        out.insert(pos, i);
        assert(out@.map_values(|j: usize| j as int) =~= ov.insert(pos as int, i as int));
        i = i + 1;
    }
    out
}

/// The indices in ascending rank.
pub open spec fn rank_sorted(s: Seq<int>, ranks: Seq<usize>) -> bool {
    forall|i: int, j: int| 0 <= i < j < s.len() ==> ranks[#[trigger] s[i]] <= ranks[#[trigger] s[j]]
}

proof fn lemma_insert_by_rank(s: Seq<int>, ranks: Seq<usize>, x: int)
    requires
        rank_sorted(s, ranks),
    ensures
        rank_sorted(insert_by_rank(s, ranks, x), ranks),
        insert_by_rank(s, ranks, x).to_multiset() == s.to_multiset().insert(x),
        forall|k: int| 0 <= k < insert_by_rank(s, ranks, x).len() ==> (#[trigger] insert_by_rank(s, ranks, x)[k] == x
            || s.contains(insert_by_rank(s, ranks, x)[k])),
    decreases s.len(),
{
    broadcast use vstd::seq_lib::group_to_multiset_ensures;
    if s.len() == 0 {
        assert(seq![x] =~= Seq::<int>::empty().push(x));
    } else if ranks[s.last()] <= ranks[x] {
        let r = s.push(x);
        assert forall|k: int| 0 <= k < r.len() implies (#[trigger] r[k] == x || s.contains(r[k])) by {
            if k < s.len() {
                assert(r[k] == s[k]);
            }
        }
        assert forall|i: int, j: int| 0 <= i < j < r.len() implies ranks[#[trigger] r[i]] <= ranks[#[trigger] r[j]] by {
            assert(r[i] == s[i]);
            if j < s.len() {
                assert(r[j] == s[j]);
            } else {
                assert(s[s.len() - 1] == s.last());
            }
        }
    } else {
        let d = s.drop_last();
        assert(rank_sorted(d, ranks)) by {
            assert forall|i: int, j: int| 0 <= i < j < d.len() implies ranks[#[trigger] d[i]] <= ranks[#[trigger] d[j]] by {
                assert(d[i] == s[i] && d[j] == s[j]);
            }
        }
        lemma_insert_by_rank(d, ranks, x);
        let t = insert_by_rank(d, ranks, x);
        let r = t.push(s.last());
        assert(s =~= d.push(s.last()));
        assert forall|k: int| 0 <= k < t.len() implies ranks[#[trigger] t[k]] <= ranks[s.last()] by {
            if t[k] != x {
                assert(d.contains(t[k]));
                let w = choose|w: int| 0 <= w < d.len() && d[w] == t[k];
                assert(s[w] == d[w]);
                assert(s[s.len() - 1] == s.last());
            }
        }
        assert forall|i: int, j: int| 0 <= i < j < r.len() implies ranks[#[trigger] r[i]] <= ranks[#[trigger] r[j]] by {
            if j < t.len() {
                assert(r[i] == t[i] && r[j] == t[j]);
            } else {
                assert(r[i] == t[i]);
            }
        }
        assert forall|k: int| 0 <= k < r.len() implies (#[trigger] r[k] == x || s.contains(r[k])) by {
            if k < t.len() {
                assert(r[k] == t[k]);
                if t[k] != x {
                    let w = choose|w: int| 0 <= w < d.len() && d[w] == t[k];
                    assert(s[w] == d[w]);
                }
            } else {
                assert(s[s.len() - 1] == r[k]);
            }
        }
    }
}

/// Sources are applied in ascending rank, so a higher rank overwrites what a
/// lower one linked, and each source is applied exactly once.
pub proof fn sources_apply_by_rank(ranks: Seq<usize>, n: int)
    requires
        0 <= n,
    ensures
        rank_sorted(rank_order(ranks, n), ranks),
        rank_order(ranks, n).to_multiset() == Seq::new(n as nat, |i: int| i).to_multiset(),
    decreases n,
{
    broadcast use vstd::seq_lib::group_to_multiset_ensures;
    if n > 0 {
        sources_apply_by_rank(ranks, n - 1);
        lemma_insert_by_rank(rank_order(ranks, n - 1), ranks, n - 1);
        assert(Seq::new(n as nat, |i: int| i) =~= Seq::new((n - 1) as nat, |i: int| i).push(n - 1));
    } else {
        assert(Seq::new(n as nat, |i: int| i) =~= Seq::<int>::empty());
    }
}

/// How many `/` a relative path holds.
pub open spec fn depth(s: Seq<char>) -> nat
    decreases s.len(),
{
    if s.len() == 0 {
        0
    } else {
        depth(s.drop_last()) + if s.last() == '/' {
            1nat
        } else {
            0nat
        }
    }
}

/// `x` placed after the last dir that is at least as deep.
pub open spec fn insert_by_depth(s: Seq<Seq<char>>, x: Seq<char>) -> Seq<Seq<char>>
    decreases s.len(),
{
    if s.len() == 0 {
        seq![x]
    } else if depth(s.last()) >= depth(x) {
        s.push(x)
    } else {
        insert_by_depth(s.drop_last(), x).push(s.last())
    }
}

/// The dirs deepest first; dirs of equal depth keep their order.
pub open spec fn deepest_first(s: Seq<Seq<char>>) -> Seq<Seq<char>>
    decreases s.len(),
{
    if s.len() == 0 {
        seq![]
    } else {
        insert_by_depth(deepest_first(s.drop_last()), s.last())
    }
}

proof fn lemma_insert_depth_at(s: Seq<Seq<char>>, x: Seq<char>, pos: int)
    requires
        0 <= pos <= s.len(),
        pos == 0 || depth(s[pos - 1]) >= depth(x),
        forall|k: int| pos <= k < s.len() ==> depth(s[k]) < depth(x),
    ensures
        insert_by_depth(s, x) == s.insert(pos, x),
    decreases s.len(),
{
    if s.len() == 0 {
        assert(s.insert(pos, x) =~= seq![x]);
    } else if pos == s.len() {
        assert(s.insert(pos, x) =~= s.push(x));
    } else {
        lemma_insert_depth_at(s.drop_last(), x, pos);
        assert(s.insert(pos, x) =~= s.drop_last().insert(pos, x).push(s.last()));
    }
}

/// The dirs, deepest first.
pub open spec fn depth_sorted(s: Seq<Seq<char>>) -> bool {
    forall|i: int, j: int| 0 <= i < j < s.len() ==> depth(#[trigger] s[i]) >= depth(#[trigger] s[j])
}

proof fn lemma_insert_by_depth(s: Seq<Seq<char>>, x: Seq<char>)
    requires
        depth_sorted(s),
    ensures
        depth_sorted(insert_by_depth(s, x)),
        insert_by_depth(s, x).to_multiset() == s.to_multiset().insert(x),
        forall|k: int| 0 <= k < insert_by_depth(s, x).len() ==> (#[trigger] insert_by_depth(s, x)[k] == x
            || s.contains(insert_by_depth(s, x)[k])),
    decreases s.len(),
{
    broadcast use vstd::seq_lib::group_to_multiset_ensures;
    if s.len() == 0 {
        assert(seq![x] =~= Seq::<Seq<char>>::empty().push(x));
    } else if depth(s.last()) >= depth(x) {
        let r = s.push(x);
        assert forall|k: int| 0 <= k < r.len() implies (#[trigger] r[k] == x || s.contains(r[k])) by {
            if k < s.len() {
                assert(r[k] == s[k]);
            }
        }
        assert forall|i: int, j: int| 0 <= i < j < r.len() implies depth(#[trigger] r[i]) >= depth(#[trigger] r[j]) by {
            assert(r[i] == s[i]);
            if j < s.len() {
                assert(r[j] == s[j]);
            } else {
                assert(s[s.len() - 1] == s.last());
            }
        }
    } else {
        let d = s.drop_last();
        assert(depth_sorted(d)) by {
            assert forall|i: int, j: int| 0 <= i < j < d.len() implies depth(#[trigger] d[i]) >= depth(#[trigger] d[j]) by {
                assert(d[i] == s[i] && d[j] == s[j]);
            }
        }
        lemma_insert_by_depth(d, x);
        let t = insert_by_depth(d, x);
        let r = t.push(s.last());
        assert(s =~= d.push(s.last()));
        assert forall|k: int| 0 <= k < t.len() implies depth(#[trigger] t[k]) >= depth(s.last()) by {
            if t[k] != x {
                assert(d.contains(t[k]));
                let w = choose|w: int| 0 <= w < d.len() && d[w] == t[k];
                assert(s[w] == d[w]);
                assert(s[s.len() - 1] == s.last());
            }
        }
        assert forall|i: int, j: int| 0 <= i < j < r.len() implies depth(#[trigger] r[i]) >= depth(#[trigger] r[j]) by {
            if j < t.len() {
                assert(r[i] == t[i] && r[j] == t[j]);
            } else {
                assert(r[i] == t[i]);
            }
        }
        assert forall|k: int| 0 <= k < r.len() implies (#[trigger] r[k] == x || s.contains(r[k])) by {
            if k < t.len() {
                assert(r[k] == t[k]);
                if t[k] != x {
                    let w = choose|w: int| 0 <= w < d.len() && d[w] == t[k];
                    assert(s[w] == d[w]);
                }
            } else {
                assert(s[s.len() - 1] == r[k]);
            }
        }
    }
}

/// Created dirs are removed deepest first, so a dir is emptied before its
/// parent is tried, and each created dir is tried exactly once.
pub proof fn dirs_are_removed_deepest_first(dirs: Seq<Seq<char>>)
    ensures
        depth_sorted(deepest_first(dirs)),
        deepest_first(dirs).to_multiset() == dirs.to_multiset(),
    decreases dirs.len(),
{
    broadcast use vstd::seq_lib::group_to_multiset_ensures;
    if dirs.len() > 0 {
        dirs_are_removed_deepest_first(dirs.drop_last());
        lemma_insert_by_depth(deepest_first(dirs.drop_last()), dirs.last());
        assert(dirs =~= dirs.drop_last().push(dirs.last()));
    } else {
        assert(dirs.to_multiset() =~= deepest_first(dirs).to_multiset());
    }
}

/// The number of `/` in `s`.
pub fn slash_count(s: &str) -> (n: usize)
    ensures
        n == depth(s@),
{
    let cs = chars_of(s);
    let mut n: usize = 0;
    let mut i: usize = 0;
    while i < cs.len()
        invariant
            cs@ == s@,
            i <= cs@.len(),
            n == depth(cs@.take(i as int)),
            n <= i,
        decreases cs@.len() - i,
    {
        assert(cs@.take(i + 1).drop_last() =~= cs@.take(i as int));
        if cs[i] == '/' {
            n = n + 1;
        }
        i = i + 1;
    }
    assert(cs@.take(i as int) =~= cs@);
    n
}

/// Created dirs in removal order: deepest first, so that a dir is emptied
/// before its parent is tried.
pub fn removal_order(dirs: &[String]) -> (r: Vec<String>)
    ensures
        views(r@) == deepest_first(views(dirs@)),
{
    let mut out: Vec<String> = Vec::new();
    let mut depths: Vec<usize> = Vec::new();
    let mut i: usize = 0;
    while i < dirs.len()
        invariant
            i <= dirs@.len(),
            views(out@) == deepest_first(views(dirs@).take(i as int)),
            depths@.len() == out@.len(),
            forall|k: int| 0 <= k < out@.len() ==> depths@[k] == depth(#[trigger] out@[k]@),
        decreases dirs@.len() - i,
    {
        let d = slash_count(dirs[i].as_str());
        let ghost ov = views(out@);
        let mut pos: usize = out.len();
        while pos > 0 && depths[pos - 1] < d
            invariant
                pos <= out@.len(),
                depths@.len() == out@.len(),
                ov == views(out@),
                forall|k: int| 0 <= k < out@.len() ==> depths@[k] == depth(#[trigger] out@[k]@),
                forall|k: int| pos <= k < out@.len() ==> depth(ov[k]) < d,
            decreases pos,
        {
            assert(ov[pos - 1] == out@[pos - 1]@);
            pos = pos - 1;
        }
        proof {
            if pos > 0 {
                assert(ov[pos - 1] == out@[pos - 1]@);
            }
            assert(dirs@[i as int]@ == views(dirs@)[i as int]);
            lemma_insert_depth_at(ov, dirs@[i as int]@, pos as int);
            assert(views(dirs@).take(i + 1).drop_last() =~= views(dirs@).take(i as int));
        }
        let ghost prev_out = out@;
        let ghost prev_depths = depths@;
        out.insert(pos, owned(dirs[i].as_str()));
        depths.insert(pos, d);
        assert(views(out@) =~= ov.insert(pos as int, dirs@[i as int]@));
        assert forall|k: int| 0 <= k < out@.len() implies depths@[k] == depth(#[trigger] out@[k]@) by {
            if k < pos {
            } else if k > pos {
                assert(out@[k] == prev_out[k - 1] && depths@[k] == prev_depths[k - 1]);
            }
        }
        i = i + 1;
    }
    assert(views(dirs@).take(i as int) =~= views(dirs@));
    out
}

} // verus!
