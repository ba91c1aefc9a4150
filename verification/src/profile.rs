//! Profiles: named, ordered, toggleable mod lists. Order = load order,
//! top (index 0) is lowest priority, bottom wins file conflicts.

use vstd::prelude::*;
use crate::text::{owned, str_eq};

verus! {

/// A mod in a load order, and whether it is enabled.
#[derive(Debug)]
pub struct ModEntry {
    pub slug: String,
    pub enabled: bool,
}

/// A named load order.
#[derive(Debug)]
pub struct Profile {
    pub name: String,
    /// Ordered load order. Later entries override earlier ones on conflict.
    pub order: Vec<ModEntry>,
}

/// Index of the first entry for `slug`, if any.
pub open spec fn first_slug(order: Seq<ModEntry>, slug: Seq<char>) -> Option<int> {
    if exists|i: int| 0 <= i < order.len() && order[i].slug@ == slug {
        Some(
            choose|i: int|
                0 <= i < order.len() && order[i].slug@ == slug && forall|j: int|
                    0 <= j < i ==> order[j].slug@ != slug,
        )
    } else {
        None
    }
}

/// When `first_slug` finds an index, it is the first entry with that slug.
pub proof fn lemma_first_slug_found(order: Seq<ModEntry>, slug: Seq<char>)
    ensures
        first_slug(order, slug) matches Some(i) ==> 0 <= i < order.len() && order[i].slug@ == slug
            && forall|j: int| 0 <= j < i ==> order[j].slug@ != slug,
{
    if exists|i: int| 0 <= i < order.len() && order[i].slug@ == slug {
        let w = choose|i: int| 0 <= i < order.len() && order[i].slug@ == slug;
        lemma_first_match_exists(order, slug, w);
    }
}

proof fn lemma_first_match_exists(order: Seq<ModEntry>, slug: Seq<char>, w: int)
    requires
        0 <= w < order.len(),
        order[w].slug@ == slug,
    ensures
        exists|i: int|
            0 <= i < order.len() && order[i].slug@ == slug && forall|j: int|
                0 <= j < i ==> order[j].slug@ != slug,
    decreases w,
{
    if exists|j: int| 0 <= j < w && order[j].slug@ == slug {
        let v = choose|j: int| 0 <= j < w && order[j].slug@ == slug;
        lemma_first_match_exists(order, slug, v);
    } else {
        assert(forall|j: int| 0 <= j < w ==> order[j].slug@ != slug);
    }
}

/// `first_slug` is `Some(i)` exactly when `i` is the first match.
pub proof fn lemma_first_slug(order: Seq<ModEntry>, slug: Seq<char>, i: int)
    requires
        0 <= i < order.len(),
        order[i].slug@ == slug,
        forall|j: int| 0 <= j < i ==> order[j].slug@ != slug,
    ensures
        first_slug(order, slug) == Some(i),
{
    let k = choose|k: int|
        0 <= k < order.len() && order[k].slug@ == slug && forall|j: int|
            0 <= j < k ==> order[j].slug@ != slug;
    assert(0 <= i < order.len() && order[i].slug@ == slug && forall|j: int|
        0 <= j < i ==> order[j].slug@ != slug);
    if k < i {
        assert(order[k].slug@ != slug);
    } else if k > i {
        assert(order[i].slug@ != slug);
    }
}

/// The slugs of the enabled entries, in order.
pub open spec fn enabled_slugs(order: Seq<ModEntry>) -> Seq<Seq<char>>
    decreases order.len(),
{
    if order.len() == 0 {
        seq![]
    } else if order.last().enabled {
        enabled_slugs(order.drop_last()).push(order.last().slug@)
    } else {
        enabled_slugs(order.drop_last())
    }
}

/// The `(slug, enabled)` pairs of a load order.
pub open spec fn entries(order: Seq<ModEntry>) -> Seq<(Seq<char>, bool)> {
    order.map_values(|e: ModEntry| (e.slug@, e.enabled))
}

proof fn lemma_filter_keeps_all(s: Seq<(Seq<char>, bool)>, slug: Seq<char>)
    requires
        forall|i: int| 0 <= i < s.len() ==> (#[trigger] s[i]).0 != slug,
    ensures
        s.filter(|e: (Seq<char>, bool)| e.0 != slug) == s,
    decreases s.len(),
{
    reveal_with_fuel(Seq::<(Seq<char>, bool)>::filter, 1);
    if s.len() > 0 {
        assert forall|i: int| 0 <= i < s.drop_last().len() implies (#[trigger] s.drop_last()[i]).0 != slug by {
            assert(s.drop_last()[i] == s[i]);
        }
        lemma_filter_keeps_all(s.drop_last(), slug);
        assert(s.drop_last().push(s.last()) =~= s);
    }
}

/// Tracking a mod the profile did not track (its entry appended) and then
/// dropping that mod gives back the profile's entries.
pub proof fn tracking_then_dropping_restores(order: Seq<ModEntry>, added: ModEntry)
    requires
        first_slug(order, added.slug@) is None,
    ensures
        entries(order.push(added)).filter(|e: (Seq<char>, bool)| e.0 != added.slug@) == entries(order),
{
    let slug = added.slug@;
    assert forall|i: int| 0 <= i < entries(order).len() implies (#[trigger] entries(order)[i]).0 != slug by {
        if order[i].slug@ == slug {
            lemma_first_slug_found(order, slug);
            lemma_first_match_exists(order, slug, i);
        }
    }
    lemma_filter_keeps_all(entries(order), slug);
    let keep = |e: (Seq<char>, bool)| e.0 != slug;
    let both = entries(order.push(added));
    assert(both =~= entries(order).push((slug, added.enabled)));
    assert(both.drop_last() =~= entries(order));
    assert(!keep(both.last()));
    assert(both.filter(keep) == both.drop_last().filter(keep)) by {
        reveal_with_fuel(Seq::<(Seq<char>, bool)>::filter, 1);
    }
    assert(entries(order).filter(keep) == entries(order));
    assert((|e: (Seq<char>, bool)| e.0 != added.slug@) =~= keep);
}

impl Profile {
    /// An empty profile named `name`.
    pub fn new(name: &str) -> (p: Profile)
        ensures
            p.name@ == name@,
            p.order@.len() == 0,
    {
        Profile { name: owned(name), order: Vec::new() }
    }

    /// Position of the first entry for `slug`.
    pub fn position(&self, slug: &str) -> (r: Option<usize>)
        ensures
            r matches Some(i) ==> i < self.order@.len() && self.order@[i as int].slug@ == slug@,
            match r {
                Some(i) => first_slug(self.order@, slug@) == Some(i as int),
                None => first_slug(self.order@, slug@) is None,
            },
    {
        let mut i: usize = 0;
        while i < self.order.len()
            invariant
                i <= self.order@.len(),
                forall|j: int| 0 <= j < i ==> self.order@[j].slug@ != slug@,
            decreases self.order@.len() - i,
        {
            if str_eq(self.order[i].slug.as_str(), slug) {
                proof {
                    lemma_first_slug(self.order@, slug@, i as int);
                }
                return Some(i);
            }
            i = i + 1;
        }
        None
    }

    /// The first entry for `slug`.
    pub fn find(&self, slug: &str) -> (r: Option<&ModEntry>)
        ensures
            match first_slug(self.order@, slug@) {
                Some(i) => r == Some(&self.order@[i]),
                None => r is None,
            },
    {
        match self.position(slug) {
            Some(i) => Some(&self.order[i]),
            None => None,
        }
    }

    /// The first entry for `slug`, mutably.
    pub fn find_mut(&mut self, slug: &str) -> (r: Option<&mut ModEntry>)
        ensures
            match first_slug(old(self).order@, slug@) {
                Some(i) => r matches Some(e) && *e == old(self).order@[i] && final(self).order@
                    == old(self).order@.update(i, *final(e)) && final(self).name == old(
                    self,
                ).name,
                None => r is None && *final(self) == *old(self),
            },
    {
        match self.position(slug) {
            Some(i) => Some(&mut self.order[i]),
            None => None,
        }
    }

    /// Ensure a slug is present (appended, enabled) if not already tracked.
    pub fn ensure(&mut self, slug: &str)
        ensures
            final(self).name == old(self).name,
            first_slug(old(self).order@, slug@) is Some ==> final(self).order@ == old(
                self,
            ).order@,
            first_slug(old(self).order@, slug@) is None ==> {
                &&& final(self).order@.len() == old(self).order@.len() + 1
                &&& final(self).order@.drop_last() == old(self).order@
                &&& final(self).order@.last().slug@ == slug@
                &&& final(self).order@.last().enabled
            },
            first_slug(final(self).order@, slug@) is Some,
    {
        if self.position(slug).is_none() {
            self.order.push(ModEntry { slug: owned(slug), enabled: true });
            assert(self.order@.drop_last() =~= old(self).order@);
            proof {
                let n = (self.order@.len() - 1) as int;
                assert(forall|j: int| 0 <= j < n ==> self.order@[j] == old(self).order@[j]);
                lemma_first_slug(self.order@, slug@, n);
            }
        }
    }

    /// Drop every entry for `slug`, keeping the others in order.
    pub fn remove(&mut self, slug: &str)
        ensures
            final(self).name == old(self).name,
            entries(final(self).order@) == entries(old(self).order@).filter(
                |e: (Seq<char>, bool)| e.0 != slug@,
            ),
            forall|i: int|
                0 <= i < final(self).order@.len() ==> final(self).order@[i].slug@ != slug@,
    {
        let ghost keep = |e: (Seq<char>, bool)| e.0 != slug@;
        let ghost src = entries(self.order@);
        let mut kept: Vec<ModEntry> = Vec::new();
        let mut i: usize = 0;
        while i < self.order.len()
            invariant
                self.order@ == old(self).order@,
                src == entries(self.order@),
                i <= self.order@.len(),
                entries(kept@) == src.take(i as int).filter(keep),
                forall|k: int| 0 <= k < kept@.len() ==> kept@[k].slug@ != slug@,
                keep == (|e: (Seq<char>, bool)| e.0 != slug@),
            decreases self.order@.len() - i,
        {
            proof {
                assert(src.take(i + 1).drop_last() =~= src.take(i as int));
                reveal_with_fuel(Seq::<(Seq<char>, bool)>::filter, 1);
            }
            if !str_eq(self.order[i].slug.as_str(), slug) {
                let e = ModEntry {
                    slug: owned(self.order[i].slug.as_str()),
                    enabled: self.order[i].enabled,
                };
                let ghost before = kept@;
                kept.push(e);
                assert(entries(kept@) =~= entries(before).push((e.slug@, e.enabled)));
            }
            i = i + 1;
        }
        assert(src.take(self.order@.len() as int) =~= src);
        self.order = kept;
    }

    /// Set the `enabled` flag of the first entry for `slug`, if present.
    pub fn set_enabled(&mut self, slug: &str, enabled: bool)
        ensures
            final(self).name == old(self).name,
            match first_slug(old(self).order@, slug@) {
                Some(i) => final(self).order@ == old(self).order@.update(
                    i,
                    ModEntry { slug: old(self).order@[i].slug, enabled },
                ),
                None => final(self).order@ == old(self).order@,
            },
    {
        if let Some(i) = self.position(slug) {
            self.order[i].enabled = enabled;
            assert(self.order@ =~= old(self).order@.update(
                i as int,
                ModEntry { slug: old(self).order@[i as int].slug, enabled },
            ));
        }
    }

    /// Move an entry from `from` index to `to` index, clamping `to` to the
    /// last position. Out-of-range `from` leaves the order unchanged.
    pub fn move_to(&mut self, from: usize, to: usize)
        ensures
            final(self).name == old(self).name,
            from >= old(self).order@.len() ==> final(self).order@ == old(self).order@,
            from < old(self).order@.len() ==> final(self).order@ == old(self).order@.remove(
                from as int,
            ).insert(
                if to < old(self).order@.len() {
                    to as int
                } else {
                    old(self).order@.len() - 1
                },
                old(self).order@[from as int],
            ),
            final(self).order@.to_multiset() == old(self).order@.to_multiset(),
    {
        if from >= self.order.len() {
            return;
        }
        let to = if to < self.order.len() {
            to
        } else {
            self.order.len() - 1
        };
        let item = self.order.remove(from);
        self.order.insert(to, item);
        proof {
            let s = old(self).order@;
            let x = s[from as int];
            vstd::seq_lib::to_multiset_remove(s, from as int);
            vstd::seq_lib::to_multiset_insert(s.remove(from as int), to as int, x);
            vstd::seq_lib::to_multiset_contains(s, x);
            assert(s.contains(x)) by {
                assert(s[from as int] == x);
            }
            broadcast use vstd::multiset::group_multiset_axioms;
            assert(s.to_multiset().remove(x).insert(x) =~= s.to_multiset());
        }
    }

    /// Slugs of enabled mods in load order.
    pub fn enabled_in_order(&self) -> (r: Vec<String>)
        ensures
            r@.map_values(|s: String| s@) == enabled_slugs(self.order@),
    {
        let mut r: Vec<String> = Vec::new();
        let mut i: usize = 0;
        while i < self.order.len()
            invariant
                i <= self.order@.len(),
                r@.map_values(|s: String| s@) == enabled_slugs(self.order@.take(i as int)),
            decreases self.order@.len() - i,
        {
            assert(self.order@.take(i + 1).drop_last() =~= self.order@.take(i as int));
            if self.order[i].enabled {
                let s = owned(self.order[i].slug.as_str());
                let ghost before = r@;
                r.push(s);
                assert(r@.map_values(|s: String| s@) =~= before.map_values(|s: String| s@).push(
                    s@,
                ));
            }
            i = i + 1;
        }
        assert(self.order@.take(self.order@.len() as int) =~= self.order@);
        r
    }
}

} // verus!
