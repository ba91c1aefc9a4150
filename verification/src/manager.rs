//! The per-game state that ties the store, the profiles and the deployment
//! together: which mods are installed, which profile is active, what is
//! deployed and how, and the FOMOD installs awaiting the user's choices.
//! Reading and writing the state file, and all filesystem work, are the
//! caller's.

use vstd::prelude::*;
use crate::conflict::{conflicts_reported, source_views, FileConflict};
use crate::deploy::{DeployManifest, LinkDeployer, LinkMethod};
use crate::error::Error;
use crate::fomod::{FileItem, FomodConfig, FomodSession};
use crate::game::{Engine, InstalledGame};
use crate::paths::path_join;
use crate::profile::{enabled_slugs, entries, first_slug, ModEntry, Profile};
use crate::store::{game_store_dir, mod_dir_of, ModRecord};
use crate::text::{copy_texts, owned, push_str, str_eq, views};

verus! {

/// Persisted per-game state.
#[derive(Debug)]
pub struct GameState {
    pub mods: Vec<ModRecord>,
    pub profiles: Vec<Profile>,
    pub active_profile: String,
    /// Manifest of the currently deployed files (`None` if nothing is).
    pub deployed: Option<DeployManifest>,
    /// How files are linked into the game dir.
    pub deploy_method: LinkMethod,
}

impl Default for GameState {
    /// A fresh state: no mods, one empty profile "Default", active.
    fn default() -> (s: GameState)
        ensures
            s.mods@.len() == 0,
            s.profiles@.len() == 1,
            s.profiles@[0].name@ == "Default"@,
            s.profiles@[0].order@.len() == 0,
            s.active_profile@ == "Default"@,
            s.deployed is None,
            s.deploy_method == LinkMethod::Symlink,
    {
        let mut profiles: Vec<Profile> = Vec::new();
        profiles.push(Profile::new("Default"));
        GameState {
            mods: Vec::new(),
            profiles,
            active_profile: owned("Default"),
            deployed: None,
            deploy_method: LinkMethod::Symlink,
        }
    }
}

/// Result of starting an install: either done, or a FOMOD wizard is needed.
#[derive(Debug)]
pub enum InstallOutcome {
    Installed(ModRecord),
    NeedsFomod { slug: String, name: String, config: Box<FomodConfig> },
}

/// A staged FOMOD install awaiting the user's selections.
#[derive(Debug)]
pub struct PendingFomod {
    pub slug: String,
    pub session: FomodSession,
    /// The extracted archive, discarded once the install ends.
    pub staging: String,
    pub name: String,
    pub source: Option<String>,
}

/// The mod manager for one game.
#[derive(Debug)]
pub struct Manager {
    pub data_root: String,
    pub game: InstalledGame,
    pub store_dir: String,
    pub state: GameState,
    pub deployer: LinkDeployer,
    pub pending_fomod: Vec<PendingFomod>,
}

/// The names of the profiles.
pub open spec fn profile_names_of(ps: Seq<Profile>) -> Seq<Seq<char>> {
    ps.map_values(|p: Profile| p.name@)
}

/// The index of the active profile: the first profile with the active name,
/// else the first profile.
pub open spec fn active_index_of(ps: Seq<Profile>, active: Seq<char>) -> int {
    if exists|i: int| 0 <= i < ps.len() && ps[i].name@ == active {
        choose|i: int|
            0 <= i < ps.len() && ps[i].name@ == active && forall|j: int| 0 <= j < i ==> ps[j].name@ != active
    } else {
        0
    }
}

/// A load order after tracking `slug`: unchanged when it was tracked, else
/// the slug's entry, enabled, appended.
pub open spec fn tracked_after(before: Seq<ModEntry>, after: Seq<ModEntry>, slug: Seq<char>) -> bool {
    if first_slug(before, slug) is Some {
        after == before
    } else {
        after.len() == before.len() + 1 && after.drop_last() == before && after.last().slug@ == slug
            && after.last().enabled
    }
}

/// The index of the first record with the slug.
pub open spec fn record_index(mods: Seq<ModRecord>, slug: Seq<char>) -> Option<int> {
    if exists|i: int| 0 <= i < mods.len() && mods[i].slug@ == slug {
        Some(
            choose|i: int|
                0 <= i < mods.len() && mods[i].slug@ == slug && forall|j: int|
                    0 <= j < i ==> mods[j].slug@ != slug,
        )
    } else {
        None
    }
}

proof fn lemma_first_index<T>(s: Seq<T>, p: spec_fn(T) -> bool, i: int)
    requires
        0 <= i < s.len(),
        p(s[i]),
        forall|j: int| 0 <= j < i ==> !p(s[j]),
    ensures
        (choose|k: int| 0 <= k < s.len() && p(s[k]) && forall|j: int| 0 <= j < k ==> !p(s[j])) == i,
{
    let k = choose|k: int| 0 <= k < s.len() && p(s[k]) && forall|j: int| 0 <= j < k ==> !p(s[j]);
    assert(0 <= i < s.len() && p(s[i]) && forall|j: int| 0 <= j < i ==> !p(s[j]));
    if k < i {
        assert(!p(s[k]));
    } else if k > i {
        assert(!p(s[i]));
    }
}

/// `(rank, slug, dir)` of each enabled mod (ranked by its place among the
/// enabled ones) that has a record, in load order.
pub open spec fn enabled_dirs_of(
    enabled: Seq<Seq<char>>,
    mods: Seq<ModRecord>,
    store: Seq<char>,
    n: int,
) -> Seq<(int, Seq<char>, Seq<char>)>
    decreases n,
{
    if n <= 0 {
        seq![]
    } else {
        let prev = enabled_dirs_of(enabled, mods, store, n - 1);
        match record_index(mods, enabled[n - 1]) {
            Some(i) => prev.push((n - 1, enabled[n - 1], mod_dir_of(store, mods[i].slug@))),
            None => prev,
        }
    }
}

/// No slug has two pending installs.
pub open spec fn pending_distinct(ps: Seq<PendingFomod>) -> bool {
    forall|i: int, j: int| 0 <= i < j < ps.len() ==> (#[trigger] ps[i]).slug@ != (#[trigger] ps[j]).slug@
}

/// The index of the pending install for `slug`, if any.
pub open spec fn pending_index_of(ps: Seq<PendingFomod>, slug: Seq<char>) -> Option<int> {
    if exists|i: int| 0 <= i < ps.len() && ps[i].slug@ == slug {
        Some(choose|i: int| 0 <= i < ps.len() && ps[i].slug@ == slug)
    } else {
        None
    }
}

/// The manager's place is unchanged: its data root, game, store and
/// deployer.
pub open spec fn same_place(a: Manager, b: Manager) -> bool {
    &&& a.data_root == b.data_root
    &&& a.game == b.game
    &&& a.store_dir == b.store_dir
    &&& a.deployer == b.deployer
}

/// Nothing but the mods and profiles changed: the place, the link method,
/// the live deployment and the pending installs are as they were.
pub open spec fn keeps_setup(a: Manager, b: Manager) -> bool {
    &&& same_place(a, b)
    &&& a.state.deployed == b.state.deployed
    &&& a.state.deploy_method == b.state.deploy_method
    &&& a.pending_fomod == b.pending_fomod
}

/// The order of a new profile: each record's slug once, in record order,
/// enabled.
pub open spec fn all_tracked(mods: Seq<ModRecord>, n: int) -> Seq<(Seq<char>, bool)>
    decreases n,
{
    if n <= 0 {
        seq![]
    } else {
        let prev = all_tracked(mods, n - 1);
        if exists|k: int| 0 <= k < prev.len() && prev[k].0 == mods[n - 1].slug@ {
            prev
        } else {
            prev.push((mods[n - 1].slug@, true))
        }
    }
}

impl Manager {
    /// Well-formed: the store lies at `<data root>/games/<game id>`, the
    /// deployer links with the state's method, and no slug has two pending
    /// installs.
    pub open spec fn wf(self) -> bool {
        &&& self.store_dir@ == path_join(path_join(self.data_root@, "games"@), self.game.spec.id@)
        &&& self.deployer.method == self.state.deploy_method
        &&& pending_distinct(self.pending_fomod@)
    }

    /// A manager for a game, over its loaded state.
    pub fn new(data_root: &str, game: InstalledGame, state: GameState) -> (m: Manager)
        ensures
            m.data_root@ == data_root@,
            m.store_dir@ == path_join(path_join(data_root@, "games"@), game.spec.id@),
            m.game == game,
            m.state == state,
            m.deployer.method == state.deploy_method,
            m.pending_fomod@.len() == 0,
            m.wf(),
    {
        let store_dir = game_store_dir(data_root, game.spec.id);
        let deployer = LinkDeployer::new(state.deploy_method);
        Manager {
            data_root: owned(data_root),
            game,
            store_dir,
            state,
            deployer,
            pending_fomod: Vec::new(),
        }
    }

    /// The game this manager handles.
    pub fn game(&self) -> (g: &InstalledGame)
        ensures
            *g == self.game,
    {
        &self.game
    }

    /// Root of all modeman data (parent of the per-game store).
    pub fn data_root(&self) -> (r: &str)
        ensures
            r@ == self.data_root@,
    {
        self.data_root.as_str()
    }

    /// The game's mod store: `<data root>/games/<game id>`.
    pub fn store_dir(&self) -> (r: &str)
        ensures
            r@ == self.store_dir@,
    {
        self.store_dir.as_str()
    }

    /// The installed mods, in install order.
    pub fn mods(&self) -> (r: &[ModRecord])
        ensures
            r@ == self.state.mods@,
    {
        self.state.mods.as_slice()
    }

    /// Whether a deployment is live.
    pub fn is_deployed(&self) -> (r: bool)
        ensures
            r == self.state.deployed is Some,
    {
        self.state.deployed.is_some()
    }

    /// How files are linked into the game dir.
    pub fn deploy_method(&self) -> (r: LinkMethod)
        ensures
            r == self.state.deploy_method,
    {
        self.state.deploy_method
    }

    /// Changes the link method; says whether it changed. The caller clears
    /// a live deploy before and deploys again after, so that the live tree
    /// uses the new method.
    pub fn set_deploy_method(&mut self, method: LinkMethod) -> (changed: bool)
        ensures
            changed == (old(self).state.deploy_method != method),
            final(self).state.deploy_method == method,
            changed ==> final(self).deployer.method == method,
            !changed ==> final(self).deployer == old(self).deployer,
            final(self).state.mods == old(self).state.mods,
            final(self).state.profiles == old(self).state.profiles,
            final(self).state.active_profile == old(self).state.active_profile,
            final(self).state.deployed == old(self).state.deployed,
            final(self).data_root == old(self).data_root,
            final(self).game == old(self).game,
            final(self).store_dir == old(self).store_dir,
            final(self).pending_fomod == old(self).pending_fomod,
            old(self).wf() ==> final(self).wf(),
    {
        if self.state.deploy_method == method {
            return false;
        }
        self.state.deploy_method = method;
        self.deployer = LinkDeployer::new(method);
        true
    }

    /// The index of the active profile.
    pub fn active_index(&self) -> (i: usize)
        requires
            self.state.profiles@.len() > 0,
        ensures
            i == active_index_of(self.state.profiles@, self.state.active_profile@),
            i < self.state.profiles@.len(),
    {
        let ps = &self.state.profiles;
        let mut i: usize = 0;
        while i < ps.len()
            invariant
                i <= ps@.len(),
                *ps == self.state.profiles,
                forall|j: int| 0 <= j < i ==> ps@[j].name@ != self.state.active_profile@,
            decreases ps@.len() - i,
        {
            if str_eq(ps[i].name.as_str(), self.state.active_profile.as_str()) {
                proof {
                    lemma_first_index(ps@, |p: Profile| p.name@ == self.state.active_profile@, i as int);
                }
                return i;
            }
            i = i + 1;
        }
        0
    }

    /// The active profile (the first profile when none has the active name).
    pub fn active_profile(&self) -> (p: &Profile)
        requires
            self.state.profiles@.len() > 0,
        ensures
            *p == self.state.profiles@[active_index_of(self.state.profiles@, self.state.active_profile@)],
    {
        let i = self.active_index();
        &self.state.profiles[i]
    }

    /// The names of the profiles, in order.
    pub fn profile_names(&self) -> (r: Vec<String>)
        ensures
            views(r@) == profile_names_of(self.state.profiles@),
    {
        let mut out: Vec<String> = Vec::new();
        let mut i: usize = 0;
        while i < self.state.profiles.len()
            invariant
                i <= self.state.profiles@.len(),
                views(out@) == profile_names_of(self.state.profiles@).take(i as int),
            decreases self.state.profiles@.len() - i,
        {
            let ghost before = views(out@);
            out.push(owned(self.state.profiles[i].name.as_str()));
            assert(views(out@) =~= before.push(self.state.profiles@[i as int].name@));
            assert(profile_names_of(self.state.profiles@).take(i + 1) =~= profile_names_of(
                self.state.profiles@,
            ).take(i as int).push(self.state.profiles@[i as int].name@));
            i = i + 1;
        }
        assert(profile_names_of(self.state.profiles@).take(i as int) =~= profile_names_of(
            self.state.profiles@,
        ));
        out
    }

    fn has_profile(&self, name: &str) -> (r: bool)
        ensures
            r == profile_names_of(self.state.profiles@).contains(name@),
    {
        let mut i: usize = 0;
        while i < self.state.profiles.len()
            invariant
                i <= self.state.profiles@.len(),
                forall|j: int| 0 <= j < i ==> self.state.profiles@[j].name@ != name@,
            decreases self.state.profiles@.len() - i,
        {
            if str_eq(self.state.profiles[i].name.as_str(), name) {
                assert(profile_names_of(self.state.profiles@)[i as int] == name@);
                return true;
            }
            i = i + 1;
        }
        assert forall|j: int| 0 <= j < profile_names_of(self.state.profiles@).len() implies profile_names_of(
            self.state.profiles@,
        )[j] != name@ by {
            assert(profile_names_of(self.state.profiles@)[j] == self.state.profiles@[j].name@);
        }
        false
    }

    /// Makes the named profile active; an error if there is none.
    pub fn set_active_profile(&mut self, name: &str) -> (r: Result<(), Error>)
        ensures
            profile_names_of(old(self).state.profiles@).contains(name@) ==> r is Ok
                && final(self).state.active_profile@ == name@,
            !profile_names_of(old(self).state.profiles@).contains(name@) ==> (r matches Err(
                Error::ProfileNotFound(m),
            ) && m@ == name@ && final(self).state.active_profile == old(self).state.active_profile),
            final(self).state.profiles == old(self).state.profiles,
            final(self).state.mods == old(self).state.mods,
            keeps_setup(*old(self), *final(self)),
    {
        if !self.has_profile(name) {
            return Err(Error::ProfileNotFound(owned(name)));
        }
        self.state.active_profile = owned(name);
        Ok(())
    }

    /// Creates a profile that tracks every known mod, enabled, in record
    /// order; an error if the name is taken.
    pub fn create_profile(&mut self, name: &str) -> (r: Result<(), Error>)
        ensures
            profile_names_of(old(self).state.profiles@).contains(name@) ==> (r matches Err(
                Error::Other(m),
            ) && m@ == "profile '"@ + name@ + "' already exists"@ && final(self).state.profiles
                == old(self).state.profiles),
            !profile_names_of(old(self).state.profiles@).contains(name@) ==> {
                &&& r is Ok
                &&& final(self).state.profiles@.len() == old(self).state.profiles@.len() + 1
                &&& final(self).state.profiles@.drop_last() == old(self).state.profiles@
                &&& final(self).state.profiles@.last().name@ == name@
                &&& entries(final(self).state.profiles@.last().order@) == all_tracked(
                    old(self).state.mods@,
                    old(self).state.mods@.len() as int,
                )
            },
            final(self).state.mods == old(self).state.mods,
            final(self).state.active_profile == old(self).state.active_profile,
            keeps_setup(*old(self), *final(self)),
    {
        if self.has_profile(name) {
            let mut m = owned("profile '");
            push_str(&mut m, name);
            push_str(&mut m, "' already exists");
            return Err(Error::Other(m));
        }
        let mut p = Profile::new(name);
        let mut i: usize = 0;
        assert(entries(p.order@) =~= all_tracked(self.state.mods@, 0));
        while i < self.state.mods.len()
            invariant
                i <= self.state.mods@.len(),
                p.name@ == name@,
                entries(p.order@) == all_tracked(self.state.mods@, i as int),
            decreases self.state.mods@.len() - i,
        {
            let ghost before = p.order@;
            let ghost slug = self.state.mods@[i as int].slug@;
            let ghost prev = all_tracked(self.state.mods@, i as int);
            p.ensure(self.state.mods[i].slug.as_str());
            proof {
                crate::profile::lemma_first_slug_found(before, slug);
                if exists|k: int| 0 <= k < prev.len() && prev[k].0 == slug {
                    let k = choose|k: int| 0 <= k < prev.len() && prev[k].0 == slug;
                    assert(before[k].slug@ == slug);
                    assert(first_slug(before, slug) is Some);
                } else {
                    assert forall|k: int| 0 <= k < before.len() implies before[k].slug@ != slug by {
                        assert(prev[k].0 == before[k].slug@);
                    }
                    assert(first_slug(before, slug) is None);
                    assert(entries(p.order@) =~= prev.push((slug, true)));
                }
            }
            i = i + 1;
        }
        self.state.profiles.push(p);
        assert(self.state.profiles@.drop_last() =~= old(self).state.profiles@);
        Ok(())
    }

    /// Records an installed mod and tracks it, enabled at the end of the
    /// load order, in every profile that does not track it yet.
    pub fn register_record(&mut self, record: ModRecord)
        ensures
            final(self).state.mods@ == old(self).state.mods@.push(record),
            final(self).state.profiles@.len() == old(self).state.profiles@.len(),
            forall|k: int|
                0 <= k < final(self).state.profiles@.len() ==> first_slug(
                    #[trigger] final(self).state.profiles@[k].order@,
                    record.slug@,
                ) is Some && final(self).state.profiles@[k].name == old(self).state.profiles@[k].name
                    && tracked_after(old(self).state.profiles@[k].order@, final(self).state.profiles@[k].order@, record.slug@),
            final(self).state.active_profile == old(self).state.active_profile,
            keeps_setup(*old(self), *final(self)),
    {
        let mut i: usize = 0;
        while i < self.state.profiles.len()
            invariant
                i <= self.state.profiles@.len(),
                self.state.profiles@.len() == old(self).state.profiles@.len(),
                self.state.mods == old(self).state.mods,
                self.state.active_profile == old(self).state.active_profile,
                forall|k: int| 0 <= k < i ==> first_slug(#[trigger] self.state.profiles@[k].order@, record.slug@) is Some,
                forall|k: int| 0 <= k < i ==> tracked_after(old(self).state.profiles@[k].order@, #[trigger] self.state.profiles@[k].order@, record.slug@),
                forall|k: int| i <= k < self.state.profiles@.len() ==> #[trigger] self.state.profiles@[k] == old(self).state.profiles@[k],
                forall|k: int| 0 <= k < self.state.profiles@.len() ==> (#[trigger] self.state.profiles@[k]).name == old(self).state.profiles@[k].name,
                keeps_setup(*old(self), *self),
            decreases self.state.profiles@.len() - i,
        {
            self.state.profiles[i].ensure(record.slug.as_str());
            i = i + 1;
        }
        self.state.mods.push(record);
    }

    /// The first record with the slug.
    pub fn find_record(&self, slug: &str) -> (r: Option<usize>)
        ensures
            match r {
                Some(i) => record_index(self.state.mods@, slug@) == Some(i as int) && i
                    < self.state.mods@.len() && self.state.mods@[i as int].slug@ == slug@,
                None => record_index(self.state.mods@, slug@) is None,
            },
    {
        record_position(self.state.mods.as_slice(), slug)
    }

    /// Removes a mod from the store's records and from every profile. It
    /// returns the removed record and the manifest of the live deployment,
    /// which then no longer counts as deployed: the caller reverts that
    /// deployment before deleting the mod's files, and deploys again, so
    /// that no live link points into the removed mod. An error, with
    /// nothing changed, if no mod has the slug.
    pub fn remove_mod(&mut self, slug: &str) -> (r: Result<(ModRecord, Option<DeployManifest>), Error>)
        ensures
            match record_index(old(self).state.mods@, slug@) {
                None => r matches Err(Error::ModNotFound(m)) && m@ == slug@ && *final(self) == *old(self),
                Some(i) => r matches Ok((rec, live)) && rec == old(self).state.mods@[i]
                    && live == old(self).state.deployed
                    && final(self).state.deployed is None
                    && final(self).state.mods@ == old(self).state.mods@.remove(i)
                    && final(self).state.profiles@.len() == old(self).state.profiles@.len()
                    && (forall|k: int|
                    0 <= k < final(self).state.profiles@.len() ==> entries(
                        #[trigger] final(self).state.profiles@[k].order@,
                    ) == entries(old(self).state.profiles@[k].order@).filter(
                        |e: (Seq<char>, bool)| e.0 != slug@,
                    ) && final(self).state.profiles@[k].name == old(self).state.profiles@[k].name),
            },
            final(self).state.active_profile == old(self).state.active_profile,
            final(self).state.deploy_method == old(self).state.deploy_method,
            final(self).pending_fomod == old(self).pending_fomod,
            same_place(*old(self), *final(self)),
    {
        let idx = match self.find_record(slug) {
            Some(i) => i,
            None => return Err(Error::ModNotFound(owned(slug))),
        };
        let record = self.state.mods.remove(idx);
        let mut i: usize = 0;
        while i < self.state.profiles.len()
            invariant
                i <= self.state.profiles@.len(),
                self.state.profiles@.len() == old(self).state.profiles@.len(),
                self.state.active_profile == old(self).state.active_profile,
                self.state.deployed == old(self).state.deployed,
                self.state.deploy_method == old(self).state.deploy_method,
                self.pending_fomod == old(self).pending_fomod,
                same_place(*old(self), *self),
                self.state.mods@ == old(self).state.mods@.remove(idx as int),
                forall|k: int| 0 <= k < i ==> entries(#[trigger] self.state.profiles@[k].order@) == entries(
                    old(self).state.profiles@[k].order@,
                ).filter(|e: (Seq<char>, bool)| e.0 != slug@),
                forall|k: int| 0 <= k < self.state.profiles@.len() ==> (#[trigger] self.state.profiles@[k]).name == old(self).state.profiles@[k].name,
                forall|k: int| i <= k < self.state.profiles@.len() ==> #[trigger] self.state.profiles@[k] == old(self).state.profiles@[k],
            decreases self.state.profiles@.len() - i,
        {
            self.state.profiles[i].remove(slug);
            i = i + 1;
        }
        let live = self.state.deployed.take();
        Ok((record, live))
    }

    /// Enables or disables a mod in the active profile.
    pub fn set_enabled(&mut self, slug: &str, enabled: bool)
        requires
            old(self).state.profiles@.len() > 0,
        ensures
            final(self).state.profiles@.len() == old(self).state.profiles@.len(),
            ({
                let a = active_index_of(old(self).state.profiles@, old(self).state.active_profile@);
                let before = old(self).state.profiles@[a];
                &&& forall|k: int| 0 <= k < old(self).state.profiles@.len() && k != a ==> #[trigger] final(self).state.profiles@[k] == old(self).state.profiles@[k]
                &&& final(self).state.profiles@[a].name == before.name
                &&& match first_slug(before.order@, slug@) {
                    Some(i) => final(self).state.profiles@[a].order@ == before.order@.update(
                        i,
                        ModEntry { slug: before.order@[i].slug, enabled },
                    ),
                    None => final(self).state.profiles@[a].order@ == before.order@,
                }
            }),
            final(self).state.mods == old(self).state.mods,
            final(self).state.active_profile == old(self).state.active_profile,
            keeps_setup(*old(self), *final(self)),
    {
        let a = self.active_index();
        self.state.profiles[a].set_enabled(slug, enabled);
    }

    /// Moves a mod within the active profile's load order.
    pub fn move_mod(&mut self, from: usize, to: usize)
        requires
            old(self).state.profiles@.len() > 0,
        ensures
            final(self).state.profiles@.len() == old(self).state.profiles@.len(),
            ({
                let a = active_index_of(old(self).state.profiles@, old(self).state.active_profile@);
                let before = old(self).state.profiles@[a].order@;
                &&& forall|k: int| 0 <= k < old(self).state.profiles@.len() && k != a ==> #[trigger] final(self).state.profiles@[k] == old(self).state.profiles@[k]
                &&& final(self).state.profiles@[a].name == old(self).state.profiles@[a].name
                &&& from >= before.len() ==> final(self).state.profiles@[a].order@ == before
                &&& from < before.len() ==> final(self).state.profiles@[a].order@ == before.remove(
                    from as int,
                ).insert(if to < before.len() { to as int } else { before.len() - 1 }, before[from as int])
            }),
            final(self).state.mods == old(self).state.mods,
            final(self).state.active_profile == old(self).state.active_profile,
            keeps_setup(*old(self), *final(self)),
    {
        let a = self.active_index();
        self.state.profiles[a].move_to(from, to);
    }

    /// `(rank, slug, dir)` of the active profile's enabled mods that have a
    /// record, in load order; the rank is the mod's place among the enabled
    /// ones, so later mods win.
    pub fn enabled_dirs(&self) -> (r: Vec<(usize, String, String)>)
        requires
            self.state.profiles@.len() > 0,
        ensures
            r@.map_values(|t: (usize, String, String)| (t.0 as int, t.1@, t.2@)) == enabled_dirs_of(
                enabled_slugs(self.state.profiles@[active_index_of(self.state.profiles@, self.state.active_profile@)].order@),
                self.state.mods@,
                self.store_dir@,
                enabled_slugs(self.state.profiles@[active_index_of(self.state.profiles@, self.state.active_profile@)].order@).len() as int,
            ),
    {
        let slugs = self.active_profile().enabled_in_order();
        assert(views(slugs@) =~= slugs@.map_values(|s: String| s@));
        dirs_of_enabled(self.state.mods.as_slice(), self.store_dir.as_str(), slugs.as_slice())
    }

    /// File conflicts among the active profile's enabled mods, in load
    /// order: `files[k]` lists the files (relative, forward-slashed) of the
    /// `k`-th enabled mod that [`Manager::enabled_dirs`] gives.
    pub fn conflicts(&self, files: &[Vec<String>]) -> (r: Vec<FileConflict>)
        requires
            self.state.profiles@.len() > 0,
            files@.len() == enabled_dirs_of(
                enabled_slugs(self.state.profiles@[active_index_of(self.state.profiles@, self.state.active_profile@)].order@),
                self.state.mods@,
                self.store_dir@,
                enabled_slugs(self.state.profiles@[active_index_of(self.state.profiles@, self.state.active_profile@)].order@).len() as int,
            ).len(),
        ensures
            conflicts_reported(
                Seq::new(files@.len(), |k: int| (
                    enabled_dirs_of(
                        enabled_slugs(self.state.profiles@[active_index_of(self.state.profiles@, self.state.active_profile@)].order@),
                        self.state.mods@,
                        self.store_dir@,
                        enabled_slugs(self.state.profiles@[active_index_of(self.state.profiles@, self.state.active_profile@)].order@).len() as int,
                    )[k].1,
                    views(files@[k]@),
                )),
                r@,
            ),
    {
        let dirs = self.enabled_dirs();
        let ghost dv = dirs@.map_values(|t: (usize, String, String)| (t.0 as int, t.1@, t.2@));
        let mut sources: Vec<(String, Vec<String>)> = Vec::new();
        let mut k: usize = 0;
        while k < files.len()
            invariant
                k <= files@.len(),
                files@.len() == dirs@.len(),
                dv == dirs@.map_values(|t: (usize, String, String)| (t.0 as int, t.1@, t.2@)),
                sources@.len() == k,
                forall|j: int| 0 <= j < k ==> (#[trigger] sources@[j]).0@ == dv[j].1 && views(sources@[j].1@) == views(files@[j]@),
            decreases files@.len() - k,
        {
            assert(dv[k as int].1 == dirs@[k as int].1@);
            sources.push((owned(dirs[k].1.as_str()), copy_texts(files[k].as_slice())));
            k = k + 1;
        }
        let ghost want = Seq::new(files@.len(), |j: int| (dv[j].1, views(files@[j]@)));
        assert(source_views(sources@) =~= want);
        crate::conflict::detect(sources.as_slice())
    }

    /// Records the manifest of a deploy that was just made.
    pub fn record_deploy(&mut self, manifest: DeployManifest)
        ensures
            final(self).state.deployed == Some(manifest),
            final(self).state.mods == old(self).state.mods,
            final(self).state.profiles == old(self).state.profiles,
            final(self).state.active_profile == old(self).state.active_profile,
            final(self).state.deploy_method == old(self).state.deploy_method,
            final(self).pending_fomod == old(self).pending_fomod,
            same_place(*old(self), *final(self)),
    {
        self.state.deployed = Some(manifest);
    }

    /// Takes the manifest of the live deploy, if any, to revert it.
    pub fn take_deployed(&mut self) -> (r: Option<DeployManifest>)
        ensures
            r == old(self).state.deployed,
            final(self).state.deployed is None,
            final(self).state.mods == old(self).state.mods,
            final(self).state.profiles == old(self).state.profiles,
            final(self).state.active_profile == old(self).state.active_profile,
            final(self).state.deploy_method == old(self).state.deploy_method,
            final(self).pending_fomod == old(self).pending_fomod,
            same_place(*old(self), *final(self)),
    {
        self.state.deployed.take()
    }

    /// Keeps a staged FOMOD install until the user's selections arrive. A
    /// pending install with the same slug is replaced, and returned so that
    /// the caller can discard its staging dir.
    pub fn add_pending(&mut self, p: PendingFomod) -> (r: Option<PendingFomod>)
        ensures
            match r {
                Some(q) => exists|i: int|
                    0 <= i < old(self).pending_fomod@.len() && old(self).pending_fomod@[i] == q && q.slug@
                        == p.slug@ && final(self).pending_fomod@ == old(self).pending_fomod@.update(i, p),
                None => (forall|j: int|
                    0 <= j < old(self).pending_fomod@.len() ==> old(self).pending_fomod@[j].slug@ != p.slug@)
                    && final(self).pending_fomod@ == old(self).pending_fomod@.push(p),
            },
            final(self).state == old(self).state,
            same_place(*old(self), *final(self)),
            old(self).wf() ==> final(self).wf(),
    {
        match self.pending_index(p.slug.as_str()) {
            Some(i) => {
                let ghost before = self.pending_fomod@;
                let q = self.pending_fomod.remove(i);
                self.pending_fomod.insert(i, p);
                assert(self.pending_fomod@ =~= before.update(i as int, p));
                proof {
                    if old(self).wf() {
                        assert forall|a: int, b: int| 0 <= a < b < self.pending_fomod@.len() implies (#[trigger] self.pending_fomod@[a]).slug@ != (#[trigger] self.pending_fomod@[b]).slug@ by {
                            assert(before[a].slug@ != before[b].slug@);
                        }
                    }
                }
                Some(q)
            },
            None => {
                let ghost before = self.pending_fomod@;
                self.pending_fomod.push(p);
                proof {
                    if old(self).wf() {
                        assert forall|a: int, b: int| 0 <= a < b < self.pending_fomod@.len() implies (#[trigger] self.pending_fomod@[a]).slug@ != (#[trigger] self.pending_fomod@[b]).slug@ by {
                            if b < before.len() {
                                assert(before[a].slug@ != before[b].slug@);
                            } else {
                                assert(self.pending_fomod@[a] == before[a]);
                            }
                        }
                    }
                }
                None
            },
        }
    }

    fn pending_index(&self, slug: &str) -> (r: Option<usize>)
        ensures
            match r {
                Some(i) => i < self.pending_fomod@.len() && self.pending_fomod@[i as int].slug@ == slug@
                    && forall|j: int| 0 <= j < i ==> self.pending_fomod@[j].slug@ != slug@,
                None => forall|j: int| 0 <= j < self.pending_fomod@.len() ==> self.pending_fomod@[j].slug@ != slug@,
            },
    {
        let mut i: usize = 0;
        while i < self.pending_fomod.len()
            invariant
                i <= self.pending_fomod@.len(),
                forall|j: int| 0 <= j < i ==> self.pending_fomod@[j].slug@ != slug@,
            decreases self.pending_fomod@.len() - i,
        {
            if str_eq(self.pending_fomod[i].slug.as_str(), slug) {
                return Some(i);
            }
            i = i + 1;
        }
        None
    }

    /// Abandons a staged FOMOD install, returning it (the caller discards
    /// its staging dir); `None` when there is none for the slug.
    pub fn cancel_fomod(&mut self, slug: &str) -> (r: Option<PendingFomod>)
        ensures
            match r {
                Some(p) => exists|i: int|
                    0 <= i < old(self).pending_fomod@.len() && old(self).pending_fomod@[i] == p && p.slug@
                        == slug@ && (forall|j: int| 0 <= j < i ==> old(self).pending_fomod@[j].slug@ != slug@)
                        && final(self).pending_fomod@ == old(self).pending_fomod@.remove(i),
                None => final(self).pending_fomod@ == old(self).pending_fomod@ && forall|j: int|
                    0 <= j < old(self).pending_fomod@.len() ==> old(self).pending_fomod@[j].slug@ != slug@,
            },
            final(self).state == old(self).state,
            same_place(*old(self), *final(self)),
            old(self).wf() ==> final(self).wf() && forall|j: int|
                0 <= j < final(self).pending_fomod@.len() ==> final(self).pending_fomod@[j].slug@ != slug@,
    {
        match self.pending_index(slug) {
            Some(i) => {
                let ghost before = self.pending_fomod@;
                let p = self.pending_fomod.remove(i);
                proof {
                    if old(self).wf() {
                        assert forall|a: int, b: int| 0 <= a < b < self.pending_fomod@.len() implies (#[trigger] self.pending_fomod@[a]).slug@ != (#[trigger] self.pending_fomod@[b]).slug@ by {
                            let a0 = if a < i { a } else { a + 1 };
                            let b0 = if b < i { b } else { b + 1 };
                            assert(self.pending_fomod@[a] == before[a0]);
                            assert(self.pending_fomod@[b] == before[b0]);
                            assert(before[a0].slug@ != before[b0].slug@);
                        }
                        assert forall|j: int| 0 <= j < self.pending_fomod@.len() implies self.pending_fomod@[j].slug@ != slug@ by {
                            let j0 = if j < i { j } else { j + 1 };
                            assert(self.pending_fomod@[j] == before[j0]);
                            if j0 < i {
                                assert(before[j0].slug@ != before[i as int].slug@);
                            } else {
                                assert(before[i as int].slug@ != before[j0].slug@);
                            }
                        }
                    }
                }
                Some(p)
            },
            None => None,
        }
    }

    /// Ends a staged FOMOD install with the user's selections: the pending
    /// install is taken out of the pending ones (the caller discards its
    /// staging dir whatever happens), and its file plan is computed for the caller to copy and
    /// then record. An error if nothing is pending for the slug.
    pub fn finish_fomod(&mut self, slug: &str, sel: &Vec<Vec<Vec<bool>>>, present: &[String]) -> (r: Result<
        (PendingFomod, Result<Vec<FileItem>, Error>),
        Error,
    >)
        ensures
            r is Err <==> forall|j: int|
                0 <= j < old(self).pending_fomod@.len() ==> old(self).pending_fomod@[j].slug@ != slug@,
            r matches Err(e) ==> (e matches Error::Other(m) && m@ == "no pending FOMOD for '"@ + slug@ + "'"@),
            r matches Ok((p, plan)) ==> (p.slug@ == slug@ && (plan is Ok <==> crate::fomod::selection_valid(
                p.session.config,
                crate::fomod::sel_view(sel@),
            )) && (plan matches Ok(items) ==> crate::fomod::file_views(items@) == crate::fomod::install_plan_of(
                p.session.config,
                crate::fomod::sel_view(sel@),
                views(present@),
            )) && (plan matches Err(e) ==> crate::fomod::refusal(
                p.session.config,
                crate::fomod::sel_view(sel@),
                e,
            )) && exists|i: int|
                0 <= i < old(self).pending_fomod@.len() && old(self).pending_fomod@[i] == p
                    && final(self).pending_fomod@ == old(self).pending_fomod@.remove(i)),
            r is Err ==> final(self).pending_fomod@ == old(self).pending_fomod@,
            final(self).state == old(self).state,
            same_place(*old(self), *final(self)),
            old(self).wf() ==> final(self).wf() && forall|j: int|
                0 <= j < final(self).pending_fomod@.len() ==> final(self).pending_fomod@[j].slug@ != slug@,
    {
        let p = match self.cancel_fomod(slug) {
            Some(p) => p,
            None => {
                let mut m = owned("no pending FOMOD for '");
                push_str(&mut m, slug);
                push_str(&mut m, "'");
                return Err(Error::Other(m));
            },
        };
        let plan = p.session.install_plan(sel, present);
        Ok((p, plan))
    }
}

/// The name a plainly installed mod is recorded under: the name the mod
/// declares (its JSON manifest for SMAPI and Unity games, its `About.xml`
/// for RimWorld) when there is one, else the name taken from the archive.
pub fn declared_name(engine: Engine, manifest: Option<String>, about: Option<String>, archive_name: String) -> (r: String)
    ensures
        r == match engine {
            Engine::Stardew | Engine::Unity => match manifest {
                Some(n) => n,
                None => archive_name,
            },
            Engine::RimWorld => match about {
                Some(n) => n,
                None => archive_name,
            },
            _ => archive_name,
        },
{
    match engine {
        Engine::Stardew | Engine::Unity => match manifest {
            Some(n) => n,
            None => archive_name,
        },
        Engine::RimWorld => match about {
            Some(n) => n,
            None => archive_name,
        },
        _ => archive_name,
    }
}

/// The index of the first record with `slug`.
pub fn record_position(mods: &[ModRecord], slug: &str) -> (r: Option<usize>)
    ensures
        match r {
            Some(i) => record_index(mods@, slug@) == Some(i as int) && i < mods@.len() && mods@[i as int].slug@
                == slug@,
            None => record_index(mods@, slug@) is None,
        },
{
    let mut i: usize = 0;
    while i < mods.len()
        invariant
            i <= mods@.len(),
            forall|j: int| 0 <= j < i ==> mods@[j].slug@ != slug@,
        decreases mods@.len() - i,
    {
        if str_eq(mods[i].slug.as_str(), slug) {
            proof {
                lemma_first_index(mods@, |m: ModRecord| m.slug@ == slug@, i as int);
            }
            return Some(i);
        }
        i = i + 1;
    }
    None
}

/// `(rank, slug, dir)` of each of the enabled slugs that has a record.
#[verifier::spinoff_prover]
#[verifier::rlimit(40)]
pub fn dirs_of_enabled(mods: &[ModRecord], store: &str, slugs: &[String]) -> (r: Vec<(usize, String, String)>)
    ensures
        r@.map_values(|t: (usize, String, String)| (t.0 as int, t.1@, t.2@)) == enabled_dirs_of(
            views(slugs@),
            mods@,
            store@,
            slugs@.len() as int,
        ),
{
    let ghost en = views(slugs@);
    let mut out: Vec<(usize, String, String)> = Vec::new();
    let mut i: usize = 0;
    while i < slugs.len()
        invariant
            i <= slugs@.len(),
            en == views(slugs@),
            out@.map_values(|t: (usize, String, String)| (t.0 as int, t.1@, t.2@)) == enabled_dirs_of(
                en,
                mods@,
                store@,
                i as int,
            ),
        decreases slugs@.len() - i,
    {
        assert(en[i as int] == slugs@[i as int]@);
        let ghost before = out@.map_values(|t: (usize, String, String)| (t.0 as int, t.1@, t.2@));
        match record_position(mods, slugs[i].as_str()) {
            Some(k) => {
                let dir = crate::store::mod_dir(store, mods[k].slug.as_str());
                out.push((i, owned(slugs[i].as_str()), dir));
                assert(out@.map_values(|t: (usize, String, String)| (t.0 as int, t.1@, t.2@)) =~= before.push(
                    (i as int, slugs@[i as int]@, dir@),
                ));
            },
            None => {},
        }
        i = i + 1;
    }
    out
}

/// Registering a mod whose slug is new and then removing that slug gives
/// back the records, and each profile's entries as they were before.
pub proof fn register_then_remove_restores(
    mods: Seq<ModRecord>,
    rec: ModRecord,
    before: Seq<ModEntry>,
    after: Seq<ModEntry>,
)
    requires
        record_index(mods, rec.slug@) is None,
        first_slug(before, rec.slug@) is None,
        tracked_after(before, after, rec.slug@),
    ensures
        record_index(mods.push(rec), rec.slug@) == Some(mods.len() as int),
        mods.push(rec).remove(mods.len() as int) == mods,
        entries(after).filter(|e: (Seq<char>, bool)| e.0 != rec.slug@) == entries(before),
{
    let all = mods.push(rec);
    assert forall|j: int| 0 <= j < mods.len() implies all[j].slug@ != rec.slug@ by {
        assert(all[j] == mods[j]);
    }
    lemma_first_index(all, |m: ModRecord| m.slug@ == rec.slug@, mods.len() as int);
    assert(all.remove(mods.len() as int) =~= mods);
    assert(after =~= before.push(after.last()));
    crate::profile::tracking_then_dropping_restores(before, after.last());
}

} // verus!
