//! The catalog of supported games and what the library derives from an
//! install: where mods deploy, and where the Wine/Proton prefix keeps the
//! user's documents and application data.

use vstd::prelude::*;
use crate::error::Error;
use crate::paths::{join, parent, path_eq, path_join, path_parent, same_path};
use crate::vdf::{child, lemma_pairs_model, model, pairs_model, Vdf, VdfModel};
use crate::text::{
    chars_eq, chars_of, contains_str, decimal, decimal_string, opt_str, owned, parse_u32,
    parse_u32_str, push_str, slice_chars, str_eq, string_of, views,
};

verus! {

/// Static description of a moddable game.
#[derive(Debug, Clone, Copy)]
pub struct GameSpec {
    /// Stable internal slug, e.g. "skyrimse".
    pub id: &'static str,
    pub name: &'static str,
    /// Steam app id (0 if not on Steam / manual-only).
    pub steam_appid: u32,
    /// Where deployed mod files go.
    pub deploy: DeployTarget,
    /// Whether to hoist a single wrapper folder during install. Loose-file
    /// mods: true; folder-per-mod games: false, the wrapper IS the mod.
    pub flatten: bool,
    /// Engine family; drives load-order handling.
    pub engine: Engine,
    /// Folder name under `AppData/Local` inside the prefix where the
    /// load-order file lives. Empty when not applicable.
    pub appdata: &'static str,
    /// How this game records load order.
    pub load_order: LoadOrderKind,
    /// Nexus Mods domain slug; empty if the game is not on Nexus.
    pub nexus_domain: &'static str,
    /// GameBanana numeric game id (0 if not on GameBanana).
    pub gamebanana_id: u32,
    /// Thunderstore community slug (empty if not on Thunderstore).
    pub thunderstore_slug: &'static str,
}

/// Where a game's deployed mods live.
#[derive(Debug, Clone, Copy, PartialEq, Eq)]
pub enum DeployTarget {
    /// Path relative to the install dir (`""` = install root).
    GameDir(&'static str),
    /// Path relative to `Documents/` inside the prefix (Paradox games).
    PrefixDocs(&'static str),
}

/// The engine family of a game, which decides its deploy and load-order rules.
#[derive(Debug, Clone, Copy, PartialEq, Eq, Structural)]
pub enum Engine {
    /// Creation Engine / Gamebryo: plugins.txt load order, Data/ root.
    Bethesda,
    /// REDengine: archive/pc/mod, redscript, etc.
    Cyberpunk,
    /// RimWorld: folder-per-mod under Mods/, ModsConfig.xml order.
    RimWorld,
    /// Stardew Valley: SMAPI mods under Mods/.
    Stardew,
    /// Paradox: descriptor + folder in Documents/.../mod.
    Paradox,
    /// Generic Unity game modded via BepInEx.
    Unity,
}

/// Mechanism a game uses to record which plugins load and in what order.
#[derive(Debug, Clone, Copy, PartialEq, Eq, Structural)]
pub enum LoadOrderKind {
    /// Modern Creation Engine `plugins.txt` (`*name.esp` = active).
    PluginsTxt,
    /// Morrowind `Morrowind.ini` `[Game Files]` section.
    MorrowindIni,
    /// No plugin list (REDengine, etc).
    NoList,
}

/// The known games, in catalog order.
pub open spec fn spec_catalog() -> Seq<GameSpec> {
    seq![
        GameSpec {
            id: "skyrimse",
            name: "Skyrim Special Edition",
            steam_appid: 489830,
            deploy: DeployTarget::GameDir("Data"),
            flatten: true,
            engine: Engine::Bethesda,
            appdata: "Skyrim Special Edition",
            load_order: LoadOrderKind::PluginsTxt,
            nexus_domain: "skyrimspecialedition",
            gamebanana_id: 4724,
            thunderstore_slug: "",
        },
        GameSpec {
            id: "skyrim",
            name: "Skyrim",
            steam_appid: 72850,
            deploy: DeployTarget::GameDir("Data"),
            flatten: true,
            engine: Engine::Bethesda,
            appdata: "Skyrim",
            load_order: LoadOrderKind::PluginsTxt,
            nexus_domain: "skyrim",
            gamebanana_id: 4724,
            thunderstore_slug: "",
        },
        GameSpec {
            id: "fallout4",
            name: "Fallout 4",
            steam_appid: 377160,
            deploy: DeployTarget::GameDir("Data"),
            flatten: true,
            engine: Engine::Bethesda,
            appdata: "Fallout4",
            load_order: LoadOrderKind::PluginsTxt,
            nexus_domain: "fallout4",
            gamebanana_id: 5518,
            thunderstore_slug: "",
        },
        GameSpec {
            id: "falloutnv",
            name: "Fallout: New Vegas",
            steam_appid: 22380,
            deploy: DeployTarget::GameDir("Data"),
            flatten: true,
            engine: Engine::Bethesda,
            appdata: "FalloutNV",
            load_order: LoadOrderKind::PluginsTxt,
            nexus_domain: "newvegas",
            gamebanana_id: 0,
            thunderstore_slug: "",
        },
        GameSpec {
            id: "fallout3",
            name: "Fallout 3",
            steam_appid: 22300,
            deploy: DeployTarget::GameDir("Data"),
            flatten: true,
            engine: Engine::Bethesda,
            appdata: "Fallout3",
            load_order: LoadOrderKind::PluginsTxt,
            nexus_domain: "fallout3",
            gamebanana_id: 0,
            thunderstore_slug: "",
        },
        GameSpec {
            id: "oblivion",
            name: "Oblivion",
            steam_appid: 22330,
            deploy: DeployTarget::GameDir("Data"),
            flatten: true,
            engine: Engine::Bethesda,
            appdata: "Oblivion",
            load_order: LoadOrderKind::PluginsTxt,
            nexus_domain: "oblivion",
            gamebanana_id: 827,
            thunderstore_slug: "",
        },
        GameSpec {
            id: "morrowind",
            name: "Morrowind",
            steam_appid: 22320,
            deploy: DeployTarget::GameDir("Data Files"),
            flatten: true,
            engine: Engine::Bethesda,
            appdata: "",
            load_order: LoadOrderKind::MorrowindIni,
            nexus_domain: "morrowind",
            gamebanana_id: 1446,
            thunderstore_slug: "",
        },
        GameSpec {
            id: "starfield",
            name: "Starfield",
            steam_appid: 1716740,
            deploy: DeployTarget::GameDir("Data"),
            flatten: true,
            engine: Engine::Bethesda,
            appdata: "Starfield",
            load_order: LoadOrderKind::PluginsTxt,
            nexus_domain: "starfield",
            gamebanana_id: 19063,
            thunderstore_slug: "",
        },
        GameSpec {
            id: "cyberpunk",
            name: "Cyberpunk 2077",
            steam_appid: 1091500,
            deploy: DeployTarget::GameDir(""),
            flatten: true,
            engine: Engine::Cyberpunk,
            appdata: "",
            load_order: LoadOrderKind::NoList,
            nexus_domain: "cyberpunk2077",
            gamebanana_id: 8722,
            thunderstore_slug: "cyberpunk2077",
        },
        GameSpec {
            id: "rimworld",
            name: "RimWorld",
            steam_appid: 294100,
            deploy: DeployTarget::GameDir("Mods"),
            flatten: false,
            engine: Engine::RimWorld,
            appdata: "",
            load_order: LoadOrderKind::NoList,
            nexus_domain: "rimworld",
            gamebanana_id: 6762,
            thunderstore_slug: "",
        },
        GameSpec {
            id: "stardew",
            name: "Stardew Valley",
            steam_appid: 413150,
            deploy: DeployTarget::GameDir("Mods"),
            flatten: false,
            engine: Engine::Stardew,
            appdata: "",
            load_order: LoadOrderKind::NoList,
            nexus_domain: "stardewvalley",
            gamebanana_id: 5937,
            thunderstore_slug: "",
        },
        GameSpec {
            id: "unity",
            name: "Generic Unity (BepInEx)",
            steam_appid: 0,
            deploy: DeployTarget::GameDir("BepInEx/plugins"),
            flatten: false,
            engine: Engine::Unity,
            appdata: "",
            load_order: LoadOrderKind::NoList,
            nexus_domain: "",
            gamebanana_id: 0,
            thunderstore_slug: "",
        },
        GameSpec {
            id: "ck3",
            name: "Crusader Kings III",
            steam_appid: 1158310,
            deploy: DeployTarget::PrefixDocs("Paradox Interactive/Crusader Kings III/mod"),
            flatten: false,
            engine: Engine::Paradox,
            appdata: "",
            load_order: LoadOrderKind::NoList,
            nexus_domain: "crusaderkings3",
            gamebanana_id: 22600,
            thunderstore_slug: "",
        },
        GameSpec {
            id: "ck2",
            name: "Crusader Kings II",
            steam_appid: 203770,
            deploy: DeployTarget::PrefixDocs("Paradox Interactive/Crusader Kings II/mod"),
            flatten: false,
            engine: Engine::Paradox,
            appdata: "",
            load_order: LoadOrderKind::NoList,
            nexus_domain: "crusaderkings2",
            gamebanana_id: 0,
            thunderstore_slug: "",
        }
    ]
}

/// The known games. Detection keys off `steam_appid` (0 = manual only).
pub fn catalog() -> (v: Vec<GameSpec>)
    ensures
        v@ == spec_catalog(),
{
    let mut v: Vec<GameSpec> = Vec::new();
    v.push(GameSpec {
            id: "skyrimse",
            name: "Skyrim Special Edition",
            steam_appid: 489830,
            deploy: DeployTarget::GameDir("Data"),
            flatten: true,
            engine: Engine::Bethesda,
            appdata: "Skyrim Special Edition",
            load_order: LoadOrderKind::PluginsTxt,
            nexus_domain: "skyrimspecialedition",
            gamebanana_id: 4724,
            thunderstore_slug: "",
        });
    v.push(GameSpec {
            id: "skyrim",
            name: "Skyrim",
            steam_appid: 72850,
            deploy: DeployTarget::GameDir("Data"),
            flatten: true,
            engine: Engine::Bethesda,
            appdata: "Skyrim",
            load_order: LoadOrderKind::PluginsTxt,
            nexus_domain: "skyrim",
            gamebanana_id: 4724,
            thunderstore_slug: "",
        });
    v.push(GameSpec {
            id: "fallout4",
            name: "Fallout 4",
            steam_appid: 377160,
            deploy: DeployTarget::GameDir("Data"),
            flatten: true,
            engine: Engine::Bethesda,
            appdata: "Fallout4",
            load_order: LoadOrderKind::PluginsTxt,
            nexus_domain: "fallout4",
            gamebanana_id: 5518,
            thunderstore_slug: "",
        });
    v.push(GameSpec {
            id: "falloutnv",
            name: "Fallout: New Vegas",
            steam_appid: 22380,
            deploy: DeployTarget::GameDir("Data"),
            flatten: true,
            engine: Engine::Bethesda,
            appdata: "FalloutNV",
            load_order: LoadOrderKind::PluginsTxt,
            nexus_domain: "newvegas",
            gamebanana_id: 0,
            thunderstore_slug: "",
        });
    v.push(GameSpec {
            id: "fallout3",
            name: "Fallout 3",
            steam_appid: 22300,
            deploy: DeployTarget::GameDir("Data"),
            flatten: true,
            engine: Engine::Bethesda,
            appdata: "Fallout3",
            load_order: LoadOrderKind::PluginsTxt,
            nexus_domain: "fallout3",
            gamebanana_id: 0,
            thunderstore_slug: "",
        });
    v.push(GameSpec {
            id: "oblivion",
            name: "Oblivion",
            steam_appid: 22330,
            deploy: DeployTarget::GameDir("Data"),
            flatten: true,
            engine: Engine::Bethesda,
            appdata: "Oblivion",
            load_order: LoadOrderKind::PluginsTxt,
            nexus_domain: "oblivion",
            gamebanana_id: 827,
            thunderstore_slug: "",
        });
    v.push(GameSpec {
            id: "morrowind",
            name: "Morrowind",
            steam_appid: 22320,
            deploy: DeployTarget::GameDir("Data Files"),
            flatten: true,
            engine: Engine::Bethesda,
            appdata: "",
            load_order: LoadOrderKind::MorrowindIni,
            nexus_domain: "morrowind",
            gamebanana_id: 1446,
            thunderstore_slug: "",
        });
    v.push(GameSpec {
            id: "starfield",
            name: "Starfield",
            steam_appid: 1716740,
            deploy: DeployTarget::GameDir("Data"),
            flatten: true,
            engine: Engine::Bethesda,
            appdata: "Starfield",
            load_order: LoadOrderKind::PluginsTxt,
            nexus_domain: "starfield",
            gamebanana_id: 19063,
            thunderstore_slug: "",
        });
    v.push(GameSpec {
            id: "cyberpunk",
            name: "Cyberpunk 2077",
            steam_appid: 1091500,
            deploy: DeployTarget::GameDir(""),
            flatten: true,
            engine: Engine::Cyberpunk,
            appdata: "",
            load_order: LoadOrderKind::NoList,
            nexus_domain: "cyberpunk2077",
            gamebanana_id: 8722,
            thunderstore_slug: "cyberpunk2077",
        });
    v.push(GameSpec {
            id: "rimworld",
            name: "RimWorld",
            steam_appid: 294100,
            deploy: DeployTarget::GameDir("Mods"),
            flatten: false,
            engine: Engine::RimWorld,
            appdata: "",
            load_order: LoadOrderKind::NoList,
            nexus_domain: "rimworld",
            gamebanana_id: 6762,
            thunderstore_slug: "",
        });
    v.push(GameSpec {
            id: "stardew",
            name: "Stardew Valley",
            steam_appid: 413150,
            deploy: DeployTarget::GameDir("Mods"),
            flatten: false,
            engine: Engine::Stardew,
            appdata: "",
            load_order: LoadOrderKind::NoList,
            nexus_domain: "stardewvalley",
            gamebanana_id: 5937,
            thunderstore_slug: "",
        });
    v.push(GameSpec {
            id: "unity",
            name: "Generic Unity (BepInEx)",
            steam_appid: 0,
            deploy: DeployTarget::GameDir("BepInEx/plugins"),
            flatten: false,
            engine: Engine::Unity,
            appdata: "",
            load_order: LoadOrderKind::NoList,
            nexus_domain: "",
            gamebanana_id: 0,
            thunderstore_slug: "",
        });
    v.push(GameSpec {
            id: "ck3",
            name: "Crusader Kings III",
            steam_appid: 1158310,
            deploy: DeployTarget::PrefixDocs("Paradox Interactive/Crusader Kings III/mod"),
            flatten: false,
            engine: Engine::Paradox,
            appdata: "",
            load_order: LoadOrderKind::NoList,
            nexus_domain: "crusaderkings3",
            gamebanana_id: 22600,
            thunderstore_slug: "",
        });
    v.push(GameSpec {
            id: "ck2",
            name: "Crusader Kings II",
            steam_appid: 203770,
            deploy: DeployTarget::PrefixDocs("Paradox Interactive/Crusader Kings II/mod"),
            flatten: false,
            engine: Engine::Paradox,
            appdata: "",
            load_order: LoadOrderKind::NoList,
            nexus_domain: "crusaderkings2",
            gamebanana_id: 0,
            thunderstore_slug: "",
        });
    assert(v@ =~= spec_catalog());
    v
}

// ---- lookups ------------------------------------------------------------------

/// The first game of `s` that satisfies `p`.
pub open spec fn first_where(s: Seq<GameSpec>, p: spec_fn(GameSpec) -> bool) -> Option<GameSpec>
    decreases s.len(),
{
    if s.len() == 0 {
        None
    } else if p(s[0]) {
        Some(s[0])
    } else {
        first_where(s.drop_first(), p)
    }
}

/// Scanning `s` from `i`: the search either stops at `s[i]` or moves on.
pub proof fn lemma_first_where_step(s: Seq<GameSpec>, p: spec_fn(GameSpec) -> bool, i: int)
    requires
        0 <= i < s.len(),
    ensures
        first_where(s.skip(i), p) == (if p(s[i]) {
            Some(s[i])
        } else {
            first_where(s.skip(i + 1), p)
        }),
{
    assert(s.skip(i).drop_first() =~= s.skip(i + 1));
}

/// A search that has run to the end of `s` finds nothing.
pub proof fn lemma_first_where_end(s: Seq<GameSpec>, p: spec_fn(GameSpec) -> bool)
    ensures
        first_where(s.skip(s.len() as int), p) is None,
{
    assert(s.skip(s.len() as int) =~= Seq::<GameSpec>::empty());
}

/// A result of the search satisfies the predicate and comes from `s`.
pub proof fn lemma_first_where_found(s: Seq<GameSpec>, p: spec_fn(GameSpec) -> bool)
    ensures
        first_where(s, p) matches Some(g) ==> p(g) && s.contains(g),
        first_where(s, p) is None <==> forall|i: int| 0 <= i < s.len() ==> !p(#[trigger] s[i]),
    decreases s.len(),
{
    if s.len() > 0 {
        lemma_first_where_found(s.drop_first(), p);
        if let Some(g) = first_where(s.drop_first(), p) {
            let j = choose|j: int| 0 <= j < s.drop_first().len() && s.drop_first()[j] == g;
            assert(s[j + 1] == g);
        }
        if !p(s[0]) && first_where(s.drop_first(), p) is None {
            assert forall|i: int| 0 <= i < s.len() implies !p(#[trigger] s[i]) by {
                if i > 0 {
                    assert(s[i] == s.drop_first()[i - 1]);
                }
            }
        }
    }
}

/// Games whose id is `id`.
pub open spec fn has_id(id: Seq<char>) -> spec_fn(GameSpec) -> bool {
    |g: GameSpec| g.id@ == id
}

/// Games whose Steam app id is `appid`.
pub open spec fn has_appid(appid: u32) -> spec_fn(GameSpec) -> bool {
    |g: GameSpec| g.steam_appid == appid
}

/// The catalog game with the given id.
pub fn spec_by_id(id: &str) -> (r: Option<GameSpec>)
    ensures
        r == first_where(spec_catalog(), has_id(id@)),
{
    let cat = catalog();
    let mut i: usize = 0;
    assert(spec_catalog().skip(0) =~= spec_catalog());
    while i < cat.len()
        invariant
            cat@ == spec_catalog(),
            i <= cat@.len(),
            first_where(spec_catalog(), has_id(id@)) == first_where(
                spec_catalog().skip(i as int),
                has_id(id@),
            ),
        decreases cat@.len() - i,
    {
        proof {
            lemma_first_where_step(spec_catalog(), has_id(id@), i as int);
        }
        if str_eq(cat[i].id, id) {
            return Some(cat[i]);
        }
        i = i + 1;
    }
    proof {
        lemma_first_where_end(spec_catalog(), has_id(id@));
    }
    None
}

/// The catalog game with the given Steam app id.
pub fn spec_by_appid(appid: u32) -> (r: Option<GameSpec>)
    ensures
        r == first_where(spec_catalog(), has_appid(appid)),
{
    let cat = catalog();
    let mut i: usize = 0;
    assert(spec_catalog().skip(0) =~= spec_catalog());
    while i < cat.len()
        invariant
            cat@ == spec_catalog(),
            i <= cat@.len(),
            first_where(spec_catalog(), has_appid(appid)) == first_where(
                spec_catalog().skip(i as int),
                has_appid(appid),
            ),
        decreases cat@.len() - i,
    {
        proof {
            lemma_first_where_step(spec_catalog(), has_appid(appid), i as int);
        }
        if cat[i].steam_appid == appid {
            return Some(cat[i]);
        }
        i = i + 1;
    }
    proof {
        lemma_first_where_end(spec_catalog(), has_appid(appid));
    }
    None
}

// ---- installs -----------------------------------------------------------------

/// A detected install on this machine.
#[derive(Debug, Clone)]
pub struct InstalledGame {
    pub spec: GameSpec,
    /// Absolute path to the game install directory.
    pub path: String,
    /// Wine/Proton prefix root (the directory holding `drive_c`), for installs
    /// not managed by Steam (Heroic, Lutris). `None` = derive the prefix from
    /// the Steam library layout (`steamapps/compatdata/<appid>/pfx`).
    pub prefix: Option<String>,
}

/// What the filesystem shows of a prefix's `drive_c/users` directory: the
/// user home is `steamuser` when that directory exists (Proton), else the
/// login user's directory when `$USER` is set and it exists (plain Wine),
/// else `steamuser` again.
#[derive(Debug, Clone)]
pub struct PrefixUsers {
    /// `drive_c/users/steamuser` is a directory.
    pub steamuser: bool,
    /// The login name, when `$USER` is set and `drive_c/users/<login>` is a
    /// directory.
    pub login: Option<String>,
}

/// `<lib>/steamapps` from an install at `<lib>/steamapps/common/<dir>`.
pub open spec fn steamapps_of(path: Seq<char>) -> Option<Seq<char>> {
    match path_parent(path) {
        Some(p) => path_parent(p),
        None => None,
    }
}

/// The prefix root: the explicit one, or `<steamapps>/compatdata/<appid>/pfx`.
pub open spec fn prefix_root_of(g: InstalledGame) -> Option<Seq<char>> {
    match g.prefix {
        Some(p) => Some(p@),
        None => match steamapps_of(g.path@) {
            Some(sa) => Some(
                path_join(
                    path_join(path_join(sa, "compatdata"@), decimal(g.spec.steam_appid as nat)),
                    "pfx"@,
                ),
            ),
            None => None,
        },
    }
}

/// The user home under `users_dir`, as [`PrefixUsers`] describes it.
pub open spec fn user_home(users_dir: Seq<char>, u: PrefixUsers) -> Seq<char> {
    if u.steamuser {
        path_join(users_dir, "steamuser"@)
    } else {
        match u.login {
            Some(l) => path_join(users_dir, l@),
            None => path_join(users_dir, "steamuser"@),
        }
    }
}

/// `rel` under the prefix's user home.
pub open spec fn prefix_user_dir_of(g: InstalledGame, u: PrefixUsers, rel: Seq<char>) -> Option<
    Seq<char>,
> {
    match prefix_root_of(g) {
        Some(root) => Some(path_join(user_home(path_join(root, "drive_c/users"@), u), rel)),
        None => None,
    }
}

/// `base`, or `base/sub` when `sub` is not empty.
pub open spec fn sub_or(base: Seq<char>, sub: Seq<char>) -> Seq<char> {
    if sub.len() == 0 {
        base
    } else {
        path_join(base, sub)
    }
}

/// `<home>/<rel>/<sub>` inside the prefix.
pub open spec fn prefix_sub_of(g: InstalledGame, u: PrefixUsers, rel: Seq<char>, sub: Seq<char>) -> Option<
    Seq<char>,
> {
    match prefix_user_dir_of(g, u, rel) {
        Some(d) => Some(sub_or(d, sub)),
        None => None,
    }
}

/// Where mods deploy, when it can be located.
pub open spec fn deploy_root_of(g: InstalledGame, u: PrefixUsers) -> Option<Seq<char>> {
    match g.spec.deploy {
        DeployTarget::GameDir(root) => Some(sub_or(g.path@, root@)),
        DeployTarget::PrefixDocs(sub) => prefix_sub_of(g, u, "Documents"@, sub@),
    }
}

/// The folder name for the load-order files: the plain one when it exists,
/// else the first existing store-suffixed variant, else the plain one.
pub open spec fn appdata_folder(appdata: Seq<char>, present: Seq<Seq<char>>) -> Seq<char> {
    if present.contains(appdata) {
        appdata
    } else if present.contains(appdata + " GOG"@) {
        appdata + " GOG"@
    } else if present.contains(appdata + " EPIC"@) {
        appdata + " EPIC"@
    } else if present.contains(appdata + " MS"@) {
        appdata + " MS"@
    } else {
        appdata
    }
}

impl InstalledGame {
    /// Absolute directory mods are deployed into. Fails for prefix-based
    /// targets when the prefix cannot be located.
    pub fn deploy_root(&self, users: &PrefixUsers) -> (r: Result<String, Error>)
        ensures
            r is Ok <==> deploy_root_of(*self, *users) is Some,
            r matches Ok(p) ==> deploy_root_of(*self, *users) == Some(p@),
            r matches Err(e) ==> e matches Error::GameNotInstalled(m) && m@ == self.spec.name@
                + ": Proton prefix / Documents not found (run the game once)"@,
    {
        match self.spec.deploy {
            DeployTarget::GameDir(root) => {
                if root.is_empty() {
                    Ok(owned(self.path.as_str()))
                } else {
                    Ok(join(self.path.as_str(), root))
                }
            },
            DeployTarget::PrefixDocs(sub) => match self.prefix_documents(users, sub) {
                Some(d) => Ok(d),
                None => {
                    let mut m = owned(self.spec.name);
                    push_str(&mut m, ": Proton prefix / Documents not found (run the game once)");
                    Err(Error::GameNotInstalled(m))
                },
            },
        }
    }

    /// The Steam library's `steamapps` dir, derived from the install path
    /// (`<lib>/steamapps/common/<installdir>`).
    pub fn steamapps_dir(&self) -> (r: Option<String>)
        ensures
            opt_str(r) == steamapps_of(self.path@),
    {
        match parent(self.path.as_str()) {
            Some(common) => parent(common.as_str()),
            None => None,
        }
    }

    /// `Documents/<sub>` inside the game's prefix.
    pub fn prefix_documents(&self, users: &PrefixUsers, sub: &str) -> (r: Option<String>)
        ensures
            opt_str(r) == prefix_sub_of(*self, *users, "Documents"@, sub@),
    {
        let docs = self.prefix_user_dir(users, "Documents")?;
        Some(self.sub_dir(docs, sub))
    }

    /// `AppData/LocalLow/<sub>` inside the prefix (Unity games like RimWorld).
    pub fn prefix_locallow(&self, users: &PrefixUsers, sub: &str) -> (r: Option<String>)
        ensures
            opt_str(r) == prefix_sub_of(*self, *users, "AppData/LocalLow"@, sub@),
    {
        let base = self.prefix_user_dir(users, "AppData/LocalLow")?;
        Some(self.sub_dir(base, sub))
    }

    fn sub_dir(&self, base: String, sub: &str) -> (r: String)
        ensures
            r@ == sub_or(base@, sub@),
    {
        if sub.is_empty() {
            base
        } else {
            join(base.as_str(), sub)
        }
    }

    /// The prefix root holding `drive_c`: the explicit override (Heroic /
    /// Lutris installs) or the Steam `compatdata/<appid>/pfx` layout.
    pub fn prefix_root(&self) -> (r: Option<String>)
        ensures
            opt_str(r) == prefix_root_of(*self),
    {
        if let Some(p) = &self.prefix {
            return Some(owned(p.as_str()));
        }
        let steamapps = self.steamapps_dir()?;
        let compat = join(steamapps.as_str(), "compatdata");
        let id = decimal_string(self.spec.steam_appid as u64);
        let app = join(compat.as_str(), id.as_str());
        Some(join(app.as_str(), "pfx"))
    }

    /// A directory under the prefix's user home.
    pub fn prefix_user_dir(&self, users: &PrefixUsers, rel: &str) -> (r: Option<String>)
        ensures
            opt_str(r) == prefix_user_dir_of(*self, *users, rel@),
    {
        let root = self.prefix_root()?;
        let users_dir = join(root.as_str(), "drive_c/users");
        let home = if users.steamuser {
            join(users_dir.as_str(), "steamuser")
        } else {
            match &users.login {
                Some(l) => join(users_dir.as_str(), l.as_str()),
                None => join(users_dir.as_str(), "steamuser"),
            }
        };
        Some(join(home.as_str(), rel))
    }

    /// `AppData/Local/<appdata>` inside the prefix; `None` if the game has no
    /// plugin appdata or the prefix can't be located. Store builds use a
    /// suffixed folder (e.g. "Fallout4 GOG"): `present` lists the directories
    /// that exist under `AppData/Local`, and an existing variant is preferred
    /// over a missing plain name.
    pub fn prefix_appdata(&self, users: &PrefixUsers, present: &[String]) -> (r: Option<String>)
        ensures
            self.spec.appdata@.len() == 0 ==> r is None,
            self.spec.appdata@.len() > 0 ==> opt_str(r) == match prefix_user_dir_of(
                *self,
                *users,
                "AppData/Local"@,
            ) {
                Some(local) => Some(
                    path_join(local, appdata_folder(self.spec.appdata@, views(present@))),
                ),
                None => None,
            },
    {
        if self.spec.appdata.is_empty() {
            return None;
        }
        let local = self.prefix_user_dir(users, "AppData/Local")?;
        let base = self.spec.appdata;
        if !contains_str(present, base) {
            let mut gog = owned(base);
            push_str(&mut gog, " GOG");
            if contains_str(present, gog.as_str()) {
                return Some(join(local.as_str(), gog.as_str()));
            }
            let mut epic = owned(base);
            push_str(&mut epic, " EPIC");
            if contains_str(present, epic.as_str()) {
                return Some(join(local.as_str(), epic.as_str()));
            }
            let mut ms = owned(base);
            push_str(&mut ms, " MS");
            if contains_str(present, ms.as_str()) {
                return Some(join(local.as_str(), ms.as_str()));
            }
        }
        Some(join(local.as_str(), base))
    }
}

/// Validates a user-supplied install path for a game id; `is_dir` says
/// whether the path is a directory.
pub fn from_manual_path(id: &str, path: &str, is_dir: bool) -> (r: Result<InstalledGame, Error>)
    ensures
        match first_where(spec_catalog(), has_id(id@)) {
            None => r matches Err(Error::UnknownGame(m)) && m@ == id@,
            Some(spec) => if is_dir {
                r matches Ok(g) && g.spec == spec && g.path@ == path@ && g.prefix is None
            } else {
                r matches Err(Error::GameNotInstalled(m)) && m@ == path@ + " is not a directory"@
            },
        },
{
    let spec = match spec_by_id(id) {
        Some(s) => s,
        None => return Err(Error::UnknownGame(owned(id))),
    };
    if !is_dir {
        let mut m = owned(path);
        push_str(&mut m, " is not a directory");
        return Err(Error::GameNotInstalled(m));
    }
    Ok(InstalledGame { spec, path: owned(path), prefix: None })
}

// ---- Steam libraries ----------------------------------------------------------

/// The `path` string of a library entry in `libraryfolders.vdf`.
pub open spec fn entry_path(m: VdfModel) -> Option<Seq<char>> {
    match child(m, "path"@) {
        Some(VdfModel::Str(p)) => Some(p),
        _ => None,
    }
}

/// The paths of the entries `ps[..n]` that carry one, in order.
pub open spec fn entry_paths(ps: Seq<(Seq<char>, VdfModel)>, n: int) -> Seq<Seq<char>>
    decreases n,
{
    if n <= 0 {
        seq![]
    } else {
        match entry_path(ps[n - 1].1) {
            Some(p) => entry_paths(ps, n - 1).push(p),
            None => entry_paths(ps, n - 1),
        }
    }
}

/// The library paths that `libraryfolders.vdf` lists, in order.
pub open spec fn library_paths_of(doc: VdfModel) -> Seq<Seq<char>> {
    match child(doc, "libraryfolders"@) {
        Some(VdfModel::Obj(ps)) => entry_paths(ps, ps.len() as int),
        _ => seq![],
    }
}

/// The library folders a parsed `libraryfolders.vdf` lists, in order (the
/// caller keeps those that exist).
pub fn library_paths(doc: &Vdf) -> (r: Vec<String>)
    ensures
        views(r@) == library_paths_of(doc@),
{
    let mut out: Vec<String> = Vec::new();
    let lf = match doc.get("libraryfolders") {
        Some(lf) => lf,
        None => return out,
    };
    let pairs = match lf.as_obj() {
        Some(ps) => ps,
        None => {
            assert(views(out@) =~= seq![]);
            return out;
        },
    };
    let ghost ps = pairs_model(pairs@);
    proof {
        lemma_pairs_model(pairs@);
    }
    let mut i: usize = 0;
    while i < pairs.len()
        invariant
            ps == pairs_model(pairs@),
            ps.len() == pairs@.len(),
            forall|k: int| 0 <= k < pairs@.len() ==> #[trigger] ps[k] == (pairs@[k].0@, model(pairs@[k].1)),
            i <= pairs@.len(),
            views(out@) == entry_paths(ps, i as int),
        decreases pairs@.len() - i,
    {
        assert(ps[i as int] == (pairs@[i as int].0@, model(pairs@[i as int].1)));
        match pairs[i].1.get("path") {
            Some(v) => match v.as_str() {
                Some(p) => {
                    out.push(owned(p));
                    assert(views(out@) =~= entry_paths(ps, i as int).push(p@));
                },
                None => {},
            },
            None => {},
        }
        i = i + 1;
    }
    out
}

/// The Steam app id in an `appmanifest_<appid>.acf` file name.
pub open spec fn manifest_appid_of(name: Seq<char>) -> Option<u32> {
    let pre = "appmanifest_"@;
    let suf = ".acf"@;
    if name.len() >= pre.len() + suf.len() && name.take(pre.len() as int) == pre && name.skip(
        name.len() - suf.len(),
    ) == suf {
        parse_u32(name.subrange(pre.len() as int, name.len() - suf.len()))
    } else {
        None
    }
}

/// Reads the app id out of an `appmanifest_<appid>.acf` file name.
pub fn manifest_appid(name: &str) -> (r: Option<u32>)
    ensures
        r == manifest_appid_of(name@),
{
    let cs = chars_of(name);
    let pre = chars_of("appmanifest_");
    let suf = chars_of(".acf");
    proof {
        reveal_strlit("appmanifest_");
        reveal_strlit(".acf");
    }
    if cs.len() < pre.len() + suf.len() {
        return None;
    }
    let head = slice_chars(&cs, 0, pre.len());
    let tail = slice_chars(&cs, cs.len() - suf.len(), cs.len());
    assert(head@ == name@.take(pre@.len() as int));
    assert(tail@ == name@.skip(name@.len() - suf@.len()));
    if !chars_eq(&head, &pre) || !chars_eq(&tail, &suf) {
        return None;
    }
    let mid = slice_chars(&cs, pre.len(), cs.len() - suf.len());
    let digits = string_of(&mid);
    parse_u32_str(digits.as_str())
}

/// `installdir` of a parsed appmanifest, under `<steamapps>/common`.
pub open spec fn manifest_install_of(steamapps: Seq<char>, doc: VdfModel) -> Option<Seq<char>> {
    match child(doc, "AppState"@) {
        Some(st) => match child(st, "installdir"@) {
            Some(VdfModel::Str(dir)) => Some(path_join(path_join(steamapps, "common"@), dir)),
            _ => None,
        },
        None => None,
    }
}

/// An appmanifest's game is installed in `common/<installdir>` inside the
/// steamapps folder: the path is the steamapps folder, `/common/` (without a
/// second separator when the folder already ends in one) and the install
/// dir. Holds for a relative install dir (an absolute one replaces the path,
/// as `Path::join` does).
pub proof fn manifests_install_under_common(steamapps: Seq<char>, doc: VdfModel, dir: Seq<char>)
    requires
        child(doc, "AppState"@) matches Some(st) && child(st, "installdir"@) == Some(VdfModel::Str(dir)),
        dir.len() == 0 || dir[0] != '/',
    ensures
        manifest_install_of(steamapps, doc) == Some(
            if steamapps.len() == 0 {
                "common/"@ + dir
            } else if steamapps.last() == '/' {
                steamapps + "common/"@ + dir
            } else {
                steamapps + "/common/"@ + dir
            },
        ),
{
    reveal_strlit("common");
    reveal_strlit("common/");
    reveal_strlit("/common/");
    let c = path_join(steamapps, "common"@);
    assert(c.len() > 0 && c.last() != '/');
    if steamapps.len() == 0 {
        assert(path_join(c, dir) =~= "common/"@ + dir);
    } else if steamapps.last() == '/' {
        assert(path_join(c, dir) =~= steamapps + "common/"@ + dir);
    } else {
        assert(path_join(c, dir) =~= steamapps + "/common/"@ + dir);
    }
}

/// The install directory an appmanifest names (the caller checks that it
/// exists).
pub fn manifest_install(steamapps: &str, doc: &Vdf) -> (r: Option<String>)
    ensures
        opt_str(r) == manifest_install_of(steamapps@, doc@),
{
    let st = doc.get("AppState")?;
    let dir = st.get("installdir")?.as_str()?;
    let common = join(steamapps, "common");
    Some(join(common.as_str(), dir))
}

/// Whether some install of `out` is at `path`.
pub open spec fn has_install_at(out: Seq<InstalledGame>, path: Seq<char>) -> bool {
    exists|i: int| 0 <= i < out.len() && path_eq(#[trigger] out[i].path@, path)
}

/// Records `game` unless an install at the same path is already recorded;
/// says whether it was added.
pub fn record_install(out: &mut Vec<InstalledGame>, game: InstalledGame) -> (added: bool)
    ensures
        added == !has_install_at(old(out)@, game.path@),
        final(out)@ == if added {
            old(out)@.push(game)
        } else {
            old(out)@
        },
{
    let mut i: usize = 0;
    while i < out.len()
        invariant
            i <= out@.len(),
            out@ == old(out)@,
            forall|j: int| 0 <= j < i ==> !path_eq(#[trigger] out@[j].path@, game.path@),
        decreases out@.len() - i,
    {
        if same_path(out[i].path.as_str(), game.path.as_str()) {
            return false;
        }
        i = i + 1;
    }
    out.push(game);
    true
}

// ---- manually registered installs -------------------------------------------

/// The first detected game whose Nexus domain is `domain`, where a
/// Nexus download for that domain is installed.
pub fn game_for_domain(games: &[InstalledGame], domain: &str) -> (r: Option<usize>)
    ensures
        match r {
            Some(i) => i < games@.len() && games@[i as int].spec.nexus_domain@ == domain@ && forall|j: int|
                0 <= j < i ==> games@[j].spec.nexus_domain@ != domain@,
            None => forall|j: int| 0 <= j < games@.len() ==> games@[j].spec.nexus_domain@ != domain@,
        },
{
    let mut i: usize = 0;
    while i < games.len()
        invariant
            i <= games@.len(),
            forall|j: int| 0 <= j < i ==> games@[j].spec.nexus_domain@ != domain@,
        decreases games@.len() - i,
    {
        if str_eq(games[i].spec.nexus_domain, domain) {
            return Some(i);
        }
        i = i + 1;
    }
    None
}

/// One manually registered install, as `manual-games.json` stores it.
#[derive(Debug, Clone)]
pub struct ManualEntry {
    pub id: String,
    pub path: String,
}

/// The entries without those registered at `path`.
pub open spec fn entries_without(entries: Seq<ManualEntry>, path: Seq<char>) -> Seq<ManualEntry> {
    entries.filter(|e: ManualEntry| !path_eq(e.path@, path))
}

fn retain_other_paths(entries: &[ManualEntry], path: &str) -> (r: Vec<ManualEntry>)
    ensures
        r@ == entries_without(entries@, path@),
{
    let mut out: Vec<ManualEntry> = Vec::new();
    let mut i: usize = 0;
    while i < entries.len()
        invariant
            i <= entries@.len(),
            out@ == entries_without(entries@.take(i as int), path@),
        decreases entries@.len() - i,
    {
        assert(entries@.take(i + 1).drop_last() =~= entries@.take(i as int));
        proof {
            reveal_with_fuel(Seq::<_>::filter, 1);
        }
        if !same_path(entries[i].path.as_str(), path) {
            out.push(ManualEntry { id: entries[i].id.clone(), path: entries[i].path.clone() });
        }
        i = i + 1;
    }
    assert(entries@.take(entries@.len() as int) =~= entries@);
    out
}

/// Validates a manual install and registers it: an earlier registration of
/// the same path is replaced. Returns the game and the new entry list.
pub fn add_manual_game(entries: &[ManualEntry], id: &str, path: &str, is_dir: bool) -> (r: Result<
    (InstalledGame, Vec<ManualEntry>),
    Error,
>)
    ensures
        match first_where(spec_catalog(), has_id(id@)) {
            None => r matches Err(Error::UnknownGame(m)) && m@ == id@,
            Some(spec) => if is_dir {
                r matches Ok((g, es)) && g.spec == spec && g.path@ == path@ && g.prefix is None
                    && es@.len() == entries_without(entries@, path@).len() + 1
                    && es@.take(es@.len() - 1) == entries_without(entries@, path@)
                    && es@.last().id@ == id@ && es@.last().path@ == path@
            } else {
                r matches Err(Error::GameNotInstalled(m)) && m@ == path@ + " is not a directory"@
            },
        },
{
    let game = from_manual_path(id, path, is_dir)?;
    let mut kept = retain_other_paths(entries, path);
    let ghost before = kept@;
    kept.push(ManualEntry { id: owned(id), path: owned(path) });
    assert(kept@.take(kept@.len() - 1) =~= before);
    Ok((game, kept))
}

/// Drops the registration of `path`; the list is unchanged if there is none.
pub fn remove_manual_game(entries: &[ManualEntry], path: &str) -> (r: Vec<ManualEntry>)
    ensures
        r@ == entries_without(entries@, path@),
{
    retain_other_paths(entries, path)
}

/// Game and install path of each install.
pub open spec fn game_keys(gs: Seq<InstalledGame>) -> Seq<(GameSpec, Seq<char>)> {
    gs.map_values(|g: InstalledGame| (g.spec, g.path@))
}

/// Game and path of the valid registrations among `entries[..n]`.
pub open spec fn manual_picks(entries: Seq<ManualEntry>, is_dir: Seq<bool>, n: int) -> Seq<
    (GameSpec, Seq<char>),
>
    decreases n,
{
    if n <= 0 {
        seq![]
    } else {
        let prev = manual_picks(entries, is_dir, n - 1);
        match first_where(spec_catalog(), has_id(entries[n - 1].id@)) {
            Some(spec) => if is_dir[n - 1] {
                prev.push((spec, entries[n - 1].path@))
            } else {
                prev
            },
            None => prev,
        }
    }
}

/// The registered installs, skipping entries of unknown games and those
/// whose directory no longer exists (`is_dir[i]` for `entries[i]`).
pub fn manual_games(entries: &[ManualEntry], is_dir: &[bool]) -> (r: Vec<InstalledGame>)
    requires
        is_dir@.len() == entries@.len(),
    ensures
        game_keys(r@) == manual_picks(entries@, is_dir@, entries@.len() as int),
        forall|k: int| 0 <= k < r@.len() ==> (#[trigger] r@[k]).prefix is None,
{
    let mut out: Vec<InstalledGame> = Vec::new();
    let mut i: usize = 0;
    while i < entries.len()
        invariant
            i <= entries@.len(),
            is_dir@.len() == entries@.len(),
            game_keys(out@) == manual_picks(entries@, is_dir@, i as int),
            forall|k: int| 0 <= k < out@.len() ==> (#[trigger] out@[k]).prefix is None,
        decreases entries@.len() - i,
    {
        match from_manual_path(entries[i].id.as_str(), entries[i].path.as_str(), is_dir[i]) {
            Ok(g) => {
                out.push(g);
                assert(game_keys(out@) =~= manual_picks(entries@, is_dir@, i as int).push(
                    (g.spec, g.path@),
                ));
            },
            Err(_) => {},
        }
        i = i + 1;
    }
    out
}

} // verus!
