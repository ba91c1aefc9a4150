//! Cyberpunk 2077 REDmod deployment. REDmod-style mods only load after the
//! game's `redMod.exe deploy` compiles them, which must run through Proton.
//! This module decides whether and how to run the tool and builds its
//! command; running it is left to the caller.

use vstd::prelude::*;
use crate::game::{steamapps_of, InstalledGame};
use crate::paths::{join, parent, path_join, path_parent};
use crate::text::{
    chars_of, decimal, decimal_string, eq_ignore_ascii_case, eq_ignore_case, opt_str, owned,
    push_str, views,
};

verus! {

/// Outcome of a REDmod deploy attempt.
#[derive(Debug)]
pub enum RedmodStatus {
    /// No REDmod-style mods present; nothing to do.
    NoRedmodMods,
    /// `redMod.exe` not found under the install.
    ToolMissing,
    /// No Proton runtime located to run the tool.
    ProtonMissing,
    /// The tool ran; `success` reflects its exit status.
    Ran { success: bool, log: String },
}

/// Whether a mod holds a REDmod module: some file within it is named
/// `info.json` (any case). `names` are the names of its files.
pub fn is_redmod(names: &[String]) -> (r: bool)
    ensures
        r == exists|i: int| 0 <= i < names@.len() && eq_ignore_case(#[trigger] names@[i]@, "info.json"@),
{
    let mut i: usize = 0;
    while i < names.len()
        invariant
            i <= names@.len(),
            forall|j: int| 0 <= j < i ==> !eq_ignore_case(#[trigger] names@[j]@, "info.json"@),
        decreases names@.len() - i,
    {
        if eq_ignore_ascii_case(names[i].as_str(), "info.json") {
            return true;
        }
        i = i + 1;
    }
    false
}

/// Where the bundled `redMod.exe` would be.
pub fn redmod_exe_path(game: &InstalledGame) -> (r: String)
    ensures
        r@ == path_join(game.path@, "tools/redmod/bin/redMod.exe"@),
{
    join(game.path.as_str(), "tools/redmod/bin/redMod.exe")
}

/// Path to the bundled `redMod.exe`, if it is a file (`is_file`).
pub fn redmod_exe(game: &InstalledGame, is_file: bool) -> (r: Option<String>)
    ensures
        is_file ==> (r matches Some(p) && p@ == path_join(game.path@, "tools/redmod/bin/redMod.exe"@)),
        !is_file ==> r is None,
{
    if is_file {
        Some(redmod_exe_path(game))
    } else {
        None
    }
}

/// `a` sorts before `b` (character order, a prefix first).
pub open spec fn text_lt(a: Seq<char>, b: Seq<char>) -> bool
    decreases a.len(),
{
    if a.len() == 0 {
        b.len() > 0
    } else if b.len() == 0 {
        false
    } else if a[0] != b[0] {
        a[0] < b[0]
    } else {
        text_lt(a.drop_first(), b.drop_first())
    }
}

/// The order is strict and transitive.
pub proof fn lemma_text_lt_order(a: Seq<char>, b: Seq<char>, c: Seq<char>)
    ensures
        !text_lt(a, a),
        text_lt(a, b) && text_lt(b, c) ==> text_lt(a, c),
        !text_lt(a, b) && !text_lt(b, a) ==> a == b,
    decreases a.len(),
{
    if a.len() > 0 {
        lemma_text_lt_order(a.drop_first(), a.drop_first(), a.drop_first());
        if b.len() > 0 && c.len() > 0 {
            lemma_text_lt_order(a.drop_first(), b.drop_first(), c.drop_first());
        }
        if b.len() > 0 {
            lemma_text_lt_order(a.drop_first(), b.drop_first(), b.drop_first());
            if !text_lt(a, b) && !text_lt(b, a) {
                assert(a[0] == b[0]);
                assert(a.drop_first() == b.drop_first());
                assert(a.len() == b.len());
                assert forall|k: int| 0 <= k < a.len() implies a[k] == b[k] by {
                    if k > 0 {
                        assert(a[k] == a.drop_first()[k - 1]);
                        assert(b[k] == b.drop_first()[k - 1]);
                    }
                }
                assert(a =~= b);
            }
        }
    } else if b.len() == 0 {
        assert(a =~= b);
    }
}

/// Whether `a` sorts before `b`.
pub fn text_less(a: &str, b: &str) -> (r: bool)
    ensures
        r == text_lt(a@, b@),
{
    let x = chars_of(a);
    let y = chars_of(b);
    let mut k: usize = 0;
    assert(x@.skip(0) =~= x@);
    assert(y@.skip(0) =~= y@);
    while k < x.len() && k < y.len()
        invariant
            x@ == a@,
            y@ == b@,
            k <= x@.len(),
            k <= y@.len(),
            text_lt(a@, b@) == text_lt(x@.skip(k as int), y@.skip(k as int)),
        decreases x@.len() - k,
    {
        assert(x@.skip(k as int)[0] == x@[k as int]);
        assert(y@.skip(k as int)[0] == y@[k as int]);
        if x[k] != y[k] {
            return x[k] < y[k];
        }
        assert(x@.skip(k as int).drop_first() =~= x@.skip(k + 1));
        assert(y@.skip(k as int).drop_first() =~= y@.skip(k + 1));
        k = k + 1;
    }
    k == x.len() && k < y.len()
}

/// Whether `s` holds `pat`.
pub open spec fn holds_text(s: Seq<char>, pat: Seq<char>) -> bool {
    exists|i: int| 0 <= i && i + pat.len() <= s.len() && #[trigger] s.subrange(i, i + pat.len()) == pat
}

/// Whether `s` holds `pat`.
pub fn contains_text(s: &str, pat: &str) -> (r: bool)
    ensures
        r == holds_text(s@, pat@),
{
    let x = chars_of(s);
    let p = chars_of(pat);
    if p.len() > x.len() {
        return false;
    }
    let xl: usize = x.len();
    let lim: usize = xl - p.len();
    let mut i: usize = 0;
    loop
        invariant_except_break
            xl == x@.len(),
            x@ == s@,
            p@ == pat@,
            lim == x@.len() - p@.len(),
            p@.len() <= x@.len(),
            i <= lim,
            forall|j: int| 0 <= j < i ==> #[trigger] s@.subrange(j, j + pat@.len()) != pat@,
        ensures
            forall|j: int| 0 <= j <= lim ==> #[trigger] s@.subrange(j, j + pat@.len()) != pat@,
            lim == s@.len() - pat@.len(),
        decreases lim - i,
    {
        assert(i + p@.len() <= x@.len());
        let w = crate::text::slice_chars(&x, i, i + p.len());
        if crate::text::chars_eq(&w, &p) {
            return true;
        }
        if i == lim {
            break;
        }
        i = i + 1;
    }
    false
}

/// Whether the runtime folder's path mentions `Experimental`.
pub open spec fn is_experimental(common: Seq<char>, name: Seq<char>) -> bool {
    holds_text(path_join(common, name), "Experimental"@)
}

/// The Proton runtime to run the tool with, among the candidate folder
/// names under `common` (each already known to be a `Proton*` directory
/// holding a `proton` launcher): in sorted order, the first whose path
/// mentions `Experimental`, else the last.
pub open spec fn proton_choice(common: Seq<char>, names: Seq<Seq<char>>, pick: int) -> bool {
    &&& 0 <= pick < names.len()
    &&& if exists|i: int| 0 <= i < names.len() && is_experimental(common, #[trigger] names[i]) {
        is_experimental(common, names[pick]) && forall|i: int|
            0 <= i < names.len() && is_experimental(common, names[i]) ==> !text_lt(
                #[trigger] names[i],
                names[pick],
            )
    } else {
        forall|i: int| 0 <= i < names.len() ==> !text_lt(names[pick], #[trigger] names[i])
    }
}

/// The `proton` launcher of the preferred runtime; `None` without
/// candidates.
pub fn pick_proton(common: &str, names: &[String]) -> (r: Option<String>)
    ensures
        names@.len() == 0 ==> r is None,
        names@.len() > 0 ==> exists|pick: int|
            proton_choice(common@, views(names@), pick) && (r matches Some(p) && p@ == path_join(
                path_join(common@, views(names@)[pick]),
                "proton"@,
            )),
{
    if names.len() == 0 {
        return None;
    }
    let ghost nv = views(names@);
    let mut best_exp: Option<usize> = None;
    let mut best_any: usize = 0;
    let mut i: usize = 0;
    while i < names.len()
        invariant
            nv == views(names@),
            names@.len() > 0,
            i <= names@.len(),
            best_any < names@.len(),
            i > 0 ==> best_any < i,
            forall|j: int| 0 <= j < i ==> !text_lt(nv[best_any as int], #[trigger] nv[j]),
            match best_exp {
                Some(b) => b < i && is_experimental(common@, nv[b as int]) && forall|j: int|
                    0 <= j < i && is_experimental(common@, nv[j]) ==> !text_lt(
                        #[trigger] nv[j],
                        nv[b as int],
                    ),
                None => forall|j: int| 0 <= j < i ==> !is_experimental(common@, #[trigger] nv[j]),
            },
        decreases names@.len() - i,
    {
        assert(nv[i as int] == names@[i as int]@);
        assert(nv[best_any as int] == names@[best_any as int]@);
        proof {
            let m = nv[i as int];
            assert forall|j: int, k: int| #![trigger nv[j], nv[k]] 0 <= j < names@.len() && 0 <= k < names@.len()
                implies (text_lt(nv[j], nv[k]) && text_lt(nv[k], m) ==> text_lt(nv[j], m)) && (text_lt(
                m,
                nv[j],
            ) && text_lt(nv[j], nv[k]) ==> text_lt(m, nv[k])) && (text_lt(nv[j], m) && text_lt(
                m,
                nv[k],
            ) ==> text_lt(nv[j], nv[k])) && !text_lt(nv[j], nv[j]) && !text_lt(m, m) by {
                lemma_text_lt_order(nv[j], nv[k], m);
                lemma_text_lt_order(m, nv[j], nv[k]);
                lemma_text_lt_order(nv[j], m, nv[k]);
            }
        }
        let full = join(common, names[i].as_str());
        if contains_text(full.as_str(), "Experimental") {
            match best_exp {
                Some(b) => {
                    assert(nv[b as int] == names@[b as int]@);
                    if text_less(names[i].as_str(), names[b].as_str()) {
                        best_exp = Some(i);
                    }
                },
                None => {
                    best_exp = Some(i);
                },
            }
        }
        if i == 0 || text_less(names[best_any].as_str(), names[i].as_str()) {
            best_any = i;
        }
        i = i + 1;
    }
    let pick = match best_exp {
        Some(b) => b,
        None => best_any,
    };
    assert(nv[pick as int] == names@[pick as int]@);
    let dir = join(common, names[pick].as_str());
    let r = join(dir.as_str(), "proton");
    assert(proton_choice(common@, nv, pick as int));
    Some(r)
}

/// The `proton` argv for `redMod deploy` (program excluded).
pub fn deploy_args(redmod_exe: &str, game_root: &str) -> (r: Vec<String>)
    ensures
        views(r@) == seq!["run"@, redmod_exe@, "deploy"@, "-root="@ + game_root@],
{
    let mut args: Vec<String> = Vec::new();
    args.push(owned("run"));
    args.push(owned(redmod_exe));
    args.push(owned("deploy"));
    let mut root = owned("-root=");
    push_str(&mut root, game_root);
    args.push(root);
    assert(views(args@) =~= seq!["run"@, redmod_exe@, "deploy"@, "-root="@ + game_root@]);
    args
}

/// How to run the REDmod tool: the Proton launcher, its argv, and the two
/// Steam compatibility paths it needs in its environment.
#[derive(Debug, Clone)]
pub struct RedmodLaunch {
    pub proton: String,
    pub args: Vec<String>,
    /// `STEAM_COMPAT_DATA_PATH`: `<steamapps>/compatdata/<appid>`.
    pub compat_data: String,
    /// `STEAM_COMPAT_CLIENT_INSTALL_PATH`: the library root above
    /// `steamapps` (or `steamapps` itself when it has none).
    pub steam_root: String,
}

/// Decides a REDmod deploy: nothing to do without REDmod mods; the tool,
/// then a Proton runtime, then the Steam library must be found; otherwise
/// the launch to perform.
pub fn plan_deploy(game: &InstalledGame, any_redmod: bool, exe: Option<String>, proton: Option<String>) -> (r:
    Result<RedmodLaunch, RedmodStatus>)
    ensures
        !any_redmod ==> r matches Err(RedmodStatus::NoRedmodMods),
        any_redmod && exe is None ==> r matches Err(RedmodStatus::ToolMissing),
        any_redmod && exe is Some && (proton is None || steamapps_of(game.path@) is None) ==> r matches Err(
            RedmodStatus::ProtonMissing,
        ),
        r matches Ok(l) ==> (any_redmod && exe is Some && proton is Some && steamapps_of(game.path@) is Some
            && l.proton@ == proton.unwrap()@ && views(l.args@) == seq![
                "run"@,
                exe.unwrap()@,
                "deploy"@,
                "-root="@ + game.path@,
            ] && l.compat_data@ == path_join(
                path_join(steamapps_of(game.path@).unwrap(), "compatdata"@),
                decimal(game.spec.steam_appid as nat),
            ) && l.steam_root@ == match path_parent(steamapps_of(game.path@).unwrap()) {
                Some(p) => p,
                None => steamapps_of(game.path@).unwrap(),
            }),
        any_redmod && exe is Some && proton is Some && steamapps_of(game.path@) is Some ==> r is Ok,
{
    if !any_redmod {
        return Err(RedmodStatus::NoRedmodMods);
    }
    let exe = match exe {
        Some(e) => e,
        None => return Err(RedmodStatus::ToolMissing),
    };
    let proton = match proton {
        Some(p) => p,
        None => return Err(RedmodStatus::ProtonMissing),
    };
    let steamapps = match game.steamapps_dir() {
        Some(s) => s,
        None => return Err(RedmodStatus::ProtonMissing),
    };
    let compat = join(steamapps.as_str(), "compatdata");
    let id = decimal_string(game.spec.steam_appid as u64);
    let compat_data = join(compat.as_str(), id.as_str());
    let steam_root = match parent(steamapps.as_str()) {
        Some(p) => p,
        None => owned(steamapps.as_str()),
    };
    let args = deploy_args(exe.as_str(), game.path.as_str());
    Ok(RedmodLaunch { proton, args, compat_data, steam_root })
}

} // verus!
