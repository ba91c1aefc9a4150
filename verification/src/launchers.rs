//! Matching installs found by non-Steam launchers (Heroic, Lutris) to the
//! catalog: store titles, the flat Lutris YAML, and recording each install
//! once.

use vstd::prelude::*;
use crate::game::{
    first_where, has_id, lemma_first_where_end, lemma_first_where_step, record_install,
    catalog, spec_by_id, spec_catalog, has_install_at, GameSpec, InstalledGame,
};
use crate::paths::{file_name, parent, path_file_name, path_parent};
use crate::json::{field_of, field_text, items_of, members_of, opt_items, Json};
use crate::text::{
    chars_of, is_alnum, is_alnum_char, lines, lower_char, opt_str, owned, push_str, split_lines,
    str_eq, string_of, strip_both_vec, strip_leading, strip_trailing, to_lower_char, trim,
    trim_vec, views,
};

verus! {

/// Lowercase, alphanumeric-only form of a title.
pub open spec fn normalized(s: Seq<char>) -> Seq<char>
    decreases s.len(),
{
    if s.len() == 0 {
        seq![]
    } else if is_alnum(s.last()) {
        normalized(s.drop_last()).push(lower_char(s.last()))
    } else {
        normalized(s.drop_last())
    }
}

/// Lowercase, alphanumeric-only form for title comparison.
pub fn normalize(s: &str) -> (r: String)
    ensures
        r@ == normalized(s@),
{
    let cs = chars_of(s);
    let mut out: Vec<char> = Vec::new();
    let mut i: usize = 0;
    while i < cs.len()
        invariant
            cs@ == s@,
            i <= cs@.len(),
            out@ == normalized(cs@.take(i as int)),
        decreases cs@.len() - i,
    {
        assert(cs@.take(i + 1).drop_last() =~= cs@.take(i as int));
        if is_alnum_char(cs[i]) {
            out.push(to_lower_char(cs[i]));
        }
        i = i + 1;
    }
    assert(cs@.take(cs@.len() as int) =~= cs@);
    string_of(&out)
}

/// Games whose normalized name is `norm`.
pub open spec fn has_norm_name(norm: Seq<char>) -> spec_fn(GameSpec) -> bool {
    |g: GameSpec| normalized(g.name@) == norm
}

/// Store-title variants (normalized) and the catalog id they stand for.
pub open spec fn title_alias(norm: Seq<char>) -> Option<Seq<char>> {
    if norm == "theelderscrollsvskyrimspecialedition"@ || norm
        == "theelderscrollsvskyrimanniversaryedition"@ || norm == "skyrimanniversaryedition"@ {
        Some("skyrimse"@)
    } else if norm == "theelderscrollsvskyrim"@ || norm == "theelderscrollsvskyrimlegendaryedition"@ {
        Some("skyrim"@)
    } else if norm == "theelderscrollsivoblivion"@ || norm == "theelderscrollsivoblivriongoty"@ {
        Some("oblivion"@)
    } else if norm == "theelderscrollsiiimorrowind"@ || norm
        == "theelderscrollsiiimorrowindgotyedition"@ {
        Some("morrowind"@)
    } else if norm == "fallout4gameoftheyearedition"@ {
        Some("fallout4"@)
    } else if norm == "falloutnewvegas"@ || norm == "falloutnewvegasultimateedition"@ {
        Some("falloutnv"@)
    } else if norm == "fallout3gameoftheyearedition"@ {
        Some("fallout3"@)
    } else if norm == "crusaderkings3"@ {
        Some("ck3"@)
    } else if norm == "crusaderkings2"@ {
        Some("ck2"@)
    } else {
        None
    }
}

fn alias_id(norm: &str) -> (r: Option<&'static str>)
    ensures
        match title_alias(norm@) {
            Some(id) => r matches Some(s) && s@ == id,
            None => r is None,
        },
{
    if str_eq(norm, "theelderscrollsvskyrimspecialedition") || str_eq(
        norm,
        "theelderscrollsvskyrimanniversaryedition",
    ) || str_eq(norm, "skyrimanniversaryedition") {
        Some("skyrimse")
    } else if str_eq(norm, "theelderscrollsvskyrim") || str_eq(
        norm,
        "theelderscrollsvskyrimlegendaryedition",
    ) {
        Some("skyrim")
    } else if str_eq(norm, "theelderscrollsivoblivion") || str_eq(
        norm,
        "theelderscrollsivoblivriongoty",
    ) {
        Some("oblivion")
    } else if str_eq(norm, "theelderscrollsiiimorrowind") || str_eq(
        norm,
        "theelderscrollsiiimorrowindgotyedition",
    ) {
        Some("morrowind")
    } else if str_eq(norm, "fallout4gameoftheyearedition") {
        Some("fallout4")
    } else if str_eq(norm, "falloutnewvegas") || str_eq(norm, "falloutnewvegasultimateedition") {
        Some("falloutnv")
    } else if str_eq(norm, "fallout3gameoftheyearedition") {
        Some("fallout3")
    } else if str_eq(norm, "crusaderkings3") {
        Some("ck3")
    } else if str_eq(norm, "crusaderkings2") {
        Some("ck2")
    } else {
        None
    }
}

/// The catalog game a store title names: the game whose normalized name is
/// the normalized title, else the game of a known title variant.
pub open spec fn title_game(title: Seq<char>) -> Option<GameSpec> {
    let norm = normalized(title);
    match first_where(spec_catalog(), has_norm_name(norm)) {
        Some(g) => Some(g),
        None => match title_alias(norm) {
            Some(id) => first_where(spec_catalog(), has_id(id)),
            None => None,
        },
    }
}

/// Resolves a store/launcher display title to a catalog game.
pub fn spec_for_title(title: &str) -> (r: Option<GameSpec>)
    ensures
        r == title_game(title@),
{
    let norm = normalize(title);
    let cat = catalog();
    let mut i: usize = 0;
    assert(spec_catalog().skip(0) =~= spec_catalog());
    while i < cat.len()
        invariant
            cat@ == spec_catalog(),
            norm@ == normalized(title@),
            i <= cat@.len(),
            first_where(spec_catalog(), has_norm_name(norm@)) == first_where(
                spec_catalog().skip(i as int),
                has_norm_name(norm@),
            ),
        decreases cat@.len() - i,
    {
        proof {
            lemma_first_where_step(spec_catalog(), has_norm_name(norm@), i as int);
        }
        let n = normalize(cat[i].name);
        if str_eq(n.as_str(), norm.as_str()) {
            assert(has_norm_name(norm@)(cat@[i as int]));
            assert(spec_catalog()[i as int] == cat@[i as int]);
            return Some(cat[i]);
        }
        i = i + 1;
    }
    proof {
        lemma_first_where_end(spec_catalog(), has_norm_name(norm@));
    }
    match alias_id(norm.as_str()) {
        Some(id) => spec_by_id(id),
        None => None,
    }
}

/// Records an install found by a launcher: only when the title names a
/// catalog game and the directory exists (`is_dir`), and only once per path.
pub fn push_match(
    out: &mut Vec<InstalledGame>,
    title: &str,
    dir: &str,
    is_dir: bool,
    prefix: Option<String>,
) -> (added: bool)
    ensures
        added == (title_game(title@) is Some && is_dir && !has_install_at(old(out)@, dir@)),
        added ==> final(out)@.len() == old(out)@.len() + 1 && final(out)@.take(
            old(out)@.len() as int,
        ) == old(out)@ && final(out)@.last().spec == title_game(title@).unwrap()
            && final(out)@.last().path@ == dir@ && opt_str(final(out)@.last().prefix) == opt_str(
            prefix,
        ),
        !added ==> final(out)@ == old(out)@,
{
    let spec = match spec_for_title(title) {
        Some(s) => s,
        None => return false,
    };
    if !is_dir {
        return false;
    }
    let ghost before = out@;
    let added = record_install(out, InstalledGame { spec, path: owned(dir), prefix });
    proof {
        if added {
            assert(out@.take(before.len() as int) =~= before);
        }
    }
    added
}

/// The last component of `path`, as the fallback title of an install.
pub fn dir_name(path: &str) -> (r: Option<String>)
    ensures
        opt_str(r) == path_file_name(path@),
{
    file_name(path)
}

/// The title of a GOG install: the library's title for its app name, else
/// the install directory's name, else empty.
pub open spec fn gog_title_of(titles: Seq<(String, String)>, app: Seq<char>, path: Seq<char>) -> Seq<
    char,
> {
    if exists|i: int| 0 <= i < titles.len() && titles[i].0@ == app {
        titles[choose|i: int|
            0 <= i < titles.len() && titles[i].0@ == app && forall|j: int|
                0 <= j < i ==> titles[j].0@ != app].1@
    } else {
        match path_file_name(path) {
            Some(n) => n,
            None => seq![],
        }
    }
}

/// The title under which a Heroic GOG install is matched.
pub fn gog_title(titles: &[(String, String)], app: &str, path: &str) -> (r: String)
    ensures
        r@ == gog_title_of(titles@, app@, path@),
{
    let mut i: usize = 0;
    while i < titles.len()
        invariant
            i <= titles@.len(),
            forall|j: int| 0 <= j < i ==> titles@[j].0@ != app@,
        decreases titles@.len() - i,
    {
        if str_eq(titles[i].0.as_str(), app) {
            let ghost k = choose|k: int|
                0 <= k < titles@.len() && titles@[k].0@ == app@ && forall|j: int|
                    0 <= j < k ==> titles@[j].0@ != app@;
            assert(0 <= i < titles@.len() && titles@[i as int].0@ == app@ && forall|j: int|
                0 <= j < i ==> titles@[j].0@ != app@);
            assert(k == i) by {
                if k < i {
                    assert(titles@[k].0@ != app@);
                } else if k > i {
                    assert(titles@[i as int].0@ != app@);
                }
            }
            return owned(titles[i].1.as_str());
        }
        i = i + 1;
    }
    match file_name(path) {
        Some(n) => n,
        None => String::new(),
    }
}

// ---- Lutris YAML ------------------------------------------------------------

/// The value after `needle` on a trimmed line that starts with it.
pub open spec fn after_prefix(line: Seq<char>, needle: Seq<char>) -> Option<Seq<char>> {
    let t = trim(line);
    if t.len() >= needle.len() && t.take(needle.len() as int) == needle {
        Some(t.skip(needle.len() as int))
    } else {
        None
    }
}

/// The first line (from `i`) that starts with `needle`, and what follows it.
pub open spec fn first_after(ls: Seq<Seq<char>>, needle: Seq<char>, i: int) -> Option<Seq<char>>
    decreases ls.len() - i,
{
    if i < 0 || i >= ls.len() {
        None
    } else {
        match after_prefix(ls[i], needle) {
            Some(v) => Some(v),
            None => first_after(ls, needle, i + 1),
        }
    }
}

/// A value with surrounding blanks and then quotes removed.
pub open spec fn clean_value(v: Seq<char>) -> Seq<char> {
    strip_trailing(
        strip_leading(strip_trailing(strip_leading(trim(v), '\''), '\''), '"'),
        '"',
    )
}

/// The first `key: value` of a flat YAML text, when the value is not empty.
pub open spec fn yaml_value_of(yml: Seq<char>, key: Seq<char>) -> Option<Seq<char>> {
    match first_after(lines(yml), key + seq![':'], 0) {
        Some(v) => if clean_value(v).len() > 0 {
            Some(clean_value(v))
        } else {
            None
        },
        None => None,
    }
}

/// First `key: value` occurrence in a simple Lutris YAML (line scan).
pub fn yaml_value(yml: &str, key: &str) -> (r: Option<String>)
    ensures
        opt_str(r) == yaml_value_of(yml@, key@),
{
    let mut needle = owned(key);
    crate::text::push_char(&mut needle, ':');
    let nd = chars_of(needle.as_str());
    let ls = split_lines(yml);
    assert(views(ls@) =~= ls@.map_values(|x: String| x@));
    let mut i: usize = 0;
    while i < ls.len()
        invariant
            i <= ls@.len(),
            nd@ == key@ + seq![':'],
            views(ls@) == lines(yml@),
            first_after(lines(yml@), nd@, 0) == first_after(lines(yml@), nd@, i as int),
        decreases ls@.len() - i,
    {
        assert(views(ls@)[i as int] == ls@[i as int]@);
        let cs = chars_of(ls[i].as_str());
        let t = trim_vec(&cs);
        if t.len() >= nd.len() {
            let head = crate::text::slice_chars(&t, 0, nd.len());
            assert(head@ == t@.take(nd@.len() as int));
            if crate::text::chars_eq(&head, &nd) {
                let rest = crate::text::slice_chars(&t, nd.len(), t.len());
                assert(rest@ == t@.skip(nd@.len() as int));
                let v = trim_vec(&rest);
                let v1 = strip_both_vec(&v, '\'');
                let v2 = strip_both_vec(&v1, '"');
                if v2.len() == 0 {
                    return None;
                }
                return Some(string_of(&v2));
            }
        }
        i = i + 1;
    }
    None
}

/// The prefix a Lutris game YAML records.
pub fn lutris_prefix(yml: &str) -> (r: Option<String>)
    ensures
        opt_str(r) == yaml_value_of(yml@, "prefix"@),
{
    yaml_value(yml, "prefix")
}

/// The install dir of a Lutris game: `directory` when set and not empty,
/// else the directory of the YAML's `exe`, else empty.
pub open spec fn lutris_dir_of(directory: Option<Seq<char>>, yml: Seq<char>) -> Seq<char> {
    match directory {
        Some(d) if d.len() > 0 => d,
        _ => match yaml_value_of(yml, "exe"@) {
            Some(exe) => match path_parent(exe) {
                Some(p) => p,
                None => seq![],
            },
            None => seq![],
        },
    }
}

/// Where a Lutris game is installed (`directory` is often empty for Wine
/// games; the executable's directory is the fallback).
pub fn lutris_install_dir(directory: Option<String>, yml: &str) -> (r: String)
    ensures
        r@ == lutris_dir_of(opt_str(directory), yml@),
{
    if let Some(d) = directory {
        if !d.as_str().is_empty() {
            return d;
        }
    }
    match yaml_value(yml, "exe") {
        Some(exe) => match parent(exe.as_str()) {
            Some(p) => p,
            None => String::new(),
        },
        None => String::new(),
    }
}

/// A Lutris game row as an install: its dir and Wine prefix from the row's
/// `directory` and its YAML; none when no install dir can be told.
pub fn lutris_install(directory: Option<String>, yml: &str) -> (r: Option<(String, Option<String>)>)
    ensures
        match r {
            Some((d, p)) => lutris_dir_of(opt_str(directory), yml@).len() > 0 && d@ == lutris_dir_of(
                opt_str(directory),
                yml@,
            ) && opt_str(p) == yaml_value_of(yml@, "prefix"@),
            None => lutris_dir_of(opt_str(directory), yml@).len() == 0,
        },
{
    let dir = lutris_install_dir(directory, yml);
    if dir.as_str().is_empty() {
        None
    } else {
        Some((dir, lutris_prefix(yml)))
    }
}

// ---- Heroic documents ----------------------------------------------------------------

/// A found install as text: store id, title, install dir.
pub open spec fn found_views(v: Seq<(String, String, String)>) -> Seq<(Seq<char>, Seq<char>, Seq<char>)> {
    v.map_values(|t: (String, String, String)| (t.0@, t.1@, t.2@))
}

/// The text of member `key`, or empty.
pub open spec fn text_or_empty(j: Json, key: Seq<char>) -> Seq<char> {
    match field_text(j, key) {
        Some(t) => t,
        None => seq![],
    }
}

/// `(app_name, title)` of the first `n` games of a GOG library document
/// (games without both are skipped).
pub open spec fn library_titles_upto(gs: Seq<Json>, n: int) -> Seq<(Seq<char>, Seq<char>)>
    decreases n,
{
    if n <= 0 {
        seq![]
    } else {
        let prev = library_titles_upto(gs, n - 1);
        match (field_text(gs[n - 1], "app_name"@), field_text(gs[n - 1], "title"@)) {
            (Some(a), Some(t)) => prev.push((a, t)),
            _ => prev,
        }
    }
}

/// The `(app_name, title)` pairs of a GOG library document (its `games`).
pub fn library_titles(lib: &Json) -> (r: Vec<(String, String)>)
    ensures
        r@.map_values(|p: (String, String)| (p.0@, p.1@)) == library_titles_upto(
            opt_items(field_of(*lib, "games"@)),
            opt_items(field_of(*lib, "games"@)).len() as int,
        ),
{
    let games: &[Json] = match lib.field("games") {
        Some(g) => g.items(),
        None => &[],
    };
    let ghost gs = games@;
    let mut out: Vec<(String, String)> = Vec::new();
    let mut i: usize = 0;
    while i < games.len()
        invariant
            i <= games@.len(),
            out@.map_values(|p: (String, String)| (p.0@, p.1@)) == library_titles_upto(games@, i as int),
        decreases games@.len() - i,
    {
        let ghost before = out@.map_values(|p: (String, String)| (p.0@, p.1@));
        match (games[i].field_text("app_name"), games[i].field_text("title")) {
            (Some(a), Some(t)) => {
                out.push((owned(a), owned(t)));
                assert(out@.map_values(|p: (String, String)| (p.0@, p.1@)) =~= before.push((a@, t@)));
            },
            _ => {},
        }
        i = i + 1;
    }
    out
}

/// The installs among the first `n` entries of Heroic's GOG `installed`
/// list: each with an `install_path`, named by [`gog_title`].
pub open spec fn gog_installs_upto(es: Seq<Json>, titles: Seq<(String, String)>, n: int) -> Seq<
    (Seq<char>, Seq<char>, Seq<char>),
>
    decreases n,
{
    if n <= 0 {
        seq![]
    } else {
        let prev = gog_installs_upto(es, titles, n - 1);
        match field_text(es[n - 1], "install_path"@) {
            Some(path) => {
                let app = text_or_empty(es[n - 1], "appName"@);
                prev.push((app, gog_title_of(titles, app, path), path))
            },
            None => prev,
        }
    }
}

/// The installs among the first `n` members of Legendary's `installed.json`
/// (keyed by app name): each with a `title` and an `install_path`.
pub open spec fn legendary_installs_upto(ms: Seq<(String, Json)>, n: int) -> Seq<(Seq<char>, Seq<char>, Seq<char>)>
    decreases n,
{
    if n <= 0 {
        seq![]
    } else {
        let prev = legendary_installs_upto(ms, n - 1);
        match (field_text(ms[n - 1].1, "title"@), field_text(ms[n - 1].1, "install_path"@)) {
            (Some(t), Some(p)) => prev.push((ms[n - 1].0@, t, p)),
            _ => prev,
        }
    }
}

/// The executable path of a sideloaded game (`install.executable`).
pub open spec fn sideload_exe(e: Json) -> Option<Seq<char>> {
    match field_of(e, "install"@) {
        Some(i) => field_text(i, "executable"@),
        None => None,
    }
}

/// The installs among the first `n` sideloaded games: each with a `title`
/// and an executable, installed in the executable's directory.
pub open spec fn sideload_installs_upto(es: Seq<Json>, n: int) -> Seq<(Seq<char>, Seq<char>, Seq<char>)>
    decreases n,
{
    if n <= 0 {
        seq![]
    } else {
        let prev = sideload_installs_upto(es, n - 1);
        match (field_text(es[n - 1], "title"@), sideload_exe(es[n - 1])) {
            (Some(t), Some(x)) => match path_parent(x) {
                Some(d) => prev.push((text_or_empty(es[n - 1], "app_name"@), t, d)),
                None => prev,
            },
            _ => prev,
        }
    }
}

/// What Heroic's documents list, in order: GOG installs (from
/// `gog_store/installed.json`, titled through the GOG library `titles`),
/// Epic installs (from Legendary's `installed.json`), then sideloaded games
/// (from `sideload_apps/library.json`). A missing document lists nothing.
pub open spec fn heroic_installs(
    gog: Option<Json>,
    legendary: Option<Json>,
    sideload: Option<Json>,
    titles: Seq<(String, String)>,
) -> Seq<(Seq<char>, Seq<char>, Seq<char>)> {
    let g = match gog {
        Some(d) => opt_items(field_of(d, "installed"@)),
        None => seq![],
    };
    let l = match legendary {
        Some(d) => members_of(d),
        None => seq![],
    };
    let s = match sideload {
        Some(d) => opt_items(field_of(d, "games"@)),
        None => seq![],
    };
    gog_installs_upto(g, titles, g.len() as int) + legendary_installs_upto(l, l.len() as int)
        + sideload_installs_upto(s, s.len() as int)
}

fn text_or_empty_of(j: &Json, key: &str) -> (r: String)
    ensures
        r@ == text_or_empty(*j, key@),
{
    match j.field_text(key) {
        Some(t) => owned(t),
        None => String::new(),
    }
}

/// The Heroic installs its documents list, as `(app, title, dir)`: see
/// [`heroic_installs`]. The caller looks up each app's Wine prefix with
/// [`heroic_wine_prefix`] and records the install with [`push_match`].
pub fn heroic_games(
    gog: Option<Json>,
    legendary: Option<Json>,
    sideload: Option<Json>,
    titles: &[(String, String)],
) -> (r: Vec<(String, String, String)>)
    ensures
        found_views(r@) == heroic_installs(gog, legendary, sideload, titles@),
{
    let mut out: Vec<(String, String, String)> = Vec::new();
    let gi: &[Json] = match &gog {
        Some(d) => match d.field("installed") {
            Some(v) => v.items(),
            None => &[],
        },
        None => &[],
    };
    let mut i: usize = 0;
    while i < gi.len()
        invariant
            i <= gi@.len(),
            found_views(out@) == gog_installs_upto(gi@, titles@, i as int),
        decreases gi@.len() - i,
    {
        let ghost before = found_views(out@);
        if let Some(path) = gi[i].field_text("install_path") {
            let app = text_or_empty_of(&gi[i], "appName");
            let title = gog_title(titles, app.as_str(), path);
            let p = owned(path);
            let ghost row = (app@, title@, p@);
            out.push((app, title, p));
            assert(found_views(out@) =~= before.push(row));
        }
        i = i + 1;
    }
    let ghost after_gog = found_views(out@);
    let lm: &[(String, Json)] = match &legendary {
        Some(d) => d.members(),
        None => &[],
    };
    let mut j: usize = 0;
    while j < lm.len()
        invariant
            j <= lm@.len(),
            found_views(out@) == after_gog + legendary_installs_upto(lm@, j as int),
        decreases lm@.len() - j,
    {
        let ghost before = found_views(out@);
        match (lm[j].1.field_text("title"), lm[j].1.field_text("install_path")) {
            (Some(t), Some(p)) => {
                let row = (owned(lm[j].0.as_str()), owned(t), owned(p));
                let ghost rv = (row.0@, row.1@, row.2@);
                out.push(row);
                assert(found_views(out@) =~= before.push(rv));
            },
            _ => {},
        }
        j = j + 1;
    }
    let ghost after_legendary = found_views(out@);
    let sg: &[Json] = match &sideload {
        Some(d) => match d.field("games") {
            Some(v) => v.items(),
            None => &[],
        },
        None => &[],
    };
    let mut k: usize = 0;
    while k < sg.len()
        invariant
            k <= sg@.len(),
            found_views(out@) == after_legendary + sideload_installs_upto(sg@, k as int),
        decreases sg@.len() - k,
    {
        let ghost before = found_views(out@);
        let exe: Option<&str> = match sg[k].field("install") {
            Some(inst) => inst.field_text("executable"),
            None => None,
        };
        match (sg[k].field_text("title"), exe) {
            (Some(t), Some(x)) => match parent(x) {
                Some(d) => {
                    let row = (text_or_empty_of(&sg[k], "app_name"), owned(t), d);
                    let ghost rv = (row.0@, row.1@, row.2@);
                    out.push(row);
                    assert(found_views(out@) =~= before.push(rv));
                },
                None => {},
            },
            _ => {},
        }
        k = k + 1;
    }
    proof {
        assert(after_gog + legendary_installs_upto(lm@, lm@.len() as int) + sideload_installs_upto(sg@, sg@.len() as int)
            =~= heroic_installs(gog, legendary, sideload, titles@));
    }
    out
}

/// The Wine prefix of a Heroic game, from its `GamesConfig/<app>.json`
/// document (`<app>.winePrefix`); none for an empty app name.
pub fn heroic_wine_prefix(cfg: &Json, app: &str) -> (r: Option<String>)
    ensures
        opt_str(r) == if app@.len() == 0 {
            None
        } else {
            match field_of(*cfg, app@) {
                Some(g) => field_text(g, "winePrefix"@),
                None => None,
            }
        },
{
    if app.is_empty() {
        return None;
    }
    match cfg.field(app) {
        Some(g) => match g.field_text("winePrefix") {
            Some(p) => Some(owned(p)),
            None => None,
        },
        None => None,
    }
}

} // verus!
