//! Per-game mod storage: extracted mod trees live under the data dir,
//! never inside the game install. Deployment links from here into the game.
//! This module names the store's places and chooses slugs; the archive
//! extraction and the moves on disk are done by the caller.

use vstd::prelude::*;
use crate::error::Error;
use crate::paths::{join, path_join, extension_of, path_file_name, file_name, extension};
use crate::text::{
    owned, str_eq, to_lower, lower, decimal, push_decimal, push_str, push_char, chars_of,
    string_of, is_alnum, lower_char, to_lower_char, is_alnum_char, strip_leading, strip_trailing,
};

verus! {

/// Reference back to a mod's Nexus origin, for update checks.
#[derive(Debug)]
pub struct NexusRef {
    pub domain: String,
    pub mod_id: u64,
    pub file_id: u64,
    pub version: String,
}

/// A mod installed into the store (extracted, not yet necessarily deployed).
#[derive(Debug)]
pub struct ModRecord {
    /// Filesystem-safe unique id within the game.
    pub slug: String,
    /// Display name.
    pub name: String,
    /// Origin (archive filename, or "nexus:<id>" once integrated).
    pub source: Option<String>,
    /// Total size of the installed files, bytes.
    pub size_bytes: u64,
    /// Nexus origin metadata, when installed from Nexus.
    pub nexus: Option<NexusRef>,
}

/// `<game_store>/mods/<slug>`.
pub open spec fn mod_dir_of(game_store: Seq<char>, slug: Seq<char>) -> Seq<char> {
    path_join(path_join(game_store, "mods"@), slug)
}

impl ModRecord {
    /// Directory holding this mod's extracted files.
    pub fn dir(&self, game_store: &str) -> (r: String)
        ensures
            r@ == mod_dir_of(game_store@, self.slug@),
    {
        mod_dir(game_store, self.slug.as_str())
    }
}

/// Root directory for one game's store: `<data_root>/games/<id>`.
pub fn game_store_dir(data_root: &str, game_id: &str) -> (r: String)
    ensures
        r@ == path_join(path_join(data_root@, "games"@), game_id@),
{
    let g = join(data_root, "games");
    join(g.as_str(), game_id)
}

/// Final mod directory for a slug.
pub fn mod_dir(game_store: &str, slug: &str) -> (r: String)
    ensures
        r@ == mod_dir_of(game_store@, slug@),
{
    let m = join(game_store, "mods");
    join(m.as_str(), slug)
}

// ---- slugs ---------------------------------------------------------------------------

/// Each character of a name as it enters a slug.
pub open spec fn slug_char(c: char) -> char {
    if is_alnum(c) {
        lower_char(c)
    } else {
        '-'
    }
}

/// Runs of `-` collapsed to a single `-`.
pub open spec fn collapse(s: Seq<char>) -> Seq<char>
    decreases s.len(),
{
    if s.len() == 0 {
        s
    } else {
        let c = collapse(s.drop_last());
        if s.last() == '-' && c.len() > 0 && c.last() == '-' {
            c
        } else {
            c.push(s.last())
        }
    }
}

/// The slug of a name: ASCII letters and digits lowercased, everything else
/// `-`, runs of `-` collapsed, and no `-` at either end.
pub open spec fn slug_of(name: Seq<char>) -> Seq<char> {
    strip_trailing(strip_leading(collapse(name.map_values(|c: char| slug_char(c))), '-'), '-')
}

/// A well-formed slug: only `a-z`, `0-9` and single inner dashes.
pub open spec fn is_slug(s: Seq<char>) -> bool {
    &&& forall|i: int|
        0 <= i < s.len() ==> (('a' <= #[trigger] s[i] && s[i] <= 'z') || ('0' <= s[i] && s[i]
            <= '9') || s[i] == '-')
    &&& forall|i: int| 0 <= i < s.len() - 1 ==> !(#[trigger] s[i] == '-' && s[i + 1] == '-')
    &&& (s.len() > 0 ==> s[0] != '-' && s.last() != '-')
}

/// Characters are slug characters and dashes never repeat.
pub open spec fn slug_body(s: Seq<char>) -> bool {
    &&& forall|i: int|
        0 <= i < s.len() ==> (('a' <= #[trigger] s[i] && s[i] <= 'z') || ('0' <= s[i] && s[i]
            <= '9') || s[i] == '-')
    &&& forall|i: int| 0 <= i < s.len() - 1 ==> !(#[trigger] s[i] == '-' && s[i + 1] == '-')
}

proof fn lemma_collapse_body(s: Seq<char>)
    requires
        forall|i: int|
            0 <= i < s.len() ==> (('a' <= #[trigger] s[i] && s[i] <= 'z') || ('0' <= s[i] && s[i]
                <= '9') || s[i] == '-'),
    ensures
        slug_body(collapse(s)),
    decreases s.len(),
{
    if s.len() > 0 {
        lemma_collapse_body(s.drop_last());
        let c = collapse(s.drop_last());
        assert(s.last() == s[s.len() - 1]);
        if !(s.last() == '-' && c.len() > 0 && c.last() == '-') {
            let d = c.push(s.last());
            assert forall|i: int| 0 <= i < d.len() - 1 implies !(#[trigger] d[i] == '-' && d[i + 1]
                == '-') by {
                if i < c.len() - 1 {
                    assert(d[i] == c[i] && d[i + 1] == c[i + 1]);
                }
            }
        }
    }
}

proof fn lemma_strip_body(s: Seq<char>)
    requires
        slug_body(s),
    ensures
        slug_body(strip_leading(s, '-')),
        strip_leading(s, '-').len() > 0 ==> strip_leading(s, '-')[0] != '-',
    decreases s.len(),
{
    if s.len() > 0 && s[0] == '-' {
        let t = s.drop_first();
        assert forall|i: int| 0 <= i < t.len() - 1 implies !(#[trigger] t[i] == '-' && t[i + 1]
            == '-') by {
            assert(t[i] == s[i + 1] && t[i + 1] == s[i + 2]);
        }
        lemma_strip_body(t);
    }
}

proof fn lemma_strip_tail_body(s: Seq<char>)
    requires
        slug_body(s),
        s.len() > 0 ==> s[0] != '-',
    ensures
        is_slug(strip_trailing(s, '-')),
    decreases s.len(),
{
    if s.len() > 0 && s.last() == '-' {
        let t = s.drop_last();
        lemma_strip_tail_body(t);
    }
}

/// Turn an arbitrary name into a filesystem-safe slug.
pub fn slugify(name: &str) -> (r: String)
    ensures
        r@ == slug_of(name@),
        is_slug(r@),
{
    let cs = chars_of(name);
    let ghost mapped = cs@.map_values(|c: char| slug_char(c));
    let mut out: Vec<char> = Vec::new();
    let mut i: usize = 0;
    while i < cs.len()
        invariant
            i <= cs@.len(),
            mapped == cs@.map_values(|c: char| slug_char(c)),
            out@ == collapse(mapped.take(i as int)),
        decreases cs@.len() - i,
    {
        let c = cs[i];
        let m = if is_alnum_char(c) {
            to_lower_char(c)
        } else {
            '-'
        };
        assert(mapped.take(i + 1).drop_last() =~= mapped.take(i as int));
        assert(mapped.take(i + 1).last() == m);
        if !(m == '-' && out.len() > 0 && out[out.len() - 1] == '-') {
            out.push(m);
        }
        i = i + 1;
    }
    assert(mapped.take(cs@.len() as int) =~= mapped);
    proof {
        assert forall|k: int| 0 <= k < mapped.len() implies (('a' <= #[trigger] mapped[k]
            && mapped[k] <= 'z') || ('0' <= mapped[k] && mapped[k] <= '9') || mapped[k] == '-') by {
            let c = cs@[k];
            if is_alnum(c) && 'A' <= c && c <= 'Z' {
                assert(((c as u32) + 32) as char == lower_char(c));
            }
        }
        lemma_collapse_body(mapped);
        lemma_strip_body(out@);
        lemma_strip_tail_body(strip_leading(out@, '-'));
    }
    let t = crate::text::strip_both_vec(&out, '-');
    string_of(&t)
}

/// The `n`th slug tried for `base`: `base` itself, then `base-2`, `base-3`, ...
pub open spec fn candidate(base: Seq<char>, n: nat) -> Seq<char> {
    if n <= 1 {
        base
    } else {
        base + seq!['-'] + decimal(n)
    }
}

/// The base that a slug search starts from (`mod` for an empty one).
pub open spec fn slug_base(base: Seq<char>) -> Seq<char> {
    if base.len() == 0 {
        "mod"@
    } else {
        base
    }
}

/// The slugs already in use.
pub open spec fn used_slugs(existing: Seq<ModRecord>) -> Set<Seq<char>> {
    existing.map_values(|m: ModRecord| m.slug@).to_set()
}

proof fn lemma_decimal_len(n: nat)
    ensures
        decimal(n).len() >= 1,
        n < 10 <==> decimal(n).len() == 1,
    decreases n,
{
    if n >= 10 {
        lemma_decimal_len(n / 10);
    }
}

proof fn lemma_digit_char(d: nat, e: nat)
    requires
        d < 10,
        e < 10,
        crate::text::digit_char(d) == crate::text::digit_char(e),
    ensures
        d == e,
{
    assert('0' as u32 == 48 && '1' as u32 == 49 && '2' as u32 == 50 && '3' as u32 == 51 && '4' as u32
        == 52 && '5' as u32 == 53 && '6' as u32 == 54 && '7' as u32 == 55 && '8' as u32 == 56
        && '9' as u32 == 57);
}

proof fn lemma_decimal_injective(a: nat, b: nat)
    requires
        decimal(a) == decimal(b),
    ensures
        a == b,
    decreases a,
{
    lemma_decimal_len(a);
    lemma_decimal_len(b);
    if a < 10 {
        assert(b < 10);
        assert(decimal(a) == seq![crate::text::digit_char(a)]);
        assert(decimal(b) == seq![crate::text::digit_char(b)]);
        assert(decimal(a)[0] == decimal(b)[0]);
        assert(seq![crate::text::digit_char(a)][0] == crate::text::digit_char(a));
        assert(seq![crate::text::digit_char(b)][0] == crate::text::digit_char(b));
        assert(crate::text::digit_char(a) == crate::text::digit_char(b));
        lemma_digit_char(a, b);
    } else {
        assert(decimal(a).drop_last() == decimal(a / 10));
        assert(decimal(b).drop_last() == decimal(b / 10));
        lemma_decimal_injective(a / 10, b / 10);
        assert(b >= 10);
        assert(decimal(a) == decimal(a / 10).push(crate::text::digit_char(a % 10)));
        assert(decimal(b) == decimal(b / 10).push(crate::text::digit_char(b % 10)));
        assert(decimal(a).last() == decimal(b).last());
        assert(decimal(a / 10).push(crate::text::digit_char(a % 10)).last() == crate::text::digit_char(a % 10));
        assert(decimal(b / 10).push(crate::text::digit_char(b % 10)).last() == crate::text::digit_char(b % 10));
        lemma_digit_char(a % 10, b % 10);
    }
}

proof fn lemma_candidate_injective(base: Seq<char>, m: nat, n: nat)
    requires
        1 <= m,
        1 <= n,
        candidate(base, m) == candidate(base, n),
    ensures
        m == n,
{
    if m >= 2 && n >= 2 {
        let cm = candidate(base, m);
        assert(cm.skip(base.len() + 1int) =~= decimal(m));
        assert(candidate(base, n).skip(base.len() + 1int) =~= decimal(n));
        lemma_decimal_injective(m, n);
    } else if m >= 2 {
        lemma_decimal_len(m);
        assert(candidate(base, m).len() > base.len());
    } else if n >= 2 {
        lemma_decimal_len(n);
        assert(candidate(base, n).len() > base.len());
    }
}

/// If the candidates `1..=n` are all taken, there are at least `n` taken slugs.
proof fn lemma_candidates_bound(base: Seq<char>, used: Set<Seq<char>>, n: nat)
    requires
        used.finite(),
        forall|m: nat| 1 <= m <= n ==> used.contains(#[trigger] candidate(base, m)),
    ensures
        n <= used.len(),
{
    let dom = vstd::set_lib::set_int_range(1, n + 1int);
    vstd::set_lib::lemma_int_range(1, n + 1int);
    let f = |i: int| candidate(base, i as nat);
    let img = dom.map(f);
    assert(vstd::relations::injective_on(f, dom)) by {
        assert forall|x: int, y: int| dom.contains(x) && dom.contains(y) && #[trigger] f(x) == #[trigger] f(
            y,
        ) implies x == y by {
            lemma_candidate_injective(base, x as nat, y as nat);
        }
    }
    vstd::set_lib::lemma_map_size(dom, img, f);
    assert(img.subset_of(used)) by {
        assert forall|s: Seq<char>| img.contains(s) implies used.contains(s) by {
            let x = choose|x: int| dom.contains(x) && f(x) == s;
            assert(used.contains(candidate(base, x as nat)));
        }
    }
    vstd::set_lib::lemma_len_subset(img, used);
}

/// Pick a filesystem-safe slug not already used by `existing`: `base` (or
/// `mod` when empty) if free, otherwise the first free `base-N`, N ≥ 2.
pub fn unique_slug(existing: &[ModRecord], base: &str) -> (r: String)
    requires
        existing@.len() < u64::MAX,
    ensures
        exists|n: nat|
            1 <= n && r@ == candidate(slug_base(base@), n) && forall|m: nat|
                1 <= m < n ==> used_slugs(existing@).contains(#[trigger] candidate(
                    slug_base(base@),
                    m,
                )),
        !used_slugs(existing@).contains(r@),
{
    let b = if base.is_empty() {
        owned("mod")
    } else {
        owned(base)
    };
    let ghost bs = slug_base(base@);
    assert(b@ == bs);
    let ghost used = used_slugs(existing@);
    proof {
        vstd::seq_lib::seq_to_set_is_finite(existing@.map_values(|m: ModRecord| m.slug@));
        existing@.map_values(|m: ModRecord| m.slug@).lemma_cardinality_of_set();
    }
    let mut unique = owned(b.as_str());
    let mut n: u64 = 1;
    loop
        invariant
            1 <= n <= existing@.len() + 1,
            existing@.len() < u64::MAX,
            b@ == bs,
            bs == slug_base(base@),
            used == used_slugs(existing@),
            used.finite(),
            used.len() <= existing@.len(),
            unique@ == candidate(bs, n as nat),
            forall|m: nat| 1 <= m < n ==> used.contains(#[trigger] candidate(bs, m)),
        decreases existing@.len() + 1 - n,
    {
        let mut taken = false;
        let mut i: usize = 0;
        while i < existing.len()
            invariant
                i <= existing@.len(),
                !taken ==> forall|j: int| 0 <= j < i ==> existing@[j].slug@ != unique@,
                taken ==> used.contains(unique@),
                used == used_slugs(existing@),
            decreases existing@.len() - i,
        {
            if str_eq(existing[i].slug.as_str(), unique.as_str()) {
                assert(existing@.map_values(|m: ModRecord| m.slug@)[i as int] == unique@);
                taken = true;
            }
            i = i + 1;
        }
        if !taken {
            assert(1 <= n && unique@ == candidate(slug_base(base@), n as nat) && forall|m: nat|
                1 <= m < n ==> used_slugs(existing@).contains(
                    #[trigger] candidate(slug_base(base@), m),
                ));
            proof {
                assert forall|s: Seq<char>| used.contains(s) implies s != unique@ by {
                    let sv = existing@.map_values(|m: ModRecord| m.slug@);
                    let j = choose|j: int| 0 <= j < sv.len() && #[trigger] sv[j] == s;
                    assert(sv[j] == existing@[j].slug@);
                }
            }
            return unique;
        }
        proof {
            lemma_candidates_bound(bs, used, n as nat);
        }
        n = n + 1;
        let mut next = owned(b.as_str());
        push_char(&mut next, '-');
        push_decimal(&mut next, n);
        assert(next@ =~= candidate(bs, n as nat));
        unique = next;
    }
}

// ---- archives and staging ----------------------------------------------------------------

/// The lowercased extension of the path's file name is one libarchive reads.
pub open spec fn is_archive_path(p: Seq<char>) -> bool {
    match path_file_name(p) {
        Some(name) => match extension_of(name) {
            Some(e) => {
                let l = lower(e);
                l == "zip"@ || l == "7z"@ || l == "rar"@ || l == "tar"@ || l == "gz"@ || l
                    == "bz2"@ || l == "xz"@ || l == "zst"@
            },
            None => false,
        },
        None => false,
    }
}

/// True if the extension looks like a supported archive.
pub fn is_supported(path: &str) -> (r: bool)
    ensures
        r == is_archive_path(path@),
{
    match file_name(path) {
        Some(name) => match extension(name.as_str()) {
            Some(e) => {
                let l = to_lower(e.as_str());
                let s = l.as_str();
                str_eq(s, "zip") || str_eq(s, "7z") || str_eq(s, "rar") || str_eq(s, "tar")
                    || str_eq(s, "gz") || str_eq(s, "bz2") || str_eq(s, "xz") || str_eq(s, "zst")
            },
            None => false,
        },
        None => false,
    }
}

/// `Path::file_stem` of a file name: the name without its extension.
pub open spec fn stem_of(name: Seq<char>) -> Seq<char> {
    match extension_of(name) {
        Some(e) => name.take(name.len() - e.len() - 1),
        None => name,
    }
}

/// The display name an archive's mod gets: its file stem, or `mod`.
pub open spec fn archive_name(p: Seq<char>) -> Seq<char> {
    match path_file_name(p) {
        Some(n) => stem_of(n),
        None => "mod"@,
    }
}

/// An archive extracted to a temporary staging area, pending finalization.
/// FOMOD installers inspect/transform this before it becomes a real mod.
#[derive(Debug)]
pub struct Staged {
    pub slug: String,
    pub name: String,
    pub dir: String,
}

/// `st` stages the archive at `archive_path` under `game_store`: named after
/// the archive, under the reused slug or the first free candidate slug.
pub open spec fn staged_as(
    game_store: Seq<char>,
    archive_path: Seq<char>,
    existing: Seq<ModRecord>,
    reuse: Option<Seq<char>>,
    st: Staged,
) -> bool {
    &&& st.name@ == archive_name(archive_path)
    &&& match reuse {
        Some(s) => st.slug@ == s,
        None => !used_slugs(existing).contains(st.slug@) && exists|n: nat|
            1 <= n && st.slug@ == candidate(slug_base(slug_of(st.name@)), n),
    }
    &&& st.dir@ == path_join(path_join(game_store, ".staging"@), st.slug@)
}

/// Where and under which slug an archive is staged: `<store>/.staging/<slug>`,
/// the slug being `reuse_slug` (an in-place update) or a fresh unique slug
/// for the archive's name. Unsupported archive types are refused.
pub fn staging_for(
    game_store: &str,
    archive_path: &str,
    existing: &[ModRecord],
    reuse_slug: Option<&str>,
) -> (r: Result<Staged, Error>)
    requires
        existing@.len() < u64::MAX,
    ensures
        !is_archive_path(archive_path@) ==> (r matches Err(Error::Archive(m)) && m@
            == "unsupported archive type: "@ + archive_path@),
        is_archive_path(archive_path@) ==> (r matches Ok(st) && staged_as(
            game_store@,
            archive_path@,
            existing@,
            match reuse_slug {
                Some(s) => Some(s@),
                None => None,
            },
            st,
        )),
{
    if !is_supported(archive_path) {
        let mut m = owned("unsupported archive type: ");
        push_str(&mut m, archive_path);
        return Err(Error::Archive(m));
    }
    let name = match file_name(archive_path) {
        Some(n) => {
            let cs = chars_of(n.as_str());
            match extension(n.as_str()) {
                Some(e) => {
                    let ec = chars_of(e.as_str());
                    let stem = crate::text::slice_chars(&cs, 0, cs.len() - ec.len() - 1);
                    assert(stem@ =~= n@.take(n@.len() - e@.len() - 1));
                    string_of(&stem)
                },
                None => n,
            }
        },
        None => owned("mod"),
    };
    let slug = match reuse_slug {
        Some(s) => owned(s),
        None => {
            let base = slugify(name.as_str());
            unique_slug(existing, base.as_str())
        },
    };
    let staging = join(game_store, ".staging");
    let dir = join(staging.as_str(), slug.as_str());
    assert(name@ == archive_name(archive_path@));
    assert(match reuse_slug {
        Some(s) => slug@ == s@,
        None => !used_slugs(existing@).contains(slug@) && exists|n: nat|
            1 <= n && slug@ == candidate(slug_base(slug_of(name@)), n),
    });
    assert(dir@ == path_join(path_join(game_store@, ".staging"@), slug@));
    let st = Staged { slug, name, dir };
    assert(st.name@ == archive_name(archive_path@));
    assert(st.dir@ == path_join(path_join(game_store@, ".staging"@), st.slug@));
    assert(match reuse_slug {
        Some(s) => st.slug@ == s@,
        None => !used_slugs(existing@).contains(st.slug@) && exists|n: nat|
            1 <= n && st.slug@ == candidate(slug_base(slug_of(st.name@)), n),
    });
    assert(staged_as(
        game_store@,
        archive_path@,
        existing@,
        match reuse_slug {
            Some(s) => Some(s@),
            None => None,
        },
        st,
    ));
    Ok(st)
}

/// Build the `source` label for a record from the archive filename.
pub fn source_label(archive_path: &str) -> (r: Option<String>)
    ensures
        match path_file_name(archive_path@) {
            Some(n) => r matches Some(s) && s@ == n,
            None => r is None,
        },
{
    file_name(archive_path)
}

/// Names that are themselves real in-game folders (so a mod rooted at one
/// of these is already correctly structured and must not be hoisted).
pub open spec fn known_root(n: Seq<char>) -> bool {
    n == "data"@
        || n == "data files"@
        || n == "archive"@
        || n == "r6"@
        || n == "red4ext"@
        || n == "bin"@
        || n == "engine"@
        || n == "mods"@
        || n == "textures"@
        || n == "meshes"@
        || n == "scripts"@
        || n == "source"@
        || n == "sound"@
        || n == "music"@
        || n == "voices"@
        || n == "interface"@
        || n == "materials"@
        || n == "shadersfx"@
        || n == "seq"@
        || n == "strings"@
        || n == "video"@
        || n == "grass"@
        || n == "lodsettings"@
        || n == "facegen"@
        || n == "actors"@
        || n == "effects"@
        || n == "programs"@
        || n == "vis"@
        || n == "skse"@
        || n == "skse64"@
        || n == "f4se"@
        || n == "nvse"@
        || n == "fose"@
        || n == "obse"@
        || n == "sfse"@
        || n == "mcm"@
        || n == "dialogueviews"@
        || n == "calientetools"@
        || n == "fomod"@
        || n == "redscript"@
        || n == "tweaks"@
        || n == "plugins"@
        || n == "scripts_hot"@
}

/// Is this (case-insensitively) a real in-game folder name?
pub fn is_known_root(name: &str) -> (r: bool)
    ensures
        r == known_root(lower(name@)),
{
    let lo = to_lower(name);
    let l = lo.as_str();
    str_eq(l, "data")
        || str_eq(l, "data files")
        || str_eq(l, "archive")
        || str_eq(l, "r6")
        || str_eq(l, "red4ext")
        || str_eq(l, "bin")
        || str_eq(l, "engine")
        || str_eq(l, "mods")
        || str_eq(l, "textures")
        || str_eq(l, "meshes")
        || str_eq(l, "scripts")
        || str_eq(l, "source")
        || str_eq(l, "sound")
        || str_eq(l, "music")
        || str_eq(l, "voices")
        || str_eq(l, "interface")
        || str_eq(l, "materials")
        || str_eq(l, "shadersfx")
        || str_eq(l, "seq")
        || str_eq(l, "strings")
        || str_eq(l, "video")
        || str_eq(l, "grass")
        || str_eq(l, "lodsettings")
        || str_eq(l, "facegen")
        || str_eq(l, "actors")
        || str_eq(l, "effects")
        || str_eq(l, "programs")
        || str_eq(l, "vis")
        || str_eq(l, "skse")
        || str_eq(l, "skse64")
        || str_eq(l, "f4se")
        || str_eq(l, "nvse")
        || str_eq(l, "fose")
        || str_eq(l, "obse")
        || str_eq(l, "sfse")
        || str_eq(l, "mcm")
        || str_eq(l, "dialogueviews")
        || str_eq(l, "calientetools")
        || str_eq(l, "fomod")
        || str_eq(l, "redscript")
        || str_eq(l, "tweaks")
        || str_eq(l, "plugins")
        || str_eq(l, "scripts_hot")
}

/// The game's own folders are never hoisted, in any letter case: the deploy
/// roots and engine folders (`Data`, `Data Files`, `archive`, `r6`,
/// `red4ext`, `bin`, `engine`, `mods`), the Creation Engine data folders
/// (`textures`, `meshes`, `scripts`, ...), the script-extender and tool
/// folders (`SKSE`, `F4SE`, `MCM`, `fomod`, ...) and Cyberpunk's
/// (`redscript`, `tweaks`, `plugins`, `scripts_hot`). A mod whose only entry
/// is one of them keeps it.
pub proof fn game_folders_are_known_roots(name: Seq<char>)
    requires
        lower(name) == "data"@
            || lower(name) == "data files"@
            || lower(name) == "archive"@
            || lower(name) == "r6"@
            || lower(name) == "red4ext"@
            || lower(name) == "bin"@
            || lower(name) == "engine"@
            || lower(name) == "mods"@
            || lower(name) == "textures"@
            || lower(name) == "meshes"@
            || lower(name) == "scripts"@
            || lower(name) == "source"@
            || lower(name) == "sound"@
            || lower(name) == "music"@
            || lower(name) == "voices"@
            || lower(name) == "interface"@
            || lower(name) == "materials"@
            || lower(name) == "shadersfx"@
            || lower(name) == "seq"@
            || lower(name) == "strings"@
            || lower(name) == "video"@
            || lower(name) == "grass"@
            || lower(name) == "lodsettings"@
            || lower(name) == "facegen"@
            || lower(name) == "actors"@
            || lower(name) == "effects"@
            || lower(name) == "programs"@
            || lower(name) == "vis"@
            || lower(name) == "skse"@
            || lower(name) == "skse64"@
            || lower(name) == "f4se"@
            || lower(name) == "nvse"@
            || lower(name) == "fose"@
            || lower(name) == "obse"@
            || lower(name) == "sfse"@
            || lower(name) == "mcm"@
            || lower(name) == "dialogueviews"@
            || lower(name) == "calientetools"@
            || lower(name) == "fomod"@
            || lower(name) == "redscript"@
            || lower(name) == "tweaks"@
            || lower(name) == "plugins"@
            || lower(name) == "scripts_hot"@,
    ensures
        known_root(lower(name)),
{
}

/// The wrapper folder to hoist out of an extracted mod: its only entry,
/// when that is a directory that is not itself a real game folder.
/// `entries` are the names of the mod dir's entries, each with whether it
/// is a directory.
pub fn wrapper_to_hoist(entries: &[(String, bool)]) -> (r: Option<String>)
    ensures
        (entries@.len() == 1 && entries@[0].1 && !known_root(lower(entries@[0].0@))) ==> (r matches Some(n)
            && n@ == entries@[0].0@),
        !(entries@.len() == 1 && entries@[0].1 && !known_root(lower(entries@[0].0@))) ==> r is None,
{
    if entries.len() != 1 || !entries[0].1 {
        return None;
    }
    if is_known_root(entries[0].0.as_str()) {
        return None;
    }
    Some(owned(entries[0].0.as_str()))
}

} // verus!
