//! Load-order lists beyond Creation Engine `plugins.txt`: RimWorld's
//! `ModsConfig.xml` active-mod list and the Paradox launcher's
//! `enabled_mods`. Only the entries modeman manages are rewritten; the
//! user's base game, DLC and hand-added entries keep their place.

use vstd::prelude::*;
use crate::json::{field_of, field_text, member_from, opt_items, set_member, str_items, text_of, texts_of, texts_upto, Json};
use crate::paths::{extension, extension_of};
use crate::text::{eq_ignore_ascii_case, eq_ignore_case, lower, opt_str, owned, push_str, to_lower, trim, trim_str, views};
use crate::xml::{
    child, child_of, children, children_tagged, is_child, kids, lemma_kids, node_views, read_xml,
    root_element, root_of, tagged, text, xml_nodes, NodeView, XmlNode,
};

verus! {

/// Whether `e` names one of the `managed` entries (ignoring ASCII case).
pub open spec fn managed_by(managed: Seq<Seq<char>>, e: Seq<char>) -> bool {
    exists|i: int| 0 <= i < managed.len() && eq_ignore_case(#[trigger] managed[i], e)
}

/// The first `n` existing entries that modeman does not manage, in order.
pub open spec fn unmanaged(existing: Seq<Seq<char>>, managed: Seq<Seq<char>>, n: int) -> Seq<Seq<char>>
    decreases n,
{
    if n <= 0 {
        seq![]
    } else if managed_by(managed, existing[n - 1]) {
        unmanaged(existing, managed, n - 1)
    } else {
        unmanaged(existing, managed, n - 1).push(existing[n - 1])
    }
}

/// `base` with the first `n` active entries appended in order, each unless
/// an entry equal to it (ignoring ASCII case) is already there.
pub open spec fn with_active(base: Seq<Seq<char>>, active: Seq<Seq<char>>, n: int) -> Seq<Seq<char>>
    decreases n,
{
    if n <= 0 {
        base
    } else {
        let prev = with_active(base, active, n - 1);
        if managed_by(prev, active[n - 1]) {
            prev
        } else {
            prev.push(active[n - 1])
        }
    }
}

/// The new list: the unmanaged entries in place, then the active managed
/// ones in load order.
pub open spec fn merged(existing: Seq<Seq<char>>, active: Seq<Seq<char>>, managed: Seq<Seq<char>>) -> Seq<
    Seq<char>,
> {
    with_active(unmanaged(existing, managed, existing.len() as int), active, active.len() as int)
}

/// Whether some entry of `v` equals `s` ignoring ASCII case.
pub fn contains_ignore_case(v: &[String], s: &str) -> (r: bool)
    ensures
        r == managed_by(views(v@), s@),
{
    let mut i: usize = 0;
    while i < v.len()
        invariant
            i <= v@.len(),
            forall|j: int| 0 <= j < i ==> !eq_ignore_case(#[trigger] views(v@)[j], s@),
        decreases v@.len() - i,
    {
        assert(views(v@)[i as int] == v@[i as int]@);
        if eq_ignore_ascii_case(v[i].as_str(), s) {
            proof {
                crate::text::lemma_eq_ignore_case_symmetric(v@[i as int]@, s@);
            }
            return true;
        }
        i = i + 1;
    }
    proof {
        assert forall|j: int| 0 <= j < views(v@).len() implies !eq_ignore_case(#[trigger] views(v@)[j], s@) by {}
    }
    false
}

/// Rewrites a load-order list: entries of `existing` that modeman manages
/// are dropped, the others keep their order, and the `active` managed
/// entries follow in load order (each once).
pub fn merge_managed(existing: &[String], active: &[String], managed: &[String]) -> (r: Vec<String>)
    ensures
        views(r@) == merged(views(existing@), views(active@), views(managed@)),
{
    let mut out: Vec<String> = Vec::new();
    let mut i: usize = 0;
    while i < existing.len()
        invariant
            i <= existing@.len(),
            views(out@) == unmanaged(views(existing@), views(managed@), i as int),
        decreases existing@.len() - i,
    {
        assert(views(existing@)[i as int] == existing@[i as int]@);
        if !contains_ignore_case(managed, existing[i].as_str()) {
            proof {
                crate::text::lemma_managed_by_flip(views(managed@), existing@[i as int]@);
            }
            let ghost before = views(out@);
            out.push(owned(existing[i].as_str()));
            assert(views(out@) =~= before.push(existing@[i as int]@));
        } else {
            proof {
                crate::text::lemma_managed_by_flip(views(managed@), existing@[i as int]@);
            }
        }
        i = i + 1;
    }
    let ghost base = views(out@);
    let mut j: usize = 0;
    while j < active.len()
        invariant
            j <= active@.len(),
            base == unmanaged(views(existing@), views(managed@), existing@.len() as int),
            views(out@) == with_active(base, views(active@), j as int),
        decreases active@.len() - j,
    {
        assert(views(active@)[j as int] == active@[j as int]@);
        if !contains_ignore_case(out.as_slice(), active[j].as_str()) {
            let ghost before = views(out@);
            out.push(owned(active[j].as_str()));
            assert(views(out@) =~= before.push(active@[j as int]@));
        }
        j = j + 1;
    }
    out
}

/// RimWorld's core package id.
pub const RIMWORLD_CORE: &'static str = "ludeon.rimworld";

/// The RimWorld active list: the merged list, with Core first when it is
/// missing.
pub open spec fn rimworld_active(existing: Seq<Seq<char>>, active: Seq<Seq<char>>, managed: Seq<Seq<char>>) -> Seq<
    Seq<char>,
> {
    let m = merged(existing, active, managed);
    if managed_by(m, RIMWORLD_CORE@) {
        m
    } else {
        seq![RIMWORLD_CORE@] + m
    }
}

/// The new `<activeMods>` list of `ModsConfig.xml`.
pub fn rimworld_order(existing: &[String], active: &[String], managed: &[String]) -> (r: Vec<String>)
    ensures
        views(r@) == rimworld_active(views(existing@), views(active@), views(managed@)),
{
    let mut out = merge_managed(existing, active, managed);
    if !contains_ignore_case(out.as_slice(), RIMWORLD_CORE) {
        let ghost before = views(out@);
        out.insert(0, owned(RIMWORLD_CORE));
        assert(views(out@) =~= seq![RIMWORLD_CORE@] + before);
    }
    out
}

/// One `<li>` line per entry.
pub open spec fn li_lines(items: Seq<Seq<char>>) -> Seq<char>
    decreases items.len(),
{
    if items.len() == 0 {
        seq![]
    } else {
        li_lines(items.drop_last()) + "    <li>"@ + items.last() + "</li>\n"@
    }
}

/// The text of `ModsConfig.xml`.
pub open spec fn mods_config_text(version: Seq<char>, active: Seq<Seq<char>>, known: Seq<Seq<char>>) -> Seq<char> {
    "<?xml version=\"1.0\" encoding=\"utf-8\"?>\n<ModsConfigData>\n"@ + "  <version>"@ + version
        + "</version>\n"@ + "  <activeMods>\n"@ + li_lines(active) + "  </activeMods>\n"@ + (if known.len()
        > 0 {
        "  <knownExpansions>\n"@ + li_lines(known) + "  </knownExpansions>\n"@
    } else {
        seq![]
    }) + "</ModsConfigData>\n"@
}

fn push_li_lines(s: &mut String, items: &[String])
    ensures
        final(s)@ == old(s)@ + li_lines(views(items@)),
{
    let mut i: usize = 0;
    while i < items.len()
        invariant
            i <= items@.len(),
            s@ == old(s)@ + li_lines(views(items@).take(i as int)),
        decreases items@.len() - i,
    {
        assert(views(items@).take(i + 1).drop_last() =~= views(items@).take(i as int));
        assert(views(items@)[i as int] == items@[i as int]@);
        push_str(s, "    <li>");
        push_str(s, items[i].as_str());
        push_str(s, "</li>\n");
        i = i + 1;
    }
    assert(views(items@).take(i as int) =~= views(items@));
}

/// Renders `ModsConfig.xml`.
pub fn render(version: &str, active: &[String], known: &[String]) -> (r: String)
    ensures
        r@ == mods_config_text(version@, views(active@), views(known@)),
{
    let mut s = owned("<?xml version=\"1.0\" encoding=\"utf-8\"?>\n<ModsConfigData>\n");
    push_str(&mut s, "  <version>");
    push_str(&mut s, version);
    push_str(&mut s, "</version>\n");
    push_str(&mut s, "  <activeMods>\n");
    push_li_lines(&mut s, active);
    push_str(&mut s, "  </activeMods>\n");
    let ghost mid = s@;
    if known.len() > 0 {
        push_str(&mut s, "  <knownExpansions>\n");
        push_li_lines(&mut s, known);
        push_str(&mut s, "  </knownExpansions>\n");
    }
    push_str(&mut s, "</ModsConfigData>\n");
    s
}

/// The entries in order, each kept only at its first occurrence (ignoring
/// ASCII case).
pub open spec fn first_occurrences(items: Seq<Seq<char>>, n: int) -> Seq<Seq<char>>
    decreases n,
{
    if n <= 0 {
        seq![]
    } else {
        let prev = first_occurrences(items, n - 1);
        if managed_by(prev, items[n - 1]) {
            prev
        } else {
            prev.push(items[n - 1])
        }
    }
}

/// Drops repeats (ignoring ASCII case), keeping first occurrences in order.
pub fn dedupe_ignore_case(items: &[String]) -> (r: Vec<String>)
    ensures
        views(r@) == first_occurrences(views(items@), items@.len() as int),
{
    let mut out: Vec<String> = Vec::new();
    let mut i: usize = 0;
    while i < items.len()
        invariant
            i <= items@.len(),
            views(out@) == first_occurrences(views(items@), i as int),
        decreases items@.len() - i,
    {
        assert(views(items@)[i as int] == items@[i as int]@);
        if !contains_ignore_case(out.as_slice(), items[i].as_str()) {
            let ghost before = views(out@);
            out.push(owned(items[i].as_str()));
            assert(views(out@) =~= before.push(items@[i as int]@));
        }
        i = i + 1;
    }
    out
}

// ---- reading RimWorld's files -------------------------------------------------------

/// The `<li>` texts (trimmed, non-empty) under the list element `c`.
pub open spec fn li_texts(ns: Seq<NodeView>, ks: Seq<int>) -> Seq<Seq<char>>
    decreases ks.len(),
{
    if ks.len() == 0 {
        seq![]
    } else {
        let prev = li_texts(ns, ks.drop_last());
        match ns[ks.last()].text {
            Some(t) => if trim(t).len() > 0 {
                prev.push(trim(t))
            } else {
                prev
            },
            None => prev,
        }
    }
}

/// The entries of a list element of the root, if present.
pub open spec fn list_of(ns: Seq<NodeView>, root: int, tag: Seq<char>) -> Seq<Seq<char>> {
    match child_of(ns, root, tag) {
        Some(c) => li_texts(ns, tagged(ns, kids(ns, c), "li"@)),
        None => seq![],
    }
}

/// What an existing `ModsConfig.xml` holds: its version (default `1.5`),
/// active mods and known expansions; a file that is not XML (or has no root)
/// reads as version `1.5` with empty lists.
pub open spec fn mods_config_of(text: Seq<char>) -> (Seq<char>, Seq<Seq<char>>, Seq<Seq<char>>) {
    match xml_nodes(text) {
        Some(ns) => match root_of(ns) {
            Some(r) => (
                trim(match child_of(ns, r, "version"@) {
                    Some(v) => match ns[v].text {
                        Some(t) => t,
                        None => "1.5"@,
                    },
                    None => "1.5"@,
                }),
                list_of(ns, r, "activeMods"@),
                list_of(ns, r, "knownExpansions"@),
            ),
            None => ("1.5"@, seq![], seq![]),
        },
        None => ("1.5"@, seq![], seq![]),
    }
}

fn read_list(ns: &[XmlNode], root: usize, tag: &str) -> (r: Vec<String>)
    ensures
        views(r@) == list_of(node_views(ns@), root as int, tag@),
{
    let ghost nv = node_views(ns@);
    let mut out: Vec<String> = Vec::new();
    let c = match child(ns, root, tag) {
        Some(c) => c,
        None => return out,
    };
    let lis = children_tagged(ns, c, "li");
    let ghost tv = lis@.map_values(|k: usize| k as int);
    let mut j: usize = 0;
    while j < lis.len()
        invariant
            nv == node_views(ns@),
            tv == lis@.map_values(|k: usize| k as int),
            tv == tagged(nv, kids(nv, c as int), "li"@),
            forall|m: int| 0 <= m < lis@.len() ==> is_child(nv, c as int, #[trigger] lis@[m] as int),
            j <= lis@.len(),
            views(out@) == li_texts(nv, tv.take(j as int)),
        decreases lis@.len() - j,
    {
        assert(tv[j as int] == lis@[j as int] as int);
        assert(is_child(nv, c as int, lis@[j as int] as int));
        assert(tv.take(j + 1).drop_last() =~= tv.take(j as int));
        assert(tv.take(j + 1).last() == lis@[j as int] as int);
        match text(ns, lis[j]) {
            Some(t) => {
                let tt = trim_str(t.as_str());
                if !tt.as_str().is_empty() {
                    let ghost before = views(out@);
                    out.push(tt);
                    assert(views(out@) =~= before.push(tt@));
                }
            },
            None => {},
        }
        j = j + 1;
    }
    assert(tv.take(j as int) =~= tv);
    out
}

/// Reads an existing `ModsConfig.xml`: `(version, activeMods, knownExpansions)`.
pub fn parse_mods_config(xml_text: &str) -> (r: (String, Vec<String>, Vec<String>))
    ensures
        (r.0@, views(r.1@), views(r.2@)) == mods_config_of(xml_text@),
{
    let empty1: Vec<String> = Vec::new();
    let empty2: Vec<String> = Vec::new();
    assert(views(empty1@) =~= seq![]);
    let ns = match read_xml(xml_text) {
        Ok(ns) => ns,
        Err(_) => return (owned("1.5"), empty1, empty2),
    };
    let root = match root_element(ns.as_slice()) {
        Some(r) => r,
        None => return (owned("1.5"), empty1, empty2),
    };
    let v = match child(ns.as_slice(), root, "version") {
        Some(c) => match text(ns.as_slice(), c) {
            Some(t) => t,
            None => owned("1.5"),
        },
        None => owned("1.5"),
    };
    let version = trim_str(v.as_str());
    let active = read_list(ns.as_slice(), root, "activeMods");
    let known = read_list(ns.as_slice(), root, "knownExpansions");
    (version, active, known)
}

/// The first element child of the root whose tag equals `tag` ignoring
/// ASCII case, when it has text.
pub open spec fn about_field(ns: Seq<NodeView>, r: int, tag: Seq<char>) -> Option<Seq<char>> {
    let ks = kids(ns, r);
    if exists|k: int| 0 <= k < ks.len() && eq_ignore_case(ns[ks[k]].tag, tag) {
        let k = choose|k: int|
            0 <= k < ks.len() && eq_ignore_case(ns[ks[k]].tag, tag) && forall|j: int|
                0 <= j < k ==> !eq_ignore_case(ns[ks[j]].tag, tag);
        ns[ks[k]].text
    } else {
        None
    }
}

/// The text of the root's first child tagged `tag` (any case).
fn about_text(ns: &[XmlNode], tag: &str) -> (r: Option<String>)
    ensures
        match root_of(node_views(ns@)) {
            Some(root) => opt_str(r) == about_field(node_views(ns@), root, tag@),
            None => r is None,
        },
{
    let ghost nv = node_views(ns@);
    let root = match root_element(ns) {
        Some(r) => r,
        None => return None,
    };
    let ks = children(ns, root);
    let ghost kv = ks@.map_values(|k: usize| k as int);
    proof {
        lemma_kids(nv, root as int);
    }
    let mut j: usize = 0;
    while j < ks.len()
        invariant
            nv == node_views(ns@),
            kv == ks@.map_values(|k: usize| k as int),
            kv == kids(nv, root as int),
            root_of(nv) == Some(root as int),
            forall|m: int| 0 <= m < kv.len() ==> is_child(nv, root as int, #[trigger] kv[m]),
            j <= ks@.len(),
            forall|m: int| 0 <= m < j ==> !eq_ignore_case(nv[kv[m]].tag, tag@),
        decreases ks@.len() - j,
    {
        assert(kv[j as int] == ks@[j as int] as int);
        assert(is_child(nv, root as int, kv[j as int]));
        let c = ks[j];
        assert(nv[c as int] == crate::xml::node_view(ns@[c as int]));
        if eq_ignore_ascii_case(ns[c].tag.as_str(), tag) {
            proof {
                let k = choose|k: int|
                    0 <= k < kv.len() && eq_ignore_case(nv[kv[k]].tag, tag@) && forall|i: int|
                        0 <= i < k ==> !eq_ignore_case(nv[kv[i]].tag, tag@);
                assert(0 <= j < kv.len() && eq_ignore_case(nv[kv[j as int]].tag, tag@));
                if k < j {
                    assert(!eq_ignore_case(nv[kv[k]].tag, tag@));
                } else if k > j {
                    assert(!eq_ignore_case(nv[kv[j as int]].tag, tag@));
                }
                assert(k == j);
                assert(about_field(nv, root as int, tag@) == nv[c as int].text);
            }
            return text(ns, c);
        }
        j = j + 1;
    }
    None
}

/// A mod's `packageId` from the text of its `About/About.xml`: trimmed and
/// lowercased, as RimWorld treats package ids case-insensitively.
pub fn package_id(about_xml: &str) -> (r: Option<String>)
    ensures
        match xml_nodes(about_xml@) {
            Some(ns) => match root_of(ns) {
                Some(root) => opt_str(r) == match about_field(ns, root, "packageId"@) {
                    Some(t) => Some(lower(trim(t))),
                    None => None,
                },
                None => r is None,
            },
            None => r is None,
        },
{
    let ns = match read_xml(about_xml) {
        Ok(ns) => ns,
        Err(_) => return None,
    };
    match about_text(ns.as_slice(), "packageId") {
        Some(t) => {
            let tt = trim_str(t.as_str());
            Some(to_lower(tt.as_str()))
        },
        None => None,
    }
}

/// The `enabled_mods` entries of a Paradox `dlc_load.json` document (its
/// string items; none when it is missing or unreadable).
pub open spec fn enabled_mods_of(doc: Option<Json>) -> Seq<Seq<char>> {
    match doc {
        Some(d) => {
            let items = opt_items(field_of(d, "enabled_mods"@));
            texts_upto(items, items.len() as int)
        },
        None => seq![],
    }
}

/// The `dlc_load.json` document after a rewrite: `enabled_mods` holds the
/// merged load order ([`merged`]: the entries modeman does not manage in
/// place, then the active ones), `disabled_dlcs` is kept (an empty list when
/// there was none), and every other member of the old document is kept. A
/// document that is missing or not an object is replaced by one with just
/// those two members.
pub fn paradox_rewrite(doc: Option<Json>, active: &[String], managed: &[String]) -> (r: Json)
    ensures
        r is Object,
        ({
            let m = merged(enabled_mods_of(doc), views(active@), views(managed@));
            field_of(r, "enabled_mods"@) matches Some(Json::Array(v)) && v@.len() == m.len() && forall|k: int|
                0 <= k < m.len() ==> text_of(#[trigger] v@[k]) == Some(m[k])
        }),
        match doc {
            Some(Json::Object(ps)) => match member_from(ps@, "disabled_dlcs"@, 0) {
                Some(x) => field_of(r, "disabled_dlcs"@) == Some(x),
                None => field_of(r, "disabled_dlcs"@) matches Some(Json::Array(v)) && v@.len() == 0,
            },
            _ => field_of(r, "disabled_dlcs"@) matches Some(Json::Array(v)) && v@.len() == 0,
        },
        forall|key: Seq<char>|
            key != "enabled_mods"@ && key != "disabled_dlcs"@ ==> field_of(r, key) == match doc {
                Some(Json::Object(ps)) => member_from(ps@, key, 0),
                _ => None,
            },
{
    let existing: Vec<String> = match &doc {
        Some(d) => match d.field("enabled_mods") {
            Some(v) => texts_of(v.items()),
            None => Vec::new(),
        },
        None => Vec::new(),
    };
    proof {
        reveal_strlit("enabled_mods");
        reveal_strlit("disabled_dlcs");
    }
    let out = merge_managed(existing.as_slice(), active, managed);
    let enabled = Json::Array(str_items(out.as_slice()));
    let mut ps: Vec<(String, Json)> = match doc {
        Some(Json::Object(ps)) => ps,
        _ => Vec::new(),
    };
    let ghost old_ps = ps@;
    set_member(&mut ps, "enabled_mods", enabled);
    let ghost after = ps@;
    proof {
        reveal_strlit("enabled_mods");
        reveal_strlit("disabled_dlcs");
        assert("disabled_dlcs"@.len() != "enabled_mods"@.len());
    }
    assert(member_from(after, "disabled_dlcs"@, 0) == member_from(old_ps, "disabled_dlcs"@, 0));
    let has_disabled = match member(&ps, "disabled_dlcs") {
        Some(_) => true,
        None => false,
    };
    if !has_disabled {
        set_member(&mut ps, "disabled_dlcs", Json::Array(Vec::new()));
    }
    Json::Object(ps)
}

/// Whether some member is named `key`, as [`member_from`] finds it.
fn member<'a>(ps: &'a Vec<(String, Json)>, key: &str) -> (r: Option<&'a Json>)
    ensures
        match member_from(ps@, key@, 0) {
            Some(v) => r matches Some(x) && *x == v,
            None => r is None,
        },
{
    let mut k: usize = 0;
    while k < ps.len()
        invariant
            k <= ps@.len(),
            member_from(ps@, key@, 0) == member_from(ps@, key@, k as int),
        decreases ps@.len() - k,
    {
        if crate::text::str_eq(ps[k].0.as_str(), key) {
            assert(member_from(ps@, key@, k as int) == Some(ps@[k as int].1));
            return Some(&ps[k].1);
        }
        k = k + 1;
    }
    None
}

/// A SMAPI mod's display name from its JSON manifest document: the `Name`
/// member, trimmed, when it is a string that is not blank.
pub fn smapi_name(doc: &Json) -> (r: Option<String>)
    ensures
        opt_str(r) == match field_text(*doc, "Name"@) {
            Some(n) => if trim(n).len() > 0 {
                Some(trim(n))
            } else {
                None::<Seq<char>>
            },
            None => None,
        },
{
    match doc.field_text("Name") {
        Some(n) => manifest_display_name(n),
        None => None,
    }
}

/// A SMAPI mod's display name from the `Name` field of its JSON manifest:
/// trimmed, when not empty.
pub fn manifest_display_name(name: &str) -> (r: Option<String>)
    ensures
        opt_str(r) == if trim(name@).len() > 0 {
            Some(trim(name@))
        } else {
            None::<Seq<char>>
        },
{
    let t = trim_str(name);
    if t.as_str().is_empty() {
        None
    } else {
        Some(t)
    }
}

/// A mod's display name from the text of its `About/About.xml` (`<name>`,
/// trimmed, when not empty).
pub fn mod_name(about_xml: &str) -> (r: Option<String>)
    ensures
        match xml_nodes(about_xml@) {
            Some(ns) => match root_of(ns) {
                Some(root) => opt_str(r) == match about_field(ns, root, "name"@) {
                    Some(t) => if trim(t).len() > 0 {
                        Some(trim(t))
                    } else {
                        None
                    },
                    None => None,
                },
                None => r is None,
            },
            None => r is None,
        },
{
    let ns = match read_xml(about_xml) {
        Ok(ns) => ns,
        Err(_) => return None,
    };
    match about_text(ns.as_slice(), "name") {
        Some(t) => {
            let tt = trim_str(t.as_str());
            if tt.as_str().is_empty() {
                None
            } else {
                Some(tt)
            }
        },
        None => None,
    }
}

/// The `mod/<file>` references of the `.mod` descriptors among a mod's
/// root file names (extension compared without regard to ASCII case).
pub open spec fn descriptor_refs_of(names: Seq<Seq<char>>, n: int) -> Seq<Seq<char>>
    decreases n,
{
    if n <= 0 {
        seq![]
    } else {
        let prev = descriptor_refs_of(names, n - 1);
        match extension_of(names[n - 1]) {
            Some(e) => if eq_ignore_case(e, "mod"@) {
                prev.push("mod/"@ + names[n - 1])
            } else {
                prev
            },
            None => prev,
        }
    }
}

/// The `mod/<file>.mod` references for the descriptors at a mod's root;
/// `names` are the names of the files there.
pub fn descriptors(names: &[String]) -> (r: Vec<String>)
    ensures
        views(r@) == descriptor_refs_of(views(names@), names@.len() as int),
{
    let mut out: Vec<String> = Vec::new();
    let mut i: usize = 0;
    while i < names.len()
        invariant
            i <= names@.len(),
            views(out@) == descriptor_refs_of(views(names@), i as int),
        decreases names@.len() - i,
    {
        assert(views(names@)[i as int] == names@[i as int]@);
        match extension(names[i].as_str()) {
            Some(e) => {
                if eq_ignore_ascii_case(e.as_str(), "mod") {
                    let mut r = owned("mod/");
                    push_str(&mut r, names[i].as_str());
                    let ghost before = views(out@);
                    out.push(r);
                    assert(views(out@) =~= before.push("mod/"@ + names@[i as int]@));
                }
            },
            None => {},
        }
        i = i + 1;
    }
    out
}

// ---- the Paradox launcher's playset database ------------------------------------------

/// The rows to set in the active playset: for each of the first `n`
/// managed mods that the launcher knows (`known[i]` is its launcher id),
/// that id and whether the mod is enabled.
pub open spec fn playset_rows(
    enabled: Seq<Seq<char>>,
    managed: Seq<Seq<char>>,
    known: Seq<Option<Seq<char>>>,
    n: int,
) -> Seq<(Seq<char>, bool)>
    decreases n,
{
    if n <= 0 {
        seq![]
    } else {
        let prev = playset_rows(enabled, managed, known, n - 1);
        match known[n - 1] {
            Some(id) => prev.push((id, enabled.contains(managed[n - 1]))),
            None => prev,
        }
    }
}

/// Decides the playset updates: the launcher's mods are matched by
/// registry id (`known[i]` for `managed[i]`, when the launcher has it) and
/// only the `enabled` flag of known mods is set; nothing is inserted.
pub fn playset_updates(enabled: &[String], managed: &[String], known: &[Option<String>]) -> (r: Vec<(String, bool)>)
    requires
        known@.len() == managed@.len(),
    ensures
        r@.map_values(|p: (String, bool)| (p.0@, p.1)) == playset_rows(
            views(enabled@),
            views(managed@),
            known@.map_values(|k: Option<String>| opt_str(k)),
            managed@.len() as int,
        ),
{
    let mut out: Vec<(String, bool)> = Vec::new();
    let mut i: usize = 0;
    while i < managed.len()
        invariant
            i <= managed@.len(),
            known@.len() == managed@.len(),
            out@.map_values(|p: (String, bool)| (p.0@, p.1)) == playset_rows(
                views(enabled@),
                views(managed@),
                known@.map_values(|k: Option<String>| opt_str(k)),
                i as int,
            ),
        decreases managed@.len() - i,
    {
        assert(known@.map_values(|k: Option<String>| opt_str(k))[i as int] == opt_str(known@[i as int]));
        assert(views(managed@)[i as int] == managed@[i as int]@);
        if let Some(id) = &known[i] {
            let on = crate::text::contains_str(enabled, managed[i].as_str());
            let ghost before = out@.map_values(|p: (String, bool)| (p.0@, p.1));
            out.push((owned(id.as_str()), on));
            assert(out@.map_values(|p: (String, bool)| (p.0@, p.1)) =~= before.push((id@, on)));
        }
        i = i + 1;
    }
    out
}

// ---- what a rewrite keeps ---------------------------------------------------------------

proof fn lemma_unmanaged_all(existing: Seq<Seq<char>>, managed: Seq<Seq<char>>, n: int)
    requires
        0 <= n <= existing.len(),
    ensures
        forall|k: int| 0 <= k < unmanaged(existing, managed, n).len() ==> !managed_by(managed, #[trigger] unmanaged(existing, managed, n)[k]),
        forall|k: int| 0 <= k < n && !managed_by(managed, #[trigger] existing[k]) ==> unmanaged(existing, managed, n).contains(existing[k]),
    decreases n,
{
    if n > 0 {
        lemma_unmanaged_all(existing, managed, n - 1);
        let p = unmanaged(existing, managed, n - 1);
        assert forall|k: int| 0 <= k < n && !managed_by(managed, #[trigger] existing[k]) implies unmanaged(existing, managed, n).contains(existing[k]) by {
            if k < n - 1 {
                let w = choose|w: int| 0 <= w < p.len() && p[w] == existing[k];
                assert(unmanaged(existing, managed, n)[w] == p[w]);
            } else {
                assert(unmanaged(existing, managed, n)[p.len() as int] == existing[k]);
            }
        }
    }
}

proof fn lemma_with_active_extends(base: Seq<Seq<char>>, active: Seq<Seq<char>>, n: int)
    requires
        0 <= n <= active.len(),
    ensures
        with_active(base, active, n).len() >= base.len(),
        with_active(base, active, n).take(base.len() as int) == base,
        forall|k: int| base.len() <= k < with_active(base, active, n).len() ==> active.contains(#[trigger] with_active(base, active, n)[k]),
    decreases n,
{
    if n > 0 {
        lemma_with_active_extends(base, active, n - 1);
        let p = with_active(base, active, n - 1);
        if !managed_by(p, active[n - 1]) {
            let q = p.push(active[n - 1]);
            assert(q.take(base.len() as int) =~= p.take(base.len() as int));
            assert forall|k: int| base.len() <= k < q.len() implies active.contains(#[trigger] q[k]) by {
                if k < p.len() {
                    assert(q[k] == p[k]);
                } else {
                    assert(active[n - 1] == q[k]);
                }
            }
        }
    }
}

proof fn lemma_unmanaged_split(s: Seq<Seq<char>>, u: Seq<Seq<char>>, managed: Seq<Seq<char>>, n: int)
    requires
        u.len() <= s.len(),
        s.take(u.len() as int) == u,
        forall|k: int| 0 <= k < u.len() ==> !managed_by(managed, #[trigger] u[k]),
        forall|k: int| u.len() <= k < s.len() ==> managed_by(managed, #[trigger] s[k]),
        0 <= n <= s.len(),
    ensures
        unmanaged(s, managed, n) == u.take(if n < u.len() { n } else { u.len() as int }),
    decreases n,
{
    if n > 0 {
        lemma_unmanaged_split(s, u, managed, n - 1);
        if n <= u.len() {
            assert(s[n - 1] == s.take(u.len() as int)[n - 1]);
            assert(u.take(n) =~= u.take(n - 1).push(u[n - 1]));
        }
    }
}

/// Clearing a load-order list (no active mods) keeps exactly the entries
/// modeman does not manage, in order, and no managed entry.
pub proof fn clearing_keeps_only_user_entries(existing: Seq<Seq<char>>, managed: Seq<Seq<char>>)
    ensures
        merged(existing, seq![], managed) == unmanaged(existing, managed, existing.len() as int),
        forall|k: int| 0 <= k < merged(existing, seq![], managed).len() ==> !managed_by(managed, #[trigger] merged(existing, seq![], managed)[k]),
        forall|k: int| 0 <= k < existing.len() && !managed_by(managed, #[trigger] existing[k]) ==> merged(existing, seq![], managed).contains(existing[k]),
{
    lemma_unmanaged_all(existing, managed, existing.len() as int);
}

/// A rewrite keeps the entries modeman does not manage first, in their
/// order, and adds only active entries after them.
pub proof fn rewrite_keeps_user_entries_first(existing: Seq<Seq<char>>, active: Seq<Seq<char>>, managed: Seq<Seq<char>>)
    ensures
        ({
            let u = unmanaged(existing, managed, existing.len() as int);
            let m = merged(existing, active, managed);
            &&& m.len() >= u.len()
            &&& m.take(u.len() as int) == u
            &&& forall|k: int| u.len() <= k < m.len() ==> active.contains(#[trigger] m[k])
        }),
{
    lemma_with_active_extends(unmanaged(existing, managed, existing.len() as int), active, active.len() as int);
}

/// Rewriting twice with the same active list gives the same list, when
/// every active entry is managed.
pub proof fn rewrite_is_idempotent(existing: Seq<Seq<char>>, active: Seq<Seq<char>>, managed: Seq<Seq<char>>)
    requires
        forall|k: int| 0 <= k < active.len() ==> managed_by(managed, #[trigger] active[k]),
    ensures
        merged(merged(existing, active, managed), active, managed) == merged(existing, active, managed),
{
    let u = unmanaged(existing, managed, existing.len() as int);
    let m = merged(existing, active, managed);
    lemma_unmanaged_all(existing, managed, existing.len() as int);
    lemma_with_active_extends(u, active, active.len() as int);
    assert forall|k: int| u.len() <= k < m.len() implies managed_by(managed, #[trigger] m[k]) by {
        assert(active.contains(m[k]));
        let w = choose|w: int| 0 <= w < active.len() && active[w] == m[k];
        assert(managed_by(managed, active[w]));
    }
    lemma_unmanaged_split(m, u, managed, m.len() as int);
    assert(u.take(u.len() as int) =~= u);
}

} // verus!
