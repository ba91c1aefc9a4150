//! FOMOD scripted installers (`fomod/ModuleConfig.xml`): the wizard's
//! steps, groups and plugins, the dependency conditions that gate them, the
//! cardinality rules of a selection, and the list of files a selection
//! installs.
//!
//! Source paths in the XML use Windows conventions (backslashes, any case);
//! they are compared case-insensitively, one `/`-separated path at a time.

use vstd::prelude::*;
use crate::error::Error;
use crate::text::{
    chars_of, eq_ignore_ascii_case, eq_ignore_case, lower, owned, push_str, str_eq, string_of, views,
};

verus! {

// ---- the configuration ------------------------------------------------------

/// A file or folder to copy: `source` relative to the archive's FOMOD root,
/// `destination` relative to the mod's install tree.
#[derive(Debug, Clone)]
pub struct FileItem {
    pub source: String,
    pub destination: String,
    pub is_folder: bool,
    pub priority: i32,
}

/// What a [`FileItem`] holds.
pub struct FileView {
    pub source: Seq<char>,
    pub destination: Seq<char>,
    pub is_folder: bool,
    pub priority: i32,
}

impl View for FileItem {
    type V = FileView;

    open spec fn view(&self) -> FileView {
        FileView {
            source: self.source@,
            destination: self.destination@,
            is_folder: self.is_folder,
            priority: self.priority,
        }
    }
}

impl FileItem {
    /// A copy of this item.
    pub fn copy(&self) -> (r: FileItem)
        ensures
            r@ == self@,
    {
        FileItem {
            source: self.source.clone(),
            destination: self.destination.clone(),
            is_folder: self.is_folder,
            priority: self.priority,
        }
    }
}

/// The views of a list of file items.
pub open spec fn file_views(v: Seq<FileItem>) -> Seq<FileView> {
    v.map_values(|f: FileItem| f@)
}

/// How many plugins of an option group may be chosen.
#[derive(Debug, Clone, Copy, PartialEq, Eq, Structural)]
pub enum GroupKind {
    ExactlyOne,
    AtMostOne,
    AtLeastOne,
    Any,
    All,
}

/// A plugin's standing in the wizard: required, recommended, optional, or not usable.
#[derive(Debug, Clone, Copy, PartialEq, Eq, Structural)]
pub enum PluginType {
    Required,
    Optional,
    Recommended,
    NotUsable,
    CouldBeUsable,
}

/// A leaf dependency.
#[derive(Debug, Clone)]
pub enum Dependency {
    /// The flag `name` must hold `value` (an empty value also matches an
    /// unset flag).
    Flag { name: String, value: String },
    /// File state dependency: `Active` / `Inactive` / `Missing`.
    File { file: String, state: String },
}

/// A composite dependency (`And`/`Or` of leaf deps and nested composites).
#[derive(Debug)]
pub struct Composite {
    pub or: bool,
    pub deps: Vec<Dependency>,
    pub nested: Vec<Composite>,
}

/// One choice of an option group: its files, the flags it sets, and its type.
#[derive(Debug)]
pub struct Plugin {
    pub name: String,
    pub description: String,
    pub image: Option<String>,
    pub files: Vec<FileItem>,
    /// Flags set when this plugin is selected.
    pub flags: Vec<(String, String)>,
    /// Type used when no conditional pattern matches.
    pub default_type: PluginType,
    /// Conditional types: first pattern whose dependencies hold wins.
    pub type_patterns: Vec<(Composite, PluginType)>,
}

/// An option group of a wizard step.
#[derive(Debug)]
pub struct Group {
    pub name: String,
    pub kind: GroupKind,
    pub plugins: Vec<Plugin>,
}

/// A wizard step: its option groups, shown when its visibility condition holds.
#[derive(Debug)]
pub struct InstallStep {
    pub name: String,
    pub visible: Option<Composite>,
    pub groups: Vec<Group>,
}

/// Files installed when a dependency condition holds after all steps.
#[derive(Debug)]
pub struct ConditionalInstall {
    pub deps: Composite,
    pub files: Vec<FileItem>,
}

/// A parsed `ModuleConfig.xml`: required files, wizard steps and conditional installs.
#[derive(Debug)]
pub struct FomodConfig {
    pub module_name: String,
    pub required: Vec<FileItem>,
    pub steps: Vec<InstallStep>,
    pub conditional: Vec<ConditionalInstall>,
}

// ---- relative paths ------------------------------------------------------------

/// A path separator of a FOMOD path.
pub open spec fn is_sep(c: char) -> bool {
    c == '/' || c == '\\'
}

/// The pieces of `s` between separators, in order (empty ones included).
pub open spec fn pieces(s: Seq<char>) -> Seq<Seq<char>>
    decreases s.len(),
{
    if s.len() == 0 {
        seq![seq![]]
    } else {
        let p = pieces(s.drop_last());
        if is_sep(s.last()) {
            p.push(seq![])
        } else {
            p.update(p.len() - 1, p.last().push(s.last()))
        }
    }
}

/// A piece that names a real component (not empty, not `.`).
pub open spec fn is_component(p: Seq<char>) -> bool {
    p.len() > 0 && p != seq!['.']
}

/// The components among `ps[..n]`.
pub open spec fn keep_components(ps: Seq<Seq<char>>, n: int) -> Seq<Seq<char>>
    decreases n,
{
    if n <= 0 {
        seq![]
    } else if is_component(ps[n - 1]) {
        keep_components(ps, n - 1).push(ps[n - 1])
    } else {
        keep_components(ps, n - 1)
    }
}

/// The components of a Windows-ish relative path.
pub open spec fn components(s: Seq<char>) -> Seq<Seq<char>> {
    keep_components(pieces(s), pieces(s).len() as int)
}

/// Components joined with `/`.
pub open spec fn slash_joined(cs: Seq<Seq<char>>) -> Seq<char>
    decreases cs.len(),
{
    if cs.len() == 0 {
        seq![]
    } else if cs.len() == 1 {
        cs[0]
    } else {
        slash_joined(cs.drop_last()) + seq!['/'] + cs.last()
    }
}

/// The clean `/`-separated form of a Windows-ish relative path.
pub open spec fn clean_rel(s: Seq<char>) -> Seq<char> {
    slash_joined(components(s))
}

/// Splits at `/` and `\`, in order, keeping empty pieces.
fn split_pieces(s: &str) -> (r: Vec<Vec<char>>)
    ensures
        r@.map_values(|v: Vec<char>| v@) == pieces(s@),
{
    let cs = chars_of(s);
    let mut done: Vec<Vec<char>> = Vec::new();
    let mut cur: Vec<char> = Vec::new();
    let mut i: usize = 0;
    assert(cs@.take(0) =~= Seq::<char>::empty());
    while i < cs.len()
        invariant
            cs@ == s@,
            i <= cs@.len(),
            done@.map_values(|v: Vec<char>| v@).push(cur@) == pieces(cs@.take(i as int)),
        decreases cs@.len() - i,
    {
        let ghost before = done@.map_values(|v: Vec<char>| v@).push(cur@);
        assert(cs@.take(i + 1).drop_last() =~= cs@.take(i as int));
        let c = cs[i];
        if c == '/' || c == '\\' {
            done.push(cur);
            cur = Vec::new();
            assert(done@.map_values(|v: Vec<char>| v@).push(cur@) =~= before.push(seq![]));
        } else {
            cur.push(c);
            assert(done@.map_values(|v: Vec<char>| v@).push(cur@) =~= before.update(
                before.len() - 1,
                before.last().push(c),
            ));
        }
        i = i + 1;
    }
    assert(cs@.take(cs@.len() as int) =~= cs@);
    let ghost before = done@.map_values(|v: Vec<char>| v@);
    done.push(cur);
    assert(done@.map_values(|v: Vec<char>| v@) =~= before.push(cur@));
    done
}

/// The components of a Windows-ish relative path, in order.
pub fn rel_components(s: &str) -> (r: Vec<String>)
    ensures
        r@.map_values(|x: String| x@) == components(s@),
{
    let ps = split_pieces(s);
    let ghost pv = ps@.map_values(|v: Vec<char>| v@);
    let mut out: Vec<String> = Vec::new();
    let mut i: usize = 0;
    while i < ps.len()
        invariant
            pv == ps@.map_values(|v: Vec<char>| v@),
            pv == pieces(s@),
            i <= ps@.len(),
            out@.map_values(|x: String| x@) == keep_components(pv, i as int),
        decreases ps@.len() - i,
    {
        assert(pv[i as int] == ps@[i as int]@);
        let p = &ps[i];
        let keep = p.len() > 0 && !(p.len() == 1 && p[0] == '.');
        proof {
            if p@.len() == 1 && p@[0] == '.' {
                assert(p@ =~= seq!['.']);
            }
            if p@ == seq!['.'] {
                assert(p@.len() == 1);
            }
        }
        if keep {
            let ghost before = out@.map_values(|x: String| x@);
            out.push(string_of(p.as_slice()));
            assert(out@.map_values(|x: String| x@) =~= before.push(p@));
        }
        i = i + 1;
    }
    out
}

/// Turns a Windows-ish relative path into a clean `/`-separated one.
pub fn normalize_rel(s: &str) -> (r: String)
    ensures
        r@ == clean_rel(s@),
{
    let cs = rel_components(s);
    let ghost cv = cs@.map_values(|x: String| x@);
    let mut out = String::new();
    let mut i: usize = 0;
    while i < cs.len()
        invariant
            cv == cs@.map_values(|x: String| x@),
            i <= cs@.len(),
            out@ == slash_joined(cv.take(i as int)),
        decreases cs@.len() - i,
    {
        assert(cv.take(i + 1).drop_last() =~= cv.take(i as int));
        assert(cv[i as int] == cs@[i as int]@);
        if i > 0 {
            crate::text::push_char(&mut out, '/');
        }
        push_str(&mut out, cs[i].as_str());
        proof {
            if i == 0 {
                assert(out@ =~= cv.take(1)[0]);
            } else {
                assert(out@ =~= slash_joined(cv.take(i as int)) + seq!['/'] + cv[i as int]);
            }
        }
        i = i + 1;
    }
    assert(cv.take(cs@.len() as int) =~= cv);
    out
}

// ---- conditions -------------------------------------------------------------------

/// The text of a list of flag settings.
pub open spec fn flag_views(v: Seq<(String, String)>) -> Seq<(Seq<char>, Seq<char>)> {
    v.map_values(|p: (String, String)| (p.0@, p.1@))
}

/// The value the last setting of `name` among `flags[..n]` gave it.
pub open spec fn flag_value(flags: Seq<(Seq<char>, Seq<char>)>, name: Seq<char>, n: int) -> Option<
    Seq<char>,
>
    decreases n,
{
    if n <= 0 {
        None
    } else if flags[n - 1].0 == name {
        Some(flags[n - 1].1)
    } else {
        flag_value(flags, name, n - 1)
    }
}

/// Whether `file` is found among `present`, the `/`-separated paths of the
/// entries (files and directories) under the install tree, comparing each
/// path without regard to ASCII case. A path without components names the
/// tree itself, which is always there.
pub open spec fn file_present(present: Seq<Seq<char>>, file: Seq<char>) -> bool {
    components(file).len() == 0 || exists|i: int|
        0 <= i < present.len() && eq_ignore_case(#[trigger] present[i], clean_rel(file))
}

/// Whether a leaf dependency holds.
pub open spec fn dep_holds(d: Dependency, flags: Seq<(Seq<char>, Seq<char>)>, present: Seq<Seq<char>>) -> bool {
    match d {
        Dependency::Flag { name, value } => match flag_value(flags, name@, flags.len() as int) {
            Some(v) => v == value@,
            None => value@.len() == 0,
        },
        Dependency::File { file, state } => if state@ == "Missing"@ {
            !file_present(present, file@)
        } else {
            file_present(present, file@)
        },
    }
}

/// Some of the leaf dependencies hold.
pub open spec fn any_dep(ds: Seq<Dependency>, flags: Seq<(Seq<char>, Seq<char>)>, present: Seq<Seq<char>>) -> bool {
    exists|i: int| 0 <= i < ds.len() && dep_holds(#[trigger] ds[i], flags, present)
}

/// All of the leaf dependencies hold.
pub open spec fn all_deps(ds: Seq<Dependency>, flags: Seq<(Seq<char>, Seq<char>)>, present: Seq<Seq<char>>) -> bool {
    forall|i: int| 0 <= i < ds.len() ==> dep_holds(#[trigger] ds[i], flags, present)
}

/// Whether a composite dependency holds: an empty one always does; `Or`
/// needs one of its parts, `And` all of them.
pub open spec fn holds(c: Composite, flags: Seq<(Seq<char>, Seq<char>)>, present: Seq<Seq<char>>) -> bool
    decreases c,
{
    if c.deps@.len() == 0 && c.nested@.len() == 0 {
        true
    } else if c.or {
        any_dep(c.deps@, flags, present) || any_holds(c.nested@, flags, present)
    } else {
        all_deps(c.deps@, flags, present) && all_hold(c.nested@, flags, present)
    }
}

/// Some of the composites hold.
pub open spec fn any_holds(cs: Seq<Composite>, flags: Seq<(Seq<char>, Seq<char>)>, present: Seq<Seq<char>>) -> bool
    decreases cs,
{
    if cs.len() == 0 {
        false
    } else {
        holds(cs.last(), flags, present) || any_holds(cs.drop_last(), flags, present)
    }
}

/// All of the composites hold.
pub open spec fn all_hold(cs: Seq<Composite>, flags: Seq<(Seq<char>, Seq<char>)>, present: Seq<Seq<char>>) -> bool
    decreases cs,
{
    if cs.len() == 0 {
        true
    } else {
        holds(cs.last(), flags, present) && all_hold(cs.drop_last(), flags, present)
    }
}

/// Whether `file` is found among the entries of the install tree.
pub fn file_exists(present: &[String], file: &str) -> (r: bool)
    ensures
        r == file_present(views(present@), file@),
{
    let comps = rel_components(file);
    assert(comps@.map_values(|x: String| x@).len() == comps@.len());
    if comps.len() == 0 {
        return true;
    }
    let rel = normalize_rel(file);
    let mut i: usize = 0;
    while i < present.len()
        invariant
            i <= present@.len(),
            rel@ == clean_rel(file@),
            components(file@).len() > 0,
            forall|j: int| 0 <= j < i ==> !eq_ignore_case(#[trigger] views(present@)[j], rel@),
        decreases present@.len() - i,
    {
        assert(views(present@)[i as int] == present@[i as int]@);
        if eq_ignore_ascii_case(present[i].as_str(), rel.as_str()) {
            return true;
        }
        i = i + 1;
    }
    false
}

/// The value of the last setting of `name`.
fn last_flag<'a>(flags: &'a [(String, String)], name: &str) -> (r: Option<&'a String>)
    ensures
        match flag_value(flag_views(flags@), name@, flags@.len() as int) {
            Some(v) => r matches Some(s) && s@ == v,
            None => r is None,
        },
{
    let ghost fv = flag_views(flags@);
    let mut i: usize = flags.len();
    while i > 0
        invariant
            fv == flag_views(flags@),
            i <= flags@.len(),
            flag_value(fv, name@, flags@.len() as int) == flag_value(fv, name@, i as int),
        decreases i,
    {
        assert(fv[i - 1] == (flags@[i - 1].0@, flags@[i - 1].1@));
        if str_eq(flags[i - 1].0.as_str(), name) {
            return Some(&flags[i - 1].1);
        }
        i = i - 1;
    }
    None
}

/// Whether a leaf dependency holds.
pub fn dependency_holds(d: &Dependency, flags: &[(String, String)], present: &[String]) -> (r: bool)
    ensures
        r == dep_holds(*d, flag_views(flags@), views(present@)),
{
    match d {
        Dependency::Flag { name, value } => match last_flag(flags, name.as_str()) {
            Some(v) => str_eq(v.as_str(), value.as_str()),
            None => value.as_str().is_empty(),
        },
        Dependency::File { file, state } => {
            let exists = file_exists(present, file.as_str());
            if str_eq(state.as_str(), "Missing") {
                !exists
            } else {
                exists
            }
        },
    }
}

/// Evaluates a composite dependency against the current flags and the
/// entries present in the install tree.
pub fn eval(c: &Composite, flags: &[(String, String)], present: &[String]) -> (r: bool)
    ensures
        r == holds(*c, flag_views(flags@), views(present@)),
    decreases c,
{
    let ghost fv = flag_views(flags@);
    let ghost pv = views(present@);
    if c.deps.len() == 0 && c.nested.len() == 0 {
        return true;
    }
    let mut dep_any = false;
    let mut dep_all = true;
    let mut i: usize = 0;
    while i < c.deps.len()
        invariant
            i <= c.deps@.len(),
            fv == flag_views(flags@),
            pv == views(present@),
            dep_any == exists|j: int| 0 <= j < i && dep_holds(#[trigger] c.deps@[j], fv, pv),
            dep_all == forall|j: int| 0 <= j < i ==> dep_holds(#[trigger] c.deps@[j], fv, pv),
        decreases c.deps@.len() - i,
    {
        let h = dependency_holds(&c.deps[i], flags, present);
        if h {
            dep_any = true;
        } else {
            dep_all = false;
        }
        i = i + 1;
    }
    let mut nest_any = false;
    let mut nest_all = true;
    let mut k: usize = 0;
    assert(c.nested@.take(0) =~= Seq::<Composite>::empty());
    while k < c.nested.len()
        invariant
            k <= c.nested@.len(),
            fv == flag_views(flags@),
            pv == views(present@),
            nest_any == any_holds(c.nested@.take(k as int), fv, pv),
            nest_all == all_hold(c.nested@.take(k as int), fv, pv),
        decreases c.nested@.len() - k,
    {
        assert(c.nested@.take(k + 1).drop_last() =~= c.nested@.take(k as int));
        assert(c.nested@.take(k + 1).last() == c.nested@[k as int]);
        let h = eval(&c.nested[k], flags, present);
        if h {
            nest_any = true;
        } else {
            nest_all = false;
        }
        k = k + 1;
    }
    assert(c.nested@.take(c.nested@.len() as int) =~= c.nested@);
    if c.or {
        dep_any || nest_any
    } else {
        dep_all && nest_all
    }
}

/// The type of the first pattern (from `i`) whose dependencies hold, else
/// `default`.
pub open spec fn pattern_type(
    ps: Seq<(Composite, PluginType)>,
    i: int,
    default: PluginType,
    flags: Seq<(Seq<char>, Seq<char>)>,
    present: Seq<Seq<char>>,
) -> PluginType
    decreases ps.len() - i,
{
    if i < 0 || i >= ps.len() {
        default
    } else if holds(ps[i].0, flags, present) {
        ps[i].1
    } else {
        pattern_type(ps, i + 1, default, flags, present)
    }
}

/// A plugin's type given the flags and the entries of the install tree.
pub open spec fn type_of(p: Plugin, flags: Seq<(Seq<char>, Seq<char>)>, present: Seq<Seq<char>>) -> PluginType {
    pattern_type(p.type_patterns@, 0, p.default_type, flags, present)
}

impl Plugin {
    /// The plugin's effective type given the current flags and the entries
    /// present in the in-progress install tree (for file dependencies).
    pub fn effective_type(&self, flags: &[(String, String)], present: &[String]) -> (r: PluginType)
        ensures
            r == type_of(*self, flag_views(flags@), views(present@)),
    {
        let mut i: usize = 0;
        while i < self.type_patterns.len()
            invariant
                i <= self.type_patterns@.len(),
                type_of(*self, flag_views(flags@), views(present@)) == pattern_type(
                    self.type_patterns@,
                    i as int,
                    self.default_type,
                    flag_views(flags@),
                    views(present@),
                ),
            decreases self.type_patterns@.len() - i,
        {
            if eval(&self.type_patterns[i].0, flags, present) {
                return self.type_patterns[i].1;
            }
            i = i + 1;
        }
        self.default_type
    }
}

/// The plugin type a descriptor names; anything unknown is `Optional`.
pub open spec fn type_named(name: Seq<char>) -> PluginType {
    if name == "Required"@ {
        PluginType::Required
    } else if name == "Recommended"@ {
        PluginType::Recommended
    } else if name == "NotUsable"@ {
        PluginType::NotUsable
    } else if name == "CouldBeUsable"@ {
        PluginType::CouldBeUsable
    } else {
        PluginType::Optional
    }
}

/// The plugin type a `name` attribute gives; anything unknown is optional.
pub fn type_from_name(name: &str) -> (r: PluginType)
    ensures
        r == type_named(name@),
{
    if str_eq(name, "Required") {
        PluginType::Required
    } else if str_eq(name, "Recommended") {
        PluginType::Recommended
    } else if str_eq(name, "NotUsable") {
        PluginType::NotUsable
    } else if str_eq(name, "CouldBeUsable") {
        PluginType::CouldBeUsable
    } else {
        PluginType::Optional
    }
}

/// The group kind a `type` attribute names; anything unknown is `Any`.
pub open spec fn kind_named(name: Seq<char>) -> GroupKind {
    if name == "SelectExactlyOne"@ {
        GroupKind::ExactlyOne
    } else if name == "SelectAtMostOne"@ {
        GroupKind::AtMostOne
    } else if name == "SelectAtLeastOne"@ {
        GroupKind::AtLeastOne
    } else if name == "SelectAll"@ {
        GroupKind::All
    } else {
        GroupKind::Any
    }
}

/// The group kind a `type` attribute gives; anything unknown is `SelectAny`.
pub fn kind_from_name(name: &str) -> (r: GroupKind)
    ensures
        r == kind_named(name@),
{
    if str_eq(name, "SelectExactlyOne") {
        GroupKind::ExactlyOne
    } else if str_eq(name, "SelectAtMostOne") {
        GroupKind::AtMostOne
    } else if str_eq(name, "SelectAtLeastOne") {
        GroupKind::AtLeastOne
    } else if str_eq(name, "SelectAll") {
        GroupKind::All
    } else {
        GroupKind::Any
    }
}

// ---- selections ------------------------------------------------------------------

/// The text of a selection: `[step][group][plugin] = chosen`.
pub open spec fn sel_view(sel: Seq<Vec<Vec<bool>>>) -> Seq<Seq<Seq<bool>>> {
    sel.map_values(|s: Vec<Vec<bool>>| s@.map_values(|g: Vec<bool>| g@))
}

/// How many entries are `true`.
pub open spec fn count_true(v: Seq<bool>) -> nat
    decreases v.len(),
{
    if v.len() == 0 {
        0
    } else {
        count_true(v.drop_last()) + if v.last() {
            1nat
        } else {
            0nat
        }
    }
}

/// No entry is chosen exactly when the count is zero; the count never exceeds the length.
pub proof fn lemma_count_true_zero(v: Seq<bool>)
    ensures
        count_true(v) == 0 <==> forall|i: int| 0 <= i < v.len() ==> !v[i],
        count_true(v) <= v.len(),
    decreases v.len(),
{
    if v.len() > 0 {
        lemma_count_true_zero(v.drop_last());
        if count_true(v) == 0 {
            assert forall|i: int| 0 <= i < v.len() implies !v[i] by {
                if i < v.len() - 1 {
                    assert(v[i] == v.drop_last()[i]);
                }
            }
        }
        if forall|i: int| 0 <= i < v.len() ==> !v[i] {
            assert forall|i: int| 0 <= i < v.drop_last().len() implies !v.drop_last()[i] by {
                assert(v.drop_last()[i] == v[i]);
            }
        }
    }
}

/// When every entry is chosen, the count is the length.
pub proof fn lemma_count_true_all(v: Seq<bool>)
    requires
        forall|i: int| 0 <= i < v.len() ==> v[i],
    ensures
        count_true(v) == v.len(),
    decreases v.len(),
{
    if v.len() > 0 {
        assert forall|i: int| 0 <= i < v.drop_last().len() implies v.drop_last()[i] by {
            assert(v.drop_last()[i] == v[i]);
        }
        lemma_count_true_all(v.drop_last());
    }
}

/// Choosing an entry that was not chosen adds one to the count.
pub proof fn lemma_count_true_set(v: Seq<bool>, i: int)
    requires
        0 <= i < v.len(),
        !v[i],
    ensures
        count_true(v.update(i, true)) == count_true(v) + 1,
    decreases v.len(),
{
    if i == v.len() - 1 {
        assert(v.update(i, true).drop_last() =~= v.drop_last());
    } else {
        assert(v.update(i, true).drop_last() =~= v.drop_last().update(i, true));
        lemma_count_true_set(v.drop_last(), i);
    }
}

/// What each plugin of a group starts as: on when its type, without flags
/// or installed files, is `Required` or `Recommended`.
pub open spec fn base_choice(g: Group) -> Seq<bool> {
    Seq::new(
        g.plugins@.len(),
        |i: int|
            {
                let t = type_of(g.plugins@[i], seq![], seq![]);
                t == PluginType::Required || t == PluginType::Recommended
            },
    )
}

/// Position of the first chosen entry at or after `i`, or the length.
pub open spec fn first_on(b: Seq<bool>, i: int) -> int
    decreases b.len() - i,
{
    if i < 0 || i >= b.len() {
        b.len() as int
    } else if b[i] {
        i
    } else {
        first_on(b, i + 1)
    }
}

/// `n` entries with only position `i` chosen.
pub open spec fn only_at(n: nat, i: int) -> Seq<bool> {
    Seq::new(n, |k: int| k == i)
}

/// A group's default selection: the base choice clamped to the group's
/// kind. An `All` group has every plugin on; an `ExactlyOne` group keeps
/// only the first plugin that is on (the first plugin when none is); an
/// `AtMostOne` group keeps only the first plugin that is on; an
/// `AtLeastOne` group turns its first plugin on when none is.
pub open spec fn default_group(g: Group) -> Seq<bool> {
    let b = base_choice(g);
    let f = first_on(b, 0);
    match g.kind {
        GroupKind::All => Seq::new(b.len(), |i: int| true),
        GroupKind::ExactlyOne => if b.len() == 0 {
            b
        } else if f < b.len() {
            only_at(b.len(), f)
        } else {
            only_at(b.len(), 0)
        },
        GroupKind::AtMostOne => if f < b.len() {
            only_at(b.len(), f)
        } else {
            b
        },
        GroupKind::AtLeastOne => if b.len() > 0 && f >= b.len() {
            b.update(0, true)
        } else {
            b
        },
        GroupKind::Any => b,
    }
}

proof fn lemma_first_on(b: Seq<bool>, i: int)
    requires
        0 <= i <= b.len(),
    ensures
        i <= first_on(b, i) <= b.len(),
        first_on(b, i) < b.len() ==> b[first_on(b, i)],
        forall|j: int| i <= j < first_on(b, i) ==> !b[j],
    decreases b.len() - i,
{
    if i < b.len() && !b[i] {
        lemma_first_on(b, i + 1);
    }
}

/// The default selection of a whole configuration.
pub open spec fn default_sel(cfg: FomodConfig) -> Seq<Seq<Seq<bool>>> {
    Seq::new(
        cfg.steps@.len(),
        |s: int| Seq::new(cfg.steps@[s].groups@.len(), |g: int| default_group(cfg.steps@[s].groups@[g])),
    )
}

/// How many plugins of group `gi` of step `si` are chosen (none when the
/// selection has no such group).
pub open spec fn chosen_count(sel: Seq<Seq<Seq<bool>>>, si: int, gi: int) -> nat {
    if 0 <= si < sel.len() && 0 <= gi < sel[si].len() {
        count_true(sel[si][gi])
    } else {
        0
    }
}

/// Whether `n` chosen plugins out of `len` satisfy a group kind.
pub open spec fn kind_allows(kind: GroupKind, n: nat, len: nat) -> bool {
    match kind {
        GroupKind::ExactlyOne => n == 1,
        GroupKind::AtMostOne => n <= 1,
        GroupKind::AtLeastOne => n >= 1,
        GroupKind::All => n == len,
        GroupKind::Any => true,
    }
}

/// Whether group `gi` of step `si` is satisfied.
pub open spec fn group_valid(cfg: FomodConfig, sel: Seq<Seq<Seq<bool>>>, si: int, gi: int) -> bool {
    let g = cfg.steps@[si].groups@[gi];
    kind_allows(g.kind, chosen_count(sel, si, gi), g.plugins@.len())
}

/// Whether every group of every step is satisfied.
pub open spec fn selection_valid(cfg: FomodConfig, sel: Seq<Seq<Seq<bool>>>) -> bool {
    forall|si: int, gi: int|
        0 <= si < cfg.steps@.len() && 0 <= gi < cfg.steps@[si].groups@.len() ==> #[trigger] group_valid(
            cfg,
            sel,
            si,
            gi,
        )
}

/// The name `{:?}` gives a group kind.
pub open spec fn kind_debug(k: GroupKind) -> Seq<char> {
    match k {
        GroupKind::ExactlyOne => "ExactlyOne"@,
        GroupKind::AtMostOne => "AtMostOne"@,
        GroupKind::AtLeastOne => "AtLeastOne"@,
        GroupKind::Any => "Any"@,
        GroupKind::All => "All"@,
    }
}

/// The message for an unsatisfied group.
pub open spec fn invalid_message(name: Seq<char>, kind: GroupKind, n: nat) -> Seq<char> {
    "group '"@ + name + "' needs "@ + kind_debug(kind) + ", got "@ + crate::text::decimal(n)
        + " selected"@
}

fn kind_debug_str(k: GroupKind) -> (r: &'static str)
    ensures
        r@ == kind_debug(k),
{
    match k {
        GroupKind::ExactlyOne => "ExactlyOne",
        GroupKind::AtMostOne => "AtMostOne",
        GroupKind::AtLeastOne => "AtLeastOne",
        GroupKind::Any => "Any",
        GroupKind::All => "All",
    }
}

/// The number of `true` entries.
pub fn count_chosen(v: &[bool]) -> (n: usize)
    ensures
        n == count_true(v@),
{
    let mut n: usize = 0;
    let mut i: usize = 0;
    while i < v.len()
        invariant
            i <= v@.len(),
            n == count_true(v@.take(i as int)),
            n <= i,
        decreases v@.len() - i,
    {
        assert(v@.take(i + 1).drop_last() =~= v@.take(i as int));
        if v[i] {
            n = n + 1;
        }
        i = i + 1;
    }
    assert(v@.take(v@.len() as int) =~= v@);
    n
}

/// A group's default selection.
fn default_group_choice(g: &Group) -> (r: Vec<bool>)
    ensures
        r@ == default_group(*g),
{
    let no_flags: Vec<(String, String)> = Vec::new();
    let none: Vec<String> = Vec::new();
    assert(flag_views(no_flags@) =~= seq![]);
    assert(views(none@) =~= seq![]);
    let mut sel: Vec<bool> = Vec::new();
    let mut i: usize = 0;
    while i < g.plugins.len()
        invariant
            i <= g.plugins@.len(),
            flag_views(no_flags@) == Seq::<(Seq<char>, Seq<char>)>::empty(),
            views(none@) == Seq::<Seq<char>>::empty(),
            sel@ == base_choice(*g).take(i as int),
        decreases g.plugins@.len() - i,
    {
        let t = g.plugins[i].effective_type(&no_flags, &none);
        let on = match t {
            PluginType::Required | PluginType::Recommended => true,
            _ => false,
        };
        assert(base_choice(*g)[i as int] == on);
        sel.push(on);
        assert(sel@ =~= base_choice(*g).take(i + 1));
        i = i + 1;
    }
    assert(sel@ =~= base_choice(*g));
    let ghost b = sel@;
    let n = sel.len();
    let mut f: usize = 0;
    while f < n && !sel[f]
        invariant
            sel@ == b,
            n == b.len(),
            f <= n,
            first_on(b, 0) == first_on(b, f as int),
        decreases n - f,
    {
        f = f + 1;
    }
    match g.kind {
        GroupKind::All => {
            let mut j: usize = 0;
            while j < sel.len()
                invariant
                    j <= sel@.len(),
                    sel@.len() == base_choice(*g).len(),
                    forall|k: int| 0 <= k < j ==> sel@[k],
                decreases sel@.len() - j,
            {
                sel.set(j, true);
                j = j + 1;
            }
            assert(sel@ =~= default_group(*g));
            sel
        },
        GroupKind::ExactlyOne => {
            if n == 0 {
                sel
            } else if f < n {
                only_at_exec(n, f)
            } else {
                only_at_exec(n, 0)
            }
        },
        GroupKind::AtMostOne => {
            if f < n {
                only_at_exec(n, f)
            } else {
                sel
            }
        },
        GroupKind::AtLeastOne => {
            if n > 0 && f >= n {
                sel.set(0, true);
            }
            sel
        },
        GroupKind::Any => sel,
    }
}

fn only_at_exec(n: usize, i: usize) -> (r: Vec<bool>)
    ensures
        r@ == only_at(n as nat, i as int),
{
    let mut r: Vec<bool> = Vec::new();
    let mut k: usize = 0;
    while k < n
        invariant
            k <= n,
            r@ =~= only_at(k as nat, i as int),
        decreases n - k,
    {
        r.push(k == i);
        k = k + 1;
    }
    r
}

/// The error a selection is refused with: the message for the first
/// unsatisfied group, in step and group order.
pub open spec fn refusal(cfg: FomodConfig, sel: Seq<Seq<Seq<bool>>>, e: Error) -> bool {
    exists|si: int, gi: int|
        0 <= si < cfg.steps@.len() && 0 <= gi < cfg.steps@[si].groups@.len() && !group_valid(cfg, sel, si, gi)
            && (forall|s2: int, g2: int|
            0 <= s2 < cfg.steps@.len() && 0 <= g2 < cfg.steps@[s2].groups@.len() && (s2 < si || (s2 == si && g2
                < gi)) ==> #[trigger] group_valid(cfg, sel, s2, g2)) && (e matches Error::Other(m) && m@
            == invalid_message(
            cfg.steps@[si].groups@[gi].name@,
            cfg.steps@[si].groups@[gi].kind,
            chosen_count(sel, si, gi),
        ))
}

impl FomodConfig {
    /// Default selections: Required/Recommended plugins on, clamped to each
    /// group's kind, so that they are already valid wherever every group
    /// that must choose has a plugin.
    pub fn default_selections(&self) -> (r: Vec<Vec<Vec<bool>>>)
        ensures
            sel_view(r@) == default_sel(*self),
            choices_available(*self) ==> selection_valid(*self, sel_view(r@)),
    {
        proof {
            if choices_available(*self) {
                default_selections_are_valid(*self);
            }
        }
        let mut out: Vec<Vec<Vec<bool>>> = Vec::new();
        let mut si: usize = 0;
        while si < self.steps.len()
            invariant
                si <= self.steps@.len(),
                sel_view(out@) == default_sel(*self).take(si as int),
            decreases self.steps@.len() - si,
        {
            let step = &self.steps[si];
            let mut groups: Vec<Vec<bool>> = Vec::new();
            let mut gi: usize = 0;
            while gi < step.groups.len()
                invariant
                    gi <= step.groups@.len(),
                    groups@.map_values(|g: Vec<bool>| g@) == default_sel(*self)[si as int].take(
                        gi as int,
                    ),
                    *step == self.steps@[si as int],
                    si < self.steps@.len(),
                decreases step.groups@.len() - gi,
            {
                let c = default_group_choice(&step.groups[gi]);
                let ghost before = groups@.map_values(|g: Vec<bool>| g@);
                groups.push(c);
                assert(groups@.map_values(|g: Vec<bool>| g@) =~= before.push(c@));
                assert(default_sel(*self)[si as int].take(gi + 1) =~= default_sel(*self)[si as int].take(
                    gi as int,
                ).push(default_group(step.groups@[gi as int])));
                gi = gi + 1;
            }
            assert(default_sel(*self)[si as int].take(gi as int) =~= default_sel(*self)[si as int]);
            let ghost before = sel_view(out@);
            out.push(groups);
            assert(sel_view(out@) =~= before.push(default_sel(*self)[si as int]));
            assert(default_sel(*self).take(si + 1) =~= default_sel(*self).take(si as int).push(
                default_sel(*self)[si as int],
            ));
            si = si + 1;
        }
        assert(default_sel(*self).take(si as int) =~= default_sel(*self));
        out
    }

    /// Checks a selection against each group's cardinality rule; the first
    /// unsatisfied group, in step and group order, is reported.
    pub fn validate(&self, sel: &Vec<Vec<Vec<bool>>>) -> (r: Result<(), Error>)
        ensures
            r is Ok <==> selection_valid(*self, sel_view(sel@)),
            r matches Err(e) ==> refusal(*self, sel_view(sel@), e),
    {
        let ghost sv = sel_view(sel@);
        let mut si: usize = 0;
        while si < self.steps.len()
            invariant
                si <= self.steps@.len(),
                sv == sel_view(sel@),
                forall|s2: int, g2: int|
                    0 <= s2 < si && 0 <= g2 < self.steps@[s2].groups@.len() ==> #[trigger] group_valid(
                        *self,
                        sv,
                        s2,
                        g2,
                    ),
            decreases self.steps@.len() - si,
        {
            let step = &self.steps[si];
            let mut gi: usize = 0;
            while gi < step.groups.len()
                invariant
                    gi <= step.groups@.len(),
                    si < self.steps@.len(),
                    *step == self.steps@[si as int],
                    sv == sel_view(sel@),
                    forall|s2: int, g2: int|
                        0 <= s2 < si && 0 <= g2 < self.steps@[s2].groups@.len()
                            ==> #[trigger] group_valid(*self, sv, s2, g2),
                    forall|g2: int| 0 <= g2 < gi ==> #[trigger] group_valid(*self, sv, si as int, g2),
                decreases step.groups@.len() - gi,
            {
                let g = &step.groups[gi];
                let n: usize = if si < sel.len() && gi < sel[si].len() {
                    assert(sv[si as int][gi as int] == sel@[si as int]@[gi as int]@);
                    count_chosen(sel[si][gi].as_slice())
                } else {
                    0
                };
                assert(n == chosen_count(sv, si as int, gi as int));
                let ok = match g.kind {
                    GroupKind::ExactlyOne => n == 1,
                    GroupKind::AtMostOne => n <= 1,
                    GroupKind::AtLeastOne => n >= 1,
                    GroupKind::All => n == g.plugins.len(),
                    GroupKind::Any => true,
                };
                if !ok {
                    let mut m = owned("group '");
                    push_str(&mut m, g.name.as_str());
                    push_str(&mut m, "' needs ");
                    push_str(&mut m, kind_debug_str(g.kind));
                    push_str(&mut m, ", got ");
                    crate::text::push_decimal(&mut m, n as u64);
                    push_str(&mut m, " selected");
                    assert(!group_valid(*self, sv, si as int, gi as int));
                    return Err(Error::Other(m));
                }
                gi = gi + 1;
            }
            si = si + 1;
        }
        Ok(())
    }
}

/// Every `ExactlyOne` and `AtLeastOne` group has a plugin to choose.
pub open spec fn choices_available(cfg: FomodConfig) -> bool {
    forall|si: int, gi: int|
        0 <= si < cfg.steps@.len() && 0 <= gi < cfg.steps@[si].groups@.len() ==> {
            let g = #[trigger] cfg.steps@[si].groups@[gi];
            (g.kind == GroupKind::ExactlyOne || g.kind == GroupKind::AtLeastOne) ==> g.plugins@.len() > 0
        }
}

/// A group's default selection satisfies its kind, when a group that must
/// choose has a plugin.
proof fn lemma_default_group_valid(g: Group)
    requires
        (g.kind == GroupKind::ExactlyOne || g.kind == GroupKind::AtLeastOne) ==> g.plugins@.len() > 0,
    ensures
        default_group(g).len() == g.plugins@.len(),
        kind_allows(g.kind, count_true(default_group(g)), g.plugins@.len()),
{
    let b = base_choice(g);
    let d = default_group(g);
    let f = first_on(b, 0);
    lemma_first_on(b, 0);
    lemma_count_true_zero(b);
    match g.kind {
        GroupKind::All => {
            assert(d == Seq::new(b.len(), |i: int| true));
            assert(b.len() == g.plugins@.len());
            assert(forall|i: int| 0 <= i < d.len() ==> d[i]);
            lemma_count_true_all(d);
            assert(count_true(d) == g.plugins@.len());
            assert(kind_allows(GroupKind::All, count_true(d), g.plugins@.len()));
        },
        GroupKind::ExactlyOne => {
            if f < b.len() {
                lemma_count_true_one(b.len() as int, f);
                assert(d == only_at(b.len(), f));
            } else {
                lemma_count_true_one(b.len() as int, 0);
                assert(d == only_at(b.len(), 0));
            }
            assert(count_true(d) == 1);
        },
        GroupKind::AtMostOne => {
            if f < b.len() {
                lemma_count_true_one(b.len() as int, f);
                assert(d == only_at(b.len(), f));
            } else {
                assert(d == b);
            }
            assert(count_true(d) <= 1);
        },
        GroupKind::AtLeastOne => {
            if f >= b.len() {
                lemma_count_true_set(b, 0);
                assert(d == b.update(0, true));
            } else {
                assert(d == b);
                assert(b[f]);
            }
            assert(count_true(d) >= 1);
        },
        GroupKind::Any => {},
    }
}

/// Default selections are valid wherever every `ExactlyOne` and
/// `AtLeastOne` group has a plugin.
pub proof fn default_selections_are_valid(cfg: FomodConfig)
    requires
        choices_available(cfg),
    ensures
        selection_valid(cfg, default_sel(cfg)),
{
    assert forall|si: int, gi: int|
        0 <= si < cfg.steps@.len() && 0 <= gi < cfg.steps@[si].groups@.len() implies #[trigger] group_valid(
        cfg,
        default_sel(cfg),
        si,
        gi,
    ) by {
        let g = cfg.steps@[si].groups@[gi];
        assert(default_sel(cfg)[si][gi] == default_group(g));
        lemma_default_group_valid(g);
    }
}

/// The selection after the wizard toggles plugin `pi` of a group, keeping
/// the group's cardinality: in an `ExactlyOne` group checking picks that
/// plugin alone and unchecking does nothing; in an `AtMostOne` group checking
/// picks it alone and unchecking clears it; an `All` group stays all on; in
/// an `AtLeastOne` group unchecking the last chosen plugin is refused;
/// otherwise the plugin takes the new state. A plugin that the group does
/// not have changes nothing (an `All` group stays all on).
pub open spec fn toggled(kind: GroupKind, sel: Seq<bool>, pi: int, checked: bool) -> Seq<bool> {
    match kind {
        GroupKind::ExactlyOne => if checked && 0 <= pi < sel.len() {
            only_at(sel.len(), pi)
        } else {
            sel
        },
        GroupKind::AtMostOne => if checked && 0 <= pi < sel.len() {
            only_at(sel.len(), pi)
        } else if !checked && 0 <= pi < sel.len() {
            sel.update(pi, false)
        } else {
            sel
        },
        GroupKind::All => Seq::new(sel.len(), |i: int| true),
        GroupKind::AtLeastOne => if 0 <= pi < sel.len() && (checked || count_true(sel.update(pi, false)) >= 1) {
            sel.update(pi, checked)
        } else {
            sel
        },
        GroupKind::Any => if 0 <= pi < sel.len() {
            sel.update(pi, checked)
        } else {
            sel
        },
    }
}

/// Applies a wizard checkbox toggle to a group's selection, enforcing the
/// group's cardinality.
pub fn toggle_choice(kind: GroupKind, sel: &mut Vec<bool>, pi: usize, checked: bool)
    ensures
        final(sel)@ == toggled(kind, old(sel)@, pi as int, checked),
{
    match kind {
        GroupKind::ExactlyOne | GroupKind::AtMostOne => {
            if checked && pi < sel.len() {
                let n = sel.len();
                *sel = only_at_exec(n, pi);
            } else if !checked && kind == GroupKind::AtMostOne && pi < sel.len() {
                sel.set(pi, false);
            }
        },
        GroupKind::All => {
            let mut i: usize = 0;
            while i < sel.len()
                invariant
                    i <= sel@.len(),
                    sel@.len() == old(sel)@.len(),
                    forall|k: int| 0 <= k < i ==> sel@[k],
                decreases sel@.len() - i,
            {
                sel.set(i, true);
                i = i + 1;
            }
            assert(sel@ =~= toggled(kind, old(sel)@, pi as int, checked));
        },
        GroupKind::AtLeastOne => {
            if pi < sel.len() {
                if checked {
                    sel.set(pi, true);
                } else {
                    let ghost before = sel@;
                    let was = sel[pi];
                    sel.set(pi, false);
                    if count_chosen(sel.as_slice()) == 0 {
                        sel.set(pi, was);
                        assert(sel@ =~= before);
                    }
                }
            }
        },
        GroupKind::Any => {
            if pi < sel.len() {
                sel.set(pi, checked);
            }
        },
    }
}

/// The wizard's selections after a checkbox of group `gi` on page `step`
/// is set to `checked`: the group's choices change as its kind allows
/// ([`toggled`]); a page or group that does not exist changes nothing.
pub open spec fn wizard_toggled(
    cfg: FomodConfig,
    sel: Seq<Seq<Seq<bool>>>,
    step: int,
    gi: int,
    pi: int,
    checked: bool,
) -> Seq<Seq<Seq<bool>>> {
    if 0 <= step < cfg.steps@.len() && 0 <= gi < cfg.steps@[step].groups@.len() && step < sel.len() && gi
        < sel[step].len() {
        sel.update(
            step,
            sel[step].update(gi, toggled(cfg.steps@[step].groups@[gi].kind, sel[step][gi], pi, checked)),
        )
    } else {
        sel
    }
}

/// Applies a wizard checkbox toggle of group `gi` on page `step` to the
/// selections.
pub fn wizard_toggle(cfg: &FomodConfig, sel: &mut Vec<Vec<Vec<bool>>>, step: usize, gi: usize, pi: usize, checked: bool)
    ensures
        sel_view(final(sel)@) == wizard_toggled(*cfg, sel_view(old(sel)@), step as int, gi as int, pi as int, checked),
        (step < cfg.steps@.len() && gi < cfg.steps@[step as int].groups@.len() && step < old(sel)@.len() && gi
            < old(sel)@[step as int]@.len() && old(sel)@[step as int]@[gi as int]@.len()
            == cfg.steps@[step as int].groups@[gi as int].plugins@.len() && group_valid(
            *cfg,
            sel_view(old(sel)@),
            step as int,
            gi as int,
        )) ==> group_valid(*cfg, sel_view(final(sel)@), step as int, gi as int),
{
    proof {
        let sv = sel_view(old(sel)@);
        if step < cfg.steps@.len() && gi < cfg.steps@[step as int].groups@.len() && step < sv.len() && gi
            < sv[step as int].len() && sv[step as int][gi as int].len()
            == cfg.steps@[step as int].groups@[gi as int].plugins@.len() && group_valid(
            *cfg,
            sv,
            step as int,
            gi as int,
        ) {
            assert(chosen_count(sv, step as int, gi as int) == count_true(sv[step as int][gi as int]));
            toggling_keeps_the_group_valid(
                cfg.steps@[step as int].groups@[gi as int].kind,
                sv[step as int][gi as int],
                pi as int,
                checked,
            );
        }
    }
    if step >= cfg.steps.len() || gi >= cfg.steps[step].groups.len() {
        return;
    }
    let kind = cfg.steps[step].groups[gi].kind;
    if step >= sel.len() || gi >= sel[step].len() {
        return;
    }
    let ghost before = sel_view(sel@);
    let mut page: Vec<Vec<bool>> = Vec::new();
    std::mem::swap(&mut page, &mut sel[step]);
    let mut group: Vec<bool> = Vec::new();
    std::mem::swap(&mut group, &mut page[gi]);
    toggle_choice(kind, &mut group, pi, checked);
    std::mem::swap(&mut group, &mut page[gi]);
    std::mem::swap(&mut page, &mut sel[step]);
    assert(sel_view(sel@) =~= wizard_toggled(*cfg, before, step as int, gi as int, pi as int, checked)) by {
        assert(sel_view(sel@)[step as int] =~= before[step as int].update(
            gi as int,
            toggled(kind, before[step as int][gi as int], pi as int, checked),
        ));
    }
}

/// The wizard page after moving `delta` pages from `step`, kept within the
/// `n` pages (page 0 when there are none).
pub open spec fn step_after(step: int, delta: int, n: int) -> int {
    let last = if n > 0 {
        n - 1
    } else {
        0
    };
    if step + delta < 0 {
        0
    } else if step + delta > last {
        last
    } else {
        step + delta
    }
}

/// Moves the wizard `delta` pages, clamped to the existing pages.
pub fn next_step(step: usize, delta: isize, n: usize) -> (r: usize)
    requires
        step <= isize::MAX,
        n <= isize::MAX,
    ensures
        r == step_after(step as int, delta as int, n as int),
{
    let last: isize = if n > 0 {
        (n - 1) as isize
    } else {
        0
    };
    let cur = step as isize;
    let next: isize = if delta < 0 && cur + delta < 0 {
        0
    } else if delta > 0 && delta > last - cur {
        last
    } else {
        let v = cur + delta;
        if v < 0 {
            0
        } else if v > last {
            last
        } else {
            v
        }
    };
    next as usize
}

/// Stepping through the wizard never leaves its steps: with at least one
/// step, the step reached is one of them.
pub proof fn stepping_stays_within_the_steps(step: int, delta: int, n: int)
    requires
        n > 0,
    ensures
        0 <= step_after(step, delta, n) < n,
{
}

proof fn lemma_count_true_one(n: int, pi: int)
    requires
        0 <= pi < n,
    ensures
        count_true(only_at(n as nat, pi)) == 1,
{
    let none = Seq::new(n as nat, |i: int| false);
    lemma_count_true_zero(none);
    lemma_count_true_set(none, pi);
    assert(none.update(pi, true) =~= only_at(n as nat, pi));
}

/// Clearing an entry never raises the count.
proof fn lemma_count_true_clear(v: Seq<bool>, i: int)
    requires
        0 <= i < v.len(),
    ensures
        count_true(v.update(i, false)) <= count_true(v),
{
    if v[i] {
        let c = v.update(i, false);
        lemma_count_true_set(c, i);
        assert(c.update(i, true) =~= v);
    } else {
        assert(v.update(i, false) =~= v);
    }
}

/// Checking a plugin always leaves its group's choices allowed by the
/// group's kind: a radio group then holds exactly that plugin, an "all"
/// group every plugin, and the other groups at least the checked one.
pub proof fn checking_a_plugin_keeps_its_group_valid(kind: GroupKind, sel: Seq<bool>, pi: int)
    requires
        0 <= pi < sel.len(),
    ensures
        toggled(kind, sel, pi, true).len() == sel.len(),
        toggled(kind, sel, pi, true)[pi],
        kind_allows(kind, count_true(toggled(kind, sel, pi, true)), sel.len()),
{
    let t = toggled(kind, sel, pi, true);
    match kind {
        GroupKind::ExactlyOne | GroupKind::AtMostOne => {
            lemma_count_true_one(sel.len() as int, pi);
        },
        GroupKind::All => {
            lemma_count_true_all(t);
        },
        _ => {
            if sel[pi] {
                assert(t =~= sel);
                lemma_count_true_zero(sel);
            } else {
                lemma_count_true_set(sel, pi);
            }
        },
    }
}

/// A toggle keeps a group's cardinality: a group whose choices satisfy its
/// kind still does after any checkbox is set or cleared.
pub proof fn toggling_keeps_the_group_valid(kind: GroupKind, sel: Seq<bool>, pi: int, checked: bool)
    requires
        kind_allows(kind, count_true(sel), sel.len()),
    ensures
        toggled(kind, sel, pi, checked).len() == sel.len(),
        kind_allows(kind, count_true(toggled(kind, sel, pi, checked)), sel.len()),
{
    let t = toggled(kind, sel, pi, checked);
    if checked && 0 <= pi < sel.len() {
        checking_a_plugin_keeps_its_group_valid(kind, sel, pi);
    } else {
        match kind {
            GroupKind::ExactlyOne => {},
            GroupKind::AtMostOne => {
                if 0 <= pi < sel.len() {
                    lemma_count_true_clear(sel, pi);
                }
            },
            GroupKind::All => {
                lemma_count_true_all(t);
            },
            _ => {},
        }
    }
}

/// The wizard's label of a plugin type.
pub fn plugin_type_str(k: PluginType) -> (r: &'static str)
    ensures
        r@ == match k {
            PluginType::Required => "required"@,
            PluginType::Recommended => "recommended"@,
            PluginType::Optional => "optional"@,
            PluginType::NotUsable => "not usable"@,
            PluginType::CouldBeUsable => "could be usable"@,
        },
{
    match k {
        PluginType::Required => "required",
        PluginType::Recommended => "recommended",
        PluginType::Optional => "optional",
        PluginType::NotUsable => "not usable",
        PluginType::CouldBeUsable => "could be usable",
    }
}

/// The wizard's label of a group kind.
pub fn group_kind_str(k: GroupKind) -> (r: &'static str)
    ensures
        r@ == match k {
            GroupKind::ExactlyOne => "select one"@,
            GroupKind::AtMostOne => "at most one"@,
            GroupKind::AtLeastOne => "at least one"@,
            GroupKind::Any => "any"@,
            GroupKind::All => "all"@,
        },
{
    match k {
        GroupKind::ExactlyOne => "select one",
        GroupKind::AtMostOne => "at most one",
        GroupKind::AtLeastOne => "at least one",
        GroupKind::Any => "any",
        GroupKind::All => "all",
    }
}

// ---- the install plan --------------------------------------------------------------

/// Files chosen so far, and the flags set so far.
pub type PlanState = (Seq<FileView>, Seq<(Seq<char>, Seq<char>)>);

/// Whether plugin `pi` of group `gi` of step `si` is chosen.
pub open spec fn sel_at(sel: Seq<Seq<Seq<bool>>>, si: int, gi: int, pi: int) -> bool {
    0 <= si < sel.len() && 0 <= gi < sel[si].len() && 0 <= pi < sel[si][gi].len() && sel[si][gi][pi]
}

/// The state after a plugin: a chosen plugin adds its files and flags.
pub open spec fn after_plugin(p: Plugin, chosen: bool, st: PlanState) -> PlanState {
    if chosen {
        (st.0 + file_views(p.files@), st.1 + flag_views(p.flags@))
    } else {
        st
    }
}

/// The state after the first `n` plugins of group `gi` of step `si`.
pub open spec fn group_pick(g: Group, sel: Seq<Seq<Seq<bool>>>, si: int, gi: int, st: PlanState, n: int) -> PlanState
    decreases n,
{
    if n <= 0 {
        st
    } else {
        after_plugin(g.plugins@[n - 1], sel_at(sel, si, gi, n - 1), group_pick(g, sel, si, gi, st, n - 1))
    }
}

/// The state after the first `n` groups of step `si`.
pub open spec fn groups_pick(step: InstallStep, sel: Seq<Seq<Seq<bool>>>, si: int, st: PlanState, n: int) -> PlanState
    decreases n,
{
    if n <= 0 {
        st
    } else {
        let g = step.groups@[n - 1];
        group_pick(g, sel, si, n - 1, groups_pick(step, sel, si, st, n - 1), g.plugins@.len() as int)
    }
}

/// Whether a step is shown, given the flags set by the steps before it.
pub open spec fn step_visible(step: InstallStep, flags: Seq<(Seq<char>, Seq<char>)>, present: Seq<Seq<char>>) -> bool {
    match step.visible {
        Some(v) => holds(v, flags, present),
        None => true,
    }
}

/// The state after the first `n` steps: the required files, then what each
/// shown step's chosen plugins add.
pub open spec fn steps_pick(cfg: FomodConfig, sel: Seq<Seq<Seq<bool>>>, present: Seq<Seq<char>>, n: int) -> PlanState
    decreases n,
{
    if n <= 0 {
        (file_views(cfg.required@), seq![])
    } else {
        let prev = steps_pick(cfg, sel, present, n - 1);
        let step = cfg.steps@[n - 1];
        if step_visible(step, prev.1, present) {
            groups_pick(step, sel, n - 1, prev, step.groups@.len() as int)
        } else {
            prev
        }
    }
}

/// `items` with the files of the first `n` conditional installs whose
/// dependencies hold under the final flags.
pub open spec fn cond_pick(
    conds: Seq<ConditionalInstall>,
    flags: Seq<(Seq<char>, Seq<char>)>,
    present: Seq<Seq<char>>,
    items: Seq<FileView>,
    n: int,
) -> Seq<FileView>
    decreases n,
{
    if n <= 0 {
        items
    } else {
        let prev = cond_pick(conds, flags, present, items, n - 1);
        if holds(conds[n - 1].deps, flags, present) {
            prev + file_views(conds[n - 1].files@)
        } else {
            prev
        }
    }
}

/// Every file a selection installs, in the order they were gathered.
pub open spec fn gathered(cfg: FomodConfig, sel: Seq<Seq<Seq<bool>>>, present: Seq<Seq<char>>) -> Seq<FileView> {
    let st = steps_pick(cfg, sel, present, cfg.steps@.len() as int);
    cond_pick(cfg.conditional@, st.1, present, st.0, cfg.conditional@.len() as int)
}

/// `x` placed after the last item whose priority is not above its own.
pub open spec fn insert_by_priority(s: Seq<FileView>, x: FileView) -> Seq<FileView>
    decreases s.len(),
{
    if s.len() == 0 {
        seq![x]
    } else if s.last().priority <= x.priority {
        s.push(x)
    } else {
        insert_by_priority(s.drop_last(), x).push(s.last())
    }
}

/// The items in ascending priority; items of equal priority keep their
/// order (a stable sort).
pub open spec fn by_priority(s: Seq<FileView>) -> Seq<FileView>
    decreases s.len(),
{
    if s.len() == 0 {
        seq![]
    } else {
        insert_by_priority(by_priority(s.drop_last()), s.last())
    }
}

/// The files a selection installs, in the order they are copied.
pub open spec fn install_plan_of(cfg: FomodConfig, sel: Seq<Seq<Seq<bool>>>, present: Seq<Seq<char>>) -> Seq<FileView> {
    by_priority(gathered(cfg, sel, present))
}

proof fn lemma_insert_at(s: Seq<FileView>, x: FileView, pos: int)
    requires
        0 <= pos <= s.len(),
        pos == 0 || s[pos - 1].priority <= x.priority,
        forall|k: int| pos <= k < s.len() ==> s[k].priority > x.priority,
    ensures
        insert_by_priority(s, x) == s.insert(pos, x),
    decreases s.len(),
{
    if s.len() == 0 {
        assert(s.insert(pos, x) =~= seq![x]);
    } else if pos == s.len() {
        assert(s.insert(pos, x) =~= s.push(x));
    } else {
        lemma_insert_at(s.drop_last(), x, pos);
        assert(s.insert(pos, x) =~= s.drop_last().insert(pos, x).push(s.last()));
    }
}

fn append_files(items: &mut Vec<FileItem>, files: &[FileItem])
    ensures
        file_views(final(items)@) == file_views(old(items)@) + file_views(files@),
{
    let ghost start = file_views(items@);
    let mut i: usize = 0;
    while i < files.len()
        invariant
            i <= files@.len(),
            file_views(items@) == start + file_views(files@).take(i as int),
            start == file_views(old(items)@),
        decreases files@.len() - i,
    {
        let ghost before = file_views(items@);
        items.push(files[i].copy());
        assert(file_views(items@) =~= before.push(files@[i as int]@));
        assert(file_views(files@).take(i + 1) =~= file_views(files@).take(i as int).push(
            files@[i as int]@,
        ));
        i = i + 1;
    }
    assert(file_views(files@).take(i as int) =~= file_views(files@));
}

fn append_flags(flags: &mut Vec<(String, String)>, add: &[(String, String)])
    ensures
        flag_views(final(flags)@) == flag_views(old(flags)@) + flag_views(add@),
{
    let ghost start = flag_views(flags@);
    let mut i: usize = 0;
    while i < add.len()
        invariant
            i <= add@.len(),
            flag_views(flags@) == start + flag_views(add@).take(i as int),
            start == flag_views(old(flags)@),
        decreases add@.len() - i,
    {
        let ghost before = flag_views(flags@);
        flags.push((add[i].0.clone(), add[i].1.clone()));
        assert(flag_views(flags@) =~= before.push((add@[i as int].0@, add@[i as int].1@)));
        assert(flag_views(add@).take(i + 1) =~= flag_views(add@).take(i as int).push(
            (add@[i as int].0@, add@[i as int].1@),
        ));
        i = i + 1;
    }
    assert(flag_views(add@).take(i as int) =~= flag_views(add@));
}

fn is_chosen(sel: &Vec<Vec<Vec<bool>>>, si: usize, gi: usize, pi: usize) -> (r: bool)
    ensures
        r == sel_at(sel_view(sel@), si as int, gi as int, pi as int),
{
    if si < sel.len() && gi < sel[si].len() && pi < sel[si][gi].len() {
        assert(sel_view(sel@)[si as int][gi as int] == sel@[si as int]@[gi as int]@);
        sel[si][gi][pi]
    } else {
        false
    }
}

/// Sorts by priority, keeping the order of items of equal priority.
fn sort_by_priority(items: Vec<FileItem>) -> (r: Vec<FileItem>)
    ensures
        file_views(r@) == by_priority(file_views(items@)),
{
    let mut out: Vec<FileItem> = Vec::new();
    let mut i: usize = 0;
    while i < items.len()
        invariant
            i <= items@.len(),
            file_views(out@) == by_priority(file_views(items@).take(i as int)),
        decreases items@.len() - i,
    {
        let x = items[i].copy();
        let mut pos: usize = out.len();
        while pos > 0 && out[pos - 1].priority > x.priority
            invariant
                pos <= out@.len(),
                forall|k: int| pos <= k < out@.len() ==> out@[k].priority > x.priority,
            decreases pos,
        {
            pos = pos - 1;
        }
        proof {
            let s = file_views(out@);
            assert forall|k: int| pos <= k < s.len() implies s[k].priority > x@.priority by {
                assert(s[k] == out@[k]@);
            }
            if pos > 0 {
                assert(s[pos - 1] == out@[pos - 1]@);
            }
            lemma_insert_at(s, x@, pos as int);
            assert(file_views(items@).take(i + 1).drop_last() =~= file_views(items@).take(i as int));
        }
        let ghost before = file_views(out@);
        out.insert(pos, x);
        assert(file_views(out@) =~= before.insert(pos as int, x@));
        i = i + 1;
    }
    assert(file_views(items@).take(i as int) =~= file_views(items@));
    out
}

impl FomodConfig {
    /// The files a valid selection installs, in copy order: the required
    /// files, the files of the chosen plugins of each shown step (a step's
    /// visibility is judged with the flags the steps before it set), the
    /// files of each conditional install whose dependencies hold with the
    /// final flags, all stably sorted by priority. `present` lists the
    /// entries of the install tree for file dependencies. An invalid
    /// selection is refused as [`FomodConfig::validate`] says.
    pub fn install_plan(&self, sel: &Vec<Vec<Vec<bool>>>, present: &[String]) -> (r: Result<
        Vec<FileItem>,
        Error,
    >)
        ensures
            r is Ok <==> selection_valid(*self, sel_view(sel@)),
            r matches Err(e) ==> refusal(*self, sel_view(sel@), e),
            r matches Ok(items) ==> file_views(items@) == install_plan_of(
                *self,
                sel_view(sel@),
                views(present@),
            ),
    {
        self.validate(sel)?;
        let ghost sv = sel_view(sel@);
        let ghost pv = views(present@);
        let mut items: Vec<FileItem> = Vec::new();
        append_files(&mut items, self.required.as_slice());
        let mut flags: Vec<(String, String)> = Vec::new();
        assert(file_views(items@) =~= file_views(self.required@));
        assert(flag_views(flags@) =~= seq![]);
        let mut si: usize = 0;
        while si < self.steps.len()
            invariant
                si <= self.steps@.len(),
                sv == sel_view(sel@),
                pv == views(present@),
                (file_views(items@), flag_views(flags@)) == steps_pick(*self, sv, pv, si as int),
            decreases self.steps@.len() - si,
        {
            let step = &self.steps[si];
            let shown = match &step.visible {
                Some(vis) => eval(vis, flags.as_slice(), present),
                None => true,
            };
            if shown {
                let ghost st0 = (file_views(items@), flag_views(flags@));
                let mut gi: usize = 0;
                while gi < step.groups.len()
                    invariant
                        gi <= step.groups@.len(),
                        *step == self.steps@[si as int],
                        sv == sel_view(sel@),
                        (file_views(items@), flag_views(flags@)) == groups_pick(
                            *step,
                            sv,
                            si as int,
                            st0,
                            gi as int,
                        ),
                    decreases step.groups@.len() - gi,
                {
                    let g = &step.groups[gi];
                    let ghost stg = (file_views(items@), flag_views(flags@));
                    let mut pi: usize = 0;
                    while pi < g.plugins.len()
                        invariant
                            pi <= g.plugins@.len(),
                            sv == sel_view(sel@),
                            (file_views(items@), flag_views(flags@)) == group_pick(
                                *g,
                                sv,
                                si as int,
                                gi as int,
                                stg,
                                pi as int,
                            ),
                        decreases g.plugins@.len() - pi,
                    {
                        if is_chosen(sel, si, gi, pi) {
                            append_flags(&mut flags, g.plugins[pi].flags.as_slice());
                            append_files(&mut items, g.plugins[pi].files.as_slice());
                        }
                        pi = pi + 1;
                    }
                    gi = gi + 1;
                }
            }
            si = si + 1;
        }
        let ghost st = steps_pick(*self, sv, pv, self.steps@.len() as int);
        let ghost items0 = file_views(items@);
        let mut ci: usize = 0;
        while ci < self.conditional.len()
            invariant
                ci <= self.conditional@.len(),
                pv == views(present@),
                flag_views(flags@) == st.1,
                items0 == st.0,
                file_views(items@) == cond_pick(self.conditional@, st.1, pv, items0, ci as int),
            decreases self.conditional@.len() - ci,
        {
            if eval(&self.conditional[ci].deps, flags.as_slice(), present) {
                append_files(&mut items, self.conditional[ci].files.as_slice());
            }
            ci = ci + 1;
        }
        Ok(sort_by_priority(items))
    }
}

// ---- copies ------------------------------------------------------------------------

/// The text of a leaf dependency.
pub enum DepView {
    Flag(Seq<char>, Seq<char>),
    File(Seq<char>, Seq<char>),
}

/// What a leaf dependency holds, as text.
pub open spec fn dep_view(d: Dependency) -> DepView {
    match d {
        Dependency::Flag { name, value } => DepView::Flag(name@, value@),
        Dependency::File { file, state } => DepView::File(file@, state@),
    }
}

/// The content of a composite dependency.
pub enum CompositeView {
    Node(bool, Seq<DepView>, Seq<CompositeView>),
}

/// What a composite dependency holds, as text.
pub open spec fn composite_view(c: Composite) -> CompositeView
    decreases c,
{
    CompositeView::Node(
        c.or,
        c.deps@.map_values(|d: Dependency| dep_view(d)),
        composites_view(c.nested@),
    )
}

/// The views of nested composites.
pub open spec fn composites_view(cs: Seq<Composite>) -> Seq<CompositeView>
    decreases cs,
{
    if cs.len() == 0 {
        seq![]
    } else {
        composites_view(cs.drop_last()).push(composite_view(cs.last()))
    }
}

impl Dependency {
    /// A copy of this dependency.
    pub fn copy(&self) -> (r: Dependency)
        ensures
            dep_view(r) == dep_view(*self),
    {
        match self {
            Dependency::Flag { name, value } => Dependency::Flag { name: name.clone(), value: value.clone() },
            Dependency::File { file, state } => Dependency::File { file: file.clone(), state: state.clone() },
        }
    }
}

impl Composite {
    /// A deep copy.
    pub fn copy(&self) -> (r: Composite)
        ensures
            composite_view(r) == composite_view(*self),
        decreases self,
    {
        let mut deps: Vec<Dependency> = Vec::new();
        let mut i: usize = 0;
        while i < self.deps.len()
            invariant
                i <= self.deps@.len(),
                deps@.map_values(|d: Dependency| dep_view(d)) == self.deps@.take(i as int).map_values(
                    |d: Dependency| dep_view(d),
                ),
            decreases self.deps@.len() - i,
        {
            let d = self.deps[i].copy();
            let ghost before = deps@.map_values(|d: Dependency| dep_view(d));
            deps.push(d);
            assert(deps@.map_values(|d: Dependency| dep_view(d)) =~= before.push(dep_view(self.deps@[i as int])));
            assert(self.deps@.take(i + 1).map_values(|d: Dependency| dep_view(d)) =~= self.deps@.take(
                i as int,
            ).map_values(|d: Dependency| dep_view(d)).push(dep_view(self.deps@[i as int])));
            i = i + 1;
        }
        assert(self.deps@.take(i as int) =~= self.deps@);
        let mut nested: Vec<Composite> = Vec::new();
        let mut k: usize = 0;
        assert(self.nested@.take(0) =~= Seq::<Composite>::empty());
        while k < self.nested.len()
            invariant
                k <= self.nested@.len(),
                composites_view(nested@) == composites_view(self.nested@.take(k as int)),
            decreases self.nested@.len() - k,
        {
            let c = self.nested[k].copy();
            let ghost before = nested@;
            nested.push(c);
            assert(nested@.drop_last() =~= before);
            assert(self.nested@.take(k + 1).drop_last() =~= self.nested@.take(k as int));
            k = k + 1;
        }
        assert(self.nested@.take(k as int) =~= self.nested@);
        Composite { or: self.or, deps, nested }
    }
}

/// Copies file items.
pub fn copy_files(v: &[FileItem]) -> (r: Vec<FileItem>)
    ensures
        file_views(r@) == file_views(v@),
{
    let mut out: Vec<FileItem> = Vec::new();
    append_files(&mut out, v);
    assert(file_views(out@) =~= Seq::<FileView>::empty() + file_views(v@));
    out
}

/// Copies flag settings.
pub fn copy_flags(v: &[(String, String)]) -> (r: Vec<(String, String)>)
    ensures
        flag_views(r@) == flag_views(v@),
{
    let mut out: Vec<(String, String)> = Vec::new();
    append_flags(&mut out, v);
    assert(flag_views(out@) =~= Seq::<(Seq<char>, Seq<char>)>::empty() + flag_views(v@));
    out
}

/// The content of a plugin.
pub open spec fn plugin_view(p: Plugin) -> (Seq<char>, Seq<char>, Option<Seq<char>>, Seq<FileView>, Seq<(Seq<char>, Seq<char>)>, PluginType, Seq<(CompositeView, PluginType)>) {
    (
        p.name@,
        p.description@,
        crate::text::opt_str(p.image),
        file_views(p.files@),
        flag_views(p.flags@),
        p.default_type,
        p.type_patterns@.map_values(|t: (Composite, PluginType)| (composite_view(t.0), t.1)),
    )
}

impl Plugin {
    /// A deep copy.
    pub fn copy(&self) -> (r: Plugin)
        ensures
            plugin_view(r) == plugin_view(*self),
    {
        let mut pats: Vec<(Composite, PluginType)> = Vec::new();
        let mut i: usize = 0;
        while i < self.type_patterns.len()
            invariant
                i <= self.type_patterns@.len(),
                pats@.map_values(|t: (Composite, PluginType)| (composite_view(t.0), t.1))
                    == self.type_patterns@.take(i as int).map_values(
                    |t: (Composite, PluginType)| (composite_view(t.0), t.1),
                ),
            decreases self.type_patterns@.len() - i,
        {
            let c = self.type_patterns[i].0.copy();
            let ghost before = pats@.map_values(|t: (Composite, PluginType)| (composite_view(t.0), t.1));
            pats.push((c, self.type_patterns[i].1));
            assert(pats@.map_values(|t: (Composite, PluginType)| (composite_view(t.0), t.1)) =~= before.push(
                (composite_view(self.type_patterns@[i as int].0), self.type_patterns@[i as int].1),
            ));
            assert(self.type_patterns@.take(i + 1).map_values(|t: (Composite, PluginType)| (composite_view(t.0), t.1))
                =~= self.type_patterns@.take(i as int).map_values(
                |t: (Composite, PluginType)| (composite_view(t.0), t.1),
            ).push((composite_view(self.type_patterns@[i as int].0), self.type_patterns@[i as int].1)));
            i = i + 1;
        }
        assert(self.type_patterns@.take(i as int) =~= self.type_patterns@);
        Plugin {
            name: self.name.clone(),
            description: self.description.clone(),
            image: match &self.image {
                Some(s) => Some(s.clone()),
                None => None,
            },
            files: copy_files(self.files.as_slice()),
            flags: copy_flags(self.flags.as_slice()),
            default_type: self.default_type,
            type_patterns: pats,
        }
    }
}

/// The content of a group.
pub open spec fn group_view(g: Group) -> (Seq<char>, GroupKind, Seq<(Seq<char>, Seq<char>, Option<Seq<char>>, Seq<FileView>, Seq<(Seq<char>, Seq<char>)>, PluginType, Seq<(CompositeView, PluginType)>)>) {
    (g.name@, g.kind, g.plugins@.map_values(|p: Plugin| plugin_view(p)))
}

impl Group {
    /// A deep copy.
    pub fn copy(&self) -> (r: Group)
        ensures
            group_view(r) == group_view(*self),
    {
        let mut ps: Vec<Plugin> = Vec::new();
        let mut i: usize = 0;
        while i < self.plugins.len()
            invariant
                i <= self.plugins@.len(),
                ps@.map_values(|p: Plugin| plugin_view(p)) == self.plugins@.take(i as int).map_values(
                    |p: Plugin| plugin_view(p),
                ),
            decreases self.plugins@.len() - i,
        {
            let p = self.plugins[i].copy();
            let ghost before = ps@.map_values(|p: Plugin| plugin_view(p));
            ps.push(p);
            assert(ps@.map_values(|p: Plugin| plugin_view(p)) =~= before.push(plugin_view(self.plugins@[i as int])));
            assert(self.plugins@.take(i + 1).map_values(|p: Plugin| plugin_view(p)) =~= self.plugins@.take(
                i as int,
            ).map_values(|p: Plugin| plugin_view(p)).push(plugin_view(self.plugins@[i as int])));
            i = i + 1;
        }
        assert(self.plugins@.take(i as int) =~= self.plugins@);
        Group { name: self.name.clone(), kind: self.kind, plugins: ps }
    }
}

/// The content of a step.
pub open spec fn step_view(s: InstallStep) -> (Seq<char>, Option<CompositeView>, Seq<(Seq<char>, GroupKind, Seq<(Seq<char>, Seq<char>, Option<Seq<char>>, Seq<FileView>, Seq<(Seq<char>, Seq<char>)>, PluginType, Seq<(CompositeView, PluginType)>)>)>) {
    (
        s.name@,
        match s.visible {
            Some(c) => Some(composite_view(c)),
            None => None,
        },
        s.groups@.map_values(|g: Group| group_view(g)),
    )
}

impl InstallStep {
    /// A deep copy.
    pub fn copy(&self) -> (r: InstallStep)
        ensures
            step_view(r) == step_view(*self),
    {
        let mut gs: Vec<Group> = Vec::new();
        let mut i: usize = 0;
        while i < self.groups.len()
            invariant
                i <= self.groups@.len(),
                gs@.map_values(|g: Group| group_view(g)) == self.groups@.take(i as int).map_values(
                    |g: Group| group_view(g),
                ),
            decreases self.groups@.len() - i,
        {
            let g = self.groups[i].copy();
            let ghost before = gs@.map_values(|g: Group| group_view(g));
            gs.push(g);
            assert(gs@.map_values(|g: Group| group_view(g)) =~= before.push(group_view(self.groups@[i as int])));
            assert(self.groups@.take(i + 1).map_values(|g: Group| group_view(g)) =~= self.groups@.take(
                i as int,
            ).map_values(|g: Group| group_view(g)).push(group_view(self.groups@[i as int])));
            i = i + 1;
        }
        assert(self.groups@.take(i as int) =~= self.groups@);
        InstallStep {
            name: self.name.clone(),
            visible: match &self.visible {
                Some(c) => Some(c.copy()),
                None => None,
            },
            groups: gs,
        }
    }
}

/// The content of a conditional install.
pub open spec fn cond_view(c: ConditionalInstall) -> (CompositeView, Seq<FileView>) {
    (composite_view(c.deps), file_views(c.files@))
}

/// The content of a whole configuration.
pub open spec fn config_view(c: FomodConfig) -> (Seq<char>, Seq<FileView>, Seq<(Seq<char>, Option<CompositeView>, Seq<(Seq<char>, GroupKind, Seq<(Seq<char>, Seq<char>, Option<Seq<char>>, Seq<FileView>, Seq<(Seq<char>, Seq<char>)>, PluginType, Seq<(CompositeView, PluginType)>)>)>)>, Seq<(CompositeView, Seq<FileView>)>) {
    (
        c.module_name@,
        file_views(c.required@),
        c.steps@.map_values(|s: InstallStep| step_view(s)),
        c.conditional@.map_values(|x: ConditionalInstall| cond_view(x)),
    )
}

impl FomodConfig {
    /// A deep copy.
    pub fn copy(&self) -> (r: FomodConfig)
        ensures
            config_view(r) == config_view(*self),
    {
        let mut steps: Vec<InstallStep> = Vec::new();
        let mut i: usize = 0;
        while i < self.steps.len()
            invariant
                i <= self.steps@.len(),
                steps@.map_values(|s: InstallStep| step_view(s)) == self.steps@.take(i as int).map_values(
                    |s: InstallStep| step_view(s),
                ),
            decreases self.steps@.len() - i,
        {
            let st = self.steps[i].copy();
            let ghost before = steps@.map_values(|s: InstallStep| step_view(s));
            steps.push(st);
            assert(steps@.map_values(|s: InstallStep| step_view(s)) =~= before.push(step_view(self.steps@[i as int])));
            assert(self.steps@.take(i + 1).map_values(|s: InstallStep| step_view(s)) =~= self.steps@.take(
                i as int,
            ).map_values(|s: InstallStep| step_view(s)).push(step_view(self.steps@[i as int])));
            i = i + 1;
        }
        assert(self.steps@.take(i as int) =~= self.steps@);
        let mut conds: Vec<ConditionalInstall> = Vec::new();
        let mut k: usize = 0;
        while k < self.conditional.len()
            invariant
                k <= self.conditional@.len(),
                conds@.map_values(|x: ConditionalInstall| cond_view(x)) == self.conditional@.take(k as int).map_values(
                    |x: ConditionalInstall| cond_view(x),
                ),
            decreases self.conditional@.len() - k,
        {
            let c = ConditionalInstall {
                deps: self.conditional[k].deps.copy(),
                files: copy_files(self.conditional[k].files.as_slice()),
            };
            let ghost before = conds@.map_values(|x: ConditionalInstall| cond_view(x));
            conds.push(c);
            assert(conds@.map_values(|x: ConditionalInstall| cond_view(x)) =~= before.push(cond_view(self.conditional@[k as int])));
            assert(self.conditional@.take(k + 1).map_values(|x: ConditionalInstall| cond_view(x)) =~= self.conditional@.take(
                k as int,
            ).map_values(|x: ConditionalInstall| cond_view(x)).push(cond_view(self.conditional@[k as int])));
            k = k + 1;
        }
        assert(self.conditional@.take(k as int) =~= self.conditional@);
        FomodConfig {
            module_name: self.module_name.clone(),
            required: copy_files(self.required.as_slice()),
            steps,
            conditional: conds,
        }
    }
}

// ---- a configured installer --------------------------------------------------------

/// A configured FOMOD ready to install: its configuration and the directory
/// its file sources are relative to.
#[derive(Debug)]
pub struct FomodSession {
    pub config: FomodConfig,
    pub src_root: String,
}

impl FomodSession {
    /// A session over a parsed configuration whose sources are relative to `src_root`.
    pub fn new(config: FomodConfig, src_root: String) -> (s: FomodSession)
        ensures
            s.config == config,
            s.src_root == src_root,
    {
        FomodSession { config, src_root }
    }

    /// The files the selection installs, in copy order (see
    /// [`FomodConfig::install_plan`]).
    pub fn install_plan(&self, sel: &Vec<Vec<Vec<bool>>>, present: &[String]) -> (r: Result<Vec<FileItem>, Error>)
        ensures
            r is Ok <==> selection_valid(self.config, sel_view(sel@)),
            r matches Err(e) ==> refusal(self.config, sel_view(sel@), e),
            r matches Ok(items) ==> file_views(items@) == install_plan_of(
                self.config,
                sel_view(sel@),
                views(present@),
            ),
    {
        self.config.install_plan(sel, present)
    }
}

/// Where an installed item lands: a folder (or a source that is a
/// directory, `src_is_dir`) goes to the clean destination path; a file goes
/// to the clean destination, or keeps its source's file name when the
/// destination is empty.
pub open spec fn item_target(
    dest_root: Seq<char>,
    item: FileView,
    src_is_dir: bool,
    src_name: Seq<char>,
) -> Seq<char> {
    if item.is_folder || src_is_dir || item.destination.len() > 0 {
        crate::paths::path_join(dest_root, clean_rel(item.destination))
    } else {
        crate::paths::path_join(dest_root, src_name)
    }
}

/// Where an installed item (or a folder's contents) is copied to.
pub fn item_target_path(dest_root: &str, item: &FileItem, src_is_dir: bool, src_name: &str) -> (r: String)
    ensures
        r@ == item_target(dest_root@, item@, src_is_dir, src_name@),
{
    if item.is_folder || src_is_dir || !item.destination.as_str().is_empty() {
        let rel = normalize_rel(item.destination.as_str());
        crate::paths::join(dest_root, rel.as_str())
    } else {
        crate::paths::join(dest_root, src_name)
    }
}

// ---- what a plan is ---------------------------------------------------------------

/// Items in ascending priority.
pub open spec fn priority_sorted(s: Seq<FileView>) -> bool {
    forall|i: int, j: int| 0 <= i < j < s.len() ==> (#[trigger] s[i]).priority <= (#[trigger] s[j]).priority
}

proof fn lemma_insert_by_priority(s: Seq<FileView>, x: FileView)
    requires
        priority_sorted(s),
    ensures
        priority_sorted(insert_by_priority(s, x)),
        insert_by_priority(s, x).to_multiset() == s.to_multiset().insert(x),
        forall|k: int| 0 <= k < insert_by_priority(s, x).len() ==> (#[trigger] insert_by_priority(s, x)[k] == x
            || s.contains(insert_by_priority(s, x)[k])),
    decreases s.len(),
{
    broadcast use vstd::seq_lib::group_to_multiset_ensures;
    if s.len() == 0 {
        assert(seq![x] =~= Seq::<FileView>::empty().push(x));
    } else if s.last().priority <= x.priority {
        let r = s.push(x);
        assert forall|k: int| 0 <= k < r.len() implies (#[trigger] r[k] == x || s.contains(r[k])) by {
            if k < s.len() {
                assert(r[k] == s[k]);
            }
        }
    } else {
        let d = s.drop_last();
        assert(priority_sorted(d)) by {
            assert forall|i: int, j: int| 0 <= i < j < d.len() implies (#[trigger] d[i]).priority <= (#[trigger] d[j]).priority by {
                assert(d[i] == s[i] && d[j] == s[j]);
            }
        }
        lemma_insert_by_priority(d, x);
        let t = insert_by_priority(d, x);
        let r = t.push(s.last());
        assert(s =~= d.push(s.last()));
        assert forall|k: int| 0 <= k < t.len() implies (#[trigger] t[k]).priority <= s.last().priority by {
            if t[k] != x {
                assert(d.contains(t[k]));
                let w = choose|w: int| 0 <= w < d.len() && d[w] == t[k];
                assert(s[w] == d[w]);
                assert(s[s.len() - 1] == s.last());
            }
        }
        assert forall|i: int, j: int| 0 <= i < j < r.len() implies (#[trigger] r[i]).priority <= (#[trigger] r[j]).priority by {
            if j < t.len() {
                assert(r[i] == t[i] && r[j] == t[j]);
            } else {
                assert(r[i] == t[i]);
            }
        }
        assert forall|k: int| 0 <= k < r.len() implies (#[trigger] r[k] == x || s.contains(r[k])) by {
            if k < t.len() {
                assert(r[k] == t[k]);
                if t[k] != x {
                    let w = choose|w: int| 0 <= w < d.len() && d[w] == t[k];
                    assert(s[w] == d[w]);
                }
            } else {
                assert(s[s.len() - 1] == r[k]);
            }
        }
    }
}

proof fn lemma_by_priority(s: Seq<FileView>)
    ensures
        priority_sorted(by_priority(s)),
        by_priority(s).to_multiset() == s.to_multiset(),
    decreases s.len(),
{
    broadcast use vstd::seq_lib::group_to_multiset_ensures;
    if s.len() > 0 {
        lemma_by_priority(s.drop_last());
        lemma_insert_by_priority(by_priority(s.drop_last()), s.last());
        assert(s =~= s.drop_last().push(s.last()));
    } else {
        assert(s.to_multiset() =~= by_priority(s).to_multiset());
    }
}

proof fn lemma_cond_pick_keeps(
    conds: Seq<ConditionalInstall>,
    flags: Seq<(Seq<char>, Seq<char>)>,
    present: Seq<Seq<char>>,
    items: Seq<FileView>,
    m: int,
    n: int,
    x: FileView,
)
    requires
        0 <= m <= n,
        cond_pick(conds, flags, present, items, m).contains(x),
    ensures
        cond_pick(conds, flags, present, items, n).contains(x),
    decreases n - m,
{
    if m < n {
        lemma_cond_pick_keeps(conds, flags, present, items, m, n - 1, x);
        let prev = cond_pick(conds, flags, present, items, n - 1);
        let i = choose|i: int| 0 <= i < prev.len() && prev[i] == x;
        if holds(conds[n - 1].deps, flags, present) {
            assert((prev + file_views(conds[n - 1].files@))[i] == x);
        }
    }
}

proof fn lemma_cond_pick_none(
    conds: Seq<ConditionalInstall>,
    flags: Seq<(Seq<char>, Seq<char>)>,
    present: Seq<Seq<char>>,
    items: Seq<FileView>,
    n: int,
)
    requires
        forall|c: int| 0 <= c < n ==> !holds(#[trigger] conds[c].deps, flags, present),
    ensures
        cond_pick(conds, flags, present, items, n) == items,
    decreases n,
{
    if n > 0 {
        lemma_cond_pick_none(conds, flags, present, items, n - 1);
    }
}

/// Conditional installs are judged under the flags that the chosen plugins
/// of the shown steps set: when the dependencies of one hold under those
/// flags, each of its files is in the install plan.
pub proof fn conditional_installs_see_the_final_flags(
    cfg: FomodConfig,
    sel: Seq<Seq<Seq<bool>>>,
    present: Seq<Seq<char>>,
    c: int,
    f: int,
)
    requires
        0 <= c < cfg.conditional@.len(),
        0 <= f < cfg.conditional@[c].files@.len(),
        holds(cfg.conditional@[c].deps, steps_pick(cfg, sel, present, cfg.steps@.len() as int).1, present),
    ensures
        install_plan_of(cfg, sel, present).contains(file_views(cfg.conditional@[c].files@)[f]),
{
    broadcast use vstd::seq_lib::group_to_multiset_ensures;
    let st = steps_pick(cfg, sel, present, cfg.steps@.len() as int);
    let conds = cfg.conditional@;
    let x = file_views(conds[c].files@)[f];
    let prev = cond_pick(conds, st.1, present, st.0, c);
    assert((prev + file_views(conds[c].files@))[prev.len() + f] == x);
    assert(cond_pick(conds, st.1, present, st.0, c + 1).contains(x));
    lemma_cond_pick_keeps(conds, st.1, present, st.0, c + 1, conds.len() as int, x);
    lemma_by_priority(gathered(cfg, sel, present));
    assert(gathered(cfg, sel, present).to_multiset().count(x) > 0);
}

/// When no conditional install's dependencies hold under the flags that the
/// chosen plugins of the shown steps set, the plan holds just the required
/// files and the files of the chosen plugins.
pub proof fn unmet_conditions_add_nothing(cfg: FomodConfig, sel: Seq<Seq<Seq<bool>>>, present: Seq<Seq<char>>)
    requires
        forall|c: int|
            0 <= c < cfg.conditional@.len() ==> !holds(
                #[trigger] cfg.conditional@[c].deps,
                steps_pick(cfg, sel, present, cfg.steps@.len() as int).1,
                present,
            ),
    ensures
        install_plan_of(cfg, sel, present).to_multiset() == steps_pick(
            cfg,
            sel,
            present,
            cfg.steps@.len() as int,
        ).0.to_multiset(),
{
    let st = steps_pick(cfg, sel, present, cfg.steps@.len() as int);
    lemma_cond_pick_none(cfg.conditional@, st.1, present, st.0, cfg.conditional@.len() as int);
    lemma_by_priority(gathered(cfg, sel, present));
}

/// A selection's files are copied in ascending priority, and every file the
/// selection gathers is copied, as often as it was gathered.
pub proof fn install_plan_is_sorted(cfg: FomodConfig, sel: Seq<Seq<Seq<bool>>>, present: Seq<Seq<char>>)
    ensures
        priority_sorted(install_plan_of(cfg, sel, present)),
        install_plan_of(cfg, sel, present).to_multiset() == gathered(cfg, sel, present).to_multiset(),
{
    lemma_by_priority(gathered(cfg, sel, present));
}

} // verus!
