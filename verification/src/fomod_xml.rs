//! Reading a FOMOD `ModuleConfig.xml` into a [`FomodConfig`].

use vstd::prelude::*;
use crate::error::Error;
use crate::fomod::{
    composite_view, config_view, dep_view, file_views, flag_views, group_view, kind_from_name,
    kind_named, plugin_view, step_view, type_from_name, type_named, cond_view, Composite,
    CompositeView, ConditionalInstall, DepView, Dependency, FileItem, FileView, FomodConfig,
    FomodSession, Group, GroupKind, InstallStep, Plugin, PluginType,
};
use crate::text::{eq_ignore_ascii_case, eq_ignore_case, opt_str, owned, parse_i32, parse_i32_str, push_str, str_eq, trim, trim_str};
use crate::xml::{
    attr, attr_of, attr_or, attr_or_default, child, child_of, children, children_tagged, is_child,
    kids, lemma_kids, node_views, read_xml, root_element, root_of, tagged, text, xml_nodes,
    NodeView, XmlNode,
};

verus! {

/// The text of child `c` (if any), else `default`.
pub open spec fn text_or(ns: Seq<NodeView>, c: Option<int>, default: Seq<char>) -> Seq<char> {
    match c {
        Some(k) => match ns[k].text {
            Some(t) => t,
            None => default,
        },
        None => default,
    }
}

/// A `<file>` or `<folder>` entry.
pub open spec fn file_of(ns: Seq<NodeView>, c: int) -> FileView {
    FileView {
        source: attr_or(ns, c, "source"@, seq![]),
        destination: attr_or(ns, c, "destination"@, seq![]),
        is_folder: ns[c].tag == "folder"@,
        priority: match attr_of(ns, c, "priority"@) {
            Some(p) => match parse_i32(p) {
                Some(v) => v,
                None => 0,
            },
            None => 0,
        },
    }
}

/// The file entries among `ks`, in order.
pub open spec fn file_kids(ns: Seq<NodeView>, ks: Seq<int>) -> Seq<FileView>
    decreases ks.len(),
{
    if ks.len() == 0 {
        seq![]
    } else if ns[ks.last()].tag == "file"@ || ns[ks.last()].tag == "folder"@ {
        file_kids(ns, ks.drop_last()).push(file_of(ns, ks.last()))
    } else {
        file_kids(ns, ks.drop_last())
    }
}

/// The file list of an optional `<files>`-like element.
pub open spec fn opt_files(ns: Seq<NodeView>, c: Option<int>) -> Seq<FileView> {
    match c {
        Some(k) => file_kids(ns, kids(ns, k)),
        None => seq![],
    }
}

/// A leaf dependency element.
pub open spec fn dep_of(ns: Seq<NodeView>, c: int) -> DepView {
    if ns[c].tag == "flagDependency"@ {
        DepView::Flag(attr_or(ns, c, "flag"@, seq![]), attr_or(ns, c, "value"@, seq![]))
    } else {
        DepView::File(attr_or(ns, c, "file"@, seq![]), attr_or(ns, c, "state"@, "Active"@))
    }
}

/// The leaf dependencies among `ks`, in order.
pub open spec fn deps_of(ns: Seq<NodeView>, ks: Seq<int>) -> Seq<DepView>
    decreases ks.len(),
{
    if ks.len() == 0 {
        seq![]
    } else if ns[ks.last()].tag == "flagDependency"@ || ns[ks.last()].tag == "fileDependency"@ {
        deps_of(ns, ks.drop_last()).push(dep_of(ns, ks.last()))
    } else {
        deps_of(ns, ks.drop_last())
    }
}

/// Whether the `operator` attribute says `Or` (any case).
pub open spec fn or_of(ns: Seq<NodeView>, i: int) -> bool {
    match attr_of(ns, i, "operator"@) {
        Some(o) => eq_ignore_case(o, "or"@),
        None => false,
    }
}

/// A composite dependency element.
pub open spec fn composite_model(ns: Seq<NodeView>, i: int) -> CompositeView
    decreases ns.len() - i, 1nat, 0nat,
{
    CompositeView::Node(
        or_of(ns, i),
        deps_of(ns, kids(ns, i)),
        nested_models(ns, i, tagged(ns, kids(ns, i), "dependencies"@)),
    )
}

/// The nested composites among `ks` (children of `i`).
pub open spec fn nested_models(ns: Seq<NodeView>, i: int, ks: Seq<int>) -> Seq<CompositeView>
    decreases ns.len() - i, 0nat, ks.len(),
{
    if ks.len() == 0 {
        seq![]
    } else if i < ks.last() < ns.len() {
        nested_models(ns, i, ks.drop_last()).push(composite_model(ns, ks.last()))
    } else {
        nested_models(ns, i, ks.drop_last())
    }
}

/// An optional composite; a missing one is the empty `And`.
pub open spec fn opt_composite(ns: Seq<NodeView>, c: Option<int>) -> CompositeView {
    match c {
        Some(k) => composite_model(ns, k),
        None => CompositeView::Node(false, seq![], seq![]),
    }
}

/// The type an optional `<type>`-like element names (`Optional` without).
pub open spec fn type_attr(ns: Seq<NodeView>, c: Option<int>) -> PluginType {
    match c {
        Some(k) => type_named(attr_or(ns, k, "name"@, "Optional"@)),
        None => type_named("Optional"@),
    }
}

/// A `<pattern>` of a dependency type.
pub open spec fn pattern_of(ns: Seq<NodeView>, p: int) -> (CompositeView, PluginType) {
    (opt_composite(ns, child_of(ns, p, "dependencies"@)), type_attr(ns, child_of(ns, p, "type"@)))
}

/// A plugin's `<typeDescriptor>`: a fixed type, or a default type with
/// conditional patterns.
pub open spec fn plugin_type_model(ns: Seq<NodeView>, p: int) -> (PluginType, Seq<(CompositeView, PluginType)>) {
    match child_of(ns, p, "typeDescriptor"@) {
        None => (PluginType::Optional, seq![]),
        Some(td) => match child_of(ns, td, "type"@) {
            Some(t) => (type_named(attr_or(ns, t, "name"@, "Optional"@)), seq![]),
            None => match child_of(ns, td, "dependencyType"@) {
                None => (PluginType::Optional, seq![]),
                Some(dt) => (
                    type_attr(ns, child_of(ns, dt, "defaultType"@)),
                    match child_of(ns, dt, "patterns"@) {
                        Some(ps) => tagged(ns, kids(ns, ps), "pattern"@).map_values(|k: int| pattern_of(ns, k)),
                        None => seq![],
                    },
                ),
            },
        },
    }
}

/// A `<flag>` setting.
pub open spec fn flag_of(ns: Seq<NodeView>, f: int) -> (Seq<char>, Seq<char>) {
    (attr_or(ns, f, "name"@, seq![]), trim(text_or(ns, Some(f), seq![])))
}

/// A `<plugin>`.
pub open spec fn plugin_model(ns: Seq<NodeView>, p: int) -> (Seq<char>, Seq<char>, Option<Seq<char>>, Seq<FileView>, Seq<(Seq<char>, Seq<char>)>, PluginType, Seq<(CompositeView, PluginType)>) {
    let ty = plugin_type_model(ns, p);
    (
        attr_or(ns, p, "name"@, seq![]),
        trim(text_or(ns, child_of(ns, p, "description"@), seq![])),
        match child_of(ns, p, "image"@) {
            Some(k) => attr_of(ns, k, "path"@),
            None => None,
        },
        opt_files(ns, child_of(ns, p, "files"@)),
        match child_of(ns, p, "conditionFlags"@) {
            Some(cf) => tagged(ns, kids(ns, cf), "flag"@).map_values(|f: int| flag_of(ns, f)),
            None => seq![],
        },
        ty.0,
        ty.1,
    )
}

/// A `<group>`.
pub open spec fn group_model(ns: Seq<NodeView>, g: int) -> (Seq<char>, GroupKind, Seq<(Seq<char>, Seq<char>, Option<Seq<char>>, Seq<FileView>, Seq<(Seq<char>, Seq<char>)>, PluginType, Seq<(CompositeView, PluginType)>)>) {
    (
        attr_or(ns, g, "name"@, seq![]),
        kind_named(attr_or(ns, g, "type"@, "SelectAny"@)),
        match child_of(ns, g, "plugins"@) {
            Some(ps) => tagged(ns, kids(ns, ps), "plugin"@).map_values(|k: int| plugin_model(ns, k)),
            None => seq![],
        },
    )
}

/// An `<installStep>`.
pub open spec fn step_model(ns: Seq<NodeView>, s: int) -> (Seq<char>, Option<CompositeView>, Seq<(Seq<char>, GroupKind, Seq<(Seq<char>, Seq<char>, Option<Seq<char>>, Seq<FileView>, Seq<(Seq<char>, Seq<char>)>, PluginType, Seq<(CompositeView, PluginType)>)>)>) {
    (
        attr_or(ns, s, "name"@, seq![]),
        match child_of(ns, s, "visible"@) {
            Some(v) => Some(composite_model(ns, v)),
            None => None,
        },
        match child_of(ns, s, "optionalFileGroups"@) {
            Some(g) => tagged(ns, kids(ns, g), "group"@).map_values(|k: int| group_model(ns, k)),
            None => seq![],
        },
    )
}

/// A conditional install `<pattern>`.
pub open spec fn cond_model(ns: Seq<NodeView>, p: int) -> (CompositeView, Seq<FileView>) {
    (opt_composite(ns, child_of(ns, p, "dependencies"@)), opt_files(ns, child_of(ns, p, "files"@)))
}

/// The configuration a document describes, from its root element `r`.
pub open spec fn config_model(ns: Seq<NodeView>, r: int) -> (Seq<char>, Seq<FileView>, Seq<(Seq<char>, Option<CompositeView>, Seq<(Seq<char>, GroupKind, Seq<(Seq<char>, Seq<char>, Option<Seq<char>>, Seq<FileView>, Seq<(Seq<char>, Seq<char>)>, PluginType, Seq<(CompositeView, PluginType)>)>)>)>, Seq<(CompositeView, Seq<FileView>)>) {
    (
        trim(text_or(ns, child_of(ns, r, "moduleName"@), "FOMOD"@)),
        opt_files(ns, child_of(ns, r, "requiredInstallFiles"@)),
        match child_of(ns, r, "installSteps"@) {
            Some(is) => tagged(ns, kids(ns, is), "installStep"@).map_values(|k: int| step_model(ns, k)),
            None => seq![],
        },
        match child_of(ns, r, "conditionalFileInstalls"@) {
            Some(cfi) => match child_of(ns, cfi, "patterns"@) {
                Some(ps) => tagged(ns, kids(ns, ps), "pattern"@).map_values(|k: int| cond_model(ns, k)),
                None => seq![],
            },
            None => seq![],
        },
    )
}

// ---- reading ----------------------------------------------------------------------

fn text_or_default(ns: &[XmlNode], c: Option<usize>, default: &str) -> (r: String)
    requires
        c matches Some(k) ==> k < ns@.len(),
    ensures
        r@ == text_or(node_views(ns@), opt_index(c), default@),
{
    match c {
        Some(k) => match text(ns, k) {
            Some(t) => t,
            None => owned(default),
        },
        None => owned(default),
    }
}

/// An optional node index as an integer.
pub open spec fn opt_index(c: Option<usize>) -> Option<int> {
    match c {
        Some(k) => Some(k as int),
        None => None,
    }
}

/// The `<file>`/`<folder>` entries under element `i`.
pub fn parse_files(ns: &[XmlNode], i: usize) -> (r: Vec<FileItem>)
    ensures
        file_views(r@) == file_kids(node_views(ns@), kids(node_views(ns@), i as int)),
{
    let ghost nv = node_views(ns@);
    let ks = children(ns, i);
    let ghost kv = ks@.map_values(|k: usize| k as int);
    proof {
        lemma_kids(nv, i as int);
    }
    let mut out: Vec<FileItem> = Vec::new();
    let mut j: usize = 0;
    while j < ks.len()
        invariant
            nv == node_views(ns@),
            kv == ks@.map_values(|k: usize| k as int),
            kv == kids(nv, i as int),
            forall|k: int| 0 <= k < kv.len() ==> is_child(nv, i as int, #[trigger] kv[k]),
            j <= ks@.len(),
            file_views(out@) == file_kids(nv, kv.take(j as int)),
        decreases ks@.len() - j,
    {
        assert(kv[j as int] == ks@[j as int] as int);
        assert(is_child(nv, i as int, kv[j as int]));
        let c = ks[j];
        assert(kv.take(j + 1).drop_last() =~= kv.take(j as int));
        assert(kv.take(j + 1).last() == c as int);
        assert(nv[c as int] == crate::xml::node_view(ns@[c as int]));
        let is_file = str_eq(ns[c].tag.as_str(), "file");
        let is_folder = str_eq(ns[c].tag.as_str(), "folder");
        if is_file || is_folder {
            let source = attr_or_default(ns, c, "source", "");
            let destination = attr_or_default(ns, c, "destination", "");
            let priority: i32 = match attr(ns, c, "priority") {
                Some(p) => match parse_i32_str(p.as_str()) {
                    Some(v) => v,
                    None => 0,
                },
                None => 0,
            };
            proof {
                reveal_strlit("");
                assert(""@ =~= Seq::<char>::empty());
            }
            let item = FileItem { source, destination, is_folder, priority };
            let ghost before = file_views(out@);
            out.push(item);
            assert(file_views(out@) =~= before.push(item@));
            assert(item@ == file_of(nv, c as int));
        }
        j = j + 1;
    }
    assert(kv.take(j as int) =~= kv);
    out
}

fn parse_opt_files(ns: &[XmlNode], c: Option<usize>) -> (r: Vec<FileItem>)
    ensures
        file_views(r@) == opt_files(node_views(ns@), opt_index(c)),
{
    match c {
        Some(k) => parse_files(ns, k),
        None => {
            assert(file_views(Seq::<FileItem>::empty()) =~= seq![]);
            Vec::new()
        },
    }
}

/// A composite dependency element (an `And` unless `operator` says `Or`).
pub fn parse_composite(ns: &[XmlNode], i: usize) -> (r: Composite)
    requires
        i < ns@.len(),
    ensures
        composite_view(r) == composite_model(node_views(ns@), i as int),
    decreases ns@.len() - i,
{
    let ghost nv = node_views(ns@);
    let or = match attr(ns, i, "operator") {
        Some(o) => eq_ignore_ascii_case(o.as_str(), "or"),
        None => false,
    };
    let ks = children(ns, i);
    let ghost kv = ks@.map_values(|k: usize| k as int);
    proof {
        lemma_kids(nv, i as int);
    }
    let mut deps: Vec<Dependency> = Vec::new();
    let mut j: usize = 0;
    while j < ks.len()
        invariant
            nv == node_views(ns@),
            kv == ks@.map_values(|k: usize| k as int),
            kv == kids(nv, i as int),
            forall|k: int| 0 <= k < kv.len() ==> is_child(nv, i as int, #[trigger] kv[k]),
            j <= ks@.len(),
            deps@.map_values(|d: Dependency| dep_view(d)) == deps_of(nv, kv.take(j as int)),
        decreases ks@.len() - j,
    {
        assert(kv[j as int] == ks@[j as int] as int);
        assert(is_child(nv, i as int, kv[j as int]));
        let c = ks[j];
        assert(kv.take(j + 1).drop_last() =~= kv.take(j as int));
        assert(kv.take(j + 1).last() == c as int);
        assert(nv[c as int] == crate::xml::node_view(ns@[c as int]));
        proof {
            reveal_strlit("");
            assert(""@ =~= Seq::<char>::empty());
        }
        let ghost before = deps@.map_values(|d: Dependency| dep_view(d));
        if str_eq(ns[c].tag.as_str(), "flagDependency") {
            let d = Dependency::Flag {
                name: attr_or_default(ns, c, "flag", ""),
                value: attr_or_default(ns, c, "value", ""),
            };
            deps.push(d);
            assert(deps@.map_values(|d: Dependency| dep_view(d)) =~= before.push(dep_view(d)));
        } else if str_eq(ns[c].tag.as_str(), "fileDependency") {
            let d = Dependency::File {
                file: attr_or_default(ns, c, "file", ""),
                state: attr_or_default(ns, c, "state", "Active"),
            };
            deps.push(d);
            assert(deps@.map_values(|d: Dependency| dep_view(d)) =~= before.push(dep_view(d)));
        }
        j = j + 1;
    }
    assert(kv.take(j as int) =~= kv);
    let ts = children_tagged(ns, i, "dependencies");
    let ghost tv = ts@.map_values(|k: usize| k as int);
    let mut nested: Vec<Composite> = Vec::new();
    let mut k: usize = 0;
    while k < ts.len()
        invariant
            nv == node_views(ns@),
            tv == ts@.map_values(|k: usize| k as int),
            tv == tagged(nv, kids(nv, i as int), "dependencies"@),
            forall|m: int| 0 <= m < ts@.len() ==> is_child(nv, i as int, #[trigger] ts@[m] as int),
            i < ns@.len(),
            k <= ts@.len(),
            crate::fomod::composites_view(nested@) == nested_models(nv, i as int, tv.take(k as int)),
        decreases ts@.len() - k,
    {
        assert(tv[k as int] == ts@[k as int] as int);
        assert(is_child(nv, i as int, ts@[k as int] as int));
        assert(tv.take(k + 1).drop_last() =~= tv.take(k as int));
        assert(tv.take(k + 1).last() == ts@[k as int] as int);
        let c = parse_composite(ns, ts[k]);
        let ghost before = nested@;
        nested.push(c);
        assert(nested@.drop_last() =~= before);
        k = k + 1;
    }
    assert(tv.take(k as int) =~= tv);
    Composite { or, deps, nested }
}

fn parse_opt_composite(ns: &[XmlNode], c: Option<usize>) -> (r: Composite)
    requires
        c matches Some(k) ==> k < ns@.len(),
    ensures
        composite_view(r) == opt_composite(node_views(ns@), opt_index(c)),
{
    match c {
        Some(k) => parse_composite(ns, k),
        None => {
            let r = Composite { or: false, deps: Vec::new(), nested: Vec::new() };
            assert(r.deps@.map_values(|d: Dependency| dep_view(d)) =~= seq![]);
            assert(crate::fomod::composites_view(r.nested@) =~= seq![]);
            r
        },
    }
}

fn parse_type_attr(ns: &[XmlNode], c: Option<usize>) -> (r: PluginType)
    requires
        c matches Some(k) ==> k < ns@.len(),
    ensures
        r == type_attr(node_views(ns@), opt_index(c)),
{
    match c {
        Some(k) => {
            let n = attr_or_default(ns, k, "name", "Optional");
            type_from_name(n.as_str())
        },
        None => type_from_name("Optional"),
    }
}

/// A plugin's `<typeDescriptor>`: a fixed type, or a default type with
/// conditional patterns.
pub fn parse_plugin_type(ns: &[XmlNode], p: usize) -> (r: (PluginType, Vec<(Composite, PluginType)>))
    ensures
        (r.0, r.1@.map_values(|t: (Composite, PluginType)| (composite_view(t.0), t.1))) == plugin_type_model(
            node_views(ns@),
            p as int,
        ),
{
    let ghost nv = node_views(ns@);
    let empty: Vec<(Composite, PluginType)> = Vec::new();
    assert(empty@.map_values(|t: (Composite, PluginType)| (composite_view(t.0), t.1)) =~= seq![]);
    let td = match child(ns, p, "typeDescriptor") {
        Some(td) => td,
        None => return (PluginType::Optional, empty),
    };
    if let Some(t) = child(ns, td, "type") {
        let n = attr_or_default(ns, t, "name", "Optional");
        return (type_from_name(n.as_str()), empty);
    }
    let dt = match child(ns, td, "dependencyType") {
        Some(dt) => dt,
        None => return (PluginType::Optional, empty),
    };
    let default_type = parse_type_attr(ns, child(ns, dt, "defaultType"));
    let mut patterns: Vec<(Composite, PluginType)> = Vec::new();
    match child(ns, dt, "patterns") {
        Some(ps) => {
            let pats = children_tagged(ns, ps, "pattern");
            let ghost tv = pats@.map_values(|k: usize| k as int);
            let mut j: usize = 0;
            while j < pats.len()
                invariant
                    nv == node_views(ns@),
                    tv == pats@.map_values(|k: usize| k as int),
                    tv == tagged(nv, kids(nv, ps as int), "pattern"@),
                    forall|m: int| 0 <= m < pats@.len() ==> is_child(nv, ps as int, #[trigger] pats@[m] as int),
                    j <= pats@.len(),
                    patterns@.map_values(|t: (Composite, PluginType)| (composite_view(t.0), t.1)) == tv.take(
                        j as int,
                    ).map_values(|k: int| pattern_of(nv, k)),
                decreases pats@.len() - j,
            {
                assert(tv[j as int] == pats@[j as int] as int);
                assert(is_child(nv, ps as int, pats@[j as int] as int));
                let pat = pats[j];
                let deps = parse_opt_composite(ns, child(ns, pat, "dependencies"));
                let ty = parse_type_attr(ns, child(ns, pat, "type"));
                let ghost before = patterns@.map_values(|t: (Composite, PluginType)| (composite_view(t.0), t.1));
                patterns.push((deps, ty));
                assert(patterns@.map_values(|t: (Composite, PluginType)| (composite_view(t.0), t.1)) =~= before.push(
                    pattern_of(nv, pat as int),
                ));
                assert(tv.take(j + 1).map_values(|k: int| pattern_of(nv, k)) =~= tv.take(j as int).map_values(
                    |k: int| pattern_of(nv, k),
                ).push(pattern_of(nv, pat as int)));
                j = j + 1;
            }
            assert(tv.take(j as int) =~= tv);
        },
        None => {
            assert(patterns@.map_values(|t: (Composite, PluginType)| (composite_view(t.0), t.1)) =~= seq![]);
        },
    }
    (default_type, patterns)
}

/// A `<plugin>`.
pub fn parse_plugin(ns: &[XmlNode], p: usize) -> (r: Plugin)
    requires
        p < ns@.len(),
    ensures
        plugin_view(r) == plugin_model(node_views(ns@), p as int),
{
    let ghost nv = node_views(ns@);
    proof {
        reveal_strlit("");
        assert(""@ =~= Seq::<char>::empty());
    }
    let name = attr_or_default(ns, p, "name", "");
    let d = text_or_default(ns, child(ns, p, "description"), "");
    let description = trim_str(d.as_str());
    let image = match child(ns, p, "image") {
        Some(k) => attr(ns, k, "path"),
        None => None,
    };
    let files = parse_opt_files(ns, child(ns, p, "files"));
    let mut flags: Vec<(String, String)> = Vec::new();
    match child(ns, p, "conditionFlags") {
        Some(cf) => {
            let fs = children_tagged(ns, cf, "flag");
            let ghost tv = fs@.map_values(|k: usize| k as int);
            let mut j: usize = 0;
            while j < fs.len()
                invariant
                    nv == node_views(ns@),
                    tv == fs@.map_values(|k: usize| k as int),
                    tv == tagged(nv, kids(nv, cf as int), "flag"@),
                    forall|m: int| 0 <= m < fs@.len() ==> is_child(nv, cf as int, #[trigger] fs@[m] as int),
                    j <= fs@.len(),
                    ""@ == Seq::<char>::empty(),
                    flag_views(flags@) == tv.take(j as int).map_values(|k: int| flag_of(nv, k)),
                decreases fs@.len() - j,
            {
                assert(tv[j as int] == fs@[j as int] as int);
                assert(is_child(nv, cf as int, fs@[j as int] as int));
                let f = fs[j];
                let fname = attr_or_default(ns, f, "name", "");
                let ft = text_or_default(ns, Some(f), "");
                let val = trim_str(ft.as_str());
                let ghost before = flag_views(flags@);
                flags.push((fname, val));
                assert(flag_views(flags@) =~= before.push(flag_of(nv, f as int)));
                assert(tv.take(j + 1).map_values(|k: int| flag_of(nv, k)) =~= tv.take(j as int).map_values(
                    |k: int| flag_of(nv, k),
                ).push(flag_of(nv, f as int)));
                j = j + 1;
            }
            assert(tv.take(j as int) =~= tv);
        },
        None => {
            assert(flag_views(flags@) =~= seq![]);
        },
    }
    let (default_type, type_patterns) = parse_plugin_type(ns, p);
    Plugin { name, description, image, files, flags, default_type, type_patterns }
}

/// A `<group>`.
pub fn parse_group(ns: &[XmlNode], g: usize) -> (r: Group)
    requires
        g < ns@.len(),
    ensures
        group_view(r) == group_model(node_views(ns@), g as int),
{
    let ghost nv = node_views(ns@);
    proof {
        reveal_strlit("");
        assert(""@ =~= Seq::<char>::empty());
    }
    let name = attr_or_default(ns, g, "name", "");
    let t = attr_or_default(ns, g, "type", "SelectAny");
    let kind = kind_from_name(t.as_str());
    let mut plugins: Vec<Plugin> = Vec::new();
    match child(ns, g, "plugins") {
        Some(ps) => {
            let pl = children_tagged(ns, ps, "plugin");
            let ghost tv = pl@.map_values(|k: usize| k as int);
            let mut j: usize = 0;
            while j < pl.len()
                invariant
                    nv == node_views(ns@),
                    tv == pl@.map_values(|k: usize| k as int),
                    tv == tagged(nv, kids(nv, ps as int), "plugin"@),
                    forall|m: int| 0 <= m < pl@.len() ==> is_child(nv, ps as int, #[trigger] pl@[m] as int),
                    j <= pl@.len(),
                    plugins@.map_values(|p: Plugin| plugin_view(p)) == tv.take(j as int).map_values(
                        |k: int| plugin_model(nv, k),
                    ),
                decreases pl@.len() - j,
            {
                assert(tv[j as int] == pl@[j as int] as int);
                assert(is_child(nv, ps as int, pl@[j as int] as int));
                let p = parse_plugin(ns, pl[j]);
                let ghost before = plugins@.map_values(|p: Plugin| plugin_view(p));
                plugins.push(p);
                assert(plugins@.map_values(|p: Plugin| plugin_view(p)) =~= before.push(plugin_view(p)));
                assert(tv.take(j + 1).map_values(|k: int| plugin_model(nv, k)) =~= tv.take(j as int).map_values(
                    |k: int| plugin_model(nv, k),
                ).push(plugin_model(nv, pl@[j as int] as int)));
                j = j + 1;
            }
            assert(tv.take(j as int) =~= tv);
        },
        None => {
            assert(plugins@.map_values(|p: Plugin| plugin_view(p)) =~= seq![]);
        },
    }
    Group { name, kind, plugins }
}

/// An `<installStep>`.
pub fn parse_step(ns: &[XmlNode], s: usize) -> (r: InstallStep)
    requires
        s < ns@.len(),
    ensures
        step_view(r) == step_model(node_views(ns@), s as int),
{
    let ghost nv = node_views(ns@);
    proof {
        reveal_strlit("");
        assert(""@ =~= Seq::<char>::empty());
    }
    let name = attr_or_default(ns, s, "name", "");
    let visible = match child(ns, s, "visible") {
        Some(v) => Some(parse_composite(ns, v)),
        None => None,
    };
    let mut groups: Vec<Group> = Vec::new();
    match child(ns, s, "optionalFileGroups") {
        Some(gs) => {
            let gl = children_tagged(ns, gs, "group");
            let ghost tv = gl@.map_values(|k: usize| k as int);
            let mut j: usize = 0;
            while j < gl.len()
                invariant
                    nv == node_views(ns@),
                    tv == gl@.map_values(|k: usize| k as int),
                    tv == tagged(nv, kids(nv, gs as int), "group"@),
                    forall|m: int| 0 <= m < gl@.len() ==> is_child(nv, gs as int, #[trigger] gl@[m] as int),
                    j <= gl@.len(),
                    groups@.map_values(|g: Group| group_view(g)) == tv.take(j as int).map_values(
                        |k: int| group_model(nv, k),
                    ),
                decreases gl@.len() - j,
            {
                assert(tv[j as int] == gl@[j as int] as int);
                assert(is_child(nv, gs as int, gl@[j as int] as int));
                let g = parse_group(ns, gl[j]);
                let ghost before = groups@.map_values(|g: Group| group_view(g));
                groups.push(g);
                assert(groups@.map_values(|g: Group| group_view(g)) =~= before.push(group_view(g)));
                assert(tv.take(j + 1).map_values(|k: int| group_model(nv, k)) =~= tv.take(j as int).map_values(
                    |k: int| group_model(nv, k),
                ).push(group_model(nv, gl@[j as int] as int)));
                j = j + 1;
            }
            assert(tv.take(j as int) =~= tv);
        },
        None => {
            assert(groups@.map_values(|g: Group| group_view(g)) =~= seq![]);
        },
    }
    InstallStep { name, visible, groups }
}

/// The configuration under root element `r`.
pub fn config_from_nodes(ns: &[XmlNode], r: usize) -> (c: FomodConfig)
    requires
        r < ns@.len(),
    ensures
        config_view(c) == config_model(node_views(ns@), r as int),
{
    let ghost nv = node_views(ns@);
    let mn = text_or_default(ns, child(ns, r, "moduleName"), "FOMOD");
    let module_name = trim_str(mn.as_str());
    let required = parse_opt_files(ns, child(ns, r, "requiredInstallFiles"));
    let mut steps: Vec<InstallStep> = Vec::new();
    match child(ns, r, "installSteps") {
        Some(is) => {
            let sl = children_tagged(ns, is, "installStep");
            let ghost tv = sl@.map_values(|k: usize| k as int);
            let mut j: usize = 0;
            while j < sl.len()
                invariant
                    nv == node_views(ns@),
                    tv == sl@.map_values(|k: usize| k as int),
                    tv == tagged(nv, kids(nv, is as int), "installStep"@),
                    forall|m: int| 0 <= m < sl@.len() ==> is_child(nv, is as int, #[trigger] sl@[m] as int),
                    j <= sl@.len(),
                    steps@.map_values(|s: InstallStep| step_view(s)) == tv.take(j as int).map_values(
                        |k: int| step_model(nv, k),
                    ),
                decreases sl@.len() - j,
            {
                assert(tv[j as int] == sl@[j as int] as int);
                assert(is_child(nv, is as int, sl@[j as int] as int));
                let st = parse_step(ns, sl[j]);
                let ghost before = steps@.map_values(|s: InstallStep| step_view(s));
                steps.push(st);
                assert(steps@.map_values(|s: InstallStep| step_view(s)) =~= before.push(step_view(st)));
                assert(tv.take(j + 1).map_values(|k: int| step_model(nv, k)) =~= tv.take(j as int).map_values(
                    |k: int| step_model(nv, k),
                ).push(step_model(nv, sl@[j as int] as int)));
                j = j + 1;
            }
            assert(tv.take(j as int) =~= tv);
        },
        None => {
            assert(steps@.map_values(|s: InstallStep| step_view(s)) =~= seq![]);
        },
    }
    let mut conditional: Vec<ConditionalInstall> = Vec::new();
    let mut found = false;
    if let Some(cfi) = child(ns, r, "conditionalFileInstalls") {
        if let Some(ps) = child(ns, cfi, "patterns") {
            found = true;
            let pl = children_tagged(ns, ps, "pattern");
            let ghost tv = pl@.map_values(|k: usize| k as int);
            let mut j: usize = 0;
            while j < pl.len()
                invariant
                    nv == node_views(ns@),
                    tv == pl@.map_values(|k: usize| k as int),
                    tv == tagged(nv, kids(nv, ps as int), "pattern"@),
                    forall|m: int| 0 <= m < pl@.len() ==> is_child(nv, ps as int, #[trigger] pl@[m] as int),
                    j <= pl@.len(),
                    conditional@.map_values(|x: ConditionalInstall| cond_view(x)) == tv.take(j as int).map_values(
                        |k: int| cond_model(nv, k),
                    ),
                decreases pl@.len() - j,
            {
                assert(tv[j as int] == pl@[j as int] as int);
                assert(is_child(nv, ps as int, pl@[j as int] as int));
                let pat = pl[j];
                let deps = parse_opt_composite(ns, child(ns, pat, "dependencies"));
                let files = parse_opt_files(ns, child(ns, pat, "files"));
                let ci = ConditionalInstall { deps, files };
                let ghost before = conditional@.map_values(|x: ConditionalInstall| cond_view(x));
                conditional.push(ci);
                assert(conditional@.map_values(|x: ConditionalInstall| cond_view(x)) =~= before.push(cond_view(ci)));
                assert(tv.take(j + 1).map_values(|k: int| cond_model(nv, k)) =~= tv.take(j as int).map_values(
                    |k: int| cond_model(nv, k),
                ).push(cond_model(nv, pat as int)));
                j = j + 1;
            }
            assert(tv.take(j as int) =~= tv);
        }
    }
    if !found {
        assert(conditional@.map_values(|x: ConditionalInstall| cond_view(x)) =~= seq![]);
    }
    FomodConfig { module_name, required, steps, conditional }
}

/// Reads a `ModuleConfig.xml` text. Text that is not XML is refused with
/// `fomod xml: ` and the parser's message; a document without a root
/// element (which the parser does not produce) is refused too.
pub fn parse_config(text: &str) -> (r: Result<FomodConfig, Error>)
    ensures
        match xml_nodes(text@) {
            None => r matches Err(Error::Other(m)) && m@.len() >= 11 && m@.take(11) == "fomod xml: "@,
            Some(ns) => match root_of(ns) {
                Some(root) => r matches Ok(c) && config_view(c) == config_model(ns, root),
                None => r is Err,
            },
        },
{
    let ns = match read_xml(text) {
        Ok(ns) => ns,
        Err(e) => {
            let mut m = owned("fomod xml: ");
            push_str(&mut m, e.as_str());
            proof {
                reveal_strlit("fomod xml: ");
            }
            assert(m@.take(11) =~= "fomod xml: "@);
            return Err(Error::Other(m));
        },
    };
    match root_element(ns.as_slice()) {
        Some(root) => Ok(config_from_nodes(ns.as_slice(), root)),
        None => Err(Error::Other(owned("fomod xml: no root element"))),
    }
}

impl FomodSession {
    /// A session over a `ModuleConfig.xml` text whose sources are relative
    /// to `src_root`.
    pub fn load(config_text: &str, src_root: String) -> (r: Result<FomodSession, Error>)
        ensures
            match xml_nodes(config_text@) {
                None => r is Err,
                Some(ns) => match root_of(ns) {
                    Some(root) => r matches Ok(s) && config_view(s.config) == config_model(ns, root)
                        && s.src_root == src_root,
                    None => r is Err,
                },
            },
    {
        let config = parse_config(config_text)?;
        Ok(FomodSession::new(config, src_root))
    }
}

} // verus!
