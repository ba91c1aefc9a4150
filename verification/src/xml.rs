//! XML documents as the library reads them: the `roxmltree` parser's nodes
//! in document order, each with its parent's position, and navigation over
//! that list (element children by tag, attributes, text).

use vstd::prelude::*;
use crate::text::{opt_str, owned, str_eq};

verus! {

/// One node of a parsed document, in document order. Node 0 is the
/// document itself; `parent` is the position of the parent node.
#[derive(Debug, Clone)]
pub struct XmlNode {
    pub element: bool,
    /// The local tag name (empty for a node that is not an element).
    pub tag: String,
    /// Attributes, by local name, in document order.
    pub attrs: Vec<(String, String)>,
    /// For an element, the text of its first child when that is text.
    pub text: Option<String>,
    pub parent: Option<usize>,
}

/// The content of an [`XmlNode`].
pub struct NodeView {
    pub element: bool,
    pub tag: Seq<char>,
    pub attrs: Seq<(Seq<char>, Seq<char>)>,
    pub text: Option<Seq<char>>,
    pub parent: Option<int>,
}

/// What a node holds, as text.
pub open spec fn node_view(n: XmlNode) -> NodeView {
    NodeView {
        element: n.element,
        tag: n.tag@,
        attrs: n.attrs@.map_values(|a: (String, String)| (a.0@, a.1@)),
        text: opt_str(n.text),
        parent: match n.parent {
            Some(p) => Some(p as int),
            None => None,
        },
    }
}

/// The views of a node list.
pub open spec fn node_views(ns: Seq<XmlNode>) -> Seq<NodeView> {
    ns.map_values(|n: XmlNode| node_view(n))
}

/// `roxmltree::Document::parse` of a text, as its node list; `None` when
/// the text is not well-formed XML.
pub uninterp spec fn xml_nodes(text: Seq<char>) -> Option<Seq<NodeView>>;

/// Parses XML with `roxmltree::Document::parse` and lists its nodes
/// (`Document::descendants`, which yields them in document order, node id
/// `k` at position `k`) with their tag name, attributes, text and parent
/// id. The contract names the result [`xml_nodes`] of the text; XML syntax
/// is not restated, and of a failure only the parser's message is returned,
/// with nothing stated of its wording.
#[verifier::external_body]
pub(crate) fn read_xml(text: &str) -> (r: Result<Vec<XmlNode>, String>)
    ensures
        match r {
            Ok(ns) => xml_nodes(text@) == Some(node_views(ns@)),
            Err(_) => xml_nodes(text@) is None,
        },
{
    let doc = roxmltree::Document::parse(text).map_err(|e| e.to_string())?;
    Ok(doc.descendants().map(|n| XmlNode {
        element: n.is_element(),
        tag: n.tag_name().name().to_string(),
        attrs: n.attributes().map(|a| (a.name().to_string(), a.value().to_string())).collect(),
        text: n.text().map(|t| t.to_string()),
        parent: n.parent().map(|p| p.id().get_usize()),
    }).collect())
}

/// Whether node `j` is an element child of node `i`.
pub open spec fn is_child(ns: Seq<NodeView>, i: int, j: int) -> bool {
    i < j < ns.len() && ns[j].element && ns[j].parent == Some(i)
}

/// The element children of node `i` among the nodes before `n`, in order.
pub open spec fn kids_upto(ns: Seq<NodeView>, i: int, n: int) -> Seq<int>
    decreases n,
{
    if n <= 0 {
        seq![]
    } else if is_child(ns, i, n - 1) {
        kids_upto(ns, i, n - 1).push(n - 1)
    } else {
        kids_upto(ns, i, n - 1)
    }
}

/// The element children of node `i`, in document order.
pub open spec fn kids(ns: Seq<NodeView>, i: int) -> Seq<int> {
    kids_upto(ns, i, ns.len() as int)
}

/// Those of `ks` whose tag is `tag`, in order.
pub open spec fn tagged(ns: Seq<NodeView>, ks: Seq<int>, tag: Seq<char>) -> Seq<int>
    decreases ks.len(),
{
    if ks.len() == 0 {
        seq![]
    } else if ns[ks.last()].tag == tag {
        tagged(ns, ks.drop_last(), tag).push(ks.last())
    } else {
        tagged(ns, ks.drop_last(), tag)
    }
}

/// The first element child of `i` with the tag.
pub open spec fn child_of(ns: Seq<NodeView>, i: int, tag: Seq<char>) -> Option<int> {
    let t = tagged(ns, kids(ns, i), tag);
    if t.len() > 0 {
        Some(t[0])
    } else {
        None
    }
}

/// The value of the first attribute named `name`.
pub open spec fn attr_of(ns: Seq<NodeView>, i: int, name: Seq<char>) -> Option<Seq<char>> {
    first_attr(ns[i].attrs, name, 0)
}

/// The value of the first attribute named `name` at position `k` or later.
pub open spec fn first_attr(attrs: Seq<(Seq<char>, Seq<char>)>, name: Seq<char>, k: int) -> Option<Seq<char>>
    decreases attrs.len() - k,
{
    if k < 0 || k >= attrs.len() {
        None
    } else if attrs[k].0 == name {
        Some(attrs[k].1)
    } else {
        first_attr(attrs, name, k + 1)
    }
}

/// An attribute's value, or `default` when it is absent.
pub open spec fn attr_or(ns: Seq<NodeView>, i: int, name: Seq<char>, default: Seq<char>) -> Seq<char> {
    match attr_of(ns, i, name) {
        Some(v) => v,
        None => default,
    }
}

/// The root element: the first element child of the document node.
pub open spec fn root_of(ns: Seq<NodeView>) -> Option<int> {
    let k = kids(ns, 0);
    if k.len() > 0 {
        Some(k[0])
    } else {
        None
    }
}

proof fn lemma_kids_upto(ns: Seq<NodeView>, i: int, n: int)
    requires
        0 <= n <= ns.len(),
    ensures
        forall|k: int| 0 <= k < kids_upto(ns, i, n).len() ==> is_child(ns, i, #[trigger] kids_upto(ns, i, n)[k]) && kids_upto(ns, i, n)[k] < n,
    decreases n,
{
    if n > 0 {
        lemma_kids_upto(ns, i, n - 1);
        let prev = kids_upto(ns, i, n - 1);
        assert forall|k: int| 0 <= k < kids_upto(ns, i, n).len() implies is_child(ns, i, #[trigger] kids_upto(ns, i, n)[k]) && kids_upto(ns, i, n)[k] < n by {
            if k < prev.len() {
                assert(kids_upto(ns, i, n)[k] == prev[k]);
            }
        }
    }
}

/// The element children are children of `i`, after it.
pub proof fn lemma_kids(ns: Seq<NodeView>, i: int)
    ensures
        forall|k: int| 0 <= k < kids(ns, i).len() ==> is_child(ns, i, #[trigger] kids(ns, i)[k]),
{
    lemma_kids_upto(ns, i, ns.len() as int);
}

/// Tagged children are among the given ones.
pub proof fn lemma_tagged(ns: Seq<NodeView>, ks: Seq<int>, tag: Seq<char>)
    ensures
        forall|k: int| 0 <= k < tagged(ns, ks, tag).len() ==> ks.contains(#[trigger] tagged(ns, ks, tag)[k]),
    decreases ks.len(),
{
    if ks.len() > 0 {
        lemma_tagged(ns, ks.drop_last(), tag);
        assert forall|k: int| 0 <= k < tagged(ns, ks, tag).len() implies ks.contains(#[trigger] tagged(ns, ks, tag)[k]) by {
            if k < tagged(ns, ks.drop_last(), tag).len() {
                let x = tagged(ns, ks.drop_last(), tag)[k];
                assert(ks.drop_last().contains(x));
                let w = choose|w: int| 0 <= w < ks.drop_last().len() && ks.drop_last()[w] == x;
                assert(ks[w] == x);
            } else {
                assert(ks[ks.len() - 1] == ks.last());
            }
        }
    }
}

/// The element children of node `i`, in document order.
pub fn children(ns: &[XmlNode], i: usize) -> (r: Vec<usize>)
    ensures
        r@.map_values(|k: usize| k as int) == kids(node_views(ns@), i as int),
{
    let ghost nv = node_views(ns@);
    let mut out: Vec<usize> = Vec::new();
    let mut j: usize = 0;
    while j < ns.len()
        invariant
            nv == node_views(ns@),
            j <= ns@.len(),
            out@.map_values(|k: usize| k as int) == kids_upto(nv, i as int, j as int),
        decreases ns@.len() - j,
    {
        assert(nv[j as int] == node_view(ns@[j as int]));
        let is_kid = i < j && ns[j].element && match ns[j].parent {
            Some(p) => p == i,
            None => false,
        };
        if is_kid {
            let ghost before = out@.map_values(|k: usize| k as int);
            out.push(j);
            assert(out@.map_values(|k: usize| k as int) =~= before.push(j as int));
        }
        j = j + 1;
    }
    out
}

/// Those of `ks` whose tag is `tag`, in order.
pub fn with_tag(ns: &[XmlNode], ks: &[usize], tag: &str) -> (r: Vec<usize>)
    requires
        forall|k: int| 0 <= k < ks@.len() ==> ks@[k] < ns@.len(),
    ensures
        r@.map_values(|k: usize| k as int) == tagged(node_views(ns@), ks@.map_values(|k: usize| k as int), tag@),
{
    let ghost nv = node_views(ns@);
    let ghost kv = ks@.map_values(|k: usize| k as int);
    let mut out: Vec<usize> = Vec::new();
    let mut j: usize = 0;
    while j < ks.len()
        invariant
            nv == node_views(ns@),
            kv == ks@.map_values(|k: usize| k as int),
            forall|k: int| 0 <= k < ks@.len() ==> ks@[k] < ns@.len(),
            j <= ks@.len(),
            out@.map_values(|k: usize| k as int) == tagged(nv, kv.take(j as int), tag@),
        decreases ks@.len() - j,
    {
        assert(kv.take(j + 1).drop_last() =~= kv.take(j as int));
        assert(kv.take(j + 1).last() == ks@[j as int] as int);
        assert(nv[ks@[j as int] as int] == node_view(ns@[ks@[j as int] as int]));
        if str_eq(ns[ks[j]].tag.as_str(), tag) {
            let ghost before = out@.map_values(|k: usize| k as int);
            out.push(ks[j]);
            assert(out@.map_values(|k: usize| k as int) =~= before.push(ks@[j as int] as int));
        }
        j = j + 1;
    }
    assert(kv.take(j as int) =~= kv);
    out
}

/// The element children of `i` with the tag, in order.
pub fn children_tagged(ns: &[XmlNode], i: usize, tag: &str) -> (r: Vec<usize>)
    ensures
        r@.map_values(|k: usize| k as int) == tagged(node_views(ns@), kids(node_views(ns@), i as int), tag@),
        forall|k: int| 0 <= k < r@.len() ==> is_child(node_views(ns@), i as int, #[trigger] r@[k] as int),
{
    let ks = children(ns, i);
    proof {
        lemma_kids(node_views(ns@), i as int);
        assert forall|k: int| 0 <= k < ks@.len() implies ks@[k] < ns@.len() by {
            assert(ks@.map_values(|k: usize| k as int)[k] == ks@[k] as int);
        }
    }
    let r = with_tag(ns, ks.as_slice(), tag);
    proof {
        let nv = node_views(ns@);
        let kv = kids(nv, i as int);
        lemma_tagged(nv, kv, tag@);
        assert forall|k: int| 0 <= k < r@.len() implies is_child(nv, i as int, #[trigger] r@[k] as int) by {
            assert(r@.map_values(|k: usize| k as int)[k] == r@[k] as int);
            let w = choose|w: int| 0 <= w < kv.len() && kv[w] == r@[k] as int;
        }
    }
    r
}

/// The first element child of `i` with the tag.
pub fn child(ns: &[XmlNode], i: usize, tag: &str) -> (r: Option<usize>)
    ensures
        match r {
            Some(c) => child_of(node_views(ns@), i as int, tag@) == Some(c as int) && is_child(
                node_views(ns@),
                i as int,
                c as int,
            ),
            None => child_of(node_views(ns@), i as int, tag@) is None,
        },
{
    let t = children_tagged(ns, i, tag);
    if t.len() > 0 {
        assert(t@.map_values(|k: usize| k as int)[0] == t@[0] as int);
        Some(t[0])
    } else {
        None
    }
}

/// The value of the first attribute named `name` of node `i`.
pub fn attr(ns: &[XmlNode], i: usize, name: &str) -> (r: Option<String>)
    requires
        i < ns@.len(),
    ensures
        opt_str(r) == attr_of(node_views(ns@), i as int, name@),
{
    let ghost av = node_views(ns@)[i as int].attrs;
    let attrs = &ns[i].attrs;
    assert(av == attrs@.map_values(|a: (String, String)| (a.0@, a.1@)));
    let mut k: usize = 0;
    while k < attrs.len()
        invariant
            av == attrs@.map_values(|a: (String, String)| (a.0@, a.1@)),
            av == node_views(ns@)[i as int].attrs,
            k <= attrs@.len(),
            first_attr(av, name@, 0) == first_attr(av, name@, k as int),
        decreases attrs@.len() - k,
    {
        assert(av[k as int] == (attrs@[k as int].0@, attrs@[k as int].1@));
        if str_eq(attrs[k].0.as_str(), name) {
            return Some(owned(attrs[k].1.as_str()));
        }
        k = k + 1;
    }
    None
}

/// An attribute's value, or `default` when it is absent.
pub fn attr_or_default(ns: &[XmlNode], i: usize, name: &str, default: &str) -> (r: String)
    requires
        i < ns@.len(),
    ensures
        r@ == attr_or(node_views(ns@), i as int, name@, default@),
{
    match attr(ns, i, name) {
        Some(v) => v,
        None => owned(default),
    }
}

/// The text of node `i`.
pub fn text(ns: &[XmlNode], i: usize) -> (r: Option<String>)
    requires
        i < ns@.len(),
    ensures
        opt_str(r) == node_views(ns@)[i as int].text,
{
    match &ns[i].text {
        Some(t) => Some(owned(t.as_str())),
        None => None,
    }
}

/// The root element.
pub fn root_element(ns: &[XmlNode]) -> (r: Option<usize>)
    ensures
        match r {
            Some(c) => root_of(node_views(ns@)) == Some(c as int) && c < ns@.len(),
            None => root_of(node_views(ns@)) is None,
        },
{
    let k = children(ns, 0);
    proof {
        lemma_kids(node_views(ns@), 0);
    }
    if k.len() > 0 {
        assert(k@.map_values(|x: usize| x as int)[0] == k@[0] as int);
        Some(k[0])
    } else {
        None
    }
}

} // verus!
