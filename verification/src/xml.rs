//! XML documents as `roxmltree` reads them, laid out flat: every node in
//! document order, each with the size of the subtree it heads, so that a
//! node's descendants are the nodes that follow it within that size.
use vstd::prelude::*;

use crate::text::{push_str, str_eq};

verus! {

/// One node of a parsed document: whether it is an element or a text node,
/// the element's local name, its attributes (local name, value) in order,
/// its text (a text node's own, an element's first child's when that child
/// is text), and how many nodes its subtree holds, itself included.
#[derive(Debug, Clone)]
pub struct XmlNode {
    pub element: bool,
    pub text_node: bool,
    pub name: String,
    pub attributes: Vec<(String, String)>,
    pub text: Option<String>,
    pub size: usize,
}

pub type XmlNodeView = (bool, bool, Seq<char>, Seq<(Seq<char>, Seq<char>)>, Option<Seq<char>>, nat);

pub open spec fn attribute_views(a: Seq<(String, String)>) -> Seq<(Seq<char>, Seq<char>)> {
    a.map_values(|p: (String, String)| (p.0@, p.1@))
}

pub open spec fn node_view(n: XmlNode) -> XmlNodeView {
    (
        n.element,
        n.text_node,
        n.name@,
        attribute_views(n.attributes@),
        match n.text {
            Some(t) => Some(t@),
            None => None,
        },
        n.size as nat,
    )
}

pub open spec fn node_views(ns: Seq<XmlNode>) -> Seq<XmlNodeView> {
    ns.map_values(|n: XmlNode| node_view(n))
}

pub open spec fn parse_view(r: Result<Vec<XmlNode>, String>) -> Result<Seq<XmlNodeView>, Seq<char>> {
    match r {
        Ok(ns) => Ok(node_views(ns@)),
        Err(e) => Err(e@),
    }
}

/// What `roxmltree::Document::parse` makes of a text: its nodes in document
/// order, or the parser's error message.
pub uninterp spec fn xml_document(text: Seq<char>) -> Result<Seq<XmlNodeView>, Seq<char>>;

/// The subtrees of a flat node list nest: the first node (the root) spans
/// them all, each node spans itself and lies within the span of every node
/// whose span it starts in.
pub open spec fn well_nested(ns: Seq<XmlNodeView>) -> bool {
    &&& ns.len() >= 1
    &&& ns[0].5 == ns.len()
    &&& forall|k: int| 0 <= k < ns.len() ==> 1 <= (#[trigger] ns[k]).5 && k + ns[k].5 <= ns.len()
    &&& forall|k: int, j: int| 0 <= k < j < k + ns[k].5 && j < ns.len() ==> j + (#[trigger] ns[j]).5 <= k + (
    #[trigger] ns[k]).5
}

/// `roxmltree::Document::parse` on a text, its nodes (from
/// `Document::descendants`) copied out. The result is named `xml_document`;
/// the source shows that the root comes first and spans the document, and
/// that a node's descendants are the nodes after it up to its subtree's end.
#[verifier::external_body]
pub(crate) fn parse_xml(text: &str) -> (r: Result<Vec<XmlNode>, String>)
    ensures
        parse_view(r) == xml_document(text@),
        r matches Ok(ns) ==> well_nested(node_views(ns@)),
{
    match roxmltree::Document::parse(text) {
        Ok(doc) => Ok(doc.descendants().map(|n| XmlNode {
            element: n.is_element(),
            text_node: n.is_text(),
            name: n.tag_name().name().to_string(),
            attributes: n.attributes().map(|a| (a.name().to_string(), a.value().to_string())).collect(),
            text: n.text().map(|t| t.to_string()),
            size: n.descendants().count(),
        }).collect()),
        Err(e) => Err(e.to_string()),
    }
}

/// The value of the first attribute of a local name (`Node::attribute`).
pub open spec fn attribute_of(attrs: Seq<(Seq<char>, Seq<char>)>, name: Seq<char>) -> Option<Seq<char>>
    decreases attrs.len(),
{
    if attrs.len() == 0 {
        None
    } else if attrs[0].0 == name {
        Some(attrs[0].1)
    } else {
        attribute_of(attrs.drop_first(), name)
    }
}

pub fn attribute(n: &XmlNode, name: &str) -> (r: Option<String>)
    ensures
        match r {
            Some(v) => attribute_of(attribute_views(n.attributes@), name@) == Some(v@),
            None => attribute_of(attribute_views(n.attributes@), name@) is None,
        },
{
    let ghost a = attribute_views(n.attributes@);
    let mut i: usize = 0;
    assert(a.skip(0) =~= a);
    while i < n.attributes.len()
        invariant
            i <= n.attributes.len(),
            a == attribute_views(n.attributes@),
            attribute_of(a, name@) == attribute_of(a.skip(i as int), name@),
        decreases n.attributes.len() - i,
    {
        assert(a.skip(i as int)[0] == a[i as int]);
        assert(a.skip(i as int).drop_first() =~= a.skip(i + 1));
        if str_eq(n.attributes[i].0.as_str(), name) {
            return Some(n.attributes[i].1.clone());
        }
        i += 1;
    }
    None
}

/// The text of the text nodes among `ns[from..to]`, in order.
pub open spec fn texts_between(ns: Seq<XmlNodeView>, from: int, to: int) -> Seq<char>
    decreases to - from,
{
    if to <= from {
        Seq::empty()
    } else {
        texts_between(ns, from, to - 1) + if ns[to - 1].1 {
            match ns[to - 1].4 {
                Some(t) => t,
                None => Seq::empty(),
            }
        } else {
            Seq::empty()
        }
    }
}

/// The text of all the text nodes within a node's subtree, in order.
pub open spec fn subtree_text(ns: Seq<XmlNodeView>, k: int) -> Seq<char> {
    texts_between(ns, k, k + ns[k].5)
}

pub fn collect_subtree_text(ns: &Vec<XmlNode>, k: usize) -> (r: String)
    requires
        k < ns.len(),
        k + ns[k as int].size <= ns.len(),
    ensures
        r@ == subtree_text(node_views(ns@), k as int),
{
    let ghost v = node_views(ns@);
    let end = k + ns[k].size;
    let mut r = String::new();
    let mut j = k;
    while j < end
        invariant
            k <= j <= end <= ns.len(),
            end == k + v[k as int].5,
            v == node_views(ns@),
            r@ == texts_between(v, k as int, j as int),
        decreases end - j,
    {
        assert(v[j as int] == node_view(ns@[j as int]));
        if ns[j].text_node {
            match &ns[j].text {
                Some(t) => push_str(&mut r, t.as_str()),
                None => {},
            }
        }
        j += 1;
    }
    r
}

/// The number of nodes strictly above `k` whose local element name is
/// `name`.
pub open spec fn ancestors_named(ns: Seq<XmlNodeView>, k: int, name: Seq<char>, below: int) -> nat
    decreases below,
{
    if below <= 0 {
        0
    } else {
        let j = below - 1;
        ancestors_named(ns, k, name, j) + if j < k < j + ns[j].5 && ns[j].0 && ns[j].2 == name {
            1nat
        } else {
            0nat
        }
    }
}

pub fn count_ancestors_named(ns: &Vec<XmlNode>, k: usize, name: &str) -> (r: usize)
    requires
        k < ns.len(),
    ensures
        r == ancestors_named(node_views(ns@), k as int, name@, k as int),
{
    let ghost v = node_views(ns@);
    let mut c: usize = 0;
    let mut j: usize = 0;
    while j < k
        invariant
            j <= k < ns.len(),
            v == node_views(ns@),
            c == ancestors_named(v, k as int, name@, j as int),
            c <= j,
        decreases k - j,
    {
        assert(v[j as int] == node_view(ns@[j as int]));
        if j < k && k - j < ns[j].size && ns[j].element && str_eq(ns[j].name.as_str(), name) {
            c += 1;
        }
        j += 1;
    }
    c
}

} // verus!
