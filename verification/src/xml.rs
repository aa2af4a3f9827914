//! XML documents as lists of nodes.

use vstd::prelude::*;

use crate::text::{self, str_eq, str_trim};

verus! {

/// An attribute of an element.
#[derive(Debug)]
pub struct XmlAttribute {
    /// Whether the name belongs to a namespace.
    pub qualified: bool,
    pub name: String,
    pub value: String,
}

/// A node of a document.
#[derive(Debug)]
pub struct XmlNode {
    /// The position of the node that holds this one.
    pub parent: Option<usize>,
    pub is_element: bool,
    /// The name of an element without its namespace.
    pub name: String,
    /// The text of a text, or that an element begins with.
    pub text: Option<String>,
    pub attributes: Vec<XmlAttribute>,
}

/// An attribute of an element.
pub struct AttributeView {
    pub qualified: bool,
    pub name: Seq<char>,
    pub value: Seq<char>,
}

/// A node of a document.
pub struct XmlView {
    pub parent: Option<usize>,
    pub is_element: bool,
    pub name: Seq<char>,
    pub text: Option<Seq<char>>,
    pub attributes: Seq<AttributeView>,
}

impl View for XmlAttribute {
    type V = AttributeView;

    open spec fn view(&self) -> AttributeView {
        AttributeView { qualified: self.qualified, name: self.name@, value: self.value@ }
    }
}

/// Attributes of an element.
pub open spec fn attribute_views(v: Seq<XmlAttribute>) -> Seq<AttributeView> {
    v.map_values(|a: XmlAttribute| a@)
}

impl View for XmlNode {
    type V = XmlView;

    open spec fn view(&self) -> XmlView {
        XmlView {
            parent: self.parent,
            is_element: self.is_element,
            name: self.name@,
            text: text::opt_text(self.text),
            attributes: attribute_views(self.attributes@),
        }
    }
}

/// The nodes of a document.
pub open spec fn node_views(v: Seq<XmlNode>) -> Seq<XmlView> {
    v.map_values(|n: XmlNode| n@)
}

/// Nodes, or why there are none.
pub open spec fn nodes_result(r: Result<Vec<XmlNode>, String>) -> Result<Seq<XmlView>, Seq<char>> {
    match r {
        Ok(v) => Ok(node_views(v@)),
        Err(e) => Err(e@),
    }
}

/// The nodes of the document that a text is, in the order in which they stand in it, or
/// why the text is none.
pub uninterp spec fn xml_nodes(text: Seq<char>) -> Result<Seq<XmlView>, Seq<char>>;

/// `roxmltree::Document::parse` and `Document::descendants`: the nodes of a document, or
/// the text of the error, are a function of its text.
#[verifier::external_body]
pub(crate) fn read_xml(text: &str) -> (r: Result<Vec<XmlNode>, String>)
    ensures
        nodes_result(r) == xml_nodes(text@),
{
    let doc = roxmltree::Document::parse(text).map_err(|e| e.to_string())?;
    Ok(doc.descendants().map(|n| XmlNode {
        parent: n.parent().map(|p| p.id().get_usize()),
        is_element: n.is_element(),
        name: String::from(n.tag_name().name()),
        text: n.text().map(String::from),
        attributes: n.attributes().map(|a| XmlAttribute {
            qualified: a.namespace().is_some(),
            name: String::from(a.name()),
            value: String::from(a.value()),
        }).collect(),
    }).collect())
}

/// The first node from `from` on that is an element of a name within a node.
pub open spec fn child_from(ns: Seq<XmlView>, parent: int, name: Seq<char>, from: int) -> Option<int>
    decreases ns.len() - from,
{
    if from < 0 || from >= ns.len() {
        None
    } else if is_child(ns[from], parent, name) {
        Some(from)
    } else {
        child_from(ns, parent, name, from + 1)
    }
}

/// A node is an element of a name within a node.
pub open spec fn is_child(n: XmlView, parent: int, name: Seq<char>) -> bool {
    n.is_element && n.name == name && n.parent is Some && n.parent->0 == parent
}

/// The text of the first element of a name within a node.
pub open spec fn child_text(ns: Seq<XmlView>, parent: int, name: Seq<char>) -> Option<Seq<char>> {
    match child_from(ns, parent, name, 0) {
        Some(k) => match ns[k].text {
            Some(t) => Some(text::trim(t)),
            None => None,
        },
        None => None,
    }
}

/// The value of an attribute.
pub open spec fn attribute_value(v: Seq<AttributeView>, name: Seq<char>) -> Option<Seq<char>>
    decreases v.len(),
{
    if v.len() == 0 {
        None
    } else if !v[0].qualified && v[0].name == name {
        Some(v[0].value)
    } else {
        attribute_value(v.skip(1), name)
    }
}

/// The position of the first element of a name within a node.
pub fn find_child(nodes: &Vec<XmlNode>, parent: usize, name: &str, from: usize) -> (r: Option<usize>)
    requires
        from <= nodes@.len(),
    ensures
        match r {
            Some(k) => child_from(node_views(nodes@), parent as int, name@, from as int) == Some(
                k as int,
            ) && from <= k < nodes@.len(),
            None => child_from(node_views(nodes@), parent as int, name@, from as int) is None,
        },
{
    let ghost ns = node_views(nodes@);
    let mut i: usize = from;
    while i < nodes.len()
        invariant
            ns == node_views(nodes@),
            from <= i <= nodes@.len(),
            child_from(ns, parent as int, name@, from as int) == child_from(
                ns,
                parent as int,
                name@,
                i as int,
            ),
        decreases nodes@.len() - i,
    {
        assert(ns[i as int] == nodes@[i as int]@);
        let within = match nodes[i].parent {
            Some(p) => p == parent,
            None => false,
        };
        if within && nodes[i].is_element && str_eq(nodes[i].name.as_str(), name) {
            return Some(i);
        }
        i = i + 1;
    }
    None
}

/// The text of the first element of a name within a node.
pub fn read_child_text(nodes: &Vec<XmlNode>, parent: usize, name: &str) -> (r: Option<String>)
    ensures
        text::opt_text(r) == child_text(node_views(nodes@), parent as int, name@),
{
    match find_child(nodes, parent, name, 0) {
        Some(k) => {
            assert(node_views(nodes@)[k as int] == nodes@[k as int]@);
            match &nodes[k].text {
                Some(t) => Some(str_trim(t.as_str())),
                None => None,
            }
        },
        None => None,
    }
}

/// The value of an attribute.
pub fn read_attribute(attributes: &Vec<XmlAttribute>, name: &str) -> (r: Option<String>)
    ensures
        text::opt_text(r) == attribute_value(attribute_views(attributes@), name@),
{
    let ghost all = attribute_views(attributes@);
    assert(all.skip(0) =~= all);
    for i in 0..attributes.len()
        invariant
            all == attribute_views(attributes@),
            attribute_value(all, name@) == attribute_value(all.skip(i as int), name@),
    {
        let a = &attributes[i];
        assert(all.skip(i as int)[0] == a@);
        assert(all.skip(i as int).skip(1) =~= all.skip(i + 1));
        if !a.qualified && str_eq(a.name.as_str(), name) {
            return Some(a.value.clone());
        }
    }
    None
}

} // verus!
