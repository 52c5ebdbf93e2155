//! The document tree that feeds are rewritten on, with the reads the
//! rewriting needs. Parsing and emitting go through the `xmltree` crate.
use vstd::prelude::*;
use crate::text::{push_str, str_eq};

verus! {

/// One node of a document tree.
#[derive(Debug)]
pub enum XmlNode {
    Element(XmlElement),
    Comment(String),
    CData(String),
    Text(String),
    ProcessingInstruction(String, Option<String>),
}

/// An element: its qualified name, the namespaces in scope where it is
/// declared, its attributes in document order, and its children.
#[derive(Debug)]
pub struct XmlElement {
    pub prefix: Option<String>,
    pub namespace: Option<String>,
    pub namespaces: Option<Vec<(String, String)>>,
    pub name: String,
    pub attributes: Vec<(String, String)>,
    pub children: Vec<XmlNode>,
}

/// The mathematical value of a node.
pub enum NodeV {
    Element(ElementV),
    Comment(Seq<char>),
    CData(Seq<char>),
    Text(Seq<char>),
    ProcessingInstruction(Seq<char>, Option<Seq<char>>),
}

/// The mathematical value of an element.
pub struct ElementV {
    pub prefix: Option<Seq<char>>,
    pub namespace: Option<Seq<char>>,
    pub namespaces: Option<Seq<(Seq<char>, Seq<char>)>>,
    pub name: Seq<char>,
    pub attributes: Seq<(Seq<char>, Seq<char>)>,
    pub children: Seq<NodeV>,
}

pub open spec fn opt_str_view(o: Option<String>) -> Option<Seq<char>> {
    match o {
        Some(s) => Some(s@),
        None => None,
    }
}

pub open spec fn pairs_view(v: Seq<(String, String)>) -> Seq<(Seq<char>, Seq<char>)> {
    Seq::new(v.len(), |i: int| (v[i].0@, v[i].1@))
}

pub open spec fn opt_pairs_view(o: Option<Vec<(String, String)>>) -> Option<Seq<(Seq<char>, Seq<char>)>> {
    match o {
        Some(v) => Some(pairs_view(v@)),
        None => None,
    }
}

/// The value of a node.
pub open spec fn node_view(n: XmlNode) -> NodeV
    decreases n,
{
    match n {
        XmlNode::Element(e) => NodeV::Element(element_view(e)),
        XmlNode::Comment(t) => NodeV::Comment(t@),
        XmlNode::CData(t) => NodeV::CData(t@),
        XmlNode::Text(t) => NodeV::Text(t@),
        XmlNode::ProcessingInstruction(t, d) => NodeV::ProcessingInstruction(t@, opt_str_view(d)),
    }
}

/// The values of a sequence of nodes.
pub open spec fn nodes_view(s: Seq<XmlNode>) -> Seq<NodeV>
    decreases s,
{
    if s.len() == 0 {
        Seq::empty()
    } else {
        nodes_view(s.subrange(0, s.len() - 1)).push(node_view(s[s.len() - 1]))
    }
}

/// The value of an element.
pub open spec fn element_view(e: XmlElement) -> ElementV
    decreases e,
{
    ElementV {
        prefix: opt_str_view(e.prefix),
        namespace: opt_str_view(e.namespace),
        namespaces: opt_pairs_view(e.namespaces),
        name: e.name@,
        attributes: pairs_view(e.attributes@),
        children: nodes_view(e.children@),
    }
}

/// `nodes_view` maps each node to its value.
pub proof fn lemma_nodes_view(s: Seq<XmlNode>)
    ensures
        nodes_view(s).len() == s.len(),
        forall|i: int| 0 <= i < s.len() ==> #[trigger] nodes_view(s)[i] == node_view(s[i]),
    decreases s.len(),
{
    if s.len() > 0 {
        lemma_nodes_view(s.subrange(0, s.len() - 1));
        assert forall|i: int| 0 <= i < s.len() implies #[trigger] nodes_view(s)[i] == node_view(s[i]) by {
            if i < s.len() - 1 {
                assert(s.subrange(0, s.len() - 1)[i] == s[i]);
            }
        }
    }
}

/// The values of two sequences of nodes joined are the values of each.
pub proof fn lemma_nodes_view_push(s: Seq<XmlNode>, n: XmlNode)
    ensures
        nodes_view(s.push(n)) == nodes_view(s).push(node_view(n)),
{
    assert(s.push(n).subrange(0, s.len() as int) =~= s);
}

/// The index of the first child element at or after `i` whose local name is
/// `name`.
pub open spec fn child_index_from(children: Seq<NodeV>, name: Seq<char>, i: int) -> Option<int>
    decreases children.len() - i,
{
    if i < 0 || i >= children.len() {
        None
    } else if children[i] matches NodeV::Element(e) && e.name == name {
        Some(i)
    } else {
        child_index_from(children, name, i + 1)
    }
}

/// The first child element of `e` whose local name is `name`.
pub open spec fn child_named(e: ElementV, name: Seq<char>) -> Option<ElementV> {
    match child_index_from(e.children, name, 0) {
        Some(i) => Some(e.children[i]->Element_0),
        None => None,
    }
}

/// The character data a node holds, if it is text or a CDATA section.
pub open spec fn node_text(n: NodeV) -> Seq<char> {
    match n {
        NodeV::Text(t) => t,
        NodeV::CData(t) => t,
        _ => Seq::empty(),
    }
}

pub open spec fn is_text_node(n: NodeV) -> bool {
    n is Text || n is CData
}

/// The character data of `children[i..]`, joined.
pub open spec fn text_from(children: Seq<NodeV>, i: int) -> Seq<char>
    decreases children.len() - i,
{
    if i < 0 || i >= children.len() {
        Seq::empty()
    } else {
        node_text(children[i]) + text_from(children, i + 1)
    }
}

/// The text of an element: the character data of its direct children,
/// joined, or `None` where it has none.
pub open spec fn text_of(e: ElementV) -> Option<Seq<char>> {
    if exists|k: int| 0 <= k < e.children.len() && is_text_node(#[trigger] e.children[k]) {
        Some(text_from(e.children, 0))
    } else {
        None
    }
}

/// The index of the first attribute at or after `i` named `key`.
pub open spec fn attribute_index_from(attributes: Seq<(Seq<char>, Seq<char>)>, key: Seq<char>, i: int) -> Option<int>
    decreases attributes.len() - i,
{
    if i < 0 || i >= attributes.len() {
        None
    } else if attributes[i].0 == key {
        Some(i)
    } else {
        attribute_index_from(attributes, key, i + 1)
    }
}

/// The value of the attribute `key` of `e`.
pub open spec fn attribute_of(e: ElementV, key: Seq<char>) -> Option<Seq<char>> {
    match attribute_index_from(e.attributes, key, 0) {
        Some(i) => Some(e.attributes[i].1),
        None => None,
    }
}

impl XmlElement {
    /// The first child element whose local name is `name`.
    pub fn get_child(&self, name: &str) -> (r: Option<&XmlElement>)
        ensures
            r matches Some(c) ==> child_named(element_view(*self), name@) == Some(element_view(*c)),
            r is None ==> child_named(element_view(*self), name@) is None,
    {
        let ghost kids = element_view(*self).children;
        proof {
            lemma_nodes_view(self.children@);
        }
        let mut i: usize = 0;
        while i < self.children.len()
            invariant
                i <= self.children@.len(),
                kids == nodes_view(self.children@),
                kids.len() == self.children@.len(),
                forall|j: int| 0 <= j < self.children@.len() ==> #[trigger] kids[j] == node_view(self.children@[j]),
                child_index_from(kids, name@, 0) == child_index_from(kids, name@, i as int),
            decreases self.children@.len() - i,
        {
            assert(kids[i as int] == node_view(self.children@[i as int]));
            match &self.children[i] {
                XmlNode::Element(e) => {
                    if str_eq(e.name.as_str(), name) {
                        return Some(e);
                    }
                },
                _ => {},
            }
            i = i + 1;
        }
        None
    }

    /// The character data of the direct children, joined; `None` where there
    /// is none.
    pub fn get_text(&self) -> (r: Option<String>)
        ensures
            r matches Some(t) ==> text_of(element_view(*self)) == Some(t@),
            r is None ==> text_of(element_view(*self)) is None,
    {
        let ghost kids = element_view(*self).children;
        proof {
            lemma_nodes_view(self.children@);
        }
        let mut text = String::new();
        let mut found = false;
        let mut i: usize = self.children.len();
        while i > 0
            invariant
                i <= self.children@.len(),
                kids == nodes_view(self.children@),
                kids.len() == self.children@.len(),
                forall|j: int| 0 <= j < self.children@.len() ==> #[trigger] kids[j] == node_view(self.children@[j]),
                text@ == text_from(kids, i as int),
                found <==> exists|k: int| i <= k < kids.len() && is_text_node(#[trigger] kids[k]),
            decreases i,
        {
            i = i - 1;
            assert(kids[i as int] == node_view(self.children@[i as int]));
            let piece: Option<&String> = match &self.children[i] {
                XmlNode::Text(t) => Some(t),
                XmlNode::CData(t) => Some(t),
                _ => None,
            };
            let mut joined = String::new();
            match piece {
                Some(t) => {
                    push_str(&mut joined, t.as_str());
                    found = true;
                },
                None => {},
            }
            push_str(&mut joined, text.as_str());
            assert(joined@ =~= node_text(kids[i as int]) + text_from(kids, i + 1));
            text = joined;
        }
        if found {
            Some(text)
        } else {
            None
        }
    }

    /// The value of the attribute `key`.
    pub fn get_attribute(&self, key: &str) -> (r: Option<&String>)
        ensures
            r matches Some(v) ==> attribute_of(element_view(*self), key@) == Some(v@),
            r is None ==> attribute_of(element_view(*self), key@) is None,
    {
        let ghost attrs = element_view(*self).attributes;
        let mut i: usize = 0;
        while i < self.attributes.len()
            invariant
                i <= self.attributes@.len(),
                attrs == pairs_view(self.attributes@),
                attribute_index_from(attrs, key@, 0) == attribute_index_from(attrs, key@, i as int),
            decreases self.attributes@.len() - i,
        {
            if str_eq(self.attributes[i].0.as_str(), key) {
                return Some(&self.attributes[i].1);
            }
            i = i + 1;
        }
        None
    }
}

pub(crate) fn copy_string_opt(o: &Option<String>) -> (r: Option<String>)
    ensures
        opt_str_view(r) == opt_str_view(*o),
{
    match o {
        Some(s) => Some(s.clone()),
        None => None,
    }
}

pub(crate) fn copy_pairs(v: &Vec<(String, String)>) -> (r: Vec<(String, String)>)
    ensures
        pairs_view(r@) == pairs_view(v@),
{
    let mut r: Vec<(String, String)> = Vec::new();
    let mut i: usize = 0;
    while i < v.len()
        invariant
            i <= v@.len(),
            r@.len() == i,
            forall|j: int| 0 <= j < i ==> #[trigger] r@[j].0@ == v@[j].0@ && r@[j].1@ == v@[j].1@,
        decreases v@.len() - i,
    {
        r.push((v[i].0.clone(), v[i].1.clone()));
        i = i + 1;
    }
    assert(pairs_view(r@) =~= pairs_view(v@));
    r
}

/// A copy of a sequence of nodes, equal in value.
pub fn copy_nodes(v: &Vec<XmlNode>) -> (r: Vec<XmlNode>)
    ensures
        nodes_view(r@) == nodes_view(v@),
    decreases v,
{
    let mut r: Vec<XmlNode> = Vec::new();
    let mut i: usize = 0;
    while i < v.len()
        invariant
            i <= v@.len(),
            nodes_view(r@) == nodes_view(v@.subrange(0, i as int)),
        decreases v@.len() - i,
    {
        proof {
            vstd::std_specs::vec::axiom_vec_index_decreases(*v, i as int);
        }
        let n = v[i].copy();
        proof {
            lemma_nodes_view_push(r@, n);
            lemma_nodes_view_push(v@.subrange(0, i as int), v@[i as int]);
            assert(v@.subrange(0, i as int).push(v@[i as int]) =~= v@.subrange(0, i + 1));
        }
        r.push(n);
        i = i + 1;
    }
    assert(v@.subrange(0, v@.len() as int) =~= v@);
    r
}

impl XmlNode {
    /// A copy of this node, equal in value.
    pub fn copy(&self) -> (r: XmlNode)
        ensures
            node_view(r) == node_view(*self),
        decreases self,
    {
        match self {
            XmlNode::Element(e) => XmlNode::Element(e.copy()),
            XmlNode::Comment(t) => XmlNode::Comment(t.clone()),
            XmlNode::CData(t) => XmlNode::CData(t.clone()),
            XmlNode::Text(t) => XmlNode::Text(t.clone()),
            XmlNode::ProcessingInstruction(t, d) => XmlNode::ProcessingInstruction(t.clone(), copy_string_opt(d)),
        }
    }
}

/// `e` with its children replaced by `children`.
pub open spec fn with_children(e: ElementV, children: Seq<NodeV>) -> ElementV {
    ElementV {
        prefix: e.prefix,
        namespace: e.namespace,
        namespaces: e.namespaces,
        name: e.name,
        attributes: e.attributes,
        children,
    }
}

impl XmlElement {
    /// A copy of this element with `children` in place of its own.
    pub fn with_children(&self, children: Vec<XmlNode>) -> (r: XmlElement)
        ensures
            element_view(r) == with_children(element_view(*self), nodes_view(children@)),
    {
        let namespaces = match &self.namespaces {
            Some(v) => Some(copy_pairs(v)),
            None => None,
        };
        XmlElement {
            prefix: copy_string_opt(&self.prefix),
            namespace: copy_string_opt(&self.namespace),
            namespaces,
            name: self.name.clone(),
            attributes: copy_pairs(&self.attributes),
            children,
        }
    }

    /// A copy of this element, equal in value.
    pub fn copy(&self) -> (r: XmlElement)
        ensures
            element_view(r) == element_view(*self),
        decreases self,
    {
        let namespaces = match &self.namespaces {
            Some(v) => Some(copy_pairs(v)),
            None => None,
        };
        XmlElement {
            prefix: copy_string_opt(&self.prefix),
            namespace: copy_string_opt(&self.namespace),
            namespaces,
            name: self.name.clone(),
            attributes: copy_pairs(&self.attributes),
            children: copy_nodes(&self.children),
        }
    }
}

/// The tree the XML parser makes of a text, `None` where the text is not a
/// well-formed document.
pub uninterp spec fn parsed_document(text: Seq<char>) -> Option<ElementV>;

/// The text the XML writer makes of a tree with the given layout, `None`
/// where it refuses the tree.
pub uninterp spec fn rendered(
    root: ElementV,
    indent: Seq<char>,
    line_separator: Seq<char>,
    normalize_empty_elements: bool,
) -> Option<Seq<char>>;

/// `xmltree`'s element, only handed between the parser, the writer and the
/// conversions below.
#[verifier::external_type_specification]
#[verifier::external_body]
pub struct ExXmlElement(xmltree::Element);

/// `xmltree`'s node, only handed to the conversions below.
#[verifier::external_type_specification]
#[verifier::external_body]
pub struct ExXmlNode(xmltree::XMLNode);

/// The error of `xmltree::Element::parse`, only described.
#[verifier::external_type_specification]
#[verifier::external_body]
pub struct ExXmlParseError(xmltree::ParseError);

/// The error of `xmltree::Element::write_with_config`, only described.
#[verifier::external_type_specification]
#[verifier::external_body]
pub struct ExXmlWriteError(xmltree::Error);

/// Relies on the public variants of `xmltree::XMLNode`: takes a node over,
/// field for field.
#[verifier::external_body]
fn node_from_xml(n: xmltree::XMLNode) -> XmlNode {
    match n {
        xmltree::XMLNode::Element(e) => XmlNode::Element(element_from_xml(e)),
        xmltree::XMLNode::Comment(t) => XmlNode::Comment(t),
        xmltree::XMLNode::CData(t) => XmlNode::CData(t),
        xmltree::XMLNode::Text(t) => XmlNode::Text(t),
        xmltree::XMLNode::ProcessingInstruction(t, d) => XmlNode::ProcessingInstruction(t, d),
    }
}

/// Relies on the public fields of `xmltree::Element`: takes an element over,
/// field for field; its attributes keep their order.
#[verifier::external_body]
fn element_from_xml(e: xmltree::Element) -> XmlElement {
    XmlElement {
        prefix: e.prefix,
        namespace: e.namespace,
        namespaces: e.namespaces.map(|ns| ns.0.into_iter().collect()),
        name: e.name,
        attributes: e.attributes.into_iter().collect(),
        children: e.children.into_iter().map(node_from_xml).collect(),
    }
}

/// Relies on the public variants of `xmltree::XMLNode`: hands a node over,
/// field for field.
#[verifier::external_body]
fn node_to_xml(n: &XmlNode) -> xmltree::XMLNode {
    match n {
        XmlNode::Element(e) => xmltree::XMLNode::Element(element_to_xml(e)),
        XmlNode::Comment(t) => xmltree::XMLNode::Comment(t.clone()),
        XmlNode::CData(t) => xmltree::XMLNode::CData(t.clone()),
        XmlNode::Text(t) => xmltree::XMLNode::Text(t.clone()),
        XmlNode::ProcessingInstruction(t, d) => xmltree::XMLNode::ProcessingInstruction(t.clone(), d.clone()),
    }
}

/// Relies on the public fields of `xmltree::Element`: hands an element over,
/// field for field; its attributes keep their order.
#[verifier::external_body]
fn element_to_xml(e: &XmlElement) -> xmltree::Element {
    xmltree::Element {
        prefix: e.prefix.clone(),
        namespace: e.namespace.clone(),
        namespaces: e.namespaces.as_ref().map(|v| xmltree::Namespace(v.iter().cloned().collect())),
        name: e.name.clone(),
        attributes: e.attributes.iter().cloned().collect(),
        children: e.children.iter().map(node_to_xml).collect(),
    }
}

/// Relies on `xmltree::Element::parse`: the tree of the root element, which
/// depends on the text alone.
#[verifier::external_body]
pub(crate) fn parse_document(text: &str) -> (r: Result<XmlElement, xmltree::ParseError>)
    ensures
        r matches Ok(e) ==> parsed_document(text@) == Some(element_view(e)),
        r is Err <==> parsed_document(text@) is None,
{
    match xmltree::Element::parse(text.as_bytes()) {
        Ok(e) => Ok(element_from_xml(e)),
        Err(e) => Err(e),
    }
}

/// Relies on `Display` of `xmltree::ParseError`: a description of the fault.
#[verifier::external_body]
pub(crate) fn describe_parse_error(e: &xmltree::ParseError) -> String {
    e.to_string()
}

/// Relies on `Display` of `xmltree::Error`: a description of the fault.
#[verifier::external_body]
pub(crate) fn describe_write_error(e: &xmltree::Error) -> String {
    e.to_string()
}

/// Relies on `xmltree::Element::write_with_config`, indenting, with the given
/// indentation, line separator and treatment of empty elements: the text
/// depends on the tree and that layout alone.
#[verifier::external_body]
pub(crate) fn render(root: &XmlElement, indent: &str, line_separator: &str, normalize_empty_elements: bool) -> (r: Result<String, xmltree::Error>)
    ensures
        r matches Ok(t) ==> rendered(element_view(*root), indent@, line_separator@, normalize_empty_elements) == Some(t@),
        r is Err <==> rendered(element_view(*root), indent@, line_separator@, normalize_empty_elements) is None,
{
    let config = xmltree::EmitterConfig::new().indent_string(indent.to_string()).line_separator(
        line_separator.to_string(),
    ).perform_indent(true).normalize_empty_elements(normalize_empty_elements);
    let mut out: Vec<u8> = Vec::new();
    element_to_xml(root).write_with_config(&mut out, config)?;
    Ok(String::from_utf8_lossy(&out).into_owned())
}

} // verus!
