//! Reading XML: the document tree the format adapters walk, built from an
//! `xmloxide` parse, and the queries they make of it.

use vstd::prelude::*;

use xmloxide::tree::NodeKind;
use xmloxide::Document;
use xmloxide::NodeId;

use crate::error::ParseError;
use crate::model::opaque::{attrs_view, XmlAttribute, XmlAttributeView, XmlFragment, XmlName, XmlProlog};
use crate::render::fields::opt_view;
use crate::text::{chars_of, copy_str, find, push_char, push_str, starts_with, string_of, trim, trim_start};

verus! {

#[verifier::external_type_specification]
#[verifier::external_body]
pub struct ExDocument(xmloxide::Document);

// ---------------------------------------------------------------------------
// The tree
// ---------------------------------------------------------------------------

/// One node of a parsed XML document, with its children.
#[derive(Debug)]
pub enum XmlNode {
    Document(Vec<XmlNode>),
    Element {
        prefix: Option<String>,
        name: String,
        attributes: Vec<XmlAttribute>,
        children: Vec<XmlNode>,
    },
    Text(String),
    CData(String),
    Comment(String),
    ProcessingInstruction { target: String, data: Option<String> },
    EntityRef { name: String, value: Option<String>, children: Vec<XmlNode> },
    DocumentType {
        name: String,
        system_id: Option<String>,
        public_id: Option<String>,
        internal_subset: Option<String>,
    },
}

/// A parsed document: its document node and the version its declaration gave.
#[derive(Debug)]
pub struct XmlTree {
    pub root: XmlNode,
    pub version: Option<String>,
}

/// The kind of an `xmloxide` node, with the payloads no accessor returns.
pub enum NodeKindInfo {
    Document,
    Element,
    Text,
    CData,
    Comment,
    ProcessingInstruction,
    EntityRef { name: String, value: Option<String> },
    DocumentType {
        name: String,
        system_id: Option<String>,
        public_id: Option<String>,
        internal_subset: Option<String>,
    },
}

/// A node kind as plain values.
pub enum NodeKindView {
    Document,
    Element,
    Text,
    CData,
    Comment,
    ProcessingInstruction,
    EntityRef { name: Seq<char>, value: Option<Seq<char>> },
    DocumentType {
        name: Seq<char>,
        system_id: Option<Seq<char>>,
        public_id: Option<Seq<char>>,
        internal_subset: Option<Seq<char>>,
    },
}

pub open spec fn kind_view(k: NodeKindInfo) -> NodeKindView {
    match k {
        NodeKindInfo::Document => NodeKindView::Document,
        NodeKindInfo::Element => NodeKindView::Element,
        NodeKindInfo::Text => NodeKindView::Text,
        NodeKindInfo::CData => NodeKindView::CData,
        NodeKindInfo::Comment => NodeKindView::Comment,
        NodeKindInfo::ProcessingInstruction => NodeKindView::ProcessingInstruction,
        NodeKindInfo::EntityRef { name, value } => NodeKindView::EntityRef {
            name: name@,
            value: opt_view(value),
        },
        NodeKindInfo::DocumentType { name, system_id, public_id, internal_subset } =>
            NodeKindView::DocumentType {
            name: name@,
            system_id: opt_view(system_id),
            public_id: opt_view(public_id),
            internal_subset: opt_view(internal_subset),
        },
    }
}

// ---------------------------------------------------------------------------
// Calls into xmloxide
// ---------------------------------------------------------------------------
//
// `xmloxide` reads a text into an arena of nodes, each known by a non-zero
// `u32` index. With the default options (no entity resolver) the result is a
// function of the text and the entity expansion limit alone, so what the
// reader gives is named below over those two and a node's index.

/// Whether `xmloxide`'s reader, with the default options and an entity
/// expansion limit, accepts `input` as a document.
pub uninterp spec fn xml_accepts(input: Seq<char>, max_entity_expansions: u32) -> bool;

/// The message of the reader's refusal of `input`.
pub uninterp spec fn xml_error(input: Seq<char>, max_entity_expansions: u32) -> Seq<char>;

/// The number of nodes of the arena the reader builds from `input`.
pub uninterp spec fn xml_node_count(input: Seq<char>, max_entity_expansions: u32) -> nat;

/// The index of the document node.
pub uninterp spec fn xml_root(input: Seq<char>, max_entity_expansions: u32) -> u32;

/// The version the XML declaration gave.
pub uninterp spec fn xml_version(input: Seq<char>, max_entity_expansions: u32) -> Option<
    Seq<char>,
>;

/// The indices of a node's children, in document order.
pub uninterp spec fn xml_children(input: Seq<char>, max_entity_expansions: u32, id: u32) -> Seq<
    u32,
>;

/// The kind of a node.
pub uninterp spec fn xml_kind(input: Seq<char>, max_entity_expansions: u32, id: u32) -> NodeKindView;

/// An element's local name or a processing instruction's target.
pub uninterp spec fn xml_name(input: Seq<char>, max_entity_expansions: u32, id: u32) -> Option<
    Seq<char>,
>;

/// An element's namespace prefix.
pub uninterp spec fn xml_prefix(input: Seq<char>, max_entity_expansions: u32, id: u32) -> Option<
    Seq<char>,
>;

/// The content of a text, CDATA or comment node, or a processing
/// instruction's data.
pub uninterp spec fn xml_text(input: Seq<char>, max_entity_expansions: u32, id: u32) -> Option<
    Seq<char>,
>;

/// An element's attributes.
pub uninterp spec fn xml_attributes(input: Seq<char>, max_entity_expansions: u32, id: u32) -> Seq<
    XmlAttributeView,
>;

/// A document the reader accepted, with the text and the limit it was read
/// with. Only `parse_xml_text` makes one, so `doc` is always the reader's
/// result for `text` and `limit`; the fields stay private to this module.
struct ParsedXml {
    doc: Document,
    text: String,
    limit: u32,
}

impl ParsedXml {
    /// `id` indexes a node of the arena.
    spec fn holds(&self, id: u32) -> bool {
        1 <= id <= xml_node_count(self.text@, self.limit)
    }
}

/// `xmloxide::parser::parse_str_with_options` with the default options and an
/// entity expansion limit; a refusal comes back as its message (the
/// `Display` text of the reader's error).
#[verifier::external_body]
fn parse_xml_text(input: &str, max_entity_expansions: u32) -> (r: Result<ParsedXml, String>)
    ensures
        r is Ok <==> xml_accepts(input@, max_entity_expansions),
        r matches Err(m) ==> m@ == xml_error(input@, max_entity_expansions),
        r matches Ok(p) ==> p.text@ == input@ && p.limit == max_entity_expansions,
{
    let options = xmloxide::parser::ParseOptions::default().max_entity_expansions(
        max_entity_expansions,
    );
    match xmloxide::parser::parse_str_with_options(input, &options) {
        Ok(doc) => Ok(ParsedXml { doc, text: input.to_string(), limit: max_entity_expansions }),
        Err(error) => Err(error.to_string()),
    }
}

/// `Document::root`: the document node, which the arena always holds.
#[verifier::external_body]
fn document_root(p: &ParsedXml) -> (r: u32)
    ensures
        r == xml_root(p.text@, p.limit),
        p.holds(r),
{
    p.doc.root().into_raw()
}

/// `Document::version`: the version the XML declaration gave, if any.
#[verifier::external_body]
fn document_version(p: &ParsedXml) -> (r: Option<String>)
    ensures
        opt_view(r) == xml_version(p.text@, p.limit),
{
    p.doc.version.clone()
}

/// `Document::node_count`: the number of nodes in the arena.
#[verifier::external_body]
fn document_node_count(p: &ParsedXml) -> (r: usize)
    ensures
        r == xml_node_count(p.text@, p.limit),
{
    p.doc.node_count()
}

/// `Document::children`: a node's children, in document order; each is a
/// node of the arena.
#[verifier::external_body]
fn node_children_ids(p: &ParsedXml, id: u32) -> (r: Vec<u32>)
    requires
        p.holds(id),
    ensures
        r@ == xml_children(p.text@, p.limit, id),
        forall|i: int| 0 <= i < r@.len() ==> p.holds(#[trigger] r@[i]),
{
    p.doc.children(NodeId::from_raw(id).unwrap()).map(|c| c.into_raw()).collect()
}

/// `Document::node`: the kind of a node, with the entity reference and
/// DOCTYPE payloads.
#[verifier::external_body]
fn node_kind_info(p: &ParsedXml, id: u32) -> (r: NodeKindInfo)
    requires
        p.holds(id),
    ensures
        kind_view(r) == xml_kind(p.text@, p.limit, id),
{
    match &p.doc.node(NodeId::from_raw(id).unwrap()).kind {
        NodeKind::Document => NodeKindInfo::Document,
        NodeKind::Element { .. } => NodeKindInfo::Element,
        NodeKind::Text { .. } => NodeKindInfo::Text,
        NodeKind::CData { .. } => NodeKindInfo::CData,
        NodeKind::Comment { .. } => NodeKindInfo::Comment,
        NodeKind::ProcessingInstruction { .. } => NodeKindInfo::ProcessingInstruction,
        NodeKind::EntityRef { name, value } => NodeKindInfo::EntityRef { name: name.clone(), value: value.clone() },
        NodeKind::DocumentType { name, system_id, public_id, internal_subset } => NodeKindInfo::DocumentType {
            name: name.clone(), system_id: system_id.clone(), public_id: public_id.clone(), internal_subset: internal_subset.clone(),
        },
    }
}

/// `Document::node_name`: an element's local name or a processing
/// instruction's target.
#[verifier::external_body]
fn node_name(p: &ParsedXml, id: u32) -> (r: Option<String>)
    requires
        p.holds(id),
    ensures
        opt_view(r) == xml_name(p.text@, p.limit, id),
{
    p.doc.node_name(NodeId::from_raw(id).unwrap()).map(|name| name.to_string())
}

/// `Document::node_prefix`: an element's namespace prefix.
#[verifier::external_body]
fn node_prefix(p: &ParsedXml, id: u32) -> (r: Option<String>)
    requires
        p.holds(id),
    ensures
        opt_view(r) == xml_prefix(p.text@, p.limit, id),
{
    p.doc.node_prefix(NodeId::from_raw(id).unwrap()).map(|prefix| prefix.to_string())
}

/// `Document::node_text`: the content of a text, CDATA or comment node, or
/// a processing instruction's data.
#[verifier::external_body]
fn node_text(p: &ParsedXml, id: u32) -> (r: Option<String>)
    requires
        p.holds(id),
    ensures
        opt_view(r) == xml_text(p.text@, p.limit, id),
{
    p.doc.node_text(NodeId::from_raw(id).unwrap()).map(|text| text.to_string())
}

/// `Document::attributes`: an element's attributes, each as prefix, local name
/// and value.
#[verifier::external_body]
fn node_attributes(p: &ParsedXml, id: u32) -> (r: Vec<XmlAttribute>)
    requires
        p.holds(id),
    ensures
        attrs_view(r@) == xml_attributes(p.text@, p.limit, id),
{
    p.doc.attributes(NodeId::from_raw(id).unwrap()).iter().map(|attribute| XmlAttribute {
        prefix: attribute.prefix.clone(),
        local_name: attribute.name.clone(),
        value: attribute.value.clone(),
    }).collect()
}

// ---------------------------------------------------------------------------
// Building the tree
// ---------------------------------------------------------------------------

pub open spec fn or_empty(v: Option<Seq<char>>) -> Seq<char> {
    match v {
        Some(s) => s,
        None => Seq::empty(),
    }
}

/// `n` is the subtree the reader gives for node `id` of `input`, read to a
/// depth of `fuel`.
pub open spec fn node_is(n: XmlNode, input: Seq<char>, limit: u32, id: u32, fuel: nat) -> bool
    decreases fuel, 1nat, 0nat,
{
    match xml_kind(input, limit, id) {
        NodeKindView::Document => n matches XmlNode::Document(cs) && children_are(
            cs@,
            input,
            limit,
            id,
            fuel,
        ),
        NodeKindView::Element => {
            &&& n matches XmlNode::Element { prefix, name, attributes, children }
            &&& opt_view(prefix) == xml_prefix(input, limit, id)
            &&& name@ == or_empty(xml_name(input, limit, id))
            &&& attrs_view(attributes@) == xml_attributes(input, limit, id)
            &&& children_are(children@, input, limit, id, fuel)
        },
        NodeKindView::Text => n matches XmlNode::Text(t) && t@ == or_empty(
            xml_text(input, limit, id),
        ),
        NodeKindView::CData => n matches XmlNode::CData(t) && t@ == or_empty(
            xml_text(input, limit, id),
        ),
        NodeKindView::Comment => n matches XmlNode::Comment(t) && t@ == or_empty(
            xml_text(input, limit, id),
        ),
        NodeKindView::ProcessingInstruction => {
            &&& n matches XmlNode::ProcessingInstruction { target, data }
            &&& target@ == or_empty(xml_name(input, limit, id))
            &&& opt_view(data) == xml_text(input, limit, id)
        },
        NodeKindView::EntityRef { name: en, value: ev } => {
            &&& n matches XmlNode::EntityRef { name, value, children }
            &&& name@ == en
            &&& opt_view(value) == ev
            &&& children_are(children@, input, limit, id, fuel)
        },
        NodeKindView::DocumentType { name: dn, system_id: ds, public_id: dp, internal_subset: di } => {
            &&& n matches XmlNode::DocumentType { name, system_id, public_id, internal_subset }
            &&& name@ == dn
            &&& opt_view(system_id) == ds
            &&& opt_view(public_id) == dp
            &&& opt_view(internal_subset) == di
        },
    }
}

/// `cs` are the subtrees of the children of node `id`, read to a depth of
/// `fuel`; out of fuel there are none.
pub open spec fn children_are(cs: Seq<XmlNode>, input: Seq<char>, limit: u32, id: u32, fuel: nat) -> bool
    decreases fuel, 0nat, 0nat,
{
    if fuel == 0 {
        cs.len() == 0
    } else {
        nodes_are(cs, xml_children(input, limit, id), input, limit, (fuel - 1) as nat)
    }
}

/// Each of `cs` is the subtree of the node at the same place in `ids`.
pub open spec fn nodes_are(cs: Seq<XmlNode>, ids: Seq<u32>, input: Seq<char>, limit: u32, fuel: nat) -> bool
    decreases fuel, 2nat, cs.len(),
{
    if cs.len() == 0 {
        ids.len() == 0
    } else {
        &&& ids.len() == cs.len()
        &&& nodes_are(cs.drop_last(), ids.drop_last(), input, limit, fuel)
        &&& node_is(cs.last(), input, limit, ids.last(), fuel)
    }
}

proof fn lemma_nodes_are_push(
    cs: Seq<XmlNode>,
    ids: Seq<u32>,
    c: XmlNode,
    id: u32,
    input: Seq<char>,
    limit: u32,
    fuel: nat,
)
    requires
        nodes_are(cs, ids, input, limit, fuel),
        node_is(c, input, limit, id, fuel),
    ensures
        nodes_are(cs.push(c), ids.push(id), input, limit, fuel),
{
    assert(cs.push(c).drop_last() =~= cs);
    assert(ids.push(id).drop_last() =~= ids);
    assert(nodes_are(cs, ids, input, limit, fuel) ==> cs.len() == ids.len()) by {
        if cs.len() == 0 {
        }
    }
}

/// The depth to which a document is read: one more than its node count,
/// which no depth of a tree reaches.
pub open spec fn tree_fuel(input: Seq<char>, limit: u32) -> nat {
    let count = xml_node_count(input, limit);
    if count < usize::MAX {
        count + 1
    } else {
        count
    }
}

/// `t` is the tree the reader gives for `input` under `limit`: the document
/// node's children and the declared version.
pub open spec fn tree_is(t: XmlTree, input: Seq<char>, limit: u32) -> bool {
    &&& t.root matches XmlNode::Document(cs)
    &&& children_are(cs@, input, limit, xml_root(input, limit), tree_fuel(input, limit))
    &&& opt_view(t.version) == xml_version(input, limit)
}

fn text_or_empty(v: Option<String>) -> (r: String)
    ensures
        r@ == or_empty(opt_view(v)),
{
    match v {
        Some(s) => s,
        None => String::new(),
    }
}

/// The subtree at `id`. `fuel` bounds the depth; it starts above the node
/// count, which no depth of a tree reaches.
fn convert_node(p: &ParsedXml, id: u32, fuel: usize) -> (r: XmlNode)
    requires
        p.holds(id),
    ensures
        node_is(r, p.text@, p.limit, id, fuel as nat),
    decreases fuel, 1nat,
{
    match node_kind_info(p, id) {
        NodeKindInfo::Document => XmlNode::Document(convert_children(p, id, fuel)),
        NodeKindInfo::Element => {
            let prefix = node_prefix(p, id);
            let name = text_or_empty(node_name(p, id));
            let attributes = node_attributes(p, id);
            let children = convert_children(p, id, fuel);
            XmlNode::Element { prefix, name, attributes, children }
        },
        NodeKindInfo::Text => XmlNode::Text(text_or_empty(node_text(p, id))),
        NodeKindInfo::CData => XmlNode::CData(text_or_empty(node_text(p, id))),
        NodeKindInfo::Comment => XmlNode::Comment(text_or_empty(node_text(p, id))),
        NodeKindInfo::ProcessingInstruction => {
            let target = text_or_empty(node_name(p, id));
            let data = node_text(p, id);
            XmlNode::ProcessingInstruction { target, data }
        },
        NodeKindInfo::EntityRef { name, value } => {
            let children = convert_children(p, id, fuel);
            XmlNode::EntityRef { name, value, children }
        },
        NodeKindInfo::DocumentType { name, system_id, public_id, internal_subset } => {
            XmlNode::DocumentType { name, system_id, public_id, internal_subset }
        },
    }
}

fn convert_children(p: &ParsedXml, id: u32, fuel: usize) -> (r: Vec<XmlNode>)
    requires
        p.holds(id),
    ensures
        children_are(r@, p.text@, p.limit, id, fuel as nat),
    decreases fuel, 0nat,
{
    let mut out: Vec<XmlNode> = Vec::new();
    if fuel == 0 {
        return out;
    }
    let ids = node_children_ids(p, id);
    let ghost f: nat = (fuel - 1) as nat;
    let mut i: usize = 0;
    while i < ids.len()
        invariant
            i <= ids.len(),
            fuel > 0,
            f == fuel - 1,
            ids@ == xml_children(p.text@, p.limit, id),
            forall|k: int| 0 <= k < ids@.len() ==> p.holds(#[trigger] ids@[k]),
            nodes_are(out@, ids@.take(i as int), p.text@, p.limit, f),
        decreases ids.len() - i,
    {
        let node = convert_node(p, ids[i], fuel - 1);
        proof {
            lemma_nodes_are_push(out@, ids@.take(i as int), node, ids@[i as int], p.text@, p.limit, f);
            assert(ids@.take(i as int).push(ids@[i as int]) =~= ids@.take(i + 1));
        }
        out.push(node);
        i += 1;
    }
    assert(ids@.take(ids.len() as int) =~= ids@);
    out
}

/// The most entity expansions a document may make.
pub const MAX_ENTITY_EXPANSIONS: u32 = 100000;

/// Parse XML text into a tree; a refused document is `MalformedXml` with the
/// parser's message. An accepted one is the tree the reader gives.
pub fn parse_tree(input: &str) -> (r: Result<XmlTree, ParseError>)
    ensures
        r is Ok <==> xml_accepts(input@, MAX_ENTITY_EXPANSIONS),
        r matches Ok(t) ==> tree_is(t, input@, MAX_ENTITY_EXPANSIONS),
        r matches Err(e) ==> (e matches ParseError::MalformedXml(m) && m@ == xml_error(
            input@,
            MAX_ENTITY_EXPANSIONS,
        )),
{
    match parse_xml_text(input, MAX_ENTITY_EXPANSIONS) {
        Err(message) => Err(ParseError::MalformedXml(message)),
        Ok(p) => {
            let root = document_root(&p);
            let count = document_node_count(&p);
            let fuel = if count < usize::MAX {
                count + 1
            } else {
                count
            };
            let children = convert_children(&p, root, fuel);
            Ok(XmlTree { root: XmlNode::Document(children), version: document_version(&p) })
        },
    }
}

// ---------------------------------------------------------------------------
// Queries
// ---------------------------------------------------------------------------

pub open spec fn spec_children(n: XmlNode) -> Seq<XmlNode> {
    match n {
        XmlNode::Document(c) => c@,
        XmlNode::Element { children, .. } => children@,
        XmlNode::EntityRef { children, .. } => children@,
        _ => Seq::empty(),
    }
}

pub fn children(n: &XmlNode) -> (r: &[XmlNode])
    ensures
        r@ == spec_children(*n),
{
    match n {
        XmlNode::Document(c) => c.as_slice(),
        XmlNode::Element { children, .. } => children.as_slice(),
        XmlNode::EntityRef { children, .. } => children.as_slice(),
        _ => &[],
    }
}

/// An element's local name or a processing instruction's target.
pub open spec fn spec_local_name(n: XmlNode) -> Option<Seq<char>> {
    match n {
        XmlNode::Element { name, .. } => Some(name@),
        XmlNode::ProcessingInstruction { target, .. } => Some(target@),
        _ => None,
    }
}

/// `n` is named `name` (an element, or a processing instruction target).
pub open spec fn is_named(n: XmlNode, name: Seq<char>) -> bool {
    spec_local_name(n) == Some(name)
}

pub fn has_name(n: &XmlNode, name: &str) -> (r: bool)
    ensures
        r == is_named(*n, name@),
{
    match n {
        XmlNode::Element { name: local, .. } => crate::text::string_eq_str(local, name),
        XmlNode::ProcessingInstruction { target, .. } => crate::text::string_eq_str(target, name),
        _ => false,
    }
}

/// The element children of a sequence of nodes, in order.
pub open spec fn elements_of(cs: Seq<XmlNode>) -> Seq<XmlNode>
    decreases cs.len(),
{
    if cs.len() == 0 {
        Seq::empty()
    } else if cs.last() is Element {
        elements_of(cs.drop_last()).push(cs.last())
    } else {
        elements_of(cs.drop_last())
    }
}

pub open spec fn spec_child_elements(n: XmlNode) -> Seq<XmlNode> {
    elements_of(spec_children(n))
}

/// A text or CDATA node holding only whitespace.
pub open spec fn is_blank_text(n: XmlNode) -> bool {
    match n {
        XmlNode::Text(c) => trim(c@).len() == 0,
        XmlNode::CData(c) => trim(c@).len() == 0,
        _ => false,
    }
}

pub fn blank_text(n: &XmlNode) -> (r: bool)
    ensures
        r == is_blank_text(*n),
{
    match n {
        XmlNode::Text(c) => {
            proof {
                crate::text::lemma_trim_empty_iff_blank(c@);
            }
            crate::text::is_blank_str(c.as_str())
        },
        XmlNode::CData(c) => {
            proof {
                crate::text::lemma_trim_empty_iff_blank(c@);
            }
            crate::text::is_blank_str(c.as_str())
        },
        _ => false,
    }
}

/// The children that carry content: all but whitespace-only text.
pub open spec fn content_nodes_of(cs: Seq<XmlNode>) -> Seq<XmlNode>
    decreases cs.len(),
{
    if cs.len() == 0 {
        Seq::empty()
    } else if is_blank_text(cs.last()) {
        content_nodes_of(cs.drop_last())
    } else {
        content_nodes_of(cs.drop_last()).push(cs.last())
    }
}

/// The element children of `n`, in order.
pub fn child_elements(n: &XmlNode) -> (r: Vec<&XmlNode>)
    ensures
        r@.len() == spec_child_elements(*n).len(),
        forall|i: int| 0 <= i < r@.len() ==> *(#[trigger] r@[i]) == spec_child_elements(*n)[i],
{
    let cs = children(n);
    let mut out: Vec<&XmlNode> = Vec::new();
    let mut i: usize = 0;
    while i < cs.len()
        invariant
            i <= cs.len(),
            cs@ == spec_children(*n),
            out@.len() == elements_of(cs@.take(i as int)).len(),
            forall|k: int| 0 <= k < out@.len() ==> *(#[trigger] out@[k]) == elements_of(cs@.take(i as int))[k],
        decreases cs.len() - i,
    {
        assert(cs@.take(i + 1).drop_last() =~= cs@.take(i as int));
        let c = &cs[i];
        if let XmlNode::Element { .. } = c {
            out.push(c);
        }
        i += 1;
    }
    assert(cs@.take(cs.len() as int) =~= cs@);
    out
}

/// The children of `n` that carry content: all but blank text and CDATA.
pub fn child_content_nodes(n: &XmlNode) -> (r: Vec<&XmlNode>)
    ensures
        r@.len() == content_nodes_of(spec_children(*n)).len(),
        forall|i: int| 0 <= i < r@.len() ==> *(#[trigger] r@[i]) == content_nodes_of(spec_children(*n))[i],
{
    let cs = children(n);
    let mut out: Vec<&XmlNode> = Vec::new();
    let mut i: usize = 0;
    while i < cs.len()
        invariant
            i <= cs.len(),
            cs@ == spec_children(*n),
            out@.len() == content_nodes_of(cs@.take(i as int)).len(),
            forall|k: int| 0 <= k < out@.len() ==> *(#[trigger] out@[k]) == content_nodes_of(cs@.take(i as int))[k],
        decreases cs.len() - i,
    {
        assert(cs@.take(i + 1).drop_last() =~= cs@.take(i as int));
        let c = &cs[i];
        if !blank_text(c) {
            out.push(c);
        }
        i += 1;
    }
    assert(cs@.take(cs.len() as int) =~= cs@);
    out
}

pub open spec fn spec_attrs(n: XmlNode) -> Seq<XmlAttribute> {
    match n {
        XmlNode::Element { attributes, .. } => attributes@,
        _ => Seq::empty(),
    }
}

pub fn clone_attribute(a: &XmlAttribute) -> (r: XmlAttribute)
    ensures
        r@ == a@,
{
    XmlAttribute {
        prefix: crate::render::fields::clone_opt(&a.prefix),
        local_name: a.local_name.clone(),
        value: a.value.clone(),
    }
}

pub fn clone_attributes(v: &[XmlAttribute]) -> (r: Vec<XmlAttribute>)
    ensures
        attrs_view(r@) == attrs_view(v@),
{
    let mut out: Vec<XmlAttribute> = Vec::new();
    let mut i: usize = 0;
    while i < v.len()
        invariant
            i <= v.len(),
            attrs_view(out@) == attrs_view(v@.take(i as int)),
        decreases v.len() - i,
    {
        out.push(clone_attribute(&v[i]));
        assert(attrs_view(v@.take(i + 1)) =~= attrs_view(v@.take(i as int)).push(v@[i as int]@));
        assert(attrs_view(out@) =~= attrs_view(v@.take(i + 1)));
        i += 1;
    }
    assert(v@.take(v.len() as int) =~= v@);
    out
}

/// A node's attributes (none unless it is an element).
pub fn attributes(n: &XmlNode) -> (r: Vec<XmlAttribute>)
    ensures
        attrs_view(r@) == attrs_view(spec_attrs(*n)),
{
    match n {
        XmlNode::Element { attributes, .. } => clone_attributes(attributes.as_slice()),
        _ => {
            let r: Vec<XmlAttribute> = Vec::new();
            assert(attrs_view(r@) =~= attrs_view(spec_attrs(*n)));
            r
        },
    }
}

/// The value of the first attribute whose local name is `name`.
pub open spec fn attribute_from(attrs: Seq<XmlAttribute>, name: Seq<char>, i: int) -> Option<
    Seq<char>,
>
    decreases attrs.len() - i,
{
    if i < 0 || i >= attrs.len() {
        None
    } else if attrs[i].local_name@ == name {
        Some(attrs[i].value@)
    } else {
        attribute_from(attrs, name, i + 1)
    }
}

pub open spec fn spec_attribute(n: XmlNode, name: Seq<char>) -> Option<Seq<char>> {
    attribute_from(spec_attrs(n), name, 0)
}

pub fn attribute(n: &XmlNode, name: &str) -> (r: Option<String>)
    ensures
        opt_view(r) == spec_attribute(*n, name@),
{
    match n {
        XmlNode::Element { attributes, .. } => {
            let mut i: usize = 0;
            while i < attributes.len()
                invariant
                    i <= attributes.len(),
                    *n is Element && (*n)->attributes == *attributes,
                    attribute_from(attributes@, name@, 0) == attribute_from(
                        attributes@,
                        name@,
                        i as int,
                    ),
                decreases attributes.len() - i,
            {
                if crate::text::string_eq_str(&attributes[i].local_name, name) {
                    return Some(attributes[i].value.clone());
                }
                i += 1;
            }
            None
        },
        _ => None,
    }
}

/// `Document::text_content`: the text and CDATA of a node and its
/// descendants, an entity reference without children giving its value.
pub open spec fn spec_text_content(n: XmlNode) -> Seq<char>
    decreases n,
{
    match n {
        XmlNode::Text(c) => c@,
        XmlNode::CData(c) => c@,
        XmlNode::EntityRef { value, children, .. } => if children@.len() > 0 {
            texts_of(children@)
        } else {
            match value {
                Some(v) => v@,
                None => Seq::empty(),
            }
        },
        XmlNode::Document(c) => texts_of(c@),
        XmlNode::Element { children, .. } => texts_of(children@),
        _ => Seq::empty(),
    }
}

pub open spec fn texts_of(cs: Seq<XmlNode>) -> Seq<char>
    decreases cs,
{
    if cs.len() == 0 {
        Seq::empty()
    } else {
        texts_of(cs.drop_last()) + spec_text_content(cs.last())
    }
}

fn collect_texts(cs: &Vec<XmlNode>, out: &mut Vec<char>)
    ensures
        final(out)@ == old(out)@ + texts_of(cs@),
    decreases cs@,
{
    let mut k: usize = 0;
    while k < cs.len()
        invariant
            k <= cs.len(),
            out@ == old(out)@ + texts_of(cs@.take(k as int)),
        decreases cs.len() - k,
    {
        assert(cs@.take(k + 1).drop_last() =~= cs@.take(k as int));
        proof {
            assert(decreases_to!(cs@ => cs@[k as int]));
        }
        collect_text(&cs[k], out);
        k += 1;
    }
    assert(cs@.take(cs.len() as int) =~= cs@);
}

fn collect_text(n: &XmlNode, out: &mut Vec<char>)
    ensures
        final(out)@ == old(out)@ + spec_text_content(*n),
    decreases n,
{
    match n {
        XmlNode::Text(c) => crate::text::append_chars(out, chars_of(c.as_str()).as_slice()),
        XmlNode::CData(c) => crate::text::append_chars(out, chars_of(c.as_str()).as_slice()),
        XmlNode::EntityRef { value, children, .. } => {
            if children.len() > 0 {
                proof {
                    assert(decreases_to!(*n => (*n)->EntityRef_children));
                }
                collect_texts(children, out);
            } else {
                match value {
                    Some(v) => crate::text::append_chars(out, chars_of(v.as_str()).as_slice()),
                    None => {
                        assert(out@ =~= old(out)@ + Seq::<char>::empty());
                    },
                }
            }
        },
        XmlNode::Document(c) => {
            proof {
                assert(decreases_to!(*n => (*n)->Document_0));
            }
            collect_texts(c, out);
        },
        XmlNode::Element { children, .. } => {
            proof {
                assert(decreases_to!(*n => (*n)->Element_children));
            }
            collect_texts(children, out);
        },
        _ => {
            assert(out@ =~= old(out)@ + Seq::<char>::empty());
        },
    }
}

/// The concatenated text of a node and its descendants.
pub fn text_content(n: &XmlNode) -> (r: Vec<char>)
    ensures
        r@ == spec_text_content(*n),
{
    let mut out: Vec<char> = Vec::new();
    collect_text(n, &mut out);
    assert(out@ =~= spec_text_content(*n));
    out
}

// ---------------------------------------------------------------------------
// Verbatim fragments
// ---------------------------------------------------------------------------

/// `<!DOCTYPE name PUBLIC "p" SYSTEM "s" [subset]>`, parts as present.
pub open spec fn doctype_text(
    name: Seq<char>,
    system_id: Option<Seq<char>>,
    public_id: Option<Seq<char>>,
    subset: Option<Seq<char>>,
) -> Seq<char> {
    "<!DOCTYPE "@ + name + (match public_id {
        Some(p) => " PUBLIC \""@ + p + seq!['"'],
        None => Seq::empty(),
    }) + (match system_id {
        Some(s) => (if public_id is None {
            " SYSTEM"@
        } else {
            Seq::empty()
        }) + " \""@ + s + seq!['"'],
        None => Seq::empty(),
    }) + (match subset {
        Some(v) => " ["@ + v + seq![']'],
        None => Seq::empty(),
    }) + seq!['>']
}

/// The text a non-element node stands for in a verbatim fragment.
pub open spec fn node_text_form(n: XmlNode) -> Seq<char> {
    match n {
        XmlNode::Text(c) => c@,
        XmlNode::CData(c) => c@,
        XmlNode::EntityRef { name, value, .. } => match value {
            Some(v) => v@,
            None => seq!['&'] + name@ + seq![';'],
        },
        XmlNode::Comment(c) => "<!--"@ + c@ + "-->"@,
        XmlNode::ProcessingInstruction { target, data } => match data {
            Some(d) => "<?"@ + target@ + seq![' '] + d@ + "?>"@,
            None => "<?"@ + target@ + "?>"@,
        },
        XmlNode::DocumentType { name, system_id, public_id, internal_subset } => doctype_text(
            name@,
            opt_view(system_id),
            opt_view(public_id),
            opt_view(internal_subset),
        ),
        _ => Seq::empty(),
    }
}

/// `f` is the verbatim fragment of node `n`: elements kept with their name,
/// attributes and children, every other node as its text form.
pub open spec fn fragment_of(f: XmlFragment, n: XmlNode) -> bool
    decreases n,
{
    match n {
        XmlNode::Element { prefix, name, attributes, children } => match f {
            XmlFragment::Element { name: fname, attributes: fattrs, children: fchildren } => {
                &&& opt_view(fname.prefix) == opt_view(prefix)
                &&& fname.local_name@ == name@
                &&& attrs_view(fattrs@) == attrs_view(attributes@)
                &&& fragments_of(fchildren@, children@)
            },
            XmlFragment::Text(_) => false,
        },
        _ => f matches XmlFragment::Text(s) && s@ == node_text_form(n),
    }
}

pub open spec fn fragments_of(fs: Seq<XmlFragment>, ns: Seq<XmlNode>) -> bool
    decreases ns,
{
    if ns.len() == 0 {
        fs.len() == 0
    } else {
        fs.len() == ns.len() && fragments_of(fs.drop_last(), ns.drop_last()) && fragment_of(
            fs.last(),
            ns.last(),
        )
    }
}

fn quoted(lead: &str, value: &String) -> (r: String)
    ensures
        r@ == lead@ + value@ + seq!['"'],
{
    let mut out = copy_str(lead);
    push_str(&mut out, value.as_str());
    push_char(&mut out, '"');
    out
}

fn doctype_string(
    name: &String,
    system_id: &Option<String>,
    public_id: &Option<String>,
    subset: &Option<String>,
) -> (r: String)
    ensures
        r@ == doctype_text(name@, opt_view(*system_id), opt_view(*public_id), opt_view(*subset)),
{
    let mut out = copy_str("<!DOCTYPE ");
    push_str(&mut out, name.as_str());
    let ghost a = out@;
    if let Some(p) = public_id {
        push_str(&mut out, quoted(" PUBLIC \"", p).as_str());
    }
    let ghost b = out@;
    if let Some(s) = system_id {
        if public_id.is_none() {
            push_str(&mut out, " SYSTEM");
        }
        push_str(&mut out, quoted(" \"", s).as_str());
    }
    let ghost c = out@;
    if let Some(v) = subset {
        push_str(&mut out, " [");
        push_str(&mut out, v.as_str());
        push_char(&mut out, ']');
    }
    push_char(&mut out, '>');
    assert(out@ =~= doctype_text(
        name@,
        opt_view(*system_id),
        opt_view(*public_id),
        opt_view(*subset),
    ));
    out
}

fn text_form(n: &XmlNode) -> (r: String)
    ensures
        r@ == node_text_form(*n),
{
    match n {
        XmlNode::Text(c) => c.clone(),
        XmlNode::CData(c) => c.clone(),
        XmlNode::EntityRef { name, value, .. } => match value {
            Some(v) => v.clone(),
            None => {
                let mut out = copy_str("&");
                push_str(&mut out, name.as_str());
                push_char(&mut out, ';');
                proof {
                    reveal_strlit("&");
                }
                out
            },
        },
        XmlNode::Comment(c) => {
            let mut out = copy_str("<!--");
            push_str(&mut out, c.as_str());
            push_str(&mut out, "-->");
            out
        },
        XmlNode::ProcessingInstruction { target, data } => {
            let mut out = copy_str("<?");
            push_str(&mut out, target.as_str());
            if let Some(d) = data {
                push_char(&mut out, ' ');
                push_str(&mut out, d.as_str());
            }
            push_str(&mut out, "?>");
            out
        },
        XmlNode::DocumentType { name, system_id, public_id, internal_subset } => doctype_string(
            name,
            system_id,
            public_id,
            internal_subset,
        ),
        _ => String::new(),
    }
}

fn fragments(ns: &Vec<XmlNode>) -> (r: Vec<XmlFragment>)
    ensures
        fragments_of(r@, ns@),
    decreases ns@,
{
    let mut out: Vec<XmlFragment> = Vec::new();
    let mut k: usize = 0;
    while k < ns.len()
        invariant
            k <= ns.len(),
            fragments_of(out@, ns@.take(k as int)),
        decreases ns.len() - k,
    {
        proof {
            assert(decreases_to!(ns@ => ns@[k as int]));
        }
        let ghost before = out@;
        out.push(xml_fragment(&ns[k]));
        assert(ns@.take(k + 1).drop_last() =~= ns@.take(k as int));
        assert(out@.drop_last() =~= before);
        k += 1;
    }
    assert(ns@.take(ns.len() as int) =~= ns@);
    out
}

/// A node as a verbatim fragment.
pub fn xml_fragment(n: &XmlNode) -> (r: XmlFragment)
    ensures
        fragment_of(r, *n),
    decreases n,
{
    match n {
        XmlNode::Element { prefix, name, attributes, children } => {
            proof {
                assert(decreases_to!(*n => (*n)->Element_children));
            }
            XmlFragment::Element {
                name: XmlName { prefix: crate::render::fields::clone_opt(prefix), local_name: name.clone() },
                attributes: clone_attributes(attributes.as_slice()),
                children: fragments(children),
            }
        },
        _ => XmlFragment::Text(text_form(n)),
    }
}

// ---------------------------------------------------------------------------
// Root and prolog
// ---------------------------------------------------------------------------

/// The first element among the document node's children.
pub open spec fn spec_root_element(t: XmlTree) -> Option<XmlNode> {
    let es = elements_of(spec_children(t.root));
    if es.len() > 0 {
        Some(es[0])
    } else {
        None
    }
}

proof fn lemma_elements_of_prefix(cs: Seq<XmlNode>, i: int)
    requires
        0 <= i < cs.len(),
        cs[i] is Element,
        forall|j: int| 0 <= j < i ==> !(#[trigger] cs[j] is Element),
    ensures
        elements_of(cs).len() > 0 && elements_of(cs)[0] == cs[i],
    decreases cs.len(),
{
    if i < cs.len() - 1 {
        lemma_elements_of_prefix(cs.drop_last(), i);
        assert(cs.drop_last()[i] == cs[i]);
    } else {
        assert(elements_of(cs.drop_last()).len() == 0) by {
            lemma_no_elements(cs.drop_last());
        }
    }
}

proof fn lemma_no_elements(cs: Seq<XmlNode>)
    requires
        forall|j: int| 0 <= j < cs.len() ==> !(#[trigger] cs[j] is Element),
    ensures
        elements_of(cs).len() == 0,
    decreases cs.len(),
{
    if cs.len() > 0 {
        assert forall|j: int| 0 <= j < cs.drop_last().len() implies !(
        #[trigger] cs.drop_last()[j] is Element) by {
            assert(cs.drop_last()[j] == cs[j]);
        }
        lemma_no_elements(cs.drop_last());
    }
}

/// The root element, or `MalformedXml` when the document has none.
pub fn root_element(t: &XmlTree) -> (r: Result<&XmlNode, ParseError>)
    ensures
        match spec_root_element(*t) {
            Some(e) => r matches Ok(x) && *x == e,
            None => r matches Err(ParseError::MalformedXml(m)) && m@ == "missing root element"@,
        },
{
    let cs = children(&t.root);
    let mut i: usize = 0;
    while i < cs.len()
        invariant
            i <= cs.len(),
            cs@ == spec_children(t.root),
            forall|j: int| 0 <= j < i ==> !(#[trigger] cs@[j] is Element),
        decreases cs.len() - i,
    {
        if let XmlNode::Element { .. } = &cs[i] {
            proof {
                lemma_elements_of_prefix(cs@, i as int);
            }
            return Ok(&cs[i]);
        }
        i += 1;
    }
    proof {
        lemma_no_elements(cs@);
    }
    Err(ParseError::MalformedXml(copy_str("missing root element")))
}

/// The first DOCTYPE among `cs`.
pub open spec fn first_doctype(cs: Seq<XmlNode>, i: int) -> Option<XmlNode>
    decreases cs.len() - i,
{
    if i < 0 || i >= cs.len() {
        None
    } else if cs[i] is DocumentType {
        Some(cs[i])
    } else {
        first_doctype(cs, i + 1)
    }
}

/// `<?xml ...?>` at the start of the input (after whitespace), if present.
pub open spec fn spec_xml_declaration(input: Seq<char>) -> Option<Seq<char>> {
    let t = trim_start(input);
    if !starts_with(t, "<?xml"@) {
        None
    } else {
        match find(t, "?>"@) {
            Some(end) => if 0 <= end && end + 2 <= t.len() {
                Some(t.take(end + 2))
            } else {
                None
            },
            None => None,
        }
    }
}

/// The quoted value of pseudo-attribute `name` in an XML declaration.
pub open spec fn spec_declaration_attribute(decl: Seq<char>, name: Seq<char>) -> Option<Seq<char>> {
    let pattern = name.push('=');
    match find(decl, pattern) {
        None => None,
        Some(k) => {
            let rem = decl.skip(k + pattern.len());
            if rem.len() == 0 || !(rem[0] == '"' || rem[0] == '\'') {
                None
            } else {
                let rest = rem.skip(1);
                match crate::text::find_char_from(rest, rem[0], 0) {
                    Some(e) => Some(rest.take(e)),
                    None => None,
                }
            }
        },
    }
}

pub open spec fn decl_attr(input: Seq<char>, name: Seq<char>) -> Option<Seq<char>> {
    match spec_xml_declaration(input) {
        Some(d) => spec_declaration_attribute(d, name),
        None => None,
    }
}

/// The prolog of a document: the declaration's version (or the version the
/// parser reports), encoding and standalone, and the DOCTYPE's parts.
pub open spec fn prolog_of(p: XmlProlog, input: Seq<char>, t: XmlTree) -> bool {
    let dt = first_doctype(spec_children(t.root), 0);
    &&& opt_view(p.xml_version) == (match decl_attr(input, "version"@) {
        Some(v) => Some(v),
        None => opt_view(t.version),
    })
    &&& opt_view(p.xml_encoding) == decl_attr(input, "encoding"@)
    &&& opt_view(p.xml_standalone) == decl_attr(input, "standalone"@)
    &&& match dt {
        Some(XmlNode::DocumentType { name, system_id, public_id, internal_subset }) => {
            &&& opt_view(p.doctype_name) == Some(name@)
            &&& opt_view(p.doctype_public_id) == opt_view(public_id)
            &&& opt_view(p.doctype_system_id) == opt_view(system_id)
            &&& opt_view(p.internal_subset) == opt_view(internal_subset)
        },
        _ => p.doctype_name is None && p.doctype_public_id is None && p.doctype_system_id is None
            && p.internal_subset is None,
    }
}

fn xml_declaration(input: &[char]) -> (r: Option<Vec<char>>)
    ensures
        crate::render::fields::vopt(r) == spec_xml_declaration(input@),
{
    let t = crate::text::trim_start_chars(input);
    if !crate::text::starts_with_str(t.as_slice(), "<?xml") {
        return None;
    }
    proof {
        crate::text::lemma_find_from_bounds(t@, "?>"@, 0);
        reveal_strlit("?>");
    }
    match crate::text::find_str(t.as_slice(), "?>") {
        Some(end) => {
            assert(end + 2 <= t.len());
            Some(crate::text::slice_chars(t.as_slice(), 0, end + 2))
        },
        None => None,
    }
}

fn declaration_attribute(decl: &[char], name: &str) -> (r: Option<String>)
    ensures
        opt_view(r) == spec_declaration_attribute(decl@, name@),
{
    let mut pattern = chars_of(name);
    pattern.push('=');
    proof {
        crate::text::lemma_find_from_bounds(decl@, pattern@, 0);
    }
    let k = match crate::text::find_chars(decl, pattern.as_slice()) {
        Some(k) => k,
        None => {
            return None;
        },
    };
    assert(k + pattern.len() <= decl.len());
    let rem = crate::text::slice_chars(decl, k + pattern.len(), decl.len());
    assert(rem@ =~= decl@.skip(k + pattern@.len()));
    if rem.len() == 0 || !(rem[0] == '"' || rem[0] == '\'') {
        return None;
    }
    let quote = rem[0];
    let rest = crate::text::slice_chars(rem.as_slice(), 1, rem.len());
    assert(rest@ =~= rem@.skip(1));
    proof {
        crate::text::lemma_find_char_from(rest@, quote, 0);
    }
    match crate::text::find_char(rest.as_slice(), quote, 0) {
        Some(e) => {
            let v = crate::text::slice_chars(rest.as_slice(), 0, e);
            assert(v@ =~= rest@.take(e as int));
            Some(string_of(v.as_slice()))
        },
        None => None,
    }
}

fn decl_attribute(decl: &Option<Vec<char>>, name: &str) -> (r: Option<String>)
    ensures
        opt_view(r) == (match crate::render::fields::vopt(*decl) {
            Some(d) => spec_declaration_attribute(d, name@),
            None => None,
        }),
{
    match decl {
        Some(d) => declaration_attribute(d.as_slice(), name),
        None => None,
    }
}

fn is_doctype(n: &XmlNode) -> (r: bool)
    ensures
        r == (*n is DocumentType),
{
    matches!(n, XmlNode::DocumentType { .. })
}

/// The prolog of the document parsed from `input`.
pub fn prolog(input: &str, t: &XmlTree) -> (r: XmlProlog)
    ensures
        prolog_of(r, input@, *t),
{
    let cs = children(&t.root);
    let mut i: usize = 0;
    while i < cs.len() && !is_doctype(&cs[i])
        invariant
            i <= cs.len(),
            cs@ == spec_children(t.root),
            first_doctype(cs@, 0) == first_doctype(cs@, i as int),
        decreases cs.len() - i,
    {
        i += 1;
    }
    let (doctype_name, doctype_public_id, doctype_system_id, internal_subset) = if i < cs.len() {
        match &cs[i] {
            XmlNode::DocumentType { name, system_id, public_id, internal_subset } => (
                Some(name.clone()),
                crate::render::fields::clone_opt(public_id),
                crate::render::fields::clone_opt(system_id),
                crate::render::fields::clone_opt(internal_subset),
            ),
            _ => (None, None, None, None),
        }
    } else {
        (None, None, None, None)
    };
    let ic = chars_of(input);
    let decl = xml_declaration(ic.as_slice());
    let xml_version = match decl_attribute(&decl, "version") {
        Some(v) => Some(v),
        None => crate::render::fields::clone_opt(&t.version),
    };
    XmlProlog {
        xml_version,
        xml_encoding: decl_attribute(&decl, "encoding"),
        xml_standalone: decl_attribute(&decl, "standalone"),
        doctype_name,
        doctype_public_id,
        doctype_system_id,
        internal_subset,
    }
}

} // verus!
