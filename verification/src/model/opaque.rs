//! XML-level pieces of the model: the prolog, attributes, and verbatim
//! fragments kept for elements the typed model does not cover.

use vstd::prelude::*;

verus! {

#[derive(Debug, Clone, PartialEq, Eq, Default)]
pub struct XmlProlog {
    pub xml_version: Option<String>,
    pub xml_encoding: Option<String>,
    pub xml_standalone: Option<String>,
    pub doctype_name: Option<String>,
    pub doctype_public_id: Option<String>,
    pub doctype_system_id: Option<String>,
    pub internal_subset: Option<String>,
}

#[derive(Debug, PartialEq, Eq, Default)]
pub struct OpaqueBlock {
    pub xml: XmlFragment,
}

#[derive(Debug, PartialEq, Eq, Default)]
pub struct OpaqueInline {
    pub xml: XmlFragment,
}

#[derive(Debug, Clone, PartialEq, Eq, Default)]
pub struct XmlAttribute {
    pub prefix: Option<String>,
    pub local_name: String,
    pub value: String,
}

/// The text of an attribute's parts.
pub struct XmlAttributeView {
    pub prefix: Option<Seq<char>>,
    pub local_name: Seq<char>,
    pub value: Seq<char>,
}

impl View for XmlAttribute {
    type V = XmlAttributeView;

    open spec fn view(&self) -> XmlAttributeView {
        XmlAttributeView {
            prefix: match self.prefix {
                Some(p) => Some(p@),
                None => None,
            },
            local_name: self.local_name@,
            value: self.value@,
        }
    }
}

pub open spec fn attrs_view(attrs: Seq<XmlAttribute>) -> Seq<XmlAttributeView> {
    attrs.map_values(|a: XmlAttribute| a@)
}

#[derive(Debug, Clone, PartialEq, Eq, Default)]
pub struct XmlName {
    pub prefix: Option<String>,
    pub local_name: String,
}

#[derive(Debug, PartialEq, Eq)]
pub enum XmlFragment {
    Element { name: XmlName, attributes: Vec<XmlAttribute>, children: Vec<XmlFragment> },
    Text(String),
}

impl Default for XmlFragment {
    fn default() -> (r: Self)
        ensures
            r matches XmlFragment::Text(s) && s@.len() == 0,
    {
        XmlFragment::Text(String::new())
    }
}

} // verus!
