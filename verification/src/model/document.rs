//! The document root.

use vstd::prelude::*;

use crate::model::bibliographic::BibliographicInformation;
use crate::model::claims::Claims;
use crate::model::description::{AbstractSection, Description, Drawings};
use crate::model::opaque::{OpaqueBlock, XmlAttribute, XmlProlog};
use crate::source::detect::SourceFormat;

verus! {

#[derive(Debug, PartialEq, Eq)]
pub struct PatentDocument {
    pub source_format: SourceFormat,
    pub prolog: XmlProlog,
    pub attributes: Vec<XmlAttribute>,
    pub parts: Vec<DocumentPart>,
}

impl Default for PatentDocument {
    fn default() -> (r: Self)
        ensures
            r.source_format == SourceFormat::UsptoApplicationV15,
            r.attributes@.len() == 0,
            r.parts@.len() == 0,
    {
        PatentDocument {
            source_format: SourceFormat::UsptoApplicationV15,
            prolog: XmlProlog {
                xml_version: None,
                xml_encoding: None,
                xml_standalone: None,
                doctype_name: None,
                doctype_public_id: None,
                doctype_system_id: None,
                internal_subset: None,
            },
            attributes: Vec::new(),
            parts: Vec::new(),
        }
    }
}

pub type PatentApplicationPublication = PatentDocument;

#[derive(Debug, PartialEq, Eq)]
pub enum DocumentPart {
    BibliographicInformation(BibliographicInformation),
    AbstractSection(AbstractSection),
    Description(Description),
    Claims(Claims),
    Drawings(Drawings),
    Opaque(OpaqueBlock),
}

} // verus!
