//! The adapter for USPTO application XML version 4.2.

use vstd::prelude::*;

use crate::error::{ParseError, SerializeError};
use crate::model::document::PatentDocument;
use crate::source::detect::SourceFormat;
use crate::source::uspto::application_v4x::{self, document_xml, read_outcome};

verus! {

pub struct UsptoApplicationV42Adapter;

impl UsptoApplicationV42Adapter {
    pub fn parse_document(&self, input: &str) -> (r: Result<PatentDocument, ParseError>)
        ensures
            read_outcome(input@, SourceFormat::UsptoApplicationV42, r),
    {
        application_v4x::parse_document(input, SourceFormat::UsptoApplicationV42)
    }

    pub fn write_document(&self, doc: &PatentDocument) -> (r: Result<String, SerializeError>)
        ensures
            r matches Ok(s) && s@ == document_xml(*doc),
    {
        application_v4x::write_document(doc)
    }
}

} // verus!
