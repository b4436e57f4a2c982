//! The adapter for USPTO application XML version 1.6, which shares its
//! reader and writer with version 1.5.

use vstd::prelude::*;

use crate::error::{ParseError, SerializeError};
use crate::model::document::PatentDocument;
use crate::source::detect::SourceFormat;
use crate::source::uspto::application_v15::{self, document_xml, read_outcome};

verus! {

pub struct UsptoApplicationV16Adapter;

impl UsptoApplicationV16Adapter {
    pub fn parse_document(&self, input: &str) -> (r: Result<PatentDocument, ParseError>)
        ensures
            read_outcome(input@, SourceFormat::UsptoApplicationV16, r),
    {
        application_v15::parse_document(input, SourceFormat::UsptoApplicationV16)
    }

    pub fn write_document(&self, doc: &PatentDocument) -> (r: Result<String, SerializeError>)
        ensures
            r matches Ok(s) && s@ == document_xml(*doc),
    {
        application_v15::write_document(doc)
    }
}

} // verus!
