//! Error types for detection, parsing, and serialization.

use vstd::prelude::*;

use crate::text::{copy_str, push_str, string_eq_str};

verus! {

#[derive(Debug, Clone, PartialEq, Eq)]
pub enum DetectError {
    MalformedXml,
    UnsupportedRoot(String),
    UnknownFormat,
    ConflictingVersionMarkers,
}

/// The mathematical value of a [`DetectError`]: the same variants, with the
/// root name as text.
pub enum DetectErrorView {
    MalformedXml,
    UnsupportedRoot(Seq<char>),
    UnknownFormat,
    ConflictingVersionMarkers,
}

impl View for DetectError {
    type V = DetectErrorView;

    open spec fn view(&self) -> DetectErrorView {
        match self {
            DetectError::MalformedXml => DetectErrorView::MalformedXml,
            DetectError::UnsupportedRoot(root) => DetectErrorView::UnsupportedRoot(root@),
            DetectError::UnknownFormat => DetectErrorView::UnknownFormat,
            DetectError::ConflictingVersionMarkers => DetectErrorView::ConflictingVersionMarkers,
        }
    }
}

/// Roots of well-formed records in the weekly feeds that are not patent
/// documents (sequence listings, standalone tables).
pub open spec fn spec_is_supplemental_xml_root(root: Seq<char>) -> bool {
    root == "sequence-cwu"@ || root == "table"@
}

pub fn is_supplemental_xml_root(root: &String) -> (r: bool)
    ensures
        r == spec_is_supplemental_xml_root(root@),
{
    string_eq_str(root, "sequence-cwu") || string_eq_str(root, "table")
}

pub open spec fn spec_detect_is_supplemental(e: DetectError) -> bool {
    e matches DetectError::UnsupportedRoot(root) && spec_is_supplemental_xml_root(root@)
}

/// The text `Display` writes for a detection error.
pub open spec fn spec_detect_message(e: DetectError) -> Seq<char> {
    match e {
        DetectError::MalformedXml => "malformed XML"@,
        DetectError::UnsupportedRoot(root) => if spec_is_supplemental_xml_root(root@) {
            "supplemental XML root '"@ + root@ + "'"@
        } else {
            "unsupported XML root '"@ + root@ + "'"@
        },
        DetectError::UnknownFormat => "unknown XML format"@,
        DetectError::ConflictingVersionMarkers => "conflicting XML version markers"@,
    }
}

impl DetectError {
    pub fn is_supplemental_root(&self) -> (r: bool)
        ensures
            r == spec_detect_is_supplemental(*self),
    {
        match self {
            DetectError::UnsupportedRoot(root) => is_supplemental_xml_root(root),
            _ => false,
        }
    }

    /// The human-readable message (what `Display` prints).
    pub fn message(&self) -> (r: String)
        ensures
            r@ == spec_detect_message(*self),
    {
        match self {
            DetectError::MalformedXml => copy_str("malformed XML"),
            DetectError::UnsupportedRoot(root) => {
                let mut out = if is_supplemental_xml_root(root) {
                    copy_str("supplemental XML root '")
                } else {
                    copy_str("unsupported XML root '")
                };
                push_str(&mut out, root.as_str());
                push_str(&mut out, "'");
                out
            },
            DetectError::UnknownFormat => copy_str("unknown XML format"),
            DetectError::ConflictingVersionMarkers => copy_str("conflicting XML version markers"),
        }
    }
}

#[derive(Debug, Clone, PartialEq, Eq)]
pub enum ParseError {
    Detect(DetectError),
    UnsupportedStructure(String),
    MalformedXml(String),
}

pub open spec fn spec_parse_is_supplemental(e: ParseError) -> bool {
    e matches ParseError::Detect(d) && spec_detect_is_supplemental(d)
}

pub open spec fn spec_parse_message(e: ParseError) -> Seq<char> {
    match e {
        ParseError::Detect(d) => "source detection failed: "@ + spec_detect_message(d),
        ParseError::UnsupportedStructure(m) => m@,
        ParseError::MalformedXml(m) => m@,
    }
}

impl ParseError {
    pub fn is_supplemental_root(&self) -> (r: bool)
        ensures
            r == spec_parse_is_supplemental(*self),
    {
        match self {
            ParseError::Detect(error) => error.is_supplemental_root(),
            _ => false,
        }
    }

    /// The human-readable message (what `Display` prints).
    pub fn message(&self) -> (r: String)
        ensures
            r@ == spec_parse_message(*self),
    {
        match self {
            ParseError::Detect(error) => {
                let mut out = copy_str("source detection failed: ");
                let inner = error.message();
                push_str(&mut out, inner.as_str());
                out
            },
            ParseError::UnsupportedStructure(message) => message.clone(),
            ParseError::MalformedXml(message) => message.clone(),
        }
    }
}

impl From<DetectError> for ParseError {
    fn from(value: DetectError) -> (r: Self)
        ensures
            r == ParseError::Detect(value),
    {
        ParseError::Detect(value)
    }
}

impl vstd::std_specs::convert::FromSpecImpl<DetectError> for ParseError {
    open spec fn obeys_from_spec() -> bool {
        true
    }

    open spec fn from_spec(v: DetectError) -> ParseError {
        ParseError::Detect(v)
    }
}

#[derive(Debug, Clone, PartialEq, Eq)]
pub enum SerializeError {
    UnsupportedFormat(String),
}

impl SerializeError {
    /// The human-readable message (what `Display` prints).
    pub fn message(&self) -> (r: String)
        ensures
            r@ == (match *self {
                SerializeError::UnsupportedFormat(m) => m@,
            }),
    {
        match self {
            SerializeError::UnsupportedFormat(message) => message.clone(),
        }
    }
}

} // verus!
