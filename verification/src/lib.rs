//! USPTO patent document parsing and compact Markdown rendering.

pub mod error;
pub mod extract;
pub mod ingest;
mod json;
pub mod model;
pub mod render;
pub mod shard;
pub mod source;
pub mod text;

use vstd::prelude::*;

use error::{ParseError, SerializeError};
use model::document::PatentDocument;
pub use render::markdown::{render_markdown, render_markdown_with_template};
pub use render::template::{Template, TemplateError, DEFAULT_TEMPLATE};
pub use source::aps::{aps_record_starts, next_aps_record_start};
use source::aps::{aps_outcome_ok, UsptoGrantApsGreenBookAdapter};
pub use source::detect::{detect_source_format, SourceFormat};
use source::detect::{spec_detect_source_format, version_named};
use text::{contains, find, lemma_find_from_bounds, lemma_find_from_none, matches_at};
use source::uspto::application_v4x::{self, document_xml};
use source::uspto::application_v15;
use source::uspto::grant_v25;

verus! {

/// The schema family that reads and writes documents of `format`.
pub enum SchemaFamily {
    ApplicationV1x,
    ApplicationV4x,
    GrantV25,
    GrantV4x,
    GreenBook,
}

pub open spec fn schema_family(format: SourceFormat) -> SchemaFamily {
    match format {
        SourceFormat::UsptoApplicationV15 | SourceFormat::UsptoApplicationV16 => SchemaFamily::ApplicationV1x,
        SourceFormat::UsptoApplicationV40 | SourceFormat::UsptoApplicationV41
        | SourceFormat::UsptoApplicationV42 | SourceFormat::UsptoApplicationV43
        | SourceFormat::UsptoApplicationV44 | SourceFormat::UsptoApplicationV45
        | SourceFormat::UsptoApplicationV46 => SchemaFamily::ApplicationV4x,
        SourceFormat::UsptoGrantV25 => SchemaFamily::GrantV25,
        SourceFormat::UsptoGrantApsGreenBook => SchemaFamily::GreenBook,
        _ => SchemaFamily::GrantV4x,
    }
}

/// What reading `input` as `format` gives.
pub open spec fn parse_outcome_ok(
    input: Seq<char>,
    format: SourceFormat,
    r: Result<PatentDocument, ParseError>,
) -> bool {
    match schema_family(format) {
        SchemaFamily::ApplicationV1x => application_v15::read_outcome(input, format, r),
        SchemaFamily::ApplicationV4x => application_v4x::read_outcome(input, format, r),
        SchemaFamily::GrantV25 => grant_v25::read_outcome(input, r),
        SchemaFamily::GreenBook => aps_outcome_ok(input, r),
        _ => r matches Err(ParseError::UnsupportedStructure(m)) && m@ == unsupported_schema_message(),
    }
}

/// The error text for a schema version this library has no reader or writer
/// for (the grant schemas of version 4).
pub open spec fn unsupported_schema_message() -> Seq<char> {
    "no reader for this schema version"@
}

/// Parse USPTO patent text with an explicit source format.
pub fn parse_patent_xml_with_format(input: &str, format: SourceFormat) -> (r: Result<
    PatentDocument,
    ParseError,
>)
    ensures
        parse_outcome_ok(input@, format, r),
{
    match format {
        SourceFormat::UsptoApplicationV15 | SourceFormat::UsptoApplicationV16 => {
            application_v15::parse_document(input, format)
        },
        SourceFormat::UsptoApplicationV40 | SourceFormat::UsptoApplicationV41
        | SourceFormat::UsptoApplicationV42 | SourceFormat::UsptoApplicationV43
        | SourceFormat::UsptoApplicationV44 | SourceFormat::UsptoApplicationV45
        | SourceFormat::UsptoApplicationV46 => application_v4x::parse_document(input, format),
        SourceFormat::UsptoGrantV25 => grant_v25::parse_document(input),
        SourceFormat::UsptoGrantApsGreenBook => UsptoGrantApsGreenBookAdapter.parse_document(input),
        _ => Err(ParseError::UnsupportedStructure(text::copy_str("no reader for this schema version"))),
    }
}

/// Parse USPTO patent XML, detecting its schema version first; a detection
/// failure is `ParseError::Detect`.
pub fn parse_patent_xml(input: &str) -> (r: Result<PatentDocument, ParseError>)
    ensures
        match spec_detect_source_format(input@) {
            Ok(format) => parse_outcome_ok(input@, format, r),
            Err(e) => r matches Err(ParseError::Detect(d)) && d@ == e,
        },
{
    match detect_source_format(input) {
        Ok(format) => parse_patent_xml_with_format(input, format),
        Err(e) => Err(ParseError::from(e)),
    }
}

/// Parse one Green Book "APS" plain-text grant record.
pub fn parse_patent_aps(input: &str) -> (r: Result<PatentDocument, ParseError>)
    ensures
        aps_outcome_ok(input@, r),
{
    UsptoGrantApsGreenBookAdapter.parse_document(input)
}

/// What writing `doc` back to its source format gives.
pub open spec fn write_outcome_ok(doc: PatentDocument, r: Result<String, SerializeError>) -> bool {
    match schema_family(doc.source_format) {
        SchemaFamily::ApplicationV1x => r matches Ok(s) && s@ == application_v15::document_xml(doc),
        SchemaFamily::ApplicationV4x => r matches Ok(s) && s@ == document_xml(doc),
        SchemaFamily::GrantV25 => r matches Ok(s) && s@ == grant_v25::document_xml(doc),
        SchemaFamily::GreenBook => r matches Err(SerializeError::UnsupportedFormat(m)) && m@
            == "UsptoGrantApsGreenBook does not support serialization"@,
        _ => r matches Err(SerializeError::UnsupportedFormat(m)) && m@ == unsupported_schema_message(),
    }
}

/// Serialize a document back to its source XML.
pub fn write_patent_xml(doc: &PatentDocument) -> (r: Result<String, SerializeError>)
    ensures
        write_outcome_ok(*doc, r),
{
    match doc.source_format {
        SourceFormat::UsptoApplicationV15 | SourceFormat::UsptoApplicationV16 => {
            application_v15::write_document(doc)
        },
        SourceFormat::UsptoApplicationV40 | SourceFormat::UsptoApplicationV41
        | SourceFormat::UsptoApplicationV42 | SourceFormat::UsptoApplicationV43
        | SourceFormat::UsptoApplicationV44 | SourceFormat::UsptoApplicationV45
        | SourceFormat::UsptoApplicationV46 => application_v4x::write_document(doc),
        SourceFormat::UsptoGrantV25 => grant_v25::write_document(doc),
        SourceFormat::UsptoGrantApsGreenBook => UsptoGrantApsGreenBookAdapter.write_document(doc),
        _ => Err(SerializeError::UnsupportedFormat(text::copy_str("no reader for this schema version"))),
    }
}

/// `t` occurs in `s`.
pub open spec fn has_infix(s: Seq<char>, t: Seq<char>) -> bool {
    exists|i: int| 0 <= i && i + t.len() <= s.len() && #[trigger] s.subrange(i, i + t.len()) == t
}

proof fn lemma_prefix_infix(a: Seq<char>, b: Seq<char>, c: Seq<char>, t: Seq<char>)
    requires
        t.len() <= b.len(),
        b.subrange(0, t.len() as int) == t,
    ensures
        has_infix(a + b + c, t),
{
    let s = a + b + c;
    assert(s.subrange(a.len() as int, (a.len() + t.len()) as int) =~= t) by {
        assert forall|k: int| 0 <= k < t.len() implies s.subrange(a.len() as int, (a.len() + t.len()) as int)[k]
            == t[k] by {
            assert(s[a.len() + k] == b[k]);
            assert(b.subrange(0, t.len() as int)[k] == b[k]);
        }
    }
}

/// A written document's DOCTYPE keeps the identifiers of its prolog: the
/// system identifier after `SYSTEM` when there is no public one, and the
/// public identifier after `PUBLIC`, followed by the system one, otherwise.
pub proof fn law_written_doctype_keeps_identifiers(
    doc: PatentDocument,
    r: Result<String, SerializeError>,
)
    requires
        write_outcome_ok(doc, r),
        r is Ok,
    ensures
        (doc.prolog.doctype_name is Some && doc.prolog.doctype_system_id is Some
            && doc.prolog.doctype_public_id is None) ==> has_infix(
            r->Ok_0@,
            "<!DOCTYPE "@ + doc.prolog.doctype_name->Some_0@ + " SYSTEM \""@
                + doc.prolog.doctype_system_id->Some_0@ + seq!['"'],
        ),
        (doc.prolog.doctype_name is Some && doc.prolog.doctype_system_id is Some
            && doc.prolog.doctype_public_id is Some) ==> has_infix(
            r->Ok_0@,
            "<!DOCTYPE "@ + doc.prolog.doctype_name->Some_0@ + " PUBLIC \""@
                + doc.prolog.doctype_public_id->Some_0@ + seq!['"'] + " \""@
                + doc.prolog.doctype_system_id->Some_0@ + seq!['"'],
        ),
        (doc.prolog.doctype_name is Some && doc.prolog.doctype_system_id is None
            && doc.prolog.doctype_public_id is Some) ==> has_infix(
            r->Ok_0@,
            "<!DOCTYPE "@ + doc.prolog.doctype_name->Some_0@ + " PUBLIC \""@
                + doc.prolog.doctype_public_id->Some_0@ + seq!['"'],
        ),
{
    reveal_strlit(" SYSTEM");
    reveal_strlit(" SYSTEM \"");
    reveal_strlit(" \"");
    let p = doc.prolog;
    let out = r->Ok_0@;
    let decl = source::xml_write::spec_declaration_xml(p);
    let dt = source::xml_write::spec_doctype_xml(p);
    let rest = out.subrange((decl + dt).len() as int, out.len() as int);
    assert(out == decl + dt + rest) by {
        let body = match schema_family(doc.source_format) {
            SchemaFamily::ApplicationV1x => application_v15::document_xml(doc),
            SchemaFamily::ApplicationV4x => document_xml(doc),
            _ => grant_v25::document_xml(doc),
        };
        assert(out == body);
        assert(body.subrange(0, (decl + dt).len() as int) =~= decl + dt);
        assert(out =~= decl + dt + rest);
    }
    if let Some(n) = p.doctype_name {
        match (p.doctype_public_id, p.doctype_system_id) {
            (None, Some(sid)) => {
                let t = "<!DOCTYPE "@ + n@ + " SYSTEM \""@ + sid@ + seq!['"'];
                assert(dt == "<!DOCTYPE "@ + n@ + Seq::<char>::empty() + (" SYSTEM"@ + " \""@ + sid@
                    + seq!['"']) + source::xml_write::opt_text(p.internal_subset, |v: Seq<char>| " ["@ + v + seq![']'])
                    + seq!['>']);
                assert(" SYSTEM"@ + " \""@ =~= " SYSTEM \""@);
                assert(dt.subrange(0, t.len() as int) =~= t);
                lemma_prefix_infix(decl, dt, rest, t);
            },
            (Some(pid), Some(sid)) => {
                let t = "<!DOCTYPE "@ + n@ + " PUBLIC \""@ + pid@ + seq!['"'] + " \""@ + sid@ + seq!['"'];
                assert(dt.subrange(0, t.len() as int) =~= t);
                lemma_prefix_infix(decl, dt, rest, t);
            },
            (Some(pid), None) => {
                let t = "<!DOCTYPE "@ + n@ + " PUBLIC \""@ + pid@ + seq!['"'];
                assert(dt.subrange(0, t.len() as int) =~= t);
                lemma_prefix_infix(decl, dt, rest, t);
            },
            _ => {},
        }
    }
}

proof fn lemma_contains_within(
    s: Seq<char>,
    i: int,
    pre: Seq<char>,
    mid: Seq<char>,
    post: Seq<char>,
    t: Seq<char>,
)
    requires
        0 <= i,
        i + (pre + mid + post).len() <= s.len(),
        s.subrange(i, i + (pre + mid + post).len()) == pre + mid + post,
        contains(mid, t),
    ensures
        contains(s, t),
{
    let w = pre + mid + post;
    lemma_find_from_bounds(mid, t, 0);
    let k = find(mid, t)->Some_0;
    let j = i + pre.len() + k;
    assert(s.subrange(j, j + t.len()) =~= t) by {
        assert forall|m: int| 0 <= m < t.len() implies s.subrange(j, j + t.len())[m] == t[m] by {
            assert(s.subrange(i, i + w.len())[pre.len() + k + m] == s[j + m]);
            assert(w[pre.len() + k + m] == mid[k + m]);
            assert(mid.subrange(k, k + t.len())[m] == mid[k + m]);
        }
    }
    assert(matches_at(s, t, j));
    lemma_find_from_none(s, t, 0);
}

/// Whatever text the prolog's system identifier holds (the DTD file name
/// that names the schema version, say), the written document holds too.
pub proof fn law_written_document_keeps_system_id_text(
    doc: PatentDocument,
    r: Result<String, SerializeError>,
)
    requires
        write_outcome_ok(doc, r),
        r is Ok,
        doc.prolog.doctype_name is Some,
        doc.prolog.doctype_system_id is Some,
    ensures
        forall|t: Seq<char>|
            contains(doc.prolog.doctype_system_id->Some_0@, t) ==> #[trigger] contains(r->Ok_0@, t),
{
    law_written_doctype_keeps_identifiers(doc, r);
    let p = doc.prolog;
    let out = r->Ok_0@;
    let n = p.doctype_name->Some_0@;
    let sid = p.doctype_system_id->Some_0@;
    let q = seq!['"'];
    assert forall|t: Seq<char>| contains(sid, t) implies #[trigger] contains(out, t) by {
        match p.doctype_public_id {
            None => {
                let pre = "<!DOCTYPE "@ + n + " SYSTEM \""@;
                let w = pre + sid + q;
                assert(has_infix(out, w));
                let i = choose|i: int| 0 <= i && i + w.len() <= out.len() && #[trigger] out.subrange(i, i + w.len()) == w;
                lemma_contains_within(out, i, pre, sid, q, t);
            },
            Some(pid) => {
                let pre = "<!DOCTYPE "@ + n + " PUBLIC \""@ + pid@ + q + " \""@;
                let w = pre + sid + q;
                assert(has_infix(out, w));
                let i = choose|i: int| 0 <= i && i + w.len() <= out.len() && #[trigger] out.subrange(i, i + w.len()) == w;
                lemma_contains_within(out, i, pre, sid, q, t);
            },
        }
    }
}

/// A written document names every schema version that its prolog's system
/// identifier names, so detection reads the version back from its DTD name.
pub proof fn law_written_document_keeps_version_clue(
    doc: PatentDocument,
    r: Result<String, SerializeError>,
    f: SourceFormat,
)
    requires
        write_outcome_ok(doc, r),
        r is Ok,
        doc.prolog.doctype_name is Some,
        doc.prolog.doctype_system_id is Some,
        f != SourceFormat::UsptoGrantApsGreenBook,
        version_named(doc.prolog.doctype_system_id->Some_0@, f),
    ensures
        version_named(r->Ok_0@, f),
{
    law_written_document_keeps_system_id_text(doc, r);
}

} // verus!
