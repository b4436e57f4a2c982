use patpubrender::error::ParseError;
use patpubrender::model::bibliographic::{BibliographicPart, ContinuityPart, DomesticFilingPart};
use patpubrender::model::claims::ClaimsPart;
use patpubrender::model::document::DocumentPart;
use patpubrender::model::runs::Run;
use patpubrender::render::biblio::extract_biblio;
use patpubrender::source::uspto::grant_v25::{normalize_numeric_identifier, UsptoGrantV25Adapter};
use patpubrender::{
    detect_source_format, parse_patent_xml, parse_patent_xml_with_format, render_markdown,
    write_patent_xml, SourceFormat,
};

const GRANT: &str = r#"<?xml version="1.0" encoding="UTF-8"?>
<!DOCTYPE PATDOC SYSTEM "ST32-US-Grant-025xml.dtd" [ ]>
<PATDOC DTD="2.5" STATUS="Build 20010918">
<SDOBI>
<B100><B110><DNUM><PDAT>06334220</PDAT></DNUM></B110><B130><PDAT>B1</PDAT></B130><B140><DATE><PDAT>20020101</PDAT></DATE></B140><B190><PDAT>US</PDAT></B190></B100>
<B200><B210><DNUM><PDAT>09488008</PDAT></DNUM></B210><B220><DATE><PDAT>20000119</PDAT></DATE></B220></B200>
<B500><B510><B511><PDAT>A41D 1300</PDAT></B511></B510><B520><B521><PDAT>002 16</PDAT></B521></B520><B540><STEXT><PDAT>Protective glove</PDAT></STEXT></B540><B560>cited</B560></B500>
<B600><B680US><DOC><DNUM><PDAT><PDAT>60116534</PDAT></PDAT></DNUM><DATE><PDAT>19990120</PDAT></DATE><KIND><PDAT>00</PDAT></KIND></DOC></B680US></B600>
<B700><B720><B721><PARTY-US><NAM><FNM><PDAT>Jane</PDAT></FNM><SNM><STEXT><PDAT>Doe</PDAT></STEXT></SNM></NAM></PARTY-US></B721></B720><B730><B731><PARTY-US><NAM><ONM><STEXT><PDAT>Acme Corp.</PDAT></STEXT></ONM></NAM></PARTY-US></B731></B730></B700>
</SDOBI>
<SDOAB><BTEXT><PARA ID="P-00001"><PTEXT><PDAT>A glove with a </PDAT><ITALIC><PDAT>guard</PDAT></ITALIC><PDAT>.</PDAT></PTEXT></PARA></BTEXT></SDOAB>
<SDODE><BRFSUM><BTEXT><H LVL="1"><STEXT><PDAT>SUMMARY</PDAT></STEXT></H><PARA ID="P-00002" LVL="0"><PTEXT><PDAT>The glove protects.</PDAT></PTEXT></PARA></BTEXT></BRFSUM></SDODE>
<SDOCL><H><STEXT><PDAT>What is claimed is:</PDAT></STEXT></H><CL><CLM ID="CLM-00001"><PARA ID="P-00003"><PTEXT><PDAT>1. A protective glove.</PDAT></PTEXT></PARA></CLM></CL></SDOCL>
</PATDOC>
"#;

#[test]
fn grant_v25_is_detected_and_parsed() {
    assert_eq!(detect_source_format(GRANT), Ok(SourceFormat::UsptoGrantV25));
    let doc = parse_patent_xml(GRANT).expect("parses");
    assert_eq!(doc.source_format, SourceFormat::UsptoGrantV25);
    assert_eq!(doc.parts.len(), 4);
    let biblio = match &doc.parts[0] {
        DocumentPart::BibliographicInformation(b) => b,
        other => panic!("unexpected {other:?}"),
    };
    match &biblio.parts[0] {
        BibliographicPart::DocumentId(d) => {
            assert_eq!(d.doc_number, "06334220");
            assert_eq!(d.kind_code.as_deref(), Some("B1"));
        }
        other => panic!("unexpected {other:?}"),
    }
    match &biblio.parts[1] {
        BibliographicPart::DomesticFilingData(d) => match &d.parts[0] {
            DomesticFilingPart::ApplicationNumber(a) => assert_eq!(a.doc_number.as_deref(), Some("9488008")),
            other => panic!("unexpected {other:?}"),
        },
        other => panic!("unexpected {other:?}"),
    }
    assert!(matches!(biblio.parts[2], BibliographicPart::TechnicalInformation(_)));
    assert!(matches!(biblio.parts[3], BibliographicPart::Opaque(_)));
    match &biblio.parts[4] {
        BibliographicPart::ContinuityData(c) => match &c.parts[0] {
            ContinuityPart::RelatedDocument(r) => {
                assert_eq!(r.relationship.as_deref(), Some("us-provisional-application"));
                assert_eq!(r.parent_doc_number.as_deref(), Some("60116534"));
            }
            other => panic!("unexpected {other:?}"),
        },
        other => panic!("unexpected {other:?}"),
    }
    match (&biblio.parts[5], &biblio.parts[6]) {
        (BibliographicPart::Applicants(a), BibliographicPart::Assignees(s)) => {
            assert_eq!(a.parties[0].name.as_deref(), Some("Jane Doe"));
            assert_eq!(s.parties[0].name.as_deref(), Some("Acme Corp."));
        }
        other => panic!("unexpected {other:?}"),
    }
    match &doc.parts[3] {
        DocumentPart::Claims(c) => {
            assert_eq!(c.parts.len(), 2);
            assert!(matches!(c.parts[0], ClaimsPart::Heading(_)));
            match &c.parts[1] {
                ClaimsPart::Claim(claim) => {
                    assert_eq!(claim.id.as_deref(), Some("CLM-00001"));
                    assert!(matches!(claim.content[0], Run::ClaimText(_)));
                }
                other => panic!("unexpected {other:?}"),
            }
        }
        other => panic!("unexpected {other:?}"),
    }
    let b = extract_biblio(&doc);
    assert_eq!(b.invention_title.as_deref(), Some("Protective glove"));
    let md = render_markdown(&doc);
    assert!(md.contains("# Protective glove"), "{md}");
    assert!(md.contains("*guard*"), "{md}");
    assert!(md.contains("1. A protective glove."), "{md}");
}

#[test]
fn grant_v25_writes_back_what_it_reads() {
    let doc = parse_patent_xml(GRANT).expect("parses");
    let xml = write_patent_xml(&doc).expect("writes");
    assert!(xml.contains("<PATDOC DTD=\"2.5\" STATUS=\"Build 20010918\">"), "{xml}");
    assert!(xml.contains("<B680US><DOC><DNUM><PDAT><PDAT>60116534</PDAT></PDAT></DNUM><DATE><PDAT>19990120</PDAT></DATE><KIND><PDAT>00</PDAT></KIND></DOC></B680US>"), "{xml}");
    assert!(xml.contains("<B210><DNUM><PDAT>9488008</PDAT></DNUM></B210>"), "{xml}");
    let again = parse_patent_xml_with_format(&xml, SourceFormat::UsptoGrantV25).expect("reparses");
    assert_eq!(render_markdown(&again), render_markdown(&doc));
    assert_eq!(write_patent_xml(&again).unwrap(), xml);
}

#[test]
fn grant_v25_requires_patdoc_root() {
    match UsptoGrantV25Adapter.parse_document("<?xml version=\"1.0\"?><other/>") {
        Err(ParseError::UnsupportedStructure(m)) => assert_eq!(m, "UsptoGrantV25 requires PATDOC root"),
        other => panic!("unexpected {other:?}"),
    }
}

#[test]
fn numeric_identifiers_lose_leading_zeros() {
    assert_eq!(normalize_numeric_identifier(" 0009488008 "), "9488008");
    assert_eq!(normalize_numeric_identifier("000"), "0");
    assert_eq!(normalize_numeric_identifier("PCT/US99"), "PCT/US99");
    assert_eq!(normalize_numeric_identifier(""), "");
}
