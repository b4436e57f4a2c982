use patpubrender::error::ParseError;
use patpubrender::model::bibliographic::{
    BibliographicPart, CorrespondenceAddressPart, InventorsPart, TechnicalInformationPart,
};
use patpubrender::model::claims::ClaimsPart;
use patpubrender::model::document::DocumentPart;
use patpubrender::model::runs::Run;
use patpubrender::source::uspto::application_v15::UsptoApplicationV15Adapter;
use patpubrender::source::uspto::application_v16::UsptoApplicationV16Adapter;
use patpubrender::{
    detect_source_format, parse_patent_xml, parse_patent_xml_with_format, render_markdown,
    write_patent_xml, SourceFormat,
};

const PUBLICATION: &str = r#"<?xml version="1.0" encoding="UTF-8"?>
<!DOCTYPE patent-application-publication SYSTEM "pap-v15-2001-01-31.dtd" [ ]>
<patent-application-publication>
<subdoc-bibliographic-information>
<document-id><doc-number>20010000001</doc-number><kind-code>A1</kind-code><document-date>20010531</document-date></document-id>
<publication-filing-type>new-utility</publication-filing-type>
<domestic-filing-data><application-number><doc-number>09725998</doc-number></application-number><application-number-series-code>09</application-number-series-code><filing-date>20001130</filing-date></domestic-filing-data>
<technical-information><classification-ipc><classification-ipc-primary><ipc>A01B001/00</ipc></classification-ipc-primary></classification-ipc><classification-us><classification-us-primary><uspc><class>172</class></uspc></classification-us-primary></classification-us><title-of-invention>Garden tool</title-of-invention></technical-information>
<continuity-data><continuation-of><parent-child><child><document-id><doc-number>09000001</doc-number><document-date>19990101</document-date></document-id></child></parent-child></continuation-of></continuity-data>
<inventors><first-named-inventor><name><given-name>Jane</given-name><family-name>Doe</family-name></name><residence><residence-us><city>Austin</city><state>TX</state><country-code>US</country-code></residence-us></residence></first-named-inventor><inventor><name><given-name>Li</given-name><family-name>Wei</family-name></name></inventor></inventors>
<correspondence-address><name-1>LAW FIRM</name-1><address><address-1>1 Main St</address-1><address-2>Suite 5</address-2><city>Austin</city><state>TX</state><postalcode>78701</postalcode><country><country-code>US</country-code></country></address></correspondence-address>
</subdoc-bibliographic-information>
<subdoc-abstract><paragraph id="A-0001" lvl="0">A <bold>garden</bold> tool &amp; rake.</paragraph></subdoc-abstract>
<subdoc-description><summary-of-invention><section><heading lvl="1">SUMMARY</heading><paragraph id="P-0001" lvl="0">The tool digs.</paragraph></section></summary-of-invention></subdoc-description>
<subdoc-claims><heading lvl="1">What is claimed is:</heading><claim id="CLM-00001"><claim-text>1. A garden tool.</claim-text></claim></subdoc-claims>
</patent-application-publication>
"#;

#[test]
fn v15_publication_is_detected_and_parsed() {
    assert_eq!(detect_source_format(PUBLICATION), Ok(SourceFormat::UsptoApplicationV15));
    let doc = parse_patent_xml(PUBLICATION).expect("parses");
    assert_eq!(doc.source_format, SourceFormat::UsptoApplicationV15);
    assert_eq!(doc.parts.len(), 4);
    let biblio = match &doc.parts[0] {
        DocumentPart::BibliographicInformation(b) => b,
        other => panic!("unexpected {other:?}"),
    };
    assert_eq!(biblio.parts.len(), 7);
    match &biblio.parts[0] {
        BibliographicPart::DocumentId(d) => {
            assert_eq!(d.doc_number, "20010000001");
            assert_eq!(d.kind_code.as_deref(), Some("A1"));
            assert_eq!(d.document_date.as_deref(), Some("20010531"));
            assert_eq!(d.country_code, None);
        }
        other => panic!("unexpected {other:?}"),
    }
    match &biblio.parts[1] {
        BibliographicPart::PublicationFilingType(v) => assert_eq!(v, "new-utility"),
        other => panic!("unexpected {other:?}"),
    }
    match &biblio.parts[3] {
        BibliographicPart::TechnicalInformation(t) => {
            match &t.parts[0] {
                TechnicalInformationPart::ClassificationIpc(c) => {
                    assert_eq!(c.main_classification.as_deref(), Some("A01B001/00"))
                }
                other => panic!("unexpected {other:?}"),
            }
            match &t.parts[1] {
                TechnicalInformationPart::ClassificationUs(c) => {
                    assert_eq!(c.national_classification.as_deref(), Some("172"))
                }
                other => panic!("unexpected {other:?}"),
            }
            match &t.parts[2] {
                TechnicalInformationPart::TitleOfInvention(v) => assert_eq!(v, "Garden tool"),
                other => panic!("unexpected {other:?}"),
            }
        }
        other => panic!("unexpected {other:?}"),
    }
    match &biblio.parts[4] {
        BibliographicPart::ContinuityData(c) => match &c.parts[0] {
            patpubrender::model::bibliographic::ContinuityPart::NonProvisionalOfProvisional(r) => {
                assert_eq!(r.relationship.as_deref(), Some("continuation-of"));
                assert_eq!(r.parent_doc_number.as_deref(), Some("09000001"));
                assert_eq!(r.parent_date.as_deref(), Some("19990101"));
            }
            other => panic!("unexpected {other:?}"),
        },
        other => panic!("unexpected {other:?}"),
    }
    match &biblio.parts[5] {
        BibliographicPart::Inventors(v) => {
            assert_eq!(v.parts.len(), 2);
            match &v.parts[0] {
                InventorsPart::FirstNamedInventor(i) => {
                    assert_eq!(i.first_name.as_deref(), Some("Jane"));
                    assert_eq!(i.last_name.as_deref(), Some("Doe"));
                    assert_eq!(i.city.as_deref(), Some("Austin"));
                    assert_eq!(i.state.as_deref(), Some("TX"));
                    assert_eq!(i.country.as_deref(), Some("US"));
                }
                other => panic!("unexpected {other:?}"),
            }
            match &v.parts[1] {
                InventorsPart::Inventor(i) => {
                    assert_eq!(i.first_name.as_deref(), Some("Li"));
                    assert_eq!(i.city, None);
                }
                other => panic!("unexpected {other:?}"),
            }
        }
        other => panic!("unexpected {other:?}"),
    }
    match &biblio.parts[6] {
        BibliographicPart::CorrespondenceAddress(c) => {
            match &c.parts[0] {
                CorrespondenceAddressPart::Name1(v) => assert_eq!(v, "LAW FIRM"),
                other => panic!("unexpected {other:?}"),
            }
            match &c.parts[1] {
                CorrespondenceAddressPart::Address(a) => {
                    assert_eq!(a.lines, vec!["1 Main St".to_string(), "Suite 5".to_string()]);
                    assert_eq!(a.postal_code.as_deref(), Some("78701"));
                    assert_eq!(a.country.as_deref(), Some("US"));
                }
                other => panic!("unexpected {other:?}"),
            }
        }
        other => panic!("unexpected {other:?}"),
    }
    match &doc.parts[3] {
        DocumentPart::Claims(c) => match &c.parts[1] {
            ClaimsPart::Claim(claim) => {
                assert_eq!(claim.id.as_deref(), Some("CLM-00001"));
                assert!(matches!(claim.content[0], Run::ClaimText(_)));
            }
            other => panic!("unexpected {other:?}"),
        },
        other => panic!("unexpected {other:?}"),
    }
}

#[test]
fn v15_publication_renders_title_and_claims() {
    let doc = parse_patent_xml(PUBLICATION).expect("parses");
    let md = render_markdown(&doc);
    assert!(md.contains("# Garden tool"), "{md}");
    assert!(md.contains("## Claims"), "{md}");
    assert!(md.contains("A garden tool."), "{md}");
}

#[test]
fn v15_publication_is_written_in_its_own_schema() {
    let doc = parse_patent_xml(PUBLICATION).expect("parses");
    let xml = write_patent_xml(&doc).expect("writes");
    assert!(xml.contains("<patent-application-publication>"), "{xml}");
    assert!(xml.ends_with("</patent-application-publication>"), "{xml}");
    assert!(
        xml.contains("<document-id><doc-number>20010000001</doc-number><kind-code>A1</kind-code><document-date>20010531</document-date></document-id>"),
        "{xml}"
    );
    assert!(
        xml.contains("<classification-us><classification-us-primary><uspc><class>172</class></uspc></classification-us-primary></classification-us>"),
        "{xml}"
    );
    assert!(
        xml.contains("<continuation-of><document-id><doc-number>09000001</doc-number><document-date>19990101</document-date></document-id></continuation-of>"),
        "{xml}"
    );
    assert!(
        xml.contains("<inventor><name><given-name>Li</given-name><family-name>Wei</family-name></name></inventor>"),
        "{xml}"
    );
    assert!(
        xml.contains("<address><address-1>1 Main St</address-1><address-2>Suite 5</address-2><city>Austin</city><state>TX</state><postalcode>78701</postalcode><country><country-code>US</country-code></country></address>"),
        "{xml}"
    );
    assert!(
        xml.contains("<paragraph id=\"A-0001\" lvl=\"0\">A <bold>garden</bold> tool &amp; rake.</paragraph>"),
        "{xml}"
    );
}

#[test]
fn v15_written_publication_reads_back_the_same() {
    let doc = parse_patent_xml(PUBLICATION).expect("parses");
    let xml = write_patent_xml(&doc).expect("writes");
    let again = parse_patent_xml_with_format(&xml, SourceFormat::UsptoApplicationV15).expect("reparses");
    assert_eq!(write_patent_xml(&again).unwrap(), xml);
    assert_eq!(render_markdown(&again), render_markdown(&doc));
}

#[test]
fn v15_wrong_root_is_refused() {
    let xml = "<?xml version=\"1.0\"?><us-patent-grant><x/></us-patent-grant>";
    match parse_patent_xml_with_format(xml, SourceFormat::UsptoApplicationV15) {
        Err(ParseError::UnsupportedStructure(m)) => {
            assert_eq!(m, "UsptoApplicationV15 requires patent-application-publication root")
        }
        other => panic!("unexpected: {other:?}"),
    }
}

#[test]
fn v16_adapter_keeps_its_format() {
    let doc = UsptoApplicationV16Adapter.parse_document(PUBLICATION).expect("parses");
    assert_eq!(doc.source_format, SourceFormat::UsptoApplicationV16);
    let a = UsptoApplicationV16Adapter.write_document(&doc).unwrap();
    let b = UsptoApplicationV15Adapter.write_document(&doc).unwrap();
    assert_eq!(a, b);
}
