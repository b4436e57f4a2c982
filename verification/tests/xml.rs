use patpubrender::source::xml::{child_content_nodes, child_elements, parse_tree, XmlNode};
use patpubrender::error::ParseError;
use patpubrender::model::document::DocumentPart;
use patpubrender::{
    detect_source_format, parse_patent_xml, parse_patent_xml_with_format, render_markdown,
    write_patent_xml, SourceFormat,
};

const APPLICATION: &str = r#"<?xml version="1.0" encoding="UTF-8"?>
<!DOCTYPE us-patent-application SYSTEM "us-patent-application-v46-2022-02-17.dtd" [ ]>
<us-patent-application lang="EN" dtd-version="v4.6 2022-02-17" file="US20230000001A1-20230105.XML" status="PRODUCTION" id="us-patent-application" country="US" date-produced="20221221" date-publ="20230105">
<us-bibliographic-data-application lang="EN" country="US">
<publication-reference>
<document-id>
<country>US</country>
<doc-number>20230000001</doc-number>
<kind>A1</kind>
<date>20230105</date>
</document-id>
</publication-reference>
<application-reference appl-type="utility">
<document-id>
<country>US</country>
<doc-number>17123456</doc-number>
<date>20210630</date>
</document-id>
</application-reference>
<us-application-series-code>17</us-application-series-code>
<invention-title id="d2e43">Widget framework</invention-title>
</us-bibliographic-data-application>
<abstract id="abstract">
<p id="p-0001" num="0000">An abstract of the <i>widget</i>.</p>
</abstract>
<description id="description">
<heading id="h-0001" level="1">BACKGROUND</heading>
<p id="p-0002" num="0001">Widgets are useful.</p>
</description>
<claims id="claims">
<claim id="CLM-00001" num="00001">
<claim-text>1. A widget comprising a frame.</claim-text>
</claim>
</claims>
</us-patent-application>
"#;

#[test]
fn application_is_detected_and_parsed() {
    assert_eq!(detect_source_format(APPLICATION), Ok(SourceFormat::UsptoApplicationV46));
    let doc = parse_patent_xml(APPLICATION).expect("parses");
    assert_eq!(doc.source_format, SourceFormat::UsptoApplicationV46);
    assert_eq!(doc.parts.len(), 4);
    assert!(matches!(doc.parts[0], DocumentPart::BibliographicInformation(_)));
    assert!(matches!(doc.parts[1], DocumentPart::AbstractSection(_)));
    assert!(matches!(doc.parts[2], DocumentPart::Description(_)));
    assert!(matches!(doc.parts[3], DocumentPart::Claims(_)));
    let md = render_markdown(&doc);
    assert!(md.contains("# Widget framework"), "{md}");
    assert!(md.contains("application_number: 17/123456"), "{md}");
    assert!(md.contains("## Claims"), "{md}");
    assert!(md.contains("A widget comprising a frame."), "{md}");
}

#[test]
fn written_application_reads_back_the_same() {
    let doc = parse_patent_xml(APPLICATION).expect("parses");
    let xml = write_patent_xml(&doc).expect("writes");
    assert!(xml.starts_with("<?xml version=\"1.0\" encoding=\"UTF-8\"?>"), "{xml}");
    assert!(xml.contains("<us-patent-application "), "{xml}");
    let again = parse_patent_xml_with_format(&xml, SourceFormat::UsptoApplicationV46).expect("reparses");
    assert_eq!(render_markdown(&again), render_markdown(&doc));
    assert_eq!(write_patent_xml(&again).unwrap(), xml);
}

#[test]
fn wrong_root_is_refused_for_v4_applications() {
    let xml = "<?xml version=\"1.0\"?><us-patent-grant><x/></us-patent-grant>";
    match parse_patent_xml_with_format(xml, SourceFormat::UsptoApplicationV44) {
        Err(ParseError::UnsupportedStructure(m)) => {
            assert_eq!(m, "v4.x applications require us-patent-application root")
        }
        other => panic!("unexpected: {other:?}"),
    }
}

#[test]
fn malformed_xml_is_reported() {
    let r = parse_patent_xml_with_format("<us-patent-application><a></us-patent-application>", SourceFormat::UsptoApplicationV44);
    assert!(matches!(r, Err(ParseError::MalformedXml(_))), "{r:?}");
}

#[test]
fn detection_failure_is_a_parse_error() {
    assert!(matches!(parse_patent_xml("   "), Err(ParseError::Detect(_))));
}

#[test]
fn child_elements_and_content_nodes_skip_what_they_should() {
    let tree = parse_tree("<r>\n  <a/>text<!--c--><b/>  </r>").expect("parses");
    let root = match &tree.root {
        XmlNode::Document(cs) => cs.iter().find(|c| matches!(c, XmlNode::Element { .. })).unwrap(),
        _ => panic!("no document"),
    };
    let names: Vec<String> = child_elements(root)
        .iter()
        .map(|n| match n {
            XmlNode::Element { name, .. } => name.clone(),
            _ => String::new(),
        })
        .collect();
    assert_eq!(names, vec!["a".to_string(), "b".to_string()]);
    assert_eq!(child_content_nodes(root).len(), 4);
}
