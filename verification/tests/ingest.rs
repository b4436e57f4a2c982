use patpubrender::error::{DetectError, ParseError};
use patpubrender::ingest::{
    aps_record_ranges, attr_value, classify_skip, derive_aps_doc_key, derive_doc_key,
    doc_kind_from_source_file, find_next_record_start, has_aps_name, has_xml_name,
    is_record_start_at, manifest_json, record_text, root_start_tag, split_documents,
    RecordSplitter, SkipKind,
};

fn chars(s: &str) -> Vec<char> {
    s.chars().collect()
}

fn text(v: &[char]) -> String {
    v.iter().collect()
}

fn documents(bytes: &[u8]) -> Vec<String> {
    split_documents(bytes).into_iter().filter_map(record_text).collect()
}

#[test]
fn doc_key_uses_root_file_attribute_only() {
    let xml = r#"<?xml version="1.0"?>
<!DOCTYPE us-patent-grant SYSTEM "us-patent-grant-v47.dtd">
<us-patent-grant lang="EN" dtd-version="v4.7 2022-02-17">
  <description file="WRONG.XML" />
  <doc-number>7654321</doc-number>
</us-patent-grant>"#;

    assert_eq!(derive_doc_key(xml, 0), "7654321");
}

#[test]
fn splitter_ignores_non_record_xml_processing_instruction_text() {
    let mut xml = String::new();
    xml.push_str("<?xml version=\"1.0\"?><us-patent-grant></us-patent-grant>");
    xml.push_str("text <?xml-stylesheet type=\"text/xsl\"?> text");
    xml.push_str("<?xml version=\"1.0\"?><sequence-cwu></sequence-cwu>");

    let docs = documents(xml.as_bytes());

    assert_eq!(docs.len(), 2);
    assert!(docs[0].contains("xml-stylesheet"));
    assert!(docs[1].contains("sequence-cwu"));
}

#[test]
fn doc_key_prefers_root_file_attribute_without_extension() {
    let xml = "<?xml version=\"1.0\"?>\n<!-- c -->\n<us-patent-grant file=\"US11111111-20240102.XML\"><doc-number>1</doc-number></us-patent-grant>";
    assert_eq!(derive_doc_key(xml, 0), "US11111111-20240102");
    let single = "<root file='abc'>";
    assert_eq!(derive_doc_key(single, 0), "abc");
}

#[test]
fn doc_key_falls_back_to_ordinal() {
    assert_eq!(derive_doc_key("<a><b/></a>", 4), "5");
    assert_eq!(derive_doc_key("<a><publication-number> 77 </publication-number></a>", 0), "77");
}

#[test]
fn root_start_tag_skips_prolog_markup() {
    let doc = chars("  <?xml version=\"1.0\"?><!DOCTYPE x [ <!ENTITY a \"b\"> ]><!-- note --><root a=\"1\">x</root>");
    assert_eq!(root_start_tag(&doc).map(|t| text(&t)), Some("<root a=\"1\">".to_string()));
    assert_eq!(root_start_tag(&chars("</closing>")), None);
    assert_eq!(root_start_tag(&chars("no markup")), None);
}

#[test]
fn attribute_values_in_either_quote() {
    let tag = chars("<r file=\"a.xml\" id='7'>");
    assert_eq!(attr_value(&tag, "file").map(|v| text(&v)), Some("a.xml".to_string()));
    assert_eq!(attr_value(&tag, "id").map(|v| text(&v)), Some("7".to_string()));
    assert_eq!(attr_value(&tag, "lang"), None);
}

#[test]
fn green_book_record_keys() {
    assert_eq!(derive_aps_doc_key("PATN\nWKU  043757022\nTTL  x\n", 0), "4375702");
    assert_eq!(derive_aps_doc_key("PATN\nTTL  x\n", 2), "3");
}

#[test]
fn entry_names_and_doc_kinds() {
    assert!(has_aps_name("data/PFTAPS19830308_WK10.TXT"));
    assert!(!has_aps_name("ipg260101.xml"));
    assert!(has_xml_name("ipg260101.xml"));
    assert!(has_xml_name("IPG260101.XML"));
    assert!(!has_xml_name("readme.txt"));
    assert_eq!(doc_kind_from_source_file("ipg260101.zip").unwrap(), "grant");
    assert_eq!(doc_kind_from_source_file("pftaps19830308_wk10.zip").unwrap(), "grant");
    assert_eq!(doc_kind_from_source_file("IPA260514.ZIP").unwrap(), "application");
    assert_eq!(
        doc_kind_from_source_file("weekly.zip").unwrap_err(),
        "Cannot derive doc_kind from source file 'weekly.zip'"
    );
}

#[test]
fn skipped_records_are_classified() {
    assert_eq!(
        classify_skip(&ParseError::Detect(DetectError::UnsupportedRoot("table".to_string()))),
        SkipKind::Supplemental
    );
    assert_eq!(classify_skip(&ParseError::Detect(DetectError::UnknownFormat)), SkipKind::Unsupported);
    assert_eq!(
        classify_skip(&ParseError::Detect(DetectError::ConflictingVersionMarkers)),
        SkipKind::Unsupported
    );
    assert_eq!(classify_skip(&ParseError::UnsupportedStructure("x".to_string())), SkipKind::Unsupported);
    assert_eq!(classify_skip(&ParseError::Detect(DetectError::MalformedXml)), SkipKind::Malformed);
    assert_eq!(classify_skip(&ParseError::MalformedXml("x".to_string())), SkipKind::Malformed);
}

#[test]
fn manifest_text() {
    let m = manifest_json("ipg260101", "ipg260101.zip", "grant", 10, 2, 1, 0);
    assert_eq!(
        m,
        "{\n  \"format_version\": 1,\n  \"stem\": \"ipg260101\",\n  \"source_file\": \"ipg260101.zip\",\n  \"doc_kind\": \"grant\",\n  \"patents_written\": 10,\n  \"supplemental_skipped\": 2,\n  \"unsupported_skipped\": 1,\n  \"malformed_skipped\": 0\n}\n"
    );
}

#[test]
fn record_starts_need_a_declaration_and_an_element() {
    let b = b"<?xml version=\"1.0\"?>\n<!-- c -->\n<!DOCTYPE us-patent-grant>";
    assert!(is_record_start_at(b, 0));
    assert!(!is_record_start_at(b"<?xml-stylesheet x?><a/>", 0));
    assert!(!is_record_start_at(b"<?xml version=\"1.0\"?></a>", 0));
    assert!(!is_record_start_at(b"<?xml version=\"1.0\"", 0));
    let two = b"<?xml v?><a/>junk<?xml v?><b/>";
    assert_eq!(find_next_record_start(two, 0), Some(0));
    assert_eq!(find_next_record_start(two, 5), Some(17));
    assert_eq!(find_next_record_start(two, 18), None);
}

#[test]
fn splitting_in_small_chunks_gives_the_same_documents() {
    let xml = b"header junk<?xml version=\"1.0\"?><a>1</a>\n<?xml version=\"1.0\"?><b>2</b>\n   ";
    let whole = documents(xml);
    assert_eq!(whole, vec!["<?xml version=\"1.0\"?><a>1</a>\n".to_string(), "<?xml version=\"1.0\"?><b>2</b>\n   ".to_string()]);
    let mut splitter = RecordSplitter::new();
    let mut docs = Vec::new();
    for chunk in xml.chunks(7) {
        docs.extend(splitter.feed(chunk, false));
    }
    docs.extend(splitter.feed(&[], true));
    let docs: Vec<String> = docs.into_iter().filter_map(record_text).collect();
    assert_eq!(docs, whole);
}

#[test]
fn feed_without_documents_gives_none() {
    assert!(split_documents(b"no declarations at all").is_empty());
    assert!(documents(b"<?xml version=\"1.0\"?>   ").is_empty());
}

#[test]
fn latin1_bytes_decode_per_byte() {
    assert_eq!(record_text(vec![0x41, 0xE9, 0x42]), Some("A\u{e9}B".to_string()));
    assert_eq!(record_text(" \n ".as_bytes().to_vec()), None);
}

#[test]
fn green_book_record_ranges() {
    let text = "HHHHHT  APS1\nPATN\nWKU  1\nPATN\nWKU  2\n";
    let ranges = aps_record_ranges(text.as_bytes());
    assert_eq!(ranges, vec![(13, 25), (25, text.len())]);
}
