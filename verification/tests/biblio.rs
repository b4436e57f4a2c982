use patpubrender::render::biblio::{extract_biblio, BiblioRecord};
use patpubrender::parse_patent_aps;

#[test]
fn json_line_escapes_and_orders_fields() {
    let record = BiblioRecord {
        invention_title: Some("Widget \"X\"\nFramework".to_string()),
        inventor_names: vec!["Jane Doe".to_string(), "Li Wei".to_string()],
        ..Default::default()
    };
    let line = record.to_json_line("US20260150770A1", "application", "ipa260514.zip");

    assert!(line.starts_with("{\"doc_key\":\"US20260150770A1\""));
    assert!(line.contains("\"doc_kind\":\"application\""));
    assert!(line.contains("\"invention_title\":\"Widget \\\"X\\\"\\nFramework\""));
    assert!(line.contains("\"inventor_names\":[\"Jane Doe\",\"Li Wei\"]"));
    assert!(line.contains("\"patent_number\":null"));
    assert!(!line.contains('\n'));
}

#[test]
fn json_line_of_empty_record_has_every_field() {
    let record = BiblioRecord::default();
    let line = record.to_json_line("K", "grant", "ipg.zip");
    assert!(line.starts_with("{\"doc_key\":\"K\",\"doc_kind\":\"grant\",\"source_file\":\"ipg.zip\""));
    assert!(line.contains("\"inventor_names\":[]"));
    assert!(line.ends_with('}'));
}

#[test]
fn biblio_of_green_book_record() {
    let doc = parse_patent_aps("PATN\nWKU  043757022\nTTL  A title\nISD  19830308\n").unwrap();
    let b = extract_biblio(&doc);
    assert_eq!(b.patent_number.as_deref(), Some("US4375702B1"));
    assert_eq!(b.invention_title.as_deref(), Some("A title"));
    assert_eq!(b.publication_date.as_deref(), Some("19830308"));
}
