use patpubrender::ingest::{
    finish_stats, ingest_record, unsupported_report, IngestTally, RecordAction, SkipKind,
};

const APPLICATION: &str = r#"<?xml version="1.0" encoding="UTF-8"?>
<!DOCTYPE us-patent-application SYSTEM "us-patent-application-v46-2022-02-17.dtd" [ ]>
<us-patent-application lang="EN" dtd-version="v4.6 2022-02-17" file="US20230000001A1-20230105.XML" status="PRODUCTION" id="us-patent-application" country="US" date-produced="20221221" date-publ="20230105">
<us-bibliographic-data-application lang="EN" country="US">
<publication-reference><document-id><country>US</country><doc-number>20230000001</doc-number><kind>A1</kind><date>20230105</date></document-id></publication-reference>
<invention-title id="d2e43">Widget framework</invention-title>
</us-bibliographic-data-application>
<claims id="claims"><claim id="CLM-00001" num="00001"><claim-text>1. A widget.</claim-text></claim></claims>
</us-patent-application>
"#;

#[test]
fn written_record_is_keyed_rendered_and_counted() {
    let mut tally = IngestTally::new();
    let action = ingest_record(&mut tally, None, false, 0, APPLICATION, "application", "ipa230105.zip");
    match action {
        RecordAction::Write { doc_key, markdown, biblio_line } => {
            assert_eq!(doc_key, "US20230000001A1-20230105");
            assert!(markdown.contains("# Widget framework"), "{markdown}");
            assert!(biblio_line.starts_with("{\"doc_key\":\"US20230000001A1-20230105\""), "{biblio_line}");
            assert!(!biblio_line.contains('\n'));
        }
        other => panic!("unexpected {other:?}"),
    }
    assert_eq!(tally.docs_written, 1);
}

#[test]
fn records_past_the_limit_stop_the_run() {
    let mut tally = IngestTally::new();
    assert!(matches!(
        ingest_record(&mut tally, Some(1), false, 0, APPLICATION, "application", "f.zip"),
        RecordAction::Write { .. }
    ));
    assert!(matches!(
        ingest_record(&mut tally, Some(1), false, 1, APPLICATION, "application", "f.zip"),
        RecordAction::Stop
    ));
    assert_eq!(tally.docs_written, 1);
}

#[test]
fn failures_are_counted_by_kind_and_unsupported_ones_reported() {
    let mut tally = IngestTally::new();
    let supplemental = "<?xml version=\"1.0\"?><sequence-cwu><x/></sequence-cwu>";
    let unsupported = "<?xml version=\"1.0\"?><us-patent-grant dtd-version=\"v9.9\"><x/></us-patent-grant>";
    let malformed = "   ";
    match ingest_record(&mut tally, None, false, 0, supplemental, "grant", "f.zip") {
        RecordAction::Skip { kind, .. } => assert_eq!(kind, SkipKind::Supplemental),
        other => panic!("unexpected {other:?}"),
    }
    match ingest_record(&mut tally, None, false, 1, unsupported, "grant", "f.zip") {
        RecordAction::Skip { kind, doc_key, .. } => {
            assert_eq!(kind, SkipKind::Unsupported);
            assert_eq!(doc_key, "2");
        }
        other => panic!("unexpected {other:?}"),
    }
    match ingest_record(&mut tally, None, false, 2, malformed, "grant", "f.zip") {
        RecordAction::Skip { kind, .. } => assert_eq!(kind, SkipKind::Malformed),
        other => panic!("unexpected {other:?}"),
    }
    assert_eq!(tally.supplemental_skipped, 1);
    assert_eq!(tally.unsupported_skipped, 1);
    assert_eq!(tally.malformed_skipped, 1);
    assert_eq!(tally.unsupported_records.len(), 1);
    assert!(tally.unsupported_records[0].starts_with("2\t"), "{:?}", tally.unsupported_records);
    let report = unsupported_report(&tally).expect("report");
    assert!(report.starts_with("doc_key\treason\n2\t"), "{report}");
    assert!(report.ends_with('\n'));
    let stats = finish_stats(
        &tally,
        "o/f.zst".to_string(),
        "o/f.idx".to_string(),
        "o/f.biblio.jsonl".to_string(),
        "o/f.summary.json".to_string(),
        "o/f.unsupported.tsv".to_string(),
    );
    assert_eq!(stats.docs_skipped, 3);
    assert_eq!(stats.docs_written, 0);
    assert_eq!(stats.unsupported_path.as_deref(), Some("o/f.unsupported.tsv"));
}

#[test]
fn no_report_without_unsupported_documents() {
    let tally = IngestTally::new();
    assert_eq!(unsupported_report(&tally), None);
    let stats = finish_stats(
        &tally,
        "a".to_string(),
        "b".to_string(),
        "c".to_string(),
        "d".to_string(),
        "e".to_string(),
    );
    assert_eq!(stats.unsupported_path, None);
    assert_eq!(stats.docs_skipped, 0);
}
