use patpubrender::error::DetectError;
use patpubrender::render::biblio::BiblioRecord;
use patpubrender::source::xml_write::escape_text;
use patpubrender::{detect_source_format, SourceFormat};

#[test]
fn blank_input_is_malformed_and_aps_is_detected_by_its_header() {
    assert_eq!(detect_source_format(" \n\t "), Err(DetectError::MalformedXml));
    assert_eq!(
        detect_source_format("HHHHHT        APS1        ISSUE - 830308\nPATN\n"),
        Ok(SourceFormat::UsptoGrantApsGreenBook)
    );
    assert_eq!(detect_source_format("\n\nPATN\nWKU  043757022\n"), Ok(SourceFormat::UsptoGrantApsGreenBook));
    assert_ne!(
        detect_source_format("<?xml version=\"1.0\"?><PATDOC DTD=\"2.5\"><x/></PATDOC>"),
        Ok(SourceFormat::UsptoGrantApsGreenBook)
    );
}

#[test]
fn escaped_text_has_no_angle_brackets_and_plain_text_is_kept() {
    let e = escape_text("a < b > c & d &amp; e");
    assert_eq!(e, "a &lt; b &gt; c &amp; d &amp; e");
    assert!(!e.contains('<') && !e.contains('>'));
    assert_eq!(escape_text(&e), e);
    assert_eq!(escape_text("plain words"), "plain words");
}

#[test]
fn sidecar_line_has_no_line_breaks() {
    let mut record = BiblioRecord::default();
    record.invention_title = Some("a\r\nb\nc\rd".to_string());
    let line = record.to_json_line("k\r", "grant", "f\n.zip");
    assert!(!line.contains('\n') && !line.contains('\r'), "{line}");
    assert!(line.contains("a\\r\\nb\\nc\\rd"), "{line}");
}
