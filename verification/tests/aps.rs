use patpubrender::render::biblio::extract_biblio;
use patpubrender::source::aps::{
    aps_record_starts, collect_fields, is_patn_line_at, normalize_apn, parse_aps_document, scalar,
    WkuNumber,
};
use patpubrender::{parse_patent_aps, parse_patent_xml, render_markdown, write_patent_xml};
use patpubrender::error::{ParseError, SerializeError};

const UTILITY: &str = "\
PATN
WKU  043757022
SRC  6
APN  2745224
APT  1
ART  353
APD  19810617
TTL  Device for mounting an earmuff on a helmet
ISD  19830308
NCL  9
INVT
NAM  Lundin; Tord R.
CTY  Billesholm
CNT  SEX
ASSG
NAM  Gullfiber AB
CTY  Billesholm
CNT  SEX
COD  03
CLAS
OCL    2423
XCL    2209
ICL  A42B  300
ICL  A42B  124
ABST
PAL  An attachment device in the form of a bearing housing (10) and an arm (38)
      projecting out through an opening (44) in the housing.
BSUM
PAR  The present invention is concerned with an attachment device including a
      bearing housing designed for mounting on a helmet.
DRWD
PAR  FIG. 1 shows the new attachment device in perspective.
DETD
PAR  The attachment device of FIG. 1 includes a bearing housing 10 consisting of
      a base 12.
CLMS
STM  I claim:
NUM  1.
PAR  1. An attachment device including a bearing housing (10) designed for
      mounting on a helmet.
NUM  2.
PAR  2. An attachment device as claimed in claim 1, characterized in that the
      spring element (44) is annular.
";

const DESIGN: &str = "\
PATN
WKU  D02681420
SRC  6
APN  1989073
APT  4
APD  19801021
TTL  Protective garment for an ice hockey player
ISD  19830308
NCL  1
INVT
NAM  Livernois; John
CTY  St. Jean
CNT  CAX
CLAS
OCL  D 2 27
ICL  D0202
DRWD
PAL  FIG. 1 is a front and left side perspective view.
DCLM
PAR  The ornamental design for a protective garment for an ice hockey player, as
      shown.
";

#[test]
fn splits_records_on_bare_patn_line() {
    let stream = format!("HHHHHT        APS1        ISSUE - 830308\n{UTILITY}{DESIGN}");
    let starts = aps_record_starts(stream.as_bytes());
    assert_eq!(starts.len(), 2);
    let mut bounds = starts.clone();
    bounds.push(stream.len());
    let r0 = &stream[bounds[0]..bounds[1]];
    let r1 = &stream[bounds[1]..bounds[2]];
    assert!(r0.contains("Device for mounting an earmuff"));
    assert!(r1.contains("Protective garment for an ice hockey"));
}

#[test]
fn splits_records_in_fixed_width_padded_files() {
    let pad = |line: &str| format!("{line:<80}\r\n");
    let mut stream = String::new();
    stream.push_str(&pad("HHHHHT        APS1        ISSUE - 981006"));
    for body in [UTILITY, DESIGN] {
        for line in body.lines() {
            stream.push_str(&pad(line));
        }
    }
    let starts = aps_record_starts(stream.as_bytes());
    assert_eq!(starts.len(), 2, "both padded records detected");
    assert!(is_patn_line_at(stream.as_bytes(), starts[0]));
}

#[test]
fn parses_utility_patent() {
    let doc = parse_aps_document(UTILITY).expect("utility parses");
    let biblio = extract_biblio(&doc);
    assert_eq!(biblio.patent_number.as_deref(), Some("US4375702B1"));
    assert_eq!(biblio.publication_number, None);
    assert_eq!(biblio.publication_date.as_deref(), Some("19830308"));
    assert_eq!(biblio.application_number.as_deref(), Some("2745224"));
    assert_eq!(biblio.filing_date.as_deref(), Some("19810617"));
    assert_eq!(
        biblio.invention_title.as_deref(),
        Some("Device for mounting an earmuff on a helmet")
    );
    assert_eq!(biblio.inventor_names, vec!["Tord R. Lundin".to_string()]);
    assert_eq!(biblio.assignee_names, vec!["Gullfiber AB".to_string()]);
    assert_eq!(biblio.ipc_classifications, vec!["A42B 300", "A42B 124"]);
    assert!(biblio.us_classifications.contains(&"2423".to_string()));

    let md = render_markdown(&doc);
    assert!(md.contains("# Device for mounting an earmuff on a helmet"));
    assert!(md.contains("## Abstract"));
    assert!(md.contains("## Summary Of The Invention"));
    assert!(md.contains("## Description Of The Invention"));
    assert!(md.contains("## Claims"));
    assert!(md.contains("An attachment device including a bearing housing"));
}

#[test]
fn parses_design_patent() {
    let doc = parse_aps_document(DESIGN).expect("design parses");
    let biblio = extract_biblio(&doc);
    assert_eq!(biblio.patent_number.as_deref(), Some("USD268142S"));
    let md = render_markdown(&doc);
    assert!(md.contains("# Protective garment for an ice hockey player"));
    assert!(md.contains("## Claims"));
    assert!(md.contains("The ornamental design for a protective garment"));
}

#[test]
fn unwraps_continuation_lines() {
    let fields = collect_fields(UTILITY);
    let title = scalar(&fields, "PATN", "TTL").unwrap();
    assert_eq!(title, "Device for mounting an earmuff on a helmet");
    let abst = scalar(&fields, "ABST", "PAL").unwrap();
    assert_eq!(
        abst,
        "An attachment device in the form of a bearing housing (10) and an arm (38) projecting out through an opening (44) in the housing."
    );
}

#[test]
fn normalizes_wku_numbers() {
    assert_eq!(WkuNumber::parse("043757022").doc_number, "4375702");
    assert_eq!(WkuNumber::parse("043757022").kind_code.as_deref(), Some("B1"));
    let design = WkuNumber::parse("D02681420");
    assert_eq!(design.doc_number, "D268142");
    assert_eq!(design.kind_code.as_deref(), Some("S"));
    let reissue = WkuNumber::parse("RE0311677");
    assert_eq!(reissue.doc_number, "RE31167");
    assert_eq!(reissue.kind_code.as_deref(), Some("E"));
    let plant = WkuNumber::parse("PP0049883");
    assert_eq!(plant.doc_number, "PP4988");
    assert_eq!(plant.kind_code, None);
    assert_eq!(WkuNumber::parse("06332220&").doc_number, "6332220");
    let design_amp = WkuNumber::parse("D0452361&");
    assert_eq!(design_amp.doc_number, "D452361");
}

#[test]
fn normalizes_application_numbers() {
    assert_eq!(normalize_apn("500649&"), "500649");
    assert_eq!(normalize_apn("2745224"), "2745224");
    assert_eq!(normalize_apn("25-04-80-8"), "25-04-80-8");
    assert_eq!(normalize_apn("MI00O0404"), "MI00O0404");
}

#[test]
fn rejects_record_without_wku() {
    let junk = "PATN\nSRC  6\nART  353\n";
    assert!(parse_aps_document(junk).is_err());
}

#[test]
fn record_without_fields_is_unsupported() {
    match parse_patent_aps("") {
        Err(ParseError::UnsupportedStructure(m)) => {
            assert_eq!(m, "APS record has no recognizable tagged fields")
        }
        other => panic!("unexpected: {other:?}"),
    }
    match parse_patent_aps("PATN\nSRC  6\nART  353\n") {
        Err(ParseError::UnsupportedStructure(m)) => {
            assert_eq!(m, "APS record missing WKU (patent number)")
        }
        other => panic!("unexpected: {other:?}"),
    }
}

#[test]
fn green_book_detected_and_not_written_back() {
    let doc = parse_patent_xml(UTILITY).expect("detected as Green Book");
    match write_patent_xml(&doc) {
        Err(SerializeError::UnsupportedFormat(m)) => {
            assert_eq!(m, "UsptoGrantApsGreenBook does not support serialization")
        }
        other => panic!("unexpected: {other:?}"),
    }
}
