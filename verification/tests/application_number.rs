use patpubrender::model::bibliographic::{
    ApplicationNumber, BibliographicInformation, BibliographicPart, DomesticFilingData,
    DomesticFilingPart, TechnicalInformation, TechnicalInformationPart,
};
use patpubrender::model::document::{DocumentPart, PatentDocument};
use patpubrender::render::fields::bare_application_number;
use patpubrender::{render_markdown, SourceFormat};

fn application_document(doc_number: &str, series: Option<&str>) -> PatentDocument {
    let mut filing = vec![DomesticFilingPart::ApplicationNumber(ApplicationNumber {
        doc_number: Some(doc_number.to_string()),
        ..Default::default()
    })];
    if let Some(series) = series {
        filing.push(DomesticFilingPart::ApplicationNumberSeriesCode(series.to_string()));
    }
    PatentDocument {
        source_format: SourceFormat::UsptoApplicationV40,
        parts: vec![DocumentPart::BibliographicInformation(BibliographicInformation {
            parts: vec![
                BibliographicPart::TechnicalInformation(TechnicalInformation {
                    parts: vec![TechnicalInformationPart::TitleOfInvention(
                        "Application label test".to_string(),
                    )],
                    ..Default::default()
                }),
                BibliographicPart::DomesticFilingData(DomesticFilingData {
                    parts: filing,
                    ..Default::default()
                }),
            ],
            ..Default::default()
        })],
        ..Default::default()
    }
}

#[test]
fn modern_doc_number_already_carries_series_is_not_doubled() {
    let rendered = render_markdown(&application_document("14633232", Some("14")));
    assert!(
        rendered.contains("application_number: 14/633232"),
        "expected canonical 14/633232, got:\n{rendered}"
    );
    assert!(!rendered.contains("14/14633232"), "doubled slash form leaked:\n{rendered}");
    assert!(!rendered.contains("1414633232"), "doubled bare form leaked:\n{rendered}");
}

#[test]
fn legacy_serial_only_doc_number_joins_series() {
    let rendered = render_markdown(&application_document("633232", Some("14")));
    assert!(
        rendered.contains("application_number: 14/633232"),
        "expected 14/633232 for legacy serial-only, got:\n{rendered}"
    );
}

fn doc(doc_number: &str, series: Option<&str>) -> PatentDocument {
    let mut parts = vec![DomesticFilingPart::ApplicationNumber(ApplicationNumber {
        doc_number: Some(doc_number.to_string()),
        ..Default::default()
    })];
    if let Some(series) = series {
        parts.push(DomesticFilingPart::ApplicationNumberSeriesCode(series.to_string()));
    }
    PatentDocument {
        parts: vec![DocumentPart::BibliographicInformation(BibliographicInformation {
            parts: vec![BibliographicPart::DomesticFilingData(DomesticFilingData {
                parts,
                ..Default::default()
            })],
            ..Default::default()
        })],
        ..Default::default()
    }
}

#[test]
fn bare_key_for_modern_8digit_doc_number_is_not_doubled() {
    assert_eq!(
        bare_application_number(&doc("14633232", Some("14"))).as_deref(),
        Some("14633232")
    );
}

#[test]
fn bare_key_for_legacy_serial_only_joins_series() {
    assert_eq!(
        bare_application_number(&doc("633232", Some("14"))).as_deref(),
        Some("14633232")
    );
}

#[test]
fn bare_key_without_series_is_doc_number() {
    assert_eq!(
        bare_application_number(&doc("14633232", None)).as_deref(),
        Some("14633232")
    );
}
