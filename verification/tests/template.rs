use patpubrender::model::bibliographic::{
    BibliographicInformation, BibliographicPart, TechnicalInformation, TechnicalInformationPart,
};
use patpubrender::model::claims::{Claim, Claims, ClaimsPart};
use patpubrender::model::description::{AbstractPart, AbstractSection, Paragraph};
use patpubrender::model::document::{DocumentPart, PatentDocument};
use patpubrender::model::runs::Run;
use patpubrender::render::template::Sections;
use patpubrender::{render_markdown, render_markdown_with_template, SourceFormat, Template, TemplateError};

fn sections() -> Sections {
    Sections {
        frontmatter: "---\na: 1\n---".to_string(),
        title: "# Widget".to_string(),
        abstract_section: "## Abstract\n\nAn abstract.".to_string(),
        description: "## Description\n\nText.".to_string(),
        claims: "## Claims\n\n1. A claim.".to_string(),
    }
}

fn sample() -> PatentDocument {
    PatentDocument {
        source_format: SourceFormat::UsptoGrantV47,
        parts: vec![
            DocumentPart::BibliographicInformation(BibliographicInformation {
                parts: vec![BibliographicPart::TechnicalInformation(TechnicalInformation {
                    parts: vec![TechnicalInformationPart::TitleOfInvention("Widget".to_string())],
                    ..Default::default()
                })],
                ..Default::default()
            }),
            DocumentPart::AbstractSection(AbstractSection {
                parts: vec![AbstractPart::Paragraph(Paragraph {
                    content: vec![Run::Text("An abstract.".to_string())],
                    ..Default::default()
                })],
                ..Default::default()
            }),
            DocumentPart::Claims(Claims {
                parts: vec![ClaimsPart::Claim(Claim {
                    content: vec![Run::Text("A claim.".to_string())],
                    ..Default::default()
                })],
                ..Default::default()
            }),
        ],
        ..Default::default()
    }
}

#[test]
fn default_template_orders_frontmatter_title_then_sections() {
    let out = Template::default().render(&sections());
    assert!(out.starts_with("---\na: 1\n---\n\n# Widget\n\n## Abstract"));
    assert!(out.ends_with("## Claims\n\n1. A claim."));
    assert!(!out.contains("\n\n\n"), "blank runs must be collapsed:\n{out}");
}

#[test]
fn custom_template_reorders_and_wraps() {
    let t = Template::parse("# {{title}}\n\n> note\n\n{{claims}}").unwrap();
    let out = t.render(&sections());
    assert_eq!(out, "# # Widget\n\n> note\n\n## Claims\n\n1. A claim.");
}

#[test]
fn empty_section_leaves_no_gap() {
    let mut s = sections();
    s.abstract_section = String::new();
    let out = Template::parse("{{title}}\n\n{{abstract}}\n\n{{claims}}").unwrap().render(&s);
    assert_eq!(out, "# Widget\n\n## Claims\n\n1. A claim.");
}

#[test]
fn unknown_placeholder_is_rejected() {
    assert_eq!(
        Template::parse("{{bogus}}").unwrap_err(),
        TemplateError::UnknownPlaceholder("bogus".to_string())
    );
}

#[test]
fn unterminated_placeholder_is_rejected() {
    assert_eq!(Template::parse("{{title").unwrap_err(), TemplateError::UnterminatedPlaceholder);
}

#[test]
fn default_and_explicit_default_template_agree() {
    let doc = sample();
    let default = render_markdown(&doc);
    let templated = render_markdown_with_template(&doc, patpubrender::DEFAULT_TEMPLATE).unwrap();
    assert_eq!(default, templated);
}

#[test]
fn custom_template_reorders_and_drops_sections() {
    let doc = sample();
    let out = render_markdown_with_template(&doc, "{{claims}}\n\n---\n\n# {{title}}").unwrap();
    let claims_at = out.find("## Claims").expect("claims present");
    let title_at = out.find("Widget").expect("title present");
    assert!(claims_at < title_at, "claims should precede title:\n{out}");
    assert!(!out.contains("publication_number"), "frontmatter omitted:\n{out}");
}

#[test]
fn invalid_template_is_an_error() {
    let doc = sample();
    assert!(render_markdown_with_template(&doc, "{{nope}}").is_err());
}

#[test]
fn rendered_document_has_no_run_of_blank_lines() {
    let doc = sample();
    let out = render_markdown(&doc);
    assert!(!out.contains("\n\n\n"));
    assert!(out.contains("# Widget"));
    assert!(out.contains("## Abstract\n\nAn abstract."));
}

#[test]
fn template_without_placeholders_renders_its_text() {
    let t = Template::parse("  plain text  ").unwrap();
    assert_eq!(t.render(&sections()), "plain text");
}
