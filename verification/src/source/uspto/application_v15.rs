//! USPTO application XML, versions 1.5 and 1.6 (`patent-application-publication`).

use vstd::prelude::*;

use crate::error::{ParseError, SerializeError};
use crate::model::bibliographic::{
    Address, ApplicationNumber, BibliographicInformation, BibliographicPart, ClassificationIpc,
    ClassificationUs, ContinuityData, ContinuityPart, CorrespondenceAddress,
    CorrespondenceAddressPart, DocumentId, DomesticFilingData, DomesticFilingPart, Inventor,
    Inventors, InventorsPart, NamedParties, NamedParty, RelatedDocument, TechnicalInformation,
    TechnicalInformationPart,
};
use crate::model::claims::{Claim, Claims, ClaimsPart, Heading};
use crate::model::description::{
    AbstractPart, AbstractSection, BriefDescriptionOfDrawings, CrossReferencePart,
    CrossReferenceToRelatedApplications, Description, DescriptionPart, DescriptionSectionPart,
    DetailedDescription, Drawings, DrawingsPart, Figure, FigurePart, Image, Paragraph, Section,
    SectionPart, SummaryOfInvention,
};
use crate::model::document::{DocumentPart, PatentDocument};
use crate::model::opaque::{attrs_view, OpaqueBlock, OpaqueInline, XmlAttribute, XmlFragment};
use crate::model::runs::{CrossReference, DependentClaimReference, InlineContainer, Number, Run};
use crate::render::fields::opt_view;
use crate::render::fields::or_else;
use crate::source::detect::SourceFormat;
use crate::source::uspto::application_v4x::{entity_text, parse_u32, spec_parse_u32};
use crate::source::uspto::nodes::{lemma_elements_step, opaque_block, trimmed_text, trimmed_text_of};
use crate::source::xml::{
    attribute, attribute_from, attributes, blank_text, children, elements_of, fragment_of,
    has_name, is_named, parse_tree, prolog, prolog_of, root_element, spec_attribute, spec_attrs,
    spec_child_elements, spec_children, spec_local_name, spec_root_element, spec_text_content,
    text_content, tree_is, xml_accepts, xml_error, xml_fragment, XmlNode, XmlTree, MAX_ENTITY_EXPANSIONS,
};
use crate::source::xml_write::{
    concat_map, end_tag, lemma_concat_map_all, lemma_concat_map_step, opt_xml, spec_end_tag,
    spec_escape_text, spec_prolog_xml, spec_start_empty_tag, spec_start_tag, spec_text_element,
    start_empty_tag, start_tag, write_opt_text_element, write_prolog, write_text_element,
};
use crate::text::{
    chars_of, copy_str, decimal, push_str, string_of, trim, trim_chars, u64_to_string,
};

verus! {

// ---------------------------------------------------------------------------
// Runs
// ---------------------------------------------------------------------------

/// A child that gives a run: non-blank text, an entity reference, an element.
pub open spec fn yields_run(c: XmlNode) -> bool {
    match c {
        XmlNode::Text(t) => trim(t@).len() > 0,
        XmlNode::CData(t) => trim(t@).len() > 0,
        XmlNode::EntityRef { .. } => true,
        XmlNode::Element { .. } => true,
        _ => false,
    }
}

/// The runs of a sequence of children: one per child that gives one.
pub open spec fn runs_match(rs: Seq<Run>, cs: Seq<XmlNode>) -> bool
    decreases cs,
{
    if cs.len() == 0 {
        rs.len() == 0
    } else if yields_run(cs.last()) {
        rs.len() > 0 && runs_match(rs.drop_last(), cs.drop_last()) && run_of(rs.last(), cs.last())
    } else {
        runs_match(rs, cs.drop_last())
    }
}

/// The run a child gives: text as is, an entity reference as its value (or
/// `&name;`), inline markup by name, other elements verbatim.
pub open spec fn run_of(r: Run, c: XmlNode) -> bool
    decreases c,
{
    match c {
        XmlNode::Text(t) => r matches Run::Text(s) && s@ == t@,
        XmlNode::CData(t) => r matches Run::Text(s) && s@ == t@,
        XmlNode::EntityRef { name, value, .. } => r matches Run::Text(s) && s@ == (match value {
            Some(v) => v@,
            None => seq!['&'] + name@ + seq![';'],
        }),
        XmlNode::Element { name, attributes, children, .. } => {
            let n = name@;
            if n == "number"@ {
                r matches Run::Number(x) && attrs_view(x.attributes@) == attrs_view(attributes@)
                    && runs_match(x.content@, children@)
            } else if n == "cross-reference"@ {
                r matches Run::CrossReference(x) && attrs_view(x.attributes@) == attrs_view(
                    attributes@,
                ) && runs_match(x.content@, children@) && opt_view(x.target) == attribute_from(
                    attributes@,
                    "target"@,
                    0,
                )
            } else if n == "figref"@ {
                r matches Run::FigureReference(x) && attrs_view(x.attributes@) == attrs_view(
                    attributes@,
                ) && runs_match(x.content@, children@) && opt_view(x.target) == or_else(
                    attribute_from(attributes@, "idref"@, 0),
                    attribute_from(attributes@, "target"@, 0),
                )
            } else if n == "dependent-claim-reference"@ {
                r matches Run::DependentClaimReference(x) && attrs_view(x.attributes@)
                    == attrs_view(attributes@) && runs_match(x.content@, children@) && opt_view(
                    x.depends_on,
                ) == attribute_from(attributes@, "depends_on"@, 0)
            } else if n == "bold"@ {
                r matches Run::Bold(x) && attrs_view(x.attributes@) == attrs_view(attributes@)
                    && runs_match(x.content@, children@)
            } else if n == "italic"@ {
                r matches Run::Italic(x) && attrs_view(x.attributes@) == attrs_view(attributes@)
                    && runs_match(x.content@, children@)
            } else if n == "highlight"@ {
                r matches Run::Highlight(x) && attrs_view(x.attributes@) == attrs_view(attributes@)
                    && runs_match(x.content@, children@)
            } else if n == "claim-text"@ {
                r matches Run::ClaimText(x) && attrs_view(x.attributes@) == attrs_view(attributes@)
                    && runs_match(x.content@, children@)
            } else {
                r matches Run::Opaque(o) && fragment_of(o.xml, c)
            }
        },
        _ => false,
    }
}

fn container(c: &XmlNode, cs: &Vec<XmlNode>) -> (x: InlineContainer)
    requires
        c matches XmlNode::Element { children, .. } && children == cs,
    ensures
        attrs_view(x.attributes@) == attrs_view(spec_attrs(*c)),
        runs_match(x.content@, cs@),
    decreases c, 1nat,
{
    proof {
        assert(decreases_to!(*c => (*c)->Element_children));
    }
    InlineContainer { attributes: attributes(c), content: parse_runs_of(cs) }
}

fn run_from(c: &XmlNode) -> (r: Run)
    requires
        yields_run(*c),
    ensures
        run_of(r, *c),
    decreases c, 2nat,
{
    match c {
        XmlNode::Text(t) => Run::Text(t.clone()),
        XmlNode::CData(t) => Run::Text(t.clone()),
        XmlNode::EntityRef { name, value, .. } => Run::Text(entity_text(name, value)),
        XmlNode::Element { name, children, .. } => {
            proof {
                assert(decreases_to!(*c => (*c)->Element_children));
            }
            if crate::text::string_eq_str(name, "number") {
                Run::Number(Number { attributes: attributes(c), content: parse_runs_of(children) })
            } else if crate::text::string_eq_str(name, "cross-reference") {
                Run::CrossReference(
                    CrossReference {
                        attributes: attributes(c),
                        target: attribute(c, "target"),
                        content: parse_runs_of(children),
                    },
                )
            } else if crate::text::string_eq_str(name, "figref") {
                let target = match attribute(c, "idref") {
                    Some(v) => Some(v),
                    None => attribute(c, "target"),
                };
                Run::FigureReference(
                    CrossReference { attributes: attributes(c), target, content: parse_runs_of(children) },
                )
            } else if crate::text::string_eq_str(name, "dependent-claim-reference") {
                Run::DependentClaimReference(
                    DependentClaimReference {
                        attributes: attributes(c),
                        depends_on: attribute(c, "depends_on"),
                        content: parse_runs_of(children),
                    },
                )
            } else if crate::text::string_eq_str(name, "bold") {
                Run::Bold(container(c, children))
            } else if crate::text::string_eq_str(name, "italic") {
                Run::Italic(container(c, children))
            } else if crate::text::string_eq_str(name, "highlight") {
                Run::Highlight(container(c, children))
            } else if crate::text::string_eq_str(name, "claim-text") {
                Run::ClaimText(container(c, children))
            } else {
                Run::Opaque(OpaqueInline { xml: xml_fragment(c) })
            }
        },
        _ => Run::Opaque(OpaqueInline { xml: xml_fragment(c) }),
    }
}

fn yields(c: &XmlNode) -> (r: bool)
    ensures
        r == yields_run(*c),
{
    match c {
        XmlNode::Text(_) | XmlNode::CData(_) => !blank_text(c),
        XmlNode::EntityRef { .. } | XmlNode::Element { .. } => true,
        _ => false,
    }
}

fn parse_runs_of(cs: &Vec<XmlNode>) -> (r: Vec<Run>)
    ensures
        runs_match(r@, cs@),
    decreases cs@, 0nat,
{
    let mut runs: Vec<Run> = Vec::new();
    let mut i: usize = 0;
    while i < cs.len()
        invariant
            i <= cs.len(),
            runs_match(runs@, cs@.take(i as int)),
        decreases cs.len() - i,
    {
        proof {
            assert(decreases_to!(cs@ => cs@[i as int]));
        }
        assert(cs@.take(i + 1).drop_last() =~= cs@.take(i as int));
        if yields(&cs[i]) {
            let ghost before = runs@;
            runs.push(run_from(&cs[i]));
            assert(runs@.drop_last() =~= before);
        }
        i += 1;
    }
    assert(cs@.take(cs.len() as int) =~= cs@);
    runs
}

/// The runs of a node's children.
pub fn parse_runs(n: &XmlNode) -> (r: Vec<Run>)
    ensures
        runs_match(r@, spec_children(*n)),
{
    match n {
        XmlNode::Document(c) => parse_runs_of(c),
        XmlNode::Element { children, .. } => parse_runs_of(children),
        XmlNode::EntityRef { children, .. } => parse_runs_of(children),
        _ => Vec::new(),
    }
}

// ---------------------------------------------------------------------------
// Blocks
// ---------------------------------------------------------------------------

/// The `lvl` attribute as a number.
pub open spec fn spec_lvl(n: XmlNode) -> Option<u32> {
    match spec_attribute(n, "lvl"@) {
        Some(v) => spec_parse_u32(v),
        None => None,
    }
}

fn lvl_of(n: &XmlNode) -> (r: Option<u32>)
    ensures
        r == spec_lvl(*n),
{
    match attribute(n, "lvl") {
        Some(v) => parse_u32(chars_of(v.as_str()).as_slice()),
        None => None,
    }
}

pub open spec fn paragraph_of(p: Paragraph, n: XmlNode) -> bool {
    &&& attrs_view(p.attributes@) == attrs_view(spec_attrs(n))
    &&& opt_view(p.id) == spec_attribute(n, "id"@)
    &&& p.level == spec_lvl(n)
    &&& runs_match(p.content@, spec_children(n))
}

pub fn parse_paragraph(n: &XmlNode) -> (r: Paragraph)
    ensures
        paragraph_of(r, *n),
{
    Paragraph { attributes: attributes(n), id: attribute(n, "id"), level: lvl_of(n), content: parse_runs(n) }
}

pub open spec fn heading_of(h: Heading, n: XmlNode) -> bool {
    &&& attrs_view(h.attributes@) == attrs_view(spec_attrs(n))
    &&& h.level == spec_lvl(n)
    &&& opt_view(h.align) == spec_attribute(n, "align"@)
    &&& runs_match(h.content@, spec_children(n))
}

pub fn parse_heading(n: &XmlNode) -> (r: Heading)
    ensures
        heading_of(r, *n),
{
    Heading { attributes: attributes(n), level: lvl_of(n), align: attribute(n, "align"), content: parse_runs(n) }
}

pub open spec fn claim_of(c: Claim, n: XmlNode) -> bool {
    &&& attrs_view(c.attributes@) == attrs_view(spec_attrs(n))
    &&& opt_view(c.id) == spec_attribute(n, "id"@)
    &&& runs_match(c.content@, spec_children(n))
}

fn parse_claim(n: &XmlNode) -> (r: Claim)
    ensures
        claim_of(r, *n),
{
    Claim { attributes: attributes(n), id: attribute(n, "id"), content: parse_runs(n) }
}

pub open spec fn claims_part_of(p: ClaimsPart, e: XmlNode) -> bool {
    if is_named(e, "heading"@) {
        p matches ClaimsPart::Heading(h) && heading_of(h, e)
    } else if is_named(e, "claim"@) {
        p matches ClaimsPart::Claim(x) && claim_of(x, e)
    } else {
        p matches ClaimsPart::Opaque(o) && fragment_of(o.xml, e)
    }
}

pub open spec fn claims_of(c: Claims, n: XmlNode) -> bool {
    let es = spec_child_elements(n);
    &&& attrs_view(c.attributes@) == attrs_view(spec_attrs(n))
    &&& c.parts@.len() == es.len()
    &&& forall|i: int| 0 <= i < es.len() ==> #[trigger] claims_part_of(c.parts@[i], es[i])
}

pub fn parse_claims(n: &XmlNode) -> (r: Claims)
    ensures
        claims_of(r, *n),
{
    let cs = children(n);
    let mut parts: Vec<ClaimsPart> = Vec::new();
    let mut i: usize = 0;
    while i < cs.len()
        invariant
            i <= cs.len(),
            cs@ == spec_children(*n),
            parts@.len() == elements_of(cs@.take(i as int)).len(),
            forall|j: int| 0 <= j < parts@.len() ==> #[trigger] claims_part_of(
                parts@[j],
                elements_of(cs@.take(i as int))[j],
            ),
        decreases cs.len() - i,
    {
        proof {
            lemma_elements_step(cs@, i as int);
        }
        let c = &cs[i];
        if let XmlNode::Element { .. } = c {
            let part = if has_name(c, "heading") {
                ClaimsPart::Heading(parse_heading(c))
            } else if has_name(c, "claim") {
                ClaimsPart::Claim(parse_claim(c))
            } else {
                ClaimsPart::Opaque(opaque_block(c))
            };
            parts.push(part);
        }
        i += 1;
    }
    assert(cs@.take(cs.len() as int) =~= cs@);
    Claims { attributes: attributes(n), parts }
}

pub open spec fn image_of(m: Image, n: XmlNode) -> bool {
    &&& attrs_view(m.attributes@) == attrs_view(spec_attrs(n))
    &&& opt_view(m.id) == spec_attribute(n, "id"@)
    &&& opt_view(m.file) == spec_attribute(n, "file"@)
    &&& opt_view(m.imf) == spec_attribute(n, "imf"@)
    &&& opt_view(m.ti) == spec_attribute(n, "ti"@)
}

pub open spec fn figure_part_of(p: FigurePart, e: XmlNode) -> bool {
    if is_named(e, "image"@) {
        p matches FigurePart::Image(m) && image_of(m, e)
    } else {
        p matches FigurePart::Opaque(o) && fragment_of(o.xml, e)
    }
}

pub open spec fn figure_of(f: Figure, n: XmlNode) -> bool {
    let es = spec_child_elements(n);
    &&& attrs_view(f.attributes@) == attrs_view(spec_attrs(n))
    &&& opt_view(f.id) == spec_attribute(n, "id"@)
    &&& f.parts@.len() == es.len()
    &&& forall|i: int| 0 <= i < es.len() ==> #[trigger] figure_part_of(f.parts@[i], es[i])
}

fn parse_figure(n: &XmlNode) -> (r: Figure)
    ensures
        figure_of(r, *n),
{
    let cs = children(n);
    let mut parts: Vec<FigurePart> = Vec::new();
    let mut i: usize = 0;
    while i < cs.len()
        invariant
            i <= cs.len(),
            cs@ == spec_children(*n),
            parts@.len() == elements_of(cs@.take(i as int)).len(),
            forall|j: int| 0 <= j < parts@.len() ==> #[trigger] figure_part_of(
                parts@[j],
                elements_of(cs@.take(i as int))[j],
            ),
        decreases cs.len() - i,
    {
        proof {
            lemma_elements_step(cs@, i as int);
        }
        let c = &cs[i];
        if let XmlNode::Element { .. } = c {
            let part = if has_name(c, "image") {
                FigurePart::Image(
                    Image {
                        attributes: attributes(c),
                        id: attribute(c, "id"),
                        file: attribute(c, "file"),
                        imf: attribute(c, "imf"),
                        ti: attribute(c, "ti"),
                    },
                )
            } else {
                FigurePart::Opaque(opaque_block(c))
            };
            parts.push(part);
        }
        i += 1;
    }
    assert(cs@.take(cs.len() as int) =~= cs@);
    Figure { attributes: attributes(n), id: attribute(n, "id"), parts }
}

pub open spec fn drawings_part_of(p: DrawingsPart, e: XmlNode) -> bool {
    if is_named(e, "heading"@) {
        p matches DrawingsPart::Heading(h) && heading_of(h, e)
    } else if is_named(e, "representative-figure"@) {
        p matches DrawingsPart::RepresentativeFigure(v) && v@ == trimmed_text(e)
    } else if is_named(e, "figure"@) {
        p matches DrawingsPart::Figure(f) && figure_of(f, e)
    } else {
        p matches DrawingsPart::Opaque(o) && fragment_of(o.xml, e)
    }
}

pub open spec fn drawings_of(d: Drawings, n: XmlNode) -> bool {
    let es = spec_child_elements(n);
    &&& attrs_view(d.attributes@) == attrs_view(spec_attrs(n))
    &&& d.parts@.len() == es.len()
    &&& forall|i: int| 0 <= i < es.len() ==> #[trigger] drawings_part_of(d.parts@[i], es[i])
}

pub fn parse_drawings(n: &XmlNode) -> (r: Drawings)
    ensures
        drawings_of(r, *n),
{
    let cs = children(n);
    let mut parts: Vec<DrawingsPart> = Vec::new();
    let mut i: usize = 0;
    while i < cs.len()
        invariant
            i <= cs.len(),
            cs@ == spec_children(*n),
            parts@.len() == elements_of(cs@.take(i as int)).len(),
            forall|j: int| 0 <= j < parts@.len() ==> #[trigger] drawings_part_of(
                parts@[j],
                elements_of(cs@.take(i as int))[j],
            ),
        decreases cs.len() - i,
    {
        proof {
            lemma_elements_step(cs@, i as int);
        }
        let c = &cs[i];
        if let XmlNode::Element { .. } = c {
            let part = if has_name(c, "heading") {
                DrawingsPart::Heading(parse_heading(c))
            } else if has_name(c, "representative-figure") {
                DrawingsPart::RepresentativeFigure(trimmed_text_of(c))
            } else if has_name(c, "figure") {
                DrawingsPart::Figure(parse_figure(c))
            } else {
                DrawingsPart::Opaque(opaque_block(c))
            };
            parts.push(part);
        }
        i += 1;
    }
    assert(cs@.take(cs.len() as int) =~= cs@);
    Drawings { attributes: attributes(n), parts }
}

pub open spec fn abstract_part_of(p: AbstractPart, e: XmlNode) -> bool {
    if is_named(e, "paragraph"@) {
        p matches AbstractPart::Paragraph(x) && paragraph_of(x, e)
    } else {
        p matches AbstractPart::Opaque(o) && fragment_of(o.xml, e)
    }
}

pub open spec fn abstract_of(a: AbstractSection, n: XmlNode) -> bool {
    let es = spec_child_elements(n);
    &&& attrs_view(a.attributes@) == attrs_view(spec_attrs(n))
    &&& a.parts@.len() == es.len()
    &&& forall|i: int| 0 <= i < es.len() ==> #[trigger] abstract_part_of(a.parts@[i], es[i])
}

pub fn parse_abstract_section(n: &XmlNode) -> (r: AbstractSection)
    ensures
        abstract_of(r, *n),
{
    let cs = children(n);
    let mut parts: Vec<AbstractPart> = Vec::new();
    let mut i: usize = 0;
    while i < cs.len()
        invariant
            i <= cs.len(),
            cs@ == spec_children(*n),
            parts@.len() == elements_of(cs@.take(i as int)).len(),
            forall|j: int| 0 <= j < parts@.len() ==> #[trigger] abstract_part_of(
                parts@[j],
                elements_of(cs@.take(i as int))[j],
            ),
        decreases cs.len() - i,
    {
        proof {
            lemma_elements_step(cs@, i as int);
        }
        let c = &cs[i];
        if let XmlNode::Element { .. } = c {
            let part = if has_name(c, "paragraph") {
                AbstractPart::Paragraph(parse_paragraph(c))
            } else {
                AbstractPart::Opaque(opaque_block(c))
            };
            parts.push(part);
        }
        i += 1;
    }
    assert(cs@.take(cs.len() as int) =~= cs@);
    AbstractSection { attributes: attributes(n), parts }
}


// ---------------------------------------------------------------------------
// Description
// ---------------------------------------------------------------------------

pub open spec fn section_part_of(p: SectionPart, e: XmlNode) -> bool {
    if is_named(e, "heading"@) {
        p matches SectionPart::Heading(h) && heading_of(h, e)
    } else if is_named(e, "paragraph"@) {
        p matches SectionPart::Paragraph(x) && paragraph_of(x, e)
    } else {
        p matches SectionPart::Opaque(o) && fragment_of(o.xml, e)
    }
}

pub open spec fn section_of(s: Section, n: XmlNode) -> bool {
    let es = spec_child_elements(n);
    &&& attrs_view(s.attributes@) == attrs_view(spec_attrs(n))
    &&& s.parts@.len() == es.len()
    &&& forall|i: int| 0 <= i < es.len() ==> #[trigger] section_part_of(s.parts@[i], es[i])
}

fn parse_section(n: &XmlNode) -> (r: Section)
    ensures
        section_of(r, *n),
{
    let cs = children(n);
    let mut parts: Vec<SectionPart> = Vec::new();
    let mut i: usize = 0;
    while i < cs.len()
        invariant
            i <= cs.len(),
            cs@ == spec_children(*n),
            parts@.len() == elements_of(cs@.take(i as int)).len(),
            forall|j: int| 0 <= j < parts@.len() ==> #[trigger] section_part_of(
                parts@[j],
                elements_of(cs@.take(i as int))[j],
            ),
        decreases cs.len() - i,
    {
        proof {
            lemma_elements_step(cs@, i as int);
        }
        let c = &cs[i];
        if let XmlNode::Element { .. } = c {
            let part = if has_name(c, "heading") {
                SectionPart::Heading(parse_heading(c))
            } else if has_name(c, "paragraph") {
                SectionPart::Paragraph(parse_paragraph(c))
            } else {
                SectionPart::Opaque(opaque_block(c))
            };
            parts.push(part);
        }
        i += 1;
    }
    assert(cs@.take(cs.len() as int) =~= cs@);
    Section { attributes: attributes(n), parts }
}

pub open spec fn section_entry_of(p: DescriptionSectionPart, e: XmlNode) -> bool {
    if is_named(e, "section"@) {
        p matches DescriptionSectionPart::Section(s) && section_of(s, e)
    } else {
        p matches DescriptionSectionPart::Opaque(o) && fragment_of(o.xml, e)
    }
}

pub open spec fn section_entries_of(ps: Seq<DescriptionSectionPart>, n: XmlNode) -> bool {
    let es = spec_child_elements(n);
    &&& ps.len() == es.len()
    &&& forall|i: int| 0 <= i < es.len() ==> #[trigger] section_entry_of(ps[i], es[i])
}

fn parse_section_entries(n: &XmlNode) -> (r: Vec<DescriptionSectionPart>)
    ensures
        section_entries_of(r@, *n),
{
    let cs = children(n);
    let mut parts: Vec<DescriptionSectionPart> = Vec::new();
    let mut i: usize = 0;
    while i < cs.len()
        invariant
            i <= cs.len(),
            cs@ == spec_children(*n),
            parts@.len() == elements_of(cs@.take(i as int)).len(),
            forall|j: int| 0 <= j < parts@.len() ==> #[trigger] section_entry_of(
                parts@[j],
                elements_of(cs@.take(i as int))[j],
            ),
        decreases cs.len() - i,
    {
        proof {
            lemma_elements_step(cs@, i as int);
        }
        let c = &cs[i];
        if let XmlNode::Element { .. } = c {
            let part = if has_name(c, "section") {
                DescriptionSectionPart::Section(parse_section(c))
            } else {
                DescriptionSectionPart::Opaque(opaque_block(c))
            };
            parts.push(part);
        }
        i += 1;
    }
    assert(cs@.take(cs.len() as int) =~= cs@);
    parts
}

pub open spec fn cross_reference_part_of(p: CrossReferencePart, e: XmlNode) -> bool {
    if is_named(e, "heading"@) {
        p matches CrossReferencePart::Heading(h) && heading_of(h, e)
    } else if is_named(e, "paragraph"@) {
        p matches CrossReferencePart::Paragraph(x) && paragraph_of(x, e)
    } else {
        p matches CrossReferencePart::Opaque(o) && fragment_of(o.xml, e)
    }
}

pub open spec fn cross_reference_of(x: CrossReferenceToRelatedApplications, n: XmlNode) -> bool {
    let es = spec_child_elements(n);
    &&& attrs_view(x.attributes@) == attrs_view(spec_attrs(n))
    &&& x.parts@.len() == es.len()
    &&& forall|i: int| 0 <= i < es.len() ==> #[trigger] cross_reference_part_of(x.parts@[i], es[i])
}

fn parse_cross_reference(n: &XmlNode) -> (r: CrossReferenceToRelatedApplications)
    ensures
        cross_reference_of(r, *n),
{
    let cs = children(n);
    let mut parts: Vec<CrossReferencePart> = Vec::new();
    let mut i: usize = 0;
    while i < cs.len()
        invariant
            i <= cs.len(),
            cs@ == spec_children(*n),
            parts@.len() == elements_of(cs@.take(i as int)).len(),
            forall|j: int| 0 <= j < parts@.len() ==> #[trigger] cross_reference_part_of(
                parts@[j],
                elements_of(cs@.take(i as int))[j],
            ),
        decreases cs.len() - i,
    {
        proof {
            lemma_elements_step(cs@, i as int);
        }
        let c = &cs[i];
        if let XmlNode::Element { .. } = c {
            let part = if has_name(c, "heading") {
                CrossReferencePart::Heading(parse_heading(c))
            } else if has_name(c, "paragraph") {
                CrossReferencePart::Paragraph(parse_paragraph(c))
            } else {
                CrossReferencePart::Opaque(opaque_block(c))
            };
            parts.push(part);
        }
        i += 1;
    }
    assert(cs@.take(cs.len() as int) =~= cs@);
    CrossReferenceToRelatedApplications { attributes: attributes(n), parts }
}

pub open spec fn description_part_of(p: DescriptionPart, e: XmlNode) -> bool {
    if is_named(e, "cross-reference-to-related-applications"@) {
        p matches DescriptionPart::CrossReferenceToRelatedApplications(x) && cross_reference_of(x, e)
    } else if is_named(e, "summary-of-invention"@) {
        p matches DescriptionPart::SummaryOfInvention(x) && attrs_view(x.attributes@)
            == attrs_view(spec_attrs(e)) && section_entries_of(x.parts@, e)
    } else if is_named(e, "brief-description-of-drawings"@) {
        p matches DescriptionPart::BriefDescriptionOfDrawings(x) && attrs_view(x.attributes@)
            == attrs_view(spec_attrs(e)) && section_entries_of(x.parts@, e)
    } else if is_named(e, "detailed-description"@) {
        p matches DescriptionPart::DetailedDescription(x) && attrs_view(x.attributes@)
            == attrs_view(spec_attrs(e)) && section_entries_of(x.parts@, e)
    } else {
        p matches DescriptionPart::Opaque(o) && fragment_of(o.xml, e)
    }
}

pub open spec fn description_of(d: Description, n: XmlNode) -> bool {
    let es = spec_child_elements(n);
    &&& attrs_view(d.attributes@) == attrs_view(spec_attrs(n))
    &&& d.parts@.len() == es.len()
    &&& forall|i: int| 0 <= i < es.len() ==> #[trigger] description_part_of(d.parts@[i], es[i])
}

fn description_part(c: &XmlNode) -> (r: DescriptionPart)
    ensures
        description_part_of(r, *c),
{
    if has_name(c, "cross-reference-to-related-applications") {
        DescriptionPart::CrossReferenceToRelatedApplications(parse_cross_reference(c))
    } else if has_name(c, "summary-of-invention") {
        DescriptionPart::SummaryOfInvention(
            SummaryOfInvention { attributes: attributes(c), parts: parse_section_entries(c) },
        )
    } else if has_name(c, "brief-description-of-drawings") {
        DescriptionPart::BriefDescriptionOfDrawings(
            BriefDescriptionOfDrawings { attributes: attributes(c), parts: parse_section_entries(c) },
        )
    } else if has_name(c, "detailed-description") {
        DescriptionPart::DetailedDescription(
            DetailedDescription { attributes: attributes(c), parts: parse_section_entries(c) },
        )
    } else {
        DescriptionPart::Opaque(opaque_block(c))
    }
}

pub fn parse_description(n: &XmlNode) -> (r: Description)
    ensures
        description_of(r, *n),
{
    let cs = children(n);
    let mut parts: Vec<DescriptionPart> = Vec::new();
    let mut i: usize = 0;
    while i < cs.len()
        invariant
            i <= cs.len(),
            cs@ == spec_children(*n),
            parts@.len() == elements_of(cs@.take(i as int)).len(),
            forall|j: int| 0 <= j < parts@.len() ==> #[trigger] description_part_of(
                parts@[j],
                elements_of(cs@.take(i as int))[j],
            ),
        decreases cs.len() - i,
    {
        proof {
            lemma_elements_step(cs@, i as int);
        }
        let c = &cs[i];
        if let XmlNode::Element { .. } = c {
            parts.push(description_part(c));
        }
        i += 1;
    }
    assert(cs@.take(cs.len() as int) =~= cs@);
    Description { attributes: attributes(n), parts }
}

// ---------------------------------------------------------------------------
// Descendant search
// ---------------------------------------------------------------------------

/// The first element named one of `names` among `cs` and their descendants,
/// in document order.
pub open spec fn first_in_tree(cs: Seq<XmlNode>, names: Seq<Seq<char>>) -> Option<XmlNode>
    decreases cs, 1nat,
{
    if cs.len() == 0 {
        None
    } else {
        match first_in_node(cs[0], names) {
            Some(x) => Some(x),
            None => first_in_tree(cs.drop_first(), names),
        }
    }
}

pub open spec fn first_in_node(c: XmlNode, names: Seq<Seq<char>>) -> Option<XmlNode>
    decreases c, 0nat,
{
    if c is Element && (spec_local_name(c) matches Some(x) && names.contains(x)) {
        Some(c)
    } else {
        match c {
            XmlNode::Element { children, .. } => first_in_tree(children@, names),
            XmlNode::EntityRef { children, .. } => first_in_tree(children@, names),
            XmlNode::Document(children) => first_in_tree(children@, names),
            _ => None,
        }
    }
}

/// The trimmed text of the first descendant element named one of `names`,
/// unless it is empty.
pub open spec fn descendant_text(n: XmlNode, names: Seq<Seq<char>>) -> Option<Seq<char>> {
    match first_in_tree(spec_children(n), names) {
        Some(d) => if trimmed_text(d).len() > 0 {
            Some(trimmed_text(d))
        } else {
            None
        },
        None => None,
    }
}

fn first_in_nodes<'a>(cs: &'a Vec<XmlNode>, names: &[&str]) -> (r: Option<&'a XmlNode>)
    ensures
        match first_in_tree(cs@, crate::source::uspto::nodes::names_view(names@)) {
            Some(d) => r matches Some(x) && *x == d,
            None => r is None,
        },
    decreases cs@, 1nat,
{
    let ghost nv = crate::source::uspto::nodes::names_view(names@);
    let mut i: usize = 0;
    assert(cs@.subrange(0, cs@.len() as int) =~= cs@);
    while i < cs.len()
        invariant
            i <= cs.len(),
            nv == crate::source::uspto::nodes::names_view(names@),
            first_in_tree(cs@, nv) == first_in_tree(cs@.subrange(i as int, cs@.len() as int), nv),
        decreases cs.len() - i,
    {
        proof {
            assert(decreases_to!(cs@ => cs@[i as int]));
            let rest = cs@.subrange(i as int, cs@.len() as int);
            assert(rest[0] == cs@[i as int]);
            assert(rest.drop_first() =~= cs@.subrange(i + 1, cs@.len() as int));
        }
        match first_in_one(&cs[i], names) {
            Some(x) => return Some(x),
            None => {},
        }
        i += 1;
    }
    assert(cs@.subrange(cs@.len() as int, cs@.len() as int) =~= Seq::<XmlNode>::empty());
    None
}

fn first_in_one<'a>(c: &'a XmlNode, names: &[&str]) -> (r: Option<&'a XmlNode>)
    ensures
        match first_in_node(*c, crate::source::uspto::nodes::names_view(names@)) {
            Some(d) => r matches Some(x) && *x == d,
            None => r is None,
        },
    decreases c, 2nat,
{
    if let XmlNode::Element { .. } = c {
        if crate::source::uspto::nodes::name_in(c, names) {
            return Some(c);
        }
    }
    match c {
        XmlNode::Element { children, .. } => {
            proof {
                assert(decreases_to!(*c => (*c)->Element_children));
            }
            first_in_nodes(children, names)
        },
        XmlNode::EntityRef { children, .. } => {
            proof {
                assert(decreases_to!(*c => (*c)->EntityRef_children));
            }
            first_in_nodes(children, names)
        },
        XmlNode::Document(children) => {
            proof {
                assert(decreases_to!(*c => (*c)->Document_0));
            }
            first_in_nodes(children, names)
        },
        _ => None,
    }
}

fn descendant_text_of(n: &XmlNode, names: &[&str]) -> (r: Option<String>)
    ensures
        opt_view(r) == descendant_text(*n, crate::source::uspto::nodes::names_view(names@)),
{
    let found = match n {
        XmlNode::Element { children, .. } => first_in_nodes(children, names),
        XmlNode::EntityRef { children, .. } => first_in_nodes(children, names),
        XmlNode::Document(children) => first_in_nodes(children, names),
        _ => {
            assert(spec_children(*n) =~= Seq::<XmlNode>::empty());
            None
        },
    };
    match found {
        Some(d) => {
            let t = trimmed_text_of(d);
            if t.as_str().is_empty() {
                None
            } else {
                Some(t)
            }
        },
        None => None,
    }
}


// ---------------------------------------------------------------------------
// Bibliographic data
// ---------------------------------------------------------------------------

pub open spec fn ct(n: XmlNode, name: Seq<char>) -> Option<Seq<char>> {
    crate::source::uspto::nodes::spec_child_text(n, seq![name])
}

fn child_text_of(n: &XmlNode, name: &str) -> (r: Option<String>)
    ensures
        opt_view(r) == ct(*n, name@),
{
    let names: [&str; 1] = [name];
    assert(crate::source::uspto::nodes::names_view(names@) =~= seq![name@]);
    crate::source::uspto::nodes::child_text(n, &names)
}

pub open spec fn dt(n: XmlNode, name: Seq<char>) -> Option<Seq<char>> {
    descendant_text(n, seq![name])
}

fn desc_text_of(n: &XmlNode, name: &str) -> (r: Option<String>)
    ensures
        opt_view(r) == dt(*n, name@),
{
    let names: [&str; 1] = [name];
    assert(crate::source::uspto::nodes::names_view(names@) =~= seq![name@]);
    descendant_text_of(n, &names)
}

pub open spec fn doc_id_of(d: DocumentId, n: XmlNode) -> bool {
    &&& d.doc_number@ == crate::source::uspto::application_v4x::or_empty(ct(n, "doc-number"@))
    &&& opt_view(d.kind_code) == ct(n, "kind-code"@)
    &&& opt_view(d.document_date) == ct(n, "document-date"@)
    &&& opt_view(d.country_code) == ct(n, "country-code"@)
}

fn parse_document_id(n: &XmlNode) -> (r: DocumentId)
    ensures
        doc_id_of(r, *n),
{
    let doc_number = match child_text_of(n, "doc-number") {
        Some(v) => v,
        None => String::new(),
    };
    DocumentId {
        doc_number,
        kind_code: child_text_of(n, "kind-code"),
        document_date: child_text_of(n, "document-date"),
        country_code: child_text_of(n, "country-code"),
    }
}

pub open spec fn filing_part_of(p: DomesticFilingPart, e: XmlNode) -> bool {
    if is_named(e, "application-number"@) {
        &&& p matches DomesticFilingPart::ApplicationNumber(a)
        &&& attrs_view(a.attributes@) == attrs_view(spec_attrs(e))
        &&& opt_view(a.appl_type) == spec_attribute(e, "appl-type"@)
        &&& opt_view(a.doc_number) == ct(e, "doc-number"@)
    } else if is_named(e, "application-number-series-code"@) {
        p matches DomesticFilingPart::ApplicationNumberSeriesCode(v) && v@ == trimmed_text(e)
    } else if is_named(e, "filing-date"@) {
        p matches DomesticFilingPart::FilingDate(v) && v@ == trimmed_text(e)
    } else {
        p matches DomesticFilingPart::Opaque(o) && fragment_of(o.xml, e)
    }
}

pub open spec fn filing_of(d: DomesticFilingData, n: XmlNode) -> bool {
    let es = spec_child_elements(n);
    &&& attrs_view(d.attributes@) == attrs_view(spec_attrs(n))
    &&& d.parts@.len() == es.len()
    &&& forall|i: int| 0 <= i < es.len() ==> #[trigger] filing_part_of(d.parts@[i], es[i])
}

fn filing_part(c: &XmlNode) -> (r: DomesticFilingPart)
    ensures
        filing_part_of(r, *c),
{
    if has_name(c, "application-number") {
        DomesticFilingPart::ApplicationNumber(
            ApplicationNumber {
                attributes: attributes(c),
                appl_type: attribute(c, "appl-type"),
                doc_number: child_text_of(c, "doc-number"),
            },
        )
    } else if has_name(c, "application-number-series-code") {
        DomesticFilingPart::ApplicationNumberSeriesCode(trimmed_text_of(c))
    } else if has_name(c, "filing-date") {
        DomesticFilingPart::FilingDate(trimmed_text_of(c))
    } else {
        DomesticFilingPart::Opaque(opaque_block(c))
    }
}

fn parse_filing(n: &XmlNode) -> (r: DomesticFilingData)
    ensures
        filing_of(r, *n),
{
    let cs = children(n);
    let mut parts: Vec<DomesticFilingPart> = Vec::new();
    let mut i: usize = 0;
    while i < cs.len()
        invariant
            i <= cs.len(),
            cs@ == spec_children(*n),
            parts@.len() == elements_of(cs@.take(i as int)).len(),
            forall|j: int| 0 <= j < parts@.len() ==> #[trigger] filing_part_of(
                parts@[j],
                elements_of(cs@.take(i as int))[j],
            ),
        decreases cs.len() - i,
    {
        proof {
            lemma_elements_step(cs@, i as int);
        }
        let c = &cs[i];
        if let XmlNode::Element { .. } = c {
            parts.push(filing_part(c));
        }
        i += 1;
    }
    assert(cs@.take(cs.len() as int) =~= cs@);
    DomesticFilingData { attributes: attributes(n), parts }
}

/// A `trim` applied to a present value.
pub open spec fn opt_trim(v: Option<Seq<char>>) -> Option<Seq<char>> {
    match v {
        Some(x) => Some(trim(x)),
        None => None,
    }
}

pub open spec fn tech_part_of(p: TechnicalInformationPart, e: XmlNode) -> bool {
    if is_named(e, "classification-ipc"@) {
        &&& p matches TechnicalInformationPart::ClassificationIpc(c)
        &&& attrs_view(c.attributes@) == attrs_view(spec_attrs(e))
        &&& opt_view(c.main_classification) == dt(e, "ipc"@)
        &&& c.further_classification@.len() == 0
    } else if is_named(e, "classification-us"@) {
        &&& p matches TechnicalInformationPart::ClassificationUs(c)
        &&& attrs_view(c.attributes@) == attrs_view(spec_attrs(e))
        &&& opt_view(c.national_classification) == opt_trim(
            descendant_text(e, seq!["class"@, "subclass"@]),
        )
        &&& c.further_classification@.len() == 0
    } else if is_named(e, "title-of-invention"@) {
        p matches TechnicalInformationPart::TitleOfInvention(t) && t@ == trimmed_text(e)
    } else {
        p matches TechnicalInformationPart::Opaque(o) && fragment_of(o.xml, e)
    }
}

pub open spec fn tech_of(t: TechnicalInformation, n: XmlNode) -> bool {
    let es = spec_child_elements(n);
    &&& attrs_view(t.attributes@) == attrs_view(spec_attrs(n))
    &&& t.parts@.len() == es.len()
    &&& forall|i: int| 0 <= i < es.len() ==> #[trigger] tech_part_of(t.parts@[i], es[i])
}

fn tech_part(c: &XmlNode) -> (r: TechnicalInformationPart)
    ensures
        tech_part_of(r, *c),
{
    if has_name(c, "classification-ipc") {
        TechnicalInformationPart::ClassificationIpc(
            ClassificationIpc {
                attributes: attributes(c),
                main_classification: desc_text_of(c, "ipc"),
                further_classification: Vec::new(),
            },
        )
    } else if has_name(c, "classification-us") {
        let names: [&str; 2] = ["class", "subclass"];
        assert(crate::source::uspto::nodes::names_view(names@) =~= seq!["class"@, "subclass"@]);
        let national = match descendant_text_of(c, &names) {
            Some(v) => Some(string_of(crate::text::trim_str(v.as_str()).as_slice())),
            None => None,
        };
        TechnicalInformationPart::ClassificationUs(
            ClassificationUs {
                attributes: attributes(c),
                national_classification: national,
                further_classification: Vec::new(),
            },
        )
    } else if has_name(c, "title-of-invention") {
        TechnicalInformationPart::TitleOfInvention(trimmed_text_of(c))
    } else {
        TechnicalInformationPart::Opaque(opaque_block(c))
    }
}

fn parse_technical(n: &XmlNode) -> (r: TechnicalInformation)
    ensures
        tech_of(r, *n),
{
    let cs = children(n);
    let mut parts: Vec<TechnicalInformationPart> = Vec::new();
    let mut i: usize = 0;
    while i < cs.len()
        invariant
            i <= cs.len(),
            cs@ == spec_children(*n),
            parts@.len() == elements_of(cs@.take(i as int)).len(),
            forall|j: int| 0 <= j < parts@.len() ==> #[trigger] tech_part_of(
                parts@[j],
                elements_of(cs@.take(i as int))[j],
            ),
        decreases cs.len() - i,
    {
        proof {
            lemma_elements_step(cs@, i as int);
        }
        let c = &cs[i];
        if let XmlNode::Element { .. } = c {
            parts.push(tech_part(c));
        }
        i += 1;
    }
    assert(cs@.take(cs.len() as int) =~= cs@);
    TechnicalInformation { attributes: attributes(n), parts }
}

/// The continuity relationships this schema records.
pub open spec fn is_relation_name(e: XmlNode) -> bool {
    is_named(e, "continuations"@) || is_named(e, "a-371-of-international"@) || is_named(
        e,
        "continuation-of"@,
    ) || is_named(e, "continuation-in-part-of"@)
}

pub open spec fn continuity_part_of(p: ContinuityPart, e: XmlNode) -> bool {
    if is_relation_name(e) {
        &&& p matches ContinuityPart::NonProvisionalOfProvisional(r)
        &&& attrs_view(r.attributes@) == attrs_view(spec_attrs(e))
        &&& opt_view(r.parent_doc_number) == dt(e, "doc-number"@)
        &&& opt_view(r.parent_date) == dt(e, "document-date"@)
        &&& r.child_doc_number is None
        &&& opt_view(r.relationship) == spec_local_name(e)
    } else {
        p matches ContinuityPart::Opaque(o) && fragment_of(o.xml, e)
    }
}

pub open spec fn continuity_of(d: ContinuityData, n: XmlNode) -> bool {
    let es = spec_child_elements(n);
    &&& attrs_view(d.attributes@) == attrs_view(spec_attrs(n))
    &&& d.parts@.len() == es.len()
    &&& forall|i: int| 0 <= i < es.len() ==> #[trigger] continuity_part_of(d.parts@[i], es[i])
}

fn element_name(c: &XmlNode) -> (r: Option<String>)
    ensures
        opt_view(r) == spec_local_name(*c),
{
    match c {
        XmlNode::Element { name, .. } => Some(name.clone()),
        XmlNode::ProcessingInstruction { target, .. } => Some(target.clone()),
        _ => None,
    }
}

fn continuity_part(c: &XmlNode) -> (r: ContinuityPart)
    ensures
        continuity_part_of(r, *c),
{
    if has_name(c, "continuations") || has_name(c, "a-371-of-international") || has_name(
        c,
        "continuation-of",
    ) || has_name(c, "continuation-in-part-of") {
        ContinuityPart::NonProvisionalOfProvisional(
            RelatedDocument {
                attributes: attributes(c),
                parent_doc_number: desc_text_of(c, "doc-number"),
                parent_date: desc_text_of(c, "document-date"),
                child_doc_number: None,
                relationship: element_name(c),
            },
        )
    } else {
        ContinuityPart::Opaque(opaque_block(c))
    }
}

fn parse_continuity(n: &XmlNode) -> (r: ContinuityData)
    ensures
        continuity_of(r, *n),
{
    let cs = children(n);
    let mut parts: Vec<ContinuityPart> = Vec::new();
    let mut i: usize = 0;
    while i < cs.len()
        invariant
            i <= cs.len(),
            cs@ == spec_children(*n),
            parts@.len() == elements_of(cs@.take(i as int)).len(),
            forall|j: int| 0 <= j < parts@.len() ==> #[trigger] continuity_part_of(
                parts@[j],
                elements_of(cs@.take(i as int))[j],
            ),
        decreases cs.len() - i,
    {
        proof {
            lemma_elements_step(cs@, i as int);
        }
        let c = &cs[i];
        if let XmlNode::Element { .. } = c {
            parts.push(continuity_part(c));
        }
        i += 1;
    }
    assert(cs@.take(cs.len() as int) =~= cs@);
    ContinuityData { attributes: attributes(n), parts }
}

pub open spec fn inventor_of(v: Inventor, n: XmlNode) -> bool {
    &&& attrs_view(v.attributes@) == attrs_view(spec_attrs(n))
    &&& opt_view(v.first_name) == dt(n, "given-name"@)
    &&& opt_view(v.last_name) == dt(n, "family-name"@)
    &&& opt_view(v.city) == dt(n, "city"@)
    &&& opt_view(v.state) == dt(n, "state"@)
    &&& opt_view(v.country) == dt(n, "country-code"@)
}

fn parse_inventor(n: &XmlNode) -> (r: Inventor)
    ensures
        inventor_of(r, *n),
{
    Inventor {
        attributes: attributes(n),
        first_name: desc_text_of(n, "given-name"),
        last_name: desc_text_of(n, "family-name"),
        city: desc_text_of(n, "city"),
        state: desc_text_of(n, "state"),
        country: desc_text_of(n, "country-code"),
    }
}

pub open spec fn inventors_part_of(p: InventorsPart, e: XmlNode) -> bool {
    if is_named(e, "first-named-inventor"@) {
        p matches InventorsPart::FirstNamedInventor(v) && inventor_of(v, e)
    } else if is_named(e, "inventor"@) {
        p matches InventorsPart::Inventor(v) && inventor_of(v, e)
    } else {
        p matches InventorsPart::Opaque(o) && fragment_of(o.xml, e)
    }
}

pub open spec fn inventors_of(d: Inventors, n: XmlNode) -> bool {
    let es = spec_child_elements(n);
    &&& attrs_view(d.attributes@) == attrs_view(spec_attrs(n))
    &&& d.parts@.len() == es.len()
    &&& forall|i: int| 0 <= i < es.len() ==> #[trigger] inventors_part_of(d.parts@[i], es[i])
}

fn parse_inventors(n: &XmlNode) -> (r: Inventors)
    ensures
        inventors_of(r, *n),
{
    let cs = children(n);
    let mut parts: Vec<InventorsPart> = Vec::new();
    let mut i: usize = 0;
    while i < cs.len()
        invariant
            i <= cs.len(),
            cs@ == spec_children(*n),
            parts@.len() == elements_of(cs@.take(i as int)).len(),
            forall|j: int| 0 <= j < parts@.len() ==> #[trigger] inventors_part_of(
                parts@[j],
                elements_of(cs@.take(i as int))[j],
            ),
        decreases cs.len() - i,
    {
        proof {
            lemma_elements_step(cs@, i as int);
        }
        let c = &cs[i];
        if let XmlNode::Element { .. } = c {
            let part = if has_name(c, "first-named-inventor") {
                InventorsPart::FirstNamedInventor(parse_inventor(c))
            } else if has_name(c, "inventor") {
                InventorsPart::Inventor(parse_inventor(c))
            } else {
                InventorsPart::Opaque(opaque_block(c))
            };
            parts.push(part);
        }
        i += 1;
    }
    assert(cs@.take(cs.len() as int) =~= cs@);
    Inventors { attributes: attributes(n), parts }
}

/// An address line element: its name starts with `address-`.
pub open spec fn is_address_line(e: XmlNode) -> bool {
    spec_local_name(e) matches Some(x) && crate::text::starts_with(x, "address-"@)
}

pub open spec fn address_lines(es: Seq<XmlNode>) -> Seq<Seq<char>>
    decreases es.len(),
{
    if es.len() == 0 {
        Seq::empty()
    } else if is_address_line(es.last()) {
        address_lines(es.drop_last()).push(trimmed_text(es.last()))
    } else {
        address_lines(es.drop_last())
    }
}

pub open spec fn strings_view(v: Seq<String>) -> Seq<Seq<char>> {
    v.map_values(|s: String| s@)
}

pub open spec fn address_of(a: Address, n: XmlNode) -> bool {
    &&& attrs_view(a.attributes@) == attrs_view(spec_attrs(n))
    &&& opt_view(a.city) == ct(n, "city"@)
    &&& opt_view(a.state) == ct(n, "state"@)
    &&& opt_view(a.country) == dt(n, "country-code"@)
    &&& opt_view(a.postal_code) == ct(n, "postalcode"@)
    &&& strings_view(a.lines@) == address_lines(spec_child_elements(n))
}

fn is_address_line_node(c: &XmlNode) -> (r: bool)
    ensures
        r == is_address_line(*c),
{
    match c {
        XmlNode::Element { name, .. } => crate::text::starts_with_str(
            chars_of(name.as_str()).as_slice(),
            "address-",
        ),
        XmlNode::ProcessingInstruction { target, .. } => crate::text::starts_with_str(
            chars_of(target.as_str()).as_slice(),
            "address-",
        ),
        _ => false,
    }
}

fn parse_address(n: &XmlNode) -> (r: Address)
    ensures
        address_of(r, *n),
{
    let cs = children(n);
    let mut lines: Vec<String> = Vec::new();
    let mut i: usize = 0;
    while i < cs.len()
        invariant
            i <= cs.len(),
            cs@ == spec_children(*n),
            strings_view(lines@) == address_lines(elements_of(cs@.take(i as int))),
        decreases cs.len() - i,
    {
        proof {
            lemma_elements_step(cs@, i as int);
        }
        let c = &cs[i];
        if let XmlNode::Element { .. } = c {
            let ghost es = elements_of(cs@.take(i as int)).push(*c);
            assert(es.drop_last() =~= elements_of(cs@.take(i as int)));
            if is_address_line_node(c) {
                let ghost before = lines@;
                lines.push(trimmed_text_of(c));
                assert(strings_view(lines@) =~= strings_view(before).push(lines@.last()@));
            }
        }
        i += 1;
    }
    assert(cs@.take(cs.len() as int) =~= cs@);
    Address {
        attributes: attributes(n),
        city: child_text_of(n, "city"),
        state: child_text_of(n, "state"),
        country: desc_text_of(n, "country-code"),
        postal_code: child_text_of(n, "postalcode"),
        lines,
    }
}

pub open spec fn correspondence_part_of(p: CorrespondenceAddressPart, e: XmlNode) -> bool {
    if is_named(e, "name-1"@) {
        p matches CorrespondenceAddressPart::Name1(v) && v@ == trimmed_text(e)
    } else if is_named(e, "name-2"@) {
        p matches CorrespondenceAddressPart::Name2(v) && v@ == trimmed_text(e)
    } else if is_named(e, "address"@) {
        p matches CorrespondenceAddressPart::Address(a) && address_of(a, e)
    } else {
        p matches CorrespondenceAddressPart::Opaque(o) && fragment_of(o.xml, e)
    }
}

pub open spec fn correspondence_of(d: CorrespondenceAddress, n: XmlNode) -> bool {
    let es = spec_child_elements(n);
    &&& attrs_view(d.attributes@) == attrs_view(spec_attrs(n))
    &&& d.parts@.len() == es.len()
    &&& forall|i: int| 0 <= i < es.len() ==> #[trigger] correspondence_part_of(d.parts@[i], es[i])
}

fn parse_correspondence(n: &XmlNode) -> (r: CorrespondenceAddress)
    ensures
        correspondence_of(r, *n),
{
    let cs = children(n);
    let mut parts: Vec<CorrespondenceAddressPart> = Vec::new();
    let mut i: usize = 0;
    while i < cs.len()
        invariant
            i <= cs.len(),
            cs@ == spec_children(*n),
            parts@.len() == elements_of(cs@.take(i as int)).len(),
            forall|j: int| 0 <= j < parts@.len() ==> #[trigger] correspondence_part_of(
                parts@[j],
                elements_of(cs@.take(i as int))[j],
            ),
        decreases cs.len() - i,
    {
        proof {
            lemma_elements_step(cs@, i as int);
        }
        let c = &cs[i];
        if let XmlNode::Element { .. } = c {
            let part = if has_name(c, "name-1") {
                CorrespondenceAddressPart::Name1(trimmed_text_of(c))
            } else if has_name(c, "name-2") {
                CorrespondenceAddressPart::Name2(trimmed_text_of(c))
            } else if has_name(c, "address") {
                CorrespondenceAddressPart::Address(parse_address(c))
            } else {
                CorrespondenceAddressPart::Opaque(opaque_block(c))
            };
            parts.push(part);
        }
        i += 1;
    }
    assert(cs@.take(cs.len() as int) =~= cs@);
    CorrespondenceAddress { attributes: attributes(n), parts }
}

pub open spec fn biblio_part_of(p: BibliographicPart, e: XmlNode) -> bool {
    if is_named(e, "document-id"@) {
        p matches BibliographicPart::DocumentId(d) && doc_id_of(d, e)
    } else if is_named(e, "publication-filing-type"@) {
        p matches BibliographicPart::PublicationFilingType(v) && v@ == trimmed_text(e)
    } else if is_named(e, "domestic-filing-data"@) {
        p matches BibliographicPart::DomesticFilingData(d) && filing_of(d, e)
    } else if is_named(e, "technical-information"@) {
        p matches BibliographicPart::TechnicalInformation(t) && tech_of(t, e)
    } else if is_named(e, "continuity-data"@) {
        p matches BibliographicPart::ContinuityData(c) && continuity_of(c, e)
    } else if is_named(e, "inventors"@) {
        p matches BibliographicPart::Inventors(v) && inventors_of(v, e)
    } else if is_named(e, "correspondence-address"@) {
        p matches BibliographicPart::CorrespondenceAddress(v) && correspondence_of(v, e)
    } else {
        p matches BibliographicPart::Opaque(o) && fragment_of(o.xml, e)
    }
}

pub open spec fn biblio_of(b: BibliographicInformation, n: XmlNode) -> bool {
    let es = spec_child_elements(n);
    &&& attrs_view(b.attributes@) == attrs_view(spec_attrs(n))
    &&& b.parts@.len() == es.len()
    &&& forall|i: int| 0 <= i < es.len() ==> #[trigger] biblio_part_of(b.parts@[i], es[i])
}

fn biblio_part(c: &XmlNode) -> (r: BibliographicPart)
    ensures
        biblio_part_of(r, *c),
{
    if has_name(c, "document-id") {
        BibliographicPart::DocumentId(parse_document_id(c))
    } else if has_name(c, "publication-filing-type") {
        BibliographicPart::PublicationFilingType(trimmed_text_of(c))
    } else if has_name(c, "domestic-filing-data") {
        BibliographicPart::DomesticFilingData(parse_filing(c))
    } else if has_name(c, "technical-information") {
        BibliographicPart::TechnicalInformation(parse_technical(c))
    } else if has_name(c, "continuity-data") {
        BibliographicPart::ContinuityData(parse_continuity(c))
    } else if has_name(c, "inventors") {
        BibliographicPart::Inventors(parse_inventors(c))
    } else if has_name(c, "correspondence-address") {
        BibliographicPart::CorrespondenceAddress(parse_correspondence(c))
    } else {
        BibliographicPart::Opaque(opaque_block(c))
    }
}

pub fn parse_bibliographic_information(n: &XmlNode) -> (r: BibliographicInformation)
    ensures
        biblio_of(r, *n),
{
    let cs = children(n);
    let mut parts: Vec<BibliographicPart> = Vec::new();
    let mut i: usize = 0;
    while i < cs.len()
        invariant
            i <= cs.len(),
            cs@ == spec_children(*n),
            parts@.len() == elements_of(cs@.take(i as int)).len(),
            forall|j: int| 0 <= j < parts@.len() ==> #[trigger] biblio_part_of(
                parts@[j],
                elements_of(cs@.take(i as int))[j],
            ),
        decreases cs.len() - i,
    {
        proof {
            lemma_elements_step(cs@, i as int);
        }
        let c = &cs[i];
        if let XmlNode::Element { .. } = c {
            parts.push(biblio_part(c));
        }
        i += 1;
    }
    assert(cs@.take(cs.len() as int) =~= cs@);
    BibliographicInformation { attributes: attributes(n), parts }
}


// ---------------------------------------------------------------------------
// Writing: fragments, runs and blocks
// ---------------------------------------------------------------------------

pub open spec fn empty_attrs() -> Seq<XmlAttribute> {
    Seq::empty()
}

/// A verbatim fragment as this schema writes it: text always escaped,
/// elements with their attributes and children.
pub open spec fn fragment_xml(f: XmlFragment) -> Seq<char>
    decreases f,
{
    match f {
        XmlFragment::Text(v) => spec_escape_text(v@),
        XmlFragment::Element { name, attributes, children } => {
            let tag = crate::render::inline::spec_qualified(name.prefix, name.local_name@);
            spec_start_tag(tag, attributes@) + fragments_xml(children@) + spec_end_tag(tag)
        },
    }
}

pub open spec fn fragments_xml(fs: Seq<XmlFragment>) -> Seq<char>
    decreases fs,
{
    if fs.len() == 0 {
        Seq::empty()
    } else {
        fragments_xml(fs.drop_last()) + fragment_xml(fs.last())
    }
}

fn write_fragment(output: &mut String, fragment: &XmlFragment)
    ensures
        final(output)@ == old(output)@ + fragment_xml(*fragment),
    decreases fragment,
{
    match fragment {
        XmlFragment::Text(value) => {
            let e = crate::source::xml_write::escape_text(value.as_str());
            push_str(output, e.as_str());
        },
        XmlFragment::Element { name, attributes, children } => {
            let tag = crate::source::xml_write::qualified_name(&name.prefix, &name.local_name);
            start_tag(output, tag.as_str(), attributes.as_slice());
            let ghost mid = output@;
            let mut k: usize = 0;
            while k < children.len()
                invariant
                    k <= children.len(),
                    *fragment is Element && (*fragment)->children == *children,
                    output@ == mid + fragments_xml(children@.take(k as int)),
                decreases children.len() - k,
            {
                assert(children@.take(k + 1).drop_last() =~= children@.take(k as int));
                proof {
                    assert(decreases_to!(*fragment => (*fragment)->children));
                    assert(decreases_to!(*children => children@));
                }
                write_fragment(output, &children[k]);
                k += 1;
            }
            assert(children@.take(children.len() as int) =~= children@);
            end_tag(output, tag.as_str());
        },
    }
}

pub open spec fn inline_xml(tag: Seq<char>, attrs: Seq<XmlAttribute>, content: Seq<Run>) -> Seq<
    char,
>
    decreases content, 1nat,
{
    spec_start_tag(tag, attrs) + runs_xml(content) + spec_end_tag(tag)
}

/// Runs as XML: text escaped, inline markup as its element, verbatim runs as
/// written.
pub open spec fn runs_xml(rs: Seq<Run>) -> Seq<char>
    decreases rs, 0nat,
{
    if rs.len() == 0 {
        Seq::empty()
    } else {
        runs_xml(rs.drop_last()) + match rs.last() {
            Run::Text(v) => spec_escape_text(v@),
            Run::Number(v) => inline_xml("number"@, v.attributes@, v.content@),
            Run::CrossReference(v) => inline_xml("cross-reference"@, v.attributes@, v.content@),
            Run::FigureReference(v) => inline_xml("figref"@, v.attributes@, v.content@),
            Run::DependentClaimReference(v) => inline_xml(
                "dependent-claim-reference"@,
                v.attributes@,
                v.content@,
            ),
            Run::Bold(v) => inline_xml("bold"@, v.attributes@, v.content@),
            Run::Italic(v) => inline_xml("italic"@, v.attributes@, v.content@),
            Run::Highlight(v) => inline_xml("highlight"@, v.attributes@, v.content@),
            Run::ClaimText(v) => inline_xml("claim-text"@, v.attributes@, v.content@),
            Run::Opaque(v) => fragment_xml(v.xml),
        }
    }
}

fn write_inline(output: &mut String, tag: &str, attributes: &Vec<XmlAttribute>, content: &Vec<Run>)
    ensures
        final(output)@ == old(output)@ + inline_xml(tag@, attributes@, content@),
    decreases content@, 1nat,
{
    start_tag(output, tag, attributes.as_slice());
    write_runs(output, content);
    end_tag(output, tag);
}

fn write_runs(output: &mut String, runs: &Vec<Run>)
    ensures
        final(output)@ == old(output)@ + runs_xml(runs@),
    decreases runs@, 0nat,
{
    let mut i: usize = 0;
    while i < runs.len()
        invariant
            i <= runs.len(),
            output@ == old(output)@ + runs_xml(runs@.take(i as int)),
        decreases runs.len() - i,
    {
        assert(runs@.take(i + 1).drop_last() =~= runs@.take(i as int));
        proof {
            assert(decreases_to!(runs@ => runs@[i as int]));
        }
        match &runs[i] {
            Run::Text(v) => {
                let e = crate::source::xml_write::escape_text(v.as_str());
                push_str(output, e.as_str());
            },
            Run::Number(v) => {
                proof { assert(decreases_to!(runs@[i as int] => v.content@)) by { assert(decreases_to!(v.content => v.content@)); } }
                write_inline(output, "number", &v.attributes, &v.content)
            },
            Run::CrossReference(v) => {
                proof { assert(decreases_to!(runs@[i as int] => v.content@)) by { assert(decreases_to!(v.content => v.content@)); } }
                write_inline(output, "cross-reference", &v.attributes, &v.content)
            },
            Run::FigureReference(v) => {
                proof { assert(decreases_to!(runs@[i as int] => v.content@)) by { assert(decreases_to!(v.content => v.content@)); } }
                write_inline(output, "figref", &v.attributes, &v.content)
            },
            Run::DependentClaimReference(v) => {
                proof { assert(decreases_to!(runs@[i as int] => v.content@)) by { assert(decreases_to!(v.content => v.content@)); } }
                write_inline(output, "dependent-claim-reference", &v.attributes, &v.content)
            },
            Run::Bold(v) => {
                proof { assert(decreases_to!(runs@[i as int] => v.content@)) by { assert(decreases_to!(v.content => v.content@)); } }
                write_inline(output, "bold", &v.attributes, &v.content)
            },
            Run::Italic(v) => {
                proof { assert(decreases_to!(runs@[i as int] => v.content@)) by { assert(decreases_to!(v.content => v.content@)); } }
                write_inline(output, "italic", &v.attributes, &v.content)
            },
            Run::Highlight(v) => {
                proof { assert(decreases_to!(runs@[i as int] => v.content@)) by { assert(decreases_to!(v.content => v.content@)); } }
                write_inline(output, "highlight", &v.attributes, &v.content)
            },
            Run::ClaimText(v) => {
                proof { assert(decreases_to!(runs@[i as int] => v.content@)) by { assert(decreases_to!(v.content => v.content@)); } }
                write_inline(output, "claim-text", &v.attributes, &v.content)
            },
            Run::Opaque(v) => write_fragment(output, &v.xml),
        }
        i += 1;
    }
    assert(runs@.take(runs.len() as int) =~= runs@);
}

pub open spec fn heading_xml(h: Heading) -> Seq<char> {
    inline_xml("heading"@, h.attributes@, h.content@)
}

pub open spec fn paragraph_xml(p: Paragraph) -> Seq<char> {
    inline_xml("paragraph"@, p.attributes@, p.content@)
}

fn write_heading(output: &mut String, value: &Heading)
    ensures
        final(output)@ == old(output)@ + heading_xml(*value),
{
    write_inline(output, "heading", &value.attributes, &value.content);
}

fn write_paragraph(output: &mut String, value: &Paragraph)
    ensures
        final(output)@ == old(output)@ + paragraph_xml(*value),
{
    write_inline(output, "paragraph", &value.attributes, &value.content);
}

pub open spec fn abstract_part_xml(p: AbstractPart) -> Seq<char> {
    match p {
        AbstractPart::Paragraph(x) => paragraph_xml(x),
        AbstractPart::Opaque(o) => fragment_xml(o.xml),
    }
}

pub open spec fn abstract_xml(a: AbstractSection) -> Seq<char> {
    spec_start_tag("subdoc-abstract"@, a.attributes@) + concat_map(
        a.parts@,
        |p: AbstractPart| abstract_part_xml(p),
    ) + spec_end_tag("subdoc-abstract"@)
}

fn write_abstract(output: &mut String, value: &AbstractSection)
    ensures
        final(output)@ == old(output)@ + abstract_xml(*value),
{
    start_tag(output, "subdoc-abstract", value.attributes.as_slice());
    let ghost start = output@;
    let ghost f = |p: AbstractPart| abstract_part_xml(p);
    let mut i: usize = 0;
    while i < value.parts.len()
        invariant
            i <= value.parts.len(),
            f == (|p: AbstractPart| abstract_part_xml(p)),
            output@ == start + concat_map(value.parts@.take(i as int), f),
        decreases value.parts.len() - i,
    {
        proof {
            lemma_concat_map_step(value.parts@, f, i as int);
        }
        match &value.parts[i] {
            AbstractPart::Paragraph(x) => write_paragraph(output, x),
            AbstractPart::Opaque(o) => write_fragment(output, &o.xml),
        }
        i += 1;
    }
    proof {
        lemma_concat_map_all(value.parts@, f);
    }
    end_tag(output, "subdoc-abstract");
}

pub open spec fn claims_part_xml(p: ClaimsPart) -> Seq<char> {
    match p {
        ClaimsPart::Heading(h) => heading_xml(h),
        ClaimsPart::Claim(c) => inline_xml("claim"@, c.attributes@, c.content@),
        ClaimsPart::Opaque(o) => fragment_xml(o.xml),
    }
}

pub open spec fn claims_xml(c: Claims) -> Seq<char> {
    spec_start_tag("subdoc-claims"@, c.attributes@) + concat_map(
        c.parts@,
        |p: ClaimsPart| claims_part_xml(p),
    ) + spec_end_tag("subdoc-claims"@)
}

fn write_claims(output: &mut String, value: &Claims)
    ensures
        final(output)@ == old(output)@ + claims_xml(*value),
{
    start_tag(output, "subdoc-claims", value.attributes.as_slice());
    let ghost start = output@;
    let ghost f = |p: ClaimsPart| claims_part_xml(p);
    let mut i: usize = 0;
    while i < value.parts.len()
        invariant
            i <= value.parts.len(),
            f == (|p: ClaimsPart| claims_part_xml(p)),
            output@ == start + concat_map(value.parts@.take(i as int), f),
        decreases value.parts.len() - i,
    {
        proof {
            lemma_concat_map_step(value.parts@, f, i as int);
        }
        match &value.parts[i] {
            ClaimsPart::Heading(h) => write_heading(output, h),
            ClaimsPart::Claim(c) => write_inline(output, "claim", &c.attributes, &c.content),
            ClaimsPart::Opaque(o) => write_fragment(output, &o.xml),
        }
        i += 1;
    }
    proof {
        lemma_concat_map_all(value.parts@, f);
    }
    end_tag(output, "subdoc-claims");
}

pub open spec fn figure_part_xml(p: FigurePart) -> Seq<char> {
    match p {
        FigurePart::Image(m) => spec_start_empty_tag("image"@, m.attributes@),
        FigurePart::Opaque(o) => fragment_xml(o.xml),
    }
}

pub open spec fn figure_xml(f: Figure) -> Seq<char> {
    spec_start_tag("figure"@, f.attributes@) + concat_map(f.parts@, |p: FigurePart| figure_part_xml(p))
        + spec_end_tag("figure"@)
}

pub open spec fn drawings_part_xml(p: DrawingsPart) -> Seq<char> {
    match p {
        DrawingsPart::Heading(h) => heading_xml(h),
        DrawingsPart::RepresentativeFigure(v) => spec_text_element("representative-figure"@, v@),
        DrawingsPart::Figure(f) => figure_xml(f),
        DrawingsPart::Opaque(o) => fragment_xml(o.xml),
    }
}

pub open spec fn drawings_xml(d: Drawings) -> Seq<char> {
    spec_start_tag("subdoc-drawings"@, d.attributes@) + concat_map(
        d.parts@,
        |p: DrawingsPart| drawings_part_xml(p),
    ) + spec_end_tag("subdoc-drawings"@)
}

fn write_figure(output: &mut String, value: &Figure)
    ensures
        final(output)@ == old(output)@ + figure_xml(*value),
{
    start_tag(output, "figure", value.attributes.as_slice());
    let ghost start = output@;
    let ghost f = |p: FigurePart| figure_part_xml(p);
    let mut i: usize = 0;
    while i < value.parts.len()
        invariant
            i <= value.parts.len(),
            f == (|p: FigurePart| figure_part_xml(p)),
            output@ == start + concat_map(value.parts@.take(i as int), f),
        decreases value.parts.len() - i,
    {
        proof {
            lemma_concat_map_step(value.parts@, f, i as int);
        }
        match &value.parts[i] {
            FigurePart::Image(m) => start_empty_tag(output, "image", m.attributes.as_slice()),
            FigurePart::Opaque(o) => write_fragment(output, &o.xml),
        }
        i += 1;
    }
    proof {
        lemma_concat_map_all(value.parts@, f);
    }
    end_tag(output, "figure");
}

fn write_drawings(output: &mut String, value: &Drawings)
    ensures
        final(output)@ == old(output)@ + drawings_xml(*value),
{
    start_tag(output, "subdoc-drawings", value.attributes.as_slice());
    let ghost start = output@;
    let ghost f = |p: DrawingsPart| drawings_part_xml(p);
    let mut i: usize = 0;
    while i < value.parts.len()
        invariant
            i <= value.parts.len(),
            f == (|p: DrawingsPart| drawings_part_xml(p)),
            output@ == start + concat_map(value.parts@.take(i as int), f),
        decreases value.parts.len() - i,
    {
        proof {
            lemma_concat_map_step(value.parts@, f, i as int);
        }
        match &value.parts[i] {
            DrawingsPart::Heading(h) => write_heading(output, h),
            DrawingsPart::RepresentativeFigure(v) => write_text_element(output, "representative-figure", v.as_str()),
            DrawingsPart::Figure(fig) => write_figure(output, fig),
            DrawingsPart::Opaque(o) => write_fragment(output, &o.xml),
        }
        i += 1;
    }
    proof {
        lemma_concat_map_all(value.parts@, f);
    }
    end_tag(output, "subdoc-drawings");
}

pub open spec fn section_part_xml(p: SectionPart) -> Seq<char> {
    match p {
        SectionPart::Heading(h) => heading_xml(h),
        SectionPart::Paragraph(x) => paragraph_xml(x),
        SectionPart::Opaque(o) => fragment_xml(o.xml),
    }
}

pub open spec fn section_xml(s: Section) -> Seq<char> {
    spec_start_tag("section"@, s.attributes@) + concat_map(s.parts@, |p: SectionPart| section_part_xml(p))
        + spec_end_tag("section"@)
}

pub open spec fn section_entry_xml(p: DescriptionSectionPart) -> Seq<char> {
    match p {
        DescriptionSectionPart::Section(s) => section_xml(s),
        DescriptionSectionPart::Opaque(o) => fragment_xml(o.xml),
    }
}

pub open spec fn container_xml(
    tag: Seq<char>,
    attrs: Seq<XmlAttribute>,
    ps: Seq<DescriptionSectionPart>,
) -> Seq<char> {
    spec_start_tag(tag, attrs) + concat_map(ps, |p: DescriptionSectionPart| section_entry_xml(p))
        + spec_end_tag(tag)
}

pub open spec fn cross_reference_part_xml(p: CrossReferencePart) -> Seq<char> {
    match p {
        CrossReferencePart::Heading(h) => heading_xml(h),
        CrossReferencePart::Paragraph(x) => paragraph_xml(x),
        CrossReferencePart::Opaque(o) => fragment_xml(o.xml),
    }
}

pub open spec fn description_part_xml(p: DescriptionPart) -> Seq<char> {
    match p {
        DescriptionPart::CrossReferenceToRelatedApplications(x) => spec_start_tag(
            "cross-reference-to-related-applications"@,
            x.attributes@,
        ) + concat_map(x.parts@, |q: CrossReferencePart| cross_reference_part_xml(q))
            + spec_end_tag("cross-reference-to-related-applications"@),
        DescriptionPart::SummaryOfInvention(v) => container_xml(
            "summary-of-invention"@,
            v.attributes@,
            v.parts@,
        ),
        DescriptionPart::BriefDescriptionOfDrawings(v) => container_xml(
            "brief-description-of-drawings"@,
            v.attributes@,
            v.parts@,
        ),
        DescriptionPart::DetailedDescription(v) => container_xml(
            "detailed-description"@,
            v.attributes@,
            v.parts@,
        ),
        DescriptionPart::Opaque(o) => fragment_xml(o.xml),
    }
}

pub open spec fn description_xml(d: Description) -> Seq<char> {
    spec_start_tag("subdoc-description"@, d.attributes@) + concat_map(
        d.parts@,
        |p: DescriptionPart| description_part_xml(p),
    ) + spec_end_tag("subdoc-description"@)
}

fn write_section(output: &mut String, value: &Section)
    ensures
        final(output)@ == old(output)@ + section_xml(*value),
{
    start_tag(output, "section", value.attributes.as_slice());
    let ghost start = output@;
    let ghost f = |p: SectionPart| section_part_xml(p);
    let mut i: usize = 0;
    while i < value.parts.len()
        invariant
            i <= value.parts.len(),
            f == (|p: SectionPart| section_part_xml(p)),
            output@ == start + concat_map(value.parts@.take(i as int), f),
        decreases value.parts.len() - i,
    {
        proof {
            lemma_concat_map_step(value.parts@, f, i as int);
        }
        match &value.parts[i] {
            SectionPart::Heading(h) => write_heading(output, h),
            SectionPart::Paragraph(x) => write_paragraph(output, x),
            SectionPart::Opaque(o) => write_fragment(output, &o.xml),
        }
        i += 1;
    }
    proof {
        lemma_concat_map_all(value.parts@, f);
    }
    end_tag(output, "section");
}

fn write_container(output: &mut String, tag: &str, attributes: &Vec<XmlAttribute>, parts: &Vec<DescriptionSectionPart>)
    ensures
        final(output)@ == old(output)@ + container_xml(tag@, attributes@, parts@),
{
    start_tag(output, tag, attributes.as_slice());
    let ghost start = output@;
    let ghost f = |p: DescriptionSectionPart| section_entry_xml(p);
    let mut i: usize = 0;
    while i < parts.len()
        invariant
            i <= parts.len(),
            f == (|p: DescriptionSectionPart| section_entry_xml(p)),
            output@ == start + concat_map(parts@.take(i as int), f),
        decreases parts.len() - i,
    {
        proof {
            lemma_concat_map_step(parts@, f, i as int);
        }
        match &parts[i] {
            DescriptionSectionPart::Section(sec) => write_section(output, sec),
            DescriptionSectionPart::Opaque(o) => write_fragment(output, &o.xml),
        }
        i += 1;
    }
    proof {
        lemma_concat_map_all(parts@, f);
    }
    end_tag(output, tag);
}

fn write_cross_reference(output: &mut String, value: &CrossReferenceToRelatedApplications)
    ensures
        final(output)@ == old(output)@ + description_part_xml(
            DescriptionPart::CrossReferenceToRelatedApplications(*value),
        ),
{
    start_tag(output, "cross-reference-to-related-applications", value.attributes.as_slice());
    let ghost start = output@;
    let ghost f = |q: CrossReferencePart| cross_reference_part_xml(q);
    let mut i: usize = 0;
    while i < value.parts.len()
        invariant
            i <= value.parts.len(),
            f == (|q: CrossReferencePart| cross_reference_part_xml(q)),
            output@ == start + concat_map(value.parts@.take(i as int), f),
        decreases value.parts.len() - i,
    {
        proof {
            lemma_concat_map_step(value.parts@, f, i as int);
        }
        match &value.parts[i] {
            CrossReferencePart::Heading(h) => write_heading(output, h),
            CrossReferencePart::Paragraph(x) => write_paragraph(output, x),
            CrossReferencePart::Opaque(o) => write_fragment(output, &o.xml),
        }
        i += 1;
    }
    proof {
        lemma_concat_map_all(value.parts@, f);
    }
    end_tag(output, "cross-reference-to-related-applications");
}

fn write_description(output: &mut String, value: &Description)
    ensures
        final(output)@ == old(output)@ + description_xml(*value),
{
    start_tag(output, "subdoc-description", value.attributes.as_slice());
    let ghost start = output@;
    let ghost f = |p: DescriptionPart| description_part_xml(p);
    let mut i: usize = 0;
    while i < value.parts.len()
        invariant
            i <= value.parts.len(),
            f == (|p: DescriptionPart| description_part_xml(p)),
            output@ == start + concat_map(value.parts@.take(i as int), f),
        decreases value.parts.len() - i,
    {
        proof {
            lemma_concat_map_step(value.parts@, f, i as int);
        }
        match &value.parts[i] {
            DescriptionPart::CrossReferenceToRelatedApplications(x) => write_cross_reference(output, x),
            DescriptionPart::SummaryOfInvention(v) => write_container(output, "summary-of-invention", &v.attributes, &v.parts),
            DescriptionPart::BriefDescriptionOfDrawings(v) => write_container(output, "brief-description-of-drawings", &v.attributes, &v.parts),
            DescriptionPart::DetailedDescription(v) => write_container(output, "detailed-description", &v.attributes, &v.parts),
            DescriptionPart::Opaque(o) => write_fragment(output, &o.xml),
        }
        i += 1;
    }
    proof {
        lemma_concat_map_all(value.parts@, f);
    }
    end_tag(output, "subdoc-description");
}

// ---------------------------------------------------------------------------
// Writing: the bibliographic block
// ---------------------------------------------------------------------------

pub open spec fn document_id_xml(tag: Seq<char>, d: DocumentId) -> Seq<char> {
    spec_start_tag(tag, empty_attrs()) + spec_text_element("doc-number"@, d.doc_number@) + opt_xml(
        d.kind_code,
        |v: Seq<char>| spec_text_element("kind-code"@, v),
    ) + opt_xml(d.document_date, |v: Seq<char>| spec_text_element("document-date"@, v)) + opt_xml(
        d.country_code,
        |v: Seq<char>| spec_text_element("country-code"@, v),
    ) + spec_end_tag(tag)
}

fn write_document_id(output: &mut String, tag: &str, value: &DocumentId)
    ensures
        final(output)@ == old(output)@ + document_id_xml(tag@, *value),
{
    let empty: Vec<XmlAttribute> = Vec::new();
    start_tag(output, tag, empty.as_slice());
    write_text_element(output, "doc-number", value.doc_number.as_str());
    write_opt_text_element(output, "kind-code", &value.kind_code);
    write_opt_text_element(output, "document-date", &value.document_date);
    write_opt_text_element(output, "country-code", &value.country_code);
    end_tag(output, tag);
    assert(output@ =~= old(output)@ + document_id_xml(tag@, *value));
}

pub open spec fn filing_part_xml(p: DomesticFilingPart) -> Seq<char> {
    match p {
        DomesticFilingPart::ApplicationNumber(a) => spec_start_tag(
            "application-number"@,
            a.attributes@,
        ) + opt_xml(a.doc_number, |v: Seq<char>| spec_text_element("doc-number"@, v))
            + spec_end_tag("application-number"@),
        DomesticFilingPart::ApplicationNumberSeriesCode(v) => spec_text_element(
            "application-number-series-code"@,
            v@,
        ),
        DomesticFilingPart::FilingDate(v) => spec_text_element("filing-date"@, v@),
        DomesticFilingPart::Opaque(o) => fragment_xml(o.xml),
    }
}

pub open spec fn filing_xml(d: DomesticFilingData) -> Seq<char> {
    spec_start_tag("domestic-filing-data"@, d.attributes@) + concat_map(
        d.parts@,
        |p: DomesticFilingPart| filing_part_xml(p),
    ) + spec_end_tag("domestic-filing-data"@)
}

fn write_filing_part(output: &mut String, part: &DomesticFilingPart)
    ensures
        final(output)@ == old(output)@ + filing_part_xml(*part),
{
    match part {
        DomesticFilingPart::ApplicationNumber(a) => {
            start_tag(output, "application-number", a.attributes.as_slice());
            write_opt_text_element(output, "doc-number", &a.doc_number);
            end_tag(output, "application-number");
        },
        DomesticFilingPart::ApplicationNumberSeriesCode(v) => write_text_element(
            output,
            "application-number-series-code",
            v.as_str(),
        ),
        DomesticFilingPart::FilingDate(v) => write_text_element(output, "filing-date", v.as_str()),
        DomesticFilingPart::Opaque(o) => write_fragment(output, &o.xml),
    }
    assert(output@ =~= old(output)@ + filing_part_xml(*part));
}

fn write_filing(output: &mut String, value: &DomesticFilingData)
    ensures
        final(output)@ == old(output)@ + filing_xml(*value),
{
    start_tag(output, "domestic-filing-data", value.attributes.as_slice());
    let ghost start = output@;
    let ghost f = |p: DomesticFilingPart| filing_part_xml(p);
    let mut i: usize = 0;
    while i < value.parts.len()
        invariant
            i <= value.parts.len(),
            f == (|p: DomesticFilingPart| filing_part_xml(p)),
            output@ == start + concat_map(value.parts@.take(i as int), f),
        decreases value.parts.len() - i,
    {
        proof {
            lemma_concat_map_step(value.parts@, f, i as int);
        }
        write_filing_part(output, &value.parts[i]);
        i += 1;
    }
    proof {
        lemma_concat_map_all(value.parts@, f);
    }
    end_tag(output, "domestic-filing-data");
}

pub open spec fn tech_part_xml(p: TechnicalInformationPart) -> Seq<char> {
    let e = empty_attrs();
    match p {
        TechnicalInformationPart::ClassificationIpc(v) => spec_start_tag(
            "classification-ipc"@,
            v.attributes@,
        ) + opt_xml(
            v.main_classification,
            |m: Seq<char>| spec_start_tag("classification-ipc-primary"@, e) + spec_text_element(
                "ipc"@,
                m,
            ) + spec_end_tag("classification-ipc-primary"@),
        ) + spec_end_tag("classification-ipc"@),
        TechnicalInformationPart::ClassificationUs(v) => spec_start_tag(
            "classification-us"@,
            v.attributes@,
        ) + opt_xml(
            v.national_classification,
            |m: Seq<char>| spec_start_tag("classification-us-primary"@, e) + spec_start_tag(
                "uspc"@,
                e,
            ) + spec_text_element("class"@, m) + spec_end_tag("uspc"@) + spec_end_tag(
                "classification-us-primary"@,
            ),
        ) + spec_end_tag("classification-us"@),
        TechnicalInformationPart::TitleOfInvention(v) => spec_text_element(
            "title-of-invention"@,
            v@,
        ),
        TechnicalInformationPart::Opaque(o) => fragment_xml(o.xml),
    }
}

pub open spec fn tech_xml(t: TechnicalInformation) -> Seq<char> {
    spec_start_tag("technical-information"@, t.attributes@) + concat_map(
        t.parts@,
        |p: TechnicalInformationPart| tech_part_xml(p),
    ) + spec_end_tag("technical-information"@)
}

fn write_tech_part(output: &mut String, part: &TechnicalInformationPart)
    ensures
        final(output)@ == old(output)@ + tech_part_xml(*part),
{
    let empty: Vec<XmlAttribute> = Vec::new();
    match part {
        TechnicalInformationPart::ClassificationIpc(v) => {
            start_tag(output, "classification-ipc", v.attributes.as_slice());
            if let Some(m) = &v.main_classification {
                start_tag(output, "classification-ipc-primary", empty.as_slice());
                write_text_element(output, "ipc", m.as_str());
                end_tag(output, "classification-ipc-primary");
            }
            end_tag(output, "classification-ipc");
        },
        TechnicalInformationPart::ClassificationUs(v) => {
            start_tag(output, "classification-us", v.attributes.as_slice());
            if let Some(m) = &v.national_classification {
                start_tag(output, "classification-us-primary", empty.as_slice());
                start_tag(output, "uspc", empty.as_slice());
                write_text_element(output, "class", m.as_str());
                end_tag(output, "uspc");
                end_tag(output, "classification-us-primary");
            }
            end_tag(output, "classification-us");
        },
        TechnicalInformationPart::TitleOfInvention(v) => write_text_element(
            output,
            "title-of-invention",
            v.as_str(),
        ),
        TechnicalInformationPart::Opaque(o) => write_fragment(output, &o.xml),
    }
    assert(output@ =~= old(output)@ + tech_part_xml(*part));
}

fn write_technical(output: &mut String, value: &TechnicalInformation)
    ensures
        final(output)@ == old(output)@ + tech_xml(*value),
{
    start_tag(output, "technical-information", value.attributes.as_slice());
    let ghost start = output@;
    let ghost f = |p: TechnicalInformationPart| tech_part_xml(p);
    let mut i: usize = 0;
    while i < value.parts.len()
        invariant
            i <= value.parts.len(),
            f == (|p: TechnicalInformationPart| tech_part_xml(p)),
            output@ == start + concat_map(value.parts@.take(i as int), f),
        decreases value.parts.len() - i,
    {
        proof {
            lemma_concat_map_step(value.parts@, f, i as int);
        }
        write_tech_part(output, &value.parts[i]);
        i += 1;
    }
    proof {
        lemma_concat_map_all(value.parts@, f);
    }
    end_tag(output, "technical-information");
}

pub open spec fn relation_xml(v: RelatedDocument, default_tag: Seq<char>) -> Seq<char> {
    let tag = match v.relationship {
        Some(r) => r@,
        None => default_tag,
    };
    spec_start_tag(tag, v.attributes@) + spec_start_tag("document-id"@, empty_attrs()) + opt_xml(
        v.parent_doc_number,
        |x: Seq<char>| spec_text_element("doc-number"@, x),
    ) + opt_xml(v.parent_date, |x: Seq<char>| spec_text_element("document-date"@, x))
        + spec_end_tag("document-id"@) + spec_end_tag(tag)
}

pub open spec fn continuity_part_xml(p: ContinuityPart) -> Seq<char> {
    match p {
        ContinuityPart::NonProvisionalOfProvisional(v) => relation_xml(v, "continuation-of"@),
        ContinuityPart::RelatedDocument(v) => relation_xml(v, "related-document"@),
        ContinuityPart::Opaque(o) => fragment_xml(o.xml),
    }
}

pub open spec fn continuity_xml(c: ContinuityData) -> Seq<char> {
    spec_start_tag("continuity-data"@, c.attributes@) + concat_map(
        c.parts@,
        |p: ContinuityPart| continuity_part_xml(p),
    ) + spec_end_tag("continuity-data"@)
}

fn write_relation(output: &mut String, v: &RelatedDocument, default_tag: &str)
    ensures
        final(output)@ == old(output)@ + relation_xml(*v, default_tag@),
{
    let empty: Vec<XmlAttribute> = Vec::new();
    let tag = match &v.relationship {
        Some(r) => r.clone(),
        None => copy_str(default_tag),
    };
    start_tag(output, tag.as_str(), v.attributes.as_slice());
    start_tag(output, "document-id", empty.as_slice());
    write_opt_text_element(output, "doc-number", &v.parent_doc_number);
    write_opt_text_element(output, "document-date", &v.parent_date);
    end_tag(output, "document-id");
    end_tag(output, tag.as_str());
    assert(output@ =~= old(output)@ + relation_xml(*v, default_tag@));
}

fn write_continuity(output: &mut String, value: &ContinuityData)
    ensures
        final(output)@ == old(output)@ + continuity_xml(*value),
{
    start_tag(output, "continuity-data", value.attributes.as_slice());
    let ghost start = output@;
    let ghost f = |p: ContinuityPart| continuity_part_xml(p);
    let mut i: usize = 0;
    while i < value.parts.len()
        invariant
            i <= value.parts.len(),
            f == (|p: ContinuityPart| continuity_part_xml(p)),
            output@ == start + concat_map(value.parts@.take(i as int), f),
        decreases value.parts.len() - i,
    {
        proof {
            lemma_concat_map_step(value.parts@, f, i as int);
        }
        match &value.parts[i] {
            ContinuityPart::NonProvisionalOfProvisional(v) => write_relation(
                output,
                v,
                "continuation-of",
            ),
            ContinuityPart::RelatedDocument(v) => write_relation(output, v, "related-document"),
            ContinuityPart::Opaque(o) => write_fragment(output, &o.xml),
        }
        i += 1;
    }
    proof {
        lemma_concat_map_all(value.parts@, f);
    }
    end_tag(output, "continuity-data");
}

/// A party: its item element, with an `addressbook` holding its `name`.
pub open spec fn party_xml(item: Seq<char>, p: NamedParty) -> Seq<char> {
    spec_start_tag(item, p.attributes@) + opt_xml(
        p.name,
        |n: Seq<char>| spec_start_tag("addressbook"@, empty_attrs()) + spec_text_element(
            "name"@,
            n,
        ) + spec_end_tag("addressbook"@),
    ) + spec_end_tag(item)
}

pub open spec fn named_parties_xml(container: Seq<char>, item: Seq<char>, v: NamedParties) -> Seq<
    char,
> {
    spec_start_tag(container, v.attributes@) + concat_map(
        v.parties@,
        |p: NamedParty| party_xml(item, p),
    ) + spec_end_tag(container)
}

fn write_party(output: &mut String, item: &str, p: &NamedParty)
    ensures
        final(output)@ == old(output)@ + party_xml(item@, *p),
{
    let empty: Vec<XmlAttribute> = Vec::new();
    start_tag(output, item, p.attributes.as_slice());
    if let Some(name) = &p.name {
        start_tag(output, "addressbook", empty.as_slice());
        write_text_element(output, "name", name.as_str());
        end_tag(output, "addressbook");
    }
    end_tag(output, item);
    assert(output@ =~= old(output)@ + party_xml(item@, *p));
}

fn write_named_parties(output: &mut String, container: &str, item: &str, value: &NamedParties)
    ensures
        final(output)@ == old(output)@ + named_parties_xml(container@, item@, *value),
{
    start_tag(output, container, value.attributes.as_slice());
    let ghost start = output@;
    let ghost f = |p: NamedParty| party_xml(item@, p);
    let mut i: usize = 0;
    while i < value.parties.len()
        invariant
            i <= value.parties.len(),
            f == (|p: NamedParty| party_xml(item@, p)),
            output@ == start + concat_map(value.parties@.take(i as int), f),
        decreases value.parties.len() - i,
    {
        proof {
            lemma_concat_map_step(value.parties@, f, i as int);
        }
        write_party(output, item, &value.parties[i]);
        i += 1;
    }
    proof {
        lemma_concat_map_all(value.parties@, f);
    }
    end_tag(output, container);
}

/// An inventor: the name, then the residence when any of city, state or
/// country is known.
pub open spec fn inventor_xml(tag: Seq<char>, v: Inventor) -> Seq<char> {
    let e = empty_attrs();
    spec_start_tag(tag, v.attributes@) + spec_start_tag("name"@, e) + opt_xml(
        v.first_name,
        |x: Seq<char>| spec_text_element("given-name"@, x),
    ) + opt_xml(v.last_name, |x: Seq<char>| spec_text_element("family-name"@, x)) + spec_end_tag(
        "name"@,
    ) + (if v.city is Some || v.state is Some || v.country is Some {
        spec_start_tag("residence"@, e) + spec_start_tag("residence-us"@, e) + opt_xml(
            v.city,
            |x: Seq<char>| spec_text_element("city"@, x),
        ) + opt_xml(v.state, |x: Seq<char>| spec_text_element("state"@, x)) + opt_xml(
            v.country,
            |x: Seq<char>| spec_text_element("country-code"@, x),
        ) + spec_end_tag("residence-us"@) + spec_end_tag("residence"@)
    } else {
        Seq::empty()
    }) + spec_end_tag(tag)
}

fn write_residence(output: &mut String, v: &Inventor)
    ensures
        final(output)@ == old(output)@ + (if v.city is Some || v.state is Some || v.country is Some {
            spec_start_tag("residence"@, empty_attrs()) + spec_start_tag(
                "residence-us"@,
                empty_attrs(),
            ) + opt_xml(v.city, |x: Seq<char>| spec_text_element("city"@, x)) + opt_xml(
                v.state,
                |x: Seq<char>| spec_text_element("state"@, x),
            ) + opt_xml(v.country, |x: Seq<char>| spec_text_element("country-code"@, x))
                + spec_end_tag("residence-us"@) + spec_end_tag("residence"@)
        } else {
            Seq::empty()
        }),
{
    let empty: Vec<XmlAttribute> = Vec::new();
    if v.city.is_some() || v.state.is_some() || v.country.is_some() {
        start_tag(output, "residence", empty.as_slice());
        start_tag(output, "residence-us", empty.as_slice());
        write_opt_text_element(output, "city", &v.city);
        write_opt_text_element(output, "state", &v.state);
        write_opt_text_element(output, "country-code", &v.country);
        end_tag(output, "residence-us");
        end_tag(output, "residence");
    }
    assert(output@ =~= old(output)@ + (if v.city is Some || v.state is Some || v.country is Some {
        spec_start_tag("residence"@, empty_attrs()) + spec_start_tag("residence-us"@, empty_attrs())
            + opt_xml(v.city, |x: Seq<char>| spec_text_element("city"@, x)) + opt_xml(
            v.state,
            |x: Seq<char>| spec_text_element("state"@, x),
        ) + opt_xml(v.country, |x: Seq<char>| spec_text_element("country-code"@, x))
            + spec_end_tag("residence-us"@) + spec_end_tag("residence"@)
    } else {
        Seq::empty()
    }));
}

fn write_inventor(output: &mut String, tag: &str, v: &Inventor)
    ensures
        final(output)@ == old(output)@ + inventor_xml(tag@, *v),
{
    let empty: Vec<XmlAttribute> = Vec::new();
    start_tag(output, tag, v.attributes.as_slice());
    start_tag(output, "name", empty.as_slice());
    write_opt_text_element(output, "given-name", &v.first_name);
    write_opt_text_element(output, "family-name", &v.last_name);
    end_tag(output, "name");
    write_residence(output, v);
    end_tag(output, tag);
    assert(output@ =~= old(output)@ + inventor_xml(tag@, *v));
}

pub open spec fn inventors_part_xml(p: InventorsPart) -> Seq<char> {
    match p {
        InventorsPart::FirstNamedInventor(v) => inventor_xml("first-named-inventor"@, v),
        InventorsPart::Inventor(v) => inventor_xml("inventor"@, v),
        InventorsPart::Opaque(o) => fragment_xml(o.xml),
    }
}

pub open spec fn inventors_xml(d: Inventors) -> Seq<char> {
    spec_start_tag("inventors"@, d.attributes@) + concat_map(
        d.parts@,
        |p: InventorsPart| inventors_part_xml(p),
    ) + spec_end_tag("inventors"@)
}

fn write_inventors(output: &mut String, value: &Inventors)
    ensures
        final(output)@ == old(output)@ + inventors_xml(*value),
{
    start_tag(output, "inventors", value.attributes.as_slice());
    let ghost start = output@;
    let ghost f = |p: InventorsPart| inventors_part_xml(p);
    let mut i: usize = 0;
    while i < value.parts.len()
        invariant
            i <= value.parts.len(),
            f == (|p: InventorsPart| inventors_part_xml(p)),
            output@ == start + concat_map(value.parts@.take(i as int), f),
        decreases value.parts.len() - i,
    {
        proof {
            lemma_concat_map_step(value.parts@, f, i as int);
        }
        match &value.parts[i] {
            InventorsPart::FirstNamedInventor(v) => write_inventor(
                output,
                "first-named-inventor",
                v,
            ),
            InventorsPart::Inventor(v) => write_inventor(output, "inventor", v),
            InventorsPart::Opaque(o) => write_fragment(output, &o.xml),
        }
        i += 1;
    }
    proof {
        lemma_concat_map_all(value.parts@, f);
    }
    end_tag(output, "inventors");
}

/// Address lines as `address-1`, `address-2`, ... in order.
pub open spec fn address_lines_xml(ls: Seq<String>) -> Seq<char>
    decreases ls.len(),
{
    if ls.len() == 0 {
        Seq::empty()
    } else {
        address_lines_xml(ls.drop_last()) + spec_text_element(
            "address-"@ + decimal(ls.len()),
            ls.last()@,
        )
    }
}

pub open spec fn address_tail_xml(a: Address) -> Seq<char> {
    opt_xml(a.city, |x: Seq<char>| spec_text_element("city"@, x)) + opt_xml(
        a.state,
        |x: Seq<char>| spec_text_element("state"@, x),
    ) + opt_xml(a.postal_code, |x: Seq<char>| spec_text_element("postalcode"@, x)) + opt_xml(
        a.country,
        |x: Seq<char>| spec_start_tag("country"@, empty_attrs()) + spec_text_element(
            "country-code"@,
            x,
        ) + spec_end_tag("country"@),
    )
}

/// An address: its numbered lines, then city, state, postal code and country.
pub open spec fn address_xml(a: Address) -> Seq<char> {
    spec_start_tag("address"@, a.attributes@) + address_lines_xml(a.lines@) + address_tail_xml(a)
        + spec_end_tag("address"@)
}

fn write_address_lines(output: &mut String, lines: &Vec<String>)
    ensures
        final(output)@ == old(output)@ + address_lines_xml(lines@),
{
    let mut i: usize = 0;
    while i < lines.len()
        invariant
            i <= lines.len(),
            output@ == old(output)@ + address_lines_xml(lines@.take(i as int)),
        decreases lines.len() - i,
    {
        assert(lines@.take(i + 1).drop_last() =~= lines@.take(i as int));
        let mut tag = copy_str("address-");
        let number = u64_to_string((i + 1) as u64);
        push_str(&mut tag, number.as_str());
        write_text_element(output, tag.as_str(), lines[i].as_str());
        i += 1;
    }
    assert(lines@.take(lines.len() as int) =~= lines@);
}

fn write_country(output: &mut String, country: &Option<String>)
    ensures
        final(output)@ == old(output)@ + opt_xml(
            *country,
            |x: Seq<char>| spec_start_tag("country"@, empty_attrs()) + spec_text_element(
                "country-code"@,
                x,
            ) + spec_end_tag("country"@),
        ),
{
    let empty: Vec<XmlAttribute> = Vec::new();
    if let Some(c) = country {
        start_tag(output, "country", empty.as_slice());
        write_text_element(output, "country-code", c.as_str());
        end_tag(output, "country");
    }
    assert(output@ =~= old(output)@ + opt_xml(
        *country,
        |x: Seq<char>| spec_start_tag("country"@, empty_attrs()) + spec_text_element(
            "country-code"@,
            x,
        ) + spec_end_tag("country"@),
    ));
}

fn write_address_tail(output: &mut String, value: &Address)
    ensures
        final(output)@ == old(output)@ + address_tail_xml(*value),
{
    write_opt_text_element(output, "city", &value.city);
    write_opt_text_element(output, "state", &value.state);
    write_opt_text_element(output, "postalcode", &value.postal_code);
    write_country(output, &value.country);
    assert(output@ =~= old(output)@ + address_tail_xml(*value));
}

fn write_address(output: &mut String, value: &Address)
    ensures
        final(output)@ == old(output)@ + address_xml(*value),
{
    start_tag(output, "address", value.attributes.as_slice());
    write_address_lines(output, &value.lines);
    write_address_tail(output, value);
    end_tag(output, "address");
    assert(output@ =~= old(output)@ + address_xml(*value));
}

pub open spec fn correspondence_part_xml(p: CorrespondenceAddressPart) -> Seq<char> {
    match p {
        CorrespondenceAddressPart::Name1(v) => spec_text_element("name-1"@, v@),
        CorrespondenceAddressPart::Name2(v) => spec_text_element("name-2"@, v@),
        CorrespondenceAddressPart::Address(a) => address_xml(a),
        CorrespondenceAddressPart::Opaque(o) => fragment_xml(o.xml),
    }
}

pub open spec fn correspondence_xml(d: CorrespondenceAddress) -> Seq<char> {
    spec_start_tag("correspondence-address"@, d.attributes@) + concat_map(
        d.parts@,
        |p: CorrespondenceAddressPart| correspondence_part_xml(p),
    ) + spec_end_tag("correspondence-address"@)
}

fn write_correspondence(output: &mut String, value: &CorrespondenceAddress)
    ensures
        final(output)@ == old(output)@ + correspondence_xml(*value),
{
    start_tag(output, "correspondence-address", value.attributes.as_slice());
    let ghost start = output@;
    let ghost f = |p: CorrespondenceAddressPart| correspondence_part_xml(p);
    let mut i: usize = 0;
    while i < value.parts.len()
        invariant
            i <= value.parts.len(),
            f == (|p: CorrespondenceAddressPart| correspondence_part_xml(p)),
            output@ == start + concat_map(value.parts@.take(i as int), f),
        decreases value.parts.len() - i,
    {
        proof {
            lemma_concat_map_step(value.parts@, f, i as int);
        }
        match &value.parts[i] {
            CorrespondenceAddressPart::Name1(v) => write_text_element(output, "name-1", v.as_str()),
            CorrespondenceAddressPart::Name2(v) => write_text_element(output, "name-2", v.as_str()),
            CorrespondenceAddressPart::Address(a) => write_address(output, a),
            CorrespondenceAddressPart::Opaque(o) => write_fragment(output, &o.xml),
        }
        i += 1;
    }
    proof {
        lemma_concat_map_all(value.parts@, f);
    }
    end_tag(output, "correspondence-address");
}

pub open spec fn biblio_part_xml(p: BibliographicPart) -> Seq<char> {
    match p {
        BibliographicPart::DocumentId(v) => document_id_xml("document-id"@, v),
        BibliographicPart::PublicationFilingType(v) => spec_text_element(
            "publication-filing-type"@,
            v@,
        ),
        BibliographicPart::DomesticFilingData(v) => filing_xml(v),
        BibliographicPart::TechnicalInformation(v) => tech_xml(v),
        BibliographicPart::ContinuityData(v) => continuity_xml(v),
        BibliographicPart::Applicants(v) => named_parties_xml("applicants"@, "applicant"@, v),
        BibliographicPart::Assignees(v) => named_parties_xml("assignees"@, "assignee"@, v),
        BibliographicPart::Inventors(v) => inventors_xml(v),
        BibliographicPart::CorrespondenceAddress(v) => correspondence_xml(v),
        BibliographicPart::Opaque(o) => fragment_xml(o.xml),
    }
}

pub open spec fn biblio_xml(b: BibliographicInformation) -> Seq<char> {
    spec_start_tag("subdoc-bibliographic-information"@, b.attributes@) + concat_map(
        b.parts@,
        |p: BibliographicPart| biblio_part_xml(p),
    ) + spec_end_tag("subdoc-bibliographic-information"@)
}

fn write_biblio_part(output: &mut String, part: &BibliographicPart)
    ensures
        final(output)@ == old(output)@ + biblio_part_xml(*part),
{
    match part {
        BibliographicPart::DocumentId(v) => write_document_id(output, "document-id", v),
        BibliographicPart::PublicationFilingType(v) => write_text_element(
            output,
            "publication-filing-type",
            v.as_str(),
        ),
        BibliographicPart::DomesticFilingData(v) => write_filing(output, v),
        BibliographicPart::TechnicalInformation(v) => write_technical(output, v),
        BibliographicPart::ContinuityData(v) => write_continuity(output, v),
        BibliographicPart::Applicants(v) => write_named_parties(output, "applicants", "applicant", v),
        BibliographicPart::Assignees(v) => write_named_parties(output, "assignees", "assignee", v),
        BibliographicPart::Inventors(v) => write_inventors(output, v),
        BibliographicPart::CorrespondenceAddress(v) => write_correspondence(output, v),
        BibliographicPart::Opaque(o) => write_fragment(output, &o.xml),
    }
}

fn write_bibliographic_information(output: &mut String, value: &BibliographicInformation)
    ensures
        final(output)@ == old(output)@ + biblio_xml(*value),
{
    start_tag(output, "subdoc-bibliographic-information", value.attributes.as_slice());
    let ghost start = output@;
    let ghost f = |p: BibliographicPart| biblio_part_xml(p);
    let mut i: usize = 0;
    while i < value.parts.len()
        invariant
            i <= value.parts.len(),
            f == (|p: BibliographicPart| biblio_part_xml(p)),
            output@ == start + concat_map(value.parts@.take(i as int), f),
        decreases value.parts.len() - i,
    {
        proof {
            lemma_concat_map_step(value.parts@, f, i as int);
        }
        write_biblio_part(output, &value.parts[i]);
        i += 1;
    }
    proof {
        lemma_concat_map_all(value.parts@, f);
    }
    end_tag(output, "subdoc-bibliographic-information");
}

// ---------------------------------------------------------------------------
// Documents
// ---------------------------------------------------------------------------

/// The part a top-level element of the root becomes.
pub open spec fn top_part_of(p: DocumentPart, n: XmlNode) -> bool {
    if is_named(n, "subdoc-bibliographic-information"@) {
        p matches DocumentPart::BibliographicInformation(b) && biblio_of(b, n)
    } else if is_named(n, "subdoc-abstract"@) {
        p matches DocumentPart::AbstractSection(a) && abstract_of(a, n)
    } else if is_named(n, "subdoc-description"@) {
        p matches DocumentPart::Description(d) && description_of(d, n)
    } else if is_named(n, "subdoc-claims"@) {
        p matches DocumentPart::Claims(c) && claims_of(c, n)
    } else if is_named(n, "subdoc-drawings"@) {
        p matches DocumentPart::Drawings(d) && drawings_of(d, n)
    } else {
        p matches DocumentPart::Opaque(o) && fragment_of(o.xml, n)
    }
}

pub open spec fn top_parts_of(ps: Seq<DocumentPart>, es: Seq<XmlNode>) -> bool {
    &&& ps.len() == es.len()
    &&& forall|i: int| 0 <= i < ps.len() ==> #[trigger] top_part_of(ps[i], es[i])
}

/// `d` is the document read from `input`, whose tree is `t` and whose root
/// element is `root`.
pub open spec fn document_of(
    d: PatentDocument,
    input: Seq<char>,
    t: XmlTree,
    root: XmlNode,
    format: SourceFormat,
) -> bool {
    &&& d.source_format == format
    &&& prolog_of(d.prolog, input, t)
    &&& attrs_view(d.attributes@) == attrs_view(spec_attrs(root))
    &&& top_parts_of(d.parts@, spec_child_elements(root))
}

fn parse_top_level_part(n: &XmlNode) -> (r: DocumentPart)
    ensures
        top_part_of(r, *n),
{
    if has_name(n, "subdoc-bibliographic-information") {
        DocumentPart::BibliographicInformation(parse_bibliographic_information(n))
    } else if has_name(n, "subdoc-abstract") {
        DocumentPart::AbstractSection(parse_abstract_section(n))
    } else if has_name(n, "subdoc-description") {
        DocumentPart::Description(parse_description(n))
    } else if has_name(n, "subdoc-claims") {
        DocumentPart::Claims(parse_claims(n))
    } else if has_name(n, "subdoc-drawings") {
        DocumentPart::Drawings(parse_drawings(n))
    } else {
        DocumentPart::Opaque(opaque_block(n))
    }
}

fn parse_top_level_parts(root: &XmlNode) -> (r: Vec<DocumentPart>)
    ensures
        top_parts_of(r@, spec_child_elements(*root)),
{
    let cs = children(root);
    let mut parts: Vec<DocumentPart> = Vec::new();
    let mut i: usize = 0;
    while i < cs.len()
        invariant
            i <= cs.len(),
            cs@ == spec_children(*root),
            top_parts_of(parts@, elements_of(cs@.take(i as int))),
        decreases cs.len() - i,
    {
        proof {
            lemma_elements_step(cs@, i as int);
        }
        let c = &cs[i];
        if let XmlNode::Element { .. } = c {
            let part = parse_top_level_part(c);
            parts.push(part);
            proof {
                let es = elements_of(cs@.take(i as int + 1));
                assert forall|j: int| 0 <= j < parts@.len() implies #[trigger] top_part_of(
                    parts@[j],
                    es[j],
                ) by {
                    if j < parts@.len() - 1 {
                        assert(top_part_of(parts@[j], elements_of(cs@.take(i as int))[j]));
                    }
                }
            }
        }
        i += 1;
    }
    assert(cs@.take(cs.len() as int) =~= cs@);
    parts
}

/// What reading the tree `t` of `input` gives.
pub open spec fn tree_outcome(input: Seq<char>, t: XmlTree, format: SourceFormat, r: Result<PatentDocument, ParseError>) -> bool {
        match spec_root_element(t) {
            None => r matches Err(ParseError::MalformedXml(m)) && m@ == "missing root element"@,
            Some(root) => if is_named(root, "patent-application-publication"@) {
                r matches Ok(d) && document_of(d, input, t, root, format)
            } else {
                r matches Err(ParseError::UnsupportedStructure(m)) && m@
                    == "UsptoApplicationV15 requires patent-application-publication root"@
            },
        }
}

/// What reading `input` gives: `MalformedXml` when the XML reader refuses
/// it, else the outcome of reading the tree the reader gives.
pub open spec fn read_outcome(input: Seq<char>, format: SourceFormat, r: Result<PatentDocument, ParseError>) -> bool {
    &&& !xml_accepts(input, MAX_ENTITY_EXPANSIONS) ==> (r matches Err(ParseError::MalformedXml(m))
        && m@ == xml_error(input, MAX_ENTITY_EXPANSIONS))
    &&& xml_accepts(input, MAX_ENTITY_EXPANSIONS) ==> exists|t: XmlTree|
        #![trigger tree_is(t, input, MAX_ENTITY_EXPANSIONS)]
        tree_is(t, input, MAX_ENTITY_EXPANSIONS) && tree_outcome(input, t, format, r)
}

/// Read an application publication from its parsed tree: the root element
/// must be `patent-application-publication`.
pub fn parse_document_tree(input: &str, tree: &XmlTree, source_format: SourceFormat) -> (r: Result<
    PatentDocument,
    ParseError,
>)
    ensures
        tree_outcome(input@, *tree, source_format, r),
{
    let root = match root_element(tree) {
        Ok(root) => root,
        Err(e) => return Err(e),
    };
    if !has_name(root, "patent-application-publication") {
        return Err(
            ParseError::UnsupportedStructure(
                copy_str("UsptoApplicationV15 requires patent-application-publication root"),
            ),
        );
    }
    let parts = parse_top_level_parts(root);
    let doc = PatentDocument {
        source_format,
        prolog: prolog(input, tree),
        attributes: attributes(root),
        parts,
    };
    Ok(doc)
}

/// Read an application publication from XML text; a document the XML reader
/// refuses is `MalformedXml`.
pub fn parse_document(input: &str, source_format: SourceFormat) -> (r: Result<
    PatentDocument,
    ParseError,
>)
    ensures
        read_outcome(input@, source_format, r),
{
    let tree = match parse_tree(input) {
        Ok(t) => t,
        Err(e) => return Err(e),
    };
    parse_document_tree(input, &tree, source_format)
}

pub open spec fn document_part_xml(p: DocumentPart) -> Seq<char> {
    match p {
        DocumentPart::BibliographicInformation(v) => biblio_xml(v),
        DocumentPart::AbstractSection(v) => abstract_xml(v),
        DocumentPart::Description(v) => description_xml(v),
        DocumentPart::Claims(v) => claims_xml(v),
        DocumentPart::Drawings(v) => drawings_xml(v),
        DocumentPart::Opaque(o) => fragment_xml(o.xml),
    }
}

/// The XML text of an application publication: prolog, then the root element
/// with its attributes around each part in order.
pub open spec fn document_xml(d: PatentDocument) -> Seq<char> {
    spec_prolog_xml(d.prolog) + spec_start_tag("patent-application-publication"@, d.attributes@)
        + concat_map(d.parts@, |p: DocumentPart| document_part_xml(p)) + spec_end_tag(
        "patent-application-publication"@,
    )
}

fn write_document_part(output: &mut String, part: &DocumentPart)
    ensures
        final(output)@ == old(output)@ + document_part_xml(*part),
{
    match part {
        DocumentPart::BibliographicInformation(v) => write_bibliographic_information(output, v),
        DocumentPart::AbstractSection(v) => write_abstract(output, v),
        DocumentPart::Description(v) => write_description(output, v),
        DocumentPart::Claims(v) => write_claims(output, v),
        DocumentPart::Drawings(v) => write_drawings(output, v),
        DocumentPart::Opaque(o) => write_fragment(output, &o.xml),
    }
}

/// Serialize an application publication back to XML.
pub fn write_document(doc: &PatentDocument) -> (r: Result<String, SerializeError>)
    ensures
        r matches Ok(s) && s@ == document_xml(*doc),
{
    let mut output = String::new();
    write_prolog(&mut output, &doc.prolog);
    start_tag(&mut output, "patent-application-publication", doc.attributes.as_slice());
    let ghost start = output@;
    let ghost f = |p: DocumentPart| document_part_xml(p);
    let mut i: usize = 0;
    while i < doc.parts.len()
        invariant
            i <= doc.parts.len(),
            f == (|p: DocumentPart| document_part_xml(p)),
            output@ == start + concat_map(doc.parts@.take(i as int), f),
        decreases doc.parts.len() - i,
    {
        proof {
            lemma_concat_map_step(doc.parts@, f, i as int);
        }
        write_document_part(&mut output, &doc.parts[i]);
        i += 1;
    }
    proof {
        lemma_concat_map_all(doc.parts@, f);
    }
    end_tag(&mut output, "patent-application-publication");
    Ok(output)
}

/// The adapter for application publications of version 1.5.
pub struct UsptoApplicationV15Adapter;

impl UsptoApplicationV15Adapter {
    pub fn parse_document(&self, input: &str) -> (r: Result<PatentDocument, ParseError>)
        ensures
            read_outcome(input@, SourceFormat::UsptoApplicationV15, r),
    {
        parse_document(input, SourceFormat::UsptoApplicationV15)
    }

    pub fn write_document(&self, doc: &PatentDocument) -> (r: Result<String, SerializeError>)
        ensures
            r matches Ok(s) && s@ == document_xml(*doc),
    {
        write_document(doc)
    }
}

} // verus!
