//! USPTO patent application XML, versions 4.0 to 4.6 (`us-patent-application`).

use vstd::prelude::*;

use crate::model::bibliographic::{
    ApplicationNumber, BibliographicInformation, BibliographicPart, ClassificationIpc,
    ClassificationUs, ContinuityData, ContinuityPart, DocumentId, DomesticFilingData,
    DomesticFilingPart, NamedParties, NamedParty, RelatedDocument, TechnicalInformation,
    TechnicalInformationPart,
};
use crate::model::claims::{Claim, Claims, ClaimsPart, Heading};
use crate::model::description::{
    AbstractPart, AbstractSection, BriefDescriptionOfDrawings, Description, DescriptionPart,
    DescriptionSectionPart, DetailedDescription, Drawings, DrawingsPart, Figure, FigurePart, Image,
    Paragraph, Section, SectionPart, SummaryOfInvention,
};
use crate::model::opaque::{attrs_view, OpaqueBlock, OpaqueInline};
use crate::model::runs::{CrossReference, DependentClaimReference, InlineContainer, Number, Run};
use crate::render::fields::opt_view;
use crate::render::fields::or_else;
use crate::render::fields::opt_seq;
use crate::source::uspto::nodes::{
    child_element, child_text, lemma_elements_step, named_elements, names_view, opaque_block,
    opt_child_text, spec_child_element, spec_child_text, trimmed_text, trimmed_text_of,
};
use crate::source::xml::{
    blank_text, content_nodes_of, is_blank_text, attribute, attribute_from, attributes, children, elements_of, fragment_of, has_name, is_named,
    spec_attribute, spec_attrs, spec_child_elements, spec_children, spec_local_name, xml_fragment,
    XmlNode,
};
use crate::source::xml_write::{
    concat_map, end_tag, lemma_concat_map_all, lemma_concat_map_step, opt_xml, spec_end_tag,
    spec_escape_text, spec_fragment_xml, spec_start_empty_tag, spec_start_tag, spec_text_element,
    start_empty_tag, start_tag, write_opt_text_element, write_text_element, write_xml_fragment,
};
use crate::error::{ParseError, SerializeError};
use crate::model::document::{DocumentPart, PatentDocument};
use crate::model::opaque::XmlAttribute;
use crate::source::detect::SourceFormat;
use crate::source::xml::{
    parse_tree, prolog, prolog_of, root_element, spec_root_element, tree_is, xml_accepts, xml_error, XmlTree,
    MAX_ENTITY_EXPANSIONS,
};
use crate::source::xml_write::{spec_prolog_xml, write_prolog};
use crate::text::{ascii_lower, all_digits, chars_of, copy_str, push_char, push_str, trim};

verus! {

// ---------------------------------------------------------------------------
// Numbers
// ---------------------------------------------------------------------------

/// The value of a string of decimal digits.
pub open spec fn digits_value(s: Seq<char>) -> nat
    decreases s.len(),
{
    if s.len() == 0 {
        0
    } else {
        digits_value(s.drop_last()) * 10 + ((s.last() as nat) - ('0' as nat)) as nat
    }
}

/// `u32::from_str`: an optional `+`, then one or more ASCII digits whose value
/// fits a `u32`.
pub open spec fn spec_parse_u32(s: Seq<char>) -> Option<u32> {
    let d = if s.len() > 0 && s[0] == '+' {
        s.skip(1)
    } else {
        s
    };
    if d.len() > 0 && all_digits(d) && digits_value(d) <= u32::MAX {
        Some(digits_value(d) as u32)
    } else {
        None
    }
}

proof fn lemma_digits_value_grows(s: Seq<char>, k: int)
    requires
        0 <= k <= s.len(),
        all_digits(s),
    ensures
        digits_value(s.take(k)) <= digits_value(s),
    decreases s.len() - k,
{
    if k < s.len() {
        lemma_digits_value_grows(s, k + 1);
        assert(s.take(k + 1).drop_last() =~= s.take(k));
        assert(crate::text::is_digit(s[k]));
    } else {
        assert(s.take(k) =~= s);
    }
}

pub fn parse_u32(s: &[char]) -> (r: Option<u32>)
    ensures
        r == spec_parse_u32(s@),
{
    let start: usize = if s.len() > 0 && s[0] == '+' {
        1
    } else {
        0
    };
    let ghost d = if s@.len() > 0 && s@[0] == '+' {
        s@.skip(1)
    } else {
        s@
    };
    assert(d =~= s@.skip(start as int));
    if start >= s.len() {
        return None;
    }
    let mut value: u64 = 0;
    let mut i: usize = start;
    while i < s.len()
        invariant
            start <= i <= s.len(),
            start < s.len(),
            d == s@.skip(start as int),
            d == (if s@.len() > 0 && s@[0] == '+' {
                s@.skip(1)
            } else {
                s@
            }),
            all_digits(d.take(i - start)),
            value == digits_value(d.take(i - start)),
            value <= u32::MAX,
        decreases s.len() - i,
    {
        let c = s[i];
        assert(d[i - start] == c);
        assert(d.take(i - start + 1).drop_last() =~= d.take(i - start));
        if !crate::text::is_ascii_digit(c) {
            proof {
                if all_digits(d) {
                    assert(crate::text::is_digit(d[i - start]));
                }
            }
            return None;
        }
        let digit = (c as u32 - '0' as u32) as u64;
        let next = value * 10 + digit;
        if next > 4294967295u64 {
            proof {
                if all_digits(d) {
                    assert(all_digits(d.take(i - start + 1)));
                    lemma_digits_value_grows(d, i - start + 1);
                }
            }
            return None;
        }
        value = next;
        assert(all_digits(d.take(i - start + 1)));
        i += 1;
    }
    assert(d.take(i - start) =~= d);
    Some(value as u32)
}

/// A `level` (or `lvl`) attribute as a number.
pub open spec fn spec_level(n: XmlNode) -> Option<u32> {
    match or_else(spec_attribute(n, "level"@), spec_attribute(n, "lvl"@)) {
        Some(v) => spec_parse_u32(v),
        None => None,
    }
}

fn level_of(n: &XmlNode) -> (r: Option<u32>)
    ensures
        r == spec_level(*n),
{
    let v = match attribute(n, "level") {
        Some(v) => Some(v),
        None => attribute(n, "lvl"),
    };
    match v {
        Some(v) => parse_u32(chars_of(v.as_str()).as_slice()),
        None => None,
    }
}

// ---------------------------------------------------------------------------
// Runs
// ---------------------------------------------------------------------------

/// A child that yields a run: non-blank text, an entity reference, an element
/// or a processing instruction.
pub open spec fn yields_run(c: XmlNode) -> bool {
    match c {
        XmlNode::Text(t) => trim(t@).len() > 0,
        XmlNode::CData(t) => trim(t@).len() > 0,
        XmlNode::EntityRef { .. } => true,
        XmlNode::Element { .. } => true,
        XmlNode::ProcessingInstruction { .. } => true,
        _ => false,
    }
}

/// The runs of a sequence of children: one per child that yields a run.
pub open spec fn runs_match(rs: Seq<Run>, cs: Seq<XmlNode>) -> bool
    decreases cs,
{
    if cs.len() == 0 {
        rs.len() == 0
    } else if yields_run(cs.last()) {
        rs.len() > 0 && runs_match(rs.drop_last(), cs.drop_last()) && run_of(rs.last(), cs.last())
    } else {
        runs_match(rs, cs.drop_last())
    }
}

/// The run a child yields: text as is, an entity reference as its value (or
/// `&name;`), inline markup by name, anything else verbatim.
pub open spec fn run_of(r: Run, c: XmlNode) -> bool
    decreases c,
{
    match c {
        XmlNode::Text(t) => r matches Run::Text(s) && s@ == t@,
        XmlNode::CData(t) => r matches Run::Text(s) && s@ == t@,
        XmlNode::EntityRef { name, value, .. } => r matches Run::Text(s) && s@ == (match value {
            Some(v) => v@,
            None => seq!['&'] + name@ + seq![';'],
        }),
        XmlNode::Element { name, attributes, children, .. } => {
            let n = name@;
            if n == "number"@ {
                r matches Run::Number(x) && attrs_view(x.attributes@) == attrs_view(attributes@) && runs_match(x.content@, children@)
            } else if n == "cross-reference"@ {
                r matches Run::CrossReference(x) && attrs_view(x.attributes@) == attrs_view(attributes@) && runs_match(x.content@, children@) && opt_view(x.target) == attribute_from(attributes@, "target"@, 0)
            } else if n == "figref"@ {
                r matches Run::FigureReference(x) && attrs_view(x.attributes@) == attrs_view(attributes@) && runs_match(x.content@, children@) && opt_view(x.target) == or_else(
                    attribute_from(attributes@, "idref"@, 0),
                    attribute_from(attributes@, "target"@, 0),
                )
            } else if n == "claim-ref"@ || n == "dependent-claim-reference"@ {
                r matches Run::DependentClaimReference(x) && attrs_view(x.attributes@) == attrs_view(attributes@) && runs_match(x.content@, children@) && opt_view(x.depends_on) == or_else(
                    attribute_from(attributes@, "depends_on"@, 0),
                    attribute_from(attributes@, "idref"@, 0),
                )
            } else if n == "b"@ || n == "bold"@ {
                r matches Run::Bold(x) && attrs_view(x.attributes@) == attrs_view(attributes@) && runs_match(x.content@, children@)
            } else if n == "i"@ || n == "italic"@ {
                r matches Run::Italic(x) && attrs_view(x.attributes@) == attrs_view(attributes@) && runs_match(x.content@, children@)
            } else if n == "highlight"@ {
                r matches Run::Highlight(x) && attrs_view(x.attributes@) == attrs_view(attributes@) && runs_match(x.content@, children@)
            } else if n == "claim-text"@ {
                r matches Run::ClaimText(x) && attrs_view(x.attributes@) == attrs_view(attributes@) && runs_match(x.content@, children@)
            } else {
                r matches Run::Opaque(o) && fragment_of(o.xml, c)
            }
        },
        XmlNode::ProcessingInstruction { .. } => r matches Run::Opaque(o) && fragment_of(o.xml, c),
        _ => false,
    }
}

pub(crate) fn entity_text(name: &String, value: &Option<String>) -> (r: String)
    ensures
        r@ == (match *value {
            Some(v) => v@,
            None => seq!['&'] + name@ + seq![';'],
        }),
{
    match value {
        Some(v) => v.clone(),
        None => {
            let mut out = String::new();
            push_char(&mut out, '&');
            push_str(&mut out, name.as_str());
            push_char(&mut out, ';');
            out
        },
    }
}

fn first_attribute(n: &XmlNode, a: &str, b: &str) -> (r: Option<String>)
    ensures
        opt_view(r) == or_else(spec_attribute(*n, a@), spec_attribute(*n, b@)),
{
    match attribute(n, a) {
        Some(v) => Some(v),
        None => attribute(n, b),
    }
}

/// The run an element or other run-yielding child gives.
fn run_from(c: &XmlNode) -> (r: Run)
    requires
        yields_run(*c),
    ensures
        run_of(r, *c),
    decreases c,
{
    match c {
        XmlNode::Text(t) => Run::Text(t.clone()),
        XmlNode::CData(t) => Run::Text(t.clone()),
        XmlNode::EntityRef { name, value, .. } => Run::Text(entity_text(name, value)),
        XmlNode::Element { name, children, .. } => {
            proof {
                assert(decreases_to!(*c => (*c)->Element_children));
            }
            let attrs = attributes(c);
            if crate::text::string_eq_str(name, "number") {
                Run::Number(Number { attributes: attrs, content: parse_runs_of(children) })
            } else if crate::text::string_eq_str(name, "cross-reference") {
                Run::CrossReference(
                    CrossReference {
                        attributes: attrs,
                        target: attribute(c, "target"),
                        content: parse_runs_of(children),
                    },
                )
            } else if crate::text::string_eq_str(name, "figref") {
                Run::FigureReference(
                    CrossReference {
                        attributes: attrs,
                        target: first_attribute(c, "idref", "target"),
                        content: parse_runs_of(children),
                    },
                )
            } else if crate::text::string_eq_str(name, "claim-ref") || crate::text::string_eq_str(
                name,
                "dependent-claim-reference",
            ) {
                Run::DependentClaimReference(
                    DependentClaimReference {
                        attributes: attrs,
                        depends_on: first_attribute(c, "depends_on", "idref"),
                        content: parse_runs_of(children),
                    },
                )
            } else if crate::text::string_eq_str(name, "b") || crate::text::string_eq_str(
                name,
                "bold",
            ) {
                Run::Bold(InlineContainer { attributes: attrs, content: parse_runs_of(children) })
            } else if crate::text::string_eq_str(name, "i") || crate::text::string_eq_str(
                name,
                "italic",
            ) {
                Run::Italic(InlineContainer { attributes: attrs, content: parse_runs_of(children) })
            } else if crate::text::string_eq_str(name, "highlight") {
                Run::Highlight(
                    InlineContainer { attributes: attrs, content: parse_runs_of(children) },
                )
            } else if crate::text::string_eq_str(name, "claim-text") {
                Run::ClaimText(
                    InlineContainer { attributes: attrs, content: parse_runs_of(children) },
                )
            } else {
                Run::Opaque(OpaqueInline { xml: xml_fragment(c) })
            }
        },
        _ => Run::Opaque(OpaqueInline { xml: xml_fragment(c) }),
    }
}

fn yields(c: &XmlNode) -> (r: bool)
    ensures
        r == yields_run(*c),
{
    match c {
        XmlNode::Text(_) | XmlNode::CData(_) => !crate::source::xml::blank_text(c),
        XmlNode::EntityRef { .. } | XmlNode::Element { .. } | XmlNode::ProcessingInstruction {
            ..
        } => true,
        _ => false,
    }
}

/// The runs of a sequence of children.
fn parse_runs_of(cs: &Vec<XmlNode>) -> (r: Vec<Run>)
    ensures
        runs_match(r@, cs@),
    decreases cs@,
{
    let mut runs: Vec<Run> = Vec::new();
    let mut i: usize = 0;
    while i < cs.len()
        invariant
            i <= cs.len(),
            runs_match(runs@, cs@.take(i as int)),
        decreases cs.len() - i,
    {
        proof {
            assert(decreases_to!(cs@ => cs@[i as int]));
        }
        assert(cs@.take(i + 1).drop_last() =~= cs@.take(i as int));
        if yields(&cs[i]) {
            let ghost before = runs@;
            runs.push(run_from(&cs[i]));
            assert(runs@.drop_last() =~= before);
        }
        i += 1;
    }
    assert(cs@.take(cs.len() as int) =~= cs@);
    runs
}

/// The runs of a node's children.
pub fn parse_runs(n: &XmlNode) -> (r: Vec<Run>)
    ensures
        runs_match(r@, spec_children(*n)),
{
    match n {
        XmlNode::Document(c) => parse_runs_of(c),
        XmlNode::Element { children, .. } => parse_runs_of(children),
        XmlNode::EntityRef { children, .. } => parse_runs_of(children),
        _ => Vec::new(),
    }
}

// ---------------------------------------------------------------------------
// Paragraphs, headings, claims, drawings
// ---------------------------------------------------------------------------

pub open spec fn paragraph_of(p: Paragraph, n: XmlNode) -> bool {
    &&& attrs_view(p.attributes@) == attrs_view(spec_attrs(n))
    &&& opt_view(p.id) == spec_attribute(n, "id"@)
    &&& p.level == spec_level(n)
    &&& runs_match(p.content@, spec_children(n))
}

pub fn parse_paragraph(n: &XmlNode) -> (r: Paragraph)
    ensures
        paragraph_of(r, *n),
{
    Paragraph {
        attributes: attributes(n),
        id: attribute(n, "id"),
        level: level_of(n),
        content: parse_runs(n),
    }
}

pub open spec fn heading_of(h: Heading, n: XmlNode) -> bool {
    &&& attrs_view(h.attributes@) == attrs_view(spec_attrs(n))
    &&& h.level == spec_level(n)
    &&& opt_view(h.align) == spec_attribute(n, "align"@)
    &&& runs_match(h.content@, spec_children(n))
}

pub fn parse_heading(n: &XmlNode) -> (r: Heading)
    ensures
        heading_of(r, *n),
{
    Heading {
        attributes: attributes(n),
        level: level_of(n),
        align: attribute(n, "align"),
        content: parse_runs(n),
    }
}

pub open spec fn claim_of(c: Claim, n: XmlNode) -> bool {
    &&& attrs_view(c.attributes@) == attrs_view(spec_attrs(n))
    &&& opt_view(c.id) == spec_attribute(n, "id"@)
    &&& runs_match(c.content@, spec_children(n))
}

fn parse_claim(n: &XmlNode) -> (r: Claim)
    ensures
        claim_of(r, *n),
{
    Claim { attributes: attributes(n), id: attribute(n, "id"), content: parse_runs(n) }
}

pub open spec fn claims_part_of(p: ClaimsPart, c: XmlNode) -> bool {
    if is_named(c, "heading"@) {
        p matches ClaimsPart::Heading(h) && heading_of(h, c)
    } else if is_named(c, "claim"@) {
        p matches ClaimsPart::Claim(x) && claim_of(x, c)
    } else {
        p matches ClaimsPart::Opaque(o) && fragment_of(o.xml, c)
    }
}

/// A claims section: headings, claims and anything else verbatim.
pub open spec fn claims_of(c: Claims, n: XmlNode) -> bool {
    let es = spec_child_elements(n);
    &&& attrs_view(c.attributes@) == attrs_view(spec_attrs(n))
    &&& c.parts@.len() == es.len()
    &&& forall|i: int| 0 <= i < es.len() ==> #[trigger] claims_part_of(c.parts@[i], es[i])
}

pub fn parse_claims(n: &XmlNode) -> (r: Claims)
    ensures
        claims_of(r, *n),
{
    let cs = children(n);
    let mut parts: Vec<ClaimsPart> = Vec::new();
    let mut i: usize = 0;
    while i < cs.len()
        invariant
            i <= cs.len(),
            cs@ == spec_children(*n),
            parts@.len() == elements_of(cs@.take(i as int)).len(),
            forall|j: int|
                0 <= j < parts@.len() ==> #[trigger] claims_part_of(
                    parts@[j],
                    elements_of(cs@.take(i as int))[j],
                ),
        decreases cs.len() - i,
    {
        proof {
            lemma_elements_step(cs@, i as int);
        }
        let c = &cs[i];
        if let XmlNode::Element { .. } = c {
            let part = if has_name(c, "heading") {
                ClaimsPart::Heading(parse_heading(c))
            } else if has_name(c, "claim") {
                ClaimsPart::Claim(parse_claim(c))
            } else {
                ClaimsPart::Opaque(opaque_block(c))
            };
            parts.push(part);
        }
        i += 1;
    }
    assert(cs@.take(cs.len() as int) =~= cs@);
    Claims { attributes: attributes(n), parts }
}

pub open spec fn image_of(m: Image, n: XmlNode) -> bool {
    &&& attrs_view(m.attributes@) == attrs_view(spec_attrs(n))
    &&& opt_view(m.id) == spec_attribute(n, "id"@)
    &&& opt_view(m.file) == spec_attribute(n, "file"@)
    &&& opt_view(m.imf) == spec_attribute(n, "imf"@)
    &&& opt_view(m.ti) == spec_attribute(n, "ti"@)
}

fn parse_image(n: &XmlNode) -> (r: Image)
    ensures
        image_of(r, *n),
{
    Image {
        attributes: attributes(n),
        id: attribute(n, "id"),
        file: attribute(n, "file"),
        imf: attribute(n, "imf"),
        ti: attribute(n, "ti"),
    }
}

pub open spec fn figure_part_of(p: FigurePart, c: XmlNode) -> bool {
    if is_named(c, "img"@) || is_named(c, "image"@) {
        p matches FigurePart::Image(m) && image_of(m, c)
    } else {
        p matches FigurePart::Opaque(o) && fragment_of(o.xml, c)
    }
}

pub open spec fn figure_of(f: Figure, n: XmlNode) -> bool {
    let es = spec_child_elements(n);
    &&& attrs_view(f.attributes@) == attrs_view(spec_attrs(n))
    &&& opt_view(f.id) == spec_attribute(n, "id"@)
    &&& f.parts@.len() == es.len()
    &&& forall|i: int| 0 <= i < es.len() ==> #[trigger] figure_part_of(f.parts@[i], es[i])
}

fn parse_figure(n: &XmlNode) -> (r: Figure)
    ensures
        figure_of(r, *n),
{
    let cs = children(n);
    let mut parts: Vec<FigurePart> = Vec::new();
    let mut i: usize = 0;
    while i < cs.len()
        invariant
            i <= cs.len(),
            cs@ == spec_children(*n),
            parts@.len() == elements_of(cs@.take(i as int)).len(),
            forall|j: int|
                0 <= j < parts@.len() ==> #[trigger] figure_part_of(
                    parts@[j],
                    elements_of(cs@.take(i as int))[j],
                ),
        decreases cs.len() - i,
    {
        proof {
            lemma_elements_step(cs@, i as int);
        }
        let c = &cs[i];
        if let XmlNode::Element { .. } = c {
            let part = if has_name(c, "img") || has_name(c, "image") {
                FigurePart::Image(parse_image(c))
            } else {
                FigurePart::Opaque(opaque_block(c))
            };
            parts.push(part);
        }
        i += 1;
    }
    assert(cs@.take(cs.len() as int) =~= cs@);
    Figure { attributes: attributes(n), id: attribute(n, "id"), parts }
}

pub open spec fn drawings_part_of(p: DrawingsPart, c: XmlNode) -> bool {
    if is_named(c, "heading"@) {
        p matches DrawingsPart::Heading(h) && heading_of(h, c)
    } else if is_named(c, "representative-figure"@) {
        p matches DrawingsPart::RepresentativeFigure(s) && s@ == trimmed_text(c)
    } else if is_named(c, "figure"@) {
        p matches DrawingsPart::Figure(f) && figure_of(f, c)
    } else {
        p matches DrawingsPart::Opaque(o) && fragment_of(o.xml, c)
    }
}

pub open spec fn drawings_of(d: Drawings, n: XmlNode) -> bool {
    let es = spec_child_elements(n);
    &&& attrs_view(d.attributes@) == attrs_view(spec_attrs(n))
    &&& d.parts@.len() == es.len()
    &&& forall|i: int| 0 <= i < es.len() ==> #[trigger] drawings_part_of(d.parts@[i], es[i])
}

pub fn parse_drawings(n: &XmlNode) -> (r: Drawings)
    ensures
        drawings_of(r, *n),
{
    let cs = children(n);
    let mut parts: Vec<DrawingsPart> = Vec::new();
    let mut i: usize = 0;
    while i < cs.len()
        invariant
            i <= cs.len(),
            cs@ == spec_children(*n),
            parts@.len() == elements_of(cs@.take(i as int)).len(),
            forall|j: int|
                0 <= j < parts@.len() ==> #[trigger] drawings_part_of(
                    parts@[j],
                    elements_of(cs@.take(i as int))[j],
                ),
        decreases cs.len() - i,
    {
        proof {
            lemma_elements_step(cs@, i as int);
        }
        let c = &cs[i];
        if let XmlNode::Element { .. } = c {
            let part = if has_name(c, "heading") {
                DrawingsPart::Heading(parse_heading(c))
            } else if has_name(c, "representative-figure") {
                DrawingsPart::RepresentativeFigure(trimmed_text_of(c))
            } else if has_name(c, "figure") {
                DrawingsPart::Figure(parse_figure(c))
            } else {
                DrawingsPart::Opaque(opaque_block(c))
            };
            parts.push(part);
        }
        i += 1;
    }
    assert(cs@.take(cs.len() as int) =~= cs@);
    Drawings { attributes: attributes(n), parts }
}

pub open spec fn abstract_part_of(p: AbstractPart, c: XmlNode) -> bool {
    if is_named(c, "p"@) || is_named(c, "paragraph"@) {
        p matches AbstractPart::Paragraph(x) && paragraph_of(x, c)
    } else {
        p matches AbstractPart::Opaque(o) && fragment_of(o.xml, c)
    }
}

pub open spec fn abstract_of(a: AbstractSection, n: XmlNode) -> bool {
    let es = spec_child_elements(n);
    &&& attrs_view(a.attributes@) == attrs_view(spec_attrs(n))
    &&& a.parts@.len() == es.len()
    &&& forall|i: int| 0 <= i < es.len() ==> #[trigger] abstract_part_of(a.parts@[i], es[i])
}

pub fn parse_abstract_section(n: &XmlNode) -> (r: AbstractSection)
    ensures
        abstract_of(r, *n),
{
    let cs = children(n);
    let mut parts: Vec<AbstractPart> = Vec::new();
    let mut i: usize = 0;
    while i < cs.len()
        invariant
            i <= cs.len(),
            cs@ == spec_children(*n),
            parts@.len() == elements_of(cs@.take(i as int)).len(),
            forall|j: int|
                0 <= j < parts@.len() ==> #[trigger] abstract_part_of(
                    parts@[j],
                    elements_of(cs@.take(i as int))[j],
                ),
        decreases cs.len() - i,
    {
        proof {
            lemma_elements_step(cs@, i as int);
        }
        let c = &cs[i];
        if let XmlNode::Element { .. } = c {
            let part = if has_name(c, "p") || has_name(c, "paragraph") {
                AbstractPart::Paragraph(parse_paragraph(c))
            } else {
                AbstractPart::Opaque(opaque_block(c))
            };
            parts.push(part);
        }
        i += 1;
    }
    assert(cs@.take(cs.len() as int) =~= cs@);
    AbstractSection { attributes: attributes(n), parts }
}

// ---------------------------------------------------------------------------
// Description
// ---------------------------------------------------------------------------

/// Which description part a bucket of sections becomes.
#[derive(Clone, Copy, PartialEq, Eq, Structural)]
pub enum BucketKind {
    Summary,
    Brief,
    Detailed,
}

/// An entry of a section, by the node it comes from.
pub enum SecEntry {
    Heading(XmlNode),
    Paragraph(XmlNode),
    Opaque(XmlNode),
}

pub enum SecPart {
    Section(Seq<SecEntry>),
    Opaque(XmlNode),
}

/// The sections collected for one description part, with the open one.
pub struct Bucket {
    pub kind: BucketKind,
    pub parts: Seq<SecPart>,
    pub current: Option<Seq<SecEntry>>,
}

pub enum DescItem {
    Opaque(XmlNode),
    Part(Bucket),
}

pub open spec fn bucket_new(kind: BucketKind) -> Bucket {
    Bucket { kind: kind, parts: Seq::empty(), current: None }
}

pub open spec fn bucket_flush(b: Bucket) -> Bucket {
    match b.current {
        Some(s) => Bucket { kind: b.kind, parts: b.parts.push(SecPart::Section(s)), current: None },
        None => b,
    }
}

/// A heading closes the open section and opens a new one.
pub open spec fn bucket_heading(b: Bucket, h: XmlNode) -> Bucket {
    Bucket { current: Some(seq![SecEntry::Heading(h)]), ..bucket_flush(b) }
}

/// A paragraph joins the open section, opening one if needed.
pub open spec fn bucket_paragraph(b: Bucket, p: XmlNode) -> Bucket {
    Bucket {
        current: Some(
            match b.current {
                Some(s) => s,
                None => Seq::empty(),
            }.push(SecEntry::Paragraph(p)),
        ),
        ..b
    }
}

/// Other content joins the open section, or stands alone between sections.
pub open spec fn bucket_opaque(b: Bucket, o: XmlNode) -> Bucket {
    match b.current {
        Some(s) => Bucket { current: Some(s.push(SecEntry::Opaque(o))), ..b },
        None => Bucket { parts: b.parts.push(SecPart::Opaque(o)), ..b },
    }
}

pub open spec fn flush_active(items: Seq<DescItem>, active: Option<Bucket>) -> Seq<DescItem> {
    match active {
        Some(b) => items.push(DescItem::Part(b)),
        None => items,
    }
}

pub open spec fn or_new(active: Option<Bucket>, kind: BucketKind) -> Bucket {
    match active {
        Some(b) => b,
        None => bucket_new(kind),
    }
}


/// The description part a processing-instruction marker opens.
pub open spec fn spec_marker_kind(target: Seq<char>) -> Option<BucketKind> {
    let t = ascii_lower(target);
    if t == "summary-of-invention"@ || t == "brfsum"@ {
        Some(BucketKind::Summary)
    } else if t == "brief-description-of-drawings"@ {
        Some(BucketKind::Brief)
    } else if t == "detailed-description"@ || t == "detdesc"@ {
        Some(BucketKind::Detailed)
    } else {
        None
    }
}

/// A marker closing a part: its data holds `end="tail"`.
pub open spec fn spec_is_tail_marker(data: Option<String>) -> bool {
    match data {
        Some(d) => crate::text::contains(d@, "end=\"tail\""@),
        None => false,
    }
}

/// The entries `description-of-drawings` contributes to a bucket.
pub open spec fn drawings_desc_fold(b: Bucket, cs: Seq<XmlNode>) -> Bucket
    decreases cs.len(),
{
    if cs.len() == 0 {
        b
    } else {
        let prev = drawings_desc_fold(b, cs.drop_last());
        let c = cs.last();
        if is_named(c, "heading"@) {
            bucket_heading(prev, c)
        } else if is_named(c, "p"@) || is_named(c, "paragraph"@) {
            bucket_paragraph(prev, c)
        } else {
            bucket_opaque(prev, c)
        }
    }
}

/// One content node of a description, over the parts so far and the open
/// bucket.
pub open spec fn desc_step(items: Seq<DescItem>, active: Option<Bucket>, c: XmlNode) -> (
    Seq<DescItem>,
    Option<Bucket>,
) {
    match c {
        XmlNode::ProcessingInstruction { target, data } => {
            if spec_is_tail_marker(data) {
                (flush_active(items, active).push(DescItem::Opaque(c)), None)
            } else {
                match spec_marker_kind(target@) {
                    Some(k) => (
                        flush_active(items, active).push(DescItem::Opaque(c)),
                        Some(bucket_new(k)),
                    ),
                    None => match active {
                        Some(b) => (items, Some(bucket_opaque(b, c))),
                        None => (items.push(DescItem::Opaque(c)), None),
                    },
                }
            }
        },
        XmlNode::Element { .. } => {
            if is_named(c, "heading"@) {
                (items, Some(bucket_heading(or_new(active, BucketKind::Detailed), c)))
            } else if is_named(c, "p"@) || is_named(c, "paragraph"@) {
                (items, Some(bucket_paragraph(or_new(active, BucketKind::Detailed), c)))
            } else if is_named(c, "description-of-drawings"@) {
                (
                    items,
                    Some(
                        drawings_desc_fold(
                            or_new(active, BucketKind::Brief),
                            content_nodes_of(spec_children(c)),
                        ),
                    ),
                )
            } else {
                match active {
                    Some(b) => (items, Some(bucket_opaque(b, c))),
                    None => (items.push(DescItem::Opaque(c)), None),
                }
            }
        },
        XmlNode::Text(_) | XmlNode::CData(_) => match active {
            Some(b) => (items, Some(bucket_opaque(b, c))),
            None => (items.push(DescItem::Opaque(c)), None),
        },
        _ => (items, active),
    }
}

pub open spec fn desc_fold(cs: Seq<XmlNode>) -> (Seq<DescItem>, Option<Bucket>)
    decreases cs.len(),
{
    if cs.len() == 0 {
        (Seq::empty(), None)
    } else {
        let (items, active) = desc_fold(cs.drop_last());
        desc_step(items, active, cs.last())
    }
}

/// The items of a description: one per marker or stray node, one per bucket.
pub open spec fn desc_items(n: XmlNode) -> Seq<DescItem> {
    let (items, active) = desc_fold(content_nodes_of(spec_children(n)));
    flush_active(items, active)
}

pub open spec fn sec_entry_ok(p: SectionPart, e: SecEntry) -> bool {
    match e {
        SecEntry::Heading(h) => p matches SectionPart::Heading(x) && heading_of(x, h),
        SecEntry::Paragraph(q) => p matches SectionPart::Paragraph(x) && paragraph_of(x, q),
        SecEntry::Opaque(o) => p matches SectionPart::Opaque(x) && fragment_of(x.xml, o),
    }
}

pub open spec fn entries_ok(ps: Seq<SectionPart>, es: Seq<SecEntry>) -> bool {
    &&& ps.len() == es.len()
    &&& forall|i: int| 0 <= i < es.len() ==> #[trigger] sec_entry_ok(ps[i], es[i])
}

pub open spec fn sec_part_ok(p: DescriptionSectionPart, sp: SecPart) -> bool {
    match sp {
        SecPart::Section(es) => p matches DescriptionSectionPart::Section(s) && s.attributes@.len()
            == 0 && entries_ok(s.parts@, es),
        SecPart::Opaque(o) => p matches DescriptionSectionPart::Opaque(x) && fragment_of(x.xml, o),
    }
}

pub open spec fn sec_parts_ok(ps: Seq<DescriptionSectionPart>, sps: Seq<SecPart>) -> bool {
    &&& ps.len() == sps.len()
    &&& forall|i: int| 0 <= i < sps.len() ==> #[trigger] sec_part_ok(ps[i], sps[i])
}

/// A bucket as the description part it finishes into.
pub open spec fn bucket_part_ok(p: DescriptionPart, b: Bucket) -> bool {
    let f = bucket_flush(b);
    match b.kind {
        BucketKind::Summary => p matches DescriptionPart::SummaryOfInvention(v)
            && v.attributes@.len() == 0 && sec_parts_ok(v.parts@, f.parts),
        BucketKind::Brief => p matches DescriptionPart::BriefDescriptionOfDrawings(v)
            && v.attributes@.len() == 0 && sec_parts_ok(v.parts@, f.parts),
        BucketKind::Detailed => p matches DescriptionPart::DetailedDescription(v)
            && v.attributes@.len() == 0 && sec_parts_ok(v.parts@, f.parts),
    }
}

pub open spec fn desc_item_ok(p: DescriptionPart, item: DescItem) -> bool {
    match item {
        DescItem::Opaque(o) => p matches DescriptionPart::Opaque(x) && fragment_of(x.xml, o),
        DescItem::Part(b) => bucket_part_ok(p, b),
    }
}

/// A description: its markers and stray nodes verbatim, its headings and
/// paragraphs grouped into summary, drawings and detailed parts.
pub open spec fn description_of(d: Description, n: XmlNode) -> bool {
    let items = desc_items(n);
    &&& attrs_view(d.attributes@) == attrs_view(spec_attrs(n))
    &&& d.parts@.len() == items.len()
    &&& forall|i: int| 0 <= i < items.len() ==> #[trigger] desc_item_ok(d.parts@[i], items[i])
}

/// The sections being collected for one description part.
pub struct DescriptionBucket {
    pub kind: BucketKind,
    pub parts: Vec<DescriptionSectionPart>,
    pub current_section: Option<Section>,
}

pub open spec fn bucket_matches(x: DescriptionBucket, b: Bucket) -> bool {
    &&& x.kind == b.kind
    &&& sec_parts_ok(x.parts@, b.parts)
    &&& match (x.current_section, b.current) {
        (Some(s), Some(es)) => s.attributes@.len() == 0 && entries_ok(s.parts@, es),
        (None, None) => true,
        _ => false,
    }
}

pub open spec fn active_matches(x: Option<DescriptionBucket>, b: Option<Bucket>) -> bool {
    match (x, b) {
        (Some(y), Some(c)) => bucket_matches(y, c),
        (None, None) => true,
        _ => false,
    }
}

impl DescriptionBucket {
    fn new(kind: BucketKind) -> (r: Self)
        ensures
            bucket_matches(r, bucket_new(kind)),
    {
        DescriptionBucket { kind, parts: Vec::new(), current_section: None }
    }

    fn flush_section(&mut self, Ghost(b): Ghost<Bucket>)
        requires
            bucket_matches(*old(self), b),
        ensures
            bucket_matches(*final(self), bucket_flush(b)),
    {
        let ghost p0 = self.parts@;
        if let Some(section) = self.current_section.take() {
            self.parts.push(DescriptionSectionPart::Section(section));
            let ghost f = bucket_flush(b);
            assert forall|i: int| 0 <= i < f.parts.len() implies #[trigger] sec_part_ok(
                self.parts@[i],
                f.parts[i],
            ) by {
                if i < p0.len() {
                    assert(self.parts@[i] == p0[i]);
                }
            }
        }
    }

    fn push_heading(&mut self, heading: Heading, Ghost(h): Ghost<XmlNode>, Ghost(b): Ghost<Bucket>)
        requires
            heading_of(heading, h),
            bucket_matches(*old(self), b),
        ensures
            bucket_matches(*final(self), bucket_heading(b, h)),
    {
        self.flush_section(Ghost(b));
        self.current_section = Some(
            Section { attributes: Vec::new(), parts: vec![SectionPart::Heading(heading)] },
        );
        let ghost es = seq![SecEntry::Heading(h)];
        assert(sec_entry_ok(self.current_section->0.parts@[0], es[0]));
    }

    fn push_paragraph(&mut self, paragraph: Paragraph, Ghost(q): Ghost<XmlNode>, Ghost(b): Ghost<Bucket>)
        requires
            paragraph_of(paragraph, q),
            bucket_matches(*old(self), b),
        ensures
            bucket_matches(*final(self), bucket_paragraph(b, q)),
    {
        let mut section = match self.current_section.take() {
            Some(s) => s,
            None => Section { attributes: Vec::new(), parts: Vec::new() },
        };
        let ghost sp0 = section.parts@;
        section.parts.push(SectionPart::Paragraph(paragraph));
        self.current_section = Some(section);
        let ghost es0 = match b.current {
            Some(s) => s,
            None => Seq::<SecEntry>::empty(),
        };
        let ghost es = es0.push(SecEntry::Paragraph(q));
        assert forall|i: int| 0 <= i < es.len() implies #[trigger] sec_entry_ok(
            self.current_section->0.parts@[i],
            es[i],
        ) by {
            if i < es0.len() {
                assert(self.current_section->0.parts@[i] == sp0[i]);
            }
        }
    }

    fn push_opaque(&mut self, value: OpaqueBlock, Ghost(o): Ghost<XmlNode>, Ghost(b): Ghost<Bucket>)
        requires
            fragment_of(value.xml, o),
            bucket_matches(*old(self), b),
        ensures
            bucket_matches(*final(self), bucket_opaque(b, o)),
    {
        match self.current_section.take() {
            Some(mut section) => {
                let ghost sp0 = section.parts@;
                section.parts.push(SectionPart::Opaque(value));
                self.current_section = Some(section);
                let ghost es0 = b.current->0;
                let ghost es = es0.push(SecEntry::Opaque(o));
                assert forall|i: int| 0 <= i < es.len() implies #[trigger] sec_entry_ok(
                    self.current_section->0.parts@[i],
                    es[i],
                ) by {
                    if i < es0.len() {
                        assert(self.current_section->0.parts@[i] == sp0[i]);
                    }
                }
            },
            None => {
                let ghost p0 = self.parts@;
                self.parts.push(DescriptionSectionPart::Opaque(value));
                let ghost ps = b.parts.push(SecPart::Opaque(o));
                assert forall|i: int| 0 <= i < ps.len() implies #[trigger] sec_part_ok(
                    self.parts@[i],
                    ps[i],
                ) by {
                    if i < p0.len() {
                        assert(self.parts@[i] == p0[i]);
                    }
                }
            },
        }
    }

    fn finish(self, Ghost(b): Ghost<Bucket>) -> (r: DescriptionPart)
        requires
            bucket_matches(self, b),
        ensures
            bucket_part_ok(r, b),
    {
        let mut me = self;
        me.flush_section(Ghost(b));
        match me.kind {
            BucketKind::Summary => DescriptionPart::SummaryOfInvention(
                SummaryOfInvention { attributes: Vec::new(), parts: me.parts },
            ),
            BucketKind::Brief => DescriptionPart::BriefDescriptionOfDrawings(
                BriefDescriptionOfDrawings { attributes: Vec::new(), parts: me.parts },
            ),
            BucketKind::Detailed => DescriptionPart::DetailedDescription(
                DetailedDescription { attributes: Vec::new(), parts: me.parts },
            ),
        }
    }
}

fn marker_kind(target: &String) -> (r: Option<BucketKind>)
    ensures
        r == spec_marker_kind(target@),
{
    let t = chars_of(target.as_str());
    let lower = crate::text::lower_ascii_chars(t.as_slice());
    let l = lower.as_slice();
    if crate::text::eq_str(l, "summary-of-invention") || crate::text::eq_str(l, "brfsum") {
        Some(BucketKind::Summary)
    } else if crate::text::eq_str(l, "brief-description-of-drawings") {
        Some(BucketKind::Brief)
    } else if crate::text::eq_str(l, "detailed-description") || crate::text::eq_str(l, "detdesc") {
        Some(BucketKind::Detailed)
    } else {
        None
    }
}

fn is_tail_marker(data: &Option<String>) -> (r: bool)
    ensures
        r == spec_is_tail_marker(*data),
{
    match data {
        Some(d) => crate::text::contains_str(chars_of(d.as_str()).as_slice(), "end=\"tail\""),
        None => false,
    }
}

fn flush_bucket(parts: &mut Vec<DescriptionPart>, active: Option<DescriptionBucket>, Ghost(b): Ghost<Option<Bucket>>)
    requires
        active_matches(active, b),
    ensures
        final(parts)@.len() == flush_active(Seq::<DescItem>::empty(), b).len() + old(parts)@.len(),
        final(parts)@.take(old(parts)@.len() as int) == old(parts)@,
        b matches Some(x) ==> bucket_part_ok(final(parts)@.last(), x),
{
    if let Some(bucket) = active {
        let part = bucket.finish(Ghost(b->0));
        parts.push(part);
    }
    assert(parts@.take(old(parts)@.len() as int) =~= old(parts)@);
}

pub open spec fn items_ok(ps: Seq<DescriptionPart>, items: Seq<DescItem>) -> bool {
    &&& ps.len() == items.len()
    &&& forall|i: int| 0 <= i < items.len() ==> #[trigger] desc_item_ok(ps[i], items[i])
}

fn add_drawings_description(bucket: &mut DescriptionBucket, node: &XmlNode, Ghost(b): Ghost<Bucket>)
    requires
        bucket_matches(*old(bucket), b),
    ensures
        bucket_matches(*final(bucket), drawings_desc_fold(b, content_nodes_of(spec_children(*node)))),
{
    let cs = children(node);
    let ghost mut cur = b;
    let mut i: usize = 0;
    while i < cs.len()
        invariant
            i <= cs.len(),
            cs@ == spec_children(*node),
            cur == drawings_desc_fold(b, content_nodes_of(cs@.take(i as int))),
            bucket_matches(*bucket, cur),
        decreases cs.len() - i,
    {
        let c = &cs[i];
        assert(cs@.take(i + 1).drop_last() =~= cs@.take(i as int));
        assert(cs@.take(i + 1).last() == *c);
        let ghost pre = content_nodes_of(cs@.take(i as int));
        assert(pre.push(*c).drop_last() =~= pre);
        if !blank_text(c) {
            if has_name(c, "heading") {
                bucket.push_heading(parse_heading(c), Ghost(*c), Ghost(cur));
                proof { cur = bucket_heading(cur, *c); }
            } else if has_name(c, "p") || has_name(c, "paragraph") {
                bucket.push_paragraph(parse_paragraph(c), Ghost(*c), Ghost(cur));
                proof { cur = bucket_paragraph(cur, *c); }
            } else {
                bucket.push_opaque(opaque_block(c), Ghost(*c), Ghost(cur));
                proof { cur = bucket_opaque(cur, *c); }
            }
        }
        i += 1;
    }
    assert(cs@.take(cs.len() as int) =~= cs@);
}

fn take_or_new(active: Option<DescriptionBucket>, kind: BucketKind, Ghost(b): Ghost<Option<Bucket>>) -> (r: DescriptionBucket)
    requires
        active_matches(active, b),
    ensures
        bucket_matches(r, or_new(b, kind)),
{
    match active {
        Some(x) => x,
        None => DescriptionBucket::new(kind),
    }
}

pub fn parse_description(n: &XmlNode) -> (r: Description)
    ensures
        description_of(r, *n),
{
    let cs = children(n);
    let mut parts: Vec<DescriptionPart> = Vec::new();
    let mut active: Option<DescriptionBucket> = None;
    let ghost mut items: Seq<DescItem> = Seq::empty();
    let ghost mut act: Option<Bucket> = None;
    let mut i: usize = 0;
    while i < cs.len()
        invariant
            i <= cs.len(),
            cs@ == spec_children(*n),
            desc_fold(content_nodes_of(cs@.take(i as int))) == (items, act),
            items_ok(parts@, items),
            active_matches(active, act),
        decreases cs.len() - i,
    {
        let c = &cs[i];
        assert(cs@.take(i + 1).drop_last() =~= cs@.take(i as int));
        assert(cs@.take(i + 1).last() == *c);
        let ghost pre = content_nodes_of(cs@.take(i as int));
        assert(pre.push(*c).drop_last() =~= pre);
        let ghost parts0 = parts@;
        if !blank_text(c) {
            match c {
                XmlNode::ProcessingInstruction { target, data } => {
                    if is_tail_marker(data) {
                        let a = active;
                        active = None;
                        flush_bucket(&mut parts, a, Ghost(act));
                        let ghost parts1 = parts@;
                        parts.push(DescriptionPart::Opaque(opaque_block(c)));
                        proof {
                            let it2 = flush_active(items, act).push(DescItem::Opaque(*c));
                            assert forall|j: int| 0 <= j < it2.len() implies #[trigger] desc_item_ok(parts@[j], it2[j]) by {
                                if j < parts0.len() {
                                    assert(parts@[j] == parts1.take(parts0.len() as int)[j]);
                                } else if j < parts1.len() {
                                    assert(parts@[j] == parts1[j]);
                                }
                            }
                            items = it2;
                            act = None;
                        }
                    } else {
                        match marker_kind(target) {
                            Some(k) => {
                                let a = active;
                                active = None;
                                flush_bucket(&mut parts, a, Ghost(act));
                                let ghost parts1 = parts@;
                                parts.push(DescriptionPart::Opaque(opaque_block(c)));
                                active = Some(DescriptionBucket::new(k));
                                proof {
                                    let it2 = flush_active(items, act).push(DescItem::Opaque(*c));
                                    assert forall|j: int| 0 <= j < it2.len() implies #[trigger] desc_item_ok(parts@[j], it2[j]) by {
                                        if j < parts0.len() {
                                            assert(parts@[j] == parts1.take(parts0.len() as int)[j]);
                                        } else if j < parts1.len() {
                                            assert(parts@[j] == parts1[j]);
                                        }
                                    }
                                    items = it2;
                                    act = Some(bucket_new(k));
                                }
                            },
                            None => {
                                match active {
                                    Some(mut bucket) => {
                                        bucket.push_opaque(opaque_block(c), Ghost(*c), Ghost(act->0));
                                        active = Some(bucket);
                                        proof { act = Some(bucket_opaque(act->0, *c)); }
                                    },
                                    None => {
                                        parts.push(DescriptionPart::Opaque(opaque_block(c)));
                                        proof {
                                            let it2 = items.push(DescItem::Opaque(*c));
                                            assert forall|j: int| 0 <= j < it2.len() implies #[trigger] desc_item_ok(parts@[j], it2[j]) by {
                                                if j < parts0.len() {
                                                    assert(parts@[j] == parts0[j]);
                                                }
                                            }
                                            items = it2;
                                        }
                                    },
                                }
                            },
                        }
                    }
                },
                XmlNode::Element { .. } => {
                    if has_name(c, "heading") {
                        let mut bucket = take_or_new(active, BucketKind::Detailed, Ghost(act));
                        bucket.push_heading(parse_heading(c), Ghost(*c), Ghost(or_new(act, BucketKind::Detailed)));
                        active = Some(bucket);
                        proof { act = Some(bucket_heading(or_new(act, BucketKind::Detailed), *c)); }
                    } else if has_name(c, "p") || has_name(c, "paragraph") {
                        let mut bucket = take_or_new(active, BucketKind::Detailed, Ghost(act));
                        bucket.push_paragraph(parse_paragraph(c), Ghost(*c), Ghost(or_new(act, BucketKind::Detailed)));
                        active = Some(bucket);
                        proof { act = Some(bucket_paragraph(or_new(act, BucketKind::Detailed), *c)); }
                    } else if has_name(c, "description-of-drawings") {
                        let mut bucket = take_or_new(active, BucketKind::Brief, Ghost(act));
                        add_drawings_description(&mut bucket, c, Ghost(or_new(act, BucketKind::Brief)));
                        active = Some(bucket);
                        proof {
                            act = Some(drawings_desc_fold(or_new(act, BucketKind::Brief), content_nodes_of(spec_children(*c))));
                        }
                    } else {
                        match active {
                            Some(mut bucket) => {
                                bucket.push_opaque(opaque_block(c), Ghost(*c), Ghost(act->0));
                                active = Some(bucket);
                                proof { act = Some(bucket_opaque(act->0, *c)); }
                            },
                            None => {
                                parts.push(DescriptionPart::Opaque(opaque_block(c)));
                                proof {
                                    let it2 = items.push(DescItem::Opaque(*c));
                                    assert forall|j: int| 0 <= j < it2.len() implies #[trigger] desc_item_ok(parts@[j], it2[j]) by {
                                        if j < parts0.len() {
                                            assert(parts@[j] == parts0[j]);
                                        }
                                    }
                                    items = it2;
                                }
                            },
                        }
                    }
                },
                XmlNode::Text(_) | XmlNode::CData(_) => {
                    match active {
                        Some(mut bucket) => {
                            bucket.push_opaque(opaque_block(c), Ghost(*c), Ghost(act->0));
                            active = Some(bucket);
                            proof { act = Some(bucket_opaque(act->0, *c)); }
                        },
                        None => {
                            parts.push(DescriptionPart::Opaque(opaque_block(c)));
                            proof {
                                let it2 = items.push(DescItem::Opaque(*c));
                                assert forall|j: int| 0 <= j < it2.len() implies #[trigger] desc_item_ok(parts@[j], it2[j]) by {
                                    if j < parts0.len() {
                                        assert(parts@[j] == parts0[j]);
                                    }
                                }
                                items = it2;
                            }
                        },
                    }
                },
                _ => {},
            }
        }
        i += 1;
    }
    assert(cs@.take(cs.len() as int) =~= cs@);
    let ghost parts0 = parts@;
    flush_bucket(&mut parts, active, Ghost(act));
    proof {
        let it2 = flush_active(items, act);
        assert forall|j: int| 0 <= j < it2.len() implies #[trigger] desc_item_ok(parts@[j], it2[j]) by {
            if j < parts0.len() {
                assert(parts@[j] == parts@.take(parts0.len() as int)[j]);
            }
        }
    }
    Description { attributes: attributes(n), parts }
}

// ---------------------------------------------------------------------------
// Bibliographic data: identifiers, filing, continuity
// ---------------------------------------------------------------------------

/// The trimmed text of the first child element named `name`, if not empty.
pub open spec fn ct(n: XmlNode, name: Seq<char>) -> Option<Seq<char>> {
    spec_child_text(n, seq![name])
}

pub open spec fn opt_ct(n: Option<XmlNode>, name: Seq<char>) -> Option<Seq<char>> {
    opt_child_text(n, seq![name])
}

fn text_of_child(n: &XmlNode, name: &str) -> (r: Option<String>)
    ensures
        opt_view(r) == ct(*n, name@),
{
    let names: [&str; 1] = [name];
    assert(names_view(names@) =~= seq![name@]);
    child_text(n, &names)
}

fn text_of_opt_child(n: Option<&XmlNode>, name: &str) -> (r: Option<String>)
    ensures
        opt_view(r) == opt_ct(
            match n {
                Some(x) => Some(*x),
                None => None,
            },
            name@,
        ),
{
    match n {
        Some(x) => text_of_child(x, name),
        None => None,
    }
}

pub open spec fn or_empty(v: Option<Seq<char>>) -> Seq<char> {
    match v {
        Some(x) => x,
        None => Seq::empty(),
    }
}

/// A `document-id`: number (empty when missing), kind, date and country.
pub open spec fn doc_id_of(d: DocumentId, n: XmlNode) -> bool {
    &&& d.doc_number@ == or_empty(ct(n, "doc-number"@))
    &&& opt_view(d.kind_code) == ct(n, "kind"@)
    &&& opt_view(d.document_date) == ct(n, "date"@)
    &&& opt_view(d.country_code) == ct(n, "country"@)
}

fn parse_document_id(n: &XmlNode) -> (r: DocumentId)
    ensures
        doc_id_of(r, *n),
{
    let doc_number = match text_of_child(n, "doc-number") {
        Some(v) => v,
        None => String::new(),
    };
    DocumentId {
        doc_number,
        kind_code: text_of_child(n, "kind"),
        document_date: text_of_child(n, "date"),
        country_code: text_of_child(n, "country"),
    }
}

pub open spec fn ref_node(r: Option<&XmlNode>) -> Option<XmlNode> {
    match r {
        Some(x) => Some(*x),
        None => None,
    }
}

/// An `application-reference`: its application number (with `appl-type`)
/// and filing date, then the series codes that followed it.
pub open spec fn app_ref_of(d: DomesticFilingData, n: XmlNode, series: Seq<Seq<char>>) -> bool {
    let did = spec_child_element(n, "document-id"@);
    let date = opt_ct(did, "date"@);
    let base: int = if date is Some {
        2
    } else {
        1
    };
    &&& attrs_view(d.attributes@) == attrs_view(spec_attrs(n))
    &&& d.parts@.len() >= base
    &&& (d.parts@[0] matches DomesticFilingPart::ApplicationNumber(a) && a.attributes@.len() == 0
        && opt_view(a.appl_type) == spec_attribute(n, "appl-type"@) && opt_view(a.doc_number)
        == opt_ct(did, "doc-number"@))
    &&& (date matches Some(v) ==> (d.parts@[1] matches DomesticFilingPart::FilingDate(s) && s@
        == v))
    &&& series_parts_ok(d.parts@.skip(base), series)
}

pub open spec fn series_part_ok(p: DomesticFilingPart, s: Seq<char>) -> bool {
    p matches DomesticFilingPart::ApplicationNumberSeriesCode(v) && v@ == s
}

/// Series code parts, one per code.
pub open spec fn series_parts_ok(ps: Seq<DomesticFilingPart>, series: Seq<Seq<char>>) -> bool {
    &&& ps.len() == series.len()
    &&& forall|k: int| 0 <= k < series.len() ==> #[trigger] series_part_ok(ps[k], series[k])
}

proof fn lemma_series_parts_push(
    ps: Seq<DomesticFilingPart>,
    series: Seq<Seq<char>>,
    p: DomesticFilingPart,
    s: Seq<char>,
)
    requires
        series_parts_ok(ps, series),
        series_part_ok(p, s),
    ensures
        series_parts_ok(ps.push(p), series.push(s)),
{
    assert forall|k: int| 0 <= k < series.len() + 1 implies #[trigger] series_part_ok(
        ps.push(p)[k],
        series.push(s)[k],
    ) by {
        if k < series.len() {
            assert(ps.push(p)[k] == ps[k]);
        }
    }
}

/// Filing data made of series codes alone.
pub open spec fn series_only_of(d: DomesticFilingData, series: Seq<Seq<char>>) -> bool {
    d.attributes@.len() == 0 && series_parts_ok(d.parts@, series)
}

fn parse_application_reference(n: &XmlNode) -> (r: DomesticFilingData)
    ensures
        app_ref_of(r, *n, Seq::empty()),
{
    let did = child_element(n, "document-id");
    let application_number = ApplicationNumber {
        attributes: Vec::new(),
        appl_type: attribute(n, "appl-type"),
        doc_number: text_of_opt_child(did, "doc-number"),
    };
    let filing_date = text_of_opt_child(did, "date");
    let mut parts: Vec<DomesticFilingPart> = Vec::new();
    parts.push(DomesticFilingPart::ApplicationNumber(application_number));
    if let Some(value) = filing_date {
        parts.push(DomesticFilingPart::FilingDate(value));
    }
    assert(parts@.skip(parts@.len() as int) =~= Seq::<DomesticFilingPart>::empty());
    DomesticFilingData { attributes: attributes(n), parts }
}

/// A related document under `relation`: parent and child document ids.
pub open spec fn relation_of(r: RelatedDocument, n: XmlNode, rel: Seq<char>) -> bool {
    let relation = spec_child_element(n, "relation"@);
    let parent = match relation {
        Some(x) => match spec_child_element(x, "parent-doc"@) {
            Some(y) => spec_child_element(y, "document-id"@),
            None => None,
        },
        None => None,
    };
    let child = match relation {
        Some(x) => match spec_child_element(x, "child-doc"@) {
            Some(y) => spec_child_element(y, "document-id"@),
            None => None,
        },
        None => None,
    };
    &&& attrs_view(r.attributes@) == attrs_view(spec_attrs(n))
    &&& opt_view(r.parent_doc_number) == opt_ct(parent, "doc-number"@)
    &&& opt_view(r.parent_date) == opt_ct(parent, "date"@)
    &&& opt_view(r.child_doc_number) == opt_ct(child, "doc-number"@)
    &&& opt_view(r.relationship) == Some(rel)
}

fn grandchild<'a>(n: Option<&'a XmlNode>, a: &str, b: &str) -> (r: Option<&'a XmlNode>)
    ensures
        ref_node(r) == (match ref_node(n) {
            Some(x) => match spec_child_element(x, a@) {
                Some(y) => spec_child_element(y, b@),
                None => None,
            },
            None => None,
        }),
{
    match n {
        Some(x) => match child_element(x, a) {
            Some(y) => child_element(y, b),
            None => None,
        },
        None => None,
    }
}

fn parse_related_relation(n: &XmlNode, relationship: String) -> (r: RelatedDocument)
    ensures
        relation_of(r, *n, relationship@),
{
    let relation = child_element(n, "relation");
    let parent = grandchild(relation, "parent-doc", "document-id");
    let child = grandchild(relation, "child-doc", "document-id");
    RelatedDocument {
        attributes: attributes(n),
        parent_doc_number: text_of_opt_child(parent, "doc-number"),
        parent_date: text_of_opt_child(parent, "date"),
        child_doc_number: text_of_opt_child(child, "doc-number"),
        relationship: Some(relationship),
    }
}

/// A related document holding its `document-id` directly.
pub open spec fn simple_related_of(r: RelatedDocument, n: XmlNode, rel: Seq<char>) -> bool {
    let did = spec_child_element(n, "document-id"@);
    &&& attrs_view(r.attributes@) == attrs_view(spec_attrs(n))
    &&& opt_view(r.parent_doc_number) == opt_ct(did, "doc-number"@)
    &&& opt_view(r.parent_date) == opt_ct(did, "date"@)
    &&& r.child_doc_number is None
    &&& opt_view(r.relationship) == Some(rel)
}

fn parse_simple_related(n: &XmlNode, relationship: &str) -> (r: RelatedDocument)
    ensures
        simple_related_of(r, *n, relationship@),
{
    let did = child_element(n, "document-id");
    RelatedDocument {
        attributes: attributes(n),
        parent_doc_number: text_of_opt_child(did, "doc-number"),
        parent_date: text_of_opt_child(did, "date"),
        child_doc_number: None,
        relationship: Some(copy_str(relationship)),
    }
}

pub open spec fn continuity_part_of(p: ContinuityPart, c: XmlNode) -> bool {
    if is_named(c, "us-provisional-application"@) {
        p matches ContinuityPart::RelatedDocument(r) && simple_related_of(
            r,
            c,
            "us-provisional-application"@,
        )
    } else if is_named(c, "continuation"@) || is_named(c, "continuation-in-part"@) || is_named(
        c,
        "division"@,
    ) {
        p matches ContinuityPart::RelatedDocument(r) && relation_of(
            r,
            c,
            spec_local_name(c)->0,
        )
    } else {
        p matches ContinuityPart::Opaque(o) && fragment_of(o.xml, c)
    }
}

/// `us-related-documents`: provisional, continuation, continuation-in-part
/// and division entries; anything else verbatim.
pub open spec fn continuity_of(d: ContinuityData, n: XmlNode) -> bool {
    let es = spec_child_elements(n);
    &&& attrs_view(d.attributes@) == attrs_view(spec_attrs(n))
    &&& d.parts@.len() == es.len()
    &&& forall|i: int| 0 <= i < es.len() ==> #[trigger] continuity_part_of(d.parts@[i], es[i])
}

fn element_name(n: &XmlNode) -> (r: String)
    ensures
        spec_local_name(*n) matches Some(x) ==> r@ == x,
{
    match n {
        XmlNode::Element { name, .. } => name.clone(),
        XmlNode::ProcessingInstruction { target, .. } => target.clone(),
        _ => String::new(),
    }
}

fn parse_continuity_data(n: &XmlNode) -> (r: ContinuityData)
    ensures
        continuity_of(r, *n),
{
    let cs = children(n);
    let mut parts: Vec<ContinuityPart> = Vec::new();
    let mut i: usize = 0;
    while i < cs.len()
        invariant
            i <= cs.len(),
            cs@ == spec_children(*n),
            parts@.len() == elements_of(cs@.take(i as int)).len(),
            forall|j: int|
                0 <= j < parts@.len() ==> #[trigger] continuity_part_of(
                    parts@[j],
                    elements_of(cs@.take(i as int))[j],
                ),
        decreases cs.len() - i,
    {
        proof {
            lemma_elements_step(cs@, i as int);
        }
        let c = &cs[i];
        if let XmlNode::Element { .. } = c {
            let part = if has_name(c, "us-provisional-application") {
                ContinuityPart::RelatedDocument(
                    parse_simple_related(c, "us-provisional-application"),
                )
            } else if has_name(c, "continuation") || has_name(c, "continuation-in-part")
                || has_name(c, "division") {
                ContinuityPart::RelatedDocument(parse_related_relation(c, element_name(c)))
            } else {
                ContinuityPart::Opaque(opaque_block(c))
            };
            parts.push(part);
        }
        i += 1;
    }
    assert(cs@.take(cs.len() as int) =~= cs@);
    ContinuityData { attributes: attributes(n), parts }
}

// ---------------------------------------------------------------------------
// Parties and classifications
// ---------------------------------------------------------------------------

/// A party's name from its `addressbook`: the organization (`orgname` or
/// `name`), else first, middle and last name joined by spaces.
pub open spec fn party_name_of(n: XmlNode) -> Option<Seq<char>> {
    match spec_child_element(n, "addressbook"@) {
        None => None,
        Some(ab) => match spec_child_text(ab, seq!["orgname"@, "name"@]) {
            Some(o) => Some(o),
            None => {
                let ps = opt_seq(ct(ab, "first-name"@)) + opt_seq(ct(ab, "middle-name"@)) + opt_seq(
                    ct(ab, "last-name"@),
                );
                if ps.len() > 0 {
                    Some(crate::text::join(ps, seq![' ']))
                } else {
                    None
                }
            },
        },
    }
}

fn push_opt_text(v: &mut Vec<Vec<char>>, o: Option<String>)
    ensures
        final(v).deep_view() == old(v).deep_view() + opt_seq(opt_view(o)),
{
    match o {
        Some(s) => {
            let c = chars_of(s.as_str());
            proof {
                crate::text::lemma_deep_view_chars(c);
            }
            let ghost cv = c@;
            v.push(c);
            assert(v.deep_view() =~= old(v).deep_view() + seq![cv]);
        },
        None => {
            assert(v.deep_view() =~= old(v).deep_view() + Seq::<Seq<char>>::empty());
        },
    }
}

fn parse_party_name(n: &XmlNode) -> (r: Option<String>)
    ensures
        opt_view(r) == party_name_of(*n),
{
    let ab = match child_element(n, "addressbook") {
        Some(x) => x,
        None => {
            return None;
        },
    };
    let names: [&str; 2] = ["orgname", "name"];
    assert(names_view(names@) =~= seq!["orgname"@, "name"@]);
    if let Some(org) = child_text(ab, &names) {
        return Some(org);
    }
    let mut ps: Vec<Vec<char>> = Vec::new();
    assert(ps.deep_view() =~= Seq::<Seq<char>>::empty());
    push_opt_text(&mut ps, text_of_child(ab, "first-name"));
    push_opt_text(&mut ps, text_of_child(ab, "middle-name"));
    push_opt_text(&mut ps, text_of_child(ab, "last-name"));
    if ps.len() > 0 {
        let j = crate::text::join_char_vecs(&ps, " ");
        proof {
            reveal_strlit(" ");
            assert(" "@ =~= seq![' ']);
        }
        Some(string_of_chars(j))
    } else {
        None
    }
}

fn string_of_chars(v: Vec<char>) -> (r: String)
    ensures
        r@ == v@,
{
    crate::text::string_of(v.as_slice())
}

/// The elements of `es` whose name is one of `names`.
pub open spec fn elements_named_in(es: Seq<XmlNode>, names: Seq<Seq<char>>) -> Seq<XmlNode>
    decreases es.len(),
{
    if es.len() == 0 {
        Seq::empty()
    } else if spec_local_name(es.last()) matches Some(x) && names.contains(x) {
        elements_named_in(es.drop_last(), names).push(es.last())
    } else {
        elements_named_in(es.drop_last(), names)
    }
}

pub open spec fn party_of(p: NamedParty, n: XmlNode) -> bool {
    attrs_view(p.attributes@) == attrs_view(spec_attrs(n)) && opt_view(p.name) == party_name_of(n)
}

/// A party list: one party per child named one of `items`.
pub open spec fn named_parties_of(np: NamedParties, n: XmlNode, items: Seq<Seq<char>>) -> bool {
    let es = elements_named_in(spec_child_elements(n), items);
    &&& attrs_view(np.attributes@) == attrs_view(spec_attrs(n))
    &&& np.parties@.len() == es.len()
    &&& forall|i: int| 0 <= i < es.len() ==> #[trigger] party_of(np.parties@[i], es[i])
}

fn name_in_list(n: &XmlNode, names: &[&str]) -> (r: bool)
    ensures
        r == (spec_local_name(*n) matches Some(x) && names_view(names@).contains(x)),
{
    let mut k: usize = 0;
    while k < names.len()
        invariant
            k <= names.len(),
            forall|j: int| 0 <= j < k ==> !is_named(*n, #[trigger] names@[j]@),
        decreases names.len() - k,
    {
        if has_name(n, names[k]) {
            assert(names_view(names@)[k as int] == names@[k as int]@);
            return true;
        }
        k += 1;
    }
    proof {
        match spec_local_name(*n) {
            Some(x) => {
                if names_view(names@).contains(x) {
                    let j = choose|j: int|
                        0 <= j < names_view(names@).len() && #[trigger] names_view(names@)[j] == x;
                    assert(names_view(names@)[j] == names@[j]@);
                }
            },
            None => {},
        }
    }
    false
}

fn parse_named_parties(n: &XmlNode, items: &[&str]) -> (r: NamedParties)
    ensures
        named_parties_of(r, *n, names_view(items@)),
{
    let ghost names = names_view(items@);
    let cs = children(n);
    let mut parties: Vec<NamedParty> = Vec::new();
    let mut i: usize = 0;
    while i < cs.len()
        invariant
            i <= cs.len(),
            cs@ == spec_children(*n),
            names == names_view(items@),
            parties@.len() == elements_named_in(elements_of(cs@.take(i as int)), names).len(),
            forall|j: int|
                0 <= j < parties@.len() ==> #[trigger] party_of(
                    parties@[j],
                    elements_named_in(elements_of(cs@.take(i as int)), names)[j],
                ),
        decreases cs.len() - i,
    {
        proof {
            lemma_elements_step(cs@, i as int);
            let es = elements_of(cs@.take(i as int));
            assert(es.push(cs@[i as int]).drop_last() =~= es);
        }
        let c = &cs[i];
        if let XmlNode::Element { .. } = c {
            if name_in_list(c, items) {
                parties.push(NamedParty { attributes: attributes(c), name: parse_party_name(c) });
            }
        }
        i += 1;
    }
    assert(cs@.take(cs.len() as int) =~= cs@);
    NamedParties { attributes: attributes(n), parties }
}

pub open spec fn applicant_items() -> Seq<Seq<char>> {
    seq!["applicant"@, "us-applicant"@]
}

pub open spec fn assignee_items() -> Seq<Seq<char>> {
    seq!["assignee"@]
}

fn parse_applicants(n: &XmlNode) -> (r: NamedParties)
    ensures
        named_parties_of(r, *n, applicant_items()),
{
    let items: [&str; 2] = ["applicant", "us-applicant"];
    assert(names_view(items@) =~= applicant_items());
    parse_named_parties(n, &items)
}

fn parse_assignees(n: &XmlNode) -> (r: NamedParties)
    ensures
        named_parties_of(r, *n, assignee_items()),
{
    let items: [&str; 1] = ["assignee"];
    assert(names_view(items@) =~= assignee_items());
    parse_named_parties(n, &items)
}

/// The non-empty trimmed texts of `es`.
pub open spec fn nonempty_texts(es: Seq<XmlNode>) -> Seq<Seq<char>>
    decreases es.len(),
{
    if es.len() == 0 {
        Seq::empty()
    } else if trimmed_text(es.last()).len() > 0 {
        nonempty_texts(es.drop_last()).push(trimmed_text(es.last()))
    } else {
        nonempty_texts(es.drop_last())
    }
}

pub open spec fn further_values(n: XmlNode) -> Seq<Seq<char>> {
    nonempty_texts(named_elements(spec_child_elements(n), "further-classification"@))
}

fn parse_further(n: &XmlNode) -> (r: Vec<String>)
    ensures
        r.deep_view() == further_values(*n),
{
    let cs = children(n);
    let mut out: Vec<String> = Vec::new();
    let mut i: usize = 0;
    assert(out.deep_view() =~= Seq::<Seq<char>>::empty());
    while i < cs.len()
        invariant
            i <= cs.len(),
            cs@ == spec_children(*n),
            out.deep_view() == nonempty_texts(
                named_elements(elements_of(cs@.take(i as int)), "further-classification"@),
            ),
        decreases cs.len() - i,
    {
        proof {
            lemma_elements_step(cs@, i as int);
            let es = elements_of(cs@.take(i as int));
            assert(es.push(cs@[i as int]).drop_last() =~= es);
            let ns = named_elements(es, "further-classification"@);
            assert(ns.push(cs@[i as int]).drop_last() =~= ns);
        }
        let c = &cs[i];
        if let XmlNode::Element { .. } = c {
            if has_name(c, "further-classification") {
                let t = trimmed_text_of(c);
                if !t.as_str().is_empty() {
                    crate::render::fields::push_string(&mut out, t);
                }
            }
        }
        i += 1;
    }
    assert(cs@.take(cs.len() as int) =~= cs@);
    out
}

/// A legacy `classification-ipc`: main and further classifications.
pub open spec fn ipc_legacy_of(c: ClassificationIpc, n: XmlNode) -> bool {
    &&& attrs_view(c.attributes@) == attrs_view(spec_attrs(n))
    &&& opt_view(c.main_classification) == ct(n, "main-classification"@)
    &&& c.further_classification.deep_view() == further_values(n)
}

fn parse_classification_ipc_legacy(n: &XmlNode) -> (r: ClassificationIpc)
    ensures
        ipc_legacy_of(r, *n),
{
    ClassificationIpc {
        attributes: attributes(n),
        main_classification: text_of_child(n, "main-classification"),
        further_classification: parse_further(n),
    }
}

/// An IPCR symbol: section, class, subclass, main group `/` subgroup.
pub open spec fn ipcr_symbol(n: XmlNode) -> Option<Seq<char>> {
    match (
        ct(n, "section"@),
        ct(n, "class"@),
        ct(n, "subclass"@),
        ct(n, "main-group"@),
        ct(n, "subgroup"@),
    ) {
        (Some(s), Some(c), Some(sc), Some(mg), Some(sg)) => Some(
            s + c + sc + trim(mg) + seq!['/'] + trim(sg),
        ),
        _ => None,
    }
}

fn format_ipcr_symbol(n: &XmlNode) -> (r: Option<String>)
    ensures
        opt_view(r) == ipcr_symbol(*n),
{
    let section = match text_of_child(n, "section") {
        Some(v) => v,
        None => {
            return None;
        },
    };
    let class = match text_of_child(n, "class") {
        Some(v) => v,
        None => {
            return None;
        },
    };
    let subclass = match text_of_child(n, "subclass") {
        Some(v) => v,
        None => {
            return None;
        },
    };
    let main_group = match text_of_child(n, "main-group") {
        Some(v) => v,
        None => {
            return None;
        },
    };
    let subgroup = match text_of_child(n, "subgroup") {
        Some(v) => v,
        None => {
            return None;
        },
    };
    let mut out = section;
    push_str(&mut out, class.as_str());
    push_str(&mut out, subclass.as_str());
    let mg = crate::text::trimmed_string(main_group.as_str());
    push_str(&mut out, mg.as_str());
    push_char(&mut out, '/');
    let sg = crate::text::trimmed_string(subgroup.as_str());
    push_str(&mut out, sg.as_str());
    Some(out)
}

/// The IPCR symbols of the complete `classification-ipcr` children.
pub open spec fn ipcr_symbols(es: Seq<XmlNode>) -> Seq<Seq<char>>
    decreases es.len(),
{
    if es.len() == 0 {
        Seq::empty()
    } else {
        ipcr_symbols(es.drop_last()) + opt_seq(ipcr_symbol(es.last()))
    }
}

pub open spec fn ipcr_values(n: XmlNode) -> Seq<Seq<char>> {
    ipcr_symbols(named_elements(spec_child_elements(n), "classification-ipcr"@))
}

/// `classifications-ipcr`: the first symbol as main, the rest as further.
pub open spec fn ipcr_of(c: ClassificationIpc, n: XmlNode) -> bool {
    let v = ipcr_values(n);
    &&& attrs_view(c.attributes@) == attrs_view(spec_attrs(n))
    &&& opt_view(c.main_classification) == (if v.len() > 0 {
        Some(v[0])
    } else {
        None
    })
    &&& c.further_classification.deep_view() == (if v.len() > 0 {
        v.skip(1)
    } else {
        Seq::empty()
    })
}

fn parse_classifications_ipcr(n: &XmlNode) -> (r: ClassificationIpc)
    ensures
        ipcr_of(r, *n),
{
    let cs = children(n);
    let mut values: Vec<String> = Vec::new();
    let mut i: usize = 0;
    assert(values.deep_view() =~= Seq::<Seq<char>>::empty());
    while i < cs.len()
        invariant
            i <= cs.len(),
            cs@ == spec_children(*n),
            values.deep_view() == ipcr_symbols(
                named_elements(elements_of(cs@.take(i as int)), "classification-ipcr"@),
            ),
        decreases cs.len() - i,
    {
        proof {
            lemma_elements_step(cs@, i as int);
            let es = elements_of(cs@.take(i as int));
            assert(es.push(cs@[i as int]).drop_last() =~= es);
            let ns = named_elements(es, "classification-ipcr"@);
            assert(ns.push(cs@[i as int]).drop_last() =~= ns);
        }
        let c = &cs[i];
        if let XmlNode::Element { .. } = c {
            if has_name(c, "classification-ipcr") {
                let ghost before = values.deep_view();
                match format_ipcr_symbol(c) {
                    Some(v) => {
                        crate::render::fields::push_string(&mut values, v);
                        assert(values.deep_view() =~= before + opt_seq(ipcr_symbol(*c)));
                    },
                    None => {
                        assert(values.deep_view() =~= before + opt_seq(ipcr_symbol(*c)));
                    },
                }
            }
        }
        i += 1;
    }
    assert(cs@.take(cs.len() as int) =~= cs@);
    if values.len() > 0 {
        let ghost v = values.deep_view();
        let mut rest: Vec<String> = Vec::new();
        let mut k: usize = 1;
        while k < values.len()
            invariant
                1 <= k <= values.len(),
                v == values.deep_view(),
                rest.deep_view() == v.subrange(1, k as int),
            decreases values.len() - k,
        {
            let ghost before = rest.deep_view();
            crate::render::fields::push_string(&mut rest, values[k].clone());
            assert(v[k as int] == values@[k as int]@);
            assert(v.subrange(1, k + 1) =~= before.push(values@[k as int]@));
            k += 1;
        }
        assert(v[0] == values@[0]@);
        assert(v.subrange(1, v.len() as int) =~= v.skip(1));
        ClassificationIpc {
            attributes: attributes(n),
            main_classification: Some(values[0].clone()),
            further_classification: rest,
        }
    } else {
        let r: Vec<String> = Vec::new();
        assert(r.deep_view() =~= Seq::<Seq<char>>::empty());
        ClassificationIpc { attributes: attributes(n), main_classification: None, further_classification: r }
    }
}

/// `classification-national`: main and further US classifications.
pub open spec fn us_of(c: ClassificationUs, n: XmlNode) -> bool {
    &&& attrs_view(c.attributes@) == attrs_view(spec_attrs(n))
    &&& opt_view(c.national_classification) == ct(n, "main-classification"@)
    &&& c.further_classification.deep_view() == further_values(n)
}

fn parse_classification_us(n: &XmlNode) -> (r: ClassificationUs)
    ensures
        us_of(r, *n),
{
    ClassificationUs {
        attributes: attributes(n),
        national_classification: text_of_child(n, "main-classification"),
        further_classification: parse_further(n),
    }
}

// ---------------------------------------------------------------------------
// The bibliographic block
// ---------------------------------------------------------------------------

/// An item of the technical information group.
pub enum TechItem {
    IpcLegacy(XmlNode),
    Ipcr(XmlNode),
    Us(XmlNode),
    Title(Seq<char>),
}

/// A bibliographic part, by the nodes it comes from.
pub enum BibItem {
    DocId(XmlNode),
    Opaque(XmlNode),
    Filing(Option<XmlNode>, Seq<Seq<char>>),
    Continuity(XmlNode),
    Applicants(XmlNode),
    Assignees(XmlNode),
    Tech(Seq<TechItem>),
}

/// A technical item joins a technical group that ends the list, or opens one.
pub open spec fn push_tech(items: Seq<BibItem>, t: TechItem) -> Seq<BibItem> {
    if items.len() > 0 && items.last() is Tech {
        items.update(items.len() - 1, BibItem::Tech(items.last()->Tech_0.push(t)))
    } else {
        items.push(BibItem::Tech(seq![t]))
    }
}

/// A series code joins filing data that ends the list, or stands alone.
pub open spec fn push_series(items: Seq<BibItem>, s: Seq<char>) -> Seq<BibItem> {
    if items.len() > 0 && items.last() is Filing {
        items.update(
            items.len() - 1,
            BibItem::Filing(items.last()->Filing_0, items.last()->Filing_1.push(s)),
        )
    } else {
        items.push(BibItem::Filing(None, seq![s]))
    }
}

/// The parts a `parties` group contributes.
pub open spec fn party_items(es: Seq<XmlNode>) -> Seq<BibItem>
    decreases es.len(),
{
    if es.len() == 0 {
        Seq::empty()
    } else {
        let e = es.last();
        party_items(es.drop_last()).push(
            if is_named(e, "applicants"@) || is_named(e, "us-applicants"@) {
                BibItem::Applicants(e)
            } else if is_named(e, "assignees"@) {
                BibItem::Assignees(e)
            } else {
                BibItem::Opaque(e)
            },
        )
    }
}

pub open spec fn bib_step(items: Seq<BibItem>, c: XmlNode) -> Seq<BibItem> {
    if is_named(c, "publication-reference"@) {
        match spec_child_element(c, "document-id"@) {
            Some(d) => items.push(BibItem::DocId(d)),
            None => items.push(BibItem::Opaque(c)),
        }
    } else if is_named(c, "application-reference"@) {
        items.push(BibItem::Filing(Some(c), Seq::empty()))
    } else if is_named(c, "us-related-documents"@) {
        items.push(BibItem::Continuity(c))
    } else if is_named(c, "parties"@) || is_named(c, "us-parties"@) {
        items + party_items(spec_child_elements(c))
    } else if is_named(c, "assignees"@) {
        items.push(BibItem::Assignees(c))
    } else if is_named(c, "us-application-series-code"@) {
        push_series(items, trimmed_text(c))
    } else if is_named(c, "classification-ipc"@) {
        push_tech(items, TechItem::IpcLegacy(c))
    } else if is_named(c, "classifications-ipcr"@) {
        push_tech(items, TechItem::Ipcr(c))
    } else if is_named(c, "classification-national"@) {
        push_tech(items, TechItem::Us(c))
    } else if is_named(c, "invention-title"@) {
        push_tech(items, TechItem::Title(trimmed_text(c)))
    } else {
        items.push(BibItem::Opaque(c))
    }
}

pub open spec fn bib_fold(es: Seq<XmlNode>) -> Seq<BibItem>
    decreases es.len(),
{
    if es.len() == 0 {
        Seq::empty()
    } else {
        bib_step(bib_fold(es.drop_last()), es.last())
    }
}

pub open spec fn tech_item_ok(p: TechnicalInformationPart, t: TechItem) -> bool {
    match t {
        TechItem::IpcLegacy(c) => p matches TechnicalInformationPart::ClassificationIpc(x)
            && ipc_legacy_of(x, c),
        TechItem::Ipcr(c) => p matches TechnicalInformationPart::ClassificationIpc(x) && ipcr_of(
            x,
            c,
        ),
        TechItem::Us(c) => p matches TechnicalInformationPart::ClassificationUs(x) && us_of(x, c),
        TechItem::Title(s) => p matches TechnicalInformationPart::TitleOfInvention(v) && v@ == s,
    }
}

pub open spec fn tech_items_ok(ps: Seq<TechnicalInformationPart>, ts: Seq<TechItem>) -> bool {
    &&& ps.len() == ts.len()
    &&& forall|i: int| 0 <= i < ts.len() ==> #[trigger] tech_item_ok(ps[i], ts[i])
}

pub open spec fn bib_item_ok(p: BibliographicPart, item: BibItem) -> bool {
    match item {
        BibItem::DocId(d) => p matches BibliographicPart::DocumentId(x) && doc_id_of(x, d),
        BibItem::Opaque(c) => p matches BibliographicPart::Opaque(o) && fragment_of(o.xml, c),
        BibItem::Filing(r, ss) => p matches BibliographicPart::DomesticFilingData(d) && match r {
            Some(rn) => app_ref_of(d, rn, ss),
            None => series_only_of(d, ss),
        },
        BibItem::Continuity(c) => p matches BibliographicPart::ContinuityData(d) && continuity_of(
            d,
            c,
        ),
        BibItem::Applicants(e) => p matches BibliographicPart::Applicants(np) && named_parties_of(
            np,
            e,
            applicant_items(),
        ),
        BibItem::Assignees(e) => p matches BibliographicPart::Assignees(np) && named_parties_of(
            np,
            e,
            assignee_items(),
        ),
        BibItem::Tech(ts) => p matches BibliographicPart::TechnicalInformation(t)
            && t.attributes@.len() == 0 && tech_items_ok(t.parts@, ts),
    }
}

pub open spec fn bib_items_ok(ps: Seq<BibliographicPart>, items: Seq<BibItem>) -> bool {
    &&& ps.len() == items.len()
    &&& forall|i: int| 0 <= i < items.len() ==> #[trigger] bib_item_ok(ps[i], items[i])
}

/// `us-bibliographic-data-application`: identifiers, filing data,
/// continuity, parties, classifications and title, in document order;
/// classifications and title grouped, series codes joined to the filing data
/// they follow.
pub open spec fn biblio_of(b: BibliographicInformation, n: XmlNode) -> bool {
    attrs_view(b.attributes@) == attrs_view(spec_attrs(n)) && bib_items_ok(
        b.parts@,
        bib_fold(spec_child_elements(n)),
    )
}

fn push_technical_information(
    parts: &mut Vec<BibliographicPart>,
    part: TechnicalInformationPart,
    Ghost(items): Ghost<Seq<BibItem>>,
    Ghost(t): Ghost<TechItem>,
)
    requires
        bib_items_ok(old(parts)@, items),
        tech_item_ok(part, t),
    ensures
        bib_items_ok(final(parts)@, push_tech(items, t)),
{
    let n = parts.len();
    if n > 0 && matches!(parts[n - 1], BibliographicPart::TechnicalInformation(_)) {
        assert(items.last() is Tech) by {
            assert(bib_item_ok(parts@[n - 1], items[n - 1]));
        }
        let last = parts.pop().unwrap();
        assert(last == old(parts)@[n - 1]);
        assert(bib_item_ok(old(parts)@[n - 1], items[n - 1]));
        assert(items[n - 1] == items.last());
        let ghost p1 = parts@;
        match last {
            BibliographicPart::TechnicalInformation(mut value) => {
                assert(tech_items_ok(value.parts@, items.last()->Tech_0));
                let ghost tp0 = value.parts@;
                value.parts.push(part);
                parts.push(BibliographicPart::TechnicalInformation(value));
                proof {
                    let ts = items.last()->Tech_0.push(t);
                    let it2 = push_tech(items, t);
                    assert forall|j: int| 0 <= j < ts.len() implies #[trigger] tech_item_ok(
                        value.parts@[j],
                        ts[j],
                    ) by {
                        if j < tp0.len() {
                            assert(value.parts@[j] == tp0[j]);
                        }
                    }
                    assert forall|j: int| 0 <= j < it2.len() implies #[trigger] bib_item_ok(
                        parts@[j],
                        it2[j],
                    ) by {
                        if j < n - 1 {
                            assert(parts@[j] == old(parts)@[j]);
                        }
                    }
                }
            },
            other => {
                parts.push(other);
            },
        }
    } else {
        let ghost p0 = parts@;
        parts.push(
            BibliographicPart::TechnicalInformation(
                TechnicalInformation { attributes: Vec::new(), parts: vec![part] },
            ),
        );
        proof {
            let it2 = push_tech(items, t);
            if n > 0 {
                assert(!(items.last() is Tech)) by {
                    assert(bib_item_ok(p0[n - 1], items[n - 1]));
                }
            }
            assert forall|j: int| 0 <= j < it2.len() implies #[trigger] bib_item_ok(
                parts@[j],
                it2[j],
            ) by {
                if j < n {
                    assert(parts@[j] == p0[j]);
                } else {
                    let tv = parts@[j]->TechnicalInformation_0;
                    assert(tech_item_ok(tv.parts@[0], seq![t][0]));
                }
            }
        }
    }
}

fn push_series_code(
    parts: &mut Vec<BibliographicPart>,
    code: String,
    Ghost(items): Ghost<Seq<BibItem>>,
)
    requires
        bib_items_ok(old(parts)@, items),
    ensures
        bib_items_ok(final(parts)@, push_series(items, code@)),
{
    let n = parts.len();
    if n > 0 && matches!(parts[n - 1], BibliographicPart::DomesticFilingData(_)) {
        assert(items.last() is Filing) by {
            assert(bib_item_ok(parts@[n - 1], items[n - 1]));
        }
        let last = parts.pop().unwrap();
        assert(last == old(parts)@[n - 1]);
        assert(bib_item_ok(old(parts)@[n - 1], items[n - 1]));
        assert(items[n - 1] == items.last());
        match last {
            BibliographicPart::DomesticFilingData(mut value) => {
                let ghost dp0 = value.parts@;
                let ghost v0 = value;
                value.parts.push(DomesticFilingPart::ApplicationNumberSeriesCode(code));
                parts.push(BibliographicPart::DomesticFilingData(value));
                proof {
                    let it2 = push_series(items, code@);
                    let r = items.last()->Filing_0;
                    let ss = items.last()->Filing_1;
                    let ss2 = ss.push(code@);
                    match r {
                        Some(rn) => {
                            assert(app_ref_of(v0, rn, ss));
                            let did = spec_child_element(rn, "document-id"@);
                            let base: int = if opt_ct(did, "date"@) is Some {
                                2
                            } else {
                                1
                            };
                            assert(value.parts@[0] == dp0[0]);
                            if opt_ct(did, "date"@) is Some {
                                assert(value.parts@[1] == dp0[1]);
                            }
                            assert(value.parts@.skip(base) =~= dp0.skip(base).push(value.parts@.last()));
                            lemma_series_parts_push(dp0.skip(base), ss, value.parts@.last(), code@);
                        },
                        None => {
                            assert(series_only_of(v0, ss));
                            lemma_series_parts_push(dp0, ss, value.parts@.last(), code@);
                        },
                    }
                    assert forall|j: int| 0 <= j < it2.len() implies #[trigger] bib_item_ok(
                        parts@[j],
                        it2[j],
                    ) by {
                        if j < n - 1 {
                            assert(parts@[j] == old(parts)@[j]);
                        }
                    }
                }
            },
            other => {
                parts.push(other);
            },
        }
    } else {
        let ghost p0 = parts@;
        parts.push(
            BibliographicPart::DomesticFilingData(
                DomesticFilingData {
                    attributes: Vec::new(),
                    parts: vec![DomesticFilingPart::ApplicationNumberSeriesCode(code)],
                },
            ),
        );
        proof {
            let it2 = push_series(items, code@);
            if n > 0 {
                assert(!(items.last() is Filing)) by {
                    assert(bib_item_ok(p0[n - 1], items[n - 1]));
                }
            }
            assert forall|j: int| 0 <= j < it2.len() implies #[trigger] bib_item_ok(
                parts@[j],
                it2[j],
            ) by {
                if j < n {
                    assert(parts@[j] == p0[j]);
                } else {
                    let dv = parts@[j]->DomesticFilingData_0;
                    assert(series_part_ok(dv.parts@[0], seq![code@][0]));
                }
            }
        }
    }
}

fn push_bib(parts: &mut Vec<BibliographicPart>, p: BibliographicPart, Ghost(items): Ghost<Seq<BibItem>>, Ghost(item): Ghost<BibItem>)
    requires
        bib_items_ok(old(parts)@, items),
        bib_item_ok(p, item),
    ensures
        bib_items_ok(final(parts)@, items.push(item)),
{
    let ghost p0 = parts@;
    parts.push(p);
    assert forall|j: int| 0 <= j < items.len() + 1 implies #[trigger] bib_item_ok(
        parts@[j],
        items.push(item)[j],
    ) by {
        if j < p0.len() {
            assert(parts@[j] == p0[j]);
        }
    }
}

fn parse_parties_into(parts: &mut Vec<BibliographicPart>, n: &XmlNode, Ghost(items): Ghost<Seq<BibItem>>)
    requires
        bib_items_ok(old(parts)@, items),
    ensures
        bib_items_ok(final(parts)@, items + party_items(spec_child_elements(*n))),
{
    let cs = children(n);
    let mut i: usize = 0;
    assert(items + party_items(elements_of(cs@.take(0))) =~= items);
    while i < cs.len()
        invariant
            i <= cs.len(),
            cs@ == spec_children(*n),
            bib_items_ok(parts@, items + party_items(elements_of(cs@.take(i as int)))),
        decreases cs.len() - i,
    {
        proof {
            lemma_elements_step(cs@, i as int);
        }
        let ghost cur = items + party_items(elements_of(cs@.take(i as int)));
        let c = &cs[i];
        if let XmlNode::Element { .. } = c {
            let ghost es = elements_of(cs@.take(i as int));
            assert(es.push(*c).drop_last() =~= es);
            if has_name(c, "applicants") || has_name(c, "us-applicants") {
                push_bib(parts, BibliographicPart::Applicants(parse_applicants(c)), Ghost(cur), Ghost(BibItem::Applicants(*c)));
            } else if has_name(c, "assignees") {
                push_bib(parts, BibliographicPart::Assignees(parse_assignees(c)), Ghost(cur), Ghost(BibItem::Assignees(*c)));
            } else {
                push_bib(parts, BibliographicPart::Opaque(opaque_block(c)), Ghost(cur), Ghost(BibItem::Opaque(*c)));
            }
            assert(items + party_items(es.push(*c)) =~= cur.push(party_items(es.push(*c)).last()));
        }
        i += 1;
    }
    assert(cs@.take(cs.len() as int) =~= cs@);
}

fn bib_part_from(parts: &mut Vec<BibliographicPart>, c: &XmlNode, Ghost(items): Ghost<Seq<BibItem>>)
    requires
        bib_items_ok(old(parts)@, items),
        *c is Element,
    ensures
        bib_items_ok(final(parts)@, bib_step(items, *c)),
{
    if has_name(c, "publication-reference") {
        match child_element(c, "document-id") {
            Some(d) => push_bib(parts, BibliographicPart::DocumentId(parse_document_id(d)), Ghost(items), Ghost(BibItem::DocId(*d))),
            None => push_bib(parts, BibliographicPart::Opaque(opaque_block(c)), Ghost(items), Ghost(BibItem::Opaque(*c))),
        }
    } else if has_name(c, "application-reference") {
        push_bib(parts, BibliographicPart::DomesticFilingData(parse_application_reference(c)), Ghost(items), Ghost(BibItem::Filing(Some(*c), Seq::empty())));
    } else if has_name(c, "us-related-documents") {
        push_bib(parts, BibliographicPart::ContinuityData(parse_continuity_data(c)), Ghost(items), Ghost(BibItem::Continuity(*c)));
    } else if has_name(c, "parties") || has_name(c, "us-parties") {
        parse_parties_into(parts, c, Ghost(items));
    } else if has_name(c, "assignees") {
        push_bib(parts, BibliographicPart::Assignees(parse_assignees(c)), Ghost(items), Ghost(BibItem::Assignees(*c)));
    } else if has_name(c, "us-application-series-code") {
        push_series_code(parts, trimmed_text_of(c), Ghost(items));
    } else if has_name(c, "classification-ipc") {
        push_technical_information(parts, TechnicalInformationPart::ClassificationIpc(parse_classification_ipc_legacy(c)), Ghost(items), Ghost(TechItem::IpcLegacy(*c)));
    } else if has_name(c, "classifications-ipcr") {
        push_technical_information(parts, TechnicalInformationPart::ClassificationIpc(parse_classifications_ipcr(c)), Ghost(items), Ghost(TechItem::Ipcr(*c)));
    } else if has_name(c, "classification-national") {
        push_technical_information(parts, TechnicalInformationPart::ClassificationUs(parse_classification_us(c)), Ghost(items), Ghost(TechItem::Us(*c)));
    } else if has_name(c, "invention-title") {
        push_technical_information(parts, TechnicalInformationPart::TitleOfInvention(trimmed_text_of(c)), Ghost(items), Ghost(TechItem::Title(trimmed_text(*c))));
    } else {
        push_bib(parts, BibliographicPart::Opaque(opaque_block(c)), Ghost(items), Ghost(BibItem::Opaque(*c)));
    }
}

pub fn parse_bibliographic_information(n: &XmlNode) -> (r: BibliographicInformation)
    ensures
        biblio_of(r, *n),
{
    let cs = children(n);
    let mut parts: Vec<BibliographicPart> = Vec::new();
    let mut i: usize = 0;
    while i < cs.len()
        invariant
            i <= cs.len(),
            cs@ == spec_children(*n),
            bib_items_ok(parts@, bib_fold(elements_of(cs@.take(i as int)))),
        decreases cs.len() - i,
    {
        proof {
            lemma_elements_step(cs@, i as int);
        }
        let c = &cs[i];
        if let XmlNode::Element { .. } = c {
            let ghost es = elements_of(cs@.take(i as int));
            assert(es.push(*c).drop_last() =~= es);
            bib_part_from(&mut parts, c, Ghost(bib_fold(es)));
        }
        i += 1;
    }
    assert(cs@.take(cs.len() as int) =~= cs@);
    BibliographicInformation { attributes: attributes(n), parts }
}

// ---------------------------------------------------------------------------
// Writing: runs and blocks
// ---------------------------------------------------------------------------

pub open spec fn inline_xml(tag: Seq<char>, attrs: Seq<XmlAttribute>, content: Seq<Run>) -> Seq<
    char,
>
    decreases content, 1nat,
{
    spec_start_tag(tag, attrs) + runs_xml(content) + spec_end_tag(tag)
}

/// Runs as XML: text escaped, inline markup as its element, verbatim runs as
/// written.
pub open spec fn runs_xml(rs: Seq<Run>) -> Seq<char>
    decreases rs, 0nat,
{
    if rs.len() == 0 {
        Seq::empty()
    } else {
        runs_xml(rs.drop_last()) + match rs.last() {
            Run::Text(v) => spec_escape_text(v@),
            Run::Number(v) => inline_xml("number"@, v.attributes@, v.content@),
            Run::CrossReference(v) => inline_xml("cross-reference"@, v.attributes@, v.content@),
            Run::FigureReference(v) => inline_xml("figref"@, v.attributes@, v.content@),
            Run::DependentClaimReference(v) => inline_xml(
                "dependent-claim-reference"@,
                v.attributes@,
                v.content@,
            ),
            Run::Bold(v) => inline_xml("b"@, v.attributes@, v.content@),
            Run::Italic(v) => inline_xml("i"@, v.attributes@, v.content@),
            Run::Highlight(v) => inline_xml("highlight"@, v.attributes@, v.content@),
            Run::ClaimText(v) => inline_xml("claim-text"@, v.attributes@, v.content@),
            Run::Opaque(v) => spec_fragment_xml(v.xml),
        }
    }
}

fn write_inline_container(output: &mut String, tag: &str, attributes: &Vec<XmlAttribute>, content: &Vec<Run>)
    ensures
        final(output)@ == old(output)@ + inline_xml(tag@, attributes@, content@),
    decreases content@, 1nat,
{
    start_tag(output, tag, attributes.as_slice());
    write_runs(output, content);
    end_tag(output, tag);
}

fn write_runs(output: &mut String, runs: &Vec<Run>)
    ensures
        final(output)@ == old(output)@ + runs_xml(runs@),
    decreases runs@, 0nat,
{
    let mut i: usize = 0;
    while i < runs.len()
        invariant
            i <= runs.len(),
            output@ == old(output)@ + runs_xml(runs@.take(i as int)),
        decreases runs.len() - i,
    {
        assert(runs@.take(i + 1).drop_last() =~= runs@.take(i as int));
        proof {
            assert(decreases_to!(runs@ => runs@[i as int]));
        }
        match &runs[i] {
            Run::Text(v) => {
                let e = crate::source::xml_write::escape_text(v.as_str());
                push_str(output, e.as_str());
            },
            Run::Number(v) => {
                proof { assert(decreases_to!(runs@[i as int] => v.content@)) by { assert(decreases_to!(v.content => v.content@)); } }
                write_inline_container(output, "number", &v.attributes, &v.content)
            },
            Run::CrossReference(v) => {
                proof { assert(decreases_to!(runs@[i as int] => v.content@)) by { assert(decreases_to!(v.content => v.content@)); } }
                write_inline_container(output, "cross-reference", &v.attributes, &v.content)
            },
            Run::FigureReference(v) => {
                proof { assert(decreases_to!(runs@[i as int] => v.content@)) by { assert(decreases_to!(v.content => v.content@)); } }
                write_inline_container(output, "figref", &v.attributes, &v.content)
            },
            Run::DependentClaimReference(v) => {
                proof { assert(decreases_to!(runs@[i as int] => v.content@)) by { assert(decreases_to!(v.content => v.content@)); } }
                write_inline_container(output, "dependent-claim-reference", &v.attributes, &v.content)
            },
            Run::Bold(v) => {
                proof { assert(decreases_to!(runs@[i as int] => v.content@)) by { assert(decreases_to!(v.content => v.content@)); } }
                write_inline_container(output, "b", &v.attributes, &v.content)
            },
            Run::Italic(v) => {
                proof { assert(decreases_to!(runs@[i as int] => v.content@)) by { assert(decreases_to!(v.content => v.content@)); } }
                write_inline_container(output, "i", &v.attributes, &v.content)
            },
            Run::Highlight(v) => {
                proof { assert(decreases_to!(runs@[i as int] => v.content@)) by { assert(decreases_to!(v.content => v.content@)); } }
                write_inline_container(output, "highlight", &v.attributes, &v.content)
            },
            Run::ClaimText(v) => {
                proof { assert(decreases_to!(runs@[i as int] => v.content@)) by { assert(decreases_to!(v.content => v.content@)); } }
                write_inline_container(output, "claim-text", &v.attributes, &v.content)
            },
            Run::Opaque(v) => write_xml_fragment(output, &v.xml),
        }
        i += 1;
    }
    assert(runs@.take(runs.len() as int) =~= runs@);
}

pub open spec fn heading_xml(h: Heading) -> Seq<char> {
    inline_xml("heading"@, h.attributes@, h.content@)
}

pub open spec fn paragraph_xml(p: Paragraph) -> Seq<char> {
    inline_xml("p"@, p.attributes@, p.content@)
}

fn write_heading(output: &mut String, value: &Heading)
    ensures
        final(output)@ == old(output)@ + heading_xml(*value),
{
    write_inline_container(output, "heading", &value.attributes, &value.content);
}

fn write_paragraph(output: &mut String, value: &Paragraph)
    ensures
        final(output)@ == old(output)@ + paragraph_xml(*value),
{
    write_inline_container(output, "p", &value.attributes, &value.content);
}

pub open spec fn claims_part_xml(p: ClaimsPart) -> Seq<char> {
    match p {
        ClaimsPart::Heading(h) => heading_xml(h),
        ClaimsPart::Claim(c) => inline_xml("claim"@, c.attributes@, c.content@),
        ClaimsPart::Opaque(o) => spec_fragment_xml(o.xml),
    }
}

pub open spec fn claims_xml(c: Claims) -> Seq<char> {
    spec_start_tag("claims"@, c.attributes@) + concat_map(c.parts@, |p: ClaimsPart| claims_part_xml(p))
        + spec_end_tag("claims"@)
}

fn write_claims(output: &mut String, value: &Claims)
    ensures
        final(output)@ == old(output)@ + claims_xml(*value),
{
    start_tag(output, "claims", value.attributes.as_slice());
    let ghost start = output@;
    let ghost f = |p: ClaimsPart| claims_part_xml(p);
    let mut i: usize = 0;
    while i < value.parts.len()
        invariant
            i <= value.parts.len(),
            f == (|p: ClaimsPart| claims_part_xml(p)),
            output@ == start + concat_map(value.parts@.take(i as int), f),
        decreases value.parts.len() - i,
    {
        proof {
            lemma_concat_map_step(value.parts@, f, i as int);
        }
        match &value.parts[i] {
            ClaimsPart::Heading(h) => write_heading(output, h),
            ClaimsPart::Claim(c) => write_inline_container(output, "claim", &c.attributes, &c.content),
            ClaimsPart::Opaque(o) => write_xml_fragment(output, &o.xml),
        }
        i += 1;
    }
    proof {
        lemma_concat_map_all(value.parts@, f);
    }
    end_tag(output, "claims");
}

pub open spec fn figure_part_xml(p: FigurePart) -> Seq<char> {
    match p {
        FigurePart::Image(m) => spec_start_empty_tag("img"@, m.attributes@),
        FigurePart::Opaque(o) => spec_fragment_xml(o.xml),
    }
}

pub open spec fn drawings_part_xml(p: DrawingsPart) -> Seq<char> {
    match p {
        DrawingsPart::Heading(h) => heading_xml(h),
        DrawingsPart::RepresentativeFigure(v) => spec_text_element("representative-figure"@, v@),
        DrawingsPart::Figure(f) => spec_start_tag("figure"@, f.attributes@) + concat_map(
            f.parts@,
            |q: FigurePart| figure_part_xml(q),
        ) + spec_end_tag("figure"@),
        DrawingsPart::Opaque(o) => spec_fragment_xml(o.xml),
    }
}

pub open spec fn drawings_xml(d: Drawings) -> Seq<char> {
    spec_start_tag("drawings"@, d.attributes@) + concat_map(
        d.parts@,
        |p: DrawingsPart| drawings_part_xml(p),
    ) + spec_end_tag("drawings"@)
}

fn write_figure(output: &mut String, value: &Figure)
    ensures
        final(output)@ == old(output)@ + drawings_part_xml(DrawingsPart::Figure(*value)),
{
    start_tag(output, "figure", value.attributes.as_slice());
    let ghost start = output@;
    let ghost f = |q: FigurePart| figure_part_xml(q);
    let mut i: usize = 0;
    while i < value.parts.len()
        invariant
            i <= value.parts.len(),
            f == (|q: FigurePart| figure_part_xml(q)),
            output@ == start + concat_map(value.parts@.take(i as int), f),
        decreases value.parts.len() - i,
    {
        proof {
            lemma_concat_map_step(value.parts@, f, i as int);
        }
        match &value.parts[i] {
            FigurePart::Image(m) => start_empty_tag(output, "img", m.attributes.as_slice()),
            FigurePart::Opaque(o) => write_xml_fragment(output, &o.xml),
        }
        i += 1;
    }
    proof {
        lemma_concat_map_all(value.parts@, f);
    }
    end_tag(output, "figure");
}

fn write_drawings(output: &mut String, value: &Drawings)
    ensures
        final(output)@ == old(output)@ + drawings_xml(*value),
{
    start_tag(output, "drawings", value.attributes.as_slice());
    let ghost start = output@;
    let ghost f = |p: DrawingsPart| drawings_part_xml(p);
    let mut i: usize = 0;
    while i < value.parts.len()
        invariant
            i <= value.parts.len(),
            f == (|p: DrawingsPart| drawings_part_xml(p)),
            output@ == start + concat_map(value.parts@.take(i as int), f),
        decreases value.parts.len() - i,
    {
        proof {
            lemma_concat_map_step(value.parts@, f, i as int);
        }
        match &value.parts[i] {
            DrawingsPart::Heading(h) => write_heading(output, h),
            DrawingsPart::RepresentativeFigure(v) => write_text_element(
                output,
                "representative-figure",
                v.as_str(),
            ),
            DrawingsPart::Figure(fig) => write_figure(output, fig),
            DrawingsPart::Opaque(o) => write_xml_fragment(output, &o.xml),
        }
        i += 1;
    }
    proof {
        lemma_concat_map_all(value.parts@, f);
    }
    end_tag(output, "drawings");
}

pub open spec fn abstract_part_xml(p: AbstractPart) -> Seq<char> {
    match p {
        AbstractPart::Paragraph(x) => paragraph_xml(x),
        AbstractPart::Opaque(o) => spec_fragment_xml(o.xml),
    }
}

pub open spec fn abstract_xml(a: AbstractSection) -> Seq<char> {
    spec_start_tag("abstract"@, a.attributes@) + concat_map(
        a.parts@,
        |p: AbstractPart| abstract_part_xml(p),
    ) + spec_end_tag("abstract"@)
}

fn write_abstract(output: &mut String, value: &AbstractSection)
    ensures
        final(output)@ == old(output)@ + abstract_xml(*value),
{
    start_tag(output, "abstract", value.attributes.as_slice());
    let ghost start = output@;
    let ghost f = |p: AbstractPart| abstract_part_xml(p);
    let mut i: usize = 0;
    while i < value.parts.len()
        invariant
            i <= value.parts.len(),
            f == (|p: AbstractPart| abstract_part_xml(p)),
            output@ == start + concat_map(value.parts@.take(i as int), f),
        decreases value.parts.len() - i,
    {
        proof {
            lemma_concat_map_step(value.parts@, f, i as int);
        }
        match &value.parts[i] {
            AbstractPart::Paragraph(x) => write_paragraph(output, x),
            AbstractPart::Opaque(o) => write_xml_fragment(output, &o.xml),
        }
        i += 1;
    }
    proof {
        lemma_concat_map_all(value.parts@, f);
    }
    end_tag(output, "abstract");
}

pub open spec fn section_part_xml(p: SectionPart) -> Seq<char> {
    match p {
        SectionPart::Heading(h) => heading_xml(h),
        SectionPart::Paragraph(x) => paragraph_xml(x),
        SectionPart::Opaque(o) => spec_fragment_xml(o.xml),
    }
}

pub open spec fn desc_section_part_xml(p: DescriptionSectionPart) -> Seq<char> {
    match p {
        DescriptionSectionPart::Section(s) => concat_map(
            s.parts@,
            |q: SectionPart| section_part_xml(q),
        ),
        DescriptionSectionPart::Opaque(o) => spec_fragment_xml(o.xml),
    }
}

pub open spec fn cross_reference_part_xml(p: crate::model::description::CrossReferencePart) -> Seq<
    char,
> {
    match p {
        crate::model::description::CrossReferencePart::Heading(h) => heading_xml(h),
        crate::model::description::CrossReferencePart::Paragraph(x) => paragraph_xml(x),
        crate::model::description::CrossReferencePart::Opaque(o) => spec_fragment_xml(o.xml),
    }
}

/// A description part: its sections' contents, markers and stray nodes as
/// written; no wrapping element.
pub open spec fn description_part_xml(p: DescriptionPart) -> Seq<char> {
    match p {
        DescriptionPart::SummaryOfInvention(v) => concat_map(
            v.parts@,
            |q: DescriptionSectionPart| desc_section_part_xml(q),
        ),
        DescriptionPart::BriefDescriptionOfDrawings(v) => concat_map(
            v.parts@,
            |q: DescriptionSectionPart| desc_section_part_xml(q),
        ),
        DescriptionPart::DetailedDescription(v) => concat_map(
            v.parts@,
            |q: DescriptionSectionPart| desc_section_part_xml(q),
        ),
        DescriptionPart::CrossReferenceToRelatedApplications(v) => concat_map(
            v.parts@,
            |q: crate::model::description::CrossReferencePart| cross_reference_part_xml(q),
        ),
        DescriptionPart::Opaque(o) => spec_fragment_xml(o.xml),
    }
}

pub open spec fn description_xml(d: Description) -> Seq<char> {
    spec_start_tag("description"@, d.attributes@) + concat_map(
        d.parts@,
        |p: DescriptionPart| description_part_xml(p),
    ) + spec_end_tag("description"@)
}

fn write_section(output: &mut String, value: &Section)
    ensures
        final(output)@ == old(output)@ + concat_map(
            value.parts@,
            |q: SectionPart| section_part_xml(q),
        ),
{
    let ghost start = output@;
    let ghost f = |q: SectionPart| section_part_xml(q);
    let mut i: usize = 0;
    while i < value.parts.len()
        invariant
            i <= value.parts.len(),
            f == (|q: SectionPart| section_part_xml(q)),
            output@ == start + concat_map(value.parts@.take(i as int), f),
        decreases value.parts.len() - i,
    {
        proof {
            lemma_concat_map_step(value.parts@, f, i as int);
        }
        match &value.parts[i] {
            SectionPart::Heading(h) => write_heading(output, h),
            SectionPart::Paragraph(x) => write_paragraph(output, x),
            SectionPart::Opaque(o) => write_xml_fragment(output, &o.xml),
        }
        i += 1;
    }
    proof {
        lemma_concat_map_all(value.parts@, f);
    }
}

fn write_section_parts(output: &mut String, parts: &Vec<DescriptionSectionPart>)
    ensures
        final(output)@ == old(output)@ + concat_map(
            parts@,
            |q: DescriptionSectionPart| desc_section_part_xml(q),
        ),
{
    let ghost start = output@;
    let ghost f = |q: DescriptionSectionPart| desc_section_part_xml(q);
    let mut i: usize = 0;
    while i < parts.len()
        invariant
            i <= parts.len(),
            f == (|q: DescriptionSectionPart| desc_section_part_xml(q)),
            output@ == start + concat_map(parts@.take(i as int), f),
        decreases parts.len() - i,
    {
        proof {
            lemma_concat_map_step(parts@, f, i as int);
        }
        match &parts[i] {
            DescriptionSectionPart::Section(sec) => write_section(output, sec),
            DescriptionSectionPart::Opaque(o) => write_xml_fragment(output, &o.xml),
        }
        i += 1;
    }
    proof {
        lemma_concat_map_all(parts@, f);
    }
}

fn write_cross_reference(output: &mut String, parts: &Vec<crate::model::description::CrossReferencePart>)
    ensures
        final(output)@ == old(output)@ + concat_map(
            parts@,
            |q: crate::model::description::CrossReferencePart| cross_reference_part_xml(q),
        ),
{
    let ghost start = output@;
    let ghost f = |q: crate::model::description::CrossReferencePart| cross_reference_part_xml(q);
    let mut i: usize = 0;
    while i < parts.len()
        invariant
            i <= parts.len(),
            f == (|q: crate::model::description::CrossReferencePart| cross_reference_part_xml(q)),
            output@ == start + concat_map(parts@.take(i as int), f),
        decreases parts.len() - i,
    {
        proof {
            lemma_concat_map_step(parts@, f, i as int);
        }
        match &parts[i] {
            crate::model::description::CrossReferencePart::Heading(h) => write_heading(output, h),
            crate::model::description::CrossReferencePart::Paragraph(x) => write_paragraph(output, x),
            crate::model::description::CrossReferencePart::Opaque(o) => write_xml_fragment(output, &o.xml),
        }
        i += 1;
    }
    proof {
        lemma_concat_map_all(parts@, f);
    }
}

fn write_description(output: &mut String, value: &Description)
    ensures
        final(output)@ == old(output)@ + description_xml(*value),
{
    start_tag(output, "description", value.attributes.as_slice());
    let ghost start = output@;
    let ghost f = |p: DescriptionPart| description_part_xml(p);
    let mut i: usize = 0;
    while i < value.parts.len()
        invariant
            i <= value.parts.len(),
            f == (|p: DescriptionPart| description_part_xml(p)),
            output@ == start + concat_map(value.parts@.take(i as int), f),
        decreases value.parts.len() - i,
    {
        proof {
            lemma_concat_map_step(value.parts@, f, i as int);
        }
        match &value.parts[i] {
            DescriptionPart::SummaryOfInvention(v) => write_section_parts(output, &v.parts),
            DescriptionPart::BriefDescriptionOfDrawings(v) => write_section_parts(output, &v.parts),
            DescriptionPart::DetailedDescription(v) => write_section_parts(output, &v.parts),
            DescriptionPart::CrossReferenceToRelatedApplications(v) => write_cross_reference(output, &v.parts),
            DescriptionPart::Opaque(o) => write_xml_fragment(output, &o.xml),
        }
        i += 1;
    }
    proof {
        lemma_concat_map_all(value.parts@, f);
    }
    end_tag(output, "description");
}

// ---------------------------------------------------------------------------
// Writing: the bibliographic block
// ---------------------------------------------------------------------------

pub open spec fn document_id_xml(d: DocumentId) -> Seq<char> {
    spec_start_tag("document-id"@, Seq::empty()) + opt_xml(
        d.country_code,
        |v: Seq<char>| spec_text_element("country"@, v),
    ) + spec_text_element("doc-number"@, d.doc_number@) + opt_xml(
        d.kind_code,
        |v: Seq<char>| spec_text_element("kind"@, v),
    ) + opt_xml(d.document_date, |v: Seq<char>| spec_text_element("date"@, v))
        + spec_end_tag("document-id"@)
}

fn write_document_id(output: &mut String, value: &DocumentId)
    ensures
        final(output)@ == old(output)@ + document_id_xml(*value),
{
    let empty: Vec<XmlAttribute> = Vec::new();
    start_tag(output, "document-id", empty.as_slice());
    write_opt_text_element(output, "country", &value.country_code);
    write_text_element(output, "doc-number", value.doc_number.as_str());
    write_opt_text_element(output, "kind", &value.kind_code);
    write_opt_text_element(output, "date", &value.document_date);
    end_tag(output, "document-id");
    assert(output@ =~= old(output)@ + document_id_xml(*value));
}

/// The first application number that has a document number.
pub open spec fn first_app_number(ps: Seq<DomesticFilingPart>, i: int) -> Option<String>
    decreases ps.len() - i,
{
    if i < 0 || i >= ps.len() {
        None
    } else {
        match ps[i] {
            DomesticFilingPart::ApplicationNumber(a) => match a.doc_number {
                Some(n) => Some(n),
                None => first_app_number(ps, i + 1),
            },
            _ => first_app_number(ps, i + 1),
        }
    }
}

pub open spec fn first_filing_date(ps: Seq<DomesticFilingPart>, i: int) -> Option<String>
    decreases ps.len() - i,
{
    if i < 0 || i >= ps.len() {
        None
    } else {
        match ps[i] {
            DomesticFilingPart::FilingDate(v) => Some(v),
            _ => first_filing_date(ps, i + 1),
        }
    }
}

pub open spec fn first_series_code(ps: Seq<DomesticFilingPart>, i: int) -> Option<String>
    decreases ps.len() - i,
{
    if i < 0 || i >= ps.len() {
        None
    } else {
        match ps[i] {
            DomesticFilingPart::ApplicationNumberSeriesCode(v) => Some(v),
            _ => first_series_code(ps, i + 1),
        }
    }
}

/// Filing data as `application-reference` (its first application number and
/// filing date) and then the first series code.
pub open spec fn domestic_xml(d: DomesticFilingData) -> Seq<char> {
    spec_start_tag("application-reference"@, d.attributes@) + spec_start_tag(
        "document-id"@,
        Seq::empty(),
    ) + opt_xml(first_app_number(d.parts@, 0), |v: Seq<char>| spec_text_element("doc-number"@, v))
        + opt_xml(first_filing_date(d.parts@, 0), |v: Seq<char>| spec_text_element("date"@, v))
        + spec_end_tag("document-id"@) + spec_end_tag("application-reference"@) + opt_xml(
        first_series_code(d.parts@, 0),
        |v: Seq<char>| spec_text_element("us-application-series-code"@, v),
    )
}

pub(crate) fn find_app_number(ps: &Vec<DomesticFilingPart>) -> (r: Option<String>)
    ensures
        r == first_app_number(ps@, 0),
{
    let mut i: usize = 0;
    while i < ps.len()
        invariant
            i <= ps.len(),
            first_app_number(ps@, 0) == first_app_number(ps@, i as int),
        decreases ps.len() - i,
    {
        if let DomesticFilingPart::ApplicationNumber(a) = &ps[i] {
            if let Some(n) = &a.doc_number {
                return Some(n.clone());
            }
        }
        i += 1;
    }
    None
}

pub(crate) fn find_filing_date(ps: &Vec<DomesticFilingPart>) -> (r: Option<String>)
    ensures
        r == first_filing_date(ps@, 0),
{
    let mut i: usize = 0;
    while i < ps.len()
        invariant
            i <= ps.len(),
            first_filing_date(ps@, 0) == first_filing_date(ps@, i as int),
        decreases ps.len() - i,
    {
        if let DomesticFilingPart::FilingDate(v) = &ps[i] {
            return Some(v.clone());
        }
        i += 1;
    }
    None
}

pub(crate) fn find_series_code(ps: &Vec<DomesticFilingPart>) -> (r: Option<String>)
    ensures
        r == first_series_code(ps@, 0),
{
    let mut i: usize = 0;
    while i < ps.len()
        invariant
            i <= ps.len(),
            first_series_code(ps@, 0) == first_series_code(ps@, i as int),
        decreases ps.len() - i,
    {
        if let DomesticFilingPart::ApplicationNumberSeriesCode(v) = &ps[i] {
            return Some(v.clone());
        }
        i += 1;
    }
    None
}

fn write_domestic_filing_data(output: &mut String, value: &DomesticFilingData)
    ensures
        final(output)@ == old(output)@ + domestic_xml(*value),
{
    let empty: Vec<XmlAttribute> = Vec::new();
    start_tag(output, "application-reference", value.attributes.as_slice());
    start_tag(output, "document-id", empty.as_slice());
    write_opt_text_element(output, "doc-number", &find_app_number(&value.parts));
    write_opt_text_element(output, "date", &find_filing_date(&value.parts));
    end_tag(output, "document-id");
    end_tag(output, "application-reference");
    write_opt_text_element(output, "us-application-series-code", &find_series_code(&value.parts));
    assert(output@ =~= old(output)@ + domestic_xml(*value));
}

pub open spec fn further_xml(values: Seq<String>) -> Seq<char> {
    concat_map(values, |f: String| spec_text_element("further-classification"@, f@))
}

fn write_further(output: &mut String, values: &Vec<String>)
    ensures
        final(output)@ == old(output)@ + further_xml(values@),
{
    let ghost start = output@;
    let ghost f = |f: String| spec_text_element("further-classification"@, f@);
    let mut i: usize = 0;
    while i < values.len()
        invariant
            i <= values.len(),
            f == (|f: String| spec_text_element("further-classification"@, f@)),
            output@ == start + concat_map(values@.take(i as int), f),
        decreases values.len() - i,
    {
        proof {
            lemma_concat_map_step(values@, f, i as int);
        }
        write_text_element(output, "further-classification", values[i].as_str());
        i += 1;
    }
    proof {
        lemma_concat_map_all(values@, f);
    }
}

pub open spec fn tech_part_xml(p: TechnicalInformationPart) -> Seq<char> {
    match p {
        TechnicalInformationPart::ClassificationIpc(v) => spec_start_tag(
            "classification-ipc"@,
            v.attributes@,
        ) + opt_xml(
            v.main_classification,
            |m: Seq<char>| spec_text_element("main-classification"@, m),
        ) + further_xml(v.further_classification@) + spec_end_tag("classification-ipc"@),
        TechnicalInformationPart::ClassificationUs(v) => spec_start_tag(
            "classification-national"@,
            v.attributes@,
        ) + opt_xml(
            v.national_classification,
            |m: Seq<char>| spec_text_element("main-classification"@, m),
        ) + further_xml(v.further_classification@) + spec_end_tag("classification-national"@),
        TechnicalInformationPart::TitleOfInvention(v) => spec_text_element("invention-title"@, v@),
        TechnicalInformationPart::Opaque(o) => spec_fragment_xml(o.xml),
    }
}

fn write_tech_part(output: &mut String, part: &TechnicalInformationPart)
    ensures
        final(output)@ == old(output)@ + tech_part_xml(*part),
{
    match part {
        TechnicalInformationPart::ClassificationIpc(v) => {
            start_tag(output, "classification-ipc", v.attributes.as_slice());
            write_opt_text_element(output, "main-classification", &v.main_classification);
            write_further(output, &v.further_classification);
            end_tag(output, "classification-ipc");
        },
        TechnicalInformationPart::ClassificationUs(v) => {
            start_tag(output, "classification-national", v.attributes.as_slice());
            write_opt_text_element(output, "main-classification", &v.national_classification);
            write_further(output, &v.further_classification);
            end_tag(output, "classification-national");
        },
        TechnicalInformationPart::TitleOfInvention(v) => write_text_element(
            output,
            "invention-title",
            v.as_str(),
        ),
        TechnicalInformationPart::Opaque(o) => write_xml_fragment(output, &o.xml),
    }
    assert(output@ =~= old(output)@ + tech_part_xml(*part));
}

pub open spec fn tech_xml(t: TechnicalInformation) -> Seq<char> {
    concat_map(t.parts@, |p: TechnicalInformationPart| tech_part_xml(p))
}

fn write_technical_information(output: &mut String, value: &TechnicalInformation)
    ensures
        final(output)@ == old(output)@ + tech_xml(*value),
{
    let ghost start = output@;
    let ghost f = |p: TechnicalInformationPart| tech_part_xml(p);
    let mut i: usize = 0;
    while i < value.parts.len()
        invariant
            i <= value.parts.len(),
            f == (|p: TechnicalInformationPart| tech_part_xml(p)),
            output@ == start + concat_map(value.parts@.take(i as int), f),
        decreases value.parts.len() - i,
    {
        proof {
            lemma_concat_map_step(value.parts@, f, i as int);
        }
        write_tech_part(output, &value.parts[i]);
        i += 1;
    }
    proof {
        lemma_concat_map_all(value.parts@, f);
    }
}

pub open spec fn related_id_xml(num: Option<String>, date: Option<String>) -> Seq<char> {
    spec_start_tag("document-id"@, Seq::empty()) + opt_xml(
        num,
        |v: Seq<char>| spec_text_element("doc-number"@, v),
    ) + opt_xml(date, |v: Seq<char>| spec_text_element("date"@, v)) + spec_end_tag("document-id"@)
}

fn write_related_document_id(output: &mut String, num: &Option<String>, date: &Option<String>)
    ensures
        final(output)@ == old(output)@ + related_id_xml(*num, *date),
{
    let empty: Vec<XmlAttribute> = Vec::new();
    start_tag(output, "document-id", empty.as_slice());
    write_opt_text_element(output, "doc-number", num);
    write_opt_text_element(output, "date", date);
    end_tag(output, "document-id");
    assert(output@ =~= old(output)@ + related_id_xml(*num, *date));
}

pub open spec fn relation_tag(v: RelatedDocument) -> Seq<char> {
    match v.relationship {
        Some(r) => r@,
        None => "related-document"@,
    }
}

/// The body of a related document: with a child document, `relation`
/// holding parent and child ids; else the parent id alone.
pub open spec fn related_body_xml(v: RelatedDocument) -> Seq<char> {
    let e: Seq<XmlAttribute> = Seq::empty();
    if v.child_doc_number is Some {
        spec_start_tag("relation"@, e) + spec_start_tag("parent-doc"@, e) + related_id_xml(
            v.parent_doc_number,
            v.parent_date,
        ) + spec_end_tag("parent-doc"@) + spec_start_tag("child-doc"@, e) + related_id_xml(
            v.child_doc_number,
            None,
        ) + spec_end_tag("child-doc"@) + spec_end_tag("relation"@)
    } else {
        related_id_xml(v.parent_doc_number, v.parent_date)
    }
}

/// A related document under its relationship tag.
pub open spec fn related_xml(v: RelatedDocument) -> Seq<char> {
    let tag = relation_tag(v);
    spec_start_tag(tag, v.attributes@) + related_body_xml(v) + spec_end_tag(tag)
}

fn write_related_body(output: &mut String, v: &RelatedDocument)
    ensures
        final(output)@ == old(output)@ + related_body_xml(*v),
{
    let empty: Vec<XmlAttribute> = Vec::new();
    if v.child_doc_number.is_some() {
        start_tag(output, "relation", empty.as_slice());
        let ghost a = output@;
        start_tag(output, "parent-doc", empty.as_slice());
        let ghost b = output@;
        write_related_document_id(output, &v.parent_doc_number, &v.parent_date);
        let ghost c = output@;
        end_tag(output, "parent-doc");
        let ghost d = output@;
        start_tag(output, "child-doc", empty.as_slice());
        let ghost e = output@;
        write_related_document_id(output, &v.child_doc_number, &None);
        let ghost f = output@;
        end_tag(output, "child-doc");
        end_tag(output, "relation");
        assert(output@ =~= old(output)@ + related_body_xml(*v));
    } else {
        write_related_document_id(output, &v.parent_doc_number, &v.parent_date);
    }
}

fn write_related(output: &mut String, v: &RelatedDocument)
    ensures
        final(output)@ == old(output)@ + related_xml(*v),
{
    let tag = match &v.relationship {
        Some(r) => r.clone(),
        None => copy_str("related-document"),
    };
    start_tag(output, tag.as_str(), v.attributes.as_slice());
    write_related_body(output, v);
    end_tag(output, tag.as_str());
    assert(output@ =~= old(output)@ + related_xml(*v));
}

pub open spec fn continuity_part_xml(p: ContinuityPart) -> Seq<char> {
    match p {
        ContinuityPart::NonProvisionalOfProvisional(v) => related_xml(v),
        ContinuityPart::RelatedDocument(v) => related_xml(v),
        ContinuityPart::Opaque(o) => spec_fragment_xml(o.xml),
    }
}

pub open spec fn continuity_xml(c: ContinuityData) -> Seq<char> {
    spec_start_tag("us-related-documents"@, c.attributes@) + concat_map(
        c.parts@,
        |p: ContinuityPart| continuity_part_xml(p),
    ) + spec_end_tag("us-related-documents"@)
}

fn write_continuity_data(output: &mut String, value: &ContinuityData)
    ensures
        final(output)@ == old(output)@ + continuity_xml(*value),
{
    start_tag(output, "us-related-documents", value.attributes.as_slice());
    let ghost start = output@;
    let ghost f = |p: ContinuityPart| continuity_part_xml(p);
    let mut i: usize = 0;
    while i < value.parts.len()
        invariant
            i <= value.parts.len(),
            f == (|p: ContinuityPart| continuity_part_xml(p)),
            output@ == start + concat_map(value.parts@.take(i as int), f),
        decreases value.parts.len() - i,
    {
        proof {
            lemma_concat_map_step(value.parts@, f, i as int);
        }
        match &value.parts[i] {
            ContinuityPart::NonProvisionalOfProvisional(v) => write_related(output, v),
            ContinuityPart::RelatedDocument(v) => write_related(output, v),
            ContinuityPart::Opaque(o) => write_xml_fragment(output, &o.xml),
        }
        i += 1;
    }
    proof {
        lemma_concat_map_all(value.parts@, f);
    }
    end_tag(output, "us-related-documents");
}

/// A party: its item element, with an `addressbook` holding `name` (for a
/// name with a space) or `orgname`.
pub open spec fn party_xml(item: Seq<char>, p: NamedParty) -> Seq<char> {
    let e: Seq<XmlAttribute> = Seq::empty();
    spec_start_tag(item, p.attributes@) + (match p.name {
        Some(n) => spec_start_tag("addressbook"@, e) + (if n@.contains(' ') {
            spec_text_element("name"@, n@)
        } else {
            spec_text_element("orgname"@, n@)
        }) + spec_end_tag("addressbook"@),
        None => Seq::empty(),
    }) + spec_end_tag(item)
}

pub open spec fn named_parties_xml(
    outer: Seq<char>,
    container: Seq<char>,
    item: Seq<char>,
    v: NamedParties,
) -> Seq<char> {
    let e: Seq<XmlAttribute> = Seq::empty();
    (if outer.len() > 0 {
        spec_start_tag(outer, e)
    } else {
        Seq::empty()
    }) + spec_start_tag(container, v.attributes@) + concat_map(
        v.parties@,
        |p: NamedParty| party_xml(item, p),
    ) + spec_end_tag(container) + (if outer.len() > 0 {
        spec_end_tag(outer)
    } else {
        Seq::empty()
    })
}

fn has_space(s: &String) -> (r: bool)
    ensures
        r == s@.contains(' '),
{
    let cs = chars_of(s.as_str());
    let mut i: usize = 0;
    while i < cs.len()
        invariant
            i <= cs.len(),
            cs@ == s@,
            forall|j: int| 0 <= j < i ==> cs@[j] != ' ',
        decreases cs.len() - i,
    {
        if cs[i] == ' ' {
            return true;
        }
        i += 1;
    }
    false
}

fn write_party(output: &mut String, item: &str, p: &NamedParty)
    ensures
        final(output)@ == old(output)@ + party_xml(item@, *p),
{
    let empty: Vec<XmlAttribute> = Vec::new();
    start_tag(output, item, p.attributes.as_slice());
    let ghost a = output@;
    if let Some(name) = &p.name {
        start_tag(output, "addressbook", empty.as_slice());
        if has_space(name) {
            write_text_element(output, "name", name.as_str());
        } else {
            write_text_element(output, "orgname", name.as_str());
        }
        end_tag(output, "addressbook");
    }
    end_tag(output, item);
    assert(output@ =~= old(output)@ + party_xml(item@, *p));
}

fn write_named_parties(output: &mut String, outer: &str, container: &str, item: &str, value: &NamedParties)
    ensures
        final(output)@ == old(output)@ + named_parties_xml(outer@, container@, item@, *value),
{
    let empty: Vec<XmlAttribute> = Vec::new();
    let has_outer = !outer.is_empty();
    if has_outer {
        start_tag(output, outer, empty.as_slice());
    }
    let ghost a = output@;
    start_tag(output, container, value.attributes.as_slice());
    let ghost start = output@;
    let ghost f = |p: NamedParty| party_xml(item@, p);
    let mut i: usize = 0;
    while i < value.parties.len()
        invariant
            i <= value.parties.len(),
            f == (|p: NamedParty| party_xml(item@, p)),
            output@ == start + concat_map(value.parties@.take(i as int), f),
        decreases value.parties.len() - i,
    {
        proof {
            lemma_concat_map_step(value.parties@, f, i as int);
        }
        write_party(output, item, &value.parties[i]);
        i += 1;
    }
    proof {
        lemma_concat_map_all(value.parties@, f);
    }
    end_tag(output, container);
    let ghost b = output@;
    if has_outer {
        end_tag(output, outer);
    }
    assert(output@ =~= old(output)@ + named_parties_xml(outer@, container@, item@, *value));
}

pub open spec fn biblio_part_xml(p: BibliographicPart) -> Seq<char> {
    match p {
        BibliographicPart::DocumentId(v) => spec_start_tag(
            "publication-reference"@,
            Seq::empty(),
        ) + document_id_xml(v) + spec_end_tag("publication-reference"@),
        BibliographicPart::DomesticFilingData(v) => domestic_xml(v),
        BibliographicPart::ContinuityData(v) => continuity_xml(v),
        BibliographicPart::Applicants(v) => named_parties_xml(
            "parties"@,
            "applicants"@,
            "applicant"@,
            v,
        ),
        BibliographicPart::Assignees(v) => named_parties_xml(""@, "assignees"@, "assignee"@, v),
        BibliographicPart::TechnicalInformation(v) => tech_xml(v),
        BibliographicPart::Opaque(o) => spec_fragment_xml(o.xml),
        _ => Seq::empty(),
    }
}

/// The bibliographic block; publication filing types, inventors and
/// correspondence addresses have no form in this schema and are left out.
pub open spec fn biblio_xml(b: BibliographicInformation) -> Seq<char> {
    spec_start_tag("us-bibliographic-data-application"@, b.attributes@) + concat_map(
        b.parts@,
        |p: BibliographicPart| biblio_part_xml(p),
    ) + spec_end_tag("us-bibliographic-data-application"@)
}

fn write_biblio_part(output: &mut String, part: &BibliographicPart)
    ensures
        final(output)@ == old(output)@ + biblio_part_xml(*part),
{
    let empty: Vec<XmlAttribute> = Vec::new();
    match part {
        BibliographicPart::DocumentId(v) => {
            start_tag(output, "publication-reference", empty.as_slice());
            write_document_id(output, v);
            end_tag(output, "publication-reference");
        },
        BibliographicPart::DomesticFilingData(v) => write_domestic_filing_data(output, v),
        BibliographicPart::ContinuityData(v) => write_continuity_data(output, v),
        BibliographicPart::Applicants(v) => write_named_parties(
            output,
            "parties",
            "applicants",
            "applicant",
            v,
        ),
        BibliographicPart::Assignees(v) => {
            proof {
                reveal_strlit("");
            }
            write_named_parties(output, "", "assignees", "assignee", v)
        },
        BibliographicPart::TechnicalInformation(v) => write_technical_information(output, v),
        BibliographicPart::Opaque(o) => write_xml_fragment(output, &o.xml),
        _ => {},
    }
    assert(output@ =~= old(output)@ + biblio_part_xml(*part));
}

fn write_bibliographic_information(output: &mut String, value: &BibliographicInformation)
    ensures
        final(output)@ == old(output)@ + biblio_xml(*value),
{
    start_tag(output, "us-bibliographic-data-application", value.attributes.as_slice());
    let ghost start = output@;
    let ghost f = |p: BibliographicPart| biblio_part_xml(p);
    let mut i: usize = 0;
    while i < value.parts.len()
        invariant
            i <= value.parts.len(),
            f == (|p: BibliographicPart| biblio_part_xml(p)),
            output@ == start + concat_map(value.parts@.take(i as int), f),
        decreases value.parts.len() - i,
    {
        proof {
            lemma_concat_map_step(value.parts@, f, i as int);
        }
        write_biblio_part(output, &value.parts[i]);
        i += 1;
    }
    proof {
        lemma_concat_map_all(value.parts@, f);
    }
    end_tag(output, "us-bibliographic-data-application");
}


// ---------------------------------------------------------------------------
// Documents
// ---------------------------------------------------------------------------

/// The part a top-level element of the root becomes.
pub open spec fn top_part_of(p: DocumentPart, n: XmlNode) -> bool {
    if is_named(n, "us-bibliographic-data-application"@) {
        p matches DocumentPart::BibliographicInformation(b) && biblio_of(b, n)
    } else if is_named(n, "abstract"@) {
        p matches DocumentPart::AbstractSection(a) && abstract_of(a, n)
    } else if is_named(n, "description"@) {
        p matches DocumentPart::Description(d) && description_of(d, n)
    } else if is_named(n, "claims"@) {
        p matches DocumentPart::Claims(c) && claims_of(c, n)
    } else if is_named(n, "drawings"@) {
        p matches DocumentPart::Drawings(d) && drawings_of(d, n)
    } else {
        p matches DocumentPart::Opaque(o) && fragment_of(o.xml, n)
    }
}

pub open spec fn top_parts_of(ps: Seq<DocumentPart>, es: Seq<XmlNode>) -> bool {
    &&& ps.len() == es.len()
    &&& forall|i: int| 0 <= i < ps.len() ==> #[trigger] top_part_of(ps[i], es[i])
}

/// `d` is the document read from `input`, whose tree is `t` and whose root
/// element is `root`.
pub open spec fn document_of(
    d: PatentDocument,
    input: Seq<char>,
    t: XmlTree,
    root: XmlNode,
    format: SourceFormat,
) -> bool {
    &&& d.source_format == format
    &&& prolog_of(d.prolog, input, t)
    &&& attrs_view(d.attributes@) == attrs_view(spec_attrs(root))
    &&& top_parts_of(d.parts@, spec_child_elements(root))
}

fn parse_top_level_part(n: &XmlNode) -> (r: DocumentPart)
    ensures
        top_part_of(r, *n),
{
    if has_name(n, "us-bibliographic-data-application") {
        DocumentPart::BibliographicInformation(parse_bibliographic_information(n))
    } else if has_name(n, "abstract") {
        DocumentPart::AbstractSection(parse_abstract_section(n))
    } else if has_name(n, "description") {
        DocumentPart::Description(parse_description(n))
    } else if has_name(n, "claims") {
        DocumentPart::Claims(parse_claims(n))
    } else if has_name(n, "drawings") {
        DocumentPart::Drawings(parse_drawings(n))
    } else {
        DocumentPart::Opaque(opaque_block(n))
    }
}

fn parse_top_level_parts(root: &XmlNode) -> (r: Vec<DocumentPart>)
    ensures
        top_parts_of(r@, spec_child_elements(*root)),
{
    let cs = children(root);
    let mut parts: Vec<DocumentPart> = Vec::new();
    let mut i: usize = 0;
    while i < cs.len()
        invariant
            i <= cs.len(),
            cs@ == spec_children(*root),
            top_parts_of(parts@, elements_of(cs@.take(i as int))),
        decreases cs.len() - i,
    {
        proof {
            lemma_elements_step(cs@, i as int);
        }
        let c = &cs[i];
        if let XmlNode::Element { .. } = c {
            let part = parse_top_level_part(c);
            parts.push(part);
            proof {
                let es = elements_of(cs@.take(i as int + 1));
                assert forall|j: int| 0 <= j < parts@.len() implies #[trigger] top_part_of(
                    parts@[j],
                    es[j],
                ) by {
                    if j < parts@.len() - 1 {
                        assert(top_part_of(parts@[j], elements_of(cs@.take(i as int))[j]));
                    }
                }
            }
        }
        i += 1;
    }
    assert(cs@.take(cs.len() as int) =~= cs@);
    parts
}

/// What reading the tree `t` of `input` gives.
pub open spec fn tree_outcome(input: Seq<char>, t: XmlTree, format: SourceFormat, r: Result<PatentDocument, ParseError>) -> bool {
        match spec_root_element(t) {
            None => r matches Err(ParseError::MalformedXml(m)) && m@ == "missing root element"@,
            Some(root) => if is_named(root, "us-patent-application"@) {
                r matches Ok(d) && document_of(d, input, t, root, format)
            } else {
                r matches Err(ParseError::UnsupportedStructure(m)) && m@
                    == "v4.x applications require us-patent-application root"@
            },
        }
}

/// What reading `input` gives: `MalformedXml` when the XML reader refuses
/// it, else the outcome of reading the tree the reader gives.
pub open spec fn read_outcome(input: Seq<char>, format: SourceFormat, r: Result<PatentDocument, ParseError>) -> bool {
    &&& !xml_accepts(input, MAX_ENTITY_EXPANSIONS) ==> (r matches Err(ParseError::MalformedXml(m))
        && m@ == xml_error(input, MAX_ENTITY_EXPANSIONS))
    &&& xml_accepts(input, MAX_ENTITY_EXPANSIONS) ==> exists|t: XmlTree|
        #![trigger tree_is(t, input, MAX_ENTITY_EXPANSIONS)]
        tree_is(t, input, MAX_ENTITY_EXPANSIONS) && tree_outcome(input, t, format, r)
}

/// Read an application from its parsed tree: the root element must be
/// `us-patent-application`.
pub fn parse_document_tree(input: &str, tree: &XmlTree, source_format: SourceFormat) -> (r: Result<
    PatentDocument,
    ParseError,
>)
    ensures
        tree_outcome(input@, *tree, source_format, r),
{
    let root = match root_element(tree) {
        Ok(root) => root,
        Err(e) => return Err(e),
    };
    if !has_name(root, "us-patent-application") {
        return Err(
            ParseError::UnsupportedStructure(
                copy_str("v4.x applications require us-patent-application root"),
            ),
        );
    }
    let parts = parse_top_level_parts(root);
    let doc = PatentDocument {
        source_format,
        prolog: prolog(input, tree),
        attributes: attributes(root),
        parts,
    };
    Ok(doc)
}

/// Read an application from XML text; a document the XML reader refuses is
/// `MalformedXml`.
pub fn parse_document(input: &str, source_format: SourceFormat) -> (r: Result<
    PatentDocument,
    ParseError,
>)
    ensures
        read_outcome(input@, source_format, r),
{
    let tree = match parse_tree(input) {
        Ok(t) => t,
        Err(e) => return Err(e),
    };
    parse_document_tree(input, &tree, source_format)
}

pub open spec fn document_part_xml(p: DocumentPart) -> Seq<char> {
    match p {
        DocumentPart::BibliographicInformation(v) => biblio_xml(v),
        DocumentPart::AbstractSection(v) => abstract_xml(v),
        DocumentPart::Description(v) => description_xml(v),
        DocumentPart::Claims(v) => claims_xml(v),
        DocumentPart::Drawings(v) => drawings_xml(v),
        DocumentPart::Opaque(o) => spec_fragment_xml(o.xml),
    }
}

/// The XML text of an application: prolog, then the root element with its
/// attributes around each part in order.
pub open spec fn document_xml(d: PatentDocument) -> Seq<char> {
    spec_prolog_xml(d.prolog) + spec_start_tag("us-patent-application"@, d.attributes@)
        + concat_map(d.parts@, |p: DocumentPart| document_part_xml(p)) + spec_end_tag(
        "us-patent-application"@,
    )
}

fn write_document_part(output: &mut String, part: &DocumentPart)
    ensures
        final(output)@ == old(output)@ + document_part_xml(*part),
{
    match part {
        DocumentPart::BibliographicInformation(v) => write_bibliographic_information(output, v),
        DocumentPart::AbstractSection(v) => write_abstract(output, v),
        DocumentPart::Description(v) => write_description(output, v),
        DocumentPart::Claims(v) => write_claims(output, v),
        DocumentPart::Drawings(v) => write_drawings(output, v),
        DocumentPart::Opaque(o) => write_xml_fragment(output, &o.xml),
    }
}

/// Serialize an application back to XML.
pub fn write_document(doc: &PatentDocument) -> (r: Result<String, SerializeError>)
    ensures
        r matches Ok(s) && s@ == document_xml(*doc),
{
    let mut output = String::new();
    write_prolog(&mut output, &doc.prolog);
    start_tag(&mut output, "us-patent-application", doc.attributes.as_slice());
    let ghost start = output@;
    let ghost f = |p: DocumentPart| document_part_xml(p);
    let mut i: usize = 0;
    while i < doc.parts.len()
        invariant
            i <= doc.parts.len(),
            f == (|p: DocumentPart| document_part_xml(p)),
            output@ == start + concat_map(doc.parts@.take(i as int), f),
        decreases doc.parts.len() - i,
    {
        proof {
            lemma_concat_map_step(doc.parts@, f, i as int);
        }
        write_document_part(&mut output, &doc.parts[i]);
        i += 1;
    }
    proof {
        lemma_concat_map_all(doc.parts@, f);
    }
    end_tag(&mut output, "us-patent-application");
    Ok(output)
}

} // verus!
