//! USPTO grant XML version 2.5 (`PATDOC`, the ST.32 element names).

use vstd::prelude::*;

use crate::error::{ParseError, SerializeError};
use crate::model::bibliographic::{
    ApplicationNumber, BibliographicInformation, BibliographicPart, ClassificationIpc,
    ClassificationUs, ContinuityData, ContinuityPart, DocumentId, DomesticFilingData,
    DomesticFilingPart, NamedParties, NamedParty, RelatedDocument, TechnicalInformation,
    TechnicalInformationPart,
};
use crate::model::claims::{Claim, Claims, ClaimsPart, Heading};
use crate::model::description::{
    AbstractPart, AbstractSection, BriefDescriptionOfDrawings, Description, DescriptionPart,
    DescriptionSectionPart, DetailedDescription, Drawings, DrawingsPart, Figure, FigurePart, Image,
    Paragraph, Section, SectionPart, SummaryOfInvention,
};
use crate::model::document::{DocumentPart, PatentDocument};
use crate::model::opaque::{attrs_view, OpaqueBlock, OpaqueInline, XmlAttribute};
use crate::model::runs::{CrossReference, DependentClaimReference, InlineContainer, Run};
use crate::render::fields::opt_view;
use crate::source::detect::SourceFormat;
use crate::source::uspto::application_v4x::{entity_text, parse_u32, spec_parse_u32};
use crate::source::uspto::nodes::{
    child_element, lemma_elements_step, opaque_block, spec_child_element,
};
use crate::source::xml::{
    attribute, attributes, blank_text, children, elements_of, fragment_of, has_name, is_named,
    spec_attribute, spec_attrs, spec_child_elements, spec_children, spec_text_content,
    text_content, xml_fragment, XmlNode,
};
use crate::source::xml_write::{
    concat_map, end_tag, lemma_concat_map_all, lemma_concat_map_step, opt_xml, spec_end_tag,
    spec_fragment_xml, spec_start_empty_tag, spec_start_tag, spec_text_element, start_empty_tag,
    start_tag, write_xml_fragment,
};
use crate::source::xml::{
    parse_tree, prolog, prolog_of, root_element, spec_root_element, tree_is, xml_accepts, xml_error, XmlTree,
    MAX_ENTITY_EXPANSIONS,
};
use crate::source::xml_write::{spec_prolog_xml, write_prolog};
use crate::text::{chars_of, copy_str, push_str, string_of, trim, trim_chars};

verus! {

// ---------------------------------------------------------------------------
// Runs
// ---------------------------------------------------------------------------

/// `PTEXT` and `STEXT` wrap text without adding markup: their runs are
/// spliced into the parent's.
pub open spec fn flattens(c: XmlNode) -> bool {
    is_named(c, "PTEXT"@) || is_named(c, "STEXT"@)
}

/// A child that gives one run: non-blank text, an entity reference, a
/// non-blank `PDAT`, or any other element.
pub open spec fn yields_one(c: XmlNode) -> bool {
    match c {
        XmlNode::Text(t) => trim(t@).len() > 0,
        XmlNode::CData(t) => trim(t@).len() > 0,
        XmlNode::EntityRef { .. } => true,
        XmlNode::Element { .. } => !flattens(c) && (!is_named(c, "PDAT"@) || trim(
            spec_text_content(c),
        ).len() > 0),
        _ => false,
    }
}

/// How many runs a sequence of children gives.
pub open spec fn runs_count(cs: Seq<XmlNode>) -> nat
    decreases cs, 1nat,
{
    if cs.len() == 0 {
        0
    } else {
        runs_count(cs.drop_last()) + node_runs_count(cs.last())
    }
}

pub open spec fn node_runs_count(c: XmlNode) -> nat
    decreases c, 0nat,
{
    match c {
        XmlNode::Element { children, .. } => if flattens(c) {
            runs_count(children@)
        } else if yields_one(c) {
            1
        } else {
            0
        },
        _ => if yields_one(c) {
            1
        } else {
            0
        },
    }
}

/// The runs of a sequence of children: each child's runs in order.
pub open spec fn runs_of(rs: Seq<Run>, cs: Seq<XmlNode>) -> bool
    decreases cs, 1nat,
{
    if cs.len() == 0 {
        rs.len() == 0
    } else {
        let k = node_runs_count(cs.last());
        &&& rs.len() >= k
        &&& runs_of(rs.subrange(0, rs.len() - k), cs.drop_last())
        &&& node_runs(rs.subrange(rs.len() - k, rs.len() as int), cs.last())
    }
}

pub open spec fn wrapped(x: InlineContainer, attributes: Seq<XmlAttribute>, cs: Seq<XmlNode>) -> bool
    decreases cs, 2nat,
{
    attrs_view(x.attributes@) == attrs_view(attributes) && runs_of(x.content@, cs)
}

/// The runs one child gives: text as is; an entity reference as its value
/// (or `&name;`); `PDAT` as its text; `PTEXT`/`STEXT` spliced; `BOLD`,
/// `ITALIC`, `HIL`, `FGREF`, `CLREF` as markup; other elements verbatim.
pub open spec fn node_runs(rs: Seq<Run>, c: XmlNode) -> bool
    decreases c, 0nat,
{
    match c {
        XmlNode::Element { name, attributes, children, .. } => {
            let n = name@;
            if flattens(c) {
                runs_of(rs, children@)
            } else if n == "PDAT"@ {
                if trim(spec_text_content(c)).len() > 0 {
                    rs.len() == 1 && (rs[0] matches Run::Text(s) && s@ == spec_text_content(c))
                } else {
                    rs.len() == 0
                }
            } else if n == "BOLD"@ {
                rs.len() == 1 && (rs[0] matches Run::Bold(x) && wrapped(x, attributes@, children@))
            } else if n == "ITALIC"@ {
                rs.len() == 1 && (rs[0] matches Run::Italic(x) && wrapped(x, attributes@, children@))
            } else if n == "HIL"@ {
                rs.len() == 1 && (rs[0] matches Run::Highlight(x) && wrapped(
                    x,
                    attributes@,
                    children@,
                ))
            } else if n == "FGREF"@ {
                rs.len() == 1 && (rs[0] matches Run::FigureReference(x) && attrs_view(x.attributes@)
                    == attrs_view(attributes@) && runs_of(x.content@, children@) && opt_view(
                    x.target,
                ) == spec_attribute(c, "ID"@))
            } else if n == "CLREF"@ {
                rs.len() == 1 && (rs[0] matches Run::DependentClaimReference(x) && attrs_view(
                    x.attributes@,
                ) == attrs_view(attributes@) && runs_of(x.content@, children@) && opt_view(
                    x.depends_on,
                ) == spec_attribute(c, "ID"@))
            } else {
                rs.len() == 1 && (rs[0] matches Run::Opaque(o) && fragment_of(o.xml, c))
            }
        },
        XmlNode::Text(t) => if trim(t@).len() > 0 {
            rs.len() == 1 && (rs[0] matches Run::Text(s) && s@ == t@)
        } else {
            rs.len() == 0
        },
        XmlNode::CData(t) => if trim(t@).len() > 0 {
            rs.len() == 1 && (rs[0] matches Run::Text(s) && s@ == t@)
        } else {
            rs.len() == 0
        },
        XmlNode::EntityRef { name, value, .. } => rs.len() == 1 && (rs[0] matches Run::Text(s)
            && s@ == (match value {
            Some(v) => v@,
            None => seq!['&'] + name@ + seq![';'],
        })),
        _ => rs.len() == 0,
    }
}

fn one(r: Run) -> (v: Vec<Run>)
    ensures
        v@ == seq![r],
{
    let mut v: Vec<Run> = Vec::new();
    v.push(r);
    assert(v@ =~= seq![r]);
    v
}

fn wrap(c: &XmlNode, cs: &Vec<XmlNode>) -> (x: InlineContainer)
    requires
        c matches XmlNode::Element { children, .. } && children == cs,
    ensures
        attrs_view(x.attributes@) == attrs_view(spec_attrs(*c)),
        runs_of(x.content@, cs@),
    decreases c, 1nat,
{
    proof {
        assert(decreases_to!(*c => (*c)->Element_children));
    }
    InlineContainer { attributes: attributes(c), content: runs_of_children(cs) }
}

/// The runs one child gives.
fn node_runs_from(c: &XmlNode) -> (r: Vec<Run>)
    ensures
        node_runs(r@, *c),
        r@.len() == node_runs_count(*c),
    decreases c, 2nat,
{
    match c {
        XmlNode::Element { name, children, .. } => {
            proof {
                assert(decreases_to!(*c => (*c)->Element_children));
            }
            if has_name(c, "PTEXT") || has_name(c, "STEXT") {
                runs_of_children(children)
            } else if crate::text::string_eq_str(name, "PDAT") {
                let t = text_content(c);
                let tt = trim_chars(t.as_slice());
                if tt.len() > 0 {
                    one(Run::Text(string_of(t.as_slice())))
                } else {
                    Vec::new()
                }
            } else if crate::text::string_eq_str(name, "BOLD") {
                one(Run::Bold(wrap(c, children)))
            } else if crate::text::string_eq_str(name, "ITALIC") {
                one(Run::Italic(wrap(c, children)))
            } else if crate::text::string_eq_str(name, "HIL") {
                one(Run::Highlight(wrap(c, children)))
            } else if crate::text::string_eq_str(name, "FGREF") {
                one(
                    Run::FigureReference(
                        CrossReference {
                            attributes: attributes(c),
                            target: attribute(c, "ID"),
                            content: runs_of_children(children),
                        },
                    ),
                )
            } else if crate::text::string_eq_str(name, "CLREF") {
                one(
                    Run::DependentClaimReference(
                        DependentClaimReference {
                            attributes: attributes(c),
                            depends_on: attribute(c, "ID"),
                            content: runs_of_children(children),
                        },
                    ),
                )
            } else {
                one(Run::Opaque(OpaqueInline { xml: xml_fragment(c) }))
            }
        },
        XmlNode::Text(t) => if blank_text(c) {
            Vec::new()
        } else {
            one(Run::Text(t.clone()))
        },
        XmlNode::CData(t) => if blank_text(c) {
            Vec::new()
        } else {
            one(Run::Text(t.clone()))
        },
        XmlNode::EntityRef { name, value, .. } => one(Run::Text(entity_text(name, value))),
        _ => Vec::new(),
    }
}

/// The runs of a sequence of children.
fn runs_of_children(cs: &Vec<XmlNode>) -> (r: Vec<Run>)
    ensures
        runs_of(r@, cs@),
        r@.len() == runs_count(cs@),
    decreases cs@, 0nat,
{
    let mut runs: Vec<Run> = Vec::new();
    let mut i: usize = 0;
    while i < cs.len()
        invariant
            i <= cs.len(),
            runs_of(runs@, cs@.take(i as int)),
            runs@.len() == runs_count(cs@.take(i as int)),
        decreases cs.len() - i,
    {
        proof {
            assert(decreases_to!(cs@ => cs@[i as int]));
        }
        let ghost before = runs@;
        let mut sub = node_runs_from(&cs[i]);
        let ghost subv = sub@;
        runs.append(&mut sub);
        proof {
            let t = cs@.take(i + 1);
            assert(t.drop_last() =~= cs@.take(i as int));
            assert(t.last() == cs@[i as int]);
            assert(runs@ =~= before + subv);
            assert(runs@.subrange(0, runs@.len() - subv.len()) =~= before);
            assert(runs@.subrange(runs@.len() - subv.len(), runs@.len() as int) =~= subv);
        }
        i += 1;
    }
    assert(cs@.take(cs.len() as int) =~= cs@);
    runs
}

/// The runs of a node's children.
pub fn parse_runs(n: &XmlNode) -> (r: Vec<Run>)
    ensures
        runs_of(r@, spec_children(*n)),
{
    match n {
        XmlNode::Document(c) => runs_of_children(c),
        XmlNode::Element { children, .. } => runs_of_children(children),
        XmlNode::EntityRef { children, .. } => runs_of_children(children),
        _ => Vec::new(),
    }
}


// ---------------------------------------------------------------------------
// Paragraphs, headings, claims, drawings, abstract
// ---------------------------------------------------------------------------

/// The node whose children hold a block's text: its `PTEXT` child, else its
/// `STEXT` child, else the node itself.
pub open spec fn text_holder(n: XmlNode) -> XmlNode {
    match spec_child_element(n, "PTEXT"@) {
        Some(c) => c,
        None => match spec_child_element(n, "STEXT"@) {
            Some(c) => c,
            None => n,
        },
    }
}

fn text_holder_of(n: &XmlNode) -> (r: &XmlNode)
    ensures
        *r == text_holder(*n),
{
    match child_element(n, "PTEXT") {
        Some(c) => c,
        None => match child_element(n, "STEXT") {
            Some(c) => c,
            None => n,
        },
    }
}

/// The `LVL` attribute as a number.
pub open spec fn spec_lvl(n: XmlNode) -> Option<u32> {
    match spec_attribute(n, "LVL"@) {
        Some(v) => spec_parse_u32(v),
        None => None,
    }
}

fn lvl_of(n: &XmlNode) -> (r: Option<u32>)
    ensures
        r == spec_lvl(*n),
{
    match attribute(n, "LVL") {
        Some(v) => parse_u32(chars_of(v.as_str()).as_slice()),
        None => None,
    }
}

pub open spec fn paragraph_of(p: Paragraph, n: XmlNode) -> bool {
    &&& attrs_view(p.attributes@) == attrs_view(spec_attrs(n))
    &&& opt_view(p.id) == spec_attribute(n, "ID"@)
    &&& p.level == spec_lvl(n)
    &&& runs_of(p.content@, spec_children(text_holder(n)))
}

pub fn parse_paragraph(n: &XmlNode) -> (r: Paragraph)
    ensures
        paragraph_of(r, *n),
{
    Paragraph {
        attributes: attributes(n),
        id: attribute(n, "ID"),
        level: lvl_of(n),
        content: parse_runs(text_holder_of(n)),
    }
}

pub open spec fn heading_of(h: Heading, n: XmlNode) -> bool {
    &&& attrs_view(h.attributes@) == attrs_view(spec_attrs(n))
    &&& h.level == spec_lvl(n)
    &&& h.align is None
    &&& runs_of(h.content@, spec_children(text_holder(n)))
}

pub fn parse_heading(n: &XmlNode) -> (r: Heading)
    ensures
        heading_of(r, *n),
{
    Heading {
        attributes: attributes(n),
        level: lvl_of(n),
        align: None,
        content: parse_runs(text_holder_of(n)),
    }
}

/// One element of a claim: a `PARA` or `CLMSTEP` as claim text, anything
/// else verbatim.
pub open spec fn claim_run_of(r: Run, e: XmlNode) -> bool {
    if is_named(e, "PARA"@) || is_named(e, "CLMSTEP"@) {
        r matches Run::ClaimText(x) && attrs_view(x.attributes@) == attrs_view(spec_attrs(e))
            && runs_of(x.content@, spec_children(text_holder(e)))
    } else {
        r matches Run::Opaque(o) && fragment_of(o.xml, e)
    }
}

pub open spec fn claim_of(c: Claim, n: XmlNode) -> bool {
    let es = spec_child_elements(n);
    &&& attrs_view(c.attributes@) == attrs_view(spec_attrs(n))
    &&& opt_view(c.id) == spec_attribute(n, "ID"@)
    &&& c.content@.len() == es.len()
    &&& forall|i: int| 0 <= i < es.len() ==> #[trigger] claim_run_of(c.content@[i], es[i])
}

pub fn parse_claim(n: &XmlNode) -> (r: Claim)
    ensures
        claim_of(r, *n),
{
    let cs = children(n);
    let mut content: Vec<Run> = Vec::new();
    let mut i: usize = 0;
    while i < cs.len()
        invariant
            i <= cs.len(),
            cs@ == spec_children(*n),
            content@.len() == elements_of(cs@.take(i as int)).len(),
            forall|j: int| 0 <= j < content@.len() ==> #[trigger] claim_run_of(
                content@[j],
                elements_of(cs@.take(i as int))[j],
            ),
        decreases cs.len() - i,
    {
        proof {
            lemma_elements_step(cs@, i as int);
        }
        let c = &cs[i];
        if let XmlNode::Element { .. } = c {
            let run = if has_name(c, "PARA") || has_name(c, "CLMSTEP") {
                Run::ClaimText(
                    InlineContainer { attributes: attributes(c), content: parse_runs(text_holder_of(c)) },
                )
            } else {
                Run::Opaque(OpaqueInline { xml: xml_fragment(c) })
            };
            content.push(run);
        }
        i += 1;
    }
    assert(cs@.take(cs.len() as int) =~= cs@);
    Claim { attributes: attributes(n), id: attribute(n, "ID"), content }
}

/// The part a claims element other than `CL` gives.
pub open spec fn claims_item_of(p: ClaimsPart, e: XmlNode) -> bool {
    if is_named(e, "H"@) {
        p matches ClaimsPart::Heading(h) && heading_of(h, e)
    } else if is_named(e, "CLM"@) {
        p matches ClaimsPart::Claim(c) && claim_of(c, e)
    } else {
        p matches ClaimsPart::Opaque(o) && fragment_of(o.xml, e)
    }
}

/// The part an element inside `CL` gives.
pub open spec fn listed_claim_of(p: ClaimsPart, e: XmlNode) -> bool {
    if is_named(e, "CLM"@) {
        p matches ClaimsPart::Claim(c) && claim_of(c, e)
    } else {
        p matches ClaimsPart::Opaque(o) && fragment_of(o.xml, e)
    }
}

/// How many parts a claims element gives: one per element of a `CL`, else one.
pub open spec fn claims_count(es: Seq<XmlNode>) -> nat
    decreases es.len(),
{
    if es.len() == 0 {
        0
    } else if is_named(es.last(), "CL"@) {
        claims_count(es.drop_last()) + spec_child_elements(es.last()).len()
    } else {
        claims_count(es.drop_last()) + 1
    }
}

pub open spec fn listed_claims_of(ps: Seq<ClaimsPart>, es: Seq<XmlNode>) -> bool {
    &&& ps.len() == es.len()
    &&& forall|i: int| 0 <= i < es.len() ==> #[trigger] listed_claim_of(ps[i], es[i])
}

/// The parts of a claims section: `H` headings, `CLM` claims, the contents of
/// each `CL` list in order, anything else verbatim.
pub open spec fn claims_parts_of(ps: Seq<ClaimsPart>, es: Seq<XmlNode>) -> bool
    decreases es.len(),
{
    if es.len() == 0 {
        ps.len() == 0
    } else {
        let e = es.last();
        if is_named(e, "CL"@) {
            let k = spec_child_elements(e).len();
            &&& ps.len() >= k
            &&& claims_parts_of(ps.subrange(0, ps.len() - k), es.drop_last())
            &&& listed_claims_of(ps.subrange(ps.len() - k, ps.len() as int), spec_child_elements(e))
        } else {
            &&& ps.len() >= 1
            &&& claims_parts_of(ps.drop_last(), es.drop_last())
            &&& claims_item_of(ps.last(), e)
        }
    }
}

pub open spec fn claims_of(c: Claims, n: XmlNode) -> bool {
    &&& attrs_view(c.attributes@) == attrs_view(spec_attrs(n))
    &&& claims_parts_of(c.parts@, spec_child_elements(n))
}

fn listed_claims(n: &XmlNode) -> (r: Vec<ClaimsPart>)
    ensures
        listed_claims_of(r@, spec_child_elements(*n)),
{
    let cs = children(n);
    let mut parts: Vec<ClaimsPart> = Vec::new();
    let mut i: usize = 0;
    while i < cs.len()
        invariant
            i <= cs.len(),
            cs@ == spec_children(*n),
            listed_claims_of(parts@, elements_of(cs@.take(i as int))),
        decreases cs.len() - i,
    {
        proof {
            lemma_elements_step(cs@, i as int);
        }
        let c = &cs[i];
        if let XmlNode::Element { .. } = c {
            let part = if has_name(c, "CLM") {
                ClaimsPart::Claim(parse_claim(c))
            } else {
                ClaimsPart::Opaque(opaque_block(c))
            };
            parts.push(part);
        }
        i += 1;
    }
    assert(cs@.take(cs.len() as int) =~= cs@);
    parts
}

pub fn parse_claims(n: &XmlNode) -> (r: Claims)
    ensures
        claims_of(r, *n),
{
    let cs = children(n);
    let mut parts: Vec<ClaimsPart> = Vec::new();
    let mut i: usize = 0;
    while i < cs.len()
        invariant
            i <= cs.len(),
            cs@ == spec_children(*n),
            claims_parts_of(parts@, elements_of(cs@.take(i as int))),
        decreases cs.len() - i,
    {
        proof {
            lemma_elements_step(cs@, i as int);
        }
        let c = &cs[i];
        if let XmlNode::Element { .. } = c {
            let ghost before = parts@;
            let ghost es = elements_of(cs@.take(i as int)).push(*c);
            assert(es.drop_last() =~= elements_of(cs@.take(i as int)));
            if has_name(c, "CL") {
                let mut listed = listed_claims(c);
                let ghost lv = listed@;
                parts.append(&mut listed);
                assert(parts@.subrange(0, parts@.len() - lv.len()) =~= before);
                assert(parts@.subrange(parts@.len() - lv.len(), parts@.len() as int) =~= lv);
            } else {
                let part = if has_name(c, "H") {
                    ClaimsPart::Heading(parse_heading(c))
                } else if has_name(c, "CLM") {
                    ClaimsPart::Claim(parse_claim(c))
                } else {
                    ClaimsPart::Opaque(opaque_block(c))
                };
                parts.push(part);
                assert(parts@.drop_last() =~= before);
            }
        }
        i += 1;
    }
    assert(cs@.take(cs.len() as int) =~= cs@);
    Claims { attributes: attributes(n), parts }
}

/// An `EMI` image element becomes a figure holding that image.
pub open spec fn drawings_part_of(p: DrawingsPart, e: XmlNode) -> bool {
    if is_named(e, "EMI"@) {
        &&& p matches DrawingsPart::Figure(f)
        &&& f.attributes@.len() == 0
        &&& opt_view(f.id) == spec_attribute(e, "ID"@)
        &&& f.parts@.len() == 1
        &&& f.parts@[0] matches FigurePart::Image(m)
        &&& attrs_view(m.attributes@) == attrs_view(spec_attrs(e))
        &&& opt_view(m.id) == spec_attribute(e, "ID"@)
        &&& opt_view(m.file) == spec_attribute(e, "FILE"@)
        &&& m.imf is None
        &&& m.ti is None
    } else {
        p matches DrawingsPart::Opaque(o) && fragment_of(o.xml, e)
    }
}

pub open spec fn drawings_of(d: Drawings, n: XmlNode) -> bool {
    let es = spec_child_elements(n);
    &&& attrs_view(d.attributes@) == attrs_view(spec_attrs(n))
    &&& d.parts@.len() == es.len()
    &&& forall|i: int| 0 <= i < es.len() ==> #[trigger] drawings_part_of(d.parts@[i], es[i])
}

fn emi_figure(e: &XmlNode) -> (r: DrawingsPart)
    requires
        is_named(*e, "EMI"@),
    ensures
        drawings_part_of(r, *e),
{
    let image = Image {
        attributes: attributes(e),
        id: attribute(e, "ID"),
        file: attribute(e, "FILE"),
        imf: None,
        ti: None,
    };
    let mut fparts: Vec<FigurePart> = Vec::new();
    fparts.push(FigurePart::Image(image));
    DrawingsPart::Figure(Figure { attributes: Vec::new(), id: attribute(e, "ID"), parts: fparts })
}

pub fn parse_drawings(n: &XmlNode) -> (r: Drawings)
    ensures
        drawings_of(r, *n),
{
    let cs = children(n);
    let mut parts: Vec<DrawingsPart> = Vec::new();
    let mut i: usize = 0;
    while i < cs.len()
        invariant
            i <= cs.len(),
            cs@ == spec_children(*n),
            parts@.len() == elements_of(cs@.take(i as int)).len(),
            forall|j: int| 0 <= j < parts@.len() ==> #[trigger] drawings_part_of(
                parts@[j],
                elements_of(cs@.take(i as int))[j],
            ),
        decreases cs.len() - i,
    {
        proof {
            lemma_elements_step(cs@, i as int);
        }
        let c = &cs[i];
        if let XmlNode::Element { .. } = c {
            let part = if has_name(c, "EMI") {
                emi_figure(c)
            } else {
                DrawingsPart::Opaque(opaque_block(c))
            };
            parts.push(part);
        }
        i += 1;
    }
    assert(cs@.take(cs.len() as int) =~= cs@);
    Drawings { attributes: attributes(n), parts }
}

/// The elements a text block holds: those of its `BTEXT` child when it has
/// one, else its own.
pub open spec fn btext_elements(n: XmlNode) -> Seq<XmlNode> {
    match spec_child_element(n, "BTEXT"@) {
        Some(b) => spec_child_elements(b),
        None => spec_child_elements(n),
    }
}

fn btext_holder(n: &XmlNode) -> (r: &XmlNode)
    ensures
        spec_child_elements(*r) == btext_elements(*n),
{
    match child_element(n, "BTEXT") {
        Some(b) => b,
        None => n,
    }
}

pub open spec fn abstract_part_of(p: AbstractPart, e: XmlNode) -> bool {
    if is_named(e, "PARA"@) {
        p matches AbstractPart::Paragraph(x) && paragraph_of(x, e)
    } else {
        p matches AbstractPart::Opaque(o) && fragment_of(o.xml, e)
    }
}

pub open spec fn abstract_of(a: AbstractSection, n: XmlNode) -> bool {
    let es = btext_elements(n);
    &&& attrs_view(a.attributes@) == attrs_view(spec_attrs(n))
    &&& a.parts@.len() == es.len()
    &&& forall|i: int| 0 <= i < es.len() ==> #[trigger] abstract_part_of(a.parts@[i], es[i])
}

pub fn parse_abstract(n: &XmlNode) -> (r: AbstractSection)
    ensures
        abstract_of(r, *n),
{
    let holder = btext_holder(n);
    let cs = children(holder);
    let mut parts: Vec<AbstractPart> = Vec::new();
    let mut i: usize = 0;
    while i < cs.len()
        invariant
            i <= cs.len(),
            cs@ == spec_children(*holder),
            parts@.len() == elements_of(cs@.take(i as int)).len(),
            forall|j: int| 0 <= j < parts@.len() ==> #[trigger] abstract_part_of(
                parts@[j],
                elements_of(cs@.take(i as int))[j],
            ),
        decreases cs.len() - i,
    {
        proof {
            lemma_elements_step(cs@, i as int);
        }
        let c = &cs[i];
        if let XmlNode::Element { .. } = c {
            let part = if has_name(c, "PARA") {
                AbstractPart::Paragraph(parse_paragraph(c))
            } else {
                AbstractPart::Opaque(opaque_block(c))
            };
            parts.push(part);
        }
        i += 1;
    }
    assert(cs@.take(cs.len() as int) =~= cs@);
    AbstractSection { attributes: attributes(n), parts }
}


// ---------------------------------------------------------------------------
// Description
// ---------------------------------------------------------------------------

/// How a run of text-block elements is grouped: a section's elements (a
/// heading opens a new one), or an element outside any section.
pub enum Grouped {
    Sec(Seq<XmlNode>),
    Loose(XmlNode),
}

pub open spec fn close_section(done: Seq<Grouped>, cur: Option<Seq<XmlNode>>) -> Seq<Grouped> {
    match cur {
        Some(es) => done.push(Grouped::Sec(es)),
        None => done,
    }
}

/// One element into the grouping: `H` closes the open section and opens a
/// new one; `PARA` joins the open section (opening one if none is); any
/// other element joins the open section, or stands alone outside one.
pub open spec fn group_step(g: (Seq<Grouped>, Option<Seq<XmlNode>>), e: XmlNode) -> (
    Seq<Grouped>,
    Option<Seq<XmlNode>>,
) {
    let (done, cur) = g;
    if is_named(e, "H"@) {
        (close_section(done, cur), Some(seq![e]))
    } else if is_named(e, "PARA"@) {
        (done, Some(
            match cur {
                Some(es) => es.push(e),
                None => seq![e],
            },
        ))
    } else {
        match cur {
            Some(es) => (done, Some(es.push(e))),
            None => (done.push(Grouped::Loose(e)), None),
        }
    }
}

pub open spec fn group_fold(es: Seq<XmlNode>) -> (Seq<Grouped>, Option<Seq<XmlNode>>)
    decreases es.len(),
{
    if es.len() == 0 {
        (Seq::empty(), None)
    } else {
        group_step(group_fold(es.drop_last()), es.last())
    }
}

pub open spec fn section_part_of(p: SectionPart, e: XmlNode) -> bool {
    if is_named(e, "H"@) {
        p matches SectionPart::Heading(h) && heading_of(h, e)
    } else if is_named(e, "PARA"@) {
        p matches SectionPart::Paragraph(x) && paragraph_of(x, e)
    } else {
        p matches SectionPart::Opaque(o) && fragment_of(o.xml, e)
    }
}

pub open spec fn section_of(s: Section, es: Seq<XmlNode>) -> bool {
    &&& s.attributes@.len() == 0
    &&& s.parts@.len() == es.len()
    &&& forall|i: int| 0 <= i < es.len() ==> #[trigger] section_part_of(s.parts@[i], es[i])
}

pub open spec fn grouped_part_of(p: DescriptionSectionPart, g: Grouped) -> bool {
    match g {
        Grouped::Sec(es) => p matches DescriptionSectionPart::Section(s) && section_of(s, es),
        Grouped::Loose(e) => p matches DescriptionSectionPart::Opaque(o) && fragment_of(o.xml, e),
    }
}

pub open spec fn grouped_parts_of(ps: Seq<DescriptionSectionPart>, gs: Seq<Grouped>) -> bool {
    &&& ps.len() == gs.len()
    &&& forall|i: int| 0 <= i < gs.len() ==> #[trigger] grouped_part_of(ps[i], gs[i])
}

/// The parts of a description container: its text-block elements grouped
/// into sections.
pub open spec fn section_parts_of(ps: Seq<DescriptionSectionPart>, n: XmlNode) -> bool {
    let (done, cur) = group_fold(btext_elements(n));
    grouped_parts_of(ps, close_section(done, cur))
}

fn push_grouped(
    parts: &mut Vec<DescriptionSectionPart>,
    p: DescriptionSectionPart,
    Ghost(gs): Ghost<Seq<Grouped>>,
    Ghost(g): Ghost<Grouped>,
)
    requires
        grouped_parts_of(old(parts)@, gs),
        grouped_part_of(p, g),
    ensures
        grouped_parts_of(final(parts)@, gs.push(g)),
{
    parts.push(p);
    assert forall|i: int| 0 <= i < gs.len() + 1 implies #[trigger] grouped_part_of(
        parts@[i],
        gs.push(g)[i],
    ) by {
        if i < gs.len() {
            assert(parts@[i] == old(parts)@[i]);
        }
    }
}

fn push_section_part(sec: &mut Section, p: SectionPart, Ghost(es): Ghost<Seq<XmlNode>>, Ghost(e): Ghost<XmlNode>)
    requires
        section_of(*old(sec), es),
        section_part_of(p, e),
    ensures
        section_of(*final(sec), es.push(e)),
{
    sec.parts.push(p);
    assert forall|i: int| 0 <= i < es.len() + 1 implies #[trigger] section_part_of(
        sec.parts@[i],
        es.push(e)[i],
    ) by {
        if i < es.len() {
            assert(sec.parts@[i] == old(sec).parts@[i]);
        }
    }
}

pub fn parse_section_parts(n: &XmlNode) -> (r: Vec<DescriptionSectionPart>)
    ensures
        section_parts_of(r@, *n),
{
    let holder = btext_holder(n);
    let cs = children(holder);
    let mut parts: Vec<DescriptionSectionPart> = Vec::new();
    let mut cur = Section { attributes: Vec::new(), parts: Vec::new() };
    let mut open = false;
    let ghost mut gs: Seq<Grouped> = Seq::empty();
    let ghost mut ces: Seq<XmlNode> = Seq::empty();
    let mut i: usize = 0;
    while i < cs.len()
        invariant
            i <= cs.len(),
            cs@ == spec_children(*holder),
            group_fold(elements_of(cs@.take(i as int))) == (gs, if open {
                Some(ces)
            } else {
                None::<Seq<XmlNode>>
            }),
            grouped_parts_of(parts@, gs),
            open ==> section_of(cur, ces),
        decreases cs.len() - i,
    {
        proof {
            lemma_elements_step(cs@, i as int);
        }
        let c = &cs[i];
        if let XmlNode::Element { .. } = c {
            let ghost es = elements_of(cs@.take(i as int)).push(*c);
            assert(es.drop_last() =~= elements_of(cs@.take(i as int)));
            if has_name(c, "H") {
                if open {
                    push_grouped(&mut parts, DescriptionSectionPart::Section(cur), Ghost(gs), Ghost(Grouped::Sec(ces)));
                    proof {
                        gs = gs.push(Grouped::Sec(ces));
                    }
                }
                let mut fresh = Section { attributes: Vec::new(), parts: Vec::new() };
                push_section_part(&mut fresh, SectionPart::Heading(parse_heading(c)), Ghost(Seq::empty()), Ghost(*c));
                cur = fresh;
                open = true;
                proof {
                    ces = seq![*c];
                    assert(Seq::<XmlNode>::empty().push(*c) =~= seq![*c]);
                }
            } else if has_name(c, "PARA") {
                if !open {
                    cur = Section { attributes: Vec::new(), parts: Vec::new() };
                    open = true;
                    proof {
                        ces = Seq::empty();
                    }
                }
                push_section_part(&mut cur, SectionPart::Paragraph(parse_paragraph(c)), Ghost(ces), Ghost(*c));
                proof {
                    ces = ces.push(*c);
                    assert(Seq::<XmlNode>::empty().push(*c) =~= seq![*c]);
                }
            } else if open {
                push_section_part(&mut cur, SectionPart::Opaque(opaque_block(c)), Ghost(ces), Ghost(*c));
                proof {
                    ces = ces.push(*c);
                }
            } else {
                push_grouped(&mut parts, DescriptionSectionPart::Opaque(opaque_block(c)), Ghost(gs), Ghost(Grouped::Loose(*c)));
                proof {
                    gs = gs.push(Grouped::Loose(*c));
                }
            }
        }
        i += 1;
    }
    assert(cs@.take(cs.len() as int) =~= cs@);
    if open {
        push_grouped(&mut parts, DescriptionSectionPart::Section(cur), Ghost(gs), Ghost(Grouped::Sec(ces)));
    }
    parts
}

pub open spec fn description_part_of(p: DescriptionPart, e: XmlNode) -> bool {
    if is_named(e, "BRFSUM"@) {
        p matches DescriptionPart::SummaryOfInvention(x) && attrs_view(x.attributes@)
            == attrs_view(spec_attrs(e)) && section_parts_of(x.parts@, e)
    } else if is_named(e, "DRWDESC"@) {
        p matches DescriptionPart::BriefDescriptionOfDrawings(x) && attrs_view(x.attributes@)
            == attrs_view(spec_attrs(e)) && section_parts_of(x.parts@, e)
    } else if is_named(e, "DETDESC"@) {
        p matches DescriptionPart::DetailedDescription(x) && attrs_view(x.attributes@)
            == attrs_view(spec_attrs(e)) && section_parts_of(x.parts@, e)
    } else {
        p matches DescriptionPart::Opaque(o) && fragment_of(o.xml, e)
    }
}

pub open spec fn description_of(d: Description, n: XmlNode) -> bool {
    let es = spec_child_elements(n);
    &&& attrs_view(d.attributes@) == attrs_view(spec_attrs(n))
    &&& d.parts@.len() == es.len()
    &&& forall|i: int| 0 <= i < es.len() ==> #[trigger] description_part_of(d.parts@[i], es[i])
}

fn description_part(c: &XmlNode) -> (r: DescriptionPart)
    ensures
        description_part_of(r, *c),
{
    if has_name(c, "BRFSUM") {
        DescriptionPart::SummaryOfInvention(
            SummaryOfInvention { attributes: attributes(c), parts: parse_section_parts(c) },
        )
    } else if has_name(c, "DRWDESC") {
        DescriptionPart::BriefDescriptionOfDrawings(
            BriefDescriptionOfDrawings { attributes: attributes(c), parts: parse_section_parts(c) },
        )
    } else if has_name(c, "DETDESC") {
        DescriptionPart::DetailedDescription(
            DetailedDescription { attributes: attributes(c), parts: parse_section_parts(c) },
        )
    } else {
        DescriptionPart::Opaque(opaque_block(c))
    }
}

pub fn parse_description(n: &XmlNode) -> (r: Description)
    ensures
        description_of(r, *n),
{
    let cs = children(n);
    let mut parts: Vec<DescriptionPart> = Vec::new();
    let mut i: usize = 0;
    while i < cs.len()
        invariant
            i <= cs.len(),
            cs@ == spec_children(*n),
            parts@.len() == elements_of(cs@.take(i as int)).len(),
            forall|j: int| 0 <= j < parts@.len() ==> #[trigger] description_part_of(
                parts@[j],
                elements_of(cs@.take(i as int))[j],
            ),
        decreases cs.len() - i,
    {
        proof {
            lemma_elements_step(cs@, i as int);
        }
        let c = &cs[i];
        if let XmlNode::Element { .. } = c {
            parts.push(description_part(c));
        }
        i += 1;
    }
    assert(cs@.take(cs.len() as int) =~= cs@);
    Description { attributes: attributes(n), parts }
}


// ---------------------------------------------------------------------------
// Bibliographic data
// ---------------------------------------------------------------------------

/// The node reached from `n` by following the first child element of each
/// name in `path`.
pub open spec fn spec_descendant(n: XmlNode, path: Seq<Seq<char>>) -> Option<XmlNode>
    decreases path.len(),
{
    if path.len() == 0 {
        Some(n)
    } else {
        match spec_child_element(n, path[0]) {
            Some(c) => spec_descendant(c, path.drop_first()),
            None => None,
        }
    }
}

/// The trimmed text at the end of `path`, when there is some.
pub open spec fn descendant_text(n: XmlNode, path: Seq<Seq<char>>) -> Option<Seq<char>> {
    match spec_descendant(n, path) {
        Some(d) => {
            let v = trim(spec_text_content(d));
            if v.len() > 0 {
                Some(v)
            } else {
                None
            }
        },
        None => None,
    }
}

pub open spec fn path_view(path: Seq<&str>) -> Seq<Seq<char>> {
    path.map_values(|s: &str| s@)
}

fn descendant<'a>(n: &'a XmlNode, path: &[&str]) -> (r: Option<&'a XmlNode>)
    ensures
        match spec_descendant(*n, path_view(path@)) {
            Some(d) => r matches Some(x) && *x == d,
            None => r is None,
        },
{
    let ghost pv = path_view(path@);
    let mut cur = n;
    let mut i: usize = 0;
    assert(pv.subrange(0, pv.len() as int) =~= pv);
    while i < path.len()
        invariant
            i <= path.len(),
            pv == path_view(path@),
            spec_descendant(*n, pv) == spec_descendant(*cur, pv.subrange(i as int, pv.len() as int)),
        decreases path.len() - i,
    {
        let ghost rest = pv.subrange(i as int, pv.len() as int);
        assert(rest[0] == path@[i as int]@);
        assert(rest.drop_first() =~= pv.subrange(i + 1, pv.len() as int));
        match child_element(cur, path[i]) {
            Some(c) => {
                cur = c;
            },
            None => return None,
        }
        i += 1;
    }
    assert(pv.subrange(pv.len() as int, pv.len() as int) =~= Seq::<Seq<char>>::empty());
    Some(cur)
}

fn desc_text(n: &XmlNode, path: &[&str]) -> (r: Option<String>)
    ensures
        opt_view(r) == descendant_text(*n, path_view(path@)),
{
    match descendant(n, path) {
        Some(d) => {
            let t = text_content(d);
            let v = trim_chars(t.as_slice());
            if v.len() > 0 {
                Some(string_of(v.as_slice()))
            } else {
                None
            }
        },
        None => None,
    }
}

pub open spec fn doc_id_of(d: DocumentId, n: XmlNode) -> bool {
    &&& d.doc_number@ == crate::source::uspto::application_v4x::or_empty(
        descendant_text(n, seq!["B110"@, "DNUM"@, "PDAT"@]),
    )
    &&& opt_view(d.kind_code) == descendant_text(n, seq!["B130"@, "PDAT"@])
    &&& opt_view(d.document_date) == descendant_text(n, seq!["B140"@, "DATE"@, "PDAT"@])
    &&& opt_view(d.country_code) == descendant_text(n, seq!["B190"@, "PDAT"@])
}

fn parse_b100(n: &XmlNode) -> (r: DocumentId)
    ensures
        doc_id_of(r, *n),
{
    let p1: [&str; 3] = ["B110", "DNUM", "PDAT"];
    let p2: [&str; 2] = ["B130", "PDAT"];
    let p3: [&str; 3] = ["B140", "DATE", "PDAT"];
    let p4: [&str; 2] = ["B190", "PDAT"];
    assert(path_view(p1@) =~= seq!["B110"@, "DNUM"@, "PDAT"@]);
    assert(path_view(p2@) =~= seq!["B130"@, "PDAT"@]);
    assert(path_view(p3@) =~= seq!["B140"@, "DATE"@, "PDAT"@]);
    assert(path_view(p4@) =~= seq!["B190"@, "PDAT"@]);
    let doc_number = match desc_text(n, &p1) {
        Some(v) => v,
        None => String::new(),
    };
    DocumentId {
        doc_number,
        kind_code: desc_text(n, &p2),
        document_date: desc_text(n, &p3),
        country_code: desc_text(n, &p4),
    }
}

/// The index of the first character at or after `i` that is not `0`.
pub open spec fn past_zeros(s: Seq<char>, i: int) -> int
    decreases s.len() - i,
{
    if 0 <= i < s.len() && s[i] == '0' {
        past_zeros(s, i + 1)
    } else {
        i
    }
}

/// A number written with digits alone loses its leading zeros (all zeros is
/// `0`); anything else is only trimmed.
pub open spec fn spec_normalize_numeric(v: Seq<char>) -> Seq<char> {
    let t = trim(v);
    if t.len() == 0 || !crate::text::all_digits(t) {
        t
    } else if past_zeros(t, 0) >= t.len() {
        "0"@
    } else {
        t.subrange(past_zeros(t, 0), t.len() as int)
    }
}

pub fn normalize_numeric_identifier(value: &str) -> (r: String)
    ensures
        r@ == spec_normalize_numeric(value@),
{
    let t = crate::text::trim_str(value);
    if t.len() == 0 || !crate::text::all_ascii_digits(t.as_slice()) {
        return string_of(t.as_slice());
    }
    let mut i: usize = 0;
    while i < t.len() && t[i] == '0'
        invariant
            i <= t.len(),
            past_zeros(t@, 0) == past_zeros(t@, i as int),
        decreases t.len() - i,
    {
        i += 1;
    }
    if i >= t.len() {
        copy_str("0")
    } else {
        string_of(crate::text::slice_chars(t.as_slice(), i, t.len()).as_slice())
    }
}

pub open spec fn b200_of(d: DomesticFilingData, n: XmlNode) -> bool {
    let num = descendant_text(n, seq!["B210"@, "DNUM"@, "PDAT"@]);
    let date = descendant_text(n, seq!["B220"@, "DATE"@, "PDAT"@]);
    let k: int = if num is Some {
        1
    } else {
        0
    };
    &&& attrs_view(d.attributes@) == attrs_view(spec_attrs(n))
    &&& d.parts@.len() == k + (if date is Some {
        1int
    } else {
        0int
    })
    &&& (num matches Some(v) ==> (d.parts@[0] matches DomesticFilingPart::ApplicationNumber(a)
        && a.attributes@.len() == 0 && a.appl_type is None && opt_view(a.doc_number) == Some(
        spec_normalize_numeric(v),
    )))
    &&& (date matches Some(v) ==> (d.parts@[k] matches DomesticFilingPart::FilingDate(x) && x@
        == v))
}

fn parse_b200(n: &XmlNode) -> (r: DomesticFilingData)
    ensures
        b200_of(r, *n),
{
    let p1: [&str; 3] = ["B210", "DNUM", "PDAT"];
    let p2: [&str; 3] = ["B220", "DATE", "PDAT"];
    assert(path_view(p1@) =~= seq!["B210"@, "DNUM"@, "PDAT"@]);
    assert(path_view(p2@) =~= seq!["B220"@, "DATE"@, "PDAT"@]);
    let mut parts: Vec<DomesticFilingPart> = Vec::new();
    if let Some(doc_number) = desc_text(n, &p1) {
        parts.push(
            DomesticFilingPart::ApplicationNumber(
                ApplicationNumber {
                    attributes: Vec::new(),
                    appl_type: None,
                    doc_number: Some(normalize_numeric_identifier(doc_number.as_str())),
                },
            ),
        );
    }
    if let Some(date) = desc_text(n, &p2) {
        parts.push(DomesticFilingPart::FilingDate(date));
    }
    DomesticFilingData { attributes: attributes(n), parts }
}

pub open spec fn b620_of(r: RelatedDocument, n: XmlNode) -> bool {
    &&& attrs_view(r.attributes@) == attrs_view(spec_attrs(n))
    &&& opt_view(r.parent_doc_number) == descendant_text(
        n,
        seq!["PARENT-US"@, "PDOC"@, "DOC"@, "DNUM"@, "PDAT"@],
    )
    &&& opt_view(r.parent_date) == descendant_text(
        n,
        seq!["PARENT-US"@, "PDOC"@, "DOC"@, "DATE"@, "PDAT"@],
    )
    &&& opt_view(r.child_doc_number) == descendant_text(
        n,
        seq!["PARENT-US"@, "CDOC"@, "DOC"@, "DNUM"@, "PDAT"@],
    )
    &&& opt_view(r.relationship) == Some("parent-us"@)
}

fn parse_b620(n: &XmlNode) -> (r: RelatedDocument)
    ensures
        b620_of(r, *n),
{
    let p1: [&str; 5] = ["PARENT-US", "PDOC", "DOC", "DNUM", "PDAT"];
    let p2: [&str; 5] = ["PARENT-US", "PDOC", "DOC", "DATE", "PDAT"];
    let p3: [&str; 5] = ["PARENT-US", "CDOC", "DOC", "DNUM", "PDAT"];
    assert(path_view(p1@) =~= seq!["PARENT-US"@, "PDOC"@, "DOC"@, "DNUM"@, "PDAT"@]);
    assert(path_view(p2@) =~= seq!["PARENT-US"@, "PDOC"@, "DOC"@, "DATE"@, "PDAT"@]);
    assert(path_view(p3@) =~= seq!["PARENT-US"@, "CDOC"@, "DOC"@, "DNUM"@, "PDAT"@]);
    RelatedDocument {
        attributes: attributes(n),
        parent_doc_number: desc_text(n, &p1),
        parent_date: desc_text(n, &p2),
        child_doc_number: desc_text(n, &p3),
        relationship: Some(copy_str("parent-us")),
    }
}

pub open spec fn b680us_of(r: RelatedDocument, n: XmlNode) -> bool {
    &&& attrs_view(r.attributes@) == attrs_view(spec_attrs(n))
    &&& opt_view(r.parent_doc_number) == descendant_text(n, seq!["DOC"@, "DNUM"@, "PDAT"@])
    &&& opt_view(r.parent_date) == descendant_text(n, seq!["DOC"@, "DATE"@, "PDAT"@])
    &&& r.child_doc_number is None
    &&& opt_view(r.relationship) == Some("us-provisional-application"@)
}

fn parse_b680us(n: &XmlNode) -> (r: RelatedDocument)
    ensures
        b680us_of(r, *n),
{
    let p1: [&str; 3] = ["DOC", "DNUM", "PDAT"];
    let p2: [&str; 3] = ["DOC", "DATE", "PDAT"];
    assert(path_view(p1@) =~= seq!["DOC"@, "DNUM"@, "PDAT"@]);
    assert(path_view(p2@) =~= seq!["DOC"@, "DATE"@, "PDAT"@]);
    RelatedDocument {
        attributes: attributes(n),
        parent_doc_number: desc_text(n, &p1),
        parent_date: desc_text(n, &p2),
        child_doc_number: None,
        relationship: Some(copy_str("us-provisional-application")),
    }
}

pub open spec fn b600_part_of(p: ContinuityPart, e: XmlNode) -> bool {
    if is_named(e, "B620"@) {
        p matches ContinuityPart::RelatedDocument(r) && b620_of(r, e)
    } else if is_named(e, "B680US"@) {
        p matches ContinuityPart::RelatedDocument(r) && b680us_of(r, e)
    } else {
        p matches ContinuityPart::Opaque(o) && fragment_of(o.xml, e)
    }
}

pub open spec fn b600_of(c: ContinuityData, n: XmlNode) -> bool {
    let es = spec_child_elements(n);
    &&& attrs_view(c.attributes@) == attrs_view(spec_attrs(n))
    &&& c.parts@.len() == es.len()
    &&& forall|i: int| 0 <= i < es.len() ==> #[trigger] b600_part_of(c.parts@[i], es[i])
}

fn parse_b600(n: &XmlNode) -> (r: ContinuityData)
    ensures
        b600_of(r, *n),
{
    let cs = children(n);
    let mut parts: Vec<ContinuityPart> = Vec::new();
    let mut i: usize = 0;
    while i < cs.len()
        invariant
            i <= cs.len(),
            cs@ == spec_children(*n),
            parts@.len() == elements_of(cs@.take(i as int)).len(),
            forall|j: int| 0 <= j < parts@.len() ==> #[trigger] b600_part_of(
                parts@[j],
                elements_of(cs@.take(i as int))[j],
            ),
        decreases cs.len() - i,
    {
        proof {
            lemma_elements_step(cs@, i as int);
        }
        let c = &cs[i];
        if let XmlNode::Element { .. } = c {
            let part = if has_name(c, "B620") {
                ContinuityPart::RelatedDocument(parse_b620(c))
            } else if has_name(c, "B680US") {
                ContinuityPart::RelatedDocument(parse_b680us(c))
            } else {
                ContinuityPart::Opaque(opaque_block(c))
            };
            parts.push(part);
        }
        i += 1;
    }
    assert(cs@.take(cs.len() as int) =~= cs@);
    ContinuityData { attributes: attributes(n), parts }
}


/// A party's name: its organization name, else its first and last names
/// joined by a space, else whichever of them it has.
pub open spec fn party_name(n: XmlNode) -> Option<Seq<char>> {
    match descendant_text(n, seq!["PARTY-US"@, "NAM"@, "ONM"@, "STEXT"@, "PDAT"@]) {
        Some(v) => Some(v),
        None => {
            let first = descendant_text(n, seq!["PARTY-US"@, "NAM"@, "FNM"@, "PDAT"@]);
            let last = descendant_text(n, seq!["PARTY-US"@, "NAM"@, "SNM"@, "STEXT"@, "PDAT"@]);
            match (first, last) {
                (Some(f), Some(l)) => Some(f + " "@ + l),
                (Some(f), None) => Some(f),
                (None, Some(l)) => Some(l),
                (None, None) => None,
            }
        },
    }
}

fn parse_party_name(n: &XmlNode) -> (r: Option<String>)
    ensures
        opt_view(r) == party_name(*n),
{
    let p0: [&str; 5] = ["PARTY-US", "NAM", "ONM", "STEXT", "PDAT"];
    let p1: [&str; 4] = ["PARTY-US", "NAM", "FNM", "PDAT"];
    let p2: [&str; 5] = ["PARTY-US", "NAM", "SNM", "STEXT", "PDAT"];
    assert(path_view(p0@) =~= seq!["PARTY-US"@, "NAM"@, "ONM"@, "STEXT"@, "PDAT"@]);
    assert(path_view(p1@) =~= seq!["PARTY-US"@, "NAM"@, "FNM"@, "PDAT"@]);
    assert(path_view(p2@) =~= seq!["PARTY-US"@, "NAM"@, "SNM"@, "STEXT"@, "PDAT"@]);
    if let Some(name) = desc_text(n, &p0) {
        return Some(name);
    }
    let first = desc_text(n, &p1);
    let last = desc_text(n, &p2);
    match (first, last) {
        (Some(f), Some(l)) => {
            let mut out = f;
            push_str(&mut out, " ");
            push_str(&mut out, l.as_str());
            Some(out)
        },
        (Some(f), None) => Some(f),
        (None, Some(l)) => Some(l),
        (None, None) => None,
    }
}

/// The elements of `es` named `name`, in order.
pub open spec fn named_only(es: Seq<XmlNode>, name: Seq<char>) -> Seq<XmlNode>
    decreases es.len(),
{
    if es.len() == 0 {
        Seq::empty()
    } else if is_named(es.last(), name) {
        named_only(es.drop_last(), name).push(es.last())
    } else {
        named_only(es.drop_last(), name)
    }
}

pub open spec fn party_of(p: NamedParty, e: XmlNode) -> bool {
    attrs_view(p.attributes@) == attrs_view(spec_attrs(e)) && opt_view(p.name) == party_name(e)
}

/// The parties of a `B720`/`B730` list: one per item element.
pub open spec fn parties_of(np: NamedParties, n: XmlNode, item: Seq<char>) -> bool {
    let es = named_only(spec_child_elements(n), item);
    &&& attrs_view(np.attributes@) == attrs_view(spec_attrs(n))
    &&& np.parties@.len() == es.len()
    &&& forall|i: int| 0 <= i < es.len() ==> #[trigger] party_of(np.parties@[i], es[i])
}

fn parse_parties(n: &XmlNode, item: &str) -> (r: NamedParties)
    ensures
        parties_of(r, *n, item@),
{
    let cs = children(n);
    let mut parties: Vec<NamedParty> = Vec::new();
    let mut i: usize = 0;
    while i < cs.len()
        invariant
            i <= cs.len(),
            cs@ == spec_children(*n),
            parties@.len() == named_only(elements_of(cs@.take(i as int)), item@).len(),
            forall|j: int| 0 <= j < parties@.len() ==> #[trigger] party_of(
                parties@[j],
                named_only(elements_of(cs@.take(i as int)), item@)[j],
            ),
        decreases cs.len() - i,
    {
        proof {
            lemma_elements_step(cs@, i as int);
        }
        let c = &cs[i];
        if let XmlNode::Element { .. } = c {
            let ghost es = elements_of(cs@.take(i as int)).push(*c);
            assert(es.drop_last() =~= elements_of(cs@.take(i as int)));
            if has_name(c, item) {
                parties.push(NamedParty { attributes: attributes(c), name: parse_party_name(c) });
            }
        }
        i += 1;
    }
    assert(cs@.take(cs.len() as int) =~= cs@);
    NamedParties { attributes: attributes(n), parties }
}

/// The parts a `B700` gives: applicants from `B720`, then assignees from
/// `B730`, each when present.
pub open spec fn b700_of(ps: Seq<BibliographicPart>, n: XmlNode) -> bool {
    let a = spec_child_element(n, "B720"@);
    let s = spec_child_element(n, "B730"@);
    let k: int = if a is Some {
        1
    } else {
        0
    };
    &&& ps.len() == k + (if s is Some {
        1int
    } else {
        0int
    })
    &&& (a matches Some(e) ==> (ps[0] matches BibliographicPart::Applicants(np) && parties_of(
        np,
        e,
        "B721"@,
    )))
    &&& (s matches Some(e) ==> (ps[k] matches BibliographicPart::Assignees(np) && parties_of(
        np,
        e,
        "B731"@,
    )))
}

fn parse_b700(n: &XmlNode) -> (r: Vec<BibliographicPart>)
    ensures
        b700_of(r@, *n),
{
    let mut parts: Vec<BibliographicPart> = Vec::new();
    if let Some(c) = child_element(n, "B720") {
        parts.push(BibliographicPart::Applicants(parse_parties(c, "B721")));
    }
    if let Some(c) = child_element(n, "B730") {
        parts.push(BibliographicPart::Assignees(parse_parties(c, "B731")));
    }
    parts
}

/// A `B500` element that gives a technical part: `B510`, `B520`, and a
/// `B540` with a title.
pub open spec fn gives_tech(e: XmlNode) -> bool {
    is_named(e, "B510"@) || is_named(e, "B520"@) || (is_named(e, "B540"@) && descendant_text(
        e,
        seq!["STEXT"@, "PDAT"@],
    ) is Some)
}

pub open spec fn is_tech_name(e: XmlNode) -> bool {
    is_named(e, "B510"@) || is_named(e, "B520"@) || is_named(e, "B540"@)
}

pub open spec fn tech_elements(es: Seq<XmlNode>) -> Seq<XmlNode>
    decreases es.len(),
{
    if es.len() == 0 {
        Seq::empty()
    } else if gives_tech(es.last()) {
        tech_elements(es.drop_last()).push(es.last())
    } else {
        tech_elements(es.drop_last())
    }
}

pub open spec fn extra_elements(es: Seq<XmlNode>) -> Seq<XmlNode>
    decreases es.len(),
{
    if es.len() == 0 {
        Seq::empty()
    } else if !is_tech_name(es.last()) {
        extra_elements(es.drop_last()).push(es.last())
    } else {
        extra_elements(es.drop_last())
    }
}

pub open spec fn tech_part_of(p: TechnicalInformationPart, e: XmlNode) -> bool {
    if is_named(e, "B510"@) {
        &&& p matches TechnicalInformationPart::ClassificationIpc(c)
        &&& attrs_view(c.attributes@) == attrs_view(spec_attrs(e))
        &&& opt_view(c.main_classification) == descendant_text(e, seq!["B511"@, "PDAT"@])
        &&& c.further_classification@.len() == 0
    } else if is_named(e, "B520"@) {
        &&& p matches TechnicalInformationPart::ClassificationUs(c)
        &&& attrs_view(c.attributes@) == attrs_view(spec_attrs(e))
        &&& opt_view(c.national_classification) == descendant_text(e, seq!["B521"@, "PDAT"@])
        &&& c.further_classification@.len() == 0
    } else {
        p matches TechnicalInformationPart::TitleOfInvention(t) && Some(t@) == descendant_text(
            e,
            seq!["STEXT"@, "PDAT"@],
        )
    }
}

pub open spec fn tech_parts_of(ps: Seq<TechnicalInformationPart>, es: Seq<XmlNode>) -> bool {
    &&& ps.len() == es.len()
    &&& forall|i: int| 0 <= i < es.len() ==> #[trigger] tech_part_of(ps[i], es[i])
}

pub open spec fn extra_parts_of(ps: Seq<BibliographicPart>, es: Seq<XmlNode>) -> bool {
    &&& ps.len() == es.len()
    &&& forall|i: int| 0 <= i < es.len() ==> (#[trigger] ps[i] matches BibliographicPart::Opaque(o)
        && fragment_of(o.xml, es[i]))
}

/// The parts a `B500` gives: its classifications and title gathered into one
/// technical part (when there is any), then its other elements verbatim.
pub open spec fn b500_of(ps: Seq<BibliographicPart>, n: XmlNode) -> bool {
    let es = spec_child_elements(n);
    let t = tech_elements(es);
    let x = extra_elements(es);
    let k: int = if t.len() > 0 {
        1
    } else {
        0
    };
    &&& ps.len() == k + x.len()
    &&& (t.len() > 0 ==> (ps[0] matches BibliographicPart::TechnicalInformation(ti) && attrs_view(
        ti.attributes@,
    ) == attrs_view(spec_attrs(n)) && tech_parts_of(ti.parts@, t)))
    &&& extra_parts_of(ps.subrange(k, ps.len() as int), x)
}

fn parse_b500(n: &XmlNode) -> (r: Vec<BibliographicPart>)
    ensures
        b500_of(r@, *n),
{
    let cs = children(n);
    let mut tech: Vec<TechnicalInformationPart> = Vec::new();
    let mut extra: Vec<BibliographicPart> = Vec::new();
    let p1: [&str; 2] = ["B511", "PDAT"];
    let p2: [&str; 2] = ["B521", "PDAT"];
    let p3: [&str; 2] = ["STEXT", "PDAT"];
    assert(path_view(p1@) =~= seq!["B511"@, "PDAT"@]);
    assert(path_view(p2@) =~= seq!["B521"@, "PDAT"@]);
    assert(path_view(p3@) =~= seq!["STEXT"@, "PDAT"@]);
    let mut i: usize = 0;
    while i < cs.len()
        invariant
            i <= cs.len(),
            cs@ == spec_children(*n),
            path_view(p1@) == seq!["B511"@, "PDAT"@],
            path_view(p2@) == seq!["B521"@, "PDAT"@],
            path_view(p3@) == seq!["STEXT"@, "PDAT"@],
            tech_parts_of(tech@, tech_elements(elements_of(cs@.take(i as int)))),
            extra_parts_of(extra@, extra_elements(elements_of(cs@.take(i as int)))),
        decreases cs.len() - i,
    {
        proof {
            lemma_elements_step(cs@, i as int);
        }
        let c = &cs[i];
        if let XmlNode::Element { .. } = c {
            let ghost es = elements_of(cs@.take(i as int)).push(*c);
            assert(es.drop_last() =~= elements_of(cs@.take(i as int)));
            if has_name(c, "B510") {
                tech.push(
                    TechnicalInformationPart::ClassificationIpc(
                        ClassificationIpc {
                            attributes: attributes(c),
                            main_classification: desc_text(c, &p1),
                            further_classification: Vec::new(),
                        },
                    ),
                );
            } else if has_name(c, "B520") {
                tech.push(
                    TechnicalInformationPart::ClassificationUs(
                        ClassificationUs {
                            attributes: attributes(c),
                            national_classification: desc_text(c, &p2),
                            further_classification: Vec::new(),
                        },
                    ),
                );
            } else if has_name(c, "B540") {
                if let Some(title) = desc_text(c, &p3) {
                    tech.push(TechnicalInformationPart::TitleOfInvention(title));
                }
            } else {
                extra.push(BibliographicPart::Opaque(opaque_block(c)));
            }
        }
        i += 1;
    }
    assert(cs@.take(cs.len() as int) =~= cs@);
    let mut parts: Vec<BibliographicPart> = Vec::new();
    if tech.len() > 0 {
        parts.push(
            BibliographicPart::TechnicalInformation(
                TechnicalInformation { attributes: attributes(n), parts: tech },
            ),
        );
    }
    let ghost k = parts@.len();
    let ghost ev = extra@;
    parts.append(&mut extra);
    assert(parts@.subrange(k as int, parts@.len() as int) =~= ev);
    parts
}

/// How many parts a bibliographic element gives.
pub open spec fn bib_count(e: XmlNode) -> nat {
    if is_named(e, "B500"@) {
        let es = spec_child_elements(e);
        (if tech_elements(es).len() > 0 {
            1nat
        } else {
            0nat
        }) + extra_elements(es).len()
    } else if is_named(e, "B700"@) {
        (if spec_child_element(e, "B720"@) is Some {
            1nat
        } else {
            0nat
        }) + (if spec_child_element(e, "B730"@) is Some {
            1nat
        } else {
            0nat
        })
    } else {
        1
    }
}

/// The parts one bibliographic element gives: `B100` document id, `B200`
/// filing data, `B600` continuity, `B500` and `B700` their several parts,
/// anything else verbatim.
pub open spec fn bib_parts_one(ps: Seq<BibliographicPart>, e: XmlNode) -> bool {
    if is_named(e, "B500"@) {
        b500_of(ps, e)
    } else if is_named(e, "B700"@) {
        b700_of(ps, e)
    } else {
        &&& ps.len() == 1
        &&& if is_named(e, "B100"@) {
            ps[0] matches BibliographicPart::DocumentId(d) && doc_id_of(d, e)
        } else if is_named(e, "B200"@) {
            ps[0] matches BibliographicPart::DomesticFilingData(d) && b200_of(d, e)
        } else if is_named(e, "B600"@) {
            ps[0] matches BibliographicPart::ContinuityData(c) && b600_of(c, e)
        } else {
            ps[0] matches BibliographicPart::Opaque(o) && fragment_of(o.xml, e)
        }
    }
}

pub open spec fn bib_parts_of(ps: Seq<BibliographicPart>, es: Seq<XmlNode>) -> bool
    decreases es.len(),
{
    if es.len() == 0 {
        ps.len() == 0
    } else {
        let k = bib_count(es.last());
        &&& ps.len() >= k
        &&& bib_parts_of(ps.subrange(0, ps.len() - k), es.drop_last())
        &&& bib_parts_one(ps.subrange(ps.len() - k, ps.len() as int), es.last())
    }
}

pub open spec fn biblio_of(b: BibliographicInformation, n: XmlNode) -> bool {
    &&& attrs_view(b.attributes@) == attrs_view(spec_attrs(n))
    &&& bib_parts_of(b.parts@, spec_child_elements(n))
}

fn bib_parts_from(c: &XmlNode) -> (r: Vec<BibliographicPart>)
    ensures
        bib_parts_one(r@, *c),
        r@.len() == bib_count(*c),
{
    if has_name(c, "B500") {
        parse_b500(c)
    } else if has_name(c, "B700") {
        parse_b700(c)
    } else {
        let part = if has_name(c, "B100") {
            BibliographicPart::DocumentId(parse_b100(c))
        } else if has_name(c, "B200") {
            BibliographicPart::DomesticFilingData(parse_b200(c))
        } else if has_name(c, "B600") {
            BibliographicPart::ContinuityData(parse_b600(c))
        } else {
            BibliographicPart::Opaque(opaque_block(c))
        };
        let mut v: Vec<BibliographicPart> = Vec::new();
        v.push(part);
        v
    }
}

pub fn parse_bibliographic_information(n: &XmlNode) -> (r: BibliographicInformation)
    ensures
        biblio_of(r, *n),
{
    let cs = children(n);
    let mut parts: Vec<BibliographicPart> = Vec::new();
    let mut i: usize = 0;
    while i < cs.len()
        invariant
            i <= cs.len(),
            cs@ == spec_children(*n),
            bib_parts_of(parts@, elements_of(cs@.take(i as int))),
        decreases cs.len() - i,
    {
        proof {
            lemma_elements_step(cs@, i as int);
        }
        let c = &cs[i];
        if let XmlNode::Element { .. } = c {
            let ghost before = parts@;
            let ghost es = elements_of(cs@.take(i as int)).push(*c);
            assert(es.drop_last() =~= elements_of(cs@.take(i as int)));
            let mut more = bib_parts_from(c);
            let ghost mv = more@;
            parts.append(&mut more);
            assert(parts@.subrange(0, parts@.len() - mv.len()) =~= before);
            assert(parts@.subrange(parts@.len() - mv.len(), parts@.len() as int) =~= mv);
        }
        i += 1;
    }
    assert(cs@.take(cs.len() as int) =~= cs@);
    BibliographicInformation { attributes: attributes(n), parts }
}


// ---------------------------------------------------------------------------
// Writing: runs and text blocks
// ---------------------------------------------------------------------------

pub open spec fn empty_attrs() -> Seq<XmlAttribute> {
    Seq::empty()
}

/// Text as a `PDAT` element.
pub open spec fn pdat_xml(v: Seq<char>) -> Seq<char> {
    spec_text_element("PDAT"@, v)
}

/// `<tag><PDAT>v</PDAT></tag>`.
pub open spec fn pdat_block_xml(tag: Seq<char>, v: Seq<char>) -> Seq<char> {
    spec_start_tag(tag, empty_attrs()) + pdat_xml(v) + spec_end_tag(tag)
}

/// `<outer><inner><PDAT>v</PDAT></inner></outer>`.
pub open spec fn nested_pdat_xml(outer: Seq<char>, inner: Seq<char>, v: Seq<char>) -> Seq<char> {
    spec_start_tag(outer, empty_attrs()) + pdat_block_xml(inner, v) + spec_end_tag(outer)
}

pub open spec fn inline_xml(tag: Seq<char>, attrs: Seq<XmlAttribute>, content: Seq<Run>) -> Seq<
    char,
>
    decreases content, 1nat,
{
    spec_start_tag(tag, attrs) + runs_xml(content) + spec_end_tag(tag)
}

/// Runs as ST.32 markup: text as `PDAT`, bold, italic, highlight, figure and
/// claim references as their elements, verbatim runs as written, and the
/// content of other wrappers inline.
pub open spec fn runs_xml(rs: Seq<Run>) -> Seq<char>
    decreases rs, 0nat,
{
    if rs.len() == 0 {
        Seq::empty()
    } else {
        runs_xml(rs.drop_last()) + match rs.last() {
            Run::Text(v) => pdat_xml(v@),
            Run::Bold(v) => inline_xml("BOLD"@, v.attributes@, v.content@),
            Run::Italic(v) => inline_xml("ITALIC"@, v.attributes@, v.content@),
            Run::Highlight(v) => inline_xml("HIL"@, v.attributes@, v.content@),
            Run::ClaimText(v) => runs_xml(v.content@),
            Run::Opaque(v) => spec_fragment_xml(v.xml),
            Run::Number(v) => runs_xml(v.content@),
            Run::CrossReference(v) => runs_xml(v.content@),
            Run::FigureReference(v) => inline_xml("FGREF"@, v.attributes@, v.content@),
            Run::DependentClaimReference(v) => inline_xml("CLREF"@, v.attributes@, v.content@),
        }
    }
}

fn write_pdat(output: &mut String, value: &str)
    ensures
        final(output)@ == old(output)@ + pdat_xml(value@),
{
    crate::source::xml_write::write_text_element(output, "PDAT", value);
}

fn write_pdat_block(output: &mut String, tag: &str, value: &str)
    ensures
        final(output)@ == old(output)@ + pdat_block_xml(tag@, value@),
{
    let empty: Vec<XmlAttribute> = Vec::new();
    start_tag(output, tag, empty.as_slice());
    write_pdat(output, value);
    end_tag(output, tag);
    assert(output@ =~= old(output)@ + pdat_block_xml(tag@, value@));
}

fn write_nested_pdat(output: &mut String, outer: &str, inner: &str, value: &str)
    ensures
        final(output)@ == old(output)@ + nested_pdat_xml(outer@, inner@, value@),
{
    let empty: Vec<XmlAttribute> = Vec::new();
    start_tag(output, outer, empty.as_slice());
    write_pdat_block(output, inner, value);
    end_tag(output, outer);
    assert(output@ =~= old(output)@ + nested_pdat_xml(outer@, inner@, value@));
}

fn write_inline(output: &mut String, tag: &str, attributes: &Vec<XmlAttribute>, content: &Vec<Run>)
    ensures
        final(output)@ == old(output)@ + inline_xml(tag@, attributes@, content@),
    decreases content@, 1nat,
{
    start_tag(output, tag, attributes.as_slice());
    write_runs(output, content);
    end_tag(output, tag);
}

fn write_runs(output: &mut String, runs: &Vec<Run>)
    ensures
        final(output)@ == old(output)@ + runs_xml(runs@),
    decreases runs@, 0nat,
{
    let mut i: usize = 0;
    while i < runs.len()
        invariant
            i <= runs.len(),
            output@ == old(output)@ + runs_xml(runs@.take(i as int)),
        decreases runs.len() - i,
    {
        assert(runs@.take(i + 1).drop_last() =~= runs@.take(i as int));
        proof {
            assert(decreases_to!(runs@ => runs@[i as int]));
        }
        match &runs[i] {
            Run::Text(v) => write_pdat(output, v.as_str()),
            Run::Bold(v) => {
                proof { assert(decreases_to!(runs@[i as int] => v.content@)) by { assert(decreases_to!(v.content => v.content@)); } }
                write_inline(output, "BOLD", &v.attributes, &v.content)
            },
            Run::Italic(v) => {
                proof { assert(decreases_to!(runs@[i as int] => v.content@)) by { assert(decreases_to!(v.content => v.content@)); } }
                write_inline(output, "ITALIC", &v.attributes, &v.content)
            },
            Run::Highlight(v) => {
                proof { assert(decreases_to!(runs@[i as int] => v.content@)) by { assert(decreases_to!(v.content => v.content@)); } }
                write_inline(output, "HIL", &v.attributes, &v.content)
            },
            Run::ClaimText(v) => {
                proof { assert(decreases_to!(runs@[i as int] => v.content@)) by { assert(decreases_to!(v.content => v.content@)); } }
                write_runs(output, &v.content)
            },
            Run::Opaque(v) => write_xml_fragment(output, &v.xml),
            Run::Number(v) => {
                proof { assert(decreases_to!(runs@[i as int] => v.content@)) by { assert(decreases_to!(v.content => v.content@)); } }
                write_runs(output, &v.content)
            },
            Run::CrossReference(v) => {
                proof { assert(decreases_to!(runs@[i as int] => v.content@)) by { assert(decreases_to!(v.content => v.content@)); } }
                write_runs(output, &v.content)
            },
            Run::FigureReference(v) => {
                proof { assert(decreases_to!(runs@[i as int] => v.content@)) by { assert(decreases_to!(v.content => v.content@)); } }
                write_inline(output, "FGREF", &v.attributes, &v.content)
            },
            Run::DependentClaimReference(v) => {
                proof { assert(decreases_to!(runs@[i as int] => v.content@)) by { assert(decreases_to!(v.content => v.content@)); } }
                write_inline(output, "CLREF", &v.attributes, &v.content)
            },
        }
        i += 1;
    }
    assert(runs@.take(runs.len() as int) =~= runs@);
}

/// `<wrapper>` around runs.
pub open spec fn run_wrapper_xml(wrapper: Seq<char>, rs: Seq<Run>) -> Seq<char> {
    spec_start_tag(wrapper, empty_attrs()) + runs_xml(rs) + spec_end_tag(wrapper)
}

fn write_run_wrapper(output: &mut String, wrapper: &str, runs: &Vec<Run>)
    ensures
        final(output)@ == old(output)@ + run_wrapper_xml(wrapper@, runs@),
{
    let empty: Vec<XmlAttribute> = Vec::new();
    start_tag(output, wrapper, empty.as_slice());
    write_runs(output, runs);
    end_tag(output, wrapper);
    assert(output@ =~= old(output)@ + run_wrapper_xml(wrapper@, runs@));
}

pub open spec fn heading_xml(h: Heading) -> Seq<char> {
    spec_start_tag("H"@, h.attributes@) + run_wrapper_xml("STEXT"@, h.content@) + spec_end_tag(
        "H"@,
    )
}

pub open spec fn paragraph_xml(p: Paragraph) -> Seq<char> {
    spec_start_tag("PARA"@, p.attributes@) + run_wrapper_xml("PTEXT"@, p.content@) + spec_end_tag(
        "PARA"@,
    )
}

fn write_heading(output: &mut String, value: &Heading)
    ensures
        final(output)@ == old(output)@ + heading_xml(*value),
{
    start_tag(output, "H", value.attributes.as_slice());
    write_run_wrapper(output, "STEXT", &value.content);
    end_tag(output, "H");
    assert(output@ =~= old(output)@ + heading_xml(*value));
}

fn write_paragraph(output: &mut String, value: &Paragraph)
    ensures
        final(output)@ == old(output)@ + paragraph_xml(*value),
{
    start_tag(output, "PARA", value.attributes.as_slice());
    write_run_wrapper(output, "PTEXT", &value.content);
    end_tag(output, "PARA");
    assert(output@ =~= old(output)@ + paragraph_xml(*value));
}

/// `<wrapper><PDAT>v</PDAT></wrapper>`.
pub open spec fn text_wrapper_xml(wrapper: Seq<char>, v: Seq<char>) -> Seq<char> {
    pdat_block_xml(wrapper, v)
}


// ---------------------------------------------------------------------------
// Writing: claims, drawings, abstract, description
// ---------------------------------------------------------------------------

/// Whether some attribute is named `ID`.
pub open spec fn has_id_attribute(attrs: Seq<XmlAttribute>) -> bool {
    exists|i: int| 0 <= i < attrs.len() && #[trigger] attrs[i].local_name@ == "ID"@
}

fn any_id_attribute(attrs: &Vec<XmlAttribute>) -> (r: bool)
    ensures
        r == has_id_attribute(attrs@),
{
    let mut i: usize = 0;
    while i < attrs.len()
        invariant
            i <= attrs.len(),
            forall|j: int| 0 <= j < i ==> #[trigger] attrs@[j].local_name@ != "ID"@,
        decreases attrs.len() - i,
    {
        if crate::text::string_eq_str(&attrs[i].local_name, "ID") {
            return true;
        }
        i += 1;
    }
    false
}

/// One run of a claim: claim text as `PARA` (when it carries an `ID`) or
/// `CLMSTEP`, verbatim runs as written, any other run in a `PARA`.
pub open spec fn claim_run_xml(r: Run) -> Seq<char> {
    match r {
        Run::ClaimText(v) => {
            let tag = if has_id_attribute(v.attributes@) {
                "PARA"@
            } else {
                "CLMSTEP"@
            };
            spec_start_tag(tag, v.attributes@) + run_wrapper_xml("PTEXT"@, v.content@)
                + spec_end_tag(tag)
        },
        Run::Opaque(v) => spec_fragment_xml(v.xml),
        other => spec_start_tag("PARA"@, empty_attrs()) + run_wrapper_xml("PTEXT"@, seq![other])
            + spec_end_tag("PARA"@),
    }
}

pub open spec fn clm_xml(c: Claim) -> Seq<char> {
    spec_start_tag("CLM"@, c.attributes@) + concat_map(c.content@, |r: Run| claim_run_xml(r))
        + spec_end_tag("CLM"@)
}

/// The claims among claims parts, in order.
pub open spec fn claims_listed(ps: Seq<ClaimsPart>) -> Seq<Claim>
    decreases ps.len(),
{
    if ps.len() == 0 {
        Seq::empty()
    } else {
        match ps.last() {
            ClaimsPart::Claim(c) => claims_listed(ps.drop_last()).push(c),
            _ => claims_listed(ps.drop_last()),
        }
    }
}

/// A claims part outside the `CL` list: headings and verbatim parts.
pub open spec fn claims_head_xml(p: ClaimsPart) -> Seq<char> {
    match p {
        ClaimsPart::Heading(h) => heading_xml(h),
        ClaimsPart::Claim(_) => Seq::empty(),
        ClaimsPart::Opaque(o) => spec_fragment_xml(o.xml),
    }
}

/// Claims: headings and verbatim parts first, then every claim in one `CL`
/// list (when there is any).
pub open spec fn claims_xml(c: Claims) -> Seq<char> {
    let listed = claims_listed(c.parts@);
    spec_start_tag("SDOCL"@, c.attributes@) + concat_map(c.parts@, |p: ClaimsPart| claims_head_xml(p))
        + (if listed.len() > 0 {
        spec_start_tag("CL"@, empty_attrs()) + concat_map(listed, |x: Claim| clm_xml(x))
            + spec_end_tag("CL"@)
    } else {
        Seq::empty()
    }) + spec_end_tag("SDOCL"@)
}

fn write_claim_run(output: &mut String, run: &Run)
    ensures
        final(output)@ == old(output)@ + claim_run_xml(*run),
{
    let empty: Vec<XmlAttribute> = Vec::new();
    match run {
        Run::ClaimText(v) => {
            let tag = if any_id_attribute(&v.attributes) {
                "PARA"
            } else {
                "CLMSTEP"
            };
            proof {
                reveal_strlit("PARA");
                reveal_strlit("CLMSTEP");
            }
            start_tag(output, tag, v.attributes.as_slice());
            write_run_wrapper(output, "PTEXT", &v.content);
            end_tag(output, tag);
        },
        Run::Opaque(v) => write_xml_fragment(output, &v.xml),
        _ => {
            start_tag(output, "PARA", empty.as_slice());
            start_tag(output, "PTEXT", empty.as_slice());
            let ghost before = output@;
            write_other_run(output, run);
            end_tag(output, "PTEXT");
            end_tag(output, "PARA");
        },
    }
    assert(output@ =~= old(output)@ + claim_run_xml(*run));
}

/// A single run as `runs_xml` writes it.
fn write_other_run(output: &mut String, run: &Run)
    ensures
        final(output)@ == old(output)@ + runs_xml(seq![*run]),
{
    assert(seq![*run].drop_last() =~= Seq::<Run>::empty());
    assert(seq![*run].last() == *run);
    assert(runs_xml(Seq::<Run>::empty()) =~= Seq::<char>::empty());
    match run {
        Run::Text(v) => write_pdat(output, v.as_str()),
        Run::Bold(v) => write_inline(output, "BOLD", &v.attributes, &v.content),
        Run::Italic(v) => write_inline(output, "ITALIC", &v.attributes, &v.content),
        Run::Highlight(v) => write_inline(output, "HIL", &v.attributes, &v.content),
        Run::ClaimText(v) => write_runs(output, &v.content),
        Run::Opaque(v) => write_xml_fragment(output, &v.xml),
        Run::Number(v) => write_runs(output, &v.content),
        Run::CrossReference(v) => write_runs(output, &v.content),
        Run::FigureReference(v) => write_inline(output, "FGREF", &v.attributes, &v.content),
        Run::DependentClaimReference(v) => write_inline(output, "CLREF", &v.attributes, &v.content),
    }
    assert(output@ =~= old(output)@ + runs_xml(seq![*run]));
}

fn write_clm(output: &mut String, c: &Claim)
    ensures
        final(output)@ == old(output)@ + clm_xml(*c),
{
    start_tag(output, "CLM", c.attributes.as_slice());
    let ghost start = output@;
    let ghost f = |r: Run| claim_run_xml(r);
    let mut i: usize = 0;
    while i < c.content.len()
        invariant
            i <= c.content.len(),
            f == (|r: Run| claim_run_xml(r)),
            output@ == start + concat_map(c.content@.take(i as int), f),
        decreases c.content.len() - i,
    {
        proof {
            lemma_concat_map_step(c.content@, f, i as int);
        }
        write_claim_run(output, &c.content[i]);
        i += 1;
    }
    proof {
        lemma_concat_map_all(c.content@, f);
    }
    end_tag(output, "CLM");
}

fn write_claims(output: &mut String, value: &Claims)
    ensures
        final(output)@ == old(output)@ + claims_xml(*value),
{
    start_tag(output, "SDOCL", value.attributes.as_slice());
    let ghost start = output@;
    let ghost f = |p: ClaimsPart| claims_head_xml(p);
    let mut any_claim = false;
    let mut i: usize = 0;
    while i < value.parts.len()
        invariant
            i <= value.parts.len(),
            f == (|p: ClaimsPart| claims_head_xml(p)),
            output@ == start + concat_map(value.parts@.take(i as int), f),
            any_claim == (claims_listed(value.parts@.take(i as int)).len() > 0),
        decreases value.parts.len() - i,
    {
        proof {
            lemma_concat_map_step(value.parts@, f, i as int);
            assert(value.parts@.take(i + 1).drop_last() =~= value.parts@.take(i as int));
        }
        match &value.parts[i] {
            ClaimsPart::Heading(h) => write_heading(output, h),
            ClaimsPart::Claim(_) => {
                any_claim = true;
                assert(output@ =~= output@ + Seq::<char>::empty());
            },
            ClaimsPart::Opaque(o) => write_xml_fragment(output, &o.xml),
        }
        i += 1;
    }
    proof {
        lemma_concat_map_all(value.parts@, f);
        assert(value.parts@.take(value.parts.len() as int) =~= value.parts@);
    }
    if any_claim {
        let empty: Vec<XmlAttribute> = Vec::new();
        start_tag(output, "CL", empty.as_slice());
        let ghost mid = output@;
        let ghost g = |x: Claim| clm_xml(x);
        let mut j: usize = 0;
        while j < value.parts.len()
            invariant
                j <= value.parts.len(),
                g == (|x: Claim| clm_xml(x)),
                output@ == mid + concat_map(claims_listed(value.parts@.take(j as int)), g),
            decreases value.parts.len() - j,
        {
            assert(value.parts@.take(j + 1).drop_last() =~= value.parts@.take(j as int));
            if let ClaimsPart::Claim(c) = &value.parts[j] {
                proof {
                    let l = claims_listed(value.parts@.take(j as int));
                    assert(l.push(*c).drop_last() =~= l);
                }
                write_clm(output, c);
            }
            j += 1;
        }
        assert(value.parts@.take(value.parts.len() as int) =~= value.parts@);
        end_tag(output, "CL");
    }
    end_tag(output, "SDOCL");
    assert(output@ =~= old(output)@ + claims_xml(*value));
}

pub open spec fn figure_part_xml(p: FigurePart) -> Seq<char> {
    match p {
        FigurePart::Image(m) => spec_start_empty_tag("EMI"@, m.attributes@),
        FigurePart::Opaque(o) => spec_fragment_xml(o.xml),
    }
}

/// Drawings: each figure's images as `EMI` elements, verbatim parts as
/// written; headings and representative figures have no form here.
pub open spec fn drawings_part_xml(p: DrawingsPart) -> Seq<char> {
    match p {
        DrawingsPart::Figure(f) => concat_map(f.parts@, |x: FigurePart| figure_part_xml(x)),
        DrawingsPart::Opaque(o) => spec_fragment_xml(o.xml),
        _ => Seq::empty(),
    }
}

pub open spec fn drawings_xml(d: Drawings) -> Seq<char> {
    spec_start_tag("SDODR"@, d.attributes@) + concat_map(d.parts@, |p: DrawingsPart| drawings_part_xml(p))
        + spec_end_tag("SDODR"@)
}

fn write_figure_parts(output: &mut String, f: &Figure)
    ensures
        final(output)@ == old(output)@ + concat_map(f.parts@, |x: FigurePart| figure_part_xml(x)),
{
    let ghost start = output@;
    let ghost g = |x: FigurePart| figure_part_xml(x);
    let mut i: usize = 0;
    while i < f.parts.len()
        invariant
            i <= f.parts.len(),
            g == (|x: FigurePart| figure_part_xml(x)),
            output@ == start + concat_map(f.parts@.take(i as int), g),
        decreases f.parts.len() - i,
    {
        proof {
            lemma_concat_map_step(f.parts@, g, i as int);
        }
        match &f.parts[i] {
            FigurePart::Image(m) => start_empty_tag(output, "EMI", m.attributes.as_slice()),
            FigurePart::Opaque(o) => write_xml_fragment(output, &o.xml),
        }
        i += 1;
    }
    proof {
        lemma_concat_map_all(f.parts@, g);
    }
}

fn write_drawings(output: &mut String, value: &Drawings)
    ensures
        final(output)@ == old(output)@ + drawings_xml(*value),
{
    start_tag(output, "SDODR", value.attributes.as_slice());
    let ghost start = output@;
    let ghost f = |p: DrawingsPart| drawings_part_xml(p);
    let mut i: usize = 0;
    while i < value.parts.len()
        invariant
            i <= value.parts.len(),
            f == (|p: DrawingsPart| drawings_part_xml(p)),
            output@ == start + concat_map(value.parts@.take(i as int), f),
        decreases value.parts.len() - i,
    {
        proof {
            lemma_concat_map_step(value.parts@, f, i as int);
        }
        match &value.parts[i] {
            DrawingsPart::Figure(fig) => write_figure_parts(output, fig),
            DrawingsPart::Opaque(o) => write_xml_fragment(output, &o.xml),
            _ => {
                assert(output@ =~= output@ + Seq::<char>::empty());
            },
        }
        i += 1;
    }
    proof {
        lemma_concat_map_all(value.parts@, f);
    }
    end_tag(output, "SDODR");
}

pub open spec fn abstract_part_xml(p: AbstractPart) -> Seq<char> {
    match p {
        AbstractPart::Paragraph(x) => paragraph_xml(x),
        AbstractPart::Opaque(o) => spec_fragment_xml(o.xml),
    }
}

pub open spec fn abstract_xml(a: AbstractSection) -> Seq<char> {
    spec_start_tag("SDOAB"@, a.attributes@) + spec_start_tag("BTEXT"@, empty_attrs()) + concat_map(
        a.parts@,
        |p: AbstractPart| abstract_part_xml(p),
    ) + spec_end_tag("BTEXT"@) + spec_end_tag("SDOAB"@)
}

fn write_abstract(output: &mut String, value: &AbstractSection)
    ensures
        final(output)@ == old(output)@ + abstract_xml(*value),
{
    let empty: Vec<XmlAttribute> = Vec::new();
    start_tag(output, "SDOAB", value.attributes.as_slice());
    start_tag(output, "BTEXT", empty.as_slice());
    let ghost start = output@;
    let ghost f = |p: AbstractPart| abstract_part_xml(p);
    let mut i: usize = 0;
    while i < value.parts.len()
        invariant
            i <= value.parts.len(),
            f == (|p: AbstractPart| abstract_part_xml(p)),
            output@ == start + concat_map(value.parts@.take(i as int), f),
        decreases value.parts.len() - i,
    {
        proof {
            lemma_concat_map_step(value.parts@, f, i as int);
        }
        match &value.parts[i] {
            AbstractPart::Paragraph(x) => write_paragraph(output, x),
            AbstractPart::Opaque(o) => write_xml_fragment(output, &o.xml),
        }
        i += 1;
    }
    proof {
        lemma_concat_map_all(value.parts@, f);
    }
    end_tag(output, "BTEXT");
    end_tag(output, "SDOAB");
    assert(output@ =~= old(output)@ + abstract_xml(*value));
}

pub open spec fn section_part_xml(p: SectionPart) -> Seq<char> {
    match p {
        SectionPart::Heading(h) => heading_xml(h),
        SectionPart::Paragraph(x) => paragraph_xml(x),
        SectionPart::Opaque(o) => spec_fragment_xml(o.xml),
    }
}

pub open spec fn desc_section_part_xml(p: DescriptionSectionPart) -> Seq<char> {
    match p {
        DescriptionSectionPart::Section(s) => concat_map(s.parts@, |x: SectionPart| section_part_xml(x)),
        DescriptionSectionPart::Opaque(o) => spec_fragment_xml(o.xml),
    }
}

/// A description container: `<tag><BTEXT>` around its sections' parts.
pub open spec fn container_xml(tag: Seq<char>, ps: Seq<DescriptionSectionPart>) -> Seq<char> {
    spec_start_tag(tag, empty_attrs()) + spec_start_tag("BTEXT"@, empty_attrs()) + concat_map(
        ps,
        |p: DescriptionSectionPart| desc_section_part_xml(p),
    ) + spec_end_tag("BTEXT"@) + spec_end_tag(tag)
}

/// A description: summary, drawings description and detailed description
/// as `BRFSUM`, `DRWDESC`, `DETDESC`; cross-references have no form here.
pub open spec fn description_part_xml(p: DescriptionPart) -> Seq<char> {
    match p {
        DescriptionPart::SummaryOfInvention(v) => container_xml("BRFSUM"@, v.parts@),
        DescriptionPart::BriefDescriptionOfDrawings(v) => container_xml("DRWDESC"@, v.parts@),
        DescriptionPart::DetailedDescription(v) => container_xml("DETDESC"@, v.parts@),
        DescriptionPart::Opaque(o) => spec_fragment_xml(o.xml),
        DescriptionPart::CrossReferenceToRelatedApplications(_) => Seq::empty(),
    }
}

pub open spec fn description_xml(d: Description) -> Seq<char> {
    spec_start_tag("SDODE"@, d.attributes@) + concat_map(
        d.parts@,
        |p: DescriptionPart| description_part_xml(p),
    ) + spec_end_tag("SDODE"@)
}

fn write_section(output: &mut String, s: &Section)
    ensures
        final(output)@ == old(output)@ + concat_map(s.parts@, |x: SectionPart| section_part_xml(x)),
{
    let ghost start = output@;
    let ghost f = |x: SectionPart| section_part_xml(x);
    let mut i: usize = 0;
    while i < s.parts.len()
        invariant
            i <= s.parts.len(),
            f == (|x: SectionPart| section_part_xml(x)),
            output@ == start + concat_map(s.parts@.take(i as int), f),
        decreases s.parts.len() - i,
    {
        proof {
            lemma_concat_map_step(s.parts@, f, i as int);
        }
        match &s.parts[i] {
            SectionPart::Heading(h) => write_heading(output, h),
            SectionPart::Paragraph(x) => write_paragraph(output, x),
            SectionPart::Opaque(o) => write_xml_fragment(output, &o.xml),
        }
        i += 1;
    }
    proof {
        lemma_concat_map_all(s.parts@, f);
    }
}

fn write_container(output: &mut String, tag: &str, parts: &Vec<DescriptionSectionPart>)
    ensures
        final(output)@ == old(output)@ + container_xml(tag@, parts@),
{
    let empty: Vec<XmlAttribute> = Vec::new();
    start_tag(output, tag, empty.as_slice());
    start_tag(output, "BTEXT", empty.as_slice());
    let ghost start = output@;
    let ghost f = |p: DescriptionSectionPart| desc_section_part_xml(p);
    let mut i: usize = 0;
    while i < parts.len()
        invariant
            i <= parts.len(),
            f == (|p: DescriptionSectionPart| desc_section_part_xml(p)),
            output@ == start + concat_map(parts@.take(i as int), f),
        decreases parts.len() - i,
    {
        proof {
            lemma_concat_map_step(parts@, f, i as int);
        }
        match &parts[i] {
            DescriptionSectionPart::Section(s) => write_section(output, s),
            DescriptionSectionPart::Opaque(o) => write_xml_fragment(output, &o.xml),
        }
        i += 1;
    }
    proof {
        lemma_concat_map_all(parts@, f);
    }
    end_tag(output, "BTEXT");
    end_tag(output, tag);
    assert(output@ =~= old(output)@ + container_xml(tag@, parts@));
}

fn write_description(output: &mut String, value: &Description)
    ensures
        final(output)@ == old(output)@ + description_xml(*value),
{
    start_tag(output, "SDODE", value.attributes.as_slice());
    let ghost start = output@;
    let ghost f = |p: DescriptionPart| description_part_xml(p);
    let mut i: usize = 0;
    while i < value.parts.len()
        invariant
            i <= value.parts.len(),
            f == (|p: DescriptionPart| description_part_xml(p)),
            output@ == start + concat_map(value.parts@.take(i as int), f),
        decreases value.parts.len() - i,
    {
        proof {
            lemma_concat_map_step(value.parts@, f, i as int);
        }
        match &value.parts[i] {
            DescriptionPart::SummaryOfInvention(v) => write_container(output, "BRFSUM", &v.parts),
            DescriptionPart::BriefDescriptionOfDrawings(v) => write_container(output, "DRWDESC", &v.parts),
            DescriptionPart::DetailedDescription(v) => write_container(output, "DETDESC", &v.parts),
            DescriptionPart::Opaque(o) => write_xml_fragment(output, &o.xml),
            DescriptionPart::CrossReferenceToRelatedApplications(_) => {
                assert(output@ =~= output@ + Seq::<char>::empty());
            },
        }
        i += 1;
    }
    proof {
        lemma_concat_map_all(value.parts@, f);
    }
    end_tag(output, "SDODE");
}


// ---------------------------------------------------------------------------
// Writing: bibliographic data
// ---------------------------------------------------------------------------

/// A document id as `B100`: number, kind, date and country, each present one.
pub open spec fn b100_xml(d: DocumentId) -> Seq<char> {
    spec_start_tag("B100"@, empty_attrs()) + nested_pdat_xml("B110"@, "DNUM"@, d.doc_number@)
        + opt_xml(d.kind_code, |v: Seq<char>| pdat_block_xml("B130"@, v)) + opt_xml(
        d.document_date,
        |v: Seq<char>|
            spec_start_tag("B140"@, empty_attrs()) + pdat_block_xml("DATE"@, v) + spec_end_tag(
                "B140"@,
            ),
    ) + opt_xml(d.country_code, |v: Seq<char>| pdat_block_xml("B190"@, v)) + spec_end_tag(
        "B100"@,
    )
}

fn write_opt_pdat_block(output: &mut String, tag: &str, value: &Option<String>)
    ensures
        final(output)@ == old(output)@ + opt_xml(*value, |v: Seq<char>| pdat_block_xml(tag@, v)),
{
    match value {
        Some(v) => write_pdat_block(output, tag, v.as_str()),
        None => {
            assert(output@ =~= old(output)@ + Seq::<char>::empty());
        },
    }
}

/// `<outer><inner><PDAT>v</PDAT></inner></outer>` for a present value.
fn write_opt_date(output: &mut String, outer: &str, value: &Option<String>)
    ensures
        final(output)@ == old(output)@ + opt_xml(
            *value,
            |v: Seq<char>|
                spec_start_tag(outer@, empty_attrs()) + pdat_block_xml("DATE"@, v) + spec_end_tag(
                    outer@,
                ),
        ),
{
    match value {
        Some(v) => {
            let empty: Vec<XmlAttribute> = Vec::new();
            start_tag(output, outer, empty.as_slice());
            write_pdat_block(output, "DATE", v.as_str());
            end_tag(output, outer);
            assert(output@ =~= old(output)@ + (spec_start_tag(outer@, empty_attrs())
                + pdat_block_xml("DATE"@, v@) + spec_end_tag(outer@)));
        },
        None => {
            assert(output@ =~= old(output)@ + Seq::<char>::empty());
        },
    }
}

fn write_b100(output: &mut String, d: &DocumentId)
    ensures
        final(output)@ == old(output)@ + b100_xml(*d),
{
    let empty: Vec<XmlAttribute> = Vec::new();
    start_tag(output, "B100", empty.as_slice());
    write_nested_pdat(output, "B110", "DNUM", d.doc_number.as_str());
    write_opt_pdat_block(output, "B130", &d.kind_code);
    write_opt_date(output, "B140", &d.document_date);
    write_opt_pdat_block(output, "B190", &d.country_code);
    end_tag(output, "B100");
    assert(output@ =~= old(output)@ + b100_xml(*d));
}

/// Filing data as `B200`: the first application number, series code and
/// filing date, each when present.
pub open spec fn b200_xml(d: DomesticFilingData) -> Seq<char> {
    use_first_parts(d)
}

pub open spec fn use_first_parts(d: DomesticFilingData) -> Seq<char> {
    spec_start_tag("B200"@, d.attributes@) + opt_xml(
        crate::source::uspto::application_v4x::first_app_number(d.parts@, 0),
        |v: Seq<char>| nested_pdat_xml("B210"@, "DNUM"@, v),
    ) + opt_xml(
        crate::source::uspto::application_v4x::first_series_code(d.parts@, 0),
        |v: Seq<char>| pdat_block_xml("B211US"@, v),
    ) + opt_xml(
        crate::source::uspto::application_v4x::first_filing_date(d.parts@, 0),
        |v: Seq<char>|
            spec_start_tag("B220"@, empty_attrs()) + pdat_block_xml("DATE"@, v) + spec_end_tag(
                "B220"@,
            ),
    ) + spec_end_tag("B200"@)
}

fn write_b200(output: &mut String, d: &DomesticFilingData)
    ensures
        final(output)@ == old(output)@ + b200_xml(*d),
{
    start_tag(output, "B200", d.attributes.as_slice());
    let number = crate::source::uspto::application_v4x::find_app_number(&d.parts);
    match &number {
        Some(n) => write_nested_pdat(output, "B210", "DNUM", n.as_str()),
        None => {},
    }
    let series = crate::source::uspto::application_v4x::find_series_code(&d.parts);
    write_opt_pdat_block(output, "B211US", &series);
    let date = crate::source::uspto::application_v4x::find_filing_date(&d.parts);
    write_opt_date(output, "B220", &date);
    end_tag(output, "B200");
    assert(output@ =~= old(output)@ + b200_xml(*d));
}

/// A technical part in `B500`: classifications as `B510`/`B520` with their
/// main symbol, the title as `B540`, verbatim parts as written.
pub open spec fn tech_part_xml(p: TechnicalInformationPart) -> Seq<char> {
    match p {
        TechnicalInformationPart::ClassificationIpc(c) => spec_start_tag("B510"@, c.attributes@)
            + opt_xml(c.main_classification, |v: Seq<char>| pdat_block_xml("B511"@, v))
            + spec_end_tag("B510"@),
        TechnicalInformationPart::ClassificationUs(c) => spec_start_tag("B520"@, c.attributes@)
            + opt_xml(c.national_classification, |v: Seq<char>| pdat_block_xml("B521"@, v))
            + spec_end_tag("B520"@),
        TechnicalInformationPart::TitleOfInvention(t) => spec_start_tag("B540"@, empty_attrs())
            + text_wrapper_xml("STEXT"@, t@) + spec_end_tag("B540"@),
        TechnicalInformationPart::Opaque(o) => spec_fragment_xml(o.xml),
    }
}

pub open spec fn b500_xml(t: TechnicalInformation) -> Seq<char> {
    spec_start_tag("B500"@, t.attributes@) + concat_map(
        t.parts@,
        |p: TechnicalInformationPart| tech_part_xml(p),
    ) + spec_end_tag("B500"@)
}

fn write_tech_part(output: &mut String, p: &TechnicalInformationPart)
    ensures
        final(output)@ == old(output)@ + tech_part_xml(*p),
{
    let empty: Vec<XmlAttribute> = Vec::new();
    match p {
        TechnicalInformationPart::ClassificationIpc(c) => {
            start_tag(output, "B510", c.attributes.as_slice());
            write_opt_pdat_block(output, "B511", &c.main_classification);
            end_tag(output, "B510");
        },
        TechnicalInformationPart::ClassificationUs(c) => {
            start_tag(output, "B520", c.attributes.as_slice());
            write_opt_pdat_block(output, "B521", &c.national_classification);
            end_tag(output, "B520");
        },
        TechnicalInformationPart::TitleOfInvention(t) => {
            start_tag(output, "B540", empty.as_slice());
            write_pdat_block(output, "STEXT", t.as_str());
            end_tag(output, "B540");
        },
        TechnicalInformationPart::Opaque(o) => write_xml_fragment(output, &o.xml),
    }
    assert(output@ =~= old(output)@ + tech_part_xml(*p));
}

fn write_b500(output: &mut String, t: &TechnicalInformation)
    ensures
        final(output)@ == old(output)@ + b500_xml(*t),
{
    start_tag(output, "B500", t.attributes.as_slice());
    let ghost start = output@;
    let ghost f = |p: TechnicalInformationPart| tech_part_xml(p);
    let mut i: usize = 0;
    while i < t.parts.len()
        invariant
            i <= t.parts.len(),
            f == (|p: TechnicalInformationPart| tech_part_xml(p)),
            output@ == start + concat_map(t.parts@.take(i as int), f),
        decreases t.parts.len() - i,
    {
        proof {
            lemma_concat_map_step(t.parts@, f, i as int);
        }
        write_tech_part(output, &t.parts[i]);
        i += 1;
    }
    proof {
        lemma_concat_map_all(t.parts@, f);
    }
    end_tag(output, "B500");
}

/// `<outer><PDAT>v</PDAT></outer>` for a present value.
pub open spec fn opt_nested_pdat_xml(outer: Seq<char>, v: Option<String>) -> Seq<char> {
    opt_xml(v, |x: Seq<char>| nested_pdat_xml(outer, "PDAT"@, x))
}

/// A date as `<DATE><PDAT>v</PDAT></DATE>` for a present value.
pub open spec fn opt_date_xml(v: Option<String>) -> Seq<char> {
    opt_xml(
        v,
        |x: Seq<char>| spec_start_tag("DATE"@, empty_attrs()) + pdat_xml(x) + spec_end_tag("DATE"@),
    )
}

/// A provisional application as `B680US`: its document number and date,
/// with kind `00` when either is present.
pub open spec fn b680us_xml(r: RelatedDocument) -> Seq<char> {
    spec_start_tag("B680US"@, r.attributes@) + spec_start_tag("DOC"@, empty_attrs())
        + opt_nested_pdat_xml("DNUM"@, r.parent_doc_number) + opt_date_xml(r.parent_date) + (if r.parent_doc_number is Some
        || r.parent_date is Some {
        pdat_block_xml("KIND"@, "00"@)
    } else {
        Seq::empty()
    }) + spec_end_tag("DOC"@) + spec_end_tag("B680US"@)
}

/// A parent document as `B620`: the child document, then the parent's
/// number and date, each when present.
pub open spec fn b620_xml(r: RelatedDocument) -> Seq<char> {
    spec_start_tag("B620"@, r.attributes@) + spec_start_tag("PARENT-US"@, empty_attrs()) + opt_xml(
        r.child_doc_number,
        |v: Seq<char>|
            spec_start_tag("CDOC"@, empty_attrs()) + nested_pdat_xml("DOC"@, "DNUM"@, v)
                + spec_end_tag("CDOC"@),
    ) + (if r.parent_doc_number is Some || r.parent_date is Some {
        spec_start_tag("PDOC"@, empty_attrs()) + spec_start_tag("DOC"@, empty_attrs())
            + opt_nested_pdat_xml("DNUM"@, r.parent_doc_number) + opt_date_xml(r.parent_date)
            + spec_end_tag("DOC"@) + spec_end_tag("PDOC"@)
    } else {
        Seq::empty()
    }) + spec_end_tag("PARENT-US"@) + spec_end_tag("B620"@)
}

pub open spec fn related_xml(r: RelatedDocument) -> Seq<char> {
    if opt_view(r.relationship) == Some("us-provisional-application"@) {
        b680us_xml(r)
    } else {
        b620_xml(r)
    }
}

pub open spec fn b600_part_xml(p: ContinuityPart) -> Seq<char> {
    match p {
        ContinuityPart::NonProvisionalOfProvisional(r) => related_xml(r),
        ContinuityPart::RelatedDocument(r) => related_xml(r),
        ContinuityPart::Opaque(o) => spec_fragment_xml(o.xml),
    }
}

pub open spec fn b600_xml(c: ContinuityData) -> Seq<char> {
    spec_start_tag("B600"@, c.attributes@) + concat_map(c.parts@, |p: ContinuityPart| b600_part_xml(p))
        + spec_end_tag("B600"@)
}

fn write_opt_nested_pdat(output: &mut String, outer: &str, value: &Option<String>)
    ensures
        final(output)@ == old(output)@ + opt_nested_pdat_xml(outer@, *value),
{
    match value {
        Some(v) => write_nested_pdat(output, outer, "PDAT", v.as_str()),
        None => {
            assert(output@ =~= old(output)@ + Seq::<char>::empty());
        },
    }
}

fn write_opt_date_pdat(output: &mut String, value: &Option<String>)
    ensures
        final(output)@ == old(output)@ + opt_date_xml(*value),
{
    match value {
        Some(v) => {
            let empty: Vec<XmlAttribute> = Vec::new();
            start_tag(output, "DATE", empty.as_slice());
            write_pdat(output, v.as_str());
            end_tag(output, "DATE");
            assert(output@ =~= old(output)@ + (spec_start_tag("DATE"@, empty_attrs()) + pdat_xml(
                v@,
            ) + spec_end_tag("DATE"@)));
        },
        None => {
            assert(output@ =~= old(output)@ + Seq::<char>::empty());
        },
    }
}

fn write_b680us(output: &mut String, r: &RelatedDocument)
    ensures
        final(output)@ == old(output)@ + b680us_xml(*r),
{
    let empty: Vec<XmlAttribute> = Vec::new();
    start_tag(output, "B680US", r.attributes.as_slice());
    start_tag(output, "DOC", empty.as_slice());
    write_opt_nested_pdat(output, "DNUM", &r.parent_doc_number);
    write_opt_date_pdat(output, &r.parent_date);
    let ghost mid = output@;
    if r.parent_doc_number.is_some() || r.parent_date.is_some() {
        write_pdat_block(output, "KIND", "00");
    }
    end_tag(output, "DOC");
    end_tag(output, "B680US");
    assert(output@ =~= old(output)@ + b680us_xml(*r));
}

fn write_b620_parent(output: &mut String, r: &RelatedDocument)
    ensures
        final(output)@ == old(output)@ + (if r.parent_doc_number is Some || r.parent_date is Some {
            spec_start_tag("PDOC"@, empty_attrs()) + spec_start_tag("DOC"@, empty_attrs())
                + opt_nested_pdat_xml("DNUM"@, r.parent_doc_number) + opt_date_xml(r.parent_date)
                + spec_end_tag("DOC"@) + spec_end_tag("PDOC"@)
        } else {
            Seq::<char>::empty()
        }),
{
    if r.parent_doc_number.is_some() || r.parent_date.is_some() {
        let empty: Vec<XmlAttribute> = Vec::new();
        start_tag(output, "PDOC", empty.as_slice());
        start_tag(output, "DOC", empty.as_slice());
        write_opt_nested_pdat(output, "DNUM", &r.parent_doc_number);
        write_opt_date_pdat(output, &r.parent_date);
        end_tag(output, "DOC");
        end_tag(output, "PDOC");
        assert(output@ =~= old(output)@ + (spec_start_tag("PDOC"@, empty_attrs()) + spec_start_tag(
            "DOC"@,
            empty_attrs(),
        ) + opt_nested_pdat_xml("DNUM"@, r.parent_doc_number) + opt_date_xml(r.parent_date)
            + spec_end_tag("DOC"@) + spec_end_tag("PDOC"@)));
    } else {
        assert(output@ =~= old(output)@ + Seq::<char>::empty());
    }
}

pub open spec fn cdoc_xml(child: Option<String>) -> Seq<char> {
    opt_xml(
        child,
        |v: Seq<char>|
            spec_start_tag("CDOC"@, empty_attrs()) + nested_pdat_xml("DOC"@, "DNUM"@, v)
                + spec_end_tag("CDOC"@),
    )
}

fn write_cdoc(output: &mut String, child: &Option<String>)
    ensures
        final(output)@ == old(output)@ + cdoc_xml(*child),
{
    match child {
        Some(c) => {
            let empty: Vec<XmlAttribute> = Vec::new();
            start_tag(output, "CDOC", empty.as_slice());
            write_nested_pdat(output, "DOC", "DNUM", c.as_str());
            end_tag(output, "CDOC");
            assert(output@ =~= old(output)@ + (spec_start_tag("CDOC"@, empty_attrs())
                + nested_pdat_xml("DOC"@, "DNUM"@, c@) + spec_end_tag("CDOC"@)));
        },
        None => {
            assert(output@ =~= old(output)@ + Seq::<char>::empty());
        },
    }
}

fn write_b620(output: &mut String, r: &RelatedDocument)
    ensures
        final(output)@ == old(output)@ + b620_xml(*r),
{
    let empty: Vec<XmlAttribute> = Vec::new();
    start_tag(output, "B620", r.attributes.as_slice());
    start_tag(output, "PARENT-US", empty.as_slice());
    write_cdoc(output, &r.child_doc_number);
    write_b620_parent(output, r);
    end_tag(output, "PARENT-US");
    end_tag(output, "B620");
    assert(cdoc_xml(r.child_doc_number) == opt_xml(
        r.child_doc_number,
        |v: Seq<char>|
            spec_start_tag("CDOC"@, empty_attrs()) + nested_pdat_xml("DOC"@, "DNUM"@, v)
                + spec_end_tag("CDOC"@),
    ));
    assert(output@ =~= old(output)@ + b620_xml(*r));
}

fn is_provisional(r: &RelatedDocument) -> (b: bool)
    ensures
        b == (opt_view(r.relationship) == Some("us-provisional-application"@)),
{
    match &r.relationship {
        Some(v) => crate::text::string_eq_str(v, "us-provisional-application"),
        None => false,
    }
}

fn write_related(output: &mut String, r: &RelatedDocument)
    ensures
        final(output)@ == old(output)@ + related_xml(*r),
{
    if is_provisional(r) {
        write_b680us(output, r);
    } else {
        write_b620(output, r);
    }
}

fn write_b600(output: &mut String, value: &ContinuityData)
    ensures
        final(output)@ == old(output)@ + b600_xml(*value),
{
    start_tag(output, "B600", value.attributes.as_slice());
    let ghost start = output@;
    let ghost f = |p: ContinuityPart| b600_part_xml(p);
    let mut i: usize = 0;
    while i < value.parts.len()
        invariant
            i <= value.parts.len(),
            f == (|p: ContinuityPart| b600_part_xml(p)),
            output@ == start + concat_map(value.parts@.take(i as int), f),
        decreases value.parts.len() - i,
    {
        proof {
            lemma_concat_map_step(value.parts@, f, i as int);
        }
        match &value.parts[i] {
            ContinuityPart::NonProvisionalOfProvisional(r) => write_related(output, r),
            ContinuityPart::RelatedDocument(r) => write_related(output, r),
            ContinuityPart::Opaque(o) => write_xml_fragment(output, &o.xml),
        }
        i += 1;
    }
    proof {
        lemma_concat_map_all(value.parts@, f);
    }
    end_tag(output, "B600");
}

/// A party as its item element, with its name (when it has one) as an
/// organization name.
pub open spec fn party_xml(item: Seq<char>, p: NamedParty) -> Seq<char> {
    spec_start_tag(item, p.attributes@) + spec_start_tag("PARTY-US"@, empty_attrs())
        + spec_start_tag("NAM"@, empty_attrs()) + opt_xml(
        p.name,
        |v: Seq<char>|
            spec_start_tag("ONM"@, empty_attrs()) + text_wrapper_xml("STEXT"@, v) + spec_end_tag(
                "ONM"@,
            ),
    ) + spec_end_tag("NAM"@) + spec_end_tag("PARTY-US"@) + spec_end_tag(item)
}

/// Parties as `B700` around their container and items.
pub open spec fn b700_xml(container: Seq<char>, item: Seq<char>, np: NamedParties) -> Seq<char> {
    spec_start_tag("B700"@, empty_attrs()) + spec_start_tag(container, np.attributes@) + concat_map(
        np.parties@,
        |p: NamedParty| party_xml(item, p),
    ) + spec_end_tag(container) + spec_end_tag("B700"@)
}

fn write_party(output: &mut String, item: &str, p: &NamedParty)
    ensures
        final(output)@ == old(output)@ + party_xml(item@, *p),
{
    let empty: Vec<XmlAttribute> = Vec::new();
    start_tag(output, item, p.attributes.as_slice());
    start_tag(output, "PARTY-US", empty.as_slice());
    start_tag(output, "NAM", empty.as_slice());
    let ghost a = output@;
    match &p.name {
        Some(name) => {
            start_tag(output, "ONM", empty.as_slice());
            write_pdat_block(output, "STEXT", name.as_str());
            end_tag(output, "ONM");
            assert(output@ =~= a + (spec_start_tag("ONM"@, empty_attrs()) + text_wrapper_xml(
                "STEXT"@,
                name@,
            ) + spec_end_tag("ONM"@)));
        },
        None => {},
    }
    end_tag(output, "NAM");
    end_tag(output, "PARTY-US");
    end_tag(output, item);
    assert(output@ =~= old(output)@ + party_xml(item@, *p));
}

fn write_b700(output: &mut String, container: &str, item: &str, np: &NamedParties)
    ensures
        final(output)@ == old(output)@ + b700_xml(container@, item@, *np),
{
    let empty: Vec<XmlAttribute> = Vec::new();
    start_tag(output, "B700", empty.as_slice());
    start_tag(output, container, np.attributes.as_slice());
    let ghost start = output@;
    let ghost f = |p: NamedParty| party_xml(item@, p);
    let mut i: usize = 0;
    while i < np.parties.len()
        invariant
            i <= np.parties.len(),
            f == (|p: NamedParty| party_xml(item@, p)),
            output@ == start + concat_map(np.parties@.take(i as int), f),
        decreases np.parties.len() - i,
    {
        proof {
            lemma_concat_map_step(np.parties@, f, i as int);
        }
        write_party(output, item, &np.parties[i]);
        i += 1;
    }
    proof {
        lemma_concat_map_all(np.parties@, f);
    }
    end_tag(output, container);
    end_tag(output, "B700");
    assert(output@ =~= old(output)@ + b700_xml(container@, item@, *np));
}

/// A bibliographic part in ST.32 form; filing types, inventors and
/// correspondence addresses have no form here.
pub open spec fn biblio_part_xml(p: BibliographicPart) -> Seq<char> {
    match p {
        BibliographicPart::DocumentId(d) => b100_xml(d),
        BibliographicPart::DomesticFilingData(d) => b200_xml(d),
        BibliographicPart::ContinuityData(c) => b600_xml(c),
        BibliographicPart::TechnicalInformation(t) => b500_xml(t),
        BibliographicPart::Applicants(np) => b700_xml("B720"@, "B721"@, np),
        BibliographicPart::Assignees(np) => b700_xml("B730"@, "B731"@, np),
        BibliographicPart::Opaque(o) => spec_fragment_xml(o.xml),
        _ => Seq::empty(),
    }
}

pub open spec fn biblio_xml(b: BibliographicInformation) -> Seq<char> {
    spec_start_tag("SDOBI"@, b.attributes@) + concat_map(
        b.parts@,
        |p: BibliographicPart| biblio_part_xml(p),
    ) + spec_end_tag("SDOBI"@)
}

fn write_biblio_part(output: &mut String, p: &BibliographicPart)
    ensures
        final(output)@ == old(output)@ + biblio_part_xml(*p),
{
    match p {
        BibliographicPart::DocumentId(d) => write_b100(output, d),
        BibliographicPart::DomesticFilingData(d) => write_b200(output, d),
        BibliographicPart::ContinuityData(c) => write_b600(output, c),
        BibliographicPart::TechnicalInformation(t) => write_b500(output, t),
        BibliographicPart::Applicants(np) => write_b700(output, "B720", "B721", np),
        BibliographicPart::Assignees(np) => write_b700(output, "B730", "B731", np),
        BibliographicPart::Opaque(o) => write_xml_fragment(output, &o.xml),
        _ => {
            assert(output@ =~= old(output)@ + Seq::<char>::empty());
        },
    }
}

fn write_bibliographic_information(output: &mut String, value: &BibliographicInformation)
    ensures
        final(output)@ == old(output)@ + biblio_xml(*value),
{
    start_tag(output, "SDOBI", value.attributes.as_slice());
    let ghost start = output@;
    let ghost f = |p: BibliographicPart| biblio_part_xml(p);
    let mut i: usize = 0;
    while i < value.parts.len()
        invariant
            i <= value.parts.len(),
            f == (|p: BibliographicPart| biblio_part_xml(p)),
            output@ == start + concat_map(value.parts@.take(i as int), f),
        decreases value.parts.len() - i,
    {
        proof {
            lemma_concat_map_step(value.parts@, f, i as int);
        }
        write_biblio_part(output, &value.parts[i]);
        i += 1;
    }
    proof {
        lemma_concat_map_all(value.parts@, f);
    }
    end_tag(output, "SDOBI");
}


// ---------------------------------------------------------------------------
// Documents
// ---------------------------------------------------------------------------

/// The part a top-level element of `PATDOC` becomes.
pub open spec fn top_part_of(p: DocumentPart, n: XmlNode) -> bool {
    if is_named(n, "SDOBI"@) {
        p matches DocumentPart::BibliographicInformation(b) && biblio_of(b, n)
    } else if is_named(n, "SDOAB"@) {
        p matches DocumentPart::AbstractSection(a) && abstract_of(a, n)
    } else if is_named(n, "SDODE"@) {
        p matches DocumentPart::Description(d) && description_of(d, n)
    } else if is_named(n, "SDOCL"@) {
        p matches DocumentPart::Claims(c) && claims_of(c, n)
    } else if is_named(n, "SDODR"@) {
        p matches DocumentPart::Drawings(d) && drawings_of(d, n)
    } else {
        p matches DocumentPart::Opaque(o) && fragment_of(o.xml, n)
    }
}

pub open spec fn top_parts_of(ps: Seq<DocumentPart>, es: Seq<XmlNode>) -> bool {
    &&& ps.len() == es.len()
    &&& forall|i: int| 0 <= i < ps.len() ==> #[trigger] top_part_of(ps[i], es[i])
}

/// `d` is the grant read from `input`, whose tree is `t` and root `root`.
pub open spec fn document_of(d: PatentDocument, input: Seq<char>, t: XmlTree, root: XmlNode) -> bool {
    &&& d.source_format == SourceFormat::UsptoGrantV25
    &&& prolog_of(d.prolog, input, t)
    &&& attrs_view(d.attributes@) == attrs_view(spec_attrs(root))
    &&& top_parts_of(d.parts@, spec_child_elements(root))
}

fn parse_top_level_part(n: &XmlNode) -> (r: DocumentPart)
    ensures
        top_part_of(r, *n),
{
    if has_name(n, "SDOBI") {
        DocumentPart::BibliographicInformation(parse_bibliographic_information(n))
    } else if has_name(n, "SDOAB") {
        DocumentPart::AbstractSection(parse_abstract(n))
    } else if has_name(n, "SDODE") {
        DocumentPart::Description(parse_description(n))
    } else if has_name(n, "SDOCL") {
        DocumentPart::Claims(parse_claims(n))
    } else if has_name(n, "SDODR") {
        DocumentPart::Drawings(parse_drawings(n))
    } else {
        DocumentPart::Opaque(opaque_block(n))
    }
}

fn parse_top_level_parts(root: &XmlNode) -> (r: Vec<DocumentPart>)
    ensures
        top_parts_of(r@, spec_child_elements(*root)),
{
    let cs = children(root);
    let mut parts: Vec<DocumentPart> = Vec::new();
    let mut i: usize = 0;
    while i < cs.len()
        invariant
            i <= cs.len(),
            cs@ == spec_children(*root),
            top_parts_of(parts@, elements_of(cs@.take(i as int))),
        decreases cs.len() - i,
    {
        proof {
            lemma_elements_step(cs@, i as int);
        }
        let c = &cs[i];
        if let XmlNode::Element { .. } = c {
            let part = parse_top_level_part(c);
            parts.push(part);
            proof {
                let es = elements_of(cs@.take(i as int + 1));
                assert forall|j: int| 0 <= j < parts@.len() implies #[trigger] top_part_of(
                    parts@[j],
                    es[j],
                ) by {
                    if j < parts@.len() - 1 {
                        assert(top_part_of(parts@[j], elements_of(cs@.take(i as int))[j]));
                    }
                }
            }
        }
        i += 1;
    }
    assert(cs@.take(cs.len() as int) =~= cs@);
    parts
}

/// What reading the tree `t` of `input` gives.
pub open spec fn tree_outcome(input: Seq<char>, t: XmlTree, r: Result<PatentDocument, ParseError>) -> bool {
        match spec_root_element(t) {
            None => r matches Err(ParseError::MalformedXml(m)) && m@ == "missing root element"@,
            Some(root) => if is_named(root, "PATDOC"@) {
                r matches Ok(d) && document_of(d, input, t, root)
            } else {
                r matches Err(ParseError::UnsupportedStructure(m)) && m@
                    == "UsptoGrantV25 requires PATDOC root"@
            },
        }
}

/// What reading `input` gives: `MalformedXml` when the XML reader refuses
/// it, else the outcome of reading the tree the reader gives.
pub open spec fn read_outcome(input: Seq<char>, r: Result<PatentDocument, ParseError>) -> bool {
    &&& !xml_accepts(input, MAX_ENTITY_EXPANSIONS) ==> (r matches Err(ParseError::MalformedXml(m))
        && m@ == xml_error(input, MAX_ENTITY_EXPANSIONS))
    &&& xml_accepts(input, MAX_ENTITY_EXPANSIONS) ==> exists|t: XmlTree|
        #![trigger tree_is(t, input, MAX_ENTITY_EXPANSIONS)]
        tree_is(t, input, MAX_ENTITY_EXPANSIONS) && tree_outcome(input, t, r)
}

/// Read a grant from its parsed tree: the root element must be `PATDOC`.
pub fn parse_document_tree(input: &str, tree: &XmlTree) -> (r: Result<PatentDocument, ParseError>)
    ensures
        tree_outcome(input@, *tree, r),
{
    let root = match root_element(tree) {
        Ok(root) => root,
        Err(e) => return Err(e),
    };
    if !has_name(root, "PATDOC") {
        return Err(ParseError::UnsupportedStructure(copy_str("UsptoGrantV25 requires PATDOC root")));
    }
    let parts = parse_top_level_parts(root);
    let doc = PatentDocument {
        source_format: SourceFormat::UsptoGrantV25,
        prolog: prolog(input, tree),
        attributes: attributes(root),
        parts,
    };
    Ok(doc)
}

/// Read a version 2.5 grant from XML text; a document the XML reader
/// refuses is `MalformedXml`.
pub fn parse_document(input: &str) -> (r: Result<PatentDocument, ParseError>)
    ensures
        read_outcome(input@, r),
{
    let tree = match parse_tree(input) {
        Ok(t) => t,
        Err(e) => return Err(e),
    };
    parse_document_tree(input, &tree)
}

pub open spec fn document_part_xml(p: DocumentPart) -> Seq<char> {
    match p {
        DocumentPart::BibliographicInformation(v) => biblio_xml(v),
        DocumentPart::AbstractSection(v) => abstract_xml(v),
        DocumentPart::Description(v) => description_xml(v),
        DocumentPart::Claims(v) => claims_xml(v),
        DocumentPart::Drawings(v) => drawings_xml(v),
        DocumentPart::Opaque(o) => spec_fragment_xml(o.xml),
    }
}

/// The XML text of a grant: prolog, then `PATDOC` with its attributes
/// around each part in order.
pub open spec fn document_xml(d: PatentDocument) -> Seq<char> {
    spec_prolog_xml(d.prolog) + spec_start_tag("PATDOC"@, d.attributes@) + concat_map(
        d.parts@,
        |p: DocumentPart| document_part_xml(p),
    ) + spec_end_tag("PATDOC"@)
}

fn write_document_part(output: &mut String, part: &DocumentPart)
    ensures
        final(output)@ == old(output)@ + document_part_xml(*part),
{
    match part {
        DocumentPart::BibliographicInformation(v) => write_bibliographic_information(output, v),
        DocumentPart::AbstractSection(v) => write_abstract(output, v),
        DocumentPart::Description(v) => write_description(output, v),
        DocumentPart::Claims(v) => write_claims(output, v),
        DocumentPart::Drawings(v) => write_drawings(output, v),
        DocumentPart::Opaque(o) => write_xml_fragment(output, &o.xml),
    }
}

/// Serialize a grant back to version 2.5 XML.
pub fn write_document(doc: &PatentDocument) -> (r: Result<String, SerializeError>)
    ensures
        r matches Ok(s) && s@ == document_xml(*doc),
{
    let mut output = String::new();
    write_prolog(&mut output, &doc.prolog);
    start_tag(&mut output, "PATDOC", doc.attributes.as_slice());
    let ghost start = output@;
    let ghost f = |p: DocumentPart| document_part_xml(p);
    let mut i: usize = 0;
    while i < doc.parts.len()
        invariant
            i <= doc.parts.len(),
            f == (|p: DocumentPart| document_part_xml(p)),
            output@ == start + concat_map(doc.parts@.take(i as int), f),
        decreases doc.parts.len() - i,
    {
        proof {
            lemma_concat_map_step(doc.parts@, f, i as int);
        }
        write_document_part(&mut output, &doc.parts[i]);
        i += 1;
    }
    proof {
        lemma_concat_map_all(doc.parts@, f);
    }
    end_tag(&mut output, "PATDOC");
    Ok(output)
}

/// The version 2.5 grant adapter.
pub struct UsptoGrantV25Adapter;

impl UsptoGrantV25Adapter {
    pub fn parse_document(&self, input: &str) -> (r: Result<PatentDocument, ParseError>)
        ensures
            read_outcome(input@, r),
    {
        parse_document(input)
    }

    pub fn write_document(&self, doc: &PatentDocument) -> (r: Result<String, SerializeError>)
        ensures
            r matches Ok(s) && s@ == document_xml(*doc),
    {
        write_document(doc)
    }
}

} // verus!
