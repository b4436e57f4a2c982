//! Compact Markdown rendering of a [`PatentDocument`].
//!
//! Each section is built as a list of lines; the lists are then joined and
//! placed by a [`Template`].

use vstd::prelude::*;

use crate::model::claims::{Claim, ClaimsPart};
use crate::model::description::{
    AbstractPart, CrossReferencePart, DescriptionPart, DescriptionSectionPart, Paragraph,
    SectionPart,
};
use crate::model::document::{DocumentPart, PatentDocument};
use crate::model::opaque::{XmlAttribute, XmlFragment};
use crate::render::fields::{
    applicant_names, assignee_names, compact_application_doc_number_str, filing_date,
    ipc_classifications, min_parent_date, opt_view, patent_number, priority_chain, priority_date,
    publication_date, publication_number, spec_applicant_names, spec_application_label,
    spec_assignee_names, spec_classifications, spec_compact_application_doc_number,
    spec_filing_date, spec_patent_number, spec_priority_chain, spec_publication_date,
    spec_publication_number, spec_title, title, us_classifications, application_label,
    PriorityEntry, PriorityEntryView, entries_view, law_priority_date_is_earliest, text_lt,
};
use crate::render::template::{
    lemma_default_template_segments, law_normalized_text_has_no_triple_newline,
    DEFAULT_TEMPLATE, spec_default_segments, spec_parse_segments, spec_render, Sections, SectionsView, Template,
    TemplateError,
};
use crate::render::inline::{
    flatten_runs, normalize_claim_text, render_claim_runs, render_xml_fragment, spec_claim_runs,
    spec_flatten_runs, spec_normalize_claim_text, spec_render_xml_fragment,
};
use crate::text::{
    contains, all_ascii_digits, all_digits, append_chars, chars_of, is_blank, join, join_char_vecs,
    lemma_deep_view_chars, lemma_trim_empty_iff_blank, starts_with, starts_with_str, trim,
    trim_chars, trim_start, trim_start_chars,
};

verus! {

// ---------------------------------------------------------------------------
// Line lists
// ---------------------------------------------------------------------------

/// `v` trimmed is appended when it is not empty.
pub open spec fn ln_push_non_empty(ls: Seq<Seq<char>>, v: Seq<char>) -> Seq<Seq<char>> {
    if trim(v).len() > 0 {
        ls.push(trim(v))
    } else {
        ls
    }
}

/// A paragraph: `v` trimmed, set off by a blank line from a preceding
/// non-empty line; nothing when it is blank.
pub open spec fn ln_push_paragraph(ls: Seq<Seq<char>>, v: Seq<char>) -> Seq<Seq<char>> {
    let t = trim(v);
    if t.len() > 0 {
        (if ls.len() > 0 && ls.last().len() > 0 {
            ls.push(Seq::empty())
        } else {
            ls
        }).push(t)
    } else {
        ls
    }
}

pub open spec fn ln_push_xml(ls: Seq<Seq<char>>, f: XmlFragment) -> Seq<Seq<char>> {
    ln_push_non_empty(ls, spec_render_xml_fragment(f))
}

fn push_line(lines: &mut Vec<Vec<char>>, v: Vec<char>)
    ensures
        final(lines).deep_view() == old(lines).deep_view().push(v@),
{
    proof {
        lemma_deep_view_chars(v);
    }
    let ghost vv = v@;
    lines.push(v);
    assert(lines.deep_view() =~= old(lines).deep_view().push(vv));
}

fn push_str_line(lines: &mut Vec<Vec<char>>, s: &str)
    ensures
        final(lines).deep_view() == old(lines).deep_view().push(s@),
{
    push_line(lines, chars_of(s));
}

fn push_non_empty_line(lines: &mut Vec<Vec<char>>, value: &[char])
    ensures
        final(lines).deep_view() == ln_push_non_empty(old(lines).deep_view(), value@),
{
    let t = trim_chars(value);
    if t.len() > 0 {
        push_line(lines, t);
    }
}

fn push_paragraph(lines: &mut Vec<Vec<char>>, value: &[char])
    ensures
        final(lines).deep_view() == ln_push_paragraph(old(lines).deep_view(), value@),
{
    let t = trim_chars(value);
    if t.len() > 0 {
        let n = lines.len();
        if n > 0 && lines[n - 1].len() > 0 {
            assert(lines.deep_view().last() == lines@[n - 1]@);
            push_line(lines, Vec::new());
        } else {
            assert(n > 0 ==> lines.deep_view().last() == lines@[n - 1]@);
        }
        push_line(lines, t);
    }
}

fn push_xml_fragment(lines: &mut Vec<Vec<char>>, fragment: &XmlFragment)
    ensures
        final(lines).deep_view() == ln_push_xml(old(lines).deep_view(), *fragment),
{
    let r = render_xml_fragment(fragment);
    push_non_empty_line(lines, r.as_slice());
}

/// Index of the first non-empty line at or after `i` (or `ls.len()`).
pub open spec fn first_nonempty_line(ls: Seq<Seq<char>>, i: int) -> int
    decreases ls.len() - i,
{
    if i < 0 || i >= ls.len() {
        ls.len() as int
    } else if ls[i].len() == 0 {
        first_nonempty_line(ls, i + 1)
    } else {
        i
    }
}

/// One past the last non-empty line before `j` (or 0).
pub open spec fn end_nonempty_line(ls: Seq<Seq<char>>, j: int) -> int
    decreases j,
{
    if j <= 0 || j > ls.len() {
        0
    } else if ls[j - 1].len() == 0 {
        end_nonempty_line(ls, j - 1)
    } else {
        j
    }
}

/// The lines with leading and trailing empty lines dropped.
pub open spec fn strip_empty_edges(ls: Seq<Seq<char>>) -> Seq<Seq<char>> {
    let a = first_nonempty_line(ls, 0);
    let b = end_nonempty_line(ls, ls.len() as int);
    if a < b {
        ls.subrange(a, b)
    } else {
        Seq::empty()
    }
}

/// Leading and trailing empty lines dropped, the rest joined by newlines.
pub open spec fn spec_trim_join(ls: Seq<Seq<char>>) -> Seq<char> {
    join(strip_empty_edges(ls), seq!['\n'])
}

proof fn lemma_end_nonempty_bounds(ls: Seq<Seq<char>>, j: int)
    requires
        0 <= j <= ls.len(),
    ensures
        0 <= end_nonempty_line(ls, j) <= j,
    decreases j,
{
    if j > 0 && ls[j - 1].len() == 0 {
        lemma_end_nonempty_bounds(ls, j - 1);
    }
}

proof fn lemma_first_nonempty_bounds(ls: Seq<Seq<char>>, i: int)
    requires
        0 <= i <= ls.len(),
    ensures
        i <= first_nonempty_line(ls, i) <= ls.len(),
    decreases ls.len() - i,
{
    if i < ls.len() && ls[i].len() == 0 {
        lemma_first_nonempty_bounds(ls, i + 1);
    }
}

fn trim_join(lines: &Vec<Vec<char>>) -> (r: Vec<char>)
    ensures
        r@ == spec_trim_join(lines.deep_view()),
{
    let ghost ls = lines.deep_view();
    let mut a: usize = 0;
    while a < lines.len() && lines[a].len() == 0
        invariant
            a <= lines.len(),
            ls == lines.deep_view(),
            first_nonempty_line(ls, 0) == first_nonempty_line(ls, a as int),
        decreases lines.len() - a,
    {
        assert(ls[a as int] == lines@[a as int]@);
        a += 1;
    }
    proof {
        if a < lines.len() {
            assert(ls[a as int] == lines@[a as int]@);
        }
    }
    let mut b: usize = lines.len();
    while b > 0 && lines[b - 1].len() == 0
        invariant
            b <= lines.len(),
            ls == lines.deep_view(),
            end_nonempty_line(ls, ls.len() as int) == end_nonempty_line(ls, b as int),
        decreases b,
    {
        assert(ls[b - 1] == lines@[b - 1]@);
        b -= 1;
    }
    proof {
        if b > 0 {
            assert(ls[b - 1] == lines@[b - 1]@);
        }
    }
    let mut kept: Vec<Vec<char>> = Vec::new();
    if a < b {
        let mut k: usize = a;
        while k < b
            invariant
                a <= k <= b <= lines.len(),
                ls == lines.deep_view(),
                kept.deep_view() == ls.subrange(a as int, k as int),
            decreases b - k,
        {
            let c = crate::text::copy_chars(lines[k].as_slice());
            assert(ls[k as int] == lines@[k as int]@);
            push_line(&mut kept, c);
            assert(ls.subrange(a as int, k + 1) =~= ls.subrange(a as int, k as int).push(
                ls[k as int],
            ));
            k += 1;
        }
    }
    assert(kept.deep_view() =~= strip_empty_edges(ls));
    let r = join_char_vecs(&kept, "\n");
    proof {
        reveal_strlit("\n");
        assert("\n"@ =~= seq!['\n']);
    }
    r
}

// ---------------------------------------------------------------------------
// Paragraphs
// ---------------------------------------------------------------------------

/// The value of the first unprefixed `num` attribute at or after `i`.
pub open spec fn num_attribute_from(attrs: Seq<XmlAttribute>, i: int) -> Option<Seq<char>>
    decreases attrs.len() - i,
{
    if i < 0 || i >= attrs.len() {
        None
    } else if attrs[i].prefix is None && attrs[i].local_name@ == "num"@ {
        Some(attrs[i].value@)
    } else {
        num_attribute_from(attrs, i + 1)
    }
}

/// A paragraph's number: its `num` attribute, if all digits.
pub open spec fn spec_paragraph_number(p: Paragraph) -> Option<Seq<char>> {
    match num_attribute_from(p.attributes@, 0) {
        Some(v) => if all_digits(v) {
            Some(v)
        } else {
            None
        },
        None => None,
    }
}

pub fn paragraph_number(paragraph: &Paragraph) -> (r: Option<Vec<char>>)
    ensures
        crate::render::fields::vopt(r) == spec_paragraph_number(*paragraph),
{
    let mut i: usize = 0;
    while i < paragraph.attributes.len()
        invariant
            i <= paragraph.attributes.len(),
            num_attribute_from(paragraph.attributes@, 0) == num_attribute_from(
                paragraph.attributes@,
                i as int,
            ),
        decreases paragraph.attributes.len() - i,
    {
        let attribute = &paragraph.attributes[i];
        if attribute.prefix.is_none() && crate::text::string_eq_str(&attribute.local_name, "num") {
            let v = chars_of(attribute.value.as_str());
            if all_ascii_digits(v.as_slice()) {
                return Some(v);
            } else {
                return None;
            }
        }
        i += 1;
    }
    None
}

/// Paragraph text, prefixed with `[number]` unless it already starts so.
pub open spec fn spec_render_paragraph_text(p: Paragraph) -> Seq<char> {
    let text = spec_flatten_runs(p.content@);
    match spec_paragraph_number(p) {
        Some(n) => {
            let t = trim_start(text);
            let prefix = seq!['['] + n + seq![']'];
            if starts_with(t, prefix) {
                text
            } else {
                prefix + seq![' '] + t
            }
        },
        None => text,
    }
}

pub fn render_paragraph_text(paragraph: &Paragraph) -> (r: Vec<char>)
    ensures
        r@ == spec_render_paragraph_text(*paragraph),
{
    let text = flatten_runs(&paragraph.content);
    match paragraph_number(paragraph) {
        None => text,
        Some(n) => {
            let t = trim_start_chars(text.as_slice());
            let mut prefix: Vec<char> = Vec::new();
            prefix.push('[');
            append_chars(&mut prefix, n.as_slice());
            prefix.push(']');
            assert(prefix@ =~= seq!['['] + n@ + seq![']']);
            if crate::text::matches_at_exec(t.as_slice(), prefix.as_slice(), 0) {
                text
            } else {
                let mut out = prefix;
                out.push(' ');
                append_chars(&mut out, t.as_slice());
                out
            }
        },
    }
}

// ---------------------------------------------------------------------------
// Claims
// ---------------------------------------------------------------------------

/// A claim as a fenced `claim` block of normalized text.
pub open spec fn claim_lines(ls: Seq<Seq<char>>, c: Claim) -> Seq<Seq<char>> {
    ls.push("```claim"@).push(spec_normalize_claim_text(spec_claim_runs(c.content@, 0, false))).push(
        "```"@,
    )
}

fn render_claim(lines: &mut Vec<Vec<char>>, claim: &Claim)
    ensures
        final(lines).deep_view() == claim_lines(old(lines).deep_view(), *claim),
{
    push_str_line(lines, "```claim");
    let runs = render_claim_runs(&claim.content, 0, false);
    push_line(lines, normalize_claim_text(runs.as_slice()));
    push_str_line(lines, "```");
}

// ---------------------------------------------------------------------------
// Section blocks
// ---------------------------------------------------------------------------

pub open spec fn section_lines(ls: Seq<Seq<char>>, parts: Seq<SectionPart>) -> Seq<Seq<char>>
    decreases parts.len(),
{
    if parts.len() == 0 {
        ls
    } else {
        let prev = section_lines(ls, parts.drop_last());
        match parts.last() {
            SectionPart::Heading(h) => ln_push_non_empty(
                prev,
                "### "@ + trim(spec_flatten_runs(h.content@)),
            ),
            SectionPart::Paragraph(p) => ln_push_paragraph(prev, spec_render_paragraph_text(p)),
            SectionPart::Opaque(o) => ln_push_xml(prev, o.xml),
        }
    }
}

pub open spec fn container_part_lines(ls: Seq<Seq<char>>, parts: Seq<DescriptionSectionPart>) -> Seq<
    Seq<char>,
>
    decreases parts.len(),
{
    if parts.len() == 0 {
        ls
    } else {
        let prev = container_part_lines(ls, parts.drop_last());
        match parts.last() {
            DescriptionSectionPart::Section(s) => section_lines(prev, s.parts@),
            DescriptionSectionPart::Opaque(o) => ln_push_xml(prev, o.xml),
        }
    }
}

/// A description container: its heading, its sections, then a blank line.
pub open spec fn container_lines(
    ls: Seq<Seq<char>>,
    heading: Seq<char>,
    parts: Seq<DescriptionSectionPart>,
) -> Seq<Seq<char>> {
    container_part_lines(ls.push(heading), parts).push(Seq::empty())
}

pub open spec fn cross_reference_lines(ls: Seq<Seq<char>>, parts: Seq<CrossReferencePart>) -> Seq<
    Seq<char>,
>
    decreases parts.len(),
{
    if parts.len() == 0 {
        ls
    } else {
        let prev = cross_reference_lines(ls, parts.drop_last());
        match parts.last() {
            CrossReferencePart::Heading(_) => prev,
            CrossReferencePart::Paragraph(p) => ln_push_paragraph(
                prev,
                spec_render_paragraph_text(p),
            ),
            CrossReferencePart::Opaque(o) => ln_push_xml(prev, o.xml),
        }
    }
}

pub open spec fn description_part_lines(ls: Seq<Seq<char>>, part: DescriptionPart) -> Seq<
    Seq<char>,
> {
    match part {
        DescriptionPart::CrossReferenceToRelatedApplications(s) => cross_reference_lines(
            ls.push("## Cross-Reference To Related Applications"@),
            s.parts@,
        ).push(Seq::empty()),
        DescriptionPart::SummaryOfInvention(v) => container_lines(
            ls,
            "## Summary Of The Invention"@,
            v.parts@,
        ),
        DescriptionPart::BriefDescriptionOfDrawings(v) => container_lines(
            ls,
            "## Brief Description Of The Drawings"@,
            v.parts@,
        ),
        DescriptionPart::DetailedDescription(v) => container_lines(
            ls,
            "## Description Of The Invention"@,
            v.parts@,
        ),
        DescriptionPart::Opaque(v) => ln_push_xml(ls, v.xml).push(Seq::empty()),
    }
}

pub open spec fn description_lines(ls: Seq<Seq<char>>, parts: Seq<DescriptionPart>) -> Seq<
    Seq<char>,
>
    decreases parts.len(),
{
    if parts.len() == 0 {
        ls
    } else {
        description_part_lines(description_lines(ls, parts.drop_last()), parts.last())
    }
}

pub open spec fn abstract_lines(ls: Seq<Seq<char>>, parts: Seq<AbstractPart>) -> Seq<Seq<char>>
    decreases parts.len(),
{
    if parts.len() == 0 {
        ls
    } else {
        let prev = abstract_lines(ls, parts.drop_last());
        match parts.last() {
            AbstractPart::Paragraph(p) => ln_push_paragraph(prev, spec_render_paragraph_text(p)),
            AbstractPart::Opaque(o) => ln_push_xml(prev, o.xml),
        }
    }
}

pub open spec fn claims_lines(ls: Seq<Seq<char>>, parts: Seq<ClaimsPart>) -> Seq<Seq<char>>
    decreases parts.len(),
{
    if parts.len() == 0 {
        ls
    } else {
        let prev = claims_lines(ls, parts.drop_last());
        match parts.last() {
            ClaimsPart::Heading(h) => ln_push_non_empty(prev, spec_flatten_runs(h.content@)),
            ClaimsPart::Claim(c) => claim_lines(prev, c),
            ClaimsPart::Opaque(o) => ln_push_xml(prev, o.xml),
        }
    }
}

/// The lines of one document part's block.
pub open spec fn part_block_lines(part: DocumentPart) -> Seq<Seq<char>> {
    match part {
        DocumentPart::AbstractSection(s) => abstract_lines(seq!["## Abstract"@], s.parts@),
        DocumentPart::Description(d) => description_lines(Seq::empty(), d.parts@),
        DocumentPart::Claims(c) => claims_lines(seq!["## Claims"@], c.parts@),
        DocumentPart::Opaque(v) => ln_push_xml(Seq::empty(), v.xml),
        _ => Seq::empty(),
    }
}

pub open spec fn spec_render_part_block(part: DocumentPart) -> Seq<char> {
    spec_trim_join(part_block_lines(part))
}

fn render_section(lines: &mut Vec<Vec<char>>, section: &crate::model::description::Section)
    ensures
        final(lines).deep_view() == section_lines(old(lines).deep_view(), section.parts@),
{
    let mut i: usize = 0;
    while i < section.parts.len()
        invariant
            i <= section.parts.len(),
            lines.deep_view() == section_lines(old(lines).deep_view(), section.parts@.take(i as int)),
        decreases section.parts.len() - i,
    {
        assert(section.parts@.take(i + 1).drop_last() =~= section.parts@.take(i as int));
        match &section.parts[i] {
            SectionPart::Heading(heading) => {
                let f = flatten_runs(&heading.content);
                let t = trim_chars(f.as_slice());
                let mut h = chars_of("### ");
                append_chars(&mut h, t.as_slice());
                push_non_empty_line(lines, h.as_slice());
            },
            SectionPart::Paragraph(paragraph) => {
                let text = render_paragraph_text(paragraph);
                push_paragraph(lines, text.as_slice());
            },
            SectionPart::Opaque(value) => push_xml_fragment(lines, &value.xml),
        }
        i += 1;
    }
    assert(section.parts@.take(section.parts.len() as int) =~= section.parts@);
}

fn render_description_container(
    lines: &mut Vec<Vec<char>>,
    heading: &str,
    parts: &Vec<DescriptionSectionPart>,
)
    ensures
        final(lines).deep_view() == container_lines(old(lines).deep_view(), heading@, parts@),
{
    push_str_line(lines, heading);
    let ghost start = lines.deep_view();
    let mut i: usize = 0;
    while i < parts.len()
        invariant
            i <= parts.len(),
            lines.deep_view() == container_part_lines(start, parts@.take(i as int)),
        decreases parts.len() - i,
    {
        assert(parts@.take(i + 1).drop_last() =~= parts@.take(i as int));
        match &parts[i] {
            DescriptionSectionPart::Section(section) => render_section(lines, section),
            DescriptionSectionPart::Opaque(value) => push_xml_fragment(lines, &value.xml),
        }
        i += 1;
    }
    assert(parts@.take(parts.len() as int) =~= parts@);
    push_line(lines, Vec::new());
}

fn render_description_part(lines: &mut Vec<Vec<char>>, part: &DescriptionPart)
    ensures
        final(lines).deep_view() == description_part_lines(old(lines).deep_view(), *part),
{
    match part {
        DescriptionPart::CrossReferenceToRelatedApplications(section) => {
            push_str_line(lines, "## Cross-Reference To Related Applications");
            let ghost start = lines.deep_view();
            let mut i: usize = 0;
            while i < section.parts.len()
                invariant
                    i <= section.parts.len(),
                    lines.deep_view() == cross_reference_lines(
                        start,
                        section.parts@.take(i as int),
                    ),
                decreases section.parts.len() - i,
            {
                assert(section.parts@.take(i + 1).drop_last() =~= section.parts@.take(i as int));
                match &section.parts[i] {
                    CrossReferencePart::Heading(_) => {},
                    CrossReferencePart::Paragraph(paragraph) => {
                        let text = render_paragraph_text(paragraph);
                        push_paragraph(lines, text.as_slice());
                    },
                    CrossReferencePart::Opaque(value) => push_xml_fragment(lines, &value.xml),
                }
                i += 1;
            }
            assert(section.parts@.take(section.parts.len() as int) =~= section.parts@);
            push_line(lines, Vec::new());
        },
        DescriptionPart::SummaryOfInvention(value) => {
            render_description_container(lines, "## Summary Of The Invention", &value.parts)
        },
        DescriptionPart::BriefDescriptionOfDrawings(value) => {
            render_description_container(
                lines,
                "## Brief Description Of The Drawings",
                &value.parts,
            )
        },
        DescriptionPart::DetailedDescription(value) => {
            render_description_container(lines, "## Description Of The Invention", &value.parts)
        },
        DescriptionPart::Opaque(value) => {
            push_xml_fragment(lines, &value.xml);
            push_line(lines, Vec::new());
        },
    }
}

fn part_lines(part: &DocumentPart) -> (r: Vec<Vec<char>>)
    ensures
        r.deep_view() == part_block_lines(*part),
{
    let mut lines: Vec<Vec<char>> = Vec::new();
    assert(lines.deep_view() =~= Seq::<Seq<char>>::empty());
    match part {
        DocumentPart::AbstractSection(section) => {
            push_str_line(&mut lines, "## Abstract");
            assert(lines.deep_view() =~= seq!["## Abstract"@]);
            let ghost start = lines.deep_view();
            let mut i: usize = 0;
            while i < section.parts.len()
                invariant
                    i <= section.parts.len(),
                    lines.deep_view() == abstract_lines(start, section.parts@.take(i as int)),
                decreases section.parts.len() - i,
            {
                assert(section.parts@.take(i + 1).drop_last() =~= section.parts@.take(i as int));
                match &section.parts[i] {
                    AbstractPart::Paragraph(paragraph) => {
                        let text = render_paragraph_text(paragraph);
                        push_paragraph(&mut lines, text.as_slice());
                    },
                    AbstractPart::Opaque(value) => push_xml_fragment(&mut lines, &value.xml),
                }
                i += 1;
            }
            assert(section.parts@.take(section.parts.len() as int) =~= section.parts@);
        },
        DocumentPart::Description(description) => {
            let ghost start = lines.deep_view();
            let mut i: usize = 0;
            while i < description.parts.len()
                invariant
                    i <= description.parts.len(),
                    start == Seq::<Seq<char>>::empty(),
                    lines.deep_view() == description_lines(
                        start,
                        description.parts@.take(i as int),
                    ),
                decreases description.parts.len() - i,
            {
                assert(description.parts@.take(i + 1).drop_last() =~= description.parts@.take(
                    i as int,
                ));
                render_description_part(&mut lines, &description.parts[i]);
                i += 1;
            }
            assert(description.parts@.take(description.parts.len() as int)
                =~= description.parts@);
        },
        DocumentPart::Claims(claims) => {
            push_str_line(&mut lines, "## Claims");
            assert(lines.deep_view() =~= seq!["## Claims"@]);
            let ghost start = lines.deep_view();
            let mut i: usize = 0;
            while i < claims.parts.len()
                invariant
                    i <= claims.parts.len(),
                    lines.deep_view() == claims_lines(start, claims.parts@.take(i as int)),
                decreases claims.parts.len() - i,
            {
                assert(claims.parts@.take(i + 1).drop_last() =~= claims.parts@.take(i as int));
                match &claims.parts[i] {
                    ClaimsPart::Heading(heading) => {
                        let f = flatten_runs(&heading.content);
                        push_non_empty_line(&mut lines, f.as_slice());
                    },
                    ClaimsPart::Claim(claim) => render_claim(&mut lines, claim),
                    ClaimsPart::Opaque(value) => push_xml_fragment(&mut lines, &value.xml),
                }
                i += 1;
            }
            assert(claims.parts@.take(claims.parts.len() as int) =~= claims.parts@);
        },
        DocumentPart::Opaque(value) => push_xml_fragment(&mut lines, &value.xml),
        _ => {},
    }
    lines
}

/// One document part rendered as a block of text.
pub fn render_part_block(part: &DocumentPart) -> (r: Vec<char>)
    ensures
        r@ == spec_render_part_block(*part),
{
    let lines = part_lines(part);
    trim_join(&lines)
}

// ---------------------------------------------------------------------------
// Sections of the document
// ---------------------------------------------------------------------------

/// Which document parts a section collects.
#[derive(Debug, Clone, Copy, PartialEq, Eq, Structural)]
pub enum PartSelector {
    Abstract,
    Description,
    Claims,
}

pub open spec fn selects(sel: PartSelector, part: DocumentPart) -> bool {
    match sel {
        PartSelector::Abstract => part is AbstractSection,
        PartSelector::Description => part is Description,
        PartSelector::Claims => part is Claims,
    }
}

impl PartSelector {
    pub fn keeps(self, part: &DocumentPart) -> (r: bool)
        ensures
            r == selects(self, *part),
    {
        match self {
            PartSelector::Abstract => matches!(part, DocumentPart::AbstractSection(_)),
            PartSelector::Description => matches!(part, DocumentPart::Description(_)),
            PartSelector::Claims => matches!(part, DocumentPart::Claims(_)),
        }
    }
}

/// The non-empty blocks of the selected parts, in source order.
pub open spec fn selected_blocks(parts: Seq<DocumentPart>, sel: PartSelector) -> Seq<Seq<char>>
    decreases parts.len(),
{
    if parts.len() == 0 {
        Seq::empty()
    } else {
        let prev = selected_blocks(parts.drop_last(), sel);
        if selects(sel, parts.last()) && spec_render_part_block(parts.last()).len() > 0 {
            prev.push(spec_render_part_block(parts.last()))
        } else {
            prev
        }
    }
}

/// The selected parts' blocks joined by a single blank line.
pub open spec fn spec_render_parts(doc: PatentDocument, sel: PartSelector) -> Seq<char> {
    join(selected_blocks(doc.parts@, sel), seq!['\n', '\n'])
}

pub fn render_parts(document: &PatentDocument, selector: PartSelector) -> (r: Vec<char>)
    ensures
        r@ == spec_render_parts(*document, selector),
{
    let mut blocks: Vec<Vec<char>> = Vec::new();
    let mut i: usize = 0;
    assert(blocks.deep_view() =~= Seq::<Seq<char>>::empty());
    while i < document.parts.len()
        invariant
            i <= document.parts.len(),
            blocks.deep_view() == selected_blocks(document.parts@.take(i as int), selector),
        decreases document.parts.len() - i,
    {
        assert(document.parts@.take(i + 1).drop_last() =~= document.parts@.take(i as int));
        if selector.keeps(&document.parts[i]) {
            let block = render_part_block(&document.parts[i]);
            if block.len() > 0 {
                push_line(&mut blocks, block);
            }
        }
        i += 1;
    }
    assert(document.parts@.take(document.parts.len() as int) =~= document.parts@);
    let r = join_char_vecs(&blocks, "\n\n");
    proof {
        reveal_strlit("\n\n");
        assert("\n\n"@ =~= seq!['\n', '\n']);
    }
    r
}

/// `# title`, or nothing without a title.
pub open spec fn spec_render_title(doc: PatentDocument) -> Seq<char> {
    match spec_title(doc) {
        Some(t) => "# "@ + t,
        None => Seq::empty(),
    }
}

pub fn render_title(document: &PatentDocument) -> (r: Vec<char>)
    ensures
        r@ == spec_render_title(*document),
{
    match title(document) {
        Some(t) => {
            let mut out = chars_of("# ");
            let tc = chars_of(t.as_str());
            append_chars(&mut out, tc.as_slice());
            out
        },
        None => Vec::new(),
    }
}

// ---------------------------------------------------------------------------
// Frontmatter
// ---------------------------------------------------------------------------

/// A YAML scalar: the value as is, or `null`.
pub open spec fn spec_yaml_scalar(v: Option<Seq<char>>) -> Seq<char> {
    match v {
        Some(x) => x,
        None => "null"@,
    }
}

pub open spec fn yaml_line(key: Seq<char>, v: Option<Seq<char>>) -> Seq<char> {
    key + ": "@ + spec_yaml_scalar(v)
}

/// `key: []` for an empty list, else `key:` and one `  - value` line each.
pub open spec fn yaml_list_lines(ls: Seq<Seq<char>>, key: Seq<char>, values: Seq<Seq<char>>) -> Seq<
    Seq<char>,
> {
    if values.len() == 0 {
        ls.push(key + ": []"@)
    } else {
        ls.push(key + ":"@) + values.map_values(|v: Seq<char>| "  - "@ + v)
    }
}

pub open spec fn compact_opt(v: Option<Seq<char>>) -> Option<Seq<char>> {
    match v {
        Some(x) => Some(spec_compact_application_doc_number(x)),
        None => None,
    }
}

pub open spec fn entry_lines(e: PriorityEntryView) -> Seq<Seq<char>> {
    seq![
        "  - relationship: "@ + e.relationship,
        "    parent_doc_number: "@ + spec_yaml_scalar(compact_opt(e.parent_doc_number)),
        "    parent_date: "@ + spec_yaml_scalar(e.parent_date),
        "    child_doc_number: "@ + spec_yaml_scalar(compact_opt(e.child_doc_number)),
    ]
}

pub open spec fn chain_lines(entries: Seq<PriorityEntryView>) -> Seq<Seq<char>>
    decreases entries.len(),
{
    if entries.len() == 0 {
        Seq::empty()
    } else {
        chain_lines(entries.drop_last()) + entry_lines(entries.last())
    }
}

pub open spec fn priority_block(ls: Seq<Seq<char>>, chain: Seq<PriorityEntryView>) -> Seq<
    Seq<char>,
> {
    if chain.len() == 0 {
        ls.push("priority_chain: []"@)
    } else {
        ls.push("priority_chain:"@) + chain_lines(chain)
    }
}

/// The frontmatter lines: a `---` fenced YAML block of the bibliographic
/// fields, followed by an empty line.
pub open spec fn spec_frontmatter_lines(doc: PatentDocument) -> Seq<Seq<char>> {
    let chain = spec_priority_chain(doc);
    let head = seq![
        "---"@,
        yaml_line("filing_date"@, spec_filing_date(doc)),
        yaml_line("application_number"@, spec_application_label(doc)),
        yaml_line("publication_number"@, spec_publication_number(doc)),
        yaml_line("publication_date"@, spec_publication_date(doc)),
        yaml_line("patent_number"@, spec_patent_number(doc)),
        yaml_line("priority_date"@, min_parent_date(chain)),
    ];
    let l1 = yaml_list_lines(head, "ipc_classifications"@, spec_classifications(doc, true));
    let l2 = yaml_list_lines(l1, "us_classifications"@, spec_classifications(doc, false));
    let l3 = priority_block(l2, chain);
    let l4 = yaml_list_lines(l3, "applicants"@, spec_applicant_names(doc));
    let l5 = yaml_list_lines(l4, "assignees"@, spec_assignee_names(doc));
    l5.push("---"@).push(Seq::empty())
}

pub open spec fn spec_render_frontmatter(doc: PatentDocument) -> Seq<char> {
    spec_trim_join(spec_frontmatter_lines(doc))
}

fn yaml_scalar_chars(value: &Option<String>) -> (r: Vec<char>)
    ensures
        r@ == spec_yaml_scalar(opt_view(*value)),
{
    match value {
        Some(v) => chars_of(v.as_str()),
        None => chars_of("null"),
    }
}

fn push_yaml_line(lines: &mut Vec<Vec<char>>, key: &str, value: &Option<String>)
    ensures
        final(lines).deep_view() == old(lines).deep_view().push(yaml_line(key@, opt_view(*value))),
{
    let mut l = chars_of(key);
    let sep = chars_of(": ");
    append_chars(&mut l, sep.as_slice());
    let v = yaml_scalar_chars(value);
    append_chars(&mut l, v.as_slice());
    push_line(lines, l);
}

fn push_prefixed_line(lines: &mut Vec<Vec<char>>, prefix: &str, value: &[char])
    ensures
        final(lines).deep_view() == old(lines).deep_view().push(prefix@ + value@),
{
    let mut l = chars_of(prefix);
    append_chars(&mut l, value);
    push_line(lines, l);
}

fn push_yaml_string_list(lines: &mut Vec<Vec<char>>, key: &str, values: &Vec<String>)
    ensures
        final(lines).deep_view() == yaml_list_lines(
            old(lines).deep_view(),
            key@,
            values.deep_view(),
        ),
{
    if values.len() == 0 {
        let mut l = chars_of(key);
        append_chars(&mut l, chars_of(": []").as_slice());
        push_line(lines, l);
        return;
    }
    let mut l = chars_of(key);
    append_chars(&mut l, chars_of(":").as_slice());
    push_line(lines, l);
    let ghost start = lines.deep_view();
    let mut i: usize = 0;
    while i < values.len()
        invariant
            i <= values.len(),
            lines.deep_view() == start + values.deep_view().take(i as int).map_values(
                |v: Seq<char>| "  - "@ + v,
            ),
        decreases values.len() - i,
    {
        let vc = chars_of(values[i].as_str());
        push_prefixed_line(lines, "  - ", vc.as_slice());
        assert(values.deep_view()[i as int] == values@[i as int]@);
        assert(values.deep_view().take(i + 1).map_values(|v: Seq<char>| "  - "@ + v)
            =~= values.deep_view().take(i as int).map_values(|v: Seq<char>| "  - "@ + v).push(
            "  - "@ + values@[i as int]@,
        ));
        i += 1;
    }
    assert(values.deep_view().take(values.len() as int) =~= values.deep_view());
}

fn compact_opt_string(v: &Option<String>) -> (r: Option<String>)
    ensures
        opt_view(r) == compact_opt(opt_view(*v)),
{
    match v {
        Some(x) => {
            let xc = chars_of(x.as_str());
            let c = compact_application_doc_number_str(xc.as_slice());
            Some(crate::text::string_of(c.as_slice()))
        },
        None => None,
    }
}

fn push_priority_block(lines: &mut Vec<Vec<char>>, chain: &Vec<PriorityEntry>)
    ensures
        final(lines).deep_view() == priority_block(old(lines).deep_view(), entries_view(chain@)),
{
    if chain.len() == 0 {
        push_str_line(lines, "priority_chain: []");
        return;
    }
    push_str_line(lines, "priority_chain:");
    let ghost start = lines.deep_view();
    let mut i: usize = 0;
    assert(start + chain_lines(entries_view(chain@).take(0)) =~= start);
    while i < chain.len()
        invariant
            i <= chain.len(),
            lines.deep_view() == start + chain_lines(entries_view(chain@).take(i as int)),
        decreases chain.len() - i,
    {
        let entry = &chain[i];
        let ghost before = lines.deep_view();
        let rel = chars_of(entry.relationship.as_str());
        push_prefixed_line(lines, "  - relationship: ", rel.as_slice());
        let pd = compact_opt_string(&entry.parent_doc_number);
        let pdc = yaml_scalar_chars(&pd);
        push_prefixed_line(lines, "    parent_doc_number: ", pdc.as_slice());
        let dt = yaml_scalar_chars(&entry.parent_date);
        push_prefixed_line(lines, "    parent_date: ", dt.as_slice());
        let cd = compact_opt_string(&entry.child_doc_number);
        let cdc = yaml_scalar_chars(&cd);
        push_prefixed_line(lines, "    child_doc_number: ", cdc.as_slice());
        let ghost ev = entries_view(chain@);
        assert(ev[i as int] == entry@);
        assert(ev.take(i + 1).drop_last() =~= ev.take(i as int));
        assert(lines.deep_view() =~= before + entry_lines(entry@));
        i += 1;
    }
    assert(entries_view(chain@).take(chain.len() as int) =~= entries_view(chain@));
}

#[verifier::spinoff_prover]
#[verifier::rlimit(40)]
fn frontmatter_lines(document: &PatentDocument) -> (r: Vec<Vec<char>>)
    ensures
        r.deep_view() == spec_frontmatter_lines(*document),
{
    let publication = publication_number(document);
    let patent = patent_number(document);
    let chain = priority_chain(document);
    let applicants = applicant_names(document);
    let assignees = assignee_names(document);
    let mut lines: Vec<Vec<char>> = Vec::new();
    assert(lines.deep_view() =~= Seq::<Seq<char>>::empty());
    push_str_line(&mut lines, "---");
    push_yaml_line(&mut lines, "filing_date", &filing_date(document));
    push_yaml_line(&mut lines, "application_number", &application_label(document));
    push_yaml_line(&mut lines, "publication_number", &publication);
    push_yaml_line(&mut lines, "publication_date", &publication_date(document));
    push_yaml_line(&mut lines, "patent_number", &patent);
    push_yaml_line(&mut lines, "priority_date", &priority_date(&chain));
    let ghost head = lines.deep_view();
    push_yaml_string_list(&mut lines, "ipc_classifications", &ipc_classifications(document));
    push_yaml_string_list(&mut lines, "us_classifications", &us_classifications(document));
    push_priority_block(&mut lines, &chain);
    push_yaml_string_list(&mut lines, "applicants", &applicants);
    push_yaml_string_list(&mut lines, "assignees", &assignees);
    push_str_line(&mut lines, "---");
    push_line(&mut lines, Vec::new());
    lines
}

pub fn render_frontmatter(document: &PatentDocument) -> (r: Vec<char>)
    ensures
        r@ == spec_render_frontmatter(*document),
{
    let lines = frontmatter_lines(document);
    trim_join(&lines)
}

// ---------------------------------------------------------------------------
// Whole documents
// ---------------------------------------------------------------------------

/// The five rendered sections of a document.
pub open spec fn spec_sections(doc: PatentDocument) -> SectionsView {
    SectionsView {
        frontmatter: spec_render_frontmatter(doc),
        title: spec_render_title(doc),
        abstract_section: spec_render_parts(doc, PartSelector::Abstract),
        description: spec_render_parts(doc, PartSelector::Description),
        claims: spec_render_parts(doc, PartSelector::Claims),
    }
}

pub fn build_sections(document: &PatentDocument) -> (r: Sections)
    ensures
        r@ == spec_sections(*document),
{
    let frontmatter = render_frontmatter(document);
    let title = render_title(document);
    let abstract_section = render_parts(document, PartSelector::Abstract);
    let description = render_parts(document, PartSelector::Description);
    let claims = render_parts(document, PartSelector::Claims);
    Sections {
        frontmatter: crate::text::string_of(frontmatter.as_slice()),
        title: crate::text::string_of(title.as_slice()),
        abstract_section: crate::text::string_of(abstract_section.as_slice()),
        description: crate::text::string_of(description.as_slice()),
        claims: crate::text::string_of(claims.as_slice()),
    }
}

/// The document rendered with the default layout.
pub open spec fn spec_render_markdown(doc: PatentDocument) -> Seq<char> {
    spec_render(spec_default_segments(), spec_sections(doc))
}

/// Render `value` to Markdown using the default layout.
pub fn render_markdown(value: &PatentDocument) -> (r: String)
    ensures
        r@ == spec_render_markdown(*value),
{
    let template = Template::default();
    let sections = build_sections(value);
    template.render(&sections)
}

/// Render `value` with a caller-supplied section-placeholder template.
///
/// The template is plain text with `{{placeholder}}` tokens: `frontmatter`,
/// `title`, `abstract`, `description`, or `claims`.
pub fn render_markdown_with_template(value: &PatentDocument, template: &str) -> (r: Result<
    String,
    TemplateError,
>)
    ensures
        match spec_parse_segments(template@) {
            Ok(segs) => r matches Ok(s) && s@ == spec_render(segs, spec_sections(*value)),
            Err(e) => r matches Err(err) && err@ == e,
        },
{
    match Template::parse(template) {
        Ok(t) => {
            let sections = build_sections(value);
            Ok(t.render(&sections))
        },
        Err(e) => Err(e),
    }
}

/// Rendering with [`DEFAULT_TEMPLATE`] gives exactly what [`render_markdown`]
/// gives, for every document.
pub proof fn law_default_template_matches_render_markdown(doc: PatentDocument)
    ensures
        spec_parse_segments(DEFAULT_TEMPLATE@) matches Ok(segs) && spec_render(
            segs,
            spec_sections(doc),
        ) == spec_render_markdown(doc),
{
    lemma_default_template_segments();
}

/// Whatever the template, a rendered document never holds three newlines in
/// a row, so four newlines can separate documents unambiguously.
pub proof fn law_rendered_document_has_no_blank_line_run(
    segments: Seq<crate::render::template::SegmentView>,
    doc: PatentDocument,
)
    ensures
        !contains(spec_render(segments, spec_sections(doc)), "\n\n\n"@),
        !contains(spec_render_markdown(doc), "\n\n\n"@),
{
    law_normalized_text_has_no_triple_newline(
        crate::render::template::spec_assemble(segments, spec_sections(doc)),
    );
    law_normalized_text_has_no_triple_newline(
        crate::render::template::spec_assemble(spec_default_segments(), spec_sections(doc)),
    );
}

/// `ls` is the beginning of `ms`.
spec fn begins(ls: Seq<Seq<char>>, ms: Seq<Seq<char>>) -> bool {
    ls.len() <= ms.len() && ms.take(ls.len() as int) == ls
}

proof fn lemma_begins_trans(a: Seq<Seq<char>>, b: Seq<Seq<char>>, c: Seq<Seq<char>>)
    requires
        begins(a, b),
        begins(b, c),
    ensures
        begins(a, c),
{
    assert(c.take(a.len() as int) =~= b.take(a.len() as int));
}

proof fn lemma_list_lines_begin(ls: Seq<Seq<char>>, key: Seq<char>, values: Seq<Seq<char>>)
    ensures
        begins(ls, yaml_list_lines(ls, key, values)),
{
    let ms = yaml_list_lines(ls, key, values);
    assert(ms.take(ls.len() as int) =~= ls);
}

proof fn lemma_priority_block_begins(ls: Seq<Seq<char>>, chain: Seq<PriorityEntryView>)
    ensures
        begins(ls, priority_block(ls, chain)),
{
    let ms = priority_block(ls, chain);
    assert(ms.take(ls.len() as int) =~= ls);
}

/// The frontmatter's `priority_date` line gives the earliest parent date of
/// the document's priority chain: `null` exactly when no entry has one, else
/// one of the entries' parent dates, with no parent date of the chain
/// before it in text order.
pub proof fn law_frontmatter_priority_date_is_earliest(doc: PatentDocument)
    ensures
        spec_frontmatter_lines(doc).len() > 6,
        spec_frontmatter_lines(doc)[6] == yaml_line(
            "priority_date"@,
            min_parent_date(spec_priority_chain(doc)),
        ),
        min_parent_date(spec_priority_chain(doc)) is None <==> forall|i: int|
            0 <= i < spec_priority_chain(doc).len() ==> (#[trigger] spec_priority_chain(
                doc,
            )[i]).parent_date is None,
        min_parent_date(spec_priority_chain(doc)) matches Some(d) ==> exists|i: int|
            0 <= i < spec_priority_chain(doc).len() && (#[trigger] spec_priority_chain(
                doc,
            )[i]).parent_date == Some(d),
        min_parent_date(spec_priority_chain(doc)) matches Some(d) ==> forall|i: int|
            0 <= i < spec_priority_chain(doc).len() ==> ((#[trigger] spec_priority_chain(
                doc,
            )[i]).parent_date matches Some(e) ==> !text_lt(e, d)),
{
    let chain = spec_priority_chain(doc);
    law_priority_date_is_earliest(chain);
    let head = seq![
        "---"@,
        yaml_line("filing_date"@, spec_filing_date(doc)),
        yaml_line("application_number"@, spec_application_label(doc)),
        yaml_line("publication_number"@, spec_publication_number(doc)),
        yaml_line("publication_date"@, spec_publication_date(doc)),
        yaml_line("patent_number"@, spec_patent_number(doc)),
        yaml_line("priority_date"@, min_parent_date(chain)),
    ];
    let l1 = yaml_list_lines(head, "ipc_classifications"@, spec_classifications(doc, true));
    let l2 = yaml_list_lines(l1, "us_classifications"@, spec_classifications(doc, false));
    let l3 = priority_block(l2, chain);
    let l4 = yaml_list_lines(l3, "applicants"@, spec_applicant_names(doc));
    let l5 = yaml_list_lines(l4, "assignees"@, spec_assignee_names(doc));
    let all = l5.push("---"@).push(Seq::empty());
    assert(spec_frontmatter_lines(doc) == all);
    lemma_list_lines_begin(head, "ipc_classifications"@, spec_classifications(doc, true));
    lemma_list_lines_begin(l1, "us_classifications"@, spec_classifications(doc, false));
    lemma_priority_block_begins(l2, chain);
    lemma_list_lines_begin(l3, "applicants"@, spec_applicant_names(doc));
    lemma_list_lines_begin(l4, "assignees"@, spec_assignee_names(doc));
    assert(begins(l5, all)) by {
        assert(all.take(l5.len() as int) =~= l5);
    }
    lemma_begins_trans(head, l1, l2);
    lemma_begins_trans(head, l2, l3);
    lemma_begins_trans(head, l3, l4);
    lemma_begins_trans(head, l4, l5);
    lemma_begins_trans(head, l5, all);
    assert(all[6] == all.take(7)[6]);
    assert(head[6] == yaml_line("priority_date"@, min_parent_date(chain)));
}

} // verus!
