//! USPTO Green Book "APS" plain-text patent grants (product PTGRAPS, 1976-2001).
//!
//! These weekly files predate the XML grant formats. Each file holds many
//! concatenated patent records; a record begins with a line that is exactly
//! `PATN`. Within a record, every data line carries a left-justified tag in
//! columns 1-4 and a value beginning at column 6. Continuation lines have a
//! blank tag (leading spaces) and continue the previous field's value, joined
//! with a single space. Section tags (e.g. `INVT`, `CLAS`, `CLMS`) introduce
//! groups, and their sub-tags belong to the most recently opened section.
//!
//! One record parses into the shared [`PatentDocument`] model, so the Markdown
//! and biblio renderers consume it unchanged.

use vstd::prelude::*;

use crate::error::{ParseError, SerializeError};
use crate::model::bibliographic::{
    ApplicationNumber, BibliographicInformation, BibliographicPart, ClassificationIpc,
    ClassificationUs, DocumentId, DomesticFilingData, DomesticFilingPart, Inventor, Inventors,
    InventorsPart, NamedParties, NamedParty, TechnicalInformation, TechnicalInformationPart,
};
use crate::model::claims::{Claim, Claims, ClaimsPart, Heading};
use crate::model::description::{
    AbstractPart, AbstractSection, BriefDescriptionOfDrawings, Description, DescriptionPart,
    DescriptionSectionPart, DetailedDescription, Paragraph, Section, SectionPart,
    SummaryOfInvention,
};
use crate::model::document::{DocumentPart, PatentDocument};
use crate::model::opaque::XmlProlog;
use crate::model::runs::{InlineContainer, Run};
use crate::render::fields::{opt_view, push_string};
use crate::source::detect::SourceFormat;
use crate::text::{
    collapse_ws, byte_boundary, byte_boundary_index, chars_of, copy_chars, eq_chars, eq_str, find_char,
    lemma_find_char_from, lines, lines_of, slice_chars, starts_with, starts_with_str, string_of,
    trim, trim_chars, trim_end, trim_end_chars, trim_start, trim_start_chars, find_char_from,
    strip_cr,
};

verus! {

// ---------------------------------------------------------------------------
// Tagged fields
// ---------------------------------------------------------------------------

/// A single tagged field plus the section it belongs to.
#[derive(Debug, Clone)]
pub struct Field {
    /// The most recent section tag, e.g. `INVT`, `CLAS`, `CLMS`; `PATN` for
    /// the record's own scalar fields.
    pub section: String,
    pub tag: String,
    pub value: String,
}

pub struct FieldView {
    pub section: Seq<char>,
    pub tag: Seq<char>,
    pub value: Seq<char>,
}

impl View for Field {
    type V = FieldView;

    open spec fn view(&self) -> FieldView {
        FieldView { section: self.section@, tag: self.tag@, value: self.value@ }
    }
}

pub open spec fn fields_view(fs: Seq<Field>) -> Seq<FieldView> {
    fs.map_values(|f: Field| f@)
}

/// Tags whose content is preformatted (ASCII tables, equations) and is kept
/// verbatim with its line breaks and spacing.
pub open spec fn spec_is_verbatim_tag(tag: Seq<char>) -> bool {
    tag == "TBL"@ || tag == "EQU"@ || tag == "TBL3"@
}

pub fn is_verbatim_tag(tag: &[char]) -> (r: bool)
    ensures
        r == spec_is_verbatim_tag(tag@),
{
    eq_str(tag, "TBL") || eq_str(tag, "EQU") || eq_str(tag, "TBL3")
}

/// The tags that open a section.
pub open spec fn spec_is_section_tag(tag: Seq<char>) -> bool {
    ||| tag == "PATN"@ || tag == "INVT"@ || tag == "ASSG"@ || tag == "PRIR"@ || tag == "REIS"@
    ||| tag == "RLAP"@ || tag == "PARN"@ || tag == "CLAS"@ || tag == "UREF"@ || tag == "FREF"@
    ||| tag == "OREF"@ || tag == "LREP"@ || tag == "PCTA"@ || tag == "ABST"@ || tag == "GOVT"@
    ||| tag == "BSUM"@ || tag == "DRWD"@ || tag == "DETD"@ || tag == "CLMS"@ || tag == "DCLM"@
}

pub fn is_section_tag(tag: &[char]) -> (r: bool)
    ensures
        r == spec_is_section_tag(tag@),
{
    eq_str(tag, "PATN") || eq_str(tag, "INVT") || eq_str(tag, "ASSG") || eq_str(tag, "PRIR")
        || eq_str(tag, "REIS") || eq_str(tag, "RLAP") || eq_str(tag, "PARN") || eq_str(
        tag,
        "CLAS",
    ) || eq_str(tag, "UREF") || eq_str(tag, "FREF") || eq_str(tag, "OREF") || eq_str(tag, "LREP")
        || eq_str(tag, "PCTA") || eq_str(tag, "ABST") || eq_str(tag, "GOVT") || eq_str(
        tag,
        "BSUM",
    ) || eq_str(tag, "DRWD") || eq_str(tag, "DETD") || eq_str(tag, "CLMS") || eq_str(tag, "DCLM")
}

/// The tag in columns 1-4, if the line carries one; `None` for a continuation
/// line (one that starts with a space).
pub open spec fn spec_line_tag(line: Seq<char>) -> Option<Seq<char>> {
    if starts_with(line, seq![' ']) {
        None
    } else {
        let field = match byte_boundary(line, 4) {
            Some(k) => line.take(k),
            None => line,
        };
        let tag = trim_end(field);
        if tag.len() == 0 {
            None
        } else {
            Some(tag)
        }
    }
}

pub fn line_tag(line: &[char]) -> (r: Option<Vec<char>>)
    ensures
        crate::render::fields::vopt(r) == spec_line_tag(line@),
{
    if line.len() > 0 && line[0] == ' ' {
        assert(starts_with(line@, seq![' '])) by {
            assert(line@.subrange(0, 1) =~= seq![' ']);
        }
        return None;
    }
    assert(!starts_with(line@, seq![' '])) by {
        if line.len() > 0 {
            assert(line@.subrange(0, 1)[0] == line@[0]);
        }
    }
    let field = match byte_boundary_index(line, 4) {
        Some(k) => slice_chars(line, 0, k),
        None => copy_chars(line),
    };
    assert(byte_boundary(line@, 4) matches Some(k) ==> field@ =~= line@.take(k));
    let tag = trim_end_chars(field.as_slice());
    if tag.len() == 0 {
        None
    } else {
        Some(tag)
    }
}

/// The value: everything from column 6 on, trailing blanks dropped.
pub open spec fn spec_line_value(line: Seq<char>) -> Seq<char> {
    match byte_boundary(line, 5) {
        Some(k) => trim_end(line.skip(k)),
        None => Seq::empty(),
    }
}

pub fn line_value(line: &[char]) -> (r: Vec<char>)
    ensures
        r@ == spec_line_value(line@),
{
    match byte_boundary_index(line, 5) {
        Some(k) => {
            let rest = slice_chars(line, k, line.len());
            assert(rest@ =~= line@.skip(k as int));
            trim_end_chars(rest.as_slice())
        },
        None => Vec::new(),
    }
}

pub open spec fn with_value(f: FieldView, v: Seq<char>) -> FieldView {
    FieldView { section: f.section, tag: f.tag, value: v }
}

/// The fields so far and the open section, after one more line.
pub open spec fn field_step(fs: Seq<FieldView>, section: Seq<char>, line: Seq<char>) -> (
    Seq<FieldView>,
    Seq<char>,
) {
    if trim(line).len() == 0 {
        if fs.len() > 0 && spec_is_verbatim_tag(fs.last().tag) {
            (fs.update(fs.len() - 1, with_value(fs.last(), fs.last().value.push('\n'))), section)
        } else {
            (fs, section)
        }
    } else {
        match spec_line_tag(line) {
            None => if fs.len() > 0 {
                let last = fs.last();
                let v = if spec_is_verbatim_tag(last.tag) {
                    last.value.push('\n') + spec_line_value(line)
                } else {
                    let cont = trim_start(spec_line_value(line));
                    if last.value.len() == 0 {
                        cont
                    } else {
                        last.value.push(' ') + cont
                    }
                };
                (fs.update(fs.len() - 1, with_value(last, v)), section)
            } else {
                (fs, section)
            },
            Some(tag) => if spec_is_section_tag(tag) {
                (fs, tag)
            } else {
                (
                    fs.push(FieldView { section: section, tag: tag, value: spec_line_value(line) }),
                    section,
                )
            },
        }
    }
}

pub open spec fn fields_of_lines(ls: Seq<Seq<char>>) -> (Seq<FieldView>, Seq<char>)
    decreases ls.len(),
{
    if ls.len() == 0 {
        (Seq::empty(), "PATN"@)
    } else {
        let (fs, sec) = fields_of_lines(ls.drop_last());
        field_step(fs, sec, ls.last())
    }
}

/// A record's lines as section-scoped fields: continuation lines (blank tag)
/// are folded into the preceding field's value, joined with one space, or
/// kept on their own line for verbatim tags.
pub open spec fn spec_collect_fields(record: Seq<char>) -> Seq<FieldView> {
    fields_of_lines(lines(record)).0
}

/// Split a record's lines into section-scoped fields, unwrapping continuation
/// lines into the preceding field's value.
pub fn collect_fields(record: &str) -> (r: Vec<Field>)
    ensures
        fields_view(r@) == spec_collect_fields(record@),
{
    let rc = chars_of(record);
    collect_fields_chars(rc.as_slice())
}

fn collect_fields_chars(record: &[char]) -> (r: Vec<Field>)
    ensures
        fields_view(r@) == spec_collect_fields(record@),
{
    let ls = lines_of(record);
    let mut fields: Vec<Field> = Vec::new();
    let mut section: Vec<char> = chars_of("PATN");
    let mut i: usize = 0;
    while i < ls.len()
        invariant
            i <= ls.len(),
            ls.deep_view() == lines(record@),
            fields_of_lines(ls.deep_view().take(i as int)) == (fields_view(fields@), section@),
        decreases ls.len() - i,
    {
        assert(ls.deep_view().take(i + 1).drop_last() =~= ls.deep_view().take(i as int));
        assert(ls.deep_view()[i as int] == ls@[i as int]@);
        let line = ls[i].as_slice();
        let ghost fs0 = fields_view(fields@);
        let ghost sec0 = section@;
        let t = trim_chars(line);
        if t.len() == 0 {
            let n = fields.len();
            if n > 0 {
                let verbatim = is_verbatim_tag(chars_of(fields[n - 1].tag.as_str()).as_slice());
                if verbatim {
                    let mut last = fields.pop().unwrap();
                    crate::text::push_char(&mut last.value, '\n');
                    fields.push(last);
                    assert(fields_view(fields@) =~= fs0.update(
                        fs0.len() - 1,
                        with_value(fs0.last(), fs0.last().value.push('\n')),
                    ));
                }
            }
        } else {
            match line_tag(line) {
                None => {
                    let n = fields.len();
                    if n > 0 {
                        let mut last = fields.pop().unwrap();
                        let verbatim = is_verbatim_tag(chars_of(last.tag.as_str()).as_slice());
                        let v = line_value(line);
                        if verbatim {
                            crate::text::push_char(&mut last.value, '\n');
                            crate::text::push_chars(&mut last.value, v.as_slice());
                        } else {
                            let cont = trim_start_chars(v.as_slice());
                            if last.value.as_str().is_empty() {
                                crate::text::push_chars(&mut last.value, cont.as_slice());
                            } else {
                                crate::text::push_char(&mut last.value, ' ');
                                crate::text::push_chars(&mut last.value, cont.as_slice());
                            }
                        }
                        let ghost nv = last.value@;
                        fields.push(last);
                        assert(fields_view(fields@) =~= fs0.update(
                            fs0.len() - 1,
                            with_value(fs0.last(), nv),
                        ));
                    }
                },
                Some(tag) => {
                    if is_section_tag(tag.as_slice()) {
                        section = tag;
                    } else {
                        let value = line_value(line);
                        fields.push(
                            Field {
                                section: string_of(section.as_slice()),
                                tag: string_of(tag.as_slice()),
                                value: string_of(value.as_slice()),
                            },
                        );
                        assert(fields_view(fields@) =~= fs0.push(
                            FieldView { section: sec0, tag: tag@, value: value@ },
                        ));
                    }
                },
            }
        }
        i += 1;
    }
    assert(ls.deep_view().take(ls.len() as int) =~= ls.deep_view());
    fields
}

// ---------------------------------------------------------------------------
// Record header
// ---------------------------------------------------------------------------

/// The first line of `s` (as `str::lines` yields it) and how many characters
/// it takes up with its terminator.
pub open spec fn first_line(s: Seq<char>) -> (Seq<char>, int) {
    match find_char_from(s, '\n', 0) {
        Some(k) => (strip_cr(s.take(k)), k + 1),
        None => (s, s.len() as int),
    }
}

/// A weekly file header line, a bare `PATN` marker, or a blank line.
pub open spec fn is_header_line(line: Seq<char>) -> bool {
    let t = trim(line);
    starts_with(t, "HHHHH"@) || t == "PATN"@ || t.len() == 0
}

/// How many leading characters the header lines take up.
pub open spec fn header_len(s: Seq<char>) -> int
    decreases s.len(),
{
    if s.len() == 0 {
        0
    } else {
        let (line, used) = first_line(s);
        if is_header_line(line) && 0 < used <= s.len() {
            used + header_len(s.skip(used))
        } else {
            0
        }
    }
}

/// The record without its weekly file header and leading `PATN` marker.
pub open spec fn spec_strip_record_header(s: Seq<char>) -> Seq<char> {
    s.skip(header_len(s))
}

proof fn lemma_header_len_bounds(s: Seq<char>)
    ensures
        0 <= header_len(s) <= s.len(),
    decreases s.len(),
{
    if s.len() > 0 {
        let (line, used) = first_line(s);
        if is_header_line(line) && 0 < used <= s.len() {
            lemma_header_len_bounds(s.skip(used));
        }
    }
}

fn strip_record_header(input: &[char]) -> (r: Vec<char>)
    ensures
        r@ == spec_strip_record_header(input@),
{
    let mut start: usize = 0;
    proof {
        lemma_header_len_bounds(input@);
    }
    assert(input@.skip(0) =~= input@);
    loop
        invariant
            start <= input.len(),
            header_len(input@) == start + header_len(input@.skip(start as int)),
        ensures
            start <= input.len(),
            header_len(input@) == start,
        decreases input.len() - start,
    {
        let ghost rest = input@.skip(start as int);
        if start >= input.len() {
            assert(rest.len() == 0);
            assert(header_len(rest) == 0);
            break;
        }
        proof {
            lemma_find_char_from(input@, '\n', start as int);
            lemma_find_char_from(rest, '\n', 0);
        }
        let (end, used) = match find_char(input, '\n', start) {
            Some(k) => (k, k - start + 1),
            None => (input.len(), input.len() - start),
        };
        proof {
            match find_char_from(input@, '\n', start as int) {
                Some(k) => {
                    assert(find_char_from(rest, '\n', 0) == Some(k - start)) by {
                        assert forall|m: int| 0 <= m < k - start implies rest[m] != '\n' by {
                            assert(rest[m] == input@[start + m]);
                        }
                        assert(rest[k - start] == '\n');
                        if find_char_from(rest, '\n', 0) != Some(k - start) {
                            let k2 = find_char_from(rest, '\n', 0);
                            if k2 is Some {
                                assert(rest[k2->0] == input@[start + k2->0]);
                            }
                        }
                    }
                },
                None => {
                    assert(find_char_from(rest, '\n', 0) is None) by {
                        if find_char_from(rest, '\n', 0) is Some {
                            let k2 = find_char_from(rest, '\n', 0)->0;
                            assert(rest[k2] == input@[start + k2]);
                        }
                    }
                },
            }
        }
        let mut line = slice_chars(input, start, end);
        if end < input.len() && line.len() > 0 && line[line.len() - 1] == '\r' {
            line.pop();
        }
        assert(line@ =~= first_line(rest).0);
        let t = trim_chars(line.as_slice());
        let header = starts_with_str(t.as_slice(), "HHHHH") || eq_str(t.as_slice(), "PATN")
            || t.len() == 0;
        assert(header == is_header_line(first_line(rest).0));
        assert(first_line(rest).1 == used);
        if !header {
            assert(header_len(rest) == 0);
            break;
        }
        assert(rest.skip(used as int) =~= input@.skip(start + used));
        start = start + used;
    }
    slice_chars(input, start, input.len())
}

// ---------------------------------------------------------------------------
// Field accessors
// ---------------------------------------------------------------------------

/// The first field of `tag` in `section`, at or after index `i`.
pub open spec fn first_field_from(fs: Seq<FieldView>, section: Seq<char>, tag: Seq<char>, i: int) -> Option<
    FieldView,
>
    decreases fs.len() - i,
{
    if i < 0 || i >= fs.len() {
        None
    } else if fs[i].section == section && fs[i].tag == tag {
        Some(fs[i])
    } else {
        first_field_from(fs, section, tag, i + 1)
    }
}

/// The value of the first field of `tag` in `section`, unless it is empty.
pub open spec fn spec_scalar(fs: Seq<FieldView>, section: Seq<char>, tag: Seq<char>) -> Option<
    Seq<char>,
> {
    match first_field_from(fs, section, tag, 0) {
        Some(f) => if f.value.len() > 0 {
            Some(f.value)
        } else {
            None
        },
        None => None,
    }
}

fn field_is(f: &Field, section: &str, tag: &str) -> (r: bool)
    ensures
        r == (f@.section == section@ && f@.tag == tag@),
{
    crate::text::string_eq_str(&f.section, section) && crate::text::string_eq_str(&f.tag, tag)
}

/// First value for a scalar tag within a section.
pub fn scalar(fields: &Vec<Field>, section: &str, tag: &str) -> (r: Option<String>)
    ensures
        crate::render::fields::opt_view(r) == spec_scalar(fields_view(fields@), section@, tag@),
{
    let ghost fs = fields_view(fields@);
    let mut i: usize = 0;
    while i < fields.len()
        invariant
            i <= fields.len(),
            fs == fields_view(fields@),
            first_field_from(fs, section@, tag@, 0) == first_field_from(
                fs,
                section@,
                tag@,
                i as int,
            ),
        decreases fields.len() - i,
    {
        assert(fs[i as int] == fields@[i as int]@);
        if field_is(&fields[i], section, tag) {
            if !fields[i].value.as_str().is_empty() {
                return Some(fields[i].value.clone());
            } else {
                return None;
            }
        }
        i += 1;
    }
    None
}

/// Every non-empty value of `tag` in `section`, in order.
pub open spec fn spec_section_values(fs: Seq<FieldView>, section: Seq<char>, tag: Seq<char>) -> Seq<
    Seq<char>,
>
    decreases fs.len(),
{
    if fs.len() == 0 {
        Seq::empty()
    } else {
        let prev = spec_section_values(fs.drop_last(), section, tag);
        let f = fs.last();
        if f.section == section && f.tag == tag && f.value.len() > 0 {
            prev.push(f.value)
        } else {
            prev
        }
    }
}

/// All values for a repeatable tag within a section.
pub fn section_values(fields: &Vec<Field>, section: &str, tag: &str) -> (r: Vec<String>)
    ensures
        r.deep_view() == spec_section_values(fields_view(fields@), section@, tag@),
{
    let ghost fs = fields_view(fields@);
    let mut out: Vec<String> = Vec::new();
    let mut i: usize = 0;
    assert(out.deep_view() =~= Seq::<Seq<char>>::empty());
    while i < fields.len()
        invariant
            i <= fields.len(),
            fs == fields_view(fields@),
            out.deep_view() == spec_section_values(fs.take(i as int), section@, tag@),
        decreases fields.len() - i,
    {
        assert(fs.take(i + 1).drop_last() =~= fs.take(i as int));
        assert(fs[i as int] == fields@[i as int]@);
        if field_is(&fields[i], section, tag) && !fields[i].value.as_str().is_empty() {
            crate::render::fields::push_string(&mut out, fields[i].value.clone());
        }
        i += 1;
    }
    assert(fs.take(fields.len() as int) =~= fs);
    out
}

// ---------------------------------------------------------------------------
// Normalization
// ---------------------------------------------------------------------------

/// Length of the leading run of ASCII letters of `s` from `i`.
pub open spec fn alpha_run(s: Seq<char>, i: int) -> int
    decreases s.len() - i,
{
    if i < 0 || i >= s.len() || !crate::text::is_alpha(s[i]) {
        0
    } else {
        1 + alpha_run(s, i + 1)
    }
}

/// The ASCII digits of `s`, in order.
pub open spec fn digits_of(s: Seq<char>) -> Seq<char>
    decreases s.len(),
{
    if s.len() == 0 {
        Seq::empty()
    } else if crate::text::is_digit(s.last()) {
        digits_of(s.drop_last()).push(s.last())
    } else {
        digits_of(s.drop_last())
    }
}

/// Index of the first character of `s` at or after `i` that is not `0`.
pub open spec fn first_non_zero_from(s: Seq<char>, i: int) -> int
    decreases s.len() - i,
{
    if i < 0 || i >= s.len() {
        s.len() as int
    } else if s[i] == '0' {
        first_non_zero_from(s, i + 1)
    } else {
        i
    }
}

/// `s` without leading zeros, `0` when nothing is left.
pub open spec fn strip_zeros(s: Seq<char>) -> Seq<char> {
    let k = first_non_zero_from(s, 0);
    if k >= s.len() {
        seq!['0']
    } else {
        s.skip(k)
    }
}

/// The kind prefix of a WKU (`D`, `RE`, `PP`, ...): its leading letters.
pub open spec fn wku_prefix(wku: Seq<char>) -> Seq<char> {
    let raw = trim(wku);
    raw.take(alpha_run(raw, 0))
}

/// The WKU's serial: the digits after the prefix, its last character (a
/// check character) dropped first, leading zeros stripped.
pub open spec fn wku_serial(wku: Seq<char>) -> Seq<char> {
    let raw = trim(wku);
    let body = raw.skip(alpha_run(raw, 0));
    let body2 = if body.len() > 1 {
        body.drop_last()
    } else {
        body
    };
    strip_zeros(digits_of(body2))
}

/// The display patent number: the serial, after the prefix.
pub open spec fn spec_wku_doc_number(wku: Seq<char>) -> Seq<char> {
    wku_prefix(wku) + wku_serial(wku)
}

/// The synthesized kind code: `S` for design, `E` for reissue, none for plant,
/// `B1` otherwise.
pub open spec fn spec_wku_kind_code(wku: Seq<char>) -> Option<Seq<char>> {
    let p = wku_prefix(wku);
    if p == "D"@ {
        Some("S"@)
    } else if p == "RE"@ {
        Some("E"@)
    } else if p == "PP"@ || p == "P"@ {
        None
    } else {
        Some("B1"@)
    }
}

/// A parsed WKU patent number: a clean digit string plus a synthesized kind
/// code so the shared renderer classifies the record as a grant.
pub struct WkuNumber {
    pub doc_number: String,
    pub kind_code: Option<String>,
}

impl WkuNumber {
    pub fn parse(wku: &str) -> (r: WkuNumber)
        ensures
            r.doc_number@ == spec_wku_doc_number(wku@),
            crate::render::fields::opt_view(r.kind_code) == spec_wku_kind_code(wku@),
    {
        let raw = crate::text::trim_str(wku);
        let mut a: usize = 0;
        while a < raw.len() && crate::text::is_ascii_alpha(raw[a])
            invariant
                a <= raw.len(),
                alpha_run(raw@, 0) == a + alpha_run(raw@, a as int),
            decreases raw.len() - a,
        {
            a += 1;
        }
        let prefix = slice_chars(raw.as_slice(), 0, a);
        let mut body = slice_chars(raw.as_slice(), a, raw.len());
        assert(body@ =~= raw@.skip(alpha_run(raw@, 0)));
        if body.len() > 1 {
            body.pop();
        }
        let mut digits: Vec<char> = Vec::new();
        let mut i: usize = 0;
        while i < body.len()
            invariant
                i <= body.len(),
                digits@ == digits_of(body@.take(i as int)),
            decreases body.len() - i,
        {
            assert(body@.take(i + 1).drop_last() =~= body@.take(i as int));
            if crate::text::is_ascii_digit(body[i]) {
                digits.push(body[i]);
            }
            i += 1;
        }
        assert(body@.take(body.len() as int) =~= body@);
        let mut k: usize = 0;
        while k < digits.len() && digits[k] == '0'
            invariant
                k <= digits.len(),
                first_non_zero_from(digits@, 0) == first_non_zero_from(digits@, k as int),
            decreases digits.len() - k,
        {
            k += 1;
        }
        let number = if k >= digits.len() {
            let mut z: Vec<char> = Vec::new();
            z.push('0');
            z
        } else {
            slice_chars(digits.as_slice(), k, digits.len())
        };
        assert(number@ =~= strip_zeros(digits@));
        let mut doc = copy_chars(prefix.as_slice());
        crate::text::append_chars(&mut doc, number.as_slice());
        let kind = if eq_str(prefix.as_slice(), "D") {
            Some(crate::text::copy_str("S"))
        } else if eq_str(prefix.as_slice(), "RE") {
            Some(crate::text::copy_str("E"))
        } else if eq_str(prefix.as_slice(), "PP") || eq_str(prefix.as_slice(), "P") {
            None
        } else {
            Some(crate::text::copy_str("B1"))
        };
        WkuNumber { doc_number: string_of(doc.as_slice()), kind_code: kind }
    }
}

/// The clean, display patent number for a WKU, e.g. `043757022` -> `4375702`,
/// `D02681420` -> `D268142`. Used as the shard `doc_key`.
pub fn aps_doc_key_from_wku(wku: &str) -> (r: String)
    ensures
        r@ == spec_wku_doc_number(wku@),
{
    WkuNumber::parse(wku).doc_number
}

/// A Green Book application number with a trailing symbol check character
/// dropped when the rest is all digits; anything else trimmed only.
pub open spec fn spec_normalize_apn(value: Seq<char>) -> Seq<char> {
    let t = trim(value);
    if t.len() > 0 && !crate::text::is_alnum(t.last()) {
        let head = t.drop_last();
        if head.len() > 0 && crate::text::all_digits(head) {
            head
        } else {
            t
        }
    } else {
        t
    }
}

/// Normalize a Green Book application number by dropping only a trailing
/// symbol check character (`500649&` -> `500649`); a trailing digit is kept.
pub fn normalize_apn(value: &str) -> (r: String)
    ensures
        r@ == spec_normalize_apn(value@),
{
    let t = crate::text::trim_str(value);
    if t.len() > 0 {
        let last = t[t.len() - 1];
        if !(crate::text::is_ascii_digit(last) || crate::text::is_ascii_alpha(last)) {
            let head = slice_chars(t.as_slice(), 0, t.len() - 1);
            assert(head@ =~= t@.drop_last());
            if head.len() > 0 && crate::text::all_ascii_digits(head.as_slice()) {
                return string_of(head.as_slice());
            }
        }
    }
    string_of(t.as_slice())
}

/// `Some(trim(v))` unless that is empty.
pub open spec fn spec_non_empty(v: Seq<char>) -> Option<Seq<char>> {
    if trim(v).len() > 0 {
        Some(trim(v))
    } else {
        None
    }
}

fn non_empty(value: &[char]) -> (r: Option<String>)
    ensures
        crate::render::fields::opt_view(r) == spec_non_empty(value@),
{
    let t = trim_chars(value);
    if t.len() > 0 {
        Some(string_of(t.as_slice()))
    } else {
        None
    }
}

/// Green Book names are `Last; First` (or just `Last`): `(last, first)`.
pub open spec fn spec_split_aps_name(v: Seq<char>) -> (Option<Seq<char>>, Option<Seq<char>>) {
    match find_char_from(v, ';', 0) {
        Some(k) => (spec_non_empty(v.take(k)), spec_non_empty(v.skip(k + 1))),
        None => (spec_non_empty(v), None),
    }
}

pub fn split_aps_name(value: &str) -> (r: (Option<String>, Option<String>))
    ensures
        crate::render::fields::opt_view(r.0) == spec_split_aps_name(value@).0,
        crate::render::fields::opt_view(r.1) == spec_split_aps_name(value@).1,
{
    let v = chars_of(value);
    proof {
        lemma_find_char_from(v@, ';', 0);
    }
    match find_char(v.as_slice(), ';', 0) {
        Some(k) => {
            assert(k < v.len());
            let last = slice_chars(v.as_slice(), 0, k);
            let first = slice_chars(v.as_slice(), k + 1, v.len());
            assert(last@ =~= v@.take(k as int));
            assert(first@ =~= v@.skip(k + 1));
            (non_empty(last.as_slice()), non_empty(first.as_slice()))
        },
        None => (non_empty(v.as_slice()), None),
    }
}

/// IPC and US classes are column-padded: whitespace runs collapsed.
pub fn normalize_class(value: &str) -> (r: String)
    ensures
        r@ == crate::text::collapse_ws(value@),
{
    let v = chars_of(value);
    let c = crate::text::collapse_whitespace(v.as_slice());
    string_of(c.as_slice())
}

// ---------------------------------------------------------------------------
// Record splitting
// ---------------------------------------------------------------------------

/// After `PATN`, only spaces and tabs up to a line break or the end.
pub open spec fn padding_to_eol(b: Seq<u8>, j: int) -> bool
    decreases b.len() - j,
{
    if j < 0 || j >= b.len() {
        true
    } else if b[j] == 32u8 || b[j] == 9u8 {
        padding_to_eol(b, j + 1)
    } else {
        b[j] == 10u8 || b[j] == 13u8
    }
}

/// `b[pos..]` begins a bare `PATN` marker line (padding allowed).
pub open spec fn spec_is_patn_line_at(b: Seq<u8>, pos: int) -> bool {
    &&& 0 <= pos
    &&& pos + 4 <= b.len()
    &&& b[pos] == 80u8 && b[pos + 1] == 65u8 && b[pos + 2] == 84u8 && b[pos + 3] == 78u8
    &&& padding_to_eol(b, pos + 4)
}

/// A line begins at `i`: the start of the buffer or just after `\n` or `\r`.
pub open spec fn at_line_start(b: Seq<u8>, i: int) -> bool {
    i == 0 || (0 < i <= b.len() && (b[i - 1] == 10u8 || b[i - 1] == 13u8))
}

/// A record boundary: a bare `PATN` line at the start of a line.
pub open spec fn is_record_boundary(b: Seq<u8>, i: int) -> bool {
    at_line_start(b, i) && spec_is_patn_line_at(b, i)
}

pub fn is_patn_line_at(buffer: &[u8], pos: usize) -> (r: bool)
    ensures
        r == spec_is_patn_line_at(buffer@, pos as int),
{
    if pos > buffer.len() || buffer.len() - pos < 4 {
        return false;
    }
    if !(buffer[pos] == 80u8 && buffer[pos + 1] == 65u8 && buffer[pos + 2] == 84u8 && buffer[pos
        + 3] == 78u8) {
        return false;
    }
    let mut j = pos + 4;
    while j < buffer.len()
        invariant
            pos + 4 <= j <= buffer.len(),
            buffer@[pos as int] == 80u8 && buffer@[pos + 1] == 65u8 && buffer@[pos + 2] == 84u8
                && buffer@[pos + 3] == 78u8,
            padding_to_eol(buffer@, pos + 4) == padding_to_eol(buffer@, j as int),
        decreases buffer.len() - j,
    {
        let b = buffer[j];
        if b == 32u8 || b == 9u8 {
            j += 1;
        } else {
            return b == 10u8 || b == 13u8;
        }
    }
    true
}

/// The record boundaries before index `n`, in order.
pub open spec fn boundaries_before(b: Seq<u8>, n: int) -> Seq<int>
    decreases n,
{
    if n <= 0 {
        Seq::empty()
    } else if is_record_boundary(b, n - 1) {
        boundaries_before(b, n - 1).push(n - 1)
    } else {
        boundaries_before(b, n - 1)
    }
}

/// Byte offsets of every record boundary (`PATN` at the start of a line) in
/// the buffer. The weekly file header precedes the first boundary.
pub fn aps_record_starts(buffer: &[u8]) -> (r: Vec<usize>)
    ensures
        r@.map_values(|k: usize| k as int) == boundaries_before(buffer@, buffer@.len() as int),
{
    let mut starts: Vec<usize> = Vec::new();
    let mut line_start = true;
    let mut i: usize = 0;
    while i < buffer.len()
        invariant
            i <= buffer.len(),
            line_start == at_line_start(buffer@, i as int),
            starts@.map_values(|k: usize| k as int) == boundaries_before(buffer@, i as int),
        decreases buffer.len() - i,
    {
        let ghost before = starts@;
        if line_start && is_patn_line_at(buffer, i) {
            starts.push(i);
            assert(starts@.map_values(|k: usize| k as int) =~= before.map_values(
                |k: usize| k as int,
            ).push(i as int));
        }
        line_start = buffer[i] == 10u8 || buffer[i] == 13u8;
        i += 1;
    }
    starts
}

/// The first record boundary at or after `from`.
pub open spec fn next_boundary_from(b: Seq<u8>, from: int) -> Option<int>
    decreases b.len() - from,
{
    if from < 0 || from >= b.len() {
        None
    } else if is_record_boundary(b, from) {
        Some(from)
    } else {
        next_boundary_from(b, from + 1)
    }
}

/// Find the next `PATN` record boundary in `buffer` at or after `from`,
/// requiring it to begin a line.
pub fn next_aps_record_start(buffer: &[u8], from: usize) -> (r: Option<usize>)
    ensures
        match r {
            Some(k) => next_boundary_from(buffer@, from as int) == Some(k as int),
            None => next_boundary_from(buffer@, from as int) is None,
        },
{
    let mut i = from;
    while i < buffer.len()
        invariant
            from <= i,
            next_boundary_from(buffer@, from as int) == next_boundary_from(buffer@, i as int),
        decreases buffer.len() - i,
    {
        let line_start = i == 0 || buffer[i - 1] == 10u8 || buffer[i - 1] == 13u8;
        if line_start && is_patn_line_at(buffer, i) {
            return Some(i);
        }
        i += 1;
    }
    None
}

/// The boundary `next_aps_record_start` finds from `from` is the first one
/// that `aps_record_starts` lists at or after `from`.
pub proof fn law_next_start_is_first_listed(b: Seq<u8>, from: int)
    requires
        0 <= from,
    ensures
        match next_boundary_from(b, from) {
            Some(k) => from <= k < b.len() && boundaries_before(b, b.len() as int).contains(k)
                && forall|j: int|
                from <= j < k ==> !boundaries_before(b, b.len() as int).contains(j),
            None => forall|j: int|
                from <= j ==> !boundaries_before(b, b.len() as int).contains(j),
        },
    decreases b.len() - from,
{
    lemma_boundaries_members(b, b.len() as int);
    if from < b.len() && !is_record_boundary(b, from) {
        law_next_start_is_first_listed(b, from + 1);
    }
}

proof fn lemma_boundaries_members(b: Seq<u8>, n: int)
    ensures
        forall|j: int|
            #[trigger] boundaries_before(b, n).contains(j) <==> (0 <= j < n && is_record_boundary(
                b,
                j,
            )),
    decreases n,
{
    if n > 0 {
        lemma_boundaries_members(b, n - 1);
        let prev = boundaries_before(b, n - 1);
        if is_record_boundary(b, n - 1) {
            let cur = prev.push(n - 1);
            assert forall|j: int|
                cur.contains(j) <==> (0 <= j < n && is_record_boundary(b, j)) by {
                if cur.contains(j) {
                    let k = choose|k: int| 0 <= k < cur.len() && #[trigger] cur[k] == j;
                    if k < prev.len() {
                        assert(prev[k] == j);
                        assert(prev.contains(j));
                    }
                }
                if 0 <= j < n && is_record_boundary(b, j) {
                    if j < n - 1 {
                        assert(prev.contains(j));
                        let k = choose|k: int| 0 <= k < prev.len() && #[trigger] prev[k] == j;
                        assert(cur[k] == j);
                    } else {
                        assert(cur[prev.len() as int] == j);
                    }
                }
            }
        }
    }
}

// ---------------------------------------------------------------------------
// Bibliographic data
// ---------------------------------------------------------------------------

pub open spec fn opt_part<K>(b: bool, k: K) -> Seq<K> {
    if b {
        seq![k]
    } else {
        Seq::empty()
    }
}

pub open spec fn apn_of(fs: Seq<FieldView>) -> Option<Seq<char>> {
    spec_scalar(fs, "PATN"@, "APN"@)
}

pub open spec fn apd_of(fs: Seq<FieldView>) -> Option<Seq<char>> {
    spec_scalar(fs, "PATN"@, "APD"@)
}

/// The document id: the WKU's number and kind, the issue date, country `US`.
pub open spec fn aps_document_id_ok(d: DocumentId, fs: Seq<FieldView>, wku: Seq<char>) -> bool {
    &&& d.doc_number@ == spec_wku_doc_number(wku)
    &&& opt_view(d.kind_code) == spec_wku_kind_code(wku)
    &&& opt_view(d.document_date) == spec_scalar(fs, "PATN"@, "ISD"@)
    &&& opt_view(d.country_code) == Some("US"@)
}

/// Domestic filing data: the application number (APN, normalized, with its
/// type APT) and the filing date (APD), each when present.
pub open spec fn aps_filing_ok(d: DomesticFilingData, fs: Seq<FieldView>) -> bool {
    let n: int = (if apn_of(fs) is Some {
        1int
    } else {
        0int
    }) + (if apd_of(fs) is Some {
        1int
    } else {
        0int
    });
    &&& d.attributes@.len() == 0
    &&& d.parts@.len() == n
    &&& (apn_of(fs) matches Some(a) ==> d.parts@[0] matches DomesticFilingPart::ApplicationNumber(
        x,
    ) && x.attributes@.len() == 0 && opt_view(x.appl_type) == spec_scalar(fs, "PATN"@, "APT"@)
        && opt_view(x.doc_number) == Some(spec_normalize_apn(a)))
    &&& (apd_of(fs) matches Some(v) ==> d.parts@[n - 1] matches DomesticFilingPart::FilingDate(
        s,
    ) && s@ == v)
}

pub open spec fn ipc_values(fs: Seq<FieldView>) -> Seq<Seq<char>> {
    spec_section_values(fs, "CLAS"@, "ICL"@).map_values(|v: Seq<char>| collapse_ws(v))
}

pub open spec fn us_values(fs: Seq<FieldView>) -> Seq<Seq<char>> {
    (spec_section_values(fs, "CLAS"@, "OCL"@) + spec_section_values(fs, "CLAS"@, "XCL"@)).map_values(
        |v: Seq<char>| collapse_ws(v),
    )
}

pub enum TechKind {
    Title,
    Ipc,
    Us,
}

pub open spec fn tech_kinds(fs: Seq<FieldView>) -> Seq<TechKind> {
    opt_part(spec_scalar(fs, "PATN"@, "TTL"@) is Some, TechKind::Title) + opt_part(
        ipc_values(fs).len() > 0,
        TechKind::Ipc,
    ) + opt_part(us_values(fs).len() > 0, TechKind::Us)
}

/// The title (TTL), the IPC classes (ICL) and the US classes (OCL then XCL),
/// the first class of each list as the main one.
pub open spec fn tech_part_ok(p: TechnicalInformationPart, k: TechKind, fs: Seq<FieldView>) -> bool {
    match k {
        TechKind::Title => p matches TechnicalInformationPart::TitleOfInvention(t) && Some(t@)
            == spec_scalar(fs, "PATN"@, "TTL"@),
        TechKind::Ipc => p matches TechnicalInformationPart::ClassificationIpc(c)
            && c.attributes@.len() == 0 && opt_view(c.main_classification) == Some(
            ipc_values(fs)[0],
        ) && c.further_classification.deep_view() == ipc_values(fs).skip(1),
        TechKind::Us => p matches TechnicalInformationPart::ClassificationUs(c)
            && c.attributes@.len() == 0 && opt_view(c.national_classification) == Some(
            us_values(fs)[0],
        ) && c.further_classification.deep_view() == us_values(fs).skip(1),
    }
}

pub open spec fn aps_tech_ok(t: TechnicalInformation, fs: Seq<FieldView>) -> bool {
    &&& t.attributes@.len() == 0
    &&& t.parts@.len() == tech_kinds(fs).len()
    &&& forall|i: int|
        0 <= i < t.parts@.len() ==> #[trigger] tech_part_ok(t.parts@[i], tech_kinds(fs)[i], fs)
}

/// An inventor as the INVT group describes it.
pub struct InventorSpec {
    pub first: Option<Seq<char>>,
    pub last: Option<Seq<char>>,
    pub city: Option<Seq<char>>,
    pub state: Option<Seq<char>>,
    pub country: Option<Seq<char>>,
}

pub open spec fn inventor_spec_matches(inv: Inventor, s: InventorSpec) -> bool {
    &&& inv.attributes@.len() == 0
    &&& opt_view(inv.first_name) == s.first
    &&& opt_view(inv.last_name) == s.last
    &&& opt_view(inv.city) == s.city
    &&& opt_view(inv.state) == s.state
    &&& opt_view(inv.country) == s.country
}

pub open spec fn flush_spec<T>(list: Seq<T>, cur: Option<T>) -> Seq<T> {
    match cur {
        Some(c) => list.push(c),
        None => list,
    }
}

/// Inventors so far and the open one: each `NAM` opens an inventor; `CTY`,
/// `STA` and `CNT` fill in the open one.
pub open spec fn inventor_fold(fs: Seq<FieldView>) -> (Seq<InventorSpec>, Option<InventorSpec>)
    decreases fs.len(),
{
    if fs.len() == 0 {
        (Seq::empty(), None)
    } else {
        let (list, cur) = inventor_fold(fs.drop_last());
        let f = fs.last();
        if f.section != "INVT"@ {
            (list, cur)
        } else if f.tag == "NAM"@ {
            let (last, first) = spec_split_aps_name(f.value);
            (
                flush_spec(list, cur),
                Some(
                    InventorSpec { first: first, last: last, city: None, state: None, country: None },
                ),
            )
        } else if f.tag == "CTY"@ {
            (
                list,
                match cur {
                    Some(c) => Some(InventorSpec { city: Some(f.value), ..c }),
                    None => None,
                },
            )
        } else if f.tag == "STA"@ {
            (
                list,
                match cur {
                    Some(c) => Some(InventorSpec { state: Some(f.value), ..c }),
                    None => None,
                },
            )
        } else if f.tag == "CNT"@ {
            (
                list,
                match cur {
                    Some(c) => Some(InventorSpec { country: Some(f.value), ..c }),
                    None => None,
                },
            )
        } else {
            (list, cur)
        }
    }
}

pub open spec fn inventor_specs(fs: Seq<FieldView>) -> Seq<InventorSpec> {
    let (list, cur) = inventor_fold(fs);
    flush_spec(list, cur)
}

/// The inventor parts: the first as the first-named inventor.
pub open spec fn inventor_part_ok(p: InventorsPart, i: int, s: InventorSpec) -> bool {
    if i == 0 {
        p matches InventorsPart::FirstNamedInventor(x) && inventor_spec_matches(x, s)
    } else {
        p matches InventorsPart::Inventor(x) && inventor_spec_matches(x, s)
    }
}

pub open spec fn inventor_parts_ok(parts: Seq<InventorsPart>, specs: Seq<InventorSpec>) -> bool {
    &&& parts.len() == specs.len()
    &&& forall|i: int| 0 <= i < parts.len() ==> #[trigger] inventor_part_ok(parts[i], i, specs[i])
}

/// Names of the `NAM` fields of `section`, empty ones included.
pub open spec fn names_in_section(fs: Seq<FieldView>, section: Seq<char>) -> Seq<Seq<char>>
    decreases fs.len(),
{
    if fs.len() == 0 {
        Seq::empty()
    } else {
        let prev = names_in_section(fs.drop_last(), section);
        if fs.last().section == section && fs.last().tag == "NAM"@ {
            prev.push(fs.last().value)
        } else {
            prev
        }
    }
}

pub open spec fn party_list_ok(parties: Seq<NamedParty>, names: Seq<Seq<char>>) -> bool {
    &&& parties.len() == names.len()
    &&& forall|i: int|
        0 <= i < names.len() ==> (#[trigger] parties[i]).attributes@.len() == 0 && opt_view(
            parties[i].name,
        ) == Some(names[i])
}

pub open spec fn named_parties_ok(v: NamedParties, names: Seq<Seq<char>>) -> bool {
    v.attributes@.len() == 0 && party_list_ok(v.parties@, names)
}

pub enum BiblioKind {
    DocumentId,
    Filing,
    Technical,
    Inventors,
    Assignees,
}

pub open spec fn biblio_kinds(fs: Seq<FieldView>) -> Seq<BiblioKind> {
    seq![BiblioKind::DocumentId] + opt_part(
        apn_of(fs) is Some || apd_of(fs) is Some,
        BiblioKind::Filing,
    ) + opt_part(tech_kinds(fs).len() > 0, BiblioKind::Technical) + opt_part(
        inventor_specs(fs).len() > 0,
        BiblioKind::Inventors,
    ) + opt_part(names_in_section(fs, "ASSG"@).len() > 0, BiblioKind::Assignees)
}

pub open spec fn biblio_part_ok(
    p: BibliographicPart,
    k: BiblioKind,
    fs: Seq<FieldView>,
    wku: Seq<char>,
) -> bool {
    match k {
        BiblioKind::DocumentId => p matches BibliographicPart::DocumentId(d) && aps_document_id_ok(
            d,
            fs,
            wku,
        ),
        BiblioKind::Filing => p matches BibliographicPart::DomesticFilingData(d) && aps_filing_ok(
            d,
            fs,
        ),
        BiblioKind::Technical => p matches BibliographicPart::TechnicalInformation(t)
            && aps_tech_ok(t, fs),
        BiblioKind::Inventors => p matches BibliographicPart::Inventors(v) && v.attributes@.len()
            == 0 && inventor_parts_ok(v.parts@, inventor_specs(fs)),
        BiblioKind::Assignees => p matches BibliographicPart::Assignees(v) && named_parties_ok(
            v,
            names_in_section(fs, "ASSG"@),
        ),
    }
}

/// The bibliographic block of an APS record.
pub open spec fn aps_biblio_ok(b: BibliographicInformation, fs: Seq<FieldView>, wku: Seq<char>) -> bool {
    &&& b.attributes@.len() == 0
    &&& b.parts@.len() == biblio_kinds(fs).len()
    &&& forall|i: int|
        0 <= i < b.parts@.len() ==> #[trigger] biblio_part_ok(
            b.parts@[i],
            biblio_kinds(fs)[i],
            fs,
            wku,
        )
}

fn build_filing(fields: &Vec<Field>) -> (r: DomesticFilingData)
    ensures
        aps_filing_ok(r, fields_view(fields@)),
{
    let mut parts: Vec<DomesticFilingPart> = Vec::new();
    if let Some(apn) = scalar(fields, "PATN", "APN") {
        parts.push(
            DomesticFilingPart::ApplicationNumber(
                ApplicationNumber {
                    attributes: Vec::new(),
                    appl_type: scalar(fields, "PATN", "APT"),
                    doc_number: Some(normalize_apn(apn.as_str())),
                },
            ),
        );
    }
    if let Some(apd) = scalar(fields, "PATN", "APD") {
        parts.push(DomesticFilingPart::FilingDate(apd));
    }
    DomesticFilingData { attributes: Vec::new(), parts }
}

fn normalize_all(values: Vec<String>) -> (r: Vec<String>)
    ensures
        r.deep_view() == values.deep_view().map_values(|v: Seq<char>| collapse_ws(v)),
{
    let mut out: Vec<String> = Vec::new();
    let mut i: usize = 0;
    while i < values.len()
        invariant
            i <= values.len(),
            out.deep_view() == values.deep_view().take(i as int).map_values(
                |v: Seq<char>| collapse_ws(v),
            ),
        decreases values.len() - i,
    {
        let ghost before = out.deep_view();
        push_string(&mut out, normalize_class(values[i].as_str()));
        assert(values.deep_view()[i as int] == values@[i as int]@);
        assert(values.deep_view().take(i + 1).map_values(|v: Seq<char>| collapse_ws(v))
            =~= before.push(collapse_ws(values@[i as int]@)));
        i += 1;
    }
    assert(values.deep_view().take(values.len() as int) =~= values.deep_view());
    out
}

fn split_first(values: Vec<String>) -> (r: (String, Vec<String>))
    requires
        values@.len() > 0,
    ensures
        r.0@ == values.deep_view()[0],
        r.1.deep_view() == values.deep_view().skip(1),
{
    let mut rest: Vec<String> = Vec::new();
    let mut i: usize = 1;
    while i < values.len()
        invariant
            1 <= i <= values.len(),
            rest.deep_view() == values.deep_view().subrange(1, i as int),
        decreases values.len() - i,
    {
        let ghost before = rest.deep_view();
        push_string(&mut rest, values[i].clone());
        assert(values.deep_view()[i as int] == values@[i as int]@);
        assert(values.deep_view().subrange(1, i + 1) =~= before.push(values@[i as int]@));
        i += 1;
    }
    assert(values.deep_view()[0] == values@[0]@);
    (values[0].clone(), rest)
}

fn build_tech(fields: &Vec<Field>) -> (r: TechnicalInformation)
    ensures
        aps_tech_ok(r, fields_view(fields@)),
{
    let ghost fs = fields_view(fields@);
    let mut parts: Vec<TechnicalInformationPart> = Vec::new();
    let title = scalar(fields, "PATN", "TTL");
    let has_title = title.is_some();
    if let Some(t) = title {
        parts.push(TechnicalInformationPart::TitleOfInvention(t));
    }
    let ipc = normalize_all(section_values(fields, "CLAS", "ICL"));
    let has_ipc = ipc.len() > 0;
    if has_ipc {
        let (main, rest) = split_first(ipc);
        parts.push(
            TechnicalInformationPart::ClassificationIpc(
                ClassificationIpc {
                    attributes: Vec::new(),
                    main_classification: Some(main),
                    further_classification: rest,
                },
            ),
        );
    }
    let mut us_raw = section_values(fields, "CLAS", "OCL");
    crate::render::fields::append_strings(&mut us_raw, section_values(fields, "CLAS", "XCL"));
    let us = normalize_all(us_raw);
    let has_us = us.len() > 0;
    if has_us {
        let (main, rest) = split_first(us);
        parts.push(
            TechnicalInformationPart::ClassificationUs(
                ClassificationUs {
                    attributes: Vec::new(),
                    national_classification: Some(main),
                    further_classification: rest,
                },
            ),
        );
    }
    let ghost kinds = tech_kinds(fs);
    assert(kinds =~= opt_part(has_title, TechKind::Title) + opt_part(has_ipc, TechKind::Ipc)
        + opt_part(has_us, TechKind::Us));
    assert forall|i: int| 0 <= i < parts@.len() implies #[trigger] tech_part_ok(
        parts@[i],
        kinds[i],
        fs,
    ) by {}
    TechnicalInformation { attributes: Vec::new(), parts }
}

pub open spec fn inventor_view_matches(cur: Option<Inventor>, s: Option<InventorSpec>) -> bool {
    match (cur, s) {
        (Some(i), Some(x)) => inventor_spec_matches(i, x),
        (None, None) => true,
        _ => false,
    }
}

fn flush_inventor(parts: &mut Vec<InventorsPart>, current: Option<Inventor>)
    ensures
        current is None ==> final(parts)@ == old(parts)@,
        current matches Some(inv) ==> final(parts)@.len() == old(parts)@.len() + 1
            && final(parts)@.take(old(parts)@.len() as int) == old(parts)@ && (if old(
            parts,
        )@.len() == 0 {
            final(parts)@.last() == InventorsPart::FirstNamedInventor(inv)
        } else {
            final(parts)@.last() == InventorsPart::Inventor(inv)
        }),
{
    if let Some(inventor) = current {
        if parts.len() == 0 {
            parts.push(InventorsPart::FirstNamedInventor(inventor));
        } else {
            parts.push(InventorsPart::Inventor(inventor));
        }
        assert(parts@.take(old(parts)@.len() as int) =~= old(parts)@);
    }
}

fn build_inventors(fields: &Vec<Field>) -> (r: Inventors)
    ensures
        r.attributes@.len() == 0,
        inventor_parts_ok(r.parts@, inventor_specs(fields_view(fields@))),
{
    let ghost fs = fields_view(fields@);
    let mut parts: Vec<InventorsPart> = Vec::new();
    let mut current: Option<Inventor> = None;
    let mut i: usize = 0;
    while i < fields.len()
        invariant
            i <= fields.len(),
            fs == fields_view(fields@),
            inventor_parts_ok(parts@, inventor_fold(fs.take(i as int)).0),
            inventor_view_matches(current, inventor_fold(fs.take(i as int)).1),
        decreases fields.len() - i,
    {
        assert(fs.take(i + 1).drop_last() =~= fs.take(i as int));
        assert(fs[i as int] == fields@[i as int]@);
        let ghost list0 = inventor_fold(fs.take(i as int)).0;
        let ghost parts0 = parts@;
        let f = &fields[i];
        if crate::text::string_eq_str(&f.section, "INVT") {
            if crate::text::string_eq_str(&f.tag, "NAM") {
                let cur = current;
                let ghost cur_spec = inventor_fold(fs.take(i as int)).1;
                flush_inventor(&mut parts, cur);
                proof {
                    let l2 = flush_spec(list0, cur_spec);
                    assert forall|j: int| 0 <= j < parts@.len() implies #[trigger] inventor_part_ok(
                        parts@[j],
                        j,
                        l2[j],
                    ) by {
                        if j < parts0.len() {
                            assert(parts@[j] == parts@.take(parts0.len() as int)[j]);
                        }
                    }
                }
                let (last_name, first_name) = split_aps_name(f.value.as_str());
                current = Some(
                    Inventor {
                        attributes: Vec::new(),
                        first_name,
                        last_name,
                        city: None,
                        state: None,
                        country: None,
                    },
                );
            } else if crate::text::string_eq_str(&f.tag, "CTY") {
                if let Some(inv) = current.as_mut() {
                    inv.city = Some(f.value.clone());
                }
            } else if crate::text::string_eq_str(&f.tag, "STA") {
                if let Some(inv) = current.as_mut() {
                    inv.state = Some(f.value.clone());
                }
            } else if crate::text::string_eq_str(&f.tag, "CNT") {
                if let Some(inv) = current.as_mut() {
                    inv.country = Some(f.value.clone());
                }
            }
        }
        i += 1;
    }
    assert(fs.take(fields.len() as int) =~= fs);
    let ghost list0 = inventor_fold(fs).0;
    let ghost parts0 = parts@;
    let ghost cur_spec = inventor_fold(fs).1;
    flush_inventor(&mut parts, current);
    proof {
        let l2 = flush_spec(list0, cur_spec);
        assert forall|j: int| 0 <= j < parts@.len() implies #[trigger] inventor_part_ok(
            parts@[j],
            j,
            l2[j],
        ) by {
            if j < parts0.len() {
                assert(parts@[j] == parts@.take(parts0.len() as int)[j]);
            }
        }
    }
    Inventors { attributes: Vec::new(), parts }
}

fn build_named_parties(fields: &Vec<Field>, section: &str) -> (r: NamedParties)
    ensures
        named_parties_ok(r, names_in_section(fields_view(fields@), section@)),
{
    let ghost fs = fields_view(fields@);
    let mut parties: Vec<NamedParty> = Vec::new();
    let mut i: usize = 0;
    while i < fields.len()
        invariant
            i <= fields.len(),
            fs == fields_view(fields@),
            party_list_ok(parties@, names_in_section(fs.take(i as int), section@)),
        decreases fields.len() - i,
    {
        assert(fs.take(i + 1).drop_last() =~= fs.take(i as int));
        assert(fs[i as int] == fields@[i as int]@);
        if field_is(&fields[i], section, "NAM") {
            parties.push(NamedParty { attributes: Vec::new(), name: Some(fields[i].value.clone()) });
        }
        i += 1;
    }
    assert(fs.take(fields.len() as int) =~= fs);
    NamedParties { attributes: Vec::new(), parties }
}

fn push_biblio_part(parts: &mut Vec<BibliographicPart>, p: BibliographicPart)
    ensures
        final(parts)@ == old(parts)@.push(p),
{
    parts.push(p);
}

fn build_bibliographic(fields: &Vec<Field>, wku: &String) -> (r: BibliographicInformation)
    ensures
        aps_biblio_ok(r, fields_view(fields@), wku@),
{
    let ghost fs = fields_view(fields@);
    let mut parts: Vec<BibliographicPart> = Vec::new();
    let number = WkuNumber::parse(wku.as_str());
    push_biblio_part(
        &mut parts,
        BibliographicPart::DocumentId(
            DocumentId {
                doc_number: number.doc_number,
                kind_code: number.kind_code,
                document_date: scalar(fields, "PATN", "ISD"),
                country_code: Some(crate::text::copy_str("US")),
            },
        ),
    );
    let has_filing = scalar(fields, "PATN", "APN").is_some() || scalar(
        fields,
        "PATN",
        "APD",
    ).is_some();
    if has_filing {
        push_biblio_part(&mut parts, BibliographicPart::DomesticFilingData(build_filing(fields)));
    }
    let tech = build_tech(fields);
    let has_tech = tech.parts.len() > 0;
    if has_tech {
        push_biblio_part(&mut parts, BibliographicPart::TechnicalInformation(tech));
    }
    let inventors = build_inventors(fields);
    let has_inventors = inventors.parts.len() > 0;
    if has_inventors {
        push_biblio_part(&mut parts, BibliographicPart::Inventors(inventors));
    }
    let assignees = build_named_parties(fields, "ASSG");
    let has_assignees = assignees.parties.len() > 0;
    if has_assignees {
        push_biblio_part(&mut parts, BibliographicPart::Assignees(assignees));
    }
    proof {
        reveal_strlit("ASSG");
    }
    let ghost kinds = biblio_kinds(fs);
    assert(kinds =~= seq![BiblioKind::DocumentId] + opt_part(has_filing, BiblioKind::Filing)
        + opt_part(has_tech, BiblioKind::Technical) + opt_part(has_inventors, BiblioKind::Inventors)
        + opt_part(has_assignees, BiblioKind::Assignees));
    assert forall|i: int| 0 <= i < parts@.len() implies #[trigger] biblio_part_ok(
        parts@[i],
        kinds[i],
        fs,
        wku@,
    ) by {}
    BibliographicInformation { attributes: Vec::new(), parts }
}

// ---------------------------------------------------------------------------
// Abstract, description and claims
// ---------------------------------------------------------------------------

/// The text of a body field: verbatim blocks fenced as code.
pub open spec fn body_text(f: FieldView) -> Seq<char> {
    if spec_is_verbatim_tag(f.tag) {
        "```\n"@ + f.value + "\n```"@
    } else {
        f.value
    }
}

/// `PA0`..`PA3` give a paragraph level.
pub open spec fn spec_paragraph_level(tag: Seq<char>) -> Option<u32> {
    if tag == "PA0"@ {
        Some(0)
    } else if tag == "PA1"@ {
        Some(1)
    } else if tag == "PA2"@ {
        Some(2)
    } else if tag == "PA3"@ {
        Some(3)
    } else {
        None
    }
}

/// A body field as a paragraph of one text run.
pub open spec fn paragraph_ok(p: Paragraph, f: FieldView) -> bool {
    &&& p.attributes@.len() == 0
    &&& p.id is None
    &&& p.level == spec_paragraph_level(f.tag)
    &&& p.content@.len() == 1
    &&& p.content@[0] matches Run::Text(t) && t@ == body_text(f)
}

fn paragraph_level(tag: &String) -> (r: Option<u32>)
    ensures
        r == spec_paragraph_level(tag@),
{
    if crate::text::string_eq_str(tag, "PA0") {
        Some(0)
    } else if crate::text::string_eq_str(tag, "PA1") {
        Some(1)
    } else if crate::text::string_eq_str(tag, "PA2") {
        Some(2)
    } else if crate::text::string_eq_str(tag, "PA3") {
        Some(3)
    } else {
        None
    }
}

/// A body text field as a paragraph; `None` when its value is empty.
fn body_paragraph(field: &Field) -> (r: Option<Paragraph>)
    ensures
        field@.value.len() == 0 ==> r is None,
        field@.value.len() > 0 ==> (r matches Some(p) && paragraph_ok(p, field@)),
{
    if field.value.as_str().is_empty() {
        return None;
    }
    let text = if is_verbatim_tag(chars_of(field.tag.as_str()).as_slice()) {
        let mut t = crate::text::copy_str("```\n");
        crate::text::push_str(&mut t, field.value.as_str());
        crate::text::push_str(&mut t, "\n```");
        t
    } else {
        field.value.clone()
    };
    Some(
        Paragraph {
            attributes: Vec::new(),
            id: None,
            level: paragraph_level(&field.tag),
            content: vec![Run::Text(text)],
        },
    )
}

/// The non-empty fields of a section, in order.
pub open spec fn section_body_fields(fs: Seq<FieldView>, section: Seq<char>) -> Seq<FieldView>
    decreases fs.len(),
{
    if fs.len() == 0 {
        Seq::empty()
    } else {
        let prev = section_body_fields(fs.drop_last(), section);
        if fs.last().section == section && fs.last().value.len() > 0 {
            prev.push(fs.last())
        } else {
            prev
        }
    }
}

/// The abstract: one paragraph per non-empty `ABST` field.
pub open spec fn abstract_ok(a: AbstractSection, fs: Seq<FieldView>) -> bool {
    let af = section_body_fields(fs, "ABST"@);
    &&& a.attributes@.len() == 0
    &&& a.parts@.len() == af.len()
    &&& forall|i: int|
        0 <= i < af.len() ==> (#[trigger] a.parts@[i] matches AbstractPart::Paragraph(p)
            && paragraph_ok(p, af[i]))
}

fn build_abstract(fields: &Vec<Field>) -> (r: Option<AbstractSection>)
    ensures
        section_body_fields(fields_view(fields@), "ABST"@).len() == 0 ==> r is None,
        section_body_fields(fields_view(fields@), "ABST"@).len() > 0 ==> (r matches Some(a)
            && abstract_ok(a, fields_view(fields@))),
{
    let ghost fs = fields_view(fields@);
    let mut parts: Vec<AbstractPart> = Vec::new();
    let mut i: usize = 0;
    while i < fields.len()
        invariant
            i <= fields.len(),
            fs == fields_view(fields@),
            parts@.len() == section_body_fields(fs.take(i as int), "ABST"@).len(),
            forall|j: int|
                0 <= j < parts@.len() ==> (#[trigger] parts@[j] matches AbstractPart::Paragraph(p)
                    && paragraph_ok(p, section_body_fields(fs.take(i as int), "ABST"@)[j])),
        decreases fields.len() - i,
    {
        assert(fs.take(i + 1).drop_last() =~= fs.take(i as int));
        assert(fs[i as int] == fields@[i as int]@);
        if crate::text::string_eq_str(&fields[i].section, "ABST") {
            if let Some(paragraph) = body_paragraph(&fields[i]) {
                parts.push(AbstractPart::Paragraph(paragraph));
            }
        }
        i += 1;
    }
    assert(fs.take(fields.len() as int) =~= fs);
    if parts.len() > 0 {
        Some(AbstractSection { attributes: Vec::new(), parts })
    } else {
        None
    }
}

/// An item of a body section.
pub enum SecItem {
    Heading(Seq<char>),
    Para(FieldView),
}

/// Sections so far and the open one: `PAC` opens a section with its heading;
/// non-empty fields add paragraphs, opening a headless section if needed.
pub open spec fn body_fold(fs: Seq<FieldView>, section: Seq<char>) -> (
    Seq<Seq<SecItem>>,
    Option<Seq<SecItem>>,
)
    decreases fs.len(),
{
    if fs.len() == 0 {
        (Seq::empty(), None)
    } else {
        let (done, cur) = body_fold(fs.drop_last(), section);
        let f = fs.last();
        if f.section != section {
            (done, cur)
        } else if f.tag == "PAC"@ {
            (flush_spec(done, cur), Some(seq![SecItem::Heading(f.value)]))
        } else if f.value.len() > 0 {
            (
                done,
                Some(
                    match cur {
                        Some(c) => c,
                        None => Seq::empty(),
                    }.push(SecItem::Para(f)),
                ),
            )
        } else {
            (done, cur)
        }
    }
}

pub open spec fn has_section(fs: Seq<FieldView>, section: Seq<char>) -> bool {
    exists|i: int| 0 <= i < fs.len() && (#[trigger] fs[i]).section == section
}

/// The sections of a body region, `None` when no field belongs to it.
pub open spec fn spec_body_sections(fs: Seq<FieldView>, section: Seq<char>) -> Option<
    Seq<Seq<SecItem>>,
> {
    if has_section(fs, section) {
        let (done, cur) = body_fold(fs, section);
        Some(flush_spec(done, cur))
    } else {
        None
    }
}

pub open spec fn sec_item_ok(p: SectionPart, item: SecItem) -> bool {
    match item {
        SecItem::Heading(t) => p matches SectionPart::Heading(h) && h.attributes@.len() == 0
            && h.level is None && h.align is None && h.content@.len() == 1
            && (h.content@[0] matches Run::Text(x) && x@ == t),
        SecItem::Para(f) => p matches SectionPart::Paragraph(x) && paragraph_ok(x, f),
    }
}

pub open spec fn section_items_ok(parts: Seq<SectionPart>, items: Seq<SecItem>) -> bool {
    &&& parts.len() == items.len()
    &&& forall|i: int| 0 <= i < items.len() ==> #[trigger] sec_item_ok(parts[i], items[i])
}

pub open spec fn section_ok(s: Section, items: Seq<SecItem>) -> bool {
    s.attributes@.len() == 0 && section_items_ok(s.parts@, items)
}

pub open spec fn sec_part_ok(p: DescriptionSectionPart, items: Seq<SecItem>) -> bool {
    p matches DescriptionSectionPart::Section(s) && section_ok(s, items)
}

pub open spec fn container_ok(parts: Seq<DescriptionSectionPart>, secs: Seq<Seq<SecItem>>) -> bool {
    &&& parts.len() == secs.len()
    &&& forall|i: int| 0 <= i < secs.len() ==> #[trigger] sec_part_ok(parts[i], secs[i])
}

pub open spec fn open_section_ok(cur: Option<Section>, s: Option<Seq<SecItem>>) -> bool {
    match (cur, s) {
        (Some(x), Some(y)) => section_ok(x, y),
        (None, None) => true,
        _ => false,
    }
}

fn flush_section(parts: &mut Vec<DescriptionSectionPart>, current: Option<Section>)
    ensures
        current is None ==> final(parts)@ == old(parts)@,
        current matches Some(s) ==> final(parts)@ == old(parts)@.push(
            DescriptionSectionPart::Section(s),
        ),
{
    if let Some(section) = current {
        parts.push(DescriptionSectionPart::Section(section));
    }
}

fn body_sections(fields: &Vec<Field>, section: &str) -> (r: Option<Vec<DescriptionSectionPart>>)
    ensures
        match spec_body_sections(fields_view(fields@), section@) {
            None => r is None,
            Some(secs) => r matches Some(v) && container_ok(v@, secs),
        },
{
    let ghost fs = fields_view(fields@);
    let mut parts: Vec<DescriptionSectionPart> = Vec::new();
    let mut current: Option<Section> = None;
    let mut any = false;
    let mut i: usize = 0;
    while i < fields.len()
        invariant
            i <= fields.len(),
            fs == fields_view(fields@),
            any == has_section(fs.take(i as int), section@),
            container_ok(parts@, body_fold(fs.take(i as int), section@).0),
            open_section_ok(current, body_fold(fs.take(i as int), section@).1),
        decreases fields.len() - i,
    {
        let ghost pre = fs.take(i as int);
        assert(fs.take(i + 1).drop_last() =~= pre);
        assert(fs[i as int] == fields@[i as int]@);
        let ghost done0 = body_fold(pre, section@).0;
        let ghost cur0 = body_fold(pre, section@).1;
        let ghost parts0 = parts@;
        let f = &fields[i];
        if crate::text::string_eq_str(&f.section, section) {
            any = true;
            if crate::text::string_eq_str(&f.tag, "PAC") {
                let cur = current;
                flush_section(&mut parts, cur);
                proof {
                    let d2 = flush_spec(done0, cur0);
                    assert forall|j: int| 0 <= j < d2.len() implies #[trigger] sec_part_ok(
                        parts@[j],
                        d2[j],
                    ) by {
                        if j < parts0.len() {
                            assert(parts@[j] == parts0[j]);
                        }
                    }
                }
                let heading = Heading {
                    attributes: Vec::new(),
                    level: None,
                    align: None,
                    content: vec![Run::Text(f.value.clone())],
                };
                current = Some(
                    Section { attributes: Vec::new(), parts: vec![SectionPart::Heading(heading)] },
                );
                proof {
                    let items = seq![SecItem::Heading(f@.value)];
                    let s = current->0;
                    assert(sec_item_ok(s.parts@[0], items[0]));
                }
            } else {
                if let Some(paragraph) = body_paragraph(f) {
                    let mut sec = match current {
                        Some(s) => s,
                        None => Section { attributes: Vec::new(), parts: Vec::new() },
                    };
                    let ghost items0 = match cur0 {
                        Some(c) => c,
                        None => Seq::<SecItem>::empty(),
                    };
                    let ghost sp0 = sec.parts@;
                    sec.parts.push(SectionPart::Paragraph(paragraph));
                    proof {
                        let items = items0.push(SecItem::Para(f@));
                        assert forall|j: int| 0 <= j < items.len() implies #[trigger] sec_item_ok(
                            sec.parts@[j],
                            items[j],
                        ) by {
                            if j < items0.len() {
                                assert(sec.parts@[j] == sp0[j]);
                            }
                        }
                    }
                    current = Some(sec);
                }
            }
        }
        proof {
            if f@.section == section@ {
                assert(fs.take(i + 1)[i as int] == f@);
            }
            if has_section(fs.take(i + 1), section@) {
                let k = choose|k: int|
                    0 <= k < fs.take(i + 1).len() && (#[trigger] fs.take(i + 1)[k]).section
                        == section@;
                if k < i {
                    assert(pre[k] == fs.take(i + 1)[k]);
                }
            }
            if has_section(pre, section@) {
                let k = choose|k: int| 0 <= k < pre.len() && (#[trigger] pre[k]).section == section@;
                assert(fs.take(i + 1)[k] == pre[k]);
            }
        }
        i += 1;
    }
    assert(fs.take(fields.len() as int) =~= fs);
    if !any {
        return None;
    }
    let ghost done0 = body_fold(fs, section@).0;
    let ghost cur0 = body_fold(fs, section@).1;
    let ghost parts0 = parts@;
    flush_section(&mut parts, current);
    proof {
        let d2 = flush_spec(done0, cur0);
        assert forall|j: int| 0 <= j < d2.len() implies #[trigger] sec_part_ok(parts@[j], d2[j]) by {
            if j < parts0.len() {
                assert(parts@[j] == parts0[j]);
            }
        }
    }
    Some(parts)
}

pub enum DescKind {
    Summary,
    Brief,
    Detailed,
}

pub open spec fn desc_kinds(fs: Seq<FieldView>) -> Seq<DescKind> {
    opt_part(spec_body_sections(fs, "BSUM"@) is Some, DescKind::Summary) + opt_part(
        spec_body_sections(fs, "DRWD"@) is Some,
        DescKind::Brief,
    ) + opt_part(spec_body_sections(fs, "DETD"@) is Some, DescKind::Detailed)
}

/// The summary (BSUM), drawings description (DRWD) and detailed description
/// (DETD), each when its region has fields.
pub open spec fn desc_part_ok(p: DescriptionPart, k: DescKind, fs: Seq<FieldView>) -> bool {
    match k {
        DescKind::Summary => p matches DescriptionPart::SummaryOfInvention(v)
            && v.attributes@.len() == 0 && container_ok(
            v.parts@,
            spec_body_sections(fs, "BSUM"@)->0,
        ),
        DescKind::Brief => p matches DescriptionPart::BriefDescriptionOfDrawings(v)
            && v.attributes@.len() == 0 && container_ok(
            v.parts@,
            spec_body_sections(fs, "DRWD"@)->0,
        ),
        DescKind::Detailed => p matches DescriptionPart::DetailedDescription(v)
            && v.attributes@.len() == 0 && container_ok(
            v.parts@,
            spec_body_sections(fs, "DETD"@)->0,
        ),
    }
}

pub open spec fn description_ok(d: Description, fs: Seq<FieldView>) -> bool {
    &&& d.attributes@.len() == 0
    &&& d.parts@.len() == desc_kinds(fs).len()
    &&& forall|i: int|
        0 <= i < d.parts@.len() ==> #[trigger] desc_part_ok(d.parts@[i], desc_kinds(fs)[i], fs)
}

fn build_description(fields: &Vec<Field>) -> (r: Option<Description>)
    ensures
        desc_kinds(fields_view(fields@)).len() == 0 ==> r is None,
        desc_kinds(fields_view(fields@)).len() > 0 ==> (r matches Some(d) && description_ok(
            d,
            fields_view(fields@),
        )),
{
    let ghost fs = fields_view(fields@);
    let mut parts: Vec<DescriptionPart> = Vec::new();
    let bsum = body_sections(fields, "BSUM");
    let has_bsum = bsum.is_some();
    if let Some(section_parts) = bsum {
        parts.push(
            DescriptionPart::SummaryOfInvention(
                SummaryOfInvention { attributes: Vec::new(), parts: section_parts },
            ),
        );
    }
    let drwd = body_sections(fields, "DRWD");
    let has_drwd = drwd.is_some();
    if let Some(section_parts) = drwd {
        parts.push(
            DescriptionPart::BriefDescriptionOfDrawings(
                BriefDescriptionOfDrawings { attributes: Vec::new(), parts: section_parts },
            ),
        );
    }
    let detd = body_sections(fields, "DETD");
    let has_detd = detd.is_some();
    if let Some(section_parts) = detd {
        parts.push(
            DescriptionPart::DetailedDescription(
                DetailedDescription { attributes: Vec::new(), parts: section_parts },
            ),
        );
    }
    let ghost kinds = desc_kinds(fs);
    assert(kinds =~= opt_part(has_bsum, DescKind::Summary) + opt_part(has_drwd, DescKind::Brief)
        + opt_part(has_detd, DescKind::Detailed));
    assert forall|i: int| 0 <= i < parts@.len() implies #[trigger] desc_part_ok(
        parts@[i],
        kinds[i],
        fs,
    ) by {}
    if parts.len() > 0 {
        Some(Description { attributes: Vec::new(), parts })
    } else {
        None
    }
}

pub open spec fn claim_flush(done: Seq<Seq<Seq<char>>>, cur: Option<Seq<Seq<char>>>) -> Seq<
    Seq<Seq<char>>,
> {
    match cur {
        Some(c) => if c.len() > 0 {
            done.push(c)
        } else {
            done
        },
        None => done,
    }
}

/// Claims so far and the open one: `NUM` opens a claim, `STM` (the lead-in)
/// is dropped, other non-empty `CLMS` fields add a line of text.
pub open spec fn claims_fold(fs: Seq<FieldView>) -> (Seq<Seq<Seq<char>>>, Option<Seq<Seq<char>>>)
    decreases fs.len(),
{
    if fs.len() == 0 {
        (Seq::empty(), None)
    } else {
        let (done, cur) = claims_fold(fs.drop_last());
        let f = fs.last();
        if f.section != "CLMS"@ || f.tag == "STM"@ {
            (done, cur)
        } else if f.tag == "NUM"@ {
            (claim_flush(done, cur), Some(Seq::empty()))
        } else if f.value.len() > 0 {
            (
                done,
                Some(
                    match cur {
                        Some(c) => c,
                        None => Seq::empty(),
                    }.push(f.value),
                ),
            )
        } else {
            (done, cur)
        }
    }
}

/// The texts of every claim: the `CLMS` claims, then the design claim made of
/// the non-empty `DCLM` fields.
pub open spec fn claim_texts(fs: Seq<FieldView>) -> Seq<Seq<Seq<char>>> {
    let (done, cur) = claims_fold(fs);
    let dclm = section_body_fields(fs, "DCLM"@).map_values(|f: FieldView| f.value);
    claim_flush(done, cur) + opt_part(dclm.len() > 0, dclm)
}

pub open spec fn claim_run_ok(r: Run, t: Seq<char>) -> bool {
    r matches Run::ClaimText(c) && c.attributes@.len() == 0 && c.content@.len() == 1
        && (c.content@[0] matches Run::Text(x) && x@ == t)
}

/// A claim whose lines are claim-text runs of the given texts.
pub open spec fn claim_runs_ok(runs: Seq<Run>, texts: Seq<Seq<char>>) -> bool {
    &&& runs.len() == texts.len()
    &&& forall|i: int| 0 <= i < texts.len() ==> #[trigger] claim_run_ok(runs[i], texts[i])
}

pub open spec fn claim_part_ok(p: ClaimsPart, texts: Seq<Seq<char>>) -> bool {
    p matches ClaimsPart::Claim(c) && c.attributes@.len() == 0 && c.id is None && claim_runs_ok(
        c.content@,
        texts,
    )
}

pub open spec fn claim_parts_ok(parts: Seq<ClaimsPart>, all: Seq<Seq<Seq<char>>>) -> bool {
    &&& parts.len() == all.len()
    &&& forall|i: int| 0 <= i < all.len() ==> #[trigger] claim_part_ok(parts[i], all[i])
}

pub open spec fn claims_ok(c: Claims, fs: Seq<FieldView>) -> bool {
    c.attributes@.len() == 0 && claim_parts_ok(c.parts@, claim_texts(fs))
}

pub open spec fn open_claim_ok(cur: Option<Vec<Run>>, s: Option<Seq<Seq<char>>>) -> bool {
    match (cur, s) {
        (Some(x), Some(y)) => claim_runs_ok(x@, y),
        (None, None) => true,
        _ => false,
    }
}

fn claim_text_run(value: &String) -> (r: Run)
    ensures
        claim_run_ok(r, value@),
{
    Run::ClaimText(
        InlineContainer { attributes: Vec::new(), content: vec![Run::Text(value.clone())] },
    )
}

fn flush_claim(parts: &mut Vec<ClaimsPart>, current: Option<Vec<Run>>)
    ensures
        (current matches Some(c) && c@.len() > 0) ==> (final(parts)@.len() == old(parts)@.len() + 1
            && final(parts)@.drop_last() == old(parts)@ && (final(parts)@.last() matches ClaimsPart::Claim(x)
            && x.attributes@.len() == 0 && x.id is None && x.content == current->0)),
        !(current matches Some(c) && c@.len() > 0) ==> final(parts)@ == old(parts)@,
{
    if let Some(content) = current {
        if content.len() > 0 {
            parts.push(ClaimsPart::Claim(Claim { attributes: Vec::new(), id: None, content }));
            assert(parts@.drop_last() =~= old(parts)@);
        }
    }
}

fn build_claims(fields: &Vec<Field>) -> (r: Option<Claims>)
    ensures
        claim_texts(fields_view(fields@)).len() == 0 ==> r is None,
        claim_texts(fields_view(fields@)).len() > 0 ==> (r matches Some(c) && claims_ok(
            c,
            fields_view(fields@),
        )),
{
    let ghost fs = fields_view(fields@);
    let mut parts: Vec<ClaimsPart> = Vec::new();
    let mut current: Option<Vec<Run>> = None;
    let mut i: usize = 0;
    while i < fields.len()
        invariant
            i <= fields.len(),
            fs == fields_view(fields@),
            claim_parts_ok(parts@, claims_fold(fs.take(i as int)).0),
            open_claim_ok(current, claims_fold(fs.take(i as int)).1),
        decreases fields.len() - i,
    {
        let ghost pre = fs.take(i as int);
        assert(fs.take(i + 1).drop_last() =~= pre);
        assert(fs[i as int] == fields@[i as int]@);
        let ghost done0 = claims_fold(pre).0;
        let ghost cur0 = claims_fold(pre).1;
        let ghost parts0 = parts@;
        let f = &fields[i];
        if crate::text::string_eq_str(&f.section, "CLMS") && !crate::text::string_eq_str(
            &f.tag,
            "STM",
        ) {
            if crate::text::string_eq_str(&f.tag, "NUM") {
                let cur = current;
                flush_claim(&mut parts, cur);
                proof {
                    let d2 = claim_flush(done0, cur0);
                    assert forall|j: int| 0 <= j < d2.len() implies #[trigger] claim_part_ok(
                        parts@[j],
                        d2[j],
                    ) by {
                        if j < parts0.len() {
                            if parts@.len() > parts0.len() {
                    assert(parts@[j] == parts@.drop_last()[j]);
                }
                        }
                    }
                }
                current = Some(Vec::new());
                assert(claim_runs_ok(current->0@, Seq::empty()));
            } else if !f.value.as_str().is_empty() {
                let mut runs = match current {
                    Some(r) => r,
                    None => Vec::new(),
                };
                let ghost items0 = match cur0 {
                    Some(c) => c,
                    None => Seq::<Seq<char>>::empty(),
                };
                let ghost r0 = runs@;
                runs.push(claim_text_run(&f.value));
                proof {
                    let items = items0.push(f@.value);
                    assert forall|j: int| 0 <= j < items.len() implies #[trigger] claim_run_ok(
                        runs@[j],
                        items[j],
                    ) by {
                        if j < items0.len() {
                            assert(runs@[j] == r0[j]);
                        }
                    }
                }
                current = Some(runs);
            }
        }
        i += 1;
    }
    assert(fs.take(fields.len() as int) =~= fs);
    let ghost done0 = claims_fold(fs).0;
    let ghost cur0 = claims_fold(fs).1;
    let ghost parts0 = parts@;
    flush_claim(&mut parts, current);
    let ghost flushed = claim_flush(done0, cur0);
    proof {
        assert forall|j: int| 0 <= j < flushed.len() implies #[trigger] claim_part_ok(
            parts@[j],
            flushed[j],
        ) by {
            if j < parts0.len() {
                if parts@.len() > parts0.len() {
                    assert(parts@[j] == parts@.drop_last()[j]);
                }
            }
        }
    }
    let ghost dclm_fields = section_body_fields(fs, "DCLM"@);
    let mut dclm: Vec<Run> = Vec::new();
    let mut k: usize = 0;
    while k < fields.len()
        invariant
            k <= fields.len(),
            fs == fields_view(fields@),
            claim_runs_ok(
                dclm@,
                section_body_fields(fs.take(k as int), "DCLM"@).map_values(|f: FieldView| f.value),
            ),
        decreases fields.len() - k,
    {
        assert(fs.take(k + 1).drop_last() =~= fs.take(k as int));
        assert(fs[k as int] == fields@[k as int]@);
        let ghost d0 = dclm@;
        let ghost t0 = section_body_fields(fs.take(k as int), "DCLM"@).map_values(
            |f: FieldView| f.value,
        );
        if crate::text::string_eq_str(&fields[k].section, "DCLM")
            && !fields[k].value.as_str().is_empty() {
            dclm.push(claim_text_run(&fields[k].value));
            proof {
                let t1 = section_body_fields(fs.take(k + 1), "DCLM"@).map_values(
                    |f: FieldView| f.value,
                );
                assert(t1 =~= t0.push(fields@[k as int]@.value));
                assert forall|j: int| 0 <= j < t1.len() implies #[trigger] claim_run_ok(
                    dclm@[j],
                    t1[j],
                ) by {
                    if j < t0.len() {
                        assert(dclm@[j] == d0[j]);
                    }
                }
            }
        } else {
            assert(section_body_fields(fs.take(k + 1), "DCLM"@).map_values(|f: FieldView| f.value)
                =~= t0);
        }
        k += 1;
    }
    assert(fs.take(fields.len() as int) =~= fs);
    let ghost dtexts = dclm_fields.map_values(|f: FieldView| f.value);
    let has_dclm = dclm.len() > 0;
    let ghost parts1 = parts@;
    if has_dclm {
        parts.push(ClaimsPart::Claim(Claim { attributes: Vec::new(), id: None, content: dclm }));
    }
    proof {
        let all = claim_texts(fs);
        assert(all =~= flushed + opt_part(dtexts.len() > 0, dtexts));
        assert forall|j: int| 0 <= j < all.len() implies #[trigger] claim_part_ok(
            parts@[j],
            all[j],
        ) by {
            if j < parts1.len() {
                assert(parts@[j] == parts1[j]);
            }
        }
    }
    if parts.len() > 0 {
        Some(Claims { attributes: Vec::new(), parts })
    } else {
        None
    }
}

// ---------------------------------------------------------------------------
// Documents
// ---------------------------------------------------------------------------

pub enum DocKind {
    Biblio,
    Abstract,
    Description,
    Claims,
}

pub open spec fn doc_kinds(fs: Seq<FieldView>) -> Seq<DocKind> {
    seq![DocKind::Biblio] + opt_part(
        section_body_fields(fs, "ABST"@).len() > 0,
        DocKind::Abstract,
    ) + opt_part(desc_kinds(fs).len() > 0, DocKind::Description) + opt_part(
        claim_texts(fs).len() > 0,
        DocKind::Claims,
    )
}

pub open spec fn doc_part_ok(p: DocumentPart, k: DocKind, fs: Seq<FieldView>, wku: Seq<char>) -> bool {
    match k {
        DocKind::Biblio => p matches DocumentPart::BibliographicInformation(b) && aps_biblio_ok(
            b,
            fs,
            wku,
        ),
        DocKind::Abstract => p matches DocumentPart::AbstractSection(a) && abstract_ok(a, fs),
        DocKind::Description => p matches DocumentPart::Description(d) && description_ok(d, fs),
        DocKind::Claims => p matches DocumentPart::Claims(c) && claims_ok(c, fs),
    }
}

pub open spec fn prolog_is_empty(p: XmlProlog) -> bool {
    &&& p.xml_version is None
    &&& p.xml_encoding is None
    &&& p.xml_standalone is None
    &&& p.doctype_name is None
    &&& p.doctype_public_id is None
    &&& p.doctype_system_id is None
    &&& p.internal_subset is None
}

/// The document an APS record with fields `fs` and patent number `wku` parses
/// to: bibliographic data, then abstract, description and claims when present.
pub open spec fn aps_document_ok(doc: PatentDocument, fs: Seq<FieldView>, wku: Seq<char>) -> bool {
    &&& doc.source_format == SourceFormat::UsptoGrantApsGreenBook
    &&& prolog_is_empty(doc.prolog)
    &&& doc.attributes@.len() == 0
    &&& doc.parts@.len() == doc_kinds(fs).len()
    &&& forall|i: int|
        0 <= i < doc.parts@.len() ==> #[trigger] doc_part_ok(doc.parts@[i], doc_kinds(fs)[i], fs, wku)
}

/// The patent number of a record: its `WKU` field.
pub open spec fn record_wku(fs: Seq<FieldView>) -> Option<Seq<char>> {
    match spec_scalar(fs, "PATN"@, "WKU"@) {
        Some(w) => Some(w),
        None => spec_scalar(fs, ""@, "WKU"@),
    }
}

pub open spec fn record_fields(input: Seq<char>) -> Seq<FieldView> {
    spec_collect_fields(spec_strip_record_header(input))
}

pub open spec fn is_structure_error(r: Result<PatentDocument, ParseError>, msg: Seq<char>) -> bool {
    r matches Err(ParseError::UnsupportedStructure(m)) && m@ == msg
}

/// What parsing an APS record gives: an error for a record without tagged
/// fields or without a `WKU` patent number, else the document.
pub open spec fn aps_outcome_ok(input: Seq<char>, r: Result<PatentDocument, ParseError>) -> bool {
    let fs = record_fields(input);
    &&& fs.len() == 0 ==> is_structure_error(r, "APS record has no recognizable tagged fields"@)
    &&& fs.len() > 0 && record_wku(fs) is None ==> is_structure_error(
        r,
        "APS record missing WKU (patent number)"@,
    )
    &&& fs.len() > 0 && record_wku(fs) is Some ==> (r matches Ok(doc) && aps_document_ok(
        doc,
        fs,
        record_wku(fs)->0,
    ))
}

/// Parse one APS record.
pub fn parse_aps_document(input: &str) -> (r: Result<PatentDocument, ParseError>)
    ensures
        aps_outcome_ok(input@, r),
{
    let ic = chars_of(input);
    let record = strip_record_header(ic.as_slice());
    let fields = collect_fields_chars(record.as_slice());
    let ghost fs = fields_view(fields@);
    if fields.len() == 0 {
        return Err(
            ParseError::UnsupportedStructure(
                crate::text::copy_str("APS record has no recognizable tagged fields"),
            ),
        );
    }
    let wku = match scalar(&fields, "PATN", "WKU") {
        Some(w) => w,
        None => match scalar(&fields, "", "WKU") {
            Some(w) => w,
            None => {
                return Err(
                    ParseError::UnsupportedStructure(
                        crate::text::copy_str("APS record missing WKU (patent number)"),
                    ),
                );
            },
        },
    };
    let mut parts: Vec<DocumentPart> = Vec::new();
    parts.push(DocumentPart::BibliographicInformation(build_bibliographic(&fields, &wku)));
    let abst = build_abstract(&fields);
    let has_abst = abst.is_some();
    if let Some(a) = abst {
        parts.push(DocumentPart::AbstractSection(a));
    }
    let desc = build_description(&fields);
    let has_desc = desc.is_some();
    if let Some(d) = desc {
        parts.push(DocumentPart::Description(d));
    }
    let claims = build_claims(&fields);
    let has_claims = claims.is_some();
    if let Some(c) = claims {
        parts.push(DocumentPart::Claims(c));
    }
    let ghost kinds = doc_kinds(fs);
    assert(kinds =~= seq![DocKind::Biblio] + opt_part(has_abst, DocKind::Abstract) + opt_part(
        has_desc,
        DocKind::Description,
    ) + opt_part(has_claims, DocKind::Claims));
    assert forall|i: int| 0 <= i < parts@.len() implies #[trigger] doc_part_ok(
        parts@[i],
        kinds[i],
        fs,
        wku@,
    ) by {}
    let prolog = XmlProlog {
        xml_version: None,
        xml_encoding: None,
        xml_standalone: None,
        doctype_name: None,
        doctype_public_id: None,
        doctype_system_id: None,
        internal_subset: None,
    };
    let doc = PatentDocument {
        source_format: SourceFormat::UsptoGrantApsGreenBook,
        prolog,
        attributes: Vec::new(),
        parts,
    };
    Ok(doc)
}

/// The Green Book format adapter: parsing only; a Green Book record is never
/// written back.
pub struct UsptoGrantApsGreenBookAdapter;

impl UsptoGrantApsGreenBookAdapter {
    pub fn parse_document(&self, input: &str) -> (r: Result<PatentDocument, ParseError>)
        ensures
            aps_outcome_ok(input@, r),
    {
        parse_aps_document(input)
    }

    /// Always refused: no round trip is defined for this format.
    pub fn write_document(&self, doc: &PatentDocument) -> (r: Result<String, SerializeError>)
        ensures
            r matches Err(SerializeError::UnsupportedFormat(m))
                && m@ == "UsptoGrantApsGreenBook does not support serialization"@,
    {
        Err(
            SerializeError::UnsupportedFormat(
                crate::text::copy_str("UsptoGrantApsGreenBook does not support serialization"),
            ),
        )
    }
}

/// The claims the `CLMS` fields of `fs` make, the open one included.
pub open spec fn clms_claims(fs: Seq<FieldView>) -> Seq<Seq<Seq<char>>> {
    claim_flush(claims_fold(fs).0, claims_fold(fs).1)
}

/// A `NUM` field of the claims section.
pub open spec fn is_claim_number(f: FieldView) -> bool {
    f.section == "CLMS"@ && f.tag == "NUM"@
}

/// A field that adds a line of text to the open claim.
pub open spec fn is_claim_line(f: FieldView) -> bool {
    f.section == "CLMS"@ && f.tag != "STM"@ && f.tag != "NUM"@ && f.value.len() > 0
}

proof fn lemma_fold_after_number(fs1: Seq<FieldView>, n: FieldView, fs2: Seq<FieldView>)
    requires
        is_claim_number(n),
    ensures
        claims_fold(fs1 + seq![n] + fs2).0 == clms_claims(fs1) + claims_fold(seq![n] + fs2).0,
        claims_fold(fs1 + seq![n] + fs2).1 == claims_fold(seq![n] + fs2).1,
    decreases fs2.len(),
{
    reveal_strlit("STM");
    reveal_strlit("NUM");
    reveal_strlit("CLMS");
    assert("NUM"@ != "STM"@) by {
        assert("NUM"@[0] != "STM"@[0]);
    }
    if fs2.len() == 0 {
        let a = fs1 + seq![n] + fs2;
        assert(a =~= fs1.push(n));
        assert(a.drop_last() =~= fs1);
        assert(a.last() == n);
        assert(claims_fold(a) == (claim_flush(claims_fold(fs1).0, claims_fold(fs1).1), Some(Seq::<Seq<char>>::empty())));
        let b = seq![n] + fs2;
        assert(b =~= seq![n]);
        assert(b.drop_last() =~= Seq::<FieldView>::empty());
        assert(b.last() == n);
        assert(claims_fold(b.drop_last()) == (Seq::<Seq<Seq<char>>>::empty(), None::<Seq<Seq<char>>>));
        assert(claims_fold(b) == (Seq::<Seq<Seq<char>>>::empty(), Some(Seq::<Seq<char>>::empty())));
        assert(clms_claims(fs1) + Seq::<Seq<Seq<char>>>::empty() =~= clms_claims(fs1));
    } else {
        let a = fs1 + seq![n] + fs2;
        let b = seq![n] + fs2;
        lemma_fold_after_number(fs1, n, fs2.drop_last());
        assert(a.drop_last() =~= fs1 + seq![n] + fs2.drop_last());
        assert(b.drop_last() =~= seq![n] + fs2.drop_last());
        let f = fs2.last();
        assert(a.last() == f);
        assert(b.last() == f);
        let d2 = claims_fold(b.drop_last()).0;
        let c2 = claims_fold(b.drop_last()).1;
        let pre = clms_claims(fs1);
        assert(claims_fold(a.drop_last()).0 == pre + d2);
        assert(claims_fold(a.drop_last()).1 == c2);
        if f.section != "CLMS"@ || f.tag == "STM"@ {
            assert(claims_fold(a) == claims_fold(a.drop_last()));
            assert(claims_fold(b) == claims_fold(b.drop_last()));
        } else if f.tag == "NUM"@ {
            assert(claims_fold(a) == (claim_flush(pre + d2, c2), Some(Seq::<Seq<char>>::empty())));
            assert(claims_fold(b) == (claim_flush(d2, c2), Some(Seq::<Seq<char>>::empty())));
            match c2 {
                Some(c) => {
                    if c.len() > 0 {
                        assert((pre + d2).push(c) =~= pre + d2.push(c));
                    }
                },
                None => {},
            }
        } else if f.value.len() > 0 {
            assert(claims_fold(a).0 == pre + d2);
            assert(claims_fold(b).0 == d2);
        } else {
            assert(claims_fold(a) == claims_fold(a.drop_last()));
            assert(claims_fold(b) == claims_fold(b.drop_last()));
        }
    }
}

/// A `NUM` field splits the claims: the claims of the fields before it and
/// those of the fields from it on, never one claim with text from both
/// sides.
pub proof fn law_claim_number_splits_claims(fs1: Seq<FieldView>, n: FieldView, fs2: Seq<FieldView>)
    requires
        is_claim_number(n),
    ensures
        clms_claims(fs1 + seq![n] + fs2) == clms_claims(fs1) + clms_claims(seq![n] + fs2),
{
    lemma_fold_after_number(fs1, n, fs2);
    let (d2, c2) = claims_fold(seq![n] + fs2);
    let pre = clms_claims(fs1);
    match c2 {
        Some(c) => {
            if c.len() > 0 {
                assert((pre + d2).push(c) =~= pre + d2.push(c));
            }
        },
        None => {},
    }
}

/// The lines of claim text among `fs`, in order.
pub open spec fn claim_lines(fs: Seq<FieldView>) -> Seq<Seq<char>> {
    fs.filter(|f: FieldView| is_claim_line(f)).map_values(|f: FieldView| f.value)
}

proof fn lemma_fold_one_group(n: FieldView, fs: Seq<FieldView>)
    requires
        is_claim_number(n),
        forall|i: int| 0 <= i < fs.len() ==> !is_claim_number(#[trigger] fs[i]),
    ensures
        claims_fold(seq![n] + fs) == (Seq::<Seq<Seq<char>>>::empty(), Some(claim_lines(fs))),
    decreases fs.len(),
{
    reveal_strlit("STM");
    reveal_strlit("NUM");
    reveal_strlit("CLMS");
    reveal(Seq::filter);
    let g = |f: FieldView| f.value;
    let p = |f: FieldView| is_claim_line(f);
    assert("NUM"@ != "STM"@) by {
        assert("NUM"@[0] != "STM"@[0]);
    }
    if fs.len() == 0 {
        let b = seq![n] + fs;
        assert(b =~= seq![n]);
        assert(b.drop_last() =~= Seq::<FieldView>::empty());
        assert(b.last() == n);
        assert(claims_fold(b.drop_last()) == (Seq::<Seq<Seq<char>>>::empty(), None::<Seq<Seq<char>>>));
        assert(fs.filter(p) =~= Seq::<FieldView>::empty());
        assert(claim_lines(fs) =~= Seq::<Seq<char>>::empty());
        assert(claims_fold(b) == (Seq::<Seq<Seq<char>>>::empty(), Some(Seq::<Seq<char>>::empty())));
    } else {
        let init = fs.drop_last();
        assert forall|i: int| 0 <= i < init.len() implies !is_claim_number(#[trigger] init[i]) by {
            assert(init[i] == fs[i]);
        }
        lemma_fold_one_group(n, init);
        let b = seq![n] + fs;
        assert(b.drop_last() =~= seq![n] + init);
        let f = fs.last();
        assert(b.last() == f);
        assert(!is_claim_number(fs[fs.len() - 1]));
        let sub = init.filter(p);
        assert(claim_lines(init) == sub.map_values(g));
        if p(f) {
            assert(fs.filter(p) == sub.push(f));
            assert(sub.push(f).map_values(g) =~= sub.map_values(g).push(f.value));
            assert(claims_fold(b) == (Seq::<Seq<Seq<char>>>::empty(), Some(claim_lines(init).push(f.value))));
        } else {
            assert(fs.filter(p) == sub);
            assert(claims_fold(b) == claims_fold(b.drop_last()));
        }
    }
}

/// Between two claim numbers there is one claim at most: the lines of text
/// that follow a `NUM`, when there are any, in order.
pub proof fn law_claim_number_opens_one_claim(n: FieldView, fs: Seq<FieldView>)
    requires
        is_claim_number(n),
        forall|i: int| 0 <= i < fs.len() ==> !is_claim_number(#[trigger] fs[i]),
    ensures
        clms_claims(seq![n] + fs) == (if claim_lines(fs).len() > 0 {
            seq![claim_lines(fs)]
        } else {
            Seq::empty()
        }),
{
    lemma_fold_one_group(n, fs);
    if claim_lines(fs).len() > 0 {
        assert(Seq::<Seq<Seq<char>>>::empty().push(claim_lines(fs)) =~= seq![claim_lines(fs)]);
    }
}

proof fn lemma_fold_no_number(fs: Seq<FieldView>)
    requires
        forall|i: int| 0 <= i < fs.len() ==> !is_claim_number(#[trigger] fs[i]),
    ensures
        claims_fold(fs).0 == Seq::<Seq<Seq<char>>>::empty(),
        claims_fold(fs).1 == (if claim_lines(fs).len() > 0 {
            Some(claim_lines(fs))
        } else {
            None::<Seq<Seq<char>>>
        }),
    decreases fs.len(),
{
    reveal_strlit("STM");
    reveal_strlit("NUM");
    reveal_strlit("CLMS");
    reveal(Seq::filter);
    let g = |f: FieldView| f.value;
    let p = |f: FieldView| is_claim_line(f);
    assert("NUM"@ != "STM"@) by {
        assert("NUM"@[0] != "STM"@[0]);
    }
    if fs.len() == 0 {
        assert(fs.filter(p) =~= Seq::<FieldView>::empty());
        assert(claim_lines(fs) =~= Seq::<Seq<char>>::empty());
    } else {
        let init = fs.drop_last();
        assert forall|i: int| 0 <= i < init.len() implies !is_claim_number(#[trigger] init[i]) by {
            assert(init[i] == fs[i]);
        }
        lemma_fold_no_number(init);
        let f = fs.last();
        assert(!is_claim_number(fs[fs.len() - 1]));
        let sub = init.filter(p);
        assert(claim_lines(init) == sub.map_values(g));
        if p(f) {
            assert(fs.filter(p) == sub.push(f));
            assert(sub.push(f).map_values(g) =~= sub.map_values(g).push(f.value));
            assert(claim_lines(fs) == claim_lines(init).push(f.value));
            if claim_lines(init).len() == 0 {
                assert(Seq::<Seq<char>>::empty().push(f.value) =~= claim_lines(init).push(f.value));
            }
        } else {
            assert(fs.filter(p) == sub);
            assert(claims_fold(fs) == claims_fold(init));
        }
    }
}

/// The claim lines that come before any claim number make one claim, when
/// there are any.
pub proof fn law_lines_before_a_number_make_one_claim(fs: Seq<FieldView>)
    requires
        forall|i: int| 0 <= i < fs.len() ==> !is_claim_number(#[trigger] fs[i]),
    ensures
        clms_claims(fs) == (if claim_lines(fs).len() > 0 {
            seq![claim_lines(fs)]
        } else {
            Seq::empty()
        }),
{
    lemma_fold_no_number(fs);
    if claim_lines(fs).len() > 0 {
        assert(Seq::<Seq<Seq<char>>>::empty().push(claim_lines(fs)) =~= seq![claim_lines(fs)]);
    }
}

} // verus!
