//! Bibliographic field accessors shared by the Markdown frontmatter and the
//! biblio sidecar: identifiers, dates, numbers, classifications, parties.

use vstd::prelude::*;

use crate::model::opaque::XmlFragment;
use crate::model::bibliographic::{
    BibliographicInformation, BibliographicPart, ClassificationIpc, ClassificationUs,
    ContinuityPart, DocumentId, DomesticFilingPart, Inventor, InventorsPart, NamedParties,
    RelatedDocument, TechnicalInformationPart,
};
use crate::model::document::{DocumentPart, PatentDocument};
use crate::text::{
    byte_len, char_utf8_len, all_ascii_digits, all_digits, append_chars, chars_of, copy_str, eq_str, find_char,
    find_char_from, is_blank, is_blank_chars, join, lemma_find_char_from,
    lemma_trim_empty_iff_blank, push_str, slice_chars, starts_with, starts_with_str,
    string_of, trim, trim_chars, trim_str,
};
use crate::render::inline::{decode_entities, spec_decode_entities};

verus! {

// ---------------------------------------------------------------------------
// Locating the bibliographic block
// ---------------------------------------------------------------------------

pub open spec fn first_biblio_from(parts: Seq<DocumentPart>, i: int) -> Option<
    BibliographicInformation,
>
    decreases parts.len() - i,
{
    if i < 0 || i >= parts.len() {
        None
    } else if parts[i] is BibliographicInformation {
        Some(parts[i]->BibliographicInformation_0)
    } else {
        first_biblio_from(parts, i + 1)
    }
}

/// The document's first bibliographic block.
pub open spec fn spec_bibliographic(doc: PatentDocument) -> Option<BibliographicInformation> {
    first_biblio_from(doc.parts@, 0)
}

pub fn bibliographic(document: &PatentDocument) -> (r: Option<&BibliographicInformation>)
    ensures
        match r {
            Some(b) => spec_bibliographic(*document) == Some(*b),
            None => spec_bibliographic(*document) is None,
        },
{
    let mut i: usize = 0;
    while i < document.parts.len()
        invariant
            i <= document.parts.len(),
            spec_bibliographic(*document) == first_biblio_from(document.parts@, i as int),
        decreases document.parts.len() - i,
    {
        if let DocumentPart::BibliographicInformation(value) = &document.parts[i] {
            return Some(value);
        }
        i += 1;
    }
    None
}

pub open spec fn first_document_id_from(parts: Seq<BibliographicPart>, i: int) -> Option<DocumentId>
    decreases parts.len() - i,
{
    if i < 0 || i >= parts.len() {
        None
    } else if parts[i] is DocumentId {
        Some(parts[i]->DocumentId_0)
    } else {
        first_document_id_from(parts, i + 1)
    }
}

/// The first `document-id` of the bibliographic block.
pub open spec fn spec_document_id(doc: PatentDocument) -> Option<DocumentId> {
    match spec_bibliographic(doc) {
        None => None,
        Some(b) => first_document_id_from(b.parts@, 0),
    }
}

pub fn document_id(document: &PatentDocument) -> (r: Option<&DocumentId>)
    ensures
        match r {
            Some(d) => spec_document_id(*document) == Some(*d),
            None => spec_document_id(*document) is None,
        },
{
    let info = match bibliographic(document) {
        Some(info) => info,
        None => {
            return None;
        },
    };
    let mut i: usize = 0;
    while i < info.parts.len()
        invariant
            i <= info.parts.len(),
            spec_bibliographic(*document) == Some(*info),
            spec_document_id(*document) == first_document_id_from(info.parts@, i as int),
        decreases info.parts.len() - i,
    {
        if let BibliographicPart::DocumentId(value) = &info.parts[i] {
            return Some(value);
        }
        i += 1;
    }
    None
}

pub fn clone_opt(v: &Option<String>) -> (r: Option<String>)
    ensures
        r == *v,
{
    match v {
        Some(s) => Some(s.clone()),
        None => None,
    }
}

// ---------------------------------------------------------------------------
// Title and dates
// ---------------------------------------------------------------------------

pub open spec fn first_title_from(parts: Seq<TechnicalInformationPart>, i: int) -> Option<
    Seq<char>,
>
    decreases parts.len() - i,
{
    if i < 0 || i >= parts.len() {
        None
    } else if parts[i] is TitleOfInvention {
        Some(parts[i]->TitleOfInvention_0@)
    } else {
        first_title_from(parts, i + 1)
    }
}

pub open spec fn title_from(parts: Seq<BibliographicPart>, i: int) -> Option<Seq<char>>
    decreases parts.len() - i,
{
    if i < 0 || i >= parts.len() {
        None
    } else {
        match parts[i] {
            BibliographicPart::TechnicalInformation(t) => match first_title_from(t.parts@, 0) {
                Some(v) => Some(v),
                None => title_from(parts, i + 1),
            },
            _ => title_from(parts, i + 1),
        }
    }
}

/// The first title of invention in any technical-information block.
pub open spec fn spec_title(doc: PatentDocument) -> Option<Seq<char>> {
    match spec_bibliographic(doc) {
        None => None,
        Some(b) => title_from(b.parts@, 0),
    }
}

pub open spec fn opt_view(v: Option<String>) -> Option<Seq<char>> {
    match v {
        Some(s) => Some(s@),
        None => None,
    }
}

pub fn title(document: &PatentDocument) -> (r: Option<String>)
    ensures
        opt_view(r) == spec_title(*document),
{
    let info = match bibliographic(document) {
        Some(info) => info,
        None => {
            return None;
        },
    };
    let mut i: usize = 0;
    while i < info.parts.len()
        invariant
            i <= info.parts.len(),
            spec_bibliographic(*document) == Some(*info),
            spec_title(*document) == title_from(info.parts@, i as int),
        decreases info.parts.len() - i,
    {
        if let BibliographicPart::TechnicalInformation(value) = &info.parts[i] {
            let mut k: usize = 0;
            while k < value.parts.len()
                invariant
                    k <= value.parts.len(),
                    i < info.parts.len(),
                    info.parts@[i as int] == BibliographicPart::TechnicalInformation(*value),
                    spec_title(*document) == title_from(info.parts@, i as int),
                    first_title_from(value.parts@, 0) == first_title_from(value.parts@, k as int),
                decreases value.parts.len() - k,
            {
                if let TechnicalInformationPart::TitleOfInvention(t) = &value.parts[k] {
                    return Some(t.clone());
                }
                k += 1;
            }
        }
        i += 1;
    }
    None
}

pub open spec fn spec_publication_date(doc: PatentDocument) -> Option<Seq<char>> {
    match spec_document_id(doc) {
        None => None,
        Some(id) => opt_view(id.document_date),
    }
}

pub fn publication_date(document: &PatentDocument) -> (r: Option<String>)
    ensures
        opt_view(r) == spec_publication_date(*document),
{
    match document_id(document) {
        Some(id) => clone_opt(&id.document_date),
        None => None,
    }
}

pub open spec fn first_filing_date_from(parts: Seq<DomesticFilingPart>, i: int) -> Option<
    Seq<char>,
>
    decreases parts.len() - i,
{
    if i < 0 || i >= parts.len() {
        None
    } else if parts[i] is FilingDate {
        Some(parts[i]->FilingDate_0@)
    } else {
        first_filing_date_from(parts, i + 1)
    }
}

pub open spec fn filing_date_from(parts: Seq<BibliographicPart>, i: int) -> Option<Seq<char>>
    decreases parts.len() - i,
{
    if i < 0 || i >= parts.len() {
        None
    } else {
        match parts[i] {
            BibliographicPart::DomesticFilingData(d) => match first_filing_date_from(d.parts@, 0) {
                Some(v) => Some(v),
                None => filing_date_from(parts, i + 1),
            },
            _ => filing_date_from(parts, i + 1),
        }
    }
}

/// The first filing date in any domestic-filing block.
pub open spec fn spec_filing_date(doc: PatentDocument) -> Option<Seq<char>> {
    match spec_bibliographic(doc) {
        None => None,
        Some(b) => filing_date_from(b.parts@, 0),
    }
}

pub fn filing_date(document: &PatentDocument) -> (r: Option<String>)
    ensures
        opt_view(r) == spec_filing_date(*document),
{
    let info = match bibliographic(document) {
        Some(info) => info,
        None => {
            return None;
        },
    };
    let mut i: usize = 0;
    while i < info.parts.len()
        invariant
            i <= info.parts.len(),
            spec_bibliographic(*document) == Some(*info),
            spec_filing_date(*document) == filing_date_from(info.parts@, i as int),
        decreases info.parts.len() - i,
    {
        if let BibliographicPart::DomesticFilingData(value) = &info.parts[i] {
            let mut k: usize = 0;
            while k < value.parts.len()
                invariant
                    k <= value.parts.len(),
                    i < info.parts.len(),
                    info.parts@[i as int] == BibliographicPart::DomesticFilingData(*value),
                    spec_filing_date(*document) == filing_date_from(info.parts@, i as int),
                    first_filing_date_from(value.parts@, 0) == first_filing_date_from(
                        value.parts@,
                        k as int,
                    ),
                decreases value.parts.len() - k,
            {
                if let DomesticFilingPart::FilingDate(t) = &value.parts[k] {
                    return Some(t.clone());
                }
                k += 1;
            }
        }
        i += 1;
    }
    None
}

// ---------------------------------------------------------------------------
// Application number
// ---------------------------------------------------------------------------

pub open spec fn first_series_from(parts: Seq<DomesticFilingPart>, i: int) -> Option<Seq<char>>
    decreases parts.len() - i,
{
    if i < 0 || i >= parts.len() {
        None
    } else if parts[i] is ApplicationNumberSeriesCode {
        Some(parts[i]->ApplicationNumberSeriesCode_0@)
    } else {
        first_series_from(parts, i + 1)
    }
}

/// The first application number that carries a doc-number.
pub open spec fn first_appl_number_from(parts: Seq<DomesticFilingPart>, i: int) -> Option<
    Seq<char>,
>
    decreases parts.len() - i,
{
    if i < 0 || i >= parts.len() {
        None
    } else {
        match parts[i] {
            DomesticFilingPart::ApplicationNumber(a) => match a.doc_number {
                Some(n) => Some(n@),
                None => first_appl_number_from(parts, i + 1),
            },
            _ => first_appl_number_from(parts, i + 1),
        }
    }
}

/// The first domestic-filing block with an application number: its series
/// code (if any) and that number.
pub open spec fn filing_number_from(parts: Seq<BibliographicPart>, i: int) -> Option<
    (Option<Seq<char>>, Seq<char>),
>
    decreases parts.len() - i,
{
    if i < 0 || i >= parts.len() {
        None
    } else {
        match parts[i] {
            BibliographicPart::DomesticFilingData(d) => match first_appl_number_from(d.parts@, 0) {
                Some(n) => Some((first_series_from(d.parts@, 0), n)),
                None => filing_number_from(parts, i + 1),
            },
            _ => filing_number_from(parts, i + 1),
        }
    }
}

pub open spec fn spec_filing_number(doc: PatentDocument) -> Option<(Option<Seq<char>>, Seq<char>)> {
    match spec_bibliographic(doc) {
        None => None,
        Some(b) => filing_number_from(b.parts@, 0),
    }
}

fn first_series(parts: &Vec<DomesticFilingPart>) -> (r: Option<String>)
    ensures
        opt_view(r) == first_series_from(parts@, 0),
{
    let mut k: usize = 0;
    while k < parts.len()
        invariant
            k <= parts.len(),
            first_series_from(parts@, 0) == first_series_from(parts@, k as int),
        decreases parts.len() - k,
    {
        if let DomesticFilingPart::ApplicationNumberSeriesCode(s) = &parts[k] {
            return Some(s.clone());
        }
        k += 1;
    }
    None
}

fn first_appl_number(parts: &Vec<DomesticFilingPart>) -> (r: Option<String>)
    ensures
        opt_view(r) == first_appl_number_from(parts@, 0),
{
    let mut k: usize = 0;
    while k < parts.len()
        invariant
            k <= parts.len(),
            first_appl_number_from(parts@, 0) == first_appl_number_from(parts@, k as int),
        decreases parts.len() - k,
    {
        if let DomesticFilingPart::ApplicationNumber(a) = &parts[k] {
            if let Some(n) = &a.doc_number {
                return Some(n.clone());
            }
        }
        k += 1;
    }
    None
}

fn series_and_number(parts: &Vec<DomesticFilingPart>) -> (r: (Option<String>, Option<String>))
    ensures
        opt_view(r.0) == first_series_from(parts@, 0),
        opt_view(r.1) == first_appl_number_from(parts@, 0),
{
    (first_series(parts), first_appl_number(parts))
}

pub fn filing_number(document: &PatentDocument) -> (r: Option<(Option<String>, String)>)
    ensures
        match r {
            Some((s, n)) => spec_filing_number(*document) == Some((opt_view(s), n@)),
            None => spec_filing_number(*document) is None,
        },
{
    let info = match bibliographic(document) {
        Some(info) => info,
        None => {
            return None;
        },
    };
    let mut i: usize = 0;
    while i < info.parts.len()
        invariant
            i <= info.parts.len(),
            spec_bibliographic(*document) == Some(*info),
            spec_filing_number(*document) == filing_number_from(info.parts@, i as int),
        decreases info.parts.len() - i,
    {
        if let BibliographicPart::DomesticFilingData(value) = &info.parts[i] {
            let (series, number) = series_and_number(&value.parts);
            if let Some(n) = number {
                return Some((series, n));
            }
        }
        i += 1;
    }
    None
}

/// Whether the UTF-8 encoding of `cs` is at least `n` bytes long.
pub fn utf8_len_at_least(cs: &[char], n: u64) -> (r: bool)
    ensures
        r == (byte_len(cs@) >= n),
{
    if n == 0 {
        return true;
    }
    let mut total: u64 = 0;
    let mut i: usize = 0;
    while i < cs.len()
        invariant
            i <= cs.len(),
            total == byte_len(cs@.take(i as int)),
            total < n,
        decreases cs.len() - i,
    {
        proof {
            lemma_byte_len_prefix_mono(cs@, i as int);
        }
        assert(cs@.take(i + 1).drop_last() =~= cs@.take(i as int));
        let c = cs[i] as u32;
        let w: u64 = if c < 0x80 {
            1
        } else if c < 0x800 {
            2
        } else if c < 0x10000 {
            3
        } else {
            4
        };
        if w >= n - total {
            proof {
                lemma_byte_len_prefix_mono(cs@, i + 1);
                assert(cs@.take(cs.len() as int) =~= cs@);
            }
            return true;
        }
        total = total + w;
        i += 1;
    }
    assert(cs@.take(cs.len() as int) =~= cs@);
    total >= n
}

/// A longer prefix never has a shorter encoding.
proof fn lemma_byte_len_prefix_mono(s: Seq<char>, i: int)
    requires
        0 <= i <= s.len(),
    ensures
        byte_len(s.take(i)) <= byte_len(s),
    decreases s.len() - i,
{
    if i < s.len() {
        lemma_byte_len_prefix_mono(s, i + 1);
        assert(s.take(i + 1).drop_last() =~= s.take(i));
    } else {
        assert(s.take(i) =~= s);
    }
}

/// `number` with `prefix` removed from its front, if it starts with it.
pub open spec fn strip_prefix_or_keep(number: Seq<char>, prefix: Seq<char>) -> Seq<char> {
    if starts_with(number, prefix) {
        number.subrange(prefix.len() as int, number.len() as int)
    } else {
        number
    }
}

/// The display label `series/serial` of the application number: modern
/// doc-numbers (8+ bytes) already embed the series, which is then dropped from
/// their front; shorter legacy serials are shown whole.
pub open spec fn spec_application_label(doc: PatentDocument) -> Option<Seq<char>> {
    match spec_filing_number(doc) {
        None => None,
        Some((series, raw)) => {
            let number = trim(raw);
            match series {
                Some(s) if trim(s).len() > 0 => {
                    let series = trim(s);
                    let serial = if byte_len(number) >= 8 {
                        strip_prefix_or_keep(number, series)
                    } else {
                        number
                    };
                    Some(series + seq!['/'] + serial)
                },
                _ => Some(number),
            }
        },
    }
}

pub fn application_label(document: &PatentDocument) -> (r: Option<String>)
    ensures
        opt_view(r) == spec_application_label(*document),
{
    let (series, raw) = match filing_number(document) {
        Some(v) => v,
        None => {
            return None;
        },
    };
    let number = trim_str(raw.as_str());
    match series {
        Some(s) => {
            let series = trim_str(s.as_str());
            if series.len() > 0 {
                let serial = if utf8_len_at_least(number.as_slice(), 8) && crate::text::matches_at_exec(
                    number.as_slice(),
                    series.as_slice(),
                    0,
                ) {
                    slice_chars(number.as_slice(), series.len(), number.len())
                } else {
                    number
                };
                let mut out = series;
                out.push('/');
                append_chars(&mut out, serial.as_slice());
                return Some(string_of(out.as_slice()));
            }
            Some(string_of(number.as_slice()))
        },
        None => Some(string_of(number.as_slice())),
    }
}

/// Application number in the bare numeric form the record-dataset tables key
/// on, e.g. `16789012`. Modern (v4.x) doc-numbers already carry the full
/// 8-digit number including the series code; only shorter legacy serials need
/// the separate series code prepended. Digits are kept raw (zero padding
/// preserved); a number with non-digits is returned trimmed, as is.
pub open spec fn spec_bare_application_number(doc: PatentDocument) -> Option<Seq<char>> {
    match spec_filing_number(doc) {
        None => None,
        Some((series, raw)) => {
            let number = trim(raw);
            if !all_digits(number) {
                Some(number)
            } else {
                match series {
                    Some(s) if number.len() < 8 && all_digits(s) => Some(s + number),
                    _ => Some(number),
                }
            }
        },
    }
}

pub fn bare_application_number(document: &PatentDocument) -> (r: Option<String>)
    ensures
        opt_view(r) == spec_bare_application_number(*document),
{
    let (series, raw) = match filing_number(document) {
        Some(v) => v,
        None => {
            return None;
        },
    };
    let number = trim_str(raw.as_str());
    if !all_ascii_digits(number.as_slice()) {
        return Some(string_of(number.as_slice()));
    }
    match series {
        Some(s) => {
            let sc = chars_of(s.as_str());
            if number.len() < 8 && all_ascii_digits(sc.as_slice()) {
                let mut out = sc;
                append_chars(&mut out, number.as_slice());
                Some(string_of(out.as_slice()))
            } else {
                Some(string_of(number.as_slice()))
            }
        },
        None => Some(string_of(number.as_slice())),
    }
}

// ---------------------------------------------------------------------------
// Document numbers
// ---------------------------------------------------------------------------

/// Grant kind codes: `B*`, `E*`, and `S`.
pub open spec fn spec_is_patent_grant(id: DocumentId) -> bool {
    match id.kind_code {
        Some(k) => starts_with(k@, "B"@) || starts_with(k@, "E"@) || k@ == "S"@,
        None => false,
    }
}

pub fn is_patent_grant(value: &DocumentId) -> (r: bool)
    ensures
        r == spec_is_patent_grant(*value),
{
    match &value.kind_code {
        Some(kind) => {
            let k = chars_of(kind.as_str());
            starts_with_str(k.as_slice(), "B") || starts_with_str(k.as_slice(), "E") || eq_str(
                k.as_slice(),
                "S",
            )
        },
        None => false,
    }
}

/// Index of the first character at or after `i` that is not `'0'`.
pub open spec fn first_non_zero(s: Seq<char>, i: int) -> int
    decreases s.len() - i,
{
    if i < 0 || i >= s.len() {
        s.len() as int
    } else if s[i] == '0' {
        first_non_zero(s, i + 1)
    } else {
        i
    }
}

/// Trimmed, leading zeros stripped, `"0"` when nothing remains.
pub open spec fn spec_normalize_numeric_identifier(v: Seq<char>) -> Seq<char> {
    let t = trim(v);
    let k = first_non_zero(t, 0);
    if k >= t.len() {
        seq!['0']
    } else {
        t.subrange(k, t.len() as int)
    }
}

pub proof fn lemma_first_non_zero(s: Seq<char>, i: int)
    requires
        0 <= i <= s.len(),
    ensures
        i <= first_non_zero(s, i) <= s.len(),
    decreases s.len() - i,
{
    if i < s.len() && s[i] == '0' {
        lemma_first_non_zero(s, i + 1);
    }
}

pub fn normalize_numeric_identifier(value: &[char]) -> (r: Vec<char>)
    ensures
        r@ == spec_normalize_numeric_identifier(value@),
{
    let t = trim_chars(value);
    let mut k: usize = 0;
    while k < t.len() && t[k] == '0'
        invariant
            k <= t.len(),
            first_non_zero(t@, 0) == first_non_zero(t@, k as int),
        decreases t.len() - k,
    {
        k += 1;
    }
    if k >= t.len() {
        let mut z: Vec<char> = Vec::new();
        z.push('0');
        z
    } else {
        slice_chars(t.as_slice(), k, t.len())
    }
}

pub open spec fn spec_rendered_document_number(id: DocumentId) -> Seq<char> {
    if spec_is_patent_grant(id) && all_digits(id.doc_number@) {
        spec_normalize_numeric_identifier(id.doc_number@)
    } else {
        id.doc_number@
    }
}

/// Country (default `US`), rendered number, and kind code (default empty).
pub open spec fn spec_compact_document_number(id: DocumentId) -> Seq<char> {
    (match id.country_code {
        Some(c) => c@,
        None => "US"@,
    }) + spec_rendered_document_number(id) + (match id.kind_code {
        Some(k) => k@,
        None => Seq::empty(),
    })
}

pub fn compact_document_number(value: &DocumentId) -> (r: Vec<char>)
    ensures
        r@ == spec_compact_document_number(*value),
{
    let mut out = match &value.country_code {
        Some(c) => chars_of(c.as_str()),
        None => chars_of("US"),
    };
    let number = chars_of(value.doc_number.as_str());
    if is_patent_grant(value) && all_ascii_digits(number.as_slice()) {
        let n = normalize_numeric_identifier(number.as_slice());
        append_chars(&mut out, n.as_slice());
    } else {
        append_chars(&mut out, number.as_slice());
    }
    match &value.kind_code {
        Some(k) => {
            let kc = chars_of(k.as_str());
            append_chars(&mut out, kc.as_slice());
        },
        None => {},
    }
    out
}

/// Applications carry a publication number, grants a patent number.
pub open spec fn spec_publication_number(doc: PatentDocument) -> Option<Seq<char>> {
    match spec_document_id(doc) {
        Some(id) if !spec_is_patent_grant(id) => Some(spec_compact_document_number(id)),
        _ => None,
    }
}

pub open spec fn spec_patent_number(doc: PatentDocument) -> Option<Seq<char>> {
    match spec_document_id(doc) {
        Some(id) if spec_is_patent_grant(id) => Some(spec_compact_document_number(id)),
        _ => None,
    }
}

pub fn publication_number(document: &PatentDocument) -> (r: Option<String>)
    ensures
        opt_view(r) == spec_publication_number(*document),
{
    match document_id(document) {
        Some(id) => if !is_patent_grant(id) {
            let v = compact_document_number(id);
            Some(string_of(v.as_slice()))
        } else {
            None
        },
        None => None,
    }
}

pub fn patent_number(document: &PatentDocument) -> (r: Option<String>)
    ensures
        opt_view(r) == spec_patent_number(*document),
{
    match document_id(document) {
        Some(id) => if is_patent_grant(id) {
            let v = compact_document_number(id);
            Some(string_of(v.as_slice()))
        } else {
            None
        },
        None => None,
    }
}

/// A `series/serial` number joined and normalized when both halves are
/// digits; anything else is returned trimmed.
pub open spec fn spec_compact_application_doc_number(v: Seq<char>) -> Seq<char> {
    let t = trim(v);
    match find_char_from(t, '/', 0) {
        Some(k) => {
            let series = t.subrange(0, k);
            let number = t.subrange(k + 1, t.len() as int);
            if series.len() > 0 && number.len() > 0 && all_digits(series) && all_digits(number) {
                spec_normalize_numeric_identifier(series + number)
            } else {
                t
            }
        },
        None => t,
    }
}

pub fn compact_application_doc_number_str(value: &[char]) -> (r: Vec<char>)
    ensures
        r@ == spec_compact_application_doc_number(value@),
{
    let t = trim_chars(value);
    proof {
        lemma_find_char_from(t@, '/', 0);
    }
    match find_char(t.as_slice(), '/', 0) {
        Some(k) => {
            assert(k < t.len());
            let series = slice_chars(t.as_slice(), 0, k);
            let number = slice_chars(t.as_slice(), k + 1, t.len());
            if series.len() > 0 && number.len() > 0 && all_ascii_digits(series.as_slice())
                && all_ascii_digits(number.as_slice()) {
                let mut joined = series;
                append_chars(&mut joined, number.as_slice());
                normalize_numeric_identifier(joined.as_slice())
            } else {
                t
            }
        },
        None => t,
    }
}

// ---------------------------------------------------------------------------
// De-duplicated lists
// ---------------------------------------------------------------------------

/// Items in first-seen order with repeats dropped.
pub open spec fn dedupe(items: Seq<Seq<char>>) -> Seq<Seq<char>>
    decreases items.len(),
{
    if items.len() == 0 {
        Seq::empty()
    } else {
        let d = dedupe(items.drop_last());
        if d.contains(items.last()) {
            d
        } else {
            d.push(items.last())
        }
    }
}

pub fn contains_string(values: &Vec<String>, value: &String) -> (r: bool)
    ensures
        r == values.deep_view().contains(value@),
{
    let mut i: usize = 0;
    while i < values.len()
        invariant
            i <= values.len(),
            forall|j: int| 0 <= j < i ==> values.deep_view()[j] != value@,
        decreases values.len() - i,
    {
        if crate::text::string_eq_str(&values[i], value.as_str()) {
            assert(values.deep_view()[i as int] == value@);
            return true;
        }
        i += 1;
    }
    false
}

pub fn dedupe_strings(items: &Vec<String>) -> (r: Vec<String>)
    ensures
        r.deep_view() == dedupe(items.deep_view()),
{
    let mut out: Vec<String> = Vec::new();
    let mut i: usize = 0;
    assert(out.deep_view() =~= Seq::<Seq<char>>::empty());
    while i < items.len()
        invariant
            i <= items.len(),
            out.deep_view() == dedupe(items.deep_view().take(i as int)),
        decreases items.len() - i,
    {
        assert(items.deep_view().take(i + 1).drop_last() =~= items.deep_view().take(i as int));
        assert(items.deep_view()[i as int] == items[i as int]@);
        if !contains_string(&out, &items[i]) {
            let ghost old_out = out.deep_view();
            out.push(items[i].clone());
            assert(out.deep_view() =~= old_out.push(items[i as int]@));
        }
        i += 1;
    }
    assert(items.deep_view().take(items.len() as int) =~= items.deep_view());
    out
}

pub fn push_string(v: &mut Vec<String>, s: String)
    ensures
        final(v).deep_view() == old(v).deep_view().push(s@),
{
    v.push(s);
    assert(v.deep_view() =~= old(v).deep_view().push(s@));
}

pub fn append_strings(v: &mut Vec<String>, w: Vec<String>)
    ensures
        final(v).deep_view() == old(v).deep_view() + w.deep_view(),
{
    let mut i: usize = 0;
    while i < w.len()
        invariant
            i <= w.len(),
            v.deep_view() == old(v).deep_view() + w.deep_view().take(i as int),
        decreases w.len() - i,
    {
        push_string(v, w[i].clone());
        assert(w.deep_view()[i as int] == w[i as int]@);
        assert(old(v).deep_view() + w.deep_view().take(i + 1) =~= (old(v).deep_view()
            + w.deep_view().take(i as int)).push(w[i as int]@));
        i += 1;
    }
    assert(w.deep_view().take(w.len() as int) =~= w.deep_view());
}

// ---------------------------------------------------------------------------
// Classifications
// ---------------------------------------------------------------------------

pub open spec fn opt_list(v: Option<String>) -> Seq<Seq<char>> {
    match v {
        Some(s) => seq![s@],
        None => Seq::empty(),
    }
}

pub open spec fn strings_view(v: Seq<String>) -> Seq<Seq<char>> {
    v.map_values(|s: String| s@)
}

pub open spec fn spec_ipc_values(c: ClassificationIpc) -> Seq<Seq<char>> {
    opt_list(c.main_classification) + c.further_classification.deep_view()
}

pub open spec fn spec_us_values(c: ClassificationUs) -> Seq<Seq<char>> {
    opt_list(c.national_classification) + c.further_classification.deep_view()
}

/// Classification values of one technical-information block, IPC or US.
pub open spec fn tech_class_values(parts: Seq<TechnicalInformationPart>, ipc: bool) -> Seq<
    Seq<char>,
>
    decreases parts.len(),
{
    if parts.len() == 0 {
        Seq::empty()
    } else {
        tech_class_values(parts.drop_last(), ipc) + match parts.last() {
            TechnicalInformationPart::ClassificationIpc(c) => if ipc {
                spec_ipc_values(c)
            } else {
                Seq::empty()
            },
            TechnicalInformationPart::ClassificationUs(c) => if ipc {
                Seq::empty()
            } else {
                spec_us_values(c)
            },
            _ => Seq::empty(),
        }
    }
}

pub open spec fn biblio_class_values(parts: Seq<BibliographicPart>, ipc: bool) -> Seq<Seq<char>>
    decreases parts.len(),
{
    if parts.len() == 0 {
        Seq::empty()
    } else {
        biblio_class_values(parts.drop_last(), ipc) + match parts.last() {
            BibliographicPart::TechnicalInformation(t) => tech_class_values(t.parts@, ipc),
            _ => Seq::empty(),
        }
    }
}

/// All IPC (or US) classifications, main first per block, de-duplicated.
pub open spec fn spec_classifications(doc: PatentDocument, ipc: bool) -> Seq<Seq<char>> {
    match spec_bibliographic(doc) {
        None => Seq::empty(),
        Some(b) => dedupe(biblio_class_values(b.parts@, ipc)),
    }
}

fn opt_into(v: &mut Vec<String>, o: &Option<String>)
    ensures
        final(v).deep_view() == old(v).deep_view() + opt_list(*o),
{
    match o {
        Some(s) => push_string(v, s.clone()),
        None => {},
    }
    assert(v.deep_view() =~= old(v).deep_view() + opt_list(*o));
}

fn classification_values(parts: &Vec<TechnicalInformationPart>, ipc: bool) -> (r: Vec<String>)
    ensures
        r.deep_view() == tech_class_values(parts@, ipc),
{
    let mut out: Vec<String> = Vec::new();
    let mut i: usize = 0;
    assert(out.deep_view() =~= Seq::<Seq<char>>::empty());
    while i < parts.len()
        invariant
            i <= parts.len(),
            out.deep_view() == tech_class_values(parts@.take(i as int), ipc),
        decreases parts.len() - i,
    {
        assert(parts@.take(i + 1).drop_last() =~= parts@.take(i as int));
        let ghost before = out.deep_view();
        match &parts[i] {
            TechnicalInformationPart::ClassificationIpc(c) => {
                if ipc {
                    opt_into(&mut out, &c.main_classification);
                    append_strings(&mut out, c.further_classification.clone());
                }
            },
            TechnicalInformationPart::ClassificationUs(c) => {
                if !ipc {
                    opt_into(&mut out, &c.national_classification);
                    append_strings(&mut out, c.further_classification.clone());
                }
            },
            _ => {},
        }
        assert(out.deep_view() =~= before + match parts@[i as int] {
            TechnicalInformationPart::ClassificationIpc(c) => if ipc {
                spec_ipc_values(c)
            } else {
                Seq::empty()
            },
            TechnicalInformationPart::ClassificationUs(c) => if ipc {
                Seq::empty()
            } else {
                spec_us_values(c)
            },
            _ => Seq::empty(),
        });
        i += 1;
    }
    assert(parts@.take(parts.len() as int) =~= parts@);
    out
}

fn classifications(document: &PatentDocument, ipc: bool) -> (r: Vec<String>)
    ensures
        r.deep_view() == spec_classifications(*document, ipc),
{
    let info = match bibliographic(document) {
        Some(info) => info,
        None => {
            let v: Vec<String> = Vec::new();
            assert(v.deep_view() =~= Seq::<Seq<char>>::empty());
            return v;
        },
    };
    let mut all: Vec<String> = Vec::new();
    let mut i: usize = 0;
    assert(all.deep_view() =~= Seq::<Seq<char>>::empty());
    while i < info.parts.len()
        invariant
            i <= info.parts.len(),
            all.deep_view() == biblio_class_values(info.parts@.take(i as int), ipc),
        decreases info.parts.len() - i,
    {
        assert(info.parts@.take(i + 1).drop_last() =~= info.parts@.take(i as int));
        let ghost before = all.deep_view();
        if let BibliographicPart::TechnicalInformation(t) = &info.parts[i] {
            let vals = classification_values(&t.parts, ipc);
            append_strings(&mut all, vals);
        }
        assert(all.deep_view() =~= before + match info.parts@[i as int] {
            BibliographicPart::TechnicalInformation(t) => tech_class_values(t.parts@, ipc),
            _ => Seq::empty(),
        });
        i += 1;
    }
    assert(info.parts@.take(info.parts.len() as int) =~= info.parts@);
    dedupe_strings(&all)
}

pub fn ipc_classifications(document: &PatentDocument) -> (r: Vec<String>)
    ensures
        r.deep_view() == spec_classifications(*document, true),
{
    classifications(document, true)
}

pub fn us_classifications(document: &PatentDocument) -> (r: Vec<String>)
    ensures
        r.deep_view() == spec_classifications(*document, false),
{
    classifications(document, false)
}

// ---------------------------------------------------------------------------
// Priority chain
// ---------------------------------------------------------------------------

/// One continuity relation as the frontmatter lists it.
#[derive(Debug)]
pub struct PriorityEntry {
    pub relationship: String,
    pub parent_doc_number: Option<String>,
    pub parent_date: Option<String>,
    pub child_doc_number: Option<String>,
}

pub struct PriorityEntryView {
    pub relationship: Seq<char>,
    pub parent_doc_number: Option<Seq<char>>,
    pub parent_date: Option<Seq<char>>,
    pub child_doc_number: Option<Seq<char>>,
}

impl View for PriorityEntry {
    type V = PriorityEntryView;

    open spec fn view(&self) -> PriorityEntryView {
        PriorityEntryView {
            relationship: self.relationship@,
            parent_doc_number: opt_view(self.parent_doc_number),
            parent_date: opt_view(self.parent_date),
            child_doc_number: opt_view(self.child_doc_number),
        }
    }
}

/// A related document as a priority entry; a missing relationship reads
/// `unknown`.
pub open spec fn spec_priority_entry(v: RelatedDocument) -> PriorityEntryView {
    PriorityEntryView {
        relationship: match v.relationship {
            Some(r) => r@,
            None => "unknown"@,
        },
        parent_doc_number: opt_view(v.parent_doc_number),
        parent_date: opt_view(v.parent_date),
        child_doc_number: opt_view(v.child_doc_number),
    }
}

impl PriorityEntry {
    pub fn from_related_document(value: &RelatedDocument) -> (r: Self)
        ensures
            r@ == spec_priority_entry(*value),
    {
        PriorityEntry {
            relationship: match &value.relationship {
                Some(r) => r.clone(),
                None => copy_str("unknown"),
            },
            parent_doc_number: clone_opt(&value.parent_doc_number),
            parent_date: clone_opt(&value.parent_date),
            child_doc_number: clone_opt(&value.child_doc_number),
        }
    }
}

pub open spec fn continuity_entries(parts: Seq<ContinuityPart>) -> Seq<PriorityEntryView>
    decreases parts.len(),
{
    if parts.len() == 0 {
        Seq::empty()
    } else {
        continuity_entries(parts.drop_last()) + match parts.last() {
            ContinuityPart::NonProvisionalOfProvisional(v) => seq![spec_priority_entry(v)],
            ContinuityPart::RelatedDocument(v) => seq![spec_priority_entry(v)],
            ContinuityPart::Opaque(_) => Seq::empty(),
        }
    }
}

pub open spec fn biblio_entries(parts: Seq<BibliographicPart>) -> Seq<PriorityEntryView>
    decreases parts.len(),
{
    if parts.len() == 0 {
        Seq::empty()
    } else {
        biblio_entries(parts.drop_last()) + match parts.last() {
            BibliographicPart::ContinuityData(c) => continuity_entries(c.parts@),
            _ => Seq::empty(),
        }
    }
}

/// Every continuity relation of the bibliographic block, in order.
pub open spec fn spec_priority_chain(doc: PatentDocument) -> Seq<PriorityEntryView> {
    match spec_bibliographic(doc) {
        None => Seq::empty(),
        Some(b) => biblio_entries(b.parts@),
    }
}

pub open spec fn entries_view(v: Seq<PriorityEntry>) -> Seq<PriorityEntryView> {
    v.map_values(|e: PriorityEntry| e@)
}

fn push_entry(v: &mut Vec<PriorityEntry>, e: PriorityEntry)
    ensures
        entries_view(final(v)@) == entries_view(old(v)@).push(e@),
{
    v.push(e);
    assert(entries_view(v@) =~= entries_view(old(v)@).push(e@));
}

pub fn priority_chain(document: &PatentDocument) -> (r: Vec<PriorityEntry>)
    ensures
        entries_view(r@) == spec_priority_chain(*document),
{
    let mut out: Vec<PriorityEntry> = Vec::new();
    assert(entries_view(out@) =~= Seq::<PriorityEntryView>::empty());
    let info = match bibliographic(document) {
        Some(info) => info,
        None => {
            return out;
        },
    };
    let mut i: usize = 0;
    while i < info.parts.len()
        invariant
            i <= info.parts.len(),
            entries_view(out@) == biblio_entries(info.parts@.take(i as int)),
        decreases info.parts.len() - i,
    {
        assert(info.parts@.take(i + 1).drop_last() =~= info.parts@.take(i as int));
        if let BibliographicPart::ContinuityData(value) = &info.parts[i] {
            let ghost base = entries_view(out@);
            let mut k: usize = 0;
            while k < value.parts.len()
                invariant
                    k <= value.parts.len(),
                    entries_view(out@) == base + continuity_entries(value.parts@.take(k as int)),
                decreases value.parts.len() - k,
            {
                assert(value.parts@.take(k + 1).drop_last() =~= value.parts@.take(k as int));
                let ghost before = entries_view(out@);
                match &value.parts[k] {
                    ContinuityPart::NonProvisionalOfProvisional(v) => {
                        push_entry(&mut out, PriorityEntry::from_related_document(v));
                    },
                    ContinuityPart::RelatedDocument(v) => {
                        push_entry(&mut out, PriorityEntry::from_related_document(v));
                    },
                    ContinuityPart::Opaque(_) => {},
                }
                assert(base + continuity_entries(value.parts@.take(k + 1)) =~= before + match value.parts@[k as int] {
                    ContinuityPart::NonProvisionalOfProvisional(v) => seq![spec_priority_entry(v)],
                    ContinuityPart::RelatedDocument(v) => seq![spec_priority_entry(v)],
                    ContinuityPart::Opaque(_) => Seq::<PriorityEntryView>::empty(),
                });
                k += 1;
            }
            assert(value.parts@.take(value.parts.len() as int) =~= value.parts@);
        }
        i += 1;
    }
    assert(info.parts@.take(info.parts.len() as int) =~= info.parts@);
    out
}

/// Lexicographic order of texts by code point (the order of `String`).
pub open spec fn text_lt(a: Seq<char>, b: Seq<char>) -> bool
    decreases a.len(),
{
    if a.len() == 0 {
        b.len() > 0
    } else if b.len() == 0 {
        false
    } else if a[0] != b[0] {
        (a[0] as u32) < (b[0] as u32)
    } else {
        text_lt(a.drop_first(), b.drop_first())
    }
}

pub fn text_less(a: &[char], b: &[char]) -> (r: bool)
    ensures
        r == text_lt(a@, b@),
{
    let mut i: usize = 0;
    assert(a@.skip(0) =~= a@);
    assert(b@.skip(0) =~= b@);
    while i < a.len() && i < b.len() && a[i] == b[i]
        invariant
            i <= a.len(),
            i <= b.len(),
            text_lt(a@, b@) == text_lt(a@.skip(i as int), b@.skip(i as int)),
        decreases a.len() - i,
    {
        assert(a@.skip(i as int).drop_first() =~= a@.skip(i + 1));
        assert(b@.skip(i as int).drop_first() =~= b@.skip(i + 1));
        i += 1;
    }
    assert(i < a.len() ==> a@.skip(i as int)[0] == a@[i as int]);
    assert(i < b.len() ==> b@.skip(i as int)[0] == b@[i as int]);
    if i == a.len() {
        i < b.len()
    } else if i == b.len() {
        false
    } else {
        (a[i] as u32) < (b[i] as u32)
    }
}

/// The smallest of the parent dates present, if any.
pub open spec fn min_parent_date(entries: Seq<PriorityEntryView>) -> Option<Seq<char>>
    decreases entries.len(),
{
    if entries.len() == 0 {
        None
    } else {
        let m = min_parent_date(entries.drop_last());
        match entries.last().parent_date {
            None => m,
            Some(d) => match m {
                None => Some(d),
                Some(cur) => if text_lt(d, cur) {
                    Some(d)
                } else {
                    Some(cur)
                },
            },
        }
    }
}

pub fn priority_date(entries: &Vec<PriorityEntry>) -> (r: Option<String>)
    ensures
        opt_view(r) == min_parent_date(entries_view(entries@)),
{
    let mut best: Option<String> = None;
    let mut i: usize = 0;
    while i < entries.len()
        invariant
            i <= entries.len(),
            opt_view(best) == min_parent_date(entries_view(entries@).take(i as int)),
        decreases entries.len() - i,
    {
        assert(entries_view(entries@).take(i + 1).drop_last() =~= entries_view(entries@).take(i as int));
        if let Some(d) = &entries[i].parent_date {
            let replace = match &best {
                None => true,
                Some(cur) => {
                    let dc = chars_of(d.as_str());
                    let cc = chars_of(cur.as_str());
                    text_less(dc.as_slice(), cc.as_slice())
                },
            };
            if replace {
                best = Some(d.clone());
            }
        }
        i += 1;
    }
    assert(entries_view(entries@).take(entries.len() as int) =~= entries_view(entries@));
    best
}

proof fn lemma_text_lt_transitive(a: Seq<char>, b: Seq<char>, c: Seq<char>)
    requires
        text_lt(a, b),
        text_lt(b, c),
    ensures
        text_lt(a, c),
    decreases a.len(),
{
    if a.len() > 0 && b.len() > 0 && c.len() > 0 && a[0] == b[0] && b[0] == c[0] {
        lemma_text_lt_transitive(a.drop_first(), b.drop_first(), c.drop_first());
    }
}

proof fn lemma_text_lt_irreflexive(a: Seq<char>)
    ensures
        !text_lt(a, a),
    decreases a.len(),
{
    if a.len() > 0 {
        lemma_text_lt_irreflexive(a.drop_first());
    }
}

/// The priority date is the earliest parent date of the chain: absent
/// exactly when no entry has a parent date; else one of the entries' parent
/// dates, with no parent date of the chain before it in text order.
pub proof fn law_priority_date_is_earliest(entries: Seq<PriorityEntryView>)
    ensures
        min_parent_date(entries) is None <==> forall|i: int|
            0 <= i < entries.len() ==> (#[trigger] entries[i]).parent_date is None,
        min_parent_date(entries) matches Some(d) ==> exists|i: int|
            0 <= i < entries.len() && (#[trigger] entries[i]).parent_date == Some(d),
        min_parent_date(entries) matches Some(d) ==> forall|i: int|
            0 <= i < entries.len() ==> ((#[trigger] entries[i]).parent_date matches Some(e)
                ==> !text_lt(e, d)),
    decreases entries.len(),
{
    if entries.len() > 0 {
        let prev = entries.drop_last();
        law_priority_date_is_earliest(prev);
        let n = entries.len() - 1;
        assert forall|i: int| 0 <= i < n implies entries[i] == prev[i] by {}
        match entries.last().parent_date {
            None => {
                if let Some(d) = min_parent_date(prev) {
                    let w = choose|i: int| 0 <= i < prev.len() && (#[trigger] prev[i]).parent_date == Some(d);
                    assert(entries[w] == prev[w]);
                }
            },
            Some(d) => {
                lemma_text_lt_irreflexive(d);
                match min_parent_date(prev) {
                    None => {
                        assert(entries[n].parent_date == Some(d));
                    },
                    Some(cur) => {
                        let w = choose|i: int| 0 <= i < prev.len() && (#[trigger] prev[i]).parent_date == Some(cur);
                        assert(entries[w] == prev[w]);
                        assert(entries[n].parent_date == Some(d));
                        lemma_text_lt_irreflexive(cur);
                        if text_lt(d, cur) {
                            assert forall|i: int| 0 <= i < entries.len() implies ((#[trigger] entries[i]).parent_date matches Some(e)
                                ==> !text_lt(e, d)) by {
                                if i < n {
                                    if let Some(e) = entries[i].parent_date {
                                        assert(prev[i].parent_date == Some(e));
                                        if text_lt(e, d) {
                                            lemma_text_lt_transitive(e, d, cur);
                                        }
                                    }
                                }
                            }
                        }
                    },
                }
            },
        }
    }
}

pub open spec fn spec_earliest_priority_date(doc: PatentDocument) -> Option<Seq<char>> {
    min_parent_date(spec_priority_chain(doc))
}

pub fn earliest_priority_date(document: &PatentDocument) -> (r: Option<String>)
    ensures
        opt_view(r) == spec_earliest_priority_date(*document),
{
    let chain = priority_chain(document);
    priority_date(&chain)
}

// ---------------------------------------------------------------------------
// Party names
// ---------------------------------------------------------------------------

/// Which party list a name belongs to.
#[derive(Debug, Clone, Copy, PartialEq, Eq, Structural)]
pub enum PartyKind {
    Applicant,
    Assignee,
    Inventor,
}

/// The element names that hold a party of each kind in verbatim XML.
pub open spec fn spec_matches_party_element(kind: PartyKind, local: Seq<char>) -> bool {
    match kind {
        PartyKind::Applicant => local == "applicant"@ || local == "us-applicant"@,
        PartyKind::Assignee => local == "assignee"@,
        PartyKind::Inventor => local == "inventor"@ || local == "us-inventor"@ || local
            == "first-named-inventor"@ || local == "B721"@,
    }
}

impl PartyKind {
    pub fn matches_party_element(self, local_name: &String) -> (r: bool)
        ensures
            r == spec_matches_party_element(self, local_name@),
    {
        let l = chars_of(local_name.as_str());
        match self {
            PartyKind::Applicant => eq_str(l.as_slice(), "applicant") || eq_str(
                l.as_slice(),
                "us-applicant",
            ),
            PartyKind::Assignee => eq_str(l.as_slice(), "assignee"),
            PartyKind::Inventor => eq_str(l.as_slice(), "inventor") || eq_str(
                l.as_slice(),
                "us-inventor",
            ) || eq_str(l.as_slice(), "first-named-inventor") || eq_str(l.as_slice(), "B721"),
        }
    }
}

/// Raw text of a fragment: its text nodes concatenated.
pub open spec fn spec_collect_text(f: XmlFragment) -> Seq<char>
    decreases f,
{
    match f {
        XmlFragment::Text(v) => v@,
        XmlFragment::Element { children, .. } => spec_collect_text_all(children@),
    }
}

pub open spec fn spec_collect_text_all(fs: Seq<XmlFragment>) -> Seq<char>
    decreases fs,
{
    if fs.len() == 0 {
        Seq::empty()
    } else {
        spec_collect_text_all(fs.drop_last()) + spec_collect_text(fs.last())
    }
}

pub fn collect_text(fragment: &XmlFragment, output: &mut Vec<char>)
    ensures
        final(output)@ == old(output)@ + spec_collect_text(*fragment),
    decreases fragment,
{
    match fragment {
        XmlFragment::Text(value) => {
            let vc = chars_of(value.as_str());
            append_chars(output, vc.as_slice());
        },
        XmlFragment::Element { children, .. } => {
            let mut k: usize = 0;
            while k < children.len()
                invariant
                    k <= children.len(),
                    *fragment is Element && (*fragment)->children == *children,
                    output@ == old(output)@ + spec_collect_text_all(children@.take(k as int)),
                decreases children.len() - k,
            {
                assert(children@.take(k + 1).drop_last() =~= children@.take(k as int));
                proof {
                    assert(decreases_to!(*fragment => (*fragment)->children));
                    assert(decreases_to!(*children => children@));
                }
                collect_text(&children[k], output);
                k += 1;
            }
            assert(children@.take(children.len() as int) =~= children@);
        },
    }
}

/// The trimmed, entity-decoded text of a fragment, if not blank.
pub open spec fn spec_flattened_text(f: XmlFragment) -> Option<Seq<char>> {
    let t = trim(spec_collect_text(f));
    if t.len() > 0 {
        Some(spec_decode_entities(t))
    } else {
        None
    }
}

pub fn flattened_text(fragment: &XmlFragment) -> (r: Option<Vec<char>>)
    ensures
        match r {
            Some(v) => spec_flattened_text(*fragment) == Some(v@),
            None => spec_flattened_text(*fragment) is None,
        },
{
    let mut output: Vec<char> = Vec::new();
    collect_text(fragment, &mut output);
    assert(output@ =~= spec_collect_text(*fragment));
    let t = trim_chars(output.as_slice());
    if t.len() > 0 {
        Some(decode_entities(t.as_slice()))
    } else {
        None
    }
}

/// The element reached by following child element names `path` from `f`,
/// trying matching children in order.
pub open spec fn spec_find_path(f: XmlFragment, path: Seq<Seq<char>>) -> Option<XmlFragment>
    decreases f,
{
    if path.len() == 0 {
        Some(f)
    } else {
        match f {
            XmlFragment::Text(_) => None,
            XmlFragment::Element { children, .. } => spec_find_path_in(children@, path),
        }
    }
}

pub open spec fn spec_find_path_in(cs: Seq<XmlFragment>, path: Seq<Seq<char>>) -> Option<
    XmlFragment,
>
    decreases cs,
{
    if cs.len() == 0 || path.len() == 0 {
        None
    } else {
        let found = match cs[0] {
            XmlFragment::Element { name, .. } => if name.local_name@ == path[0] {
                spec_find_path(cs[0], path.drop_first())
            } else {
                None
            },
            XmlFragment::Text(_) => None,
        };
        match found {
            Some(x) => Some(x),
            None => spec_find_path_in(cs.drop_first(), path),
        }
    }
}

pub open spec fn opt_ref_matches(r: Option<&XmlFragment>, s: Option<XmlFragment>) -> bool {
    match r {
        Some(x) => s == Some(*x),
        None => s is None,
    }
}

pub fn find_path<'a>(fragment: &'a XmlFragment, path: &[Vec<char>], start: usize) -> (r: Option<
    &'a XmlFragment,
>)
    requires
        start <= path.len(),
    ensures
        opt_ref_matches(r, spec_find_path(*fragment, path.deep_view().skip(start as int))),
    decreases fragment,
{
    if start >= path.len() {
        return Some(fragment);
    }
    match fragment {
        XmlFragment::Text(_) => None,
        XmlFragment::Element { children, .. } => {
            let ghost p = path.deep_view().skip(start as int);
            let mut k: usize = 0;
            assert(children@.skip(0) =~= children@);
            while k < children.len()
                invariant
                    k <= children.len(),
                    start < path.len(),
                    p == path.deep_view().skip(start as int),
                    *fragment is Element && (*fragment)->children == *children,
                    spec_find_path(*fragment, p) == spec_find_path_in(children@.skip(k as int), p),
                decreases children.len() - k,
            {
                let ghost rest = children@.skip(k as int);
                assert(rest[0] == children@[k as int]);
                assert(rest.drop_first() =~= children@.skip(k + 1));
                assert(p[0] == path@[start as int]@);
                assert(path.deep_view().skip(start + 1) =~= p.drop_first());
                proof {
                    assert(decreases_to!(*fragment => (*fragment)->children));
                    assert(decreases_to!(*children => children@));
                }
                if let XmlFragment::Element { name, .. } = &children[k] {
                    let local = chars_of(name.local_name.as_str());
                    if crate::text::eq_chars(local.as_slice(), path[start].as_slice()) {
                        let found = find_path(&children[k], path, start + 1);
                        if found.is_some() {
                            return found;
                        }
                    }
                }
                k += 1;
            }
            assert(children@.skip(children.len() as int) =~= Seq::<XmlFragment>::empty());
            None
        },
    }
}

/// The first element named `target` in document order, `f` included.
pub open spec fn spec_find_descendant(f: XmlFragment, target: Seq<char>) -> Option<XmlFragment>
    decreases f,
{
    match f {
        XmlFragment::Text(_) => None,
        XmlFragment::Element { name, children, .. } => if name.local_name@ == target {
            Some(f)
        } else {
            spec_find_descendant_in(children@, target)
        },
    }
}

pub open spec fn spec_find_descendant_in(cs: Seq<XmlFragment>, target: Seq<char>) -> Option<
    XmlFragment,
>
    decreases cs,
{
    if cs.len() == 0 {
        None
    } else {
        match spec_find_descendant(cs[0], target) {
            Some(x) => Some(x),
            None => spec_find_descendant_in(cs.drop_first(), target),
        }
    }
}

pub fn find_descendant_element<'a>(fragment: &'a XmlFragment, target: &[char]) -> (r: Option<
    &'a XmlFragment,
>)
    ensures
        opt_ref_matches(r, spec_find_descendant(*fragment, target@)),
    decreases fragment,
{
    match fragment {
        XmlFragment::Text(_) => None,
        XmlFragment::Element { name, children, .. } => {
            let local = chars_of(name.local_name.as_str());
            if crate::text::eq_chars(local.as_slice(), target) {
                return Some(fragment);
            }
            let mut k: usize = 0;
            assert(children@.skip(0) =~= children@);
            while k < children.len()
                invariant
                    k <= children.len(),
                    *fragment is Element && (*fragment)->children == *children,
                    spec_find_descendant(*fragment, target@) == spec_find_descendant_in(
                        children@.skip(k as int),
                        target@,
                    ),
                decreases children.len() - k,
            {
                let ghost rest = children@.skip(k as int);
                assert(rest[0] == children@[k as int]);
                assert(rest.drop_first() =~= children@.skip(k + 1));
                proof {
                    assert(decreases_to!(*fragment => (*fragment)->children));
                    assert(decreases_to!(*children => children@));
                }
                let found = find_descendant_element(&children[k], target);
                if found.is_some() {
                    return found;
                }
                k += 1;
            }
            assert(children@.skip(children.len() as int) =~= Seq::<XmlFragment>::empty());
            None
        },
    }
}

pub open spec fn spec_first_descendant_text(f: XmlFragment, path: Seq<Seq<char>>) -> Option<
    Seq<char>,
> {
    match spec_find_path(f, path) {
        None => None,
        Some(t) => spec_flattened_text(t),
    }
}

fn first_descendant_text(fragment: &XmlFragment, path: &[&str]) -> (r: Option<Vec<char>>)
    ensures
        opt_chars_matches(r, spec_first_descendant_text(*fragment, path@.map_values(|s: &str| s@))),
{
    let mut p: Vec<Vec<char>> = Vec::new();
    let mut i: usize = 0;
    assert(p.deep_view() =~= Seq::<Seq<char>>::empty());
    while i < path.len()
        invariant
            i <= path.len(),
            p.deep_view() == path@.take(i as int).map_values(|s: &str| s@),
        decreases path.len() - i,
    {
        let c = chars_of(path[i]);
        let ghost old_p = p.deep_view();
        proof { crate::text::lemma_deep_view_chars(c); }
        p.push(c);
        assert(p.deep_view() =~= old_p.push(path@[i as int]@));
        assert(path@.take(i + 1).map_values(|s: &str| s@) =~= path@.take(i as int).map_values(|s: &str| s@).push(path@[i as int]@));
        i += 1;
    }
    assert(path@.take(path.len() as int) =~= path@);
    assert(p.deep_view().skip(0) =~= p.deep_view());
    match find_path(fragment, p.as_slice(), 0) {
        None => None,
        Some(t) => flattened_text(t),
    }
}

pub open spec fn vopt(r: Option<Vec<char>>) -> Option<Seq<char>> {
    match r {
        Some(v) => Some(v@),
        None => None,
    }
}

pub open spec fn opt_chars_matches(r: Option<Vec<char>>, s: Option<Seq<char>>) -> bool {
    vopt(r) == s
}

pub open spec fn or_else(a: Option<Seq<char>>, b: Option<Seq<char>>) -> Option<Seq<char>> {
    match a {
        Some(x) => Some(x),
        None => b,
    }
}

/// First and last name joined by a space, kept only if not blank.
pub open spec fn spec_join_names(first: Option<Seq<char>>, last: Option<Seq<char>>) -> Option<
    Seq<char>,
> {
    let parts = (match first {
        Some(f) => seq![f],
        None => Seq::empty(),
    }) + (match last {
        Some(l) => seq![l],
        None => Seq::empty(),
    });
    let joined = join(parts, seq![' ']);
    if trim(joined).len() > 0 {
        Some(joined)
    } else {
        None
    }
}

fn join_names(first: Option<Vec<char>>, last: Option<Vec<char>>) -> (r: Option<Vec<char>>)
    ensures
        vopt(r) == spec_join_names(vopt(first), vopt(last)),
{
    let mut joined: Vec<char> = Vec::new();
    match (&first, &last) {
        (Some(f), Some(l)) => {
            append_chars(&mut joined, f.as_slice());
            joined.push(' ');
            append_chars(&mut joined, l.as_slice());
            proof {
                let parts = seq![f@, l@];
                assert(parts.drop_last() =~= seq![f@]);
                assert(join(seq![f@], seq![' ']) == f@);
                assert(parts.last() == l@);
                assert(joined@ =~= f@ + seq![' '] + l@);
                assert(joined@ =~= join(parts, seq![' ']));
                assert(parts =~= seq![f@] + seq![l@]);
            }
        },
        (Some(f), None) => {
            append_chars(&mut joined, f.as_slice());
            assert(seq![f@] + Seq::<Seq<char>>::empty() =~= seq![f@]);
        },
        (None, Some(l)) => {
            append_chars(&mut joined, l.as_slice());
            assert(Seq::<Seq<char>>::empty() + seq![l@] =~= seq![l@]);
        },
        (None, None) => {
            assert(Seq::<Seq<char>>::empty() + Seq::<Seq<char>>::empty() =~= Seq::<Seq<char>>::empty());
        },
    }
    proof {
        lemma_trim_empty_iff_blank(joined@);
    }
    if is_blank_chars(joined.as_slice()) {
        None
    } else {
        Some(joined)
    }
}

pub open spec fn spec_combined_descendant_name(f: XmlFragment, container: Seq<char>) -> Option<
    Seq<char>,
> {
    match spec_find_descendant(f, container) {
        None => None,
        Some(c) => spec_join_names(
            or_else(
                spec_first_descendant_text(c, seq!["first-name"@]),
                spec_first_descendant_text(c, seq!["given-name"@]),
            ),
            or_else(
                spec_first_descendant_text(c, seq!["last-name"@]),
                spec_first_descendant_text(c, seq!["family-name"@]),
            ),
        ),
    }
}

fn or_else_exec(a: Option<Vec<char>>, b: Option<Vec<char>>) -> (r: Option<Vec<char>>)
    ensures
        vopt(r) == or_else(vopt(a), vopt(b)),
{
    match a {
        Some(x) => Some(x),
        None => b,
    }
}

fn combined_descendant_name(fragment: &XmlFragment, container_name: &str) -> (r: Option<Vec<char>>)
    ensures
        opt_chars_matches(r, spec_combined_descendant_name(*fragment, container_name@)),
{
    let target = chars_of(container_name);
    let container = match find_descendant_element(fragment, target.as_slice()) {
        Some(c) => c,
        None => {
            return None;
        },
    };
    let p1: [&str; 1] = ["first-name"];
    let p2: [&str; 1] = ["given-name"];
    let p3: [&str; 1] = ["last-name"];
    let p4: [&str; 1] = ["family-name"];
    let a = first_descendant_text(container, &p1);
    let b = first_descendant_text(container, &p2);
    let c = first_descendant_text(container, &p3);
    let d = first_descendant_text(container, &p4);
    proof {
        assert(p1@.map_values(|s: &str| s@) =~= seq!["first-name"@]);
        assert(p2@.map_values(|s: &str| s@) =~= seq!["given-name"@]);
        assert(p3@.map_values(|s: &str| s@) =~= seq!["last-name"@]);
        assert(p4@.map_values(|s: &str| s@) =~= seq!["family-name"@]);
    }
    let first = or_else_exec(a, b);
    let last = or_else_exec(c, d);
    join_names(first, last)
}

/// ST.32 party names: `NAM` holding `ONM` (an organization), or `FNM` and
/// `SNM` (first and last name).
pub open spec fn spec_combined_st32_name(f: XmlFragment) -> Option<Seq<char>> {
    match spec_find_descendant(f, "NAM"@) {
        None => None,
        Some(c) => match spec_first_descendant_text(c, seq!["ONM"@]) {
            Some(org) => Some(org),
            None => spec_join_names(
                spec_first_descendant_text(c, seq!["FNM"@]),
                spec_first_descendant_text(c, seq!["SNM"@]),
            ),
        },
    }
}

fn combined_st32_name(fragment: &XmlFragment) -> (r: Option<Vec<char>>)
    ensures
        vopt(r) == spec_combined_st32_name(*fragment),
{
    let target = chars_of("NAM");
    let container = match find_descendant_element(fragment, target.as_slice()) {
        Some(c) => c,
        None => {
            return None;
        },
    };
    let p_org: [&str; 1] = ["ONM"];
    let p_first: [&str; 1] = ["FNM"];
    let p_last: [&str; 1] = ["SNM"];
    proof {
        assert(p_org@.map_values(|s: &str| s@) =~= seq!["ONM"@]);
        assert(p_first@.map_values(|s: &str| s@) =~= seq!["FNM"@]);
        assert(p_last@.map_values(|s: &str| s@) =~= seq!["SNM"@]);
    }
    let org = first_descendant_text(container, &p_org);
    if org.is_some() {
        return org;
    }
    let first = first_descendant_text(container, &p_first);
    let last = first_descendant_text(container, &p_last);
    join_names(first, last)
}

/// The first name source that yields text, in order of preference.
pub open spec fn party_name_candidate(f: XmlFragment) -> Option<Seq<char>> {
    or_else(
        spec_first_descendant_text(f, seq!["addressbook"@, "orgname"@]),
        or_else(
            spec_first_descendant_text(f, seq!["organization-name"@]),
            or_else(
                spec_first_descendant_text(f, seq!["orgname"@]),
                or_else(
                    spec_combined_descendant_name(f, "addressbook"@),
                    or_else(spec_combined_descendant_name(f, "name"@), spec_combined_st32_name(f)),
                ),
            ),
        ),
    )
}

/// The trimmed name of a party element, if it has one.
pub open spec fn spec_extract_party_name(f: XmlFragment) -> Option<Seq<char>> {
    match party_name_candidate(f) {
        Some(v) => if trim(v).len() > 0 {
            Some(trim(v))
        } else {
            None
        },
        None => None,
    }
}

fn extract_party_name(fragment: &XmlFragment) -> (r: Option<String>)
    ensures
        opt_view(r) == spec_extract_party_name(*fragment),
{
    let p1: [&str; 2] = ["addressbook", "orgname"];
    let p2: [&str; 1] = ["organization-name"];
    let p3: [&str; 1] = ["orgname"];
    proof {
        assert(p1@.map_values(|s: &str| s@) =~= seq!["addressbook"@, "orgname"@]);
        assert(p2@.map_values(|s: &str| s@) =~= seq!["organization-name"@]);
        assert(p3@.map_values(|s: &str| s@) =~= seq!["orgname"@]);
    }
    let mut v = first_descendant_text(fragment, &p1);
    if v.is_none() {
        v = first_descendant_text(fragment, &p2);
    }
    if v.is_none() {
        v = first_descendant_text(fragment, &p3);
    }
    if v.is_none() {
        v = combined_descendant_name(fragment, "addressbook");
    }
    if v.is_none() {
        v = combined_descendant_name(fragment, "name");
    }
    if v.is_none() {
        v = combined_st32_name(fragment);
    }
    assert(vopt(v) == party_name_candidate(*fragment));
    match v {
        None => None,
        Some(x) => {
            let t = trim_chars(x.as_slice());
            if t.len() > 0 {
                Some(string_of(t.as_slice()))
            } else {
                None
            }
        },
    }
}

/// Names of the party elements of `kind` found in `f`, in document order; a
/// matching element is not searched further.
pub open spec fn spec_collect_party_names(f: XmlFragment, kind: PartyKind) -> Seq<Seq<char>>
    decreases f,
{
    match f {
        XmlFragment::Text(_) => Seq::empty(),
        XmlFragment::Element { name, children, .. } => if spec_matches_party_element(
            kind,
            name.local_name@,
        ) {
            opt_seq(spec_extract_party_name(f))
        } else {
            spec_collect_party_names_all(children@, kind)
        },
    }
}

pub open spec fn spec_collect_party_names_all(fs: Seq<XmlFragment>, kind: PartyKind) -> Seq<
    Seq<char>,
>
    decreases fs,
{
    if fs.len() == 0 {
        Seq::empty()
    } else {
        spec_collect_party_names_all(fs.drop_last(), kind) + spec_collect_party_names(
            fs.last(),
            kind,
        )
    }
}

pub open spec fn opt_seq(o: Option<Seq<char>>) -> Seq<Seq<char>> {
    match o {
        Some(v) => seq![v],
        None => Seq::empty(),
    }
}

fn collect_party_names(fragment: &XmlFragment, kind: PartyKind, out: &mut Vec<String>)
    ensures
        final(out).deep_view() == old(out).deep_view() + spec_collect_party_names(*fragment, kind),
    decreases fragment,
{
    match fragment {
        XmlFragment::Text(_) => {
            assert(old(out).deep_view() + Seq::<Seq<char>>::empty() =~= old(out).deep_view());
        },
        XmlFragment::Element { name, children, .. } => {
            if kind.matches_party_element(&name.local_name) {
                match extract_party_name(fragment) {
                    Some(n) => push_string(out, n),
                    None => {
                        assert(old(out).deep_view() + Seq::<Seq<char>>::empty() =~= old(
                            out,
                        ).deep_view());
                    },
                }
            } else {
                let mut k: usize = 0;
                assert(old(out).deep_view() + spec_collect_party_names_all(children@.take(0), kind)
                    =~= old(out).deep_view());
                while k < children.len()
                    invariant
                        k <= children.len(),
                        *fragment is Element && (*fragment)->children == *children,
                        out.deep_view() == old(out).deep_view() + spec_collect_party_names_all(
                            children@.take(k as int),
                            kind,
                        ),
                    decreases children.len() - k,
                {
                    assert(children@.take(k + 1).drop_last() =~= children@.take(k as int));
                    proof {
                        assert(decreases_to!(*fragment => (*fragment)->children));
                        assert(decreases_to!(*children => children@));
                    }
                    collect_party_names(&children[k], kind, out);
                    k += 1;
                }
                assert(children@.take(children.len() as int) =~= children@);
            }
        },
    }
}

/// Party names found in the verbatim blocks of a bibliographic part list.
pub open spec fn opaque_party_names(parts: Seq<BibliographicPart>, kind: PartyKind) -> Seq<
    Seq<char>,
>
    decreases parts.len(),
{
    if parts.len() == 0 {
        Seq::empty()
    } else {
        opaque_party_names(parts.drop_last(), kind) + match parts.last() {
            BibliographicPart::Opaque(b) => spec_collect_party_names(b.xml, kind),
            _ => Seq::empty(),
        }
    }
}

/// Fallback party names taken from the verbatim bibliographic blocks.
pub open spec fn spec_opaque_party_names(doc: PatentDocument, kind: PartyKind) -> Seq<Seq<char>> {
    match spec_bibliographic(doc) {
        None => Seq::empty(),
        Some(b) => dedupe(opaque_party_names(b.parts@, kind)),
    }
}

fn opaque_bibliographic_party_names(document: &PatentDocument, kind: PartyKind) -> (r: Vec<
    String,
>)
    ensures
        r.deep_view() == spec_opaque_party_names(*document, kind),
{
    let info = match bibliographic(document) {
        None => {
            return Vec::new();
        },
        Some(info) => info,
    };
    let mut all: Vec<String> = Vec::new();
    let mut i: usize = 0;
    while i < info.parts.len()
        invariant
            i <= info.parts.len(),
            all.deep_view() == opaque_party_names(info.parts@.take(i as int), kind),
        decreases info.parts.len() - i,
    {
        assert(info.parts@.take(i + 1).drop_last() =~= info.parts@.take(i as int));
        match &info.parts[i] {
            BibliographicPart::Opaque(value) => {
                collect_party_names(&value.xml, kind, &mut all);
            },
            _ => {
                assert(all.deep_view() + Seq::<Seq<char>>::empty() =~= all.deep_view());
            },
        }
        i += 1;
    }
    assert(info.parts@.take(info.parts.len() as int) =~= info.parts@);
    dedupe_strings(&all)
}

/// The names of a party list that have one.
pub open spec fn names_of_parties(ps: Seq<crate::model::bibliographic::NamedParty>) -> Seq<
    Seq<char>,
>
    decreases ps.len(),
{
    if ps.len() == 0 {
        Seq::empty()
    } else {
        names_of_parties(ps.drop_last()) + opt_list(ps.last().name)
    }
}

fn named_party_values(value: &NamedParties, out: &mut Vec<String>)
    ensures
        final(out).deep_view() == old(out).deep_view() + names_of_parties(value.parties@),
{
    let mut i: usize = 0;
    assert(old(out).deep_view() + names_of_parties(value.parties@.take(0)) =~= old(
        out,
    ).deep_view());
    while i < value.parties.len()
        invariant
            i <= value.parties.len(),
            out.deep_view() == old(out).deep_view() + names_of_parties(
                value.parties@.take(i as int),
            ),
        decreases value.parties.len() - i,
    {
        assert(value.parties@.take(i + 1).drop_last() =~= value.parties@.take(i as int));
        match &value.parties[i].name {
            Some(n) => {
                let ghost before = out.deep_view();
                push_string(out, copy_str(n.as_str()));
                assert(before + names_of_parties(value.parties@.take(i + 1)) =~= before
                    + names_of_parties(value.parties@.take(i as int)) + seq![n@]) by {
                    assert(opt_list(value.parties@.take(i + 1).last().name) =~= seq![n@]);
                }
            },
            None => {
                assert(opt_list(value.parties@.take(i + 1).last().name) =~= Seq::<
                    Seq<char>,
                >::empty());
                assert(out.deep_view() + Seq::<Seq<char>>::empty() =~= out.deep_view());
            },
        }
        i += 1;
    }
    assert(value.parties@.take(value.parties.len() as int) =~= value.parties@);
}

/// Names of the typed applicant or assignee lists of a part list.
pub open spec fn typed_party_names_in(parts: Seq<BibliographicPart>, kind: PartyKind) -> Seq<
    Seq<char>,
>
    decreases parts.len(),
{
    if parts.len() == 0 {
        Seq::empty()
    } else {
        typed_party_names_in(parts.drop_last(), kind) + match (kind, parts.last()) {
            (PartyKind::Applicant, BibliographicPart::Applicants(v)) => names_of_parties(
                v.parties@,
            ),
            (PartyKind::Assignee, BibliographicPart::Assignees(v)) => names_of_parties(
                v.parties@,
            ),
            _ => Seq::empty(),
        }
    }
}

pub open spec fn spec_typed_named_parties(doc: PatentDocument, kind: PartyKind) -> Seq<Seq<char>> {
    match spec_bibliographic(doc) {
        None => Seq::empty(),
        Some(b) => dedupe(typed_party_names_in(b.parts@, kind)),
    }
}

fn typed_named_parties(document: &PatentDocument, kind: PartyKind) -> (r: Vec<String>)
    ensures
        r.deep_view() == spec_typed_named_parties(*document, kind),
{
    let info = match bibliographic(document) {
        None => {
            return Vec::new();
        },
        Some(info) => info,
    };
    let mut all: Vec<String> = Vec::new();
    let mut i: usize = 0;
    while i < info.parts.len()
        invariant
            i <= info.parts.len(),
            all.deep_view() == typed_party_names_in(info.parts@.take(i as int), kind),
        decreases info.parts.len() - i,
    {
        assert(info.parts@.take(i + 1).drop_last() =~= info.parts@.take(i as int));
        match (kind, &info.parts[i]) {
            (PartyKind::Applicant, BibliographicPart::Applicants(value)) => {
                named_party_values(value, &mut all);
            },
            (PartyKind::Assignee, BibliographicPart::Assignees(value)) => {
                named_party_values(value, &mut all);
            },
            _ => {
                assert(all.deep_view() + Seq::<Seq<char>>::empty() =~= all.deep_view());
            },
        }
        i += 1;
    }
    assert(info.parts@.take(info.parts.len() as int) =~= info.parts@);
    dedupe_strings(&all)
}

/// An inventor's first and last name joined by a space and trimmed.
pub open spec fn spec_inventor_full_name(inv: Inventor) -> Option<Seq<char>> {
    match spec_join_names(opt_view(inv.first_name), opt_view(inv.last_name)) {
        Some(j) => Some(trim(j)),
        None => None,
    }
}

fn inventor_full_name(inventor: &Inventor) -> (r: Option<String>)
    ensures
        opt_view(r) == spec_inventor_full_name(*inventor),
{
    let first = match &inventor.first_name {
        Some(f) => Some(chars_of(f.as_str())),
        None => None,
    };
    let last = match &inventor.last_name {
        Some(l) => Some(chars_of(l.as_str())),
        None => None,
    };
    assert(vopt(first) == opt_view(inventor.first_name));
    assert(vopt(last) == opt_view(inventor.last_name));
    match join_names(first, last) {
        None => None,
        Some(j) => {
            let t = trim_chars(j.as_slice());
            Some(string_of(t.as_slice()))
        },
    }
}

pub open spec fn inventor_part_names(parts: Seq<InventorsPart>) -> Seq<Seq<char>>
    decreases parts.len(),
{
    if parts.len() == 0 {
        Seq::empty()
    } else {
        inventor_part_names(parts.drop_last()) + match parts.last() {
            InventorsPart::FirstNamedInventor(i) => opt_seq(spec_inventor_full_name(i)),
            InventorsPart::Inventor(i) => opt_seq(spec_inventor_full_name(i)),
            InventorsPart::Opaque(_) => Seq::empty(),
        }
    }
}

pub open spec fn typed_inventor_names_in(parts: Seq<BibliographicPart>) -> Seq<Seq<char>>
    decreases parts.len(),
{
    if parts.len() == 0 {
        Seq::empty()
    } else {
        typed_inventor_names_in(parts.drop_last()) + match parts.last() {
            BibliographicPart::Inventors(v) => inventor_part_names(v.parts@),
            _ => Seq::empty(),
        }
    }
}

pub open spec fn spec_typed_inventor_names(doc: PatentDocument) -> Seq<Seq<char>> {
    match spec_bibliographic(doc) {
        None => Seq::empty(),
        Some(b) => dedupe(typed_inventor_names_in(b.parts@)),
    }
}

fn push_opt_name(out: &mut Vec<String>, name: Option<String>)
    ensures
        final(out).deep_view() == old(out).deep_view() + opt_seq(opt_view(name)),
{
    match name {
        Some(n) => push_string(out, n),
        None => {
            assert(old(out).deep_view() + Seq::<Seq<char>>::empty() =~= old(out).deep_view());
        },
    }
}

fn inventor_values(value: &crate::model::bibliographic::Inventors, out: &mut Vec<String>)
    ensures
        final(out).deep_view() == old(out).deep_view() + inventor_part_names(value.parts@),
{
    let mut i: usize = 0;
    assert(old(out).deep_view() + inventor_part_names(value.parts@.take(0)) =~= old(
        out,
    ).deep_view());
    while i < value.parts.len()
        invariant
            i <= value.parts.len(),
            out.deep_view() == old(out).deep_view() + inventor_part_names(
                value.parts@.take(i as int),
            ),
        decreases value.parts.len() - i,
    {
        assert(value.parts@.take(i + 1).drop_last() =~= value.parts@.take(i as int));
        let ghost before = out.deep_view();
        match &value.parts[i] {
            InventorsPart::FirstNamedInventor(inv) => push_opt_name(out, inventor_full_name(inv)),
            InventorsPart::Inventor(inv) => push_opt_name(out, inventor_full_name(inv)),
            InventorsPart::Opaque(_) => {
                assert(out.deep_view() + Seq::<Seq<char>>::empty() =~= out.deep_view());
            },
        }
        assert(old(out).deep_view() + inventor_part_names(value.parts@.take(i + 1)) =~= old(
            out,
        ).deep_view() + inventor_part_names(value.parts@.take(i as int)) + (out.deep_view().skip(
            before.len() as int,
        )));
        i += 1;
    }
    assert(value.parts@.take(value.parts.len() as int) =~= value.parts@);
}

fn typed_inventor_names(document: &PatentDocument) -> (r: Vec<String>)
    ensures
        r.deep_view() == spec_typed_inventor_names(*document),
{
    let info = match bibliographic(document) {
        None => {
            return Vec::new();
        },
        Some(info) => info,
    };
    let mut all: Vec<String> = Vec::new();
    let mut i: usize = 0;
    while i < info.parts.len()
        invariant
            i <= info.parts.len(),
            all.deep_view() == typed_inventor_names_in(info.parts@.take(i as int)),
        decreases info.parts.len() - i,
    {
        assert(info.parts@.take(i + 1).drop_last() =~= info.parts@.take(i as int));
        match &info.parts[i] {
            BibliographicPart::Inventors(value) => {
                inventor_values(value, &mut all);
            },
            _ => {
                assert(all.deep_view() + Seq::<Seq<char>>::empty() =~= all.deep_view());
            },
        }
        i += 1;
    }
    assert(info.parts@.take(info.parts.len() as int) =~= info.parts@);
    dedupe_strings(&all)
}

/// The typed list of a kind, or the verbatim-block fallback when it is empty.
pub open spec fn with_fallback(typed: Seq<Seq<char>>, doc: PatentDocument, kind: PartyKind) -> Seq<
    Seq<char>,
> {
    if typed.len() == 0 {
        spec_opaque_party_names(doc, kind)
    } else {
        typed
    }
}

pub open spec fn spec_applicant_names(doc: PatentDocument) -> Seq<Seq<char>> {
    with_fallback(spec_typed_named_parties(doc, PartyKind::Applicant), doc, PartyKind::Applicant)
}

pub open spec fn spec_assignee_names(doc: PatentDocument) -> Seq<Seq<char>> {
    with_fallback(spec_typed_named_parties(doc, PartyKind::Assignee), doc, PartyKind::Assignee)
}

pub open spec fn spec_inventor_names(doc: PatentDocument) -> Seq<Seq<char>> {
    with_fallback(spec_typed_inventor_names(doc), doc, PartyKind::Inventor)
}

/// Applicant names: the typed list, else those found in verbatim blocks.
pub fn applicant_names(document: &PatentDocument) -> (r: Vec<String>)
    ensures
        r.deep_view() == spec_applicant_names(*document),
{
    let names = typed_named_parties(document, PartyKind::Applicant);
    if names.len() == 0 {
        opaque_bibliographic_party_names(document, PartyKind::Applicant)
    } else {
        names
    }
}

/// Assignee names: the typed list, else those found in verbatim blocks.
pub fn assignee_names(document: &PatentDocument) -> (r: Vec<String>)
    ensures
        r.deep_view() == spec_assignee_names(*document),
{
    let names = typed_named_parties(document, PartyKind::Assignee);
    if names.len() == 0 {
        opaque_bibliographic_party_names(document, PartyKind::Assignee)
    } else {
        names
    }
}

/// Inventor names: the typed list, else those found in verbatim blocks.
pub fn inventor_names(document: &PatentDocument) -> (r: Vec<String>)
    ensures
        r.deep_view() == spec_inventor_names(*document),
{
    let names = typed_inventor_names(document);
    if names.len() == 0 {
        opaque_bibliographic_party_names(document, PartyKind::Inventor)
    } else {
        names
    }
}

} // verus!
