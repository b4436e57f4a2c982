//! Bulk ingest: the decisions behind rendering a USPTO weekly bulk ZIP into
//! a shard. Reading the archive and writing files is the caller's; this
//! module splits the feed into records, keys them, classifies the ones that
//! fail to parse, and writes the manifest text.

use vstd::prelude::*;

use crate::error::{spec_parse_message, DetectError, ParseError};
use crate::model::document::PatentDocument;
use crate::parse_outcome_ok;
use crate::render::biblio::{is_biblio_of, spec_json_line, BiblioRecord};
use crate::render::markdown::spec_render_markdown;
use crate::source::aps::aps_outcome_ok;
use crate::source::detect::spec_detect_source_format;
use crate::json::{json_string, spec_json_string};
use crate::source::aps::{aps_doc_key_from_wku, spec_wku_doc_number};
use crate::text::{
    ascii_lower, chars_of, copy_str, decimal, ends_with, find, find_char, find_char_from,
    find_chars_from, find_from, lines, lines_of, lower_ascii_chars, matches_at, matches_at_exec,
    push_str, slice_chars, starts_with, string_of, trim, trim_chars, u64_to_string,
};

verus! {

// ---------------------------------------------------------------------------
// Outcomes
// ---------------------------------------------------------------------------

/// What a bulk run did.
#[derive(Debug)]
pub struct ShardStats {
    pub docs_written: usize,
    pub docs_skipped: usize,
    pub supplemental_skipped: usize,
    /// Well-formed patent documents the parser cannot yet handle (unknown
    /// schema version, conflicting version markers, unhandled structure).
    pub unsupported_skipped: usize,
    /// Malformed XML.
    pub malformed_skipped: usize,
    pub zst_path: String,
    pub idx_path: String,
    pub biblio_path: String,
    pub manifest_path: String,
    /// The report of unsupported documents, present only when there were any.
    pub unsupported_path: Option<String>,
}

/// How a record that failed to parse is counted.
#[derive(Debug, Clone, Copy, PartialEq, Eq)]
pub enum SkipKind {
    /// A well-formed record that is not a patent document.
    Supplemental,
    /// A patent document of a schema or structure not yet handled.
    Unsupported,
    /// Malformed XML.
    Malformed,
}

pub open spec fn spec_classify_skip(e: ParseError) -> SkipKind {
    match e {
        ParseError::Detect(DetectError::UnsupportedRoot(_)) => SkipKind::Supplemental,
        ParseError::Detect(DetectError::UnknownFormat) => SkipKind::Unsupported,
        ParseError::Detect(DetectError::ConflictingVersionMarkers) => SkipKind::Unsupported,
        ParseError::UnsupportedStructure(_) => SkipKind::Unsupported,
        ParseError::Detect(DetectError::MalformedXml) => SkipKind::Malformed,
        ParseError::MalformedXml(_) => SkipKind::Malformed,
    }
}

pub fn classify_skip(error: &ParseError) -> (r: SkipKind)
    ensures
        r == spec_classify_skip(*error),
{
    match error {
        ParseError::Detect(DetectError::UnsupportedRoot(_)) => SkipKind::Supplemental,
        ParseError::Detect(DetectError::UnknownFormat) => SkipKind::Unsupported,
        ParseError::Detect(DetectError::ConflictingVersionMarkers) => SkipKind::Unsupported,
        ParseError::UnsupportedStructure(_) => SkipKind::Unsupported,
        ParseError::Detect(DetectError::MalformedXml) => SkipKind::Malformed,
        ParseError::MalformedXml(_) => SkipKind::Malformed,
    }
}

// ---------------------------------------------------------------------------
// Document keys
// ---------------------------------------------------------------------------

/// The root element's start tag: markup before it (declarations, DOCTYPE,
/// comments) is skipped from position `pos`; a closing tag or other `<!`
/// markup first means there is none.
pub open spec fn root_tag_from(s: Seq<char>, pos: int) -> Option<Seq<char>>
    decreases s.len() - pos,
{
    if pos < 0 || pos > s.len() {
        None
    } else {
        match find_char_from(s, '<', pos) {
            None => None,
            Some(start) => {
                let c = start + 1;
                if c <= pos || c > s.len() {
                    None
                } else if matches_at(s, "?"@, c) {
                    match find_from(s, "?>"@, c) {
                        Some(e) => if e >= c && e + 2 <= s.len() {
                            root_tag_from(s, e + 2)
                        } else {
                            None
                        },
                        None => None,
                    }
                } else if matches_at(s, "!DOCTYPE"@, c) {
                    match find_from(s, "]>"@, c) {
                        Some(e) => if e >= c && e + 2 <= s.len() {
                            root_tag_from(s, e + 2)
                        } else {
                            None
                        },
                        None => match find_char_from(s, '>', c) {
                            Some(e) => if e >= c && e + 1 <= s.len() {
                                root_tag_from(s, e + 1)
                            } else {
                                None
                            },
                            None => None,
                        },
                    }
                } else if matches_at(s, "!--"@, c) {
                    match find_from(s, "-->"@, c) {
                        Some(e) => if e >= c && e + 3 <= s.len() {
                            root_tag_from(s, e + 3)
                        } else {
                            None
                        },
                        None => None,
                    }
                } else if matches_at(s, "!"@, c) || matches_at(s, "/"@, c) {
                    None
                } else {
                    match find_char_from(s, '>', c) {
                        Some(e) => Some(s.subrange(start, e + 1)),
                        None => None,
                    }
                }
            },
        }
    }
}

pub open spec fn spec_root_start_tag(input: Seq<char>) -> Option<Seq<char>> {
    root_tag_from(input, crate::text::first_non_ws(input, 0))
}

proof fn lemma_find_from_ge(s: Seq<char>, p: Seq<char>, i: int)
    ensures
        find_from(s, p, i) matches Some(k) ==> i <= k && k + p.len() <= s.len(),
{
    crate::text::lemma_find_from_bounds(s, p, i);
}

/// The root element's start tag of a document.
pub fn root_start_tag(s: &[char]) -> (r: Option<Vec<char>>)
    ensures
        match r {
            Some(t) => spec_root_start_tag(s@) == Some(t@),
            None => spec_root_start_tag(s@) is None,
        },
{
    let mut pos: usize = crate::text::trim_start_index(s);
    let dq = chars_of("?>");
    let rb = chars_of("]>");
    let cm = chars_of("-->");
    let q = chars_of("?");
    let dt = chars_of("!DOCTYPE");
    let oc = chars_of("!--");
    let bang = chars_of("!");
    let slash = chars_of("/");
    loop
        invariant
            pos <= s.len(),
            spec_root_start_tag(s@) == root_tag_from(s@, pos as int),
            dq@ == "?>"@,
            rb@ == "]>"@,
            cm@ == "-->"@,
            q@ == "?"@,
            dt@ == "!DOCTYPE"@,
            oc@ == "!--"@,
            bang@ == "!"@,
            slash@ == "/"@,
        decreases s.len() - pos,
    {
        proof {
            reveal_strlit("?>");
            reveal_strlit("]>");
            reveal_strlit("-->");
            reveal_strlit("?");
            reveal_strlit("!DOCTYPE");
            reveal_strlit("!--");
            reveal_strlit("!");
            reveal_strlit("/");
        }
        proof { crate::text::lemma_find_char_from(s@, '<', pos as int); }
        let start = match find_char(s, '<', pos) {
            None => {
                assert(root_tag_from(s@, pos as int) is None);
                return None;
            },
            Some(k) => k,
        };
        assert(s@.len() == s.len());
        let c = start + 1;
        if matches_at_exec(s, q.as_slice(), c) {
            proof { lemma_find_from_ge(s@, "?>"@, c as int); }
            match find_chars_from(s, dq.as_slice(), c) {
                Some(e) => {
                    pos = e + 2;
                },
                None => return None,
            }
        } else if matches_at_exec(s, dt.as_slice(), c) {
            proof { lemma_find_from_ge(s@, "]>"@, c as int); }
            match find_chars_from(s, rb.as_slice(), c) {
                Some(e) => {
                    pos = e + 2;
                },
                None => {
                    proof { crate::text::lemma_find_char_from(s@, '>', c as int); }
                    match find_char(s, '>', c) {
                        Some(e) => {
                            pos = e + 1;
                        },
                        None => return None,
                    }
                },
            }
        } else if matches_at_exec(s, oc.as_slice(), c) {
            proof { lemma_find_from_ge(s@, "-->"@, c as int); }
            match find_chars_from(s, cm.as_slice(), c) {
                Some(e) => {
                    pos = e + 3;
                },
                None => return None,
            }
        } else if matches_at_exec(s, bang.as_slice(), c) || matches_at_exec(s, slash.as_slice(), c) {
            return None;
        } else {
            proof { crate::text::lemma_find_char_from(s@, '>', c as int); }
            match find_char(s, '>', c) {
                Some(e) => return Some(slice_chars(s, start, e + 1)),
                None => return None,
            }
        }
    }
}

/// The value of attribute `name` in a start tag, double quotes tried
/// before single quotes.
pub open spec fn spec_attr_value(tag: Seq<char>, name: Seq<char>) -> Option<Seq<char>> {
    let d = name + "=\""@;
    let q = name + "='"@;
    match find(tag, d) {
        Some(p) => match find_char_from(tag, '"', p + d.len()) {
            Some(e) => Some(tag.subrange(p + d.len(), e)),
            None => None,
        },
        None => match find(tag, q) {
            Some(p) => match find_char_from(tag, '\'', p + q.len()) {
                Some(e) => Some(tag.subrange(p + q.len(), e)),
                None => None,
            },
            None => None,
        },
    }
}

fn quoted_value(tag: &[char], pat: &[char], quote: char) -> (r: Option<Option<Vec<char>>>)
    ensures
        match find(tag@, pat@) {
            Some(p) => r matches Some(v) && match find_char_from(tag@, quote, p + pat@.len()) {
                Some(e) => v matches Some(x) && x@ == tag@.subrange(p + pat@.len(), e),
                None => v is None,
            },
            None => r is None,
        },
{
    proof { lemma_find_from_ge(tag@, pat@, 0); }
    match find_chars_from(tag, pat, 0) {
        None => None,
        Some(p) => {
            assert(tag@.len() == tag.len());
            assert(p + pat@.len() <= tag@.len());
            let from = p + pat.len();
            proof { crate::text::lemma_find_char_from(tag@, quote, from as int); }
            match find_char(tag, quote, from) {
                Some(e) => Some(Some(slice_chars(tag, from, e))),
                None => Some(None),
            }
        },
    }
}

pub fn attr_value(tag: &[char], name: &str) -> (r: Option<Vec<char>>)
    ensures
        match r {
            Some(v) => spec_attr_value(tag@, name@) == Some(v@),
            None => spec_attr_value(tag@, name@) is None,
        },
{
    let mut d = chars_of(name);
    d.push('=');
    d.push('"');
    proof { reveal_strlit("=\""); }
    assert(d@ =~= name@ + "=\""@);
    match quoted_value(tag, d.as_slice(), '"') {
        Some(v) => v,
        None => {
            let mut q = chars_of(name);
            q.push('=');
            q.push('\'');
            proof { reveal_strlit("='"); }
            assert(q@ =~= name@ + "='"@);
            match quoted_value(tag, q.as_slice(), '\'') {
                Some(v) => v,
                None => None,
            }
        },
    }
}

/// The position of the last `c` before `j`.
pub open spec fn rfind_char_before(s: Seq<char>, c: char, j: int) -> Option<int>
    decreases j,
{
    if j <= 0 || j > s.len() {
        None
    } else if s[j - 1] == c {
        Some(j - 1)
    } else {
        rfind_char_before(s, c, j - 1)
    }
}

fn rfind_char(s: &[char], c: char) -> (r: Option<usize>)
    ensures
        match r {
            Some(k) => rfind_char_before(s@, c, s.len() as int) == Some(k as int) && k < s.len(),
            None => rfind_char_before(s@, c, s.len() as int) is None,
        },
{
    let mut j: usize = s.len();
    while j > 0
        invariant
            j <= s.len(),
            rfind_char_before(s@, c, s.len() as int) == rfind_char_before(s@, c, j as int),
        decreases j,
    {
        if s[j - 1] == c {
            return Some(j - 1);
        }
        j -= 1;
    }
    None
}

/// The trimmed text after the first occurrence of `tag`, up to the next `<`,
/// when not empty.
pub open spec fn tag_value(doc: Seq<char>, tag: Seq<char>) -> Option<Seq<char>> {
    match find(doc, tag) {
        Some(p) => match find_char_from(doc, '<', p + tag.len()) {
            Some(e) => {
                let v = trim(doc.subrange(p + tag.len(), e));
                if v.len() > 0 {
                    Some(v)
                } else {
                    None
                }
            },
            None => None,
        },
        None => None,
    }
}

/// A document's key: the root element's `file` attribute without its
/// extension; else the first of document, publication and patent number
/// present; else the 1-based ordinal.
pub open spec fn spec_derive_doc_key(doc: Seq<char>, ordinal: nat) -> Seq<char> {
    let file = match spec_root_start_tag(doc) {
        Some(t) => spec_attr_value(t, "file"@),
        None => None,
    };
    match file {
        Some(f) => match rfind_char_before(f, '.', f.len() as int) {
            Some(d) => f.subrange(0, d),
            None => f,
        },
        None => match tag_value(doc, "<doc-number>"@) {
            Some(v) => v,
            None => match tag_value(doc, "<publication-number>"@) {
                Some(v) => v,
                None => match tag_value(doc, "<patent-number>"@) {
                    Some(v) => v,
                    None => decimal(ordinal + 1),
                },
            },
        },
    }
}

fn tag_value_of(doc: &[char], tag: &str) -> (r: Option<Vec<char>>)
    ensures
        match r {
            Some(v) => tag_value(doc@, tag@) == Some(v@),
            None => tag_value(doc@, tag@) is None,
        },
{
    let t = chars_of(tag);
    proof { lemma_find_from_ge(doc@, tag@, 0); }
    match find_chars_from(doc, t.as_slice(), 0) {
        None => None,
        Some(p) => {
            assert(doc@.len() == doc.len());
            assert(p + t@.len() <= doc@.len());
            let from = p + t.len();
            proof { crate::text::lemma_find_char_from(doc@, '<', from as int); }
            match find_char(doc, '<', from) {
                None => None,
                Some(e) => {
                    let raw = slice_chars(doc, from, e);
                    let v = trim_chars(raw.as_slice());
                    if v.len() > 0 {
                        Some(v)
                    } else {
                        None
                    }
                },
            }
        },
    }
}

/// The key of one XML document of a feed (`ordinal` counts from 0).
pub fn derive_doc_key(doc_string: &str, ordinal: usize) -> (r: String)
    requires
        ordinal < usize::MAX,
    ensures
        r@ == spec_derive_doc_key(doc_string@, ordinal as nat),
{
    let doc = chars_of(doc_string);
    let file = match root_start_tag(doc.as_slice()) {
        Some(t) => attr_value(t.as_slice(), "file"),
        None => None,
    };
    if let Some(f) = file {
        return match rfind_char(f.as_slice(), '.') {
            Some(d) => string_of(slice_chars(f.as_slice(), 0, d).as_slice()),
            None => string_of(f.as_slice()),
        };
    }
    if let Some(v) = tag_value_of(doc.as_slice(), "<doc-number>") {
        return string_of(v.as_slice());
    }
    if let Some(v) = tag_value_of(doc.as_slice(), "<publication-number>") {
        return string_of(v.as_slice());
    }
    if let Some(v) = tag_value_of(doc.as_slice(), "<patent-number>") {
        return string_of(v.as_slice());
    }
    u64_to_string((ordinal + 1) as u64)
}

/// The first line of an APS record tagged `WKU` with a value, cleaned into
/// a patent number; else the 1-based ordinal.
pub open spec fn aps_key_from(ls: Seq<Seq<char>>, i: int, ordinal: nat) -> Seq<char>
    decreases ls.len() - i,
{
    if i < 0 || i >= ls.len() {
        decimal(ordinal + 1)
    } else if starts_with(ls[i], "WKU"@) && trim(ls[i].subrange(3, ls[i].len() as int)).len() > 0 {
        spec_wku_doc_number(trim(ls[i].subrange(3, ls[i].len() as int)))
    } else {
        aps_key_from(ls, i + 1, ordinal)
    }
}

/// The key of one APS record (`ordinal` counts from 0).
pub fn derive_aps_doc_key(record: &str, ordinal: usize) -> (r: String)
    requires
        ordinal < usize::MAX,
    ensures
        r@ == aps_key_from(lines(record@), 0, ordinal as nat),
{
    let cs = chars_of(record);
    let ls = lines_of(cs.as_slice());
    let mut i: usize = 0;
    while i < ls.len()
        invariant
            i <= ls.len(),
            ls.deep_view() == lines(record@),
            aps_key_from(lines(record@), 0, ordinal as nat) == aps_key_from(
                lines(record@),
                i as int,
                ordinal as nat,
            ),
        decreases ls.len() - i,
    {
        let line = &ls[i];
        assert(line@ == ls.deep_view()[i as int]);
        proof { reveal_strlit("WKU"); }
        if crate::text::starts_with_str(line.as_slice(), "WKU") {
            let rest = slice_chars(line.as_slice(), 3, line.len());
            let value = trim_chars(rest.as_slice());
            if value.len() > 0 {
                let v = string_of(value.as_slice());
                return aps_doc_key_from_wku(v.as_str());
            }
        }
        i += 1;
    }
    u64_to_string((ordinal + 1) as u64)
}

// ---------------------------------------------------------------------------
// Archive entries and source files
// ---------------------------------------------------------------------------

/// The part of a path after its last `/`.
pub open spec fn base_name(name: Seq<char>) -> Seq<char> {
    match rfind_char_before(name, '/', name.len() as int) {
        Some(k) => name.subrange(k + 1, name.len() as int),
        None => name,
    }
}

pub open spec fn spec_has_aps_name(name: Seq<char>) -> bool {
    let lower = ascii_lower(base_name(name));
    ends_with(lower, ".txt"@) && starts_with(lower, "pftaps"@)
}

pub open spec fn spec_has_xml_name(name: Seq<char>) -> bool {
    ends_with(name, ".XML"@) || ends_with(name, ".xml"@) || spec_has_aps_name(name)
}

/// A Green Book weekly entry: a `pftaps*.txt` file, in any letter case.
pub fn has_aps_name(name: &str) -> (r: bool)
    ensures
        r == spec_has_aps_name(name@),
{
    let cs = chars_of(name);
    let base = match rfind_char(cs.as_slice(), '/') {
        Some(k) => slice_chars(cs.as_slice(), k + 1, cs.len()),
        None => cs,
    };
    let lower = lower_ascii_chars(base.as_slice());
    crate::text::ends_with_str(lower.as_slice(), ".txt") && crate::text::starts_with_str(
        lower.as_slice(),
        "pftaps",
    )
}

/// An archive entry holding documents: XML, or a Green Book text file.
pub fn has_xml_name(name: &str) -> (r: bool)
    ensures
        r == spec_has_xml_name(name@),
{
    let cs = chars_of(name);
    crate::text::ends_with_str(cs.as_slice(), ".XML") || crate::text::ends_with_str(
        cs.as_slice(),
        ".xml",
    ) || has_aps_name(name)
}

/// The kind of documents a weekly file holds, from its name: `ipg`, `pg`
/// and `pftaps` files are grants, `ipa` and `pa` files applications.
pub open spec fn spec_doc_kind(source_file: Seq<char>) -> Option<Seq<char>> {
    let lower = ascii_lower(source_file);
    let stem = if ends_with(lower, ".zip"@) {
        lower.subrange(0, lower.len() - 4)
    } else {
        lower
    };
    if starts_with(stem, "ipg"@) || starts_with(stem, "pg"@) || starts_with(stem, "pftaps"@) {
        Some("grant"@)
    } else if starts_with(stem, "ipa"@) || starts_with(stem, "pa"@) {
        Some("application"@)
    } else {
        None
    }
}

pub fn doc_kind_from_source_file(source_file: &str) -> (r: Result<&'static str, String>)
    ensures
        match spec_doc_kind(source_file@) {
            Some(k) => r matches Ok(v) && v@ == k,
            None => r matches Err(m) && m@ == "Cannot derive doc_kind from source file '"@
                + source_file@ + "'"@,
        },
{
    let cs = chars_of(source_file);
    let lower = lower_ascii_chars(cs.as_slice());
    proof { reveal_strlit(".zip"); }
    let stem = if crate::text::ends_with_str(lower.as_slice(), ".zip") {
        slice_chars(lower.as_slice(), 0, lower.len() - 4)
    } else {
        lower
    };
    let s = stem.as_slice();
    if crate::text::starts_with_str(s, "ipg") || crate::text::starts_with_str(s, "pg")
        || crate::text::starts_with_str(s, "pftaps") {
        proof { reveal_strlit("grant"); }
        Ok("grant")
    } else if crate::text::starts_with_str(s, "ipa") || crate::text::starts_with_str(s, "pa") {
        proof { reveal_strlit("application"); }
        Ok("application")
    } else {
        let mut m = copy_str("Cannot derive doc_kind from source file '");
        push_str(&mut m, source_file);
        push_str(&mut m, "'");
        Err(m)
    }
}

// ---------------------------------------------------------------------------
// The manifest
// ---------------------------------------------------------------------------

/// The manifest written beside a shard.
pub open spec fn spec_manifest_json(
    stem: Seq<char>,
    source_file: Seq<char>,
    doc_kind: Seq<char>,
    patents_written: u64,
    supplemental_skipped: u64,
    unsupported_skipped: u64,
    malformed_skipped: u64,
) -> Seq<char> {
    "{\n  \"format_version\": 1,\n  \"stem\": "@ + spec_json_string(stem)
        + ",\n  \"source_file\": "@ + spec_json_string(source_file) + ",\n  \"doc_kind\": "@
        + spec_json_string(doc_kind) + ",\n  \"patents_written\": "@ + decimal(
        patents_written as nat,
    ) + ",\n  \"supplemental_skipped\": "@ + decimal(supplemental_skipped as nat)
        + ",\n  \"unsupported_skipped\": "@ + decimal(unsupported_skipped as nat)
        + ",\n  \"malformed_skipped\": "@ + decimal(malformed_skipped as nat) + "\n}\n"@
}

pub fn manifest_json(
    stem: &str,
    source_file: &str,
    doc_kind: &str,
    patents_written: u64,
    supplemental_skipped: u64,
    unsupported_skipped: u64,
    malformed_skipped: u64,
) -> (r: String)
    ensures
        r@ == spec_manifest_json(
            stem@,
            source_file@,
            doc_kind@,
            patents_written,
            supplemental_skipped,
            unsupported_skipped,
            malformed_skipped,
        ),
{
    let mut out = copy_str("{\n  \"format_version\": 1,\n  \"stem\": ");
    let a = json_string(stem);
    push_str(&mut out, a.as_str());
    push_str(&mut out, ",\n  \"source_file\": ");
    let b = json_string(source_file);
    push_str(&mut out, b.as_str());
    push_str(&mut out, ",\n  \"doc_kind\": ");
    let c = json_string(doc_kind);
    push_str(&mut out, c.as_str());
    push_str(&mut out, ",\n  \"patents_written\": ");
    let n1 = u64_to_string(patents_written);
    push_str(&mut out, n1.as_str());
    push_str(&mut out, ",\n  \"supplemental_skipped\": ");
    let n2 = u64_to_string(supplemental_skipped);
    push_str(&mut out, n2.as_str());
    push_str(&mut out, ",\n  \"unsupported_skipped\": ");
    let n3 = u64_to_string(unsupported_skipped);
    push_str(&mut out, n3.as_str());
    push_str(&mut out, ",\n  \"malformed_skipped\": ");
    let n4 = u64_to_string(malformed_skipped);
    push_str(&mut out, n4.as_str());
    push_str(&mut out, "\n}\n");
    out
}


// ---------------------------------------------------------------------------
// Splitting an XML feed into documents
// ---------------------------------------------------------------------------

/// `<?xml`, which opens every document of a feed.
pub open spec fn xml_decl() -> Seq<u8> {
    seq![60u8, 63u8, 120u8, 109u8, 108u8]
}

pub open spec fn bytes_at(b: Seq<u8>, p: Seq<u8>, i: int) -> bool {
    0 <= i && i + p.len() <= b.len() && b.subrange(i, i + p.len()) == p
}

/// The first position at or after `from` where `needle` occurs; none for an
/// empty needle, a start past the end, or a needle longer than the buffer.
pub open spec fn find_bytes_from(b: Seq<u8>, needle: Seq<u8>, from: int) -> Option<int>
    decreases b.len() + 1 - from,
{
    if needle.len() == 0 || from < 0 || from > b.len() || needle.len() > b.len() {
        None
    } else if from + needle.len() > b.len() {
        None
    } else if bytes_at(b, needle, from) {
        Some(from)
    } else {
        find_bytes_from(b, needle, from + 1)
    }
}

/// `u8::is_ascii_whitespace`.
pub open spec fn is_ascii_ws(c: u8) -> bool {
    c == 32u8 || c == 9u8 || c == 10u8 || c == 12u8 || c == 13u8
}

pub open spec fn is_name_start(c: u8) -> bool {
    (65u8 <= c && c <= 90u8) || (97u8 <= c && c <= 122u8) || c == 95u8
}

/// The first position at or after `i` that is not ASCII whitespace.
pub open spec fn skip_ws_from(b: Seq<u8>, i: int) -> int
    decreases b.len() - i,
{
    if 0 <= i < b.len() && is_ascii_ws(b[i]) {
        skip_ws_from(b, i + 1)
    } else {
        i
    }
}

/// Past whitespace and comments from `i`; none when a comment does not end.
pub open spec fn skip_comments_from(b: Seq<u8>, i: int) -> Option<int>
    decreases b.len() - i,
{
    let c = skip_ws_from(b, i);
    if bytes_at(b, seq![60u8, 33u8, 45u8, 45u8], c) {
        match find_bytes_from(b, seq![45u8, 45u8, 62u8], c + 4) {
            Some(e) => if e + 3 > i && e + 3 <= b.len() {
                skip_comments_from(b, e + 3)
            } else {
                None
            },
            None => None,
        }
    } else {
        Some(c)
    }
}

/// A document starts at `pos`: an XML declaration (`<?xml` and whitespace,
/// ended by `?>`), then, past whitespace and comments, a DOCTYPE naming an
/// element or an element's start tag.
pub open spec fn spec_is_record_start_at(b: Seq<u8>, pos: int) -> bool {
    &&& bytes_at(b, xml_decl(), pos)
    &&& pos + 5 < b.len()
    &&& is_ascii_ws(b[pos + 5])
    &&& match find_bytes_from(b, seq![63u8, 62u8], pos + 5) {
        None => false,
        Some(pi) => match skip_comments_from(b, pi + 2) {
            None => false,
            Some(c) => if bytes_at(b, seq![60u8, 33u8, 68u8, 79u8, 67u8, 84u8, 89u8, 80u8, 69u8], c) {
                let n = skip_ws_from(b, c + 9);
                0 <= n < b.len() && is_name_start(b[n])
            } else {
                0 <= c && c + 1 < b.len() && b[c] == 60u8 && is_name_start(b[c + 1])
            },
        },
    }
}

/// The first document start at or after `i`.
pub open spec fn first_start_from(b: Seq<u8>, i: int) -> Option<int>
    decreases b.len() - i,
{
    if i < 0 || i + 5 > b.len() {
        None
    } else if spec_is_record_start_at(b, i) {
        Some(i)
    } else {
        first_start_from(b, i + 1)
    }
}

pub fn bytes_match_at(b: &[u8], p: &[u8], i: usize) -> (r: bool)
    ensures
        r == bytes_at(b@, p@, i as int),
{
    if i > b.len() || p.len() > b.len() - i {
        return false;
    }
    let mut k: usize = 0;
    while k < p.len()
        invariant
            i + p.len() <= b.len(),
            k <= p.len(),
            forall|j: int| 0 <= j < k ==> b@[i + j] == p@[j],
        decreases p.len() - k,
    {
        if b[i + k] != p[k] {
            assert(b@.subrange(i as int, i + p.len())[k as int] != p@[k as int]);
            return false;
        }
        k += 1;
    }
    assert(b@.subrange(i as int, i + p.len()) =~= p@);
    true
}

proof fn lemma_find_bytes_bounds(b: Seq<u8>, needle: Seq<u8>, from: int)
    ensures
        find_bytes_from(b, needle, from) matches Some(k) ==> from <= k && bytes_at(b, needle, k)
            && forall|m: int| from <= m < k ==> !bytes_at(b, needle, m),
    decreases b.len() + 1 - from,
{
    if !(needle.len() == 0 || from < 0 || from > b.len() || needle.len() > b.len()
        || from + needle.len() > b.len()) && !bytes_at(b, needle, from) {
        lemma_find_bytes_bounds(b, needle, from + 1);
    }
}

pub fn find_bytes(b: &[u8], needle: &[u8], from: usize) -> (r: Option<usize>)
    ensures
        match r {
            Some(k) => find_bytes_from(b@, needle@, from as int) == Some(k as int),
            None => find_bytes_from(b@, needle@, from as int) is None,
        },
{
    if needle.len() == 0 || from > b.len() || needle.len() > b.len() {
        return None;
    }
    let mut i: usize = from;
    while i <= b.len() - needle.len()
        invariant
            from <= i,
            needle.len() > 0,
            needle.len() <= b.len(),
            from <= b.len(),
            i <= b.len(),
            find_bytes_from(b@, needle@, from as int) == find_bytes_from(b@, needle@, i as int),
        decreases b.len() - i,
    {
        if bytes_match_at(b, needle, i) {
            return Some(i);
        }
        i += 1;
    }
    None
}

fn skip_ws(b: &[u8], i: usize) -> (r: usize)
    ensures
        r as int == skip_ws_from(b@, i as int),
        i <= r,
        i <= b.len() ==> r <= b.len(),
{
    let mut j: usize = i;
    while j < b.len() && (b[j] == 32u8 || b[j] == 9u8 || b[j] == 10u8 || b[j] == 12u8 || b[j] == 13u8)
        invariant
            i <= j,
            i <= b.len() ==> j <= b.len(),
            skip_ws_from(b@, i as int) == skip_ws_from(b@, j as int),
        decreases b.len() - j,
    {
        j += 1;
    }
    j
}

fn name_start(c: u8) -> (r: bool)
    ensures
        r == is_name_start(c),
{
    (65u8 <= c && c <= 90u8) || (97u8 <= c && c <= 122u8) || c == 95u8
}

/// Whether a document starts at `pos` of the buffer.
#[verifier::loop_isolation(false)]
pub fn is_record_start_at(b: &[u8], pos: usize) -> (r: bool)
    requires
        pos <= b.len(),
    ensures
        r == spec_is_record_start_at(b@, pos as int),
{
    let decl: Vec<u8> = vec![60u8, 63u8, 120u8, 109u8, 108u8];
    assert(decl@ == xml_decl());
    if !bytes_match_at(b, decl.as_slice(), pos) {
        return false;
    }
    let after = pos + 5;
    if after >= b.len() {
        return false;
    }
    let w = b[after];
    if !(w == 32u8 || w == 9u8 || w == 10u8 || w == 12u8 || w == 13u8) {
        return false;
    }
    let close: Vec<u8> = vec![63u8, 62u8];
    assert(close@ == seq![63u8, 62u8]);
    let pi = match find_bytes(b, close.as_slice(), after) {
        None => return false,
        Some(k) => k,
    };
    proof { lemma_find_bytes_bounds(b@, close@, after as int); }
    assert(pi + 2 <= b.len());
    let open: Vec<u8> = vec![60u8, 33u8, 45u8, 45u8];
    let end: Vec<u8> = vec![45u8, 45u8, 62u8];
    assert(open@ == seq![60u8, 33u8, 45u8, 45u8]);
    assert(end@ == seq![45u8, 45u8, 62u8]);
    let mut pre: usize = pi + 2;
    let mut cursor: usize;
    loop
        invariant
            pre <= b.len(),
            open@ == seq![60u8, 33u8, 45u8, 45u8],
            end@ == seq![45u8, 45u8, 62u8],
            skip_comments_from(b@, pi + 2) == skip_comments_from(b@, pre as int),
        decreases b.len() - pre,
    {
        let c = skip_ws(b, pre);
        if !bytes_match_at(b, open.as_slice(), c) {
            cursor = c;
            assert(skip_comments_from(b@, pre as int) == Some(c as int));
            break;
        }
        let e = match find_bytes(b, end.as_slice(), c + 4) {
            None => return false,
            Some(k) => k,
        };
        proof { lemma_find_bytes_bounds(b@, end@, c + 4); }
        pre = e + 3;
    }
    let doctype: Vec<u8> = vec![60u8, 33u8, 68u8, 79u8, 67u8, 84u8, 89u8, 80u8, 69u8];
    assert(doctype@ == seq![60u8, 33u8, 68u8, 79u8, 67u8, 84u8, 89u8, 80u8, 69u8]);
    if bytes_match_at(b, doctype.as_slice(), cursor) {
        let n = skip_ws(b, cursor + 9);
        return n < b.len() && name_start(b[n]);
    }
    cursor < b.len() && b[cursor] == 60u8 && cursor + 1 < b.len() && name_start(b[cursor + 1])
}

proof fn lemma_first_start_skip(b: Seq<u8>, i: int, k: int)
    requires
        0 <= i <= k,
        forall|m: int| i <= m < k ==> !bytes_at(b, xml_decl(), m),
    ensures
        first_start_from(b, i) == first_start_from(b, k),
    decreases k - i,
{
    if i < k {
        lemma_first_start_skip(b, i + 1, k);
    }
}

/// The first document start at or after `from`.
pub fn find_next_record_start(b: &[u8], from: usize) -> (r: Option<usize>)
    ensures
        match r {
            Some(k) => first_start_from(b@, from as int) == Some(k as int),
            None => first_start_from(b@, from as int) is None,
        },
{
    let decl: Vec<u8> = vec![60u8, 63u8, 120u8, 109u8, 108u8];
    assert(decl@ == xml_decl());
    let mut cursor: usize = from;
    loop
        invariant
            decl@ == xml_decl(),
            from <= cursor,
            first_start_from(b@, from as int) == first_start_from(b@, cursor as int),
        decreases b.len() + 1 - cursor,
    {
        let rel = match find_bytes(b, decl.as_slice(), cursor) {
            None => {
                proof {
                    lemma_find_bytes_none(b@, xml_decl(), cursor as int);
                    if cursor + 5 <= b.len() {
                        lemma_first_start_skip(b@, cursor as int, b.len() - 4);
                    }
                }
                return None;
            },
            Some(k) => k,
        };
        proof {
            lemma_find_bytes_bounds(b@, xml_decl(), cursor as int);
            lemma_first_start_skip(b@, cursor as int, rel as int);
        }
        if is_record_start_at(b, rel) {
            return Some(rel);
        }
        proof {
            assert forall|m: int| rel < m < rel + 5 implies !bytes_at(b@, xml_decl(), m) by {
                assert(b@[rel + 1] == 63u8);
                assert(b@[rel + 2] == 120u8);
                assert(b@[rel + 3] == 109u8);
                assert(b@[rel + 4] == 108u8);
                if bytes_at(b@, xml_decl(), m) {
                    assert(b@[m] == 60u8);
                }
            }
            lemma_first_start_skip(b@, rel + 1, rel + 5);
        }
        cursor = rel + 5;
    }
}

proof fn lemma_find_bytes_none(b: Seq<u8>, needle: Seq<u8>, from: int)
    requires
        find_bytes_from(b, needle, from) is None,
        needle.len() > 0,
        0 <= from,
    ensures
        forall|m: int| from <= m ==> !bytes_at(b, needle, m),
    decreases b.len() + 1 - from,
{
    if from <= b.len() && needle.len() <= b.len() && from + needle.len() <= b.len() {
        lemma_find_bytes_none(b, needle, from + 1);
    }
}


proof fn lemma_deep_view_bytes(v: Vec<u8>)
    ensures
        v.deep_view() == v@,
{
    assert(v.deep_view() =~= v@);
}

proof fn lemma_first_start_bounds(b: Seq<u8>, i: int)
    ensures
        first_start_from(b, i) matches Some(k) ==> i <= k && k + 5 <= b.len(),
    decreases b.len() - i,
{
    if !(i < 0 || i + 5 > b.len()) && !spec_is_record_start_at(b, i) {
        lemma_first_start_bounds(b, i + 1);
    }
}

pub open spec fn all_ascii_ws(b: Seq<u8>) -> bool {
    forall|i: int| 0 <= i < b.len() ==> is_ascii_ws(#[trigger] b[i])
}

/// The documents of a buffer that begins at a document start, cut before
/// each later document start, and what is left: at the end of the input
/// the last document too (unless only whitespace remains); else the
/// unfinished last document.
pub open spec fn split_pieces(b: Seq<u8>, eof: bool) -> (Seq<Seq<u8>>, Seq<u8>)
    decreases b.len(),
{
    match first_start_from(b, 5) {
        Some(n) => if 5 <= n <= b.len() {
            let (rs, rest) = split_pieces(b.subrange(n, b.len() as int), eof);
            (seq![b.subrange(0, n)] + rs, rest)
        } else {
            (Seq::empty(), b)
        },
        None => if eof {
            if all_ascii_ws(b) {
                (Seq::empty(), Seq::empty())
            } else {
                (seq![b], Seq::empty())
            }
        } else {
            (Seq::empty(), b)
        },
    }
}

pub open spec fn concat_all(ps: Seq<Seq<u8>>) -> Seq<u8>
    decreases ps.len(),
{
    if ps.len() == 0 {
        Seq::empty()
    } else {
        ps[0] + concat_all(ps.drop_first())
    }
}

/// Splitting loses no byte: the documents, then what is held back, make up
/// the input; at the end of the input only trailing whitespace may be
/// dropped.
pub proof fn law_split_keeps_every_byte(b: Seq<u8>, eof: bool)
    ensures
        !eof ==> concat_all(split_pieces(b, eof).0) + split_pieces(b, eof).1 == b,
        eof ==> split_pieces(b, eof).1.len() == 0 && exists|w: Seq<u8>|
            all_ascii_ws(w) && concat_all(split_pieces(b, eof).0) + w == b,
    decreases b.len(),
{
    match first_start_from(b, 5) {
        Some(n) => {
            if 5 <= n <= b.len() {
                let rest = b.subrange(n, b.len() as int);
                law_split_keeps_every_byte(rest, eof);
                let (rs, rr) = split_pieces(rest, eof);
                let ps = seq![b.subrange(0, n)] + rs;
                assert(ps.drop_first() =~= rs);
                assert(concat_all(ps) == b.subrange(0, n) + concat_all(rs));
                if eof {
                    let w = choose|w: Seq<u8>| all_ascii_ws(w) && concat_all(rs) + w == rest;
                    assert(b.subrange(0, n) + rest =~= b);
                    assert((b.subrange(0, n) + concat_all(rs)) + w =~= b.subrange(0, n) + (concat_all(rs) + w));
                    assert(concat_all(ps) + w =~= b);
                } else {
                    assert(b.subrange(0, n) + rest =~= b);
                    assert((b.subrange(0, n) + concat_all(rs)) + rr =~= b.subrange(0, n) + (concat_all(rs) + rr));
                    assert(concat_all(ps) + rr =~= b);
                }
            } else {
                assert(concat_all(Seq::<Seq<u8>>::empty()) + b =~= b);
                if eof {
                    lemma_first_start_bounds(b, 5);
                }
            }
        },
        None => {
            if eof {
                if all_ascii_ws(b) {
                    assert(concat_all(Seq::<Seq<u8>>::empty()) + b =~= b);
                } else {
                    let ps = seq![b];
                    assert(ps.drop_first() =~= Seq::<Seq<u8>>::empty());
                    assert(concat_all(ps) + Seq::<u8>::empty() =~= b);
                    assert(all_ascii_ws(Seq::<u8>::empty()));
                }
            } else {
                assert(concat_all(Seq::<Seq<u8>>::empty()) + b =~= b);
            }
        },
    }
}

/// The last `n` bytes (all of them when fewer).
pub open spec fn tail(b: Seq<u8>, n: int) -> Seq<u8> {
    if b.len() > n {
        b.subrange(b.len() - n, b.len() as int)
    } else {
        b
    }
}

/// How much of the input is kept while no document has started: enough to
/// find a declaration that a chunk boundary cut.
pub const SEARCH_TAIL: usize = 1024;

/// Splits an XML feed, read in chunks, into its documents.
pub struct RecordSplitter {
    buffer: Vec<u8>,
    found_first_record: bool,
}

impl RecordSplitter {
    /// The bytes held back, waiting for more input.
    pub closed spec fn buffered(self) -> Seq<u8> {
        self.buffer@
    }

    /// Whether the first document has been found.
    pub closed spec fn started(self) -> bool {
        self.found_first_record
    }

    pub fn new() -> (r: RecordSplitter)
        ensures
            r.buffered().len() == 0,
            !r.started(),
    {
        RecordSplitter { buffer: Vec::new(), found_first_record: false }
    }

    /// Take the next chunk of input (`eof`: none follows) and give back the
    /// documents it completes, in order. Bytes before the first document are
    /// dropped; at the end of the input nothing is held back.
    #[verifier::loop_isolation(false)]
    pub fn feed(&mut self, chunk: &[u8], eof: bool) -> (r: Vec<Vec<u8>>)
        ensures
            ({
                let input = old(self).buffered() + chunk@;
                if old(self).started() {
                    &&& final(self).started()
                    &&& split_pieces(input, eof) == (r.deep_view(), final(self).buffered())
                } else {
                    match first_start_from(input, 0) {
                        Some(s) => {
                            &&& final(self).started()
                            &&& split_pieces(input.subrange(s, input.len() as int), eof) == (
                                r.deep_view(),
                                final(self).buffered(),
                            )
                        },
                        None => {
                            &&& !final(self).started()
                            &&& r.len() == 0
                            &&& !eof ==> final(self).buffered() == tail(input, SEARCH_TAIL as int)
                        },
                    }
                }
            }),
    {
        let mut buf = crate::text::copy_bytes(self.buffer.as_slice());
        let mut k: usize = 0;
        while k < chunk.len()
            invariant
                k <= chunk.len(),
                buf@ == old(self).buffer@ + chunk@.take(k as int),
            decreases chunk.len() - k,
        {
            buf.push(chunk[k]);
            assert(chunk@.take(k + 1) =~= chunk@.take(k as int).push(chunk@[k as int]));
            assert(old(self).buffer@ + chunk@.take(k + 1) =~= (old(self).buffer@ + chunk@.take(
                k as int,
            )).push(chunk@[k as int]));
            k += 1;
        }
        assert(chunk@.take(chunk.len() as int) =~= chunk@);
        let ghost input = buf@;
        if !self.found_first_record {
            match find_next_record_start(buf.as_slice(), 0) {
                Some(start) => {
                    proof { lemma_first_start_bounds(input, 0); }
                    buf = crate::text::byte_range(buf.as_slice(), start, buf.len());
                    self.found_first_record = true;
                },
                None => {
                    if !eof && buf.len() > SEARCH_TAIL {
                        self.buffer = crate::text::byte_range(
                            buf.as_slice(),
                            buf.len() - SEARCH_TAIL,
                            buf.len(),
                        );
                    } else {
                        self.buffer = buf;
                    }
                    return Vec::new();
                },
            }
        }
        let ghost whole = buf@;
        assert(old(self).found_first_record ==> whole == input);
        assert(!old(self).found_first_record ==> first_start_from(input, 0) is Some && whole == input.subrange(first_start_from(input, 0)->0, input.len() as int));
        let mut out: Vec<Vec<u8>> = Vec::new();
        loop
            invariant
                self.found_first_record,
                split_pieces(whole, eof) == (
                    out.deep_view() + split_pieces(buf@, eof).0,
                    split_pieces(buf@, eof).1,
                ),
            decreases buf.len(),
        {
            proof { lemma_first_start_bounds(buf@, 5); }
            match find_next_record_start(buf.as_slice(), 5) {
                Some(n) => {
                    let head = crate::text::byte_range(buf.as_slice(), 0, n);
                    let rest = crate::text::byte_range(buf.as_slice(), n, buf.len());
                    let ghost prev = out.deep_view();
                    proof { lemma_deep_view_bytes(head); }
                    out.push(head);
                    proof {
                        let (rs, rr) = split_pieces(rest@, eof);
                        assert(split_pieces(buf@, eof) == (seq![head@] + rs, rr));
                        assert(out.deep_view() =~= prev.push(head@));
                        assert(prev + (seq![head@] + rs) =~= out.deep_view() + rs);
                    }
                    buf = rest;
                },
                None => {
                    let ghost prev = out.deep_view();
                    if eof {
                        let mut blank = true;
                        let mut j: usize = 0;
                        while j < buf.len()
                            invariant
                                j <= buf.len(),
                                blank == (forall|m: int| 0 <= m < j ==> is_ascii_ws(#[trigger] buf@[m])),
                            decreases buf.len() - j,
                        {
                            let c = buf[j];
                            if !(c == 32u8 || c == 9u8 || c == 10u8 || c == 12u8 || c == 13u8) {
                                blank = false;
                            }
                            j += 1;
                        }
                        if !blank {
                            proof { lemma_deep_view_bytes(buf); }
                            out.push(buf);
                        }
                        self.buffer = Vec::new();
                        proof {
                            assert(self.buffer@ =~= Seq::<u8>::empty());
                            assert(out.deep_view() =~= split_pieces(whole, eof).0);
                        }
                    } else {
                        self.buffer = buf;
                        assert(out.deep_view() =~= split_pieces(whole, eof).0);
                    }
                    assert(split_pieces(whole, eof) == (out.deep_view(), self.buffer@));
                    assert(self.found_first_record);
                    return out;
                },
            }
        }
    }
}

/// The documents of a complete feed: what feeding it whole gives.
pub fn split_documents(input: &[u8]) -> (r: Vec<Vec<u8>>)
    ensures
        match first_start_from(input@, 0) {
            Some(s) => r.deep_view() == split_pieces(input@.subrange(s, input@.len() as int), true).0,
            None => r.len() == 0,
        },
{
    let mut splitter = RecordSplitter::new();
    assert(splitter.buffered() + input@ =~= input@);
    splitter.feed(input, true)
}

/// The text of one document's bytes (UTF-8, else each byte as the character
/// of the same code), or none when it is only whitespace.
pub fn record_text(bytes: Vec<u8>) -> (r: Option<String>)
    ensures
        match r {
            Some(s) => s@ == crate::text::spec_decode_text(bytes@) && trim(s@).len() > 0,
            None => trim(crate::text::spec_decode_text(bytes@)).len() == 0,
        },
{
    let text = crate::text::decode_text(bytes);
    let t = crate::text::trim_str(text.as_str());
    if t.len() == 0 {
        None
    } else {
        Some(text)
    }
}

// ---------------------------------------------------------------------------
// Splitting a Green Book feed into records
// ---------------------------------------------------------------------------

/// The byte ranges of a Green Book feed's records: from each record boundary
/// to the next one, the last to the end of the buffer.
pub fn aps_record_ranges(buffer: &[u8]) -> (r: Vec<(usize, usize)>)
    ensures
        ({
            let starts = crate::source::aps::boundaries_before(buffer@, buffer@.len() as int);
            &&& r.len() == starts.len()
            &&& forall|i: int| 0 <= i < r.len() ==> (#[trigger] r@[i]).0 == starts[i] && r@[i].1 == (
                if i + 1 < starts.len() {
                    starts[i + 1]
                } else {
                    buffer@.len() as int
                })
        }),
{
    let starts = crate::source::aps::aps_record_starts(buffer);
    let ghost sv = starts@.map_values(|k: usize| k as int);
    let mut out: Vec<(usize, usize)> = Vec::new();
    let mut i: usize = 0;
    while i < starts.len()
        invariant
            i <= starts.len(),
            sv == starts@.map_values(|k: usize| k as int),
            sv == crate::source::aps::boundaries_before(buffer@, buffer@.len() as int),
            out.len() == i,
            forall|m: int| 0 <= m < i ==> (#[trigger] out@[m]).0 == sv[m] && out@[m].1 == (
                if m + 1 < sv.len() {
                    sv[m + 1]
                } else {
                    buffer@.len() as int
                }),
        decreases starts.len() - i,
    {
        let end = if i + 1 < starts.len() {
            starts[i + 1]
        } else {
            buffer.len()
        };
        out.push((starts[i], end));
        i += 1;
    }
    out
}

// ---------------------------------------------------------------------------
// Ingesting records
// ---------------------------------------------------------------------------

/// The running counts of a bulk run, and the report lines of unsupported
/// documents (`doc_key`, a tab, the reason).
#[derive(Debug)]
pub struct IngestTally {
    pub docs_written: usize,
    pub supplemental_skipped: usize,
    pub unsupported_skipped: usize,
    pub malformed_skipped: usize,
    pub unsupported_records: Vec<String>,
}

impl IngestTally {
    /// Nothing counted yet.
    pub fn new() -> (r: IngestTally)
        ensures
            r.docs_written == 0,
            r.supplemental_skipped == 0,
            r.unsupported_skipped == 0,
            r.malformed_skipped == 0,
            r.unsupported_records@.len() == 0,
    {
        IngestTally {
            docs_written: 0,
            supplemental_skipped: 0,
            unsupported_skipped: 0,
            malformed_skipped: 0,
            unsupported_records: Vec::new(),
        }
    }

    /// Every record counted once: the counts sum to at most the records seen.
    pub open spec fn counted(self) -> int {
        self.docs_written + self.supplemental_skipped + self.unsupported_skipped
            + self.malformed_skipped
    }

    /// One report line per unsupported document.
    pub open spec fn wf(self) -> bool {
        self.unsupported_records@.len() == self.unsupported_skipped
    }
}

/// What to do with one record.
#[derive(Debug)]
pub enum RecordAction {
    /// The limit is reached: read no further.
    Stop,
    /// The record did not parse; it was counted as `kind`.
    Skip { kind: SkipKind, doc_key: String, reason: String },
    /// Append `markdown` to the shard under `doc_key`, and `biblio_line` to
    /// the sidecar.
    Write { doc_key: String, markdown: String, biblio_line: String },
}

/// The key of a record: from its WKU for APS text, else from its root tag
/// or number elements; else its ordinal plus one.
pub open spec fn spec_record_key(doc: Seq<char>, is_aps: bool, ordinal: nat) -> Seq<char> {
    if is_aps {
        aps_key_from(lines(doc), 0, ordinal)
    } else {
        spec_derive_doc_key(doc, ordinal)
    }
}

/// What parsing a record gives: APS text, or XML with its format detected.
pub open spec fn parsed_from(doc: Seq<char>, is_aps: bool, p: Result<PatentDocument, ParseError>) -> bool {
    if is_aps {
        aps_outcome_ok(doc, p)
    } else {
        match spec_detect_source_format(doc) {
            Ok(format) => parse_outcome_ok(doc, format, p),
            Err(e) => p matches Err(ParseError::Detect(d)) && d@ == e,
        }
    }
}

/// The report line of an unsupported document.
pub open spec fn report_line(key: Seq<char>, e: ParseError) -> Seq<char> {
    key + "\t"@ + spec_parse_message(e)
}

/// One record's step, given what parsing it gave: a parsed document is
/// written and counted; a failure is counted by its kind, and an unsupported
/// one reported.
pub open spec fn record_step(
    old: IngestTally,
    new: IngestTally,
    key: Seq<char>,
    p: Result<PatentDocument, ParseError>,
    doc_kind: Seq<char>,
    source_file: Seq<char>,
    r: RecordAction,
) -> bool {
    match p {
        Ok(d) => {
            &&& r matches RecordAction::Write { doc_key, markdown, biblio_line }
            &&& doc_key@ == key
            &&& markdown@ == spec_render_markdown(d)
            &&& exists|b: BiblioRecord|
                is_biblio_of(b, d) && biblio_line@ == #[trigger] spec_json_line(b, key, doc_kind, source_file)
            &&& new.docs_written == old.docs_written + 1
            &&& new.supplemental_skipped == old.supplemental_skipped
            &&& new.unsupported_skipped == old.unsupported_skipped
            &&& new.malformed_skipped == old.malformed_skipped
            &&& new.unsupported_records@ == old.unsupported_records@
        },
        Err(e) => {
            let kind = spec_classify_skip(e);
            &&& r matches RecordAction::Skip { kind: k, doc_key, reason }
            &&& k == kind
            &&& doc_key@ == key
            &&& reason@ == spec_parse_message(e)
            &&& new.docs_written == old.docs_written
            &&& new.supplemental_skipped == old.supplemental_skipped + (if kind
                is Supplemental { 1int } else { 0int })
            &&& new.unsupported_skipped == old.unsupported_skipped + (if kind is Unsupported {
                1int
            } else {
                0int
            })
            &&& new.malformed_skipped == old.malformed_skipped + (if kind is Malformed {
                1int
            } else {
                0int
            })
            &&& new.unsupported_records@.len() == old.unsupported_records@.len() + (if kind
                is Unsupported { 1int } else { 0int })
            &&& forall|i: int|
                0 <= i < old.unsupported_records@.len() ==> #[trigger] new.unsupported_records@[i]
                    == old.unsupported_records@[i]
            &&& kind is Unsupported ==> new.unsupported_records@.last()@ == report_line(key, e)
        },
    }
}

/// `limit` documents are written already.
pub open spec fn limit_reached(limit: Option<usize>, written: usize) -> bool {
    limit matches Some(l) && written >= l
}

/// Take one record of a bulk run: stop once `limit` documents are written;
/// else parse it (as APS text or as XML), and either count it as skipped or
/// hand back its shard entry and sidecar line, counting it written.
pub fn ingest_record(
    tally: &mut IngestTally,
    limit: Option<usize>,
    is_aps: bool,
    ordinal: usize,
    doc: &str,
    doc_kind: &str,
    source_file: &str,
) -> (r: RecordAction)
    requires
        ordinal < usize::MAX,
        old(tally).counted() <= ordinal,
    ensures
        final(tally).counted() <= ordinal + 1,
        old(tally).wf() ==> final(tally).wf(),
        limit_reached(limit, old(tally).docs_written) ==> (r is Stop && final(tally).docs_written
            == old(tally).docs_written && final(tally).supplemental_skipped
            == old(tally).supplemental_skipped && final(tally).unsupported_skipped
            == old(tally).unsupported_skipped && final(tally).malformed_skipped
            == old(tally).malformed_skipped && final(tally).unsupported_records@
            == old(tally).unsupported_records@),
        !limit_reached(limit, old(tally).docs_written) ==> exists|
            p: Result<PatentDocument, ParseError>,
        |
            #![trigger parsed_from(doc@, is_aps, p)]
            parsed_from(doc@, is_aps, p) && record_step(
                *old(tally),
                *final(tally),
                spec_record_key(doc@, is_aps, ordinal as nat),
                p,
                doc_kind@,
                source_file@,
                r,
            ),
        limit matches Some(l) ==> (old(tally).docs_written <= l ==> final(tally).docs_written <= l),
{
    if let Some(l) = limit {
        if tally.docs_written >= l {
            return RecordAction::Stop;
        }
    }
    let doc_key = if is_aps {
        derive_aps_doc_key(doc, ordinal)
    } else {
        derive_doc_key(doc, ordinal)
    };
    let parsed = if is_aps {
        crate::parse_patent_aps(doc)
    } else {
        crate::parse_patent_xml(doc)
    };
    let ghost p = parsed;
    match parsed {
        Ok(d) => {
            let markdown = crate::render_markdown(&d);
            let biblio = crate::render::biblio::extract_biblio(&d);
            let biblio_line = biblio.to_json_line(doc_key.as_str(), doc_kind, source_file);
            tally.docs_written = tally.docs_written + 1;
            assert(parsed_from(doc@, is_aps, p));
            RecordAction::Write { doc_key, markdown, biblio_line }
        },
        Err(e) => {
            let kind = classify_skip(&e);
            let reason = e.message();
            match kind {
                SkipKind::Supplemental => {
                    tally.supplemental_skipped = tally.supplemental_skipped + 1;
                },
                SkipKind::Unsupported => {
                    tally.unsupported_skipped = tally.unsupported_skipped + 1;
                    let mut line = doc_key.clone();
                    push_str(&mut line, "\t");
                    push_str(&mut line, reason.as_str());
                    tally.unsupported_records.push(line);
                },
                SkipKind::Malformed => {
                    tally.malformed_skipped = tally.malformed_skipped + 1;
                },
            }
            assert(parsed_from(doc@, is_aps, p));
            RecordAction::Skip { kind, doc_key, reason }
        },
    }
}

/// The report of unsupported documents: a header line, then one line each.
pub open spec fn spec_unsupported_report(lines: Seq<String>) -> Seq<char>
    decreases lines.len(),
{
    if lines.len() == 0 {
        "doc_key\treason\n"@
    } else {
        spec_unsupported_report(lines.drop_last()) + lines.last()@ + "\n"@
    }
}

/// The unsupported-document report to write, if there is anything in it.
pub fn unsupported_report(tally: &IngestTally) -> (r: Option<String>)
    ensures
        r is Some <==> tally.unsupported_records@.len() > 0,
        r matches Some(t) ==> t@ == spec_unsupported_report(tally.unsupported_records@),
{
    if tally.unsupported_records.len() == 0 {
        return None;
    }
    let mut out = copy_str("doc_key\treason\n");
    let mut i: usize = 0;
    while i < tally.unsupported_records.len()
        invariant
            i <= tally.unsupported_records.len(),
            out@ == spec_unsupported_report(tally.unsupported_records@.take(i as int)),
        decreases tally.unsupported_records.len() - i,
    {
        assert(tally.unsupported_records@.take(i + 1).drop_last()
            =~= tally.unsupported_records@.take(i as int));
        push_str(&mut out, tally.unsupported_records[i].as_str());
        push_str(&mut out, "\n");
        i += 1;
    }
    assert(tally.unsupported_records@.take(tally.unsupported_records.len() as int)
        =~= tally.unsupported_records@);
    Some(out)
}

/// The statistics of a finished run: the counts of `tally`, the skipped
/// total as the sum of the three kinds, and the report path exactly when
/// an unsupported document was skipped.
pub fn finish_stats(
    tally: &IngestTally,
    zst_path: String,
    idx_path: String,
    biblio_path: String,
    manifest_path: String,
    report_path: String,
) -> (r: ShardStats)
    requires
        tally.wf(),
        tally.counted() <= usize::MAX,
    ensures
        r.docs_written == tally.docs_written,
        r.supplemental_skipped == tally.supplemental_skipped,
        r.unsupported_skipped == tally.unsupported_skipped,
        r.malformed_skipped == tally.malformed_skipped,
        r.docs_skipped == tally.supplemental_skipped + tally.unsupported_skipped
            + tally.malformed_skipped,
        r.unsupported_path is Some <==> tally.unsupported_skipped > 0,
        r.unsupported_path matches Some(q) ==> q@ == report_path@,
        r.zst_path@ == zst_path@,
        r.idx_path@ == idx_path@,
        r.biblio_path@ == biblio_path@,
        r.manifest_path@ == manifest_path@,
{
    let unsupported_path = if tally.unsupported_skipped > 0 {
        Some(report_path)
    } else {
        None
    };
    ShardStats {
        docs_written: tally.docs_written,
        docs_skipped: tally.supplemental_skipped + tally.unsupported_skipped
            + tally.malformed_skipped,
        supplemental_skipped: tally.supplemental_skipped,
        unsupported_skipped: tally.unsupported_skipped,
        malformed_skipped: tally.malformed_skipped,
        zst_path,
        idx_path,
        biblio_path,
        manifest_path,
        unsupported_path,
    }
}

} // verus!
