//! Source format detection.
//!
//! The Green Book "APS" text format is recognized by its first line; XML
//! formats by their root element family plus the schema-version markers the
//! input carries.

use vstd::prelude::*;

use crate::error::{DetectError, DetectErrorView};
use crate::text::{
    chars_of, contains, contains_str, eq_str, find, is_blank_chars, is_whitespace,
    is_ws, lemma_find_from_bounds, lemma_trim_empty_iff_blank, lines, lines_of, slice_chars,
    starts_with, starts_with_str, string_of, trim, trim_chars, trim_end, trim_end_chars,
    trim_start, trim_start_chars, find_str, find_char_from, is_blank, strip_cr,
};

verus! {

#[derive(Debug, Clone, Copy, PartialEq, Eq, Structural)]
pub enum SourceFormat {
    UsptoApplicationV15,
    UsptoApplicationV16,
    UsptoApplicationV40,
    UsptoApplicationV41,
    UsptoApplicationV42,
    UsptoApplicationV43,
    UsptoApplicationV44,
    UsptoApplicationV45,
    UsptoApplicationV46,
    UsptoGrantV25,
    UsptoGrantV40,
    UsptoGrantV41,
    UsptoGrantV42,
    UsptoGrantV43,
    UsptoGrantV44,
    UsptoGrantV45,
    UsptoGrantV46,
    UsptoGrantV47,
    /// USPTO Green Book "APS" plain-text patent grants (product PTGRAPS,
    /// 1976-2001). Not XML: tagged fixed-column text, records separated by a
    /// bare `PATN` line.
    UsptoGrantApsGreenBook,
}

// ---------------------------------------------------------------------------
// APS recognition
// ---------------------------------------------------------------------------

/// Index of the first line at or after `i` that is not blank.
pub open spec fn first_nonblank_line(ls: Seq<Seq<char>>, i: int) -> Option<int>
    decreases ls.len() - i,
{
    if i < 0 || i >= ls.len() {
        None
    } else if trim(ls[i]).len() != 0 {
        Some(i)
    } else {
        first_nonblank_line(ls, i + 1)
    }
}

/// The Green Book "APS" plain-text format: the first non-blank line is either a
/// weekly file header (`HHHHH...` mentioning `APS`) or a bare `PATN` line.
#[verifier::opaque]
pub open spec fn spec_is_aps_green_book(input: Seq<char>) -> bool {
    let ls = lines(input);
    match first_nonblank_line(ls, 0) {
        None => false,
        Some(k) => {
            let first = trim_end(ls[k]);
            (starts_with(first, "HHHHH"@) && contains(first, "APS"@)) || trim(first) == "PATN"@
        },
    }
}

/// Recognize the Green Book "APS" plain-text format. These files carry no `<`
/// markup, so they must be detected before the XML root scan. A weekly file
/// begins with an `HHHHHT ... APS1 ... ISSUE` header line; a bare record begins
/// with a line that is exactly `PATN`.
pub fn is_aps_green_book(input: &str) -> (r: bool)
    ensures
        r == spec_is_aps_green_book(input@),
{
    reveal(spec_is_aps_green_book);
    let cs = chars_of(input);
    let ls = lines_of(cs.as_slice());
    let mut i: usize = 0;
    while i < ls.len()
        invariant
            i <= ls.len(),
            ls.deep_view() == lines(input@),
            first_nonblank_line(lines(input@), 0) == first_nonblank_line(lines(input@), i as int),
        decreases ls.len() - i,
    {
        let line = ls[i].as_slice();
        proof {
            assert(ls.deep_view()[i as int] == ls@[i as int]@);
            lemma_trim_empty_iff_blank(line@);
        }
        if !is_blank_chars(line) {
            proof {
                reveal(spec_is_aps_green_book);
                assert(first_nonblank_line(lines(input@), i as int) == Some(i as int));
            }
            let first = trim_end_chars(line);
            if starts_with_str(first.as_slice(), "HHHHH") && contains_str(first.as_slice(), "APS") {
                return true;
            }
            let t = trim_chars(first.as_slice());
            return eq_str(t.as_slice(), "PATN");
        }
        i += 1;
    }
    false
}

pub open spec fn result_view<T>(r: Result<T, DetectError>) -> Result<T, DetectErrorView> {
    match r {
        Ok(v) => Ok(v),
        Err(e) => Err(e@),
    }
}

pub open spec fn detect_view(r: Result<SourceFormat, DetectError>) -> Result<SourceFormat, DetectErrorView> {
    result_view(r)
}

// ---------------------------------------------------------------------------
// XML root scan
// ---------------------------------------------------------------------------

#[derive(Debug, Clone, Copy, PartialEq, Eq, Structural)]
pub enum DocumentFamily {
    Application,
    Grant,
}

/// One schema-version clue found in the input: the family it belongs to and,
/// for version markers, the format it names.
#[derive(Debug, Clone, Copy, PartialEq, Eq, Structural)]
pub struct MarkerFamily {
    pub family: DocumentFamily,
    pub format: Option<SourceFormat>,
}

/// One past the end of the element name that begins `content`.
pub open spec fn name_end(content: Seq<char>, i: int) -> int
    decreases content.len() - i,
{
    if i < 0 || i >= content.len() {
        content.len() as int
    } else if is_ws(content[i]) || content[i] == '>' || content[i] == '/' {
        i
    } else {
        name_end(content, i + 1)
    }
}

pub open spec fn spec_root_name(content: Seq<char>) -> Option<Seq<char>> {
    let e = name_end(content, 0);
    if 0 < e <= content.len() {
        Some(content.subrange(0, e))
    } else {
        None
    }
}

pub proof fn lemma_name_end(content: Seq<char>, i: int)
    requires
        0 <= i <= content.len(),
    ensures
        i <= name_end(content, i) <= content.len(),
    decreases content.len() - i,
{
    if i < content.len() && !(is_ws(content[i]) || content[i] == '>' || content[i] == '/') {
        lemma_name_end(content, i + 1);
    }
}

fn root_name(content: &[char]) -> (r: Option<Vec<char>>)
    ensures
        r matches Some(v) ==> spec_root_name(content@) == Some(v@),
        r is None ==> spec_root_name(content@) is None,
{
    let mut i: usize = 0;
    while i < content.len() && !(is_whitespace(content[i]) || content[i] == '>' || content[i]
        == '/')
        invariant
            i <= content.len(),
            name_end(content@, 0) == name_end(content@, i as int),
        decreases content.len() - i,
    {
        i += 1;
    }
    if i > 0 {
        Some(slice_chars(content, 0, i))
    } else {
        None
    }
}

/// The family a root element name belongs to.
pub open spec fn spec_family_of_root(name: Seq<char>) -> Result<DocumentFamily, DetectErrorView> {
    if name == "patent-application-publication"@ || name == "us-patent-application"@ {
        Ok(DocumentFamily::Application)
    } else if name == "us-patent-grant"@ || name == "PATDOC"@ {
        Ok(DocumentFamily::Grant)
    } else {
        Err(DetectErrorView::UnsupportedRoot(name))
    }
}

/// Skip the prolog items at the start of `cursor` (XML declaration, processing
/// instructions, DOCTYPE, comments) and classify the first element.
pub open spec fn spec_root_family_from(cursor: Seq<char>) -> Result<DocumentFamily, DetectErrorView>
    decreases cursor.len(),
{
    match find(cursor, "<"@) {
        None => Err(DetectErrorView::MalformedXml),
        Some(start) => {
            if !(0 <= start < cursor.len()) {
                Err(DetectErrorView::MalformedXml)
            } else if trim(cursor.subrange(0, start)).len() != 0 {
                Err(DetectErrorView::MalformedXml)
            } else {
                let content = cursor.subrange(start + 1, cursor.len() as int);
                if starts_with(content, "?"@) {
                    match find(content, "?>"@) {
                        None => Err(DetectErrorView::MalformedXml),
                        Some(end) => if 0 <= end && end + 2 <= content.len() {
                            spec_root_family_from(content.subrange(end + 2, content.len() as int))
                        } else {
                            Err(DetectErrorView::MalformedXml)
                        },
                    }
                } else if starts_with(content, "!DOCTYPE"@) {
                    let end = match find(content, "]>"@) {
                        Some(idx) => Some(idx + 2),
                        None => match find(content, ">"@) {
                            Some(idx) => Some(idx + 1),
                            None => None,
                        },
                    };
                    match end {
                        None => Err(DetectErrorView::MalformedXml),
                        Some(e) => if 0 <= e <= content.len() {
                            spec_root_family_from(content.subrange(e, content.len() as int))
                        } else {
                            Err(DetectErrorView::MalformedXml)
                        },
                    }
                } else if starts_with(content, "!--"@) {
                    match find(content, "-->"@) {
                        None => Err(DetectErrorView::MalformedXml),
                        Some(end) => if 0 <= end && end + 3 <= content.len() {
                            spec_root_family_from(content.subrange(end + 3, content.len() as int))
                        } else {
                            Err(DetectErrorView::MalformedXml)
                        },
                    }
                } else if starts_with(content, "!"@) || starts_with(content, "/"@) {
                    Err(DetectErrorView::MalformedXml)
                } else {
                    match spec_root_name(content) {
                        None => Err(DetectErrorView::MalformedXml),
                        Some(name) => spec_family_of_root(name),
                    }
                }
            }
        },
    }
}

pub open spec fn spec_root_family(input: Seq<char>) -> Result<DocumentFamily, DetectErrorView> {
    spec_root_family_from(trim_start(input))
}

fn family_of_root(name: &[char]) -> (r: Result<DocumentFamily, DetectError>)
    ensures
        result_view(r) == spec_family_of_root(name@),
{
    if eq_str(name, "patent-application-publication") || eq_str(name, "us-patent-application") {
        Ok(DocumentFamily::Application)
    } else if eq_str(name, "us-patent-grant") || eq_str(name, "PATDOC") {
        Ok(DocumentFamily::Grant)
    } else {
        Err(DetectError::UnsupportedRoot(string_of(name)))
    }
}

proof fn lemma_find_bounds(s: Seq<char>, p: Seq<char>)
    ensures
        find(s, p) matches Some(k) ==> 0 <= k && k + p.len() <= s.len(),
{
    lemma_find_from_bounds(s, p, 0);
}

fn detect_root_family(input: &str) -> (r: Result<DocumentFamily, DetectError>)
    ensures
        result_view(r) == spec_root_family(input@),
{
    let all = chars_of(input);
    let mut cursor = trim_start_chars(all.as_slice());
    loop
        invariant
            spec_root_family(input@) == spec_root_family_from(cursor@),
        decreases cursor@.len(),
    {
        let ghost cur = cursor@;
        proof {
            reveal_strlit("<");
            reveal_strlit("?>");
            reveal_strlit("]>");
            reveal_strlit(">");
            reveal_strlit("-->");
            lemma_find_bounds(cur, "<"@);
        }
        let start = match find_str(cursor.as_slice(), "<") {
            Some(start) => start,
            None => {
                return Err(DetectError::MalformedXml);
            },
        };
        let before = slice_chars(cursor.as_slice(), 0, start);
        if !is_blank_chars(before.as_slice()) {
            proof {
                lemma_trim_empty_iff_blank(before@);
            }
            return Err(DetectError::MalformedXml);
        }
        proof {
            lemma_trim_empty_iff_blank(before@);
        }
        assert(start < cursor.len());
        let content = slice_chars(cursor.as_slice(), start + 1, cursor.len());
        let ghost con = content@;
        proof {
            lemma_find_bounds(con, "?>"@);
            lemma_find_bounds(con, "]>"@);
            lemma_find_bounds(con, ">"@);
            lemma_find_bounds(con, "-->"@);
        }
        if starts_with_str(content.as_slice(), "?") {
            match find_str(content.as_slice(), "?>") {
                Some(end) => {
                    cursor = slice_chars(content.as_slice(), end + 2, content.len());
                    continue;
                },
                None => {
                    return Err(DetectError::MalformedXml);
                },
            }
        }
        if starts_with_str(content.as_slice(), "!DOCTYPE") {
            let end = match find_str(content.as_slice(), "]>") {
                Some(idx) => idx + 2,
                None => match find_str(content.as_slice(), ">") {
                    Some(idx) => idx + 1,
                    None => {
                        return Err(DetectError::MalformedXml);
                    },
                },
            };
            cursor = slice_chars(content.as_slice(), end, content.len());
            continue;
        }
        if starts_with_str(content.as_slice(), "!--") {
            match find_str(content.as_slice(), "-->") {
                Some(end) => {
                    cursor = slice_chars(content.as_slice(), end + 3, content.len());
                    continue;
                },
                None => {
                    return Err(DetectError::MalformedXml);
                },
            }
        }
        if starts_with_str(content.as_slice(), "!") || starts_with_str(content.as_slice(), "/") {
            return Err(DetectError::MalformedXml);
        }
        match root_name(content.as_slice()) {
            None => {
                return Err(DetectError::MalformedXml);
            },
            Some(name) => {
                return family_of_root(name.as_slice());
            },
        }
    }
}

// ---------------------------------------------------------------------------
// Version markers
// ---------------------------------------------------------------------------

pub open spec fn marker(family: DocumentFamily, format: SourceFormat) -> MarkerFamily {
    MarkerFamily { family, format: Some(format) }
}

pub open spec fn opt_marker(present: bool, m: MarkerFamily) -> Seq<MarkerFamily> {
    if present {
        seq![m]
    } else {
        Seq::empty()
    }
}

/// A versioned-schema marker: the schema name, or (for the family the root
/// belongs to) a `dtd-version` attribute prefix.
pub open spec fn versioned(
    s: Seq<char>,
    root: DocumentFamily,
    fam: DocumentFamily,
    name: Seq<char>,
    dtd: Seq<char>,
) -> bool {
    contains(s, name) || (root == fam && contains(s, dtd))
}

#[verifier::opaque]
pub open spec fn application_markers(s: Seq<char>, root: DocumentFamily) -> Seq<MarkerFamily> {
    let a = DocumentFamily::Application;
    opt_marker(
        versioned(s, root, a, "us-patent-application-v40"@, "dtd-version=\"v4.0"@),
        marker(a, SourceFormat::UsptoApplicationV40),
    ) + opt_marker(
        versioned(s, root, a, "us-patent-application-v41"@, "dtd-version=\"v4.1"@),
        marker(a, SourceFormat::UsptoApplicationV41),
    ) + opt_marker(
        versioned(s, root, a, "us-patent-application-v42"@, "dtd-version=\"v4.2"@),
        marker(a, SourceFormat::UsptoApplicationV42),
    ) + opt_marker(
        versioned(s, root, a, "us-patent-application-v43"@, "dtd-version=\"v4.3"@),
        marker(a, SourceFormat::UsptoApplicationV43),
    ) + opt_marker(
        versioned(s, root, a, "us-patent-application-v44"@, "dtd-version=\"v4.4"@),
        marker(a, SourceFormat::UsptoApplicationV44),
    ) + opt_marker(
        versioned(s, root, a, "us-patent-application-v45"@, "dtd-version=\"v4.5"@),
        marker(a, SourceFormat::UsptoApplicationV45),
    ) + opt_marker(
        versioned(s, root, a, "us-patent-application-v46"@, "dtd-version=\"v4.6"@),
        marker(a, SourceFormat::UsptoApplicationV46),
    )
}

#[verifier::opaque]
pub open spec fn grant_markers(s: Seq<char>, root: DocumentFamily) -> Seq<MarkerFamily> {
    let g = DocumentFamily::Grant;
    opt_marker(
        versioned(s, root, g, "us-patent-grant-v40"@, "dtd-version=\"v40"@),
        marker(g, SourceFormat::UsptoGrantV40),
    ) + opt_marker(
        versioned(s, root, g, "us-patent-grant-v41"@, "dtd-version=\"v4.1"@),
        marker(g, SourceFormat::UsptoGrantV41),
    ) + opt_marker(
        versioned(s, root, g, "us-patent-grant-v42"@, "dtd-version=\"v4.2"@),
        marker(g, SourceFormat::UsptoGrantV42),
    ) + opt_marker(
        versioned(s, root, g, "us-patent-grant-v43"@, "dtd-version=\"v4.3"@),
        marker(g, SourceFormat::UsptoGrantV43),
    ) + opt_marker(
        versioned(s, root, g, "us-patent-grant-v44"@, "dtd-version=\"v4.4"@),
        marker(g, SourceFormat::UsptoGrantV44),
    ) + opt_marker(
        versioned(s, root, g, "us-patent-grant-v45"@, "dtd-version=\"v4.5"@),
        marker(g, SourceFormat::UsptoGrantV45),
    ) + opt_marker(
        versioned(s, root, g, "us-patent-grant-v46"@, "dtd-version=\"v4.6"@),
        marker(g, SourceFormat::UsptoGrantV46),
    ) + opt_marker(
        versioned(s, root, g, "us-patent-grant-v47"@, "dtd-version=\"v4.7"@),
        marker(g, SourceFormat::UsptoGrantV47),
    )
}

/// Every version clue in `s`, in a fixed order.
#[verifier::opaque]
pub open spec fn spec_markers(s: Seq<char>, root: DocumentFamily) -> Seq<MarkerFamily> {
    opt_marker(
        contains(s, "pap-v15-2001-01-31.dtd"@),
        marker(DocumentFamily::Application, SourceFormat::UsptoApplicationV15),
    ) + opt_marker(
        contains(s, "pap-v16"@),
        marker(DocumentFamily::Application, SourceFormat::UsptoApplicationV16),
    ) + opt_marker(
        contains(s, "ST32-US-Grant-025xml.dtd"@) || contains(s, "DTD=\"2.5\""@),
        marker(DocumentFamily::Grant, SourceFormat::UsptoGrantV25),
    ) + application_markers(s, root) + grant_markers(s, root) + opt_marker(
        contains(s, "<!DOCTYPE us-patent-application"@),
        MarkerFamily { family: DocumentFamily::Application, format: None },
    ) + opt_marker(
        contains(s, "<!DOCTYPE us-patent-grant"@) || contains(s, "<!DOCTYPE PATDOC"@),
        MarkerFamily { family: DocumentFamily::Grant, format: None },
    )
}

fn push_marker_if(markers: &mut Vec<MarkerFamily>, present: bool, m: MarkerFamily)
    ensures
        final(markers)@ == old(markers)@ + opt_marker(present, m),
{
    if present {
        markers.push(m);
    }
    assert(markers@ =~= old(markers)@ + opt_marker(present, m));
}

fn versioned_exec(
    s: &[char],
    root: DocumentFamily,
    fam: DocumentFamily,
    name: &str,
    dtd: &str,
) -> (r: bool)
    ensures
        r == versioned(s@, root, fam, name@, dtd@),
{
    contains_str(s, name) || (root == fam && contains_str(s, dtd))
}

fn application_markers_exec(s: &[char], root: DocumentFamily) -> (r: Vec<MarkerFamily>)
    ensures
        r@ == application_markers(s@, root),
{
    reveal(application_markers);
    let a = DocumentFamily::Application;
    let mut m: Vec<MarkerFamily> = Vec::new();
    let b = versioned_exec(s, root, a, "us-patent-application-v40", "dtd-version=\"v4.0");
    push_marker_if(&mut m, b, MarkerFamily { family: a, format: Some(SourceFormat::UsptoApplicationV40) });
    let b = versioned_exec(s, root, a, "us-patent-application-v41", "dtd-version=\"v4.1");
    push_marker_if(&mut m, b, MarkerFamily { family: a, format: Some(SourceFormat::UsptoApplicationV41) });
    let b = versioned_exec(s, root, a, "us-patent-application-v42", "dtd-version=\"v4.2");
    push_marker_if(&mut m, b, MarkerFamily { family: a, format: Some(SourceFormat::UsptoApplicationV42) });
    let b = versioned_exec(s, root, a, "us-patent-application-v43", "dtd-version=\"v4.3");
    push_marker_if(&mut m, b, MarkerFamily { family: a, format: Some(SourceFormat::UsptoApplicationV43) });
    let b = versioned_exec(s, root, a, "us-patent-application-v44", "dtd-version=\"v4.4");
    push_marker_if(&mut m, b, MarkerFamily { family: a, format: Some(SourceFormat::UsptoApplicationV44) });
    let b = versioned_exec(s, root, a, "us-patent-application-v45", "dtd-version=\"v4.5");
    push_marker_if(&mut m, b, MarkerFamily { family: a, format: Some(SourceFormat::UsptoApplicationV45) });
    let b = versioned_exec(s, root, a, "us-patent-application-v46", "dtd-version=\"v4.6");
    push_marker_if(&mut m, b, MarkerFamily { family: a, format: Some(SourceFormat::UsptoApplicationV46) });
    assert(m@ =~= application_markers(s@, root));
    m
}

fn grant_markers_exec(s: &[char], root: DocumentFamily) -> (r: Vec<MarkerFamily>)
    ensures
        r@ == grant_markers(s@, root),
{
    reveal(grant_markers);
    let g = DocumentFamily::Grant;
    let mut m: Vec<MarkerFamily> = Vec::new();
    let b = versioned_exec(s, root, g, "us-patent-grant-v40", "dtd-version=\"v40");
    push_marker_if(&mut m, b, MarkerFamily { family: g, format: Some(SourceFormat::UsptoGrantV40) });
    let b = versioned_exec(s, root, g, "us-patent-grant-v41", "dtd-version=\"v4.1");
    push_marker_if(&mut m, b, MarkerFamily { family: g, format: Some(SourceFormat::UsptoGrantV41) });
    let b = versioned_exec(s, root, g, "us-patent-grant-v42", "dtd-version=\"v4.2");
    push_marker_if(&mut m, b, MarkerFamily { family: g, format: Some(SourceFormat::UsptoGrantV42) });
    let b = versioned_exec(s, root, g, "us-patent-grant-v43", "dtd-version=\"v4.3");
    push_marker_if(&mut m, b, MarkerFamily { family: g, format: Some(SourceFormat::UsptoGrantV43) });
    let b = versioned_exec(s, root, g, "us-patent-grant-v44", "dtd-version=\"v4.4");
    push_marker_if(&mut m, b, MarkerFamily { family: g, format: Some(SourceFormat::UsptoGrantV44) });
    let b = versioned_exec(s, root, g, "us-patent-grant-v45", "dtd-version=\"v4.5");
    push_marker_if(&mut m, b, MarkerFamily { family: g, format: Some(SourceFormat::UsptoGrantV45) });
    let b = versioned_exec(s, root, g, "us-patent-grant-v46", "dtd-version=\"v4.6");
    push_marker_if(&mut m, b, MarkerFamily { family: g, format: Some(SourceFormat::UsptoGrantV46) });
    let b = versioned_exec(s, root, g, "us-patent-grant-v47", "dtd-version=\"v4.7");
    push_marker_if(&mut m, b, MarkerFamily { family: g, format: Some(SourceFormat::UsptoGrantV47) });
    assert(m@ =~= grant_markers(s@, root));
    m
}

fn detect_markers(s: &[char], root: DocumentFamily) -> (r: Vec<MarkerFamily>)
    ensures
        r@ == spec_markers(s@, root),
{
    reveal(spec_markers);
    let mut m: Vec<MarkerFamily> = Vec::new();
    let b = contains_str(s, "pap-v15-2001-01-31.dtd");
    push_marker_if(
        &mut m,
        b,
        MarkerFamily {
            family: DocumentFamily::Application,
            format: Some(SourceFormat::UsptoApplicationV15),
        },
    );
    let b = contains_str(s, "pap-v16");
    push_marker_if(
        &mut m,
        b,
        MarkerFamily {
            family: DocumentFamily::Application,
            format: Some(SourceFormat::UsptoApplicationV16),
        },
    );
    let b = contains_str(s, "ST32-US-Grant-025xml.dtd") || contains_str(s, "DTD=\"2.5\"");
    push_marker_if(
        &mut m,
        b,
        MarkerFamily { family: DocumentFamily::Grant, format: Some(SourceFormat::UsptoGrantV25) },
    );
    let mut apps = application_markers_exec(s, root);
    m.append(&mut apps);
    let mut grants = grant_markers_exec(s, root);
    m.append(&mut grants);
    let b = contains_str(s, "<!DOCTYPE us-patent-application");
    push_marker_if(&mut m, b, MarkerFamily { family: DocumentFamily::Application, format: None });
    let b = contains_str(s, "<!DOCTYPE us-patent-grant") || contains_str(s, "<!DOCTYPE PATDOC");
    push_marker_if(&mut m, b, MarkerFamily { family: DocumentFamily::Grant, format: None });
    assert(m@ =~= spec_markers(s@, root));
    m
}

// ---------------------------------------------------------------------------
// Detection
// ---------------------------------------------------------------------------

/// Whether some marker belongs to a family other than the root's.
pub open spec fn has_foreign_marker(ms: Seq<MarkerFamily>, root: DocumentFamily) -> bool {
    exists|i: int| 0 <= i < ms.len() && ms[i].family != root
}

/// The formats the markers name, in order.
pub open spec fn named_formats(ms: Seq<MarkerFamily>) -> Seq<SourceFormat>
    decreases ms.len(),
{
    if ms.len() == 0 {
        Seq::empty()
    } else {
        let rest = named_formats(ms.drop_last());
        match ms.last().format {
            Some(f) => rest.push(f),
            None => rest,
        }
    }
}

/// The markers name at least two different formats.
pub open spec fn formats_disagree(fs: Seq<SourceFormat>) -> bool {
    exists|i: int, j: int| 0 <= i < fs.len() && 0 <= j < fs.len() && fs[i] != fs[j]
}

pub open spec fn spec_detect_source_format(input: Seq<char>) -> Result<SourceFormat, DetectErrorView> {
    if trim(input).len() == 0 {
        Err(DetectErrorView::MalformedXml)
    } else if spec_is_aps_green_book(input) {
        Ok(SourceFormat::UsptoGrantApsGreenBook)
    } else {
        match spec_root_family(input) {
            Err(e) => Err(e),
            Ok(root) => {
                let ms = spec_markers(input, root);
                let fs = named_formats(ms);
                if has_foreign_marker(ms, root) {
                    Err(DetectErrorView::ConflictingVersionMarkers)
                } else if formats_disagree(fs) {
                    Err(DetectErrorView::ConflictingVersionMarkers)
                } else if fs.len() == 0 {
                    Err(DetectErrorView::UnknownFormat)
                } else {
                    Ok(fs[0])
                }
            },
        }
    }
}

/// Detect the source format of `input`: APS text first, then the XML root
/// family and schema-version markers, which must all agree.
pub fn detect_source_format(input: &str) -> (r: Result<SourceFormat, DetectError>)
    ensures
        detect_view(r) == spec_detect_source_format(input@),
{
    let cs = chars_of(input);
    proof {
        lemma_trim_empty_iff_blank(input@);
    }
    if is_blank_chars(cs.as_slice()) {
        return Err(DetectError::MalformedXml);
    }
    if is_aps_green_book(input) {
        return Ok(SourceFormat::UsptoGrantApsGreenBook);
    }
    let root_family = match detect_root_family(input) {
        Ok(f) => f,
        Err(e) => {
            return Err(e);
        },
    };
    let markers = detect_markers(cs.as_slice(), root_family);
    let ghost ms = markers@;
    assert(cs@ == input@);

    let mut i: usize = 0;
    while i < markers.len()
        invariant
            i <= markers.len(),
            ms == markers@,
            trim(input@).len() != 0,
            !spec_is_aps_green_book(input@),
            spec_root_family(input@) == Ok::<DocumentFamily, DetectErrorView>(root_family),
            ms == spec_markers(input@, root_family),
            forall|j: int| 0 <= j < i ==> (#[trigger] markers@[j]).family == root_family,
        decreases markers.len() - i,
    {
        if markers[i].family != root_family {
            assert(ms[i as int].family != root_family);
            return Err(DetectError::ConflictingVersionMarkers);
        }
        i += 1;
    }
    assert(!has_foreign_marker(ms, root_family));

    let mut detected: Option<SourceFormat> = None;
    let mut k: usize = 0;
    while k < markers.len()
        invariant
            k <= markers.len(),
            ms == markers@,
            trim(input@).len() != 0,
            !spec_is_aps_green_book(input@),
            spec_root_family(input@) == Ok::<DocumentFamily, DetectErrorView>(root_family),
            ms == spec_markers(input@, root_family),
            !has_foreign_marker(ms, root_family),
            detected is None <==> named_formats(ms.take(k as int)).len() == 0,
            detected matches Some(f) ==> forall|j: int|
                0 <= j < named_formats(ms.take(k as int)).len() ==> #[trigger] named_formats(
                    ms.take(k as int),
                )[j] == f,
        decreases markers.len() - k,
    {
        let ghost prev = named_formats(ms.take(k as int));
        assert(ms.take(k + 1).drop_last() =~= ms.take(k as int));
        if let Some(format) = markers[k].format {
            if let Some(existing) = detected {
                if existing != format {
                    proof {
                        let cur = named_formats(ms.take(k + 1));
                        assert(cur == prev.push(format));
                        assert(cur[0] == existing);
                        assert(cur[cur.len() - 1] == format);
                        lemma_named_formats_prefix(ms, k as int + 1);
                    }
                    return Err(DetectError::ConflictingVersionMarkers);
                }
            }
            detected = Some(format);
        }
        k += 1;
    }
    assert(ms.take(markers.len() as int) =~= ms);
    match detected {
        Some(f) => {
            assert(named_formats(ms)[0] == f);
            Ok(f)
        },
        None => Err(DetectError::UnknownFormat),
    }
}

/// A disagreement among the formats of a prefix is a disagreement overall.
proof fn lemma_named_formats_prefix(ms: Seq<MarkerFamily>, k: int)
    requires
        0 <= k <= ms.len(),
        formats_disagree(named_formats(ms.take(k))),
    ensures
        formats_disagree(named_formats(ms)),
    decreases ms.len() - k,
{
    if k < ms.len() {
        assert(ms.take(k + 1).drop_last() =~= ms.take(k));
        let a = named_formats(ms.take(k));
        let b = named_formats(ms.take(k + 1));
        let (i, j) = choose|i: int, j: int| 0 <= i < a.len() && 0 <= j < a.len() && a[i] != a[j];
        assert(b[i] == a[i] && b[j] == a[j]);
        lemma_named_formats_prefix(ms, k + 1);
    } else {
        assert(ms.take(k) =~= ms);
    }
}

// ---------------------------------------------------------------------------
// What detection can give
// ---------------------------------------------------------------------------

/// No marker names the APS format.
pub open spec fn no_aps_marker(ms: Seq<MarkerFamily>) -> bool {
    forall|i: int|
        0 <= i < ms.len() ==> #[trigger] ms[i].format != Some(SourceFormat::UsptoGrantApsGreenBook)
}

proof fn lemma_no_aps_concat(a: Seq<MarkerFamily>, b: Seq<MarkerFamily>)
    requires
        no_aps_marker(a),
        no_aps_marker(b),
    ensures
        no_aps_marker(a + b),
{
    assert forall|i: int| 0 <= i < (a + b).len() implies #[trigger] (a + b)[i].format != Some(
        SourceFormat::UsptoGrantApsGreenBook,
    ) by {
        if i < a.len() {
            assert((a + b)[i] == a[i]);
        } else {
            assert((a + b)[i] == b[i - a.len()]);
        }
    }
}

proof fn lemma_opt_no_aps(present: bool, m: MarkerFamily)
    requires
        m.format != Some(SourceFormat::UsptoGrantApsGreenBook),
    ensures
        no_aps_marker(opt_marker(present, m)),
{
}

proof fn lemma_application_markers_no_aps(s: Seq<char>, root: DocumentFamily)
    ensures
        no_aps_marker(application_markers(s, root)),
{
    reveal(application_markers);
    let a = DocumentFamily::Application;
    let a1 = opt_marker(versioned(s, root, a, "us-patent-application-v40"@, "dtd-version=\"v4.0"@), marker(a, SourceFormat::UsptoApplicationV40));
    let a2 = opt_marker(versioned(s, root, a, "us-patent-application-v41"@, "dtd-version=\"v4.1"@), marker(a, SourceFormat::UsptoApplicationV41));
    let a3 = opt_marker(versioned(s, root, a, "us-patent-application-v42"@, "dtd-version=\"v4.2"@), marker(a, SourceFormat::UsptoApplicationV42));
    let a4 = opt_marker(versioned(s, root, a, "us-patent-application-v43"@, "dtd-version=\"v4.3"@), marker(a, SourceFormat::UsptoApplicationV43));
    let a5 = opt_marker(versioned(s, root, a, "us-patent-application-v44"@, "dtd-version=\"v4.4"@), marker(a, SourceFormat::UsptoApplicationV44));
    let a6 = opt_marker(versioned(s, root, a, "us-patent-application-v45"@, "dtd-version=\"v4.5"@), marker(a, SourceFormat::UsptoApplicationV45));
    let a7 = opt_marker(versioned(s, root, a, "us-patent-application-v46"@, "dtd-version=\"v4.6"@), marker(a, SourceFormat::UsptoApplicationV46));
    lemma_no_aps_concat(a1, a2);
    lemma_no_aps_concat(a1 + a2, a3);
    lemma_no_aps_concat(a1 + a2 + a3, a4);
    lemma_no_aps_concat(a1 + a2 + a3 + a4, a5);
    lemma_no_aps_concat(a1 + a2 + a3 + a4 + a5, a6);
    lemma_no_aps_concat(a1 + a2 + a3 + a4 + a5 + a6, a7);
    assert(application_markers(s, root) == a1 + a2 + a3 + a4 + a5 + a6 + a7);
}

proof fn lemma_grant_markers_no_aps(s: Seq<char>, root: DocumentFamily)
    ensures
        no_aps_marker(grant_markers(s, root)),
{
    reveal(grant_markers);
    let g = DocumentFamily::Grant;
    let g1 = opt_marker(versioned(s, root, g, "us-patent-grant-v40"@, "dtd-version=\"v40"@), marker(g, SourceFormat::UsptoGrantV40));
    let g2 = opt_marker(versioned(s, root, g, "us-patent-grant-v41"@, "dtd-version=\"v4.1"@), marker(g, SourceFormat::UsptoGrantV41));
    let g3 = opt_marker(versioned(s, root, g, "us-patent-grant-v42"@, "dtd-version=\"v4.2"@), marker(g, SourceFormat::UsptoGrantV42));
    let g4 = opt_marker(versioned(s, root, g, "us-patent-grant-v43"@, "dtd-version=\"v4.3"@), marker(g, SourceFormat::UsptoGrantV43));
    let g5 = opt_marker(versioned(s, root, g, "us-patent-grant-v44"@, "dtd-version=\"v4.4"@), marker(g, SourceFormat::UsptoGrantV44));
    let g6 = opt_marker(versioned(s, root, g, "us-patent-grant-v45"@, "dtd-version=\"v4.5"@), marker(g, SourceFormat::UsptoGrantV45));
    let g7 = opt_marker(versioned(s, root, g, "us-patent-grant-v46"@, "dtd-version=\"v4.6"@), marker(g, SourceFormat::UsptoGrantV46));
    let g8 = opt_marker(versioned(s, root, g, "us-patent-grant-v47"@, "dtd-version=\"v4.7"@), marker(g, SourceFormat::UsptoGrantV47));
    lemma_no_aps_concat(g1, g2);
    lemma_no_aps_concat(g1 + g2, g3);
    lemma_no_aps_concat(g1 + g2 + g3, g4);
    lemma_no_aps_concat(g1 + g2 + g3 + g4, g5);
    lemma_no_aps_concat(g1 + g2 + g3 + g4 + g5, g6);
    lemma_no_aps_concat(g1 + g2 + g3 + g4 + g5 + g6, g7);
    lemma_no_aps_concat(g1 + g2 + g3 + g4 + g5 + g6 + g7, g8);
    assert(grant_markers(s, root) == g1 + g2 + g3 + g4 + g5 + g6 + g7 + g8);
}

proof fn lemma_markers_no_aps(s: Seq<char>, root: DocumentFamily)
    ensures
        no_aps_marker(spec_markers(s, root)),
{
    reveal(spec_markers);
    let a = DocumentFamily::Application;
    let g = DocumentFamily::Grant;
    let am = application_markers(s, root);
    let gm = grant_markers(s, root);
    lemma_application_markers_no_aps(s, root);
    lemma_grant_markers_no_aps(s, root);
    let p1 = opt_marker(contains(s, "pap-v15-2001-01-31.dtd"@), marker(a, SourceFormat::UsptoApplicationV15));
    let p2 = opt_marker(contains(s, "pap-v16"@), marker(a, SourceFormat::UsptoApplicationV16));
    let p3 = opt_marker(contains(s, "ST32-US-Grant-025xml.dtd"@) || contains(s, "DTD=\"2.5\""@), marker(g, SourceFormat::UsptoGrantV25));
    let p4 = opt_marker(contains(s, "<!DOCTYPE us-patent-application"@), MarkerFamily { family: a, format: None });
    let p5 = opt_marker(contains(s, "<!DOCTYPE us-patent-grant"@) || contains(s, "<!DOCTYPE PATDOC"@), MarkerFamily { family: g, format: None });
    lemma_no_aps_concat(p1, p2);
    lemma_no_aps_concat(p1 + p2, p3);
    lemma_no_aps_concat(p1 + p2 + p3, am);
    lemma_no_aps_concat(p1 + p2 + p3 + am, gm);
    lemma_no_aps_concat(p1 + p2 + p3 + am + gm, p4);
    lemma_no_aps_concat(p1 + p2 + p3 + am + gm + p4, p5);
    assert(spec_markers(s, root) == p1 + p2 + p3 + am + gm + p4 + p5);
}

proof fn lemma_named_no_aps(ms: Seq<MarkerFamily>)
    requires
        no_aps_marker(ms),
    ensures
        forall|i: int|
            0 <= i < named_formats(ms).len() ==> #[trigger] named_formats(ms)[i]
                != SourceFormat::UsptoGrantApsGreenBook,
    decreases ms.len(),
{
    if ms.len() > 0 {
        assert(no_aps_marker(ms.drop_last())) by {
            assert forall|i: int| 0 <= i < ms.drop_last().len() implies #[trigger] ms.drop_last()[i].format
                != Some(SourceFormat::UsptoGrantApsGreenBook) by {
                assert(ms.drop_last()[i] == ms[i]);
            }
        }
        lemma_named_no_aps(ms.drop_last());
        assert(ms[ms.len() - 1].format != Some(SourceFormat::UsptoGrantApsGreenBook));
    }
}

proof fn lemma_blank_lines(s: Seq<char>)
    requires
        is_blank(s),
    ensures
        forall|k: int| 0 <= k < lines(s).len() ==> is_blank(#[trigger] lines(s)[k]),
    decreases s.len(),
{
    if s.len() > 0 {
        match find_char_from(s, '\n', 0) {
            Some(k) => {
                if 0 <= k < s.len() {
                    let rest = s.subrange(k + 1, s.len() as int);
                    assert(is_blank(rest)) by {
                        assert forall|i: int| 0 <= i < rest.len() implies is_ws(#[trigger] rest[i]) by {
                            assert(rest[i] == s[i + k + 1]);
                        }
                    }
                    lemma_blank_lines(rest);
                    let head = s.subrange(0, k);
                    let first = strip_cr(head);
                    assert(is_blank(first)) by {
                        assert forall|i: int| 0 <= i < first.len() implies is_ws(#[trigger] first[i]) by {
                            assert(first[i] == head[i]);
                            assert(head[i] == s[i]);
                        }
                    }
                    assert forall|j: int| 0 <= j < lines(s).len() implies is_blank(#[trigger] lines(s)[j]) by {
                        if j > 0 {
                            assert(lines(s)[j] == lines(rest)[j - 1]);
                        }
                    }
                }
            },
            None => {},
        }
    }
}

proof fn lemma_first_nonblank(ls: Seq<Seq<char>>, i: int)
    requires
        first_nonblank_line(ls, i) is Some,
    ensures
        0 <= first_nonblank_line(ls, i)->0 < ls.len(),
        trim(ls[first_nonblank_line(ls, i)->0]).len() != 0,
    decreases ls.len() - i,
{
    if 0 <= i < ls.len() && trim(ls[i]).len() == 0 {
        lemma_first_nonblank(ls, i + 1);
    }
}

/// Blank input is malformed XML, and detection gives the APS format exactly
/// when the APS test holds: no XML clue ever names it.
pub proof fn law_aps_detection(input: Seq<char>)
    ensures
        trim(input).len() == 0 ==> spec_detect_source_format(input) == Err::<
            SourceFormat,
            DetectErrorView,
        >(DetectErrorView::MalformedXml),
        (spec_detect_source_format(input) == Ok::<SourceFormat, DetectErrorView>(
            SourceFormat::UsptoGrantApsGreenBook,
        )) == spec_is_aps_green_book(input),
{
    reveal(spec_is_aps_green_book);
    if spec_is_aps_green_book(input) {
        let ls = lines(input);
        lemma_first_nonblank(ls, 0);
        let k = first_nonblank_line(ls, 0)->0;
        lemma_trim_empty_iff_blank(ls[k]);
        lemma_trim_empty_iff_blank(input);
        if trim(input).len() == 0 {
            lemma_blank_lines(input);
            assert(is_blank(ls[k]));
        }
    } else if trim(input).len() != 0 {
        match spec_root_family(input) {
            Err(e) => {},
            Ok(root) => {
                let ms = spec_markers(input, root);
                lemma_markers_no_aps(input, root);
                lemma_named_no_aps(ms);
                let fs = named_formats(ms);
                if fs.len() > 0 {
                    assert(fs[0] != SourceFormat::UsptoGrantApsGreenBook);
                }
            },
        }
    }
}

// ---------------------------------------------------------------------------
// The detected version is named by the text
// ---------------------------------------------------------------------------

/// The family whose documents carry the schema of `f`.
pub open spec fn format_family(f: SourceFormat) -> DocumentFamily {
    match f {
        SourceFormat::UsptoApplicationV15 | SourceFormat::UsptoApplicationV16
        | SourceFormat::UsptoApplicationV40 | SourceFormat::UsptoApplicationV41
        | SourceFormat::UsptoApplicationV42 | SourceFormat::UsptoApplicationV43
        | SourceFormat::UsptoApplicationV44 | SourceFormat::UsptoApplicationV45
        | SourceFormat::UsptoApplicationV46 => DocumentFamily::Application,
        _ => DocumentFamily::Grant,
    }
}

/// The text carries the DTD name of `f` (for the version 2.5 grant also its
/// `DTD="2.5"` attribute; for APS text, its header or record line).
pub open spec fn schema_named(s: Seq<char>, f: SourceFormat) -> bool {
    match f {
        SourceFormat::UsptoApplicationV15 => contains(s, "pap-v15-2001-01-31.dtd"@),
        SourceFormat::UsptoApplicationV16 => contains(s, "pap-v16"@),
        SourceFormat::UsptoApplicationV40 => contains(s, "us-patent-application-v40"@),
        SourceFormat::UsptoApplicationV41 => contains(s, "us-patent-application-v41"@),
        SourceFormat::UsptoApplicationV42 => contains(s, "us-patent-application-v42"@),
        SourceFormat::UsptoApplicationV43 => contains(s, "us-patent-application-v43"@),
        SourceFormat::UsptoApplicationV44 => contains(s, "us-patent-application-v44"@),
        SourceFormat::UsptoApplicationV45 => contains(s, "us-patent-application-v45"@),
        SourceFormat::UsptoApplicationV46 => contains(s, "us-patent-application-v46"@),
        SourceFormat::UsptoGrantV25 => contains(s, "ST32-US-Grant-025xml.dtd"@) || contains(s, "DTD=\"2.5\""@),
        SourceFormat::UsptoGrantV40 => contains(s, "us-patent-grant-v40"@),
        SourceFormat::UsptoGrantV41 => contains(s, "us-patent-grant-v41"@),
        SourceFormat::UsptoGrantV42 => contains(s, "us-patent-grant-v42"@),
        SourceFormat::UsptoGrantV43 => contains(s, "us-patent-grant-v43"@),
        SourceFormat::UsptoGrantV44 => contains(s, "us-patent-grant-v44"@),
        SourceFormat::UsptoGrantV45 => contains(s, "us-patent-grant-v45"@),
        SourceFormat::UsptoGrantV46 => contains(s, "us-patent-grant-v46"@),
        SourceFormat::UsptoGrantV47 => contains(s, "us-patent-grant-v47"@),
        SourceFormat::UsptoGrantApsGreenBook => spec_is_aps_green_book(s),
    }
}

/// The text carries a `dtd-version` attribute of the version number of `f`
/// (only the 4.x schemas have one).
pub open spec fn dtd_version_named(s: Seq<char>, f: SourceFormat) -> bool {
    match f {
        SourceFormat::UsptoApplicationV40 => contains(s, "dtd-version=\"v4.0"@),
        SourceFormat::UsptoApplicationV41 => contains(s, "dtd-version=\"v4.1"@),
        SourceFormat::UsptoApplicationV42 => contains(s, "dtd-version=\"v4.2"@),
        SourceFormat::UsptoApplicationV43 => contains(s, "dtd-version=\"v4.3"@),
        SourceFormat::UsptoApplicationV44 => contains(s, "dtd-version=\"v4.4"@),
        SourceFormat::UsptoApplicationV45 => contains(s, "dtd-version=\"v4.5"@),
        SourceFormat::UsptoApplicationV46 => contains(s, "dtd-version=\"v4.6"@),
        SourceFormat::UsptoGrantV40 => contains(s, "dtd-version=\"v40"@),
        SourceFormat::UsptoGrantV41 => contains(s, "dtd-version=\"v4.1"@),
        SourceFormat::UsptoGrantV42 => contains(s, "dtd-version=\"v4.2"@),
        SourceFormat::UsptoGrantV43 => contains(s, "dtd-version=\"v4.3"@),
        SourceFormat::UsptoGrantV44 => contains(s, "dtd-version=\"v4.4"@),
        SourceFormat::UsptoGrantV45 => contains(s, "dtd-version=\"v4.5"@),
        SourceFormat::UsptoGrantV46 => contains(s, "dtd-version=\"v4.6"@),
        SourceFormat::UsptoGrantV47 => contains(s, "dtd-version=\"v4.7"@),
        _ => false,
    }
}

/// The text names the schema version of `f`: by its DTD name, or by a
/// `dtd-version` of that number.
pub open spec fn version_named(s: Seq<char>, f: SourceFormat) -> bool {
    schema_named(s, f) || dtd_version_named(s, f)
}

/// Every format a marker names is named by the text.
pub open spec fn markers_named(s: Seq<char>, ms: Seq<MarkerFamily>) -> bool {
    forall|i: int|
        0 <= i < ms.len() ==> ((#[trigger] ms[i]).format matches Some(f) ==> version_named(s, f))
}

proof fn lemma_named_concat(s: Seq<char>, a: Seq<MarkerFamily>, b: Seq<MarkerFamily>)
    requires
        markers_named(s, a),
        markers_named(s, b),
    ensures
        markers_named(s, a + b),
{
    assert forall|i: int| 0 <= i < (a + b).len() implies ((#[trigger] (a + b)[i]).format matches Some(f)
        ==> version_named(s, f)) by {
        if i < a.len() {
            assert((a + b)[i] == a[i]);
        } else {
            assert((a + b)[i] == b[i - a.len()]);
        }
    }
}

proof fn lemma_application_markers_named(s: Seq<char>, root: DocumentFamily)
    ensures
        markers_named(s, application_markers(s, root)),
{
    reveal(application_markers);
    let a = DocumentFamily::Application;
    let a1 = opt_marker(versioned(s, root, a, "us-patent-application-v40"@, "dtd-version=\"v4.0"@), marker(a, SourceFormat::UsptoApplicationV40));
    let a2 = opt_marker(versioned(s, root, a, "us-patent-application-v41"@, "dtd-version=\"v4.1"@), marker(a, SourceFormat::UsptoApplicationV41));
    let a3 = opt_marker(versioned(s, root, a, "us-patent-application-v42"@, "dtd-version=\"v4.2"@), marker(a, SourceFormat::UsptoApplicationV42));
    let a4 = opt_marker(versioned(s, root, a, "us-patent-application-v43"@, "dtd-version=\"v4.3"@), marker(a, SourceFormat::UsptoApplicationV43));
    let a5 = opt_marker(versioned(s, root, a, "us-patent-application-v44"@, "dtd-version=\"v4.4"@), marker(a, SourceFormat::UsptoApplicationV44));
    let a6 = opt_marker(versioned(s, root, a, "us-patent-application-v45"@, "dtd-version=\"v4.5"@), marker(a, SourceFormat::UsptoApplicationV45));
    let a7 = opt_marker(versioned(s, root, a, "us-patent-application-v46"@, "dtd-version=\"v4.6"@), marker(a, SourceFormat::UsptoApplicationV46));
    lemma_named_concat(s, a1, a2);
    lemma_named_concat(s, a1 + a2, a3);
    lemma_named_concat(s, a1 + a2 + a3, a4);
    lemma_named_concat(s, a1 + a2 + a3 + a4, a5);
    lemma_named_concat(s, a1 + a2 + a3 + a4 + a5, a6);
    lemma_named_concat(s, a1 + a2 + a3 + a4 + a5 + a6, a7);
    assert(application_markers(s, root) == a1 + a2 + a3 + a4 + a5 + a6 + a7);
}

proof fn lemma_grant_markers_named(s: Seq<char>, root: DocumentFamily)
    ensures
        markers_named(s, grant_markers(s, root)),
{
    reveal(grant_markers);
    let g = DocumentFamily::Grant;
    let g1 = opt_marker(versioned(s, root, g, "us-patent-grant-v40"@, "dtd-version=\"v40"@), marker(g, SourceFormat::UsptoGrantV40));
    let g2 = opt_marker(versioned(s, root, g, "us-patent-grant-v41"@, "dtd-version=\"v4.1"@), marker(g, SourceFormat::UsptoGrantV41));
    let g3 = opt_marker(versioned(s, root, g, "us-patent-grant-v42"@, "dtd-version=\"v4.2"@), marker(g, SourceFormat::UsptoGrantV42));
    let g4 = opt_marker(versioned(s, root, g, "us-patent-grant-v43"@, "dtd-version=\"v4.3"@), marker(g, SourceFormat::UsptoGrantV43));
    let g5 = opt_marker(versioned(s, root, g, "us-patent-grant-v44"@, "dtd-version=\"v4.4"@), marker(g, SourceFormat::UsptoGrantV44));
    let g6 = opt_marker(versioned(s, root, g, "us-patent-grant-v45"@, "dtd-version=\"v4.5"@), marker(g, SourceFormat::UsptoGrantV45));
    let g7 = opt_marker(versioned(s, root, g, "us-patent-grant-v46"@, "dtd-version=\"v4.6"@), marker(g, SourceFormat::UsptoGrantV46));
    let g8 = opt_marker(versioned(s, root, g, "us-patent-grant-v47"@, "dtd-version=\"v4.7"@), marker(g, SourceFormat::UsptoGrantV47));
    lemma_named_concat(s, g1, g2);
    lemma_named_concat(s, g1 + g2, g3);
    lemma_named_concat(s, g1 + g2 + g3, g4);
    lemma_named_concat(s, g1 + g2 + g3 + g4, g5);
    lemma_named_concat(s, g1 + g2 + g3 + g4 + g5, g6);
    lemma_named_concat(s, g1 + g2 + g3 + g4 + g5 + g6, g7);
    lemma_named_concat(s, g1 + g2 + g3 + g4 + g5 + g6 + g7, g8);
    assert(grant_markers(s, root) == g1 + g2 + g3 + g4 + g5 + g6 + g7 + g8);
}

proof fn lemma_markers_named(s: Seq<char>, root: DocumentFamily)
    ensures
        markers_named(s, spec_markers(s, root)),
{
    reveal(spec_markers);
    let a = DocumentFamily::Application;
    let g = DocumentFamily::Grant;
    let am = application_markers(s, root);
    let gm = grant_markers(s, root);
    lemma_application_markers_named(s, root);
    lemma_grant_markers_named(s, root);
    let p1 = opt_marker(contains(s, "pap-v15-2001-01-31.dtd"@), marker(a, SourceFormat::UsptoApplicationV15));
    let p2 = opt_marker(contains(s, "pap-v16"@), marker(a, SourceFormat::UsptoApplicationV16));
    let p3 = opt_marker(contains(s, "ST32-US-Grant-025xml.dtd"@) || contains(s, "DTD=\"2.5\""@), marker(g, SourceFormat::UsptoGrantV25));
    let p4 = opt_marker(contains(s, "<!DOCTYPE us-patent-application"@), MarkerFamily { family: a, format: None });
    let p5 = opt_marker(contains(s, "<!DOCTYPE us-patent-grant"@) || contains(s, "<!DOCTYPE PATDOC"@), MarkerFamily { family: g, format: None });
    lemma_named_concat(s, p1, p2);
    lemma_named_concat(s, p1 + p2, p3);
    lemma_named_concat(s, p1 + p2 + p3, am);
    lemma_named_concat(s, p1 + p2 + p3 + am, gm);
    lemma_named_concat(s, p1 + p2 + p3 + am + gm, p4);
    lemma_named_concat(s, p1 + p2 + p3 + am + gm + p4, p5);
    assert(spec_markers(s, root) == p1 + p2 + p3 + am + gm + p4 + p5);
}

proof fn lemma_named_formats_named(s: Seq<char>, ms: Seq<MarkerFamily>)
    requires
        markers_named(s, ms),
    ensures
        forall|i: int|
            0 <= i < named_formats(ms).len() ==> version_named(s, #[trigger] named_formats(ms)[i]),
    decreases ms.len(),
{
    if ms.len() > 0 {
        assert(markers_named(s, ms.drop_last())) by {
            assert forall|i: int| 0 <= i < ms.drop_last().len() implies ((#[trigger] ms.drop_last()[i]).format matches Some(f)
                ==> version_named(s, f)) by {
                assert(ms.drop_last()[i] == ms[i]);
            }
        }
        lemma_named_formats_named(s, ms.drop_last());
        let rest = named_formats(ms.drop_last());
        assert(ms[ms.len() - 1] == ms.last());
        if let Some(f) = ms.last().format {
            assert(version_named(s, f));
            assert(named_formats(ms) == rest.push(f));
            assert forall|i: int| 0 <= i < rest.push(f).len() implies version_named(s, #[trigger] rest.push(f)[i]) by {
                if i < rest.len() {
                    assert(rest.push(f)[i] == rest[i]);
                }
            }
        } else {
            assert(named_formats(ms) == rest);
        }
    }
}

/// Whatever format detection gives is named by the text itself: a version
/// is never reported that the text does not name.
pub proof fn law_detected_version_is_named(input: Seq<char>)
    ensures
        (spec_detect_source_format(input) matches Ok(f) ==> version_named(input, f)),
{
    if trim(input).len() != 0 && !spec_is_aps_green_book(input) {
        match spec_root_family(input) {
            Err(e) => {},
            Ok(root) => {
                let ms = spec_markers(input, root);
                lemma_markers_named(input, root);
                lemma_named_formats_named(input, ms);
            },
        }
    }
}

// ---------------------------------------------------------------------------
// A text that names one version is detected as that version
// ---------------------------------------------------------------------------

/// The text carries the DOCTYPE of a document of family `fam`.
pub open spec fn doctype_named(s: Seq<char>, fam: DocumentFamily) -> bool {
    match fam {
        DocumentFamily::Application => contains(s, "<!DOCTYPE us-patent-application"@),
        DocumentFamily::Grant => contains(s, "<!DOCTYPE us-patent-grant"@) || contains(s, "<!DOCTYPE PATDOC"@),
    }
}

/// The text names version `f` of family `root` and no other version of that
/// family, and carries no DTD name or DOCTYPE of the other family.
pub open spec fn names_one_version(s: Seq<char>, root: DocumentFamily, f: SourceFormat) -> bool {
    &&& format_family(f) == root
    &&& version_named(s, f)
    &&& forall|g: SourceFormat| g != f && format_family(g) == root ==> !#[trigger] version_named(s, g)
    &&& forall|g: SourceFormat| format_family(g) != root ==> !#[trigger] schema_named(s, g)
    &&& forall|fam: DocumentFamily| fam != root ==> !#[trigger] doctype_named(s, fam)
}

/// Every marker belongs to `root` and names `f` or no format.
spec fn markers_fit(ms: Seq<MarkerFamily>, root: DocumentFamily, f: SourceFormat) -> bool {
    forall|i: int|
        0 <= i < ms.len() ==> (#[trigger] ms[i]).family == root && (ms[i].format is None
            || ms[i].format == Some(f))
}

proof fn lemma_fit_concat(a: Seq<MarkerFamily>, b: Seq<MarkerFamily>, root: DocumentFamily, f: SourceFormat)
    requires
        markers_fit(a, root, f),
        markers_fit(b, root, f),
    ensures
        markers_fit(a + b, root, f),
{
    assert forall|i: int| 0 <= i < (a + b).len() implies (#[trigger] (a + b)[i]).family == root && ((a
        + b)[i].format is None || (a + b)[i].format == Some(f)) by {
        if i < a.len() {
            assert((a + b)[i] == a[i]);
        } else {
            assert((a + b)[i] == b[i - a.len()]);
        }
    }
}

proof fn lemma_opt_fit(c: bool, m: MarkerFamily, root: DocumentFamily, f: SourceFormat)
    requires
        c ==> m.family == root && (m.format is None || m.format == Some(f)),
    ensures
        markers_fit(opt_marker(c, m), root, f),
{
}

proof fn lemma_named_formats_concat(a: Seq<MarkerFamily>, b: Seq<MarkerFamily>)
    ensures
        named_formats(a + b) == named_formats(a) + named_formats(b),
    decreases b.len(),
{
    if b.len() == 0 {
        assert(a + b =~= a);
        assert(named_formats(a) + named_formats(b) =~= named_formats(a));
    } else {
        lemma_named_formats_concat(a, b.drop_last());
        assert((a + b).drop_last() =~= a + b.drop_last());
        assert((a + b).last() == b.last());
        match b.last().format {
            Some(g) => {
                assert((named_formats(a) + named_formats(b.drop_last())).push(g) =~= named_formats(a)
                    + named_formats(b.drop_last()).push(g));
            },
            None => {},
        }
    }
}

proof fn lemma_named_formats_opt(c: bool, m: MarkerFamily)
    ensures
        named_formats(opt_marker(c, m)).len() == (if c && m.format is Some { 1int } else { 0int }),
{
    assert(named_formats(Seq::<MarkerFamily>::empty()).len() == 0);
    if c {
        assert(opt_marker(c, m).drop_last() =~= Seq::<MarkerFamily>::empty());
        assert(opt_marker(c, m).last() == m);
    }
}

proof fn lemma_fit_named_formats(ms: Seq<MarkerFamily>, root: DocumentFamily, f: SourceFormat)
    requires
        markers_fit(ms, root, f),
    ensures
        forall|j: int| 0 <= j < named_formats(ms).len() ==> #[trigger] named_formats(ms)[j] == f,
    decreases ms.len(),
{
    if ms.len() > 0 {
        assert(markers_fit(ms.drop_last(), root, f)) by {
            assert forall|i: int| 0 <= i < ms.drop_last().len() implies (#[trigger] ms.drop_last()[i]).family
                == root && (ms.drop_last()[i].format is None || ms.drop_last()[i].format == Some(f)) by {
                assert(ms.drop_last()[i] == ms[i]);
            }
        }
        lemma_fit_named_formats(ms.drop_last(), root, f);
        let rest = named_formats(ms.drop_last());
        assert(ms[ms.len() - 1] == ms.last());
        if let Some(g) = ms.last().format {
            assert forall|j: int| 0 <= j < rest.push(g).len() implies #[trigger] rest.push(g)[j] == f by {
                if j < rest.len() {
                    assert(rest.push(g)[j] == rest[j]);
                }
            }
        }
    }
}

proof fn lemma_clue(s: Seq<char>, root: DocumentFamily, f: SourceFormat, g: SourceFormat)
    requires
        names_one_version(s, root, f),
    ensures
        format_family(g) == root && g != f ==> !version_named(s, g),
        format_family(g) != root ==> !schema_named(s, g),
{
}

/// The clue of a 4.x schema, present only as `names_one_version` allows.
proof fn lemma_versioned_fit(
    s: Seq<char>,
    root: DocumentFamily,
    f: SourceFormat,
    fam: DocumentFamily,
    name: Seq<char>,
    dtd: Seq<char>,
    x: SourceFormat,
)
    requires
        names_one_version(s, root, f),
        format_family(x) == fam,
        schema_named(s, x) == contains(s, name),
        version_named(s, x) == (contains(s, name) || contains(s, dtd)),
    ensures
        markers_fit(opt_marker(versioned(s, root, fam, name, dtd), marker(fam, x)), root, f),
{
    lemma_clue(s, root, f, x);
    lemma_opt_fit(versioned(s, root, fam, name, dtd), marker(fam, x), root, f);
}

proof fn lemma_application_markers_fit(s: Seq<char>, root: DocumentFamily, f: SourceFormat)
    requires
        names_one_version(s, root, f),
    ensures
        markers_fit(application_markers(s, root), root, f),
        named_formats(application_markers(s, root)).len() > 0 <== (root == DocumentFamily::Application
            && version_named(s, f) && f != SourceFormat::UsptoApplicationV15 && f
            != SourceFormat::UsptoApplicationV16),
{
    reveal(application_markers);
    let a = DocumentFamily::Application;
    let n1 = "us-patent-application-v40"@;
    let n2 = "us-patent-application-v41"@;
    let n3 = "us-patent-application-v42"@;
    let n4 = "us-patent-application-v43"@;
    let n5 = "us-patent-application-v44"@;
    let n6 = "us-patent-application-v45"@;
    let n7 = "us-patent-application-v46"@;
    let d1 = "dtd-version=\"v4.0"@;
    let d2 = "dtd-version=\"v4.1"@;
    let d3 = "dtd-version=\"v4.2"@;
    let d4 = "dtd-version=\"v4.3"@;
    let d5 = "dtd-version=\"v4.4"@;
    let d6 = "dtd-version=\"v4.5"@;
    let d7 = "dtd-version=\"v4.6"@;
    let a1 = opt_marker(versioned(s, root, a, n1, d1), marker(a, SourceFormat::UsptoApplicationV40));
    let a2 = opt_marker(versioned(s, root, a, n2, d2), marker(a, SourceFormat::UsptoApplicationV41));
    let a3 = opt_marker(versioned(s, root, a, n3, d3), marker(a, SourceFormat::UsptoApplicationV42));
    let a4 = opt_marker(versioned(s, root, a, n4, d4), marker(a, SourceFormat::UsptoApplicationV43));
    let a5 = opt_marker(versioned(s, root, a, n5, d5), marker(a, SourceFormat::UsptoApplicationV44));
    let a6 = opt_marker(versioned(s, root, a, n6, d6), marker(a, SourceFormat::UsptoApplicationV45));
    let a7 = opt_marker(versioned(s, root, a, n7, d7), marker(a, SourceFormat::UsptoApplicationV46));
    assert(application_markers(s, root) == a1 + a2 + a3 + a4 + a5 + a6 + a7);
    lemma_versioned_fit(s, root, f, a, n1, d1, SourceFormat::UsptoApplicationV40);
    lemma_versioned_fit(s, root, f, a, n2, d2, SourceFormat::UsptoApplicationV41);
    lemma_versioned_fit(s, root, f, a, n3, d3, SourceFormat::UsptoApplicationV42);
    lemma_versioned_fit(s, root, f, a, n4, d4, SourceFormat::UsptoApplicationV43);
    lemma_versioned_fit(s, root, f, a, n5, d5, SourceFormat::UsptoApplicationV44);
    lemma_versioned_fit(s, root, f, a, n6, d6, SourceFormat::UsptoApplicationV45);
    lemma_versioned_fit(s, root, f, a, n7, d7, SourceFormat::UsptoApplicationV46);
    lemma_fit_concat(a1, a2, root, f);
    lemma_fit_concat(a1 + a2, a3, root, f);
    lemma_fit_concat(a1 + a2 + a3, a4, root, f);
    lemma_fit_concat(a1 + a2 + a3 + a4, a5, root, f);
    lemma_fit_concat(a1 + a2 + a3 + a4 + a5, a6, root, f);
    lemma_fit_concat(a1 + a2 + a3 + a4 + a5 + a6, a7, root, f);
    lemma_named_formats_concat(a1, a2);
    lemma_named_formats_concat(a1 + a2, a3);
    lemma_named_formats_concat(a1 + a2 + a3, a4);
    lemma_named_formats_concat(a1 + a2 + a3 + a4, a5);
    lemma_named_formats_concat(a1 + a2 + a3 + a4 + a5, a6);
    lemma_named_formats_concat(a1 + a2 + a3 + a4 + a5 + a6, a7);
    lemma_named_formats_opt(versioned(s, root, a, n1, d1), marker(a, SourceFormat::UsptoApplicationV40));
    lemma_named_formats_opt(versioned(s, root, a, n2, d2), marker(a, SourceFormat::UsptoApplicationV41));
    lemma_named_formats_opt(versioned(s, root, a, n3, d3), marker(a, SourceFormat::UsptoApplicationV42));
    lemma_named_formats_opt(versioned(s, root, a, n4, d4), marker(a, SourceFormat::UsptoApplicationV43));
    lemma_named_formats_opt(versioned(s, root, a, n5, d5), marker(a, SourceFormat::UsptoApplicationV44));
    lemma_named_formats_opt(versioned(s, root, a, n6, d6), marker(a, SourceFormat::UsptoApplicationV45));
    lemma_named_formats_opt(versioned(s, root, a, n7, d7), marker(a, SourceFormat::UsptoApplicationV46));
}

proof fn lemma_grant_markers_fit(s: Seq<char>, root: DocumentFamily, f: SourceFormat)
    requires
        names_one_version(s, root, f),
    ensures
        markers_fit(grant_markers(s, root), root, f),
        named_formats(grant_markers(s, root)).len() > 0 <== (root == DocumentFamily::Grant
            && version_named(s, f) && f != SourceFormat::UsptoGrantV25 && f
            != SourceFormat::UsptoGrantApsGreenBook),
{
    reveal(grant_markers);
    let g = DocumentFamily::Grant;
    let n1 = "us-patent-grant-v40"@;
    let n2 = "us-patent-grant-v41"@;
    let n3 = "us-patent-grant-v42"@;
    let n4 = "us-patent-grant-v43"@;
    let n5 = "us-patent-grant-v44"@;
    let n6 = "us-patent-grant-v45"@;
    let n7 = "us-patent-grant-v46"@;
    let n8 = "us-patent-grant-v47"@;
    let d1 = "dtd-version=\"v40"@;
    let d2 = "dtd-version=\"v4.1"@;
    let d3 = "dtd-version=\"v4.2"@;
    let d4 = "dtd-version=\"v4.3"@;
    let d5 = "dtd-version=\"v4.4"@;
    let d6 = "dtd-version=\"v4.5"@;
    let d7 = "dtd-version=\"v4.6"@;
    let d8 = "dtd-version=\"v4.7"@;
    let g1 = opt_marker(versioned(s, root, g, n1, d1), marker(g, SourceFormat::UsptoGrantV40));
    let g2 = opt_marker(versioned(s, root, g, n2, d2), marker(g, SourceFormat::UsptoGrantV41));
    let g3 = opt_marker(versioned(s, root, g, n3, d3), marker(g, SourceFormat::UsptoGrantV42));
    let g4 = opt_marker(versioned(s, root, g, n4, d4), marker(g, SourceFormat::UsptoGrantV43));
    let g5 = opt_marker(versioned(s, root, g, n5, d5), marker(g, SourceFormat::UsptoGrantV44));
    let g6 = opt_marker(versioned(s, root, g, n6, d6), marker(g, SourceFormat::UsptoGrantV45));
    let g7 = opt_marker(versioned(s, root, g, n7, d7), marker(g, SourceFormat::UsptoGrantV46));
    let g8 = opt_marker(versioned(s, root, g, n8, d8), marker(g, SourceFormat::UsptoGrantV47));
    assert(grant_markers(s, root) == g1 + g2 + g3 + g4 + g5 + g6 + g7 + g8);
    lemma_versioned_fit(s, root, f, g, n1, d1, SourceFormat::UsptoGrantV40);
    lemma_versioned_fit(s, root, f, g, n2, d2, SourceFormat::UsptoGrantV41);
    lemma_versioned_fit(s, root, f, g, n3, d3, SourceFormat::UsptoGrantV42);
    lemma_versioned_fit(s, root, f, g, n4, d4, SourceFormat::UsptoGrantV43);
    lemma_versioned_fit(s, root, f, g, n5, d5, SourceFormat::UsptoGrantV44);
    lemma_versioned_fit(s, root, f, g, n6, d6, SourceFormat::UsptoGrantV45);
    lemma_versioned_fit(s, root, f, g, n7, d7, SourceFormat::UsptoGrantV46);
    lemma_versioned_fit(s, root, f, g, n8, d8, SourceFormat::UsptoGrantV47);
    lemma_fit_concat(g1, g2, root, f);
    lemma_fit_concat(g1 + g2, g3, root, f);
    lemma_fit_concat(g1 + g2 + g3, g4, root, f);
    lemma_fit_concat(g1 + g2 + g3 + g4, g5, root, f);
    lemma_fit_concat(g1 + g2 + g3 + g4 + g5, g6, root, f);
    lemma_fit_concat(g1 + g2 + g3 + g4 + g5 + g6, g7, root, f);
    lemma_fit_concat(g1 + g2 + g3 + g4 + g5 + g6 + g7, g8, root, f);
    lemma_named_formats_concat(g1, g2);
    lemma_named_formats_concat(g1 + g2, g3);
    lemma_named_formats_concat(g1 + g2 + g3, g4);
    lemma_named_formats_concat(g1 + g2 + g3 + g4, g5);
    lemma_named_formats_concat(g1 + g2 + g3 + g4 + g5, g6);
    lemma_named_formats_concat(g1 + g2 + g3 + g4 + g5 + g6, g7);
    lemma_named_formats_concat(g1 + g2 + g3 + g4 + g5 + g6 + g7, g8);
    lemma_named_formats_opt(versioned(s, root, g, n1, d1), marker(g, SourceFormat::UsptoGrantV40));
    lemma_named_formats_opt(versioned(s, root, g, n2, d2), marker(g, SourceFormat::UsptoGrantV41));
    lemma_named_formats_opt(versioned(s, root, g, n3, d3), marker(g, SourceFormat::UsptoGrantV42));
    lemma_named_formats_opt(versioned(s, root, g, n4, d4), marker(g, SourceFormat::UsptoGrantV43));
    lemma_named_formats_opt(versioned(s, root, g, n5, d5), marker(g, SourceFormat::UsptoGrantV44));
    lemma_named_formats_opt(versioned(s, root, g, n6, d6), marker(g, SourceFormat::UsptoGrantV45));
    lemma_named_formats_opt(versioned(s, root, g, n7, d7), marker(g, SourceFormat::UsptoGrantV46));
    lemma_named_formats_opt(versioned(s, root, g, n8, d8), marker(g, SourceFormat::UsptoGrantV47));
}

/// A text whose root is of one family, which names one version of that
/// family (by its DTD name or by a `dtd-version` of that number) and no
/// other, and carries no DTD name or DOCTYPE of the other family, is
/// detected as that version.
pub proof fn law_single_named_version_is_detected(input: Seq<char>, root: DocumentFamily, f: SourceFormat)
    requires
        trim(input).len() > 0,
        !spec_is_aps_green_book(input),
        spec_root_family(input) is Ok,
        spec_root_family(input)->Ok_0 == root,
        names_one_version(input, root, f),
    ensures
        spec_detect_source_format(input) is Ok,
        spec_detect_source_format(input)->Ok_0 == f,
{
    reveal(spec_markers);
    let s = input;
    let a = DocumentFamily::Application;
    let g = DocumentFamily::Grant;
    lemma_clue(s, root, f, SourceFormat::UsptoApplicationV15);
    lemma_clue(s, root, f, SourceFormat::UsptoApplicationV16);
    lemma_clue(s, root, f, SourceFormat::UsptoGrantV25);
    assert(!doctype_named(s, a) || a == root);
    assert(!doctype_named(s, g) || g == root);
    let c1 = contains(s, "pap-v15-2001-01-31.dtd"@);
    let c2 = contains(s, "pap-v16"@);
    let c3 = contains(s, "ST32-US-Grant-025xml.dtd"@) || contains(s, "DTD=\"2.5\""@);
    let c4 = contains(s, "<!DOCTYPE us-patent-application"@);
    let c5 = contains(s, "<!DOCTYPE us-patent-grant"@) || contains(s, "<!DOCTYPE PATDOC"@);
    let p1 = opt_marker(c1, marker(a, SourceFormat::UsptoApplicationV15));
    let p2 = opt_marker(c2, marker(a, SourceFormat::UsptoApplicationV16));
    let p3 = opt_marker(c3, marker(g, SourceFormat::UsptoGrantV25));
    let p4 = opt_marker(c4, MarkerFamily { family: a, format: None });
    let p5 = opt_marker(c5, MarkerFamily { family: g, format: None });
    let am = application_markers(s, root);
    let gm = grant_markers(s, root);
    let ms = spec_markers(s, root);
    assert(ms == p1 + p2 + p3 + am + gm + p4 + p5);
    lemma_application_markers_fit(s, root, f);
    lemma_grant_markers_fit(s, root, f);
    lemma_opt_fit(c1, marker(a, SourceFormat::UsptoApplicationV15), root, f);
    lemma_opt_fit(c2, marker(a, SourceFormat::UsptoApplicationV16), root, f);
    lemma_opt_fit(c3, marker(g, SourceFormat::UsptoGrantV25), root, f);
    lemma_opt_fit(c4, MarkerFamily { family: a, format: None }, root, f);
    lemma_opt_fit(c5, MarkerFamily { family: g, format: None }, root, f);
    lemma_fit_concat(p1, p2, root, f);
    lemma_fit_concat(p1 + p2, p3, root, f);
    lemma_fit_concat(p1 + p2 + p3, am, root, f);
    lemma_fit_concat(p1 + p2 + p3 + am, gm, root, f);
    lemma_fit_concat(p1 + p2 + p3 + am + gm, p4, root, f);
    lemma_fit_concat(p1 + p2 + p3 + am + gm + p4, p5, root, f);
    assert(markers_fit(ms, root, f));
    assert(!has_foreign_marker(ms, root));
    let fs = named_formats(ms);
    lemma_fit_named_formats(ms, root, f);
    assert(!formats_disagree(fs));
    lemma_named_formats_concat(p1, p2);
    lemma_named_formats_concat(p1 + p2, p3);
    lemma_named_formats_concat(p1 + p2 + p3, am);
    lemma_named_formats_concat(p1 + p2 + p3 + am, gm);
    lemma_named_formats_concat(p1 + p2 + p3 + am + gm, p4);
    lemma_named_formats_concat(p1 + p2 + p3 + am + gm + p4, p5);
    lemma_named_formats_opt(c1, marker(a, SourceFormat::UsptoApplicationV15));
    lemma_named_formats_opt(c2, marker(a, SourceFormat::UsptoApplicationV16));
    lemma_named_formats_opt(c3, marker(g, SourceFormat::UsptoGrantV25));
    lemma_named_formats_opt(c4, MarkerFamily { family: a, format: None });
    lemma_named_formats_opt(c5, MarkerFamily { family: g, format: None });
    // the clue of `f` itself is present: one of the fixed-name clues, or
    // a 4.x clue of the root's family
    assert(fs.len() > 0) by {
        match f {
            SourceFormat::UsptoApplicationV15 => {},
            SourceFormat::UsptoApplicationV16 => {},
            SourceFormat::UsptoGrantV25 => {},
            SourceFormat::UsptoGrantApsGreenBook => {},
            _ => {},
        }
    }
    assert(fs[0] == f);
}

// ---------------------------------------------------------------------------
// Clues that disagree are refused
// ---------------------------------------------------------------------------

proof fn lemma_contains_concat(a: Seq<MarkerFamily>, b: Seq<MarkerFamily>, m: MarkerFamily)
    ensures
        a.contains(m) || b.contains(m) ==> (a + b).contains(m),
{
    if a.contains(m) {
        let i = choose|i: int| 0 <= i < a.len() && a[i] == m;
        assert((a + b)[i] == m);
    } else if b.contains(m) {
        let i = choose|i: int| 0 <= i < b.len() && b[i] == m;
        assert((a + b)[a.len() + i] == m);
    }
}

proof fn lemma_opt_contains(c: bool, m: MarkerFamily)
    ensures
        c ==> opt_marker(c, m).contains(m),
{
    if c {
        assert(opt_marker(c, m)[0] == m);
    }
}

proof fn lemma_named_formats_contains(ms: Seq<MarkerFamily>, m: MarkerFamily, x: SourceFormat)
    requires
        ms.contains(m),
        m.format == Some(x),
    ensures
        named_formats(ms).contains(x),
    decreases ms.len(),
{
    let rest = named_formats(ms.drop_last());
    if ms.last() == m {
        assert(named_formats(ms) == rest.push(x));
        assert(rest.push(x)[rest.len() as int] == x);
    } else {
        let i = choose|i: int| 0 <= i < ms.len() && ms[i] == m;
        assert(ms.drop_last()[i] == m);
        lemma_named_formats_contains(ms.drop_last(), m, x);
        let j = choose|j: int| 0 <= j < rest.len() && rest[j] == x;
        match ms.last().format {
            Some(y) => {
                assert(named_formats(ms) == rest.push(y));
                assert(rest.push(y)[j] == x);
            },
            None => {},
        }
    }
}

/// The marker of a 4.x application version that the text names is among
/// the application clues.
proof fn lemma_application_clue_present(s: Seq<char>, root: DocumentFamily, x: SourceFormat)
    requires
        format_family(x) == DocumentFamily::Application,
        x != SourceFormat::UsptoApplicationV15,
        x != SourceFormat::UsptoApplicationV16,
        (root == DocumentFamily::Application && version_named(s, x)) || schema_named(s, x),
    ensures
        application_markers(s, root).contains(marker(DocumentFamily::Application, x)),
{
    reveal(application_markers);
    let a = DocumentFamily::Application;
    let m = marker(a, x);
    let ca1 = versioned(s, root, a, "us-patent-application-v40"@, "dtd-version=\"v4.0"@);
    let ca2 = versioned(s, root, a, "us-patent-application-v41"@, "dtd-version=\"v4.1"@);
    let ca3 = versioned(s, root, a, "us-patent-application-v42"@, "dtd-version=\"v4.2"@);
    let ca4 = versioned(s, root, a, "us-patent-application-v43"@, "dtd-version=\"v4.3"@);
    let ca5 = versioned(s, root, a, "us-patent-application-v44"@, "dtd-version=\"v4.4"@);
    let ca6 = versioned(s, root, a, "us-patent-application-v45"@, "dtd-version=\"v4.5"@);
    let ca7 = versioned(s, root, a, "us-patent-application-v46"@, "dtd-version=\"v4.6"@);
    let a1 = opt_marker(ca1, marker(a, SourceFormat::UsptoApplicationV40));
    let a2 = opt_marker(ca2, marker(a, SourceFormat::UsptoApplicationV41));
    let a3 = opt_marker(ca3, marker(a, SourceFormat::UsptoApplicationV42));
    let a4 = opt_marker(ca4, marker(a, SourceFormat::UsptoApplicationV43));
    let a5 = opt_marker(ca5, marker(a, SourceFormat::UsptoApplicationV44));
    let a6 = opt_marker(ca6, marker(a, SourceFormat::UsptoApplicationV45));
    let a7 = opt_marker(ca7, marker(a, SourceFormat::UsptoApplicationV46));
    assert(application_markers(s, root) == a1 + a2 + a3 + a4 + a5 + a6 + a7);
    match x {
        SourceFormat::UsptoApplicationV40 => lemma_opt_contains(ca1, m),
        SourceFormat::UsptoApplicationV41 => lemma_opt_contains(ca2, m),
        SourceFormat::UsptoApplicationV42 => lemma_opt_contains(ca3, m),
        SourceFormat::UsptoApplicationV43 => lemma_opt_contains(ca4, m),
        SourceFormat::UsptoApplicationV44 => lemma_opt_contains(ca5, m),
        SourceFormat::UsptoApplicationV45 => lemma_opt_contains(ca6, m),
        _ => lemma_opt_contains(ca7, m),
    }
    lemma_contains_concat(a1, a2, m);
    lemma_contains_concat(a1 + a2, a3, m);
    lemma_contains_concat(a1 + a2 + a3, a4, m);
    lemma_contains_concat(a1 + a2 + a3 + a4, a5, m);
    lemma_contains_concat(a1 + a2 + a3 + a4 + a5, a6, m);
    lemma_contains_concat(a1 + a2 + a3 + a4 + a5 + a6, a7, m);
}

/// The marker of a 4.x grant version that the text names is among the
/// grant clues.
proof fn lemma_grant_clue_present(s: Seq<char>, root: DocumentFamily, x: SourceFormat)
    requires
        format_family(x) == DocumentFamily::Grant,
        x != SourceFormat::UsptoGrantV25,
        x != SourceFormat::UsptoGrantApsGreenBook,
        (root == DocumentFamily::Grant && version_named(s, x)) || schema_named(s, x),
    ensures
        grant_markers(s, root).contains(marker(DocumentFamily::Grant, x)),
{
    reveal(grant_markers);
    let g = DocumentFamily::Grant;
    let m = marker(g, x);
    let cg1 = versioned(s, root, g, "us-patent-grant-v40"@, "dtd-version=\"v40"@);
    let cg2 = versioned(s, root, g, "us-patent-grant-v41"@, "dtd-version=\"v4.1"@);
    let cg3 = versioned(s, root, g, "us-patent-grant-v42"@, "dtd-version=\"v4.2"@);
    let cg4 = versioned(s, root, g, "us-patent-grant-v43"@, "dtd-version=\"v4.3"@);
    let cg5 = versioned(s, root, g, "us-patent-grant-v44"@, "dtd-version=\"v4.4"@);
    let cg6 = versioned(s, root, g, "us-patent-grant-v45"@, "dtd-version=\"v4.5"@);
    let cg7 = versioned(s, root, g, "us-patent-grant-v46"@, "dtd-version=\"v4.6"@);
    let cg8 = versioned(s, root, g, "us-patent-grant-v47"@, "dtd-version=\"v4.7"@);
    let g1 = opt_marker(cg1, marker(g, SourceFormat::UsptoGrantV40));
    let g2 = opt_marker(cg2, marker(g, SourceFormat::UsptoGrantV41));
    let g3 = opt_marker(cg3, marker(g, SourceFormat::UsptoGrantV42));
    let g4 = opt_marker(cg4, marker(g, SourceFormat::UsptoGrantV43));
    let g5 = opt_marker(cg5, marker(g, SourceFormat::UsptoGrantV44));
    let g6 = opt_marker(cg6, marker(g, SourceFormat::UsptoGrantV45));
    let g7 = opt_marker(cg7, marker(g, SourceFormat::UsptoGrantV46));
    let g8 = opt_marker(cg8, marker(g, SourceFormat::UsptoGrantV47));
    assert(grant_markers(s, root) == g1 + g2 + g3 + g4 + g5 + g6 + g7 + g8);
    match x {
        SourceFormat::UsptoGrantV40 => lemma_opt_contains(cg1, m),
        SourceFormat::UsptoGrantV41 => lemma_opt_contains(cg2, m),
        SourceFormat::UsptoGrantV42 => lemma_opt_contains(cg3, m),
        SourceFormat::UsptoGrantV43 => lemma_opt_contains(cg4, m),
        SourceFormat::UsptoGrantV44 => lemma_opt_contains(cg5, m),
        SourceFormat::UsptoGrantV45 => lemma_opt_contains(cg6, m),
        SourceFormat::UsptoGrantV46 => lemma_opt_contains(cg7, m),
        _ => lemma_opt_contains(cg8, m),
    }
    lemma_contains_concat(g1, g2, m);
    lemma_contains_concat(g1 + g2, g3, m);
    lemma_contains_concat(g1 + g2 + g3, g4, m);
    lemma_contains_concat(g1 + g2 + g3 + g4, g5, m);
    lemma_contains_concat(g1 + g2 + g3 + g4 + g5, g6, m);
    lemma_contains_concat(g1 + g2 + g3 + g4 + g5 + g6, g7, m);
    lemma_contains_concat(g1 + g2 + g3 + g4 + g5 + g6 + g7, g8, m);
}

/// The marker of every version the text names for the root's family, of
/// every DTD name, and of every DOCTYPE, is among the clues.
proof fn lemma_clue_present(s: Seq<char>, root: DocumentFamily, m: MarkerFamily)
    requires
        (m.format matches Some(x) && x != SourceFormat::UsptoGrantApsGreenBook && m.family
            == format_family(x) && ((m.family == root && version_named(s, x)) || schema_named(s, x)))
            || (m.format is None && doctype_named(s, m.family)),
    ensures
        spec_markers(s, root).contains(m),
{
    reveal(spec_markers);
    let a = DocumentFamily::Application;
    let g = DocumentFamily::Grant;
    let c1 = contains(s, "pap-v15-2001-01-31.dtd"@);
    let c2 = contains(s, "pap-v16"@);
    let c3 = contains(s, "ST32-US-Grant-025xml.dtd"@) || contains(s, "DTD=\"2.5\""@);
    let c4 = contains(s, "<!DOCTYPE us-patent-application"@);
    let c5 = contains(s, "<!DOCTYPE us-patent-grant"@) || contains(s, "<!DOCTYPE PATDOC"@);
    let p1 = opt_marker(c1, marker(a, SourceFormat::UsptoApplicationV15));
    let p2 = opt_marker(c2, marker(a, SourceFormat::UsptoApplicationV16));
    let p3 = opt_marker(c3, marker(g, SourceFormat::UsptoGrantV25));
    let p4 = opt_marker(c4, MarkerFamily { family: a, format: None });
    let p5 = opt_marker(c5, MarkerFamily { family: g, format: None });
    let am = application_markers(s, root);
    let gm = grant_markers(s, root);
    assert(spec_markers(s, root) == p1 + p2 + p3 + am + gm + p4 + p5);
    match m.format {
        Some(SourceFormat::UsptoApplicationV15) => lemma_opt_contains(c1, m),
        Some(SourceFormat::UsptoApplicationV16) => lemma_opt_contains(c2, m),
        Some(SourceFormat::UsptoGrantV25) => lemma_opt_contains(c3, m),
        Some(x) => {
            if format_family(x) == a {
                lemma_application_clue_present(s, root, x);
            } else {
                lemma_grant_clue_present(s, root, x);
            }
        },
        None => {
            lemma_opt_contains(c4, m);
            lemma_opt_contains(c5, m);
        },
    }
    lemma_contains_concat(p1, p2, m);
    lemma_contains_concat(p1 + p2, p3, m);
    lemma_contains_concat(p1 + p2 + p3, am, m);
    lemma_contains_concat(p1 + p2 + p3 + am, gm, m);
    lemma_contains_concat(p1 + p2 + p3 + am + gm, p4, m);
    lemma_contains_concat(p1 + p2 + p3 + am + gm + p4, p5, m);
}

/// A text whose root is of one family and which names two different
/// versions of that family is refused: its version markers conflict.
pub proof fn law_two_named_versions_conflict(
    input: Seq<char>,
    root: DocumentFamily,
    f1: SourceFormat,
    f2: SourceFormat,
)
    requires
        trim(input).len() > 0,
        !spec_is_aps_green_book(input),
        spec_root_family(input) is Ok,
        spec_root_family(input)->Ok_0 == root,
        f1 != f2,
        format_family(f1) == root,
        format_family(f2) == root,
        version_named(input, f1),
        version_named(input, f2),
    ensures
        spec_detect_source_format(input) == Err::<SourceFormat, DetectErrorView>(
            DetectErrorView::ConflictingVersionMarkers,
        ),
{
    let ms = spec_markers(input, root);
    let m1 = marker(root, f1);
    let m2 = marker(root, f2);
    lemma_clue_present(input, root, m1);
    lemma_clue_present(input, root, m2);
    if !has_foreign_marker(ms, root) {
        let fs = named_formats(ms);
        lemma_named_formats_contains(ms, m1, f1);
        lemma_named_formats_contains(ms, m2, f2);
        let i = choose|i: int| 0 <= i < fs.len() && fs[i] == f1;
        let j = choose|j: int| 0 <= j < fs.len() && fs[j] == f2;
        assert(formats_disagree(fs));
    }
}

/// A text that carries the DTD name or the DOCTYPE of a family other than
/// its root's is refused: its version markers conflict.
pub proof fn law_foreign_clue_conflicts(input: Seq<char>, root: DocumentFamily, m: MarkerFamily)
    requires
        trim(input).len() > 0,
        !spec_is_aps_green_book(input),
        spec_root_family(input) is Ok,
        spec_root_family(input)->Ok_0 == root,
        m.family != root,
        (m.format matches Some(x) && m.family == format_family(x) && schema_named(input, x))
            || (m.format is None && doctype_named(input, m.family)),
    ensures
        spec_detect_source_format(input) == Err::<SourceFormat, DetectErrorView>(
            DetectErrorView::ConflictingVersionMarkers,
        ),
{
    let ms = spec_markers(input, root);
    lemma_clue_present(input, root, m);
    let i = choose|i: int| 0 <= i < ms.len() && ms[i] == m;
    assert(has_foreign_marker(ms, root));
}

} // verus!
