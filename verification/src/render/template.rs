//! Section-placeholder templating for Markdown output.
//!
//! A template is plain text with `{{placeholder}}` tokens. Each placeholder is
//! replaced by a section the renderer produces in code; the template only
//! controls which sections appear, in what order, and what literal text wraps
//! them. There is no expression language and no dependency — substitution only.
//!
//! Recognized placeholders: `frontmatter`, `title`, `abstract`, `description`,
//! and `claims`.

use vstd::prelude::*;

use crate::text::{
    chars_of, contains, copy_str, eq_chars, find, find_chars_from, is_ws, lemma_find_from_bounds,
    lemma_first_non_ws_bounds, lemma_end_non_ws_bounds, push_char, push_str, slice_chars,
    string_of, trim, trim_chars, trim_end, trim_start, first_non_ws, end_non_ws, find_from,
    matches_at,
};

verus! {

/// The default layout, reproducing the standard rendered document.
pub const DEFAULT_TEMPLATE: &'static str =
    "{{frontmatter}}\n\n{{title}}\n\n{{abstract}}\n\n{{description}}\n\n{{claims}}\n";

/// A renderable section a placeholder can name.
#[derive(Debug, Clone, Copy, PartialEq, Eq, Structural)]
pub enum Section {
    Frontmatter,
    Title,
    Abstract,
    Description,
    Claims,
}

pub open spec fn spec_section_from_name(name: Seq<char>) -> Option<Section> {
    if name == "frontmatter"@ {
        Some(Section::Frontmatter)
    } else if name == "title"@ {
        Some(Section::Title)
    } else if name == "abstract"@ {
        Some(Section::Abstract)
    } else if name == "description"@ {
        Some(Section::Description)
    } else if name == "claims"@ {
        Some(Section::Claims)
    } else {
        None
    }
}

impl Section {
    pub fn from_name(name: &[char]) -> (r: Option<Section>)
        ensures
            r == spec_section_from_name(name@),
    {
        if eq_chars(name, chars_of("frontmatter").as_slice()) {
            Some(Section::Frontmatter)
        } else if eq_chars(name, chars_of("title").as_slice()) {
            Some(Section::Title)
        } else if eq_chars(name, chars_of("abstract").as_slice()) {
            Some(Section::Abstract)
        } else if eq_chars(name, chars_of("description").as_slice()) {
            Some(Section::Description)
        } else if eq_chars(name, chars_of("claims").as_slice()) {
            Some(Section::Claims)
        } else {
            None
        }
    }
}

/// The code-rendered section blocks a [`Template`] assembles.
pub struct Sections {
    pub frontmatter: String,
    pub title: String,
    pub abstract_section: String,
    pub description: String,
    pub claims: String,
}

/// The text of each section.
pub struct SectionsView {
    pub frontmatter: Seq<char>,
    pub title: Seq<char>,
    pub abstract_section: Seq<char>,
    pub description: Seq<char>,
    pub claims: Seq<char>,
}

impl View for Sections {
    type V = SectionsView;

    open spec fn view(&self) -> SectionsView {
        SectionsView {
            frontmatter: self.frontmatter@,
            title: self.title@,
            abstract_section: self.abstract_section@,
            description: self.description@,
            claims: self.claims@,
        }
    }
}

pub open spec fn spec_section_text(s: SectionsView, section: Section) -> Seq<char> {
    match section {
        Section::Frontmatter => s.frontmatter,
        Section::Title => s.title,
        Section::Abstract => s.abstract_section,
        Section::Description => s.description,
        Section::Claims => s.claims,
    }
}

impl Sections {
    pub fn get(&self, section: Section) -> (r: &str)
        ensures
            r@ == spec_section_text(self@, section),
    {
        match section {
            Section::Frontmatter => self.frontmatter.as_str(),
            Section::Title => self.title.as_str(),
            Section::Abstract => self.abstract_section.as_str(),
            Section::Description => self.description.as_str(),
            Section::Claims => self.claims.as_str(),
        }
    }
}

#[derive(Debug)]
pub enum Segment {
    Literal(String),
    Placeholder(Section),
}

/// The value of a template segment.
pub enum SegmentView {
    Literal(Seq<char>),
    Placeholder(Section),
}

impl View for Segment {
    type V = SegmentView;

    open spec fn view(&self) -> SegmentView {
        match self {
            Segment::Literal(s) => SegmentView::Literal(s@),
            Segment::Placeholder(p) => SegmentView::Placeholder(*p),
        }
    }
}

/// A parsed Markdown template.
#[derive(Debug)]
pub struct Template {
    segments: Vec<Segment>,
}

impl View for Template {
    type V = Seq<SegmentView>;

    closed spec fn view(&self) -> Seq<SegmentView> {
        self.segments@.map_values(|s: Segment| s@)
    }
}

/// Why a template string could not be parsed.
#[derive(Debug, Clone, PartialEq, Eq)]
pub enum TemplateError {
    /// A `{{name}}` whose `name` is not a recognized section.
    UnknownPlaceholder(String),
    /// A `{{` with no closing `}}`.
    UnterminatedPlaceholder,
}

pub enum TemplateErrorView {
    UnknownPlaceholder(Seq<char>),
    UnterminatedPlaceholder,
}

impl View for TemplateError {
    type V = TemplateErrorView;

    open spec fn view(&self) -> TemplateErrorView {
        match self {
            TemplateError::UnknownPlaceholder(n) => TemplateErrorView::UnknownPlaceholder(n@),
            TemplateError::UnterminatedPlaceholder => TemplateErrorView::UnterminatedPlaceholder,
        }
    }
}

pub open spec fn spec_template_error_message(e: TemplateErrorView) -> Seq<char> {
    match e {
        TemplateErrorView::UnknownPlaceholder(name) => "unknown template placeholder {{"@ + name
            + "}}; expected one of frontmatter, title, abstract, description, claims"@,
        TemplateErrorView::UnterminatedPlaceholder => "unterminated template placeholder: '{{' with no closing '}}'"@,
    }
}

impl TemplateError {
    /// The human-readable message (what `Display` prints).
    pub fn message(&self) -> (r: String)
        ensures
            r@ == spec_template_error_message(self@),
    {
        match self {
            TemplateError::UnknownPlaceholder(name) => {
                let mut out = copy_str("unknown template placeholder {{");
                push_str(&mut out, name.as_str());
                push_str(
                    &mut out,
                    "}}; expected one of frontmatter, title, abstract, description, claims",
                );
                out
            },
            TemplateError::UnterminatedPlaceholder => copy_str(
                "unterminated template placeholder: '{{' with no closing '}}'",
            ),
        }
    }
}

/// The segments of a template text: literal runs between `{{name}}`
/// placeholders, each name trimmed and required to be a known section. The
/// first unterminated or unknown placeholder, scanning left to right, is the
/// error.
pub open spec fn spec_parse_segments(rest: Seq<char>) -> Result<
    Seq<SegmentView>,
    TemplateErrorView,
>
    decreases rest.len(),
{
    match find(rest, "{{"@) {
        None => Ok(
            if rest.len() > 0 {
                seq![SegmentView::Literal(rest)]
            } else {
                Seq::empty()
            },
        ),
        Some(open) => {
            if !(0 <= open && open + 2 <= rest.len()) {
                Err(TemplateErrorView::UnterminatedPlaceholder)
            } else {
                let lit = if open > 0 {
                    seq![SegmentView::Literal(rest.subrange(0, open))]
                } else {
                    Seq::empty()
                };
                let after = rest.subrange(open + 2, rest.len() as int);
                match find(after, "}}"@) {
                    None => Err(TemplateErrorView::UnterminatedPlaceholder),
                    Some(close) => {
                        if !(0 <= close && close + 2 <= after.len()) {
                            Err(TemplateErrorView::UnterminatedPlaceholder)
                        } else {
                            let name = trim(after.subrange(0, close));
                            match spec_section_from_name(name) {
                                None => Err(TemplateErrorView::UnknownPlaceholder(name)),
                                Some(section) => match spec_parse_segments(
                                    after.subrange(close + 2, after.len() as int),
                                ) {
                                    Err(e) => Err(e),
                                    Ok(tail) => Ok(
                                        lit + seq![SegmentView::Placeholder(section)] + tail,
                                    ),
                                },
                            }
                        }
                    },
                }
            }
        },
    }
}

/// The text a template produces before blank-line normalization.
pub open spec fn spec_assemble(segments: Seq<SegmentView>, sections: SectionsView) -> Seq<char>
    decreases segments.len(),
{
    if segments.len() == 0 {
        Seq::empty()
    } else {
        spec_assemble(segments.drop_last(), sections) + match segments.last() {
            SegmentView::Literal(text) => text,
            SegmentView::Placeholder(section) => spec_section_text(sections, section),
        }
    }
}

/// Collapse runs of newlines past the second, `run` being the length of the
/// newline run just before position `i`.
pub open spec fn collapse_newlines_from(s: Seq<char>, i: int, run: nat) -> Seq<char>
    decreases s.len() - i,
{
    if i < 0 || i >= s.len() {
        Seq::empty()
    } else if s[i] == '\n' {
        let next: nat = if run < 3 {
            run + 1
        } else {
            3
        };
        if next <= 2 {
            seq!['\n'] + collapse_newlines_from(s, i + 1, next)
        } else {
            collapse_newlines_from(s, i + 1, next)
        }
    } else {
        seq![s[i]] + collapse_newlines_from(s, i + 1, 0)
    }
}

/// Any run of 3+ newlines becomes a single blank line; the edges are trimmed.
pub open spec fn spec_normalize_blank_lines(s: Seq<char>) -> Seq<char> {
    trim(collapse_newlines_from(s, 0, 0))
}

pub open spec fn spec_render(segments: Seq<SegmentView>, sections: SectionsView) -> Seq<char> {
    spec_normalize_blank_lines(spec_assemble(segments, sections))
}

impl Template {
    /// Parse a template string. Placeholder names are validated up front, so an
    /// invalid template fails here rather than silently dropping content.
    pub fn parse(input: &str) -> (r: Result<Template, TemplateError>)
        ensures
            match spec_parse_segments(input@) {
                Ok(segs) => r matches Ok(t) && t@ == segs,
                Err(e) => r matches Err(err) && err@ == e,
            },
    {
        let all = chars_of(input);
        let mut segments: Vec<Segment> = Vec::new();
        let mut rest = all;
        let open_pat = chars_of("{{");
        let close_pat = chars_of("}}");
        proof {
            reveal_strlit("{{");
            reveal_strlit("}}");
        }
        loop
            invariant
                open_pat@ == "{{"@,
                close_pat@ == "}}"@,
                match spec_parse_segments(input@) {
                    Ok(segs) => spec_parse_segments(rest@) matches Ok(tail) && segs
                        == segments@.map_values(|s: Segment| s@) + tail,
                    Err(e) => spec_parse_segments(rest@) == Err::<Seq<SegmentView>, _>(e),
                },
            decreases rest@.len(),
        {
            let ghost before = segments@.map_values(|s: Segment| s@);
            proof {
                reveal_strlit("{{");
                reveal_strlit("}}");
                lemma_find_from_bounds(rest@, "{{"@, 0);
            }
            match find_chars_from(rest.as_slice(), open_pat.as_slice(), 0) {
                None => {
                    if rest.len() > 0 {
                        segments.push(Segment::Literal(string_of(rest.as_slice())));
                    }
                    assert(segments@.map_values(|s: Segment| s@) =~= before + (if rest@.len()
                        > 0 {
                        seq![SegmentView::Literal(rest@)]
                    } else {
                        Seq::empty()
                    }));
                    return Ok(Template { segments });
                },
                Some(open) => {
                    if open > 0 {
                        segments.push(Segment::Literal(string_of(slice_chars(rest.as_slice(), 0, open).as_slice())));
                    }
                    assert(matches_at(rest@, "{{"@, open as int));
                    assert(open + 2 <= rest.len());
                    let after = slice_chars(rest.as_slice(), open + 2, rest.len());
                    proof {
                        lemma_find_from_bounds(after@, "}}"@, 0);
                    }
                    let close = match find_chars_from(after.as_slice(), close_pat.as_slice(), 0) {
                        Some(c) => c,
                        None => {
                            return Err(TemplateError::UnterminatedPlaceholder);
                        },
                    };
                    let raw_name = slice_chars(after.as_slice(), 0, close);
                    let name = trim_chars(raw_name.as_slice());
                    let section = match Section::from_name(name.as_slice()) {
                        Some(s) => s,
                        None => {
                            return Err(TemplateError::UnknownPlaceholder(string_of(name.as_slice())));
                        },
                    };
                    segments.push(Segment::Placeholder(section));
                    let ghost lit = if open > 0 {
                        seq![SegmentView::Literal(rest@.subrange(0, open as int))]
                    } else {
                        Seq::empty()
                    };
                    assert(segments@.map_values(|s: Segment| s@) =~= before + lit + seq![
                        SegmentView::Placeholder(section),
                    ]);
                    let next = slice_chars(after.as_slice(), close + 2, after.len());
                    proof {
                        let tail_spec = spec_parse_segments(next@);
                        match tail_spec {
                            Ok(tail) => {
                                assert(before + (lit + seq![SegmentView::Placeholder(section)]
                                    + tail) =~= (before + lit + seq![
                                    SegmentView::Placeholder(section),
                                ]) + tail);
                            },
                            Err(_) => {},
                        }
                    }
                    rest = next;
                },
            }
        }
    }

    /// Assemble `sections` into the final Markdown, collapsing the runs of blank
    /// lines that empty sections leave behind and trimming the edges.
    pub fn render(&self, sections: &Sections) -> (r: String)
        ensures
            r@ == spec_render(self@, sections@),
    {
        let mut out = String::new();
        let mut i: usize = 0;
        while i < self.segments.len()
            invariant
                i <= self.segments.len(),
                out@ == spec_assemble(self@.take(i as int), sections@),
            decreases self.segments.len() - i,
        {
            assert(self@.take(i + 1).drop_last() =~= self@.take(i as int));
            assert(self@[i as int] == self.segments@[i as int]@);
            match &self.segments[i] {
                Segment::Literal(text) => push_str(&mut out, text.as_str()),
                Segment::Placeholder(section) => push_str(&mut out, sections.get(*section)),
            }
            i += 1;
        }
        assert(self@.take(self.segments.len() as int) =~= self@);
        normalize_blank_lines(out.as_str())
    }
}

/// Collapse any run of 3+ newlines down to a single blank line, and trim leading
/// and trailing whitespace. Internal indentation (e.g. YAML) is preserved.
pub fn normalize_blank_lines(input: &str) -> (r: String)
    ensures
        r@ == spec_normalize_blank_lines(input@),
{
    let cs = chars_of(input);
    let mut out: Vec<char> = Vec::new();
    let mut run: usize = 0;
    let mut i: usize = 0;
    while i < cs.len()
        invariant
            i <= cs.len(),
            run <= 3,
            cs@ == input@,
            collapse_newlines_from(cs@, 0, 0) == out@ + collapse_newlines_from(
                cs@,
                i as int,
                run as nat,
            ),
        decreases cs.len() - i,
    {
        let ch = cs[i];
        if ch == '\n' {
            if run < 3 {
                run += 1;
            }
            if run <= 2 {
                out.push('\n');
            }
        } else {
            run = 0;
            out.push(ch);
        }
        i += 1;
    }
    let t = trim_chars(out.as_slice());
    assert(out@ + Seq::<char>::empty() =~= out@);
    string_of(t.as_slice())
}

/// Blank-line normalization never leaves three newlines in a row, so a run of
/// four newlines can never occur inside a rendered document.
pub proof fn law_normalized_text_has_no_triple_newline(s: Seq<char>)
    ensures
        !contains(spec_normalize_blank_lines(s), "\n\n\n"@),
{
    reveal_strlit("\n\n\n");
    let c = collapse_newlines_from(s, 0, 0);
    lemma_collapse_no_triple(s, 0, 0);
    let t = spec_normalize_blank_lines(s);
    lemma_first_non_ws_bounds(c, 0);
    let ts = trim_start(c);
    lemma_end_non_ws_bounds(ts, ts.len() as int);
    let a = first_non_ws(c, 0);
    let b = end_non_ws(ts, ts.len() as int);
    assert(t =~= c.subrange(a, a + b));
    lemma_find_from_bounds(t, "\n\n\n"@, 0);
    if contains(t, "\n\n\n"@) {
        let k = find(t, "\n\n\n"@)->0;
        let w = t.subrange(k, k + 3);
        assert(w == "\n\n\n"@);
        assert(w[0] == t[k] && w[1] == t[k + 1] && w[2] == t[k + 2]);
        assert(t[k] == '\n' && t[k + 1] == '\n' && t[k + 2] == '\n');
        assert(c[a + k] == t[k]);
        assert(c[a + k + 1] == t[k + 1]);
        assert(c[a + k + 2] == t[k + 2]);
    }
}

/// Within the collapsed text no three consecutive characters are all newlines,
/// and it starts with at most `2 - run` newlines.
proof fn lemma_collapse_no_triple(s: Seq<char>, i: int, run: nat)
    requires
        run <= 3,
    ensures
        forall|k: int|
            0 <= k && k + 2 < collapse_newlines_from(s, i, run).len() ==> !(
            #[trigger] collapse_newlines_from(s, i, run)[k] == '\n' && collapse_newlines_from(
                s,
                i,
                run,
            )[k + 1] == '\n' && collapse_newlines_from(s, i, run)[k + 2] == '\n'),
        run >= 2 && collapse_newlines_from(s, i, run).len() > 0 ==> collapse_newlines_from(
            s,
            i,
            run,
        )[0] != '\n',
        run == 1 && collapse_newlines_from(s, i, run).len() > 1 ==> !(collapse_newlines_from(
            s,
            i,
            run,
        )[0] == '\n' && collapse_newlines_from(s, i, run)[1] == '\n'),
    decreases s.len() - i,
{
    if i < 0 || i >= s.len() {
    } else if s[i] == '\n' {
        let next: nat = if run < 3 {
            run + 1
        } else {
            3
        };
        lemma_collapse_no_triple(s, i + 1, next);
        let r = collapse_newlines_from(s, i + 1, next);
        let out = collapse_newlines_from(s, i, run);
        if next <= 2 {
            assert(out =~= seq!['\n'] + r);
            assert forall|k: int|
                0 <= k && k + 2 < out.len() implies !(#[trigger] out[k] == '\n' && out[k + 1]
                == '\n' && out[k + 2] == '\n') by {
                if k >= 1 {
                    assert(out[k] == r[k - 1] && out[k + 1] == r[k] && out[k + 2] == r[k + 1]);
                } else {
                    assert(out[1] == r[0] && out[2] == r[1]);
                }
            }
        } else {
            assert(out == r);
        }
    } else {
        lemma_collapse_no_triple(s, i + 1, 0);
        let r = collapse_newlines_from(s, i + 1, 0);
        let out = collapse_newlines_from(s, i, run);
        assert(out =~= seq![s[i]] + r);
        assert forall|k: int|
            0 <= k && k + 2 < out.len() implies !(#[trigger] out[k] == '\n' && out[k + 1] == '\n'
            && out[k + 2] == '\n') by {
            if k >= 1 {
                assert(out[k] == r[k - 1] && out[k + 1] == r[k] && out[k + 2] == r[k + 1]);
            } else {
                assert(out[0] == s[i]);
            }
        }
    }
}

/// The segments of [`DEFAULT_TEMPLATE`]: the five sections in order, a blank
/// line between each, and a closing newline.
pub open spec fn spec_default_segments() -> Seq<SegmentView> {
    seq![
        SegmentView::Placeholder(Section::Frontmatter),
        SegmentView::Literal(seq!['\n', '\n']),
        SegmentView::Placeholder(Section::Title),
        SegmentView::Literal(seq!['\n', '\n']),
        SegmentView::Placeholder(Section::Abstract),
        SegmentView::Literal(seq!['\n', '\n']),
        SegmentView::Placeholder(Section::Description),
        SegmentView::Literal(seq!['\n', '\n']),
        SegmentView::Placeholder(Section::Claims),
        SegmentView::Literal(seq!['\n']),
    ]
}

proof fn lemma_find_skips(s: Seq<char>, p: Seq<char>, i: int, k: int)
    requires
        0 <= i <= k,
        matches_at(s, p, k),
        forall|j: int| i <= j < k ==> !#[trigger] matches_at(s, p, j),
    ensures
        find_from(s, p, i) == Some(k),
    decreases k - i,
{
    if i < k {
        lemma_find_skips(s, p, i + 1, k);
    }
}

proof fn lemma_find_absent(s: Seq<char>, p: Seq<char>, i: int)
    requires
        0 <= i,
        forall|j: int| i <= j ==> !#[trigger] matches_at(s, p, j),
    ensures
        find_from(s, p, i) is None,
    decreases s.len() + 1 - i,
{
    if i + p.len() <= s.len() {
        lemma_find_absent(s, p, i + 1);
    }
}

proof fn lemma_trim_plain(name: Seq<char>)
    requires
        name.len() > 0,
        !is_ws(name[0]),
        !is_ws(name[name.len() - 1]),
    ensures
        trim(name) == name,
{
    assert(first_non_ws(name, 0) == 0);
    assert(trim_start(name) =~= name);
    assert(end_non_ws(name, name.len() as int) == name.len());
    assert(trim_end(name) =~= name);
}

/// A literal without `{` parses to itself.
proof fn lemma_parse_literal(lit: Seq<char>)
    requires
        forall|j: int| 0 <= j < lit.len() ==> lit[j] != '{',
    ensures
        spec_parse_segments(lit) == Ok::<Seq<SegmentView>, TemplateErrorView>(
            if lit.len() > 0 {
                seq![SegmentView::Literal(lit)]
            } else {
                Seq::empty()
            },
        ),
{
    reveal_strlit("{{");
    assert forall|j: int| 0 <= j implies !#[trigger] matches_at(lit, "{{"@, j) by {
        if matches_at(lit, "{{"@, j) {
            assert(lit.subrange(j, j + 2)[0] == lit[j]);
        }
    }
    lemma_find_absent(lit, "{{"@, 0);
}

/// A literal without `{` followed by a known placeholder parses to the
/// literal, the placeholder, and then whatever follows.
proof fn lemma_parse_step(lit: Seq<char>, name: Seq<char>, tail: Seq<char>, sec: Section)
    requires
        forall|j: int| 0 <= j < lit.len() ==> lit[j] != '{',
        forall|j: int| 0 <= j < name.len() ==> name[j] != '}',
        trim(name) == name,
        spec_section_from_name(name) == Some(sec),
        spec_parse_segments(tail) is Ok,
    ensures
        spec_parse_segments(lit + "{{"@ + name + "}}"@ + tail) == Ok::<
            Seq<SegmentView>,
            TemplateErrorView,
        >(
            (if lit.len() > 0 {
                seq![SegmentView::Literal(lit)]
            } else {
                Seq::empty()
            }) + seq![SegmentView::Placeholder(sec)] + spec_parse_segments(tail)->Ok_0,
        ),
{
    reveal_strlit("{{");
    reveal_strlit("}}");
    let s = lit + "{{"@ + name + "}}"@ + tail;
    let o = lit.len() as int;
    assert(s.subrange(o, o + 2) =~= "{{"@);
    assert forall|j: int| 0 <= j < o implies !#[trigger] matches_at(s, "{{"@, j) by {
        assert(s.subrange(j, j + 2)[0] == s[j]);
        assert(s[j] == lit[j]);
    }
    lemma_find_skips(s, "{{"@, 0, o);
    let after = s.subrange(o + 2, s.len() as int);
    assert(after =~= name + "}}"@ + tail);
    let c = name.len() as int;
    assert(after.subrange(c, c + 2) =~= "}}"@);
    assert forall|j: int| 0 <= j < c implies !#[trigger] matches_at(after, "}}"@, j) by {
        assert(after.subrange(j, j + 2)[0] == after[j]);
        assert(after[j] == name[j]);
    }
    lemma_find_skips(after, "}}"@, 0, c);
    assert(after.subrange(0, c) =~= name);
    assert(after.subrange(c + 2, after.len() as int) =~= tail);
    assert(s.subrange(0, o) =~= lit);
}

/// [`DEFAULT_TEMPLATE`] parses to [`spec_default_segments`].
#[verifier::spinoff_prover]
#[verifier::rlimit(60)]
pub proof fn lemma_default_template_segments()
    ensures
        spec_parse_segments(DEFAULT_TEMPLATE@) == Ok::<Seq<SegmentView>, TemplateErrorView>(
            spec_default_segments(),
        ),
{
    reveal_strlit("{{frontmatter}}\n\n{{title}}\n\n{{abstract}}\n\n{{description}}\n\n{{claims}}\n");
    reveal_strlit("{{");
    reveal_strlit("}}");
    reveal_strlit("frontmatter");
    reveal_strlit("title");
    reveal_strlit("abstract");
    reveal_strlit("description");
    reveal_strlit("claims");
    let nl2 = seq!['\n', '\n'];
    let nl1 = seq!['\n'];
    let empty = Seq::<char>::empty();
    lemma_trim_plain("frontmatter"@);
    lemma_trim_plain("title"@);
    lemma_trim_plain("abstract"@);
    lemma_trim_plain("description"@);
    lemma_trim_plain("claims"@);
    lemma_parse_literal(nl1);
    let t4 = nl2 + "{{"@ + "claims"@ + "}}"@ + nl1;
    lemma_parse_step(nl2, "claims"@, nl1, Section::Claims);
    let t3 = nl2 + "{{"@ + "description"@ + "}}"@ + t4;
    lemma_parse_step(nl2, "description"@, t4, Section::Description);
    let t2 = nl2 + "{{"@ + "abstract"@ + "}}"@ + t3;
    lemma_parse_step(nl2, "abstract"@, t3, Section::Abstract);
    let t1 = nl2 + "{{"@ + "title"@ + "}}"@ + t2;
    lemma_parse_step(nl2, "title"@, t2, Section::Title);
    let t0 = empty + "{{"@ + "frontmatter"@ + "}}"@ + t1;
    lemma_parse_step(empty, "frontmatter"@, t1, Section::Frontmatter);
    assert(DEFAULT_TEMPLATE@ =~= t0);
    assert(spec_parse_segments(t0)->Ok_0 =~= spec_default_segments());
}

impl Default for Template {
    fn default() -> (r: Self)
        ensures
            r@ == spec_default_segments(),
    {
        proof {
            lemma_default_template_segments();
        }
        match Template::parse(DEFAULT_TEMPLATE) {
            Ok(t) => t,
            Err(_) => Template { segments: Vec::new() },
        }
    }
}

} // verus!
