//! Inline rendering: entity decoding, verbatim XML fragments, text runs, and
//! claim text layout.

use vstd::prelude::*;

use crate::model::opaque::{XmlAttribute, XmlFragment, XmlName};
use crate::model::runs::Run;
use crate::text::{
    append_chars, chars_of, collapse_whitespace, collapse_ws, count_leading_spaces,
    join, join_char_vecs, leading_spaces_from, lines, lines_of, push_spaces, replace_all,
    replace_str, spaces, split_char, split_on_char, trim, trim_chars, trim_end, trim_end_chars,
    lemma_deep_view_chars,
};

verus! {

// ---------------------------------------------------------------------------
// Entities
// ---------------------------------------------------------------------------

/// The named entities USPTO text leaves unexpanded, replaced in this order.
pub open spec fn spec_decode_entities(v: Seq<char>) -> Seq<char> {
    let s = replace_all(v, "&lsqb;"@, "["@);
    let s = replace_all(s, "&rsqb;"@, "]"@);
    let s = replace_all(s, "&ldquo;"@, "\""@);
    let s = replace_all(s, "&rdquo;"@, "\""@);
    let s = replace_all(s, "&lsquo;"@, "'"@);
    let s = replace_all(s, "&rsquo;"@, "'"@);
    let s = replace_all(s, "&mdash;"@, "-"@);
    let s = replace_all(s, "&ndash;"@, "-"@);
    let s = replace_all(s, "&apos;"@, "'"@);
    let s = replace_all(s, "&quot;"@, "\""@);
    let s = replace_all(s, "&amp;"@, "&"@);
    let s = replace_all(s, "&lt;"@, "<"@);
    let s = replace_all(s, "&gt;"@, ">"@);
    let s = replace_all(s, "&Prime;"@, "\""@);
    let s = replace_all(s, "&prime;"@, "'"@);
    let s = replace_all(s, "&equals;"@, "="@);
    replace_all(s, "&deg;"@, " deg"@)
}

pub fn decode_entities(value: &[char]) -> (r: Vec<char>)
    ensures
        r@ == spec_decode_entities(value@),
{
    proof {
        reveal_strlit("&lsqb;");
        reveal_strlit("&rsqb;");
        reveal_strlit("&ldquo;");
        reveal_strlit("&rdquo;");
        reveal_strlit("&lsquo;");
        reveal_strlit("&rsquo;");
        reveal_strlit("&mdash;");
        reveal_strlit("&ndash;");
        reveal_strlit("&apos;");
        reveal_strlit("&quot;");
        reveal_strlit("&amp;");
        reveal_strlit("&lt;");
        reveal_strlit("&gt;");
        reveal_strlit("&Prime;");
        reveal_strlit("&prime;");
        reveal_strlit("&equals;");
        reveal_strlit("&deg;");
    }
    let s = replace_str(value, "&lsqb;", "[");
    let s = replace_str(s.as_slice(), "&rsqb;", "]");
    let s = replace_str(s.as_slice(), "&ldquo;", "\"");
    let s = replace_str(s.as_slice(), "&rdquo;", "\"");
    let s = replace_str(s.as_slice(), "&lsquo;", "'");
    let s = replace_str(s.as_slice(), "&rsquo;", "'");
    let s = replace_str(s.as_slice(), "&mdash;", "-");
    let s = replace_str(s.as_slice(), "&ndash;", "-");
    let s = replace_str(s.as_slice(), "&apos;", "'");
    let s = replace_str(s.as_slice(), "&quot;", "\"");
    let s = replace_str(s.as_slice(), "&amp;", "&");
    let s = replace_str(s.as_slice(), "&lt;", "<");
    let s = replace_str(s.as_slice(), "&gt;", ">");
    let s = replace_str(s.as_slice(), "&Prime;", "\"");
    let s = replace_str(s.as_slice(), "&prime;", "'");
    let s = replace_str(s.as_slice(), "&equals;", "=");
    replace_str(s.as_slice(), "&deg;", " deg")
}

pub fn decode_entities_str(value: &str) -> (r: Vec<char>)
    ensures
        r@ == spec_decode_entities(value@),
{
    let cs = chars_of(value);
    decode_entities(cs.as_slice())
}

// ---------------------------------------------------------------------------
// Verbatim XML fragments
// ---------------------------------------------------------------------------

/// `prefix:local`, or `local` without a prefix.
pub open spec fn spec_qualified(prefix: Option<String>, local: Seq<char>) -> Seq<char> {
    match prefix {
        Some(p) => p@ + seq![':'] + local,
        None => local,
    }
}

pub open spec fn spec_render_xml_name(name: XmlName) -> Seq<char> {
    spec_qualified(name.prefix, name.local_name@)
}

pub open spec fn spec_render_xml_attribute(a: XmlAttribute) -> Seq<char> {
    spec_qualified(a.prefix, a.local_name@) + seq!['=', '"'] + a.value@ + seq!['"']
}

pub open spec fn spec_render_xml_attributes(attrs: Seq<XmlAttribute>) -> Seq<char>
    decreases attrs.len(),
{
    if attrs.len() == 0 {
        Seq::empty()
    } else {
        spec_render_xml_attributes(attrs.drop_last()) + seq![' '] + spec_render_xml_attribute(
            attrs.last(),
        )
    }
}

/// A verbatim fragment as Markdown text: text decoded, elements re-tagged with
/// their attributes (values as stored, unescaped).
pub open spec fn spec_render_xml_fragment(f: XmlFragment) -> Seq<char>
    decreases f,
{
    match f {
        XmlFragment::Text(v) => spec_decode_entities(v@),
        XmlFragment::Element { name, attributes, children } => {
            seq!['<'] + spec_render_xml_name(name) + spec_render_xml_attributes(attributes@)
                + seq!['>'] + spec_render_xml_fragments(children@) + seq!['<', '/']
                + spec_render_xml_name(name) + seq!['>']
        },
    }
}

pub open spec fn spec_render_xml_fragments(fs: Seq<XmlFragment>) -> Seq<char>
    decreases fs,
{
    if fs.len() == 0 {
        Seq::empty()
    } else {
        spec_render_xml_fragments(fs.drop_last()) + spec_render_xml_fragment(fs.last())
    }
}

pub fn qualified_chars(prefix: &Option<String>, local: &String) -> (r: Vec<char>)
    ensures
        r@ == spec_qualified(*prefix, local@),
{
    let mut out: Vec<char> = Vec::new();
    match prefix {
        Some(p) => {
            let pc = chars_of(p.as_str());
            append_chars(&mut out, pc.as_slice());
            out.push(':');
        },
        None => {},
    }
    let lc = chars_of(local.as_str());
    append_chars(&mut out, lc.as_slice());
    out
}

pub fn render_xml_name(name: &XmlName) -> (r: Vec<char>)
    ensures
        r@ == spec_render_xml_name(*name),
{
    qualified_chars(&name.prefix, &name.local_name)
}

pub fn render_xml_attribute(attribute: &XmlAttribute) -> (r: Vec<char>)
    ensures
        r@ == spec_render_xml_attribute(*attribute),
{
    let mut out = qualified_chars(&attribute.prefix, &attribute.local_name);
    out.push('=');
    out.push('"');
    let vc = chars_of(attribute.value.as_str());
    append_chars(&mut out, vc.as_slice());
    out.push('"');
    out
}

pub fn render_xml_fragment(fragment: &XmlFragment) -> (r: Vec<char>)
    ensures
        r@ == spec_render_xml_fragment(*fragment),
    decreases fragment,
{
    match fragment {
        XmlFragment::Text(value) => decode_entities_str(value.as_str()),
        XmlFragment::Element { name, attributes, children } => {
            let tag = render_xml_name(name);
            let mut output: Vec<char> = Vec::new();
            output.push('<');
            append_chars(&mut output, tag.as_slice());
            let mut i: usize = 0;
            while i < attributes.len()
                invariant
                    i <= attributes.len(),
                    tag@ == spec_render_xml_name(*name),
                    output@ == seq!['<'] + tag@ + spec_render_xml_attributes(
                        attributes@.take(i as int),
                    ),
                decreases attributes.len() - i,
            {
                assert(attributes@.take(i + 1).drop_last() =~= attributes@.take(i as int));
                output.push(' ');
                let a = render_xml_attribute(&attributes[i]);
                append_chars(&mut output, a.as_slice());
                i += 1;
            }
            assert(attributes@.take(attributes.len() as int) =~= attributes@);
            output.push('>');
            let mut k: usize = 0;
            while k < children.len()
                invariant
                    k <= children.len(),
                    *fragment is Element && (*fragment)->children == *children,
                    output@ == seq!['<'] + tag@ + spec_render_xml_attributes(attributes@)
                        + seq!['>'] + spec_render_xml_fragments(children@.take(k as int)),
                decreases children.len() - k,
            {
                assert(children@.take(k + 1).drop_last() =~= children@.take(k as int));
                proof {
                    assert(decreases_to!(*fragment => (*fragment)->children));
                    assert(decreases_to!(*children => children@));
                }
                let c = render_xml_fragment(&children[k]);
                append_chars(&mut output, c.as_slice());
                k += 1;
            }
            assert(children@.take(children.len() as int) =~= children@);
            output.push('<');
            output.push('/');
            append_chars(&mut output, tag.as_slice());
            output.push('>');
            output
        },
    }
}

// ---------------------------------------------------------------------------
// Text runs
// ---------------------------------------------------------------------------

/// Runs as Markdown text: bold as `**..**`, italic as `*..*`, figure
/// references flattened plainly, everything else by its content.
pub open spec fn spec_flatten_runs(runs: Seq<Run>) -> Seq<char>
    decreases runs,
{
    if runs.len() == 0 {
        Seq::empty()
    } else {
        spec_flatten_runs(runs.drop_last()) + match runs.last() {
            Run::Text(v) => spec_decode_entities(v@),
            Run::Number(v) => spec_flatten_runs(v.content@),
            Run::CrossReference(v) => spec_flatten_runs(v.content@),
            Run::FigureReference(v) => spec_flatten_runs_plain(v.content@),
            Run::DependentClaimReference(v) => spec_flatten_runs(v.content@),
            Run::Bold(v) => seq!['*', '*'] + spec_flatten_runs(v.content@) + seq!['*', '*'],
            Run::Italic(v) => seq!['*'] + spec_flatten_runs(v.content@) + seq!['*'],
            Run::Highlight(v) => spec_flatten_runs(v.content@),
            Run::ClaimText(v) => spec_flatten_runs(v.content@),
            Run::Opaque(v) => spec_render_xml_fragment(v.xml),
        }
    }
}

/// Runs as plain text: markup dropped, content kept.
pub open spec fn spec_flatten_runs_plain(runs: Seq<Run>) -> Seq<char>
    decreases runs,
{
    if runs.len() == 0 {
        Seq::empty()
    } else {
        spec_flatten_runs_plain(runs.drop_last()) + match runs.last() {
            Run::Text(v) => spec_decode_entities(v@),
            Run::Number(v) => spec_flatten_runs_plain(v.content@),
            Run::CrossReference(v) => spec_flatten_runs_plain(v.content@),
            Run::FigureReference(v) => spec_flatten_runs_plain(v.content@),
            Run::DependentClaimReference(v) => spec_flatten_runs_plain(v.content@),
            Run::Bold(v) => spec_flatten_runs_plain(v.content@),
            Run::Italic(v) => spec_flatten_runs_plain(v.content@),
            Run::Highlight(v) => spec_flatten_runs_plain(v.content@),
            Run::ClaimText(v) => spec_flatten_runs_plain(v.content@),
            Run::Opaque(v) => spec_render_xml_fragment(v.xml),
        }
    }
}

pub fn flatten_runs(runs: &Vec<Run>) -> (r: Vec<char>)
    ensures
        r@ == spec_flatten_runs(runs@),
    decreases runs@,
{
    let mut output: Vec<char> = Vec::new();
    let mut i: usize = 0;
    while i < runs.len()
        invariant
            i <= runs.len(),
            output@ == spec_flatten_runs(runs@.take(i as int)),
        decreases runs.len() - i,
    {
        let ghost pre = runs@.take(i as int);
        assert(runs@.take(i + 1).drop_last() =~= pre);
        assert(runs@.take(i + 1).last() == runs@[i as int]);
        proof {
            assert(decreases_to!(runs@ => runs@[i as int]));
        }
        let piece: Vec<char> = match &runs[i] {
            Run::Text(value) => decode_entities_str(value.as_str()),
            Run::Number(value) => {
                proof { assert(decreases_to!(runs@[i as int] => value.content@)) by { assert(decreases_to!(value.content => value.content@)); } }
                flatten_runs(&value.content)
            },
            Run::CrossReference(value) => {
                proof { assert(decreases_to!(runs@[i as int] => value.content@)) by { assert(decreases_to!(value.content => value.content@)); } }
                flatten_runs(&value.content)
            },
            Run::FigureReference(value) => {
                proof { assert(decreases_to!(runs@[i as int] => value.content@)) by { assert(decreases_to!(value.content => value.content@)); } }
                flatten_runs_plain(&value.content)
            },
            Run::DependentClaimReference(value) => {
                proof { assert(decreases_to!(runs@[i as int] => value.content@)) by { assert(decreases_to!(value.content => value.content@)); } }
                flatten_runs(&value.content)
            },
            Run::Bold(value) => {
                proof { assert(decreases_to!(runs@[i as int] => value.content@)) by { assert(decreases_to!(value.content => value.content@)); } }
                let inner = flatten_runs(&value.content);
                let mut p: Vec<char> = Vec::new();
                p.push('*');
                p.push('*');
                append_chars(&mut p, inner.as_slice());
                p.push('*');
                p.push('*');
                p
            },
            Run::Italic(value) => {
                proof { assert(decreases_to!(runs@[i as int] => value.content@)) by { assert(decreases_to!(value.content => value.content@)); } }
                let inner = flatten_runs(&value.content);
                let mut p: Vec<char> = Vec::new();
                p.push('*');
                append_chars(&mut p, inner.as_slice());
                p.push('*');
                p
            },
            Run::Highlight(value) => {
                proof { assert(decreases_to!(runs@[i as int] => value.content@)) by { assert(decreases_to!(value.content => value.content@)); } }
                flatten_runs(&value.content)
            },
            Run::ClaimText(value) => {
                proof { assert(decreases_to!(runs@[i as int] => value.content@)) by { assert(decreases_to!(value.content => value.content@)); } }
                flatten_runs(&value.content)
            },
            Run::Opaque(value) => render_xml_fragment(&value.xml),
        };
        append_chars(&mut output, piece.as_slice());
        i += 1;
    }
    assert(runs@.take(runs.len() as int) =~= runs@);
    output
}

pub fn flatten_runs_plain(runs: &Vec<Run>) -> (r: Vec<char>)
    ensures
        r@ == spec_flatten_runs_plain(runs@),
    decreases runs@,
{
    let mut output: Vec<char> = Vec::new();
    let mut i: usize = 0;
    while i < runs.len()
        invariant
            i <= runs.len(),
            output@ == spec_flatten_runs_plain(runs@.take(i as int)),
        decreases runs.len() - i,
    {
        let ghost pre = runs@.take(i as int);
        assert(runs@.take(i + 1).drop_last() =~= pre);
        assert(runs@.take(i + 1).last() == runs@[i as int]);
        proof {
            assert(decreases_to!(runs@ => runs@[i as int]));
        }
        let piece: Vec<char> = match &runs[i] {
            Run::Text(value) => decode_entities_str(value.as_str()),
            Run::Number(value) => {
                proof { assert(decreases_to!(runs@[i as int] => value.content@)) by { assert(decreases_to!(value.content => value.content@)); } }
                flatten_runs_plain(&value.content)
            },
            Run::CrossReference(value) => {
                proof { assert(decreases_to!(runs@[i as int] => value.content@)) by { assert(decreases_to!(value.content => value.content@)); } }
                flatten_runs_plain(&value.content)
            },
            Run::FigureReference(value) => {
                proof { assert(decreases_to!(runs@[i as int] => value.content@)) by { assert(decreases_to!(value.content => value.content@)); } }
                flatten_runs_plain(&value.content)
            },
            Run::DependentClaimReference(value) => {
                proof { assert(decreases_to!(runs@[i as int] => value.content@)) by { assert(decreases_to!(value.content => value.content@)); } }
                flatten_runs_plain(&value.content)
            },
            Run::Bold(value) | Run::Italic(value) | Run::Highlight(value) | Run::ClaimText(value) => {
                proof { assert(decreases_to!(runs@[i as int] => value.content@)) by { assert(decreases_to!(value.content => value.content@)); } }
                flatten_runs_plain(&value.content)
            },
            Run::Opaque(value) => render_xml_fragment(&value.xml),
        };
        append_chars(&mut output, piece.as_slice());
        i += 1;
    }
    assert(runs@.take(runs.len() as int) =~= runs@);
    output
}

// ---------------------------------------------------------------------------
// Claims
// ---------------------------------------------------------------------------

/// Each non-empty line of `value` prefixed with `indent` spaces.
pub open spec fn spec_apply_indent(value: Seq<char>, indent: nat) -> Seq<char> {
    if indent == 0 {
        value
    } else {
        join(indent_pieces(split_char(value, '\n'), indent), seq!['\n'])
    }
}

pub open spec fn indent_pieces(parts: Seq<Seq<char>>, indent: nat) -> Seq<Seq<char>> {
    parts.map_values(|p: Seq<char>| if p.len() > 0 { spaces(indent) + p } else { p })
}

pub fn apply_indent(value: &[char], indent: usize) -> (r: Vec<char>)
    ensures
        r@ == spec_apply_indent(value@, indent as nat),
{
    if indent == 0 {
        return crate::text::copy_chars(value);
    }
    let parts = split_on_char(value, '\n');
    let mut pieces: Vec<Vec<char>> = Vec::new();
    let mut i: usize = 0;
    while i < parts.len()
        invariant
            i <= parts.len(),
            pieces.deep_view() == indent_pieces(parts.deep_view().take(i as int), indent as nat),
        decreases parts.len() - i,
    {
        let part = &parts[i];
        let mut p: Vec<char> = Vec::new();
        if part.len() > 0 {
            push_spaces(&mut p, indent);
        }
        append_chars(&mut p, part.as_slice());
        let ghost old_pieces = pieces.deep_view();
        proof { lemma_deep_view_chars(p); }
        pieces.push(p);
        assert(parts.deep_view()[i as int] == parts@[i as int]@);
        assert(pieces.deep_view() =~= old_pieces.push(p@));
        assert(indent_pieces(parts.deep_view().take(i + 1), indent as nat) =~= indent_pieces(
            parts.deep_view().take(i as int),
            indent as nat,
        ).push(if part@.len() > 0 { spaces(indent as nat) + part@ } else { part@ }));
        i += 1;
    }
    assert(parts.deep_view().take(parts.len() as int) =~= parts.deep_view());
    let r = join_char_vecs(&pieces, "\n");
    proof {
        reveal_strlit("\n");
        assert("\n"@ =~= seq!['\n']);
    }
    r
}

/// Claim text with nested `claim-text` blocks on their own indented lines.
/// `nested` is set inside any inline container; a nested `claim-text` starts a
/// new line and indents two more spaces.
pub open spec fn spec_claim_runs(runs: Seq<Run>, indent: nat, nested: bool) -> Seq<char>
    decreases runs,
{
    if runs.len() == 0 {
        Seq::empty()
    } else {
        let prev = spec_claim_runs(runs.drop_last(), indent, nested);
        match runs.last() {
            Run::ClaimText(c) => {
                let next_indent: nat = if nested {
                    sat_add2(indent)
                } else {
                    indent
                };
                let p = if nested && prev.len() > 0 && prev.last() != '\n' {
                    prev.push('\n')
                } else {
                    prev
                };
                p + spec_claim_runs(c.content@, next_indent, true)
            },
            Run::Text(v) => prev + spec_apply_indent(spec_decode_entities(v@), indent),
            Run::DependentClaimReference(v) => prev + spec_claim_runs(v.content@, indent, true),
            Run::Number(v) => prev + spec_claim_runs(v.content@, indent, true),
            Run::CrossReference(v) => prev + spec_claim_runs(v.content@, indent, true),
            Run::FigureReference(v) => prev + spec_claim_runs(v.content@, indent, true),
            Run::Bold(v) => prev + spec_claim_runs(v.content@, indent, true),
            Run::Italic(v) => prev + spec_claim_runs(v.content@, indent, true),
            Run::Highlight(v) => prev + spec_claim_runs(v.content@, indent, true),
            Run::Opaque(v) => prev + spec_apply_indent(spec_render_xml_fragment(v.xml), indent),
        }
    }
}

/// `indent + 2`, saturating at the largest `usize`.
pub open spec fn sat_add2(indent: nat) -> nat {
    if indent + 2 > usize::MAX {
        usize::MAX as nat
    } else {
        indent + 2
    }
}

pub fn render_claim_runs(runs: &Vec<Run>, indent: usize, nested_claim_text: bool) -> (r: Vec<char>)
    ensures
        r@ == spec_claim_runs(runs@, indent as nat, nested_claim_text),
    decreases runs@,
{
    let mut output: Vec<char> = Vec::new();
    let mut i: usize = 0;
    while i < runs.len()
        invariant
            i <= runs.len(),
            output@ == spec_claim_runs(runs@.take(i as int), indent as nat, nested_claim_text),
        decreases runs.len() - i,
    {
        let ghost pre = runs@.take(i as int);
        assert(runs@.take(i + 1).drop_last() =~= pre);
        assert(runs@.take(i + 1).last() == runs@[i as int]);
        proof {
            assert(decreases_to!(runs@ => runs@[i as int]));
        }
        match &runs[i] {
            Run::ClaimText(container) => {
                proof { assert(decreases_to!(runs@[i as int] => container.content@)) by { assert(decreases_to!(container.content => container.content@)); } }
                let next_indent = if nested_claim_text {
                    indent.saturating_add(2)
                } else {
                    indent
                };
                if nested_claim_text && output.len() > 0 && output[output.len() - 1] != '\n' {
                    output.push('\n');
                }
                let inner = render_claim_runs(&container.content, next_indent, true);
                append_chars(&mut output, inner.as_slice());
            },
            Run::Text(value) => {
                let d = decode_entities_str(value.as_str());
                let p = apply_indent(d.as_slice(), indent);
                append_chars(&mut output, p.as_slice());
            },
            Run::DependentClaimReference(reference) => {
                proof { assert(decreases_to!(runs@[i as int] => reference.content@)) by { assert(decreases_to!(reference.content => reference.content@)); } }
                let inner = render_claim_runs(&reference.content, indent, true);
                append_chars(&mut output, inner.as_slice());
            },
            Run::Number(value) => {
                proof { assert(decreases_to!(runs@[i as int] => value.content@)) by { assert(decreases_to!(value.content => value.content@)); } }
                let inner = render_claim_runs(&value.content, indent, true);
                append_chars(&mut output, inner.as_slice());
            },
            Run::CrossReference(value) | Run::FigureReference(value) => {
                proof { assert(decreases_to!(runs@[i as int] => value.content@)) by { assert(decreases_to!(value.content => value.content@)); } }
                let inner = render_claim_runs(&value.content, indent, true);
                append_chars(&mut output, inner.as_slice());
            },
            Run::Bold(value) | Run::Italic(value) | Run::Highlight(value) => {
                proof { assert(decreases_to!(runs@[i as int] => value.content@)) by { assert(decreases_to!(value.content => value.content@)); } }
                let inner = render_claim_runs(&value.content, indent, true);
                append_chars(&mut output, inner.as_slice());
            },
            Run::Opaque(value) => {
                let f = render_xml_fragment(&value.xml);
                let p = apply_indent(f.as_slice(), indent);
                append_chars(&mut output, p.as_slice());
            },
        }
        i += 1;
    }
    assert(runs@.take(runs.len() as int) =~= runs@);
    output
}

/// One claim line: its leading-space indent kept, its words joined by single
/// spaces; a blank line becomes empty.
pub open spec fn spec_normalize_claim_line(line: Seq<char>) -> Seq<char> {
    if trim(line).len() == 0 {
        Seq::empty()
    } else {
        spaces(leading_spaces_from(line, 0) as nat) + collapse_ws(trim(line))
    }
}

pub open spec fn spec_normalize_claim_text(value: Seq<char>) -> Seq<char> {
    trim_end(
        join(lines(value).map_values(|l: Seq<char>| spec_normalize_claim_line(l)), seq!['\n']),
    )
}

pub fn normalize_claim_line(line: &[char]) -> (r: Vec<char>)
    ensures
        r@ == spec_normalize_claim_line(line@),
{
    let indent = count_leading_spaces(line);
    let trimmed = trim_chars(line);
    if trimmed.len() == 0 {
        return Vec::new();
    }
    let normalized = collapse_whitespace(trimmed.as_slice());
    let mut out: Vec<char> = Vec::new();
    push_spaces(&mut out, indent);
    append_chars(&mut out, normalized.as_slice());
    out
}

pub fn normalize_claim_text(value: &[char]) -> (r: Vec<char>)
    ensures
        r@ == spec_normalize_claim_text(value@),
{
    let ls = lines_of(value);
    let mut normalized: Vec<Vec<char>> = Vec::new();
    let mut i: usize = 0;
    while i < ls.len()
        invariant
            i <= ls.len(),
            ls.deep_view() == lines(value@),
            normalized.deep_view() == lines(value@).take(i as int).map_values(
                |l: Seq<char>| spec_normalize_claim_line(l),
            ),
        decreases ls.len() - i,
    {
        let n = normalize_claim_line(ls[i].as_slice());
        let ghost old_n = normalized.deep_view();
        proof { lemma_deep_view_chars(n); }
        normalized.push(n);
        assert(ls.deep_view()[i as int] == ls@[i as int]@);
        assert(normalized.deep_view() =~= old_n.push(n@));
        assert(lines(value@).take(i + 1).map_values(|l: Seq<char>| spec_normalize_claim_line(l))
            =~= lines(value@).take(i as int).map_values(
            |l: Seq<char>| spec_normalize_claim_line(l),
        ).push(spec_normalize_claim_line(ls@[i as int]@)));
        i += 1;
    }
    assert(lines(value@).take(ls.len() as int) =~= lines(value@));
    let joined = join_char_vecs(&normalized, "\n");
    proof {
        reveal_strlit("\n");
        assert("\n"@ =~= seq!['\n']);
    }
    trim_end_chars(joined.as_slice())
}

} // verus!
