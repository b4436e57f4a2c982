//! Writing XML text: tags, attributes, escaping, verbatim fragments and the
//! prolog.

use vstd::prelude::*;

use crate::model::opaque::{XmlAttribute, XmlFragment, XmlProlog};
use crate::render::inline::spec_qualified;
use crate::text::{chars_of, push_char, push_chars, push_str, replace_all, starts_with, trim_start};

verus! {

// ---------------------------------------------------------------------------
// Escaping
// ---------------------------------------------------------------------------

/// A character allowed in an entity name between `&` and `;`.
pub open spec fn is_entity_char(c: char) -> bool {
    crate::text::is_alnum(c) || c == '#' || c == '-' || c == '_'
}

/// Index of the first `;` in `s` at or after `i`.
pub open spec fn first_semicolon(s: Seq<char>, i: int) -> Option<int>
    decreases s.len() - i,
{
    if i < 0 || i >= s.len() {
        None
    } else if s[i] == ';' {
        Some(i)
    } else {
        first_semicolon(s, i + 1)
    }
}

/// `s` (which starts with `&`) begins an entity reference: a `;` at index 2
/// or later, and only entity characters between `&` and it.
pub open spec fn spec_looks_like_entity(s: Seq<char>) -> bool {
    match first_semicolon(s, 0) {
        Some(p) => p >= 2 && forall|k: int| 1 <= k < p ==> is_entity_char(#[trigger] s[k]),
        None => false,
    }
}

fn looks_like_entity(s: &[char], start: usize) -> (r: bool)
    requires
        start <= s.len(),
    ensures
        r == spec_looks_like_entity(s@.skip(start as int)),
{
    let ghost t = s@.skip(start as int);
    let mut i: usize = start;
    while i < s.len() && s[i] != ';'
        invariant
            start <= i <= s.len(),
            t == s@.skip(start as int),
            first_semicolon(t, 0) == first_semicolon(t, i - start),
        decreases s.len() - i,
    {
        assert(t[i - start] == s@[i as int]);
        i += 1;
    }
    if i >= s.len() {
        assert(first_semicolon(t, i - start) is None);
        return false;
    }
    assert(t[i - start] == s@[i as int]);
    let p = i - start;
    if p < 2 {
        return false;
    }
    let mut k: usize = 1;
    while k < p
        invariant
            1 <= k <= p,
            p == i - start,
            i < s.len(),
            t == s@.skip(start as int),
            first_semicolon(t, 0) == Some(p as int),
            forall|m: int| 1 <= m < k ==> is_entity_char(#[trigger] t[m]),
        decreases p - k,
    {
        let c = s[start + k];
        assert(t[k as int] == c);
        if !(crate::text::is_ascii_digit(c) || crate::text::is_ascii_alpha(c) || c == '#' || c
            == '-' || c == '_') {
            return false;
        }
        k += 1;
    }
    true
}

/// The escape of the character at `i`: `&` kept when it starts an entity
/// reference, else `&amp;`; `<` and `>` escaped; anything else as is.
pub open spec fn escape_at(s: Seq<char>, i: int) -> Seq<char> {
    let c = s[i];
    if c == '&' {
        if spec_looks_like_entity(s.skip(i)) {
            seq!['&']
        } else {
            "&amp;"@
        }
    } else if c == '<' {
        "&lt;"@
    } else if c == '>' {
        "&gt;"@
    } else {
        seq![c]
    }
}

/// The escape of the first `n` characters of `s`.
pub open spec fn escape_upto(s: Seq<char>, n: int) -> Seq<char>
    decreases n,
{
    if n <= 0 || n > s.len() {
        Seq::empty()
    } else {
        escape_upto(s, n - 1) + escape_at(s, n - 1)
    }
}

/// Text escaped for XML character data; existing entity references are kept.
pub open spec fn spec_escape_text(s: Seq<char>) -> Seq<char> {
    escape_upto(s, s.len() as int)
}

pub fn escape_text_chars(value: &[char]) -> (r: Vec<char>)
    ensures
        r@ == spec_escape_text(value@),
{
    let mut out: Vec<char> = Vec::new();
    let mut i: usize = 0;
    while i < value.len()
        invariant
            i <= value.len(),
            out@ == escape_upto(value@, i as int),
        decreases value.len() - i,
    {
        let c = value[i];
        if c == '&' {
            if looks_like_entity(value, i) {
                out.push('&');
            } else {
                crate::text::append_chars(&mut out, chars_of("&amp;").as_slice());
            }
        } else if c == '<' {
            crate::text::append_chars(&mut out, chars_of("&lt;").as_slice());
        } else if c == '>' {
            crate::text::append_chars(&mut out, chars_of("&gt;").as_slice());
        } else {
            out.push(c);
        }
        assert(out@ =~= escape_upto(value@, i as int) + escape_at(value@, i as int));
        i += 1;
    }
    out
}

/// Escape `value` for XML character data.
pub fn escape_text(value: &str) -> (r: String)
    ensures
        r@ == spec_escape_text(value@),
{
    let v = chars_of(value);
    let e = escape_text_chars(v.as_slice());
    crate::text::string_of(e.as_slice())
}

/// Text escaped for a double-quoted attribute value.
pub open spec fn spec_escape_attribute(s: Seq<char>) -> Seq<char> {
    replace_all(spec_escape_text(s), seq!['"'], "&quot;"@)
}

pub fn escape_attribute(value: &str) -> (r: String)
    ensures
        r@ == spec_escape_attribute(value@),
{
    let v = chars_of(value);
    let e = escape_text_chars(v.as_slice());
    proof {
        reveal_strlit("\"");
        assert("\""@ =~= seq!['"']);
    }
    let q = crate::text::replace_str(e.as_slice(), "\"", "&quot;");
    crate::text::string_of(q.as_slice())
}

// ---------------------------------------------------------------------------
// Tags
// ---------------------------------------------------------------------------

/// `prefix:local`, or `local` without a prefix.
pub fn qualified_name(prefix: &Option<String>, local_name: &String) -> (r: String)
    ensures
        r@ == spec_qualified(*prefix, local_name@),
{
    match prefix {
        Some(p) => {
            let mut out = p.clone();
            push_char(&mut out, ':');
            push_str(&mut out, local_name.as_str());
            out
        },
        None => local_name.clone(),
    }
}

/// ` name="value"` for each attribute, values escaped.
pub open spec fn spec_attributes_text(attrs: Seq<XmlAttribute>) -> Seq<char>
    decreases attrs.len(),
{
    if attrs.len() == 0 {
        Seq::empty()
    } else {
        let a = attrs.last();
        spec_attributes_text(attrs.drop_last()) + seq![' '] + spec_qualified(a.prefix, a.local_name@)
            + seq!['=', '"'] + spec_escape_attribute(a.value@) + seq!['"']
    }
}

pub fn write_attributes(output: &mut String, attributes: &[XmlAttribute])
    ensures
        final(output)@ == old(output)@ + spec_attributes_text(attributes@),
{
    let mut i: usize = 0;
    while i < attributes.len()
        invariant
            i <= attributes.len(),
            output@ == old(output)@ + spec_attributes_text(attributes@.take(i as int)),
        decreases attributes.len() - i,
    {
        let a = &attributes[i];
        let ghost before = output@;
        push_char(output, ' ');
        let q = qualified_name(&a.prefix, &a.local_name);
        push_str(output, q.as_str());
        push_char(output, '=');
        push_char(output, '"');
        let v = escape_attribute(a.value.as_str());
        push_str(output, v.as_str());
        push_char(output, '"');
        assert(attributes@.take(i + 1).drop_last() =~= attributes@.take(i as int));
        assert(output@ =~= old(output)@ + spec_attributes_text(attributes@.take(i + 1)));
        i += 1;
    }
    assert(attributes@.take(attributes.len() as int) =~= attributes@);
}

pub open spec fn spec_start_tag(tag: Seq<char>, attrs: Seq<XmlAttribute>) -> Seq<char> {
    seq!['<'] + tag + spec_attributes_text(attrs) + seq!['>']
}

pub open spec fn spec_start_empty_tag(tag: Seq<char>, attrs: Seq<XmlAttribute>) -> Seq<char> {
    seq!['<'] + tag + spec_attributes_text(attrs) + seq!['/', '>']
}

pub open spec fn spec_end_tag(tag: Seq<char>) -> Seq<char> {
    seq!['<', '/'] + tag + seq!['>']
}

pub fn start_tag(output: &mut String, tag: &str, attributes: &[XmlAttribute])
    ensures
        final(output)@ == old(output)@ + spec_start_tag(tag@, attributes@),
{
    push_char(output, '<');
    push_str(output, tag);
    write_attributes(output, attributes);
    push_char(output, '>');
    assert(output@ =~= old(output)@ + spec_start_tag(tag@, attributes@));
}

pub fn start_empty_tag(output: &mut String, tag: &str, attributes: &[XmlAttribute])
    ensures
        final(output)@ == old(output)@ + spec_start_empty_tag(tag@, attributes@),
{
    push_char(output, '<');
    push_str(output, tag);
    write_attributes(output, attributes);
    push_char(output, '/');
    push_char(output, '>');
    assert(output@ =~= old(output)@ + spec_start_empty_tag(tag@, attributes@));
}

pub fn end_tag(output: &mut String, tag: &str)
    ensures
        final(output)@ == old(output)@ + spec_end_tag(tag@),
{
    push_char(output, '<');
    push_char(output, '/');
    push_str(output, tag);
    push_char(output, '>');
    assert(output@ =~= old(output)@ + spec_end_tag(tag@));
}

/// `<tag>escaped value</tag>`.
pub open spec fn spec_text_element(tag: Seq<char>, value: Seq<char>) -> Seq<char> {
    spec_start_tag(tag, Seq::empty()) + spec_escape_text(value) + spec_end_tag(tag)
}

pub fn write_text_element(output: &mut String, tag: &str, value: &str)
    ensures
        final(output)@ == old(output)@ + spec_text_element(tag@, value@),
{
    let empty: Vec<XmlAttribute> = Vec::new();
    start_tag(output, tag, empty.as_slice());
    let e = escape_text(value);
    push_str(output, e.as_str());
    end_tag(output, tag);
    assert(output@ =~= old(output)@ + spec_text_element(tag@, value@));
}

/// Text that already is markup: a processing instruction or declaration.
pub open spec fn spec_is_raw_markup_text(v: Seq<char>) -> bool {
    let t = trim_start(v);
    starts_with(t, seq!['<', '?']) || starts_with(t, seq!['<', '!'])
}

fn is_raw_markup_text(value: &String) -> (r: bool)
    ensures
        r == spec_is_raw_markup_text(value@),
{
    let v = chars_of(value.as_str());
    let t = crate::text::trim_start_chars(v.as_slice());
    proof {
        reveal_strlit("<?");
        reveal_strlit("<!");
        assert("<?"@ =~= seq!['<', '?']);
        assert("<!"@ =~= seq!['<', '!']);
    }
    crate::text::starts_with_str(t.as_slice(), "<?") || crate::text::starts_with_str(
        t.as_slice(),
        "<!",
    )
}

/// A verbatim fragment as XML: raw markup text as is, other text escaped,
/// elements with their attributes and children.
pub open spec fn spec_fragment_xml(f: XmlFragment) -> Seq<char>
    decreases f,
{
    match f {
        XmlFragment::Text(v) => if spec_is_raw_markup_text(v@) {
            v@
        } else {
            spec_escape_text(v@)
        },
        XmlFragment::Element { name, attributes, children } => {
            let tag = spec_qualified(name.prefix, name.local_name@);
            spec_start_tag(tag, attributes@) + spec_fragments_xml(children@) + spec_end_tag(tag)
        },
    }
}

pub open spec fn spec_fragments_xml(fs: Seq<XmlFragment>) -> Seq<char>
    decreases fs,
{
    if fs.len() == 0 {
        Seq::empty()
    } else {
        spec_fragments_xml(fs.drop_last()) + spec_fragment_xml(fs.last())
    }
}

pub fn write_xml_fragment(output: &mut String, fragment: &XmlFragment)
    ensures
        final(output)@ == old(output)@ + spec_fragment_xml(*fragment),
    decreases fragment,
{
    match fragment {
        XmlFragment::Text(value) => {
            if is_raw_markup_text(value) {
                push_str(output, value.as_str());
            } else {
                let e = escape_text(value.as_str());
                push_str(output, e.as_str());
            }
        },
        XmlFragment::Element { name, attributes, children } => {
            let tag = qualified_name(&name.prefix, &name.local_name);
            start_tag(output, tag.as_str(), attributes.as_slice());
            let ghost mid = output@;
            let mut k: usize = 0;
            while k < children.len()
                invariant
                    k <= children.len(),
                    *fragment is Element && (*fragment)->children == *children,
                    output@ == mid + spec_fragments_xml(children@.take(k as int)),
                decreases children.len() - k,
            {
                assert(children@.take(k + 1).drop_last() =~= children@.take(k as int));
                proof {
                    assert(decreases_to!(*fragment => (*fragment)->children));
                    assert(decreases_to!(*children => children@));
                }
                write_xml_fragment(output, &children[k]);
                k += 1;
            }
            assert(children@.take(children.len() as int) =~= children@);
            end_tag(output, tag.as_str());
        },
    }
}

// ---------------------------------------------------------------------------
// Prolog
// ---------------------------------------------------------------------------

pub open spec fn opt_text(o: Option<String>, f: spec_fn(Seq<char>) -> Seq<char>) -> Seq<char> {
    match o {
        Some(v) => f(v@),
        None => Seq::empty(),
    }
}

/// The XML declaration, when a version is known.
pub open spec fn spec_declaration_xml(p: XmlProlog) -> Seq<char> {
    match p.xml_version {
        Some(v) => "<?xml"@ + " version=\""@ + v@ + seq!['"'] + opt_text(
            p.xml_encoding,
            |e: Seq<char>| " encoding=\""@ + e + seq!['"'],
        ) + opt_text(p.xml_standalone, |s: Seq<char>| " standalone=\""@ + s + seq!['"'])
            + "?>"@,
        None => Seq::empty(),
    }
}

/// The DOCTYPE, when a name is known.
pub open spec fn spec_doctype_xml(p: XmlProlog) -> Seq<char> {
    match p.doctype_name {
        Some(n) => "<!DOCTYPE "@ + n@ + opt_text(
            p.doctype_public_id,
            |v: Seq<char>| " PUBLIC \""@ + v + seq!['"'],
        ) + match p.doctype_system_id {
            Some(s) => (if p.doctype_public_id is None {
                " SYSTEM"@
            } else {
                Seq::empty()
            }) + " \""@ + s@ + seq!['"'],
            None => Seq::empty(),
        } + opt_text(p.internal_subset, |v: Seq<char>| " ["@ + v + seq![']']) + seq!['>'],
        None => Seq::empty(),
    }
}

/// The XML declaration and the DOCTYPE the prolog records.
pub open spec fn spec_prolog_xml(p: XmlProlog) -> Seq<char> {
    spec_declaration_xml(p) + spec_doctype_xml(p)
}

fn push_quoted(output: &mut String, lead: &str, value: &String)
    ensures
        final(output)@ == old(output)@ + lead@ + value@ + seq!['"'],
{
    push_str(output, lead);
    push_str(output, value.as_str());
    push_char(output, '"');
    assert(output@ =~= old(output)@ + lead@ + value@ + seq!['"']);
}

fn write_declaration(output: &mut String, prolog: &XmlProlog)
    ensures
        final(output)@ == old(output)@ + spec_declaration_xml(*prolog),
{
    if let Some(version) = &prolog.xml_version {
        push_str(output, "<?xml");
        push_quoted(output, " version=\"", version);
        let ghost a = output@;
        if let Some(encoding) = &prolog.xml_encoding {
            push_quoted(output, " encoding=\"", encoding);
        }
        let ghost b = output@;
        if let Some(standalone) = &prolog.xml_standalone {
            push_quoted(output, " standalone=\"", standalone);
        }
        push_str(output, "?>");
        assert(output@ =~= old(output)@ + spec_declaration_xml(*prolog));
    } else {
        assert(output@ =~= old(output)@ + spec_declaration_xml(*prolog));
    }
}

fn write_doctype(output: &mut String, prolog: &XmlProlog)
    ensures
        final(output)@ == old(output)@ + spec_doctype_xml(*prolog),
{
    if let Some(name) = &prolog.doctype_name {
        push_str(output, "<!DOCTYPE ");
        push_str(output, name.as_str());
        if let Some(public_id) = &prolog.doctype_public_id {
            push_quoted(output, " PUBLIC \"", public_id);
        }
        if let Some(system_id) = &prolog.doctype_system_id {
            if prolog.doctype_public_id.is_none() {
                push_str(output, " SYSTEM");
            }
            push_quoted(output, " \"", system_id);
        }
        if let Some(subset) = &prolog.internal_subset {
            push_str(output, " [");
            push_str(output, subset.as_str());
            push_char(output, ']');
        }
        push_char(output, '>');
        assert(output@ =~= old(output)@ + spec_doctype_xml(*prolog));
    } else {
        assert(output@ =~= old(output)@ + spec_doctype_xml(*prolog));
    }
}

pub fn write_prolog(output: &mut String, prolog: &XmlProlog)
    ensures
        final(output)@ == old(output)@ + spec_prolog_xml(*prolog),
{
    write_declaration(output, prolog);
    write_doctype(output, prolog);
    assert(output@ =~= old(output)@ + spec_prolog_xml(*prolog));
}

// ---------------------------------------------------------------------------
// Concatenation
// ---------------------------------------------------------------------------

/// The texts `f` gives for each item, concatenated in order.
pub open spec fn concat_map<T>(s: Seq<T>, f: spec_fn(T) -> Seq<char>) -> Seq<char>
    decreases s.len(),
{
    if s.len() == 0 {
        Seq::empty()
    } else {
        concat_map(s.drop_last(), f) + f(s.last())
    }
}

pub proof fn lemma_concat_map_step<T>(s: Seq<T>, f: spec_fn(T) -> Seq<char>, i: int)
    requires
        0 <= i < s.len(),
    ensures
        concat_map(s.take(i + 1), f) == concat_map(s.take(i), f) + f(s[i]),
{
    assert(s.take(i + 1).drop_last() =~= s.take(i));
}

pub proof fn lemma_concat_map_all<T>(s: Seq<T>, f: spec_fn(T) -> Seq<char>)
    ensures
        concat_map(s.take(s.len() as int), f) == concat_map(s, f),
{
    assert(s.take(s.len() as int) =~= s);
}

/// An optional value written by `f`, nothing when absent.
pub open spec fn opt_xml(o: Option<String>, f: spec_fn(Seq<char>) -> Seq<char>) -> Seq<char> {
    match o {
        Some(v) => f(v@),
        None => Seq::empty(),
    }
}

pub fn write_opt_text_element(output: &mut String, tag: &str, value: &Option<String>)
    ensures
        final(output)@ == old(output)@ + opt_xml(*value, |v: Seq<char>| spec_text_element(tag@, v)),
{
    if let Some(v) = value {
        write_text_element(output, tag, v.as_str());
    } else {
        assert(output@ =~= old(output)@ + Seq::<char>::empty());
    }
}

// ---------------------------------------------------------------------------
// What escaping gives
// ---------------------------------------------------------------------------

/// Text with no markup character: no `&`, `<` or `>`.
pub open spec fn is_plain_text(s: Seq<char>) -> bool {
    forall|i: int| 0 <= i < s.len() ==> #[trigger] s[i] != '&' && s[i] != '<' && s[i] != '>'
}

proof fn lemma_escape_at_no_angle(s: Seq<char>, i: int)
    requires
        0 <= i < s.len(),
    ensures
        !escape_at(s, i).contains('<'),
        !escape_at(s, i).contains('>'),
{
    reveal_strlit("&amp;");
    reveal_strlit("&lt;");
    reveal_strlit("&gt;");
}

proof fn lemma_escape_upto_no_angle(s: Seq<char>, n: int)
    ensures
        !escape_upto(s, n).contains('<'),
        !escape_upto(s, n).contains('>'),
    decreases n,
{
    if 0 < n <= s.len() {
        lemma_escape_upto_no_angle(s, n - 1);
        lemma_escape_at_no_angle(s, n - 1);
        let a = escape_upto(s, n - 1);
        let e = escape_at(s, n - 1);
        assert forall|k: int| 0 <= k < (a + e).len() implies (a + e)[k] != '<' && (a + e)[k]
            != '>' by {
            if k < a.len() {
                assert((a + e)[k] == a[k]);
            } else {
                assert((a + e)[k] == e[k - a.len()]);
            }
        }
    }
}

proof fn lemma_escape_upto_plain(s: Seq<char>, n: int)
    requires
        is_plain_text(s),
        0 <= n <= s.len(),
    ensures
        escape_upto(s, n) == s.take(n),
    decreases n,
{
    if n > 0 {
        lemma_escape_upto_plain(s, n - 1);
        assert(s.take(n) =~= s.take(n - 1) + seq![s[n - 1]]);
    } else {
        assert(s.take(0) =~= Seq::<char>::empty());
    }
}

/// Escaped text holds no `<` or `>`, and text with no `&`, `<` or `>` is
/// left as it is.
pub proof fn law_escape_text_has_no_angle_brackets(s: Seq<char>)
    ensures
        !spec_escape_text(s).contains('<'),
        !spec_escape_text(s).contains('>'),
        is_plain_text(s) ==> spec_escape_text(s) == s,
{
    lemma_escape_upto_no_angle(s, s.len() as int);
    if is_plain_text(s) {
        lemma_escape_upto_plain(s, s.len() as int);
        assert(s.take(s.len() as int) =~= s);
    }
}

proof fn lemma_first_semicolon_at(a: Seq<char>, i: int, p: int)
    requires
        0 <= i <= p < a.len(),
        a[p] == ';',
        forall|k: int| i <= k < p ==> a[k] != ';',
    ensures
        first_semicolon(a, i) == Some(p),
    decreases p - i,
{
    if i < p {
        lemma_first_semicolon_at(a, i + 1, p);
    }
}

proof fn lemma_first_semicolon_found(a: Seq<char>, i: int)
    requires
        first_semicolon(a, i) is Some,
    ensures
        i <= first_semicolon(a, i)->0 < a.len(),
        a[first_semicolon(a, i)->0] == ';',
        forall|k: int| i <= k < first_semicolon(a, i)->0 ==> a[k] != ';',
    decreases a.len() - i,
{
    if 0 <= i < a.len() && a[i] != ';' {
        lemma_first_semicolon_found(a, i + 1);
    }
}

proof fn lemma_upto_prefix(s: Seq<char>, m: int, n: int)
    requires
        0 <= m <= n <= s.len(),
    ensures
        escape_upto(s, m).len() <= escape_upto(s, n).len(),
        forall|t: int|
            0 <= t < escape_upto(s, m).len() ==> #[trigger] escape_upto(s, n)[t] == escape_upto(
                s,
                m,
            )[t],
    decreases n,
{
    if m < n {
        lemma_upto_prefix(s, m, n - 1);
        let a = escape_upto(s, n - 1);
        let e = escape_at(s, n - 1);
        assert(escape_upto(s, n) == a + e);
        assert forall|t: int| 0 <= t < escape_upto(s, m).len() implies #[trigger] escape_upto(
            s,
            n,
        )[t] == escape_upto(s, m)[t] by {
            assert((a + e)[t] == a[t]);
        }
    }
}

/// Every `&` of the escape of the first `n` characters starts the escape of
/// an `&`, `<` or `>`.
proof fn lemma_amp_starts_piece(s: Seq<char>, n: int)
    requires
        0 <= n <= s.len(),
    ensures
        forall|j: int|
            0 <= j < escape_upto(s, n).len() && #[trigger] escape_upto(s, n)[j] == '&' ==> exists|
                i: int,
            |
                #![trigger escape_upto(s, i)]
                0 <= i < n && escape_upto(s, i).len() == j && (s[i] == '&' || s[i] == '<' || s[i]
                    == '>'),
    decreases n,
{
    reveal_strlit("&amp;");
    reveal_strlit("&lt;");
    reveal_strlit("&gt;");
    if n > 0 {
        lemma_amp_starts_piece(s, n - 1);
        let a = escape_upto(s, n - 1);
        let e = escape_at(s, n - 1);
        assert(escape_upto(s, n) == a + e);
        assert forall|j: int|
            0 <= j < escape_upto(s, n).len() && #[trigger] escape_upto(s, n)[j] == '&' implies exists|
                i: int,
            |
                #![trigger escape_upto(s, i)]
                0 <= i < n && escape_upto(s, i).len() == j && (s[i] == '&' || s[i] == '<' || s[i]
                    == '>') by {
            if j < a.len() {
                assert((a + e)[j] == a[j]);
                assert(a[j] == '&');
                let i = choose|i: int|
                    #![trigger escape_upto(s, i)]
                    0 <= i < n - 1 && escape_upto(s, i).len() == j && (s[i] == '&' || s[i] == '<'
                        || s[i] == '>');
                assert(0 <= i < n && escape_upto(s, i).len() == j);
            } else {
                assert((a + e)[j] == e[j - a.len()]);
                assert(j - a.len() == 0);
                assert(escape_upto(s, n - 1).len() == j);
            }
        }
    }
}

/// The escape of an entity reference is itself, character for character.
proof fn lemma_entity_kept(s: Seq<char>, i: int, p: int, k: int)
    requires
        0 <= i < s.len(),
        s[i] == '&',
        spec_looks_like_entity(s.skip(i)),
        first_semicolon(s.skip(i), 0) == Some(p),
        0 <= k <= p,
    ensures
        i + k < s.len(),
        escape_upto(s, i + k + 1) == escape_upto(s, i) + s.subrange(i, i + k + 1),
    decreases k,
{
    lemma_first_semicolon_found(s.skip(i), 0);
    assert(s.skip(i)[p] == s[i + p]);
    if k == 0 {
        assert(escape_at(s, i) == seq!['&']);
        assert(s.subrange(i, i + 1) =~= seq![s[i]]);
    } else {
        lemma_entity_kept(s, i, p, k - 1);
        let c = s[i + k];
        assert(s.skip(i)[k] == c);
        if k < p {
            assert(is_entity_char(s.skip(i)[k]));
        }
        assert(c != '&' && c != '<' && c != '>');
        assert(escape_at(s, i + k) == seq![c]);
        assert(s.subrange(i, i + k + 1) =~= s.subrange(i, i + k) + seq![c]);
    }
}

/// Every `&` of escaped text begins an entity reference.
proof fn lemma_escaped_amp_is_entity(s: Seq<char>, j: int)
    requires
        0 <= j < spec_escape_text(s).len(),
        spec_escape_text(s)[j] == '&',
    ensures
        spec_looks_like_entity(spec_escape_text(s).skip(j)),
{
    reveal_strlit("&amp;");
    reveal_strlit("&lt;");
    reveal_strlit("&gt;");
    let out = spec_escape_text(s);
    let n = s.len() as int;
    lemma_amp_starts_piece(s, n);
    assert(escape_upto(s, n)[j] == '&');
    let i = choose|i: int|
        #![trigger escape_upto(s, i)]
        0 <= i < n && escape_upto(s, i).len() == j && (s[i] == '&' || s[i] == '<' || s[i] == '>');
    let e = escape_at(s, i);
    lemma_upto_prefix(s, i + 1, n);
    assert(escape_upto(s, i + 1) == escape_upto(s, i) + e);
    let t = out.skip(j);
    if s[i] == '&' && spec_looks_like_entity(s.skip(i)) {
        let p = first_semicolon(s.skip(i), 0)->0;
        lemma_first_semicolon_found(s.skip(i), 0);
        lemma_entity_kept(s, i, p, p);
        lemma_upto_prefix(s, i + p + 1, n);
        let seg = escape_upto(s, i) + s.subrange(i, i + p + 1);
        assert forall|k: int| 0 <= k <= p implies t[k] == s.skip(i)[k] by {
            assert(escape_upto(s, i + p + 1)[j + k] == seg[j + k]);
            assert(seg[j + k] == s[i + k]);
        }
        assert forall|k: int| 0 <= k < p implies t[k] != ';' by {
            assert(t[k] == s.skip(i)[k]);
        }
        lemma_first_semicolon_at(t, 0, p);
        assert forall|k: int| 1 <= k < p implies is_entity_char(#[trigger] t[k]) by {
            assert(t[k] == s.skip(i)[k]);
        }
    } else {
        assert(e.len() >= 4);
        assert forall|k: int| 0 <= k < e.len() implies t[k] == e[k] by {
            assert(escape_upto(s, i + 1)[j + k] == e[k]);
        }
        let p = e.len() - 1;
        assert forall|k: int| 0 <= k < p implies t[k] != ';' by {}
        lemma_first_semicolon_at(t, 0, p);
        assert forall|k: int| 1 <= k < p implies is_entity_char(#[trigger] t[k]) by {}
    }
}

/// Text with no `<` or `>` whose every `&` begins an entity reference.
pub open spec fn is_escaped_text(s: Seq<char>) -> bool {
    forall|i: int|
        0 <= i < s.len() ==> #[trigger] s[i] != '<' && s[i] != '>' && (s[i] == '&'
            ==> spec_looks_like_entity(s.skip(i)))
}

proof fn lemma_escape_upto_escaped(s: Seq<char>, n: int)
    requires
        is_escaped_text(s),
        0 <= n <= s.len(),
    ensures
        escape_upto(s, n) == s.take(n),
    decreases n,
{
    if n > 0 {
        lemma_escape_upto_escaped(s, n - 1);
        assert(s[n - 1] != '<' && s[n - 1] != '>');
        assert(s.take(n) =~= s.take(n - 1) + seq![s[n - 1]]);
    } else {
        assert(s.take(0) =~= Seq::<char>::empty());
    }
}

/// Escaping escaped text changes nothing.
pub proof fn law_escape_text_is_idempotent(s: Seq<char>)
    ensures
        spec_escape_text(spec_escape_text(s)) == spec_escape_text(s),
{
    let out = spec_escape_text(s);
    lemma_escape_upto_no_angle(s, s.len() as int);
    assert forall|j: int| 0 <= j < out.len() implies #[trigger] out[j] != '<' && out[j] != '>' && (
    out[j] == '&' ==> spec_looks_like_entity(out.skip(j))) by {
        if out[j] == '&' {
            lemma_escaped_amp_is_entity(s, j);
        }
    }
    lemma_escape_upto_escaped(out, out.len() as int);
    assert(out.take(out.len() as int) =~= out);
}

} // verus!
