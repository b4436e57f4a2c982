//! Structured field extraction from a parsed [`PatentDocument`].
//!
//! Metadata (numbers, dates, parties, classifications) is available via
//! [`crate::render::biblio::extract_biblio`]. This module adds the document-body
//! extractors, claims and abstract as plain text, that the biblio record does
//! not carry.

use vstd::prelude::*;

use crate::model::claims::ClaimsPart;
use crate::model::description::{AbstractPart, AbstractSection};
use crate::model::document::{DocumentPart, PatentDocument};
use crate::render::inline::{flatten_runs_plain, spec_flatten_runs_plain};
use crate::text::{
    is_blank_chars, join, join_char_vecs, lemma_deep_view_chars, lemma_trim_empty_iff_blank,
    string_of, trim, trim_chars,
};

verus! {

/// A single claim as plain text, numbered by its 1-based position.
#[derive(Debug, Clone, PartialEq, Eq)]
pub struct ClaimText {
    pub number: usize,
    pub text: String,
}

/// The non-empty trimmed plain texts of the claims of one claims section.
pub open spec fn claim_texts_in(parts: Seq<ClaimsPart>) -> Seq<Seq<char>>
    decreases parts.len(),
{
    if parts.len() == 0 {
        Seq::empty()
    } else {
        let prev = claim_texts_in(parts.drop_last());
        match parts.last() {
            ClaimsPart::Claim(c) => {
                let t = trim(spec_flatten_runs_plain(c.content@));
                if t.len() > 0 {
                    prev.push(t)
                } else {
                    prev
                }
            },
            _ => prev,
        }
    }
}

/// The claim texts of every claims section, in source order.
pub open spec fn document_claim_texts(parts: Seq<DocumentPart>) -> Seq<Seq<char>>
    decreases parts.len(),
{
    if parts.len() == 0 {
        Seq::empty()
    } else {
        document_claim_texts(parts.drop_last()) + match parts.last() {
            DocumentPart::Claims(c) => claim_texts_in(c.parts@),
            _ => Seq::empty(),
        }
    }
}

/// Claims numbered from 1 in order, with the given texts.
pub open spec fn numbered(r: Seq<ClaimText>, texts: Seq<Seq<char>>) -> bool {
    &&& r.len() == texts.len()
    &&& forall|i: int| 0 <= i < r.len() ==> #[trigger] r[i].number == i + 1 && r[i].text@ == texts[i]
}

proof fn lemma_claim_texts_len(parts: Seq<ClaimsPart>)
    ensures
        claim_texts_in(parts).len() <= parts.len(),
    decreases parts.len(),
{
    if parts.len() > 0 {
        lemma_claim_texts_len(parts.drop_last());
    }
}

/// Every claim in the document, in source order, flattened to plain text.
pub fn claims(document: &PatentDocument) -> (r: Vec<ClaimText>)
    requires
        document_claim_texts(document.parts@).len() < usize::MAX,
    ensures
        numbered(r@, document_claim_texts(document.parts@)),
{
    let mut out: Vec<ClaimText> = Vec::new();
    let mut i: usize = 0;
    while i < document.parts.len()
        invariant
            i <= document.parts.len(),
            document_claim_texts(document.parts@).len() < usize::MAX,
            numbered(out@, document_claim_texts(document.parts@.take(i as int))),
        decreases document.parts.len() - i,
    {
        assert(document.parts@.take(i + 1).drop_last() =~= document.parts@.take(i as int));
        proof {
            lemma_claim_texts_prefix(document.parts@, i as int + 1);
        }
        if let DocumentPart::Claims(claims) = &document.parts[i] {
            let ghost base = document_claim_texts(document.parts@.take(i as int));
            let mut k: usize = 0;
            while k < claims.parts.len()
                invariant
                    k <= claims.parts.len(),
                    base.len() + claim_texts_in(claims.parts@).len() < usize::MAX,
                    numbered(out@, base + claim_texts_in(claims.parts@.take(k as int))),
                decreases claims.parts.len() - k,
            {
                assert(claims.parts@.take(k + 1).drop_last() =~= claims.parts@.take(k as int));
                proof {
                    lemma_claim_texts_prefix_in(claims.parts@, k as int + 1);
                }
                if let ClaimsPart::Claim(claim) = &claims.parts[k] {
                    let plain = flatten_runs_plain(&claim.content);
                    let t = trim_chars(plain.as_slice());
                    if t.len() > 0 {
                        let ghost before = out@;
                        let number = out.len() + 1;
                        out.push(ClaimText { number, text: string_of(t.as_slice()) });
                        assert(base + claim_texts_in(claims.parts@.take(k + 1)) =~= (base
                            + claim_texts_in(claims.parts@.take(k as int))).push(t@));
                    }
                }
                k += 1;
            }
            assert(claims.parts@.take(claims.parts.len() as int) =~= claims.parts@);
        }
        i += 1;
    }
    assert(document.parts@.take(document.parts.len() as int) =~= document.parts@);
    out
}

proof fn lemma_claim_texts_prefix_in(parts: Seq<ClaimsPart>, n: int)
    requires
        0 <= n <= parts.len(),
    ensures
        claim_texts_in(parts.take(n)).len() <= claim_texts_in(parts).len(),
    decreases parts.len() - n,
{
    if n < parts.len() {
        lemma_claim_texts_prefix_in(parts, n + 1);
        assert(parts.take(n + 1).drop_last() =~= parts.take(n));
    } else {
        assert(parts.take(n) =~= parts);
    }
}

proof fn lemma_claim_texts_prefix(parts: Seq<DocumentPart>, n: int)
    requires
        0 <= n <= parts.len(),
    ensures
        document_claim_texts(parts.take(n)).len() <= document_claim_texts(parts).len(),
    decreases parts.len() - n,
{
    if n < parts.len() {
        lemma_claim_texts_prefix(parts, n + 1);
        assert(parts.take(n + 1).drop_last() =~= parts.take(n));
    } else {
        assert(parts.take(n) =~= parts);
    }
}

/// The plain texts of an abstract's paragraphs that are not blank.
pub open spec fn abstract_paragraph_texts(parts: Seq<AbstractPart>) -> Seq<Seq<char>>
    decreases parts.len(),
{
    if parts.len() == 0 {
        Seq::empty()
    } else {
        let prev = abstract_paragraph_texts(parts.drop_last());
        match parts.last() {
            AbstractPart::Paragraph(p) => {
                let t = spec_flatten_runs_plain(p.content@);
                if trim(t).len() > 0 {
                    prev.push(t)
                } else {
                    prev
                }
            },
            AbstractPart::Opaque(_) => prev,
        }
    }
}

/// An abstract section's text: its paragraphs joined by a blank line.
pub open spec fn section_abstract_text(s: AbstractSection) -> Seq<char> {
    join(abstract_paragraph_texts(s.parts@), seq!['\n', '\n'])
}

/// The first abstract section at or after `i` whose text is not blank.
pub open spec fn abstract_text_from(parts: Seq<DocumentPart>, i: int) -> Option<Seq<char>>
    decreases parts.len() - i,
{
    if i < 0 || i >= parts.len() {
        None
    } else {
        match parts[i] {
            DocumentPart::AbstractSection(s) => if trim(section_abstract_text(s)).len() > 0 {
                Some(section_abstract_text(s))
            } else {
                abstract_text_from(parts, i + 1)
            },
            _ => abstract_text_from(parts, i + 1),
        }
    }
}

fn section_text(section: &AbstractSection) -> (r: Vec<char>)
    ensures
        r@ == section_abstract_text(*section),
{
    let mut texts: Vec<Vec<char>> = Vec::new();
    let mut k: usize = 0;
    assert(texts.deep_view() =~= Seq::<Seq<char>>::empty());
    while k < section.parts.len()
        invariant
            k <= section.parts.len(),
            texts.deep_view() == abstract_paragraph_texts(section.parts@.take(k as int)),
        decreases section.parts.len() - k,
    {
        assert(section.parts@.take(k + 1).drop_last() =~= section.parts@.take(k as int));
        if let AbstractPart::Paragraph(paragraph) = &section.parts[k] {
            let t = flatten_runs_plain(&paragraph.content);
            proof {
                lemma_trim_empty_iff_blank(t@);
            }
            if !is_blank_chars(t.as_slice()) {
                let ghost before = texts.deep_view();
                proof {
                    lemma_deep_view_chars(t);
                }
                let ghost tv = t@;
                texts.push(t);
                assert(texts.deep_view() =~= before.push(tv));
            }
        }
        k += 1;
    }
    assert(section.parts@.take(section.parts.len() as int) =~= section.parts@);
    let r = join_char_vecs(&texts, "\n\n");
    proof {
        reveal_strlit("\n\n");
        assert("\n\n"@ =~= seq!['\n', '\n']);
    }
    r
}

/// The abstract as plain text, paragraphs joined by a blank line.
pub fn abstract_text(document: &PatentDocument) -> (r: Option<String>)
    ensures
        crate::render::fields::opt_view(r) == abstract_text_from(document.parts@, 0),
{
    let mut i: usize = 0;
    while i < document.parts.len()
        invariant
            i <= document.parts.len(),
            abstract_text_from(document.parts@, 0) == abstract_text_from(
                document.parts@,
                i as int,
            ),
        decreases document.parts.len() - i,
    {
        if let DocumentPart::AbstractSection(section) = &document.parts[i] {
            let text = section_text(section);
            proof {
                lemma_trim_empty_iff_blank(text@);
            }
            if !is_blank_chars(text.as_slice()) {
                return Some(string_of(text.as_slice()));
            }
        }
        i += 1;
    }
    None
}

/// A paragraph of an abstract whose plain text is not blank.
pub open spec fn is_text_paragraph(p: AbstractPart) -> bool {
    p matches AbstractPart::Paragraph(x) && trim(spec_flatten_runs_plain(x.content@)).len() > 0
}

/// The plain text of a paragraph of an abstract.
pub open spec fn part_plain_text(p: AbstractPart) -> Seq<char> {
    match p {
        AbstractPart::Paragraph(x) => spec_flatten_runs_plain(x.content@),
        AbstractPart::Opaque(_) => Seq::empty(),
    }
}

/// An abstract's text keeps every paragraph that is not blank, each once and
/// in order, joined by a blank line; nothing else goes into it.
pub proof fn law_abstract_keeps_every_paragraph(s: AbstractSection)
    ensures
        abstract_paragraph_texts(s.parts@) == s.parts@.filter(|p: AbstractPart| is_text_paragraph(p)).map_values(
            |p: AbstractPart| part_plain_text(p),
        ),
        section_abstract_text(s) == join(
            s.parts@.filter(|p: AbstractPart| is_text_paragraph(p)).map_values(
                |p: AbstractPart| part_plain_text(p),
            ),
            seq!['\n', '\n'],
        ),
{
    lemma_paragraph_texts_filter(s.parts@);
}

proof fn lemma_paragraph_texts_filter(parts: Seq<AbstractPart>)
    ensures
        abstract_paragraph_texts(parts) == parts.filter(|p: AbstractPart| is_text_paragraph(p)).map_values(
            |p: AbstractPart| part_plain_text(p),
        ),
    decreases parts.len(),
{
    reveal(Seq::filter);
    let f = |p: AbstractPart| is_text_paragraph(p);
    let g = |p: AbstractPart| part_plain_text(p);
    if parts.len() == 0 {
        assert(parts.filter(f) =~= Seq::<AbstractPart>::empty());
        assert(parts.filter(f).map_values(g) =~= Seq::<Seq<char>>::empty());
    } else {
        lemma_paragraph_texts_filter(parts.drop_last());
        let sub = parts.drop_last().filter(f);
        assert(parts.filter(f) == (if f(parts.last()) {
            sub.push(parts.last())
        } else {
            sub
        }));
        if f(parts.last()) {
            assert(sub.push(parts.last()).map_values(g) =~= sub.map_values(g).push(g(parts.last())));
        }
    }
}

/// A claim whose trimmed plain text is not empty.
pub open spec fn is_text_claim(p: ClaimsPart) -> bool {
    p matches ClaimsPart::Claim(c) && trim(spec_flatten_runs_plain(c.content@)).len() > 0
}

/// The trimmed plain text of a claim.
pub open spec fn claim_plain_text(p: ClaimsPart) -> Seq<char> {
    match p {
        ClaimsPart::Claim(c) => trim(spec_flatten_runs_plain(c.content@)),
        _ => Seq::empty(),
    }
}

/// A claims section gives one text for each of its claims that is not
/// blank, each once and in order; headings and other blocks give none.
pub proof fn law_claims_keep_every_claim(parts: Seq<ClaimsPart>)
    ensures
        claim_texts_in(parts) == parts.filter(|p: ClaimsPart| is_text_claim(p)).map_values(
            |p: ClaimsPart| claim_plain_text(p),
        ),
    decreases parts.len(),
{
    reveal(Seq::filter);
    let f = |p: ClaimsPart| is_text_claim(p);
    let g = |p: ClaimsPart| claim_plain_text(p);
    if parts.len() == 0 {
        assert(parts.filter(f) =~= Seq::<ClaimsPart>::empty());
        assert(parts.filter(f).map_values(g) =~= Seq::<Seq<char>>::empty());
    } else {
        law_claims_keep_every_claim(parts.drop_last());
        let sub = parts.drop_last().filter(f);
        assert(parts.filter(f) == (if f(parts.last()) {
            sub.push(parts.last())
        } else {
            sub
        }));
        if f(parts.last()) {
            assert(sub.push(parts.last()).map_values(g) =~= sub.map_values(g).push(g(parts.last())));
        }
    }
}

} // verus!
