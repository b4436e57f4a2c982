//! Element lookups the USPTO adapters share.

use vstd::prelude::*;

use crate::model::opaque::OpaqueBlock;
use crate::render::fields::opt_view;
use crate::source::xml::{
    children, elements_of, fragment_of, has_name, is_named, spec_child_elements, spec_children,
    spec_local_name, spec_text_content, text_content, xml_fragment, XmlNode,
};
use crate::text::{string_of, trim, trim_chars};

verus! {

/// The first node of `es` at or after `i` named `name`.
pub open spec fn first_named_from(es: Seq<XmlNode>, name: Seq<char>, i: int) -> Option<XmlNode>
    decreases es.len() - i,
{
    if i < 0 || i >= es.len() {
        None
    } else if is_named(es[i], name) {
        Some(es[i])
    } else {
        first_named_from(es, name, i + 1)
    }
}

/// The first child element of `n` named `name`.
pub open spec fn spec_child_element(n: XmlNode, name: Seq<char>) -> Option<XmlNode> {
    first_named_from(spec_child_elements(n), name, 0)
}

pub proof fn lemma_elements_step(cs: Seq<XmlNode>, k: int)
    requires
        0 <= k < cs.len(),
    ensures
        elements_of(cs.take(k + 1)) == if cs[k] is Element {
            elements_of(cs.take(k)).push(cs[k])
        } else {
            elements_of(cs.take(k))
        },
{
    assert(cs.take(k + 1).drop_last() =~= cs.take(k));
}

/// `first_named_from` over the elements of a prefix of `cs`.
proof fn lemma_first_named_prefix(cs: Seq<XmlNode>, name: Seq<char>, k: int)
    requires
        0 <= k < cs.len(),
        first_named_from(elements_of(cs.take(k)), name, 0) is None,
    ensures
        first_named_from(elements_of(cs.take(k + 1)), name, 0) == (if cs[k] is Element && is_named(
            cs[k],
            name,
        ) {
            Some(cs[k])
        } else {
            None
        }),
{
    lemma_elements_step(cs, k);
    let es = elements_of(cs.take(k));
    lemma_first_named_none(es, name, 0);
    if cs[k] is Element {
        lemma_first_named_push(es, name, cs[k]);
    }
}

proof fn lemma_first_named_none(es: Seq<XmlNode>, name: Seq<char>, i: int)
    requires
        0 <= i <= es.len(),
        first_named_from(es, name, i) is None,
    ensures
        forall|j: int| i <= j < es.len() ==> !is_named(#[trigger] es[j], name),
    decreases es.len() - i,
{
    if i < es.len() {
        lemma_first_named_none(es, name, i + 1);
    }
}

proof fn lemma_first_named_push(es: Seq<XmlNode>, name: Seq<char>, x: XmlNode)
    requires
        forall|j: int| 0 <= j < es.len() ==> !is_named(#[trigger] es[j], name),
    ensures
        first_named_from(es.push(x), name, 0) == (if is_named(x, name) {
            Some(x)
        } else {
            None
        }),
{
    let e2 = es.push(x);
    assert forall|j: int| 0 <= j < es.len() implies !is_named(#[trigger] e2[j], name) by {
        assert(e2[j] == es[j]);
    }
    lemma_first_named_skip(e2, name, 0, es.len() as int);
    assert(e2[es.len() as int] == x);
    assert(first_named_from(e2, name, es.len() + 1int) is None);
}

proof fn lemma_first_named_skip(es: Seq<XmlNode>, name: Seq<char>, i: int, k: int)
    requires
        0 <= i <= k <= es.len(),
        forall|j: int| i <= j < k ==> !is_named(#[trigger] es[j], name),
    ensures
        first_named_from(es, name, i) == first_named_from(es, name, k),
    decreases k - i,
{
    if i < k {
        lemma_first_named_skip(es, name, i + 1, k);
    }
}

/// The first child element of `n` named `name`.
pub fn child_element<'a>(n: &'a XmlNode, name: &str) -> (r: Option<&'a XmlNode>)
    ensures
        match spec_child_element(*n, name@) {
            Some(e) => r matches Some(x) && *x == e,
            None => r is None,
        },
{
    let cs = children(n);
    let mut i: usize = 0;
    while i < cs.len()
        invariant
            i <= cs.len(),
            cs@ == spec_children(*n),
            first_named_from(elements_of(cs@.take(i as int)), name@, 0) is None,
        decreases cs.len() - i,
    {
        proof {
            lemma_first_named_prefix(cs@, name@, i as int);
        }
        if let XmlNode::Element { .. } = &cs[i] {
            if has_name(&cs[i], name) {
                proof {
                    lemma_rest_irrelevant(cs@, name@, i as int + 1);
                }
                return Some(&cs[i]);
            }
        }
        i += 1;
    }
    assert(cs@.take(cs.len() as int) =~= cs@);
    None
}

/// Once a prefix of `cs` has a named element, the rest does not matter.
proof fn lemma_rest_irrelevant(cs: Seq<XmlNode>, name: Seq<char>, k: int)
    requires
        0 < k <= cs.len(),
        first_named_from(elements_of(cs.take(k)), name, 0) is Some,
    ensures
        first_named_from(elements_of(cs), name, 0) == first_named_from(
            elements_of(cs.take(k)),
            name,
            0,
        ),
    decreases cs.len() - k,
{
    if k < cs.len() {
        lemma_elements_step(cs, k);
        lemma_first_named_extend(elements_of(cs.take(k)), name, cs[k], 0);
        lemma_rest_irrelevant(cs, name, k + 1);
    } else {
        assert(cs.take(k) =~= cs);
    }
}

proof fn lemma_first_named_extend(es: Seq<XmlNode>, name: Seq<char>, x: XmlNode, i: int)
    requires
        0 <= i,
        first_named_from(es, name, i) is Some,
    ensures
        first_named_from(es.push(x), name, i) == first_named_from(es, name, i),
    decreases es.len() - i,
{
    if i < es.len() && !is_named(es[i], name) {
        lemma_first_named_extend(es, name, x, i + 1);
    }
}

/// Child elements of `n` named `name`, in order.
pub open spec fn named_elements(es: Seq<XmlNode>, name: Seq<char>) -> Seq<XmlNode>
    decreases es.len(),
{
    if es.len() == 0 {
        Seq::empty()
    } else if is_named(es.last(), name) {
        named_elements(es.drop_last(), name).push(es.last())
    } else {
        named_elements(es.drop_last(), name)
    }
}

/// The trimmed text of a node.
pub open spec fn trimmed_text(n: XmlNode) -> Seq<char> {
    trim(spec_text_content(n))
}

pub fn trimmed_text_of(n: &XmlNode) -> (r: String)
    ensures
        r@ == trimmed_text(*n),
{
    let t = text_content(n);
    let tt = trim_chars(t.as_slice());
    string_of(tt.as_slice())
}

/// The first element of `es` at or after `i` whose name is one of `names`.
pub open spec fn first_in_from(es: Seq<XmlNode>, names: Seq<Seq<char>>, i: int) -> Option<XmlNode>
    decreases es.len() - i,
{
    if i < 0 || i >= es.len() {
        None
    } else if spec_local_name(es[i]) matches Some(x) && names.contains(x) {
        Some(es[i])
    } else {
        first_in_from(es, names, i + 1)
    }
}

/// The trimmed text of the first child element named one of `names`, unless
/// it is empty.
pub open spec fn spec_child_text(n: XmlNode, names: Seq<Seq<char>>) -> Option<Seq<char>> {
    match first_in_from(spec_child_elements(n), names, 0) {
        Some(c) => if trimmed_text(c).len() > 0 {
            Some(trimmed_text(c))
        } else {
            None
        },
        None => None,
    }
}

pub open spec fn names_view(names: Seq<&str>) -> Seq<Seq<char>> {
    names.map_values(|s: &str| s@)
}

pub(crate) fn name_in(n: &XmlNode, names: &[&str]) -> (r: bool)
    ensures
        r == (spec_local_name(*n) matches Some(x) && names_view(names@).contains(x)),
{
    let mut k: usize = 0;
    while k < names.len()
        invariant
            k <= names.len(),
            forall|j: int| 0 <= j < k ==> !is_named(*n, #[trigger] names@[j]@),
        decreases names.len() - k,
    {
        if has_name(n, names[k]) {
            assert(names_view(names@)[k as int] == names@[k as int]@);
            return true;
        }
        k += 1;
    }
    proof {
        match spec_local_name(*n) {
            Some(x) => {
                if names_view(names@).contains(x) {
                    let j = choose|j: int|
                        0 <= j < names_view(names@).len() && #[trigger] names_view(names@)[j] == x;
                    assert(names_view(names@)[j] == names@[j]@);
                }
            },
            None => {},
        }
    }
    false
}

proof fn lemma_first_in_prefix(cs: Seq<XmlNode>, names: Seq<Seq<char>>, k: int)
    requires
        0 <= k < cs.len(),
        first_in_from(elements_of(cs.take(k)), names, 0) is None,
    ensures
        first_in_from(elements_of(cs.take(k + 1)), names, 0) == (if cs[k] is Element && (spec_local_name(
            cs[k],
        ) matches Some(x) && names.contains(x)) {
            Some(cs[k])
        } else {
            None
        }),
{
    lemma_elements_step(cs, k);
    let es = elements_of(cs.take(k));
    lemma_first_in_none(es, names, 0);
    if cs[k] is Element {
        let e2 = es.push(cs[k]);
        assert forall|j: int| 0 <= j < es.len() implies !(spec_local_name(#[trigger] e2[j]) matches Some(
            x,
        ) && names.contains(x)) by {
            assert(e2[j] == es[j]);
        }
        lemma_first_in_skip(e2, names, 0, es.len() as int);
        assert(e2[es.len() as int] == cs[k]);
        assert(first_in_from(e2, names, es.len() + 1int) is None);
    }
}

proof fn lemma_first_in_none(es: Seq<XmlNode>, names: Seq<Seq<char>>, i: int)
    requires
        0 <= i <= es.len(),
        first_in_from(es, names, i) is None,
    ensures
        forall|j: int|
            i <= j < es.len() ==> !(spec_local_name(#[trigger] es[j]) matches Some(x)
                && names.contains(x)),
    decreases es.len() - i,
{
    if i < es.len() {
        lemma_first_in_none(es, names, i + 1);
    }
}

proof fn lemma_first_in_skip(es: Seq<XmlNode>, names: Seq<Seq<char>>, i: int, k: int)
    requires
        0 <= i <= k <= es.len(),
        forall|j: int|
            i <= j < k ==> !(spec_local_name(#[trigger] es[j]) matches Some(x) && names.contains(x)),
    ensures
        first_in_from(es, names, i) == first_in_from(es, names, k),
    decreases k - i,
{
    if i < k {
        lemma_first_in_skip(es, names, i + 1, k);
    }
}

proof fn lemma_first_in_extend(es: Seq<XmlNode>, names: Seq<Seq<char>>, x: XmlNode, i: int)
    requires
        0 <= i,
        first_in_from(es, names, i) is Some,
    ensures
        first_in_from(es.push(x), names, i) == first_in_from(es, names, i),
    decreases es.len() - i,
{
    if i < es.len() && !(spec_local_name(es[i]) matches Some(y) && names.contains(y)) {
        lemma_first_in_extend(es, names, x, i + 1);
    }
}

proof fn lemma_first_in_rest(cs: Seq<XmlNode>, names: Seq<Seq<char>>, k: int)
    requires
        0 < k <= cs.len(),
        first_in_from(elements_of(cs.take(k)), names, 0) is Some,
    ensures
        first_in_from(elements_of(cs), names, 0) == first_in_from(elements_of(cs.take(k)), names, 0),
    decreases cs.len() - k,
{
    if k < cs.len() {
        lemma_elements_step(cs, k);
        lemma_first_in_extend(elements_of(cs.take(k)), names, cs[k], 0);
        lemma_first_in_rest(cs, names, k + 1);
    } else {
        assert(cs.take(k) =~= cs);
    }
}

/// The trimmed text of the first child element named one of `names`.
pub fn child_text(n: &XmlNode, names: &[&str]) -> (r: Option<String>)
    ensures
        opt_view(r) == spec_child_text(*n, names_view(names@)),
{
    let ghost nv = names_view(names@);
    let cs = children(n);
    let mut i: usize = 0;
    while i < cs.len()
        invariant
            i <= cs.len(),
            cs@ == spec_children(*n),
            nv == names_view(names@),
            first_in_from(elements_of(cs@.take(i as int)), nv, 0) is None,
        decreases cs.len() - i,
    {
        proof {
            lemma_first_in_prefix(cs@, nv, i as int);
        }
        if let XmlNode::Element { .. } = &cs[i] {
            if name_in(&cs[i], names) {
                proof {
                    lemma_first_in_rest(cs@, nv, i as int + 1);
                }
                let t = trimmed_text_of(&cs[i]);
                if t.as_str().is_empty() {
                    return None;
                } else {
                    return Some(t);
                }
            }
        }
        i += 1;
    }
    assert(cs@.take(cs.len() as int) =~= cs@);
    None
}

/// `child_text` over an optional node.
pub open spec fn opt_child_text(n: Option<XmlNode>, names: Seq<Seq<char>>) -> Option<Seq<char>> {
    match n {
        Some(x) => spec_child_text(x, names),
        None => None,
    }
}

/// A node kept verbatim.
pub fn opaque_block(n: &XmlNode) -> (r: OpaqueBlock)
    ensures
        fragment_of(r.xml, *n),
{
    OpaqueBlock { xml: xml_fragment(n) }
}

} // verus!
