//! Minimal JSON string escaping shared by the biblio sidecar and the
//! bulk-ingest manifest writer. Kept dependency-free so the default build pulls
//! in no serializer.

use vstd::prelude::*;

use crate::text::{chars_of, is_control, is_control_char, push_char, string_of};

verus! {

pub open spec fn hex_digit(d: nat) -> char {
    if d < 10 {
        ((d + 48) as u32) as char
    } else {
        ((d - 10 + 97) as u32) as char
    }
}

/// Four lowercase hex digits of `n` (`{:04x}` for `n < 0x10000`).
pub open spec fn hex4(n: nat) -> Seq<char> {
    seq![hex_digit((n / 4096) % 16), hex_digit((n / 256) % 16), hex_digit((n / 16) % 16), hex_digit(n % 16)]
}

/// The JSON escape of one character.
pub open spec fn json_escape_char(c: char) -> Seq<char> {
    if c == '"' {
        seq!['\\', '"']
    } else if c == '\\' {
        seq!['\\', '\\']
    } else if c == '\n' {
        seq!['\\', 'n']
    } else if c == '\r' {
        seq!['\\', 'r']
    } else if c == '\t' {
        seq!['\\', 't']
    } else if is_control(c) {
        seq!['\\', 'u'] + hex4(c as nat)
    } else {
        seq![c]
    }
}

pub open spec fn json_escape(s: Seq<char>) -> Seq<char>
    decreases s.len(),
{
    if s.len() == 0 {
        Seq::empty()
    } else {
        json_escape(s.drop_last()) + json_escape_char(s.last())
    }
}

/// The quoted, escaped JSON string literal for `s`.
pub open spec fn spec_json_string(s: Seq<char>) -> Seq<char> {
    seq!['"'] + json_escape(s) + seq!['"']
}

fn hex_char(d: u32) -> (r: char)
    requires
        d < 16,
    ensures
        r == hex_digit(d as nat),
{
    if d < 10 {
        char_from_code(d + 48)
    } else {
        char_from_code(d - 10 + 97)
    }
}

/// The character with an ASCII code point.
fn char_from_code(n: u32) -> (r: char)
    requires
        n < 128,
    ensures
        r == (n as char),
{
    let b: u8 = n as u8;
    b as char
}

fn push_escaped(out: &mut String, c: char)
    ensures
        final(out)@ == old(out)@ + json_escape_char(c),
{
    if c == '"' {
        push_char(out, '\\');
        push_char(out, '"');
    } else if c == '\\' {
        push_char(out, '\\');
        push_char(out, '\\');
    } else if c == '\n' {
        push_char(out, '\\');
        push_char(out, 'n');
    } else if c == '\r' {
        push_char(out, '\\');
        push_char(out, 'r');
    } else if c == '\t' {
        push_char(out, '\\');
        push_char(out, 't');
    } else if is_control_char(c) {
        let n = c as u32;
        push_char(out, '\\');
        push_char(out, 'u');
        push_char(out, hex_char((n / 4096) % 16));
        push_char(out, hex_char((n / 256) % 16));
        push_char(out, hex_char((n / 16) % 16));
        push_char(out, hex_char(n % 16));
    } else {
        push_char(out, c);
    }
    assert(out@ =~= old(out)@ + json_escape_char(c));
}

/// Encode `value` as a quoted, escaped JSON string literal.
pub fn json_string(value: &str) -> (r: String)
    ensures
        r@ == spec_json_string(value@),
{
    let cs = chars_of(value);
    let mut out = string_of(&['"']);
    let mut i: usize = 0;
    while i < cs.len()
        invariant
            i <= cs.len(),
            out@ == seq!['"'] + json_escape(cs@.take(i as int)),
        decreases cs.len() - i,
    {
        assert(cs@.take(i + 1).drop_last() =~= cs@.take(i as int));
        push_escaped(&mut out, cs[i]);
        i += 1;
    }
    assert(cs@.take(cs.len() as int) =~= cs@);
    push_char(&mut out, '"');
    out
}

/// A JSON string literal never spans lines: every line feed and carriage
/// return is escaped.
pub proof fn law_json_string_is_single_line(s: Seq<char>)
    ensures
        !spec_json_string(s).contains('\n'),
        !spec_json_string(s).contains('\r'),
{
    lemma_json_string_no_break(s, '\n');
    lemma_json_string_no_break(s, '\r');
}

pub proof fn lemma_json_string_no_break(s: Seq<char>, c: char)
    requires
        c == '\n' || c == '\r',
    ensures
        !spec_json_string(s).contains(c),
{
    lemma_json_escape_no_break(s, c);
    let e = json_escape(s);
    assert(spec_json_string(s) == seq!['"'] + e + seq!['"']);
    assert forall|i: int| 0 <= i < (seq!['"'] + e + seq!['"']).len() implies (seq!['"'] + e
        + seq!['"'])[i] != c by {
        if 1 <= i < 1 + e.len() {
            assert((seq!['"'] + e + seq!['"'])[i] == e[i - 1]);
        }
    }
}

proof fn lemma_json_escape_no_break(s: Seq<char>, c0: char)
    requires
        c0 == '\n' || c0 == '\r',
    ensures
        !json_escape(s).contains(c0),
    decreases s.len(),
{
    if s.len() > 0 {
        lemma_json_escape_no_break(s.drop_last(), c0);
        let c = s.last();
        let e = json_escape_char(c);
        assert(!e.contains(c0)) by {
            if is_control(c) && c != '\n' && c != '\r' && c != '\t' && c != '"' && c != '\\' {
                let n = c as nat;
                assert forall|i: int| 0 <= i < e.len() implies e[i] != c0 by {
                    if i >= 2 {
                        let d = if i == 2 {
                            (n / 4096) % 16
                        } else if i == 3 {
                            (n / 256) % 16
                        } else if i == 4 {
                            (n / 16) % 16
                        } else {
                            n % 16
                        };
                        assert(e[i] == hex_digit(d));
                    }
                }
            }
        }
        let a = json_escape(s.drop_last());
        assert(json_escape(s) == a + e);
        assert forall|i: int| 0 <= i < (a + e).len() implies (a + e)[i] != c0 by {
            if i < a.len() {
                assert((a + e)[i] == a[i]);
            } else {
                assert((a + e)[i] == e[i - a.len()]);
            }
        }
    }
}

} // verus!
verus! {

// ---------------------------------------------------------------------------
// Reading JSON back
// ---------------------------------------------------------------------------

pub open spec fn is_hex(c: char) -> bool {
    (48 <= c as u32 && c as u32 <= 57) || (97 <= c as u32 && c as u32 <= 102)
}

/// The value of a lowercase hex digit.
pub open spec fn hex_value(c: char) -> nat {
    if c as u32 <= 57 {
        (c as u32 - 48) as nat
    } else {
        (c as u32 - 87) as nat
    }
}

/// The character the escape at the front of `t` (just after a backslash)
/// stands for, and how many characters it takes.
pub open spec fn escape_of(t: Seq<char>) -> Option<(char, int)> {
    if t.len() == 0 {
        None
    } else if t[0] == '"' {
        Some(('"', 1))
    } else if t[0] == '\\' {
        Some(('\\', 1))
    } else if t[0] == 'n' {
        Some(('\n', 1))
    } else if t[0] == 'r' {
        Some(('\r', 1))
    } else if t[0] == 't' {
        Some(('\t', 1))
    } else if t[0] == 'u' && t.len() >= 5 && is_hex(t[1]) && is_hex(t[2]) && is_hex(t[3]) && is_hex(
        t[4],
    ) {
        Some(
            (
                ((4096 * hex_value(t[1]) + 256 * hex_value(t[2]) + 16 * hex_value(t[3]) + hex_value(
                    t[4],
                )) as u32) as char,
                5,
            ),
        )
    } else {
        None
    }
}

/// Reading the rest of a JSON string literal, just after its opening quote:
/// the characters it stands for, and what follows its closing quote.
pub open spec fn read_string_body(t: Seq<char>) -> Option<(Seq<char>, Seq<char>)>
    decreases t.len(),
{
    if t.len() == 0 {
        None
    } else if t[0] == '"' {
        Some((Seq::empty(), t.drop_first()))
    } else if t[0] == '\\' {
        match escape_of(t.drop_first()) {
            Some((c, k)) => if 1 <= k && 1 + k <= t.len() {
                match read_string_body(t.subrange(1 + k, t.len() as int)) {
                    Some((d, r)) => Some((seq![c] + d, r)),
                    None => None,
                }
            } else {
                None
            },
            None => None,
        }
    } else {
        match read_string_body(t.drop_first()) {
            Some((d, r)) => Some((seq![t[0]] + d, r)),
            None => None,
        }
    }
}

/// Reading a JSON string literal at the front of `t`.
pub open spec fn read_string(t: Seq<char>) -> Option<(Seq<char>, Seq<char>)> {
    if t.len() > 0 && t[0] == '"' {
        read_string_body(t.drop_first())
    } else {
        None
    }
}

proof fn lemma_json_escape_concat(a: Seq<char>, b: Seq<char>)
    ensures
        json_escape(a + b) == json_escape(a) + json_escape(b),
    decreases b.len(),
{
    if b.len() == 0 {
        assert(a + b =~= a);
        assert(json_escape(b) =~= Seq::<char>::empty());
        assert(json_escape(a) + json_escape(b) =~= json_escape(a));
    } else {
        lemma_json_escape_concat(a, b.drop_last());
        assert((a + b).drop_last() =~= a + b.drop_last());
        assert((a + b).last() == b.last());
    }
}

proof fn lemma_hex_digit(d: nat)
    requires
        d < 16,
    ensures
        is_hex(hex_digit(d)),
        hex_value(hex_digit(d)) == d,
{
}

proof fn lemma_hex4(n: nat)
    requires
        n < 65536,
    ensures
        4096 * ((n / 4096) % 16) + 256 * ((n / 256) % 16) + 16 * ((n / 16) % 16) + n % 16 == n,
{
    assert(n == 4096 * ((n / 4096) % 16) + 256 * ((n / 256) % 16) + 16 * ((n / 16) % 16) + n % 16)
        by (nonlinear_arith)
        requires
            n < 65536,
    ;
}

proof fn lemma_escape_char_read(c: char, rest: Seq<char>)
    ensures
        ({
            let t = json_escape_char(c) + rest;
            &&& t.len() > 0
            &&& t[0] != '"'
            &&& t[0] == '\\' ==> escape_of(t.drop_first()) == Some((c, json_escape_char(c).len() - 1))
                && 1 <= json_escape_char(c).len() - 1
            &&& t[0] != '\\' ==> json_escape_char(c) == seq![c]
        }),
{
    let e = json_escape_char(c);
    let t = e + rest;
    assert(t[0] == e[0]);
    if is_control(c) && c != '"' && c != '\\' && c != '\n' && c != '\r' && c != '\t' {
        let n = c as nat;
        assert(n < 65536);
        lemma_hex_digit((n / 4096) % 16);
        lemma_hex_digit((n / 256) % 16);
        lemma_hex_digit((n / 16) % 16);
        lemma_hex_digit(n % 16);
        lemma_hex4(n);
        let u = t.drop_first();
        assert(u[0] == 'u');
        assert(u[1] == hex_digit((n / 4096) % 16));
        assert(u[2] == hex_digit((n / 256) % 16));
        assert(u[3] == hex_digit((n / 16) % 16));
        assert(u[4] == hex_digit(n % 16));
        assert(((n as u32) as char) == c);
    } else if c == '"' || c == '\\' || c == '\n' || c == '\r' || c == '\t' {
        assert(t.drop_first()[0] == e[1]);
    }
}

proof fn lemma_read_string_body(s: Seq<char>, rest: Seq<char>)
    ensures
        read_string_body(json_escape(s) + seq!['"'] + rest) == Some((s, rest)),
    decreases s.len(),
{
    if s.len() == 0 {
        assert(json_escape(s) =~= Seq::<char>::empty());
        let t = json_escape(s) + seq!['"'] + rest;
        assert(t.drop_first() =~= rest);
    } else {
        let c = s[0];
        let s1 = s.drop_first();
        assert(s =~= seq![c] + s1);
        lemma_json_escape_concat(seq![c], s1);
        assert(json_escape(seq![c]) =~= json_escape_char(c)) by {
            assert(seq![c].drop_last() =~= Seq::<char>::empty());
            assert(json_escape(seq![c].drop_last()) =~= Seq::<char>::empty());
            assert(seq![c].last() == c);
            assert(json_escape(seq![c]) == json_escape(seq![c].drop_last()) + json_escape_char(c));
        }
        let e = json_escape_char(c);
        let tail = json_escape(s1) + seq!['"'] + rest;
        let t = json_escape(s) + seq!['"'] + rest;
        assert(t =~= e + tail);
        lemma_escape_char_read(c, tail);
        lemma_read_string_body(s1, rest);
        if t[0] == '\\' {
            let k = e.len() - 1;
            assert(t.subrange(1 + k, t.len() as int) =~= tail);
        } else {
            assert(t.drop_first() =~= tail);
        }
        assert(seq![c] + s1 =~= s);
    }
}

/// A JSON string literal reads back as the text it was written from, and
/// reading stops just past its closing quote.
pub proof fn law_json_string_reads_back(s: Seq<char>, rest: Seq<char>)
    ensures
        read_string(spec_json_string(s) + rest) == Some((s, rest)),
{
    let t = spec_json_string(s) + rest;
    assert(t.drop_first() =~= json_escape(s) + seq!['"'] + rest);
    lemma_read_string_body(s, rest);
}

} // verus!
