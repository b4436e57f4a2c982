//! Character-level text primitives shared by the parsers and renderers.
//!
//! Text is specified as `Seq<char>` (the view of `str` and `String`). The
//! executable helpers work on `&[char]` buffers and are proved against the
//! spec functions defined here.

use vstd::prelude::*;

verus! {

// ---------------------------------------------------------------------------
// Character classes
// ---------------------------------------------------------------------------

/// Unicode `White_Space`, the set `char::is_whitespace` documents.
pub open spec fn is_ws(c: char) -> bool {
    let n = c as u32;
    ||| n == 0x09 || n == 0x0A || n == 0x0B || n == 0x0C || n == 0x0D
    ||| n == 0x20 || n == 0x85 || n == 0xA0 || n == 0x1680
    ||| (0x2000 <= n && n <= 0x200A)
    ||| n == 0x2028 || n == 0x2029 || n == 0x202F || n == 0x205F || n == 0x3000
}

pub open spec fn is_digit(c: char) -> bool {
    '0' <= c && c <= '9'
}

pub open spec fn is_alpha(c: char) -> bool {
    ('a' <= c && c <= 'z') || ('A' <= c && c <= 'Z')
}

pub open spec fn is_alnum(c: char) -> bool {
    is_digit(c) || is_alpha(c)
}

/// Unicode general category `Cc`, the set `char::is_control` documents.
pub open spec fn is_control(c: char) -> bool {
    let n = c as u32;
    n <= 0x1F || (0x7F <= n && n <= 0x9F)
}

pub fn is_whitespace(c: char) -> (r: bool)
    ensures
        r == is_ws(c),
{
    let n = c as u32;
    n == 0x09 || n == 0x0A || n == 0x0B || n == 0x0C || n == 0x0D || n == 0x20 || n == 0x85
        || n == 0xA0 || n == 0x1680 || (0x2000 <= n && n <= 0x200A) || n == 0x2028 || n == 0x2029
        || n == 0x202F || n == 0x205F || n == 0x3000
}

pub fn is_ascii_digit(c: char) -> (r: bool)
    ensures
        r == is_digit(c),
{
    '0' <= c && c <= '9'
}

pub fn is_ascii_alpha(c: char) -> (r: bool)
    ensures
        r == is_alpha(c),
{
    ('a' <= c && c <= 'z') || ('A' <= c && c <= 'Z')
}

pub fn is_control_char(c: char) -> (r: bool)
    ensures
        r == is_control(c),
{
    let n = c as u32;
    n <= 0x1F || (0x7F <= n && n <= 0x9F)
}

/// Every character of `s` is an ASCII digit (vacuously true when empty).
pub open spec fn all_digits(s: Seq<char>) -> bool {
    forall|i: int| 0 <= i < s.len() ==> is_digit(#[trigger] s[i])
}

pub fn all_ascii_digits(s: &[char]) -> (r: bool)
    ensures
        r == all_digits(s@),
{
    let mut i: usize = 0;
    while i < s.len()
        invariant
            i <= s.len(),
            forall|j: int| 0 <= j < i ==> is_digit(#[trigger] s@[j]),
        decreases s.len() - i,
    {
        if !is_ascii_digit(s[i]) {
            return false;
        }
        i += 1;
    }
    true
}

// ---------------------------------------------------------------------------
// Conversions between `str`/`String` and character buffers
// ---------------------------------------------------------------------------

/// Appends one character to a `String` (`String::push`).
#[verifier::external_body]
pub fn push_char(s: &mut String, c: char)
    ensures
        final(s)@ == old(s)@.push(c),
{
    s.push(c);
}

pub fn chars_of(s: &str) -> (r: Vec<char>)
    ensures
        r@ == s@,
{
    let mut out: Vec<char> = Vec::new();
    for c in it: s.chars()
        invariant
            out@ == it.seq().take(it.index() as int),
    {
        out.push(c);
    }
    out
}

pub fn push_chars(s: &mut String, cs: &[char])
    ensures
        final(s)@ == old(s)@ + cs@,
{
    let mut i: usize = 0;
    while i < cs.len()
        invariant
            i <= cs.len(),
            s@ == old(s)@ + cs@.take(i as int),
        decreases cs.len() - i,
    {
        push_char(s, cs[i]);
        assert(cs@.take(i + 1) == cs@.take(i as int).push(cs@[i as int]));
        i += 1;
    }
    assert(cs@.take(cs.len() as int) == cs@);
}

pub fn string_of(cs: &[char]) -> (r: String)
    ensures
        r@ == cs@,
{
    let mut s = String::new();
    push_chars(&mut s, cs);
    s
}

pub fn push_str(s: &mut String, t: &str)
    ensures
        final(s)@ == old(s)@ + t@,
{
    s.append(t);
}

pub fn copy_str(t: &str) -> (r: String)
    ensures
        r@ == t@,
{
    String::from_str(t)
}

pub fn copy_chars(cs: &[char]) -> (r: Vec<char>)
    ensures
        r@ == cs@,
{
    let mut out: Vec<char> = Vec::new();
    let mut i: usize = 0;
    while i < cs.len()
        invariant
            i <= cs.len(),
            out@ == cs@.take(i as int),
        decreases cs.len() - i,
    {
        out.push(cs[i]);
        i += 1;
    }
    out
}

pub fn slice_chars(cs: &[char], start: usize, end: usize) -> (r: Vec<char>)
    requires
        start <= end <= cs.len(),
    ensures
        r@ == cs@.subrange(start as int, end as int),
{
    let mut out: Vec<char> = Vec::new();
    let mut i: usize = start;
    while i < end
        invariant
            start <= i <= end <= cs.len(),
            out@ == cs@.subrange(start as int, i as int),
        decreases end - i,
    {
        out.push(cs[i]);
        i += 1;
    }
    out
}

pub fn append_chars(v: &mut Vec<char>, cs: &[char])
    ensures
        final(v)@ == old(v)@ + cs@,
{
    let mut i: usize = 0;
    while i < cs.len()
        invariant
            i <= cs.len(),
            v@ == old(v)@ + cs@.take(i as int),
        decreases cs.len() - i,
    {
        v.push(cs[i]);
        assert(cs@.take(i + 1) == cs@.take(i as int).push(cs@[i as int]));
        i += 1;
    }
    assert(cs@.take(cs.len() as int) == cs@);
}

pub fn eq_chars(a: &[char], b: &[char]) -> (r: bool)
    ensures
        r == (a@ == b@),
{
    if a.len() != b.len() {
        return false;
    }
    let mut i: usize = 0;
    while i < a.len()
        invariant
            a.len() == b.len(),
            i <= a.len(),
            forall|j: int| 0 <= j < i ==> a@[j] == b@[j],
        decreases a.len() - i,
    {
        if a[i] != b[i] {
            return false;
        }
        i += 1;
    }
    assert(a@ =~= b@);
    true
}

/// `a` and the text of `b` are equal.
pub fn eq_str(a: &[char], b: &str) -> (r: bool)
    ensures
        r == (a@ == b@),
{
    let bc = chars_of(b);
    eq_chars(a, bc.as_slice())
}

pub fn string_eq_str(a: &String, b: &str) -> (r: bool)
    ensures
        r == (a@ == b@),
{
    let ac = chars_of(a.as_str());
    eq_str(ac.as_slice(), b)
}

// ---------------------------------------------------------------------------
// Trimming
// ---------------------------------------------------------------------------

/// Index of the first non-whitespace character at or after `i` (or `s.len()`).
pub open spec fn first_non_ws(s: Seq<char>, i: int) -> int
    decreases s.len() - i,
{
    if i < 0 || i >= s.len() {
        s.len() as int
    } else if is_ws(s[i]) {
        first_non_ws(s, i + 1)
    } else {
        i
    }
}

/// One past the last non-whitespace character before `j` (or 0).
pub open spec fn end_non_ws(s: Seq<char>, j: int) -> int
    decreases j,
{
    if j <= 0 || j > s.len() {
        0
    } else if is_ws(s[j - 1]) {
        end_non_ws(s, j - 1)
    } else {
        j
    }
}

pub open spec fn trim_start(s: Seq<char>) -> Seq<char> {
    s.subrange(first_non_ws(s, 0), s.len() as int)
}

pub open spec fn trim_end(s: Seq<char>) -> Seq<char> {
    s.subrange(0, end_non_ws(s, s.len() as int))
}

/// `str::trim`: leading and trailing Unicode whitespace removed.
pub open spec fn trim(s: Seq<char>) -> Seq<char> {
    trim_end(trim_start(s))
}

pub proof fn lemma_first_non_ws_bounds(s: Seq<char>, i: int)
    requires
        0 <= i <= s.len(),
    ensures
        i <= first_non_ws(s, i) <= s.len(),
        forall|k: int| i <= k < first_non_ws(s, i) ==> is_ws(#[trigger] s[k]),
        first_non_ws(s, i) < s.len() ==> !is_ws(s[first_non_ws(s, i)]),
    decreases s.len() - i,
{
    if i < s.len() && is_ws(s[i]) {
        lemma_first_non_ws_bounds(s, i + 1);
    }
}

pub proof fn lemma_end_non_ws_bounds(s: Seq<char>, j: int)
    requires
        0 <= j <= s.len(),
    ensures
        0 <= end_non_ws(s, j) <= j,
        forall|k: int| end_non_ws(s, j) <= k < j ==> is_ws(#[trigger] s[k]),
        end_non_ws(s, j) > 0 ==> !is_ws(s[end_non_ws(s, j) - 1]),
    decreases j,
{
    if j > 0 && is_ws(s[j - 1]) {
        lemma_end_non_ws_bounds(s, j - 1);
    }
}

pub fn trim_start_index(s: &[char]) -> (r: usize)
    ensures
        r == first_non_ws(s@, 0),
        r <= s.len(),
{
    let mut i: usize = 0;
    while i < s.len() && is_whitespace(s[i])
        invariant
            i <= s.len(),
            first_non_ws(s@, 0) == first_non_ws(s@, i as int),
        decreases s.len() - i,
    {
        i += 1;
    }
    i
}

pub fn trim_end_index(s: &[char]) -> (r: usize)
    ensures
        r == end_non_ws(s@, s@.len() as int),
        r <= s.len(),
{
    let mut j: usize = s.len();
    while j > 0 && is_whitespace(s[j - 1])
        invariant
            j <= s.len(),
            end_non_ws(s@, s@.len() as int) == end_non_ws(s@, j as int),
        decreases j,
    {
        j -= 1;
    }
    j
}

pub fn trim_start_chars(s: &[char]) -> (r: Vec<char>)
    ensures
        r@ == trim_start(s@),
{
    let a = trim_start_index(s);
    slice_chars(s, a, s.len())
}

pub fn trim_end_chars(s: &[char]) -> (r: Vec<char>)
    ensures
        r@ == trim_end(s@),
{
    let b = trim_end_index(s);
    slice_chars(s, 0, b)
}

pub fn trim_chars(s: &[char]) -> (r: Vec<char>)
    ensures
        r@ == trim(s@),
{
    let t = trim_start_chars(s);
    trim_end_chars(t.as_slice())
}

pub fn trim_str(s: &str) -> (r: Vec<char>)
    ensures
        r@ == trim(s@),
{
    let cs = chars_of(s);
    trim_chars(cs.as_slice())
}

/// The trimmed text of `s`, as a `String`.
pub fn trimmed_string(s: &str) -> (r: String)
    ensures
        r@ == trim(s@),
{
    let t = trim_str(s);
    string_of(t.as_slice())
}

/// Whether the text is empty once trimmed, i.e. consists of whitespace only.
pub open spec fn is_blank(s: Seq<char>) -> bool {
    forall|i: int| 0 <= i < s.len() ==> is_ws(#[trigger] s[i])
}

pub proof fn lemma_trim_empty_iff_blank(s: Seq<char>)
    ensures
        (trim(s).len() == 0) == is_blank(s),
{
    lemma_first_non_ws_bounds(s, 0);
    let t = trim_start(s);
    lemma_end_non_ws_bounds(t, t.len() as int);
    if trim(s).len() == 0 {
        assert forall|i: int| 0 <= i < s.len() implies is_ws(#[trigger] s[i]) by {
            if i >= first_non_ws(s, 0) {
                assert(t[i - first_non_ws(s, 0)] == s[i]);
            }
        }
    } else {
        let k = first_non_ws(s, 0);
        assert(k < s.len());
        assert(!is_ws(s[k]));
    }
}

pub fn is_blank_chars(s: &[char]) -> (r: bool)
    ensures
        r == is_blank(s@),
{
    let mut i: usize = 0;
    while i < s.len()
        invariant
            i <= s.len(),
            forall|j: int| 0 <= j < i ==> is_ws(#[trigger] s@[j]),
        decreases s.len() - i,
    {
        if !is_whitespace(s[i]) {
            return false;
        }
        i += 1;
    }
    true
}

pub fn is_blank_str(s: &str) -> (r: bool)
    ensures
        r == is_blank(s@),
{
    let cs = chars_of(s);
    is_blank_chars(cs.as_slice())
}

// ---------------------------------------------------------------------------
// Searching
// ---------------------------------------------------------------------------

/// `p` occurs in `s` at position `i`.
pub open spec fn matches_at(s: Seq<char>, p: Seq<char>, i: int) -> bool {
    0 <= i && i + p.len() <= s.len() && s.subrange(i, i + p.len()) == p
}

/// The first position at or after `i` where `p` occurs in `s`.
pub open spec fn find_from(s: Seq<char>, p: Seq<char>, i: int) -> Option<int>
    decreases s.len() + 1 - i,
{
    if i < 0 || i + p.len() > s.len() {
        None
    } else if matches_at(s, p, i) {
        Some(i)
    } else {
        find_from(s, p, i + 1)
    }
}

/// `str::find`: the first position where `p` occurs in `s`.
pub open spec fn find(s: Seq<char>, p: Seq<char>) -> Option<int> {
    find_from(s, p, 0)
}

pub open spec fn contains(s: Seq<char>, p: Seq<char>) -> bool {
    find(s, p) is Some
}

pub open spec fn starts_with(s: Seq<char>, p: Seq<char>) -> bool {
    matches_at(s, p, 0)
}

pub open spec fn ends_with(s: Seq<char>, p: Seq<char>) -> bool {
    p.len() <= s.len() && s.subrange(s.len() - p.len(), s.len() as int) == p
}

pub proof fn lemma_find_from_bounds(s: Seq<char>, p: Seq<char>, i: int)
    ensures
        find_from(s, p, i) matches Some(k) ==> i <= k && matches_at(s, p, k) && forall|m: int|
            i <= m < k ==> !matches_at(s, p, m),
    decreases s.len() + 1 - i,
{
    if i >= 0 && i + p.len() <= s.len() && !matches_at(s, p, i) {
        lemma_find_from_bounds(s, p, i + 1);
    }
}

pub proof fn lemma_find_from_none(s: Seq<char>, p: Seq<char>, i: int)
    requires
        0 <= i,
    ensures
        find_from(s, p, i) is None ==> forall|m: int| i <= m ==> !matches_at(s, p, m),
    decreases s.len() + 1 - i,
{
    if i + p.len() <= s.len() && !matches_at(s, p, i) {
        lemma_find_from_none(s, p, i + 1);
    }
}

pub fn matches_at_exec(s: &[char], p: &[char], i: usize) -> (r: bool)
    ensures
        r == matches_at(s@, p@, i as int),
{
    if i > s.len() || p.len() > s.len() - i {
        return false;
    }
    let mut k: usize = 0;
    while k < p.len()
        invariant
            i + p.len() <= s.len(),
            k <= p.len(),
            forall|j: int| 0 <= j < k ==> s@[i + j] == p@[j],
        decreases p.len() - k,
    {
        if s[i + k] != p[k] {
            assert(s@.subrange(i as int, i + p.len())[k as int] != p@[k as int]);
            return false;
        }
        k += 1;
    }
    assert(s@.subrange(i as int, i + p.len()) =~= p@);
    true
}

pub fn find_chars_from(s: &[char], p: &[char], from: usize) -> (r: Option<usize>)
    ensures
        r matches Some(k) ==> find_from(s@, p@, from as int) == Some(k as int),
        r is None ==> find_from(s@, p@, from as int) is None,
{
    let mut i: usize = from;
    while i <= s.len() && p.len() <= s.len() - i
        invariant
            from <= i,
            find_from(s@, p@, from as int) == find_from(s@, p@, i as int),
        decreases s.len() + 1 - i,
    {
        if matches_at_exec(s, p, i) {
            return Some(i);
        }
        if i == s.len() {
            assert(find_from(s@, p@, i + 1) is None);
            return None;
        }
        i += 1;
    }
    None
}

pub fn find_chars(s: &[char], p: &[char]) -> (r: Option<usize>)
    ensures
        r matches Some(k) ==> find(s@, p@) == Some(k as int),
        r is None ==> find(s@, p@) is None,
{
    find_chars_from(s, p, 0)
}

pub fn find_str(s: &[char], p: &str) -> (r: Option<usize>)
    ensures
        r matches Some(k) ==> find(s@, p@) == Some(k as int),
        r is None ==> find(s@, p@) is None,
{
    let pc = chars_of(p);
    find_chars(s, pc.as_slice())
}

pub fn contains_str(s: &[char], p: &str) -> (r: bool)
    ensures
        r == contains(s@, p@),
{
    find_str(s, p).is_some()
}

pub fn starts_with_str(s: &[char], p: &str) -> (r: bool)
    ensures
        r == starts_with(s@, p@),
{
    let pc = chars_of(p);
    matches_at_exec(s, pc.as_slice(), 0)
}

pub fn ends_with_str(s: &[char], p: &str) -> (r: bool)
    ensures
        r == ends_with(s@, p@),
{
    let pc = chars_of(p);
    if pc.len() > s.len() {
        return false;
    }
    let r = matches_at_exec(s, pc.as_slice(), s.len() - pc.len());
    r
}

/// Position of the first occurrence of character `c` at or after `from`.
pub open spec fn find_char_from(s: Seq<char>, c: char, i: int) -> Option<int>
    decreases s.len() - i,
{
    if i < 0 || i >= s.len() {
        None
    } else if s[i] == c {
        Some(i)
    } else {
        find_char_from(s, c, i + 1)
    }
}

pub proof fn lemma_find_char_from(s: Seq<char>, c: char, i: int)
    requires
        0 <= i,
    ensures
        find_char_from(s, c, i) matches Some(k) ==> i <= k < s.len() && s[k] == c && forall|
            m: int,
        | i <= m < k ==> s[m] != c,
        find_char_from(s, c, i) is None ==> forall|m: int| i <= m < s.len() ==> s[m] != c,
    decreases s.len() - i,
{
    if i < s.len() && s[i] != c {
        lemma_find_char_from(s, c, i + 1);
    }
}

pub fn find_char(s: &[char], c: char, from: usize) -> (r: Option<usize>)
    ensures
        r matches Some(k) ==> find_char_from(s@, c, from as int) == Some(k as int),
        r is None ==> find_char_from(s@, c, from as int) is None,
{
    let mut i: usize = from;
    while i < s.len()
        invariant
            from <= i,
            find_char_from(s@, c, from as int) == find_char_from(s@, c, i as int),
        decreases s.len() - i,
    {
        if s[i] == c {
            return Some(i);
        }
        i += 1;
    }
    None
}

pub proof fn lemma_deep_view_chars(v: Vec<char>)
    ensures
        v.deep_view() == v@,
{
    assert(v.deep_view() =~= v@);
}

// ---------------------------------------------------------------------------
// Lines
// ---------------------------------------------------------------------------

/// A line's text without the `\r` of a `\r\n` terminator.
pub open spec fn strip_cr(line: Seq<char>) -> Seq<char> {
    if line.len() > 0 && line.last() == '\r' {
        line.drop_last()
    } else {
        line
    }
}

/// `str::lines`: split at `\n` and `\r\n`; a final terminator ends the last line.
pub open spec fn lines(s: Seq<char>) -> Seq<Seq<char>>
    decreases s.len(),
{
    if s.len() == 0 {
        Seq::empty()
    } else {
        match find_char_from(s, '\n', 0) {
            Some(k) => {
                if 0 <= k < s.len() {
                    seq![strip_cr(s.subrange(0, k))] + lines(s.subrange(k + 1, s.len() as int))
                } else {
                    Seq::empty()
                }
            },
            None => seq![s],
        }
    }
}

pub fn lines_of(s: &[char]) -> (r: Vec<Vec<char>>)
    ensures
        r.deep_view() == lines(s@),
{
    let mut out: Vec<Vec<char>> = Vec::new();
    let mut start: usize = 0;
    assert(out.deep_view() =~= Seq::<Seq<char>>::empty());
    assert(s@.subrange(0, s.len() as int) =~= s@);
    while start < s.len()
        invariant
            start <= s.len(),
            lines(s@) == out.deep_view() + lines(s@.subrange(start as int, s.len() as int)),
        decreases s.len() - start,
    {
        let ghost rest = s@.subrange(start as int, s.len() as int);
        proof {
            lemma_find_char_from(s@, '\n', start as int);
            lemma_find_char_from(rest, '\n', 0);
        }
        match find_char(s, '\n', start) {
            Some(k) => {
                proof {
                    assert(find_char_from(rest, '\n', 0) == Some(k - start)) by {
                        assert forall|m: int| 0 <= m < k - start implies rest[m] != '\n' by {
                            assert(rest[m] == s@[start + m]);
                        }
                        assert(rest[k - start] == '\n');
                        if find_char_from(rest, '\n', 0) != Some(k - start) {
                            let k2 = find_char_from(rest, '\n', 0);
                            if k2 is Some {
                                assert(rest[k2->0] == s@[start + k2->0]);
                            }
                        }
                    }
                    assert(rest.subrange(0, k - start) =~= s@.subrange(start as int, k as int));
                    assert(rest.subrange(k - start + 1, rest.len() as int) =~= s@.subrange(
                        k + 1,
                        s.len() as int,
                    ));
                }
                let mut line = slice_chars(s, start, k);
                if line.len() > 0 && line[line.len() - 1] == '\r' {
                    line.pop();
                }
                let ghost old_out = out.deep_view();
                proof { lemma_deep_view_chars(line); }
                out.push(line);
                assert(out.deep_view() =~= old_out.push(strip_cr(s@.subrange(start as int, k as int))));
                start = k + 1;
            },
            None => {
                proof {
                    assert(find_char_from(rest, '\n', 0) is None) by {
                        if find_char_from(rest, '\n', 0) is Some {
                            let k2 = find_char_from(rest, '\n', 0)->0;
                            assert(rest[k2] == s@[start + k2]);
                        }
                    }
                }
                let line = slice_chars(s, start, s.len());
                let ghost old_out = out.deep_view();
                proof { lemma_deep_view_chars(line); }
                out.push(line);
                assert(out.deep_view() =~= old_out.push(rest));
                start = s.len();
                assert(s@.subrange(start as int, s.len() as int) =~= Seq::<char>::empty());
            },
        }
    }
    assert(s@.subrange(start as int, s.len() as int) =~= Seq::<char>::empty());
    assert(out.deep_view() + Seq::<Seq<char>>::empty() =~= out.deep_view());
    out
}

// ---------------------------------------------------------------------------
// Joining
// ---------------------------------------------------------------------------

/// `[T]::join(sep)`: the parts with `sep` between each adjacent pair.
pub open spec fn join(parts: Seq<Seq<char>>, sep: Seq<char>) -> Seq<char>
    decreases parts.len(),
{
    if parts.len() == 0 {
        Seq::empty()
    } else if parts.len() == 1 {
        parts[0]
    } else {
        join(parts.drop_last(), sep) + sep + parts.last()
    }
}

pub fn join_strings(parts: &Vec<String>, sep: &str) -> (r: String)
    ensures
        r@ == join(parts.deep_view(), sep@),
{
    let mut out = String::new();
    let mut i: usize = 0;
    while i < parts.len()
        invariant
            i <= parts.len(),
            out@ == join(parts.deep_view().take(i as int), sep@),
        decreases parts.len() - i,
    {
        let ghost before = parts.deep_view().take(i as int);
        if i > 0 {
            out.append(sep);
        }
        out.append(parts[i].as_str());
        assert(parts.deep_view().take(i + 1).drop_last() =~= before);
        assert(parts.deep_view()[i as int] == parts[i as int]@);
        i += 1;
    }
    assert(parts.deep_view().take(parts.len() as int) =~= parts.deep_view());
    out
}

pub fn join_char_vecs(parts: &Vec<Vec<char>>, sep: &str) -> (r: Vec<char>)
    ensures
        r@ == join(parts.deep_view(), sep@),
{
    let sepc = chars_of(sep);
    let mut out: Vec<char> = Vec::new();
    let mut i: usize = 0;
    while i < parts.len()
        invariant
            i <= parts.len(),
            sepc@ == sep@,
            out@ == join(parts.deep_view().take(i as int), sep@),
        decreases parts.len() - i,
    {
        let ghost before = parts.deep_view().take(i as int);
        if i > 0 {
            append_chars(&mut out, sepc.as_slice());
        }
        append_chars(&mut out, parts[i].as_slice());
        assert(parts.deep_view().take(i + 1).drop_last() =~= before);
        assert(parts.deep_view()[i as int] == parts[i as int]@);
        i += 1;
    }
    assert(parts.deep_view().take(parts.len() as int) =~= parts.deep_view());
    out
}

// ---------------------------------------------------------------------------
// Whitespace-separated words
// ---------------------------------------------------------------------------

/// The maximal whitespace-free runs of `s` starting the scan at `i`, in order.
pub open spec fn words_from(s: Seq<char>, i: int) -> Seq<Seq<char>>
    decreases s.len() - i, 1int,
{
    if i < 0 || i >= s.len() {
        Seq::empty()
    } else if is_ws(s[i]) {
        words_from(s, i + 1)
    } else {
        let e = word_end(s, i);
        if i < e <= s.len() {
            seq![s.subrange(i, e)] + words_from(s, e)
        } else {
            Seq::empty()
        }
    }
}

/// One past the end of the whitespace-free run starting at `i`.
pub open spec fn word_end(s: Seq<char>, i: int) -> int
    decreases s.len() - i, 0int,
{
    if i < 0 || i >= s.len() || is_ws(s[i]) {
        i
    } else {
        word_end(s, i + 1)
    }
}

/// `str::split_whitespace`.
pub open spec fn words(s: Seq<char>) -> Seq<Seq<char>> {
    words_from(s, 0)
}

pub proof fn lemma_word_end(s: Seq<char>, i: int)
    requires
        0 <= i <= s.len(),
    ensures
        i <= word_end(s, i) <= s.len(),
    decreases s.len() - i,
{
    if i < s.len() && !is_ws(s[i]) {
        lemma_word_end(s, i + 1);
    }
}

pub fn words_of(s: &[char]) -> (r: Vec<Vec<char>>)
    ensures
        r.deep_view() == words(s@),
{
    let mut out: Vec<Vec<char>> = Vec::new();
    let mut i: usize = 0;
    assert(out.deep_view() =~= Seq::<Seq<char>>::empty());
    while i < s.len()
        invariant
            i <= s.len(),
            words(s@) == out.deep_view() + words_from(s@, i as int),
        decreases s.len() - i,
    {
        if is_whitespace(s[i]) {
            i += 1;
        } else {
            let mut e: usize = i;
            while e < s.len() && !is_whitespace(s[e])
                invariant
                    i <= e <= s.len(),
                    word_end(s@, i as int) == word_end(s@, e as int),
                decreases s.len() - e,
            {
                e += 1;
            }
            proof {
                lemma_word_end(s@, i as int);
            }
            let w = slice_chars(s, i, e);
            let ghost old_out = out.deep_view();
            proof { lemma_deep_view_chars(w); }
            out.push(w);
            assert(out.deep_view() =~= old_out.push(s@.subrange(i as int, e as int)));
            assert(old_out.push(s@.subrange(i as int, e as int)) + words_from(s@, e as int)
                =~= old_out + (seq![s@.subrange(i as int, e as int)] + words_from(
                s@,
                e as int,
            )));
            i = e;
        }
    }
    assert(out.deep_view() + Seq::<Seq<char>>::empty() =~= out.deep_view());
    out
}

/// `split_whitespace().collect::<Vec<_>>().join(" ")`: runs of whitespace
/// collapsed to single spaces, edges trimmed.
pub open spec fn collapse_ws(s: Seq<char>) -> Seq<char> {
    join(words(s), seq![' '])
}

pub fn collapse_whitespace(s: &[char]) -> (r: Vec<char>)
    ensures
        r@ == collapse_ws(s@),
{
    let ws = words_of(s);
    let r = join_char_vecs(&ws, " ");
    proof {
        reveal_strlit(" ");
        assert(" "@ =~= seq![' ']);
    }
    r
}

// ---------------------------------------------------------------------------
// Number formatting
// ---------------------------------------------------------------------------

/// Decimal digits of `n` (no sign, no leading zeros; `0` is `"0"`).
pub open spec fn decimal(n: nat) -> Seq<char>
    decreases n,
{
    if n < 10 {
        seq![digit_char(n)]
    } else {
        decimal(n / 10) + seq![digit_char(n % 10)]
    }
}

pub open spec fn digit_char(d: nat) -> char {
    if d == 0 {
        '0'
    } else if d == 1 {
        '1'
    } else if d == 2 {
        '2'
    } else if d == 3 {
        '3'
    } else if d == 4 {
        '4'
    } else if d == 5 {
        '5'
    } else if d == 6 {
        '6'
    } else if d == 7 {
        '7'
    } else if d == 8 {
        '8'
    } else {
        '9'
    }
}

pub fn digit_to_char(d: u64) -> (r: char)
    requires
        d < 10,
    ensures
        r == digit_char(d as nat),
{
    if d == 0 {
        '0'
    } else if d == 1 {
        '1'
    } else if d == 2 {
        '2'
    } else if d == 3 {
        '3'
    } else if d == 4 {
        '4'
    } else if d == 5 {
        '5'
    } else if d == 6 {
        '6'
    } else if d == 7 {
        '7'
    } else if d == 8 {
        '8'
    } else {
        '9'
    }
}

pub fn decimal_chars(n: u64) -> (r: Vec<char>)
    ensures
        r@ == decimal(n as nat),
    decreases n,
{
    if n < 10 {
        let mut v: Vec<char> = Vec::new();
        v.push(digit_to_char(n));
        v
    } else {
        let mut v = decimal_chars(n / 10);
        v.push(digit_to_char(n % 10));
        v
    }
}

/// `n.to_string()` for an unsigned integer.
pub fn u64_to_string(n: u64) -> (r: String)
    ensures
        r@ == decimal(n as nat),
{
    let v = decimal_chars(n);
    string_of(v.as_slice())
}


// ---------------------------------------------------------------------------
// Replacing and splitting
// ---------------------------------------------------------------------------

/// `str::replace(p, r)` for a non-empty pattern: every non-overlapping
/// occurrence of `p`, scanning left to right, replaced by `r`.
pub open spec fn replace_all(s: Seq<char>, p: Seq<char>, r: Seq<char>) -> Seq<char>
    decreases s.len(),
{
    if p.len() == 0 {
        s
    } else {
        match find(s, p) {
            None => s,
            Some(k) => if 0 <= k && k + p.len() <= s.len() {
                s.subrange(0, k) + r + replace_all(s.subrange(k + p.len(), s.len() as int), p, r)
            } else {
                s
            },
        }
    }
}

pub fn replace_all_chars(s: &[char], p: &[char], r: &[char]) -> (out: Vec<char>)
    requires
        p.len() > 0,
    ensures
        out@ == replace_all(s@, p@, r@),
{
    let mut out: Vec<char> = Vec::new();
    let mut rest = copy_chars(s);
    loop
        invariant
            p.len() > 0,
            replace_all(s@, p@, r@) == out@ + replace_all(rest@, p@, r@),
        decreases rest@.len(),
    {
        proof {
            lemma_find_from_bounds(rest@, p@, 0);
        }
        match find_chars_from(rest.as_slice(), p, 0) {
            None => {
                append_chars(&mut out, rest.as_slice());
                return out;
            },
            Some(k) => {
                let head = slice_chars(rest.as_slice(), 0, k);
                append_chars(&mut out, head.as_slice());
                append_chars(&mut out, r);
                let next = slice_chars(rest.as_slice(), k + p.len(), rest.len());
                assert(out@ + replace_all(next@, p@, r@) =~= (out@.subrange(0, out@.len() - head@.len() - r@.len()) + (head@ + r@ + replace_all(next@, p@, r@))));
                rest = next;
            },
        }
    }
}

pub fn replace_str(s: &[char], p: &str, r: &str) -> (out: Vec<char>)
    requires
        p@.len() > 0,
    ensures
        out@ == replace_all(s@, p@, r@),
{
    let pc = chars_of(p);
    let rc = chars_of(r);
    replace_all_chars(s, pc.as_slice(), rc.as_slice())
}

/// `str::split(c)`: the pieces between occurrences of `c`, including empty
/// pieces at the edges.
pub open spec fn split_char(s: Seq<char>, c: char) -> Seq<Seq<char>>
    decreases s.len(),
{
    match find_char_from(s, c, 0) {
        None => seq![s],
        Some(k) => if 0 <= k < s.len() {
            seq![s.subrange(0, k)] + split_char(s.subrange(k + 1, s.len() as int), c)
        } else {
            seq![s]
        },
    }
}

pub fn split_on_char(s: &[char], c: char) -> (r: Vec<Vec<char>>)
    ensures
        r.deep_view() == split_char(s@, c),
{
    let mut out: Vec<Vec<char>> = Vec::new();
    let mut rest = copy_chars(s);
    assert(out.deep_view() =~= Seq::<Seq<char>>::empty());
    loop
        invariant
            split_char(s@, c) == out.deep_view() + split_char(rest@, c),
        decreases rest@.len(),
    {
        proof {
            lemma_find_char_from(rest@, c, 0);
        }
        match find_char(rest.as_slice(), c, 0) {
            None => {
                let ghost old_out = out.deep_view();
                proof { lemma_deep_view_chars(rest); }
                out.push(rest);
                assert(out.deep_view() =~= old_out + seq![rest@]);
                return out;
            },
            Some(k) => {
                let head = slice_chars(rest.as_slice(), 0, k);
                let next = slice_chars(rest.as_slice(), k + 1, rest.len());
                let ghost old_out = out.deep_view();
                proof { lemma_deep_view_chars(head); }
                out.push(head);
                assert(out.deep_view() =~= old_out.push(head@));
                assert(old_out + (seq![head@] + split_char(next@, c)) =~= old_out.push(head@) + split_char(next@, c));
                rest = next;
            },
        }
    }
}

/// `n` spaces.
pub open spec fn spaces(n: nat) -> Seq<char> {
    Seq::new(n, |i: int| ' ')
}

pub fn push_spaces(v: &mut Vec<char>, n: usize)
    ensures
        final(v)@ == old(v)@ + spaces(n as nat),
{
    let mut i: usize = 0;
    while i < n
        invariant
            i <= n,
            v@ == old(v)@ + spaces(i as nat),
        decreases n - i,
    {
        v.push(' ');
        assert(spaces((i + 1) as nat) =~= spaces(i as nat).push(' '));
        i += 1;
    }
}

/// Number of leading `' '` characters.
pub open spec fn leading_spaces_from(s: Seq<char>, i: int) -> int
    decreases s.len() - i,
{
    if i < 0 || i >= s.len() || s[i] != ' ' {
        0
    } else {
        1 + leading_spaces_from(s, i + 1)
    }
}

pub fn count_leading_spaces(s: &[char]) -> (r: usize)
    ensures
        r as int == leading_spaces_from(s@, 0),
{
    let mut i: usize = 0;
    while i < s.len() && s[i] == ' '
        invariant
            i <= s.len(),
            leading_spaces_from(s@, 0) == i + leading_spaces_from(s@, i as int),
            forall|j: int| 0 <= j < i ==> s@[j] == ' ',
        decreases s.len() - i,
    {
        i += 1;
    }
    i
}

/// UTF-8 length of one character (`char::len_utf8`).
pub open spec fn char_utf8_len(c: char) -> nat {
    let n = c as u32;
    if n < 0x80 {
        1
    } else if n < 0x800 {
        2
    } else if n < 0x10000 {
        3
    } else {
        4
    }
}

/// UTF-8 length of a text (what `str::len` reports).
pub open spec fn byte_len(s: Seq<char>) -> nat
    decreases s.len(),
{
    if s.len() == 0 {
        0
    } else {
        byte_len(s.drop_last()) + char_utf8_len(s.last())
    }
}

/// The character index at which the UTF-8 encoding of `s` reaches exactly
/// `n` bytes, scanning from index `i` with `acc` bytes before it; `None` when
/// `n` falls inside a character or past the end.
pub open spec fn boundary_from(s: Seq<char>, i: int, acc: nat, n: nat) -> Option<int>
    decreases s.len() - i,
{
    if acc == n {
        Some(i)
    } else if acc > n || i < 0 || i >= s.len() {
        None
    } else {
        boundary_from(s, i + 1, acc + char_utf8_len(s[i]), n)
    }
}

/// The character index of byte offset `n`, when `n` is a character boundary
/// (what `str::get(..n)` needs).
pub open spec fn byte_boundary(s: Seq<char>, n: nat) -> Option<int> {
    boundary_from(s, 0, 0, n)
}

pub fn utf8_len(c: char) -> (r: usize)
    ensures
        r == char_utf8_len(c),
{
    let n = c as u32;
    if n < 0x80 {
        1
    } else if n < 0x800 {
        2
    } else if n < 0x10000 {
        3
    } else {
        4
    }
}

pub fn byte_boundary_index(s: &[char], n: usize) -> (r: Option<usize>)
    ensures
        match r {
            Some(k) => byte_boundary(s@, n as nat) == Some(k as int) && k <= s.len(),
            None => byte_boundary(s@, n as nat) is None,
        },
{
    let mut i: usize = 0;
    let mut acc: usize = 0;
    while i < s.len() && acc < n
        invariant
            i <= s.len(),
            acc <= n,
            byte_boundary(s@, n as nat) == boundary_from(s@, i as int, acc as nat, n as nat),
        decreases s.len() - i,
    {
        let w = utf8_len(s[i]);
        if w > n - acc {
            assert(boundary_from(s@, i + 1, (acc + w) as nat, n as nat) is None);
            return None;
        }
        acc = acc + w;
        i += 1;
    }
    if acc == n {
        Some(i)
    } else {
        None
    }
}

/// The lowercase of an ASCII capital letter.
pub fn ascii_lowercase(c: char) -> (r: char)
    requires
        'A' <= c && c <= 'Z',
    ensures
        r == ((c as u32) + 32) as char,
{
    let n = c as u8;
    (n + 32) as char
}

/// ASCII letters lowered.
pub open spec fn ascii_lower(s: Seq<char>) -> Seq<char> {
    s.map_values(|c: char| if 'A' <= c && c <= 'Z' {
        ((c as u32) + 32) as char
    } else {
        c
    })
}

/// `str::to_ascii_lowercase` on characters.
pub fn lower_ascii_chars(t: &[char]) -> (r: Vec<char>)
    ensures
        r@ == ascii_lower(t@),
{
    let mut lower: Vec<char> = Vec::new();
    let mut i: usize = 0;
    while i < t.len()
        invariant
            i <= t.len(),
            lower@ == ascii_lower(t@.take(i as int)),
        decreases t.len() - i,
    {
        let c = t[i];
        let l = if 'A' <= c && c <= 'Z' {
            ascii_lowercase(c)
        } else {
            c
        };
        lower.push(l);
        assert(ascii_lower(t@.take(i + 1)) =~= ascii_lower(t@.take(i as int)).push(l));
        i += 1;
    }
    assert(t@.take(t.len() as int) =~= t@);
    lower
}


/// `String::from_utf8`: the text the bytes encode, exactly when they are
/// valid UTF-8; the error's message otherwise.
#[verifier::external_body]
pub(crate) fn utf8_string(bytes: Vec<u8>) -> (r: Result<String, String>)
    ensures
        r is Ok <==> vstd::utf8::valid_utf8(bytes@),
        r matches Ok(s) ==> s@ == vstd::utf8::decode_utf8(bytes@),
{
    match String::from_utf8(bytes) {
        Ok(s) => Ok(s),
        Err(e) => Err(e.to_string()),
    }
}

/// Each byte taken as the character of the same code (ISO-8859-1).
pub open spec fn latin1(bytes: Seq<u8>) -> Seq<char> {
    Seq::new(bytes.len(), |i: int| bytes[i] as char)
}

/// The text of raw feed bytes: UTF-8 when they are valid UTF-8, else each
/// byte as the character of the same code.
pub open spec fn spec_decode_text(bytes: Seq<u8>) -> Seq<char> {
    if vstd::utf8::valid_utf8(bytes) {
        vstd::utf8::decode_utf8(bytes)
    } else {
        latin1(bytes)
    }
}

pub fn decode_text(bytes: Vec<u8>) -> (r: String)
    ensures
        r@ == spec_decode_text(bytes@),
{
    let ghost b = bytes@;
    let copy = copy_bytes(bytes.as_slice());
    match utf8_string(bytes) {
        Ok(s) => s,
        Err(_) => {
            let mut out = String::new();
            let mut i: usize = 0;
            while i < copy.len()
                invariant
                    i <= copy.len(),
                    copy@ == b,
                    out@ == latin1(b.take(i as int)),
                decreases copy.len() - i,
            {
                let c = copy[i] as char;
                push_char(&mut out, c);
                assert(latin1(b.take(i + 1)) =~= latin1(b.take(i as int)).push(c));
                i += 1;
            }
            assert(b.take(copy.len() as int) =~= b);
            out
        },
    }
}

pub fn copy_bytes(v: &[u8]) -> (r: Vec<u8>)
    ensures
        r@ == v@,
{
    let mut out: Vec<u8> = Vec::new();
    let mut i: usize = 0;
    while i < v.len()
        invariant
            i <= v.len(),
            out@ == v@.take(i as int),
        decreases v.len() - i,
    {
        out.push(v[i]);
        assert(v@.take(i + 1) =~= v@.take(i as int).push(v[i as int]));
        i += 1;
    }
    assert(v@.take(v.len() as int) =~= v@);
    out
}

pub fn byte_range(v: &[u8], start: usize, end: usize) -> (r: Vec<u8>)
    requires
        start <= end <= v.len(),
    ensures
        r@ == v@.subrange(start as int, end as int),
{
    let mut out: Vec<u8> = Vec::new();
    let mut i: usize = start;
    while i < end
        invariant
            start <= i <= end <= v.len(),
            out@ == v@.subrange(start as int, i as int),
        decreases end - i,
    {
        out.push(v[i]);
        assert(v@.subrange(start as int, i + 1) =~= v@.subrange(start as int, i as int).push(
            v[i as int],
        ));
        i += 1;
    }
    out
}

} // verus!
