//! Shard codec: the addressable compressed archive for rendered documents.
//!
//! A shard is a pair of files: `<stem>.zst` holds one independent zstd frame
//! per document, and `<stem>.idx` is a table of `doc_key \t offset \t length`
//! rows pointing into it. This module owns both sides of that format: the
//! frame codec, the index rows a writer emits, and the index reader.

use vstd::prelude::*;

use crate::text::{
    chars_of, copy_str, decimal, find_char_from, is_digit, lines, lines_of, push_char, push_str, split_char,
    split_on_char, string_of, trim, trim_chars, u64_to_string,
};

verus! {

/// On-disk shard format version; writer and reader move together.
pub const SHARD_FORMAT_VERSION: u32 = 1;

/// zstd level for per-document frames.
pub const SHARD_ZSTD_LEVEL: i32 = 9;

/// A located, length-delimited frame within a named shard's `.zst` file.
#[derive(Debug, Clone, PartialEq, Eq)]
pub struct ShardPointer {
    pub shard: String,
    pub offset: u64,
    pub length: u64,
}

impl ShardPointer {
    pub fn new(shard: &str, offset: u64, length: u64) -> (r: ShardPointer)
        ensures
            r.shard@ == shard@,
            r.offset == offset,
            r.length == length,
    {
        ShardPointer { shard: copy_str(shard), offset, length }
    }
}

/// One parsed `.idx` row: a doc key and where its frame lives.
#[derive(Debug, Clone, PartialEq, Eq)]
pub struct ShardIndexEntry {
    pub doc_key: String,
    pub pointer: ShardPointer,
}

// ---------------------------------------------------------------------------
// Unsigned decimal fields
// ---------------------------------------------------------------------------

/// Why an index number did not parse (the cases `u64::from_str` reports).
#[derive(Debug, Clone, Copy, PartialEq, Eq)]
pub enum IntErrorKind {
    Empty,
    InvalidDigit,
    PosOverflow,
}

pub open spec fn digit_value(c: char) -> nat {
    ((c as u32) - ('0' as u32)) as nat
}

/// Digits scanned left to right onto `acc`: a non-digit is `InvalidDigit`,
/// and a value past `u64::MAX` is `PosOverflow`, whichever comes first.
pub open spec fn scan_u64(s: Seq<char>, acc: nat) -> Result<u64, IntErrorKind>
    decreases s.len(),
{
    if s.len() == 0 {
        Ok(acc as u64)
    } else if !is_digit(s[0]) {
        Err(IntErrorKind::InvalidDigit)
    } else if acc * 10 + digit_value(s[0]) > u64::MAX {
        Err(IntErrorKind::PosOverflow)
    } else {
        scan_u64(s.drop_first(), acc * 10 + digit_value(s[0]))
    }
}

/// `u64::from_str`: an optional leading `+`, then decimal digits.
pub open spec fn spec_parse_u64(s: Seq<char>) -> Result<u64, IntErrorKind> {
    if s.len() == 0 {
        Err(IntErrorKind::Empty)
    } else if s[0] == '+' {
        if s.len() == 1 {
            Err(IntErrorKind::InvalidDigit)
        } else {
            scan_u64(s.drop_first(), 0)
        }
    } else {
        scan_u64(s, 0)
    }
}

pub open spec fn int_error_message(e: IntErrorKind) -> Seq<char> {
    match e {
        IntErrorKind::Empty => "cannot parse integer from empty string"@,
        IntErrorKind::InvalidDigit => "invalid digit found in string"@,
        IntErrorKind::PosOverflow => "number too large to fit in target type"@,
    }
}

fn scan_digits(s: &[char], start: usize) -> (r: Result<u64, IntErrorKind>)
    requires
        start <= s.len(),
    ensures
        r == scan_u64(s@.subrange(start as int, s.len() as int), 0),
{
    let mut acc: u64 = 0;
    let mut i: usize = start;
    while i < s.len()
        invariant
            start <= i <= s.len(),
            scan_u64(s@.subrange(start as int, s.len() as int), 0) == scan_u64(
                s@.subrange(i as int, s.len() as int),
                acc as nat,
            ),
        decreases s.len() - i,
    {
        let ghost rest = s@.subrange(i as int, s.len() as int);
        assert(rest.drop_first() =~= s@.subrange(i as int + 1, s.len() as int));
        let c = s[i];
        if !(c >= '0' && c <= '9') {
            return Err(IntErrorKind::InvalidDigit);
        }
        let d = (c as u32 - '0' as u32) as u64;
        if acc > (u64::MAX - d) / 10 {
            assert(acc * 10 + d > u64::MAX) by (nonlinear_arith)
                requires
                    acc > (u64::MAX - d) / 10,
                    d <= 9,
            ;
            return Err(IntErrorKind::PosOverflow);
        }
        assert(acc * 10 + d <= u64::MAX) by (nonlinear_arith)
            requires
                acc <= (u64::MAX - d) / 10,
                d <= 9,
        ;
        acc = acc * 10 + d;
        i += 1;
    }
    Ok(acc)
}

/// `u64::from_str` on a character slice.
pub fn parse_u64(s: &[char]) -> (r: Result<u64, IntErrorKind>)
    ensures
        r == spec_parse_u64(s@),
{
    if s.len() == 0 {
        return Err(IntErrorKind::Empty);
    }
    if s[0] == '+' {
        if s.len() == 1 {
            return Err(IntErrorKind::InvalidDigit);
        }
        assert(s@.drop_first() =~= s@.subrange(1, s.len() as int));
        scan_digits(s, 1)
    } else {
        assert(s@ =~= s@.subrange(0, s.len() as int));
        scan_digits(s, 0)
    }
}

// ---------------------------------------------------------------------------
// The index
// ---------------------------------------------------------------------------

/// The `.idx` row a writer emits for one frame.
pub open spec fn spec_index_row(doc_key: Seq<char>, offset: u64, length: u64) -> Seq<char> {
    doc_key + seq!['\t'] + decimal(offset as nat) + seq!['\t'] + decimal(length as nat) + seq![
        '\n',
    ]
}

/// The `.idx` row for a frame of `length` bytes at `offset`.
pub fn index_row(doc_key: &str, offset: u64, length: u64) -> (r: String)
    ensures
        r@ == spec_index_row(doc_key@, offset, length),
{
    let mut out = copy_str(doc_key);
    push_char(&mut out, '\t');
    let o = u64_to_string(offset);
    push_str(&mut out, o.as_str());
    push_char(&mut out, '\t');
    let l = u64_to_string(length);
    push_str(&mut out, l.as_str());
    push_char(&mut out, '\n');
    out
}

/// A refused `.idx` line: its 1-based number and what was wrong.
#[derive(Debug, Clone, PartialEq, Eq)]
pub struct ShardIndexError {
    pub line_number: usize,
    pub reason: String,
}

impl ShardIndexError {
    /// The human-readable message.
    pub fn message(&self) -> (r: String)
        ensures
            r@ == "invalid shard index line "@ + decimal(self.line_number as nat) + ": "@
                + self.reason@,
    {
        let mut out = copy_str("invalid shard index line ");
        let n = u64_to_string(self.line_number as u64);
        push_str(&mut out, n.as_str());
        push_str(&mut out, ": ");
        push_str(&mut out, self.reason.as_str());
        out
    }
}

/// What one index line gives: nothing (blank), an entry, or the reason it
/// is refused.
pub enum LineOutcome {
    Blank,
    Entry(Seq<char>, u64, u64),
    Refused(Seq<char>),
}

pub open spec fn line_outcome(line: Seq<char>) -> LineOutcome {
    let t = trim(line);
    let parts = split_char(t, '\t');
    if t.len() == 0 {
        LineOutcome::Blank
    } else if parts.len() != 3 {
        LineOutcome::Refused("expected 3 tab-separated fields"@)
    } else if trim(parts[0]).len() == 0 {
        LineOutcome::Refused("empty doc key"@)
    } else {
        match (spec_parse_u64(parts[1]), spec_parse_u64(parts[2])) {
            (Err(e), _) => LineOutcome::Refused("offset: "@ + int_error_message(e)),
            (Ok(_), Err(e)) => LineOutcome::Refused("length: "@ + int_error_message(e)),
            (Ok(o), Ok(l)) => LineOutcome::Entry(trim(parts[0]), o, l),
        }
    }
}

/// The entries of the first `n` lines, or the 0-based number of the first
/// refused line among them and its reason.
pub open spec fn index_from(ls: Seq<Seq<char>>, n: int) -> Result<
    Seq<(Seq<char>, u64, u64)>,
    (int, Seq<char>),
>
    decreases n,
{
    if n <= 0 {
        Ok(Seq::empty())
    } else {
        match index_from(ls, n - 1) {
            Err(e) => Err(e),
            Ok(es) => match line_outcome(ls[n - 1]) {
                LineOutcome::Blank => Ok(es),
                LineOutcome::Entry(k, o, l) => Ok(es.push((k, o, l))),
                LineOutcome::Refused(m) => Err((n - 1, m)),
            },
        }
    }
}

/// A parsed index: its rows in order as (key, offset, length), or the first
/// refused line.
pub open spec fn spec_shard_index(idx_text: Seq<char>) -> Result<
    Seq<(Seq<char>, u64, u64)>,
    (int, Seq<char>),
> {
    index_from(lines(idx_text), lines(idx_text).len() as int)
}

proof fn lemma_index_err_persists(ls: Seq<Seq<char>>, k: int, n: int)
    requires
        k <= n,
        index_from(ls, k) is Err,
    ensures
        index_from(ls, n) == index_from(ls, k),
    decreases n - k,
{
    if k < n {
        lemma_index_err_persists(ls, k, n - 1);
    }
}

pub open spec fn entry_view(e: ShardIndexEntry) -> (Seq<char>, u64, u64) {
    (e.doc_key@, e.pointer.offset, e.pointer.length)
}

pub open spec fn index_result_ok(
    shard: Seq<char>,
    idx_text: Seq<char>,
    r: Result<Vec<ShardIndexEntry>, ShardIndexError>,
) -> bool {
    match spec_shard_index(idx_text) {
        Ok(es) => r matches Ok(v) && v@.len() == es.len() && (forall|i: int|
            0 <= i < es.len() ==> #[trigger] entry_view(v@[i]) == es[i] && v@[i].pointer.shard@
                == shard),
        Err((n, m)) => r matches Err(e) && e.line_number == n + 1 && e.reason@ == m,
    }
}

fn int_error_text(lead: &str, e: IntErrorKind) -> (r: String)
    ensures
        r@ == lead@ + int_error_message(e),
{
    let mut out = copy_str(lead);
    match e {
        IntErrorKind::Empty => push_str(&mut out, "cannot parse integer from empty string"),
        IntErrorKind::InvalidDigit => push_str(&mut out, "invalid digit found in string"),
        IntErrorKind::PosOverflow => push_str(&mut out, "number too large to fit in target type"),
    }
    out
}

fn parse_index_line(line: &[char]) -> (r: Result<Option<(String, u64, u64)>, String>)
    ensures
        match line_outcome(line@) {
            LineOutcome::Blank => r matches Ok(None),
            LineOutcome::Entry(k, o, l) => r matches Ok(Some(e)) && e.0@ == k && e.1 == o && e.2
                == l,
            LineOutcome::Refused(m) => r matches Err(s) && s@ == m,
        },
{
    let t = trim_chars(line);
    if t.len() == 0 {
        return Ok(None);
    }
    let parts = split_on_char(t.as_slice(), '\t');
    assert(parts.deep_view().len() == parts@.len());
    if parts.len() != 3 {
        return Err(copy_str("expected 3 tab-separated fields"));
    }
    assert(parts@[0]@ == parts.deep_view()[0]);
    assert(parts@[1]@ == parts.deep_view()[1]);
    assert(parts@[2]@ == parts.deep_view()[2]);
    let key = trim_chars(parts[0].as_slice());
    if key.len() == 0 {
        return Err(copy_str("empty doc key"));
    }
    let offset = match parse_u64(parts[1].as_slice()) {
        Ok(v) => v,
        Err(e) => return Err(int_error_text("offset: ", e)),
    };
    let length = match parse_u64(parts[2].as_slice()) {
        Ok(v) => v,
        Err(e) => return Err(int_error_text("length: ", e)),
    };
    Ok(Some((string_of(key.as_slice()), offset, length)))
}

/// Parse a `.idx` text, one `doc_key \t offset \t length` row per line, each
/// pointer naming `shard`; blank lines are skipped, and the first refused
/// line is reported with its 1-based number.
pub fn parse_shard_index(shard: &str, idx_text: &str) -> (r: Result<
    Vec<ShardIndexEntry>,
    ShardIndexError,
>)
    ensures
        index_result_ok(shard@, idx_text@, r),
{
    let text = chars_of(idx_text);
    let ls = lines_of(text.as_slice());
    let ghost lv = lines(idx_text@);
    assert(ls.deep_view() == lv);
    let mut entries: Vec<ShardIndexEntry> = Vec::new();
    let mut i: usize = 0;
    while i < ls.len()
        invariant
            i <= ls.len(),
            ls.deep_view() == lv,
            lv == lines(idx_text@),
            index_from(lv, i as int) matches Ok(es) && entries@.len() == es.len() && (forall|
                j: int,
            | 0 <= j < es.len() ==> #[trigger] entry_view(entries@[j]) == es[j]
                && entries@[j].pointer.shard@ == shard@),
        decreases ls.len() - i,
    {
        assert(ls@[i as int]@ == lv[i as int]);
        let ghost prev = entries@;
        match parse_index_line(ls[i].as_slice()) {
            Err(reason) => {
                proof {
                    lemma_index_err_persists(lv, i as int + 1, lv.len() as int);
                }
                return Err(ShardIndexError { line_number: i + 1, reason });
            },
            Ok(None) => {
                assert(index_from(lv, i as int + 1) == index_from(lv, i as int));
            },
            Ok(Some((key, offset, length))) => {
                let entry = ShardIndexEntry {
                    doc_key: key,
                    pointer: ShardPointer::new(shard, offset, length),
                };
                entries.push(entry);
                proof {
                    let es = index_from(lv, i as int)->Ok_0;
                    let es2 = index_from(lv, i as int + 1)->Ok_0;
                    assert(es2 == es.push((key@, offset, length)));
                    assert(entries@ == prev.push(entry));
                    assert forall|j: int| 0 <= j < es2.len() implies #[trigger] entry_view(
                        entries@[j],
                    ) == es2[j] && entries@[j].pointer.shard@ == shard@ by {
                        if j < es.len() {
                            assert(entries@[j] == prev[j]);
                        }
                    }
                }
            },
        }
        i += 1;
    }
    assert(ls.deep_view().len() == ls@.len());
    assert(lv.len() == i);
    assert(spec_shard_index(idx_text@) == index_from(lv, i as int));
    Ok(entries)
}


// ---------------------------------------------------------------------------
// Reading back what was written: the index
// ---------------------------------------------------------------------------

/// The index text of rows written in order.
pub open spec fn index_text(rows: Seq<(Seq<char>, u64, u64)>) -> Seq<char>
    decreases rows.len(),
{
    if rows.len() == 0 {
        Seq::empty()
    } else {
        index_text(rows.drop_last()) + spec_index_row(
            rows.last().0,
            rows.last().1,
            rows.last().2,
        )
    }
}

/// A key that reads back as itself: not empty, no surrounding whitespace,
/// no tab or line break inside.
pub open spec fn is_plain_key(k: Seq<char>) -> bool {
    &&& k.len() > 0
    &&& trim(k) == k
    &&& forall|i: int| 0 <= i < k.len() ==> #[trigger] k[i] != '\t' && k[i] != '\n'
}

proof fn lemma_scan_concat(s: Seq<char>, t: Seq<char>, acc: nat)
    requires
        acc <= u64::MAX,
    ensures
        scan_u64(s + t, acc) == (match scan_u64(s, acc) {
            Ok(v) => scan_u64(t, v as nat),
            Err(e) => Err(e),
        }),
    decreases s.len(),
{
    if s.len() > 0 {
        assert((s + t).drop_first() =~= s.drop_first() + t);
        assert((s + t)[0] == s[0]);
        if is_digit(s[0]) && acc * 10 + digit_value(s[0]) <= u64::MAX {
            lemma_scan_concat(s.drop_first(), t, acc * 10 + digit_value(s[0]));
        }
    } else {
        assert(s + t =~= t);
    }
}

proof fn lemma_digit_char(d: nat)
    requires
        d < 10,
    ensures
        is_digit(crate::text::digit_char(d)),
        digit_value(crate::text::digit_char(d)) == d,
{
}

proof fn lemma_scan_decimal(n: nat)
    requires
        n <= u64::MAX,
    ensures
        scan_u64(decimal(n), 0) == Ok::<u64, IntErrorKind>(n as u64),
        decimal(n).len() > 0,
        is_digit(decimal(n)[0]),
        is_digit(decimal(n).last()),
    decreases n,
{
    reveal_with_fuel(scan_u64, 2);
    if n < 10 {
        lemma_digit_char(n);
        let s = decimal(n);
        assert(s.drop_first() =~= Seq::<char>::empty());
        assert(scan_u64(s.drop_first(), n) == Ok::<u64, IntErrorKind>(n as u64));
    } else {
        lemma_scan_decimal(n / 10);
        lemma_digit_char(n % 10);
        let t = seq![crate::text::digit_char(n % 10)];
        lemma_scan_concat(decimal(n / 10), t, 0);
        assert(t.drop_first() =~= Seq::<char>::empty());
        assert((n / 10) * 10 + n % 10 == n);
        assert(scan_u64(t.drop_first(), n) == Ok::<u64, IntErrorKind>(n as u64));
        assert(scan_u64(t, (n / 10) as u64 as nat) == Ok::<u64, IntErrorKind>(n as u64));
        assert(decimal(n)[0] == decimal(n / 10)[0]);
    }
}

proof fn lemma_parse_decimal(n: u64)
    ensures
        spec_parse_u64(decimal(n as nat)) == Ok::<u64, IntErrorKind>(n),
        decimal(n as nat).len() > 0,
        forall|i: int| 0 <= i < decimal(n as nat).len() ==> is_digit(#[trigger] decimal(n as nat)[i]),
        is_digit(decimal(n as nat).last()),
{
    lemma_scan_decimal(n as nat);
    lemma_decimal_digits(n as nat);
}

proof fn lemma_decimal_digits(n: nat)
    ensures
        forall|i: int| 0 <= i < decimal(n).len() ==> is_digit(#[trigger] decimal(n)[i]),
    decreases n,
{
    if n < 10 {
        lemma_digit_char(n);
    } else {
        lemma_decimal_digits(n / 10);
        lemma_digit_char(n % 10);
        assert forall|i: int| 0 <= i < decimal(n).len() implies is_digit(#[trigger] decimal(n)[i]) by {
            if i < decimal(n / 10).len() {
                assert(decimal(n)[i] == decimal(n / 10)[i]);
            }
        }
    }
}

proof fn lemma_find_char_after_prefix(a: Seq<char>, c: char, b: Seq<char>)
    requires
        forall|i: int| 0 <= i < a.len() ==> #[trigger] a[i] != c,
    ensures
        find_char_from(a + seq![c] + b, c, 0) == Some(a.len() as int),
{
    let s = a + seq![c] + b;
    crate::text::lemma_find_char_from(s, c, 0);
    assert(s[a.len() as int] == c);
    assert forall|m: int| 0 <= m < a.len() implies s[m] != c by {
        assert(s[m] == a[m]);
    }
    lemma_find_char_first(s, c, 0, a.len() as int);
}

proof fn lemma_find_char_first(s: Seq<char>, c: char, i: int, k: int)
    requires
        0 <= i <= k < s.len(),
        s[k] == c,
        forall|m: int| i <= m < k ==> s[m] != c,
    ensures
        find_char_from(s, c, i) == Some(k),
    decreases k - i,
{
    if i < k {
        lemma_find_char_first(s, c, i + 1, k);
    }
}

proof fn lemma_find_char_absent(s: Seq<char>, c: char, i: int)
    requires
        0 <= i,
        forall|m: int| i <= m < s.len() ==> s[m] != c,
    ensures
        find_char_from(s, c, i) is None,
    decreases s.len() - i,
{
    if i < s.len() {
        lemma_find_char_absent(s, c, i + 1);
    }
}

proof fn lemma_split_row(k: Seq<char>, a: Seq<char>, b: Seq<char>)
    requires
        forall|i: int| 0 <= i < k.len() ==> #[trigger] k[i] != '\t',
        forall|i: int| 0 <= i < a.len() ==> #[trigger] a[i] != '\t',
        forall|i: int| 0 <= i < b.len() ==> #[trigger] b[i] != '\t',
    ensures
        split_char(k + seq!['\t'] + a + seq!['\t'] + b, '\t') == seq![k, a, b],
{
    let s = k + seq!['\t'] + (a + seq!['\t'] + b);
    assert(k + seq!['\t'] + a + seq!['\t'] + b =~= s);
    lemma_find_char_after_prefix(k, '\t', a + seq!['\t'] + b);
    assert(s.subrange(0, k.len() as int) =~= k);
    let r1 = a + seq!['\t'] + b;
    assert(s.subrange(k.len() as int + 1, s.len() as int) =~= r1);
    lemma_find_char_after_prefix(a, '\t', b);
    assert(r1.subrange(0, a.len() as int) =~= a);
    assert(r1.subrange(a.len() as int + 1, r1.len() as int) =~= b);
    lemma_find_char_absent(b, '\t', 0);
    assert(split_char(b, '\t') == seq![b]);
    assert(split_char(r1, '\t') =~= seq![a, b]);
    assert(split_char(s, '\t') =~= seq![k, a, b]);
}

proof fn lemma_trim_fixed(s: Seq<char>)
    requires
        s.len() > 0,
        !crate::text::is_ws(s[0]),
        !crate::text::is_ws(s.last()),
    ensures
        trim(s) == s,
{
    assert(crate::text::first_non_ws(s, 0) == 0);
    assert(s.subrange(0, s.len() as int) =~= s);
    assert(crate::text::end_non_ws(s, s.len() as int) == s.len());
}

proof fn lemma_plain_key_edges(k: Seq<char>)
    requires
        is_plain_key(k),
    ensures
        !crate::text::is_ws(k[0]),
{
    if crate::text::is_ws(k[0]) {
        assert(crate::text::first_non_ws(k, 0) >= 1) by {
            lemma_first_non_ws_ge(k, 0);
        }
        assert(trim(k).len() < k.len()) by {
            crate::text::lemma_first_non_ws_bounds(k, 0);
            crate::text::lemma_end_non_ws_bounds(crate::text::trim_start(k), crate::text::trim_start(k).len() as int);
        }
    }
}

proof fn lemma_first_non_ws_ge(s: Seq<char>, i: int)
    requires
        0 <= i < s.len(),
        crate::text::is_ws(s[i]),
    ensures
        crate::text::first_non_ws(s, i) > i,
    decreases s.len() - i,
{
    if i + 1 < s.len() && crate::text::is_ws(s[i + 1]) {
        lemma_first_non_ws_ge(s, i + 1);
    }
    crate::text::lemma_first_non_ws_bounds(s, i + 1);
}

/// The line a written row reads as, and what that line gives.
proof fn lemma_row_line(k: Seq<char>, o: u64, l: u64)
    requires
        is_plain_key(k),
    ensures
        ({
            let line = k + seq!['\t'] + decimal(o as nat) + seq!['\t'] + decimal(l as nat);
            &&& spec_index_row(k, o, l) == line + seq!['\n']
            &&& crate::text::strip_cr(line) == line
            &&& line_outcome(line) == LineOutcome::Entry(k, o, l)
            &&& forall|i: int| 0 <= i < line.len() ==> #[trigger] line[i] != '\n'
        }),
{
    let dof = decimal(o as nat);
    let dl = decimal(l as nat);
    let line = k + seq!['\t'] + dof + seq!['\t'] + dl;
    lemma_parse_decimal(o);
    lemma_parse_decimal(l);
    lemma_plain_key_edges(k);
    assert(spec_index_row(k, o, l) =~= line + seq!['\n']);
    assert(line.last() == dl.last());
    assert(line[0] == k[0]);
    lemma_trim_fixed(line);
    assert forall|i: int| 0 <= i < dof.len() implies #[trigger] dof[i] != '\t' by {
        assert(is_digit(dof[i]));
    }
    assert forall|i: int| 0 <= i < dl.len() implies #[trigger] dl[i] != '\t' by {
        assert(is_digit(dl[i]));
    }
    lemma_split_row(k, dof, dl);
    assert forall|i: int| 0 <= i < line.len() implies #[trigger] line[i] != '\n' by {
        if i < k.len() {
            assert(line[i] == k[i]);
        } else if i == k.len() {
        } else if i < k.len() + 1 + dof.len() {
            assert(line[i] == dof[i - k.len() - 1]);
            assert(is_digit(dof[i - k.len() - 1]));
        } else if i == k.len() + 1 + dof.len() {
        } else {
            assert(line[i] == dl[i - k.len() - 2 - dof.len()]);
            assert(is_digit(dl[i - k.len() - 2 - dof.len()]));
        }
    }
}

/// `lines` of text ending in a line break, followed by more text.
proof fn lemma_lines_concat(a: Seq<char>, b: Seq<char>)
    requires
        a.len() == 0 || a.last() == '\n',
    ensures
        lines(a + b) == lines(a) + lines(b),
    decreases a.len(),
{
    if a.len() == 0 {
        assert(a + b =~= b);
        assert(lines(a) =~= Seq::<Seq<char>>::empty());
        assert(lines(a) + lines(b) =~= lines(b));
    } else {
        crate::text::lemma_find_char_from(a, '\n', 0);
        let k = find_char_from(a, '\n', 0)->0;
        assert(find_char_from(a, '\n', 0) is Some) by {
            if find_char_from(a, '\n', 0) is None {
                assert(a[a.len() - 1] != '\n');
            }
        }
        let s = a + b;
        assert forall|m: int| 0 <= m < k implies s[m] != '\n' by {
            assert(s[m] == a[m]);
        }
        lemma_find_char_first(s, '\n', 0, k);
        assert(s.subrange(0, k) =~= a.subrange(0, k));
        let rest_a = a.subrange(k + 1, a.len() as int);
        assert(s.subrange(k + 1, s.len() as int) =~= rest_a + b);
        if rest_a.len() > 0 {
            assert(rest_a.last() == a.last());
        }
        lemma_lines_concat(rest_a, b);
        assert(lines(s) =~= seq![crate::text::strip_cr(a.subrange(0, k))] + lines(rest_a + b));
        assert(lines(a) =~= seq![crate::text::strip_cr(a.subrange(0, k))] + lines(rest_a));
    }
}

proof fn lemma_lines_of_row(line: Seq<char>)
    requires
        forall|i: int| 0 <= i < line.len() ==> #[trigger] line[i] != '\n',
        crate::text::strip_cr(line) == line,
        line.len() > 0,
    ensures
        lines(line + seq!['\n']) == seq![line],
{
    let s = line + seq!['\n'];
    assert forall|m: int| 0 <= m < line.len() implies s[m] != '\n' by {
        assert(s[m] == line[m]);
    }
    lemma_find_char_first(s, '\n', 0, line.len() as int);
    assert(s.subrange(0, line.len() as int) =~= line);
    assert(s.subrange(line.len() as int + 1, s.len() as int) =~= Seq::<char>::empty());
    assert(lines(Seq::<char>::empty()) =~= Seq::<Seq<char>>::empty());
    assert(lines(s) =~= seq![crate::text::strip_cr(line)] + Seq::<Seq<char>>::empty());
}

proof fn lemma_index_from_prefix(ls: Seq<Seq<char>>, extra: Seq<Seq<char>>, n: int)
    requires
        0 <= n <= ls.len(),
    ensures
        index_from(ls + extra, n) == index_from(ls, n),
    decreases n,
{
    if n > 0 {
        lemma_index_from_prefix(ls, extra, n - 1);
        assert((ls + extra)[n - 1] == ls[n - 1]);
    }
}

proof fn lemma_index_text_lines(rows: Seq<(Seq<char>, u64, u64)>)
    requires
        forall|i: int| 0 <= i < rows.len() ==> is_plain_key(#[trigger] rows[i].0),
    ensures
        index_text(rows).len() == 0 || index_text(rows).last() == '\n',
        lines(index_text(rows)).len() == rows.len(),
        index_from(lines(index_text(rows)), rows.len() as int) == Ok::<
            Seq<(Seq<char>, u64, u64)>,
            (int, Seq<char>),
        >(rows),
    decreases rows.len(),
{
    if rows.len() == 0 {
        assert(index_text(rows) =~= Seq::<char>::empty());
        assert(lines(index_text(rows)) =~= Seq::<Seq<char>>::empty());
        assert(rows =~= Seq::<(Seq<char>, u64, u64)>::empty());
    } else {
        let prev = rows.drop_last();
        assert forall|i: int| 0 <= i < prev.len() implies is_plain_key(#[trigger] prev[i].0) by {
            assert(prev[i] == rows[i]);
        }
        lemma_index_text_lines(prev);
        let (k, o, l) = rows.last();
        assert(is_plain_key(rows[rows.len() - 1].0));
        lemma_row_line(k, o, l);
        let line = k + seq!['\t'] + decimal(o as nat) + seq!['\t'] + decimal(l as nat);
        let t0 = index_text(prev);
        let row = spec_index_row(k, o, l);
        lemma_lines_concat(t0, row);
        lemma_lines_of_row(line);
        let ls0 = lines(t0);
        let ls = lines(index_text(rows));
        assert(ls == ls0 + seq![line]);
        lemma_index_from_prefix(ls0, seq![line], prev.len() as int);
        assert(ls[rows.len() - 1] == line);
        assert(rows =~= prev.push((k, o, l)));
        assert(index_from(ls, rows.len() - 1) == Ok::<Seq<(Seq<char>, u64, u64)>, (int, Seq<char>)>(prev));
        assert(line_outcome(ls[rows.len() - 1]) == LineOutcome::Entry(k, o, l));
        assert(index_text(rows).last() == row.last());
    }
}

/// The index rows a writer emits read back, in order, as the keys, offsets
/// and lengths it wrote, when each key is plain (not empty, no surrounding
/// whitespace, no tab or line break).
pub proof fn law_index_rows_read_back(rows: Seq<(Seq<char>, u64, u64)>)
    requires
        forall|i: int| 0 <= i < rows.len() ==> is_plain_key(#[trigger] rows[i].0),
    ensures
        spec_shard_index(index_text(rows)) == Ok::<Seq<(Seq<char>, u64, u64)>, (int, Seq<char>)>(
            rows,
        ),
{
    lemma_index_text_lines(rows);
}


// ---------------------------------------------------------------------------
// Frames
// ---------------------------------------------------------------------------

/// The frame `zstd::encode_all` makes of `payload` at compression `level`.
pub uninterp spec fn zstd_frame(payload: Seq<u8>, level: i32) -> Seq<u8>;

/// `zstd::encode_all` over a byte slice: the frame it makes of `payload` at
/// compression `level` (named `zstd_frame`). Reading a slice and writing a
/// `Vec` cannot fail, and zstd clamps the level into its range, so the
/// encoder always gives a frame; its error path is only converted.
#[verifier::external_body]
fn zstd_encode(payload: &[u8], level: i32) -> (r: Result<Vec<u8>, String>)
    ensures
        r is Ok,
        r matches Ok(frame) ==> frame@ == zstd_frame(payload@, level),
{
    match zstd::encode_all(payload, level) {
        Ok(frame) => Ok(frame),
        Err(e) => Err(e.to_string()),
    }
}

/// What `zstd::decode_all` gives for `blob`: the bytes it decodes to, or the
/// message of its error.
pub uninterp spec fn zstd_decoded(blob: Seq<u8>) -> Result<Seq<u8>, Seq<char>>;

/// `zstd::decode_all` over a byte slice; its outcome depends on the bytes
/// alone (named `zstd_decoded`). zstd is lossless: a frame that `encode_all`
/// made of some payload decodes to that payload.
#[verifier::external_body]
fn zstd_decode(blob: &[u8]) -> (r: Result<Vec<u8>, String>)
    ensures
        r is Ok <==> zstd_decoded(blob@) is Ok,
        r matches Ok(d) ==> zstd_decoded(blob@)->Ok_0 == d@,
        r matches Err(m) ==> zstd_decoded(blob@)->Err_0 == m@,
        (exists|p: Seq<u8>, level: i32| #[trigger] zstd_frame(p, level) == blob@) ==> r is Ok,
        forall|p: Seq<u8>, level: i32| #[trigger] zstd_frame(p, level) == blob@ ==> (r matches Ok(
            d,
        ) ==> d@ == p),
{
    match zstd::decode_all(blob) {
        Ok(bytes) => Ok(bytes),
        Err(e) => Err(e.to_string()),
    }
}

/// What one document adds to a shard: its compressed frame, the index row
/// that points at it, and the pointer itself.
pub struct FrameAppend {
    pub frame: Vec<u8>,
    pub index_row: String,
    pub pointer: ShardPointer,
}

/// `a` is what laying out `frame` under `doc_key` at cursor `old` gives,
/// with the cursor moved on to `new`.
pub open spec fn placed(
    old: ShardCursor,
    new: ShardCursor,
    doc_key: Seq<char>,
    frame: Seq<u8>,
    a: FrameAppend,
) -> bool {
    &&& a.frame@ == frame
    &&& a.pointer.shard@ == old.shard@
    &&& a.pointer.offset == old.offset
    &&& a.pointer.length == frame.len()
    &&& a.index_row@ == spec_index_row(doc_key, old.offset, a.pointer.length)
    &&& new.offset == old.offset + a.pointer.length
    &&& new.shard == old.shard
}

/// The bytes of the frames `as` lays out.
pub open spec fn frames_length(xs: Seq<FrameAppend>) -> int
    decreases xs.len(),
{
    if xs.len() == 0 {
        0
    } else {
        frames_length(xs.drop_last()) + xs.last().pointer.length
    }
}

/// Over any history of frames laid out one after another, each pointer's
/// offset is the starting offset plus the lengths of the frames before it,
/// every pointer names the same shard, and the cursor ends past them all.
pub proof fn law_pointers_accumulate(
    cs: Seq<ShardCursor>,
    keys: Seq<Seq<char>>,
    frames: Seq<Seq<u8>>,
    xs: Seq<FrameAppend>,
)
    requires
        cs.len() == xs.len() + 1,
        keys.len() == xs.len(),
        frames.len() == xs.len(),
        forall|k: int| 0 <= k < xs.len() ==> #[trigger] placed(cs[k], cs[k + 1], keys[k], frames[k], xs[k]),
    ensures
        forall|k: int|
            0 <= k < xs.len() ==> (#[trigger] xs[k]).pointer.offset == cs[0].offset + frames_length(
                xs.take(k),
            ) && xs[k].pointer.shard@ == cs[0].shard@,
        cs.last().offset == cs[0].offset + frames_length(xs),
        cs.last().shard == cs[0].shard,
    decreases xs.len(),
{
    if xs.len() > 0 {
        let n = xs.len() - 1;
        law_pointers_accumulate(cs.drop_last(), keys.drop_last(), frames.drop_last(), xs.drop_last());
        assert(placed(cs[n], cs[n + 1], keys[n], frames[n], xs[n]));
        assert(xs.take(n) =~= xs.drop_last());
        assert(cs.drop_last()[0] == cs[0]);
        assert(cs.drop_last().last() == cs[n]);
        assert forall|k: int| 0 <= k < xs.len() implies (#[trigger] xs[k]).pointer.offset == cs[0].offset
            + frames_length(xs.take(k)) && xs[k].pointer.shard@ == cs[0].shard@ by {
            if k < n {
                assert(xs.drop_last()[k] == xs[k]);
                assert(xs.drop_last().take(k) =~= xs.take(k));
                assert(placed(cs.drop_last()[k], cs.drop_last()[k + 1], keys.drop_last()[k], frames.drop_last()[k], xs.drop_last()[k]));
            }
        }
    } else {
        assert(xs.take(0) =~= xs);
    }
}

/// Where a shard being written stands: its name and how many bytes of
/// frames precede the next one.
pub struct ShardCursor {
    pub shard: String,
    pub offset: u64,
}

impl ShardCursor {
    pub fn new(stem: &str) -> (r: ShardCursor)
        ensures
            r.shard@ == stem@,
            r.offset == 0,
    {
        ShardCursor { shard: copy_str(stem), offset: 0 }
    }

    /// Compress `payload` as one frame and lay it out after the frames
    /// written so far: the frame, its `.idx` row and its pointer, with the
    /// cursor moved past it. It fails, leaving the cursor, exactly when the
    /// shard would pass `u64::MAX` bytes.
    pub fn append(&mut self, doc_key: &str, payload: &[u8]) -> (r: Result<FrameAppend, String>)
        ensures
            final(self).shard == old(self).shard,
            r is Ok <==> old(self).offset + zstd_frame(payload@, SHARD_ZSTD_LEVEL).len() <= u64::MAX,
            r matches Err(m) ==> m@ == "shard offset overflow"@,
            match r {
                Ok(a) => placed(
                    *old(self),
                    *final(self),
                    doc_key@,
                    zstd_frame(payload@, SHARD_ZSTD_LEVEL),
                    a,
                ),
                Err(_) => final(self).offset == old(self).offset,
            },
    {
        let frame = match zstd_encode(payload, SHARD_ZSTD_LEVEL) {
            Ok(f) => f,
            Err(e) => return Err(e),
        };
        self.place_frame(doc_key, frame)
    }

    /// Lay out an already compressed `frame` after the frames written so
    /// far: its `.idx` row and pointer, with the cursor moved past it. It
    /// fails, leaving the cursor, exactly when the shard would pass
    /// `u64::MAX` bytes.
    pub fn place_frame(&mut self, doc_key: &str, frame: Vec<u8>) -> (r: Result<FrameAppend, String>)
        ensures
            final(self).shard == old(self).shard,
            old(self).offset + frame@.len() <= u64::MAX ==> (r matches Ok(a) && placed(
                *old(self),
                *final(self),
                doc_key@,
                frame@,
                a,
            )),
            old(self).offset + frame@.len() > u64::MAX ==> (r matches Err(m) && m@
                == "shard offset overflow"@ && final(self).offset == old(self).offset),
    {
        let length = frame.len() as u64;
        if length > u64::MAX - self.offset {
            return Err(copy_str("shard offset overflow"));
        }
        let index_row = index_row(doc_key, self.offset, length);
        let pointer = ShardPointer::new(self.shard.as_str(), self.offset, length);
        self.offset = self.offset + length;
        Ok(FrameAppend { frame, index_row, pointer })
    }
}

/// What reading `blob` as a frame gives: the payload of any frame it is.
pub open spec fn payload_of(blob: Seq<u8>, r: Result<Vec<u8>, String>) -> bool {
    forall|p: Seq<u8>, level: i32| #[trigger] zstd_frame(p, level) == blob ==> (r matches Ok(d)
        && d@ == p)
}

/// The payload of one frame read from a shard.
pub fn frame_payload(blob: &[u8]) -> (r: Result<Vec<u8>, String>)
    ensures
        payload_of(blob@, r),
        r is Ok <==> zstd_decoded(blob@) is Ok,
        r matches Ok(d) ==> zstd_decoded(blob@)->Ok_0 == d@,
        r matches Err(m) ==> zstd_decoded(blob@)->Err_0 == m@,
{
    zstd_decode(blob)
}

/// The text of a decompressed frame of `shard`, or why it is not UTF-8.
pub fn frame_text(shard: &str, bytes: Vec<u8>) -> (r: Result<String, String>)
    ensures
        r is Ok <==> vstd::utf8::valid_utf8(bytes@),
        r matches Ok(s) ==> s@ == vstd::utf8::decode_utf8(bytes@),
        r matches Err(m) ==> exists|detail: Seq<char>|
            m@ == "decompressed "@ + shard@ + " document was not UTF-8: "@ + detail,
{
    match crate::text::utf8_string(bytes) {
        Ok(s) => Ok(s),
        Err(detail) => {
            let mut m = copy_str("decompressed ");
            push_str(&mut m, shard);
            push_str(&mut m, " document was not UTF-8: ");
            push_str(&mut m, detail.as_str());
            assert(m@ == "decompressed "@ + shard@ + " document was not UTF-8: "@ + detail@);
            Err(m)
        },
    }
}

/// A frame written for a payload reads back as that payload.
pub proof fn law_frame_reads_back(payload: Seq<u8>, level: i32, r: Result<Vec<u8>, String>)
    requires
        payload_of(zstd_frame(payload, level), r),
    ensures
        r matches Ok(d) && d@ == payload,
{
    assert(zstd_frame(payload, level) == zstd_frame(payload, level));
}

/// A document's text, written as the frame of its UTF-8 bytes, reads back as
/// that text: the decoded bytes are valid UTF-8 and decode to it.
pub proof fn law_text_reads_back(text: Seq<char>, level: i32, r: Result<Vec<u8>, String>)
    requires
        payload_of(zstd_frame(vstd::utf8::encode_utf8(text), level), r),
    ensures
        r matches Ok(d) && vstd::utf8::valid_utf8(d@) && vstd::utf8::decode_utf8(d@) == text,
{
    law_frame_reads_back(vstd::utf8::encode_utf8(text), level, r);
    vstd::utf8::encode_utf8_valid_utf8(text);
    vstd::utf8::encode_utf8_decode_utf8(text);
}

// ---------------------------------------------------------------------------
// Paths
// ---------------------------------------------------------------------------

/// A character `Path::join` may take as a separator on some platform.
pub open spec fn is_path_sep(c: char) -> bool {
    c == '/' || c == '\\'
}

/// A single plain path component: not empty, not `.` or `..`, with no
/// separator and no drive colon.
pub open spec fn plain_component(s: Seq<char>) -> bool {
    &&& s.len() > 0
    &&& s != "."@
    &&& s != ".."@
    &&& forall|i: int| 0 <= i < s.len() ==> !is_path_sep(#[trigger] s[i]) && s[i] != ':'
}

/// A directory path that ends in neither a separator nor a drive colon.
pub open spec fn plain_base(s: Seq<char>) -> bool {
    s.len() > 0 && !is_path_sep(s.last()) && s.last() != ':'
}

/// `root`, the platform's separator (`/`, or `\` on Windows), then `name`.
pub open spec fn joined(root: Seq<char>, name: Seq<char>, r: Seq<char>) -> bool {
    r == root + seq!['/'] + name || r == root + seq!['\\'] + name
}

/// `std::path::Path::join` of `name` onto `root`, as text. `PathBuf::push`
/// adds the platform's separator (`std::path::MAIN_SEPARATOR`) and then a
/// relative component; for a plain root and a plain component that is the
/// whole effect. Which separator it is depends on the platform; what other
/// roots and names give (an absolute name replacing the root, drive
/// prefixes) is left unsaid.
#[verifier::external_body]
fn join_path(root: &str, name: &str) -> (r: String)
    ensures
        plain_base(root@) && plain_component(name@) ==> joined(root@, name@, r@),
{
    std::path::Path::new(root).join(name).to_string_lossy().to_string()
}

/// The `.zst` file name of a shard: its trimmed name with the extension.
pub open spec fn shard_file_name(shard: Seq<char>) -> Seq<char> {
    trim(shard) + ".zst"@
}

/// `<shards_root>/<shard>.zst`, the shard name trimmed.
pub fn shard_path(shards_root: &str, shard: &str) -> (r: String)
    ensures
        plain_base(shards_root@) && plain_component(shard_file_name(shard@)) ==> joined(
            shards_root@,
            shard_file_name(shard@),
            r@,
        ),
{
    let mut name = string_of(crate::text::trim_str(shard).as_slice());
    push_str(&mut name, ".zst");
    assert(name@ == shard_file_name(shard@));
    join_path(shards_root, name.as_str())
}

impl ShardPointer {
    /// This pointer's `.zst` path under `shards_root`.
    pub fn shard_path(&self, shards_root: &str) -> (r: String)
        ensures
            plain_base(shards_root@) && plain_component(shard_file_name(self.shard@)) ==> joined(
                shards_root@,
                shard_file_name(self.shard@),
                r@,
            ),
    {
        shard_path(shards_root, self.shard.as_str())
    }
}

/// The position of the first entry of `entries` keyed `key`, if any.
pub fn find_entry(entries: &Vec<ShardIndexEntry>, key: &str) -> (r: Option<usize>)
    ensures
        match r {
            Some(i) => i < entries@.len() && entries@[i as int].doc_key@ == key@ && forall|k: int|
                0 <= k < i ==> (#[trigger] entries@[k]).doc_key@ != key@,
            None => forall|k: int| 0 <= k < entries@.len() ==> (#[trigger] entries@[k]).doc_key@ != key@,
        },
{
    let mut i: usize = 0;
    while i < entries.len()
        invariant
            i <= entries.len(),
            forall|k: int| 0 <= k < i ==> (#[trigger] entries@[k]).doc_key@ != key@,
        decreases entries.len() - i,
    {
        if crate::text::string_eq_str(&entries[i].doc_key, key) {
            return Some(i);
        }
        i += 1;
    }
    None
}

/// The `.zst` bytes a history of frames makes: each frame, in order.
pub open spec fn shard_bytes(xs: Seq<FrameAppend>) -> Seq<u8>
    decreases xs.len(),
{
    if xs.len() == 0 {
        Seq::empty()
    } else {
        shard_bytes(xs.drop_last()) + xs.last().frame@
    }
}

/// The `.idx` text a history of frames makes: each index row, in order.
pub open spec fn index_rows_text(xs: Seq<FrameAppend>) -> Seq<char>
    decreases xs.len(),
{
    if xs.len() == 0 {
        Seq::empty()
    } else {
        index_rows_text(xs.drop_last()) + xs.last().index_row@
    }
}

/// The rows a history of frames under `keys` writes: key, offset, length.
pub open spec fn written_rows(keys: Seq<Seq<char>>, xs: Seq<FrameAppend>) -> Seq<(Seq<char>, u64, u64)> {
    Seq::new(xs.len(), |k: int| (keys[k], xs[k].pointer.offset, xs[k].pointer.length))
}

/// A writer that starts an empty shard and lays out the frames of
/// `payloads` under `keys` one after another: every pointer names the shard
/// and the bytes at its offset and length in the `.zst` bytes are that
/// document's frame; the `.zst` holds exactly the frames, and the `.idx`
/// text is the rows of the keys, offsets and lengths written.
pub proof fn law_shard_lays_out_frames(
    cs: Seq<ShardCursor>,
    keys: Seq<Seq<char>>,
    payloads: Seq<Seq<u8>>,
    xs: Seq<FrameAppend>,
)
    requires
        cs.len() == xs.len() + 1,
        keys.len() == xs.len(),
        payloads.len() == xs.len(),
        cs[0].offset == 0,
        forall|k: int|
            0 <= k < xs.len() ==> #[trigger] placed(
                cs[k],
                cs[k + 1],
                keys[k],
                zstd_frame(payloads[k], SHARD_ZSTD_LEVEL),
                xs[k],
            ),
    ensures
        shard_bytes(xs).len() == cs.last().offset,
        cs.last().shard == cs[0].shard,
        forall|k: int|
            0 <= k < xs.len() ==> {
                let p = (#[trigger] xs[k]).pointer;
                &&& p.shard@ == cs[0].shard@
                &&& p.offset + p.length <= shard_bytes(xs).len()
                &&& shard_bytes(xs).subrange(p.offset as int, p.offset + p.length) == zstd_frame(
                    payloads[k],
                    SHARD_ZSTD_LEVEL,
                )
            },
        index_rows_text(xs) == index_text(written_rows(keys, xs)),
    decreases xs.len(),
{
    if xs.len() > 0 {
        let n = xs.len() - 1;
        let cs0 = cs.drop_last();
        let keys0 = keys.drop_last();
        let payloads0 = payloads.drop_last();
        let xs0 = xs.drop_last();
        assert forall|k: int| 0 <= k < xs0.len() implies #[trigger] placed(
            cs0[k],
            cs0[k + 1],
            keys0[k],
            zstd_frame(payloads0[k], SHARD_ZSTD_LEVEL),
            xs0[k],
        ) by {
            assert(placed(cs[k], cs[k + 1], keys[k], zstd_frame(payloads[k], SHARD_ZSTD_LEVEL), xs[k]));
        }
        law_shard_lays_out_frames(cs0, keys0, payloads0, xs0);
        assert(placed(cs[n], cs[n + 1], keys[n], zstd_frame(payloads[n], SHARD_ZSTD_LEVEL), xs[n]));
        assert(cs0.last() == cs[n]);
        assert(cs0[0] == cs[0]);
        let a = shard_bytes(xs0);
        let b = xs[n].frame@;
        assert(shard_bytes(xs) == a + b);
        assert forall|k: int| 0 <= k < xs.len() implies {
            let p = (#[trigger] xs[k]).pointer;
            &&& p.shard@ == cs[0].shard@
            &&& p.offset + p.length <= shard_bytes(xs).len()
            &&& shard_bytes(xs).subrange(p.offset as int, p.offset + p.length) == zstd_frame(
                payloads[k],
                SHARD_ZSTD_LEVEL,
            )
        } by {
            let p = xs[k].pointer;
            if k < n {
                assert(xs0[k] == xs[k]);
                assert(payloads0[k] == payloads[k]);
                assert((a + b).subrange(p.offset as int, p.offset + p.length) =~= a.subrange(
                    p.offset as int,
                    p.offset + p.length,
                ));
            } else {
                assert((a + b).subrange(p.offset as int, p.offset + p.length) =~= b);
            }
        }
        let rows = written_rows(keys, xs);
        assert(rows.drop_last() =~= written_rows(keys0, xs0));
        assert(index_rows_text(xs) == index_rows_text(xs0) + xs[n].index_row@);
    } else {
        assert(written_rows(keys, xs) =~= Seq::<(Seq<char>, u64, u64)>::empty());
    }
}

/// Reading the bytes a pointer of such a writer names, and decoding them,
/// gives back the document's payload.
pub proof fn law_pointer_reads_back_payload(
    cs: Seq<ShardCursor>,
    keys: Seq<Seq<char>>,
    payloads: Seq<Seq<u8>>,
    xs: Seq<FrameAppend>,
    k: int,
    r: Result<Vec<u8>, String>,
)
    requires
        cs.len() == xs.len() + 1,
        keys.len() == xs.len(),
        payloads.len() == xs.len(),
        cs[0].offset == 0,
        forall|j: int|
            0 <= j < xs.len() ==> #[trigger] placed(
                cs[j],
                cs[j + 1],
                keys[j],
                zstd_frame(payloads[j], SHARD_ZSTD_LEVEL),
                xs[j],
            ),
        0 <= k < xs.len(),
        payload_of(
            shard_bytes(xs).subrange(
                xs[k].pointer.offset as int,
                xs[k].pointer.offset + xs[k].pointer.length,
            ),
            r,
        ),
    ensures
        r matches Ok(d) && d@ == payloads[k],
{
    law_shard_lays_out_frames(cs, keys, payloads, xs);
    assert(xs[k] == xs[k]);
    law_frame_reads_back(payloads[k], SHARD_ZSTD_LEVEL, r);
}

} // verus!
