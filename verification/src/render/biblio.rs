//! As-published bibliographic sidecar records.
//!
//! Sharding writes one JSON line per rendered patent into
//! `<stem>.biblio.jsonl`, alongside the `.zst`/`.idx` pair. The record carries
//! the same as-published bibliographic fields the Markdown frontmatter does, in
//! a machine-loadable form, so a downstream store can ingest the snapshot
//! without re-parsing the source XML.

use vstd::prelude::*;

use crate::json::{
    json_string, law_json_string_reads_back, lemma_json_string_no_break, read_string,
    spec_json_string,
};
use crate::model::document::PatentDocument;
use crate::render::fields::{
    applicant_names, assignee_names, bare_application_number, clone_opt, document_id,
    earliest_priority_date, filing_date, inventor_names, ipc_classifications, opt_view,
    patent_number, publication_date, publication_number, spec_applicant_names,
    spec_assignee_names, spec_bare_application_number, spec_classifications, spec_document_id,
    spec_earliest_priority_date, spec_filing_date, spec_inventor_names, spec_patent_number,
    spec_publication_date, spec_publication_number, spec_title, title, us_classifications,
};
use crate::text::{copy_str, join, push_str};

verus! {

/// The bibliographic fields of one document.
#[derive(Debug, Clone)]
pub struct BiblioRecord {
    pub country_code: Option<String>,
    pub doc_number: Option<String>,
    pub kind_code: Option<String>,
    pub publication_number: Option<String>,
    pub patent_number: Option<String>,
    pub publication_date: Option<String>,
    pub application_number: Option<String>,
    pub filing_date: Option<String>,
    pub invention_title: Option<String>,
    pub applicant_names: Vec<String>,
    pub assignee_names: Vec<String>,
    pub inventor_names: Vec<String>,
    pub ipc_classifications: Vec<String>,
    pub us_classifications: Vec<String>,
    pub priority_date: Option<String>,
}

impl Default for BiblioRecord {
    fn default() -> (r: Self)
        ensures
            r.country_code is None,
            r.doc_number is None,
            r.kind_code is None,
            r.publication_number is None,
            r.patent_number is None,
            r.publication_date is None,
            r.application_number is None,
            r.filing_date is None,
            r.invention_title is None,
            r.applicant_names@.len() == 0,
            r.assignee_names@.len() == 0,
            r.inventor_names@.len() == 0,
            r.ipc_classifications@.len() == 0,
            r.us_classifications@.len() == 0,
            r.priority_date is None,
    {
        BiblioRecord {
            country_code: None,
            doc_number: None,
            kind_code: None,
            publication_number: None,
            patent_number: None,
            publication_date: None,
            application_number: None,
            filing_date: None,
            invention_title: None,
            applicant_names: Vec::new(),
            assignee_names: Vec::new(),
            inventor_names: Vec::new(),
            ipc_classifications: Vec::new(),
            us_classifications: Vec::new(),
            priority_date: None,
        }
    }
}

/// The record [`extract_biblio`] builds: each field as the frontmatter
/// accessors compute it, the application number in its bare form.
pub open spec fn is_biblio_of(r: BiblioRecord, doc: PatentDocument) -> bool {
    let id = spec_document_id(doc);
    &&& opt_view(r.country_code) == (match id {
        Some(d) => opt_view(d.country_code),
        None => None,
    })
    &&& opt_view(r.doc_number) == (match id {
        Some(d) => Some(d.doc_number@),
        None => None,
    })
    &&& opt_view(r.kind_code) == (match id {
        Some(d) => opt_view(d.kind_code),
        None => None,
    })
    &&& opt_view(r.publication_number) == spec_publication_number(doc)
    &&& opt_view(r.patent_number) == spec_patent_number(doc)
    &&& opt_view(r.publication_date) == spec_publication_date(doc)
    &&& opt_view(r.application_number) == spec_bare_application_number(doc)
    &&& opt_view(r.filing_date) == spec_filing_date(doc)
    &&& opt_view(r.invention_title) == spec_title(doc)
    &&& r.applicant_names.deep_view() == spec_applicant_names(doc)
    &&& r.assignee_names.deep_view() == spec_assignee_names(doc)
    &&& r.inventor_names.deep_view() == spec_inventor_names(doc)
    &&& r.ipc_classifications.deep_view() == spec_classifications(doc, true)
    &&& r.us_classifications.deep_view() == spec_classifications(doc, false)
    &&& opt_view(r.priority_date) == spec_earliest_priority_date(doc)
}

pub fn extract_biblio(document: &PatentDocument) -> (r: BiblioRecord)
    ensures
        is_biblio_of(r, *document),
{
    let id = document_id(document);
    let (country_code, doc_number, kind_code) = match id {
        Some(value) => (
            clone_opt(&value.country_code),
            Some(copy_str(value.doc_number.as_str())),
            clone_opt(&value.kind_code),
        ),
        None => (None, None, None),
    };
    BiblioRecord {
        country_code,
        doc_number,
        kind_code,
        publication_number: publication_number(document),
        patent_number: patent_number(document),
        publication_date: publication_date(document),
        application_number: bare_application_number(document),
        filing_date: filing_date(document),
        invention_title: title(document),
        applicant_names: applicant_names(document),
        assignee_names: assignee_names(document),
        inventor_names: inventor_names(document),
        ipc_classifications: ipc_classifications(document),
        us_classifications: us_classifications(document),
        priority_date: earliest_priority_date(document),
    }
}

/// A JSON string, or `null`.
pub open spec fn spec_json_opt(v: Option<Seq<char>>) -> Seq<char> {
    match v {
        Some(x) => spec_json_string(x),
        None => "null"@,
    }
}

/// A JSON array of strings.
pub open spec fn spec_json_array(vs: Seq<Seq<char>>) -> Seq<char> {
    seq!['['] + join(vs.map_values(|v: Seq<char>| spec_json_string(v)), seq![',']) + seq![']']
}

pub open spec fn json_field(key: Seq<char>, value: Seq<char>) -> Seq<char> {
    spec_json_string(key) + seq![':'] + value
}

/// The record's fields as `"key":value` members, in output order.
pub open spec fn json_members(
    r: BiblioRecord,
    doc_key: Seq<char>,
    doc_kind: Seq<char>,
    source_file: Seq<char>,
) -> Seq<Seq<char>> {
    seq![
        json_field("doc_key"@, spec_json_string(doc_key)),
        json_field("doc_kind"@, spec_json_string(doc_kind)),
        json_field("source_file"@, spec_json_string(source_file)),
        json_field("country_code"@, spec_json_opt(opt_view(r.country_code))),
        json_field("doc_number"@, spec_json_opt(opt_view(r.doc_number))),
        json_field("kind_code"@, spec_json_opt(opt_view(r.kind_code))),
        json_field("publication_number"@, spec_json_opt(opt_view(r.publication_number))),
        json_field("patent_number"@, spec_json_opt(opt_view(r.patent_number))),
        json_field("publication_date"@, spec_json_opt(opt_view(r.publication_date))),
        json_field("application_number"@, spec_json_opt(opt_view(r.application_number))),
        json_field("filing_date"@, spec_json_opt(opt_view(r.filing_date))),
        json_field("invention_title"@, spec_json_opt(opt_view(r.invention_title))),
        json_field("applicant_names"@, spec_json_array(r.applicant_names.deep_view())),
        json_field("assignee_names"@, spec_json_array(r.assignee_names.deep_view())),
        json_field("inventor_names"@, spec_json_array(r.inventor_names.deep_view())),
        json_field("ipc_classifications"@, spec_json_array(r.ipc_classifications.deep_view())),
        json_field("us_classifications"@, spec_json_array(r.us_classifications.deep_view())),
        json_field("priority_date"@, spec_json_opt(opt_view(r.priority_date))),
    ]
}

/// The record as one JSON object: the members joined by commas in braces.
pub open spec fn spec_json_line(
    r: BiblioRecord,
    doc_key: Seq<char>,
    doc_kind: Seq<char>,
    source_file: Seq<char>,
) -> Seq<char> {
    seq!['{'] + join(json_members(r, doc_key, doc_kind, source_file), seq![',']) + seq!['}']
}

fn json_opt(value: &Option<String>) -> (r: String)
    ensures
        r@ == spec_json_opt(opt_view(*value)),
{
    match value {
        Some(v) => json_string(v.as_str()),
        None => copy_str("null"),
    }
}

fn json_array(values: &Vec<String>) -> (r: String)
    ensures
        r@ == spec_json_array(values.deep_view()),
{
    let mut out = copy_str("[");
    proof {
        reveal_strlit("[");
    }
    let ghost items = values.deep_view().map_values(|v: Seq<char>| spec_json_string(v));
    let mut i: usize = 0;
    while i < values.len()
        invariant
            i <= values.len(),
            items == values.deep_view().map_values(|v: Seq<char>| spec_json_string(v)),
            out@ == seq!['['] + join(items.take(i as int), seq![',']),
        decreases values.len() - i,
    {
        let ghost before = out@;
        if i > 0 {
            push_str(&mut out, ",");
            proof {
                reveal_strlit(",");
            }
        }
        let j = json_string(values[i].as_str());
        push_str(&mut out, j.as_str());
        proof {
            assert(values.deep_view()[i as int] == values@[i as int]@);
            assert(items.take(i + 1).drop_last() =~= items.take(i as int));
            assert(items.take(i + 1).last() == j@);
            if i == 0 {
                assert(items.take(1) =~= seq![j@]);
            }
        }
        i += 1;
    }
    assert(items.take(values.len() as int) =~= items);
    push_str(&mut out, "]");
    proof {
        reveal_strlit("]");
    }
    out
}

fn push_member(out: &mut String, first: bool, key: &str, value: &String)
    ensures
        final(out)@ == old(out)@ + (if first {
            Seq::empty()
        } else {
            seq![',']
        }) + json_field(key@, value@),
{
    if !first {
        push_str(out, ",");
        proof {
            reveal_strlit(",");
        }
    }
    let k = json_string(key);
    push_str(out, k.as_str());
    push_str(out, ":");
    proof {
        reveal_strlit(":");
    }
    push_str(out, value.as_str());
    assert(out@ =~= old(out)@ + (if first {
        Seq::<char>::empty()
    } else {
        seq![',']
    }) + json_field(key@, value@));
}

proof fn lemma_join_step(parts: Seq<Seq<char>>, n: int, sep: Seq<char>)
    requires
        0 < n < parts.len(),
    ensures
        join(parts.take(n + 1), sep) == join(parts.take(n), sep) + sep + parts[n],
{
    assert(parts.take(n + 1).drop_last() =~= parts.take(n));
}

impl BiblioRecord {
    /// One newline-free JSON object, keyed so the sidecar joins back to the
    /// `.idx` rows on the shard and `doc_key`.
    #[verifier::spinoff_prover]
    #[verifier::rlimit(40)]
    pub fn to_json_line(&self, doc_key: &str, doc_kind: &str, source_file: &str) -> (r: String)
        ensures
            r@ == spec_json_line(*self, doc_key@, doc_kind@, source_file@),
    {
        let values: Vec<String> = vec![
            json_string(doc_key),
            json_string(doc_kind),
            json_string(source_file),
            json_opt(&self.country_code),
            json_opt(&self.doc_number),
            json_opt(&self.kind_code),
            json_opt(&self.publication_number),
            json_opt(&self.patent_number),
            json_opt(&self.publication_date),
            json_opt(&self.application_number),
            json_opt(&self.filing_date),
            json_opt(&self.invention_title),
            json_array(&self.applicant_names),
            json_array(&self.assignee_names),
            json_array(&self.inventor_names),
            json_array(&self.ipc_classifications),
            json_array(&self.us_classifications),
            json_opt(&self.priority_date),
        ];
        let keys: [&str; 18] = [
            "doc_key",
            "doc_kind",
            "source_file",
            "country_code",
            "doc_number",
            "kind_code",
            "publication_number",
            "patent_number",
            "publication_date",
            "application_number",
            "filing_date",
            "invention_title",
            "applicant_names",
            "assignee_names",
            "inventor_names",
            "ipc_classifications",
            "us_classifications",
            "priority_date",
        ];
        let ghost members = json_members(*self, doc_key@, doc_kind@, source_file@);
        assert(forall|k: int|
            0 <= k < 18 ==> #[trigger] members[k] == json_field(keys@[k]@, values@[k]@));
        let mut out = copy_str("{");
        proof {
            reveal_strlit("{");
        }
        let mut i: usize = 0;
        while i < 18
            invariant
                i <= 18,
                values@.len() == 18,
                keys@.len() == 18,
                members.len() == 18,
                forall|k: int|
                    0 <= k < 18 ==> #[trigger] members[k] == json_field(keys@[k]@, values@[k]@),
                out@ == seq!['{'] + join(members.take(i as int), seq![',']),
            decreases 18 - i,
        {
            let ghost before = out@;
            push_member(&mut out, i == 0, keys[i], &values[i]);
            proof {
                if i == 0 {
                    assert(members.take(1) =~= seq![members[0]]);
                } else {
                    lemma_join_step(members, i as int, seq![',']);
                }
            }
            i += 1;
        }
        assert(members.take(18) =~= members);
        push_str(&mut out, "}");
        proof {
            reveal_strlit("}");
        }
        out
    }
}

proof fn lemma_join_no_char(parts: Seq<Seq<char>>, sep: Seq<char>, c: char)
    requires
        forall|i: int| 0 <= i < parts.len() ==> !(#[trigger] parts[i]).contains(c),
        !sep.contains(c),
    ensures
        !join(parts, sep).contains(c),
    decreases parts.len(),
{
    if parts.len() > 1 {
        lemma_join_no_char(parts.drop_last(), sep, c);
        let a = join(parts.drop_last(), sep);
        let b = parts.last();
        assert(!b.contains(c)) by {
            assert(b == parts[parts.len() - 1]);
        }
        assert forall|i: int| 0 <= i < (a + sep + b).len() implies (a + sep + b)[i] != c by {
            if i < a.len() {
                assert((a + sep + b)[i] == a[i]);
            } else if i < a.len() + sep.len() {
                assert((a + sep + b)[i] == sep[i - a.len()]);
            } else {
                assert((a + sep + b)[i] == b[i - a.len() - sep.len()]);
            }
        }
    } else if parts.len() == 1 {
        assert(!parts[0].contains(c));
    }
}

proof fn lemma_no_newline_concat(a: Seq<char>, b: Seq<char>, c: char)
    requires
        !a.contains(c),
        !b.contains(c),
    ensures
        !(a + b).contains(c),
{
    assert forall|i: int| 0 <= i < (a + b).len() implies (a + b)[i] != c by {
        if i < a.len() {
            assert((a + b)[i] == a[i]);
        } else {
            assert((a + b)[i] == b[i - a.len()]);
        }
    }
}

proof fn lemma_json_opt_single_line(v: Option<Seq<char>>, c: char)
    requires
        c == '\n' || c == '\r',
    ensures
        !spec_json_opt(v).contains(c),
{
    match v {
        Some(x) => lemma_json_string_no_break(x, c),
        None => {
            reveal_strlit("null");
        },
    }
}

proof fn lemma_json_array_single_line(vs: Seq<Seq<char>>, c: char)
    requires
        c == '\n' || c == '\r',
    ensures
        !spec_json_array(vs).contains(c),
{
    let items = vs.map_values(|v: Seq<char>| spec_json_string(v));
    assert forall|i: int| 0 <= i < items.len() implies !(#[trigger] items[i]).contains(c) by {
        lemma_json_string_no_break(vs[i], c);
    }
    lemma_join_no_char(items, seq![','], c);
    lemma_no_newline_concat(seq!['['], join(items, seq![',']), c);
    lemma_no_newline_concat(seq!['['] + join(items, seq![',']), seq![']'], c);
}

proof fn lemma_json_field_single_line(key: Seq<char>, value: Seq<char>, c: char)
    requires
        c == '\n' || c == '\r',
        !value.contains(c),
    ensures
        !json_field(key, value).contains(c),
{
    lemma_json_string_no_break(key, c);
    lemma_no_newline_concat(spec_json_string(key), seq![':'], c);
    lemma_no_newline_concat(spec_json_string(key) + seq![':'], value, c);
}

/// A sidecar line never contains a line feed or a carriage return, whatever
/// the field values, so one record is exactly one line of the `.jsonl` file.
pub proof fn law_json_line_is_single_line(
    r: BiblioRecord,
    doc_key: Seq<char>,
    doc_kind: Seq<char>,
    source_file: Seq<char>,
)
    ensures
        !spec_json_line(r, doc_key, doc_kind, source_file).contains('\n'),
        !spec_json_line(r, doc_key, doc_kind, source_file).contains('\r'),
{
    lemma_json_line_no_break(r, doc_key, doc_kind, source_file, '\n');
    lemma_json_line_no_break(r, doc_key, doc_kind, source_file, '\r');
}

proof fn lemma_json_line_no_break(
    r: BiblioRecord,
    doc_key: Seq<char>,
    doc_kind: Seq<char>,
    source_file: Seq<char>,
    c: char,
)
    requires
        c == '\n' || c == '\r',
    ensures
        !spec_json_line(r, doc_key, doc_kind, source_file).contains(c),
{
    let m = json_members(r, doc_key, doc_kind, source_file);
    lemma_json_string_no_break(doc_key, c);
    lemma_json_string_no_break(doc_kind, c);
    lemma_json_string_no_break(source_file, c);
    lemma_json_field_single_line("doc_key"@, spec_json_string(doc_key), c);
    lemma_json_field_single_line("doc_kind"@, spec_json_string(doc_kind), c);
    lemma_json_field_single_line("source_file"@, spec_json_string(source_file), c);
    lemma_json_opt_single_line(opt_view(r.country_code), c);
    lemma_json_field_single_line("country_code"@, spec_json_opt(opt_view(r.country_code)), c);
    lemma_json_opt_single_line(opt_view(r.doc_number), c);
    lemma_json_field_single_line("doc_number"@, spec_json_opt(opt_view(r.doc_number)), c);
    lemma_json_opt_single_line(opt_view(r.kind_code), c);
    lemma_json_field_single_line("kind_code"@, spec_json_opt(opt_view(r.kind_code)), c);
    lemma_json_opt_single_line(opt_view(r.publication_number), c);
    lemma_json_field_single_line(
        "publication_number"@,
        spec_json_opt(opt_view(r.publication_number)), c);
    lemma_json_opt_single_line(opt_view(r.patent_number), c);
    lemma_json_field_single_line("patent_number"@, spec_json_opt(opt_view(r.patent_number)), c);
    lemma_json_opt_single_line(opt_view(r.publication_date), c);
    lemma_json_field_single_line("publication_date"@, spec_json_opt(opt_view(r.publication_date)), c);
    lemma_json_opt_single_line(opt_view(r.application_number), c);
    lemma_json_field_single_line(
        "application_number"@,
        spec_json_opt(opt_view(r.application_number)), c);
    lemma_json_opt_single_line(opt_view(r.filing_date), c);
    lemma_json_field_single_line("filing_date"@, spec_json_opt(opt_view(r.filing_date)), c);
    lemma_json_opt_single_line(opt_view(r.invention_title), c);
    lemma_json_field_single_line("invention_title"@, spec_json_opt(opt_view(r.invention_title)), c);
    lemma_json_array_single_line(r.applicant_names.deep_view(), c);
    lemma_json_field_single_line("applicant_names"@, spec_json_array(r.applicant_names.deep_view()), c);
    lemma_json_array_single_line(r.assignee_names.deep_view(), c);
    lemma_json_field_single_line("assignee_names"@, spec_json_array(r.assignee_names.deep_view()), c);
    lemma_json_array_single_line(r.inventor_names.deep_view(), c);
    lemma_json_field_single_line("inventor_names"@, spec_json_array(r.inventor_names.deep_view()), c);
    lemma_json_array_single_line(r.ipc_classifications.deep_view(), c);
    lemma_json_field_single_line(
        "ipc_classifications"@,
        spec_json_array(r.ipc_classifications.deep_view()), c);
    lemma_json_array_single_line(r.us_classifications.deep_view(), c);
    lemma_json_field_single_line(
        "us_classifications"@,
        spec_json_array(r.us_classifications.deep_view()), c);
    lemma_json_opt_single_line(opt_view(r.priority_date), c);
    lemma_json_field_single_line("priority_date"@, spec_json_opt(opt_view(r.priority_date)), c);
    assert forall|i: int| 0 <= i < m.len() implies !(#[trigger] m[i]).contains(c) by {}
    lemma_join_no_char(m, seq![','], c);
    lemma_no_newline_concat(seq!['{'], join(m, seq![',']), c);
    lemma_no_newline_concat(seq!['{'] + join(m, seq![',']), seq!['}'], c);
}

// ---------------------------------------------------------------------------
// Reading a sidecar line back
// ---------------------------------------------------------------------------

/// A value of a sidecar line: a string, `null`, or an array of strings.
pub enum JsonValue {
    Str(Seq<char>),
    Null,
    Strings(Seq<Seq<char>>),
}

/// The JSON text of a value.
pub open spec fn json_value_text(v: JsonValue) -> Seq<char> {
    match v {
        JsonValue::Str(s) => spec_json_string(s),
        JsonValue::Null => "null"@,
        JsonValue::Strings(vs) => spec_json_array(vs),
    }
}

/// Reading one or more string literals separated by commas and closed by
/// `]`.
pub open spec fn read_strings(t: Seq<char>) -> Option<(Seq<Seq<char>>, Seq<char>)>
    decreases t.len(),
{
    match read_string(t) {
        Some((s, r)) => if r.len() > 0 && r[0] == ',' && r.len() <= t.len() {
            match read_strings(r.drop_first()) {
                Some((ss, r2)) => Some((seq![s] + ss, r2)),
                None => None,
            }
        } else if r.len() > 0 && r[0] == ']' {
            Some((seq![s], r.drop_first()))
        } else {
            None
        },
        None => None,
    }
}

/// Reading one value at the front of `t`.
pub open spec fn read_value(t: Seq<char>) -> Option<(JsonValue, Seq<char>)> {
    if t.len() > 0 && t[0] == '"' {
        match read_string(t) {
            Some((s, r)) => Some((JsonValue::Str(s), r)),
            None => None,
        }
    } else if t.len() >= 4 && t.subrange(0, 4) == "null"@ {
        Some((JsonValue::Null, t.subrange(4, t.len() as int)))
    } else if t.len() >= 2 && t[0] == '[' && t[1] == ']' {
        Some((JsonValue::Strings(Seq::empty()), t.subrange(2, t.len() as int)))
    } else if t.len() > 0 && t[0] == '[' {
        match read_strings(t.drop_first()) {
            Some((vs, r)) => Some((JsonValue::Strings(vs), r)),
            None => None,
        }
    } else {
        None
    }
}

/// Reading one or more `"key":value` members separated by commas and closed
/// by `}`.
pub open spec fn read_members(t: Seq<char>) -> Option<(Seq<(Seq<char>, JsonValue)>, Seq<char>)>
    decreases t.len(),
{
    match read_string(t) {
        Some((k, r)) => if r.len() > 0 && r[0] == ':' {
            match read_value(r.drop_first()) {
                Some((v, r2)) => if r2.len() > 0 && r2[0] == ',' && r2.len() <= t.len() {
                    match read_members(r2.drop_first()) {
                        Some((ms, r3)) => Some((seq![(k, v)] + ms, r3)),
                        None => None,
                    }
                } else if r2.len() > 0 && r2[0] == '}' {
                    Some((seq![(k, v)], r2.drop_first()))
                } else {
                    None
                },
                None => None,
            }
        } else {
            None
        },
        None => None,
    }
}

/// Reading a whole line as one JSON object: its members, in order.
pub open spec fn read_object(t: Seq<char>) -> Option<Seq<(Seq<char>, JsonValue)>> {
    if t.len() > 0 && t[0] == '{' {
        match read_members(t.drop_first()) {
            Some((ms, r)) => if r.len() == 0 {
                Some(ms)
            } else {
                None
            },
            None => None,
        }
    } else {
        None
    }
}

proof fn lemma_join_front(parts: Seq<Seq<char>>, sep: Seq<char>)
    requires
        parts.len() >= 2,
    ensures
        join(parts, sep) == parts[0] + sep + join(parts.drop_first(), sep),
    decreases parts.len(),
{
    if parts.len() == 2 {
        assert(parts.drop_last() =~= seq![parts[0]]);
        assert(parts.drop_first() =~= seq![parts[1]]);
        assert(join(parts.drop_last(), sep) == parts[0]);
        assert(join(parts.drop_first(), sep) == parts[1]);
        assert(join(parts, sep) == join(parts.drop_last(), sep) + sep + parts.last());
    } else {
        let init = parts.drop_last();
        let tail = parts.drop_first();
        lemma_join_front(init, sep);
        assert(init.drop_first() =~= tail.drop_last());
        assert(tail.last() == parts.last());
        assert(init[0] == parts[0]);
        assert(join(parts, sep) == join(init, sep) + sep + parts.last());
        assert(join(tail, sep) == join(tail.drop_last(), sep) + sep + tail.last());
        assert(join(parts, sep) =~= parts[0] + sep + join(tail, sep));
    }
}

proof fn lemma_read_strings(vs: Seq<Seq<char>>, rest: Seq<char>)
    requires
        vs.len() >= 1,
    ensures
        read_strings(join(vs.map_values(|v: Seq<char>| spec_json_string(v)), seq![',']) + seq![']']
            + rest) == Some((vs, rest)),
    decreases vs.len(),
{
    let items = vs.map_values(|v: Seq<char>| spec_json_string(v));
    if vs.len() == 1 {
        assert(join(items, seq![',']) == items[0]);
        let t = items[0] + seq![']'] + rest;
        assert(t =~= spec_json_string(vs[0]) + (seq![']'] + rest));
        law_json_string_reads_back(vs[0], seq![']'] + rest);
        assert((seq![']'] + rest).drop_first() =~= rest);
        assert(seq![vs[0]] =~= vs);
    } else {
        lemma_join_front(items, seq![',']);
        let tail = vs.drop_first();
        assert(items.drop_first() =~= tail.map_values(|v: Seq<char>| spec_json_string(v)));
        let r = seq![','] + join(items.drop_first(), seq![',']) + seq![']'] + rest;
        let t = join(items, seq![',']) + seq![']'] + rest;
        assert(t =~= spec_json_string(vs[0]) + r);
        law_json_string_reads_back(vs[0], r);
        assert(r.drop_first() =~= join(items.drop_first(), seq![',']) + seq![']'] + rest);
        lemma_read_strings(tail, rest);
        assert(seq![vs[0]] + tail =~= vs);
    }
}

proof fn lemma_read_value(v: JsonValue, rest: Seq<char>)
    ensures
        read_value(json_value_text(v) + rest) == Some((v, rest)),
{
    reveal_strlit("null");
    let t = json_value_text(v) + rest;
    match v {
        JsonValue::Str(s) => {
            law_json_string_reads_back(s, rest);
            assert(t == spec_json_string(s) + rest);
            assert(t[0] == '"');
            assert(read_string(t) == Some((s, rest)));
            assert(json_value_text(v) == spec_json_string(s));
            assert(read_value(t) == Some((JsonValue::Str(s), rest)));
            assert(read_value(json_value_text(v) + rest) == Some((v, rest)));
        },
        JsonValue::Null => {
            assert(t.subrange(0, 4) =~= "null"@);
            assert(t.subrange(4, t.len() as int) =~= rest);
        },
        JsonValue::Strings(vs) => {
            let items = vs.map_values(|x: Seq<char>| spec_json_string(x));
            if vs.len() == 0 {
                assert(items.len() == 0);
                assert(t =~= seq!['[', ']'] + rest);
                assert(t.subrange(2, t.len() as int) =~= rest);
                assert(vs =~= Seq::<Seq<char>>::empty());
                assert(t.len() < 4 || t.subrange(0, 4)[0] == '[');
            } else {
                lemma_read_strings(vs, rest);
                assert(t.drop_first() =~= join(items, seq![',']) + seq![']'] + rest);
                if vs.len() == 1 {
                    assert(join(items, seq![',']) == items[0]);
                } else {
                    lemma_join_front(items, seq![',']);
                }
                assert(items[0] == spec_json_string(vs[0]));
                assert(t[1] == '"');
                assert(t.subrange(0, 4)[0] == '[');
            }
        },
    }
}

/// The `"key":value` text of a member.
pub open spec fn member_text(m: (Seq<char>, JsonValue)) -> Seq<char> {
    json_field(m.0, json_value_text(m.1))
}

#[verifier::rlimit(50)]
proof fn lemma_read_members(ms: Seq<(Seq<char>, JsonValue)>, rest: Seq<char>)
    requires
        ms.len() >= 1,
    ensures
        read_members(join(ms.map_values(|m: (Seq<char>, JsonValue)| member_text(m)), seq![','])
            + seq!['}'] + rest) == Some((ms, rest)),
    decreases ms.len(),
{
    let items = ms.map_values(|m: (Seq<char>, JsonValue)| member_text(m));
    let k = ms[0].0;
    let v = ms[0].1;
    assert(items[0] == spec_json_string(k) + seq![':'] + json_value_text(v));
    let after = if ms.len() == 1 {
        seq!['}'] + rest
    } else {
        seq![','] + join(items.drop_first(), seq![',']) + seq!['}'] + rest
    };
    let t = join(items, seq![',']) + seq!['}'] + rest;
    if ms.len() == 1 {
        assert(join(items, seq![',']) == items[0]);
    } else {
        lemma_join_front(items, seq![',']);
    }
    assert(t =~= spec_json_string(k) + (seq![':'] + json_value_text(v) + after));
    law_json_string_reads_back(k, seq![':'] + json_value_text(v) + after);
    assert((seq![':'] + json_value_text(v) + after).drop_first() =~= json_value_text(v) + after);
    lemma_read_value(v, after);
    if ms.len() == 1 {
        assert(after.drop_first() =~= rest);
        assert(seq![(k, v)] =~= ms);
    } else {
        let tail = ms.drop_first();
        assert(items.drop_first() =~= tail.map_values(|m: (Seq<char>, JsonValue)| member_text(m)));
        assert(after.drop_first() =~= join(items.drop_first(), seq![',']) + seq!['}'] + rest);
        lemma_read_members(tail, rest);
        assert(seq![(k, v)] + tail =~= ms);
    }
}

/// A line of members in braces reads back as those members.
pub proof fn law_json_object_reads_back(ms: Seq<(Seq<char>, JsonValue)>)
    requires
        ms.len() >= 1,
    ensures
        read_object(seq!['{'] + join(ms.map_values(|m: (Seq<char>, JsonValue)| member_text(m)), seq![','])
            + seq!['}']) == Some(ms),
{
    let body = join(ms.map_values(|m: (Seq<char>, JsonValue)| member_text(m)), seq![',']);
    let t = seq!['{'] + body + seq!['}'];
    lemma_read_members(ms, Seq::empty());
    assert(t.drop_first() =~= body + seq!['}'] + Seq::<char>::empty());
}

/// An optional text as a value: the string, or `null`.
pub open spec fn opt_value(v: Option<Seq<char>>) -> JsonValue {
    match v {
        Some(s) => JsonValue::Str(s),
        None => JsonValue::Null,
    }
}

/// The members a sidecar line carries: the three keys of the record's place,
/// then the record's fields in declaration order.
pub open spec fn biblio_fields(
    r: BiblioRecord,
    doc_key: Seq<char>,
    doc_kind: Seq<char>,
    source_file: Seq<char>,
) -> Seq<(Seq<char>, JsonValue)> {
    seq![
        ("doc_key"@, JsonValue::Str(doc_key)),
        ("doc_kind"@, JsonValue::Str(doc_kind)),
        ("source_file"@, JsonValue::Str(source_file)),
        ("country_code"@, opt_value(opt_view(r.country_code))),
        ("doc_number"@, opt_value(opt_view(r.doc_number))),
        ("kind_code"@, opt_value(opt_view(r.kind_code))),
        ("publication_number"@, opt_value(opt_view(r.publication_number))),
        ("patent_number"@, opt_value(opt_view(r.patent_number))),
        ("publication_date"@, opt_value(opt_view(r.publication_date))),
        ("application_number"@, opt_value(opt_view(r.application_number))),
        ("filing_date"@, opt_value(opt_view(r.filing_date))),
        ("invention_title"@, opt_value(opt_view(r.invention_title))),
        ("applicant_names"@, JsonValue::Strings(r.applicant_names.deep_view())),
        ("assignee_names"@, JsonValue::Strings(r.assignee_names.deep_view())),
        ("inventor_names"@, JsonValue::Strings(r.inventor_names.deep_view())),
        ("ipc_classifications"@, JsonValue::Strings(r.ipc_classifications.deep_view())),
        ("us_classifications"@, JsonValue::Strings(r.us_classifications.deep_view())),
        ("priority_date"@, opt_value(opt_view(r.priority_date))),
    ]
}

proof fn lemma_opt_value_text(v: Option<Seq<char>>)
    ensures
        json_value_text(opt_value(v)) == spec_json_opt(v),
{
}

/// A sidecar line is one JSON object whose members are, in order, the
/// record's key, kind and source file and then each of its fields (an absent
/// one as `null`, a list as an array of strings); reading the line as JSON
/// gives all of them back.
#[verifier::spinoff_prover]
#[verifier::rlimit(60)]
pub proof fn law_json_line_reads_back(
    r: BiblioRecord,
    doc_key: Seq<char>,
    doc_kind: Seq<char>,
    source_file: Seq<char>,
)
    ensures
        read_object(spec_json_line(r, doc_key, doc_kind, source_file)) == Some(
            biblio_fields(r, doc_key, doc_kind, source_file),
        ),
{
    let ms = biblio_fields(r, doc_key, doc_kind, source_file);
    let texts = ms.map_values(|m: (Seq<char>, JsonValue)| member_text(m));
    let members = json_members(r, doc_key, doc_kind, source_file);
    lemma_opt_value_text(opt_view(r.country_code));
    lemma_opt_value_text(opt_view(r.doc_number));
    lemma_opt_value_text(opt_view(r.kind_code));
    lemma_opt_value_text(opt_view(r.publication_number));
    lemma_opt_value_text(opt_view(r.patent_number));
    lemma_opt_value_text(opt_view(r.publication_date));
    lemma_opt_value_text(opt_view(r.application_number));
    lemma_opt_value_text(opt_view(r.filing_date));
    lemma_opt_value_text(opt_view(r.invention_title));
    lemma_opt_value_text(opt_view(r.priority_date));
    assert(texts.len() == members.len());
    assert(texts[0] == members[0]);
    assert(texts[1] == members[1]);
    assert(texts[2] == members[2]);
    assert(texts[3] == members[3]);
    assert(texts[4] == members[4]);
    assert(texts[5] == members[5]);
    assert(texts[6] == members[6]);
    assert(texts[7] == members[7]);
    assert(texts[8] == members[8]);
    assert(texts[9] == members[9]);
    assert(texts[10] == members[10]);
    assert(texts[11] == members[11]);
    assert(texts[12] == members[12]);
    assert(texts[13] == members[13]);
    assert(texts[14] == members[14]);
    assert(texts[15] == members[15]);
    assert(texts[16] == members[16]);
    assert(texts[17] == members[17]);
    assert(texts =~= members);
    law_json_object_reads_back(ms);
}

} // verus!
