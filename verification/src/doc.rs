//! Structured payload documents: a closed variant over string, number,
//! boolean and null leaves, sequences, and keyed maps whose key order is
//! preserved. The structural redaction walk applies the text redaction to
//! every string leaf and touches nothing else.

use vstd::prelude::*;
use crate::redact::sanitize_spec;
use crate::redact::sanitize_text;

verus! {

broadcast use vstd::seq::group_seq_axioms, vstd::std_specs::vec::group_vec_axioms;

/// Mathematical model of a document.
pub enum JsonVal {
    Null,
    Bool(bool),
    /// A number leaf, as its decimal source text.
    Num(Seq<char>),
    Str(Seq<char>),
    Arr(Seq<JsonVal>),
    Obj(Seq<(Seq<char>, JsonVal)>),
}

/// A payload document. Numbers are carried as their decimal source text, so
/// that no precision is invented or lost on the way through the pipeline.
pub enum DocValue {
    Null,
    Bool(bool),
    Num(String),
    Str(String),
    Arr(Vec<DocValue>),
    Obj(Vec<(String, DocValue)>),
}

pub open spec fn doc_view(d: DocValue) -> JsonVal
    decreases d, 0int,
{
    match d {
        DocValue::Null => JsonVal::Null,
        DocValue::Bool(b) => JsonVal::Bool(b),
        DocValue::Num(t) => JsonVal::Num(t@),
        DocValue::Str(t) => JsonVal::Str(t@),
        DocValue::Arr(items) => JsonVal::Arr(doc_views_from(items@, 0)),
        DocValue::Obj(fields) => JsonVal::Obj(doc_fields_from(fields@, 0)),
    }
}

pub open spec fn doc_views_from(items: Seq<DocValue>, i: int) -> Seq<JsonVal>
    decreases items, items.len() - i + 1,
{
    if i < 0 || i >= items.len() {
        Seq::empty()
    } else {
        seq![doc_view(items[i])] + doc_views_from(items, i + 1)
    }
}

pub open spec fn doc_fields_from(fields: Seq<(String, DocValue)>, i: int) -> Seq<
    (Seq<char>, JsonVal),
>
    decreases fields, fields.len() - i + 1,
{
    if i < 0 || i >= fields.len() {
        Seq::empty()
    } else {
        seq![(fields[i].0@, doc_view(fields[i].1))] + doc_fields_from(fields, i + 1)
    }
}

pub proof fn lemma_doc_views_from(items: Seq<DocValue>, i: int)
    requires
        0 <= i <= items.len(),
    ensures
        doc_views_from(items, i).len() == items.len() - i,
        forall|k: int|
            0 <= k < items.len() - i ==> doc_views_from(items, i)[k] == doc_view(items[i + k]),
    decreases items.len() - i,
{
    if i < items.len() {
        lemma_doc_views_from(items, i + 1);
    }
}

pub proof fn lemma_doc_fields_from(fields: Seq<(String, DocValue)>, i: int)
    requires
        0 <= i <= fields.len(),
    ensures
        doc_fields_from(fields, i).len() == fields.len() - i,
        forall|k: int|
            0 <= k < fields.len() - i ==> doc_fields_from(fields, i)[k] == (
                fields[i + k].0@,
                doc_view(fields[i + k].1),
            ),
    decreases fields.len() - i,
{
    if i < fields.len() {
        lemma_doc_fields_from(fields, i + 1);
    }
}

impl View for DocValue {
    type V = JsonVal;

    open spec fn view(&self) -> JsonVal {
        doc_view(*self)
    }
}

// ---------------------------------------------------------------------------
// Structural redaction
// ---------------------------------------------------------------------------

/// The document with the text redaction applied to every string leaf.
pub open spec fn sanitize_doc_spec(j: JsonVal) -> JsonVal
    decreases j, 0int,
{
    match j {
        JsonVal::Null => JsonVal::Null,
        JsonVal::Bool(b) => JsonVal::Bool(b),
        JsonVal::Num(t) => JsonVal::Num(t),
        JsonVal::Str(t) => JsonVal::Str(sanitize_spec(t)),
        JsonVal::Arr(items) => JsonVal::Arr(sanitize_docs_from(items, 0)),
        JsonVal::Obj(fields) => JsonVal::Obj(sanitize_fields_from(fields, 0)),
    }
}

pub open spec fn sanitize_docs_from(items: Seq<JsonVal>, i: int) -> Seq<JsonVal>
    decreases items, items.len() - i + 1,
{
    if i < 0 || i >= items.len() {
        Seq::empty()
    } else {
        seq![sanitize_doc_spec(items[i])] + sanitize_docs_from(items, i + 1)
    }
}

pub open spec fn sanitize_fields_from(fields: Seq<(Seq<char>, JsonVal)>, i: int) -> Seq<
    (Seq<char>, JsonVal),
>
    decreases fields, fields.len() - i + 1,
{
    if i < 0 || i >= fields.len() {
        Seq::empty()
    } else {
        seq![(fields[i].0, sanitize_doc_spec(fields[i].1))] + sanitize_fields_from(fields, i + 1)
    }
}

pub proof fn lemma_sanitize_docs_from(items: Seq<JsonVal>, i: int)
    requires
        0 <= i <= items.len(),
    ensures
        sanitize_docs_from(items, i).len() == items.len() - i,
        forall|k: int|
            0 <= k < items.len() - i ==> sanitize_docs_from(items, i)[k] == sanitize_doc_spec(
                items[i + k],
            ),
    decreases items.len() - i,
{
    if i < items.len() {
        lemma_sanitize_docs_from(items, i + 1);
    }
}

pub proof fn lemma_sanitize_fields_from(fields: Seq<(Seq<char>, JsonVal)>, i: int)
    requires
        0 <= i <= fields.len(),
    ensures
        sanitize_fields_from(fields, i).len() == fields.len() - i,
        forall|k: int|
            0 <= k < fields.len() - i ==> sanitize_fields_from(fields, i)[k] == (
                fields[i + k].0,
                sanitize_doc_spec(fields[i + k].1),
            ),
    decreases fields.len() - i,
{
    if i < fields.len() {
        lemma_sanitize_fields_from(fields, i + 1);
    }
}

/// Two documents have the same shape: equal key sequences, equal sequence
/// lengths, equal non-string leaves; only string leaves may differ.
pub open spec fn same_shape(a: JsonVal, b: JsonVal) -> bool
    decreases a,
{
    match (a, b) {
        (JsonVal::Null, JsonVal::Null) => true,
        (JsonVal::Bool(x), JsonVal::Bool(y)) => x == y,
        (JsonVal::Num(x), JsonVal::Num(y)) => x == y,
        (JsonVal::Str(_), JsonVal::Str(_)) => true,
        (JsonVal::Arr(x), JsonVal::Arr(y)) => x.len() == y.len() && (forall|i: int|
            0 <= i < x.len() ==> same_shape(x[i], y[i])),
        (JsonVal::Obj(x), JsonVal::Obj(y)) => x.len() == y.len() && (forall|i: int|
            0 <= i < x.len() ==> x[i].0 == y[i].0 && same_shape(x[i].1, y[i].1)),
        _ => false,
    }
}

/// Structural redaction preserves document shape: key sequences, sequence
/// lengths and non-string leaves are unchanged; only string leaves may
/// differ.
pub proof fn lemma_sanitize_preserves_shape(j: JsonVal)
    ensures
        same_shape(j, sanitize_doc_spec(j)),
    decreases j,
{
    match j {
        JsonVal::Arr(items) => {
            lemma_sanitize_docs_from(items, 0);
            let out = sanitize_docs_from(items, 0);
            assert forall|i: int| 0 <= i < items.len() implies same_shape(items[i], out[i]) by {
                lemma_sanitize_preserves_shape(items[i]);
            }
        },
        JsonVal::Obj(fields) => {
            lemma_sanitize_fields_from(fields, 0);
            let out = sanitize_fields_from(fields, 0);
            assert forall|i: int| 0 <= i < fields.len() implies fields[i].0 == out[i].0
                && same_shape(fields[i].1, out[i].1) by {
                lemma_sanitize_preserves_shape(fields[i].1);
            }
        },
        _ => {},
    }
}

/// Apply the text redaction to every string leaf of `value`, leaving keys,
/// lengths and non-string leaves untouched.
#[verifier::loop_isolation(false)]
pub fn sanitize_json(value: &DocValue) -> (r: DocValue)
    ensures
        r@ == sanitize_doc_spec(value@),
    decreases *value,
{
    match value {
        DocValue::Null => DocValue::Null,
        DocValue::Bool(b) => DocValue::Bool(*b),
        DocValue::Num(t) => DocValue::Num(t.clone()),
        DocValue::Str(t) => DocValue::Str(sanitize_text(t.as_str())),
        DocValue::Arr(items) => {
            let mut out: Vec<DocValue> = Vec::new();
            let mut i: usize = 0;
            while i < items.len()
                invariant
                    i <= items@.len(),
                    out@.len() == i,
                    forall|k: int| 0 <= k < i ==> out@[k]@ == sanitize_doc_spec(items@[k]@),
                decreases items@.len() - i,
            {
                proof {
                    assert(decreases_to!(*value => items@[i as int]));
                }
                let si = sanitize_json(&items[i]);
                out.push(si);
                i = i + 1;
            }
            proof {
                let itemsv = doc_views_from(items@, 0);
                lemma_doc_views_from(items@, 0);
                lemma_doc_views_from(out@, 0);
                lemma_sanitize_docs_from(itemsv, 0);
                assert(doc_views_from(out@, 0) =~= sanitize_docs_from(itemsv, 0));
            }
            DocValue::Arr(out)
        },
        DocValue::Obj(fields) => {
            let mut out: Vec<(String, DocValue)> = Vec::new();
            let mut i: usize = 0;
            while i < fields.len()
                invariant
                    i <= fields@.len(),
                    out@.len() == i,
                    forall|k: int|
                        0 <= k < i ==> out@[k].0@ == fields@[k].0@ && out@[k].1@
                            == sanitize_doc_spec(fields@[k].1@),
                decreases fields@.len() - i,
            {
                proof {
                    assert(decreases_to!(*value => fields@[i as int].1));
                }
                let key = fields[i].0.clone();
                let sv = sanitize_json(&fields[i].1);
                out.push((key, sv));
                i = i + 1;
            }
            proof {
                let fieldsv = doc_fields_from(fields@, 0);
                lemma_doc_fields_from(fields@, 0);
                lemma_doc_fields_from(out@, 0);
                lemma_sanitize_fields_from(fieldsv, 0);
                assert(doc_fields_from(out@, 0) =~= sanitize_fields_from(fieldsv, 0));
            }
            DocValue::Obj(out)
        },
    }
}

} // verus!

// ---------------------------------------------------------------------------
// Rendering a document as JSON text
// ---------------------------------------------------------------------------

verus! {

/// Hexadecimal digit character for a value below 16.
pub open spec fn hex_digit(v: int) -> char {
    if v == 0 { '0' } else if v == 1 { '1' } else if v == 2 { '2' } else if v == 3 { '3' }
    else if v == 4 { '4' } else if v == 5 { '5' } else if v == 6 { '6' } else if v == 7 { '7' }
    else if v == 8 { '8' } else if v == 9 { '9' } else if v == 10 { 'a' } else if v == 11 { 'b' }
    else if v == 12 { 'c' } else if v == 13 { 'd' } else if v == 14 { 'e' } else { 'f' }
}

/// JSON escape of one character inside a quoted string.
pub open spec fn json_escape_char(c: char) -> Seq<char> {
    if c == '"' { seq!['\\', '"'] }
    else if c == '\\' { seq!['\\', '\\'] }
    else if c == '\n' { seq!['\\', 'n'] }
    else if c == '\r' { seq!['\\', 'r'] }
    else if c == '\t' { seq!['\\', 't'] }
    else if (c as u32) < 32 {
        seq!['\\', 'u', '0', '0', hex_digit((c as u32) as int / 16), hex_digit((c as u32) as int % 16)]
    } else { seq![c] }
}

pub open spec fn escape_from(s: Seq<char>, i: int) -> Seq<char>
    decreases s.len() - i,
{
    if i < 0 || i >= s.len() {
        Seq::empty()
    } else {
        json_escape_char(s[i]) + escape_from(s, i + 1)
    }
}

/// A JSON string literal: quoted, with every character escaped as needed.
pub open spec fn json_string(s: Seq<char>) -> Seq<char> {
    seq!['"'] + escape_from(s, 0) + seq!['"']
}

/// The JSON text of a document. Number leaves contribute their source text.
pub open spec fn json_text(j: JsonVal) -> Seq<char>
    decreases j, 0int,
{
    match j {
        JsonVal::Null => "null"@,
        JsonVal::Bool(b) => if b { "true"@ } else { "false"@ },
        JsonVal::Num(t) => t,
        JsonVal::Str(t) => json_string(t),
        JsonVal::Arr(items) => seq!['['] + json_arr_from(items, 0) + seq![']'],
        JsonVal::Obj(fields) => seq!['{'] + json_obj_from(fields, 0) + seq!['}'],
    }
}

pub open spec fn json_arr_from(items: Seq<JsonVal>, i: int) -> Seq<char>
    decreases items, items.len() - i + 1,
{
    if i < 0 || i >= items.len() {
        Seq::empty()
    } else if i == items.len() - 1 {
        json_text(items[i])
    } else {
        json_text(items[i]) + seq![','] + json_arr_from(items, i + 1)
    }
}

pub open spec fn json_obj_from(fields: Seq<(Seq<char>, JsonVal)>, i: int) -> Seq<char>
    decreases fields, fields.len() - i + 1,
{
    if i < 0 || i >= fields.len() {
        Seq::empty()
    } else if i == fields.len() - 1 {
        json_string(fields[i].0) + seq![':'] + json_text(fields[i].1)
    } else {
        json_string(fields[i].0) + seq![':'] + json_text(fields[i].1) + seq![','] + json_obj_from(
            fields,
            i + 1,
        )
    }
}

fn hex_str(v: u32) -> (r: &'static str)
    requires
        v < 16,
    ensures
        r@ == seq![hex_digit(v as int)],
{
    let r: &'static str = if v == 0 { "0" } else if v == 1 { "1" } else if v == 2 { "2" }
    else if v == 3 { "3" } else if v == 4 { "4" } else if v == 5 { "5" } else if v == 6 { "6" }
    else if v == 7 { "7" } else if v == 8 { "8" } else if v == 9 { "9" } else if v == 10 { "a" }
    else if v == 11 { "b" } else if v == 12 { "c" } else if v == 13 { "d" } else if v == 14 { "e" }
    else { "f" };
    proof {
        reveal_strlit("0"); reveal_strlit("1"); reveal_strlit("2"); reveal_strlit("3");
        reveal_strlit("4"); reveal_strlit("5"); reveal_strlit("6"); reveal_strlit("7");
        reveal_strlit("8"); reveal_strlit("9"); reveal_strlit("a"); reveal_strlit("b");
        reveal_strlit("c"); reveal_strlit("d"); reveal_strlit("e"); reveal_strlit("f");
        assert(r@ =~= seq![hex_digit(v as int)]);
    }
    r
}

#[verifier::loop_isolation(false)]
fn write_json_string(out: &mut String, s: &str)
    ensures
        final(out)@ == old(out)@ + json_string(s@),
{
    out.append("\"");
    let ghost base = out@;
    let n = s.unicode_len();
    let mut i: usize = 0;
    while i < n
        invariant
            i <= n,
            out@ + escape_from(s@, i as int) == base + escape_from(s@, 0),
        decreases n - i,
    {
        let ghost prev = out@;
        let c = s.get_char(i);
        let v = c as u32;
        if c == '"' {
            out.append("\\\"");
            proof {
                reveal_strlit("\\\"");
                assert(out@ =~= prev + json_escape_char(c));
            }
        } else if c == '\\' {
            out.append("\\\\");
            proof {
                reveal_strlit("\\\\");
                assert(out@ =~= prev + json_escape_char(c));
            }
        } else if c == '\n' {
            out.append("\\n");
            proof {
                reveal_strlit("\\n");
                assert(out@ =~= prev + json_escape_char(c));
            }
        } else if c == '\r' {
            out.append("\\r");
            proof {
                reveal_strlit("\\r");
                assert(out@ =~= prev + json_escape_char(c));
            }
        } else if c == '\t' {
            out.append("\\t");
            proof {
                reveal_strlit("\\t");
                assert(out@ =~= prev + json_escape_char(c));
            }
        } else if v < 32 {
            out.append("\\u00");
            out.append(hex_str(v / 16));
            out.append(hex_str(v % 16));
            proof {
                reveal_strlit("\\u00");
                assert(out@ =~= prev + json_escape_char(c));
            }
        } else {
            out.append(s.substring_char(i, i + 1));
            proof {
                assert(out@ =~= prev + json_escape_char(c));
            }
        }
        proof {
            assert(out@ + escape_from(s@, i + 1) =~= prev + escape_from(s@, i as int));
        }
        i = i + 1;
    }
    proof {
        assert(escape_from(s@, n as int) =~= Seq::<char>::empty());
        assert(out@ =~= base + escape_from(s@, 0));
    }
    out.append("\"");
    proof {
        reveal_strlit("\"");
        assert(out@ =~= old(out)@ + json_string(s@));
    }
}

#[verifier::loop_isolation(false)]
fn write_json(out: &mut String, value: &DocValue)
    ensures
        final(out)@ == old(out)@ + json_text(value@),
    decreases *value,
{
    match value {
        DocValue::Null => {
            out.append("null");
        },
        DocValue::Bool(b) => {
            if *b {
                out.append("true");
            } else {
                out.append("false");
            }
        },
        DocValue::Num(t) => {
            out.append(t.as_str());
        },
        DocValue::Str(t) => {
            write_json_string(out, t.as_str());
        },
        DocValue::Arr(items) => {
            out.append("[");
            proof {
                reveal_strlit("[");
            }
            let ghost base = out@;
            let ghost itemsv = doc_views_from(items@, 0);
            proof {
                lemma_doc_views_from(items@, 0);
            }
            let n = items.len();
            let mut i: usize = 0;
            while i < n
                invariant
                    i <= n,
                    n == items@.len(),
                    out@ + json_arr_from(itemsv, i as int) == base + json_arr_from(itemsv, 0),
                decreases n - i,
            {
                let ghost prev = out@;
                proof {
                    assert(decreases_to!(*value => items@[i as int]));
                }
                write_json(out, &items[i]);
                if i + 1 < n {
                    out.append(",");
                    proof {
                        reveal_strlit(",");
                        assert(out@ + json_arr_from(itemsv, i + 1) =~= prev + json_arr_from(
                            itemsv,
                            i as int,
                        ));
                    }
                } else {
                    proof {
                        assert(out@ + json_arr_from(itemsv, i + 1) =~= prev + json_arr_from(
                            itemsv,
                            i as int,
                        ));
                    }
                }
                i = i + 1;
            }
            proof {
                assert(json_arr_from(itemsv, n as int) =~= Seq::<char>::empty());
                assert(out@ =~= base + json_arr_from(itemsv, 0));
            }
            out.append("]");
            proof {
                reveal_strlit("]");
                assert(out@ =~= old(out)@ + json_text(value@));
            }
        },
        DocValue::Obj(fields) => {
            out.append("{");
            proof {
                reveal_strlit("{");
            }
            let ghost base = out@;
            let ghost fieldsv = doc_fields_from(fields@, 0);
            proof {
                lemma_doc_fields_from(fields@, 0);
            }
            let n = fields.len();
            let mut i: usize = 0;
            while i < n
                invariant
                    i <= n,
                    n == fields@.len(),
                    out@ + json_obj_from(fieldsv, i as int) == base + json_obj_from(fieldsv, 0),
                decreases n - i,
            {
                let ghost prev = out@;
                write_json_string(out, fields[i].0.as_str());
                out.append(":");
                proof {
                    reveal_strlit(":");
                    assert(decreases_to!(*value => fields@[i as int].1));
                }
                write_json(out, &fields[i].1);
                if i + 1 < n {
                    out.append(",");
                    proof {
                        reveal_strlit(",");
                        assert(out@ + json_obj_from(fieldsv, i + 1) =~= prev + json_obj_from(
                            fieldsv,
                            i as int,
                        ));
                    }
                } else {
                    proof {
                        assert(out@ + json_obj_from(fieldsv, i + 1) =~= prev + json_obj_from(
                            fieldsv,
                            i as int,
                        ));
                    }
                }
                i = i + 1;
            }
            proof {
                assert(json_obj_from(fieldsv, n as int) =~= Seq::<char>::empty());
                assert(out@ =~= base + json_obj_from(fieldsv, 0));
            }
            out.append("}");
            proof {
                reveal_strlit("}");
                assert(out@ =~= old(out)@ + json_text(value@));
            }
        },
    }
}

/// Render `value` as JSON text.
pub fn to_json(value: &DocValue) -> (r: String)
    ensures
        r@ == json_text(value@),
{
    let mut out = String::new();
    write_json(&mut out, value);
    proof {
        assert(out@ =~= json_text(doc_view(*value)));
    }
    out
}

} // verus!
