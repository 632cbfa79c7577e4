//! JSON texts: strings and numbers as serde_json writes them, arrays of them, and
//! the arrays that serde_json reads from a line.
use vstd::prelude::*;

use crate::text::decimal;

verus! {

/// The lower-case hexadecimal digit for `d < 16`.
pub open spec fn hex_digit(d: nat) -> char {
    if d < 10 {
        (48 + d) as char
    } else {
        (87 + d) as char
    }
}

/// How serde_json writes one character inside a JSON string: `"` and `\` after a
/// backslash; backspace, tab, newline, form feed and carriage return as `\b \t \n \f \r`;
/// the other control characters below U+0020 as `\u00xx` in lower-case hex; every
/// other character as it is.
pub open spec fn json_escaped_char(c: char) -> Seq<char> {
    let v = c as u32;
    if c == '"' {
        seq!['\\', '"']
    } else if c == '\\' {
        seq!['\\', '\\']
    } else if v == 0x08 {
        seq!['\\', 'b']
    } else if v == 0x09 {
        seq!['\\', 't']
    } else if v == 0x0A {
        seq!['\\', 'n']
    } else if v == 0x0C {
        seq!['\\', 'f']
    } else if v == 0x0D {
        seq!['\\', 'r']
    } else if v < 0x20 {
        seq!['\\', 'u', '0', '0', hex_digit((v / 16) as nat), hex_digit((v % 16) as nat)]
    } else {
        seq![c]
    }
}

/// The characters of `s`, each as serde_json writes it inside a JSON string.
pub open spec fn json_escaped(s: Seq<char>) -> Seq<char>
    decreases s.len(),
{
    if s.len() == 0 {
        seq![]
    } else {
        json_escaped(s.drop_last()) + json_escaped_char(s.last())
    }
}

/// The JSON text that serde_json writes for a string holding `s`: a quote, the
/// escaped characters, a quote.
pub open spec fn json_string_text(s: Seq<char>) -> Seq<char> {
    seq!['"'] + json_escaped(s) + seq!['"']
}

/// The JSON text of the string `s`, as `serde_json::to_string` writes it: quoted, with
/// `"`, `\` and the control characters escaped as `json_escaped_char` says.
/// Serialising a `str` into serde_json's in-memory writer does not fail; the error
/// arm is never taken.
#[verifier::external_body]
pub(crate) fn json_string(s: &str) -> (res: String)
    ensures
        res@ == json_string_text(s@),
{
    match serde_json::to_string(s) {
        Ok(t) => t,
        Err(_) => String::new(),
    }
}

/// The JSON text of the number `n`, as `serde_json::to_string` writes it: its
/// decimal numeral. Serialising a `u64` does not fail; the error arm is never taken.
#[verifier::external_body]
pub(crate) fn json_number(n: u64) -> (res: String)
    ensures
        res@ == decimal(n as nat),
{
    match serde_json::to_string(&n) {
        Ok(t) => t,
        Err(_) => String::new(),
    }
}

/// The items separated by commas.
pub open spec fn join_commas(items: Seq<Seq<char>>) -> Seq<char>
    decreases items.len(),
{
    if items.len() == 0 {
        seq![]
    } else if items.len() == 1 {
        items[0]
    } else {
        join_commas(items.drop_last()) + seq![','] + items.last()
    }
}

/// A JSON array of the given item texts in serde_json's compact form: `[a,b,c]`.
pub open spec fn json_array(items: Seq<Seq<char>>) -> Seq<char> {
    seq!['['] + join_commas(items) + seq![']']
}

/// The texts of a vector of strings.
pub open spec fn string_views(v: Seq<String>) -> Seq<Seq<char>> {
    v.map_values(|s: String| s@)
}

/// Appends the characters of `s` to `dst`.
fn push_str_chars(dst: &mut Vec<char>, s: &str)
    ensures
        final(dst)@ == old(dst)@ + s@,
{
    let chars = crate::text::chars_of(s);
    let mut i: usize = 0;
    while i < chars.len()
        invariant
            i <= chars@.len(),
            chars@ == s@,
            dst@ == old(dst)@ + chars@.take(i as int),
        decreases chars@.len() - i,
    {
        dst.push(chars[i]);
        assert(chars@.take(i + 1) =~= chars@.take(i as int).push(chars@[i as int]));
        i = i + 1;
    }
    assert(chars@.take(i as int) =~= chars@);
}

/// The JSON array of the item texts, in serde_json's compact form.
pub fn json_array_text(items: &Vec<String>) -> (res: String)
    ensures
        res@ == json_array(string_views(items@)),
{
    let ghost all = string_views(items@);
    let mut out: Vec<char> = Vec::new();
    out.push('[');
    let mut i: usize = 0;
    assert(all.take(0) =~= Seq::<Seq<char>>::empty());
    while i < items.len()
        invariant
            i <= items@.len(),
            all == string_views(items@),
            out@ == seq!['['] + join_commas(all.take(i as int)),
        decreases items@.len() - i,
    {
        let ghost before = out@;
        if i > 0 {
            out.push(',');
        }
        push_str_chars(&mut out, items[i].as_str());
        assert(all.take(i + 1).drop_last() =~= all.take(i as int));
        assert(all.take(i + 1).last() == items@[i as int]@);
        if i == 0 {
            assert(all.take(0) =~= Seq::<Seq<char>>::empty());
            assert(join_commas(all.take(1)) == all.take(1)[0]);
            assert(out@ =~= seq!['['] + join_commas(all.take(i + 1)));
        } else {
            assert(out@ =~= seq!['['] + join_commas(all.take(i + 1)));
        }
        i = i + 1;
    }
    out.push(']');
    assert(all.take(i as int) =~= all);
    assert(out@ =~= json_array(all));
    crate::text::string_from_chars(out.as_slice())
}

/// One item of a JSON array, as the server reads it: a string, a number (with its
/// value where it is a `u64`), or anything else.
#[derive(Debug)]
pub enum JsonField {
    Text(String),
    Number(Option<u64>),
    Other,
}

/// A `JsonField` as a mathematical value.
pub enum JsonFieldView {
    Text(Seq<char>),
    Number(Option<u64>),
    Other,
}

impl View for JsonField {
    type V = JsonFieldView;

    open spec fn view(&self) -> JsonFieldView {
        match self {
            JsonField::Text(s) => JsonFieldView::Text(s@),
            JsonField::Number(n) => JsonFieldView::Number(*n),
            JsonField::Other => JsonFieldView::Other,
        }
    }
}

/// The views of a vector of fields.
pub open spec fn field_views(v: Seq<JsonField>) -> Seq<JsonFieldView> {
    v.map_values(|f: JsonField| f@)
}

/// The items of the JSON array that serde_json reads from `line`; `None` where the
/// line is not JSON or its value is not an array.
pub uninterp spec fn json_array_fields(line: Seq<char>) -> Option<Seq<JsonFieldView>>;

/// Reads `line` with `serde_json::from_str` as a `serde_json::Value`; where that is an
/// array, its items, each a string, a number (with `as_u64`) or another value.
#[verifier::external_body]
pub(crate) fn parse_json_array(line: &str) -> (res: Option<Vec<JsonField>>)
    ensures
        match json_array_fields(line@) {
            None => res is None,
            Some(fields) => res matches Some(v) && field_views(v@) == fields,
        },
{
    match serde_json::from_str::<serde_json::Value>(line) {
        Ok(serde_json::Value::Array(items)) => Some(items.into_iter().map(|v| match v {
            serde_json::Value::String(s) => JsonField::Text(s),
            serde_json::Value::Number(n) => JsonField::Number(n.as_u64()),
            serde_json::Value::Null => JsonField::Other,
            serde_json::Value::Bool(_) => JsonField::Other,
            serde_json::Value::Array(_) => JsonField::Other,
            serde_json::Value::Object(_) => JsonField::Other,
        }).collect()),
        _ => None,
    }
}

} // verus!
