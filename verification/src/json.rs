//! Framing of the rosbridge protocol lines: `advertise`, `subscribe` and
//! `publish` operations as one-line JSON objects with their keys in sorted
//! order, as `serde_json` writes them.

use vstd::prelude::*;
use vstd::string::StringExecFns;

verus! {

/// Lowercase hexadecimal digit of `n` (`0 <= n < 16`).
pub open spec fn hex_digit(n: int) -> char {
    if n < 10 {
        (n + 48) as char
    } else {
        (n + 87) as char
    }
}

/// How `serde_json` writes the character `c` inside a string literal: `"`
/// and `\` behind a backslash; backspace, tab, line feed, form feed and
/// carriage return as `\b`, `\t`, `\n`, `\f`, `\r`; the other control
/// characters below 0x20 as `\u00` and two lowercase hex digits; every
/// other character as itself.
pub open spec fn json_escape_char(c: char) -> Seq<char> {
    let n = c as int;
    if c == '"' {
        seq!['\\', '"']
    } else if c == '\\' {
        seq!['\\', '\\']
    } else if n == 8 {
        seq!['\\', 'b']
    } else if n == 9 {
        seq!['\\', 't']
    } else if n == 10 {
        seq!['\\', 'n']
    } else if n == 12 {
        seq!['\\', 'f']
    } else if n == 13 {
        seq!['\\', 'r']
    } else if n < 32 {
        seq!['\\', 'u', '0', '0', hex_digit(n / 16), hex_digit(n % 16)]
    } else {
        seq![c]
    }
}

/// The characters of `s`, each written as `json_escape_char` says.
pub open spec fn json_escaped(s: Seq<char>) -> Seq<char>
    decreases s.len(),
{
    if s.len() == 0 {
        Seq::<char>::empty()
    } else {
        json_escaped(s.drop_last()) + json_escape_char(s.last())
    }
}

/// The JSON string literal of `s`, as `serde_json::to_string` writes a
/// string: its escaped characters between double quotes.
pub open spec fn json_string_literal(s: Seq<char>) -> Seq<char> {
    seq!['"'] + json_escaped(s) + seq!['"']
}

/// Does `s` hold no newline character?
pub open spec fn newline_free(s: Seq<char>) -> bool {
    forall|i: int| 0 <= i < s.len() ==> s[i] != '\n'
}

/// Joining newline-free texts gives a newline-free text.
pub proof fn lemma_concat_newline_free(a: Seq<char>, b: Seq<char>)
    requires
        newline_free(a),
        newline_free(b),
    ensures
        newline_free(a + b),
{
    assert forall|i: int| 0 <= i < (a + b).len() implies (a + b)[i] != '\n' by {
        if i >= a.len() {
            assert((a + b)[i] == b[i - a.len()]);
        }
    }
}

/// The JSON string literal of `s`.
///
/// Calls `serde_json::to_string` on the string. Serialising a string into
/// `serde_json`'s in-memory buffer cannot fail, so the error arm (empty
/// text) is never taken. The contract claims that `serde_json` quotes the
/// string and escapes each character as `json_escape_char` states (its
/// escape table and `\u00XX` form for the remaining control characters).
#[verifier::external_body]
pub(crate) fn json_quote(s: &str) -> (r: String)
    ensures
        r@ == json_string_literal(s@),
{
    match serde_json::to_string(s) {
        Ok(t) => t,
        Err(_) => String::new(),
    }
}

/// Name for the compact JSON text of a `serde_json::Value`, as its
/// `Display` implementation writes it (the library never inspects it).
pub uninterp spec fn json_value_text(v: serde_json::Value) -> Seq<char>;

/// The compact JSON text of `v`.
///
/// Calls `serde_json::Value`'s `Display` implementation (through
/// `ToString::to_string`). The result is only named: the formatting of
/// numbers and nested documents is left to `serde_json`. One fact is
/// stated: the compact form holds no raw newline (no whitespace is written
/// between tokens and control characters in strings are escaped).
#[verifier::external_body]
fn json_text(v: &serde_json::Value) -> (r: String)
    ensures
        r@ == json_value_text(*v),
        newline_free(r@),
{
    v.to_string()
}

/// Name for the document that `serde_json` parses from `text`; `None`
/// when `text` is not JSON.
pub uninterp spec fn json_parse(text: Seq<char>) -> Option<serde_json::Value>;

/// Parse `text` as a JSON document.
///
/// Calls `serde_json::from_str::<serde_json::Value>`, its error turned into
/// `None`. The result is only named.
#[verifier::external_body]
pub(crate) fn parse_json(text: &str) -> (r: Option<serde_json::Value>)
    ensures
        r == json_parse(text@),
{
    match serde_json::from_str::<serde_json::Value>(text) {
        Ok(v) => Some(v),
        Err(_) => None,
    }
}

/// Name for the member `key` of a JSON document: `None` when the document
/// is not an object or has no such member.
pub uninterp spec fn json_member(v: serde_json::Value, key: Seq<char>) -> Option<serde_json::Value>;

/// The member `key` of `v`.
///
/// Calls `serde_json::Value::get` with a string key and clones the member.
/// The result is only named.
#[verifier::external_body]
pub(crate) fn member(v: &serde_json::Value, key: &str) -> (r: Option<serde_json::Value>)
    ensures
        r == json_member(*v, key@),
{
    match v.get(key) {
        Some(m) => Some(m.clone()),
        None => None,
    }
}

/// Name for the text of a JSON document that is a string; `None` for every
/// other kind of document.
pub uninterp spec fn json_str(v: serde_json::Value) -> Option<Seq<char>>;

/// The string held by `v`, if `v` is a JSON string.
///
/// Calls `serde_json::Value::as_str`. The result is only named.
#[verifier::external_body]
pub(crate) fn as_str(v: &serde_json::Value) -> (r: Option<String>)
    ensures
        match r {
            Some(s) => json_str(*v) == Some(s@),
            None => json_str(*v) is None,
        },
{
    match v.as_str() {
        Some(s) => Some(s.to_string()),
        None => None,
    }
}

/// The line of a rosbridge operation `op` on `topic` with message type `ty`.
pub open spec fn op_line(op: Seq<char>, topic: Seq<char>, ty: Seq<char>) -> Seq<char> {
    "{\"op\":"@ + json_string_literal(op) + ",\"topic\":"@ + json_string_literal(topic) + ",\"type\":"@
        + json_string_literal(ty) + "}"@
}

/// The line of a rosbridge `publish` of `payload` on `topic`.
pub open spec fn publish_op_line(topic: Seq<char>, ty: Seq<char>, payload: Seq<char>) -> Seq<char> {
    "{\"msg\":"@ + payload + ",\"op\":\"publish\",\"topic\":"@ + json_string_literal(topic) + ",\"type\":"@
        + json_string_literal(ty) + "}"@
}

/// No character is escaped into a line break.
proof fn lemma_escape_char_newline_free(c: char)
    ensures
        newline_free(json_escape_char(c)),
{
    let e = json_escape_char(c);
    assert forall|i: int| 0 <= i < e.len() implies e[i] != '\n' by {
        let n = c as int;
        if n < 32 && n != 8 && n != 9 && n != 10 && n != 12 && n != 13 {
            assert(0 <= n / 16 < 16 && 0 <= n % 16 < 16);
        }
    }
}

/// A JSON string literal is a single line: every line break inside the
/// string is written as the escape `\n`.
pub proof fn lemma_literal_newline_free(s: Seq<char>)
    ensures
        newline_free(json_escaped(s)),
        newline_free(json_string_literal(s)),
    decreases s.len(),
{
    if s.len() > 0 {
        lemma_literal_newline_free(s.drop_last());
        lemma_escape_char_newline_free(s.last());
        lemma_concat_newline_free(json_escaped(s.drop_last()), json_escape_char(s.last()));
    }
    assert(newline_free(seq!['"']));
    lemma_concat_newline_free(seq!['"'], json_escaped(s));
    lemma_concat_newline_free(seq!['"'] + json_escaped(s), seq!['"']);
}

/// A rosbridge operation line is a single line.
pub proof fn lemma_op_line_newline_free(op: Seq<char>, topic: Seq<char>, ty: Seq<char>)
    ensures
        newline_free(op_line(op, topic, ty)),
{
    lemma_literal_newline_free(op);
    lemma_literal_newline_free(topic);
    lemma_literal_newline_free(ty);
    reveal_strlit("{\"op\":");
    reveal_strlit(",\"topic\":");
    reveal_strlit(",\"type\":");
    reveal_strlit("}");
    let p0 = "{\"op\":"@;
    let p1 = ",\"topic\":"@;
    let p2 = ",\"type\":"@;
    let p3 = "}"@;
    assert(newline_free(p0));
    assert(newline_free(p1));
    assert(newline_free(p2));
    assert(newline_free(p3));
    lemma_concat_newline_free(p0, json_string_literal(op));
    lemma_concat_newline_free(p0 + json_string_literal(op), p1);
    lemma_concat_newline_free(p0 + json_string_literal(op) + p1, json_string_literal(topic));
    lemma_concat_newline_free(p0 + json_string_literal(op) + p1 + json_string_literal(topic), p2);
    lemma_concat_newline_free(
        p0 + json_string_literal(op) + p1 + json_string_literal(topic) + p2,
        json_string_literal(ty),
    );
    lemma_concat_newline_free(
        p0 + json_string_literal(op) + p1 + json_string_literal(topic) + p2 + json_string_literal(ty),
        p3,
    );
}

/// A rosbridge `publish` line is a single line when its payload text is.
pub proof fn lemma_publish_line_newline_free(topic: Seq<char>, ty: Seq<char>, payload: Seq<char>)
    requires
        newline_free(payload),
    ensures
        newline_free(publish_op_line(topic, ty, payload)),
{
    lemma_literal_newline_free(topic);
    lemma_literal_newline_free(ty);
    reveal_strlit("{\"msg\":");
    reveal_strlit(",\"op\":\"publish\",\"topic\":");
    reveal_strlit(",\"type\":");
    reveal_strlit("}");
    let p0 = "{\"msg\":"@;
    let p1 = ",\"op\":\"publish\",\"topic\":"@;
    let p2 = ",\"type\":"@;
    let p3 = "}"@;
    assert(newline_free(p0));
    assert(newline_free(p1));
    assert(newline_free(p2));
    assert(newline_free(p3));
    lemma_concat_newline_free(p0, payload);
    lemma_concat_newline_free(p0 + payload, p1);
    lemma_concat_newline_free(p0 + payload + p1, json_string_literal(topic));
    lemma_concat_newline_free(p0 + payload + p1 + json_string_literal(topic), p2);
    lemma_concat_newline_free(p0 + payload + p1 + json_string_literal(topic) + p2, json_string_literal(ty));
    lemma_concat_newline_free(
        p0 + payload + p1 + json_string_literal(topic) + p2 + json_string_literal(ty),
        p3,
    );
}

/// Append the JSON string literal of `s` to `out`.
pub fn push_json_string(out: &mut String, s: &str)
    ensures
        final(out)@ == old(out)@ + json_string_literal(s@),
{
    let q = json_quote(s);
    out.append(q.as_str());
}

/// The line `{"op":<op>,"topic":<topic>,"type":<ty>}` of a rosbridge
/// operation, strings quoted as JSON.
pub fn op_json_line(op: &str, topic: &str, ty: &str) -> (line: String)
    ensures
        line@ == op_line(op@, topic@, ty@),
{
    let mut line = String::new();
    line.append("{\"op\":");
    push_json_string(&mut line, op);
    line.append(",\"topic\":");
    push_json_string(&mut line, topic);
    line.append(",\"type\":");
    push_json_string(&mut line, ty);
    line.append("}");
    assert(line@ =~= op_line(op@, topic@, ty@));
    line
}

/// The line `{"msg":<payload>,"op":"publish","topic":<topic>,"type":<ty>}`
/// of a rosbridge publication whose payload text is `payload_text`.
pub fn publish_json_line_from_text(topic: &str, ty: &str, payload_text: &str) -> (line: String)
    ensures
        line@ == publish_op_line(topic@, ty@, payload_text@),
{
    let mut line = String::new();
    line.append("{\"msg\":");
    line.append(payload_text);
    line.append(",\"op\":\"publish\",\"topic\":");
    push_json_string(&mut line, topic);
    line.append(",\"type\":");
    push_json_string(&mut line, ty);
    line.append("}");
    assert(line@ =~= publish_op_line(topic@, ty@, payload_text@));
    line
}

/// The rosbridge `publish` line of `payload` on `topic`.
pub fn publish_json_line(topic: &str, ty: &str, payload: &serde_json::Value) -> (line: String)
    ensures
        line@ == publish_op_line(topic@, ty@, json_value_text(*payload)),
        newline_free(json_value_text(*payload)),
{
    let text = json_text(payload);
    publish_json_line_from_text(topic, ty, text.as_str())
}

} // verus!
