use vstd::prelude::*;
use vstd::string::*;

verus! {

/// The domain record carried in a message body.
#[derive(Debug)]
pub struct Event {
    pub text: String,
}

/// Why a payload could not be turned into a record.
#[derive(Debug, Clone, Copy, PartialEq, Eq, Structural)]
pub enum CodecError {
    Decode,
}

/// Declares serde_json::Error, the failure type of serde_json::to_string,
/// as an opaque type.
#[verifier::external_type_specification]
#[verifier::external_body]
pub struct ExJsonError(serde_json::Error);

/// The lower-case hexadecimal digit of a value below 16.
pub open spec fn hex_digit(n: u32) -> char {
    seq!['0', '1', '2', '3', '4', '5', '6', '7', '8', '9', 'a', 'b', 'c', 'd', 'e', 'f'][n as int]
}

/// How one character is written inside a JSON string literal: quote and
/// backslash behind a backslash, the five control characters that have a
/// short form in it, the other control characters as `\u00` and two hex
/// digits, and everything else as it is.
pub open spec fn json_escaped(c: char) -> Seq<char> {
    if c == '"' {
        seq!['\\', '"']
    } else if c == '\\' {
        seq!['\\', '\\']
    } else if c == '\x08' {
        seq!['\\', 'b']
    } else if c == '\t' {
        seq!['\\', 't']
    } else if c == '\n' {
        seq!['\\', 'n']
    } else if c == '\x0c' {
        seq!['\\', 'f']
    } else if c == '\r' {
        seq!['\\', 'r']
    } else if (c as u32) < 0x20 {
        seq!['\\', 'u', '0', '0', hex_digit((c as u32) / 16), hex_digit((c as u32) % 16)]
    } else {
        seq![c]
    }
}

/// The characters of a string, each written as in a JSON string literal.
pub open spec fn json_escape(s: Seq<char>) -> Seq<char>
    decreases s.len(),
{
    if s.len() == 0 {
        seq![]
    } else {
        json_escape(s.drop_last()) + json_escaped(s.last())
    }
}

/// The JSON string literal that stands for the given characters.
pub open spec fn json_string_literal(s: Seq<char>) -> Seq<char> {
    seq!['"'] + json_escape(s) + seq!['"']
}

/// What stands before the text field's value in an encoded record.
pub open spec fn record_prefix() -> Seq<char> {
    seq!['{', '"', 't', 'e', 'x', 't', '"', ':']
}

/// What closes an encoded record.
pub open spec fn record_suffix() -> Seq<char> {
    seq!['}']
}

/// The payload of a record: a JSON object whose only member is `text`,
/// written without whitespace.
pub open spec fn encoded(e: Event) -> Seq<char> {
    record_prefix() + json_string_literal(e.text@) + record_suffix()
}

/// Relies on serde_json::to_string applied to a string slice: it writes the
/// characters as one JSON string literal into a byte buffer, which cannot
/// fail.
#[verifier::external_body]
fn quote_json(s: &str) -> (r: Result<String, serde_json::Error>)
    ensures
        r is Ok,
        r matches Ok(lit) ==> lit@ == json_string_literal(s@),
{
    serde_json::to_string(s)
}

impl Event {
    pub fn new(text: String) -> (r: Event)
        ensures
            r.text@ == text@,
    {
        Event { text }
    }
}

/// Serialises a record to its JSON payload.
pub fn encode(event: &Event) -> (r: String)
    ensures
        r@ == encoded(*event),
{
    let lit = quote_json(event.text.as_str()).unwrap();
    let mut body = String::from_str("{\"text\":");
    body.append(lit.as_str());
    body.append("}");
    proof {
        reveal_strlit("{\"text\":");
        reveal_strlit("}");
        assert("{\"text\":"@ =~= record_prefix());
        assert("}"@ =~= record_suffix());
    }
    body
}

} // verus!
