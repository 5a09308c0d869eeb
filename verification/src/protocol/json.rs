//! JSON text, as the status response and the login disconnect carry it.
//!
//! Documents are compact: no white space anywhere, members in the order in
//! which they are added.

use vstd::prelude::*;

use crate::protocol::types;


verus! {

/// A character inside a JSON string.
pub open spec fn json_char(c: char) -> Seq<char> {
    if c == '"' {
        seq!['\\', '"']
    } else if c == '\\' {
        seq!['\\', '\\']
    } else if c as u32 == 0x08 {
        seq!['\\', 'b']
    } else if c as u32 == 0x09 {
        seq!['\\', 't']
    } else if c as u32 == 0x0A {
        seq!['\\', 'n']
    } else if c as u32 == 0x0C {
        seq!['\\', 'f']
    } else if c as u32 == 0x0D {
        seq!['\\', 'r']
    } else if (c as u32) < 0x20 {
        seq![
            '\\',
            'u',
            '0',
            '0',
            types::hex_digit((c as u32 / 16) as u128),
            types::hex_digit((c as u32 % 16) as u128),
        ]
    } else {
        seq![c]
    }
}

/// The characters of a JSON string between its quotes.
pub open spec fn json_chars(text: Seq<char>) -> Seq<char>
    decreases text.len(),
{
    if text.len() == 0 {
        Seq::empty()
    } else {
        json_chars(text.drop_last()) + json_char(text.last())
    }
}

/// A JSON string.
pub open spec fn json_string(text: Seq<char>) -> Seq<char> {
    seq!['"'] + json_chars(text) + seq!['"']
}

/// The decimal digits of a number that is not negative.
pub open spec fn digits(n: nat) -> Seq<char>
    decreases n,
{
    let last = ('0' as u32 + n % 10) as char;
    if n < 10 {
        seq![last]
    } else {
        digits(n / 10).push(last)
    }
}

/// A whole number in decimal.
pub open spec fn decimal(n: int) -> Seq<char> {
    if n < 0 {
        seq!['-'] + digits((-n) as nat)
    } else {
        digits(n as nat)
    }
}

/// A JSON boolean.
pub open spec fn json_bool(value: bool) -> Seq<char> {
    if value {
        "true"@
    } else {
        "false"@
    }
}

/// The members or elements of a document, with a comma before all but the first.
pub open spec fn with_member(sofar: Seq<char>, member: Seq<char>) -> Seq<char> {
    if sofar.len() == 0 {
        member
    } else {
        sofar + ","@ + member
    }
}

/// Calls `serde_json::to_string` on a string, which puts quotes around it,
/// escapes quotes, backslashes and control characters, and keeps every other
/// character as it is.
#[verifier::external_body]
pub(crate) fn quote(text: &str) -> (json: String)
    ensures
        json@ == json_string(text@),
{
    serde_json::to_string(text).unwrap_or_default()
}

/// Calls `serde_json::to_string` on a number, which writes it in decimal.
#[verifier::external_body]
pub(crate) fn number(value: i128) -> (json: String)
    ensures
        json@ == decimal(value as int),
{
    serde_json::to_string(&value).unwrap_or_default()
}

/// Adds one member or element, with a comma before it where it is not the
/// first.
pub(crate) fn add_member(out: &mut String, member: &str)
    ensures
        final(out)@ == with_member(old(out)@, member@),
{
    if out.as_str().unicode_len() > 0 {
        out.append(",");
    }
    out.append(member);
}

/// Adds a member whose key, with its quotes and colon, is `key`.
pub(crate) fn add_field(out: &mut String, key: &str, value: &str)
    ensures
        final(out)@ == with_member(old(out)@, key@ + value@),
{
    let mut member: String = String::new();
    member.append(key);
    member.append(value);
    assert(member@ =~= key@ + value@);
    add_member(out, member.as_str());
}

/// `body` between `open` and `close`.
pub(crate) fn enclose(open: &str, body: &str, close: &str) -> (out: String)
    ensures
        out@ == open@ + body@ + close@,
{
    let mut out: String = String::new();
    out.append(open);
    out.append(body);
    out.append(close);
    assert(out@ =~= open@ + body@ + close@);
    out
}

pub(crate) fn boolean(value: bool) -> (json: &'static str)
    ensures
        json@ == json_bool(value),
{
    if value {
        "true"
    } else {
        "false"
    }
}

} // verus!
