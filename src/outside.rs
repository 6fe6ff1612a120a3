//! What the library takes from outside crates, each item with the contract
//! that the rest of the library relies on.

use vstd::prelude::*;
use crate::text::string_views;

verus! {

/// `std::io::Error`, carried in `PublishError::IoError`.
#[verifier::external_type_specification]
#[verifier::external_body]
pub struct ExIoError(std::io::Error);

/// `serde_json::Error`, carried in `PublishError::TagError`.
#[verifier::external_type_specification]
#[verifier::external_body]
pub struct ExJsonError(serde_json::Error);

/// `tera::Error`, carried in `PublishError::TeraError`.
#[verifier::external_type_specification]
#[verifier::external_body]
pub struct ExTeraError(tera::Error);

/// The instant that an RFC 2822 date-time text names, in whole seconds since
/// the Unix epoch; `None` where the text is not one.
pub uninterp spec fn rfc2822_seconds(s: Seq<char>) -> Option<i64>;

/// Relies on `chrono::DateTime::parse_from_rfc2822` and
/// `DateTime::timestamp`: the result depends on the text alone.
#[verifier::external_body]
pub(crate) fn parse_rfc2822(s: &str) -> (r: Option<i64>)
    ensures
        r == rfc2822_seconds(s@),
{
    match chrono::DateTime::parse_from_rfc2822(s) {
        Ok(d) => Some(d.timestamp()),
        Err(_) => None,
    }
}

/// The HTML that pulldown-cmark makes of a markdown text with its default
/// options.
pub uninterp spec fn markdown_html(md: Seq<char>) -> Seq<char>;

/// Relies on `pulldown_cmark::Parser::new` and `pulldown_cmark::html::push_html`
/// into an empty string: the result depends on the text alone.
#[verifier::external_body]
pub(crate) fn render_markdown(md: &str) -> (r: String)
    ensures
        r@ == markdown_html(md@),
{
    let mut out = String::new();
    pulldown_cmark::html::push_html(&mut out, pulldown_cmark::Parser::new(md));
    out
}

/// The lower-case hexadecimal digit of `d`.
pub open spec fn hex_digit(d: nat) -> char {
    if d < 10 {
        crate::text::digit(d)
    } else if d == 10 {
        'a'
    } else if d == 11 {
        'b'
    } else if d == 12 {
        'c'
    } else if d == 13 {
        'd'
    } else if d == 14 {
        'e'
    } else {
        'f'
    }
}

/// How a JSON string writes one character: quote, backslash and control
/// characters escaped, everything else as it is.
pub open spec fn json_char(c: char) -> Seq<char> {
    if c == '"' {
        seq!['\\', '"']
    } else if c == '\\' {
        seq!['\\', '\\']
    } else if c == '\u{08}' {
        seq!['\\', 'b']
    } else if c == '\t' {
        seq!['\\', 't']
    } else if c == '\n' {
        seq!['\\', 'n']
    } else if c == '\u{0C}' {
        seq!['\\', 'f']
    } else if c == '\r' {
        seq!['\\', 'r']
    } else if !(c >= ' ') {
        seq!['\\', 'u', '0', '0', hex_digit(((c as u32) / 16) as nat), hex_digit(((c as u32) % 16) as nat)]
    } else {
        seq![c]
    }
}

/// The escaped characters of `s`.
pub open spec fn json_escaped(s: Seq<char>) -> Seq<char>
    decreases s.len(),
{
    if s.len() == 0 {
        Seq::empty()
    } else {
        json_escaped(s.drop_last()) + json_char(s.last())
    }
}

/// `s` as a JSON string.
pub open spec fn json_string(s: Seq<char>) -> Seq<char> {
    seq!['"'] + json_escaped(s) + seq!['"']
}

/// The JSON strings of `items`, separated by commas.
pub open spec fn json_items(items: Seq<Seq<char>>) -> Seq<char>
    decreases items.len(),
{
    if items.len() == 0 {
        Seq::empty()
    } else if items.len() == 1 {
        json_string(items[0])
    } else {
        json_items(items.drop_last()) + seq![','] + json_string(items.last())
    }
}

/// `items` as a compact JSON array of strings.
pub open spec fn json_array(items: Seq<Seq<char>>) -> Seq<char> {
    seq!['['] + json_items(items) + seq![']']
}

/// Relies on `serde_json::Value::from` on a vector of strings and the
/// compact `Display` of the array it makes: `[`, the strings in order, each
/// quoted with `"`, `\` and control characters escaped, separated by `,`, then `]`.
#[verifier::external_body]
pub(crate) fn tags_json(tags: &Vec<String>) -> (r: String)
    ensures
        r@ == json_array(string_views(tags@)),
{
    serde_json::Value::from(tags.clone()).to_string()
}

/// The last second of the year 9999 UTC, the last instant that RFC 2822
/// can write.
pub const LAST_RFC2822_SECOND: i64 = 253_402_300_799;

/// Relies on `chrono::DateTime::from_timestamp` and `DateTime::to_rfc2822`
/// on UTC: for an instant from 1970 through the year 9999 it writes one line
/// such as `Tue, 1 Jul 2003 08:52:37 +0000`, which `parse_from_rfc2822` reads
/// back as the same instant.
#[verifier::external_body]
pub(crate) fn rfc2822_text(secs: i64) -> (r: String)
    requires
        0 <= secs <= LAST_RFC2822_SECOND,
    ensures
        rfc2822_seconds(r@) == Some(secs),
        !r@.contains('\n'),
{
    match chrono::DateTime::from_timestamp(secs, 0) {
        Some(d) => d.to_rfc2822(),
        None => String::new(),
    }
}

} // verus!
