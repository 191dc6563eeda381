//! Character classes of the address grammar, one predicate per terminal class.
use vstd::prelude::*;

verus! {

/// `WSP`: space or horizontal tab.
pub open spec fn wsp_char(c: char) -> bool {
    c == ' ' || c == '\t'
}

/// Printable US-ASCII, `0x21..=0x7E`.
pub open spec fn printable_ascii(c: char) -> bool {
    0x21 <= (c as u32) <= 0x7e
}

/// The RFC 6532 widening: every code point from `0x80` on.
pub open spec fn non_ascii(c: char) -> bool {
    (c as u32) >= 0x80
}

/// `obs-NO-WS-CTL`: the legacy control characters.
pub open spec fn obs_ctl(c: char) -> bool {
    let v = c as u32;
    (0x01 <= v <= 0x08) || v == 0x0b || v == 0x0c || (0x0e <= v <= 0x1f) || v == 0x7f
}

/// What may follow a backslash in a quoted pair.
pub open spec fn quoted_pair_char(c: char) -> bool {
    printable_ascii(c) || wsp_char(c) || c == '\0' || c == '\r' || c == '\n' || obs_ctl(c)
}

/// Text allowed in a quoted string, a comment or a domain literal, before
/// the construct's own delimiters are taken out.
pub open spec fn text_char(c: char) -> bool {
    printable_ascii(c) || non_ascii(c) || obs_ctl(c)
}

/// `ctext`: comment text.
pub open spec fn ctext_char(c: char) -> bool {
    c != '(' && c != ')' && c != '\\' && text_char(c)
}

/// `qtext`: quoted-string text.
pub open spec fn qtext_char(c: char) -> bool {
    c != '"' && c != '\\' && text_char(c)
}

/// `dtext`: domain-literal text.
pub open spec fn dtext_char(c: char) -> bool {
    c != '[' && c != ']' && c != '\\' && text_char(c)
}

/// ASCII letters and digits.
pub open spec fn ascii_alphanumeric(c: char) -> bool {
    ('0' <= c <= '9') || ('a' <= c <= 'z') || ('A' <= c <= 'Z')
}

/// The token-safe symbols of `atext`.
pub open spec fn atext_symbol(c: char) -> bool {
    c == '!' || c == '#' || c == '$' || c == '%' || c == '&' || c == '\'' || c == '*' || c
        == '+' || c == '-' || c == '/' || c == '=' || c == '?' || c == '^' || c == '_' || c
        == '`' || c == '{' || c == '|' || c == '}' || c == '~'
}

/// `atext`: what an unquoted token is made of.
pub open spec fn atext_char(c: char) -> bool {
    ascii_alphanumeric(c) || non_ascii(c) || atext_symbol(c)
}

/// `atext` without `-`, for the first and last character of a label.
pub open spec fn atext_no_dash_char(c: char) -> bool {
    c != '-' && atext_char(c)
}

/// Whether `ch` is `WSP`.
pub fn is_wsp(ch: char) -> (r: bool)
    ensures
        r == wsp_char(ch),
{
    ch == ' ' || ch == '\t'
}

/// Whether `ch` is printable US-ASCII.
pub fn is_printable_us_ascii(ch: char) -> (r: bool)
    ensures
        r == printable_ascii(ch),
{
    let v = ch as u32;
    0x21 <= v && v <= 0x7e
}

/// Whether `ch` lies beyond ASCII.
pub fn is_utf8_non_ascii(ch: char) -> (r: bool)
    ensures
        r == non_ascii(ch),
{
    (ch as u32) >= 0x80
}

/// Whether `ch` is an `obs-NO-WS-CTL` control character.
pub fn is_obs_no_ws_ctl(ch: char) -> (r: bool)
    ensures
        r == obs_ctl(ch),
{
    let v = ch as u32;
    (0x01 <= v && v <= 0x08) || v == 0x0b || v == 0x0c || (0x0e <= v && v <= 0x1f) || v == 0x7f
}

/// Whether `ch` may follow a backslash in a quoted pair.
pub fn is_quoted_pair_char(ch: char) -> (r: bool)
    ensures
        r == quoted_pair_char(ch),
{
    is_printable_us_ascii(ch) || is_wsp(ch) || ch == '\0' || ch == '\r' || ch == '\n'
        || is_obs_no_ws_ctl(ch)
}

/// Whether `ch` is text of a quoted string, comment or domain literal.
fn is_text_char(ch: char) -> (r: bool)
    ensures
        r == text_char(ch),
{
    is_printable_us_ascii(ch) || is_utf8_non_ascii(ch) || is_obs_no_ws_ctl(ch)
}

/// Whether `ch` is `ctext`.
pub fn is_ctext_char(ch: char) -> (r: bool)
    ensures
        r == ctext_char(ch),
{
    ch != '(' && ch != ')' && ch != '\\' && is_text_char(ch)
}

/// Whether `ch` is `qtext`.
pub fn is_qtext_char(ch: char) -> (r: bool)
    ensures
        r == qtext_char(ch),
{
    ch != '"' && ch != '\\' && is_text_char(ch)
}

/// Whether `ch` is `dtext`.
pub fn is_dtext_char(ch: char) -> (r: bool)
    ensures
        r == dtext_char(ch),
{
    ch != '[' && ch != ']' && ch != '\\' && is_text_char(ch)
}

/// Whether `ch` is `atext`.
pub fn is_atext(ch: char) -> (r: bool)
    ensures
        r == atext_char(ch),
{
    ('0' <= ch && ch <= '9') || ('a' <= ch && ch <= 'z') || ('A' <= ch && ch <= 'Z')
        || is_utf8_non_ascii(ch) || ch == '!' || ch == '#' || ch == '$' || ch == '%' || ch
        == '&' || ch == '\'' || ch == '*' || ch == '+' || ch == '-' || ch == '/' || ch == '='
        || ch == '?' || ch == '^' || ch == '_' || ch == '`' || ch == '{' || ch == '|' || ch
        == '}' || ch == '~'
}

/// Whether `ch` is `atext` other than `-`.
pub fn is_atext_no_dash(ch: char) -> (r: bool)
    ensures
        r == atext_no_dash_char(ch),
{
    ch != '-' && is_atext(ch)
}

} // verus!
