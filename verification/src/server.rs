//! What the tool server computes itself: the text of a tool error and
//! the Base64 payload of a screenshot.
use vstd::prelude::*;
use crate::error::AppError;

verus! {

/// The text a tool reports for an error: its summary (the full chain of
/// causes goes to the log).
pub fn report_tool_error(error: &AppError) -> (text: String)
    ensures
        text@ == error.summary@,
{
    error.to_string()
}

/// The character of the standard Base64 alphabet (RFC 4648) for a
/// six-bit value.
pub open spec fn base64_char(v: int) -> char {
    if v < 26 {
        ((v + 65) as u32) as char
    } else if v < 52 {
        ((v - 26 + 97) as u32) as char
    } else if v < 62 {
        ((v - 52 + 48) as u32) as char
    } else if v == 62 {
        '+'
    } else {
        '/'
    }
}

/// Standard Base64 with `=` padding (RFC 4648, section 4): every three
/// bytes become four characters; a final one or two bytes become four
/// characters ending in `==` or `=`.
pub open spec fn base64_encode(data: Seq<u8>) -> Seq<char>
    decreases data.len(),
{
    if data.len() == 0 {
        Seq::<char>::empty()
    } else if data.len() == 1 {
        let b0 = data[0] as int;
        seq![base64_char(b0 / 4), base64_char((b0 % 4) * 16), '=', '=']
    } else if data.len() == 2 {
        let b0 = data[0] as int;
        let b1 = data[1] as int;
        seq![base64_char(b0 / 4), base64_char((b0 % 4) * 16 + b1 / 16), base64_char((b1 % 16) * 4), '=']
    } else {
        let b0 = data[0] as int;
        let b1 = data[1] as int;
        let b2 = data[2] as int;
        seq![
            base64_char(b0 / 4),
            base64_char((b0 % 4) * 16 + b1 / 16),
            base64_char((b1 % 16) * 4 + b2 / 64),
            base64_char(b2 % 64),
        ] + base64_encode(data.skip(3))
    }
}

/// `base64_turbo::STANDARD.encode`: the standard RFC 4648 alphabet with
/// padding, as the crate documents it.
#[verifier::external_body]
fn base64_standard_encode(data: &[u8]) -> (text: String)
    ensures
        text@ == base64_encode(data@),
{
    base64_turbo::STANDARD.encode(data)
}

/// The Base64 text that carries a PNG screenshot to the client.
pub fn screenshot_base64(png: &[u8]) -> (text: String)
    ensures
        text@ == base64_encode(png@),
{
    base64_standard_encode(png)
}

/// Base64 text is four characters for every three bytes begun:
/// `4 * ceil(n / 3)` characters for `n` bytes.
pub proof fn lemma_base64_length(data: Seq<u8>)
    ensures
        base64_encode(data).len() == 4 * ((data.len() + 2) / 3),
    decreases data.len(),
{
    if data.len() > 2 {
        lemma_base64_length(data.skip(3));
    }
}

} // verus!
