//! The JSON answer that describes the thumbnail image of a document: its
//! format, its bytes in base64 (also as a data URI) and its size.

use base64::Engine;
use vstd::prelude::*;
use crate::encoding::chars_of;
use crate::json::{decimal, push_decimal};
use crate::text::chars_eq;

verus! {

/// The character of the standard base64 alphabet (`A`-`Z`, `a`-`z`,
/// `0`-`9`, `+`, `/`) for the 6-bit value `v`.
pub open spec fn b64_char(v: int) -> char {
    if v < 26 {
        (65 + v) as char
    } else if v < 52 {
        (97 + v - 26) as char
    } else if v < 62 {
        (48 + v - 52) as char
    } else if v == 62 {
        '+'
    } else {
        '/'
    }
}

/// `data` in padded base64 with the standard alphabet (RFC 4648): each
/// group of three bytes as four characters of six bits each, a last group
/// of one or two bytes padded with `=` to four characters.
pub open spec fn base64_standard(d: Seq<u8>) -> Seq<char>
    decreases d.len(),
{
    if d.len() == 0 {
        Seq::empty()
    } else {
        let a = d[0] as int;
        let b = if d.len() > 1 { d[1] as int } else { 0 };
        let c = if d.len() > 2 { d[2] as int } else { 0 };
        if d.len() == 1 {
            seq![b64_char(a / 4), b64_char((a % 4) * 16), '=', '=']
        } else if d.len() == 2 {
            seq![b64_char(a / 4), b64_char((a % 4) * 16 + b / 16), b64_char((b % 16) * 4), '=']
        } else {
            seq![b64_char(a / 4), b64_char((a % 4) * 16 + b / 16), b64_char((b % 16) * 4 + c / 64), b64_char(c % 64)]
                + base64_standard(d.skip(3))
        }
    }
}

/// The number of characters that the padded base64 encoding of `n` bytes
/// takes.
pub open spec fn base64_len(n: nat) -> nat {
    (n + 2) / 3 * 4
}

/// The padded encoding of `n` bytes takes `base64_len(n)` characters.
pub proof fn lemma_base64_len(d: Seq<u8>)
    ensures
        base64_standard(d).len() == base64_len(d.len()),
    decreases d.len(),
{
    if d.len() > 2 {
        lemma_base64_len(d.skip(3));
    }
}

/// `data` in base64 with the standard alphabet and padding (calls
/// `base64::engine::general_purpose::STANDARD.encode`).
///
/// Trusted: the result is `base64_standard(data)`, the padded standard
/// encoding that this engine is documented to write. The call panics where
/// the length of the encoding does not fit in `usize`; `requires` leaves
/// those inputs out.
#[verifier::external_body]
fn base64_encode(data: &[u8]) -> (r: String)
    requires
        base64_len(data@.len()) <= usize::MAX,
    ensures
        r@ == base64_standard(data@),
{
    base64::engine::general_purpose::STANDARD.encode(data)
}

/// The media type of an image format: PNG, BMP and GIF by name, anything
/// else as plain bytes.
pub open spec fn mime_type(format: Seq<char>) -> Seq<char> {
    if format == "png"@ {
        "image/png"@
    } else if format == "bmp"@ {
        "image/bmp"@
    } else if format == "gif"@ {
        "image/gif"@
    } else {
        "application/octet-stream"@
    }
}

/// Each named image format is announced with its own `image/*` media
/// type (`png`, `bmp` and `gif` as `image/png`, `image/bmp`, `image/gif`);
/// every other format as plain bytes.
pub proof fn lemma_media_types(format: Seq<char>)
    ensures
        format == "png"@ ==> mime_type(format) == "image/png"@,
        format == "bmp"@ ==> mime_type(format) == "image/bmp"@,
        format == "gif"@ ==> mime_type(format) == "image/gif"@,
        format != "png"@ && format != "bmp"@ && format != "gif"@ ==> mime_type(format)
            == "application/octet-stream"@,
{
    reveal_strlit("png");
    reveal_strlit("bmp");
    reveal_strlit("gif");
    assert("bmp"@[0] != "png"@[0]);
    assert("gif"@[0] != "png"@[0]);
    assert("gif"@[0] != "bmp"@[0]);
}

/// `{"format":..,"base64":..,"dataUri":"data:<type>;base64,..","width":..,"height":..}`
/// for an image of format `format` (written as it is), bytes `data` and
/// size `width` x `height`.
pub open spec fn thumbnail_answer(format: Seq<char>, data: Seq<u8>, width: u32, height: u32) -> Seq<char> {
    let b = base64_standard(data);
    "{\"format\":\""@ + format + "\",\"base64\":\""@ + b + "\",\"dataUri\":\"data:"@ + mime_type(format)
        + ";base64,"@ + b + "\",\"width\":"@ + decimal(width as nat) + ",\"height\":"@ + decimal(height as nat)
        + "}"@
}

/// Whether `s` is the string `lit`.
fn is_str(s: &str, lit: &str) -> (r: bool)
    ensures
        r == (s@ == lit@),
{
    let a = chars_of(s);
    let b = chars_of(lit);
    chars_eq(a.as_slice(), b.as_slice())
}

/// The media type of an image format (see `mime_type`).
fn mime_of(format: &str) -> (r: &'static str)
    ensures
        r@ == mime_type(format@),
{
    if is_str(format, "png") {
        "image/png"
    } else if is_str(format, "bmp") {
        "image/bmp"
    } else if is_str(format, "gif") {
        "image/gif"
    } else {
        "application/octet-stream"
    }
}

/// The JSON answer for a thumbnail image of format `format`, bytes `data`
/// and size `width` x `height` (see `thumbnail_answer`).
pub fn thumbnail_json(format: &str, data: &[u8], width: u32, height: u32) -> (r: String)
    requires
        base64_len(data@.len()) <= usize::MAX,
    ensures
        r@ == thumbnail_answer(format@, data@, width, height),
{
    let b = base64_encode(data);
    let mime = mime_of(format);
    let mut out = String::from_str("{\"format\":\"");
    out.append(format);
    out.append("\",\"base64\":\"");
    out.append(b.as_str());
    out.append("\",\"dataUri\":\"data:");
    out.append(mime);
    out.append(";base64,");
    out.append(b.as_str());
    out.append("\",\"width\":");
    push_decimal(&mut out, width as u64);
    out.append(",\"height\":");
    push_decimal(&mut out, height as u64);
    out.append("}");
    out
}

} // verus!
