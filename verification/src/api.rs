//! The local print API: request authorization, the reply to a print job,
//! and the decoding of the Base64 PDF a job carries.

use vstd::prelude::*;

use crate::text::{
    chars_of, concat2, decimal, push_decimal, push_str, str_eq, string_of, trim, trim_chars,
};

verus! {

/// A rejection by the Base64 decoder, field for field as the `base64`
/// crate reports it.
#[derive(Clone, Copy, Debug, PartialEq, Eq)]
pub enum Base64Error {
    /// A byte outside the alphabet: its offset and value.
    InvalidByte(usize, u8),
    /// The number of symbols cannot end a quad.
    InvalidLength(usize),
    /// The last symbol carries bits that would be dropped: offset and value.
    InvalidLastSymbol(usize, u8),
    /// Padding absent or not canonical.
    InvalidPadding,
}

/// What the `base64` crate's `STANDARD` engine (standard alphabet, padding
/// required, canonical trailing bits) decodes from the UTF-8 bytes of a
/// text, or the error it reports.
pub uninterp spec fn base64_standard_decoding(input: Seq<char>) -> Result<Seq<u8>, Base64Error>;

/// `base64::Engine::decode` with `base64::engine::general_purpose::STANDARD`;
/// its `DecodeError` is converted variant for variant. Claims only that the
/// outcome is a function of the text.
#[verifier::external_body]
fn standard_decode(input: &str) -> (r: Result<Vec<u8>, Base64Error>)
    ensures
        match r {
            Ok(v) => base64_standard_decoding(input@) == Ok::<Seq<u8>, Base64Error>(v@),
            Err(e) => base64_standard_decoding(input@) == Err::<Seq<u8>, Base64Error>(e),
        },
{
    match base64::Engine::decode(&base64::engine::general_purpose::STANDARD, input) {
        Ok(v) => Ok(v),
        Err(base64::DecodeError::InvalidByte(i, b)) => Err(Base64Error::InvalidByte(i, b)),
        Err(base64::DecodeError::InvalidLength(n)) => Err(Base64Error::InvalidLength(n)),
        Err(base64::DecodeError::InvalidLastSymbol(i, b)) => Err(Base64Error::InvalidLastSymbol(i, b)),
        Err(base64::DecodeError::InvalidPadding) => Err(Base64Error::InvalidPadding),
    }
}

/// The text the `base64` crate shows for an error (its `Display`).
pub open spec fn base64_error_text(e: Base64Error) -> Seq<char> {
    match e {
        Base64Error::InvalidByte(i, b) => "Invalid symbol "@ + decimal(b as nat) + ", offset "@
            + decimal(i as nat) + "."@,
        Base64Error::InvalidLength(n) => "Invalid input length: "@ + decimal(n as nat),
        Base64Error::InvalidLastSymbol(i, b) => "Invalid last symbol "@ + decimal(b as nat)
            + ", offset "@ + decimal(i as nat) + "."@,
        Base64Error::InvalidPadding => "Invalid padding"@,
    }
}

/// The text of a decoder error, as the `base64` crate writes it.
pub fn base64_error_message(e: Base64Error) -> (r: String)
    ensures
        r@ == base64_error_text(e),
{
    let mut v: Vec<char> = Vec::new();
    match e {
        Base64Error::InvalidByte(i, b) => {
            push_str(&mut v, "Invalid symbol ");
            push_decimal(&mut v, b as u64);
            push_str(&mut v, ", offset ");
            push_decimal(&mut v, i as u64);
            push_str(&mut v, ".");
        },
        Base64Error::InvalidLength(n) => {
            push_str(&mut v, "Invalid input length: ");
            push_decimal(&mut v, n as u64);
        },
        Base64Error::InvalidLastSymbol(i, b) => {
            push_str(&mut v, "Invalid last symbol ");
            push_decimal(&mut v, b as u64);
            push_str(&mut v, ", offset ");
            push_decimal(&mut v, i as u64);
            push_str(&mut v, ".");
        },
        Base64Error::InvalidPadding => {
            push_str(&mut v, "Invalid padding");
        },
    }
    string_of(&v)
}

/// The PDF of a job once its text has been decoded: the bytes, or, for a
/// rejected text, the error shown with the decoder's explanation.
pub fn pdf_from_decoding(decoded: Result<Vec<u8>, Base64Error>) -> (r: Result<Vec<u8>, String>)
    ensures
        decoded matches Ok(v) ==> r == Ok::<Vec<u8>, String>(v),
        decoded matches Err(e) ==> (r matches Err(m) && m@ == "PDF base64 inválido: "@ + base64_error_text(e)),
{
    match decoded {
        Ok(v) => Ok(v),
        Err(e) => {
            let d = base64_error_message(e);
            Err(concat2("PDF base64 inválido: ", d.as_str()))
        },
    }
}

/// Decodes the PDF of a print job, sent as standard Base64 (surrounding
/// whitespace is ignored).
pub fn base64_decode(input: &str) -> (r: Result<Vec<u8>, String>)
    ensures
        match base64_standard_decoding(trim(input@)) {
            Ok(v) => r matches Ok(b) && b@ == v,
            Err(e) => r matches Err(m) && m@ == "PDF base64 inválido: "@ + base64_error_text(e),
        },
{
    let trimmed = string_of(&trim_chars(&chars_of(input)));
    pdf_from_decoding(standard_decode(trimmed.as_str()))
}

/// The body of the reply to a print request.
#[derive(Debug, PartialEq, Eq)]
pub struct PrintResponse {
    pub ok: bool,
    pub message: String,
}

/// Whether the `x-pm-token` header (missing counts as empty) carries the
/// token of this run.
pub fn request_authorized(header_token: Option<&str>, api_token: &str) -> (b: bool)
    ensures
        b == (match header_token {
            Some(t) => t@ == api_token@,
            None => ""@ == api_token@,
        }),
{
    match header_token {
        Some(t) => str_eq(t, api_token),
        None => str_eq("", api_token),
    }
}

/// Answers a print request: 401 with `Token inválido.` when the token does
/// not match, without running the job; otherwise runs the job and answers
/// 200 with its outcome.
pub fn handle_print<F: FnOnce() -> Result<String, String>>(
    header_token: Option<&str>,
    api_token: &str,
    job: F,
) -> (r: (u16, PrintResponse))
    requires
        call_requires(job, ()),
    ensures
        !(match header_token {
            Some(t) => t@ == api_token@,
            None => ""@ == api_token@,
        }) ==> r.0 == 401 && !r.1.ok && r.1.message@ == "Token inválido."@,
        (match header_token {
            Some(t) => t@ == api_token@,
            None => ""@ == api_token@,
        }) ==> r.0 == 200 && exists|res: Result<String, String>|
            call_ensures(job, (), res) && match res {
                Ok(m) => r.1.ok && r.1.message@ == m@,
                Err(e) => !r.1.ok && r.1.message@ == e@,
            },
{
    if !request_authorized(header_token, api_token) {
        return (401, PrintResponse { ok: false, message: string_of(&chars_of("Token inválido.")) });
    }
    let res = job();
    match res {
        Ok(m) => (200, PrintResponse { ok: true, message: m }),
        Err(e) => (200, PrintResponse { ok: false, message: e }),
    }
}

} // verus!
