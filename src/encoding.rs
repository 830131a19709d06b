//! Encodings for embedding text in a page: base64 for the graph document,
//! HTML escaping for daemon output.
use vstd::prelude::*;
use base64::engine::general_purpose;
use base64::Engine;

verus! {

/// The standard (padded) base64 encoding of the UTF-8 bytes of `s`.
pub uninterp spec fn base64_text(s: Seq<char>) -> Seq<char>;

/// Relies on `base64::Engine::encode` with the standard engine: the padded
/// base64 text of the string's UTF-8 bytes.
#[verifier::external_body]
fn base64_encode(s: &str) -> (r: String)
    ensures
        r@ == base64_text(s@),
{
    general_purpose::STANDARD.encode(s)
}

/// Relies on `base64::Engine::decode` with the standard engine, which accepts
/// exactly the canonical padded encodings and inverts them, and on
/// `String::from_utf8`: the text whose encoding `s` is, if any.
#[verifier::external_body]
fn base64_decode(s: &str) -> (r: Option<String>)
    ensures
        r is None ==> forall|t: Seq<char>| #[trigger] base64_text(t) != s@,
        r matches Some(x) ==> forall|t: Seq<char>| #[trigger] base64_text(t) == s@ ==> x@ == t,
{
    match general_purpose::STANDARD.decode(s) {
        Ok(bytes) => String::from_utf8(bytes).ok(),
        Err(_) => None,
    }
}

/// `s` in base64, for embedding in a page.
pub fn encode_document(s: &str) -> (r: String)
    ensures
        r@ == base64_text(s@),
{
    base64_encode(s)
}

/// The text that `s` encodes: decoding what `encode_document` produced gives
/// back the text that was encoded.
pub fn decode_document(s: &str) -> (r: Option<String>)
    ensures
        forall|t: Seq<char>| #[trigger] base64_text(t) == s@ ==> (r matches Some(x) && x@ == t),
{
    let r = base64_decode(s);
    assert forall|t: Seq<char>| #[trigger] base64_text(t) == s@ implies (r matches Some(x) && x@ == t) by {
        if r is None {
            assert(base64_text(t) != s@);
        }
    }
    r
}

/// How a character stands in HTML text.
pub open spec fn html_char(c: char) -> Seq<char> {
    if c == '&' {
        "&amp;"@
    } else if c == '<' {
        "&lt;"@
    } else if c == '>' {
        "&gt;"@
    } else {
        seq![c]
    }
}

/// `s` as HTML text: `&`, `<` and `>` escaped.
pub open spec fn html_text(s: Seq<char>) -> Seq<char>
    decreases s.len(),
{
    if s.len() == 0 {
        Seq::empty()
    } else {
        html_text(s.drop_last()) + html_char(s.last())
    }
}

/// Relies on `html_escape::encode_text`, which replaces `&`, `<` and `>` by
/// their entities and keeps every other character.
#[verifier::external_body]
fn html_encode_text(s: &str) -> (r: String)
    ensures
        r@ == html_text(s@),
{
    html_escape::encode_text(s).into_owned()
}

/// Daemon output as a preformatted HTML block.
pub fn format_result_block(result: &str) -> (r: String)
    ensures
        r@ == "<pre>"@ + html_text(result@) + "</pre>"@,
{
    let mut out: Vec<char> = Vec::new();
    crate::text::push_str(&mut out, "<pre>");
    let escaped = html_encode_text(result);
    crate::text::push_str(&mut out, escaped.as_str());
    crate::text::push_str(&mut out, "</pre>");
    crate::text::text_from_chars(out.as_slice())
}

} // verus!
