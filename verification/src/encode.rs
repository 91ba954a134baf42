//! Named results for the two outside encoders the reducer and the body
//! encoder rely on: standard base64 and form-urlencoded percent-encoding.
use vstd::prelude::*;

verus! {

/// The standard base64 encoding (with padding) of the UTF-8 bytes of a
/// character sequence.
pub uninterp spec fn base64_of(s: Seq<char>) -> Seq<char>;

/// Relies on base64's `Engine::encode` with the `STANDARD` engine: the
/// result depends on the input bytes alone.  The buffer-size computation
/// inside cannot overflow for any representable slice.
#[verifier::external_body]
pub(crate) fn base64_encode(s: &str) -> (r: String)
    ensures
        r@ == base64_of(s@),
{
    base64::Engine::encode(&base64::engine::general_purpose::STANDARD, s.as_bytes())
}

/// The `application/x-www-form-urlencoded` serialization of the UTF-8
/// bytes of a character sequence: alphanumerics and `*-._` unchanged,
/// space as `+`, every other byte percent-encoded.
pub uninterp spec fn form_encoded_of(s: Seq<char>) -> Seq<char>;

/// Relies on form_urlencoded's `byte_serialize`, the same per-string
/// encoder its `Serializer::append_pair` applies to each name and value;
/// the result depends on the input bytes alone.
#[verifier::external_body]
pub(crate) fn form_encode(s: &str) -> (r: String)
    ensures
        r@ == form_encoded_of(s@),
{
    form_urlencoded::byte_serialize(s.as_bytes()).collect()
}

} // verus!
