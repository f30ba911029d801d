//! Wrappers around outside encoders and identity sources whose results the
//! library's contracts speak of.

use base64::Engine;
use vstd::prelude::*;

verus! {

/// What base64's standard-alphabet decode yields on a given text, if it
/// decodes at all; the result depends on the characters alone.
pub uninterp spec fn base64_decode_of(s: Seq<char>) -> Option<Seq<u8>>;

/// Relies on base64's `STANDARD` engine: decoding is a pure function of the
/// text; it either yields bytes or fails.
#[verifier::external_body]
pub fn base64_decode(s: &str) -> (r: Option<Vec<u8>>)
    ensures
        match r {
            Some(b) => base64_decode_of(s@) == Some(b@),
            None => base64_decode_of(s@) is None,
        },
{
    base64::engine::general_purpose::STANDARD.decode(s).ok()
}

/// Relies on uuid's `Uuid::new_v4` and its hyphenated form: a fresh random
/// identifier, always 36 characters. Being random, nothing else holds of it.
#[verifier::external_body]
pub fn generate_proxy_id() -> (r: String)
    ensures
        r@.len() == 36,
{
    uuid::Uuid::new_v4().hyphenated().to_string()
}

/// Whether tonic accepts the text as a channel endpoint; acceptance is a
/// function of the characters alone.
pub uninterp spec fn valid_uri(s: Seq<char>) -> bool;

/// Relies on tonic's `Endpoint::from_shared`, which accepts exactly the
/// texts that parse as URIs (and `unix:` paths).
#[verifier::external_body]
pub fn uri_is_valid(s: &str) -> (r: bool)
    ensures
        r == valid_uri(s@),
{
    tonic::transport::Endpoint::from_shared(String::from(s)).is_ok()
}

} // verus!
