//! Client-side pieces of the remote-service interface that compute
//! rather than communicate: credential encoding and response
//! decompression. The HTTP calls themselves live in the surrounding
//! application.

use vstd::prelude::*;
use vstd::string::StringExecFns;
use crate::timeline::BatchError;

verus! {

/// What base64's URL-safe unpadded engine encodes a string's UTF-8
/// bytes to.
pub uninterp spec fn b64_url_nopad_of(s: Seq<char>) -> Seq<char>;

/// Relies on base64's `GeneralPurpose` engine with the `URL_SAFE`
/// alphabet and no padding: `encode` is a pure function of the input
/// bytes.
#[verifier::external_body]
fn b64_encode_url_nopad(s: &str) -> (r: String)
    ensures
        r@ == b64_url_nopad_of(s@),
{
    let engine = base64::engine::GeneralPurpose::new(
        &base64::alphabet::URL_SAFE,
        base64::engine::general_purpose::NO_PAD,
    );
    base64::Engine::encode(&engine, s)
}

/// What flate2's gzip decoder yields for a byte stream: the
/// decompressed bytes, or nothing when the stream is not valid gzip.
pub uninterp spec fn gunzip_of(b: Seq<u8>) -> Option<Seq<u8>>;

/// Relies on flate2's `GzDecoder` reading from an in-memory slice via
/// `Read::read_to_end`: the outcome is a pure function of the input
/// bytes; a decoding error is reported as `None`.
#[verifier::external_body]
fn gunzip(data: &[u8]) -> (r: Option<Vec<u8>>)
    ensures
        r is Some <==> gunzip_of(data@) is Some,
        r is Some ==> r->0@ == gunzip_of(data@)->0,
{
    let mut decoder = flate2::read::GzDecoder::new(data);
    let mut out = Vec::new();
    match std::io::Read::read_to_end(&mut decoder, &mut out) {
        Ok(_) => Some(out),
        Err(_) => None,
    }
}

/// Decompresses one gzip response body; fails exactly on byte streams
/// that are not valid gzip.
pub fn decompress_gzip(data: &Vec<u8>) -> (r: Result<Vec<u8>, BatchError>)
    ensures
        r is Ok <==> gunzip_of(data@) is Some,
        r is Ok ==> r->Ok_0@ == gunzip_of(data@)->0,
        r is Err ==> r->Err_0 == BatchError::CorruptGzip,
{
    match gunzip(data.as_slice()) {
        Some(v) => Ok(v),
        None => Err(BatchError::CorruptGzip),
    }
}

/// Client state for the remote service: the credentials requests are
/// signed with.
pub struct MissionaryApi {
    pub username: String,
    pub password: String,
}

impl MissionaryApi {
    /// Creates a new instance of the API client.
    pub fn new(username: String, password: String) -> (r: Self)
        ensures
            r.username == username,
            r.password == password,
    {
        MissionaryApi { username, password }
    }

    /// Builds the Base64-encoded basic-authorization header for this
    /// client's credentials.
    pub fn get_auth_header(&self) -> (r: String)
        ensures
            r@ == "Basic "@ + b64_url_nopad_of(self.username@ + ":"@ + self.password@),
    {
        let mut credentials = self.username.clone();
        credentials.append(":");
        credentials.append(self.password.as_str());
        proof {
            assert(credentials@ =~= self.username@ + ":"@ + self.password@);
        }
        let encoded = b64_encode_url_nopad(credentials.as_str());
        let mut header = String::from_str("Basic ");
        header.append(encoded.as_str());
        header
    }
}

} // verus!
