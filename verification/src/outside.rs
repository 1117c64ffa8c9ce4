//! Trusted declarations over the outside crates the library computes
//! with: content digests, the clock, random identifiers, base64 and PNG
//! encoding. Each wrapper's contract states only what the crate's own
//! source or documentation shows.
use vstd::prelude::*;

use base64::Engine;
use chrono::Datelike;
use chrono::Timelike;
use image::ImageEncoder;
use sha2::Digest;

verus! {

/// The SHA-256 digest of a byte string: a function of the bytes alone.
pub uninterp spec fn sha256_of(s: Seq<u8>) -> Seq<u8>;

/// Relies on sha2::Sha256::digest: the digest of the input, a function
/// of the input bytes alone, 32 bytes long.
#[verifier::external_body]
pub fn sha256(bytes: &[u8]) -> (r: Vec<u8>)
    ensures
        r@ == sha256_of(bytes@),
        r@.len() == 32,
{
    sha2::Sha256::digest(bytes).to_vec()
}

/// Relies on chrono::Utc::now and DateTime::timestamp_millis: the clock
/// decides the value, so nothing is promised of it.
#[verifier::external_body]
pub fn now_millis() -> (r: i64) {
    chrono::Utc::now().timestamp_millis()
}

/// Relies on chrono::Utc::now and the Datelike/Timelike accessors year,
/// month, day, hour, minute and second: the current UTC calendar fields.
/// The clock decides the instant; only the accessors' documented ranges
/// are promised (month 1 to 12, day 1 to 31, hour below 24, minute and
/// second below 60).
#[verifier::external_body]
pub fn now_utc_fields() -> (r: (i32, u32, u32, u32, u32, u32))
    ensures
        1 <= r.1 <= 12,
        1 <= r.2 <= 31,
        r.3 < 24,
        r.4 < 60,
        r.5 < 60,
{
    let t = chrono::Utc::now();
    (t.year(), t.month(), t.day(), t.hour(), t.minute(), t.second())
}

/// Relies on uuid::Uuid::new_v4 and its Display form: a fresh random
/// identifier; its hyphenated text is 36 ASCII bytes, but which ones is
/// random, so only the length is promised.
#[verifier::external_body]
pub fn uuid_v4() -> (r: Vec<u8>)
    ensures
        r@.len() == 36,
{
    uuid::Uuid::new_v4().to_string().into_bytes()
}

/// What base64's standard-alphabet decode yields for given text, if the
/// text decodes: a function of the input bytes alone.
pub uninterp spec fn b64_decoded(s: Seq<u8>) -> Option<Seq<u8>>;

/// Relies on the STANDARD engine's Engine::decode of the base64 crate:
/// whether the input decodes, and to what, depends on the input alone.
#[verifier::external_body]
pub fn b64_decode(b: &[u8]) -> (r: Option<Vec<u8>>)
    ensures
        (r is Some) <==> (b64_decoded(b@) is Some),
        r is Some ==> r.unwrap()@ == b64_decoded(b@).unwrap(),
{
    match base64::engine::general_purpose::STANDARD.decode(b) {
        Ok(v) => Some(v),
        Err(_) => None,
    }
}

/// The PNG encoding of an RGBA8 pixel buffer with the given dimensions:
/// a function of the pixels and dimensions alone.
pub uninterp spec fn png_of(rgba: Seq<u8>, width: u32, height: u32) -> Seq<u8>;

/// Relies on image's PngEncoder and ImageEncoder::write_image for RGBA8
/// data: encoding into a memory buffer depends on the pixels and
/// dimensions alone. The encoder asserts that the buffer length matches
/// the dimensions, so that is required here.
#[verifier::external_body]
pub fn encode_png(rgba: &[u8], width: u32, height: u32) -> (r: Option<Vec<u8>>)
    requires
        rgba@.len() == 4 * (width as int) * (height as int),
    ensures
        r is Some ==> r.unwrap()@ == png_of(rgba@, width, height),
{
    let mut out: Vec<u8> = Vec::new();
    let enc = image::codecs::png::PngEncoder::new(&mut out);
    match enc.write_image(rgba, width, height, image::ExtendedColorType::Rgba8) {
        Ok(()) => Some(out),
        Err(_) => None,
    }
}

} // verus!
