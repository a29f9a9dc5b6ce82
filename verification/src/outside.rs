//! What the library takes on trust from outside: the `base64` crate for the
//! text of keys, `rand` and `crypto` for fresh keys, `serde_json` for JSON
//! strings, and one function of std. Nothing in this file is proved. Each item
//! says which outside function it stands for and what is believed of it; the
//! rest of the library is verified against these statements.

use vstd::prelude::*;

verus! {

/// The text that `base64::encode_config(bytes, base64::URL_SAFE_NO_PAD)` returns.
pub uninterp spec fn url_safe_text(bytes: Seq<u8>) -> Seq<char>;

/// The bytes that `base64::decode_config(text, base64::URL_SAFE_NO_PAD)` returns,
/// or `None` where it returns an error.
pub uninterp spec fn url_safe_bytes(text: Seq<char>) -> Option<Seq<u8>>;

/// The symbols of the URL-safe base64 alphabet: letters, digits, `-` and `_`.
pub open spec fn is_url_safe_symbol(c: char) -> bool {
    ||| 'A' <= c <= 'Z'
    ||| 'a' <= c <= 'z'
    ||| '0' <= c <= '9'
    ||| c == '-'
    ||| c == '_'
}

/// The largest number of bytes whose base64 text has a length that fits in `usize`.
pub open spec fn max_encodable_len() -> int {
    usize::MAX / 4 * 3
}

/// The largest number of characters a text may have for the decoder to take it:
/// the decoder adds up to 7 to the text's length in bytes, and a character
/// takes at most 4 bytes.
pub open spec fn max_decodable_len() -> int {
    (usize::MAX - 7) / 4
}

/// Calls `base64::encode_config` with `base64::URL_SAFE_NO_PAD`.
///
/// Trusted: the result is the crate's encoding of `bytes`; it is made of
/// symbols of the URL-safe alphabet only, without padding; and the crate's
/// decoder returns `bytes` for it. The crate panics where the length of the
/// text would not fit in `usize`, which the precondition excludes.
#[verifier::external_body]
pub(crate) fn encode_url_safe(bytes: &[u8]) -> (text: String)
    requires
        bytes@.len() <= max_encodable_len(),
    ensures
        text@ == url_safe_text(bytes@),
        forall|i: int| 0 <= i < text@.len() ==> is_url_safe_symbol(#[trigger] text@[i]),
        url_safe_bytes(text@) == Some(bytes@),
{
    base64::encode_config(bytes, base64::URL_SAFE_NO_PAD)
}

/// Calls `base64::decode_config` with `base64::URL_SAFE_NO_PAD`, and drops
/// the crate's account of what was wrong with a text that it refuses.
///
/// Trusted: the outcome depends on `text` alone. The crate panics where
/// the length of `text` in bytes, plus 3 and plus 7, does not fit in `usize`,
/// which the precondition excludes.
#[verifier::external_body]
pub(crate) fn decode_url_safe(text: &str) -> (decoded: Option<Vec<u8>>)
    requires
        text@.len() <= max_decodable_len(),
    ensures
        decoded matches Some(bytes) ==> url_safe_bytes(text@) == Some(bytes@),
        decoded is None ==> url_safe_bytes(text@) is None,
{
    base64::decode_config(text, base64::URL_SAFE_NO_PAD).ok()
}

/// The pair that `crypto::ed25519::keypair` returns for a seed: the secret
/// key first, then the public key.
pub uninterp spec fn ed25519_keypair(seed: Seq<u8>) -> (Seq<u8>, Seq<u8>);

/// `rand::OsRng`, the operating system's random number generator. The library
/// carries it from the call that opens it to the call that reads from it, and
/// knows nothing of what it holds.
#[verifier::external_type_specification]
#[verifier::external_body]
pub struct ExOsRng(rand::OsRng);

/// Calls `rand::OsRng::new`, which opens the operating system's random number
/// generator, and drops its account of why that failed.
///
/// Trusted: nothing.
#[verifier::external_body]
pub(crate) fn open_os_rng() -> (rng: Option<rand::OsRng>) {
    rand::OsRng::new().ok()
}

/// Calls `rand::Rng::fill_bytes` on the operating system's generator, for a
/// buffer of 32 bytes.
///
/// Trusted: nothing. The crate panics if the operating system fails while it
/// is being read.
#[verifier::external_body]
pub(crate) fn draw_seed(rng: &mut rand::OsRng) -> (seed: [u8; 32]) {
    let mut seed = [0u8; 32];
    rand::Rng::fill_bytes(rng, &mut seed);
    seed
}

/// Calls `crypto::ed25519::keypair`.
///
/// Trusted: the pair depends on the seed alone. Its lengths, 64 and 32 bytes,
/// are those of the arrays that the crate returns.
#[verifier::external_body]
pub(crate) fn ed25519_keys(seed: &[u8]) -> (pair: ([u8; 64], [u8; 32]))
    ensures
        (pair.0@, pair.1@) == ed25519_keypair(seed@),
{
    crypto::ed25519::keypair(seed)
}

/// The text that `serde_json::to_string` returns for a string: the string as
/// a JSON string, between double quotes and with escapes.
pub uninterp spec fn json_string_text(text: Seq<char>) -> Seq<char>;

/// `serde_json::Error`, the crate's account of why nothing was written. The
/// library knows nothing of what it holds.
#[verifier::external_type_specification]
#[verifier::external_body]
pub struct ExJsonError(serde_json::Error);

/// Calls `serde_json::to_string` on a string.
///
/// Trusted: the crate returns a text, and the text depends on the string
/// alone. The crate's documentation names two causes of failure: a value
/// whose way of being written decides to fail, and a map with keys that are
/// no strings. A string is written by `serialize_str`, which hands on nothing
/// but the errors of its writer, and the writer of `to_string` is a `Vec<u8>`,
/// which takes every write.
#[verifier::external_body]
pub(crate) fn json_string(text: &str) -> (written: Result<String, serde_json::Error>)
    ensures
        written is Ok,
        written matches Ok(json) ==> json@ == json_string_text(text@),
{
    serde_json::to_string(text)
}

/// `String::push` of std puts one character at the end of the string.
pub assume_specification[ String::push ](s: &mut String, c: char)
    ensures
        final(s)@ == old(s)@.push(c),
;

} // verus!
