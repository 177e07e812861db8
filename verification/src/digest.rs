//! Identifiers derived from content: a SHA-512 digest, cut to its first 24
//! bytes and written in URL-safe base64 without padding.
use base64::engine::general_purpose::URL_SAFE_NO_PAD;
use base64::Engine;
use sha2::{Digest, Sha512};
use vstd::prelude::*;
use vstd::slice::slice_subrange;

verus! {

/// How many bytes of the digest go into an identifier.
pub const TRUNCATED_LEN: usize = 24;

/// The SHA-512 digest of `bytes`.
pub uninterp spec fn sha512(bytes: Seq<u8>) -> Seq<u8>;

/// `bytes` in base64 with the URL-safe alphabet and no padding.
pub uninterp spec fn base64url(bytes: Seq<u8>) -> Seq<char>;

/// The number of symbols that base64 without padding takes for `count`
/// bytes: four for each three bytes, two for one byte left over, three for
/// two.
pub open spec fn unpadded_len(count: nat) -> nat {
    count / 3 * 4 + if count % 3 == 0 {
        0
    } else {
        count % 3 + 1
    }
}

/// A symbol of the URL-safe base64 alphabet: a letter, a digit, `-` or `_`.
pub open spec fn is_url_safe(c: char) -> bool {
    ||| 'A' <= c <= 'Z'
    ||| 'a' <= c <= 'z'
    ||| '0' <= c <= '9'
    ||| c == '-'
    ||| c == '_'
}

/// The first `TRUNCATED_LEN` bytes, or all where there are fewer.
pub open spec fn truncated(bytes: Seq<u8>) -> Seq<u8> {
    if bytes.len() <= TRUNCATED_LEN {
        bytes
    } else {
        bytes.subrange(0, TRUNCATED_LEN as int)
    }
}

/// The identifier of `blob`.
pub open spec fn identifier(blob: Seq<u8>) -> Seq<char> {
    base64url(truncated(sha512(blob)))
}

/// Calls `Digest::digest` of the `sha2` crate on `Sha512`. Trusted: the
/// result is the SHA-512 digest of the input, a function of the input alone,
/// and has 64 bytes.
#[verifier::external_body]
fn sha512_of(blob: &[u8]) -> (hash: Vec<u8>)
    ensures
        hash@ == sha512(blob@),
        hash@.len() == 64,
{
    Sha512::digest(blob).to_vec()
}

/// Calls `Engine::encode` of the `base64` crate on `URL_SAFE_NO_PAD`.
/// Trusted: the result is the base64 form of the input, a function of the
/// input alone; it has `unpadded_len` symbols, all of the URL-safe alphabet.
/// The call panics where that length does not fit the machine, so such
/// inputs are left out.
#[verifier::external_body]
fn encode_url_safe(bytes: &[u8]) -> (text: String)
    requires
        bytes@.len() / 3 * 4 + 3 <= usize::MAX,
    ensures
        text@ == base64url(bytes@),
        text@.len() == unpadded_len(bytes@.len()),
        forall|i: int| 0 <= i < text@.len() ==> is_url_safe(#[trigger] text@[i]),
{
    URL_SAFE_NO_PAD.encode(bytes)
}

/// The first `TRUNCATED_LEN` bytes of a digest, or all of it where it has
/// fewer.
pub fn truncate<'a>(hash: &'a [u8]) -> (head: &'a [u8])
    ensures
        head@ == truncated(hash@),
{
    if hash.len() <= TRUNCATED_LEN {
        hash
    } else {
        slice_subrange(hash, 0, TRUNCATED_LEN)
    }
}

/// The identifier of `blob`: its SHA-512 digest, cut to 24 bytes, in
/// URL-safe base64 without padding. It always has 32 symbols.
pub fn sha512t24u(blob: &[u8]) -> (id: String)
    ensures
        id@ == identifier(blob@),
        id@.len() == 32,
        forall|i: int| 0 <= i < id@.len() ==> is_url_safe(#[trigger] id@[i]),
{
    let hash: Vec<u8> = sha512_of(blob);
    let head: &[u8] = truncate(hash.as_slice());
    encode_url_safe(head)
}

} // verus!
