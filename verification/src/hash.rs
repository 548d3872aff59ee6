//! Hash primitives: the 160-bit digest behind all object identifiers, and
//! the type-tagged, length-prefixed "object envelope" that is hashed.

use vstd::prelude::*;

use crate::encoding::{dec_digits, push_bytes};
use sha1::Digest;

verus! {

/// The SHA-1 digest of a byte string.  The digest itself is an external
/// primitive; only its determinism and its 20-byte width are relied on.
pub uninterp spec fn sha1_of(data: Seq<u8>) -> Seq<u8>;

/// The SHA-256 digest of a byte string.
pub uninterp spec fn sha256_of(data: Seq<u8>) -> Seq<u8>;

/// Relies on `sha1::Sha1` (RustCrypto): the digest is a function of the
/// input bytes alone and is exactly 20 bytes wide.
#[verifier::external_body]
fn sha1_digest(data: &[u8]) -> (r: Vec<u8>)
    ensures
        r@ == sha1_of(data@),
        r@.len() == 20,
{
    sha1::Sha1::digest(data).to_vec()
}

/// Relies on `sha2::Sha256` (RustCrypto): the digest is a function of the
/// input bytes alone and is exactly 32 bytes wide.
#[verifier::external_body]
fn sha256_digest(data: &[u8]) -> (r: Vec<u8>)
    ensures
        r@ == sha256_of(data@),
        r@.len() == 32,
{
    sha2::Sha256::digest(data).to_vec()
}

/// The object envelope: `tag`, a space, the payload length in decimal, a NUL
/// byte, then the payload itself.
pub open spec fn envelope(tag: Seq<char>, data: Seq<u8>) -> Seq<u8> {
    vstd::utf8::encode_utf8(tag) + seq![32u8] + dec_digits(data.len()) + seq![0u8] + data
}

/// The identifier of a git-style object: the SHA-1 digest of its envelope.
pub open spec fn git_object_hash(tag: Seq<char>, data: Seq<u8>) -> Seq<u8> {
    sha1_of(envelope(tag, data))
}

/// The identifier of a content blob: the envelope hash with tag `blob`.
pub open spec fn content_hash(data: Seq<u8>) -> Seq<u8> {
    git_object_hash("blob"@, data)
}

/// A decimal rendering always has at least one digit.
pub proof fn lemma_dec_digits_len(n: nat)
    ensures
        dec_digits(n).len() >= 1,
    decreases n,
{
    if n >= 10 {
        lemma_dec_digits_len(n / 10);
    }
}

/// The envelope is never the raw payload: the header strictly lengthens
/// it, so the content hash is taken over different bytes than the plain
/// digest of the payload.
pub proof fn lemma_envelope_differs(tag: Seq<char>, data: Seq<u8>)
    ensures
        envelope(tag, data).len() > data.len(),
        envelope(tag, data) != data,
{
    lemma_dec_digits_len(data.len());
}

/// Builds the envelope header `"<tag> <length>\0"`.
pub fn git_object_header(git_type: &str, length: usize) -> (r: Vec<u8>)
    ensures
        r@ == vstd::utf8::encode_utf8(git_type@) + seq![32u8] + dec_digits(length as nat)
            + seq![0u8],
{
    let mut r = git_type.as_bytes_vec();
    r.push(32);
    let digits = crate::encoding::dec_u64(length as u64);
    push_bytes(&mut r, digits.as_slice());
    r.push(0);
    assert(r@ =~= vstd::utf8::encode_utf8(git_type@) + seq![32u8] + dec_digits(length as nat)
        + seq![0u8]);
    r
}

/// Hashes a git-style object: the envelope header followed by the payload.
pub fn hash_git_object(git_type: &str, data: &[u8]) -> (r: Vec<u8>)
    ensures
        r@ == git_object_hash(git_type@, data@),
        r@.len() == 20,
{
    let mut buf = git_object_header(git_type, data.len());
    push_bytes(&mut buf, data);
    assert(buf@ =~= envelope(git_type@, data@));
    sha1_digest(buf.as_slice())
}

/// The identifier of raw content: the `blob`-tagged envelope hash.
pub fn sha1_git_hash(data: &[u8]) -> (r: Vec<u8>)
    ensures
        r@ == content_hash(data@),
        r@.len() == 20,
{
    hash_git_object("blob", data)
}

/// The plain SHA-1 digest, without an envelope.
pub fn sha1_hash(data: &[u8]) -> (r: Vec<u8>)
    ensures
        r@ == sha1_of(data@),
        r@.len() == 20,
{
    sha1_digest(data)
}

/// The plain SHA-256 digest.
pub fn sha256_hash(data: &[u8]) -> (r: Vec<u8>)
    ensures
        r@ == sha256_of(data@),
        r@.len() == 32,
{
    sha256_digest(data)
}

} // verus!
