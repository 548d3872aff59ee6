//! Assembling and hashing git-style objects from an already-built payload.

use vstd::prelude::*;

use crate::encoding::push_bytes;
use crate::hash::{envelope, git_object_hash, git_object_header, hash_git_object};

verus! {

/// Builds the full byte form of a git-style object: envelope header, then
/// the payload.
pub fn format_git_object_from_parts(git_type: &str, parts: &[u8]) -> (r: Vec<u8>)
    ensures
        r@ == envelope(git_type@, parts@),
{
    let mut r = git_object_header(git_type, parts.len());
    push_bytes(&mut r, parts);
    assert(r@ =~= envelope(git_type@, parts@));
    r
}

/// Hashes a git-style object assembled from a payload.
pub fn hash_git_object_from_parts(git_type: &str, parts: &[u8]) -> (r: Vec<u8>)
    ensures
        r@ == git_object_hash(git_type@, parts@),
        r@.len() == 20,
{
    hash_git_object(git_type, parts)
}

} // verus!
