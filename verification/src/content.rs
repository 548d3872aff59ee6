//! Content objects: a raw byte payload and its identifier, the hash of the
//! `blob`-tagged envelope over the payload.

use vstd::prelude::*;

use crate::error::SwhidError;
use crate::hash::{content_hash, sha1_git_hash};
use crate::swhid::{ObjectType, Swhid};

verus! {

/// A raw content payload, immutable once built, with its identifier
/// computed at construction.
#[derive(Debug, Clone)]
pub struct Content {
    data: Vec<u8>,
    id: Vec<u8>,
}

impl Content {
    /// The payload bytes, as seen by contracts.
    pub closed spec fn data_bytes(&self) -> Seq<u8> {
        self.data@
    }

    /// The stored identifier, as seen by contracts.
    pub closed spec fn id_bytes(&self) -> Seq<u8> {
        self.id@
    }

    /// The identifier is exactly the content hash of the payload.
    pub open spec fn wf(&self) -> bool {
        self.id_bytes() == content_hash(self.data_bytes()) && self.id_bytes().len() == 20
    }

    /// Builds a content object from raw bytes, hashing them.
    pub fn from_data(data: Vec<u8>) -> (r: Self)
        ensures
            r.wf(),
            r.data_bytes() == data@,
    {
        let id = sha1_git_hash(data.as_slice());
        Content { data, id }
    }

    /// Builds a content object only when the payload does not exceed the
    /// given ceiling.
    pub fn from_data_with_max_size(data: Vec<u8>, max_size: usize) -> (r: Result<
        Self,
        SwhidError,
    >)
        ensures
            r is Ok <==> data@.len() <= max_size,
            r matches Ok(c) ==> c.wf() && c.data_bytes() == data@,
            r matches Err(e) ==> e == SwhidError::InvalidInput,
    {
        if data.len() > max_size {
            Err(SwhidError::InvalidInput)
        } else {
            Ok(Self::from_data(data))
        }
    }

    /// The payload.
    pub fn data(&self) -> (r: &Vec<u8>)
        ensures
            r@ == self.data_bytes(),
    {
        &self.data
    }

    /// The payload length.
    pub fn length(&self) -> (r: usize)
        ensures
            r == self.data_bytes().len(),
    {
        self.data.len()
    }

    /// The 20-byte identifier of the payload.
    pub fn sha1_git(&self) -> (r: &Vec<u8>)
        requires
            self.wf(),
        ensures
            r@ == content_hash(self.data_bytes()),
            r@.len() == 20,
    {
        &self.id
    }

    /// The content identifier in structured form.
    pub fn swhid(&self) -> (r: Swhid)
        requires
            self.wf(),
        ensures
            r.spec_type() == ObjectType::Content,
            r.id_bytes() == content_hash(self.data_bytes()),
            r.wf(),
    {
        Swhid::new(ObjectType::Content, self.id.clone())
    }
}

} // verus!
