//! Release objects: the `tag`-tagged canonical encoding and its hash.

use vstd::prelude::*;

use vstd::utf8::encode_utf8;

use crate::encoding::{hex_bytes, push_bytes, push_hex};
use crate::error::SwhidError;
use crate::hash::{git_object_hash, hash_git_object};
use crate::person::Person;
use crate::swhid::{ObjectType, Swhid};
use crate::timestamp::{tstz_git_bytes, TimestampWithTimezone};
use std::collections::HashMap;

verus! {

/// The kind of object a release points at.
#[derive(Debug, Clone, Copy, PartialEq, Eq, Hash, Structural)]
pub enum ReleaseTargetType {
    Content,
    Directory,
    Revision,
    Release,
    Snapshot,
}

/// The long name of each target kind.
pub open spec fn release_type_chars(t: ReleaseTargetType) -> Seq<char> {
    match t {
        ReleaseTargetType::Content => "content"@,
        ReleaseTargetType::Directory => "directory"@,
        ReleaseTargetType::Revision => "revision"@,
        ReleaseTargetType::Release => "release"@,
        ReleaseTargetType::Snapshot => "snapshot"@,
    }
}

/// The git type name each target kind maps to inside the manifest.
pub open spec fn release_git_type_chars(t: ReleaseTargetType) -> Seq<char> {
    match t {
        ReleaseTargetType::Content => "blob"@,
        ReleaseTargetType::Directory => "tree"@,
        ReleaseTargetType::Revision => "commit"@,
        ReleaseTargetType::Release => "tag"@,
        ReleaseTargetType::Snapshot => "refs"@,
    }
}

impl ReleaseTargetType {
    /// The long name of the target kind.
    pub fn as_str(&self) -> (r: &'static str)
        ensures
            r@ == release_type_chars(*self),
    {
        match self {
            ReleaseTargetType::Content => "content",
            ReleaseTargetType::Directory => "directory",
            ReleaseTargetType::Revision => "revision",
            ReleaseTargetType::Release => "release",
            ReleaseTargetType::Snapshot => "snapshot",
        }
    }

    /// Resolves a long name; any other text is rejected.
    pub fn from_str(s: &str) -> (r: Result<Self, SwhidError>)
        ensures
            r matches Ok(t) ==> s@ == release_type_chars(t),
            r matches Err(e) ==> e == SwhidError::InvalidFormat && (forall|t: ReleaseTargetType|
                s@ != release_type_chars(t)),
    {
        let choices = [
            ReleaseTargetType::Content,
            ReleaseTargetType::Directory,
            ReleaseTargetType::Revision,
            ReleaseTargetType::Release,
            ReleaseTargetType::Snapshot,
        ];
        for i in 0..5usize
            invariant
                forall|k: int|
                    0 <= k < i ==> s@ != release_type_chars(#[trigger] choices@[k]),
                choices@ == seq![
                    ReleaseTargetType::Content,
                    ReleaseTargetType::Directory,
                    ReleaseTargetType::Revision,
                    ReleaseTargetType::Release,
                    ReleaseTargetType::Snapshot,
                ],
        {
            let c = choices[i];
            if crate::strutil::str_eq(s, c.as_str()) {
                return Ok(c);
            }
        }
        assert forall|t: ReleaseTargetType| s@ != release_type_chars(t) by {
            match t {
                ReleaseTargetType::Content => {
                    assert(choices@[0] == ReleaseTargetType::Content);
                }
                ReleaseTargetType::Directory => {
                    assert(choices@[1] == ReleaseTargetType::Directory);
                }
                ReleaseTargetType::Revision => {
                    assert(choices@[2] == ReleaseTargetType::Revision);
                }
                ReleaseTargetType::Release => {
                    assert(choices@[3] == ReleaseTargetType::Release);
                }
                ReleaseTargetType::Snapshot => {
                    assert(choices@[4] == ReleaseTargetType::Snapshot);
                }
            }
        }
        Err(SwhidError::InvalidFormat)
    }
}

/// A line of a manifest: the bytes followed by a newline.
pub open spec fn line(b: Seq<u8>) -> Seq<u8> {
    b + seq![10u8]
}

/// A release: a tag name, an optional target with its kind, an optional
/// tagger and date, and a message.  The identifier is computed at
/// construction and never changes.
#[derive(Debug, Clone)]
pub struct Release {
    pub name: Vec<u8>,
    pub message: Option<Vec<u8>>,
    pub target: Option<Vec<u8>>,
    pub target_type: ReleaseTargetType,
    pub synthetic: bool,
    pub author: Option<Person>,
    pub date: Option<TimestampWithTimezone>,
    pub metadata: Option<HashMap<String, String>>,
    pub id: Vec<u8>,
    pub raw_manifest: Option<Vec<u8>>,
}

/// The canonical encoding of a release: an `object` line when there is a
/// target, the mapped `type` line, the `tag` line with the raw name, a
/// `tagger` line when author and date are both present, a blank line,
/// then the message, each line newline-terminated.
pub open spec fn release_manifest(r: &Release) -> Seq<u8> {
    (match r.target {
        Some(t) => line(encode_utf8("object "@) + hex_bytes(t@)),
        None => Seq::<u8>::empty(),
    }) + line(encode_utf8("type "@) + encode_utf8(release_git_type_chars(r.target_type))) + line(
        encode_utf8("tag "@) + r.name@,
    ) + (if r.author is Some && r.date is Some {
        line(
            encode_utf8("tagger "@) + r.author->Some_0.fullname@ + seq![32u8] + tstz_git_bytes(
                &r.date->Some_0,
            ),
        )
    } else {
        Seq::<u8>::empty()
    }) + line(Seq::<u8>::empty()) + (match r.message {
        Some(m) => line(m@),
        None => Seq::<u8>::empty(),
    })
}

/// The identifier of a release: the `tag`-tagged envelope hash of its
/// manifest.
pub open spec fn release_hash(r: &Release) -> Seq<u8> {
    git_object_hash("tag"@, release_manifest(r))
}

/// The obligations on a release's optional fields: a present target is 20
/// bytes, and a present date is in range.
pub open spec fn release_fields_wf(
    target: &Option<Vec<u8>>,
    date: &Option<TimestampWithTimezone>,
) -> bool {
    &&& (target matches Some(t) ==> t@.len() == 20)
    &&& (date matches Some(d) ==> d.timestamp.wf())
}

impl Release {
    /// The invariant every constructed release satisfies.
    pub open spec fn wf(&self) -> bool {
        &&& self.id@ == release_hash(self)
        &&& self.id@.len() == 20
        &&& release_fields_wf(&self.target, &self.date)
    }

    /// Builds a release and computes its identifier.
    pub fn new(
        name: Vec<u8>,
        message: Option<Vec<u8>>,
        target: Option<Vec<u8>>,
        target_type: ReleaseTargetType,
        synthetic: bool,
        author: Option<Person>,
        date: Option<TimestampWithTimezone>,
        metadata: Option<HashMap<String, String>>,
    ) -> (r: Self)
        requires
            release_fields_wf(&target, &date),
        ensures
            r.wf(),
            r.name@ == name@,
            r.message == message,
            r.target == target,
            r.target_type == target_type,
            r.synthetic == synthetic,
            r.author == author,
            r.date == date,
            r.metadata == metadata,
            r.raw_manifest is None,
    {
        let mut release = Release {
            name,
            message,
            target,
            target_type,
            synthetic,
            author,
            date,
            metadata,
            id: Vec::new(),
            raw_manifest: None,
        };
        let id = release.compute_hash();
        release.id = id;
        release
    }

    /// Recomputes the identifier from the current fields.
    pub fn compute_hash(&self) -> (r: Vec<u8>)
        requires
            release_fields_wf(&self.target, &self.date),
        ensures
            r@ == release_hash(self),
            r@.len() == 20,
    {
        let manifest = self.to_git_object();
        hash_git_object("tag", manifest.as_slice())
    }

    /// Builds the canonical encoding.
    pub fn to_git_object(&self) -> (r: Vec<u8>)
        requires
            release_fields_wf(&self.target, &self.date),
        ensures
            r@ == release_manifest(self),
    {
        let ghost s1 = match &self.target {
            Some(t) => line(encode_utf8("object "@) + hex_bytes(t@)),
            None => Seq::<u8>::empty(),
        };
        let ghost s2 = s1 + line(
            encode_utf8("type "@) + encode_utf8(release_git_type_chars(self.target_type)),
        );
        let ghost s3 = s2 + line(encode_utf8("tag "@) + self.name@);
        let ghost s4 = s3 + (if self.author is Some && self.date is Some {
            line(
                encode_utf8("tagger "@) + self.author->Some_0.fullname@ + seq![32u8]
                    + tstz_git_bytes(&self.date->Some_0),
            )
        } else {
            Seq::<u8>::empty()
        });
        let ghost s5 = s4 + line(Seq::<u8>::empty());
        let mut buf: Vec<u8> = Vec::new();
        match &self.target {
            Some(t) => {
                push_bytes(&mut buf, ("object ").as_bytes());
                push_hex(&mut buf, t.as_slice());
                buf.push(10);
            }
            None => {}
        }
        assert(buf@ =~= s1);
        push_bytes(&mut buf, ("type ").as_bytes());
        match self.target_type {
            ReleaseTargetType::Content => push_bytes(&mut buf, ("blob").as_bytes()),
            ReleaseTargetType::Directory => push_bytes(&mut buf, ("tree").as_bytes()),
            ReleaseTargetType::Revision => push_bytes(&mut buf, ("commit").as_bytes()),
            ReleaseTargetType::Release => push_bytes(&mut buf, ("tag").as_bytes()),
            ReleaseTargetType::Snapshot => push_bytes(&mut buf, ("refs").as_bytes()),
        }
        buf.push(10);
        assert(buf@ =~= s2);
        push_bytes(&mut buf, ("tag ").as_bytes());
        push_bytes(&mut buf, self.name.as_slice());
        buf.push(10);
        assert(buf@ =~= s3);
        match (&self.author, &self.date) {
            (Some(a), Some(d)) => {
                push_bytes(&mut buf, ("tagger ").as_bytes());
                let person_date = a.format_for_git(Some(d));
                push_bytes(&mut buf, person_date.as_slice());
                buf.push(10);
            }
            _ => {}
        }
        assert(buf@ =~= s4);
        buf.push(10);
        assert(buf@ =~= s5);
        match &self.message {
            Some(m) => {
                push_bytes(&mut buf, m.as_slice());
                buf.push(10);
            }
            None => {}
        }
        assert(buf@ =~= release_manifest(self));
        buf
    }

    /// The release identifier in structured form.
    pub fn swhid(&self) -> (r: Swhid)
        requires
            self.wf(),
        ensures
            r.spec_type() == ObjectType::Release,
            r.id_bytes() == release_hash(self),
            r.wf(),
    {
        Swhid::new(ObjectType::Release, self.id.clone())
    }

    /// The identifier of the target, under the target's own kind, when a
    /// target is present.
    pub fn target_swhid(&self) -> (r: Option<Swhid>)
        requires
            self.wf(),
        ensures
            r is Some <==> self.target is Some,
            r matches Some(w) ==> self.target matches Some(t) && w.id_bytes() == t@
                && w.spec_type() == release_target_object_type(self.target_type) && w.wf(),
    {
        match &self.target {
            Some(t) => {
                let object_type = match self.target_type {
                    ReleaseTargetType::Content => ObjectType::Content,
                    ReleaseTargetType::Directory => ObjectType::Directory,
                    ReleaseTargetType::Revision => ObjectType::Revision,
                    ReleaseTargetType::Release => ObjectType::Release,
                    ReleaseTargetType::Snapshot => ObjectType::Snapshot,
                };
                Some(Swhid::new(object_type, t.clone()))
            }
            None => None,
        }
    }

    pub fn name(&self) -> (r: &Vec<u8>)
        ensures
            r@ == self.name@,
    {
        &self.name
    }

    pub fn message(&self) -> (r: Option<&Vec<u8>>)
        ensures
            r is Some <==> self.message is Some,
            r matches Some(m) ==> self.message matches Some(mm) && m@ == mm@,
    {
        match &self.message {
            Some(m) => Some(m),
            None => None,
        }
    }

    pub fn target(&self) -> (r: Option<&Vec<u8>>)
        ensures
            r is Some <==> self.target is Some,
            r matches Some(t) ==> self.target matches Some(tt) && t@ == tt@,
    {
        match &self.target {
            Some(t) => Some(t),
            None => None,
        }
    }

    pub fn target_type(&self) -> (r: ReleaseTargetType)
        ensures
            r == self.target_type,
    {
        self.target_type
    }

    pub fn synthetic(&self) -> (r: bool)
        ensures
            r == self.synthetic,
    {
        self.synthetic
    }

    pub fn author(&self) -> (r: Option<&Person>)
        ensures
            r is Some <==> self.author is Some,
            r matches Some(a) ==> self.author matches Some(aa) && *a == aa,
    {
        match &self.author {
            Some(a) => Some(a),
            None => None,
        }
    }

    pub fn date(&self) -> (r: Option<&TimestampWithTimezone>)
        ensures
            r is Some <==> self.date is Some,
            r matches Some(d) ==> self.date matches Some(dd) && *d == dd,
    {
        match &self.date {
            Some(d) => Some(d),
            None => None,
        }
    }

    pub fn metadata(&self) -> (r: Option<&HashMap<String, String>>)
        ensures
            r is Some <==> self.metadata is Some,
            r matches Some(m) ==> *m == self.metadata->Some_0,
    {
        match &self.metadata {
            Some(m) => Some(m),
            None => None,
        }
    }

    pub fn id(&self) -> (r: &Vec<u8>)
        ensures
            r@ == self.id@,
    {
        &self.id
    }

    pub fn raw_manifest(&self) -> (r: Option<&Vec<u8>>)
        ensures
            r is Some <==> self.raw_manifest is Some,
            r matches Some(m) ==> self.raw_manifest matches Some(mm) && m@ == mm@,
    {
        match &self.raw_manifest {
            Some(m) => Some(m),
            None => None,
        }
    }

    /// Attaches a verbatim manifest, keeping every other field.
    pub fn with_raw_manifest(self, manifest: Vec<u8>) -> (r: Self)
        ensures
            r.raw_manifest matches Some(m) && m@ == manifest@,
            r.name@ == self.name@,
            r.id@ == self.id@,
    {
        let mut s = self;
        s.raw_manifest = Some(manifest);
        s
    }
}

/// The object kind a release target type stands for.
pub open spec fn release_target_object_type(t: ReleaseTargetType) -> ObjectType {
    match t {
        ReleaseTargetType::Content => ObjectType::Content,
        ReleaseTargetType::Directory => ObjectType::Directory,
        ReleaseTargetType::Revision => ObjectType::Revision,
        ReleaseTargetType::Release => ObjectType::Release,
        ReleaseTargetType::Snapshot => ObjectType::Snapshot,
    }
}

} // verus!
