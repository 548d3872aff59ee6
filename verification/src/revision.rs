//! Revision objects: the `commit`-tagged canonical encoding and its hash.

use vstd::prelude::*;

use vstd::utf8::encode_utf8;

use crate::encoding::{hex_bytes, push_bytes, push_hex};
use crate::error::SwhidError;
use crate::hash::{git_object_hash, hash_git_object};
use crate::person::Person;
use crate::release::line;
use crate::swhid::{ObjectType, Swhid};
use crate::timestamp::{tstz_git_bytes, TimestampWithTimezone};
use std::collections::HashMap;

verus! {

/// The version-control system a revision came from.
#[derive(Debug, Clone, Copy, PartialEq, Eq, Hash, Structural)]
pub enum RevisionType {
    Git,
    Tar,
    Dsc,
    Subversion,
    Mercurial,
    Cvs,
    Bazaar,
}

/// The short name of each revision kind.
pub open spec fn revision_type_chars(t: RevisionType) -> Seq<char> {
    match t {
        RevisionType::Git => "git"@,
        RevisionType::Tar => "tar"@,
        RevisionType::Dsc => "dsc"@,
        RevisionType::Subversion => "svn"@,
        RevisionType::Mercurial => "hg"@,
        RevisionType::Cvs => "cvs"@,
        RevisionType::Bazaar => "bzr"@,
    }
}

impl RevisionType {
    /// The short name of the revision kind.
    pub fn as_str(&self) -> (r: &'static str)
        ensures
            r@ == revision_type_chars(*self),
    {
        match self {
            RevisionType::Git => "git",
            RevisionType::Tar => "tar",
            RevisionType::Dsc => "dsc",
            RevisionType::Subversion => "svn",
            RevisionType::Mercurial => "hg",
            RevisionType::Cvs => "cvs",
            RevisionType::Bazaar => "bzr",
        }
    }

    /// Resolves a short name; any other text is rejected.
    pub fn from_str(s: &str) -> (r: Result<Self, SwhidError>)
        ensures
            r matches Ok(t) ==> s@ == revision_type_chars(t),
            r matches Err(e) ==> e == SwhidError::InvalidFormat && (forall|t: RevisionType|
                s@ != revision_type_chars(t)),
    {
        let choices = [
            RevisionType::Git,
            RevisionType::Tar,
            RevisionType::Dsc,
            RevisionType::Subversion,
            RevisionType::Mercurial,
            RevisionType::Cvs,
            RevisionType::Bazaar,
        ];
        for i in 0..7usize
            invariant
                forall|k: int| 0 <= k < i ==> s@ != revision_type_chars(#[trigger] choices@[k]),
                choices@ == seq![
                    RevisionType::Git,
                    RevisionType::Tar,
                    RevisionType::Dsc,
                    RevisionType::Subversion,
                    RevisionType::Mercurial,
                    RevisionType::Cvs,
                    RevisionType::Bazaar,
                ],
        {
            let c = choices[i];
            if crate::strutil::str_eq(s, c.as_str()) {
                return Ok(c);
            }
        }
        assert forall|t: RevisionType| s@ != revision_type_chars(t) by {
            match t {
                RevisionType::Git => {
                    assert(choices@[0] == RevisionType::Git);
                }
                RevisionType::Tar => {
                    assert(choices@[1] == RevisionType::Tar);
                }
                RevisionType::Dsc => {
                    assert(choices@[2] == RevisionType::Dsc);
                }
                RevisionType::Subversion => {
                    assert(choices@[3] == RevisionType::Subversion);
                }
                RevisionType::Mercurial => {
                    assert(choices@[4] == RevisionType::Mercurial);
                }
                RevisionType::Cvs => {
                    assert(choices@[5] == RevisionType::Cvs);
                }
                RevisionType::Bazaar => {
                    assert(choices@[6] == RevisionType::Bazaar);
                }
            }
        }
        Err(SwhidError::InvalidFormat)
    }
}

/// A revision: a tree, parents in caller order, optional author and
/// committer with dates, extra headers in order, and a message.  The
/// identifier is computed at construction and never changes.
#[derive(Debug, Clone)]
pub struct Revision {
    pub message: Option<Vec<u8>>,
    pub author: Option<Person>,
    pub committer: Option<Person>,
    pub date: Option<TimestampWithTimezone>,
    pub committer_date: Option<TimestampWithTimezone>,
    pub revision_type: RevisionType,
    pub directory: Vec<u8>,
    pub synthetic: bool,
    pub metadata: Option<HashMap<String, String>>,
    pub parents: Vec<Vec<u8>>,
    pub extra_headers: Vec<(Vec<u8>, Vec<u8>)>,
    pub id: Vec<u8>,
    pub raw_manifest: Option<Vec<u8>>,
}

/// The `parent` lines: one hex line per parent, in the given order.
pub open spec fn parent_lines(ps: Seq<Seq<u8>>) -> Seq<u8>
    decreases ps.len(),
{
    if ps.len() == 0 {
        Seq::empty()
    } else {
        line(encode_utf8("parent "@) + hex_bytes(ps.first())) + parent_lines(ps.drop_first())
    }
}

pub proof fn lemma_parent_lines_push(ps: Seq<Seq<u8>>, p: Seq<u8>)
    ensures
        parent_lines(ps.push(p)) == parent_lines(ps) + line(encode_utf8("parent "@) + hex_bytes(p)),
    decreases ps.len(),
{
    let w = ps.push(p);
    if ps.len() == 0 {
        assert(w.first() == p);
        assert(w.drop_first() =~= Seq::<Seq<u8>>::empty());
        assert(parent_lines(w) == line(encode_utf8("parent "@) + hex_bytes(p)) + parent_lines(
            Seq::<Seq<u8>>::empty(),
        ));
        assert(parent_lines(Seq::<Seq<u8>>::empty()) == Seq::<u8>::empty());
        assert(parent_lines(ps) == Seq::<u8>::empty());
        assert(parent_lines(w) =~= parent_lines(ps) + line(encode_utf8("parent "@) + hex_bytes(p)));
    } else {
        assert(w.first() == ps.first());
        assert(w.drop_first() =~= ps.drop_first().push(p));
        lemma_parent_lines_push(ps.drop_first(), p);
        assert(parent_lines(w) == line(encode_utf8("parent "@) + hex_bytes(w.first()))
            + parent_lines(ps.drop_first().push(p)));
        assert(parent_lines(w) =~= parent_lines(ps) + line(encode_utf8("parent "@) + hex_bytes(p)));
    }
}

/// The extra-header lines: `key SP value`, raw bytes, in the given order.
pub open spec fn header_lines(hs: Seq<(Seq<u8>, Seq<u8>)>) -> Seq<u8>
    decreases hs.len(),
{
    if hs.len() == 0 {
        Seq::empty()
    } else {
        line(hs.first().0 + seq![32u8] + hs.first().1) + header_lines(hs.drop_first())
    }
}

pub proof fn lemma_header_lines_push(hs: Seq<(Seq<u8>, Seq<u8>)>, h: (Seq<u8>, Seq<u8>))
    ensures
        header_lines(hs.push(h)) == header_lines(hs) + line(h.0 + seq![32u8] + h.1),
    decreases hs.len(),
{
    let w = hs.push(h);
    if hs.len() == 0 {
        assert(w.first() == h);
        assert(w.drop_first() =~= Seq::<(Seq<u8>, Seq<u8>)>::empty());
        assert(header_lines(w) == line(h.0 + seq![32u8] + h.1) + header_lines(
            Seq::<(Seq<u8>, Seq<u8>)>::empty(),
        ));
        assert(header_lines(Seq::<(Seq<u8>, Seq<u8>)>::empty()) == Seq::<u8>::empty());
        assert(header_lines(hs) == Seq::<u8>::empty());
        assert(header_lines(w) =~= header_lines(hs) + line(h.0 + seq![32u8] + h.1));
    } else {
        assert(w.first() == hs.first());
        assert(w.drop_first() =~= hs.drop_first().push(h));
        lemma_header_lines_push(hs.drop_first(), h);
        assert(header_lines(w) == line(w.first().0 + seq![32u8] + w.first().1) + header_lines(
            hs.drop_first().push(h),
        ));
        assert(header_lines(w) =~= header_lines(hs) + line(h.0 + seq![32u8] + h.1));
    }
}

/// The parent ids of a revision, as byte strings.
pub open spec fn parents_view(ps: Seq<Vec<u8>>) -> Seq<Seq<u8>> {
    ps.map_values(|p: Vec<u8>| p@)
}

/// The extra headers of a revision, as byte-string pairs.
pub open spec fn headers_view(hs: Seq<(Vec<u8>, Vec<u8>)>) -> Seq<(Seq<u8>, Seq<u8>)> {
    hs.map_values(|h: (Vec<u8>, Vec<u8>)| (h.0@, h.1@))
}

/// The canonical encoding of a revision: the `tree` line, one `parent`
/// line per parent in order, `author` and `committer` lines when person
/// and date are both present, the extra headers in order, a blank line,
/// then the message, each line newline-terminated.
pub open spec fn revision_manifest(r: &Revision) -> Seq<u8> {
    line(encode_utf8("tree "@) + hex_bytes(r.directory@)) + parent_lines(parents_view(r.parents@))
        + (if r.author is Some && r.date is Some {
        line(
            encode_utf8("author "@) + r.author->Some_0.fullname@ + seq![32u8] + tstz_git_bytes(
                &r.date->Some_0,
            ),
        )
    } else {
        Seq::<u8>::empty()
    }) + (if r.committer is Some && r.committer_date is Some {
        line(
            encode_utf8("committer "@) + r.committer->Some_0.fullname@ + seq![32u8]
                + tstz_git_bytes(&r.committer_date->Some_0),
        )
    } else {
        Seq::<u8>::empty()
    }) + header_lines(headers_view(r.extra_headers@)) + line(Seq::<u8>::empty()) + (
    match r.message {
        Some(m) => line(m@),
        None => Seq::<u8>::empty(),
    })
}

/// The identifier of a revision: the `commit`-tagged envelope hash of its
/// manifest.
pub open spec fn revision_hash(r: &Revision) -> Seq<u8> {
    git_object_hash("commit"@, revision_manifest(r))
}

/// The obligations on a revision's fields: the tree id is 20 bytes, every
/// parent id is 20 bytes, and present dates are in range.
pub open spec fn revision_fields_wf(
    directory: &Vec<u8>,
    parents: &Vec<Vec<u8>>,
    date: &Option<TimestampWithTimezone>,
    committer_date: &Option<TimestampWithTimezone>,
) -> bool {
    &&& directory@.len() == 20
    &&& forall|i: int| 0 <= i < parents@.len() ==> (#[trigger] parents@[i])@.len() == 20
    &&& (date matches Some(d) ==> d.timestamp.wf())
    &&& (committer_date matches Some(d) ==> d.timestamp.wf())
}

impl Revision {
    /// The invariant every constructed revision satisfies.
    pub open spec fn wf(&self) -> bool {
        &&& self.id@ == revision_hash(self)
        &&& self.id@.len() == 20
        &&& revision_fields_wf(&self.directory, &self.parents, &self.date, &self.committer_date)
    }

    /// Builds a revision and computes its identifier.
    pub fn new(
        message: Option<Vec<u8>>,
        author: Option<Person>,
        committer: Option<Person>,
        date: Option<TimestampWithTimezone>,
        committer_date: Option<TimestampWithTimezone>,
        revision_type: RevisionType,
        directory: Vec<u8>,
        synthetic: bool,
        metadata: Option<HashMap<String, String>>,
        parents: Vec<Vec<u8>>,
        extra_headers: Vec<(Vec<u8>, Vec<u8>)>,
    ) -> (r: Self)
        requires
            revision_fields_wf(&directory, &parents, &date, &committer_date),
        ensures
            r.wf(),
            r.message == message,
            r.author == author,
            r.committer == committer,
            r.date == date,
            r.committer_date == committer_date,
            r.revision_type == revision_type,
            r.directory@ == directory@,
            r.synthetic == synthetic,
            parents_view(r.parents@) == parents_view(parents@),
            headers_view(r.extra_headers@) == headers_view(extra_headers@),
            r.metadata == metadata,
            r.raw_manifest is None,
    {
        let mut revision = Revision {
            message,
            author,
            committer,
            date,
            committer_date,
            revision_type,
            directory,
            synthetic,
            metadata,
            parents,
            extra_headers,
            id: Vec::new(),
            raw_manifest: None,
        };
        let id = revision.compute_hash();
        revision.id = id;
        revision
    }

    /// Recomputes the identifier from the current fields.
    pub fn compute_hash(&self) -> (r: Vec<u8>)
        requires
            revision_fields_wf(&self.directory, &self.parents, &self.date, &self.committer_date),
        ensures
            r@ == revision_hash(self),
            r@.len() == 20,
    {
        let manifest = self.to_git_object();
        hash_git_object("commit", manifest.as_slice())
    }

    /// Builds the canonical encoding.
    #[verifier::rlimit(60)]
    pub fn to_git_object(&self) -> (r: Vec<u8>)
        requires
            revision_fields_wf(&self.directory, &self.parents, &self.date, &self.committer_date),
        ensures
            r@ == revision_manifest(self),
    {
        let ghost s1 = line(encode_utf8("tree "@) + hex_bytes(self.directory@));
        let ghost s2 = s1 + parent_lines(parents_view(self.parents@));
        let ghost s3 = s2 + (if self.author is Some && self.date is Some {
            line(
                encode_utf8("author "@) + self.author->Some_0.fullname@ + seq![32u8]
                    + tstz_git_bytes(&self.date->Some_0),
            )
        } else {
            Seq::<u8>::empty()
        });
        let ghost s4 = s3 + (if self.committer is Some && self.committer_date is Some {
            line(
                encode_utf8("committer "@) + self.committer->Some_0.fullname@ + seq![32u8]
                    + tstz_git_bytes(&self.committer_date->Some_0),
            )
        } else {
            Seq::<u8>::empty()
        });
        let ghost s5 = s4 + header_lines(headers_view(self.extra_headers@));
        let ghost s6 = s5 + line(Seq::<u8>::empty());
        let mut buf: Vec<u8> = Vec::new();
        push_bytes(&mut buf, ("tree ").as_bytes());
        push_hex(&mut buf, self.directory.as_slice());
        buf.push(10);
        assert(buf@ =~= s1);
        let np = self.parents.len();
        let ghost pv = parents_view(self.parents@);
        assert(pv.take(0) =~= Seq::<Seq<u8>>::empty());
        for i in 0..np
            invariant
                np == self.parents@.len(),
                pv == parents_view(self.parents@),
                s1 == line(encode_utf8("tree "@) + hex_bytes(self.directory@)),
                buf@ == s1 + parent_lines(pv.take(i as int)),
        {
            push_bytes(&mut buf, ("parent ").as_bytes());
            push_hex(&mut buf, self.parents[i].as_slice());
            buf.push(10);
            proof {
                assert(pv[i as int] == self.parents@[i as int]@);
                lemma_parent_lines_push(pv.take(i as int), pv[i as int]);
                assert(pv.take(i + 1) =~= pv.take(i as int).push(pv[i as int]));
                assert(buf@ =~= s1 + parent_lines(pv.take(i + 1)));
            }
        }
        assert(pv.take(np as int) =~= pv);
        assert(buf@ =~= s2);
        match (&self.author, &self.date) {
            (Some(a), Some(d)) => {
                push_bytes(&mut buf, ("author ").as_bytes());
                let person_date = a.format_for_git(Some(d));
                push_bytes(&mut buf, person_date.as_slice());
                buf.push(10);
            }
            _ => {}
        }
        assert(buf@ =~= s3);
        match (&self.committer, &self.committer_date) {
            (Some(c), Some(d)) => {
                push_bytes(&mut buf, ("committer ").as_bytes());
                let person_date = c.format_for_git(Some(d));
                push_bytes(&mut buf, person_date.as_slice());
                buf.push(10);
            }
            _ => {}
        }
        assert(buf@ =~= s4);
        let nh = self.extra_headers.len();
        let ghost hv = headers_view(self.extra_headers@);
        assert(hv.take(0) =~= Seq::<(Seq<u8>, Seq<u8>)>::empty());
        for i in 0..nh
            invariant
                nh == self.extra_headers@.len(),
                hv == headers_view(self.extra_headers@),
                buf@ == s4 + header_lines(hv.take(i as int)),
        {
            push_bytes(&mut buf, self.extra_headers[i].0.as_slice());
            buf.push(32);
            push_bytes(&mut buf, self.extra_headers[i].1.as_slice());
            buf.push(10);
            proof {
                assert(hv[i as int] == (
                    self.extra_headers@[i as int].0@,
                    self.extra_headers@[i as int].1@,
                ));
                lemma_header_lines_push(hv.take(i as int), hv[i as int]);
                assert(hv.take(i + 1) =~= hv.take(i as int).push(hv[i as int]));
                assert(buf@ =~= s4 + header_lines(hv.take(i + 1)));
            }
        }
        assert(hv.take(nh as int) =~= hv);
        assert(buf@ =~= s5);
        buf.push(10);
        assert(buf@ =~= s6);
        match &self.message {
            Some(m) => {
                push_bytes(&mut buf, m.as_slice());
                buf.push(10);
            }
            None => {}
        }
        assert(buf@ =~= revision_manifest(self));
        buf
    }

    /// The revision identifier in structured form.
    pub fn swhid(&self) -> (r: Swhid)
        requires
            self.wf(),
        ensures
            r.spec_type() == ObjectType::Revision,
            r.id_bytes() == revision_hash(self),
            r.wf(),
    {
        Swhid::new(ObjectType::Revision, self.id.clone())
    }

    /// The identifier of the revision's tree.
    pub fn directory_swhid(&self) -> (r: Swhid)
        requires
            self.wf(),
        ensures
            r.spec_type() == ObjectType::Directory,
            r.id_bytes() == self.directory@,
            r.wf(),
    {
        Swhid::new(ObjectType::Directory, self.directory.clone())
    }

    /// The identifiers of the parents, in order.
    pub fn parent_swhids(&self) -> (r: Vec<Swhid>)
        requires
            self.wf(),
        ensures
            r@.len() == self.parents@.len(),
            forall|i: int|
                0 <= i < r@.len() ==> (#[trigger] r@[i]).spec_type() == ObjectType::Revision
                    && r@[i].id_bytes() == self.parents@[i]@ && r@[i].wf(),
    {
        let n = self.parents.len();
        let mut r: Vec<Swhid> = Vec::new();
        for i in 0..n
            invariant
                n == self.parents@.len(),
                self.wf(),
                r@.len() == i,
                forall|k: int|
                    0 <= k < i ==> (#[trigger] r@[k]).spec_type() == ObjectType::Revision
                        && r@[k].id_bytes() == self.parents@[k]@ && r@[k].wf(),
        {
            assert(self.parents@[i as int]@.len() == 20);
            r.push(Swhid::new(ObjectType::Revision, self.parents[i].clone()));
        }
        r
    }

    pub fn message(&self) -> (r: Option<&Vec<u8>>)
        ensures
            r is Some <==> self.message is Some,
            r matches Some(m) ==> self.message matches Some(mm) && m@ == mm@,
    {
        match &self.message {
            Some(m) => Some(m),
            None => None,
        }
    }

    pub fn author(&self) -> (r: Option<&Person>)
        ensures
            r is Some <==> self.author is Some,
            r matches Some(a) ==> self.author matches Some(aa) && *a == aa,
    {
        match &self.author {
            Some(a) => Some(a),
            None => None,
        }
    }

    pub fn committer(&self) -> (r: Option<&Person>)
        ensures
            r is Some <==> self.committer is Some,
            r matches Some(c) ==> self.committer matches Some(cc) && *c == cc,
    {
        match &self.committer {
            Some(c) => Some(c),
            None => None,
        }
    }

    pub fn date(&self) -> (r: Option<&TimestampWithTimezone>)
        ensures
            r is Some <==> self.date is Some,
            r matches Some(d) ==> self.date matches Some(dd) && *d == dd,
    {
        match &self.date {
            Some(d) => Some(d),
            None => None,
        }
    }

    pub fn committer_date(&self) -> (r: Option<&TimestampWithTimezone>)
        ensures
            r is Some <==> self.committer_date is Some,
            r matches Some(d) ==> self.committer_date matches Some(dd) && *d == dd,
    {
        match &self.committer_date {
            Some(d) => Some(d),
            None => None,
        }
    }

    pub fn revision_type(&self) -> (r: RevisionType)
        ensures
            r == self.revision_type,
    {
        self.revision_type
    }

    pub fn directory(&self) -> (r: &Vec<u8>)
        ensures
            r@ == self.directory@,
    {
        &self.directory
    }

    pub fn synthetic(&self) -> (r: bool)
        ensures
            r == self.synthetic,
    {
        self.synthetic
    }

    pub fn metadata(&self) -> (r: Option<&HashMap<String, String>>)
        ensures
            r is Some <==> self.metadata is Some,
            r matches Some(m) ==> *m == self.metadata->Some_0,
    {
        match &self.metadata {
            Some(m) => Some(m),
            None => None,
        }
    }

    pub fn parents(&self) -> (r: &Vec<Vec<u8>>)
        ensures
            parents_view(r@) == parents_view(self.parents@),
    {
        &self.parents
    }

    pub fn extra_headers(&self) -> (r: &Vec<(Vec<u8>, Vec<u8>)>)
        ensures
            headers_view(r@) == headers_view(self.extra_headers@),
    {
        &self.extra_headers
    }

    pub fn id(&self) -> (r: &Vec<u8>)
        ensures
            r@ == self.id@,
    {
        &self.id
    }

    pub fn raw_manifest(&self) -> (r: Option<&Vec<u8>>)
        ensures
            r is Some <==> self.raw_manifest is Some,
            r matches Some(m) ==> self.raw_manifest matches Some(mm) && m@ == mm@,
    {
        match &self.raw_manifest {
            Some(m) => Some(m),
            None => None,
        }
    }

    /// Attaches a verbatim manifest, keeping every other field.
    pub fn with_raw_manifest(self, manifest: Vec<u8>) -> (r: Self)
        ensures
            r.raw_manifest matches Some(m) && m@ == manifest@,
            r.id@ == self.id@,
            r.directory@ == self.directory@,
    {
        let mut s = self;
        s.raw_manifest = Some(manifest);
        s
    }
}

} // verus!
