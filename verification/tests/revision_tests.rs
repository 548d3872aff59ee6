use swhid::person::Person;
use swhid::revision::{Revision, RevisionType};
use swhid::swhid::ObjectType;
use swhid::timestamp::{Timestamp, TimestampWithTimezone};

#[test]
fn test_revision_type() {
    assert_eq!(RevisionType::Git.as_str(), "git");
    assert_eq!(RevisionType::from_str("git").unwrap(), RevisionType::Git);
    assert!(RevisionType::from_str("invalid").is_err());
}

#[test]
fn test_revision_creation() {
    let directory = vec![0u8; 20];
    let revision = Revision::new(
        Some(b"Initial commit".to_vec()),
        None,
        None,
        None,
        None,
        RevisionType::Git,
        directory.clone(),
        false,
        None,
        vec![],
        vec![],
    );

    assert_eq!(revision.message(), Some(&b"Initial commit".to_vec()));
    assert_eq!(revision.revision_type(), RevisionType::Git);
    assert_eq!(revision.directory(), &directory);
    assert!(!revision.synthetic());
    assert_eq!(revision.parents().len(), 0);
}

#[test]
fn test_revision_with_author_and_committer() {
    let author = Person::from_fullname("John Doe <john@example.com>").unwrap();
    let committer = Person::from_fullname("Jane Smith <jane@example.com>").unwrap();
    let timestamp = Timestamp::new(1234567890, 0).unwrap();
    let date = TimestampWithTimezone::from_numeric_offset(timestamp, 0, false);

    let revision = Revision::new(
        Some(b"Test commit".to_vec()),
        Some(author.clone()),
        Some(committer.clone()),
        Some(date.clone()),
        Some(date.clone()),
        RevisionType::Git,
        vec![0u8; 20],
        false,
        None,
        vec![],
        vec![],
    );

    assert_eq!(revision.author(), Some(&author));
    assert_eq!(revision.committer(), Some(&committer));
    assert_eq!(revision.date(), Some(&date));
    assert_eq!(revision.committer_date(), Some(&date));
}

#[test]
fn test_revision_swhid() {
    let revision = Revision::new(
        Some(b"Test".to_vec()),
        None,
        None,
        None,
        None,
        RevisionType::Git,
        vec![0u8; 20],
        false,
        None,
        vec![],
        vec![],
    );

    let swhid = revision.swhid();
    assert_eq!(swhid.object_type(), ObjectType::Revision);
    assert_eq!(swhid.object_id(), revision.id());
}

#[test]
fn test_revision_with_parents() {
    let parent1 = vec![1u8; 20];
    let parent2 = vec![2u8; 20];
    let parents = vec![parent1.clone(), parent2.clone()];

    let revision = Revision::new(
        Some(b"Merge commit".to_vec()),
        None,
        None,
        None,
        None,
        RevisionType::Git,
        vec![0u8; 20],
        false,
        None,
        parents.clone(),
        vec![],
    );

    assert_eq!(revision.parents(), &vec![parent1, parent2]);
    assert_eq!(revision.parent_swhids().len(), 2);
}

#[test]
fn test_revision_manifest_bytes() {
    let revision = Revision::new(
        Some(b"Test".to_vec()),
        None,
        None,
        None,
        None,
        RevisionType::Git,
        vec![0u8; 20],
        false,
        None,
        vec![],
        vec![],
    );
    let mut expected: Vec<u8> = Vec::new();
    expected.extend_from_slice(b"tree ");
    expected.extend_from_slice("0".repeat(40).as_bytes());
    expected.extend_from_slice(b"\n\nTest\n");
    assert_eq!(revision.to_git_object(), expected);
    assert_eq!(
        revision.id(),
        &hex::decode("219056ed0ee2b80ff2d2a6e573a1d27b7b1bcb3f").unwrap()
    );
}

#[test]
fn test_revision_parent_order_preserved() {
    // Parent order is caller-significant: swapping parents changes both
    // the manifest and the identifier.
    let a = vec![1u8; 20];
    let b = vec![2u8; 20];
    let make = |parents: Vec<Vec<u8>>| {
        Revision::new(
            None,
            None,
            None,
            None,
            None,
            RevisionType::Git,
            vec![0u8; 20],
            false,
            None,
            parents,
            vec![],
        )
    };
    let r1 = make(vec![a.clone(), b.clone()]);
    let r2 = make(vec![b, a]);
    assert_ne!(r1.id(), r2.id());
    let mut expected: Vec<u8> = Vec::new();
    expected.extend_from_slice(b"tree ");
    expected.extend_from_slice("0".repeat(40).as_bytes());
    expected.push(b'\n');
    expected.extend_from_slice(b"parent ");
    expected.extend_from_slice("01".repeat(20).as_bytes());
    expected.push(b'\n');
    expected.extend_from_slice(b"parent ");
    expected.extend_from_slice("02".repeat(20).as_bytes());
    expected.push(b'\n');
    expected.push(b'\n');
    assert_eq!(r1.to_git_object(), expected);
}

#[test]
fn test_revision_extra_headers_and_author_lines() {
    let author = Person::from_fullname("A <a@b>").unwrap();
    let ts = Timestamp::new(10, 0).unwrap();
    let date = TimestampWithTimezone::from_numeric_offset(ts, 0, false);
    let revision = Revision::new(
        None,
        Some(author.clone()),
        Some(author),
        Some(date.clone()),
        Some(date),
        RevisionType::Tar,
        vec![0u8; 20],
        true,
        None,
        vec![],
        vec![(b"gpgsig".to_vec(), b"xyz".to_vec())],
    );
    let mut expected: Vec<u8> = Vec::new();
    expected.extend_from_slice(b"tree ");
    expected.extend_from_slice("0".repeat(40).as_bytes());
    expected.push(b'\n');
    expected.extend_from_slice(b"author A <a@b> 10+00:00\n");
    expected.extend_from_slice(b"committer A <a@b> 10+00:00\n");
    expected.extend_from_slice(b"gpgsig xyz\n");
    expected.push(b'\n');
    assert_eq!(revision.to_git_object(), expected);
}

#[test]
fn test_revision_author_without_date_omitted() {
    // An author line is only written when both the author and the date
    // are present.
    let author = Person::from_fullname("A <a@b>").unwrap();
    let revision = Revision::new(
        None,
        Some(author),
        None,
        None,
        None,
        RevisionType::Git,
        vec![0u8; 20],
        false,
        None,
        vec![],
        vec![],
    );
    let mut expected: Vec<u8> = Vec::new();
    expected.extend_from_slice(b"tree ");
    expected.extend_from_slice("0".repeat(40).as_bytes());
    expected.extend_from_slice(b"\n\n");
    assert_eq!(revision.to_git_object(), expected);
}

#[test]
fn test_revision_type_names() {
    assert_eq!(RevisionType::Subversion.as_str(), "svn");
    assert_eq!(RevisionType::Mercurial.as_str(), "hg");
    assert_eq!(RevisionType::Bazaar.as_str(), "bzr");
    assert_eq!(RevisionType::from_str("svn").unwrap(), RevisionType::Subversion);
    assert_eq!(RevisionType::from_str("hg").unwrap(), RevisionType::Mercurial);
}
