use swhid::person::Person;
use swhid::release::{Release, ReleaseTargetType};
use swhid::swhid::ObjectType;
use swhid::timestamp::{Timestamp, TimestampWithTimezone};

#[test]
fn test_release_target_type() {
    assert_eq!(ReleaseTargetType::Revision.as_str(), "revision");
    assert_eq!(ReleaseTargetType::from_str("revision").unwrap(), ReleaseTargetType::Revision);
    assert!(ReleaseTargetType::from_str("invalid").is_err());
}

#[test]
fn test_release_creation() {
    let target = vec![0u8; 20];
    let release = Release::new(
        b"v1.0.0".to_vec(),
        Some(b"Release v1.0.0".to_vec()),
        Some(target.clone()),
        ReleaseTargetType::Revision,
        false,
        None,
        None,
        None,
    );

    assert_eq!(release.name(), &b"v1.0.0".to_vec());
    assert_eq!(release.message(), Some(&b"Release v1.0.0".to_vec()));
    assert_eq!(release.target(), Some(&target));
    assert_eq!(release.target_type(), ReleaseTargetType::Revision);
    assert!(!release.synthetic());
}

#[test]
fn test_release_with_author_and_date() {
    let author = Person::from_fullname("John Doe <john@example.com>").unwrap();
    let timestamp = Timestamp::new(1234567890, 0).unwrap();
    let date = TimestampWithTimezone::from_numeric_offset(timestamp, 0, false);

    let release = Release::new(
        b"v2.0.0".to_vec(),
        Some(b"Release v2.0.0".to_vec()),
        Some(vec![0u8; 20]),
        ReleaseTargetType::Revision,
        false,
        Some(author.clone()),
        Some(date.clone()),
        None,
    );

    assert_eq!(release.author(), Some(&author));
    assert_eq!(release.date(), Some(&date));
}

#[test]
fn test_release_swhid() {
    let release = Release::new(
        b"v1.0.0".to_vec(),
        Some(b"Test release".to_vec()),
        Some(vec![0u8; 20]),
        ReleaseTargetType::Revision,
        false,
        None,
        None,
        None,
    );

    let swhid = release.swhid();
    assert_eq!(swhid.object_type(), ObjectType::Release);
    assert_eq!(swhid.object_id(), release.id());
}

#[test]
fn test_release_target_swhid() {
    let target = vec![1u8; 20];
    let release = Release::new(
        b"v1.0.0".to_vec(),
        None,
        Some(target.clone()),
        ReleaseTargetType::Revision,
        false,
        None,
        None,
        None,
    );

    let target_swhid = release.target_swhid().unwrap();
    assert_eq!(target_swhid.object_type(), ObjectType::Revision);
    assert_eq!(target_swhid.object_id(), &target);
}

#[test]
fn test_release_without_target() {
    let release = Release::new(
        b"v1.0.0".to_vec(),
        None,
        None,
        ReleaseTargetType::Revision,
        false,
        None,
        None,
        None,
    );

    assert_eq!(release.target_swhid(), None);
}

#[test]
fn test_release_manifest_bytes() {
    // The exact canonical encoding, line by line.
    let author = Person::from_fullname("John Doe <john@example.com>").unwrap();
    let ts = Timestamp::new(1234567890, 0).unwrap();
    let date = TimestampWithTimezone::from_numeric_offset(ts, 0, false);
    let release = Release::new(
        b"v1.0.0".to_vec(),
        Some(b"Notes".to_vec()),
        Some(vec![0xabu8; 20]),
        ReleaseTargetType::Revision,
        false,
        Some(author),
        Some(date),
        None,
    );
    let mut expected: Vec<u8> = Vec::new();
    expected.extend_from_slice(b"object ");
    expected.extend_from_slice("ab".repeat(20).as_bytes());
    expected.extend_from_slice(b"\ntype commit\ntag v1.0.0\n");
    expected.extend_from_slice(b"tagger John Doe <john@example.com> 1234567890+00:00\n");
    expected.extend_from_slice(b"\nNotes\n");
    assert_eq!(release.to_git_object(), expected);
}

#[test]
fn test_release_manifest_without_target() {
    let release = Release::new(
        b"tip".to_vec(),
        None,
        None,
        ReleaseTargetType::Content,
        true,
        None,
        None,
        None,
    );
    assert_eq!(release.to_git_object(), b"type blob\ntag tip\n\n".to_vec());
}

#[test]
fn test_release_type_names() {
    assert_eq!(ReleaseTargetType::Content.as_str(), "content");
    assert_eq!(ReleaseTargetType::Directory.as_str(), "directory");
    assert_eq!(ReleaseTargetType::Release.as_str(), "release");
    assert_eq!(ReleaseTargetType::Snapshot.as_str(), "snapshot");
    assert_eq!(ReleaseTargetType::from_str("content").unwrap(), ReleaseTargetType::Content);
}
