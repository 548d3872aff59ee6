use swhid::error::SwhidError;
use swhid::snapshot::{Snapshot, SnapshotBranch, SnapshotTargetType};
use swhid::swhid::ObjectType;

#[test]
fn test_snapshot_target_type() {
    assert_eq!(SnapshotTargetType::Revision.as_str(), "revision");
    assert_eq!(SnapshotTargetType::from_str("revision").unwrap(), SnapshotTargetType::Revision);
    assert!(SnapshotTargetType::from_str("invalid").is_err());
}

#[test]
fn test_snapshot_branch_creation() {
    let target = vec![0u8; 20];
    let branch = SnapshotBranch::new(target.clone(), SnapshotTargetType::Revision);

    assert_eq!(branch.target(), &target);
    assert_eq!(branch.target_type(), SnapshotTargetType::Revision);
}

#[test]
fn test_snapshot_branch_swhid() {
    let target = vec![0u8; 20];
    let branch = SnapshotBranch::new(target.clone(), SnapshotTargetType::Revision);

    let swhid = branch.swhid().unwrap();
    assert_eq!(swhid.object_type(), ObjectType::Revision);
    assert_eq!(swhid.object_id(), &target);
}

#[test]
fn test_snapshot_branch_alias_no_swhid() {
    let target = vec![0u8; 20];
    let branch = SnapshotBranch::new(target, SnapshotTargetType::Alias);

    assert_eq!(branch.swhid(), None);
}

#[test]
fn test_snapshot_branch_alias_never_identified() {
    // An alias has no identifier even with a non-empty, non-20-byte
    // payload, and even with a 20-byte one.
    let alias = SnapshotBranch::new(b"refs/heads/main".to_vec(), SnapshotTargetType::Alias);
    assert!(alias.swhid().is_none());
    let alias20 = SnapshotBranch::new(vec![7u8; 20], SnapshotTargetType::Alias);
    assert!(alias20.swhid().is_none());
    // A concrete branch with a bad width has none either.
    let bad = SnapshotBranch::new(vec![7u8; 3], SnapshotTargetType::Revision);
    assert!(bad.swhid().is_none());
}

#[test]
fn test_snapshot_creation() {
    let branch = SnapshotBranch::new(vec![0u8; 20], SnapshotTargetType::Revision);
    let branches = vec![(b"main".to_vec(), Some(branch))];

    let snapshot = Snapshot::new(branches).unwrap();

    assert_eq!(snapshot.branches().len(), 1);
    assert!(snapshot.get_branch(b"main").is_some());
}

#[test]
fn test_snapshot_swhid() {
    let snapshot = Snapshot::new(vec![]).unwrap();

    let swhid = snapshot.swhid();
    assert_eq!(swhid.object_type(), ObjectType::Snapshot);
    assert_eq!(swhid.object_id(), snapshot.id());
}

#[test]
fn test_snapshot_add_branch() {
    let mut snapshot = Snapshot::new(vec![]).unwrap();

    let branch = SnapshotBranch::new(vec![1u8; 20], SnapshotTargetType::Revision);
    snapshot.add_branch(b"main".to_vec(), branch).unwrap();

    assert_eq!(snapshot.branches().len(), 1);
    assert!(snapshot.get_branch(b"main").is_some());
}

#[test]
fn test_snapshot_remove_branch() {
    let branch = SnapshotBranch::new(vec![0u8; 20], SnapshotTargetType::Revision);
    let branches = vec![(b"main".to_vec(), Some(branch))];

    let mut snapshot = Snapshot::new(branches).unwrap();
    snapshot.remove_branch(b"main");

    assert_eq!(snapshot.branches().len(), 0);
    assert!(snapshot.get_branch(b"main").is_none());
}

#[test]
fn test_empty_snapshot_hash() {
    let snapshot = Snapshot::new(vec![]).unwrap();
    assert_eq!(snapshot.id(), &hex::decode("1a8893e6a86f444e8be8e7bda6cb34fb1735a00e").unwrap());
}

#[test]
fn test_snapshot_manifest_bytes() {
    let alias = SnapshotBranch::new(b"refs/heads/master".to_vec(), SnapshotTargetType::Alias);
    let rev = SnapshotBranch::new(vec![1u8; 20], SnapshotTargetType::Revision);
    let snapshot = Snapshot::new(vec![
        (b"refs/heads/master".to_vec(), Some(rev)),
        (b"HEAD".to_vec(), Some(alias)),
        (b"refs/tags/gone".to_vec(), None),
    ])
    .unwrap();
    let mut expected: Vec<u8> = Vec::new();
    expected.extend_from_slice(b"alias HEAD\x0017:refs/heads/master");
    expected.extend_from_slice(b"revision refs/heads/master\x0020:");
    expected.extend_from_slice(&[1u8; 20]);
    expected.extend_from_slice(b"dangling refs/tags/gone\x000:");
    assert_eq!(snapshot.to_git_snapshot_manifest(), expected);
}

#[test]
fn test_snapshot_known_hash() {
    let alias = SnapshotBranch::new(b"refs/heads/master".to_vec(), SnapshotTargetType::Alias);
    let rev = SnapshotBranch::new(vec![1u8; 20], SnapshotTargetType::Revision);
    let snapshot = Snapshot::new(vec![
        (b"HEAD".to_vec(), Some(alias)),
        (b"refs/heads/master".to_vec(), Some(rev)),
    ])
    .unwrap();
    assert_eq!(snapshot.id(), &hex::decode("53e9b4e620b737f32dee98acc773b616eaf5e636").unwrap());
}

#[test]
fn test_snapshot_insertion_order_irrelevant() {
    // The same branch set, handed over in different orders, hashes the
    // same: the manifest sorts branches by raw name bytes.
    let mk = || {
        (
            SnapshotBranch::new(vec![1u8; 20], SnapshotTargetType::Revision),
            SnapshotBranch::new(vec![2u8; 20], SnapshotTargetType::Release),
            SnapshotBranch::new(b"b".to_vec(), SnapshotTargetType::Alias),
        )
    };
    let (r1, l1, a1) = mk();
    let s1 = Snapshot::new(vec![
        (b"b".to_vec(), Some(r1)),
        (b"a".to_vec(), Some(l1)),
        (b"c".to_vec(), Some(a1)),
    ])
    .unwrap();
    let (r2, l2, a2) = mk();
    let s2 = Snapshot::new(vec![
        (b"c".to_vec(), Some(a2)),
        (b"b".to_vec(), Some(r2)),
        (b"a".to_vec(), Some(l2)),
    ])
    .unwrap();
    assert_eq!(s1.id(), s2.id());
    assert_eq!(s1.to_git_snapshot_manifest(), s2.to_git_snapshot_manifest());
}

#[test]
fn test_snapshot_rejects_bad_target_width() {
    let bad = SnapshotBranch::new(vec![1u8; 19], SnapshotTargetType::Revision);
    let r = Snapshot::new(vec![(b"main".to_vec(), Some(bad))]);
    assert!(matches!(r, Err(SwhidError::InvalidInput)));

    let mut snapshot = Snapshot::new(vec![]).unwrap();
    let bad = SnapshotBranch::new(vec![1u8; 21], SnapshotTargetType::Content);
    assert!(matches!(
        snapshot.add_branch(b"main".to_vec(), bad),
        Err(SwhidError::InvalidInput)
    ));
    assert_eq!(snapshot.branches().len(), 0);
}

#[test]
fn test_snapshot_add_and_remove_change_hash() {
    let mut snapshot = Snapshot::new(vec![]).unwrap();
    let empty_id = snapshot.id().clone();
    let branch = SnapshotBranch::new(vec![1u8; 20], SnapshotTargetType::Revision);
    snapshot.add_branch(b"main".to_vec(), branch).unwrap();
    assert_ne!(snapshot.id(), &empty_id);
    snapshot.remove_branch(b"main");
    assert_eq!(snapshot.id(), &empty_id);
}

#[test]
fn test_snapshot_last_entry_wins() {
    let r1 = SnapshotBranch::new(vec![1u8; 20], SnapshotTargetType::Revision);
    let r2 = SnapshotBranch::new(vec![2u8; 20], SnapshotTargetType::Revision);
    let snapshot = Snapshot::new(vec![
        (b"main".to_vec(), Some(r1)),
        (b"main".to_vec(), Some(r2)),
    ])
    .unwrap();
    assert_eq!(snapshot.branches().len(), 1);
    assert_eq!(snapshot.get_branch(b"main").unwrap().target(), &vec![2u8; 20]);
}
