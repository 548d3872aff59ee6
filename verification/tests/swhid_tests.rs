use swhid::error::SwhidError;
use swhid::swhid::{ObjectType, Swhid};

#[test]
fn test_swhid_creation() {
    let object_id = vec![0u8; 20];
    let swhid = Swhid::new(ObjectType::Content, object_id.clone());

    assert_eq!(swhid.namespace(), "swh");
    assert_eq!(swhid.scheme_version(), 1);
    assert_eq!(swhid.object_type(), ObjectType::Content);
    assert_eq!(swhid.object_id(), &object_id);
}

#[test]
fn test_swhid_parsing() {
    let swhid_str = "swh:1:cnt:0000000000000000000000000000000000000000";
    let swhid = Swhid::from_string(swhid_str).unwrap();

    assert_eq!(swhid.namespace(), "swh");
    assert_eq!(swhid.scheme_version(), 1);
    assert_eq!(swhid.object_type(), ObjectType::Content);
    assert_eq!(swhid.object_id(), &vec![0u8; 20]);
}

#[test]
fn test_swhid_display() {
    let object_id = vec![0u8; 20];
    let swhid = Swhid::new(ObjectType::Content, object_id);
    let expected = "swh:1:cnt:0000000000000000000000000000000000000000";

    assert_eq!(swhid.encode(), expected);
}

#[test]
fn test_invalid_format() {
    let result = Swhid::from_string("invalid");
    assert!(result.is_err());
}

#[test]
fn test_invalid_namespace() {
    let result = Swhid::from_string("invalid:1:cnt:0000000000000000000000000000000000000000");
    assert!(result.is_err());
}

#[test]
fn test_invalid_object_type() {
    let result = Swhid::from_string("swh:1:invalid:0000000000000000000000000000000000000000");
    assert!(result.is_err());
}

#[test]
fn test_invalid_hash_length() {
    let result = Swhid::from_string("swh:1:cnt:123");
    assert!(result.is_err());
}

#[test]
fn test_swhid_string_parsing() {
    let swhid_str = "swh:1:cnt:95d09f2b10159347eece71399a7e2cc70638e9a7";
    let swhid = Swhid::from_string(swhid_str).unwrap();

    assert_eq!(swhid.namespace(), "swh");
    assert_eq!(swhid.scheme_version(), 1);
    assert_eq!(swhid.object_type(), ObjectType::Content);
    assert_eq!(swhid.encode(), swhid_str);
}

#[test]
fn test_swhid_string_parsing_invalid() {
    let invalid_swhids = vec![
        "invalid",
        "swh:2:cnt:95d09f2b10159347eece71399a7e2cc70638e9a7", // wrong version
        "swh:1:invalid:95d09f2b10159347eece71399a7e2cc70638e9a7", // wrong type
        "swh:1:cnt:invalid", // wrong hash
    ];

    for invalid in invalid_swhids {
        assert!(Swhid::from_string(invalid).is_err());
    }
}

#[test]
fn test_parse_error_variants() {
    // Each failing check reports its own error kind, in field order.
    assert_eq!(Swhid::from_string("abc").unwrap_err(), SwhidError::InvalidFormat);
    assert_eq!(Swhid::from_string("a:b:c:d:e").unwrap_err(), SwhidError::InvalidFormat);
    assert_eq!(
        Swhid::from_string("xyz:1:cnt:0000000000000000000000000000000000000000").unwrap_err(),
        SwhidError::InvalidNamespace
    );
    assert_eq!(
        Swhid::from_string("swh:2:cnt:0000000000000000000000000000000000000000").unwrap_err(),
        SwhidError::InvalidVersion
    );
    assert_eq!(
        Swhid::from_string("swh:1:xxx:0000000000000000000000000000000000000000").unwrap_err(),
        SwhidError::InvalidObjectType
    );
    assert_eq!(Swhid::from_string("swh:1:cnt:1234").unwrap_err(), SwhidError::InvalidHashLength(4));
    assert_eq!(
        Swhid::from_string("swh:1:cnt:zzzz000000000000000000000000000000000000").unwrap_err(),
        SwhidError::InvalidHash
    );
    // Uppercase hex is not the canonical form and is rejected.
    assert_eq!(
        Swhid::from_string("swh:1:cnt:ABCD000000000000000000000000000000000000").unwrap_err(),
        SwhidError::InvalidHash
    );
}

#[test]
fn test_round_trip_all_types() {
    // Re-encoding what was parsed yields the identical string.
    let samples = vec![
        "swh:1:cnt:95d09f2b10159347eece71399a7e2cc70638e9a7",
        "swh:1:dir:4b825dc642cb6eb9a060e54bf8d69288fbee4904",
        "swh:1:rev:0123456789abcdef0123456789abcdef01234567",
        "swh:1:rel:ffffffffffffffffffffffffffffffffffffffff",
        "swh:1:snp:1a8893e6a86f444e8be8e7bda6cb34fb1735a00e",
    ];
    for s in samples {
        let parsed = Swhid::from_string(s).unwrap();
        assert_eq!(parsed.encode(), s);
    }
}

#[test]
fn test_lenient_version_field() {
    // The version field parses as an unsigned integer, so a leading zero
    // or plus sign still names version one.
    let a = Swhid::from_string("swh:01:cnt:95d09f2b10159347eece71399a7e2cc70638e9a7").unwrap();
    let b = Swhid::from_string("swh:+1:cnt:95d09f2b10159347eece71399a7e2cc70638e9a7").unwrap();
    assert_eq!(a.scheme_version(), 1);
    assert_eq!(a, b);
    assert!(Swhid::from_string("swh:10:cnt:95d09f2b10159347eece71399a7e2cc70638e9a7").is_err());
    assert!(Swhid::from_string("swh::cnt:95d09f2b10159347eece71399a7e2cc70638e9a7").is_err());
}

#[test]
fn test_object_type_tags() {
    assert_eq!(ObjectType::Content.as_str(), "cnt");
    assert_eq!(ObjectType::Directory.as_str(), "dir");
    assert_eq!(ObjectType::Revision.as_str(), "rev");
    assert_eq!(ObjectType::Release.as_str(), "rel");
    assert_eq!(ObjectType::Snapshot.as_str(), "snp");
    assert_eq!(ObjectType::from_str("dir").unwrap(), ObjectType::Directory);
    assert!(matches!(ObjectType::from_str("tree"), Err(SwhidError::InvalidObjectType)));
}
