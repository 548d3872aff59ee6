use swhid::person::Person;
use swhid::timestamp::{Timestamp, TimestampWithTimezone};

#[test]
fn test_person_from_fullname() {
    let person = Person::from_fullname("John Doe <john@example.com>").unwrap();
    assert_eq!(person.name_str().unwrap(), Some("John Doe".to_string()));
    assert_eq!(person.email_str().unwrap(), Some("john@example.com".to_string()));
}

#[test]
fn test_person_from_fullname_no_email() {
    let person = Person::from_fullname("John Doe").unwrap();
    assert_eq!(person.name_str().unwrap(), Some("John Doe".to_string()));
    assert_eq!(person.email_str().unwrap(), None);
}

#[test]
fn test_person_anonymize() {
    let person = Person::from_fullname("John Doe <john@example.com>").unwrap();
    let anonymized = person.anonymize();
    assert_eq!(anonymized.name_str().unwrap(), Some("Anonymous".to_string()));
    assert_eq!(anonymized.email_str().unwrap(), Some("anonymous@example.com".to_string()));
}

#[test]
fn test_person_display() {
    let person = Person::from_fullname("John Doe <john@example.com>").unwrap();
    assert_eq!(person.display_string(), "John Doe <john@example.com>");
}

#[test]
fn test_person_fullname_verbatim() {
    // The full name keeps the raw input even when the parse trims it.
    let person = Person::from_fullname("  Ada Lovelace   <ada@example.org>").unwrap();
    assert_eq!(person.fullname, b"  Ada Lovelace   <ada@example.org>".to_vec());
    assert_eq!(person.name, Some(b"Ada Lovelace".to_vec()));
    assert_eq!(person.email, Some(b"ada@example.org".to_vec()));
}

#[test]
fn test_person_email_only() {
    let person = Person::from_fullname("<ada@example.org>").unwrap();
    assert_eq!(person.name, None);
    assert_eq!(person.email, Some(b"ada@example.org".to_vec()));
}

#[test]
fn test_person_last_brackets_win() {
    let person = Person::from_fullname("a <b> c <d>").unwrap();
    assert_eq!(person.email, Some(b"d".to_vec()));
    assert_eq!(person.name, Some(b"a <b> c".to_vec()));
}

#[test]
fn test_person_unordered_brackets() {
    // A `>` before the last `<` means no email at all.
    let person = Person::from_fullname("a> <b").unwrap();
    assert_eq!(person.email, None);
    assert_eq!(person.name, Some(b"a> <b".to_vec()));
}

#[test]
fn test_person_empty_input() {
    let person = Person::from_fullname("").unwrap();
    assert_eq!(person.name, None);
    assert_eq!(person.email, None);
    assert_eq!(person.fullname, Vec::<u8>::new());
}

#[test]
fn test_person_format_for_git() {
    let person = Person::from_fullname("John Doe <john@example.com>").unwrap();
    let ts = Timestamp::new(1234567890, 0).unwrap();
    let tz = TimestampWithTimezone::from_numeric_offset(ts, 120, false);
    assert_eq!(person.format_for_git(None), b"John Doe <john@example.com>".to_vec());
    assert_eq!(
        person.format_for_git(Some(&tz)),
        b"John Doe <john@example.com> 1234567890+02:00".to_vec()
    );
}

#[test]
fn test_timestamp_creation() {
    let ts = Timestamp::new(1234567890, 123456).unwrap();
    assert_eq!(ts.seconds, 1234567890);
    assert_eq!(ts.microseconds, 123456);
}

#[test]
fn test_timestamp_validation() {
    assert!(Timestamp::new(Timestamp::MIN_SECONDS - 1, 0).is_err());
    assert!(Timestamp::new(Timestamp::MAX_SECONDS + 1, 0).is_err());
    assert!(Timestamp::new(0, Timestamp::MAX_MICROSECONDS + 1).is_err());
}

#[test]
fn test_timestamp_boundaries() {
    // Construction succeeds at the exact boundary values.
    assert!(Timestamp::new(-62135510961, 0).is_ok());
    assert!(Timestamp::new(253402297199, 0).is_ok());
    assert!(Timestamp::new(0, 999999).is_ok());
    assert!(Timestamp::new(-62135510962, 0).is_err());
    assert!(Timestamp::new(253402297200, 0).is_err());
    assert!(Timestamp::new(0, 1000000).is_err());
}

#[test]
fn test_timestamp_format_for_git() {
    let ts = Timestamp::new(1234567890, 0).unwrap();
    assert_eq!(ts.format_for_git(), b"1234567890");

    let ts = Timestamp::new(1234567890, 123456).unwrap();
    assert_eq!(ts.format_for_git(), b"1234567890.123456");
}

#[test]
fn test_timestamp_format_negative_and_padded() {
    let ts = Timestamp::new(-17, 0).unwrap();
    assert_eq!(ts.format_for_git(), b"-17");
    let ts = Timestamp::new(-17, 42).unwrap();
    assert_eq!(ts.format_for_git(), b"-17.000042");
    let ts = Timestamp::new(0, 0).unwrap();
    assert_eq!(ts.format_for_git(), b"0");
}

#[test]
fn test_timestamp_with_timezone() {
    let ts = Timestamp::new(1234567890, 0).unwrap();
    let tz = TimestampWithTimezone::from_numeric_offset(ts, 300, false); // +05:00
    assert_eq!(tz.offset_minutes().unwrap(), 300);
}

#[test]
fn test_timestamp_with_timezone_format() {
    let ts = Timestamp::new(1234567890, 0).unwrap();
    let tz = TimestampWithTimezone::from_numeric_offset(ts, 300, false);
    assert_eq!(tz.format_for_git(), b"1234567890+05:00");
}

#[test]
fn test_negative_utc_offset() {
    let ts = Timestamp::new(0, 0).unwrap();
    let tz = TimestampWithTimezone::from_numeric_offset(ts, 0, true);
    assert_eq!(tz.offset_bytes, b"-00:00".to_vec());
    assert_eq!(tz.offset_minutes().unwrap(), 0);
}

#[test]
fn test_offset_minutes_rejects_malformed_tokens() {
    let ts = Timestamp::new(0, 0).unwrap();
    let bad: Vec<&[u8]> = vec![b"0500", b"+0500", b"+05x00", b"05:00", b"+5:00", b"+05:0a", b""];
    for token in bad {
        let tz = TimestampWithTimezone::new(ts.clone(), token.to_vec());
        assert!(tz.offset_minutes().is_err());
    }
    let tz = TimestampWithTimezone::new(ts.clone(), b"-07:30".to_vec());
    assert_eq!(tz.offset_minutes().unwrap(), -450);
}

#[test]
fn test_utc_seconds_applies_offset() {
    let ts = Timestamp::new(3600, 0).unwrap();
    let tz = TimestampWithTimezone::from_numeric_offset(ts, 60, false);
    assert_eq!(tz.utc_seconds().unwrap(), 0);
}

#[test]
fn test_person_display_lossy_fallback() {
    // A full name that is not UTF-8 is decoded leniently when no parsed
    // name can be shown.
    let p = Person::with_details(vec![0xff, 0xfe], None, None);
    assert_eq!(p.display_string(), "\u{fffd}\u{fffd}");
    // An unreadable parsed name also falls back to the full name.
    let p = Person::with_details(b"Bob <b@x>".to_vec(), Some(vec![0xff]), Some(b"b@x".to_vec()));
    assert_eq!(p.display_string(), "Bob <b@x>");
}

#[test]
fn test_person_str_accessors_reject_invalid_utf8() {
    let p = Person::with_details(vec![0xff], Some(vec![0xc0]), Some(b"ok@x".to_vec()));
    assert!(p.fullname_str().is_err());
    assert!(p.name_str().is_err());
    assert_eq!(p.email_str().unwrap(), Some("ok@x".to_string()));
}

#[test]
fn test_person_display_name_only() {
    let p = Person::from_fullname("Solo").unwrap();
    assert_eq!(p.display_string(), "Solo");
}
