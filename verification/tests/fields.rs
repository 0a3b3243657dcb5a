//! Decoding tests for the header and record field catalogs.

use pwsafe::field::Error;
use pwsafe::PwsafeHeaderField;
use pwsafe::PwsafeRecordField;

#[test]
fn header_version_decodes_little_endian() {
    match PwsafeHeaderField::new(0x00, vec![0x0e, 0x03]) {
        Ok(PwsafeHeaderField::Version(v)) => assert_eq!(v, 0x030e),
        other => panic!("unexpected {:?}", other),
    }
}

#[test]
fn header_version_wrong_length() {
    assert_eq!(
        PwsafeHeaderField::new(0x00, vec![1, 2, 3]),
        Err(Error::InvalidLength)
    );
    assert_eq!(PwsafeHeaderField::new(0x00, vec![]), Err(Error::InvalidLength));
}

#[test]
fn header_uuid_roundtrip() {
    let bytes: Vec<u8> = (0u8..16).collect();
    match PwsafeHeaderField::new(0x01, bytes.clone()) {
        Ok(PwsafeHeaderField::Uuid(u)) => assert_eq!(u.to_vec(), bytes),
        other => panic!("unexpected {:?}", other),
    }
    assert_eq!(
        PwsafeHeaderField::new(0x01, vec![0u8; 15]),
        Err(Error::InvalidLength)
    );
}

#[test]
fn header_text_fields_decode_utf8() {
    let s = "caf\u{e9} \u{2603}";
    match PwsafeHeaderField::new(0x09, s.as_bytes().to_vec()) {
        Ok(PwsafeHeaderField::DatabaseName(name)) => assert_eq!(name, s),
        other => panic!("unexpected {:?}", other),
    }
    match PwsafeHeaderField::new(0x02, b"prefs".to_vec()) {
        Ok(PwsafeHeaderField::Preferences(p)) => assert_eq!(p, "prefs"),
        other => panic!("unexpected {:?}", other),
    }
}

#[test]
fn header_text_fields_reject_bad_utf8() {
    assert_eq!(
        PwsafeHeaderField::new(0x05, vec![0xff, 0xfe]),
        Err(Error::InvalidUtf8)
    );
}

#[test]
fn header_timestamp_decodes() {
    match PwsafeHeaderField::new(0x04, vec![0x78, 0x56, 0x34, 0x12]) {
        Ok(PwsafeHeaderField::LastSaveTimestamp(t)) => assert_eq!(t, 0x12345678),
        other => panic!("unexpected {:?}", other),
    }
    assert_eq!(
        PwsafeHeaderField::new(0x13, vec![1, 2]),
        Err(Error::InvalidLength)
    );
}

#[test]
fn header_unknown_tag_kept_as_blob() {
    let data = vec![0xde, 0xad, 0xbe, 0xef];
    match PwsafeHeaderField::new(0x0c, data.clone()) {
        Ok(PwsafeHeaderField::Blob(b)) => assert_eq!(b, data),
        other => panic!("unexpected {:?}", other),
    }
}

#[test]
fn header_end_marker() {
    assert_eq!(
        PwsafeHeaderField::new(0xff, vec![]),
        Ok(PwsafeHeaderField::EndOfHeader)
    );
}

#[test]
fn record_title_and_password() {
    match PwsafeRecordField::new(0x03, b"mail".to_vec()) {
        Ok(PwsafeRecordField::Title(t)) => assert_eq!(t, "mail"),
        other => panic!("unexpected {:?}", other),
    }
    match PwsafeRecordField::new(0x06, b"s3cret".to_vec()) {
        Ok(PwsafeRecordField::Password(p)) => assert_eq!(p, "s3cret"),
        other => panic!("unexpected {:?}", other),
    }
}

#[test]
fn record_uuid_and_times() {
    let bytes = vec![9u8; 16];
    match PwsafeRecordField::new(0x01, bytes.clone()) {
        Ok(PwsafeRecordField::Uuid(u)) => assert_eq!(u.to_vec(), bytes),
        other => panic!("unexpected {:?}", other),
    }
    match PwsafeRecordField::new(0x07, vec![0, 0, 0, 1]) {
        Ok(PwsafeRecordField::CreationTime(t)) => assert_eq!(t, 0x01000000),
        other => panic!("unexpected {:?}", other),
    }
    assert_eq!(
        PwsafeRecordField::new(0x0c, vec![1]),
        Err(Error::InvalidLength)
    );
}

#[test]
fn record_small_integers() {
    match PwsafeRecordField::new(0x13, vec![0x02, 0x01]) {
        Ok(PwsafeRecordField::DoubleClickAction(a)) => assert_eq!(a, 0x0102),
        other => panic!("unexpected {:?}", other),
    }
    match PwsafeRecordField::new(0x15, vec![1]) {
        Ok(PwsafeRecordField::ProtectedEntry(p)) => assert_eq!(p, 1),
        other => panic!("unexpected {:?}", other),
    }
    assert_eq!(
        PwsafeRecordField::new(0x15, vec![1, 2]),
        Err(Error::InvalidLength)
    );
}

#[test]
fn record_two_factor_key_raw() {
    let data = vec![0xff, 0x00, 0x80];
    match PwsafeRecordField::new(0x1b, data.clone()) {
        Ok(PwsafeRecordField::TwoFactorKey(k)) => assert_eq!(k, data),
        other => panic!("unexpected {:?}", other),
    }
}

#[test]
fn record_unknown_and_end() {
    let data = vec![5, 6, 7];
    match PwsafeRecordField::new(0x2a, data.clone()) {
        Ok(PwsafeRecordField::Blob(b)) => assert_eq!(b, data),
        other => panic!("unexpected {:?}", other),
    }
    assert_eq!(
        PwsafeRecordField::new(0xff, vec![]),
        Ok(PwsafeRecordField::EndOfRecord)
    );
    assert_eq!(
        PwsafeRecordField::new(0x02, vec![0xc0]),
        Err(Error::InvalidUtf8)
    );
}
