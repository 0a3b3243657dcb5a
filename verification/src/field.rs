//! Typed decoding of field payloads: the closed catalogs of header and
//! record field tags, each mapping a one-byte tag to a decoding rule.

use vstd::prelude::*;
use crate::model::{le16, le32};
use crate::util::{read_le16, read_le32};

verus! {

/// Field decoding error.
#[derive(Debug, Clone, Copy, PartialEq, Eq, Structural)]
pub enum Error {
    /// The payload length does not fit the field type.
    InvalidLength,
    /// The payload is not valid UTF-8 where text is required.
    InvalidUtf8,
}

/// What `String::from_utf8` yields on these bytes: the decoded
/// characters, or nothing when the bytes are not valid UTF-8.
pub uninterp spec fn utf8_decode(bytes: Seq<u8>) -> Option<Seq<char>>;

/// Relies on std's `String::from_utf8`: it succeeds exactly on valid
/// UTF-8, and the decoded characters depend on the input bytes alone.
#[verifier::external_body]
fn bytes_to_string(data: Vec<u8>) -> (r: Option<String>)
    ensures
        (match r {
            Some(s) => utf8_decode(data@) == Some(s@),
            None => utf8_decode(data@) is None,
        }),
{
    String::from_utf8(data).ok()
}

fn parse_u16(data: Vec<u8>) -> (r: Result<u16, Error>)
    ensures
        (match r {
            Ok(v) => data@.len() == 2 && v == le16(data@),
            Err(e) => data@.len() != 2 && e == Error::InvalidLength,
        }),
{
    if data.len() != 2 {
        return Err(Error::InvalidLength);
    }
    let v = read_le16(data[0], data[1]);
    proof {
        assert(seq![data@[0], data@[1]] =~= data@);
    }
    Ok(v)
}

fn parse_u32(data: Vec<u8>) -> (r: Result<u32, Error>)
    ensures
        (match r {
            Ok(v) => data@.len() == 4 && v == le32(data@),
            Err(e) => data@.len() != 4 && e == Error::InvalidLength,
        }),
{
    if data.len() != 4 {
        return Err(Error::InvalidLength);
    }
    let v = read_le32(data[0], data[1], data[2], data[3]);
    proof {
        assert(seq![data@[0], data@[1], data@[2], data@[3]] =~= data@);
    }
    Ok(v)
}

/// Header tags that decode to UTF-8 text.
pub open spec fn header_is_text(t: u8) -> bool {
    t == 0x02 || t == 0x03 || (0x05 <= t && t <= 0x0b) || t == 0x0f || t == 0x10 || t == 0x11
        || t == 0x12
}

/// Header tags with a decoding rule of their own (everything else is
/// kept as an opaque blob).
pub open spec fn header_known(t: u8) -> bool {
    t == 0x00 || t == 0x01 || t == 0x04 || t == 0x13 || t == 0xff || header_is_text(t)
}

/// The inputs on which header-field decoding succeeds.
pub open spec fn header_parse_ok(t: u8, data: Seq<u8>) -> bool {
    if t == 0x00 {
        data.len() == 2
    } else if t == 0x01 {
        data.len() == 16
    } else if t == 0x04 || t == 0x13 {
        data.len() == 4
    } else if header_is_text(t) {
        utf8_decode(data) is Some
    } else {
        true
    }
}

/// The error reported when header-field decoding fails.
pub open spec fn header_parse_err(t: u8) -> Error {
    if header_is_text(t) {
        Error::InvalidUtf8
    } else {
        Error::InvalidLength
    }
}

/// Password Safe header field.
#[derive(Debug, PartialEq, Eq)]
pub enum PwsafeHeaderField {
    /// Version
    Version(u16),
    /// UUID
    Uuid([u8; 16]),
    /// Non-default preferences
    Preferences(String),
    /// Tree Display Status
    TreeDisplayStatus(String),
    /// Timestamp of last save
    LastSaveTimestamp(u32),
    /// Who performed last save
    LastSaveWho(String),
    /// What performed last save
    LastSaveWhat(String),
    /// Last saved by user
    LastSaveUser(String),
    /// Last saved on host
    LastSaveHost(String),
    /// Database Name
    DatabaseName(String),
    /// Database Description
    DatabaseDescription(String),
    /// Database Filters
    DatabaseFilters(String),
    /// Recently Used Entries
    RecentlyUsedEntries(String),
    /// Named Password Policies
    NamedPasswordPolicies(String),
    /// EmptyGroups
    EmptyGroups(String),
    /// Yubico
    Yubico(String),
    /// Timestamp of last master password change
    LastMasterPasswordChange(u32),
    /// Unknown field type stored as-is
    Blob(Vec<u8>),
    /// End of header
    EndOfHeader,
}

/// The decoded header field `f` is what tag `t` and payload `data` say.
pub open spec fn header_field_matches(t: u8, data: Seq<u8>, f: PwsafeHeaderField) -> bool {
    match f {
        PwsafeHeaderField::Version(v) => t == 0x00 && data.len() == 2 && v == le16(data),
        PwsafeHeaderField::Uuid(u) => t == 0x01 && data.len() == 16 && u@ == data,
        PwsafeHeaderField::Preferences(s) => t == 0x02 && utf8_decode(data) == Some(s@),
        PwsafeHeaderField::TreeDisplayStatus(s) => t == 0x03 && utf8_decode(data) == Some(s@),
        PwsafeHeaderField::LastSaveTimestamp(x) => t == 0x04 && data.len() == 4 && x == le32(data),
        PwsafeHeaderField::LastSaveWho(s) => t == 0x05 && utf8_decode(data) == Some(s@),
        PwsafeHeaderField::LastSaveWhat(s) => t == 0x06 && utf8_decode(data) == Some(s@),
        PwsafeHeaderField::LastSaveUser(s) => t == 0x07 && utf8_decode(data) == Some(s@),
        PwsafeHeaderField::LastSaveHost(s) => t == 0x08 && utf8_decode(data) == Some(s@),
        PwsafeHeaderField::DatabaseName(s) => t == 0x09 && utf8_decode(data) == Some(s@),
        PwsafeHeaderField::DatabaseDescription(s) => t == 0x0a && utf8_decode(data) == Some(s@),
        PwsafeHeaderField::DatabaseFilters(s) => t == 0x0b && utf8_decode(data) == Some(s@),
        PwsafeHeaderField::RecentlyUsedEntries(s) => t == 0x0f && utf8_decode(data) == Some(s@),
        PwsafeHeaderField::NamedPasswordPolicies(s) => t == 0x10 && utf8_decode(data) == Some(s@),
        PwsafeHeaderField::EmptyGroups(s) => t == 0x11 && utf8_decode(data) == Some(s@),
        PwsafeHeaderField::Yubico(s) => t == 0x12 && utf8_decode(data) == Some(s@),
        PwsafeHeaderField::LastMasterPasswordChange(x) => t == 0x13 && data.len() == 4 && x == le32(
            data,
        ),
        PwsafeHeaderField::Blob(b) => !header_known(t) && b@ == data,
        PwsafeHeaderField::EndOfHeader => t == 0xff,
    }
}

impl PwsafeHeaderField {
    /// Decodes one header field from its type tag and payload bytes.
    pub fn new(field_type: u8, data: Vec<u8>) -> (r: Result<Self, Error>)
        ensures
            r is Ok <==> header_parse_ok(field_type, data@),
            (match r {
                Ok(f) => header_field_matches(field_type, data@, f),
                Err(e) => e == header_parse_err(field_type),
            }),
    {
        match field_type {
            0x00 => match parse_u16(data) {
                Ok(v) => Ok(PwsafeHeaderField::Version(v)),
                Err(e) => Err(e),
            },
            0x01 => {
                if data.len() != 16 {
                    return Err(Error::InvalidLength);
                }
                let uuid: [u8; 16] = [
                    data[0], data[1], data[2], data[3], data[4], data[5], data[6], data[7],
                    data[8], data[9], data[10], data[11], data[12], data[13], data[14], data[15],
                ];
                proof {
                    assert(uuid@ =~= data@);
                }
                Ok(PwsafeHeaderField::Uuid(uuid))
            },
            0x02 => match bytes_to_string(data) {
                Some(s) => Ok(PwsafeHeaderField::Preferences(s)),
                None => Err(Error::InvalidUtf8),
            },
            0x03 => match bytes_to_string(data) {
                Some(s) => Ok(PwsafeHeaderField::TreeDisplayStatus(s)),
                None => Err(Error::InvalidUtf8),
            },
            0x04 => match parse_u32(data) {
                Ok(v) => Ok(PwsafeHeaderField::LastSaveTimestamp(v)),
                Err(e) => Err(e),
            },
            0x05 => match bytes_to_string(data) {
                Some(s) => Ok(PwsafeHeaderField::LastSaveWho(s)),
                None => Err(Error::InvalidUtf8),
            },
            0x06 => match bytes_to_string(data) {
                Some(s) => Ok(PwsafeHeaderField::LastSaveWhat(s)),
                None => Err(Error::InvalidUtf8),
            },
            0x07 => match bytes_to_string(data) {
                Some(s) => Ok(PwsafeHeaderField::LastSaveUser(s)),
                None => Err(Error::InvalidUtf8),
            },
            0x08 => match bytes_to_string(data) {
                Some(s) => Ok(PwsafeHeaderField::LastSaveHost(s)),
                None => Err(Error::InvalidUtf8),
            },
            0x09 => match bytes_to_string(data) {
                Some(s) => Ok(PwsafeHeaderField::DatabaseName(s)),
                None => Err(Error::InvalidUtf8),
            },
            0x0a => match bytes_to_string(data) {
                Some(s) => Ok(PwsafeHeaderField::DatabaseDescription(s)),
                None => Err(Error::InvalidUtf8),
            },
            0x0b => match bytes_to_string(data) {
                Some(s) => Ok(PwsafeHeaderField::DatabaseFilters(s)),
                None => Err(Error::InvalidUtf8),
            },
            0x0f => match bytes_to_string(data) {
                Some(s) => Ok(PwsafeHeaderField::RecentlyUsedEntries(s)),
                None => Err(Error::InvalidUtf8),
            },
            0x10 => match bytes_to_string(data) {
                Some(s) => Ok(PwsafeHeaderField::NamedPasswordPolicies(s)),
                None => Err(Error::InvalidUtf8),
            },
            0x11 => match bytes_to_string(data) {
                Some(s) => Ok(PwsafeHeaderField::EmptyGroups(s)),
                None => Err(Error::InvalidUtf8),
            },
            0x12 => match bytes_to_string(data) {
                Some(s) => Ok(PwsafeHeaderField::Yubico(s)),
                None => Err(Error::InvalidUtf8),
            },
            0x13 => match parse_u32(data) {
                Ok(v) => Ok(PwsafeHeaderField::LastMasterPasswordChange(v)),
                Err(e) => Err(e),
            },
            0xff => Ok(PwsafeHeaderField::EndOfHeader),
            _ => Ok(PwsafeHeaderField::Blob(data)),
        }
    }
}

/// Record tags that decode to UTF-8 text.
pub open spec fn record_is_text(t: u8) -> bool {
    (0x02 <= t && t <= 0x06) || (0x0d <= t && t <= 0x10) || t == 0x12 || t == 0x14 || t == 0x16
        || t == 0x18 || (0x1c <= t && t <= 0x20)
}

/// Record tags that decode to a 32-bit little-endian integer.
pub open spec fn record_is_u32(t: u8) -> bool {
    (0x07 <= t && t <= 0x0a) || t == 0x0c || t == 0x11 || t == 0x19
}

/// Record tags that decode to a 16-bit little-endian integer.
pub open spec fn record_is_u16(t: u8) -> bool {
    t == 0x13 || t == 0x17
}

/// Record tags with a decoding rule of their own (everything else is
/// kept as an opaque blob).
pub open spec fn record_known(t: u8) -> bool {
    t == 0x01 || t == 0x15 || t == 0x1b || t == 0xff || record_is_text(t) || record_is_u32(t)
        || record_is_u16(t)
}

/// The inputs on which record-field decoding succeeds.
pub open spec fn record_parse_ok(t: u8, data: Seq<u8>) -> bool {
    if t == 0x01 {
        data.len() == 16
    } else if t == 0x15 {
        data.len() == 1
    } else if record_is_u32(t) {
        data.len() == 4
    } else if record_is_u16(t) {
        data.len() == 2
    } else if record_is_text(t) {
        utf8_decode(data) is Some
    } else {
        true
    }
}

/// The error reported when record-field decoding fails.
pub open spec fn record_parse_err(t: u8) -> Error {
    if record_is_text(t) {
        Error::InvalidUtf8
    } else {
        Error::InvalidLength
    }
}

/// Password Safe record field.
#[derive(Debug, PartialEq, Eq)]
pub enum PwsafeRecordField {
    /// UUID
    Uuid([u8; 16]),
    /// Group
    Group(String),
    /// Title
    Title(String),
    /// Username
    Username(String),
    /// Notes
    Notes(String),
    /// Password
    Password(String),
    /// Creation time
    CreationTime(u32),
    /// Password modification time
    PasswordModificationTime(u32),
    /// Last access time
    LastAccessTime(u32),
    /// Password expiry time
    PasswordExpiryTime(u32),
    /// Last modification time
    LastModificationTime(u32),
    /// URL
    Url(String),
    /// Autotype
    Autotype(String),
    /// Password history
    PasswordHistory(String),
    /// Password policy
    PasswordPolicy(String),
    /// Password expiry interval
    PasswordExpiryInterval(u32),
    /// Run command
    RunCommand(String),
    /// Double-click action
    DoubleClickAction(u16),
    /// Email address
    EmailAddress(String),
    /// Protected entry
    ProtectedEntry(u8),
    /// Own symbols for password
    OwnSymbolsForPassword(String),
    /// Shift double-click action
    ShiftDoubleClickAction(u16),
    /// Password policy name
    PasswordPolicyName(String),
    /// Entry keyboard shortcut
    EntryKeyboardShortcut(u32),
    /// Two-factor key
    TwoFactorKey(Vec<u8>),
    /// Credit card number
    CreditCardNumber(String),
    /// Credit card expiration
    CreditCardExpiration(String),
    /// Credit card verif. value
    CreditCardVerifValue(String),
    /// Credit card PIN
    CreditCardPin(String),
    /// QR code
    QrCode(String),
    /// Unknown field type stored as-is
    Blob(Vec<u8>),
    /// End of record
    EndOfRecord,
}

/// The decoded record field `f` is what tag `t` and payload `data` say.
pub open spec fn record_field_matches(t: u8, data: Seq<u8>, f: PwsafeRecordField) -> bool {
    match f {
        PwsafeRecordField::Uuid(u) => t == 0x01 && data.len() == 16 && u@ == data,
        PwsafeRecordField::Group(s) => t == 0x02 && utf8_decode(data) == Some(s@),
        PwsafeRecordField::Title(s) => t == 0x03 && utf8_decode(data) == Some(s@),
        PwsafeRecordField::Username(s) => t == 0x04 && utf8_decode(data) == Some(s@),
        PwsafeRecordField::Notes(s) => t == 0x05 && utf8_decode(data) == Some(s@),
        PwsafeRecordField::Password(s) => t == 0x06 && utf8_decode(data) == Some(s@),
        PwsafeRecordField::CreationTime(x) => t == 0x07 && data.len() == 4 && x == le32(data),
        PwsafeRecordField::PasswordModificationTime(x) => t == 0x08 && data.len() == 4 && x == le32(
            data,
        ),
        PwsafeRecordField::LastAccessTime(x) => t == 0x09 && data.len() == 4 && x == le32(data),
        PwsafeRecordField::PasswordExpiryTime(x) => t == 0x0a && data.len() == 4 && x == le32(data),
        PwsafeRecordField::LastModificationTime(x) => t == 0x0c && data.len() == 4 && x == le32(
            data,
        ),
        PwsafeRecordField::Url(s) => t == 0x0d && utf8_decode(data) == Some(s@),
        PwsafeRecordField::Autotype(s) => t == 0x0e && utf8_decode(data) == Some(s@),
        PwsafeRecordField::PasswordHistory(s) => t == 0x0f && utf8_decode(data) == Some(s@),
        PwsafeRecordField::PasswordPolicy(s) => t == 0x10 && utf8_decode(data) == Some(s@),
        PwsafeRecordField::PasswordExpiryInterval(x) => t == 0x11 && data.len() == 4 && x == le32(
            data,
        ),
        PwsafeRecordField::RunCommand(s) => t == 0x12 && utf8_decode(data) == Some(s@),
        PwsafeRecordField::DoubleClickAction(v) => t == 0x13 && data.len() == 2 && v == le16(data),
        PwsafeRecordField::EmailAddress(s) => t == 0x14 && utf8_decode(data) == Some(s@),
        PwsafeRecordField::ProtectedEntry(b) => t == 0x15 && data.len() == 1 && b == data[0],
        PwsafeRecordField::OwnSymbolsForPassword(s) => t == 0x16 && utf8_decode(data) == Some(s@),
        PwsafeRecordField::ShiftDoubleClickAction(v) => t == 0x17 && data.len() == 2 && v == le16(
            data,
        ),
        PwsafeRecordField::PasswordPolicyName(s) => t == 0x18 && utf8_decode(data) == Some(s@),
        PwsafeRecordField::EntryKeyboardShortcut(x) => t == 0x19 && data.len() == 4 && x == le32(
            data,
        ),
        PwsafeRecordField::TwoFactorKey(b) => t == 0x1b && b@ == data,
        PwsafeRecordField::CreditCardNumber(s) => t == 0x1c && utf8_decode(data) == Some(s@),
        PwsafeRecordField::CreditCardExpiration(s) => t == 0x1d && utf8_decode(data) == Some(s@),
        PwsafeRecordField::CreditCardVerifValue(s) => t == 0x1e && utf8_decode(data) == Some(s@),
        PwsafeRecordField::CreditCardPin(s) => t == 0x1f && utf8_decode(data) == Some(s@),
        PwsafeRecordField::QrCode(s) => t == 0x20 && utf8_decode(data) == Some(s@),
        PwsafeRecordField::Blob(b) => !record_known(t) && b@ == data,
        PwsafeRecordField::EndOfRecord => t == 0xff,
    }
}

impl PwsafeRecordField {
    /// Decodes one record field from its type tag and payload bytes.
    pub fn new(field_type: u8, data: Vec<u8>) -> (r: Result<Self, Error>)
        ensures
            r is Ok <==> record_parse_ok(field_type, data@),
            (match r {
                Ok(f) => record_field_matches(field_type, data@, f),
                Err(e) => e == record_parse_err(field_type),
            }),
    {
        match field_type {
            0x01 => {
                if data.len() != 16 {
                    return Err(Error::InvalidLength);
                }
                let uuid: [u8; 16] = [
                    data[0], data[1], data[2], data[3], data[4], data[5], data[6], data[7],
                    data[8], data[9], data[10], data[11], data[12], data[13], data[14], data[15],
                ];
                proof {
                    assert(uuid@ =~= data@);
                }
                Ok(PwsafeRecordField::Uuid(uuid))
            },
            0x02 => match bytes_to_string(data) {
                Some(s) => Ok(PwsafeRecordField::Group(s)),
                None => Err(Error::InvalidUtf8),
            },
            0x03 => match bytes_to_string(data) {
                Some(s) => Ok(PwsafeRecordField::Title(s)),
                None => Err(Error::InvalidUtf8),
            },
            0x04 => match bytes_to_string(data) {
                Some(s) => Ok(PwsafeRecordField::Username(s)),
                None => Err(Error::InvalidUtf8),
            },
            0x05 => match bytes_to_string(data) {
                Some(s) => Ok(PwsafeRecordField::Notes(s)),
                None => Err(Error::InvalidUtf8),
            },
            0x06 => match bytes_to_string(data) {
                Some(s) => Ok(PwsafeRecordField::Password(s)),
                None => Err(Error::InvalidUtf8),
            },
            0x07 => match parse_u32(data) {
                Ok(v) => Ok(PwsafeRecordField::CreationTime(v)),
                Err(e) => Err(e),
            },
            0x08 => match parse_u32(data) {
                Ok(v) => Ok(PwsafeRecordField::PasswordModificationTime(v)),
                Err(e) => Err(e),
            },
            0x09 => match parse_u32(data) {
                Ok(v) => Ok(PwsafeRecordField::LastAccessTime(v)),
                Err(e) => Err(e),
            },
            0x0a => match parse_u32(data) {
                Ok(v) => Ok(PwsafeRecordField::PasswordExpiryTime(v)),
                Err(e) => Err(e),
            },
            0x0c => match parse_u32(data) {
                Ok(v) => Ok(PwsafeRecordField::LastModificationTime(v)),
                Err(e) => Err(e),
            },
            0x0d => match bytes_to_string(data) {
                Some(s) => Ok(PwsafeRecordField::Url(s)),
                None => Err(Error::InvalidUtf8),
            },
            0x0e => match bytes_to_string(data) {
                Some(s) => Ok(PwsafeRecordField::Autotype(s)),
                None => Err(Error::InvalidUtf8),
            },
            0x0f => match bytes_to_string(data) {
                Some(s) => Ok(PwsafeRecordField::PasswordHistory(s)),
                None => Err(Error::InvalidUtf8),
            },
            0x10 => match bytes_to_string(data) {
                Some(s) => Ok(PwsafeRecordField::PasswordPolicy(s)),
                None => Err(Error::InvalidUtf8),
            },
            0x11 => match parse_u32(data) {
                Ok(v) => Ok(PwsafeRecordField::PasswordExpiryInterval(v)),
                Err(e) => Err(e),
            },
            0x12 => match bytes_to_string(data) {
                Some(s) => Ok(PwsafeRecordField::RunCommand(s)),
                None => Err(Error::InvalidUtf8),
            },
            0x13 => match parse_u16(data) {
                Ok(v) => Ok(PwsafeRecordField::DoubleClickAction(v)),
                Err(e) => Err(e),
            },
            0x14 => match bytes_to_string(data) {
                Some(s) => Ok(PwsafeRecordField::EmailAddress(s)),
                None => Err(Error::InvalidUtf8),
            },
            0x15 => {
                if data.len() != 1 {
                    return Err(Error::InvalidLength);
                }
                Ok(PwsafeRecordField::ProtectedEntry(data[0]))
            },
            0x16 => match bytes_to_string(data) {
                Some(s) => Ok(PwsafeRecordField::OwnSymbolsForPassword(s)),
                None => Err(Error::InvalidUtf8),
            },
            0x17 => match parse_u16(data) {
                Ok(v) => Ok(PwsafeRecordField::ShiftDoubleClickAction(v)),
                Err(e) => Err(e),
            },
            0x18 => match bytes_to_string(data) {
                Some(s) => Ok(PwsafeRecordField::PasswordPolicyName(s)),
                None => Err(Error::InvalidUtf8),
            },
            0x19 => match parse_u32(data) {
                Ok(v) => Ok(PwsafeRecordField::EntryKeyboardShortcut(v)),
                Err(e) => Err(e),
            },
            0x1b => Ok(PwsafeRecordField::TwoFactorKey(data)),
            0x1c => match bytes_to_string(data) {
                Some(s) => Ok(PwsafeRecordField::CreditCardNumber(s)),
                None => Err(Error::InvalidUtf8),
            },
            0x1d => match bytes_to_string(data) {
                Some(s) => Ok(PwsafeRecordField::CreditCardExpiration(s)),
                None => Err(Error::InvalidUtf8),
            },
            0x1e => match bytes_to_string(data) {
                Some(s) => Ok(PwsafeRecordField::CreditCardVerifValue(s)),
                None => Err(Error::InvalidUtf8),
            },
            0x1f => match bytes_to_string(data) {
                Some(s) => Ok(PwsafeRecordField::CreditCardPin(s)),
                None => Err(Error::InvalidUtf8),
            },
            0x20 => match bytes_to_string(data) {
                Some(s) => Ok(PwsafeRecordField::QrCode(s)),
                None => Err(Error::InvalidUtf8),
            },
            0xff => Ok(PwsafeRecordField::EndOfRecord),
            _ => Ok(PwsafeRecordField::Blob(data)),
        }
    }
}

} // verus!
