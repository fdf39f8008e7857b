//! Calls into other crates and into parts of the standard library. Each says
//! here what the library relies on.

use crate::models::RemoteEntryKind;
use vstd::prelude::*;
use vstd::utf8::*;

verus! {

/// Whether a character is a lower-case hexadecimal digit.
pub open spec fn is_hex(c: char) -> bool {
    ('0' <= c && c <= '9') || ('a' <= c && c <= 'f')
}

/// Whether a text has the form of a random id: thirty-two hexadecimal digits in
/// five groups that hyphens part.
pub open spec fn is_id_text(s: Seq<char>) -> bool {
    &&& s.len() == 36
    &&& forall|i: int|
        0 <= i < 36 ==> if i == 8 || i == 13 || i == 18 || i == 23 {
            #[trigger] s[i] == '-'
        } else {
            is_hex(s[i])
        }
}

/// A new random id, by `uuid::Uuid::new_v4` and its `Display`. Which id comes is
/// left to chance; it has the hyphenated form.
#[verifier::external_body]
pub(crate) fn new_id() -> (r: String)
    ensures
        is_id_text(r@),
{
    uuid::Uuid::new_v4().to_string()
}

/// The present time as text, by `chrono::Utc::now` and
/// `chrono::DateTime::to_rfc3339`. Nothing is promised of it.
#[verifier::external_body]
pub(crate) fn now() -> (r: String) {
    chrono::Utc::now().to_rfc3339()
}

/// The present day as text, by `chrono::Utc::now` and `chrono::DateTime::format`.
/// Nothing is promised of it.
#[verifier::external_body]
pub(crate) fn today() -> (r: String) {
    chrono::Utc::now().format("%Y-%m-%d").to_string()
}

/// What `str::to_lowercase` gives for a text.
pub uninterp spec fn lowercase_text(s: Seq<char>) -> Seq<char>;

/// The lower-case form of a text, by `str::to_lowercase`. It depends on the text
/// alone.
#[verifier::external_body]
pub(crate) fn lowercase(text: &str) -> (r: String)
    ensures
        r@ == lowercase_text(text@),
{
    text.to_lowercase()
}

/// What `{:?}` gives for a text.
pub uninterp spec fn debug_text_of(s: Seq<char>) -> Seq<char>;

/// A text as a program shows it to its author, by the `Debug` of `str`. It depends on
/// the text alone. That different texts are shown differently is not claimed.
#[verifier::external_body]
pub(crate) fn debug_text(text: &str) -> (r: String)
    ensures
        r@ == debug_text_of(text@),
{
    format!("{text:?}")
}

/// The bytes of the address that `str::parse` reads from a text as an
/// `std::net::IpAddr`, or `None` where the text is no such address.
pub uninterp spec fn ip_octets_of(s: Seq<char>) -> Option<Seq<u8>>;

/// Reads an IP address, by `str::parse` for `core::net::IpAddr`. An address of
/// the fourth version has four bytes, one of the sixth has sixteen.
#[verifier::external_body]
pub(crate) fn ip_octets(host: &str) -> (r: Option<Vec<u8>>)
    ensures
        r.deep_view() == ip_octets_of(host@),
        r matches Some(octets) ==> octets@.len() == 4 || octets@.len() == 16,
{
    match host.parse::<core::net::IpAddr>() {
        Ok(core::net::IpAddr::V4(address)) => Some(address.octets().to_vec()),
        Ok(core::net::IpAddr::V6(address)) => Some(address.octets().to_vec()),
        Err(_) => None,
    }
}

/// The name of the algorithm of a public key in its wire form, as
/// `ssh_key::PublicKey::algorithm` gives it for the key that
/// `ssh_key::PublicKey::from_bytes` reads, or `None` where it reads none.
pub uninterp spec fn key_algorithm_of(key: Seq<u8>) -> Option<Seq<char>>;

/// The name of the algorithm of a public key, by `ssh_key::PublicKey::from_bytes`,
/// `ssh_key::PublicKey::algorithm` and `ssh_key::Algorithm::as_str`. It depends on
/// the bytes alone.
#[verifier::external_body]
pub(crate) fn key_algorithm(key: &Vec<u8>) -> (r: Option<String>)
    ensures
        r.deep_view() == key_algorithm_of(key@),
{
    match russh::keys::ssh_key::PublicKey::from_bytes(key) {
        Ok(key) => Some(key.algorithm().as_str().to_owned()),
        Err(_) => None,
    }
}

/// The SHA-256 fingerprint of a public key in its wire form, as
/// `ssh_key::PublicKey::fingerprint` gives it, or `None` where the bytes are no
/// key.
pub uninterp spec fn key_fingerprint_of(key: Seq<u8>) -> Option<Seq<char>>;

/// The SHA-256 fingerprint of a public key, by `ssh_key::PublicKey::from_bytes`,
/// `ssh_key::PublicKey::fingerprint` and the `Display` of `ssh_key::Fingerprint`.
/// It depends on the bytes alone.
#[verifier::external_body]
pub(crate) fn key_fingerprint(key: &Vec<u8>) -> (r: Option<String>)
    ensures
        r.deep_view() == key_fingerprint_of(key@),
{
    match russh::keys::ssh_key::PublicKey::from_bytes(key) {
        Ok(key) => Some(key.fingerprint(russh::keys::HashAlg::Sha256).to_string()),
        Err(_) => None,
    }
}

/// A public key in its wire form as a line of OpenSSH, as
/// `ssh_key::PublicKey::to_openssh` gives it, or why it has none.
pub uninterp spec fn key_openssh_of(key: Seq<u8>) -> Result<Seq<char>, Seq<char>>;

/// A public key as a line of OpenSSH, by `ssh_key::PublicKey::from_bytes` and
/// `ssh_key::PublicKey::to_openssh`, or the text of their error. It depends on the
/// bytes alone.
#[verifier::external_body]
pub(crate) fn key_openssh(key: &Vec<u8>) -> (r: Result<String, String>)
    ensures
        (match r {
            Ok(text) => Ok::<Seq<char>, Seq<char>>(text@),
            Err(reason) => Err(reason@),
        }) == key_openssh_of(key@),
{
    match russh::keys::ssh_key::PublicKey::from_bytes(key) {
        Ok(key) => key.to_openssh().map_err(|error| error.to_string()),
        Err(error) => Err(error.to_string()),
    }
}

/// The natural number that stands under a key of a JSON object, as
/// `serde_json::Value::as_u64` gives it for the text that `serde_json::from_slice`
/// reads, or `None` where there is none.
pub uninterp spec fn json_number_of(text: Seq<u8>, key: Seq<char>) -> Option<u64>;

/// The natural number under a key of a JSON object, by `serde_json::from_slice`,
/// `serde_json::Value::get` and `serde_json::Value::as_u64`. It depends on the
/// text and the key alone.
#[verifier::external_body]
pub(crate) fn json_number(text: &Vec<u8>, key: &str) -> (r: Option<u64>)
    ensures
        r == json_number_of(text@, key@),
{
    match serde_json::from_slice::<serde_json::Value>(text) {
        Ok(value) => value.get(key).and_then(serde_json::Value::as_u64),
        Err(_) => None,
    }
}

/// The text of the error that `String::from_utf8` gives for bytes that are not
/// valid UTF-8.
pub uninterp spec fn utf8_fault_of(bytes: Seq<u8>) -> Seq<char>;

/// The text that bytes hold, by `String::from_utf8`: there is one if and only if
/// the bytes are valid UTF-8. The text of the error depends on the bytes alone.
#[verifier::external_body]
pub(crate) fn utf8_text(bytes: &Vec<u8>) -> (r: Result<String, String>)
    ensures
        match r {
            Ok(text) => valid_utf8(bytes@) && text@ == decode_utf8(bytes@),
            Err(reason) => !valid_utf8(bytes@) && reason@ == utf8_fault_of(bytes@),
        },
{
    String::from_utf8(bytes.clone()).map_err(|error| error.to_string())
}

/// Wipes a text from memory, by `zeroize::Zeroize` for `String`. The text is empty
/// afterwards.
#[verifier::external_body]
pub(crate) fn wipe(secret: &mut String)
    ensures
        final(secret)@ == Seq::<char>::empty(),
{
    zeroize::Zeroize::zeroize(secret)
}

/// What a file mode says of the kind of an entry.
pub open spec fn mode_kind(mode: Option<u32>) -> RemoteEntryKind {
    let bits = match mode {
        Some(mode) => mode & 0xf000,
        None => 0,
    };
    if bits == 0x4000 {
        RemoteEntryKind::Directory
    } else if bits == 0xa000 {
        RemoteEntryKind::Symlink
    } else if bits == 0x8000 {
        RemoteEntryKind::File
    } else {
        RemoteEntryKind::Other
    }
}

/// The kind of an entry with this mode, by
/// `russh_sftp::protocol::FileAttributes::file_type`: the four high bits of the
/// sixteen decide.
#[verifier::external_body]
pub(crate) fn kind_of_mode(mode: Option<u32>) -> (r: RemoteEntryKind)
    ensures
        r == mode_kind(mode),
{
    let attributes = russh_sftp::protocol::FileAttributes {
        permissions: mode,
        ..Default::default()
    };
    match attributes.file_type() {
        russh_sftp::protocol::FileType::Dir => RemoteEntryKind::Directory,
        russh_sftp::protocol::FileType::File => RemoteEntryKind::File,
        russh_sftp::protocol::FileType::Symlink => RemoteEntryKind::Symlink,
        russh_sftp::protocol::FileType::Other => RemoteEntryKind::Other,
    }
}

/// A letter where a bit of a mode is set, and a dash where it is not.
pub open spec fn mode_flag(mode: u32, bit: u32, letter: char) -> char {
    if mode & bit == bit {
        letter
    } else {
        '-'
    }
}

/// The letters for the permissions in a mode: read, write and execute for the
/// owner, the group and others.
pub open spec fn mode_letters(mode: Option<u32>) -> Seq<char> {
    let mode = match mode {
        Some(mode) => mode,
        None => 0,
    };
    seq![
        mode_flag(mode, 256, 'r'),
        mode_flag(mode, 128, 'w'),
        mode_flag(mode, 64, 'x'),
        mode_flag(mode, 32, 'r'),
        mode_flag(mode, 16, 'w'),
        mode_flag(mode, 8, 'x'),
        mode_flag(mode, 4, 'r'),
        mode_flag(mode, 2, 'w'),
        mode_flag(mode, 1, 'x'),
    ]
}

/// The letters for the permissions in a mode, by
/// `russh_sftp::protocol::FileAttributes::permissions` and the `Display` of
/// `russh_sftp::protocol::FilePermissions`.
#[verifier::external_body]
pub(crate) fn permission_letters(mode: Option<u32>) -> (r: String)
    ensures
        r@ == mode_letters(mode),
{
    let attributes = russh_sftp::protocol::FileAttributes {
        permissions: mode,
        ..Default::default()
    };
    attributes.permissions().to_string()
}

/// The text that `chrono::DateTime::to_rfc3339` gives for a number of seconds
/// since 1970 in UTC.
pub uninterp spec fn time_text_of(seconds: u32) -> Seq<char>;

/// A time as text, by `chrono::DateTime::<chrono::Utc>::from` for a
/// `std::time::SystemTime` and `chrono::DateTime::to_rfc3339`. It depends on the
/// seconds alone.
#[verifier::external_body]
pub(crate) fn time_text(seconds: u32) -> (r: String)
    ensures
        r@ == time_text_of(seconds),
{
    let time = std::time::UNIX_EPOCH + std::time::Duration::from_secs(u64::from(seconds));
    chrono::DateTime::<chrono::Utc>::from(time).to_rfc3339()
}

/// The text that the `Display` of `core::net::IpAddr` gives for an address of the
/// sixth version with these bytes.
pub uninterp spec fn ipv6_text_of(octets: Seq<u8>) -> Seq<char>;

/// An address of the sixth version as text, by `core::net::IpAddr::from` and its
/// `Display`. It depends on the bytes alone.
#[verifier::external_body]
pub(crate) fn ipv6_text(octets: &Vec<u8>) -> (r: String)
    requires
        octets@.len() == 16,
    ensures
        r@ == ipv6_text_of(octets@),
{
    let mut bytes = [0_u8; 16];
    bytes.copy_from_slice(octets);
    core::net::IpAddr::from(bytes).to_string()
}

} // verus!
