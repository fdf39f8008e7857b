//! The rules for the credential store of the system.

#![verifier::loop_isolation(false)]

use crate::error::{self, AppError, ErrorView};
use crate::outside::{self, utf8_text};
use crate::text::{self, byte_len, cat2, chars_of, decimal_text};
use vstd::prelude::*;
use vstd::utf8::*;

verus! {

/// The system's code for a credential that is not there.
pub const ERROR_NOT_FOUND: u32 = 1168;

/// One or two units of UTF-16 for a character.
pub open spec fn utf16_units(c: char) -> Seq<u16> {
    let n = c as int;
    if n < 0x1_0000 {
        seq![n as u16]
    } else {
        seq![(0xd800 + (n - 0x1_0000) / 0x400) as u16, (0xdc00 + (n - 0x1_0000) % 0x400) as u16]
    }
}

/// A text in UTF-16.
pub open spec fn utf16(s: Seq<char>) -> Seq<u16>
    decreases s.len(),
{
    if s.len() == 0 {
        Seq::empty()
    } else {
        utf16(s.drop_last()) + utf16_units(s.last())
    }
}

/// A text in UTF-16 with a zero at its end.
pub fn wide(value: &str) -> (r: Vec<u16>)
    ensures
        r@ == utf16(value@).push(0),
{
    let chars = chars_of(value);
    let mut r: Vec<u16> = Vec::new();
    let mut i: usize = 0;
    assert(chars@.take(0) =~= Seq::empty());
    while i < chars.len()
        invariant
            i <= chars@.len(),
            r@ == utf16(chars@.take(i as int)),
        decreases chars@.len() - i,
    {
        let ghost done = r@;
        assert(chars@.take(i + 1).drop_last() =~= chars@.take(i as int));
        let c: char = chars[i];
        let n: u32 = c as u32;
        proof {
            char_is_scalar(c);
            char_u32_cast(c, n);
        }
        if n < 0x1_0000 {
            r.push(n as u16);
        } else {
            let above: u32 = n - 0x1_0000;
            r.push((0xd800 + above / 0x400) as u16);
            r.push((0xdc00 + above % 0x400) as u16);
        }
        assert(r@ =~= done + utf16_units(chars@[i as int]));
        i = i + 1;
    }
    assert(chars@.take(i as int) =~= chars@);
    r.push(0);
    r
}

/// An error of the credential store. The user may try again.
pub open spec fn vault_fault(code: Seq<char>, message: Seq<char>, details: Seq<char>) -> ErrorView {
    error::credential_store_error(code, message, details, true)
}

/// An error of the credential store.
pub fn credential_error(code: &'static str, message: &'static str, details: &str) -> (r: AppError)
    ensures
        r@ == vault_fault(code@, message@, details@),
{
    AppError::credential(code, message, details, true)
}

/// The error where the system has no credential store.
pub open spec fn vault_unavailable_error() -> ErrorView {
    vault_fault(
        "CREDENTIAL-STORE-UNAVAILABLE"@,
        "当前系统不支持安全凭据存储，请仅本次输入"@,
        "Windows Credential Manager is unavailable on this platform"@,
    )
}

/// The error where the system has no credential store.
pub fn unavailable() -> (r: AppError)
    ensures
        r@ == vault_unavailable_error(),
{
    credential_error(
        "CREDENTIAL-STORE-UNAVAILABLE",
        "当前系统不支持安全凭据存储，请仅本次输入",
        "Windows Credential Manager is unavailable on this platform",
    )
}

/// The size of a secret, as the credential store wants it.
pub fn blob_size(secret: &str) -> (r: Result<u32, AppError>)
    ensures
        match r {
            Ok(size) => size == text::utf8_len(secret@),
            Err(error) => text::utf8_len(secret@) > u32::MAX && error@ == vault_fault(
                "CREDENTIAL-TOO-LARGE"@,
                "凭据长度超出系统限制"@,
                "secret exceeds u32"@,
            ),
        },
{
    let length: u64 = byte_len(secret) as u64;
    if length > 0xffff_ffff {
        return Err(
            credential_error(
                "CREDENTIAL-TOO-LARGE",
                "凭据长度超出系统限制",
                "secret exceeds u32",
            ),
        );
    }
    Ok(length as u32)
}

/// The error for a secret that the system did not store.
pub fn write_failed(code: u32) -> (r: AppError)
    ensures
        r@ == vault_fault(
            "CREDENTIAL-WRITE-FAILED"@,
            "无法写入 Windows 凭据库"@,
            "Windows credential API error "@ + text::decimal(code as nat),
        ),
{
    credential_error(
        "CREDENTIAL-WRITE-FAILED",
        "无法写入 Windows 凭据库",
        cat2("Windows credential API error ", decimal_text(code as u64).as_str()).as_str(),
    )
}

/// What it means that the system did not read a secret: there is none, or reading
/// failed.
pub fn read_failed(code: u32) -> (r: Result<(), AppError>)
    ensures
        error::error_of(r) == (if code == ERROR_NOT_FOUND {
            None
        } else {
            Some(
                vault_fault(
                    "CREDENTIAL-READ-FAILED"@,
                    "无法读取 Windows 凭据库"@,
                    "CredReadW failed with Win32 error "@ + text::decimal(code as nat),
                ),
            )
        }),
{
    if code == ERROR_NOT_FOUND {
        return Ok(());
    }
    Err(
        credential_error(
            "CREDENTIAL-READ-FAILED",
            "无法读取 Windows 凭据库",
            cat2(
                "CredReadW failed with Win32 error ",
                decimal_text(code as u64).as_str(),
            ).as_str(),
        ),
    )
}

/// What it means that the system did not delete a secret: there is none, which is
/// as good, or deleting failed.
pub fn delete_failed(code: u32) -> (r: Result<(), AppError>)
    ensures
        error::error_of(r) == (if code == ERROR_NOT_FOUND {
            None
        } else {
            Some(
                vault_fault(
                    "CREDENTIAL-DELETE-FAILED"@,
                    "无法删除 Windows 凭据"@,
                    "CredDeleteW failed with Win32 error "@ + text::decimal(code as nat),
                ),
            )
        }),
{
    if code == ERROR_NOT_FOUND {
        return Ok(());
    }
    Err(
        credential_error(
            "CREDENTIAL-DELETE-FAILED",
            "无法删除 Windows 凭据",
            cat2(
                "CredDeleteW failed with Win32 error ",
                decimal_text(code as u64).as_str(),
            ).as_str(),
        ),
    )
}

/// The secret that stored bytes hold.
pub fn decode_secret(bytes: &Vec<u8>) -> (r: Result<String, AppError>)
    ensures
        error::ends_as(
            r,
            if valid_utf8(bytes@) {
                Ok(decode_utf8(bytes@))
            } else {
                Err(
                    vault_fault(
                        "CREDENTIAL-DECODE-FAILED"@,
                        "已保存的凭据无法读取，请重新输入"@,
                        outside::utf8_fault_of(bytes@),
                    ),
                )
            },
        ),
{
    match utf8_text(bytes) {
        Ok(secret) => Ok(secret),
        Err(reason) => Err(
            credential_error(
                "CREDENTIAL-DECODE-FAILED",
                "已保存的凭据无法读取，请重新输入",
                reason.as_str(),
            ),
        ),
    }
}

/// A secret is read back as it was stored.
pub proof fn stored_secret_reads_back(secret: Seq<char>)
    ensures
        valid_utf8(encode_utf8(secret)),
        decode_utf8(encode_utf8(secret)) == secret,
{
    encode_utf8_valid_utf8(secret);
    encode_utf8_decode_utf8(secret);
}

/// A name is handed to the system in units of sixteen bits, one for each character below
/// 65536 and two for any other, so that different names stay different: each unit or pair
/// of units gives its character back.
pub proof fn wide_characters_read_back(c: char)
    ensures
        (c as int) < 0x1_0000 ==> utf16_units(c).len() == 1 && utf16_units(c)[0] as int == c as int,
        (c as int) >= 0x1_0000 ==> {
            let units = utf16_units(c);
            &&& units.len() == 2
            &&& 0xd800 <= units[0] < 0xdc00
            &&& 0xdc00 <= units[1] < 0xe000
            &&& 0x1_0000 + (units[0] - 0xd800) * 0x400 + (units[1] - 0xdc00) == c as int
        },
{
}

/// A text in units of sixteen bits is its characters one after the other.
pub proof fn wide_texts_are_their_characters(s: Seq<char>, c: char)
    ensures
        utf16(Seq::empty()).len() == 0,
        utf16(s.push(c)) == utf16(s) + utf16_units(c),
{
    assert(s.push(c).drop_last() =~= s);
}

/// What goes wrong with the credential store is told by its code and may be tried again.
pub proof fn vault_faults_may_be_tried_again(
    code: Seq<char>,
    message: Seq<char>,
    details: Seq<char>,
)
    ensures
        vault_fault(code, message, details).code == code,
        vault_fault(code, message, details).message == message,
        vault_fault(code, message, details).technical_details == Some(details),
        vault_fault(code, message, details).retryable,
        vault_unavailable_error().code == "CREDENTIAL-STORE-UNAVAILABLE"@,
        ERROR_NOT_FOUND == 1168,
{
}

} // verus!
