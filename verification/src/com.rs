//! COM result codes and class identifiers.

use vstd::arithmetic::power::pow;
use vstd::prelude::*;

verus! {

pub type HResult = i32;

pub const S_OK: HResult = 0;

pub const S_FALSE: HResult = 1;

/// 0x80004002
pub const E_NOINTERFACE: HResult = -2147467262;

/// 0x80004003
pub const E_POINTER: HResult = -2147467261;

/// 0x80040110
pub const CLASS_E_NOAGGREGATION: HResult = -2147221232;

/// 0x80040111
pub const CLASS_E_CLASSNOTAVAILABLE: HResult = -2147221231;

/// The interface identifier of `IUnknown`.
pub const IID_IUNKNOWN: u128 = 0x00000000_0000_0000_c000_000000000046;

/// What a Win32 error code is as a result code: codes that are zero or
/// negative stay as they are, the low half of others goes into the Win32
/// facility.
pub open spec fn from_win32_spec(error: u32) -> int {
    if error == 0 {
        0
    } else if error >= 0x8000_0000 {
        error - 0x1_0000_0000
    } else {
        error % 0x1_0000 + 0x8007_0000 - 0x1_0000_0000
    }
}

/// Calls `windows_core::HRESULT::from_win32`. Trusted: the result is the code
/// itself where, read as a signed number, it is not positive, and otherwise
/// its low 16 bits under 0x8007.
#[verifier::external_body]
fn hresult_from_win32(error: u32) -> (result: HResult)
    ensures
        result == from_win32_spec(error),
{
    windows_core::HRESULT::from_win32(error).0
}

pub open spec fn check_win32_spec(status: u32) -> Result<(), HResult> {
    if status == 0 {
        Ok(())
    } else {
        Err(from_win32_spec(status) as HResult)
    }
}

/// The status of a Win32 function as a result.
pub fn check_win32(status: u32) -> (result: Result<(), HResult>)
    ensures
        result == check_win32_spec(status),
{
    if status == 0 {
        Ok(())
    } else {
        Err(hresult_from_win32(status))
    }
}

/// An error that a Win32 function reports is a failure as a result code too,
/// and two errors below 0x10000 stay apart.
pub proof fn law_win32_errors_are_failures(a: u32, b: u32)
    requires
        0 < a < 0x1_0000,
        0 < b < 0x1_0000,
    ensures
        from_win32_spec(a) < 0,
        from_win32_spec(a) == from_win32_spec(b) ==> a == b,
{
}

/// A capital hexadecimal digit.
pub open spec fn hex_digit(value: int) -> char {
    if value < 10 {
        (48 + value) as char
    } else {
        (55 + value) as char
    }
}

/// The `index`-th of the 32 hexadecimal digits of `id`, the highest first.
pub open spec fn guid_digit(id: u128, index: int) -> char {
    hex_digit((id as int / pow(16, (31 - index) as nat)) % 16)
}

/// The text of an identifier: its digits in groups of 8, 4, 4, 4 and 12.
pub open spec fn guid_text_spec(id: u128) -> Seq<char> {
    Seq::new(
        36,
        |i: int|
            if i == 8 || i == 13 || i == 18 || i == 23 {
                '-'
            } else if i < 8 {
                guid_digit(id, i)
            } else if i < 13 {
                guid_digit(id, i - 1)
            } else if i < 18 {
                guid_digit(id, i - 2)
            } else if i < 23 {
                guid_digit(id, i - 3)
            } else {
                guid_digit(id, i - 4)
            },
    )
}

/// Calls `windows_core::GUID::from_u128` and formats the identifier with its
/// `Debug`. Trusted: the text is the 32 capital hexadecimal digits of the
/// number in groups of 8, 4, 4, 4 and 12 with hyphens between them.
#[verifier::external_body]
fn guid_text(id: u128) -> (text: String)
    ensures
        text@ == guid_text_spec(id),
{
    format!("{:?}", windows_core::GUID::from_u128(id))
}

/// An identifier in braces, as the registry has it.
pub open spec fn braced_spec(id: u128) -> Seq<char> {
    "{"@ + guid_text_spec(id) + "}"@
}

/// An identifier in braces, as the registry has it.
pub fn braced(id: u128) -> (text: String)
    ensures
        text@ == braced_spec(id),
{
    let mut text: String = "{".to_owned();
    text.append(guid_text(id).as_str());
    text.append("}");
    text
}

/// No error is success; small Win32 errors are read under the Win32 facility,
/// and what is a result code already, with its top bit set, stays as it is.
pub proof fn law_win32_codes_keep_their_number(status: u32)
    ensures
        check_win32_spec(0) == Ok::<(), HResult>(()),
        status != 0 ==> check_win32_spec(status) is Err,
        0 < status < 0x1_0000 ==> check_win32_spec(status)->Err_0 + 0x1_0000_0000 == 0x8007_0000
            + status,
        0x8000_0000 <= status ==> check_win32_spec(status)->Err_0 + 0x1_0000_0000 == status,
        0x1_0000 <= status < 0x8000_0000 ==> check_win32_spec(status)->Err_0 + 0x1_0000_0000
            == 0x8007_0000 + status % 0x1_0000,
{
}

/// The registry's text of an identifier is 36 characters in braces, with hyphens
/// behind the eighth, twelfth, sixteenth and twentieth digit.
pub proof fn law_identifiers_are_braced(id: u128, i: int)
    ensures
        braced_spec(id).len() == 38,
        braced_spec(id)[0] == '{',
        braced_spec(id)[37] == '}',
        braced_spec(id)[9] == '-',
        braced_spec(id)[14] == '-',
        braced_spec(id)[19] == '-',
        braced_spec(id)[24] == '-',
        1 <= i < 37 ==> braced_spec(id)[i] == guid_text_spec(id)[i - 1],
{
    reveal_strlit("{");
    reveal_strlit("}");
}

} // verus!
