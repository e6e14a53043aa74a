//! Status codes of the kernel.

use vstd::prelude::*;

verus! {

pub type NtStatus = i32;

pub const STATUS_SUCCESS: NtStatus = 0;

/// 0xC000000D
pub const STATUS_INVALID_PARAMETER: NtStatus = -1073741811;

/// 0xC000003C
pub const STATUS_DATA_OVERRUN: NtStatus = -1073741764;

/// 0xC000003D
pub const STATUS_DATA_LATE_ERROR: NtStatus = -1073741763;

/// 0xC000009A
pub const STATUS_INSUFFICIENT_RESOURCES: NtStatus = -1073741670;

/// 0xC00000A3
pub const STATUS_DEVICE_NOT_READY: NtStatus = -1073741661;

/// 0xC00000B5
pub const STATUS_IO_TIMEOUT: NtStatus = -1073741643;

/// 0xC00000BB
pub const STATUS_NOT_SUPPORTED: NtStatus = -1073741637;

/// 0xC0000182
pub const STATUS_DEVICE_CONFIGURATION_ERROR: NtStatus = -1073741438;

/// Success and informational codes are not negative.
pub open spec fn check_spec(status: NtStatus) -> Result<(), NtStatus> {
    if status >= 0 {
        Ok(())
    } else {
        Err(status)
    }
}

/// A status as a result: negative codes are errors.
pub fn check(status: NtStatus) -> (result: Result<(), NtStatus>)
    ensures
        result == check_spec(status),
{
    if status >= 0 {
        Ok(())
    } else {
        Err(status)
    }
}

pub open spec fn into_status_spec(result: Result<(), NtStatus>) -> NtStatus {
    match result {
        Ok(()) => STATUS_SUCCESS,
        Err(status) => status,
    }
}

/// The status with which a callback reports `result`.
pub fn into_status(result: Result<(), NtStatus>) -> (status: NtStatus)
    ensures
        status == into_status_spec(result),
{
    match result {
        Ok(()) => STATUS_SUCCESS,
        Err(status) => status,
    }
}

/// An error survives being reported as a status and checked again.
pub proof fn law_errors_survive(status: NtStatus)
    requires
        status < 0,
    ensures
        check_spec(into_status_spec(Err(status))) == Err::<(), NtStatus>(status),
        check_spec(into_status_spec(Ok(()))) == Ok::<(), NtStatus>(()),
{
}

/// A code says success unless its top bit is set, which makes it negative. Every
/// refusal of this driver does, and no two of its codes are the same.
pub proof fn law_negative_codes_are_errors(status: NtStatus)
    ensures
        status < 0 ==> check_spec(status) == Err::<(), NtStatus>(status),
        status >= 0 ==> check_spec(status) == Ok::<(), NtStatus>(()),
        into_status_spec(Err(status)) == status,
        into_status_spec(Ok(())) == 0,
        STATUS_SUCCESS == 0,
        STATUS_INVALID_PARAMETER == 0xC000_000D - 0x1_0000_0000,
        STATUS_DATA_OVERRUN == 0xC000_003C - 0x1_0000_0000,
        STATUS_DATA_LATE_ERROR == 0xC000_003D - 0x1_0000_0000,
        STATUS_INSUFFICIENT_RESOURCES == 0xC000_009A - 0x1_0000_0000,
        STATUS_DEVICE_NOT_READY == 0xC000_00A3 - 0x1_0000_0000,
        STATUS_IO_TIMEOUT == 0xC000_00B5 - 0x1_0000_0000,
        STATUS_NOT_SUPPORTED == 0xC000_00BB - 0x1_0000_0000,
        STATUS_DEVICE_CONFIGURATION_ERROR == 0xC000_0182 - 0x1_0000_0000,
{
}

} // verus!
