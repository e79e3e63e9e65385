//! Numeric values that the Windows interfaces define.
use vstd::prelude::*;

verus! {

pub const ERROR_SUCCESS: u32 = 0;

pub const ERROR_FILE_NOT_FOUND: u32 = 2;

pub const ERROR_PATH_NOT_FOUND: u32 = 3;

pub const ERROR_ACCESS_DENIED: u32 = 5;

pub const ERROR_INVALID_HANDLE: u32 = 6;

pub const ERROR_INVALID_DATA: u32 = 13;

pub const ERROR_NO_MORE_FILES: u32 = 18;

pub const ERROR_GEN_FAILURE: u32 = 31;

pub const ERROR_NOT_SUPPORTED: u32 = 50;

pub const ERROR_INVALID_PARAMETER: u32 = 87;

pub const ERROR_BROKEN_PIPE: u32 = 109;

pub const ERROR_INSUFFICIENT_BUFFER: u32 = 122;

pub const ERROR_BUSY: u32 = 170;

pub const ERROR_MORE_DATA: u32 = 234;

pub const ERROR_ARITHMETIC_OVERFLOW: u32 = 534;

pub const ERROR_NOT_FOUND: u32 = 1168;

pub const ERROR_NONE_MAPPED: u32 = 1332;

pub const ERROR_INVALID_WINDOW_HANDLE: u32 = 1400;

pub const PDH_CSTATUS_VALID_DATA: u32 = 0;

pub const PDH_CSTATUS_NEW_DATA: u32 = 1;

pub const PDH_MORE_DATA: u32 = 0x8000_07D2;

pub const PDH_CSTATUS_NO_OBJECT: u32 = 0xC000_0BB8;

pub const PDH_CSTATUS_NO_COUNTER: u32 = 0xC000_0BB9;

pub const PDH_CSTATUS_INVALID_DATA: u32 = 0xC000_0BBA;

pub const PDH_INVALID_PATH: u32 = 0xC000_0BC4;

/// The error code to report for a failed call: the one the system left behind, or the
/// general failure code when it left none.
pub fn error_or_gen_failure(error: u32) -> (code: u32)
    ensures
        code == if error == 0 { ERROR_GEN_FAILURE } else { error },
        code != ERROR_SUCCESS,
{
    if error == 0 {
        ERROR_GEN_FAILURE
    } else {
        error
    }
}

/// The 64-bit time that a `FILETIME` splits into two halves.
pub open spec fn filetime_value(low: u32, high: u32) -> int {
    high * 0x1_0000_0000 + low
}

/// Joins the two halves of a `FILETIME`.
pub fn filetime_to_u64(low: u32, high: u32) -> (time: u64)
    ensures
        time == filetime_value(low, high),
{
    high as u64 * 0x1_0000_0000 + low as u64
}

} // verus!
