//! EResult codes and their names.

use vstd::prelude::*;

verus! {

pub const OK: i32 = 1;
pub const FAIL: i32 = 2;
pub const NO_CONNECTION: i32 = 3;
pub const INVALID_PASSWORD: i32 = 5;
pub const INVALID_PARAM: i32 = 8;
pub const FILE_NOT_FOUND: i32 = 9;
pub const ACCESS_DENIED: i32 = 15;
pub const ACCOUNT_NOT_FOUND: i32 = 18;
pub const SERVICE_UNAVAILABLE: i32 = 20;
pub const PENDING: i32 = 22;
pub const REVOKED: i32 = 26;
pub const EXPIRED: i32 = 27;
pub const BLOCKED: i32 = 40;
pub const ACCOUNT_LOCKED: i32 = 44;
pub const TRY_ANOTHER_CM: i32 = 48;
pub const ACCOUNT_LOGON_DENIED: i32 = 63;
pub const INVALID_LOGIN_AUTH_CODE: i32 = 65;
pub const RATE_LIMIT_EXCEEDED: i32 = 84;
pub const ACCOUNT_LOGIN_DENIED_NEED_TWO_FACTOR: i32 = 85;
pub const TWO_FACTOR_CODE_MISMATCH: i32 = 88;
pub const LIMITED_USER_ACCOUNT: i32 = 112;

/// The name of an EResult code (`Unknown` for codes not listed).
pub open spec fn name_of(code: i32) -> &'static str {
    if code == OK {
        "OK"
    } else if code == FAIL {
        "Fail"
    } else if code == NO_CONNECTION {
        "NoConnection"
    } else if code == INVALID_PASSWORD {
        "InvalidPassword"
    } else if code == INVALID_PARAM {
        "InvalidParam"
    } else if code == FILE_NOT_FOUND {
        "FileNotFound"
    } else if code == ACCESS_DENIED {
        "AccessDenied"
    } else if code == ACCOUNT_NOT_FOUND {
        "AccountNotFound"
    } else if code == SERVICE_UNAVAILABLE {
        "ServiceUnavailable"
    } else if code == PENDING {
        "Pending"
    } else if code == REVOKED {
        "Revoked"
    } else if code == EXPIRED {
        "Expired"
    } else if code == BLOCKED {
        "Blocked"
    } else if code == ACCOUNT_LOCKED {
        "AccountLocked"
    } else if code == TRY_ANOTHER_CM {
        "TryAnotherCM"
    } else if code == ACCOUNT_LOGON_DENIED {
        "AccountLogonDenied"
    } else if code == INVALID_LOGIN_AUTH_CODE {
        "InvalidLoginAuthCode"
    } else if code == RATE_LIMIT_EXCEEDED {
        "RateLimitExceeded"
    } else if code == ACCOUNT_LOGIN_DENIED_NEED_TWO_FACTOR {
        "AccountLoginDeniedNeedTwoFactor"
    } else if code == TWO_FACTOR_CODE_MISMATCH {
        "TwoFactorCodeMismatch"
    } else if code == LIMITED_USER_ACCOUNT {
        "LimitedUserAccount"
    } else {
        "Unknown"
    }
}

/// Human-readable name of an EResult code.
pub fn describe(code: i32) -> (r: &'static str)
    ensures
        r == name_of(code),
{
    match code {
        OK => "OK",
        FAIL => "Fail",
        NO_CONNECTION => "NoConnection",
        INVALID_PASSWORD => "InvalidPassword",
        INVALID_PARAM => "InvalidParam",
        FILE_NOT_FOUND => "FileNotFound",
        ACCESS_DENIED => "AccessDenied",
        ACCOUNT_NOT_FOUND => "AccountNotFound",
        SERVICE_UNAVAILABLE => "ServiceUnavailable",
        PENDING => "Pending",
        REVOKED => "Revoked",
        EXPIRED => "Expired",
        BLOCKED => "Blocked",
        ACCOUNT_LOCKED => "AccountLocked",
        TRY_ANOTHER_CM => "TryAnotherCM",
        ACCOUNT_LOGON_DENIED => "AccountLogonDenied",
        INVALID_LOGIN_AUTH_CODE => "InvalidLoginAuthCode",
        RATE_LIMIT_EXCEEDED => "RateLimitExceeded",
        ACCOUNT_LOGIN_DENIED_NEED_TWO_FACTOR => "AccountLoginDeniedNeedTwoFactor",
        TWO_FACTOR_CODE_MISMATCH => "TwoFactorCodeMismatch",
        LIMITED_USER_ACCOUNT => "LimitedUserAccount",
        _ => "Unknown",
    }
}

} // verus!
