//! Steam Guard confirmation types.

use vstd::prelude::*;

verus! {

pub const NONE: i32 = 1;
pub const EMAIL_CODE: i32 = 2;
pub const DEVICE_CODE: i32 = 3;
pub const DEVICE_CONFIRMATION: i32 = 4;
pub const EMAIL_CONFIRMATION: i32 = 5;
pub const MACHINE_TOKEN: i32 = 6;

/// What the user is told a confirmation type asks for.
pub open spec fn describe_text(code: i32) -> Seq<char> {
    if code == NONE {
        "无需验证"@
    } else if code == EMAIL_CODE {
        "邮箱验证码"@
    } else if code == DEVICE_CODE {
        "手机令牌验证码"@
    } else if code == DEVICE_CONFIRMATION {
        "手机端确认"@
    } else if code == EMAIL_CONFIRMATION {
        "邮箱确认"@
    } else if code == MACHINE_TOKEN {
        "机器令牌"@
    } else {
        "未知验证"@
    }
}

pub fn describe(code: i32) -> (r: &'static str)
    ensures
        r@ == describe_text(code),
{
    if code == NONE {
        "无需验证"
    } else if code == EMAIL_CODE {
        "邮箱验证码"
    } else if code == DEVICE_CODE {
        "手机令牌验证码"
    } else if code == DEVICE_CONFIRMATION {
        "手机端确认"
    } else if code == EMAIL_CONFIRMATION {
        "邮箱确认"
    } else if code == MACHINE_TOKEN {
        "机器令牌"
    } else {
        "未知验证"
    }
}

} // verus!
