//! EMsg values used by the client.

use vstd::prelude::*;

verus! {

pub const MULTI: u32 = 1;
pub const SERVICE_METHOD_RESPONSE: u32 = 147;
pub const SERVICE_METHOD_CALL_FROM_CLIENT: u32 = 151;
pub const SERVICE_METHOD_CALL_FROM_CLIENT_NONAUTHED: u32 = 9804;

pub const CLIENT_HEART_BEAT: u32 = 703;
pub const CLIENT_LOG_OFF: u32 = 706;
pub const CLIENT_LOG_ON_RESPONSE: u32 = 751;
pub const CLIENT_LOGGED_OFF: u32 = 757;
pub const CLIENT_LICENSE_LIST: u32 = 780;

pub const CLIENT_GET_DEPOT_DECRYPTION_KEY: u32 = 5438;
pub const CLIENT_GET_DEPOT_DECRYPTION_KEY_RESPONSE: u32 = 5439;
pub const CLIENT_LOGON: u32 = 5514;
pub const CLIENT_REQUEST_FREE_LICENSE: u32 = 5572;
pub const CLIENT_REQUEST_FREE_LICENSE_RESPONSE: u32 = 5573;

pub const CLIENT_PICS_PRODUCT_INFO_REQUEST: u32 = 8903;
pub const CLIENT_PICS_PRODUCT_INFO_RESPONSE: u32 = 8904;
pub const CLIENT_PICS_ACCESS_TOKEN_REQUEST: u32 = 8905;
pub const CLIENT_PICS_ACCESS_TOKEN_RESPONSE: u32 = 8906;

pub const CLIENT_SERVER_UNAVAILABLE: u32 = 5500;
pub const CLIENT_HELLO: u32 = 9805;

} // verus!
