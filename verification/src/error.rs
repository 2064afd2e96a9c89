//! The errors that a caller of the service can be told about.

use crate::utils::{decimal, decimal_of};
use vstd::prelude::*;
use vstd::string::StringExecFns;

verus! {

/// An error of the service, each with a number and a message for the user.
#[derive(PartialEq, Eq, Structural, Clone, Copy, Debug)]
pub enum E {
    SmsSendLimit,
    /// The seconds that must pass between two messages.
    SmsSendInterval(i64),
    SmsVerifyNotFound,
    SmsVerified,
    SmsVerifyLimit,
    SmsVerifyExpired,
    SmsVerifyInvalid,
    SmsMobileInvalid,
    AccessTokenNotFound,
    AccessTokenInvalid,
    SessionExpired,
    UserNotFound,
    SessionIsOwned,
    CoinNotFound,
    Unknown,
}

impl E {
    /// The number that stands for the error.
    pub open spec fn code(self) -> u32 {
        match self {
            E::SmsSendLimit => 1,
            E::SmsSendInterval(_) => 2,
            E::SmsVerifyNotFound => 3,
            E::SmsVerified => 4,
            E::SmsVerifyLimit => 5,
            E::SmsVerifyExpired => 6,
            E::SmsVerifyInvalid => 7,
            E::SmsMobileInvalid => 8,
            E::AccessTokenNotFound => 9,
            E::AccessTokenInvalid => 10,
            E::SessionExpired => 11,
            E::UserNotFound => 12,
            E::SessionIsOwned => 13,
            E::CoinNotFound => 14,
            E::Unknown => 999,
        }
    }

    /// The message that the user is shown.
    pub open spec fn message(self) -> Seq<char> {
        match self {
            E::SmsSendLimit => "过去24小时发送的短信已超过10条，请稍后再试。"@,
            E::SmsSendInterval(secs) => "两次短信发送时间需间隔"@ + decimal_of(secs as int)
                + "秒。"@,
            E::SmsVerifyNotFound => "无验证短信。"@,
            E::SmsVerified => "该验证码已使用。"@,
            E::SmsVerifyLimit => "验证码尝试已超过10次。"@,
            E::SmsVerifyExpired => "验证码已过期。"@,
            E::SmsVerifyInvalid => "验证码错误。"@,
            E::SmsMobileInvalid => "手机号格式错误。"@,
            E::AccessTokenNotFound => "没有令牌。"@,
            E::AccessTokenInvalid => "无效的令牌。"@,
            E::SessionExpired => "会话已过期。"@,
            E::UserNotFound => "该用户不存在。"@,
            E::SessionIsOwned => "会话已有所属。"@,
            E::CoinNotFound => "加密币不存在。"@,
            E::Unknown => "未知错误。"@,
        }
    }

    /// The number and the message of the error.
    pub fn spec(&self) -> (r: (u32, String))
        ensures
            r.0 == self.code(),
            r.1@ == self.message(),
    {
        match *self {
            E::SmsSendLimit => (1, "过去24小时发送的短信已超过10条，请稍后再试。".to_owned()),
            E::SmsSendInterval(secs) => {
                let mut msg = "两次短信发送时间需间隔".to_owned();
                let number = decimal(secs as i128);
                msg.append(number.as_str());
                msg.append("秒。");
                (2, msg)
            },
            E::SmsVerifyNotFound => (3, "无验证短信。".to_owned()),
            E::SmsVerified => (4, "该验证码已使用。".to_owned()),
            E::SmsVerifyLimit => (5, "验证码尝试已超过10次。".to_owned()),
            E::SmsVerifyExpired => (6, "验证码已过期。".to_owned()),
            E::SmsVerifyInvalid => (7, "验证码错误。".to_owned()),
            E::SmsMobileInvalid => (8, "手机号格式错误。".to_owned()),
            E::AccessTokenNotFound => (9, "没有令牌。".to_owned()),
            E::AccessTokenInvalid => (10, "无效的令牌。".to_owned()),
            E::SessionExpired => (11, "会话已过期。".to_owned()),
            E::UserNotFound => (12, "该用户不存在。".to_owned()),
            E::SessionIsOwned => (13, "会话已有所属。".to_owned()),
            E::CoinNotFound => (14, "加密币不存在。".to_owned()),
            E::Unknown => (999, "未知错误。".to_owned()),
        }
    }
}

} // verus!
