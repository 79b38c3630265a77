//! What can go wrong when the library asks the system for context.
use vstd::prelude::*;
use vstd::string::*;

use crate::menu::{signed_decimal_digits, signed_decimal_text};

verus! {

/// Every way a capture can fail.
#[derive(Debug)]
pub enum SystexError {
    PermissionDenied,
    NothingFocused,
    UnsupportedPlatform(&'static str),
    Unimplemented(&'static str),
    Capture(String),
}

pub type Result<T> = core::result::Result<T, SystexError>;

/// The message that describes `error` to a person.
pub open spec fn error_message(error: SystexError) -> Seq<char> {
    match error {
        SystexError::PermissionDenied => "accessibility permission is not granted"@,
        SystexError::NothingFocused => "nothing is focused right now"@,
        SystexError::UnsupportedPlatform(platform) => "platform `"@ + platform@
            + "` is not supported"@,
        SystexError::Unimplemented(feature) => "`"@ + feature@ + "` is not implemented yet"@,
        SystexError::Capture(reason) => "capture failed: "@ + reason@,
    }
}

/// The reason a capture gives when process `pid` has no accessibility element.
pub open spec fn no_element_reason(pid: int) -> Seq<char> {
    "no accessibility element for process "@ + signed_decimal_digits(pid)
}

impl SystexError {
    /// The error for a frontmost process `pid` whose accessibility element cannot be had.
    pub fn no_accessibility_element(pid: i32) -> (r: SystexError)
        ensures
            r matches SystexError::Capture(reason) && reason@ == no_element_reason(pid as int),
    {
        let mut reason = String::from_str("no accessibility element for process ");
        reason.append(signed_decimal_text(pid).as_str());
        SystexError::Capture(reason)
    }

    /// The message that describes this error to a person.
    pub fn message(&self) -> (r: String)
        ensures
            r@ == error_message(*self),
    {
        match self {
            SystexError::PermissionDenied => String::from_str(
                "accessibility permission is not granted",
            ),
            SystexError::NothingFocused => String::from_str("nothing is focused right now"),
            SystexError::UnsupportedPlatform(platform) => {
                let mut message = String::from_str("platform `");
                message.append(platform);
                message.append("` is not supported");
                message
            },
            SystexError::Unimplemented(feature) => {
                let mut message = String::from_str("`");
                message.append(feature);
                message.append("` is not implemented yet");
                message
            },
            SystexError::Capture(reason) => {
                let mut message = String::from_str("capture failed: ");
                message.append(reason.as_str());
                message
            },
        }
    }
}

} // verus!
