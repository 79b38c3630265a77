//! The system permissions the library needs, their names, and what their checks answer.
use vstd::prelude::*;
use vstd::string::*;

use crate::error::{Result, SystexError};
use crate::platform::{platform_os, Platform};
use crate::text::same_text;

verus! {

/// A permission the user grants in the system settings.
#[derive(Debug, Clone, Copy, PartialEq, Eq, Structural)]
pub enum Permission {
    Accessibility,
    InputMonitoring,
    ScreenRecording,
}

/// Whether a permission is granted.
#[derive(Debug, Clone, Copy, PartialEq, Eq, Structural)]
pub enum PermissionStatus {
    Granted,
    Denied,
    Unknown,
}

/// Every permission, in the order the tray lists them.
pub fn all() -> (r: [Permission; 3])
    ensures
        r@ == seq![
            Permission::Accessibility,
            Permission::InputMonitoring,
            Permission::ScreenRecording,
        ],
{
    let r = [Permission::Accessibility, Permission::InputMonitoring, Permission::ScreenRecording];
    assert(r@ =~= seq![
        Permission::Accessibility,
        Permission::InputMonitoring,
        Permission::ScreenRecording,
    ]);
    r
}

/// The machine name of `permission`.
pub open spec fn permission_key(permission: Permission) -> Seq<char> {
    match permission {
        Permission::Accessibility => "accessibility"@,
        Permission::InputMonitoring => "input_monitoring"@,
        Permission::ScreenRecording => "screen_recording"@,
    }
}

/// The permission that the machine name `key` stands for.
pub open spec fn permission_for_key(key: Seq<char>) -> Option<Permission> {
    if key == "accessibility"@ {
        Some(Permission::Accessibility)
    } else if key == "input_monitoring"@ {
        Some(Permission::InputMonitoring)
    } else if key == "screen_recording"@ {
        Some(Permission::ScreenRecording)
    } else {
        None
    }
}

/// The name of `permission` as the system settings show it.
pub open spec fn permission_label(permission: Permission) -> Seq<char> {
    match permission {
        Permission::Accessibility => "Accessibility"@,
        Permission::InputMonitoring => "Input Monitoring"@,
        Permission::ScreenRecording => "Screen Recording"@,
    }
}

/// The system settings pane in which `permission` is granted.
pub open spec fn permission_pane(permission: Permission) -> Seq<char> {
    match permission {
        Permission::Accessibility => "Privacy_Accessibility"@,
        Permission::InputMonitoring => "Privacy_ListenEvent"@,
        Permission::ScreenRecording => "Privacy_ScreenCapture"@,
    }
}

/// The address that opens the system settings at the pane of `permission`.
pub open spec fn permission_settings_url(permission: Permission) -> Seq<char> {
    "x-apple.systempreferences:com.apple.preference.security?"@ + permission_pane(permission)
}

/// How `status` is shown to a person.
pub open spec fn status_label(status: PermissionStatus) -> Seq<char> {
    match status {
        PermissionStatus::Granted => "granted"@,
        PermissionStatus::Denied => "not granted"@,
        PermissionStatus::Unknown => "unknown"@,
    }
}

/// The status that a platform's check answers: granted or not, and unknown where the platform
/// has no check.
pub open spec fn status_of(answer: Option<bool>) -> PermissionStatus {
    match answer {
        Some(true) => PermissionStatus::Granted,
        Some(false) => PermissionStatus::Denied,
        None => PermissionStatus::Unknown,
    }
}

impl Permission {
    /// The machine name of this permission.
    pub fn key(self) -> (r: &'static str)
        ensures
            r@ == permission_key(self),
    {
        match self {
            Permission::Accessibility => "accessibility",
            Permission::InputMonitoring => "input_monitoring",
            Permission::ScreenRecording => "screen_recording",
        }
    }

    /// The name of this permission as the system settings show it.
    pub fn label(self) -> (r: &'static str)
        ensures
            r@ == permission_label(self),
    {
        match self {
            Permission::Accessibility => "Accessibility",
            Permission::InputMonitoring => "Input Monitoring",
            Permission::ScreenRecording => "Screen Recording",
        }
    }

    /// The permission that the machine name `key` stands for, if any.
    pub fn from_key(key: &str) -> (r: Option<Self>)
        ensures
            r == permission_for_key(key@),
    {
        if same_text(key, "accessibility") {
            return Some(Permission::Accessibility);
        }
        if same_text(key, "input_monitoring") {
            return Some(Permission::InputMonitoring);
        }
        if same_text(key, "screen_recording") {
            return Some(Permission::ScreenRecording);
        }
        None
    }

    /// The system settings pane in which this permission is granted.
    pub fn settings_pane(self) -> (r: &'static str)
        ensures
            r@ == permission_pane(self),
    {
        match self {
            Permission::Accessibility => "Privacy_Accessibility",
            Permission::InputMonitoring => "Privacy_ListenEvent",
            Permission::ScreenRecording => "Privacy_ScreenCapture",
        }
    }
}

impl PermissionStatus {
    /// How this status is shown to a person.
    pub fn label(self) -> (r: &'static str)
        ensures
            r@ == status_label(self),
    {
        match self {
            PermissionStatus::Granted => "granted",
            PermissionStatus::Denied => "not granted",
            PermissionStatus::Unknown => "unknown",
        }
    }
}

/// The status of `permission` given what the platform's check for it answered (`None` where the
/// platform has no such check, as everywhere but macOS).
pub fn status(permission: Permission, answer: Option<bool>) -> (r: PermissionStatus)
    ensures
        r == status_of(answer),
{
    match answer {
        Some(true) => PermissionStatus::Granted,
        Some(false) => PermissionStatus::Denied,
        None => PermissionStatus::Unknown,
    }
}

/// The outcome of asking for `permission`: on macOS the status its check answers once the system
/// prompt has been shown; elsewhere there is nothing to ask and the platform is not supported.
pub fn request(permission: Permission, platform: &Platform, answer_after: Option<bool>) -> (r:
    Result<PermissionStatus>)
    ensures
        *platform is MacOs ==> (r matches Ok(s) && s == status_of(answer_after)),
        !(*platform is MacOs) ==> (r matches Err(SystexError::UnsupportedPlatform(os)) && os@
            == platform_os(*platform)),
{
    match platform {
        Platform::MacOs => Ok(status(permission, answer_after)),
        _ => Err(SystexError::UnsupportedPlatform(platform.os())),
    }
}

/// The address that opens the system settings at the pane of `permission`.
pub fn settings_url(permission: Permission) -> (r: String)
    ensures
        r@ == permission_settings_url(permission),
{
    let mut url = String::from_str("x-apple.systempreferences:com.apple.preference.security?");
    url.append(permission.settings_pane());
    url
}

/// What to open to let the user grant `permission`: on macOS the settings address; elsewhere the
/// platform is not supported.
pub fn open_settings(permission: Permission, platform: &Platform) -> (r: Result<String>)
    ensures
        *platform is MacOs ==> (r matches Ok(url) && url@ == permission_settings_url(permission)),
        !(*platform is MacOs) ==> (r matches Err(SystexError::UnsupportedPlatform(os)) && os@
            == platform_os(*platform)),
{
    match platform {
        Platform::MacOs => Ok(settings_url(permission)),
        _ => Err(SystexError::UnsupportedPlatform(platform.os())),
    }
}

/// Every permission's machine name reads back as that permission, and only that name does.
pub proof fn lemma_permission_key_round_trip(permission: Permission, key: Seq<char>)
    ensures
        permission_for_key(permission_key(permission)) == Some(permission),
        permission_for_key(key) == Some(permission) ==> key == permission_key(permission),
{
    reveal_strlit("accessibility");
    reveal_strlit("input_monitoring");
    reveal_strlit("screen_recording");
    assert("accessibility"@ != "input_monitoring"@) by {
        assert("accessibility"@.len() != "input_monitoring"@.len());
    }
    assert("accessibility"@ != "screen_recording"@) by {
        assert("accessibility"@.len() != "screen_recording"@.len());
    }
    assert("input_monitoring"@ != "screen_recording"@) by {
        assert("input_monitoring"@[0] != "screen_recording"@[0]);
    }
}

/// Distinct permissions have distinct labels, and distinct statuses distinct labels.
pub proof fn lemma_labels_are_distinct(
    a: Permission,
    b: Permission,
    s: PermissionStatus,
    t: PermissionStatus,
)
    ensures
        a != b ==> permission_label(a) != permission_label(b),
        s != t ==> status_label(s) != status_label(t),
{
    reveal_strlit("Accessibility");
    reveal_strlit("Input Monitoring");
    reveal_strlit("Screen Recording");
    reveal_strlit("granted");
    reveal_strlit("not granted");
    reveal_strlit("unknown");
    assert("Accessibility"@[0] != "Input Monitoring"@[0]);
    assert("Accessibility"@[0] != "Screen Recording"@[0]);
    assert("Input Monitoring"@[0] != "Screen Recording"@[0]);
    assert("granted"@[0] != "not granted"@[0]);
    assert("granted"@[0] != "unknown"@[0]);
    assert("not granted"@[0] != "unknown"@[0]);
}

} // verus!
