use systex::permissions::{self, Permission, PermissionStatus};
use systex::platform::Platform;
use systex::SystexError;

#[test]
fn every_permission_key_reads_back() {
    for permission in permissions::all() {
        assert_eq!(Permission::from_key(permission.key()), Some(permission));
    }
    assert_eq!(Permission::from_key("accessibility"), Some(Permission::Accessibility));
    assert_eq!(Permission::from_key("input_monitoring"), Some(Permission::InputMonitoring));
    assert_eq!(Permission::from_key("screen_recording"), Some(Permission::ScreenRecording));
    assert_eq!(Permission::from_key("Accessibility"), None);
    assert_eq!(Permission::from_key(""), None);
}

#[test]
fn permissions_are_labelled() {
    assert_eq!(Permission::Accessibility.label(), "Accessibility");
    assert_eq!(Permission::InputMonitoring.label(), "Input Monitoring");
    assert_eq!(Permission::ScreenRecording.label(), "Screen Recording");
    assert_eq!(PermissionStatus::Granted.label(), "granted");
    assert_eq!(PermissionStatus::Denied.label(), "not granted");
    assert_eq!(PermissionStatus::Unknown.label(), "unknown");
    assert_eq!(
        permissions::all(),
        [Permission::Accessibility, Permission::InputMonitoring, Permission::ScreenRecording]
    );
}

#[test]
fn status_follows_the_check() {
    assert_eq!(permissions::status(Permission::Accessibility, Some(true)), PermissionStatus::Granted);
    assert_eq!(permissions::status(Permission::ScreenRecording, Some(false)), PermissionStatus::Denied);
    assert_eq!(permissions::status(Permission::InputMonitoring, None), PermissionStatus::Unknown);
}

#[test]
fn requests_are_unsupported_off_macos() {
    assert!(matches!(
        permissions::request(Permission::Accessibility, &Platform::Linux, None),
        Err(SystexError::UnsupportedPlatform("linux"))
    ));
    assert!(matches!(
        permissions::request(Permission::Accessibility, &Platform::MacOs, Some(true)),
        Ok(PermissionStatus::Granted)
    ));
    assert!(matches!(
        permissions::open_settings(Permission::Accessibility, &Platform::Windows),
        Err(SystexError::UnsupportedPlatform("windows"))
    ));
}

#[test]
fn settings_open_at_the_permission_pane() {
    assert_eq!(
        permissions::open_settings(Permission::InputMonitoring, &Platform::MacOs).unwrap(),
        "x-apple.systempreferences:com.apple.preference.security?Privacy_ListenEvent"
    );
    assert_eq!(
        permissions::settings_url(Permission::Accessibility),
        "x-apple.systempreferences:com.apple.preference.security?Privacy_Accessibility"
    );
    assert_eq!(
        permissions::settings_url(Permission::ScreenRecording),
        "x-apple.systempreferences:com.apple.preference.security?Privacy_ScreenCapture"
    );
}
