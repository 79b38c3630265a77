use systex::permissions::PermissionStatus;
use systex::platform::Platform;
use systex::{provider_by_name, ContextProvider, SystemProvider, SystexError};

#[test]
fn unknown_provider_name_is_rejected() {
    assert!(provider_by_name("mock").is_ok());
    assert!(provider_by_name("system").is_ok());
    assert!(provider_by_name("nope").is_err());
}

#[test]
fn provider_names_pick_their_provider() {
    assert!(matches!(provider_by_name("mock"), Ok(ContextProvider::Mock(_))));
    assert!(matches!(provider_by_name("system"), Ok(ContextProvider::System(_))));
    match provider_by_name("nope") {
        Err(SystexError::Capture(message)) => assert_eq!(message, "unknown provider `nope`"),
        other => panic!("unexpected {other:?}"),
    }
    assert!(provider_by_name("System").is_err());
    assert!(provider_by_name("").is_err());
}

#[test]
fn system_provider_is_not_implemented_yet() {
    let provider = SystemProvider::new();

    assert!(matches!(
        provider.check_ready(&Platform::Linux, PermissionStatus::Unknown),
        Err(SystexError::Unimplemented("linux at-spi capture"))
    ));
    assert!(matches!(
        provider.check_ready(&Platform::Windows, PermissionStatus::Granted),
        Err(SystexError::Unimplemented("windows ui automation capture"))
    ));
    assert!(matches!(
        provider.check_ready(&Platform::Other("freebsd"), PermissionStatus::Unknown),
        Err(SystexError::UnsupportedPlatform("freebsd"))
    ));
    assert!(matches!(
        provider.check_ready(&Platform::MacOs, PermissionStatus::Granted),
        Err(SystexError::Unimplemented(_))
    ));
    for platform in [Platform::Linux, Platform::Windows, Platform::Other("haiku")] {
        let error = provider
            .check_ready(&platform, PermissionStatus::Unknown)
            .expect_err("no system capture yet");

        assert!(matches!(
            error,
            SystexError::Unimplemented(_) | SystexError::UnsupportedPlatform(_)
        ));
    }
}

#[test]
fn system_provider_on_macos_needs_accessibility() {
    let provider = SystemProvider::default();

    assert!(matches!(
        provider.check_ready(&Platform::MacOs, PermissionStatus::Granted),
        Err(SystexError::Unimplemented("macos accessibility capture"))
    ));
    assert!(matches!(
        provider.check_ready(&Platform::MacOs, PermissionStatus::Denied),
        Err(SystexError::PermissionDenied)
    ));
    assert!(matches!(
        provider.check_ready(&Platform::MacOs, PermissionStatus::Unknown),
        Err(SystexError::PermissionDenied)
    ));
    assert!(provider.is_available(PermissionStatus::Granted));
    assert!(!provider.is_available(PermissionStatus::Unknown));
}

#[test]
fn reading_the_focused_element_takes_macos_and_accessibility() {
    let provider = SystemProvider::new();

    assert!(provider.check_access(&Platform::MacOs, PermissionStatus::Granted).is_ok());
    assert!(matches!(
        provider.check_access(&Platform::MacOs, PermissionStatus::Denied),
        Err(SystexError::PermissionDenied)
    ));
    assert!(matches!(
        provider.check_access(&Platform::Linux, PermissionStatus::Granted),
        Err(SystexError::Unimplemented("linux at-spi capture"))
    ));
    assert!(matches!(
        provider.check_access(&Platform::Other("plan9"), PermissionStatus::Unknown),
        Err(SystexError::UnsupportedPlatform("plan9"))
    ));
}

#[test]
fn platforms_are_named_as_std_names_them() {
    assert!(matches!(Platform::from_os("macos"), Platform::MacOs));
    assert!(matches!(Platform::from_os("windows"), Platform::Windows));
    assert!(matches!(Platform::from_os("linux"), Platform::Linux));
    assert!(matches!(Platform::from_os("ios"), Platform::Other("ios")));
    assert_eq!(Platform::Linux.os(), "linux");
    assert_eq!(Platform::Other("netbsd").os(), "netbsd");
    assert!(Platform::MacOs.has_engine());
    assert!(!Platform::Linux.has_engine());
}

#[test]
fn errors_describe_themselves() {
    assert_eq!(
        SystexError::PermissionDenied.message(),
        "accessibility permission is not granted"
    );
    assert_eq!(SystexError::NothingFocused.message(), "nothing is focused right now");
    assert_eq!(
        SystexError::UnsupportedPlatform("plan9").message(),
        "platform `plan9` is not supported"
    );
    assert_eq!(
        SystexError::Unimplemented("linux at-spi capture").message(),
        "`linux at-spi capture` is not implemented yet"
    );
    assert_eq!(
        SystexError::Capture("boom".to_string()).message(),
        "capture failed: boom"
    );
}

#[test]
fn a_process_without_an_element_is_named_in_the_error() {
    match SystexError::no_accessibility_element(412) {
        SystexError::Capture(reason) => assert_eq!(reason, "no accessibility element for process 412"),
        other => panic!("unexpected {other:?}"),
    }
    assert_eq!(
        SystexError::no_accessibility_element(-3).message(),
        "capture failed: no accessibility element for process -3"
    );
}
