use systex::menu::{
    can_grant, decimal_text, interval_label, intervals, menu_item_id, opacities, opacity_label,
    parse_menu_id, parse_unsigned, permission_entry_label, signed_decimal_text, MenuCommand,
};
use systex::permissions::{Permission, PermissionStatus};
use systex::view::{Route, Settings, State};
use systex::CaptureOptions;

fn settings() -> Settings {
    Settings {
        route: Route::Basic,
        columns: 2,
        interval_ms: 500,
        opacity: 80,
        overlay_visible: true,
        pointer: true,
        attribute_names: false,
        window_text: true,
        words: false,
    }
}

#[test]
fn routes_read_back_from_their_keys() {
    for route in Route::all() {
        assert_eq!(Route::from_key(route.key()), Some(route));
    }
    assert_eq!(Route::Basic.key(), "basic");
    assert_eq!(Route::WindowContent.key(), "window_content");
    assert_eq!(Route::Basic.label(), "Basic");
    assert_eq!(Route::WindowContent.label(), "Window content");
    assert_eq!(Route::from_key("window content"), None);
}

#[test]
fn the_window_content_route_reads_the_window_text() {
    let mut state = State::new(Settings { window_text: false, ..settings() });

    assert_eq!(
        state.settings().options(),
        CaptureOptions { pointer: true, attribute_names: false, window_text: false, words: false }
    );
    state.set_route(Route::WindowContent);
    assert!(state.settings().options().window_text);
}

#[test]
fn the_tray_changes_one_setting_at_a_time() {
    let mut state = State::new(settings());

    state.set_interval(2000);
    state.set_opacity(40);
    state.set_columns(3);
    assert_eq!(state.settings().interval_ms, 2000);
    assert_eq!(state.settings().opacity, 40);
    assert_eq!(state.settings().columns, 3);
    assert!(!state.toggle_overlay());
    assert!(state.toggle_overlay());

    state.toggle_detail("words");
    assert!(state.settings().words);
    state.toggle_detail("pointer");
    assert!(!state.settings().pointer);
    state.toggle_detail("attribute_names");
    state.toggle_detail("window_text");
    assert!(state.settings().attribute_names);
    assert!(!state.settings().window_text);
    state.toggle_detail("words");
    assert!(!state.settings().words);
}

#[test]
fn tray_items_name_what_they_ask_for() {
    assert_eq!(parse_menu_id("quit"), MenuCommand::Quit);
    assert_eq!(parse_menu_id("overlay"), MenuCommand::ToggleOverlay);
    assert_eq!(parse_menu_id("permissions:refresh"), MenuCommand::RefreshPermissions);
    assert_eq!(parse_menu_id("interval:1000"), MenuCommand::SetInterval(1000));
    assert_eq!(parse_menu_id("opacity:60"), MenuCommand::SetOpacity(60));
    assert_eq!(
        parse_menu_id("grant:screen_recording"),
        MenuCommand::Grant(Permission::ScreenRecording)
    );
    assert_eq!(
        parse_menu_id("settings:accessibility"),
        MenuCommand::OpenSettings(Permission::Accessibility)
    );
    assert_eq!(parse_menu_id("interval:fast"), MenuCommand::Malformed);
    assert_eq!(parse_menu_id("opacity:256"), MenuCommand::Malformed);
    assert_eq!(parse_menu_id("grant:camera"), MenuCommand::Malformed);
    assert_eq!(parse_menu_id("permission:accessibility"), MenuCommand::Unknown);
    assert_eq!(parse_menu_id(""), MenuCommand::Unknown);
}

#[test]
fn every_item_the_tray_builds_reads_back() {
    for ms in intervals() {
        assert_eq!(parse_menu_id(&format!("interval:{ms}")), MenuCommand::SetInterval(ms));
    }
    for value in opacities() {
        assert_eq!(parse_menu_id(&format!("opacity:{value}")), MenuCommand::SetOpacity(value));
    }
}

#[test]
fn numbers_parse_as_std_parses_them() {
    for text in ["0", "7", "+42", "0018446744073709551615", "18446744073709551615"] {
        assert_eq!(parse_unsigned(text, u64::MAX), text.parse::<u64>().ok());
    }
    for text in ["", "+", "-1", "1 ", " 1", "18446744073709551616", "1e3", "٣"] {
        assert_eq!(parse_unsigned(text, u64::MAX), text.parse::<u64>().ok());
    }
    for text in ["255", "256", "+0", "1000"] {
        assert_eq!(parse_unsigned(text, 255).map(|v| v as u8), text.parse::<u8>().ok());
    }
}

#[test]
fn numbers_are_written_in_decimal() {
    for n in [0u64, 7, 10, 99, 100, 2000, 1234567890, u64::MAX] {
        assert_eq!(decimal_text(n), n.to_string());
    }
}

#[test]
fn item_ids_are_built_as_the_tray_names_them() {
    assert_eq!(menu_item_id(MenuCommand::Quit), "quit");
    assert_eq!(menu_item_id(MenuCommand::ToggleOverlay), "overlay");
    assert_eq!(menu_item_id(MenuCommand::RefreshPermissions), "permissions:refresh");
    assert_eq!(menu_item_id(MenuCommand::SetInterval(200)), "interval:200");
    assert_eq!(menu_item_id(MenuCommand::SetOpacity(100)), "opacity:100");
    assert_eq!(menu_item_id(MenuCommand::Grant(Permission::InputMonitoring)), "grant:input_monitoring");
    assert_eq!(
        menu_item_id(MenuCommand::OpenSettings(Permission::ScreenRecording)),
        "settings:screen_recording"
    );
    for command in [
        MenuCommand::Quit,
        MenuCommand::ToggleOverlay,
        MenuCommand::RefreshPermissions,
        MenuCommand::SetInterval(u64::MAX),
        MenuCommand::SetOpacity(0),
        MenuCommand::Grant(Permission::Accessibility),
        MenuCommand::OpenSettings(Permission::InputMonitoring),
    ] {
        assert_eq!(parse_menu_id(&menu_item_id(command)), command);
    }
}

#[test]
fn tray_labels_read_as_the_tray_shows_them() {
    assert_eq!(interval_label(500), "every 500ms");
    assert_eq!(opacity_label(80), "80%");
    assert_eq!(
        permission_entry_label(Permission::ScreenRecording, PermissionStatus::Denied),
        "Screen Recording · not granted"
    );
    assert!(can_grant(PermissionStatus::Unknown));
    assert!(can_grant(PermissionStatus::Denied));
    assert!(!can_grant(PermissionStatus::Granted));
}

#[test]
fn signed_numbers_are_written_in_decimal() {
    for n in [0i32, 5, -5, 1234, -2048, i32::MAX, i32::MIN] {
        assert_eq!(signed_decimal_text(n), n.to_string());
    }
}

#[test]
fn the_overlay_starts_with_its_default_settings() {
    let settings = Settings::default();

    assert_eq!(settings.route, Route::Basic);
    assert_eq!(settings.columns, 2);
    assert_eq!(settings.interval_ms, 500);
    assert_eq!(settings.opacity, 80);
    assert!(settings.overlay_visible && settings.pointer && settings.window_text);
    assert!(!settings.attribute_names && !settings.words);
}
