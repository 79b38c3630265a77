use systex::engine::{Engine, TickAction};
use systex::permissions::PermissionStatus;
use systex::AppInfo;

fn app(pid: i32) -> AppInfo {
    AppInfo {
        name: format!("app {pid}"),
        bundle_id: None,
        path: None,
        pid,
    }
}

#[test]
fn an_idle_engine_retargets_at_the_frontmost_app() {
    let mut engine = Engine::new();

    assert_eq!(engine.current_pid(), None);
    match engine.tick(PermissionStatus::Granted, Some(app(7))) {
        TickAction::Retarget { app } => assert_eq!(app.pid, 7),
        other => panic!("unexpected {other:?}"),
    }
    assert_eq!(engine.current_pid(), None);
}

#[test]
fn without_access_or_focus_the_engine_waits() {
    let mut engine = Engine::new();
    engine.attach(app(3));

    assert!(matches!(engine.tick(PermissionStatus::Denied, Some(app(4))), TickAction::Wait));
    assert!(matches!(engine.tick(PermissionStatus::Unknown, Some(app(4))), TickAction::Wait));
    assert!(matches!(engine.tick(PermissionStatus::Granted, None), TickAction::Wait));
    assert_eq!(engine.current_pid(), Some(3));
}

#[test]
fn the_watched_app_is_published_and_reread_until_it_shows_text() {
    let mut engine = Engine::new();
    engine.attach(app(5));

    assert!(matches!(
        engine.tick(PermissionStatus::Granted, Some(app(5))),
        TickAction::Publish { refresh_focus: true }
    ));

    engine.record_snapshot(true);
    assert!(engine.has_text());
    assert!(matches!(
        engine.tick(PermissionStatus::Granted, Some(app(5))),
        TickAction::Publish { refresh_focus: false }
    ));

    engine.record_snapshot(false);
    assert!(!engine.has_text());
}

#[test]
fn a_new_frontmost_app_drops_the_watched_one() {
    let mut engine = Engine::new();
    engine.attach(app(5));

    assert!(matches!(
        engine.tick(PermissionStatus::Granted, Some(app(6))),
        TickAction::Retarget { .. }
    ));
    assert_eq!(engine.current_pid(), None);
    assert!(!engine.has_text());
}

#[test]
fn stopping_forgets_the_watched_app() {
    let mut engine = Engine::new();

    assert!(!engine.stop());
    engine.attach(app(9));
    assert_eq!(engine.current_pid(), Some(9));
    assert!(engine.stop());
    assert_eq!(engine.current_pid(), None);
    engine.record_snapshot(true);
    assert!(!engine.has_text());
}
