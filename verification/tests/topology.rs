use tuix::notification::{Notification, NotificationLevel, NOTIFICATION_TICKS};
use tuix::provider::ProviderError;
use tuix::screen::{Location, Screen};
use tuix::topology::App;

fn screen(name: &str, primary: bool, res: (u16, u16), pos: (u16, u16)) -> Screen {
    Screen {
        name: name.to_string(),
        is_primary: primary,
        resolution: res,
        position: pos,
        new_position: None,
        location: None,
    }
}

fn fresh_pair() -> Vec<Screen> {
    vec![
        screen("eDP-1", true, (1920, 1080), (0, 0)),
        screen("HDMI-1", false, (1920, 1080), (1920, 0)),
    ]
}

#[test]
fn new_app_is_empty_and_running() {
    let app = App::new();
    assert!(app.running);
    assert!(app.screens.is_empty());
    assert!(app.selected.is_none());
    assert!(app.notifications.is_empty());
    assert!(!app.show_help);
}

#[test]
fn quit_stops_running() {
    let mut app = App::new();
    app.quit();
    assert!(!app.running);
}

#[test]
fn toggle_help_flips_flag() {
    let mut app = App::new();
    app.toggle_help();
    assert!(app.show_help);
    app.toggle_help();
    assert!(!app.show_help);
}

#[test]
fn reconcile_inserts_new_screens_in_order() {
    let mut app = App::new();
    app.reconcile(fresh_pair());
    assert_eq!(app.screens.len(), 2);
    assert_eq!(app.screens[0].name, "eDP-1");
    assert!(app.screens[0].is_primary);
    assert_eq!(app.screens[1].name, "HDMI-1");
    assert_eq!(app.screens[1].position, (1920, 0));
    assert!(app.screens[0].new_position.is_none());
    assert!(app.screens[1].new_position.is_none());
}

#[test]
fn reconcile_updates_hardware_fields_and_keeps_pending() {
    let mut app = App::new();
    app.reconcile(fresh_pair());
    app.screens[1].new_position = Some((0, 0));
    app.screens[1].location = Some(Location::LEFT);
    let mut moved = fresh_pair();
    moved[1].position = (0, 1080);
    moved[1].resolution = (2560, 1440);
    app.reconcile(moved);
    assert_eq!(app.screens.len(), 2);
    assert_eq!(app.screens[1].position, (0, 1080));
    assert_eq!(app.screens[1].resolution, (2560, 1440));
    assert_eq!(app.screens[1].new_position, Some((0, 0)));
    assert!(matches!(app.screens[1].location, Some(Location::LEFT)));
}

#[test]
fn reconcile_drops_unplugged_screen() {
    let mut app = App::new();
    app.reconcile(fresh_pair());
    app.reconcile(vec![screen("eDP-1", true, (1920, 1080), (0, 0))]);
    assert_eq!(app.screens.len(), 1);
    assert_eq!(app.screens[0].name, "eDP-1");
}

#[test]
fn replug_does_not_resurrect_pending_state() {
    let mut app = App::new();
    app.reconcile(fresh_pair());
    app.screens[1].new_position = Some((1920, 0));
    app.screens[1].location = Some(Location::RIGHT);
    app.reconcile(vec![screen("eDP-1", true, (1920, 1080), (0, 0))]);
    app.reconcile(fresh_pair());
    assert_eq!(app.screens.len(), 2);
    assert_eq!(app.screens[1].name, "HDMI-1");
    assert!(app.screens[1].new_position.is_none());
    assert!(app.screens[1].location.is_none());
}

#[test]
fn reconcile_twice_with_same_list_is_a_no_op() {
    let mut app = App::new();
    app.reconcile(fresh_pair());
    app.screens[1].new_position = Some((1920, 0));
    let before: Vec<(String, bool, (u16, u16), (u16, u16), Option<(u16, u16)>)> = app
        .screens
        .iter()
        .map(|s| (s.name.clone(), s.is_primary, s.resolution, s.position, s.new_position))
        .collect();
    app.reconcile(fresh_pair());
    let after: Vec<(String, bool, (u16, u16), (u16, u16), Option<(u16, u16)>)> = app
        .screens
        .iter()
        .map(|s| (s.name.clone(), s.is_primary, s.resolution, s.position, s.new_position))
        .collect();
    assert_eq!(before, after);
}

#[test]
fn selection_defaults_to_first_non_primary() {
    let mut app = App::new();
    app.reconcile(fresh_pair());
    assert_eq!(app.selected.as_deref(), Some("HDMI-1"));
}

#[test]
fn selection_persists_while_screen_exists() {
    let mut app = App::new();
    app.reconcile(vec![
        screen("eDP-1", true, (1920, 1080), (0, 0)),
        screen("HDMI-1", false, (1920, 1080), (1920, 0)),
        screen("DP-2", false, (1280, 1024), (3840, 0)),
    ]);
    assert_eq!(app.selected.as_deref(), Some("HDMI-1"));
    // HDMI-1 still listed: the selection stays even though DP-2 comes first
    // in some other order.
    app.reconcile(vec![
        screen("DP-2", false, (1280, 1024), (3840, 0)),
        screen("eDP-1", true, (1920, 1080), (0, 0)),
        screen("HDMI-1", false, (1920, 1080), (1920, 0)),
    ]);
    assert_eq!(app.selected.as_deref(), Some("HDMI-1"));
}

#[test]
fn selection_clears_and_reselects_when_screen_disappears() {
    let mut app = App::new();
    app.reconcile(fresh_pair());
    assert_eq!(app.selected.as_deref(), Some("HDMI-1"));
    app.reconcile(vec![screen("eDP-1", true, (1920, 1080), (0, 0))]);
    assert_eq!(app.selected, None);
}

#[test]
fn select_default_secondary_returns_selection() {
    let mut app = App::new();
    app.screens = fresh_pair();
    let chosen = app.select_default_secondary();
    assert_eq!(chosen.as_deref(), Some("HDMI-1"));
    assert_eq!(app.selected.as_deref(), Some("HDMI-1"));
}

#[test]
fn tick_on_query_failure_keeps_topology_and_notifies() {
    let mut app = App::new();
    app.reconcile(fresh_pair());
    let selected_before = app.selected.clone();
    app.tick(Err(ProviderError::QueryFailed));
    assert_eq!(app.screens.len(), 2);
    assert_eq!(app.selected, selected_before);
    assert_eq!(app.notifications.len(), 1);
    assert!(matches!(app.notifications[0].level, NotificationLevel::Error));
    assert_eq!(app.notifications[0].message, "display query failed");
    assert_eq!(app.notifications[0].ttl, NOTIFICATION_TICKS);
}

#[test]
fn tick_decays_notifications() {
    let mut app = App::new();
    app.notifications.push(Notification::new("hello".to_string(), NotificationLevel::Info));
    app.notifications.push(Notification {
        message: "stale".to_string(),
        level: NotificationLevel::Info,
        ttl: 0,
    });
    app.tick(Ok(Vec::new()));
    assert_eq!(app.notifications.len(), 1);
    assert_eq!(app.notifications[0].message, "hello");
    assert_eq!(app.notifications[0].ttl, NOTIFICATION_TICKS - 1);
}
