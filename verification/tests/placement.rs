use tuix::placement::PlacementError;
use tuix::screen::{Location, Screen};
use tuix::topology::App;

fn screen(name: &str, primary: bool, res: (u16, u16), pos: (u16, u16)) -> Screen {
    Screen {
        name: name.to_string(),
        is_primary: primary,
        resolution: res,
        position: pos,
        new_position: None,
        location: None,
    }
}

fn app_with(primary_res: (u16, u16), secondary_res: (u16, u16)) -> App {
    let mut app = App::new();
    app.reconcile(vec![
        screen("eDP-1", true, primary_res, (0, 0)),
        screen("HDMI-1", false, secondary_res, (1920, 0)),
    ]);
    app
}

#[test]
fn propose_right_pins_primary_at_origin() {
    let mut app = app_with((1920, 1080), (1920, 1080));
    assert!(app.propose(Location::RIGHT).is_ok());
    assert_eq!(app.screens[0].new_position, Some((0, 0)));
    assert_eq!(app.screens[1].new_position, Some((1920, 0)));
    assert!(matches!(app.screens[1].location, Some(Location::RIGHT)));
    assert!(app.screens[0].location.is_none());
}

#[test]
fn propose_left_pins_secondary_at_origin() {
    let mut app = app_with((1920, 1080), (2560, 1440));
    assert!(app.propose(Location::LEFT).is_ok());
    assert_eq!(app.screens[0].new_position, Some((2560, 0)));
    assert_eq!(app.screens[1].new_position, Some((0, 0)));
    assert!(matches!(app.screens[1].location, Some(Location::LEFT)));
}

#[test]
fn propose_up_pins_secondary_at_origin() {
    let mut app = app_with((1920, 1080), (2560, 1440));
    assert!(app.propose(Location::UP).is_ok());
    assert_eq!(app.screens[0].new_position, Some((0, 1440)));
    assert_eq!(app.screens[1].new_position, Some((0, 0)));
    assert!(matches!(app.screens[1].location, Some(Location::UP)));
}

#[test]
fn propose_down_pins_primary_at_origin() {
    let mut app = app_with((1920, 1080), (2560, 1440));
    assert!(app.propose(Location::DOWN).is_ok());
    assert_eq!(app.screens[0].new_position, Some((0, 0)));
    assert_eq!(app.screens[1].new_position, Some((0, 1080)));
    assert!(matches!(app.screens[1].location, Some(Location::DOWN)));
}

#[test]
fn mirrored_proposal_swaps_pending_positions() {
    // Same two panels with the roles swapped; the mirrored direction gives
    // each panel the position the other role assignment gave it.
    let mut app = app_with((1920, 1080), (2560, 1440));
    assert!(app.propose(Location::RIGHT).is_ok());
    let prim_pending = app.screens[0].new_position.unwrap();
    let sec_pending = app.screens[1].new_position.unwrap();

    let mut swapped = App::new();
    swapped.reconcile(vec![
        screen("HDMI-1", true, (2560, 1440), (0, 0)),
        screen("eDP-1", false, (1920, 1080), (0, 0)),
    ]);
    assert!(swapped.propose(Location::LEFT).is_ok());
    // HDMI-1 is now the primary, eDP-1 the secondary.
    assert_eq!(swapped.screens[0].new_position.unwrap(), sec_pending);
    assert_eq!(swapped.screens[1].new_position.unwrap(), prim_pending);
}

#[test]
fn mirrored_vertical_proposal_swaps_pending_positions() {
    let mut app = app_with((1920, 1080), (2560, 1440));
    assert!(app.propose(Location::UP).is_ok());
    let prim_pending = app.screens[0].new_position.unwrap();
    let sec_pending = app.screens[1].new_position.unwrap();

    let mut swapped = App::new();
    swapped.reconcile(vec![
        screen("HDMI-1", true, (2560, 1440), (0, 0)),
        screen("eDP-1", false, (1920, 1080), (0, 0)),
    ]);
    assert!(swapped.propose(Location::DOWN).is_ok());
    assert_eq!(swapped.screens[0].new_position.unwrap(), sec_pending);
    assert_eq!(swapped.screens[1].new_position.unwrap(), prim_pending);
}

#[test]
fn propose_leaves_third_screen_untouched() {
    let mut app = App::new();
    app.reconcile(vec![
        screen("eDP-1", true, (1920, 1080), (0, 0)),
        screen("HDMI-1", false, (1920, 1080), (1920, 0)),
        screen("DP-2", false, (1280, 1024), (3840, 0)),
    ]);
    assert!(app.propose(Location::RIGHT).is_ok());
    assert!(app.screens[2].new_position.is_none());
    assert!(app.screens[2].location.is_none());
    assert_eq!(app.screens[2].position, (3840, 0));
}

#[test]
fn propose_without_primary_fails() {
    let mut app = App::new();
    app.reconcile(vec![
        screen("HDMI-1", false, (1920, 1080), (0, 0)),
        screen("DP-2", false, (1280, 1024), (1920, 0)),
    ]);
    assert!(matches!(app.propose(Location::RIGHT), Err(PlacementError::NoPrimary)));
    assert!(app.screens.iter().all(|s| s.new_position.is_none()));
}

#[test]
fn propose_with_two_primaries_fails() {
    let mut app = App::new();
    app.reconcile(vec![
        screen("eDP-1", true, (1920, 1080), (0, 0)),
        screen("HDMI-1", true, (1920, 1080), (1920, 0)),
    ]);
    assert!(matches!(app.propose(Location::RIGHT), Err(PlacementError::NoPrimary)));
}

#[test]
fn propose_without_secondary_fails() {
    let mut app = App::new();
    app.reconcile(vec![screen("eDP-1", true, (1920, 1080), (0, 0))]);
    assert!(matches!(
        app.propose(Location::RIGHT),
        Err(PlacementError::NoSecondarySelected)
    ));
}

#[test]
fn cancel_clears_every_pending_position() {
    let mut app = app_with((1920, 1080), (1920, 1080));
    assert!(app.propose(Location::UP).is_ok());
    app.cancel();
    assert!(app.screens.iter().all(|s| s.new_position.is_none()));
    assert!(app.screens.iter().all(|s| s.location.is_none()));
}
