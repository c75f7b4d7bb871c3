use tuix::help::{scroll_down_index, scroll_up_index};
use tuix::input::{action_for_key, Action, KeyInput};
use tuix::screen::{Location, Screen};
use tuix::ui::{grid_slot, GridSlot};

#[test]
fn quit_keys() {
    assert_eq!(action_for_key(KeyInput::Char('q'), false, false), Action::Quit);
    assert_eq!(action_for_key(KeyInput::Char('c'), true, false), Action::Quit);
    assert_eq!(action_for_key(KeyInput::Char('C'), true, false), Action::Quit);
    assert_eq!(action_for_key(KeyInput::Char('c'), false, false), Action::Nothing);
}

#[test]
fn direction_keys_propose() {
    assert_eq!(
        action_for_key(KeyInput::Char('h'), false, false),
        Action::Propose(Location::LEFT)
    );
    assert_eq!(
        action_for_key(KeyInput::Char('j'), false, false),
        Action::Propose(Location::DOWN)
    );
    assert_eq!(
        action_for_key(KeyInput::Char('k'), false, false),
        Action::Propose(Location::UP)
    );
    assert_eq!(
        action_for_key(KeyInput::Char('l'), false, false),
        Action::Propose(Location::RIGHT)
    );
}

#[test]
fn escape_dismisses_help_before_cancelling() {
    assert_eq!(action_for_key(KeyInput::Esc, false, true), Action::ToggleHelp);
    assert_eq!(action_for_key(KeyInput::Esc, false, false), Action::Cancel);
}

#[test]
fn question_mark_raises_help_once() {
    assert_eq!(action_for_key(KeyInput::Char('?'), false, false), Action::ToggleHelp);
    assert_eq!(action_for_key(KeyInput::Char('?'), false, true), Action::Nothing);
}

#[test]
fn enter_commits_and_unknown_keys_do_nothing() {
    assert_eq!(action_for_key(KeyInput::Enter, false, false), Action::Commit);
    assert_eq!(action_for_key(KeyInput::Other, false, false), Action::Nothing);
    assert_eq!(action_for_key(KeyInput::Char('z'), false, false), Action::Nothing);
}

#[test]
fn scroll_down_stops_at_last_visible_row() {
    // Seven rows, a block of ten: four rows fit, the floor is three.
    assert_eq!(scroll_down_index(Some(0), 7, 10), 1);
    assert_eq!(scroll_down_index(Some(2), 7, 10), 3);
    assert_eq!(scroll_down_index(Some(3), 7, 10), 3);
    assert_eq!(scroll_down_index(None, 7, 10), 1);
    // A block taller than the list never advances.
    assert_eq!(scroll_down_index(Some(0), 3, 20), 0);
}

#[test]
fn scroll_up_stops_at_the_top() {
    assert_eq!(scroll_up_index(Some(3)), 2);
    assert_eq!(scroll_up_index(Some(1)), 0);
    assert_eq!(scroll_up_index(Some(0)), 0);
    assert_eq!(scroll_up_index(None), 1);
}

#[test]
fn grid_slots_follow_effective_positions() {
    assert_eq!(grid_slot((1920, 0), (0, 0)), GridSlot::RightOf);
    assert_eq!(grid_slot((0, 0), (1920, 0)), GridSlot::LeftOf);
    assert_eq!(grid_slot((0, 0), (0, 1080)), GridSlot::Above);
    assert_eq!(grid_slot((0, 1080), (0, 0)), GridSlot::Below);
    assert_eq!(grid_slot((5, 5), (5, 5)), GridSlot::SamePlace);
}

#[test]
fn effective_position_prefers_the_pending_one() {
    let mut s = Screen {
        name: "HDMI-1".to_string(),
        is_primary: false,
        resolution: (1920, 1080),
        position: (7, 9),
        new_position: None,
        location: None,
    };
    assert_eq!(s.effective_position(), (7, 9));
    s.new_position = Some((1920, 0));
    assert_eq!(s.effective_position(), (1920, 0));
}
