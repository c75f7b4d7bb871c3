use tuix::commit::{ApplyRequest, CommitError};
use tuix::provider::ProviderError;
use tuix::screen::{Location, Screen};
use tuix::topology::App;

fn screen(name: &str, primary: bool, res: (u16, u16), pos: (u16, u16)) -> Screen {
    Screen {
        name: name.to_string(),
        is_primary: primary,
        resolution: res,
        position: pos,
        new_position: None,
        location: None,
    }
}

fn app_pair() -> App {
    let mut app = App::new();
    app.reconcile(vec![
        screen("eDP-1", true, (1920, 1080), (0, 0)),
        screen("HDMI-1", false, (1920, 1080), (1920, 0)),
    ]);
    app
}

/// A display-server stand-in that records every configuration call and can
/// be told to fail for one output.
struct StubProvider {
    calls: Vec<(String, u16, u16)>,
    fail_for: Option<String>,
}

impl StubProvider {
    fn new() -> StubProvider {
        StubProvider { calls: Vec::new(), fail_for: None }
    }

    fn apply_geometry(&mut self, name: &str, x: u16, y: u16) -> Result<(), ProviderError> {
        self.calls.push((name.to_string(), x, y));
        match &self.fail_for {
            Some(n) if n == name => Err(ProviderError::ApplyFailed),
            _ => Ok(()),
        }
    }
}

fn run_commit(app: &mut App, provider: &mut StubProvider) -> Result<(), CommitError> {
    let mut session = match app.begin_commit() {
        Ok(s) => s,
        Err(e) => return Err(e),
    };
    loop {
        let (name, target) = match session.next_request() {
            Some(req) => (req.name.clone(), req.target),
            None => return Ok(()),
        };
        match provider.apply_geometry(&name, target.0, target.1) {
            Ok(()) => session.ack(app),
            Err(cause) => {
                return Err(session.abort(&ApplyRequest { name, target }, cause));
            }
        }
    }
}

#[test]
fn commit_applies_primary_first_then_updates_positions() {
    let mut app = app_pair();
    assert!(app.propose(Location::RIGHT).is_ok());
    let mut provider = StubProvider::new();
    assert!(run_commit(&mut app, &mut provider).is_ok());
    assert_eq!(
        provider.calls,
        vec![("eDP-1".to_string(), 0, 0), ("HDMI-1".to_string(), 1920, 0)]
    );
    assert_eq!(app.screens[0].position, (0, 0));
    assert_eq!(app.screens[1].position, (1920, 0));
    assert!(app.screens[0].new_position.is_none());
    assert!(app.screens[1].new_position.is_none());
    assert!(app.screens[1].location.is_none());
}

#[test]
fn commit_without_proposal_makes_no_calls() {
    let mut app = app_pair();
    let mut provider = StubProvider::new();
    let r = run_commit(&mut app, &mut provider);
    assert!(matches!(r, Err(CommitError::NothingPending)));
    assert_eq!(provider.calls.len(), 0);
}

#[test]
fn commit_with_empty_selection_fails_before_any_call() {
    let mut app = app_pair();
    assert!(app.propose(Location::RIGHT).is_ok());
    // The secondary disappears from a fresh query while the proposal is
    // still pending: the selection empties, and a commit afterwards must not
    // act on the stale data.
    app.reconcile(vec![screen("eDP-1", true, (1920, 1080), (0, 0))]);
    assert_eq!(app.selected, None);
    let mut provider = StubProvider::new();
    let r = run_commit(&mut app, &mut provider);
    assert!(matches!(r, Err(CommitError::NoSecondarySelected)));
    assert_eq!(provider.calls.len(), 0);
}

#[test]
fn partial_failure_reports_progress_and_keeps_pending() {
    let mut app = App::new();
    app.reconcile(vec![
        screen("eDP-1", true, (1920, 1080), (3, 4)),
        screen("HDMI-1", false, (1920, 1080), (7, 9)),
    ]);
    assert!(app.propose(Location::RIGHT).is_ok());
    let mut provider = StubProvider::new();
    provider.fail_for = Some("HDMI-1".to_string());
    let r = run_commit(&mut app, &mut provider);
    match r {
        Err(CommitError::PartialFailure { succeeded, failed_output, cause }) => {
            assert_eq!(succeeded, vec!["eDP-1".to_string()]);
            assert_eq!(failed_output, "HDMI-1");
            assert!(matches!(cause, ProviderError::ApplyFailed));
        }
        other => panic!("expected a partial failure, got {:?}", other.is_ok()),
    }
    assert_eq!(provider.calls.len(), 2);
    // Nothing settles on a partial failure: committed positions are
    // unchanged and every pending position survives, so a retry needs no
    // new proposal.
    assert_eq!(app.screens[0].position, (3, 4));
    assert_eq!(app.screens[1].position, (7, 9));
    assert_eq!(app.screens[0].new_position, Some((0, 0)));
    assert_eq!(app.screens[1].new_position, Some((1920, 0)));
}

#[test]
fn failure_on_first_call_attempts_nothing_further() {
    let mut app = app_pair();
    assert!(app.propose(Location::LEFT).is_ok());
    let mut provider = StubProvider::new();
    provider.fail_for = Some("eDP-1".to_string());
    let r = run_commit(&mut app, &mut provider);
    match r {
        Err(CommitError::PartialFailure { succeeded, failed_output, .. }) => {
            assert!(succeeded.is_empty());
            assert_eq!(failed_output, "eDP-1");
        }
        _ => panic!("expected a partial failure"),
    }
    assert_eq!(provider.calls.len(), 1);
    // Both screens keep their pending positions.
    assert_eq!(app.screens[0].new_position, Some((1920, 0)));
    assert_eq!(app.screens[1].new_position, Some((0, 0)));
}

#[test]
fn retry_after_partial_failure_succeeds() {
    let mut app = app_pair();
    assert!(app.propose(Location::DOWN).is_ok());
    let mut provider = StubProvider::new();
    provider.fail_for = Some("HDMI-1".to_string());
    assert!(run_commit(&mut app, &mut provider).is_err());
    provider.fail_for = None;
    provider.calls.clear();
    // The pending pair survived the failure, so the retry needs no new
    // proposal.
    assert!(run_commit(&mut app, &mut provider).is_ok());
    assert_eq!(provider.calls.len(), 2);
    assert_eq!(app.screens[0].position, (0, 0));
    assert_eq!(app.screens[1].position, (0, 1080));
    assert!(app.screens[0].new_position.is_none());
    assert!(app.screens[1].new_position.is_none());
}

#[test]
fn record_applied_ignores_unknown_names() {
    let mut app = app_pair();
    assert!(app.propose(Location::RIGHT).is_ok());
    app.record_applied(&"DP-9".to_string());
    assert_eq!(app.screens[0].new_position, Some((0, 0)));
    assert_eq!(app.screens[1].new_position, Some((1920, 0)));
}
