//! The arrangement committer: validates a pending proposal and tracks its
//! transactional application, one configuration call per affected screen,
//! primary first, aborting on the first failure.
//!
//! Issuing the configuration calls is I/O and lives in the surrounding
//! program: it asks the session for the next request, performs it, and
//! reports the outcome back (`ack` on success, `abort` on failure).

use vstd::prelude::*;

use crate::provider::ProviderError;
use crate::screen::{idx_of_name, idx_of_primary, lemma_idx_of_name, name_in, find_by_name,
    Screen};
use crate::topology::{sel_view, App};
use crate::placement::find_primary;

verus! {

/// Failures of a commit.
#[derive(Debug)]
pub enum CommitError {
    /// No pending proposal to apply; no configuration call was made.
    NothingPending,
    /// The selection no longer names a tracked non-primary screen; no
    /// configuration call was made.
    NoSecondarySelected,
    /// The call for `failed_output` failed after the calls for `succeeded`
    /// had gone through; the live hardware state may now disagree with the
    /// model until the next reconciliation corrects it. No pending position
    /// was discarded — the model settles only on full success — so a retry
    /// is possible without a new proposal.
    PartialFailure { succeeded: Vec<String>, failed_output: String, cause: ProviderError },
}

/// One configuration call to make: move the named screen to `target`.
#[derive(Debug)]
pub struct ApplyRequest {
    pub name: String,
    pub target: (u16, u16),
}

/// A validated commit in progress: the calls to make, in order, and how many
/// have been applied so far.
#[derive(Debug)]
pub struct CommitSession {
    pub plan: Vec<ApplyRequest>,
    pub done: usize,
}

/// A screen whose configuration call has been applied: the committed
/// position becomes current and the proposal is discarded.
pub open spec fn applied_screen(s: Screen) -> Screen {
    Screen {
        position: match s.new_position {
            Some(p) => p,
            None => s.position,
        },
        new_position: None,
        location: None,
        ..s
    }
}

/// The screens after the call for the first screen named `n` was applied.
pub open spec fn applied_at(s: Seq<Screen>, n: Seq<char>) -> Seq<Screen> {
    let i = idx_of_name(s, n);
    if i >= 0 {
        s.update(i, applied_screen(s[i]))
    } else {
        s
    }
}

/// The screens after a whole plan was applied, in plan order.
pub open spec fn applied_all(s: Seq<Screen>, plan: Seq<ApplyRequest>) -> Seq<Screen>
    decreases plan.len(),
{
    if plan.len() == 0 {
        s
    } else {
        applied_at(applied_all(s, plan.drop_last()), plan.last().name@)
    }
}

/// Applying one call touches only the screen it names: every other screen,
/// in particular one whose own call was not yet applied, keeps its pending
/// position, so a retry after a partial failure needs no new proposal.
pub proof fn lemma_applied_at_frame(s: Seq<Screen>, n: Seq<char>)
    ensures
        applied_at(s, n).len() == s.len(),
        forall|j: int|
            0 <= j < s.len() && s[j].name@ != n ==> applied_at(s, n)[j] == s[j],
{
    lemma_idx_of_name(s, n);
}

/// Applying a call never renames a screen.
proof fn lemma_applied_at_names(s: Seq<Screen>, n: Seq<char>)
    ensures
        applied_at(s, n).len() == s.len(),
        forall|j: int| 0 <= j < s.len() ==> (#[trigger] applied_at(s, n)[j]).name@ == s[j].name@,
{
    lemma_idx_of_name(s, n);
}

/// Which screen a name finds depends on the names alone.
proof fn lemma_idx_of_name_by_names(s1: Seq<Screen>, s2: Seq<Screen>, n: Seq<char>)
    requires
        s1.len() == s2.len(),
        forall|j: int| 0 <= j < s1.len() ==> s1[j].name@ == s2[j].name@,
    ensures
        idx_of_name(s1, n) == idx_of_name(s2, n),
    decreases s1.len(),
{
    if s1.len() > 0 {
        assert(s1[0].name@ == s2[0].name@);
        lemma_idx_of_name_by_names(s1.drop_first(), s2.drop_first(), n);
        assert(forall|j: int|
            0 <= j < s1.drop_first().len() ==> s1.drop_first()[j].name@ == s1[j + 1].name@
                && s2.drop_first()[j].name@ == s2[j + 1].name@);
    }
}

/// A fully acknowledged commit settles exactly the two planned screens: the
/// committed position of each becomes current and its proposal is
/// discarded, and every other screen is untouched.
pub proof fn lemma_commit_settles(s: Seq<Screen>, plan: Seq<ApplyRequest>)
    requires
        plan.len() == 2,
        idx_of_name(s, plan[0].name@) >= 0,
        idx_of_name(s, plan[1].name@) >= 0,
        plan[0].name@ != plan[1].name@,
    ensures
        ({
            let r = applied_all(s, plan);
            let i0 = idx_of_name(s, plan[0].name@);
            let i1 = idx_of_name(s, plan[1].name@);
            &&& r.len() == s.len()
            &&& r[i0] == applied_screen(s[i0])
            &&& r[i1] == applied_screen(s[i1])
            &&& forall|j: int| 0 <= j < s.len() && j != i0 && j != i1 ==> r[j] == s[j]
        }),
{
    let n0 = plan[0].name@;
    let n1 = plan[1].name@;
    let i0 = idx_of_name(s, n0);
    let i1 = idx_of_name(s, n1);
    lemma_idx_of_name(s, n0);
    lemma_idx_of_name(s, n1);
    assert(name_in(s, n0) && name_in(s, n1)) by {
        if !name_in(s, n0) || !name_in(s, n1) {
            assert(idx_of_name(s, n0) >= 0 && idx_of_name(s, n1) >= 0);
        }
    }
    assert(s[i0].name@ == n0 && s[i1].name@ == n1);
    assert(i0 != i1);
    let s1 = applied_at(s, n0);
    assert(s1 == s.update(i0, applied_screen(s[i0])));
    lemma_applied_at_names(s, n0);
    lemma_idx_of_name_by_names(s1, s, n1);
    assert(applied_at(s1, n1) == s1.update(i1, applied_screen(s1[i1])));
    assert(s1[i1] == s[i1]);
    assert(plan.drop_last() =~= seq![plan[0]]);
    assert(seq![plan[0]].drop_last() =~= Seq::<ApplyRequest>::empty());
    assert(applied_all(s, plan.drop_last()) == applied_at(s, n0)) by {
        reveal_with_fuel(applied_all, 3);
        assert(seq![plan[0]].last() == plan[0]);
    }
    assert(plan.last() == plan[1]);
    assert(applied_all(s, plan) == applied_at(s1, n1));
}

impl App {
    /// A proposal is ready to commit: the selected secondary exists and both
    /// it and the first primary screen have a pending position.
    pub open spec fn commit_ready(&self) -> bool {
        let p = idx_of_primary(self.screens@);
        let si = idx_of_name(self.screens@, sel_view(self.selected)->0);
        &&& self.sel_ok()
        &&& p >= 0
        &&& self.screens@[p].new_position is Some
        &&& self.screens@[si].new_position is Some
    }

    /// Validate the pending proposal and plan its application: one call per
    /// affected screen, the primary's first. Nothing is mutated; without a
    /// valid selection the commit fails with `NoSecondarySelected`, without
    /// a fully pending proposal with `NothingPending`.
    pub fn begin_commit(&self) -> (r: Result<CommitSession, CommitError>)
        ensures
            r is Ok <==> self.commit_ready(),
            match r {
                Ok(sess) => {
                    let p = idx_of_primary(self.screens@);
                    let si = idx_of_name(self.screens@, sel_view(self.selected)->0);
                    &&& sess.done == 0
                    &&& sess.plan@.len() == 2
                    &&& sess.plan@[0].name@ == self.screens@[p].name@
                    &&& Some(sess.plan@[0].target) == self.screens@[p].new_position
                    &&& sess.plan@[1].name@ == self.screens@[si].name@
                    &&& Some(sess.plan@[1].target) == self.screens@[si].new_position
                },
                Err(e) => {
                    &&& (e is NoSecondarySelected <==> !self.sel_ok())
                    &&& !(e is PartialFailure)
                },
            },
    {
        let sel = match &self.selected {
            Some(nm) => nm.clone(),
            None => {
                return Err(CommitError::NoSecondarySelected);
            },
        };
        let si = match find_by_name(&self.screens, &sel) {
            Some(si) => si,
            None => {
                proof {
                    lemma_idx_of_name(self.screens@, sel@);
                }
                return Err(CommitError::NoSecondarySelected);
            },
        };
        if self.screens[si].is_primary {
            return Err(CommitError::NoSecondarySelected);
        }
        let p = match find_primary(&self.screens) {
            Some(p) => p,
            None => {
                return Err(CommitError::NothingPending);
            },
        };
        let prim_target = match self.screens[p].new_position {
            Some(t) => t,
            None => {
                return Err(CommitError::NothingPending);
            },
        };
        let sec_target = match self.screens[si].new_position {
            Some(t) => t,
            None => {
                return Err(CommitError::NothingPending);
            },
        };
        let mut plan: Vec<ApplyRequest> = Vec::new();
        plan.push(ApplyRequest { name: self.screens[p].name.clone(), target: prim_target });
        plan.push(ApplyRequest { name: self.screens[si].name.clone(), target: sec_target });
        Ok(CommitSession { plan, done: 0 })
    }

    /// Record that the configuration call for the first screen named `name`
    /// was applied: its committed position becomes current and its proposal
    /// is discarded; every other screen is untouched.
    pub fn record_applied(&mut self, name: &String)
        ensures
            final(self).screens@ == applied_at(old(self).screens@, name@),
            final(self).running == old(self).running,
            final(self).selected == old(self).selected,
            final(self).notifications == old(self).notifications,
            final(self).show_help == old(self).show_help,
    {
        let ghost t = self.screens@;
        match find_by_name(&self.screens, name) {
            Some(i) => {
                match self.screens[i].new_position {
                    Some(target) => {
                        self.screens[i].position = target;
                    },
                    None => {},
                }
                self.screens[i].new_position = None;
                self.screens[i].location = None;
                proof {
                    assert(self.screens@ =~= applied_at(t, name@));
                }
            },
            None => {
                proof {
                    lemma_idx_of_name(t, name@);
                }
            },
        }
    }
}

impl CommitSession {
    /// The session is well-formed: no more calls applied than planned.
    pub open spec fn wf(&self) -> bool {
        self.done <= self.plan@.len()
    }

    /// All planned calls have been applied.
    pub fn is_complete(&self) -> (r: bool)
        ensures
            r == (self.done >= self.plan@.len()),
    {
        self.done >= self.plan.len()
    }

    /// The next configuration call to make, if any is outstanding.
    pub fn next_request(&self) -> (r: Option<&ApplyRequest>)
        ensures
            match r {
                Some(q) => self.done < self.plan@.len() && *q == self.plan@[self.done as int],
                None => self.done >= self.plan@.len(),
            },
    {
        if self.done < self.plan.len() {
            Some(&self.plan[self.done])
        } else {
            None
        }
    }

    /// The outstanding call was made and succeeded: advance to the next one.
    /// The store settles only once the whole plan went through — on the last
    /// acknowledgement every planned screen's committed position becomes
    /// current and its proposal is discarded; before that the store is
    /// untouched, so an aborted commit can be retried without a new
    /// proposal.
    pub fn ack(&mut self, store: &mut App)
        requires
            old(self).done < old(self).plan@.len(),
        ensures
            final(self).plan == old(self).plan,
            final(self).done == old(self).done + 1,
            old(self).done + 1 < old(self).plan@.len() ==> *final(store) == *old(store),
            old(self).done + 1 == old(self).plan@.len() ==> {
                &&& final(store).screens@ == applied_all(old(store).screens@, old(self).plan@)
                &&& final(store).running == old(store).running
                &&& final(store).selected == old(store).selected
                &&& final(store).notifications == old(store).notifications
                &&& final(store).show_help == old(store).show_help
            },
    {
        let n = self.plan.len();
        assert(self.done < n);
        self.done += 1;
        if self.done == n {
            let mut i: usize = 0;
            while i < n
                invariant
                    i <= n,
                    n == self.plan@.len(),
                    self.plan == old(self).plan,
                    store.screens@ == applied_all(old(store).screens@, self.plan@.take(i as int)),
                    store.running == old(store).running,
                    store.selected == old(store).selected,
                    store.notifications == old(store).notifications,
                    store.show_help == old(store).show_help,
                decreases n - i,
            {
                proof {
                    assert(self.plan@.take(i as int + 1).drop_last() =~= self.plan@.take(
                        i as int,
                    ));
                    assert(self.plan@.take(i as int + 1).last() == self.plan@[i as int]);
                }
                store.record_applied(&self.plan[i].name);
                i += 1;
            }
            proof {
                assert(self.plan@.take(n as int) =~= self.plan@);
            }
        }
    }

    /// The call for `failed` was made and failed: the sequence is aborted
    /// and the partial outcome reported, so the caller can surface which
    /// screens may now be in an inconsistent physical state.
    pub fn abort(&self, failed: &ApplyRequest, cause: ProviderError) -> (r: CommitError)
        requires
            self.wf(),
        ensures
            r matches CommitError::PartialFailure { succeeded, failed_output, cause: c } && {
                &&& succeeded@.len() == self.done
                &&& forall|i: int| 0 <= i < self.done ==> (#[trigger] succeeded@[i])@
                    == self.plan@[i].name@
                &&& failed_output@ == failed.name@
                &&& c == cause
            },
    {
        let mut succeeded: Vec<String> = Vec::new();
        let mut i: usize = 0;
        while i < self.done
            invariant
                i <= self.done,
                self.done <= self.plan@.len(),
                succeeded@.len() == i,
                forall|j: int|
                    0 <= j < i ==> (#[trigger] succeeded@[j])@ == self.plan@[j].name@,
            decreases self.done - i,
        {
            succeeded.push(self.plan[i].name.clone());
            i += 1;
        }
        CommitError::PartialFailure {
            succeeded,
            failed_output: failed.name.clone(),
            cause,
        }
    }
}

} // verus!
