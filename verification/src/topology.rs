//! The topology store: the authoritative list of tracked outputs, kept in
//! sync with the live hardware state by reconciliation.

use vstd::prelude::*;

use crate::notification::{decayed, Notification, NotificationLevel, NOTIFICATION_TICKS};
use crate::provider::ProviderError;
use crate::screen::{
    cleared, distinct_names, first_named, first_non_primary, lemma_idx_of_name, name_in,
    find_by_name, Screen,
};

verus! {

/// A screen kept across a reconciliation: hardware-derived fields are taken
/// from the freshly queried screen, in-flight proposal state from the
/// tracked one.
pub open spec fn merged(kept: Screen, seen: Screen) -> Screen {
    Screen {
        is_primary: seen.is_primary,
        resolution: seen.resolution,
        position: seen.position,
        ..kept
    }
}

/// The tracked screens that survive a reconciliation against `f`, in their
/// tracked order, each updated from its freshly queried counterpart.
pub open spec fn kept_screens(t: Seq<Screen>, f: Seq<Screen>) -> Seq<Screen>
    decreases t.len(),
{
    if t.len() == 0 {
        Seq::empty()
    } else {
        let rest = kept_screens(t.drop_last(), f);
        if name_in(f, t.last().name@) {
            rest.push(merged(t.last(), first_named(f, t.last().name@)))
        } else {
            rest
        }
    }
}

/// The freshly queried screens not previously tracked, in query order, each
/// inserted without a pending proposal.
pub open spec fn added_screens(t: Seq<Screen>, f: Seq<Screen>) -> Seq<Screen>
    decreases f.len(),
{
    if f.len() == 0 {
        Seq::empty()
    } else {
        let rest = added_screens(t, f.drop_last());
        if name_in(t, f.last().name@) {
            rest
        } else {
            rest.push(cleared(f.last()))
        }
    }
}

/// The tracked list after reconciling tracked screens `t` against a fresh
/// query `f`: unplugged screens dropped, surviving screens updated in place,
/// new screens appended.
pub open spec fn reconciled(t: Seq<Screen>, f: Seq<Screen>) -> Seq<Screen> {
    kept_screens(t, f) + added_screens(t, f)
}

/// The name view of an optional selection.
pub open spec fn sel_view(sel: Option<String>) -> Option<Seq<char>> {
    match sel {
        Some(n) => Some(n@),
        None => None,
    }
}

/// The selection after a reconciliation that produced the screens `s`: it
/// persists as long as the selected name still exists, and is otherwise
/// refilled with the first non-primary screen, if any.
pub open spec fn selection_after(sel: Option<Seq<char>>, s: Seq<Screen>) -> Option<Seq<char>> {
    match sel {
        Some(n) => if name_in(s, n) {
            Some(n)
        } else {
            first_non_primary(s)
        },
        None => first_non_primary(s),
    }
}

/// The in-memory application state: the tracked topology, the current
/// selection, pending user-visible notifications, and two UI flags.
#[derive(Debug)]
pub struct App {
    pub running: bool,
    pub screens: Vec<Screen>,
    pub selected: Option<String>,
    pub notifications: Vec<Notification>,
    pub show_help: bool,
}

impl App {
    /// Well-formedness: tracked names are unique.
    pub open spec fn wf(&self) -> bool {
        distinct_names(self.screens@)
    }

    /// The selection names a tracked non-primary screen.
    pub open spec fn sel_ok(&self) -> bool {
        match sel_view(self.selected) {
            Some(n) => {
                let i = crate::screen::idx_of_name(self.screens@, n);
                i >= 0 && !self.screens@[i].is_primary
            },
            None => false,
        }
    }

    /// A fresh store: running, with nothing tracked and nothing selected.
    pub fn new() -> (r: App)
        ensures
            r.running,
            r.screens@ == Seq::<Screen>::empty(),
            r.selected is None,
            r.notifications@ == Seq::<Notification>::empty(),
            !r.show_help,
            r.wf(),
    {
        App {
            running: true,
            screens: Vec::new(),
            selected: None,
            notifications: Vec::new(),
            show_help: false,
        }
    }

    /// Stop the control loop.
    pub fn quit(&mut self)
        ensures
            *final(self) == (App { running: false, ..*old(self) }),
    {
        self.running = false;
    }

    /// Flip the help-overlay flag.
    pub fn toggle_help(&mut self)
        ensures
            *final(self) == (App { show_help: !old(self).show_help, ..*old(self) }),
    {
        self.show_help = !self.show_help;
    }

    /// If nothing is selected, select the first non-primary screen; returns
    /// the selection in force afterwards.
    pub fn select_default_secondary(&mut self) -> (r: Option<String>)
        ensures
            final(self).screens == old(self).screens,
            final(self).running == old(self).running,
            final(self).notifications == old(self).notifications,
            final(self).show_help == old(self).show_help,
            sel_view(final(self).selected) == (match sel_view(old(self).selected) {
                Some(n) => Some(n),
                None => first_non_primary(old(self).screens@),
            }),
            sel_view(r) == sel_view(final(self).selected),
    {
        if self.selected.is_none() {
            self.selected = match find_non_primary(&self.screens) {
                Some(i) => Some(self.screens[i].name.clone()),
                None => None,
            };
        }
        match &self.selected {
            Some(n) => Some(n.clone()),
            None => None,
        }
    }
}

impl App {
    /// Merge a freshly queried screen list into the tracked topology:
    /// unplugged screens are dropped, surviving screens get their
    /// hardware-derived fields updated in place (proposals preserved), new
    /// screens are appended without a proposal. The selection persists while
    /// its screen exists and is otherwise refilled with the first
    /// non-primary screen.
    pub fn reconcile(&mut self, seen: Vec<Screen>)
        requires
            distinct_names(seen@),
        ensures
            final(self).screens@ == reconciled(old(self).screens@, seen@),
            sel_view(final(self).selected) == selection_after(
                sel_view(old(self).selected),
                reconciled(old(self).screens@, seen@),
            ),
            final(self).running == old(self).running,
            final(self).notifications == old(self).notifications,
            final(self).show_help == old(self).show_help,
            old(self).wf() ==> final(self).wf(),
    {
        let ghost t = self.screens@;
        let mut merged_list: Vec<Screen> = Vec::new();
        let n = self.screens.len();
        let mut i: usize = 0;
        while i < n
            invariant
                i <= n,
                n == self.screens@.len(),
                self.screens@ == t,
                merged_list@ == kept_screens(t.take(i as int), seen@),
            decreases n - i,
        {
            proof {
                assert(t.take(i as int + 1).drop_last() =~= t.take(i as int));
                assert(t.take(i as int + 1).last() == t[i as int]);
            }
            let s = &self.screens[i];
            match find_by_name(&seen, &s.name) {
                Some(j) => {
                    proof {
                        lemma_idx_of_name(seen@, s.name@);
                        assert(name_in(seen@, s.name@));
                        assert(first_named(seen@, s.name@) == seen@[j as int]);
                    }
                    let g = &seen[j];
                    merged_list.push(
                        Screen {
                            name: s.name.clone(),
                            is_primary: g.is_primary,
                            resolution: g.resolution,
                            position: g.position,
                            new_position: s.new_position,
                            location: s.location,
                        },
                    );
                    proof {
                        assert(merged_list@.last() == merged(
                            t[i as int],
                            first_named(seen@, t[i as int].name@),
                        ));
                    }
                }
                None => {},
            }
            i += 1;
        }
        proof {
            assert(t.take(n as int) =~= t);
        }
        let m = seen.len();
        let mut j: usize = 0;
        while j < m
            invariant
                j <= m,
                m == seen@.len(),
                self.screens@ == t,
                merged_list@ == kept_screens(t, seen@) + added_screens(t, seen@.take(j as int)),
            decreases m - j,
        {
            proof {
                assert(seen@.take(j as int + 1).drop_last() =~= seen@.take(j as int));
                assert(seen@.take(j as int + 1).last() == seen@[j as int]);
            }
            let g = &seen[j];
            match find_by_name(&self.screens, &g.name) {
                Some(_) => {
                    proof {
                        lemma_idx_of_name(t, g.name@);
                    }
                }
                None => {
                    merged_list.push(
                        Screen {
                            name: g.name.clone(),
                            is_primary: g.is_primary,
                            resolution: g.resolution,
                            position: g.position,
                            new_position: None,
                            location: None,
                        },
                    );
                    proof {
                        assert(merged_list@.last() == cleared(seen@[j as int]));
                    }
                }
            }
            j += 1;
        }
        proof {
            assert(seen@.take(m as int) =~= seen@);
        }
        self.screens = merged_list;
        proof {
            if distinct_names(t) {
                lemma_reconciled_distinct(t, seen@);
            }
        }
        let keep = match &self.selected {
            Some(sel) => find_by_name(&self.screens, sel).is_some(),
            None => false,
        };
        if !keep {
            self.selected = None;
        }
        let _ = self.select_default_secondary();
        proof {
            match sel_view(old(self).selected) {
                Some(nm) => lemma_idx_of_name(reconciled(t, seen@), nm),
                None => {},
            }
        }
    }

    /// One polling tick: notifications decay; on a successful query the
    /// topology is reconciled against it, on a failed one the previous
    /// topology remains the effective one and the failure is reported as an
    /// error notification.
    pub fn tick(&mut self, seen: Result<Vec<Screen>, ProviderError>)
        requires
            seen matches Ok(f) ==> distinct_names(f@),
        ensures
            final(self).running == old(self).running,
            final(self).show_help == old(self).show_help,
            match seen {
                Ok(f) => {
                    &&& final(self).screens@ == reconciled(old(self).screens@, f@)
                    &&& sel_view(final(self).selected) == selection_after(
                        sel_view(old(self).selected),
                        reconciled(old(self).screens@, f@),
                    )
                    &&& final(self).notifications@ == decayed(old(self).notifications@)
                    &&& (old(self).wf() ==> final(self).wf())
                },
                Err(e) => {
                    &&& final(self).screens == old(self).screens
                    &&& final(self).selected == old(self).selected
                    &&& final(self).notifications@.len() == decayed(
                        old(self).notifications@,
                    ).len() + 1
                    &&& final(self).notifications@.drop_last() == decayed(
                        old(self).notifications@,
                    )
                    &&& final(self).notifications@.last().level == NotificationLevel::Error
                    &&& final(self).notifications@.last().ttl == NOTIFICATION_TICKS
                    &&& final(self).notifications@.last().message@ == query_failed_text()
                },
            },
    {
        let ghost ns = self.notifications@;
        let mut alive: Vec<Notification> = Vec::new();
        let k = self.notifications.len();
        let mut i: usize = 0;
        while i < k
            invariant
                i <= k,
                k == self.notifications@.len(),
                self.notifications@ == ns,
                alive@ == decayed(ns.take(i as int)),
            decreases k - i,
        {
            proof {
                assert(ns.take(i as int + 1).drop_last() =~= ns.take(i as int));
                assert(ns.take(i as int + 1).last() == ns[i as int]);
            }
            let nf = &self.notifications[i];
            if nf.ttl > 0 {
                alive.push(
                    Notification {
                        message: nf.message.clone(),
                        level: nf.level,
                        ttl: nf.ttl - 1,
                    },
                );
                proof {
                    assert(alive@.last() == (Notification {
                        ttl: (ns[i as int].ttl - 1) as u16,
                        ..ns[i as int]
                    }));
                }
            }
            i += 1;
        }
        proof {
            assert(ns.take(k as int) =~= ns);
        }
        self.notifications = alive;
        match seen {
            Ok(f) => self.reconcile(f),
            Err(_) => {
                let msg = "display query failed".to_owned();
                self.notifications.push(Notification::new(msg, NotificationLevel::Error));
                proof {
                    assert(self.notifications@.drop_last() =~= decayed(ns));
                }
            }
        }
    }
}

/// Message reported when the display query fails.
pub open spec fn query_failed_text() -> Seq<char> {
    "display query failed"@
}

/// Reconciliation of well-formed inputs yields a well-formed topology: kept
/// screens keep their distinct tracked names, added screens carry distinct
/// fresh names not previously tracked.
pub proof fn lemma_reconciled_distinct(t: Seq<Screen>, f: Seq<Screen>)
    requires
        distinct_names(t),
        distinct_names(f),
    ensures
        distinct_names(reconciled(t, f)),
{
    lemma_kept_names(t, f);
    lemma_added_names(t, f);
    let k = kept_screens(t, f);
    let a = added_screens(t, f);
    let r = reconciled(t, f);
    assert forall|i: int, j: int| 0 <= i < j < r.len() implies r[i].name@ != r[j].name@ by {
        if i < k.len() && j >= k.len() {
            assert(r[i] == k[i]);
            assert(r[j] == a[j - k.len()]);
            assert(name_in(t, k[i].name@));
            assert(!name_in(t, a[j - k.len()].name@));
        } else if i >= k.len() {
            assert(r[i] == a[i - k.len()]);
            assert(r[j] == a[j - k.len()]);
        } else {
            assert(r[i] == k[i]);
            assert(r[j] == k[j]);
        }
    }
}

/// Kept screens have distinct names, each a tracked name that the fresh
/// query still lists.
pub proof fn lemma_kept_names(t: Seq<Screen>, f: Seq<Screen>)
    requires
        distinct_names(t),
    ensures
        distinct_names(kept_screens(t, f)),
        forall|i: int|
            0 <= i < kept_screens(t, f).len() ==> name_in(
                t,
                (#[trigger] kept_screens(t, f)[i]).name@,
            ) && name_in(f, kept_screens(t, f)[i].name@),
    decreases t.len(),
{
    if t.len() > 0 {
        let t0 = t.drop_last();
        assert(distinct_names(t0));
        lemma_kept_names(t0, f);
        let rest = kept_screens(t0, f);
        let k = kept_screens(t, f);
        assert forall|i: int| 0 <= i < rest.len() implies name_in(t, rest[i].name@) && name_in(
            f,
            rest[i].name@,
        ) && rest[i].name@ != t.last().name@ by {
            assert(rest[i] == kept_screens(t0, f)[i]);
            assert(name_in(t0, rest[i].name@));
            let w = choose|w: int| 0 <= w < t0.len() && t0[w].name@ == rest[i].name@;
            assert(t[w].name@ == rest[i].name@);
            assert(t[w].name@ != t[t.len() - 1].name@);
        }
        if name_in(f, t.last().name@) {
            assert(k == rest.push(merged(t.last(), first_named(f, t.last().name@))));
            assert(k[k.len() - 1].name@ == t[t.len() - 1].name@);
            assert(name_in(t, t.last().name@)) by {
                assert(t[t.len() - 1].name@ == t.last().name@);
            }
            assert forall|i: int| 0 <= i < k.len() implies name_in(
                t,
                (#[trigger] k[i]).name@,
            ) && name_in(f, k[i].name@) by {
                if i < rest.len() {
                    assert(k[i] == rest[i]);
                }
            }
            assert forall|i: int, j: int| 0 <= i < j < k.len() implies k[i].name@
                != k[j].name@ by {
                if j < rest.len() {
                    assert(k[i] == rest[i] && k[j] == rest[j]);
                } else {
                    assert(k[i] == rest[i]);
                }
            }
        } else {
            assert(k == rest);
        }
    }
}

/// Added screens have distinct names, each a fresh name not previously
/// tracked.
pub proof fn lemma_added_names(t: Seq<Screen>, f: Seq<Screen>)
    requires
        distinct_names(f),
    ensures
        distinct_names(added_screens(t, f)),
        forall|i: int|
            0 <= i < added_screens(t, f).len() ==> !name_in(
                t,
                (#[trigger] added_screens(t, f)[i]).name@,
            ) && name_in(f, added_screens(t, f)[i].name@),
    decreases f.len(),
{
    if f.len() > 0 {
        let f0 = f.drop_last();
        assert(distinct_names(f0));
        lemma_added_names(t, f0);
        let rest = added_screens(t, f0);
        let a = added_screens(t, f);
        assert forall|i: int| 0 <= i < rest.len() implies !name_in(t, rest[i].name@) && name_in(
            f,
            rest[i].name@,
        ) && rest[i].name@ != f.last().name@ by {
            assert(rest[i] == added_screens(t, f0)[i]);
            assert(name_in(f0, rest[i].name@));
            let w = choose|w: int| 0 <= w < f0.len() && f0[w].name@ == rest[i].name@;
            assert(f[w].name@ == rest[i].name@);
            assert(f[w].name@ != f[f.len() - 1].name@);
        }
        if !name_in(t, f.last().name@) {
            assert(a == rest.push(cleared(f.last())));
            assert(a[a.len() - 1].name@ == f[f.len() - 1].name@);
            assert(name_in(f, f.last().name@)) by {
                assert(f[f.len() - 1].name@ == f.last().name@);
            }
            assert forall|i: int| 0 <= i < a.len() implies !name_in(
                t,
                (#[trigger] a[i]).name@,
            ) && name_in(f, a[i].name@) by {
                if i < rest.len() {
                    assert(a[i] == rest[i]);
                }
            }
            assert forall|i: int, j: int| 0 <= i < j < a.len() implies a[i].name@
                != a[j].name@ by {
                if j < rest.len() {
                    assert(a[i] == rest[i] && a[j] == rest[j]);
                } else {
                    assert(a[i] == rest[i]);
                }
            }
        } else {
            assert(a == rest);
        }
    }
}

/// Find the index of the first non-primary screen.
fn find_non_primary(v: &Vec<Screen>) -> (r: Option<usize>)
    ensures
        match r {
            Some(i) => i < v@.len() && first_non_primary(v@) == Some(v@[i as int].name@),
            None => first_non_primary(v@) is None,
        },
{
    let n = v.len();
    let mut i: usize = 0;
    proof {
        assert(v@.skip(0) =~= v@);
    }
    while i < n
        invariant
            i <= n,
            n == v@.len(),
            first_non_primary(v@) == first_non_primary(v@.skip(i as int)),
        decreases n - i,
    {
        proof {
            assert(v@.skip(i as int).drop_first() =~= v@.skip(i as int + 1));
            assert(v@.skip(i as int)[0] == v@[i as int]);
        }
        if !v[i].is_primary {
            return Some(i);
        }
        i += 1;
    }
    proof {
        assert(v@.skip(n as int) =~= Seq::<Screen>::empty());
    }
    None
}

} // verus!
