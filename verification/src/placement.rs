//! The placement engine: proposed coordinates for a directional arrangement
//! of the selected secondary screen against the primary one.

use vstd::prelude::*;

use crate::screen::{count_primary, idx_of_name, idx_of_primary, lemma_idx_of_name,
    lemma_idx_of_primary, cleared, find_by_name, Location, Screen};
use crate::topology::{sel_view, App};

verus! {

/// Failures of a directional proposal. Both leave the topology untouched.
#[derive(Clone, Copy, Debug, PartialEq, Eq, Structural)]
pub enum PlacementError {
    /// There is not exactly one tracked primary screen.
    NoPrimary,
    /// No tracked non-primary screen is selected.
    NoSecondarySelected,
}

/// The pending positions a directional proposal assigns: first the primary
/// screen's, then the secondary's. The non-moving side is pinned to the edge
/// of the other, so the pair is gap-free and non-overlapping along the chosen
/// axis by construction.
pub open spec fn proposed_positions(d: Location, prim_res: (u16, u16), sec_res: (u16, u16)) -> (
    (u16, u16),
    (u16, u16),
) {
    match d {
        Location::RIGHT => ((0u16, 0u16), (prim_res.0, 0u16)),
        Location::LEFT => ((sec_res.0, 0u16), (0u16, 0u16)),
        Location::UP => ((0u16, sec_res.1), (0u16, 0u16)),
        Location::DOWN => ((0u16, 0u16), (0u16, prim_res.1)),
    }
}

/// The opposite direction.
pub open spec fn mirrored(d: Location) -> Location {
    match d {
        Location::RIGHT => Location::LEFT,
        Location::LEFT => Location::RIGHT,
        Location::UP => Location::DOWN,
        Location::DOWN => Location::UP,
    }
}

/// Placement symmetry: swapping the primary and secondary roles and
/// proposing the mirrored direction assigns each screen the same pending
/// position as before, with the pair swapped accordingly.
pub proof fn lemma_placement_symmetry(d: Location, prim_res: (u16, u16), sec_res: (u16, u16))
    ensures
        proposed_positions(mirrored(d), sec_res, prim_res).0 == proposed_positions(
            d,
            prim_res,
            sec_res,
        ).1,
        proposed_positions(mirrored(d), sec_res, prim_res).1 == proposed_positions(
            d,
            prim_res,
            sec_res,
        ).0,
{
}

/// The screens after a proposal in direction `d`, where `p` is the primary
/// index and `si` the selected secondary index.
pub open spec fn with_proposal(s: Seq<Screen>, d: Location, p: int, si: int) -> Seq<Screen> {
    let pair = proposed_positions(d, s[p].resolution, s[si].resolution);
    s.update(p, Screen { new_position: Some(pair.0), ..s[p] }).update(
        si,
        Screen { new_position: Some(pair.1), location: Some(d), ..s[si] },
    )
}

impl App {
    /// A proposal can be made: exactly one tracked primary, and a selected
    /// non-primary screen.
    pub open spec fn propose_ready(&self) -> bool {
        count_primary(self.screens@) == 1 && self.sel_ok()
    }

    /// Propose the directional arrangement `direction` for the primary and
    /// the selected secondary screen: their pending positions are set to the
    /// pinned pair, the secondary remembers the direction, and every other
    /// screen is untouched. On failure nothing is mutated.
    pub fn propose(&mut self, direction: Location) -> (r: Result<(), PlacementError>)
        ensures
            final(self).running == old(self).running,
            final(self).selected == old(self).selected,
            final(self).notifications == old(self).notifications,
            final(self).show_help == old(self).show_help,
            r is Ok <==> old(self).propose_ready(),
            match r {
                Ok(()) => final(self).screens@ == with_proposal(
                    old(self).screens@,
                    direction,
                    idx_of_primary(old(self).screens@),
                    idx_of_name(old(self).screens@, sel_view(old(self).selected)->0),
                ),
                Err(e) => {
                    &&& *final(self) == *old(self)
                    &&& (e is NoPrimary <==> count_primary(old(self).screens@) != 1)
                },
            },
    {
        let n = self.screens.len();
        let ghost t = self.screens@;
        let mut cnt: usize = 0;
        let mut i: usize = 0;
        while i < n
            invariant
                i <= n,
                n == self.screens@.len(),
                self.screens@ == t,
                cnt == count_primary(t.take(i as int)),
                cnt <= i,
            decreases n - i,
        {
            proof {
                assert(t.take(i as int + 1).drop_last() =~= t.take(i as int));
                assert(t.take(i as int + 1).last() == t[i as int]);
            }
            if self.screens[i].is_primary {
                cnt += 1;
            }
            i += 1;
        }
        proof {
            assert(t.take(n as int) =~= t);
        }
        if cnt != 1 {
            return Err(PlacementError::NoPrimary);
        }
        let sel = match &self.selected {
            Some(nm) => nm.clone(),
            None => {
                return Err(PlacementError::NoSecondarySelected);
            },
        };
        let si = match find_by_name(&self.screens, &sel) {
            Some(si) => si,
            None => {
                proof {
                    lemma_idx_of_name(t, sel@);
                }
                return Err(PlacementError::NoSecondarySelected);
            },
        };
        if self.screens[si].is_primary {
            return Err(PlacementError::NoSecondarySelected);
        }
        let p = match find_primary(&self.screens) {
            Some(p) => p,
            None => {
                // Unreachable: the count above found exactly one primary.
                proof {
                    lemma_count_primary_witness(t);
                    lemma_idx_of_primary(t);
                    assert(false);
                }
                return Err(PlacementError::NoPrimary);
            },
        };
        let pres = self.screens[p].resolution;
        let sres = self.screens[si].resolution;
        let pair: ((u16, u16), (u16, u16)) = match direction {
            Location::RIGHT => ((0u16, 0u16), (pres.0, 0u16)),
            Location::LEFT => ((sres.0, 0u16), (0u16, 0u16)),
            Location::UP => ((0u16, sres.1), (0u16, 0u16)),
            Location::DOWN => ((0u16, 0u16), (0u16, pres.1)),
        };
        proof {
            assert(pair == proposed_positions(direction, pres, sres));
        }
        self.screens[p].new_position = Some(pair.0);
        self.screens[si].new_position = Some(pair.1);
        self.screens[si].location = Some(direction);
        proof {
            assert(self.screens@ =~= with_proposal(t, direction, p as int, si as int));
        }
        Ok(())
    }

    /// Discard any pending proposal on every tracked screen.
    pub fn cancel(&mut self)
        ensures
            final(self).screens@ == old(self).screens@.map_values(|s: Screen| cleared(s)),
            final(self).running == old(self).running,
            final(self).selected == old(self).selected,
            final(self).notifications == old(self).notifications,
            final(self).show_help == old(self).show_help,
    {
        let ghost t = self.screens@;
        let n = self.screens.len();
        let mut i: usize = 0;
        while i < n
            invariant
                i <= n,
                n == self.screens@.len(),
                forall|j: int| 0 <= j < i ==> self.screens@[j] == cleared(t[j]),
                forall|j: int| i <= j < n ==> self.screens@[j] == t[j],
                self.running == old(self).running,
                self.selected == old(self).selected,
                self.notifications == old(self).notifications,
                self.show_help == old(self).show_help,
            decreases n - i,
        {
            self.screens[i].new_position = None;
            self.screens[i].location = None;
            i += 1;
        }
        proof {
            assert(self.screens@ =~= t.map_values(|s: Screen| cleared(s)));
        }
    }
}

/// Find the index of the first primary screen.
pub(crate) fn find_primary(v: &Vec<Screen>) -> (r: Option<usize>)
    ensures
        match r {
            Some(i) => i == idx_of_primary(v@) && i < v@.len() && v@[i as int].is_primary,
            None => idx_of_primary(v@) < 0,
        },
{
    let n = v.len();
    let mut i: usize = 0;
    while i < n
        invariant
            i <= n,
            n == v@.len(),
            forall|j: int| 0 <= j < i ==> !v@[j].is_primary,
        decreases n - i,
    {
        if v[i].is_primary {
            proof {
                lemma_idx_of_primary(v@);
                assert(exists|k: int| 0 <= k < v@.len() && v@[k].is_primary);
            }
            return Some(i);
        }
        i += 1;
    }
    proof {
        lemma_idx_of_primary(v@);
        if idx_of_primary(v@) >= 0 {
            let w = idx_of_primary(v@);
            assert(!v@[w].is_primary);
        }
    }
    None
}

/// A positive primary count yields a primary screen.
pub proof fn lemma_count_primary_witness(s: Seq<Screen>)
    requires
        count_primary(s) > 0,
    ensures
        exists|k: int| 0 <= k < s.len() && s[k].is_primary,
    decreases s.len(),
{
    if s.len() > 0 {
        if s.last().is_primary {
            assert(s[s.len() - 1].is_primary);
        } else {
            lemma_count_primary_witness(s.drop_last());
            let w = choose|k: int| 0 <= k < s.drop_last().len() && s.drop_last()[k].is_primary;
            assert(s[w].is_primary);
        }
    }
}

} // verus!
