//! The `Screen` output model and spec-level helpers over screen sequences.

use vstd::prelude::*;

verus! {

/// One of the four relative arrangements of a secondary output against the
/// primary one.
#[derive(Clone, Copy, Debug, PartialEq, Eq, Structural)]
pub enum Location {
    UP,
    DOWN,
    RIGHT,
    LEFT,
}

/// One display output known to the display server.
///
/// `position` is the last known committed position; `new_position` is an
/// uncommitted proposal, present only between a directional proposal and
/// either a commit or a cancel. The name doubles as the configuration
/// handle: the display utility addresses outputs by name, so no live
/// resource is held here.
#[derive(Debug)]
pub struct Screen {
    pub name: String,
    pub is_primary: bool,
    pub resolution: (u16, u16),
    pub position: (u16, u16),
    pub new_position: Option<(u16, u16)>,
    pub location: Option<Location>,
}

/// The position a screen is shown at: the proposed one while a proposal is
/// pending, else the committed one.
pub open spec fn effective_position_spec(s: Screen) -> (u16, u16) {
    match s.new_position {
        Some(p) => p,
        None => s.position,
    }
}

impl Screen {
    /// The position this screen is shown at: the proposed one while a
    /// proposal is pending, else the committed one.
    pub fn effective_position(&self) -> (r: (u16, u16))
        ensures
            r == effective_position_spec(*self),
    {
        match self.new_position {
            Some(p) => p,
            None => self.position,
        }
    }

    /// An equal copy of this screen.
    pub fn duplicate(&self) -> (r: Screen)
        ensures
            r == *self,
    {
        Screen {
            name: self.name.clone(),
            is_primary: self.is_primary,
            resolution: self.resolution,
            position: self.position,
            new_position: self.new_position,
            location: self.location,
        }
    }
}

/// Some screen in `s` is named `n`.
pub open spec fn name_in(s: Seq<Screen>, n: Seq<char>) -> bool {
    exists|i: int| 0 <= i < s.len() && s[i].name@ == n
}

/// No two screens in `s` share a name.
pub open spec fn distinct_names(s: Seq<Screen>) -> bool {
    forall|i: int, j: int| 0 <= i < j < s.len() ==> s[i].name@ != s[j].name@
}

/// The first screen in `s` named `n` (arbitrary when there is none).
pub open spec fn first_named(s: Seq<Screen>, n: Seq<char>) -> Screen
    decreases s.len(),
{
    if s.len() == 0 {
        arbitrary()
    } else if s[0].name@ == n {
        s[0]
    } else {
        first_named(s.drop_first(), n)
    }
}

/// Index of the first screen in `s` named `n`, or -1 when there is none.
pub open spec fn idx_of_name(s: Seq<Screen>, n: Seq<char>) -> int
    decreases s.len(),
{
    if s.len() == 0 {
        -1
    } else if s[0].name@ == n {
        0
    } else {
        let r = idx_of_name(s.drop_first(), n);
        if r < 0 {
            -1
        } else {
            r + 1
        }
    }
}

/// Index of the first primary screen in `s`, or -1 when there is none.
pub open spec fn idx_of_primary(s: Seq<Screen>) -> int
    decreases s.len(),
{
    if s.len() == 0 {
        -1
    } else if s[0].is_primary {
        0
    } else {
        let r = idx_of_primary(s.drop_first());
        if r < 0 {
            -1
        } else {
            r + 1
        }
    }
}

/// How many screens in `s` carry the primary flag.
pub open spec fn count_primary(s: Seq<Screen>) -> nat
    decreases s.len(),
{
    if s.len() == 0 {
        0
    } else {
        count_primary(s.drop_last()) + if s.last().is_primary {
            1nat
        } else {
            0nat
        }
    }
}

/// Name of the first non-primary screen in `s`, if any.
pub open spec fn first_non_primary(s: Seq<Screen>) -> Option<Seq<char>>
    decreases s.len(),
{
    if s.len() == 0 {
        None
    } else if !s[0].is_primary {
        Some(s[0].name@)
    } else {
        first_non_primary(s.drop_first())
    }
}

/// `s` with any pending proposal discarded.
pub open spec fn cleared(s: Screen) -> Screen {
    Screen { new_position: None, location: None, ..s }
}

/// `idx_of_name` finds exactly the first match: it is nonnegative iff some
/// screen has the name, and it points at the first such screen.
pub proof fn lemma_idx_of_name(s: Seq<Screen>, n: Seq<char>)
    ensures
        idx_of_name(s, n) >= 0 <==> name_in(s, n),
        name_in(s, n) ==> {
            let i = idx_of_name(s, n);
            &&& 0 <= i < s.len()
            &&& s[i].name@ == n
            &&& forall|j: int| 0 <= j < i ==> s[j].name@ != n
            &&& first_named(s, n) == s[i]
        },
    decreases s.len(),
{
    if s.len() > 0 && s[0].name@ != n {
        lemma_idx_of_name(s.drop_first(), n);
        assert(forall|i: int|
            1 <= i < s.len() ==> s.drop_first()[i - 1] == s[i]);
        if name_in(s, n) {
            let w = choose|i: int| 0 <= i < s.len() && s[i].name@ == n;
            assert(s.drop_first()[w - 1].name@ == n);
        }
    }
}

/// `idx_of_primary` finds exactly the first primary screen.
pub proof fn lemma_idx_of_primary(s: Seq<Screen>)
    ensures
        idx_of_primary(s) >= 0 <==> exists|i: int| 0 <= i < s.len() && s[i].is_primary,
        idx_of_primary(s) >= 0 ==> {
            let i = idx_of_primary(s);
            &&& 0 <= i < s.len()
            &&& s[i].is_primary
            &&& forall|j: int| 0 <= j < i ==> !s[j].is_primary
        },
    decreases s.len(),
{
    if s.len() > 0 && !s[0].is_primary {
        lemma_idx_of_primary(s.drop_first());
        assert(forall|i: int|
            1 <= i < s.len() ==> s.drop_first()[i - 1] == s[i]);
        if exists|i: int| 0 <= i < s.len() && s[i].is_primary {
            let w = choose|i: int| 0 <= i < s.len() && s[i].is_primary;
            assert(s.drop_first()[w - 1].is_primary);
        }
    }
}

/// Find the index of the first screen with the given name.
pub fn find_by_name(v: &Vec<Screen>, n: &String) -> (r: Option<usize>)
    ensures
        match r {
            Some(i) => i == idx_of_name(v@, n@) && i < v@.len(),
            None => !name_in(v@, n@),
        },
{
    let mut i: usize = 0;
    while i < v.len()
        invariant
            i <= v@.len(),
            forall|j: int| 0 <= j < i ==> v@[j].name@ != n@,
        decreases v@.len() - i,
    {
        if v[i].name == *n {
            proof {
                assert(v@[i as int].name@ == n@);
                assert(name_in(v@, n@));
                lemma_idx_of_name(v@, n@);
            }
            return Some(i);
        }
        i += 1;
    }
    proof {
        if name_in(v@, n@) {
            let w = choose|j: int| 0 <= j < v@.len() && v@[j].name@ == n@;
            assert(v@[w].name@ != n@);
        }
    }
    None
}

} // verus!
