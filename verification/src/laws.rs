//! Laws of reconciliation: idempotence, and the fate of unplugged and
//! replugged screens.

use vstd::prelude::*;

use crate::screen::{cleared, distinct_names, first_named, name_in, Screen};
use crate::topology::{added_screens, kept_screens, merged, reconciled};

verus! {

/// A name occurs in a concatenation iff it occurs in one of the parts.
proof fn lemma_name_in_concat(a: Seq<Screen>, b: Seq<Screen>, n: Seq<char>)
    ensures
        name_in(a + b, n) <==> name_in(a, n) || name_in(b, n),
{
    if name_in(a, n) {
        let w = choose|i: int| 0 <= i < a.len() && a[i].name@ == n;
        assert((a + b)[w].name@ == n);
    }
    if name_in(b, n) {
        let w = choose|i: int| 0 <= i < b.len() && b[i].name@ == n;
        assert((a + b)[a.len() + w].name@ == n);
    }
    if name_in(a + b, n) {
        let w = choose|i: int| 0 <= i < (a + b).len() && (a + b)[i].name@ == n;
        if w < a.len() {
            assert(a[w].name@ == n);
        } else {
            assert(b[w - a.len()].name@ == n);
        }
    }
}

/// Kept screens carry exactly the tracked names that the fresh query lists.
proof fn lemma_kept_name_in(t: Seq<Screen>, f: Seq<Screen>, n: Seq<char>)
    ensures
        name_in(kept_screens(t, f), n) <==> name_in(t, n) && name_in(f, n),
    decreases t.len(),
{
    if t.len() == 0 {
    } else {
        let t0 = t.drop_last();
        lemma_kept_name_in(t0, f, n);
        let rest = kept_screens(t0, f);
        if name_in(t0, n) {
            let w = choose|i: int| 0 <= i < t0.len() && t0[i].name@ == n;
            assert(t[w].name@ == n);
        }
        if name_in(t, n) && !name_in(t0, n) {
            let w = choose|i: int| 0 <= i < t.len() && t[i].name@ == n;
            if w < t.len() - 1 {
                assert(t0[w].name@ == n);
            }
            assert(t.last().name@ == n);
        }
        if name_in(f, t.last().name@) {
            let k = kept_screens(t, f);
            assert(k == rest.push(merged(t.last(), first_named(f, t.last().name@))));
            assert(k[k.len() - 1].name@ == t.last().name@);
            if name_in(rest, n) {
                let w = choose|i: int| 0 <= i < rest.len() && rest[i].name@ == n;
                assert(k[w].name@ == n);
            }
            if name_in(k, n) {
                let w = choose|i: int| 0 <= i < k.len() && k[i].name@ == n;
                if w < rest.len() {
                    assert(rest[w].name@ == n);
                } else {
                    assert(n == t.last().name@);
                    assert(t[t.len() - 1].name@ == n);
                }
            }
            assert(t[t.len() - 1].name@ == t.last().name@);
        } else {
            if name_in(t, n) && name_in(f, n) {
                assert(name_in(t0, n)) by {
                    if n == t.last().name@ {
                        assert(!name_in(f, n));
                    }
                }
            }
        }
    }
}

/// Added screens carry exactly the fresh names not previously tracked.
proof fn lemma_added_name_in(t: Seq<Screen>, f: Seq<Screen>, n: Seq<char>)
    ensures
        name_in(added_screens(t, f), n) <==> name_in(f, n) && !name_in(t, n),
    decreases f.len(),
{
    if f.len() == 0 {
    } else {
        let f0 = f.drop_last();
        lemma_added_name_in(t, f0, n);
        let rest = added_screens(t, f0);
        if name_in(f0, n) {
            let w = choose|i: int| 0 <= i < f0.len() && f0[i].name@ == n;
            assert(f[w].name@ == n);
        }
        if name_in(f, n) && !name_in(f0, n) {
            let w = choose|i: int| 0 <= i < f.len() && f[i].name@ == n;
            if w < f.len() - 1 {
                assert(f0[w].name@ == n);
            }
            assert(f.last().name@ == n);
        }
        if !name_in(t, f.last().name@) {
            let a = added_screens(t, f);
            assert(a == rest.push(cleared(f.last())));
            assert(a[a.len() - 1].name@ == f.last().name@);
            if name_in(rest, n) {
                let w = choose|i: int| 0 <= i < rest.len() && rest[i].name@ == n;
                assert(a[w].name@ == n);
            }
            if name_in(a, n) {
                let w = choose|i: int| 0 <= i < a.len() && a[i].name@ == n;
                if w < rest.len() {
                    assert(rest[w].name@ == n);
                } else {
                    assert(n == f.last().name@);
                    assert(f[f.len() - 1].name@ == n);
                }
            }
            assert(f[f.len() - 1].name@ == f.last().name@);
        } else {
            if name_in(f, n) && !name_in(t, n) {
                assert(name_in(f0, n)) by {
                    if n == f.last().name@ {
                        assert(name_in(t, n));
                    }
                }
            }
        }
    }
}

/// A reconciled topology carries exactly the freshly queried names: what the
/// query lists is tracked, what it omits is gone.
pub proof fn lemma_reconciled_names(t: Seq<Screen>, f: Seq<Screen>, n: Seq<char>)
    ensures
        name_in(reconciled(t, f), n) <==> name_in(f, n),
{
    lemma_name_in_concat(kept_screens(t, f), added_screens(t, f), n);
    lemma_kept_name_in(t, f, n);
    lemma_added_name_in(t, f, n);
}

/// Unplug: a screen whose name is absent from the fresh query is absent from
/// the reconciled topology.
pub proof fn lemma_unplugged(t: Seq<Screen>, f: Seq<Screen>, n: Seq<char>)
    requires
        !name_in(f, n),
    ensures
        !name_in(reconciled(t, f), n),
{
    lemma_reconciled_names(t, f, n);
}

/// Replug: a fresh screen whose name was not tracked enters the reconciled
/// topology as a new entity, without a pending position — in-flight proposal
/// state is not resurrected.
pub proof fn lemma_replugged(t: Seq<Screen>, f: Seq<Screen>, n: Seq<char>)
    requires
        name_in(f, n),
        !name_in(t, n),
    ensures
        exists|i: int|
            0 <= i < reconciled(t, f).len() && (#[trigger] reconciled(t, f)[i]).name@ == n
                && reconciled(t, f)[i].new_position is None && reconciled(t, f)[i].location
                is None,
{
    lemma_added_fresh(t, f, n);
    let a = added_screens(t, f);
    let k = kept_screens(t, f);
    let w = choose|i: int|
        0 <= i < a.len() && (#[trigger] a[i]).name@ == n && a[i].new_position is None
            && a[i].location is None;
    assert(reconciled(t, f)[k.len() + w] == a[w]);
}

/// The added part contains a cleared entry for every fresh name that was not
/// tracked.
proof fn lemma_added_fresh(t: Seq<Screen>, f: Seq<Screen>, n: Seq<char>)
    requires
        name_in(f, n),
        !name_in(t, n),
    ensures
        exists|i: int|
            0 <= i < added_screens(t, f).len() && (#[trigger] added_screens(t, f)[i]).name@ == n
                && added_screens(t, f)[i].new_position is None && added_screens(t, f)[i].location
                is None,
    decreases f.len(),
{
    let f0 = f.drop_last();
    let rest = added_screens(t, f0);
    let a = added_screens(t, f);
    if f.last().name@ == n {
        assert(!name_in(t, f.last().name@));
        assert(a == rest.push(cleared(f.last())));
        assert(a[a.len() - 1] == cleared(f.last()));
    } else {
        assert(name_in(f0, n)) by {
            let w = choose|i: int| 0 <= i < f.len() && f[i].name@ == n;
            assert(w < f.len() - 1);
            assert(f0[w].name@ == n);
        }
        lemma_added_fresh(t, f0, n);
        let w = choose|i: int|
            0 <= i < rest.len() && (#[trigger] rest[i]).name@ == n && rest[i].new_position
                is None && rest[i].location is None;
        if name_in(t, f.last().name@) {
            assert(a == rest);
        } else {
            assert(a == rest.push(cleared(f.last())));
            assert(a[w] == rest[w]);
        }
    }
}

/// The unique fresh screen with a given name is its own first match.
proof fn lemma_first_named_self(f: Seq<Screen>, j: int)
    requires
        distinct_names(f),
        0 <= j < f.len(),
    ensures
        first_named(f, f[j].name@) == f[j],
    decreases f.len(),
{
    if j == 0 {
    } else {
        assert(f[0].name@ != f[j].name@);
        assert(distinct_names(f.drop_first())) by {
            assert(forall|x: int, y: int|
                0 <= x < y < f.drop_first().len() ==> f.drop_first()[x] == f[x + 1]
                    && f.drop_first()[y] == f[y + 1]);
        }
        lemma_first_named_self(f.drop_first(), j - 1);
        assert(f.drop_first()[j - 1] == f[j]);
    }
}

/// Every kept screen is a tracked screen merged with its fresh counterpart.
proof fn lemma_kept_elts(t: Seq<Screen>, f: Seq<Screen>)
    ensures
        forall|i: int|
            0 <= i < kept_screens(t, f).len() ==> exists|j: int|
                0 <= j < t.len() && name_in(f, t[j].name@) && #[trigger] kept_screens(t, f)[i]
                    == merged(t[j], first_named(f, t[j].name@)),
    decreases t.len(),
{
    if t.len() > 0 {
        let t0 = t.drop_last();
        lemma_kept_elts(t0, f);
        let rest = kept_screens(t0, f);
        let k = kept_screens(t, f);
        assert forall|i: int| 0 <= i < k.len() implies exists|j: int|
            0 <= j < t.len() && name_in(f, t[j].name@) && #[trigger] k[i] == merged(
                t[j],
                first_named(f, t[j].name@),
            ) by {
            if i < rest.len() {
                assert(k[i] == rest[i]);
                let j = choose|j: int|
                    0 <= j < t0.len() && name_in(f, t0[j].name@) && #[trigger] rest[i] == merged(
                        t0[j],
                        first_named(f, t0[j].name@),
                    );
                assert(t[j] == t0[j]);
                assert(k[i] == merged(t[j], first_named(f, t[j].name@)));
            } else {
                assert(name_in(f, t.last().name@));
                assert(k == rest.push(merged(t.last(), first_named(f, t.last().name@))));
                assert(t[t.len() - 1] == t.last());
                assert(k[i] == merged(
                    t[t.len() - 1],
                    first_named(f, t[t.len() - 1].name@),
                ));
            }
        }
    }
}

/// Every added screen is a cleared fresh screen that was not tracked.
proof fn lemma_added_elts(t: Seq<Screen>, f: Seq<Screen>)
    ensures
        forall|i: int|
            0 <= i < added_screens(t, f).len() ==> exists|j: int|
                0 <= j < f.len() && !name_in(t, f[j].name@) && #[trigger] added_screens(t, f)[i]
                    == cleared(f[j]),
    decreases f.len(),
{
    if f.len() > 0 {
        let f0 = f.drop_last();
        lemma_added_elts(t, f0);
        let rest = added_screens(t, f0);
        let a = added_screens(t, f);
        assert forall|i: int| 0 <= i < a.len() implies exists|j: int|
            0 <= j < f.len() && !name_in(t, f[j].name@) && #[trigger] a[i] == cleared(f[j]) by {
            if i < rest.len() {
                assert(a[i] == rest[i]);
                let j = choose|j: int|
                    0 <= j < f0.len() && !name_in(t, f0[j].name@) && #[trigger] rest[i] == cleared(
                        f0[j],
                    );
                assert(f[j] == f0[j]);
                assert(a[i] == cleared(f[j]));
            } else {
                assert(!name_in(t, f.last().name@));
                assert(a == rest.push(cleared(f.last())));
                assert(f[f.len() - 1] == f.last());
                assert(a[i] == cleared(f[f.len() - 1]));
            }
        }
    }
}

/// A list of screens that a further reconciliation would keep and merge
/// without change is kept whole.
proof fn lemma_kept_fixed(s: Seq<Screen>, f: Seq<Screen>)
    requires
        forall|i: int|
            0 <= i < s.len() ==> name_in(f, (#[trigger] s[i]).name@) && merged(
                s[i],
                first_named(f, s[i].name@),
            ) == s[i],
    ensures
        kept_screens(s, f) == s,
    decreases s.len(),
{
    if s.len() == 0 {
        assert(kept_screens(s, f) =~= s);
    } else {
        let s0 = s.drop_last();
        lemma_kept_fixed(s0, f);
        assert(s[s.len() - 1] == s.last());
        assert(name_in(f, s.last().name@));
        assert(merged(s.last(), first_named(f, s.last().name@)) == s.last());
        assert(kept_screens(s, f) == kept_screens(s0, f).push(s.last()));
        assert(s0.push(s.last()) =~= s);
    }
}

/// Nothing is added from a fresh list whose names are all already present.
proof fn lemma_added_none(s: Seq<Screen>, f: Seq<Screen>)
    requires
        forall|j: int| 0 <= j < f.len() ==> name_in(s, (#[trigger] f[j]).name@),
    ensures
        added_screens(s, f) == Seq::<Screen>::empty(),
    decreases f.len(),
{
    if f.len() == 0 {
        assert(added_screens(s, f) =~= Seq::<Screen>::empty());
    } else {
        let f0 = f.drop_last();
        lemma_added_none(s, f0);
        assert(f[f.len() - 1] == f.last());
        assert(name_in(s, f.last().name@));
    }
}

/// Reconciliation is idempotent: reconciling a reconciled topology against
/// the same fresh query changes nothing.
pub proof fn lemma_reconcile_idempotent(t: Seq<Screen>, f: Seq<Screen>)
    requires
        distinct_names(f),
    ensures
        reconciled(reconciled(t, f), f) == reconciled(t, f),
{
    let r = reconciled(t, f);
    let k = kept_screens(t, f);
    let a = added_screens(t, f);
    lemma_kept_elts(t, f);
    lemma_added_elts(t, f);
    assert forall|i: int| 0 <= i < r.len() implies name_in(f, (#[trigger] r[i]).name@) && merged(
        r[i],
        first_named(f, r[i].name@),
    ) == r[i] by {
        if i < k.len() {
            assert(r[i] == k[i]);
            let j = choose|j: int|
                0 <= j < t.len() && name_in(f, t[j].name@) && #[trigger] k[i] == merged(
                    t[j],
                    first_named(f, t[j].name@),
                );
            assert(r[i].name@ == t[j].name@);
        } else {
            assert(r[i] == a[i - k.len()]);
            let j = choose|j: int|
                0 <= j < f.len() && !name_in(t, f[j].name@) && #[trigger] a[i - k.len()]
                    == cleared(f[j]);
            assert(r[i].name@ == f[j].name@);
            assert(name_in(f, r[i].name@)) by {
                assert(f[j].name@ == r[i].name@);
            }
            lemma_first_named_self(f, j);
        }
    }
    lemma_kept_fixed(r, f);
    assert forall|j: int| 0 <= j < f.len() implies name_in(r, (#[trigger] f[j]).name@) by {
        lemma_reconciled_names(t, f, f[j].name@);
    }
    lemma_added_none(r, f);
    assert(reconciled(r, f) =~= r);
}

} // verus!
