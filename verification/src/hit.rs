//! Hit resolution: which entities the attacks of one step destroy.

use vstd::prelude::*;
use crate::ownership::{top_owner, Owners};

verus! {

/// The sequence without its repetitions: each value stands once, where it
/// stood first.
pub open spec fn once_each(s: Seq<u64>) -> Seq<u64>
    decreases s.len(),
{
    if s.len() == 0 {
        Seq::empty()
    } else {
        let before = once_each(s.drop_last());
        if before.contains(s.last()) {
            before
        } else {
            before.push(s.last())
        }
    }
}

/// The lists of touched entities, one list per attack volume, as sequences.
pub open spec fn lists(overlaps: Seq<Vec<u64>>) -> Seq<Seq<u64>> {
    overlaps.map_values(|list: Vec<u64>| list@)
}

/// The owner that each touched entity stands for, in the order of `touched`.
pub open spec fn hit_owners(owners: Map<u64, u64>, touched: Seq<u64>) -> Seq<u64> {
    touched.map_values(|e: u64| top_owner(owners, e))
}

/// The entities to destroy: the owner behind every touched entity, attack
/// volume by attack volume, each owner once.
pub open spec fn targets(owners: Map<u64, u64>, overlaps: Seq<Seq<u64>>) -> Seq<u64> {
    once_each(hit_owners(owners, overlaps.flatten()))
}

/// Whether `list` holds `e`.
pub fn holds(list: &Vec<u64>, e: u64) -> (found: bool)
    ensures
        found == list@.contains(e),
{
    let mut i: usize = 0;
    while i < list.len()
        invariant
            i <= list.len(),
            forall|k: int| 0 <= k < i ==> list@[k] != e,
        decreases list.len() - i,
    {
        if list[i] == e {
            return true;
        }
        i = i + 1;
    }
    false
}

/// One step of hit resolution. `overlaps` holds, for each active attack
/// volume, the entities that it overlaps at this step; `owners` is the direct
/// owner of every vulnerability volume. The result lists the entities to
/// destroy, each with all that it owns: for every touched entity the first
/// entity at or above it that is no vulnerability volume. An owner that is hit
/// more than once is listed once.
pub fn hitbox_system(overlaps: &Vec<Vec<u64>>, owners: &Owners) -> (doomed: Vec<u64>)
    ensures
        doomed@ == targets(owners@, lists(overlaps@)),
        doomed@.no_duplicates(),
        forall|e: u64|
            doomed@.contains(e) <==> exists|i: int, j: int|
                0 <= i < overlaps@.len() && 0 <= j < overlaps@[i]@.len() && e == top_owner(
                    owners@,
                    #[trigger] overlaps@[i]@[j],
                ),
{
    let mut doomed: Vec<u64> = Vec::new();
    let mut i: usize = 0;
    proof {
        assert(lists(overlaps@.take(0)) =~= Seq::<Seq<u64>>::empty());
        assert(hit_owners(owners@, lists(overlaps@.take(0)).flatten()) =~= Seq::<u64>::empty());
    }
    while i < overlaps.len()
        invariant
            i <= overlaps.len(),
            doomed@ == targets(owners@, lists(overlaps@.take(i as int))),
        decreases overlaps.len() - i,
    {
        let list = &overlaps[i];
        let ghost done = lists(overlaps@.take(i as int)).flatten();
        let mut j: usize = 0;
        proof {
            assert(done + list@.take(0) =~= done);
        }
        while j < list.len()
            invariant
                j <= list.len(),
                doomed@ == once_each(hit_owners(owners@, done + list@.take(j as int))),
            decreases list.len() - j,
        {
            let top = owners.resolve_owner(list[j]);
            proof {
                let before = done + list@.take(j as int);
                let now = done + list@.take(j + 1);
                assert(now =~= before.push(list@[j as int]));
                assert(hit_owners(owners@, now) =~= hit_owners(owners@, before).push(top));
                assert(hit_owners(owners@, now).drop_last() =~= hit_owners(owners@, before));
            }
            if !holds(&doomed, top) {
                doomed.push(top);
            }
            j = j + 1;
        }
        proof {
            assert(list@.take(j as int) =~= list@);
            assert(lists(overlaps@.take(i + 1)) =~= lists(overlaps@.take(i as int)).push(list@));
            lists(overlaps@.take(i as int)).lemma_flatten_push(list@);
        }
        i = i + 1;
    }
    proof {
        assert(overlaps@.take(i as int) =~= overlaps@);
        lemma_targets_are_the_owners_hit(owners@, lists(overlaps@));
        assert forall|e: u64|
            doomed@.contains(e) <==> exists|i: int, j: int|
                0 <= i < overlaps@.len() && 0 <= j < overlaps@[i]@.len() && e == top_owner(
                    owners@,
                    #[trigger] overlaps@[i]@[j],
                ) by {
            if doomed@.contains(e) {
                let (a, b) = choose|a: int, b: int|
                    0 <= a < lists(overlaps@).len() && 0 <= b < lists(overlaps@)[a].len() && e
                        == top_owner(owners@, #[trigger] lists(overlaps@)[a][b]);
                assert(e == top_owner(owners@, overlaps@[a]@[b]));
            }
            if exists|i: int, j: int|
                0 <= i < overlaps@.len() && 0 <= j < overlaps@[i]@.len() && e == top_owner(
                    owners@,
                    #[trigger] overlaps@[i]@[j],
                ) {
                let (a, b) = choose|a: int, b: int|
                    0 <= a < overlaps@.len() && 0 <= b < overlaps@[a]@.len() && e == top_owner(
                        owners@,
                        #[trigger] overlaps@[a]@[b],
                    );
                assert(e == top_owner(owners@, lists(overlaps@)[a][b]));
            }
        }
    }
    doomed
}

/// A sequence without its repetitions holds each value at most once, and holds
/// exactly the values of the sequence.
pub proof fn lemma_once_each(s: Seq<u64>)
    ensures
        once_each(s).no_duplicates(),
        forall|e: u64| once_each(s).contains(e) <==> s.contains(e),
    decreases s.len(),
{
    if s.len() > 0 {
        let front = s.drop_last();
        let before = once_each(front);
        let grown = before.push(s.last());
        lemma_once_each(front);
        assert(grown[before.len() as int] == s.last());
        assert forall|e: u64| once_each(s).contains(e) <==> s.contains(e) by {
            if s.contains(e) {
                let k = choose|k: int| 0 <= k < s.len() && s[k] == e;
                if k < s.len() - 1 {
                    assert(front[k] == e);
                    assert(front.contains(e));
                }
            }
            if front.contains(e) {
                let k = choose|k: int| 0 <= k < front.len() && front[k] == e;
                assert(s[k] == e);
            }
            if before.contains(e) {
                let k = choose|k: int| 0 <= k < before.len() && before[k] == e;
                assert(grown[k] == e);
            }
            if grown.contains(e) {
                let k = choose|k: int| 0 <= k < grown.len() && grown[k] == e;
                if k < before.len() {
                    assert(before[k] == e);
                }
            }
        }
        if !before.contains(s.last()) {
            assert forall|i: int, j: int| 0 <= i < grown.len() && 0 <= j < grown.len() && i != j implies grown[i]
                != grown[j] by {
                if i < before.len() {
                    assert(before[i] == grown[i]);
                }
                if j < before.len() {
                    assert(before[j] == grown[j]);
                }
            }
        }
    }
}

/// A value stands in the concatenation of some lists exactly when it stands in
/// one of them.
pub proof fn lemma_flatten_holds(ss: Seq<Seq<u64>>)
    ensures
        forall|e: u64|
            ss.flatten().contains(e) <==> exists|i: int, j: int|
                0 <= i < ss.len() && 0 <= j < ss[i].len() && #[trigger] ss[i][j] == e,
    decreases ss.len(),
{
    if ss.len() > 0 {
        let rest = ss.drop_first();
        lemma_flatten_holds(rest);
        assert forall|e: u64|
            ss.flatten().contains(e) <==> exists|i: int, j: int|
                0 <= i < ss.len() && 0 <= j < ss[i].len() && #[trigger] ss[i][j] == e by {
            if ss.flatten().contains(e) {
                let k = choose|k: int| 0 <= k < ss.flatten().len() && ss.flatten()[k] == e;
                if k < ss.first().len() {
                    assert(ss[0][k] == e);
                } else {
                    assert(rest.flatten()[k - ss.first().len()] == e);
                    assert(rest.flatten().contains(e));
                    let (i, j) = choose|i: int, j: int|
                        0 <= i < rest.len() && 0 <= j < rest[i].len() && #[trigger] rest[i][j] == e;
                    assert(ss[i + 1][j] == e);
                }
            }
            if exists|i: int, j: int|
                0 <= i < ss.len() && 0 <= j < ss[i].len() && #[trigger] ss[i][j] == e {
                let (i, j) = choose|i: int, j: int|
                    0 <= i < ss.len() && 0 <= j < ss[i].len() && #[trigger] ss[i][j] == e;
                if i == 0 {
                    assert(ss.flatten()[j] == e);
                } else {
                    assert(rest[i - 1][j] == e);
                    assert(rest.flatten().contains(e));
                    let k = choose|k: int| 0 <= k < rest.flatten().len() && rest.flatten()[k] == e;
                    assert(ss.flatten()[ss.first().len() + k] == e);
                }
            }
        }
    }
}

/// The entities to destroy are exactly the owners behind the touched entities,
/// and none is listed twice.
pub proof fn lemma_targets_are_the_owners_hit(owners: Map<u64, u64>, overlaps: Seq<Seq<u64>>)
    ensures
        targets(owners, overlaps).no_duplicates(),
        forall|e: u64|
            targets(owners, overlaps).contains(e) <==> exists|i: int, j: int|
                0 <= i < overlaps.len() && 0 <= j < overlaps[i].len() && e == top_owner(
                    owners,
                    #[trigger] overlaps[i][j],
                ),
{
    let touched = overlaps.flatten();
    let hit = hit_owners(owners, touched);
    lemma_once_each(hit);
    lemma_flatten_holds(overlaps);
    assert forall|e: u64|
        targets(owners, overlaps).contains(e) <==> exists|i: int, j: int|
            0 <= i < overlaps.len() && 0 <= j < overlaps[i].len() && e == top_owner(
                owners,
                #[trigger] overlaps[i][j],
            ) by {
        if hit.contains(e) {
            let k = choose|k: int| 0 <= k < hit.len() && hit[k] == e;
            assert(touched.contains(touched[k]));
            let (i, j) = choose|i: int, j: int|
                0 <= i < overlaps.len() && 0 <= j < overlaps[i].len() && #[trigger] overlaps[i][j]
                    == touched[k];
            assert(e == top_owner(owners, overlaps[i][j]));
        }
        if exists|i: int, j: int|
            0 <= i < overlaps.len() && 0 <= j < overlaps[i].len() && e == top_owner(
                owners,
                #[trigger] overlaps[i][j],
            ) {
            let (i, j) = choose|i: int, j: int|
                0 <= i < overlaps.len() && 0 <= j < overlaps[i].len() && e == top_owner(
                    owners,
                    #[trigger] overlaps[i][j],
                );
            assert(touched.contains(overlaps[i][j]));
            let k = choose|k: int| 0 <= k < touched.len() && touched[k] == overlaps[i][j];
            assert(hit[k] == e);
        }
    }
}

} // verus!
