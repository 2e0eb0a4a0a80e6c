//! Knot vectors as runs of equal knots.

use vstd::prelude::*;
use crate::scalar::{same, same_value, Bits};

verus! {

/// A knot vector as its runs: each value with the number of times it stands
/// in a row. A knot joins the run before it where the two are equal.
pub open spec fn runs(knots: Seq<Bits>) -> Seq<(Bits, i32)>
    decreases knots.len(),
{
    if knots.len() == 0 {
        Seq::empty()
    } else {
        let before = runs(knots.drop_last());
        if before.len() > 0 && same(before.last().0, knots.last()) {
            before.drop_last().push((before.last().0, (before.last().1 + 1) as i32))
        } else {
            before.push((knots.last(), 1))
        }
    }
}

/// Groups a knot vector into distinct values with their multiplicities.
pub fn distinct_knots(knots: &Vec<Bits>) -> (out: Vec<(Bits, i32)>)
    requires
        knots@.len() <= i32::MAX,
    ensures
        out@ == runs(knots@),
{
    let mut out: Vec<(Bits, i32)> = Vec::new();
    let mut i: usize = 0;
    while i < knots.len()
        invariant
            i <= knots@.len() <= i32::MAX,
            out@ == runs(knots@.take(i as int)),
            forall|j: int| 0 <= j < out@.len() ==> 1 <= (#[trigger] out@[j]).1 <= i,
        decreases knots@.len() - i,
    {
        proof {
            assert(knots@.take(i + 1).drop_last() =~= knots@.take(i as int));
        }
        let knot: Bits = knots[i];
        let count: usize = out.len();
        if count > 0 && same_value(out[count - 1].0, knot) {
            let value: Bits = out[count - 1].0;
            let multiplicity: i32 = out[count - 1].1;
            out.set(count - 1, (value, multiplicity + 1));
            proof {
                assert(out@ =~= runs(knots@.take(i + 1)));
            }
        } else {
            out.push((knot, 1));
        }
        i = i + 1;
    }
    proof {
        assert(knots@.take(i as int) =~= knots@);
    }
    out
}

/// Every value of the runs, repeated as often as its multiplicity says.
pub open spec fn expanded(runs: Seq<(Bits, i32)>) -> Seq<Bits>
    decreases runs.len(),
{
    if runs.len() == 0 {
        Seq::empty()
    } else {
        expanded(runs.drop_last()) + Seq::new(runs.last().1 as nat, |i: int| runs.last().0)
    }
}

/// Every multiplicity is at least one and at most the number of knots.
pub proof fn multiplicities_are_positive(knots: Seq<Bits>)
    requires
        knots.len() <= i32::MAX,
    ensures
        forall|i: int|
            0 <= i < runs(knots).len() ==> 1 <= (#[trigger] runs(knots)[i]).1 <= knots.len(),
    decreases knots.len(),
{
    if knots.len() > 0 {
        let before = runs(knots.drop_last());
        multiplicities_are_positive(knots.drop_last());
        assert forall|i: int| 0 <= i < runs(knots).len() implies 1 <= (#[trigger] runs(knots)[i]).1
            <= knots.len() by {
            if i < before.len() {
                assert(1 <= before[i].1 <= knots.len() - 1);
            }
        }
    }
}

/// No two neighbouring runs have the same value.
pub proof fn neighbouring_runs_differ(knots: Seq<Bits>)
    ensures
        forall|i: int|
            0 < i < runs(knots).len() ==> !same(
                runs(knots)[i - 1].0,
                (#[trigger] runs(knots)[i]).0,
            ),
    decreases knots.len(),
{
    if knots.len() > 0 {
        let before = runs(knots.drop_last());
        neighbouring_runs_differ(knots.drop_last());
        assert forall|i: int| 0 < i < runs(knots).len() implies !same(
            runs(knots)[i - 1].0,
            (#[trigger] runs(knots)[i]).0,
        ) by {
            if i < before.len() {
                assert(!same(before[i - 1].0, before[i].0));
            }
        }
    }
}

/// The runs give the knot vector back: repeated by their multiplicities, they
/// are as many values as there were knots, each equal to the knot it stands for
/// (a knot that is not a number equals nothing, and stands for itself).
pub proof fn runs_expand_to_the_knots(knots: Seq<Bits>)
    requires
        knots.len() <= i32::MAX,
    ensures
        expanded(runs(knots)).len() == knots.len(),
        forall|i: int|
            0 <= i < knots.len() ==> (#[trigger] expanded(runs(knots))[i]) == knots[i] || same(
                expanded(runs(knots))[i],
                knots[i],
            ),
    decreases knots.len(),
{
    if knots.len() > 0 {
        let shorter = knots.drop_last();
        let before = runs(shorter);
        let after = runs(knots);
        runs_expand_to_the_knots(shorter);
        multiplicities_are_positive(shorter);
        if before.len() > 0 && same(before.last().0, knots.last()) {
            let value = before.last().0;
            assert(after.drop_last() =~= before.drop_last());
            assert(1 <= before[before.len() - 1].1 <= shorter.len());
            assert(expanded(after) =~= expanded(before).push(value));
        } else {
            assert(after.drop_last() =~= before);
            assert(expanded(after) =~= expanded(before).push(knots.last()));
        }
        assert forall|i: int| 0 <= i < knots.len() implies (#[trigger] expanded(after)[i])
            == knots[i] || same(expanded(after)[i], knots[i]) by {
            if i < shorter.len() {
                assert(expanded(after)[i] == expanded(before)[i]);
                assert(shorter[i] == knots[i]);
            }
        }
    }
}

/// How many knots stand in the runs before one.
pub open spec fn knots_before(runs: Seq<(Bits, i32)>, i: int) -> int
    decreases i,
{
    if i <= 0 {
        0
    } else {
        knots_before(runs, i - 1) + runs[i - 1].1
    }
}

/// Runs that begin alike count alike.
proof fn runs_count_alike(one: Seq<(Bits, i32)>, other: Seq<(Bits, i32)>, i: int)
    requires
        forall|j: int| 0 <= j < i ==> one[j] == other[j],
    ensures
        knots_before(one, i) == knots_before(other, i),
    decreases i,
{
    if i > 0 {
        runs_count_alike(one, other, i - 1);
    }
}

/// Whether a run has the value of the first knot in it, and the other knots in it
/// equal that one.
pub open spec fn run_holds(knots: Seq<Bits>, list: Seq<(Bits, i32)>, i: int) -> bool {
    let first = knots_before(list, i);
    &&& 0 <= first < first + list[i].1 <= knots.len()
    &&& list[i].0 == knots[first]
    &&& forall|j: int| first < j < first + list[i].1 ==> same(list[i].0, #[trigger] knots[j])
}

/// A run still holds when a knot follows it.
proof fn a_run_still_holds(
    knots: Seq<Bits>,
    before: Seq<(Bits, i32)>,
    after: Seq<(Bits, i32)>,
    i: int,
)
    requires
        knots.len() > 0,
        0 <= i,
        run_holds(knots.drop_last(), before, i),
        forall|j: int| 0 <= j <= i ==> before[j] == after[j],
    ensures
        run_holds(knots, after, i),
{
    runs_count_alike(before, after, i);
    assert(before[i] == after[i]);
    let first = knots_before(after, i);
    assert(knots.drop_last()[first] == knots[first]);
    assert forall|j: int| first < j < first + after[i].1 implies same(
        after[i].0,
        #[trigger] knots[j],
    ) by {
        assert(knots.drop_last()[j] == knots[j]);
    }
}

/// A run has the value of the first knot in it, and the other knots in it equal
/// that one. Together the runs count every knot.
pub proof fn runs_begin_with_their_value(knots: Seq<Bits>)
    requires
        knots.len() <= i32::MAX,
    ensures
        knots_before(runs(knots), runs(knots).len() as int) == knots.len(),
        forall|i: int| 0 <= i < runs(knots).len() ==> #[trigger] run_holds(knots, runs(knots), i),
    decreases knots.len(),
{
    if knots.len() > 0 {
        let shorter = knots.drop_last();
        let before = runs(shorter);
        let after = runs(knots);
        let last = before.len() - 1;
        runs_begin_with_their_value(shorter);
        if before.len() > 0 && same(before.last().0, knots.last()) {
            multiplicities_are_positive(shorter);
            assert(before[last].1 <= shorter.len());
            assert(after.len() == before.len());
            assert(after[last] == (before[last].0, (before[last].1 + 1) as i32));
            runs_count_alike(before, after, last);
            let first = knots_before(after, last);
            assert(run_holds(shorter, before, last));
            assert(knots_before(before, last + 1) == first + before[last].1);
            assert(knots_before(after, last + 1) == first + after[last].1);
            assert(shorter[first] == knots[first]);
            assert forall|j: int| first < j < first + after[last].1 implies same(
                after[last].0,
                #[trigger] knots[j],
            ) by {
                if j < knots.len() - 1 {
                    assert(shorter[j] == knots[j]);
                }
            }
            assert(run_holds(knots, after, last));
            assert forall|i: int| 0 <= i < after.len() implies #[trigger] run_holds(
                knots,
                after,
                i,
            ) by {
                if i < last {
                    assert(run_holds(shorter, before, i));
                    a_run_still_holds(knots, before, after, i);
                }
            }
        } else {
            assert(after =~= before.push((knots.last(), 1)));
            runs_count_alike(before, after, before.len() as int);
            assert(knots_before(after, before.len() as int) == knots.len() - 1);
            assert(run_holds(knots, after, before.len() as int));
            assert forall|i: int| 0 <= i < after.len() implies #[trigger] run_holds(
                knots,
                after,
                i,
            ) by {
                if i < before.len() {
                    assert(run_holds(shorter, before, i));
                    a_run_still_holds(knots, before, after, i);
                }
            }
        }
    }
}

} // verus!
