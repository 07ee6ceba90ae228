//! The escape-time iteration.
//!
//! The iteration is written over any state `Z`: the caller supplies the update
//! of the orbit and the test that tells when a state has left the bounded
//! region. For the Mandelbrot set the state is a complex number, the update is
//! `z * z + c` and the test is `|z|^2 > 4`.

use vstd::prelude::*;
use crate::outcome::EscapeOutcome;

verus! {

/// `orbit` starts at `origin`, and each later state is one that `advance` can
/// return for the state before it.
pub open spec fn follows<Z, A>(orbit: Seq<Z>, origin: Z, advance: A) -> bool where A: Fn(Z) -> Z {
    &&& orbit.len() > 0
    &&& orbit[0] == origin
    &&& forall|k: int|
        1 <= k < orbit.len() ==> advance.ensures((orbit[k - 1],), #[trigger] orbit[k])
}

/// `z` is a state that the orbit from `origin` can come to.
pub open spec fn reachable<Z, A>(z: Z, origin: Z, advance: A) -> bool where A: Fn(Z) -> Z {
    exists|orbit: Seq<Z>| #[trigger] follows(orbit, origin, advance) && orbit.last() == z
}

/// The update may be applied to every state that the orbit from `origin` can
/// come to, and the test to every state that such an update can give.
pub open spec fn can_iterate<Z, A, E>(origin: Z, advance: A, escaped: E) -> bool where
    A: Fn(Z) -> Z,
    E: Fn(&Z) -> bool,
{
    &&& forall|z: Z| #[trigger] reachable(z, origin, advance) ==> advance.requires((z,))
    &&& forall|z: Z, next: Z|
        reachable(z, origin, advance) && #[trigger] advance.ensures((z,), next)
            ==> escaped.requires((&next,))
}

/// `orbit` is a run of the iteration that ends with `count`: it holds the
/// origin and the state after each update made; none of the first `count`
/// updates left the region; and either the budget is spent, or the next
/// update, the last one made, left the region.
pub open spec fn escape_run<Z, A, E>(
    orbit: Seq<Z>,
    origin: Z,
    advance: A,
    escaped: E,
    budget: u32,
    count: u32,
) -> bool where A: Fn(Z) -> Z, E: Fn(&Z) -> bool {
    &&& count <= budget
    &&& follows(orbit, origin, advance)
    &&& orbit.len() == if count < budget {
        count + 2
    } else {
        budget + 1
    }
    &&& forall|k: int| 1 <= k <= count ==> escaped.ensures((&#[trigger] orbit[k],), false)
    &&& count < budget ==> escaped.ensures((&orbit[count + 1],), true)
}

/// Iterates `advance` from `origin`, at most `budget` times, and tests each
/// new state with `escaped`. Reports the index of the first update whose
/// state has escaped, or that the orbit stayed bounded when none of the
/// `budget` updates gave such a state. With a budget of zero no update is
/// made and the orbit counts as bounded.
pub fn escape_time<Z, A, E>(origin: Z, budget: u32, advance: &A, escaped: &E) -> (outcome:
    EscapeOutcome) where A: Fn(Z) -> Z, E: Fn(&Z) -> bool
    requires
        can_iterate(origin, *advance, *escaped),
    ensures
        outcome.budget == budget,
        outcome.wf(),
        budget == 0 ==> outcome.bounded(),
        exists|orbit: Seq<Z>|
            escape_run(orbit, origin, *advance, *escaped, budget, outcome.count),
{
    let ghost mut orbit: Seq<Z> = seq![origin];
    let mut z: Z = origin;
    let mut index: u32 = 0;
    while index < budget
        invariant
            index <= budget,
            can_iterate(origin, *advance, *escaped),
            follows(orbit, origin, *advance),
            orbit.len() == index + 1,
            orbit.last() == z,
            forall|k: int| 1 <= k <= index ==> escaped.ensures((&#[trigger] orbit[k],), false),
        decreases budget - index,
    {
        assert(reachable(z, origin, *advance));
        z = advance(z);
        proof {
            orbit = orbit.push(z);
        }
        if escaped(&z) {
            assert(escape_run(orbit, origin, *advance, *escaped, budget, index));
            return EscapeOutcome::escaped_at(index, budget);
        }
        index = index + 1;
    }
    assert(escape_run(orbit, origin, *advance, *escaped, budget, budget));
    EscapeOutcome::stayed(budget)
}

/// `advance` has one next state for each state, and `escaped` one answer.
pub open spec fn single_valued<Z, A, E>(advance: A, escaped: E) -> bool where
    A: Fn(Z) -> Z,
    E: Fn(&Z) -> bool,
{
    &&& forall|z: Z, first: Z, second: Z|
        #[trigger] advance.ensures((z,), first) && #[trigger] advance.ensures((z,), second)
            ==> first == second
    &&& forall|z: Z, first: bool, second: bool|
        #[trigger] escaped.ensures((&z,), first) && #[trigger] escaped.ensures((&z,), second)
            ==> first == second
}

/// Two orbits from one origin under a single-valued update hold the same
/// state wherever both have one.
proof fn lemma_orbits_coincide<Z, A>(first: Seq<Z>, second: Seq<Z>, origin: Z, advance: A, k: int) where
    A: Fn(Z) -> Z,

    requires
        follows(first, origin, advance),
        follows(second, origin, advance),
        forall|z: Z, a: Z, b: Z|
            #[trigger] advance.ensures((z,), a) && #[trigger] advance.ensures((z,), b) ==> a == b,
        0 <= k < first.len(),
        k < second.len(),
    ensures
        first[k] == second[k],
    decreases k,
{
    if k > 0 {
        lemma_orbits_coincide(first, second, origin, advance, k - 1);
        assert(advance.ensures((first[k - 1],), first[k]));
        assert(advance.ensures((second[k - 1],), second[k]));
    }
}

/// The iteration is deterministic: where the update and the test are
/// single-valued, any two runs from one origin under one budget end with the
/// same count and pass through the same states.
pub proof fn lemma_outcome_unique<Z, A, E>(
    first: Seq<Z>,
    second: Seq<Z>,
    origin: Z,
    advance: A,
    escaped: E,
    budget: u32,
    first_count: u32,
    second_count: u32,
) where A: Fn(Z) -> Z, E: Fn(&Z) -> bool
    requires
        single_valued(advance, escaped),
        escape_run(first, origin, advance, escaped, budget, first_count),
        escape_run(second, origin, advance, escaped, budget, second_count),
    ensures
        first_count == second_count,
        first == second,
{
    if first_count < second_count {
        let k = first_count + 1;
        lemma_orbits_coincide(first, second, origin, advance, k);
        assert(escaped.ensures((&first[k],), true));
        assert(escaped.ensures((&second[k],), false));
    } else if second_count < first_count {
        let k = second_count + 1;
        lemma_orbits_coincide(first, second, origin, advance, k);
        assert(escaped.ensures((&second[k],), true));
        assert(escaped.ensures((&first[k],), false));
    } else {
        assert forall|k: int| 0 <= k < first.len() implies first[k] == second[k] by {
            lemma_orbits_coincide(first, second, origin, advance, k);
        }
        assert(first =~= second);
    }
}

/// An orbit whose first update can only test as escaped is reported at index
/// zero under every positive budget.
pub proof fn lemma_immediate_escape<Z, A, E>(
    orbit: Seq<Z>,
    origin: Z,
    advance: A,
    escaped: E,
    budget: u32,
    count: u32,
) where A: Fn(Z) -> Z, E: Fn(&Z) -> bool
    requires
        budget > 0,
        escape_run(orbit, origin, advance, escaped, budget, count),
        forall|next: Z|
            #[trigger] advance.ensures((origin,), next) ==> !escaped.ensures((&next,), false),
    ensures
        count == 0,
{
    assert(advance.ensures((orbit[0],), orbit[1]));
    if count > 0 {
        assert(escaped.ensures((&orbit[1],), false));
    }
}

/// Every state of an orbit that starts inside a region which the update
/// never leaves lies inside that region.
proof fn lemma_orbit_stays<Z, A>(orbit: Seq<Z>, origin: Z, advance: A, region: spec_fn(Z) -> bool, k: int) where
    A: Fn(Z) -> Z,

    requires
        follows(orbit, origin, advance),
        region(origin),
        forall|z: Z, next: Z| region(z) && #[trigger] advance.ensures((z,), next) ==> region(next),
        0 <= k < orbit.len(),
    ensures
        region(orbit[k]),
    decreases k,
{
    if k > 0 {
        lemma_orbit_stays(orbit, origin, advance, region, k - 1);
        assert(advance.ensures((orbit[k - 1],), orbit[k]));
    }
}

/// An orbit that is trapped stays bounded under every budget: if the origin
/// lies in a region that the update never leaves and in which no state tests
/// as escaped, then every run ends with the whole budget spent.
pub proof fn lemma_trapped_orbit_stays_bounded<Z, A, E>(
    orbit: Seq<Z>,
    origin: Z,
    advance: A,
    escaped: E,
    budget: u32,
    count: u32,
    region: spec_fn(Z) -> bool,
) where A: Fn(Z) -> Z, E: Fn(&Z) -> bool
    requires
        escape_run(orbit, origin, advance, escaped, budget, count),
        region(origin),
        forall|z: Z, next: Z| region(z) && #[trigger] advance.ensures((z,), next) ==> region(next),
        forall|z: Z| region(z) ==> !#[trigger] escaped.ensures((&z,), true),
    ensures
        count == budget,
{
    if count < budget {
        lemma_orbit_stays(orbit, origin, advance, region, count + 1);
        assert(escaped.ensures((&orbit[count + 1],), true));
    }
}

} // verus!
