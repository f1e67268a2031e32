//! Stepping a system until a fixed number of steps or until its exact state
//! repeats.
use vstd::prelude::*;
use crate::body::BodyState;
use crate::model::{
    as_ints, canonical, lemma_energy_upto_nonnegative, run_steps, step_fits, system_energy,
};
use crate::system::System;

verus! {

/// How a run ended.
#[derive(Clone, Copy, Debug, PartialEq, Eq, Structural)]
pub enum Outcome {
    /// The step limit was reached; the total energy at that point.
    EnergyAtCap(u64),
    /// The state after this many steps equals the state after an earlier step.
    CycleFound(u64),
    /// After this many steps the next step, or the energy at the limit,
    /// does not fit in 64 bits.
    Overflow(u64),
}

/// The state after `c` steps from `s` equals the state after some earlier
/// step `t >= 1`.
pub open spec fn repeats_at(s: Seq<BodyState>, c: int) -> bool {
    exists|t: int| 1 <= t < c && #[trigger] canonical(run_steps(s, t as nat)) == canonical(run_steps(s, c as nat))
}

/// No state after steps `1..=c` repeats an earlier one.
pub open spec fn no_repeat_through(s: Seq<BodyState>, c: int) -> bool {
    forall|q: int| 1 <= q <= c ==> !#[trigger] repeats_at(s, q)
}

/// Every state before step `c` can be stepped within `i64`.
pub open spec fn fits_before(s: Seq<BodyState>, c: int) -> bool {
    forall|q: int| 0 <= q < c ==> #[trigger] step_fits(run_steps(s, q as nat))
}

/// The outcome of stepping `s` at most `cap` times, recording the state
/// after each step and stopping at the first repeated one.
pub open spec fn outcome_spec(s: Seq<BodyState>, cap: int, r: Outcome) -> bool {
    match r {
        Outcome::EnergyAtCap(e) => {
            &&& fits_before(s, cap)
            &&& no_repeat_through(s, cap - 1)
            &&& e as int == system_energy(run_steps(s, cap as nat))
        },
        Outcome::CycleFound(c) => {
            &&& 1 <= c < cap
            &&& fits_before(s, c as int)
            &&& no_repeat_through(s, c - 1)
            &&& repeats_at(s, c as int)
        },
        Outcome::Overflow(c) => {
            &&& c <= cap
            &&& fits_before(s, c as int)
            &&& if c < cap {
                &&& no_repeat_through(s, c as int)
                &&& !step_fits(run_steps(s, c as nat))
            } else {
                &&& no_repeat_through(s, cap - 1)
                &&& system_energy(run_steps(s, cap as nat)) > u64::MAX
            }
        },
    }
}

/// Whether two states hold the same numbers.
fn same_state(a: &Vec<i64>, b: &Vec<i64>) -> (r: bool)
    ensures
        r == (a@ == b@),
{
    if a.len() != b.len() {
        return false;
    }
    let mut i: usize = 0;
    while i < a.len()
        invariant
            a.len() == b.len(),
            i <= a.len(),
            forall|q: int| 0 <= q < i ==> a@[q] == b@[q],
        decreases a.len() - i,
    {
        if a[i] != b[i] {
            return false;
        }
        i = i + 1;
    }
    assert(a@ =~= b@);
    true
}

/// Whether `st` is among `seen`.
fn seen_before(seen: &Vec<Vec<i64>>, st: &Vec<i64>) -> (r: bool)
    ensures
        r == (exists|t: int| 0 <= t < seen.len() && (#[trigger] seen@[t])@ == st@),
{
    let mut i: usize = 0;
    while i < seen.len()
        invariant
            i <= seen.len(),
            forall|q: int| 0 <= q < i ==> (#[trigger] seen@[q])@ != st@,
        decreases seen.len() - i,
    {
        if same_state(&seen[i], st) {
            return true;
        }
        i = i + 1;
    }
    false
}

/// Machine states are equal exactly when their integer readings are.
proof fn lemma_as_ints_injective(a: Seq<i64>, b: Seq<i64>)
    ensures
        (a == b) == (as_ints(a) == as_ints(b)),
{
    if as_ints(a) == as_ints(b) {
        assert(a.len() == as_ints(a).len());
        assert forall|q: int| 0 <= q < a.len() implies a[q] == b[q] by {
            assert(as_ints(a)[q] == as_ints(b)[q]);
        }
        assert(a =~= b);
    }
}

/// Steps `system` until `cap` steps are done or the exact state repeats.
///
/// After each step the step count goes up by one. At the count `cap` the
/// total energy is reported. Before that, the state is compared with every
/// state recorded after an earlier step; a match reports the count, and
/// otherwise the state is recorded.
pub fn find_repeat(start: System, cap: u64) -> (r: Outcome)
    requires
        cap >= 1,
    ensures
        outcome_spec(start@, cap as int, r),
{
    let ghost s0 = start@;
    let mut system = start;
    let mut seen: Vec<Vec<i64>> = Vec::new();
    let mut count: u64 = 0;
    loop
        invariant
            count < cap,
            system@ == run_steps(s0, count as nat),
            seen.len() == count,
            forall|t: int|
                0 <= t < count ==> as_ints((#[trigger] seen@[t])@) == canonical(
                    run_steps(s0, (t + 1) as nat),
                ),
            fits_before(s0, count as int),
            no_repeat_through(s0, count as int),
            s0 == start@,
        decreases cap - count,
    {
        if !system.can_step() {
            return Outcome::Overflow(count);
        }
        system.step();
        count = count + 1;
        if count == cap {
            proof {
                lemma_energy_upto_nonnegative(system@, system@.len() as int);
            }
            return match system.checked_total_energy() {
                Some(e) => Outcome::EnergyAtCap(e),
                None => Outcome::Overflow(count),
            };
        }
        let st = system.state();
        if seen_before(&seen, &st) {
            proof {
                let t = choose|t: int| 0 <= t < seen.len() && (#[trigger] seen@[t])@ == st@;
                assert(canonical(run_steps(s0, (t + 1) as nat)) == canonical(run_steps(s0, count as nat)));
                assert(repeats_at(s0, count as int));
            }
            return Outcome::CycleFound(count);
        }
        proof {
            assert forall|t: int| 1 <= t < count implies #[trigger] canonical(run_steps(s0, t as nat))
                != canonical(run_steps(s0, count as nat)) by {
                assert(seen@[t - 1]@ != st@);
                lemma_as_ints_injective(seen@[t - 1]@, st@);
            }
            assert(!repeats_at(s0, count as int));
        }
        seen.push(st);
    }
}

} // verus!
