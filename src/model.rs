//! The mathematical model of a system of bodies: one step, many steps, the
//! canonical state and the energy.
use vstd::prelude::*;
use crate::vec3::{Point, Vec3, abs, sign};
use crate::body::{BodyState, body_energy};

verus! {

/// Sum over the first `m` bodies `j` of the sign of `pos_j - pos_k` along
/// axis `a`: the velocity change that those bodies cause on body `k`.
pub open spec fn pull(s: Seq<BodyState>, k: int, a: int, m: int) -> int
    decreases m,
{
    if m <= 0 {
        0
    } else {
        pull(s, k, a, m - 1) + sign(s[m - 1].pos.axis(a) - s[k].pos.axis(a))
    }
}

/// The velocity change of body `k` along axis `a` in one step.
pub open spec fn gravity(s: Seq<BodyState>, k: int, a: int) -> int {
    pull(s, k, a, s.len() as int)
}

/// Body `k`'s velocity after the gravity phase of a step.
pub open spec fn pulled_velocity(s: Seq<BodyState>, k: int) -> Point {
    Point {
        x: s[k].vel.x + gravity(s, k, 0),
        y: s[k].vel.y + gravity(s, k, 1),
        z: s[k].vel.z + gravity(s, k, 2),
    }
}

/// Body `k` after one full step: gravity, then motion.
pub open spec fn next_body(s: Seq<BodyState>, k: int) -> BodyState {
    let v = pulled_velocity(s, k);
    BodyState { pos: s[k].pos.plus(v), vel: v }
}

/// The system after one step.
pub open spec fn next_state(s: Seq<BodyState>) -> Seq<BodyState> {
    Seq::new(s.len(), |k: int| next_body(s, k))
}

/// The system after `t` steps.
pub open spec fn run_steps(s: Seq<BodyState>, t: nat) -> Seq<BodyState>
    decreases t,
{
    if t == 0 {
        s
    } else {
        next_state(run_steps(s, (t - 1) as nat))
    }
}

/// Bodies at rest at the given positions, in order.
pub open spec fn initial(positions: Seq<Vec3>) -> Seq<BodyState> {
    Seq::new(positions.len(), |k: int| BodyState { pos: positions[k]@, vel: Point::zero() })
}

/// The six numbers that a body contributes to the canonical state.
pub open spec fn body_fields(b: BodyState) -> Seq<int> {
    seq![b.pos.x, b.pos.y, b.pos.z, b.vel.x, b.vel.y, b.vel.z]
}

/// The canonical state: each body's position and velocity, in order.
pub open spec fn canonical(s: Seq<BodyState>) -> Seq<int>
    decreases s.len(),
{
    if s.len() == 0 {
        Seq::empty()
    } else {
        canonical(s.drop_last()) + body_fields(s.last())
    }
}

/// The total energy of the first `m` bodies.
pub open spec fn energy_upto(s: Seq<BodyState>, m: int) -> int
    decreases m,
{
    if m <= 0 {
        0
    } else {
        energy_upto(s, m - 1) + body_energy(s[m - 1])
    }
}

/// The total energy of the system.
pub open spec fn system_energy(s: Seq<BodyState>) -> int {
    energy_upto(s, s.len() as int)
}

/// The sum of the velocity components along axis `a` of the first `m` bodies.
pub open spec fn momentum_upto(s: Seq<BodyState>, a: int, m: int) -> int
    decreases m,
{
    if m <= 0 {
        0
    } else {
        momentum_upto(s, a, m - 1) + s[m - 1].vel.axis(a)
    }
}

/// The sum of the velocity components along axis `a` over all bodies.
pub open spec fn momentum(s: Seq<BodyState>, a: int) -> int {
    momentum_upto(s, a, s.len() as int)
}

/// Room for one step on axis `a` of body `b` in a system of `n` bodies:
/// the velocity can change by up to `n` and the position by the new velocity.
pub open spec fn axis_has_room(b: BodyState, a: int, n: int) -> bool {
    &&& abs(b.vel.axis(a)) + n <= i64::MAX
    &&& abs(b.pos.axis(a)) + abs(b.vel.axis(a)) + n <= i64::MAX
}

/// Every value met while stepping `s` fits in an `i64`.
pub open spec fn step_fits(s: Seq<BodyState>) -> bool {
    forall|k: int, a: int|
        0 <= k < s.len() && 0 <= a < 3 ==> #[trigger] axis_has_room(s[k], a, s.len() as int)
}

/// The pull of `m` bodies is at most `m` in magnitude.
pub proof fn lemma_pull_bounded(s: Seq<BodyState>, k: int, a: int, m: int)
    requires
        m >= 0,
    ensures
        -m <= pull(s, k, a, m) <= m,
    decreases m,
{
    if m > 0 {
        lemma_pull_bounded(s, k, a, m - 1);
    }
}

/// A body exerts no pull on itself.
pub proof fn lemma_pull_self(s: Seq<BodyState>, k: int, a: int)
    requires
        k >= 0,
    ensures
        pull(s, k, a, k + 1) == pull(s, k, a, k),
{
}

} // verus!

verus! {

/// A sequence of machine integers read as mathematical integers.
pub open spec fn as_ints(v: Seq<i64>) -> Seq<int> {
    v.map_values(|x: i64| x as int)
}

/// A body's energy is never negative.
pub proof fn lemma_body_energy_nonnegative(b: BodyState)
    ensures
        body_energy(b) >= 0,
{
    let p = crate::body::potential(b);
    let q = crate::body::kinetic(b);
    assert(p >= 0 && q >= 0);
    assert(p * q >= 0) by (nonlinear_arith)
        requires
            p >= 0,
            q >= 0,
    ;
}

/// The energy of a prefix of the bodies never decreases as it grows, and
/// is never negative.
pub proof fn lemma_energy_upto_grows(s: Seq<BodyState>, m1: int, m2: int)
    requires
        0 <= m1 <= m2,
    ensures
        0 <= energy_upto(s, m1) <= energy_upto(s, m2),
    decreases m2,
{
    if m2 > m1 {
        lemma_energy_upto_grows(s, m1, m2 - 1);
        lemma_body_energy_nonnegative(s[m2 - 1]);
    } else {
        lemma_energy_upto_nonnegative(s, m1);
    }
}

/// The energy of any prefix of the bodies is non-negative.
pub proof fn lemma_energy_upto_nonnegative(s: Seq<BodyState>, m: int)
    ensures
        energy_upto(s, m) >= 0,
    decreases m,
{
    if m > 0 {
        lemma_energy_upto_nonnegative(s, m - 1);
        lemma_body_energy_nonnegative(s[m - 1]);
    }
}

} // verus!
