//! A point mass: its position, its velocity, the pairwise gravity rule and
//! its energy.
use vstd::prelude::*;
use crate::vec3::{Point, Position, Vec3, Velocity, abs, sign, sign_of_difference};

verus! {

/// The model of a `Body`: position and velocity as lattice points.
pub struct BodyState {
    pub pos: Point,
    pub vel: Point,
}

/// The per-axis sign of `a.pos - b.pos`: the unit by which `a` is pulled
/// toward `b` (negated) and `b` toward `a`.
pub open spec fn pull_between(a: BodyState, b: BodyState) -> Point {
    Point {
        x: sign(a.pos.x - b.pos.x),
        y: sign(a.pos.y - b.pos.y),
        z: sign(a.pos.z - b.pos.z),
    }
}

/// One pairwise gravity update: `a` and `b` each move one unit of velocity
/// per axis toward the other, using the positions before the update.
pub open spec fn pair_effect(a: BodyState, b: BodyState) -> (BodyState, BodyState) {
    let d = pull_between(a, b);
    (
        BodyState {
            pos: a.pos,
            vel: Point { x: a.vel.x - d.x, y: a.vel.y - d.y, z: a.vel.z - d.z },
        },
        BodyState { pos: b.pos, vel: b.vel.plus(d) },
    )
}

/// Potential energy: the 1-norm of the position.
pub open spec fn potential(b: BodyState) -> int {
    b.pos.norm1()
}

/// Kinetic energy: the 1-norm of the velocity.
pub open spec fn kinetic(b: BodyState) -> int {
    b.vel.norm1()
}

/// Total energy of one body.
pub open spec fn body_energy(b: BodyState) -> int {
    potential(b) * kinetic(b)
}

/// Every velocity component can move by one unit in either direction.
pub open spec fn velocity_has_room(b: BodyState) -> bool {
    &&& i64::MIN < b.vel.x < i64::MAX
    &&& i64::MIN < b.vel.y < i64::MAX
    &&& i64::MIN < b.vel.z < i64::MAX
}

/// A point mass.
#[derive(Clone, Copy, Debug, PartialEq, Eq, Structural)]
pub struct Body {
    pub position: Position,
    pub velocity: Velocity,
}

impl View for Body {
    type V = BodyState;

    open spec fn view(&self) -> BodyState {
        BodyState { pos: self.position@, vel: self.velocity@ }
    }
}

/// The absolute value of `v`, widened so that it cannot overflow.
fn magnitude(v: i64) -> (r: u128)
    ensures
        r as int == abs(v as int),
{
    if v < 0 {
        (-(v as i128)) as u128
    } else {
        v as u128
    }
}

impl Body {
    /// A body at rest at `position`.
    pub fn new(position: Position) -> (r: Body)
        ensures
            r@ == (BodyState { pos: position@, vel: Point::zero() }),
    {
        Body { position, velocity: Vec3::new() }
    }

    /// Applies the gravity of the pair (`self`, `other`) to both velocities.
    pub fn calc_gravity(&mut self, other: &mut Body)
        requires
            velocity_has_room(old(self)@),
            velocity_has_room(old(other)@),
        ensures
            (final(self)@, final(other)@) == pair_effect(old(self)@, old(other)@),
    {
        let dx = sign_of_difference(self.position.x, other.position.x);
        let dy = sign_of_difference(self.position.y, other.position.y);
        let dz = sign_of_difference(self.position.z, other.position.z);

        self.velocity.x = self.velocity.x - dx;
        self.velocity.y = self.velocity.y - dy;
        self.velocity.z = self.velocity.z - dz;

        other.velocity.x = other.velocity.x + dx;
        other.velocity.y = other.velocity.y + dy;
        other.velocity.z = other.velocity.z + dz;
    }

    /// Moves the body by its velocity.
    pub fn update_pos(&mut self)
        requires
            i64::MIN <= old(self).position.x + old(self).velocity.x <= i64::MAX,
            i64::MIN <= old(self).position.y + old(self).velocity.y <= i64::MAX,
            i64::MIN <= old(self).position.z + old(self).velocity.z <= i64::MAX,
        ensures
            final(self)@ == (BodyState { pos: old(self)@.pos.plus(old(self)@.vel), vel: old(self)@.vel }),
    {
        let v = self.velocity;
        self.position.add_assign(v);
    }

    /// Sum of the absolute values of the position components.
    pub fn potential_energy(&self) -> (r: u128)
        ensures
            r as int == potential(self@),
    {
        magnitude(self.position.x) + magnitude(self.position.y) + magnitude(self.position.z)
    }

    /// Sum of the absolute values of the velocity components.
    pub fn kinetic_energy(&self) -> (r: u128)
        ensures
            r as int == kinetic(self@),
    {
        magnitude(self.velocity.x) + magnitude(self.velocity.y) + magnitude(self.velocity.z)
    }

    /// Potential energy times kinetic energy.
    pub fn total_energy(&self) -> (r: u64)
        requires
            body_energy(self@) <= u64::MAX,
        ensures
            r as int == body_energy(self@),
    {
        let p = self.potential_energy();
        let k = self.kinetic_energy();
        (p * k) as u64
    }

    /// The energy of the body, or `None` where it exceeds `u64::MAX`.
    pub fn checked_total_energy(&self) -> (r: Option<u64>)
        ensures
            r == (if body_energy(self@) <= u64::MAX {
                Some(body_energy(self@) as u64)
            } else {
                None::<u64>
            }),
    {
        let p = self.potential_energy();
        let k = self.kinetic_energy();
        if p == 0 {
            assert(body_energy(self@) == 0);
            return Some(0);
        }
        let limit: u128 = (u64::MAX as u128) / p;
        if k > limit {
            proof {
                lemma_product_exceeds(p as int, k as int, u64::MAX as int);
            }
            None
        } else {
            proof {
                lemma_product_within(p as int, k as int, u64::MAX as int);
            }
            Some((p * k) as u64)
        }
    }
}

proof fn lemma_product_exceeds(p: int, k: int, m: int)
    requires
        p > 0,
        m >= 0,
        k > m / p,
    ensures
        p * k > m,
{
    assert(p * k >= p * (m / p + 1)) by (nonlinear_arith)
        requires
            p > 0,
            k >= m / p + 1,
    ;
    assert(p * (m / p + 1) > m) by (nonlinear_arith)
        requires
            p > 0,
            m >= 0,
    ;
}

proof fn lemma_product_within(p: int, k: int, m: int)
    requires
        p > 0,
        m >= 0,
        0 <= k <= m / p,
    ensures
        p * k <= m,
{
    assert(p * k <= p * (m / p)) by (nonlinear_arith)
        requires
            p > 0,
            0 <= k <= m / p,
    ;
    assert(p * (m / p) <= m) by (nonlinear_arith)
        requires
            p > 0,
            m >= 0,
    ;
}

} // verus!
