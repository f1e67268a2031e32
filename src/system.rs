//! An ordered set of bodies stepped together.
use vstd::prelude::*;
use crate::vec3::{Point, Position, abs, sign};
use crate::body::{Body, BodyState};
use crate::pairs::{
    index_pairs, lemma_pairs_upto_grows, lemma_pairs_upto_index, lemma_pairs_upto_len, lex_pairs,
    pairs_as_ints, pairs_upto,
};
use crate::model::{
    as_ints, axis_has_room, body_fields, canonical, energy_upto, initial, lemma_energy_upto_grows,
    lemma_pull_bounded, lemma_pull_self, next_body, next_state, pull, pulled_velocity, step_fits,
    system_energy,
};

verus! {

/// Bodies that interact pairwise; their count and order never change.
#[derive(Debug)]
pub struct System {
    pub bodies: Vec<Body>,
}

/// How many bodies have pulled body `k` so far, while the pair loop is at
/// pair (`i`, `j`) of `n` bodies.
pub open spec fn pulled_so_far(k: int, i: int, j: int, n: int) -> int {
    if k < i {
        n
    } else if k == i {
        j
    } else if k < j {
        i + 1
    } else {
        i
    }
}

/// Two points that agree on every axis are equal.
pub proof fn lemma_point_from_axes(p: Point, q: Point)
    requires
        p.axis(0) == q.axis(0),
        p.axis(1) == q.axis(1),
        p.axis(2) == q.axis(2),
    ensures
        p == q,
{
}

impl View for System {
    type V = Seq<BodyState>;

    open spec fn view(&self) -> Seq<BodyState> {
        self.bodies@.map_values(|b: Body| b@)
    }
}

impl System {
    /// One body at rest per position, in the given order.
    pub fn new(positions: Vec<Position>) -> (r: System)
        ensures
            r@ == initial(positions@),
    {
        let mut bodies: Vec<Body> = Vec::new();
        let mut i: usize = 0;
        while i < positions.len()
            invariant
                i <= positions.len(),
                bodies@.len() == i,
                forall|q: int|
                    0 <= q < i ==> (#[trigger] bodies@[q])@ == (BodyState {
                        pos: positions@[q]@,
                        vel: Point::zero(),
                    }),
            decreases positions.len() - i,
        {
            bodies.push(Body::new(positions[i]));
            i = i + 1;
        }
        let r = System { bodies };
        assert(r@ =~= initial(positions@));
        r
    }

    /// One step: every unordered pair of bodies, taken in lexicographic
    /// order of their indices, applies its gravity to the two velocities;
    /// then every body moves by its new velocity.
    pub fn step(&mut self)
        requires
            step_fits(old(self)@),
        ensures
            final(self)@ == next_state(old(self)@),
    {
        let ghost s0 = self@;
        let n = self.bodies.len();
        let pairs = index_pairs(n);
        let ghost lex = lex_pairs(n as int);
        let mut t: usize = 0;
        // The pair that comes next is (`i`, `j`), while `j < n`.
        let ghost mut i: int = 0;
        let ghost mut j: int = 1;
        proof {
            assert(pairs_as_ints(pairs@).len() == pairs@.len());
            assert forall|k: int, a: int| 0 <= k < n && 0 <= a < 3 implies #[trigger] pull(
                s0,
                k,
                a,
                pulled_so_far(k, 0, 1, n as int),
            ) == 0 by {
                if k == 0 {
                    lemma_pull_self(s0, 0, a);
                }
            }
        }
        while t < pairs.len()
            invariant
                n == self.bodies.len(),
                s0.len() == n,
                step_fits(s0),
                pairs_as_ints(pairs@) == lex,
                lex == lex_pairs(n as int),
                pairs@.len() == lex.len(),
                0 <= i < j,
                j <= n || n == 0,
                j == n ==> i + 2 >= n,
                n >= 2 ==> i <= n - 2,
                t == pairs_upto(n as int, i).len() + (j - i - 1),
                forall|k: int| 0 <= k < n ==> (#[trigger] self@[k]).pos == s0[k].pos,
                forall|k: int, a: int|
                    0 <= k < n && 0 <= a < 3 ==> (#[trigger] self@[k].vel.axis(a)) == s0[k].vel.axis(
                        a,
                    ) + pull(s0, k, a, pulled_so_far(k, i, j, n as int)),
            decreases pairs.len() - t,
        {
            proof {
                if j >= n {
                    lemma_pairs_upto_len(n as int, i);
                    lemma_pairs_upto_grows(n as int, i + 1, n as int);
                    lemma_pairs_upto_len(n as int, n - 1);
                    if n >= 2 && i + 1 < n - 1 {
                        lemma_pairs_upto_grows(n as int, i + 1, n - 1);
                    }
                    assert(false);
                }
                lemma_pairs_upto_index(n as int, i, j - i - 1, n as int);
                assert(pairs_as_ints(pairs@)[t as int] == (i, j));
            }
            let (pi, pj) = pairs[t];
            let mut bi = self.bodies[pi];
            let mut bj = self.bodies[pj];
            proof {
                assert(pi == i && pj == j);
                assert(self@[i] == bi@);
                assert(self@[j] == bj@);
                assert forall|a: int| 0 <= a < 3 implies {
                    &&& i64::MIN < #[trigger] bi@.vel.axis(a) < i64::MAX
                    &&& i64::MIN < bj@.vel.axis(a) < i64::MAX
                } by {
                    assert(axis_has_room(s0[i], a, n as int));
                    assert(axis_has_room(s0[j], a, n as int));
                    lemma_pull_bounded(s0, i, a, j);
                    lemma_pull_bounded(s0, j, a, i);
                }
                assert(bi@.vel.axis(0) == bi@.vel.x);
                assert(bi@.vel.axis(1) == bi@.vel.y);
                assert(bi@.vel.axis(2) == bi@.vel.z);
                assert(bj@.vel.axis(0) == bj@.vel.x);
                assert(bj@.vel.axis(1) == bj@.vel.y);
                assert(bj@.vel.axis(2) == bj@.vel.z);
            }
            let ghost before = self@;
            let ghost (oi, oj) = (bi@, bj@);
            bi.calc_gravity(&mut bj);
            self.bodies.set(pi, bi);
            self.bodies.set(pj, bj);
            proof {
                assert(self@ =~= before.update(i, bi@).update(j, bj@));
                assert forall|a: int| 0 <= a < 3 implies {
                    &&& #[trigger] bi@.vel.axis(a) == oi.vel.axis(a) + sign(
                        oj.pos.axis(a) - oi.pos.axis(a),
                    )
                    &&& bj@.vel.axis(a) == oj.vel.axis(a) + sign(oi.pos.axis(a) - oj.pos.axis(a))
                } by {
                    if a == 0 {
                    } else if a == 1 {
                    } else {
                    }
                }
            }
            t = t + 1;
            proof {
                if j + 1 == n && i + 2 < n {
                    lemma_pairs_upto_len(n as int, i);
                    i = i + 1;
                    j = i + 1;
                } else {
                    j = j + 1;
                }
            }
        }
        // All pairs are done: every body has been pulled by every other one.
        proof {
            if n >= 2 && j == n && i == n - 2 {
                assert forall|a: int| 0 <= a < 3 implies #[trigger] pull(s0, n - 1, a, n - 1) == pull(
                    s0,
                    n - 1,
                    a,
                    n as int,
                ) by {
                    lemma_pull_self(s0, n - 1, a);
                }
            }
            if n >= 1 && j < n {
                lemma_pairs_upto_len(n as int, i);
                lemma_pairs_upto_grows(n as int, i + 1, n as int);
                assert(false);
            }
        }
        proof {
            assert forall|k: int| 0 <= k < n implies #[trigger] self@[k] == (BodyState {
                pos: s0[k].pos,
                vel: pulled_velocity(s0, k),
            }) by {
                assert(self@[k].vel.axis(0) == pulled_velocity(s0, k).axis(0));
                assert(self@[k].vel.axis(1) == pulled_velocity(s0, k).axis(1));
                assert(self@[k].vel.axis(2) == pulled_velocity(s0, k).axis(2));
                lemma_point_from_axes(self@[k].vel, pulled_velocity(s0, k));
            }
        }
        let mut k: usize = 0;
        while k < n
            invariant
                n == self.bodies.len(),
                s0.len() == n,
                step_fits(s0),
                k <= n,
                forall|q: int| 0 <= q < k ==> #[trigger] self@[q] == next_body(s0, q),
                forall|q: int|
                    k <= q < n ==> #[trigger] self@[q] == (BodyState {
                        pos: s0[q].pos,
                        vel: pulled_velocity(s0, q),
                    }),
            decreases n - k,
        {
            let mut b = self.bodies[k];
            proof {
                assert(self@[k as int] == b@);
                lemma_pull_bounded(s0, k as int, 0, n as int);
                lemma_pull_bounded(s0, k as int, 1, n as int);
                lemma_pull_bounded(s0, k as int, 2, n as int);
                assert(axis_has_room(s0[k as int], 0, n as int));
                assert(axis_has_room(s0[k as int], 1, n as int));
                assert(axis_has_room(s0[k as int], 2, n as int));
            }
            let ghost before = self@;
            b.update_pos();
            self.bodies.set(k, b);
            assert(self@ =~= before.update(k as int, b@));
            k = k + 1;
        }
        assert(self@ =~= next_state(s0));
    }

    /// The canonical state: for each body in order, its position and then its
    /// velocity components.
    pub fn state(&self) -> (r: Vec<i64>)
        ensures
            as_ints(r@) == canonical(self@),
    {
        let mut r: Vec<i64> = Vec::new();
        let mut k: usize = 0;
        while k < self.bodies.len()
            invariant
                k <= self.bodies.len(),
                as_ints(r@) == canonical(self@.take(k as int)),
            decreases self.bodies.len() - k,
        {
            let b = self.bodies[k];
            let ghost before = r@;
            r.push(b.position.x);
            r.push(b.position.y);
            r.push(b.position.z);
            r.push(b.velocity.x);
            r.push(b.velocity.y);
            r.push(b.velocity.z);
            proof {
                assert(self@.take(k + 1).drop_last() =~= self@.take(k as int));
                assert(self@.take(k + 1).last() == b@);
                assert(as_ints(r@) =~= as_ints(before) + body_fields(b@));
            }
            k = k + 1;
        }
        assert(self@.take(k as int) =~= self@);
        r
    }

    /// The sum of the bodies' energies.
    pub fn total_energy(&self) -> (r: u64)
        requires
            system_energy(self@) <= u64::MAX,
        ensures
            r as int == system_energy(self@),
    {
        let n = self.bodies.len();
        let mut sum: u64 = 0;
        let mut k: usize = 0;
        while k < n
            invariant
                n == self.bodies.len(),
                k <= n,
                system_energy(self@) <= u64::MAX,
                sum as int == energy_upto(self@, k as int),
            decreases n - k,
        {
            proof {
                lemma_energy_upto_grows(self@, k + 1, n as int);
                lemma_energy_upto_grows(self@, k as int, k + 1);
                assert(self@[k as int] == self.bodies@[k as int]@);
            }
            sum = sum + self.bodies[k].total_energy();
            k = k + 1;
        }
        sum
    }

    /// The sum of the bodies' energies, or `None` where it exceeds
    /// `u64::MAX`.
    pub fn checked_total_energy(&self) -> (r: Option<u64>)
        ensures
            r == (if system_energy(self@) <= u64::MAX {
                Some(system_energy(self@) as u64)
            } else {
                None::<u64>
            }),
    {
        let n = self.bodies.len();
        let mut sum: u64 = 0;
        let mut k: usize = 0;
        while k < n
            invariant
                n == self.bodies.len(),
                k <= n,
                sum as int == energy_upto(self@, k as int),
            decreases n - k,
        {
            proof {
                lemma_energy_upto_grows(self@, k + 1, n as int);
                lemma_energy_upto_grows(self@, k as int, k + 1);
                assert(self@[k as int] == self.bodies@[k as int]@);
            }
            match self.bodies[k].checked_total_energy() {
                None => {
                    return None;
                },
                Some(e) => {
                    if e > u64::MAX - sum {
                        return None;
                    }
                    sum = sum + e;
                },
            }
            k = k + 1;
        }
        Some(sum)
    }

    /// Whether one more step stays within the range of `i64`.
    pub fn can_step(&self) -> (r: bool)
        ensures
            r == step_fits(self@),
    {
        let n = self.bodies.len();
        let mut k: usize = 0;
        while k < n
            invariant
                n == self.bodies.len(),
                k <= n,
                forall|q: int, a: int|
                    0 <= q < k && 0 <= a < 3 ==> #[trigger] axis_has_room(self@[q], a, n as int),
            decreases n - k,
        {
            let b = self.bodies[k];
            assert(self@[k as int] == b@);
            assert(self@.len() == n);
            if !room(b.position.x, b.velocity.x, n) {
                assert(!axis_has_room(self@[k as int], 0, n as int));
                return false;
            }
            if !room(b.position.y, b.velocity.y, n) {
                assert(!axis_has_room(self@[k as int], 1, n as int));
                return false;
            }
            if !room(b.position.z, b.velocity.z, n) {
                assert(!axis_has_room(self@[k as int], 2, n as int));
                return false;
            }
            assert(forall|a: int| 0 <= a < 3 ==> #[trigger] axis_has_room(self@[k as int], a, n as int));
            k = k + 1;
        }
        true
    }
}

/// Whether a position `p` and velocity `v` on one axis can take one step in
/// a system of `n` bodies.
fn room(p: i64, v: i64, n: usize) -> (r: bool)
    ensures
        r == (abs(v as int) + n <= i64::MAX && abs(p as int) + abs(v as int) + n <= i64::MAX),
{
    let ap: i128 = if p < 0 { -(p as i128) } else { p as i128 };
    let av: i128 = if v < 0 { -(v as i128) } else { v as i128 };
    let nn: i128 = n as i128;
    av + nn <= i64::MAX as i128 && ap + av + nn <= i64::MAX as i128
}

} // verus!
