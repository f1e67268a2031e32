//! General properties of the simulation, proved over the model.
use vstd::prelude::*;
use crate::vec3::{Vec3, sign};
use crate::body::{BodyState, pair_effect};
use crate::pairs::{lex_pairs, pair_row, pairs_upto};
use crate::model::{
    canonical, gravity, initial, lemma_energy_upto_nonnegative, lemma_pull_self, momentum,
    momentum_upto, next_state, pull, run_steps, system_energy,
};

verus! {

/// The total energy of any system of bodies is non-negative.
pub proof fn lemma_energy_nonnegative(s: Seq<BodyState>)
    ensures
        system_energy(s) >= 0,
{
    lemma_energy_upto_nonnegative(s, s.len() as int);
}

/// The same initial positions stepped the same number of times give the
/// same canonical state and the same total energy.
pub proof fn lemma_deterministic(p1: Seq<Vec3>, p2: Seq<Vec3>, t: nat)
    requires
        p1 == p2,
    ensures
        run_steps(initial(p1), t) == run_steps(initial(p2), t),
        canonical(run_steps(initial(p1), t)) == canonical(run_steps(initial(p2), t)),
        system_energy(run_steps(initial(p1), t)) == system_energy(run_steps(initial(p2), t)),
{
}

/// Swapping the operands of a pairwise gravity update swaps the results:
/// each body receives the same velocity either way.
pub proof fn lemma_pair_symmetric(a: BodyState, b: BodyState)
    ensures
        pair_effect(b, a) == (pair_effect(a, b).1, pair_effect(a, b).0),
{
    let (a1, b1) = pair_effect(a, b);
    let (b2, a2) = pair_effect(b, a);
    assert(a1.vel == a2.vel);
    assert(b1.vel == b2.vel);
}

/// Sum over the first `hi` bodies `k` of the pull of the first `m` bodies
/// on `k` along axis `a`.
pub open spec fn pull_total(s: Seq<BodyState>, a: int, m: int, hi: int) -> int
    decreases hi,
{
    if hi <= 0 {
        0
    } else {
        pull_total(s, a, m, hi - 1) + pull(s, hi - 1, a, m)
    }
}

proof fn lemma_pull_total_extend(s: Seq<BodyState>, a: int, m: int, hi: int)
    requires
        m >= 0,
    ensures
        pull_total(s, a, m + 1, hi) == pull_total(s, a, m, hi) - pull(s, m, a, hi),
    decreases hi,
{
    if hi > 0 {
        lemma_pull_total_extend(s, a, m, hi - 1);
        let d = s[hi - 1].pos.axis(a) - s[m].pos.axis(a);
        assert(sign(-d) == -sign(d));
    }
}

proof fn lemma_pull_total_square(s: Seq<BodyState>, a: int, m: int)
    requires
        m >= 0,
    ensures
        pull_total(s, a, m, m) == 0,
    decreases m,
{
    if m > 0 {
        lemma_pull_total_square(s, a, m - 1);
        lemma_pull_total_extend(s, a, m - 1, m - 1);
    }
}

/// The velocity after a step, axis by axis.
pub proof fn lemma_next_velocity(s: Seq<BodyState>, k: int, a: int)
    requires
        0 <= k < s.len(),
        0 <= a < 3,
    ensures
        next_state(s)[k].vel.axis(a) == s[k].vel.axis(a) + gravity(s, k, a),
{
}

proof fn lemma_momentum_step_upto(s: Seq<BodyState>, a: int, hi: int)
    requires
        0 <= hi <= s.len(),
        0 <= a < 3,
    ensures
        momentum_upto(next_state(s), a, hi) == momentum_upto(s, a, hi) + pull_total(
            s,
            a,
            s.len() as int,
            hi,
        ),
    decreases hi,
{
    if hi > 0 {
        lemma_momentum_step_upto(s, a, hi - 1);
        lemma_next_velocity(s, hi - 1, a);
    }
}

/// One step leaves the sum of the velocity components along each axis
/// unchanged.
pub proof fn lemma_momentum_step(s: Seq<BodyState>, a: int)
    requires
        0 <= a < 3,
    ensures
        momentum(next_state(s), a) == momentum(s, a),
{
    lemma_momentum_step_upto(s, a, s.len() as int);
    lemma_pull_total_square(s, a, s.len() as int);
}

/// Any number of steps leaves the sum of the velocity components along
/// each axis unchanged.
pub proof fn lemma_momentum_conserved(s: Seq<BodyState>, t: nat, a: int)
    requires
        0 <= a < 3,
    ensures
        momentum(run_steps(s, t), a) == momentum(s, a),
    decreases t,
{
    if t > 0 {
        lemma_momentum_conserved(s, (t - 1) as nat, a);
        lemma_momentum_step(run_steps(s, (t - 1) as nat), a);
    }
}

/// Applies the gravity update of the pair of bodies at indices `p`.
pub open spec fn apply_pair(s: Seq<BodyState>, p: (int, int)) -> Seq<BodyState> {
    let e = pair_effect(s[p.0], s[p.1]);
    s.update(p.0, e.0).update(p.1, e.1)
}

/// Applies the gravity updates of the pairs `ps`, in order.
pub open spec fn apply_pairs(s: Seq<BodyState>, ps: Seq<(int, int)>) -> Seq<BodyState>
    decreases ps.len(),
{
    if ps.len() == 0 {
        s
    } else {
        apply_pair(apply_pairs(s, ps.drop_last()), ps.last())
    }
}

/// Every pair names two distinct bodies among the first `n`.
pub open spec fn valid_pairs(n: int, ps: Seq<(int, int)>) -> bool {
    forall|t: int|
        0 <= t < ps.len() ==> {
            let p = #[trigger] ps[t];
            0 <= p.0 < n && 0 <= p.1 < n && p.0 != p.1
        }
}

/// What the pair `p` adds to the velocity of body `k` along axis `a`.
pub open spec fn contribution(s: Seq<BodyState>, p: (int, int), k: int, a: int) -> int {
    (if k == p.0 {
        sign(s[p.1].pos.axis(a) - s[p.0].pos.axis(a))
    } else {
        0
    }) + (if k == p.1 {
        sign(s[p.0].pos.axis(a) - s[p.1].pos.axis(a))
    } else {
        0
    })
}

/// What the pairs `ps` add to the velocity of body `k` along axis `a`.
pub open spec fn contributions(s: Seq<BodyState>, ps: Seq<(int, int)>, k: int, a: int) -> int
    decreases ps.len(),
{
    if ps.len() == 0 {
        0
    } else {
        contributions(s, ps.drop_last(), k, a) + contribution(s, ps.last(), k, a)
    }
}

proof fn lemma_apply_pairs_sum(s: Seq<BodyState>, ps: Seq<(int, int)>)
    requires
        valid_pairs(s.len() as int, ps),
    ensures
        apply_pairs(s, ps).len() == s.len(),
        forall|k: int|
            0 <= k < s.len() ==> (#[trigger] apply_pairs(s, ps)[k]).pos == s[k].pos,
        forall|k: int, a: int|
            0 <= k < s.len() && 0 <= a < 3 ==> (#[trigger] apply_pairs(s, ps)[k].vel.axis(a))
                == s[k].vel.axis(a) + contributions(s, ps, k, a),
    decreases ps.len(),
{
    if ps.len() > 0 {
        let q = ps.drop_last();
        assert(valid_pairs(s.len() as int, q)) by {
            assert forall|t: int| 0 <= t < q.len() implies {
                let p = #[trigger] q[t];
                0 <= p.0 < s.len() && 0 <= p.1 < s.len() && p.0 != p.1
            } by {
                assert(q[t] == ps[t]);
            }
        }
        lemma_apply_pairs_sum(s, q);
        let r = apply_pairs(s, q);
        let p = ps.last();
        assert(ps[ps.len() - 1] == p);
        assert forall|k: int, a: int|
            0 <= k < s.len() && 0 <= a < 3 implies (#[trigger] apply_pairs(s, ps)[k].vel.axis(a))
                == s[k].vel.axis(a) + contributions(s, ps, k, a) by {
            assert(r[k].vel.axis(a) == s[k].vel.axis(a) + contributions(s, q, k, a));
            assert(r[p.0].pos == s[p.0].pos);
            assert(r[p.1].pos == s[p.1].pos);
            if a == 0 {
            } else if a == 1 {
            } else {
            }
        }
    }
}

proof fn lemma_contributions_remove(s: Seq<BodyState>, ps: Seq<(int, int)>, i: int, k: int, a: int)
    requires
        0 <= i < ps.len(),
    ensures
        contributions(s, ps, k, a) == contributions(s, ps.remove(i), k, a) + contribution(
            s,
            ps[i],
            k,
            a,
        ),
    decreases ps.len(),
{
    if i == ps.len() - 1 {
        assert(ps.remove(i) =~= ps.drop_last());
    } else {
        lemma_contributions_remove(s, ps.drop_last(), i, k, a);
        assert(ps.remove(i).drop_last() =~= ps.drop_last().remove(i));
        assert(ps.remove(i).last() == ps.last());
    }
}

proof fn lemma_contributions_reordered(
    s: Seq<BodyState>,
    ps1: Seq<(int, int)>,
    ps2: Seq<(int, int)>,
    k: int,
    a: int,
)
    requires
        ps1.to_multiset() == ps2.to_multiset(),
    ensures
        contributions(s, ps1, k, a) == contributions(s, ps2, k, a),
    decreases ps1.len(),
{
    broadcast use vstd::seq_lib::group_to_multiset_ensures, vstd::multiset::group_multiset_axioms;

    if ps1.len() == 0 {
        assert(ps2.to_multiset().len() == 0);
        assert(ps2.len() == 0);
    } else {
        let x = ps1.last();
        let rest = ps1.drop_last();
        assert(rest.push(x) =~= ps1);
        assert(ps1.to_multiset() =~= rest.to_multiset().insert(x));
        assert(ps2.to_multiset().count(x) > 0);
        assert(ps2.contains(x));
        let i = choose|i: int| 0 <= i < ps2.len() && ps2[i] == x;
        assert(ps2.remove(i).to_multiset() =~= ps2.to_multiset().remove(x));
        assert(rest.to_multiset() =~= ps2.remove(i).to_multiset());
        lemma_contributions_reordered(s, rest, ps2.remove(i), k, a);
        lemma_contributions_remove(s, ps2, i, k, a);
    }
}

/// Applying the same pairwise gravity updates in any two orders gives the
/// same bodies: a step does not depend on how its pairs are enumerated.
pub proof fn lemma_pair_order_irrelevant(
    s: Seq<BodyState>,
    ps1: Seq<(int, int)>,
    ps2: Seq<(int, int)>,
)
    requires
        valid_pairs(s.len() as int, ps1),
        ps1.to_multiset() == ps2.to_multiset(),
    ensures
        apply_pairs(s, ps1) == apply_pairs(s, ps2),
{
    broadcast use vstd::seq_lib::group_to_multiset_ensures;

    assert(valid_pairs(s.len() as int, ps2)) by {
        assert forall|t: int| 0 <= t < ps2.len() implies {
            let p = #[trigger] ps2[t];
            0 <= p.0 < s.len() && 0 <= p.1 < s.len() && p.0 != p.1
        } by {
            assert(ps2.contains(ps2[t]));
            assert(ps1.to_multiset().count(ps2[t]) > 0);
            assert(ps1.contains(ps2[t]));
        }
    }
    lemma_apply_pairs_sum(s, ps1);
    lemma_apply_pairs_sum(s, ps2);
    let r1 = apply_pairs(s, ps1);
    let r2 = apply_pairs(s, ps2);
    assert forall|k: int| 0 <= k < s.len() implies r1[k] == r2[k] by {
        assert forall|a: int| 0 <= a < 3 implies r1[k].vel.axis(a) == r2[k].vel.axis(a) by {
            lemma_contributions_reordered(s, ps1, ps2, k, a);
            assert(r1[k].vel.axis(a) == s[k].vel.axis(a) + contributions(s, ps1, k, a));
            assert(r2[k].vel.axis(a) == s[k].vel.axis(a) + contributions(s, ps2, k, a));
        }
        assert(r1[k].vel.axis(0) == r2[k].vel.axis(0));
        assert(r1[k].vel.axis(1) == r2[k].vel.axis(1));
        assert(r1[k].vel.axis(2) == r2[k].vel.axis(2));
        assert(r1[k].vel == r2[k].vel);
    }
    assert(r1 =~= r2);
}

/// The motion phase of a step: every body moves by its velocity.
pub open spec fn move_all(s: Seq<BodyState>) -> Seq<BodyState> {
    Seq::new(s.len(), |k: int| BodyState { pos: s[k].pos.plus(s[k].vel), vel: s[k].vel })
}

proof fn lemma_contributions_concat(
    s: Seq<BodyState>,
    p: Seq<(int, int)>,
    q: Seq<(int, int)>,
    k: int,
    a: int,
)
    ensures
        contributions(s, p + q, k, a) == contributions(s, p, k, a) + contributions(s, q, k, a),
    decreases q.len(),
{
    if q.len() == 0 {
        assert(p + q =~= p);
    } else {
        lemma_contributions_concat(s, p, q.drop_last(), k, a);
        assert((p + q).drop_last() =~= p + q.drop_last());
    }
}

proof fn lemma_contributions_row(s: Seq<BodyState>, n: int, i: int, c: int, k: int, a: int)
    requires
        0 <= i,
        0 <= c,
        i + 1 + c <= n,
        0 <= k,
    ensures
        contributions(s, pair_row(i + 1 + c, i), k, a) == (if k == i {
            pull(s, i, a, i + 1 + c) - pull(s, i, a, i + 1)
        } else {
            0
        }) + (if i < k <= i + c {
            sign(s[i].pos.axis(a) - s[k].pos.axis(a))
        } else {
            0
        }),
    decreases c,
{
    if c > 0 {
        lemma_contributions_row(s, n, i, c - 1, k, a);
        assert(pair_row(i + 1 + c, i).drop_last() =~= pair_row(i + c, i));
    }
}

proof fn lemma_contributions_pairs_upto(s: Seq<BodyState>, n: int, m: int, k: int, a: int)
    requires
        0 <= m <= n,
        0 <= k < n,
    ensures
        contributions(s, pairs_upto(n, m), k, a) == (if k < m {
            pull(s, k, a, n)
        } else {
            pull(s, k, a, m)
        }),
    decreases m,
{
    if m > 0 {
        let i = m - 1;
        lemma_contributions_pairs_upto(s, n, i, k, a);
        lemma_contributions_concat(s, pairs_upto(n, i), pair_row(n, i), k, a);
        if i + 1 <= n - 1 {
            lemma_contributions_row(s, n, i, n - i - 1, k, a);
        } else {
            assert(pair_row(n, i).len() == 0);
        }
        lemma_pull_self(s, i, a);
    }
}

proof fn lemma_lex_pairs_valid(n: int, m: int)
    requires
        0 <= m <= n,
    ensures
        valid_pairs(n, pairs_upto(n, m)),
    decreases m,
{
    if m > 0 {
        lemma_lex_pairs_valid(n, m - 1);
        let p = pairs_upto(n, m - 1);
        let q = pair_row(n, m - 1);
        assert forall|t: int| 0 <= t < (p + q).len() implies {
            let x = #[trigger] (p + q)[t];
            0 <= x.0 < n && 0 <= x.1 < n && x.0 != x.1
        } by {
            if t < p.len() {
                assert((p + q)[t] == p[t]);
            } else {
                assert((p + q)[t] == q[t - p.len()]);
            }
        }
    }
}

/// A step equals applying the gravity updates of all unordered pairs of
/// bodies, each once and in any order, and then moving every body by its
/// velocity.
pub proof fn lemma_step_in_any_pair_order(s: Seq<BodyState>, ps: Seq<(int, int)>)
    requires
        ps.to_multiset() == lex_pairs(s.len() as int).to_multiset(),
    ensures
        move_all(apply_pairs(s, ps)) == next_state(s),
{
    let n = s.len() as int;
    lemma_lex_pairs_valid(n, n);
    lemma_pair_order_irrelevant(s, lex_pairs(n), ps);
    lemma_apply_pairs_sum(s, lex_pairs(n));
    let r = apply_pairs(s, lex_pairs(n));
    assert forall|k: int| 0 <= k < n implies #[trigger] r[k].vel == next_state(s)[k].vel by {
        assert forall|a: int| 0 <= a < 3 implies r[k].vel.axis(a) == next_state(s)[k].vel.axis(a) by {
            lemma_contributions_pairs_upto(s, n, n, k, a);
            lemma_next_velocity(s, k, a);
        }
        assert(r[k].vel.axis(0) == next_state(s)[k].vel.axis(0));
        assert(r[k].vel.axis(1) == next_state(s)[k].vel.axis(1));
        assert(r[k].vel.axis(2) == next_state(s)[k].vel.axis(2));
    }
    assert(move_all(r) =~= next_state(s));
}

} // verus!
