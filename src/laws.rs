//! Laws of the order in which a step acts on its particles.
use vstd::prelude::*;

use crate::schedule::{
    block_action, force_of, in_place_actions, lemma_block_index, lemma_staged_force_index,
    lemma_staged_move_index, staged_actions, step_actions, target_at, Action, Order,
};

verus! {

/// Where, among the actions of an in-place step over `n` particles, `source` exerts its force
/// on `target`.
pub open spec fn force_index(n: nat, target: nat, source: nat) -> int {
    source * n + if target < source {
        target as int
    } else {
        target - 1
    }
}

/// Where, among the actions of an in-place step over `n` particles, `particle` moves.
pub open spec fn move_index(n: nat, particle: nat) -> int {
    particle * n + n - 1
}

/// Where, among the actions of a staged step over `n` particles, `source` exerts its force on
/// `target`.
pub open spec fn staged_force_index(n: nat, target: nat, source: nat) -> int {
    source * (n - 1) + if target < source {
        target as int
    } else {
        target - 1
    }
}

/// Where, among the actions of a staged step over `n` particles, `particle` moves.
pub open spec fn staged_move_index(n: nat, particle: nat) -> int {
    n * (n - 1) + particle
}

/// An action of a step over `n` particles names only particles below `n`, and no force acts
/// between a particle and itself.
pub open spec fn action_in_range(n: nat, a: Action) -> bool {
    match a {
        Action::Force { target, source } => target < n && source < n && target != source,
        Action::Move { particle } => particle < n,
    }
}

/// The `i`-th action of an in-place step is the action at offset `i % n` of the block of
/// source `i / n`.
proof fn lemma_decompose(n: nat, i: int)
    requires
        0 <= i < n * n,
    ensures
        n > 0,
        0 <= (i / (n as int)) < n,
        0 <= (i % (n as int)) < n,
        i == (i / (n as int)) * n + (i % (n as int)),
        in_place_actions(n)[i] == block_action(n, (i / (n as int)) as nat, (i % (n as int)) as nat),
{
    assert(n > 0) by (nonlinear_arith)
        requires 0 <= i < n * n;
    let q = (i / (n as int));
    let r = (i % (n as int));
    vstd::arithmetic::div_mod::lemma_fundamental_div_mod(i, n as int);
    vstd::arithmetic::div_mod::lemma_mod_pos_bound(i, n as int);
    vstd::arithmetic::div_mod::lemma_div_pos_is_pos(i, n as int);
    assert(q * n == n * q) by (nonlinear_arith);
    assert(q < n) by (nonlinear_arith)
        requires i == q * n + r, 0 <= r, i < n * n, n > 0;
}

/// The `i`-th action of a staged step: among the forces, the `i % (n - 1)`-th of source
/// `i / (n - 1)`; after them, the move of particle `i - n * (n - 1)`.
proof fn lemma_staged_decompose(n: nat, i: int)
    requires
        0 <= i < n * n,
    ensures
        n > 0,
        n * (n - 1) + n == n * n,
        i < n * (n - 1) ==> {
            &&& n > 1
            &&& 0 <= (i / (n - 1)) < n
            &&& 0 <= (i % (n - 1)) < n - 1
            &&& i == (i / (n - 1)) * (n - 1) + (i % (n - 1))
            &&& staged_actions(n)[i] == force_of((i / (n - 1)) as nat, (i % (n - 1)) as nat)
        },
        i >= n * (n - 1) ==> staged_actions(n)[i] == (Action::Move {
            particle: (i - n * (n - 1)) as usize,
        }),
{
    let m = n - 1;
    assert(n > 0) by (nonlinear_arith)
        requires 0 <= i < n * n;
    assert(n * m + n == n * n) by (nonlinear_arith)
        requires m == n - 1;
    if i < n * m {
        assert(m > 0) by (nonlinear_arith)
            requires 0 <= i < n * m, n > 0;
        let q = i / m;
        let r = i % m;
        vstd::arithmetic::div_mod::lemma_fundamental_div_mod(i, m);
        vstd::arithmetic::div_mod::lemma_mod_pos_bound(i, m);
        vstd::arithmetic::div_mod::lemma_div_pos_is_pos(i, m);
        assert(q * m == m * q) by (nonlinear_arith);
        assert(q < n) by (nonlinear_arith)
            requires i == q * m + r, 0 <= r, i < n * m, m > 0;
    }
}

/// Every action of a step names particles of the step, and no particle acts on itself.
pub proof fn lemma_actions_in_range(n: usize, order: Order)
    ensures
        forall|i: int|
            0 <= i < step_actions(n as nat, order).len() ==> action_in_range(
                n as nat,
                #[trigger] step_actions(n as nat, order)[i],
            ),
{
    assert forall|i: int| 0 <= i < step_actions(n as nat, order).len() implies action_in_range(
        n as nat,
        #[trigger] step_actions(n as nat, order)[i],
    ) by {
        match order {
            Order::InPlace => lemma_decompose(n as nat, i),
            Order::Staged => lemma_staged_decompose(n as nat, i),
        }
    }
}

/// With no particle, or with one, a step applies no force: no velocity changes.
pub proof fn lemma_lone_particle_feels_nothing(n: usize, order: Order)
    requires
        n <= 1,
    ensures
        forall|i: int|
            0 <= i < step_actions(n as nat, order).len() ==> #[trigger] step_actions(
                n as nat,
                order,
            )[i] is Move,
{
    assert forall|i: int| 0 <= i < step_actions(n as nat, order).len() implies #[trigger] step_actions(
        n as nat,
        order,
    )[i] is Move by {
        match order {
            Order::InPlace => lemma_decompose(n as nat, i),
            Order::Staged => lemma_staged_decompose(n as nat, i),
        }
    }
}

/// In one in-place step, every particle feels the force of every other particle exactly once.
pub proof fn lemma_each_pair_once(n: usize, target: usize, source: usize)
    requires
        target < n,
        source < n,
        target != source,
    ensures
        0 <= force_index(n as nat, target as nat, source as nat) < in_place_actions(n as nat).len(),
        in_place_actions(n as nat)[force_index(n as nat, target as nat, source as nat)]
            == (Action::Force { target, source }),
        forall|j: int|
            0 <= j < in_place_actions(n as nat).len() && #[trigger] in_place_actions(n as nat)[j]
                == (Action::Force { target, source }) ==> j == force_index(
                n as nat,
                target as nat,
                source as nat,
            ),
{
    let k: nat = if target < source {
        target as nat
    } else {
        (target - 1) as nat
    };
    lemma_block_index(n as nat, source as nat, k);
    assert(target_at(source as nat, k) == target);
    assert forall|j: int|
        0 <= j < in_place_actions(n as nat).len() && #[trigger] in_place_actions(n as nat)[j]
            == (Action::Force { target, source }) implies j == force_index(
        n as nat,
        target as nat,
        source as nat,
    ) by {
        lemma_decompose(n as nat, j);
    }
}

/// In one in-place step, every particle moves exactly once, as the last action of its own
/// block.
pub proof fn lemma_each_moves_once(n: usize, particle: usize)
    requires
        particle < n,
    ensures
        0 <= move_index(n as nat, particle as nat) < in_place_actions(n as nat).len(),
        in_place_actions(n as nat)[move_index(n as nat, particle as nat)]
            == (Action::Move { particle }),
        forall|j: int|
            0 <= j < in_place_actions(n as nat).len() && #[trigger] in_place_actions(n as nat)[j]
                == (Action::Move { particle }) ==> j == move_index(n as nat, particle as nat),
{
    lemma_block_index(n as nat, particle as nat, (n - 1) as nat);
    assert forall|j: int|
        0 <= j < in_place_actions(n as nat).len() && #[trigger] in_place_actions(n as nat)[j]
            == (Action::Move { particle }) implies j == move_index(n as nat, particle as nat) by {
        lemma_decompose(n as nat, j);
    }
}

/// In an in-place step, a particle exerts its forces from where it stood at the start of the
/// step: all of them come before its own move. It feels the force of a lower-indexed particle
/// before it moves, and that of a higher-indexed one after.
pub proof fn lemma_force_order(n: usize, target: usize, source: usize)
    requires
        target < n,
        source < n,
        target != source,
    ensures
        force_index(n as nat, target as nat, source as nat) < move_index(n as nat, source as nat),
        force_index(n as nat, target as nat, source as nat) > move_index(n as nat, target as nat)
            <==> target < source,
{
    let nn = n as int;
    let t = target as int;
    let s = source as int;
    if t < s {
        assert(t * nn + nn - 1 < s * nn + t) by (nonlinear_arith)
            requires t < s, t >= 0, nn > 0, t < nn;
    } else {
        assert(s * nn + t - 1 < t * nn + nn - 1) by (nonlinear_arith)
            requires s < t, s >= 0, nn > 0, t < nn;
    }
}

/// In one staged step, every particle feels the force of every other particle exactly once.
pub proof fn lemma_staged_each_pair_once(n: usize, target: usize, source: usize)
    requires
        target < n,
        source < n,
        target != source,
    ensures
        0 <= staged_force_index(n as nat, target as nat, source as nat) < staged_actions(
            n as nat,
        ).len(),
        staged_actions(n as nat)[staged_force_index(n as nat, target as nat, source as nat)]
            == (Action::Force { target, source }),
        forall|j: int|
            0 <= j < staged_actions(n as nat).len() && #[trigger] staged_actions(n as nat)[j]
                == (Action::Force { target, source }) ==> j == staged_force_index(
                n as nat,
                target as nat,
                source as nat,
            ),
{
    let k: nat = if target < source {
        target as nat
    } else {
        (target - 1) as nat
    };
    lemma_staged_force_index(n as nat, source as nat, k);
    assert(target_at(source as nat, k) == target);
    assert forall|j: int|
        0 <= j < staged_actions(n as nat).len() && #[trigger] staged_actions(n as nat)[j]
            == (Action::Force { target, source }) implies j == staged_force_index(
        n as nat,
        target as nat,
        source as nat,
    ) by {
        lemma_staged_decompose(n as nat, j);
    }
}

/// In one staged step, every particle moves exactly once.
pub proof fn lemma_staged_each_moves_once(n: usize, particle: usize)
    requires
        particle < n,
    ensures
        0 <= staged_move_index(n as nat, particle as nat) < staged_actions(n as nat).len(),
        staged_actions(n as nat)[staged_move_index(n as nat, particle as nat)]
            == (Action::Move { particle }),
        forall|j: int|
            0 <= j < staged_actions(n as nat).len() && #[trigger] staged_actions(n as nat)[j]
                == (Action::Move { particle }) ==> j == staged_move_index(
                n as nat,
                particle as nat,
            ),
{
    lemma_staged_move_index(n as nat, particle as nat);
    assert forall|j: int|
        0 <= j < staged_actions(n as nat).len() && #[trigger] staged_actions(n as nat)[j]
            == (Action::Move { particle }) implies j == staged_move_index(
        n as nat,
        particle as nat,
    ) by {
        lemma_staged_decompose(n as nat, j);
    }
}

/// In a staged step every force comes before every move: all forces are computed from the
/// positions at the start of the step.
pub proof fn lemma_staged_forces_before_moves(n: usize)
    ensures
        forall|i: int, j: int|
            0 <= i < staged_actions(n as nat).len() && 0 <= j < staged_actions(n as nat).len()
                && #[trigger] staged_actions(n as nat)[i] is Force
                && #[trigger] staged_actions(n as nat)[j] is Move ==> i < j,
{
    assert forall|i: int, j: int|
        0 <= i < staged_actions(n as nat).len() && 0 <= j < staged_actions(n as nat).len()
            && #[trigger] staged_actions(n as nat)[i] is Force
            && #[trigger] staged_actions(n as nat)[j] is Move implies i < j by {
        lemma_staged_decompose(n as nat, i);
        lemma_staged_decompose(n as nat, j);
    }
}

} // verus!
