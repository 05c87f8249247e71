//! The ordered actions of one simulation step.
use vstd::prelude::*;

verus! {

/// One unit of work within a simulation step.
#[derive(Clone, Copy, Debug, PartialEq, Eq, Structural)]
pub enum Action {
    /// Add to the velocity of `target` the pull that `source` exerts on it.
    Force { target: usize, source: usize },
    /// Advance the position of `particle` by its velocity.
    Move { particle: usize },
}

/// When a step commits the new positions.
#[derive(Clone, Copy, Debug, PartialEq, Eq, Structural)]
pub enum Order {
    /// Each particle moves as soon as it has exerted its forces, so later sources see it
    /// already moved. Order-dependent; gives the classic demo's results bit for bit.
    InPlace,
    /// Every force is applied first, from the positions at the start of the step; then every
    /// particle moves. Order-independent.
    Staged,
}

/// The particle that receives the `k`-th force exerted by `source`: every other index,
/// in increasing order.
pub open spec fn target_at(source: nat, k: nat) -> nat {
    if k < source {
        k
    } else {
        k + 1
    }
}

/// The `k`-th force exerted by `source`.
pub open spec fn force_of(source: nat, k: nat) -> Action {
    Action::Force { target: target_at(source, k) as usize, source: source as usize }
}

/// The `k`-th action of the block of `source` in an in-place step over `n` particles: the
/// `n - 1` forces that `source` exerts, then its own move.
pub open spec fn block_action(n: nat, source: nat, k: nat) -> Action {
    if k + 1 < n {
        force_of(source, k)
    } else {
        Action::Move { particle: source as usize }
    }
}

/// All actions of an in-place step over `n` particles: the blocks of the sources
/// `0, 1, ..., n - 1`, one after the other, each `n` actions long.
pub open spec fn in_place_actions(n: nat) -> Seq<Action> {
    Seq::new(n * n, |i: int| block_action(n, (i / (n as int)) as nat, (i % (n as int)) as nat))
}

/// All actions of a staged step over `n` particles: the same forces in the same order, the
/// `n - 1` of each source together, and after all of them the moves of `0, 1, ..., n - 1`.
pub open spec fn staged_actions(n: nat) -> Seq<Action> {
    let m = n - 1;
    Seq::new(
        n * n,
        |i: int|
            if i < n * m {
                force_of((i / m) as nat, (i % m) as nat)
            } else {
                Action::Move { particle: (i - n * m) as usize }
            },
    )
}

/// All actions of a step over `n` particles in the given order.
pub open spec fn step_actions(n: nat, order: Order) -> Seq<Action> {
    match order {
        Order::InPlace => in_place_actions(n),
        Order::Staged => staged_actions(n),
    }
}

/// Where the block of `source` starts in an in-place step, and so where its `k`-th action
/// stands.
pub proof fn lemma_block_index(n: nat, source: nat, k: nat)
    requires
        source < n,
        k < n,
    ensures
        source * n + k < n * n,
        in_place_actions(n)[(source * n + k) as int] == block_action(n, source, k),
{
    vstd::arithmetic::mul::lemma_mul_inequality(source as int, n - 1, n as int);
    assert((n - 1) * n + k < n * n) by (nonlinear_arith)
        requires k < n, n > 0;
    let i = (source * n + k) as int;
    vstd::arithmetic::div_mod::lemma_fundamental_div_mod_converse(i, n as int, source as int, k as int);
}

/// Where the `k`-th force of `source` stands in a staged step.
pub proof fn lemma_staged_force_index(n: nat, source: nat, k: nat)
    requires
        source < n,
        k + 1 < n,
    ensures
        source * (n - 1) + k < n * (n - 1),
        n * (n - 1) <= n * n,
        staged_actions(n)[source * (n - 1) + k] == force_of(source, k),
{
    let m = n - 1;
    vstd::arithmetic::mul::lemma_mul_inequality(source as int, n - 1, m);
    assert((n - 1) * m + k < n * m) by (nonlinear_arith)
        requires k < m, m == n - 1;
    assert(n * m <= n * n) by (nonlinear_arith)
        requires m == n - 1, n > 0;
    let i = source * m + k;
    vstd::arithmetic::div_mod::lemma_fundamental_div_mod_converse(i, m, source as int, k as int);
}

/// Where the move of `particle` stands in a staged step.
pub proof fn lemma_staged_move_index(n: nat, particle: nat)
    requires
        particle < n,
    ensures
        n * (n - 1) <= n * (n - 1) + particle < n * n,
        staged_actions(n)[n * (n - 1) + particle] == (Action::Move { particle: particle as usize }),
{
    assert(n * (n - 1) + n == n * n) by (nonlinear_arith);
}

/// A position within the actions of one step, handed out one action at a time.
pub struct StepCursor {
    count: usize,
    order: Order,
    source: usize,
    offset: usize,
}

impl StepCursor {
    /// The number of particles of the step.
    pub closed spec fn count(&self) -> nat {
        self.count as nat
    }

    /// The order of the step.
    pub closed spec fn order(&self) -> Order {
        self.order
    }

    /// The number of actions already handed out.
    pub closed spec fn done(&self) -> nat {
        match self.order {
            Order::InPlace => self.source as nat * self.count as nat + self.offset as nat,
            Order::Staged => (self.source as nat * (self.count - 1) + self.offset as nat) as nat,
        }
    }

    /// The cursor stands at an action of the step, or just past its last one.
    pub closed spec fn wf(&self) -> bool {
        match self.order {
            Order::InPlace => {
                &&& self.offset < self.count || self.offset == 0
                &&& self.source < self.count || (self.source == self.count && self.offset == 0)
            },
            Order::Staged => {
                ||| self.source < self.count && self.offset + 1 < self.count
                ||| self.source == self.count && self.offset <= self.count
            },
        }
    }

    /// A cursor at the start of a step over `count` particles, in the given order.
    pub fn new(count: usize, order: Order) -> (r: StepCursor)
        ensures
            r.wf(),
            r.count() == count,
            r.order() == order,
            r.done() == 0,
    {
        let source = match order {
            Order::Staged => if count <= 1 {
                count
            } else {
                0
            },
            Order::InPlace => 0,
        };
        let r = StepCursor { count, order, source, offset: 0 };
        assert(r.done() == 0) by (nonlinear_arith)
            requires
                r.order == Order::Staged ==> r.source * (r.count - 1) == 0,
                r.order == Order::InPlace ==> r.source == 0,
                r.offset == 0;
        r
    }

    proof fn lemma_done_bounded(&self)
        requires
            self.wf(),
        ensures
            self.done() <= self.count() * self.count(),
            self.done() == self.count() * self.count() <==> match self.order {
                Order::InPlace => self.source == self.count,
                Order::Staged => self.source == self.count && self.offset == self.count,
            },
    {
        let n = self.count as int;
        let s = self.source as int;
        let k = self.offset as int;
        match self.order {
            Order::InPlace => {
                if s < n {
                    vstd::arithmetic::mul::lemma_mul_inequality(s, n - 1, n);
                    assert((n - 1) * n + k < n * n) by (nonlinear_arith)
                        requires k < n, n > 0;
                } else {
                    assert(s * n == n * n);
                }
            },
            Order::Staged => {
                let m = n - 1;
                if s < n {
                    vstd::arithmetic::mul::lemma_mul_inequality(s, n - 1, m);
                    assert((n - 1) * m + k < n * n) by (nonlinear_arith)
                        requires k < m, m == n - 1, n >= 1;
                } else {
                    assert(n * m + n == n * n) by (nonlinear_arith)
                        requires m == n - 1;
                }
            },
        }
    }

    /// Hands out the next action of the step, or `None` once all `count * count` are out.
    pub fn next_step(&mut self) -> (r: Option<Action>)
        requires
            old(self).wf(),
        ensures
            final(self).wf(),
            final(self).count() == old(self).count(),
            final(self).order() == old(self).order(),
            old(self).done() < old(self).count() * old(self).count() ==> {
                &&& r == Some(
                    step_actions(old(self).count(), old(self).order())[old(self).done() as int],
                )
                &&& final(self).done() == old(self).done() + 1
            },
            old(self).done() >= old(self).count() * old(self).count() ==> {
                &&& r is None
                &&& final(self).done() == old(self).done()
            },
    {
        proof {
            self.lemma_done_bounded();
        }
        let ghost n = self.count as nat;
        let ghost s = self.source as nat;
        let ghost k = self.offset as nat;
        match self.order {
            Order::InPlace => {
                if self.source >= self.count {
                    return None;
                }
                proof {
                    lemma_block_index(n, s, k);
                }
                let action = if self.offset + 1 < self.count {
                    Action::Force { target: target_of(self.source, self.offset), source: self.source }
                } else {
                    Action::Move { particle: self.source }
                };
                if self.offset + 1 < self.count {
                    self.offset = self.offset + 1;
                } else {
                    self.source = self.source + 1;
                    self.offset = 0;
                    assert((s + 1) * n == s * n + n) by (nonlinear_arith);
                }
                Some(action)
            },
            Order::Staged => {
                if self.source >= self.count {
                    if self.offset >= self.count {
                        return None;
                    }
                    proof {
                        lemma_staged_move_index(n, k);
                    }
                    let particle = self.offset;
                    self.offset = self.offset + 1;
                    return Some(Action::Move { particle });
                }
                proof {
                    lemma_staged_force_index(n, s, k);
                }
                let action = Action::Force {
                    target: target_of(self.source, self.offset),
                    source: self.source,
                };
                if self.offset + 2 < self.count {
                    self.offset = self.offset + 1;
                } else {
                    self.source = self.source + 1;
                    self.offset = 0;
                    assert((s + 1) * (n - 1) == s * (n - 1) + (n - 1)) by (nonlinear_arith);
                }
                Some(action)
            },
        }
    }
}

/// The particle that receives the `k`-th force exerted by `source`.
fn target_of(source: usize, k: usize) -> (r: usize)
    requires
        k < usize::MAX,
    ensures
        r == target_at(source as nat, k as nat),
{
    if k < source {
        k
    } else {
        k + 1
    }
}

/// All actions of one step over `count` particles, in the given order.
pub fn steps(count: usize, order: Order) -> (r: Vec<Action>)
    requires
        count * count <= usize::MAX,
    ensures
        r@ == step_actions(count as nat, order),
{
    let mut cursor = StepCursor::new(count, order);
    let mut out: Vec<Action> = Vec::new();
    loop
        invariant
            cursor.wf(),
            cursor.count() == count,
            cursor.order() == order,
            cursor.done() <= count * count,
            out@ == step_actions(count as nat, order).take(cursor.done() as int),
        ensures
            out@ == step_actions(count as nat, order),
        decreases count * count - cursor.done(),
    {
        match cursor.next_step() {
            Some(a) => {
                out.push(a);
                assert(out@ == step_actions(count as nat, order).take(cursor.done() as int));
            },
            None => {
                assert(out@ =~= step_actions(count as nat, order));
                break;
            },
        }
    }
    out
}

} // verus!
