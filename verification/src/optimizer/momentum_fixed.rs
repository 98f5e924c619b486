//! Momentum descent on fixed-point numbers: how the velocity grows under a constant
//! gradient.
//!
//! With a momentum between zero and one and a gradient that does not change, the velocity
//! of each step is the velocity of the step before times the momentum, plus the learning
//! rate times the gradient. On fixed-point numbers it never shrinks, it is never below the
//! learning rate times the gradient, and it never passes the learning rate times the
//! gradient over one minus the momentum.

use crate::fixed::{clamped, quotient, Fixed, UNITS};
use crate::learning_rate::LearningRateSchedule;
use crate::linalg::{BinaryOp, MatrixView};
use crate::optimizer::momentum::MomentumView;
use vstd::prelude::*;

verus! {

/// The velocity of step number `n` of an entry: zero before the first step, and for each
/// step the velocity before times `momentum`, plus `step`.
pub open spec fn speed(momentum: Fixed, step: Fixed, n: nat) -> Fixed
    decreases n,
{
    if n == 0 {
        Fixed::nothing()
    } else {
        speed(momentum, step, (n - 1) as nat).product(momentum).sum(step)
    }
}

/// Whether the velocity can be followed without leaving the range: the momentum lies
/// between zero and one, one excluded, and `step` is not below zero and not too long.
pub open spec fn follows(momentum: Fixed, step: Fixed) -> bool {
    &&& 0 <= momentum.units < UNITS
    &&& 0 <= step.units
    &&& step.units * UNITS < i64::MAX
}

/// The whole part of a quotient is the largest whole number that, times the divisor, does
/// not pass what is divided.
pub proof fn lemma_quotient_bounds(n: int, d: int)
    requires
        0 <= n,
        0 < d,
    ensures
        0 <= quotient(n, d),
        quotient(n, d) * d <= n,
        n < (quotient(n, d) + 1) * d,
{
    vstd::arithmetic::div_mod::lemma_fundamental_div_mod(n, d);
    vstd::arithmetic::div_mod::lemma_mod_bound(n, d);
    assert(n == d * (n / d) + n % d);
    assert(d * (n / d) == (n / d) * d) by (nonlinear_arith);
    assert((n / d + 1) * d == (n / d) * d + d) by (nonlinear_arith);
    assert(0 <= n / d) by (nonlinear_arith)
        requires
            0 <= n,
            0 < d,
            n == d * (n / d) + n % d,
            0 <= n % d < d,
    ;
}

/// The whole part of a quotient does not shrink when what is divided grows.
pub proof fn lemma_quotient_grows(first: int, second: int, d: int)
    requires
        0 <= first <= second,
        0 < d,
    ensures
        quotient(first, d) <= quotient(second, d),
{
    lemma_quotient_bounds(first, d);
    lemma_quotient_bounds(second, d);
    let a = quotient(first, d);
    let b = quotient(second, d);
    if a > b {
        assert((b + 1) * d <= a * d) by (nonlinear_arith)
            requires
                b + 1 <= a,
                0 < d,
        ;
    }
}

/// One step of the velocity: from a velocity that is within its bound, the next velocity
/// is the cut-off product plus the step, and is within the bound again.
pub proof fn lemma_speed_step(momentum: Fixed, step: Fixed, before: Fixed)
    requires
        follows(momentum, step),
        0 <= before.units,
        before.units * (UNITS - momentum.units) <= step.units * UNITS,
    ensures
        before.product(momentum).sum(step).units == quotient(
            before.units * momentum.units,
            UNITS as int,
        ) + step.units,
        step.units <= before.product(momentum).sum(step).units,
        before.product(momentum).sum(step).units * (UNITS - momentum.units) <= step.units
            * UNITS,
{
    let v = before.units as int;
    let m = momentum.units as int;
    let s = step.units as int;
    let u = UNITS as int;
    assert(0 <= v * m) by (nonlinear_arith)
        requires
            0 <= v,
            0 <= m,
    ;
    lemma_quotient_bounds(v * m, u);
    let q = quotient(v * m, u);
    // The cut-off product is no longer than what it is cut off from.
    assert(q * (u - m) <= s * m) by (nonlinear_arith)
        requires
            0 <= q,
            q * u <= v * m,
            v * (u - m) <= s * u,
            0 <= m < u,
            0 <= v,
            0 <= s,
            u > 0,
    ;
    assert((q + s) * (u - m) <= s * u) by (nonlinear_arith)
        requires
            q * (u - m) <= s * m,
    ;
    assert(q + s <= s * u) by (nonlinear_arith)
        requires
            (q + s) * (u - m) <= s * u,
            1 <= u - m,
            0 <= q + s,
    ;
    assert(q <= s * u);
    assert(clamped(q) == q);
    assert(clamped(q + s) == q + s);
}

/// Under a momentum between zero and one and a step that can be followed, the velocity of
/// a step is not below the step, not below the velocity of the step before, and times one
/// minus the momentum it does not pass the step.
pub proof fn lemma_speed_grows(momentum: Fixed, step: Fixed, n: nat)
    requires
        follows(momentum, step),
    ensures
        0 <= speed(momentum, step, n).units,
        speed(momentum, step, n).units * (UNITS - momentum.units) <= step.units * UNITS,
        speed(momentum, step, n).units <= speed(momentum, step, n + 1).units,
        step.units <= speed(momentum, step, n + 1).units,
    decreases n,
{
    let m = momentum.units as int;
    let s = step.units as int;
    let u = UNITS as int;
    if n == 0 {
        assert(speed(momentum, step, 0) == Fixed::nothing());
        assert(0 * (u - m) == 0) by (nonlinear_arith);
        assert(0 <= s * u) by (nonlinear_arith)
            requires
                0 <= s,
                0 < u,
        ;
        lemma_speed_step(momentum, step, Fixed::nothing());
        assert(speed(momentum, step, 1) == speed(momentum, step, 0).product(momentum).sum(step));
    } else {
        lemma_speed_grows(momentum, step, (n - 1) as nat);
        let earlier = speed(momentum, step, (n - 1) as nat);
        let now = speed(momentum, step, n);
        assert(now == earlier.product(momentum).sum(step));
        lemma_speed_step(momentum, step, earlier);
        lemma_speed_step(momentum, step, now);
        assert(speed(momentum, step, n + 1) == now.product(momentum).sum(step));
        assert(0 <= earlier.units * m <= now.units * m) by (nonlinear_arith)
            requires
                0 <= earlier.units <= now.units,
                0 <= m,
        ;
        lemma_quotient_grows(earlier.units * m, now.units * m, u);
    }
}

/// The state of momentum descent after `n` steps against the same gradient, step number
/// `k` being taken in epoch `k - 1`.
pub open spec fn after_steps(
    state: MomentumView<Fixed>,
    gradient: MatrixView<Fixed>,
    n: nat,
) -> MomentumView<Fixed>
    decreases n,
{
    if n == 0 {
        state
    } else {
        after_steps(state, gradient, (n - 1) as nat).after((n - 1) as usize, gradient)
    }
}

/// The velocity after `n` steps against the same gradient, from a state before any step
/// and at a constant learning rate: each entry has the velocity that its own step gives,
/// the learning rate times its entry of the gradient.
pub proof fn lemma_velocity_entries(
    momentum: Fixed,
    rate: Fixed,
    gradient: MatrixView<Fixed>,
    n: nat,
)
    requires
        gradient.wf(),
        n >= 1,
    ensures
        after_steps(
            MomentumView { momentum, learning_rate: LearningRateSchedule::Constant(rate), v: None },
            gradient,
            n,
        ).v matches Some(velocity) && velocity.has_shape(gradient.nrow, gradient.ncol())
            && forall|r: int, c: int|
            0 <= r < gradient.nrow && 0 <= c < gradient.ncol() ==> #[trigger] velocity.at(r, c)
                == speed(momentum, gradient.at(r, c).product(rate), n),
    decreases n,
{
    let start = MomentumView { momentum, learning_rate: LearningRateSchedule::Constant(rate), v: None };
    let before = after_steps(start, gradient, (n - 1) as nat);
    let state = after_steps(start, gradient, n);
    let epoch = (n - 1) as usize;
    assert(state == before.after(epoch, gradient));
    assert(before.momentum == momentum && before.learning_rate == start.learning_rate) by {
        lemma_settings_stay(start, gradient, (n - 1) as nat);
    }
    if n > 1 {
        lemma_velocity_entries(momentum, rate, gradient, (n - 1) as nat);
    }
    let previous = before.previous_velocity(gradient);
    assert(previous.has_shape(gradient.nrow, gradient.ncol()));
    assert forall|r: int, c: int|
        0 <= r < gradient.nrow && 0 <= c < gradient.ncol() implies #[trigger] previous.at(r, c)
        == speed(momentum, gradient.at(r, c).product(rate), (n - 1) as nat) by {
        if n == 1 {
            assert(before == start);
        }
    }
    let scaled = previous.with_scalar(BinaryOp::Mul, momentum);
    let steps = gradient.with_scalar(BinaryOp::Mul, rate);
    let velocity = before.velocity(epoch, gradient);
    assert(velocity == scaled.zip(BinaryOp::Add, steps));
    assert(state.v == Some(velocity));
    assert forall|c: int| 0 <= c < gradient.ncol() implies (#[trigger] velocity.columns[c]).len()
        == gradient.nrow by {
        assert(previous.columns[c].len() == gradient.nrow);
        assert(scaled.broadcast(c) == scaled.columns[c]);
    }
    assert forall|r: int, c: int|
        0 <= r < gradient.nrow && 0 <= c < gradient.ncol() implies #[trigger] velocity.at(r, c)
        == speed(momentum, gradient.at(r, c).product(rate), n) by {
        assert(previous.columns[c].len() == gradient.nrow);
        assert(gradient.columns[c].len() == gradient.nrow);
        assert(scaled.broadcast(c) == scaled.columns[c]);
        assert(steps.broadcast(c) == steps.columns[c]);
        assert(scaled.columns[c][r] == previous.at(r, c).product(momentum));
        assert(steps.columns[c][r] == gradient.at(r, c).product(rate));
    }
}

/// The momentum and the learning rate stay as they are while steps are taken.
pub proof fn lemma_settings_stay(
    state: MomentumView<Fixed>,
    gradient: MatrixView<Fixed>,
    n: nat,
)
    ensures
        after_steps(state, gradient, n).momentum == state.momentum,
        after_steps(state, gradient, n).learning_rate == state.learning_rate,
    decreases n,
{
    if n > 0 {
        lemma_settings_stay(state, gradient, (n - 1) as nat);
    }
}

/// Under a constant gradient and a constant learning rate, with a momentum between zero
/// and one, the velocity of momentum descent on fixed-point numbers grows towards the
/// learning rate times the gradient over one minus the momentum, and never past it: in
/// each entry whose step can be followed, the velocity of a step is not below the learning
/// rate times the gradient, nor below the velocity of the step before; and times one minus
/// the momentum, it is not above the learning rate times the gradient.
pub proof fn lemma_momentum_bound(
    momentum: Fixed,
    rate: Fixed,
    gradient: MatrixView<Fixed>,
    n: nat,
    r: int,
    c: int,
)
    requires
        gradient.wf(),
        n >= 1,
        0 <= r < gradient.nrow,
        0 <= c < gradient.ncol(),
        follows(momentum, gradient.at(r, c).product(rate)),
    ensures
        ({
            let start = MomentumView {
                momentum,
                learning_rate: LearningRateSchedule::Constant(rate),
                v: None,
            };
            let step = gradient.at(r, c).product(rate);
            let now = after_steps(start, gradient, n).v->0.at(r, c);
            let next = after_steps(start, gradient, n + 1).v->0.at(r, c);
            &&& step.units <= now.units <= next.units
            &&& now.units * (UNITS - momentum.units) <= step.units * UNITS
        }),
{
    let step = gradient.at(r, c).product(rate);
    lemma_velocity_entries(momentum, rate, gradient, n);
    lemma_velocity_entries(momentum, rate, gradient, n + 1);
    lemma_speed_grows(momentum, step, n);
    lemma_speed_grows(momentum, step, (n - 1) as nat);
}

} // verus!
