//! The advance distributor: a pure mixed-radix decomposition of one tick
//! value into per-horse increments.

use vstd::prelude::*;

verus! {

/// The running remainder once the first `i` horses have consumed their
/// digits of `tick` in base `radix`: `tick` divided by `radix`, `i` times.
pub open spec fn remaining_after(tick: nat, radix: nat, i: nat) -> nat
    decreases i,
{
    if i == 0 {
        tick
    } else {
        remaining_after(tick, radix, (i - 1) as nat) / radix
    }
}

/// The increment handed to the horse at index `i` when `tick` is
/// distributed in base `radix`: the `i`-th base-`radix` digit of `tick`,
/// shifted up by one so that every horse moves on every tick.
pub open spec fn increment_at(tick: nat, radix: nat, i: nat) -> nat
    decreases i,
{
    if i == 0 {
        tick % radix + 1
    } else {
        increment_at(tick / radix, radix, (i - 1) as nat)
    }
}

/// The whole distribution of `tick` over `n` horses, in index order.
pub open spec fn spec_distribute(tick: nat, radix: nat, n: nat) -> Seq<nat> {
    Seq::new(n, |i: int| increment_at(tick, radix, i as nat))
}

/// Dividing first and then taking `i` remainders is taking `i + 1`
/// remainders: the remainder chain commutes with one division step.
proof fn lemma_remaining_shift(tick: nat, radix: nat, i: nat)
    requires
        radix >= 1,
    ensures
        remaining_after(tick / radix, radix, i) == remaining_after(tick, radix, (i + 1) as nat),
    decreases i,
{
    if i == 0 {
        assert(remaining_after(tick, radix, 1) == remaining_after(tick, radix, 0) / radix);
    } else {
        lemma_remaining_shift(tick, radix, (i - 1) as nat);
        assert(remaining_after(tick / radix, radix, i) == remaining_after(
            tick / radix,
            radix,
            (i - 1) as nat,
        ) / radix);
    }
}

/// The digit a horse receives is the low digit of the remainder left for it.
proof fn lemma_increment_via_remaining(tick: nat, radix: nat, i: nat)
    requires
        radix >= 1,
    ensures
        increment_at(tick, radix, i) == remaining_after(tick, radix, i) % radix + 1,
    decreases i,
{
    if i == 0 {
    } else {
        lemma_increment_via_remaining(tick / radix, radix, (i - 1) as nat);
        lemma_remaining_shift(tick, radix, (i - 1) as nat);
    }
}

/// Distribution bounds: with radix at least two, every increment lies in
/// `[1, radix]`, whatever the tick and whatever the horse index.
pub proof fn lemma_increment_bounds(tick: nat, radix: nat, i: nat)
    requires
        radix >= 2,
    ensures
        1 <= increment_at(tick, radix, i) <= radix,
    decreases i,
{
    if i == 0 {
        assert(tick % radix < radix);
    } else {
        lemma_increment_bounds(tick / radix, radix, (i - 1) as nat);
    }
}

/// Distribution on a zero tick: every horse receives exactly one, for any
/// radix, because every digit of zero is zero.
pub proof fn lemma_increment_zero_tick(radix: nat, i: nat)
    requires
        radix >= 1,
    ensures
        increment_at(0, radix, i) == 1,
    decreases i,
{
    if i == 0 {
        assert(0nat % radix == 0);
    } else {
        assert(0nat / radix == 0);
        lemma_increment_zero_tick(radix, (i - 1) as nat);
    }
}

/// A zero tick distributed over `n` horses is `n` increments of one:
/// the distribution is exhausted before it starts, and the shift keeps
/// every horse moving.
pub proof fn lemma_distribute_zero_tick(radix: nat, n: nat)
    requires
        radix >= 1,
    ensures
        forall|i: int| 0 <= i < n ==> #[trigger] spec_distribute(0, radix, n)[i] == 1,
{
    assert forall|i: int| 0 <= i < n implies #[trigger] spec_distribute(0, radix, n)[i] == 1 by {
        lemma_increment_zero_tick(radix, i as nat);
    }
}

/// Distribution determinism: the distribution is a pure function of tick,
/// radix and horse count, so any two sequences that both match it are the
/// same sequence.
pub proof fn lemma_distribute_deterministic(a: Seq<nat>, b: Seq<nat>, tick: nat, radix: nat, n: nat)
    requires
        a == spec_distribute(tick, radix, n),
        b == spec_distribute(tick, radix, n),
    ensures
        a == b,
{
}

/// The advance of the horse at index `i` after a whole sequence of ticks,
/// starting from `start`: each tick adds exactly that horse's increment.
pub open spec fn advance_after(start: nat, ticks: Seq<nat>, radix: nat, i: nat) -> nat
    decreases ticks.len(),
{
    if ticks.len() == 0 {
        start
    } else {
        advance_after(start + increment_at(ticks[0], radix, i), ticks.drop_first(), radix, i)
    }
}

/// Monotonic advance: across any sequence of ticks a horse's advance never
/// decreases — each tick contributes exactly one increment, and every
/// increment is at least one, so the advance grows by at least one per tick.
pub proof fn lemma_advance_monotonic(start: nat, ticks: Seq<nat>, radix: nat, i: nat)
    requires
        radix >= 2,
    ensures
        advance_after(start, ticks, radix, i) >= start + ticks.len(),
    decreases ticks.len(),
{
    if ticks.len() == 0 {
    } else {
        lemma_increment_bounds(ticks[0], radix, i);
        lemma_advance_monotonic(
            start + increment_at(ticks[0], radix, i),
            ticks.drop_first(),
            radix,
            i,
        );
    }
}

/// Splits `tick_by` into `n` per-horse increments: horse `i` receives the
/// `i`-th base-`max_advance` digit of `tick_by`, plus one.
pub fn distribute(tick_by: u128, max_advance: u128, n: usize) -> (incs: Vec<u32>)
    requires
        2 <= max_advance <= u32::MAX as u128,
    ensures
        incs@.len() == n as nat,
        forall|i: int|
            0 <= i < n ==> incs@[i] as nat == increment_at(
                tick_by as nat,
                max_advance as nat,
                i as nat,
            ),
        forall|i: int| 0 <= i < n ==> 1 <= (#[trigger] incs@[i]) as u128 <= max_advance,
{
    let mut incs: Vec<u32> = Vec::new();
    let mut remaining: u128 = tick_by;
    let mut i: usize = 0;
    while i < n
        invariant
            i <= n,
            2 <= max_advance <= u32::MAX as u128,
            incs@.len() == i as nat,
            remaining as nat == remaining_after(tick_by as nat, max_advance as nat, i as nat),
            forall|k: int|
                0 <= k < i ==> incs@[k] as nat == increment_at(
                    tick_by as nat,
                    max_advance as nat,
                    k as nat,
                ),
        decreases n - i,
    {
        let digit: u128 = remaining % max_advance;
        assert(digit < max_advance);
        let inc: u32 = (digit + 1) as u32;
        proof {
            lemma_increment_via_remaining(tick_by as nat, max_advance as nat, i as nat);
        }
        incs.push(inc);
        remaining = remaining / max_advance;
        i += 1;
    }
    proof {
        assert forall|k: int| 0 <= k < n implies 1 <= (#[trigger] incs@[k]) as u128
            <= max_advance by {
            lemma_increment_bounds(tick_by as nat, max_advance as nat, k as nat);
        }
    }
    incs
}

} // verus!

