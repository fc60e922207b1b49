//! The fee schedule: a pure function from a tick count and fee bounds to the
//! ordered per-tick fee values.
//!
//! Both ends of the schedule hold `fee_max`. For an even tick count every
//! interior slot holds the same flat value; for an odd count the center holds
//! `fee_init` and the two interior halves rise away from it in equal steps,
//! each half accumulated on its own.

use vstd::prelude::*;
use vstd::arithmetic::div_mod::{
    lemma_fundamental_div_mod, lemma_mod_bound,
};

verus! {

/// The flat value every interior slot takes when the tick count is even.
pub open spec fn even_interior_fee(num_ticks: int, fee_max: int) -> int {
    fee_max / (1 + (num_ticks - 2) / 2)
}

/// The step by which the two interior halves of an odd schedule rise away
/// from the center: two successive truncating divisions, whose rounding
/// compounds.
pub open spec fn odd_fee_step(num_ticks: int, fee_init: int, fee_max: int) -> int {
    (fee_max - fee_init) / (num_ticks - 1) / 2
}

/// The fee at slot `i` of a schedule over `num_ticks` slots.
pub open spec fn fee_at(num_ticks: int, fee_init: int, fee_max: int, i: int) -> int {
    if i == 0 || i == num_ticks - 1 {
        fee_max
    } else if num_ticks % 2 == 0 {
        even_interior_fee(num_ticks, fee_max)
    } else {
        let middle = num_ticks / 2;
        let dist = if i >= middle { i - middle } else { middle - i };
        fee_init + dist * odd_fee_step(num_ticks, fee_init, fee_max)
    }
}

/// The arguments on which the schedule is defined: at least one tick, and for
/// an odd count above one (where the taper is computed) ordered fee bounds.
pub open spec fn schedule_args_ok(num_ticks: int, fee_init: int, fee_max: int) -> bool {
    &&& num_ticks >= 1
    &&& num_ticks % 2 == 1 && num_ticks > 1 ==> fee_init <= fee_max
}

/// The quotient of nonnegative by positive is nonnegative and multiplying it
/// back never exceeds the dividend.
pub proof fn lemma_div_pos_facts(x: int, d: int)
    requires
        x >= 0,
        d >= 1,
    ensures
        x / d >= 0,
        d * (x / d) <= x,
{
    lemma_fundamental_div_mod(x, d);
    lemma_mod_bound(x, d);
    if x / d < 0 {
        assert(d * (x / d) <= -d) by (nonlinear_arith)
            requires d >= 1, x / d <= -1;
    }
}

/// Walking at most `den` steps of the taper never carries the fee past
/// `fee_max`.
proof fn lemma_taper_bound(fee_init: int, fee_max: int, den: int, d: int)
    requires
        0 <= fee_init <= fee_max,
        1 <= den,
        0 <= d <= den,
    ensures
        0 <= fee_init + d * ((fee_max - fee_init) / den / 2) <= fee_max,
{
    let q1 = (fee_max - fee_init) / den;
    let q = q1 / 2;
    lemma_div_pos_facts(fee_max - fee_init, den);
    lemma_div_pos_facts(q1, 2);
    assert(0 <= d * q <= den * q1) by (nonlinear_arith)
        requires 0 <= d <= den, 0 <= q, 2 * q <= q1;
    assert(den * q1 <= fee_max - fee_init);
}

/// Every slot of a schedule lies between zero and `fee_max`: the two ends
/// hold `fee_max` itself and the interior never rises past it.
pub proof fn lemma_fee_at_in_range(num_ticks: int, fee_init: int, fee_max: int, i: int)
    requires
        schedule_args_ok(num_ticks, fee_init, fee_max),
        0 <= fee_init,
        0 <= fee_max,
        0 <= i < num_ticks,
    ensures
        0 <= fee_at(num_ticks, fee_init, fee_max, i) <= fee_max,
{
    if i == 0 || i == num_ticks - 1 {
    } else if num_ticks % 2 == 0 {
        lemma_div_pos_facts(fee_max, 1 + (num_ticks - 2) / 2);
        lemma_div_pos_facts(num_ticks - 2, 2);
        assert((1 + (num_ticks - 2) / 2) * (fee_max / (1 + (num_ticks - 2) / 2)) <= fee_max);
        assert(even_interior_fee(num_ticks, fee_max) <= fee_max) by (nonlinear_arith)
            requires
                1 + (num_ticks - 2) / 2 >= 1,
                even_interior_fee(num_ticks, fee_max) >= 0,
                (1 + (num_ticks - 2) / 2) * even_interior_fee(num_ticks, fee_max) <= fee_max;
    } else {
        let middle = num_ticks / 2;
        lemma_fundamental_div_mod(num_ticks, 2);
        lemma_mod_bound(num_ticks, 2);
        let dist = if i >= middle { i - middle } else { middle - i };
        assert(0 <= dist <= num_ticks - 1);
        lemma_taper_bound(fee_init, fee_max, num_ticks - 1, dist);
    }
}

/// Computes the fee schedule: `num_ticks` values, `fee_max` at both ends,
/// a flat interior for an even count, and for an odd count a taper rising
/// from `fee_init` at the center, accumulated separately over each half.
pub fn calc_fees_per_ticks(num_ticks: u32, fee_init: u32, fee_max: u32) -> (fees: Vec<u32>)
    requires
        schedule_args_ok(num_ticks as int, fee_init as int, fee_max as int),
    ensures
        fees@.len() == num_ticks as int,
        forall|i: int| 0 <= i < num_ticks as int
            ==> fees@[i] == fee_at(num_ticks as int, fee_init as int, fee_max as int, i),
{
    let n = num_ticks as usize;
    let mut fees: Vec<u32> = Vec::new();
    let mut k: usize = 0;
    while k < n
        invariant
            k <= n,
            fees@.len() == k as int,
        decreases n - k,
    {
        fees.push(0);
        k += 1;
    }
    fees.set(0, fee_max);
    fees.set(n - 1, fee_max);

    if num_ticks % 2 == 0 {
        let tick_fee = fee_max / (1 + (num_ticks - 2) / 2);
        assert(tick_fee == even_interior_fee(num_ticks as int, fee_max as int));
        let mut i: usize = 1;
        while i < n - 1
            invariant
                1 <= i <= n,
                n == num_ticks as int,
                n >= 2,
                fees@.len() == n as int,
                fees@[0] == fee_max,
                fees@[n - 1] == fee_max,
                tick_fee == even_interior_fee(num_ticks as int, fee_max as int),
                forall|j: int| 1 <= j < i as int ==> fees@[j] == tick_fee,
            decreases n - i,
        {
            fees.set(i, tick_fee);
            i += 1;
        }
    } else if num_ticks > 1 {
        let middle = (num_ticks / 2) as usize;
        proof {
            lemma_fundamental_div_mod(num_ticks as int, 2);
            lemma_mod_bound(num_ticks as int, 2);
        }
        assert(1 <= middle < n - 1);
        fees.set(middle, fee_init);
        let fee_inc = (fee_max - fee_init) / (num_ticks - 1) / 2;
        assert(fee_inc == odd_fee_step(num_ticks as int, fee_init as int, fee_max as int));

        let ghost gstep = odd_fee_step(num_ticks as int, fee_init as int, fee_max as int);
        let mut last_fee = fee_init;
        let mut i: usize = middle + 1;
        assert(i as int - 1 - middle as int == 0);
        while i < n - 1
            invariant
                (middle as int) + 1 <= (i as int) <= n - 1,
                n == num_ticks as int,
                num_ticks % 2 == 1,
                num_ticks > 1,
                fee_init <= fee_max,
                middle as int == num_ticks as int / 2,
                middle as int == (num_ticks as int - 1) / 2,
                1 <= middle < n - 1,
                fee_inc == gstep,
                gstep == odd_fee_step(num_ticks as int, fee_init as int, fee_max as int),
                fees@.len() == n as int,
                fees@[0] == fee_max,
                fees@[n - 1] == fee_max,
                fees@[middle as int] == fee_init,
                forall|j: int| (middle as int) < j < (i as int)
                    ==> fees@[j] == fee_init + (j - middle as int) * gstep,
                last_fee as int == fee_init + (i as int - 1 - middle as int) * gstep,
                last_fee <= fee_max,
            decreases n - i,
        {
            proof {
                lemma_taper_bound(
                    fee_init as int, fee_max as int, num_ticks as int - 1,
                    i as int - middle as int,
                );
                assert((i as int - middle as int) * gstep
                    == (i as int - 1 - middle as int) * gstep + gstep) by (nonlinear_arith);
            }
            let v = last_fee + fee_inc;
            fees.set(i, v);
            last_fee = v;
            i += 1;
        }

        let mut last_fee_down = fee_init;
        let mut i2: usize = middle;
        while i2 > 1
            invariant
                1 <= (i2 as int) <= (middle as int),
                n == num_ticks as int,
                num_ticks % 2 == 1,
                num_ticks > 1,
                fee_init <= fee_max,
                middle as int == num_ticks as int / 2,
                middle as int == (num_ticks as int - 1) / 2,
                1 <= middle < n - 1,
                fee_inc == gstep,
                gstep == odd_fee_step(num_ticks as int, fee_init as int, fee_max as int),
                fees@.len() == n as int,
                fees@[0] == fee_max,
                fees@[n - 1] == fee_max,
                fees@[middle as int] == fee_init,
                forall|j: int| (middle as int) < j < n - 1
                    ==> fees@[j] == fee_init + (j - middle as int) * gstep,
                forall|j: int| (i2 as int) <= j < (middle as int)
                    ==> fees@[j] == fee_init + (middle as int - j) * gstep,
                last_fee_down as int == fee_init + (middle as int - i2 as int) * gstep,
                last_fee_down <= fee_max,
            decreases i2,
        {
            proof {
                lemma_taper_bound(
                    fee_init as int, fee_max as int, num_ticks as int - 1,
                    middle as int - (i2 as int - 1),
                );
                assert((middle as int - (i2 as int - 1)) * gstep
                    == (middle as int - i2 as int) * gstep + gstep) by (nonlinear_arith);
            }
            i2 -= 1;
            let v = last_fee_down + fee_inc;
            fees.set(i2, v);
            last_fee_down = v;
        }
        assert forall|i: int| 0 <= i < num_ticks as int implies
            fees@[i] == fee_at(num_ticks as int, fee_init as int, fee_max as int, i)
        by {
            if i != 0 && i != num_ticks as int - 1 && i != middle as int {
                assert(fees@[i] == fee_init + (if i >= middle as int { i - middle as int } else { middle as int - i }) * gstep);
            }
        }
    }
    fees
}

/// Law: for every odd tick count of at least three, the schedule holds
/// `fee_max` at both ends and `fee_init` at its center.
pub proof fn lemma_odd_schedule_shape(num_ticks: int, fee_init: int, fee_max: int)
    requires
        num_ticks >= 3,
        num_ticks % 2 == 1,
    ensures
        fee_at(num_ticks, fee_init, fee_max, 0) == fee_max,
        fee_at(num_ticks, fee_init, fee_max, num_ticks - 1) == fee_max,
        fee_at(num_ticks, fee_init, fee_max, num_ticks / 2) == fee_init,
{
    lemma_fundamental_div_mod(num_ticks, 2);
    lemma_mod_bound(num_ticks, 2);
}

/// Law: for every even tick count of at least two, every interior slot holds
/// the one flat value `fee_max / (1 + (num_ticks - 2) / 2)`.
pub proof fn lemma_even_schedule_flat(num_ticks: int, fee_init: int, fee_max: int, i: int)
    requires
        num_ticks >= 2,
        num_ticks % 2 == 0,
        0 < i < num_ticks - 1,
    ensures
        fee_at(num_ticks, fee_init, fee_max, i) == fee_max / (1 + (num_ticks - 2) / 2),
{
}

/// Law: every schedule holds `fee_max` at both of its ends.
pub proof fn lemma_schedule_endpoints(num_ticks: int, fee_init: int, fee_max: int)
    requires
        num_ticks >= 1,
    ensures
        fee_at(num_ticks, fee_init, fee_max, 0) == fee_max,
        fee_at(num_ticks, fee_init, fee_max, num_ticks - 1) == fee_max,
{
}

/// Law: a single-tick schedule holds `fee_max` alone, whatever `fee_init` is.
pub proof fn lemma_single_tick_schedule(fee_init: int, fee_max: int)
    ensures
        fee_at(1, fee_init, fee_max, 0) == fee_max,
{
}

/// Law: the schedule is a pure function of its arguments; two sequences that
/// both satisfy its defining clauses for the same arguments are the same.
pub proof fn lemma_schedule_deterministic(
    a: Seq<u32>, b: Seq<u32>, num_ticks: u32, fee_init: u32, fee_max: u32,
)
    requires
        a.len() == num_ticks as int,
        b.len() == num_ticks as int,
        forall|i: int| 0 <= i < num_ticks as int
            ==> a[i] == fee_at(num_ticks as int, fee_init as int, fee_max as int, i),
        forall|i: int| 0 <= i < num_ticks as int
            ==> b[i] == fee_at(num_ticks as int, fee_init as int, fee_max as int, i),
    ensures
        a == b,
{
    assert(a =~= b);
}

} // verus!
