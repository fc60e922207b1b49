//! The fee manager: per-(pool, tick) records, a lookup, and the update path
//! that distributes liquidity over a tick range and recomputes each visited
//! tick's fee from the fee schedule.

use vstd::prelude::*;
use vstd::arithmetic::div_mod::{
    lemma_div_is_ordered, lemma_div_is_ordered_by_denominator, lemma_div_multiples_vanish,
    lemma_fundamental_div_mod_converse,
};
use crate::ceil_div;
use crate::records::{
    distinct_keys, lemma_ticks_map_contains, lemma_ticks_map_index, lemma_ticks_map_push,
    lemma_ticks_map_update, rec_key, rec_val, stored_fee, stored_liq, ticks_map, FeeError,
    PoolId, TickInfo,
};
use crate::schedule::{calc_fees_per_ticks, fee_at, lemma_div_pos_facts, lemma_fee_at_in_range, schedule_args_ok};
use crate::uint256::{
    u256_add, u256_div_ceil, u256_from_u128, u256_from_u32, u256_mul,
    u256_try_to_u128, u256_try_to_u32, u256_val,
};

verus! {

/// The arguments of one update call, as mathematical integers, with the
/// quantities the update derives from them.
pub struct UpdateRequest {
    pub pool_id: PoolId,
    pub liquidity: int,
    pub tick_lower: int,
    pub tick_upper: int,
    pub spacing: int,
    pub fee_init: int,
    pub fee_max: int,
}

impl UpdateRequest {
    /// The dense tick count of the range, ends included.
    pub open spec fn num_ticks(self) -> int {
        self.tick_upper - self.tick_lower + 1
    }

    /// The equal liquidity share each tick receives; the remainder is
    /// dropped.
    pub open spec fn lpt(self) -> int {
        self.liquidity / self.num_ticks()
    }

    /// How many tick positions the update visits.
    pub open spec fn count(self) -> int {
        (self.num_ticks() - 1) / self.spacing + 1
    }

    /// The tick position of the `j`-th visit.
    pub open spec fn tick_at(self, j: int) -> int {
        self.tick_lower + j * self.spacing
    }

    /// The tick count is positive and fits a 32-bit count.
    pub open spec fn range_ok(self) -> bool {
        0 < self.num_ticks() <= i32::MAX as int
    }

    /// The fee bounds are ordered wherever the schedule's taper needs them.
    pub open spec fn bounds_ok(self) -> bool {
        !(self.num_ticks() % 2 == 1 && self.num_ticks() > 1 && self.fee_init > self.fee_max)
    }

    /// No validation error: the update reaches its loop.
    pub open spec fn valid(self) -> bool {
        self.range_ok() && self.spacing >= 1 && self.bounds_ok()
    }

    /// The schedule fee walked at the `j`-th visit.
    pub open spec fn fee_j(self, j: int) -> int {
        fee_at(self.num_ticks(), self.fee_init, self.fee_max, j)
    }

    /// The liquidity stored before the call at the `j`-th visited tick.
    pub open spec fn cur_liq(self, m0: Map<(PoolId, int), (u128, u32)>, j: int) -> int {
        stored_liq(m0, self.pool_id, self.tick_at(j)) as int
    }

    /// The liquidity the `j`-th visited tick holds after its write.
    pub open spec fn new_liq(self, m0: Map<(PoolId, int), (u128, u32)>, j: int) -> int {
        self.cur_liq(m0, j) + self.lpt()
    }

    /// The fee computed for the `j`-th visited tick, before the cap.
    pub open spec fn fee_raw(self, m0: Map<(PoolId, int), (u128, u32)>, j: int) -> int {
        ceil_div(self.fee_j(j) * self.cur_liq(m0, j) + self.fee_max * self.lpt(), 10000)
    }

    /// The fee the `j`-th visited tick holds after its write: the computed
    /// fee, capped at `fee_max`.
    pub open spec fn new_fee(self, m0: Map<(PoolId, int), (u128, u32)>, j: int) -> int {
        if self.fee_raw(m0, j) > self.fee_max {
            self.fee_max
        } else {
            self.fee_raw(m0, j)
        }
    }

    /// The `j`-th visit writes values that fit their fields.
    pub open spec fn tick_ok(self, m0: Map<(PoolId, int), (u128, u32)>, j: int) -> bool {
        self.fee_raw(m0, j) <= u32::MAX as int && self.new_liq(m0, j) <= u128::MAX as int
    }

    /// The first `j` visits all fit.
    pub open spec fn prefix_ok(self, m0: Map<(PoolId, int), (u128, u32)>, j: int) -> bool {
        forall|jj: int| 0 <= jj < j ==> #[trigger] self.tick_ok(m0, jj)
    }

    /// `k` is one of the first `j` visited keys.
    pub open spec fn visits_key(self, k: (PoolId, int), j: int) -> bool {
        k.0 == self.pool_id && exists|jj: int| 0 <= jj < j && k.1 == #[trigger] self.tick_at(jj)
    }

    /// `m1` is `m0` with the first `j` visits written: each visited tick
    /// carries its new liquidity and capped fee, every other key is
    /// untouched.
    pub open spec fn written_to(
        self,
        m0: Map<(PoolId, int), (u128, u32)>,
        m1: Map<(PoolId, int), (u128, u32)>,
        j: int,
    ) -> bool {
        &&& forall|jj: int| 0 <= jj < j ==> {
            &&& m1.contains_key((self.pool_id, #[trigger] self.tick_at(jj)))
            &&& m1[(self.pool_id, self.tick_at(jj))]
                == (self.new_liq(m0, jj) as u128, self.new_fee(m0, jj) as u32)
        }
        &&& forall|k: (PoolId, int)| !self.visits_key(k, j) ==> {
            &&& (#[trigger] m1.contains_key(k) <==> m0.contains_key(k))
            &&& (m0.contains_key(k) ==> m1[k] == m0[k])
        }
    }
}

/// What an update call did: every validation error exactly when its
/// condition holds and then no change; otherwise success exactly when every
/// visit fits its fields, the fitting prefix written, and on an overflow the
/// error that names the field that did not fit.
pub open spec fn update_post(
    q: UpdateRequest,
    m0: Map<(PoolId, int), (u128, u32)>,
    m1: Map<(PoolId, int), (u128, u32)>,
    r: Result<(), FeeError>,
) -> bool {
    &&& (r == Result::<(), FeeError>::Err(FeeError::InvalidTickRange) <==> !q.range_ok())
    &&& (r == Result::<(), FeeError>::Err(FeeError::InvalidTickSpacing)
        <==> q.range_ok() && q.spacing == 0)
    &&& (r == Result::<(), FeeError>::Err(FeeError::InvalidFeeBounds)
        <==> q.range_ok() && q.spacing >= 1 && !q.bounds_ok())
    &&& (!q.valid() ==> m1 == m0)
    &&& (q.valid() ==> {
        &&& (r is Ok <==> q.prefix_ok(m0, q.count()))
        &&& (r is Ok ==> q.written_to(m0, m1, q.count()))
        &&& (r is Err ==> exists|jf: int|
            0 <= jf < q.count()
            && q.prefix_ok(m0, jf)
            && !(#[trigger] q.tick_ok(m0, jf))
            && q.written_to(m0, m1, jf)
            && r == (if q.fee_raw(m0, jf) > u32::MAX as int {
                Result::<(), FeeError>::Err(FeeError::FeeOverflow)
            } else {
                Result::<(), FeeError>::Err(FeeError::LiquidityOverflow)
            }))
    })
}

/// Visits at distinct indices land on distinct ticks, in increasing order.
proof fn lemma_tick_at_strict(q: UpdateRequest, a: int, b: int)
    requires
        q.spacing >= 1,
        a < b,
    ensures
        q.tick_at(a) < q.tick_at(b),
{
    assert(a * q.spacing < b * q.spacing) by (nonlinear_arith)
        requires a < b, q.spacing >= 1;
}

/// When the loop stops after `j` visits, `j` is exactly the visit count.
proof fn lemma_exit_count(nt: int, s: int, j: int)
    requires
        s >= 1,
        j >= 1,
        (j - 1) * s <= nt - 1,
        nt - 1 < j * s,
    ensures
        (nt - 1) / s + 1 == j,
{
    let r = (nt - 1) - (j - 1) * s;
    assert(j * s == (j - 1) * s + s) by (nonlinear_arith);
    lemma_fundamental_div_mod_converse(nt - 1, s, j - 1, r);
}

/// The public surface: a lookup of a tick's fee, the fee schedule itself,
/// and the update that distributes liquidity and rewrites fees over a tick
/// range.
pub trait IFeeManager: Sized {
    /// The store keeps at most one record per (pool, tick) key.
    spec fn wf(&self) -> bool;

    /// The stored records, as a map from (pool, tick) to (liquidity, fee).
    spec fn tick_map(&self) -> Map<(PoolId, int), (u128, u32)>;

    /// Distributes `liquidity` evenly over the dense range
    /// `[tick_lower, tick_upper]`, then walks the range by `tick_spacing`,
    /// pairing the `j`-th visited tick with slot `j` of the fee schedule —
    /// the schedule is as long as the dense range, so a sparse walk uses its
    /// leading slots — and writes each visited tick's record. Each write is
    /// final: a later overflow keeps the writes made before it.
    fn update_fee_per_tick(
        &mut self,
        pool_id: PoolId,
        liquidity: u128,
        tick_lower: i32,
        tick_upper: i32,
        tick_spacing: u32,
        fee_init: u32,
        fee_max: u32,
    ) -> (r: Result<(), FeeError>)
        requires
            old(self).wf(),
        ensures
            final(self).wf(),
            update_post(
                (UpdateRequest {
                    pool_id,
                    liquidity: liquidity as int,
                    tick_lower: tick_lower as int,
                    tick_upper: tick_upper as int,
                    spacing: tick_spacing as int,
                    fee_init: fee_init as int,
                    fee_max: fee_max as int,
                }),
                old(self).tick_map(),
                final(self).tick_map(),
                r,
            ),
    ;

    /// The fee stored for `(pool_id, tick)`, zero where no record exists.
    fn get_fee(&self, pool_id: PoolId, tick: i32) -> (r: u32)
        requires
            self.wf(),
        ensures
            r == stored_fee(self.tick_map(), pool_id, tick as int),
    ;

    /// The fee schedule itself, touching no storage.
    fn get_fees(&self, num_ticks: u32, fee_init: u32, fee_max: u32) -> (r: Vec<u32>)
        requires
            schedule_args_ok(num_ticks as int, fee_init as int, fee_max as int),
        ensures
            r@.len() == num_ticks as int,
            forall|i: int| 0 <= i < num_ticks as int
                ==> r@[i] == fee_at(num_ticks as int, fee_init as int, fee_max as int, i),
    ;
}

/// Law: a successful update writes a record for every visited tick: the
/// `j`-th visit, at tick `tick_lower + j * spacing`, is present in the store
/// afterward.
pub proof fn lemma_update_creates_records(
    q: UpdateRequest,
    m0: Map<(PoolId, int), (u128, u32)>,
    m1: Map<(PoolId, int), (u128, u32)>,
    r: Result<(), FeeError>,
)
    requires
        update_post(q, m0, m1, r),
        q.valid(),
        r is Ok,
    ensures
        forall|j: int| 0 <= j < q.count() ==> m1.contains_key((q.pool_id, #[trigger] q.tick_at(j))),
{
}

/// Law: no fee written by a successful update exceeds `fee_max`; a computed
/// fee above the bound is written as `fee_max` itself.
pub proof fn lemma_update_fee_capped(
    q: UpdateRequest,
    m0: Map<(PoolId, int), (u128, u32)>,
    m1: Map<(PoolId, int), (u128, u32)>,
    r: Result<(), FeeError>,
    j: int,
)
    requires
        update_post(q, m0, m1, r),
        q.valid(),
        r is Ok,
        0 <= j < q.count(),
        0 <= q.liquidity,
        0 <= q.fee_init,
        0 <= q.fee_max,
    ensures
        m1[(q.pool_id, q.tick_at(j))].1 <= q.fee_max,
{
    lemma_div_is_ordered_by_denominator(q.num_ticks() - 1, 1, q.spacing);
    assert(j < q.num_ticks());
    lemma_fee_at_in_range(q.num_ticks(), q.fee_init, q.fee_max, j);
    lemma_div_pos_facts(q.liquidity, q.num_ticks());
    assert(q.fee_j(j) * q.cur_liq(m0, j) >= 0) by (nonlinear_arith)
        requires q.fee_j(j) >= 0, q.cur_liq(m0, j) >= 0;
    assert(q.fee_max * q.lpt() >= 0) by (nonlinear_arith)
        requires q.fee_max >= 0, q.lpt() >= 0;
    assert(q.fee_raw(m0, j) >= 0) by {
        lemma_div_pos_facts(
            q.fee_j(j) * q.cur_liq(m0, j) + q.fee_max * q.lpt() + 10000 - 1,
            10000,
        );
    }
    assert(q.tick_ok(m0, j));
    assert(m1[(q.pool_id, q.tick_at(j))] == (q.new_liq(m0, j) as u128, q.new_fee(m0, j) as u32));
}

/// The fee manager's store: one record per (pool, tick) ever written.
pub struct FeeManager {
    ticks: Vec<TickInfo>,
}

impl FeeManager {
    /// An empty store.
    pub fn new() -> (r: FeeManager)
        ensures
            r.wf(),
            r.tick_map() == Map::<(PoolId, int), (u128, u32)>::empty(),
    {
        FeeManager { ticks: Vec::new() }
    }

    /// The position of the record keyed by `(pool_id, tick)`, if any.
    fn find_index(&self, pool_id: PoolId, tick: i32) -> (r: Option<usize>)
        requires
            self.wf(),
        ensures
            match r {
                Option::Some(i) => i < self.ticks@.len()
                    && rec_key(self.ticks@[i as int]) == (pool_id, tick as int),
                Option::None => !self.tick_map().contains_key((pool_id, tick as int)),
            },
    {
        let mut i: usize = 0;
        while i < self.ticks.len()
            invariant
                i <= self.ticks@.len(),
                forall|j: int| 0 <= j < i as int
                    ==> rec_key(#[trigger] self.ticks@[j]) != (pool_id, tick as int),
            decreases self.ticks@.len() - i as int,
        {
            let r = &self.ticks[i];
            if r.pool_id == pool_id && r.tick == tick {
                return Option::Some(i);
            }
            i += 1;
        }
        proof {
            lemma_ticks_map_contains(self.ticks@, (pool_id, tick as int));
        }
        Option::None
    }

    /// The liquidity stored for `(pool_id, tick)`, zero where no record
    /// exists.
    fn stored_liquidity(&self, pool_id: PoolId, tick: i32) -> (r: u128)
        requires
            self.wf(),
        ensures
            r == stored_liq(self.tick_map(), pool_id, tick as int),
    {
        match self.find_index(pool_id, tick) {
            Option::Some(i) => {
                proof {
                    lemma_ticks_map_index(self.ticks@, i as int);
                }
                self.ticks[i].liquidity
            }
            Option::None => 0,
        }
    }

    /// Writes `rec` under its key, overwriting any record already there.
    fn put_record(&mut self, rec: TickInfo)
        requires
            old(self).wf(),
        ensures
            final(self).wf(),
            final(self).tick_map() == old(self).tick_map().insert(rec_key(rec), rec_val(rec)),
    {
        match self.find_index(rec.pool_id, rec.tick) {
            Option::Some(i) => {
                proof {
                    lemma_ticks_map_update(self.ticks@, i as int, rec);
                }
                self.ticks.set(i, rec);
            }
            Option::None => {
                proof {
                    lemma_ticks_map_contains(self.ticks@, rec_key(rec));
                    lemma_ticks_map_push(self.ticks@, rec);
                }
                self.ticks.push(rec);
            }
        }
    }
}

impl IFeeManager for FeeManager {
    closed spec fn wf(&self) -> bool {
        distinct_keys(self.ticks@)
    }

    closed spec fn tick_map(&self) -> Map<(PoolId, int), (u128, u32)> {
        ticks_map(self.ticks@)
    }

    #[verifier::loop_isolation(false)]
    fn update_fee_per_tick(
        &mut self,
        pool_id: PoolId,
        liquidity: u128,
        tick_lower: i32,
        tick_upper: i32,
        tick_spacing: u32,
        fee_init: u32,
        fee_max: u32,
    ) -> (r: Result<(), FeeError>)
    {
        let ghost q = (UpdateRequest {
            pool_id,
            liquidity: liquidity as int,
            tick_lower: tick_lower as int,
            tick_upper: tick_upper as int,
            spacing: tick_spacing as int,
            fee_init: fee_init as int,
            fee_max: fee_max as int,
        });
        let nt_wide: i64 = tick_upper as i64 - tick_lower as i64 + 1;
        if nt_wide <= 0 || nt_wide > i32::MAX as i64 {
            return Result::Err(FeeError::InvalidTickRange);
        }
        if tick_spacing == 0 {
            return Result::Err(FeeError::InvalidTickSpacing);
        }
        let num_ticks: u32 = nt_wide as u32;
        if num_ticks % 2 == 1 && num_ticks > 1 && fee_init > fee_max {
            return Result::Err(FeeError::InvalidFeeBounds);
        }
        assert(q.valid());
        assert(num_ticks as int == q.num_ticks());

        let ghost m0 = self.tick_map();

        let liq_per_tick: u128 = liquidity / (num_ticks as u128);
        assert(liq_per_tick as int == q.lpt());
        let fees = calc_fees_per_ticks(num_ticks, fee_init, fee_max);

        let fm256 = u256_from_u32(fee_max);
        let lpt256 = u256_from_u128(liq_per_tick);
        proof {
            assert(fee_max as int * liq_per_tick as int
                <= u32::MAX as int * u128::MAX as int) by (nonlinear_arith)
                requires
                    0 <= fee_max as int <= u32::MAX as int,
                    0 <= liq_per_tick as int <= u128::MAX as int;
        }
        let fm_times_lpt = u256_mul(fm256, lpt256);

        let mut j: usize = 0;
        let mut cur_tick: i64 = tick_lower as i64;
        while cur_tick <= tick_upper as i64
            invariant
                self.wf(),
                q.written_to(m0, self.tick_map(), j as int),
                q.prefix_ok(m0, j as int),
                cur_tick as int == q.tick_at(j as int),
                j as int <= q.num_ticks(),
                j as int == 0 || q.tick_at(j as int - 1) <= q.tick_upper,
            decreases q.tick_upper + q.spacing - cur_tick as int,
        {
            proof {
                assert(j as int * q.spacing >= 0 && j as int <= j as int * q.spacing)
                    by (nonlinear_arith)
                    requires j as int >= 0, q.spacing >= 1;
                assert(j as int <= q.num_ticks() - 1);
                assert forall|jj: int| 0 <= jj < j as int
                    implies q.tick_at(jj) != q.tick_at(j as int) by {
                    lemma_tick_at_strict(q, jj, j as int);
                }
                assert(!q.visits_key((q.pool_id, q.tick_at(j as int)), j as int));
            }
            let f_j: u32 = fees[j];
            let tick_i32: i32 = cur_tick as i32;
            let cur_liq: u128 = self.stored_liquidity(pool_id, tick_i32);
            assert(cur_liq as int == q.cur_liq(m0, j as int));
            proof {
                assert(f_j as int * cur_liq as int <= u32::MAX as int * u128::MAX as int)
                    by (nonlinear_arith)
                    requires
                        0 <= f_j as int <= u32::MAX as int,
                        0 <= cur_liq as int <= u128::MAX as int;
            }
            let prod = u256_mul(u256_from_u32(f_j), u256_from_u128(cur_liq));
            let sum = u256_add(prod, fm_times_lpt);
            let fee_calc = u256_div_ceil(sum, u256_from_u32(10_000));
            assert(u256_val(fee_calc) == q.fee_raw(m0, j as int));
            match u256_try_to_u32(fee_calc) {
                Option::None => {
                    proof {
                        assert(!q.tick_ok(m0, j as int));
                        assert((j as int) < q.count()) by {
                            lemma_div_multiples_vanish(j as int, q.spacing);
                            lemma_div_is_ordered(
                                j as int * q.spacing, q.num_ticks() - 1, q.spacing,
                            );
                        }
                        assert(!q.prefix_ok(m0, q.count()));
                    }
                    return Result::Err(FeeError::FeeOverflow);
                }
                Option::Some(fc) => {
                    let fee_new: u32 = if fc < fee_max { fc } else { fee_max };
                    assert(fee_new as int == q.new_fee(m0, j as int));
                    let new_liq256 = u256_add(u256_from_u128(cur_liq), lpt256);
                    match u256_try_to_u128(new_liq256) {
                        Option::None => {
                            proof {
                                assert(!q.tick_ok(m0, j as int));
                                assert((j as int) < q.count()) by {
                                    lemma_div_multiples_vanish(j as int, q.spacing);
                                    lemma_div_is_ordered(
                                        j as int * q.spacing, q.num_ticks() - 1, q.spacing,
                                    );
                                }
                                assert(!q.prefix_ok(m0, q.count()));
                            }
                            return Result::Err(FeeError::LiquidityOverflow);
                        }
                        Option::Some(nl) => {
                            assert(nl as int == q.new_liq(m0, j as int));
                            let ghost m_before = self.tick_map();
                            self.put_record(TickInfo {
                                pool_id,
                                tick: tick_i32,
                                liquidity: nl,
                                fee: fee_new,
                            });
                            proof {
                                let mj = self.tick_map();
                                let keyj = (q.pool_id, q.tick_at(j as int));
                                assert(mj == m_before.insert(
                                    keyj,
                                    (q.new_liq(m0, j as int) as u128,
                                        q.new_fee(m0, j as int) as u32),
                                ));
                                assert forall|jj: int| 0 <= jj < j as int + 1 implies
                                    mj.contains_key((q.pool_id, #[trigger] q.tick_at(jj)))
                                    && mj[(q.pool_id, q.tick_at(jj))]
                                        == (q.new_liq(m0, jj) as u128,
                                            q.new_fee(m0, jj) as u32) by {
                                    if jj < j as int {
                                        assert(q.tick_at(jj) != q.tick_at(j as int));
                                        assert(m_before.contains_key(
                                            (q.pool_id, q.tick_at(jj))));
                                    }
                                }
                                assert forall|k: (PoolId, int)|
                                    !q.visits_key(k, j as int + 1)
                                    implies (mj.contains_key(k) <==> m0.contains_key(k))
                                        && (m0.contains_key(k) ==> mj[k] == m0[k]) by {
                                    if q.visits_key(k, j as int) {
                                        let jj = choose|jj: int|
                                            0 <= jj < j as int
                                            && k.1 == #[trigger] q.tick_at(jj);
                                        assert(0 <= jj < j as int + 1
                                            && k.1 == q.tick_at(jj));
                                    }
                                    if k == keyj {
                                        assert(0 <= (j as int) < (j as int) + 1
                                            && k.1 == q.tick_at(j as int));
                                        assert(q.visits_key(k, j as int + 1));
                                    }
                                    assert(!q.visits_key(k, j as int));
                                    assert(m_before.contains_key(k) <==> m0.contains_key(k));
                                }
                                assert(q.written_to(m0, mj, j as int + 1));
                            }
                        }
                    }
                }
            }
            j += 1;
            cur_tick = cur_tick + tick_spacing as i64;
            proof {
                assert((j as int) * q.spacing == (j as int - 1) * q.spacing + q.spacing)
                    by (nonlinear_arith);
            }
        }
        proof {
            if j == 0 {
                assert(q.tick_at(0) == q.tick_lower);
                assert(false);
            }
            assert((j as int - 1) * q.spacing <= q.num_ticks() - 1
                && q.num_ticks() - 1 < j as int * q.spacing);
            lemma_exit_count(q.num_ticks(), q.spacing, j as int);
            assert(q.count() == j as int);
        }
        Result::Ok(())
    }

    fn get_fee(&self, pool_id: PoolId, tick: i32) -> (r: u32)
    {
        match self.find_index(pool_id, tick) {
            Option::Some(i) => {
                proof {
                    lemma_ticks_map_index(self.ticks@, i as int);
                }
                self.ticks[i].fee
            }
            Option::None => 0,
        }
    }

    fn get_fees(&self, num_ticks: u32, fee_init: u32, fee_max: u32) -> (r: Vec<u32>)
    {
        calc_fees_per_ticks(num_ticks, fee_init, fee_max)
    }
}

} // verus!
