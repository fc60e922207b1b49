//! Tick records and their mathematical model.
//!
//! The store keeps one record per (pool, tick) pair ever written. Its model
//! is a map from those pairs to the stored (liquidity, fee) values, built
//! from the sequence of records.

use vstd::prelude::*;

verus! {

/// A 256-bit pool identifier, held as four 64-bit words, least significant
/// first.
#[derive(Clone, Copy, Debug, PartialEq, Eq, Structural)]
pub struct PoolId {
    pub w0: u64,
    pub w1: u64,
    pub w2: u64,
    pub w3: u64,
}

/// One stored record: the pool and tick it is keyed by, the liquidity
/// accumulated at that tick, and the fee last computed for it.
#[derive(Clone, Copy, Debug, PartialEq, Eq, Structural)]
pub struct TickInfo {
    pub pool_id: PoolId,
    pub tick: i32,
    pub liquidity: u128,
    pub fee: u32,
}

/// Why an update was refused, or stopped partway.
#[derive(Clone, Copy, Debug, PartialEq, Eq, Structural)]
pub enum FeeError {
    /// The tick range is empty, or too wide for a 32-bit tick count.
    InvalidTickRange,
    /// The tick spacing is zero.
    InvalidTickSpacing,
    /// An odd tick count above one asks for a taper, but `fee_init` exceeds
    /// `fee_max`.
    InvalidFeeBounds,
    /// A computed fee does not fit in 32 bits.
    FeeOverflow,
    /// A tick's accumulated liquidity does not fit in 128 bits.
    LiquidityOverflow,
}

/// The key a record is stored under.
pub open spec fn rec_key(r: TickInfo) -> (PoolId, int) {
    (r.pool_id, r.tick as int)
}

/// The value a record stores.
pub open spec fn rec_val(r: TickInfo) -> (u128, u32) {
    (r.liquidity, r.fee)
}

/// The map modelled by a sequence of records; a later record with the same
/// key overrides an earlier one.
pub open spec fn ticks_map(s: Seq<TickInfo>) -> Map<(PoolId, int), (u128, u32)>
    decreases s.len(),
{
    if s.len() == 0 {
        Map::empty()
    } else {
        ticks_map(s.drop_last()).insert(rec_key(s.last()), rec_val(s.last()))
    }
}

/// No two records of the sequence share a key.
pub open spec fn distinct_keys(s: Seq<TickInfo>) -> bool {
    forall|i: int, j: int| 0 <= i < j < s.len() ==> rec_key(s[i]) != rec_key(s[j])
}

/// The liquidity stored under a key, zero where no record exists.
pub open spec fn stored_liq(m: Map<(PoolId, int), (u128, u32)>, pool_id: PoolId, tick: int) -> u128 {
    if m.contains_key((pool_id, tick)) {
        m[(pool_id, tick)].0
    } else {
        0u128
    }
}

/// The fee stored under a key, zero where no record exists.
pub open spec fn stored_fee(m: Map<(PoolId, int), (u128, u32)>, pool_id: PoolId, tick: int) -> u32 {
    if m.contains_key((pool_id, tick)) {
        m[(pool_id, tick)].1
    } else {
        0u32
    }
}

/// The map contains a key exactly when some record carries it.
pub proof fn lemma_ticks_map_contains(s: Seq<TickInfo>, k: (PoolId, int))
    ensures
        ticks_map(s).contains_key(k) <==> exists|i: int| 0 <= i < s.len() && rec_key(#[trigger] s[i]) == k,
    decreases s.len(),
{
    if s.len() == 0 {
    } else {
        lemma_ticks_map_contains(s.drop_last(), k);
        if rec_key(s.last()) == k {
            assert(rec_key(s[s.len() - 1]) == k);
        } else if exists|i: int| 0 <= i < s.len() && rec_key(#[trigger] s[i]) == k {
            let i = choose|i: int| 0 <= i < s.len() && rec_key(#[trigger] s[i]) == k;
            assert(rec_key(s.drop_last()[i]) == k);
        } else if exists|i: int| 0 <= i < s.drop_last().len() && rec_key(#[trigger] s.drop_last()[i]) == k {
            let i = choose|i: int| 0 <= i < s.drop_last().len() && rec_key(#[trigger] s.drop_last()[i]) == k;
            assert(rec_key(s[i]) == k);
        }
    }
}

/// Under distinct keys, the map sends each record's key to its value.
pub proof fn lemma_ticks_map_index(s: Seq<TickInfo>, i: int)
    requires
        distinct_keys(s),
        0 <= i < s.len(),
    ensures
        ticks_map(s).contains_key(rec_key(s[i])),
        ticks_map(s)[rec_key(s[i])] == rec_val(s[i]),
    decreases s.len(),
{
    if i == s.len() - 1 {
    } else {
        assert(distinct_keys(s.drop_last())) by {
            assert forall|a: int, b: int| 0 <= a < b < s.drop_last().len()
                implies rec_key(s.drop_last()[a]) != rec_key(s.drop_last()[b]) by {
                assert(rec_key(s[a]) != rec_key(s[b]));
            }
        }
        lemma_ticks_map_index(s.drop_last(), i);
        assert(rec_key(s[i]) != rec_key(s[s.len() - 1]));
        assert(s.drop_last()[i] == s[i]);
    }
}

/// Overwriting the record at `i` with one of the same key leaves the keys
/// distinct and inserts the new value into the map.
pub proof fn lemma_ticks_map_update(s: Seq<TickInfo>, i: int, r: TickInfo)
    requires
        distinct_keys(s),
        0 <= i < s.len(),
        rec_key(r) == rec_key(s[i]),
    ensures
        distinct_keys(s.update(i, r)),
        ticks_map(s.update(i, r)) == ticks_map(s).insert(rec_key(r), rec_val(r)),
    decreases s.len(),
{
    let t = s.update(i, r);
    assert(distinct_keys(t)) by {
        assert forall|a: int, b: int| 0 <= a < b < t.len()
            implies rec_key(t[a]) != rec_key(t[b]) by {
            assert(rec_key(s[a]) != rec_key(s[b]));
        }
    }
    if i == s.len() - 1 {
        assert(t.drop_last() =~= s.drop_last());
        assert(t.last() == r);
        assert(ticks_map(t) =~= ticks_map(s).insert(rec_key(r), rec_val(r)));
    } else {
        assert(distinct_keys(s.drop_last())) by {
            assert forall|a: int, b: int| 0 <= a < b < s.drop_last().len()
                implies rec_key(s.drop_last()[a]) != rec_key(s.drop_last()[b]) by {
                assert(rec_key(s[a]) != rec_key(s[b]));
            }
        }
        assert(t.drop_last() =~= s.drop_last().update(i, r));
        assert(s.drop_last()[i] == s[i]);
        lemma_ticks_map_update(s.drop_last(), i, r);
        assert(t.last() == s.last());
        assert(rec_key(s.last()) != rec_key(r)) by {
            assert(rec_key(s[i]) != rec_key(s[s.len() - 1]));
        }
        assert(ticks_map(t) =~= ticks_map(s).insert(rec_key(r), rec_val(r)));
    }
}

/// Appending a record with a fresh key leaves the keys distinct and inserts
/// its value into the map.
pub proof fn lemma_ticks_map_push(s: Seq<TickInfo>, r: TickInfo)
    requires
        distinct_keys(s),
        forall|i: int| 0 <= i < s.len() ==> rec_key(#[trigger] s[i]) != rec_key(r),
    ensures
        distinct_keys(s.push(r)),
        ticks_map(s.push(r)) == ticks_map(s).insert(rec_key(r), rec_val(r)),
{
    let t = s.push(r);
    assert(distinct_keys(t)) by {
        assert forall|a: int, b: int| 0 <= a < b < t.len()
            implies rec_key(t[a]) != rec_key(t[b]) by {
            if b < s.len() {
                assert(rec_key(s[a]) != rec_key(s[b]));
            } else {
                assert(t[a] == s[a]);
                assert(t[b] == r);
            }
        }
    }
    assert(t.drop_last() =~= s);
    assert(t.last() == r);
    assert(ticks_map(t) =~= ticks_map(s).insert(rec_key(r), rec_val(r)));
}

} // verus!
