//! The root epoch: stake-weighted aggregation of the root weights into one
//! emission amount per subnetwork.

use crate::fixed::{
    column_terms, inplace_normalize_64, ints128, ints64, ints_u64, lemma_entry_le_total,
    lemma_normalized_entries, lemma_normalized_total, lemma_sum_le_bound, lemma_sum_scaled_ge,
    lemma_sum_scaled_le, lemma_sum_to_monotone, matmul, nonneg, normalized, one32, one64,
    rows_int, total, vec_fixed32_to_fixed64, vec_fixed64_scale_to_u64,
    vec_fixed64_to_fixed32, vec_u64_to_fixed64,
};
use crate::state::{Pallet, SubnetParams};
use crate::weights::weight_in;
use vstd::prelude::*;

verus! {

/// The stakes behind the root slots as `I64F64` bits.
pub open spec fn stake_bits(stakes: Seq<u64>) -> Seq<int> {
    Seq::new(stakes.len(), |i: int| stakes[i] as int * one64())
}

/// The normalized stakes, narrowed to `I32F32` bits.
pub open spec fn stake_fractions(stakes: Seq<u64>) -> Seq<int> {
    Seq::new(stakes.len(), |i: int| normalized(stake_bits(stakes))[i] / one32())
}

/// `p` with its emission set to `e`.
pub open spec fn with_emission(p: SubnetParams, e: u64) -> SubnetParams {
    SubnetParams { emission: e, ..p }
}

proof fn lemma_weight_in_bound(row: Seq<(u16, u16)>, netuid: int)
    ensures
        0 <= weight_in(row, netuid) <= 0xffff,
    decreases row.len(),
{
    if row.len() > 0 {
        lemma_weight_in_bound(row.drop_last(), netuid);
    }
}

/// The normalized stakes lie in `[0, 1.0]` and sum to at most `1.0`.
proof fn lemma_stake_fractions(stakes: Seq<u64>)
    requires
        total(ints_u64(stakes)) < 0x8000_0000_0000_0000,
    ensures
        nonneg(stake_bits(stakes)),
        total(stake_bits(stakes)) < 0x8000_0000_0000_0000_0000_0000_0000_0000,
        nonneg(stake_fractions(stakes)),
        forall|i: int| 0 <= i < stakes.len() ==> #[trigger] stake_fractions(stakes)[i] <= one32(),
        total(stake_fractions(stakes)) <= one32(),
{
    let a = ints_u64(stakes);
    let x = stake_bits(stakes);
    assert forall|i: int| 0 <= i < x.len() implies 0 <= #[trigger] x[i] && x[i] * 1 <= a[i]
        * one64() by {
        assert(0 <= stakes[i] as int * one64()) by (nonlinear_arith)
            requires
                0 <= stakes[i],
        ;
    }
    lemma_sum_scaled_le(a, x, one64(), 1, x.len() as int);
    assert(total(x) < 0x8000_0000_0000_0000_0000_0000_0000_0000) by (nonlinear_arith)
        requires
            total(x) * 1 <= total(a) * one64(),
            total(a) < 0x8000_0000_0000_0000,
    ;
    lemma_normalized_entries(x);
    let f = normalized(x);
    let s = stake_fractions(stakes);
    assert forall|i: int| 0 <= i < s.len() implies 0 <= #[trigger] s[i] <= one32() && s[i]
        * one32() <= f[i] * 1 by {
        let v = f[i];
        assert(0 <= v <= one64());
        assert(0 <= v / one32() <= one32() && (v / one32()) * one32() <= v) by (nonlinear_arith)
            requires
                0 <= v <= one64(),
        ;
    }
    lemma_sum_scaled_le(f, s, 1, one32(), s.len() as int);
    assert(total(s) <= one32()) by (nonlinear_arith)
        requires
            total(s) * one32() <= total(f) * 1,
            total(f) <= one64(),
    ;
}

impl Pallet {
    /// Whether a root epoch is due at `block`: none has run yet, or the
    /// root tempo of 100 blocks has passed since the last one.
    pub open spec fn epoch_due(&self, block: u64) -> bool {
        match self.last_epoch_block {
            None => true,
            Some(b) => block >= b && block - b >= 100,
        }
    }

    /// The dense weight matrix as `I32F32` bits: row `i` is slot `i`,
    /// column `j` is subnetwork `j + 1`.
    pub open spec fn weight_bits(&self) -> Seq<Seq<int>> {
        Seq::new(
            self.n() as nat,
            |i: int| Seq::new(self.k() as nat, |j: int| weight_in(self.neurons@[i].weights@, j + 1) * one32()),
        )
    }

    /// Rank of each subnetwork: the weights down its column, each times the
    /// slot's normalized stake.
    pub open spec fn ranks(&self, stakes: Seq<u64>) -> Seq<int> {
        Seq::new(
            self.k() as nat,
            |j: int| total(column_terms(self.weight_bits(), stake_fractions(stakes), j)),
        )
    }

    /// The ranks widened to `I64F64` and normalized.
    pub open spec fn emission_fractions(&self, stakes: Seq<u64>) -> Seq<int> {
        normalized(Seq::new(self.k() as nat, |j: int| self.ranks(stakes)[j] * one32()))
    }

    /// The emission owed to each subnetwork out of `budget`.
    pub open spec fn emission_values(&self, stakes: Seq<u64>, budget: u64) -> Seq<int> {
        Seq::new(
            self.k() as nat,
            |j: int| budget as int * self.emission_fractions(stakes)[j] / one64(),
        )
    }

    /// Every field but the subnetworks and the epoch mark is the same in
    /// both.
    pub open spec fn same_except_emission(&self, o: &Pallet) -> bool {
        &&& self.root_exists == o.root_exists
        &&& self.root_max_allowed_uids == o.root_max_allowed_uids
        &&& self.root_max_registrations_per_block == o.root_max_registrations_per_block
        &&& self.root_target_registrations_per_interval == o.root_target_registrations_per_interval
        &&& self.registrations_this_block == o.registrations_this_block
        &&& self.registrations_this_interval == o.registrations_this_interval
        &&& self.weights_set_rate_limit == o.weights_set_rate_limit
        &&& self.neurons@ == o.neurons@
        &&& self.subnet_limit == o.subnet_limit
        &&& self.network_last_registered == o.network_last_registered
        &&& self.network_last_lock == o.network_last_lock
    }
}

/// Bounds on the ranks: each column sum fits an `I32F32` and each rank lies
/// in `[0, 65535.0]`.
proof fn lemma_ranks(p: &Pallet, stakes: Seq<u64>)
    requires
        stakes.len() == p.n(),
        total(ints_u64(stakes)) < 0x8000_0000_0000_0000,
    ensures
        forall|i: int, j: int|
            0 <= i < p.n() && 0 <= j < p.k() ==> 0 <= #[trigger] p.weight_bits()[i][j] <= 0xffff
                * one32(),
        forall|j: int|
            0 <= j < p.k() ==> 0 <= #[trigger] p.ranks(stakes)[j] <= 0xffff * one32(),
{
    lemma_stake_fractions(stakes);
    let s = stake_fractions(stakes);
    let w = p.weight_bits();
    assert forall|i: int, j: int|
        0 <= i < p.n() && 0 <= j < p.k() implies 0 <= #[trigger] w[i][j] <= 0xffff * one32() by {
        lemma_weight_in_bound(p.neurons@[i].weights@, j + 1);
    }
    assert forall|j: int| 0 <= j < p.k() implies 0 <= #[trigger] p.ranks(stakes)[j] <= 0xffff
        * one32() by {
        let ct = column_terms(w, s, j);
        assert forall|i: int| 0 <= i < ct.len() implies 0 <= #[trigger] ct[i] && ct[i] * 1 <= s[i]
            * 0xffff by {
            let u = weight_in(p.neurons@[i].weights@, j + 1);
            lemma_weight_in_bound(p.neurons@[i].weights@, j + 1);
            let v = s[i];
            assert(0 <= v);
            assert(ct[i] == (u * one32()) * v / one32());
            assert((u * one32()) * v / one32() == u * v) by (nonlinear_arith)
                requires
                    one32() > 0,
            ;
            assert(0 <= u * v <= v * 0xffff) by (nonlinear_arith)
                requires
                    0 <= u <= 0xffff,
                    0 <= v,
            ;
        }
        lemma_sum_scaled_le(s, ct, 0xffff, 1, ct.len() as int);
        lemma_sum_to_monotone(ct, 0, ct.len() as int);
    }
}

/// Once an epoch has run at `b1`, none is due again before block
/// `b1 + 100`: a second call within the window writes nothing.
pub proof fn lemma_epoch_gate_closed(p: &Pallet, b1: u64, b2: u64)
    requires
        p.last_epoch_block == Some(b1),
        b1 <= b2,
        (b2 as int) < b1 + 100,
    ensures
        !p.epoch_due(b2),
{
}

impl Pallet {
    /// Runs the root epoch at `block_number` if one is due: the stakes
    /// behind the root slots (`slot_stakes[i]` for slot `i`) are normalized,
    /// multiplied into the dense weight matrix to rank each subnetwork, the
    /// ranks normalized, and `block_emission` shared out by them, rounding
    /// down. Each subnetwork's emission is set and the epoch is marked; when
    /// no epoch is due nothing changes.
    pub fn root_epoch(&mut self, block_number: u64, slot_stakes: &Vec<u64>, block_emission: u64)
        requires
            old(self).wf(),
            slot_stakes@.len() == old(self).n(),
            total(ints_u64(slot_stakes@)) < 0x8000_0000_0000_0000,
            block_emission < 0x8000_0000_0000_0000u64,
        ensures
            !old(self).epoch_due(block_number) ==> *final(self) == *old(self),
            old(self).epoch_due(block_number) ==> {
                &&& final(self).wf()
                &&& final(self).same_except_emission(old(self))
                &&& final(self).last_epoch_block == Some(block_number)
                &&& final(self).k() == old(self).k()
                &&& forall|j: int|
                    0 <= j < old(self).k() ==> #[trigger] final(self).subnets@[j] == with_emission(
                        old(self).subnets@[j],
                        old(self).emission_values(slot_stakes@, block_emission)[j] as u64,
                    )
                &&& forall|j: int|
                    0 <= j < old(self).k() ==> (#[trigger] final(self).subnets@[j]).emission as int
                        == old(self).emission_values(slot_stakes@, block_emission)[j]
            },
    {
        let due = match self.last_epoch_block {
            None => true,
            Some(b) => block_number >= b && block_number - b >= Pallet::get_root_tempo() as u64,
        };
        if !due {
            return;
        }
        let ghost stakes = slot_stakes@;
        proof {
            lemma_stake_fractions(stakes);
            lemma_ranks(self, stakes);
            assert forall|i: int| 0 <= i < stakes.len() implies #[trigger] stakes[i]
                < 0x8000_0000_0000_0000u64 by {
                lemma_entry_le_total(ints_u64(stakes), i);
                assert(ints_u64(stakes)[i] == stakes[i] as int);
            }
            assert(nonneg(ints_u64(stakes)));
        }
        let mut stake_i64 = vec_u64_to_fixed64(slot_stakes);
        assert(ints128(stake_i64@) =~= stake_bits(stakes));
        inplace_normalize_64(&mut stake_i64);
        proof {
            lemma_normalized_entries(stake_bits(stakes));
            assert forall|i: int| 0 <= i < stake_i64@.len() implies 0 <= #[trigger] stake_i64@[i]
                < 0x8000_0000_0000_0000_0000_0000 by {
                assert(ints128(stake_i64@)[i] == stake_i64@[i] as int);
            }
        }
        let stake_i32 = vec_fixed64_to_fixed32(stake_i64);
        assert(ints64(stake_i32@) =~= stake_fractions(stakes));
        let weights_i32 = self.get_root_weights();
        let k = self.subnets.len();
        assert(rows_int(weights_i32@) =~~= self.weight_bits());
        proof {
            assert forall|j: int| 0 <= j < k implies #[trigger] total(
                column_terms(rows_int(weights_i32@), ints64(stake_i32@), j),
            ) < 0x8000_0000_0000_0000 by {
                assert(self.ranks(stakes)[j] == total(
                    column_terms(self.weight_bits(), stake_fractions(stakes), j),
                ));
            }
            assert forall|i: int, j: int|
                0 <= i < weights_i32@.len() && 0 <= j < k implies 0
                <= #[trigger] weights_i32@[i]@[j] by {
                assert(rows_int(weights_i32@)[i][j] == weights_i32@[i]@[j] as int);
            }
            assert forall|i: int| 0 <= i < stake_i32@.len() implies 0 <= #[trigger] stake_i32@[i] by {
                assert(ints64(stake_i32@)[i] == stake_i32@[i] as int);
            }
        }
        let ranks_i32 = matmul(&weights_i32, &stake_i32, k);
        assert(ints64(ranks_i32@) =~= self.ranks(stakes));
        let mut emission_i64 = vec_fixed32_to_fixed64(ranks_i32);
        let ghost wide = Seq::new(self.k() as nat, |j: int| self.ranks(stakes)[j] * one32());
        assert(ints128(emission_i64@) =~= wide);
        proof {
            assert forall|j: int| 0 <= j < wide.len() implies 0 <= #[trigger] wide[j] <= 0x1_0000_0000_0000_0000_0000 by {
                let v = self.ranks(stakes)[j];
                assert(0 <= v * one32() <= 0x1_0000_0000_0000_0000_0000) by (nonlinear_arith)
                    requires
                        0 <= v <= 0xffff * one32(),
                ;
            }
            lemma_sum_le_bound(wide, 0x1_0000_0000_0000_0000_0000, wide.len() as int);
            assert(wide.len() * 0x1_0000_0000_0000_0000_0000 < 0x8000_0000_0000_0000_0000_0000_0000_0000) by (nonlinear_arith)
                requires
                    wide.len() < 0x1_0000,
            ;
        }
        inplace_normalize_64(&mut emission_i64);
        proof {
            lemma_normalized_entries(wide);
            assert forall|i: int| 0 <= i < emission_i64@.len() implies 0 <= #[trigger] emission_i64@[i]
                <= one64() by {
                assert(ints128(emission_i64@)[i] == emission_i64@[i] as int);
            }
        }
        assert(ints128(emission_i64@) == self.emission_fractions(stakes));
        let emission_u64 = vec_fixed64_scale_to_u64(&emission_i64, block_emission);
        let ghost ev = self.emission_values(stakes, block_emission);
        let ghost before = self.subnets@;
        let ghost pre = *self;
        assert(pre.wf());
        let mut j: usize = 0;
        while j < k
            invariant
                pre.wf(),
                self.same_except_emission(&pre),
                self.last_epoch_block == pre.last_epoch_block,
                pre.k() == k,
                k == self.subnets@.len(),
                k == before.len(),
                k == emission_u64@.len(),
                j <= k,
                ev.len() == k,
                forall|a: int| 0 <= a < k ==> (#[trigger] emission_u64@[a]) as int == ev[a],
                forall|a: int|
                    0 <= a < j ==> #[trigger] self.subnets@[a] == with_emission(
                        before[a],
                        ev[a] as u64,
                    ),
                forall|a: int| j <= a < k ==> #[trigger] self.subnets@[a] == before[a],
            decreases k - j,
        {
            let mut params = self.subnets[j];
            params.emission = emission_u64[j];
            self.subnets.set(j, params);
            j = j + 1;
        }
        self.last_epoch_block = Some(block_number);
        assert(self.k() == k);
        assert forall|a: int| 0 <= a < k implies (#[trigger] self.subnets@[a]).emission as int
            == ev[a] by {
            assert(emission_u64@[a] as int == ev[a]);
        }
        assert(self.neurons@ == pre.neurons@);
        assert(self.wf());
    }
}

/// Whatever the stakes and weights, the emissions of one epoch add up to at
/// most the budget; when some subnetwork has a positive rank they fall
/// short of it by at most two units per subnetwork.
pub proof fn lemma_emission_conserved(p: &Pallet, stakes: Seq<u64>, budget: u64)
    requires
        p.wf(),
        stakes.len() == p.n(),
        total(ints_u64(stakes)) < 0x8000_0000_0000_0000,
        budget < 0x8000_0000_0000_0000u64,
    ensures
        0 <= total(p.emission_values(stakes, budget)) <= budget,
        total(p.ranks(stakes)) > 0 ==> total(p.emission_values(stakes, budget)) >= budget
            - 2 * p.k(),
{
    lemma_ranks(p, stakes);
    let rk = p.ranks(stakes);
    let wide = Seq::new(p.k() as nat, |j: int| rk[j] * one32());
    assert forall|j: int| 0 <= j < wide.len() implies 0 <= #[trigger] wide[j] by {
        let v = rk[j];
        assert(0 <= v * one32()) by (nonlinear_arith)
            requires
                0 <= v,
        ;
    }
    lemma_normalized_entries(wide);
    lemma_normalized_total(wide);
    let f = p.emission_fractions(stakes);
    let ev = p.emission_values(stakes, budget);
    let e = budget as int;
    assert forall|j: int| 0 <= j < ev.len() implies 0 <= #[trigger] ev[j] && ev[j] * one64() <= f[j]
        * e && f[j] * e < (ev[j] + 1) * one64() by {
        let v = f[j];
        assert(0 <= v);
        assert(0 <= e * v / one64() && (e * v / one64()) * one64() <= v * e && v * e < (e * v
            / one64() + 1) * one64()) by (nonlinear_arith)
            requires
                0 <= v,
                0 <= e,
        ;
    }
    lemma_sum_scaled_le(f, ev, e, one64(), ev.len() as int);
    lemma_sum_to_monotone(ev, 0, ev.len() as int);
    let tf = total(f);
    let tev = total(ev);
    assert(tev <= e) by (nonlinear_arith)
        requires
            tev * one64() <= tf * e,
            tf <= one64(),
            0 <= e,
    ;
    if total(rk) > 0 {
        let k = p.k();
        assert(total(wide) > 0) by {
            assert forall|j: int| 0 <= j < k implies #[trigger] wide[j] * 1 >= rk[j] * 1 by {
                let v = rk[j];
                assert(v * one32() >= v) by (nonlinear_arith)
                    requires
                        0 <= v,
                ;
            }
            assert forall|j: int| 0 <= j < k implies #[trigger] rk[j] * 1 <= wide[j] * 1 by {}
            lemma_sum_scaled_le(wide, rk, 1, 1, k);
        }
        lemma_sum_scaled_ge(f, ev, e, one64(), k);
        assert(tev >= e - 2 * k) by (nonlinear_arith)
            requires
                tf * e <= (tev + k) * one64(),
                one64() - k <= tf,
                0 <= e < 0x8000_0000_0000_0000,
                0 <= k,
                k < 0x1_0000,
        ;
    }
}

} // verus!
