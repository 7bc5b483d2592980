//! Root weight submissions: validation, storage and the dense weight matrix.

use crate::fixed::{fx32_from_u16, max_of, one32, vec_u16_max_upscale_to_u16};
use crate::state::{Pallet, RootError, RootNeuron};
use vstd::prelude::*;

verus! {

pub open spec fn has_duplicates(uids: Seq<u16>) -> bool {
    exists|i: int, j: int| 0 <= i < j < uids.len() && uids[i] == uids[j]
}

/// Some id is the root network's or lies above `k`. An id equal to `k`
/// passes.
pub open spec fn has_invalid_root_uid(uids: Seq<u16>, k: int) -> bool {
    exists|i: int| 0 <= i < uids.len() && (uids[i] > k || uids[i] == 0)
}

/// A slot that last submitted at block `last` may submit again at `now`.
pub open spec fn rate_ok(last: u64, now: u64, limit: u64) -> bool {
    last == 0 || (now >= last && now - last >= limit)
}

/// `values` rescaled so that the largest is `65535`.
pub open spec fn upscaled(values: Seq<u16>) -> Seq<int> {
    if max_of(values) == 0 {
        Seq::new(values.len(), |i: int| values[i] as int)
    } else {
        Seq::new(values.len(), |i: int| values[i] as int * 65535 / max_of(values))
    }
}

/// The weight that a sparse row gives to `netuid`: its last entry for that
/// id, or zero.
pub open spec fn weight_in(row: Seq<(u16, u16)>, netuid: int) -> int
    decreases row.len(),
{
    if row.len() == 0 {
        0
    } else if row.last().0 as int == netuid {
        row.last().1 as int
    } else {
        weight_in(row.drop_last(), netuid)
    }
}

impl Pallet {
    /// The outcome that a weight submission by `hotkey` owes: the first
    /// failed condition, or the slot whose row is written.
    pub open spec fn weights_outcome(
        &self,
        hotkey: u64,
        uids: Seq<u16>,
        values: Seq<u16>,
        now: u64,
    ) -> Result<int, RootError> {
        if uids.len() != values.len() {
            Err(RootError::WeightVecNotEqualSize)
        } else if uids.len() > self.k() {
            Err(RootError::TooManyUids)
        } else if !self.has_hotkey(hotkey) {
            Err(RootError::NotRegistered)
        } else if !rate_ok(
            self.neurons@[self.slot_of(hotkey)].last_update,
            now,
            self.weights_set_rate_limit,
        ) {
            Err(RootError::SettingWeightsTooFast)
        } else if has_duplicates(uids) {
            Err(RootError::DuplicateUids)
        } else if has_invalid_root_uid(uids, self.k()) {
            Err(RootError::InvalidUid)
        } else {
            Ok(self.slot_of(hotkey))
        }
    }

    /// Whether any id is the root network's or lies above the number of
    /// subnetworks.
    pub fn contains_invalid_root_uids(&self, uids: &Vec<u16>) -> (r: bool)
        requires
            self.wf(),
        ensures
            r == has_invalid_root_uid(uids@, self.k()),
    {
        let total_subnets = self.get_num_subnets();
        let mut i: usize = 0;
        while i < uids.len()
            invariant
                i <= uids@.len(),
                total_subnets as int == self.k(),
                forall|k: int| 0 <= k < i ==> !(uids@[k] > total_subnets || uids@[k] == 0),
            decreases uids@.len() - i,
        {
            if uids[i] > total_subnets || uids[i] == Pallet::get_root_netuid() {
                return true;
            }
            i = i + 1;
        }
        false
    }

    /// The dense weight matrix: one row per root slot and one column per
    /// subnetwork, column `j` holding the `I32F32` bits of the weight given
    /// to subnetwork `j + 1`.
    pub fn get_root_weights(&self) -> (r: Vec<Vec<i64>>)
        requires
            self.wf(),
        ensures
            r@.len() == self.n(),
            forall|i: int| 0 <= i < self.n() ==> (#[trigger] r@[i])@.len() == self.k(),
            forall|i: int, j: int|
                0 <= i < self.n() && 0 <= j < self.k() ==> (#[trigger] r@[i]@[j]) as int
                    == weight_in(self.neurons@[i].weights@, j + 1) * one32(),
    {
        let n = self.neurons.len();
        let k = self.subnets.len();
        let mut r: Vec<Vec<i64>> = Vec::new();
        let mut i: usize = 0;
        while i < n
            invariant
                self.wf(),
                n == self.n(),
                k == self.k(),
                i <= n,
                r@.len() == i,
                forall|a: int| 0 <= a < i ==> (#[trigger] r@[a])@.len() == k,
                forall|a: int, j: int|
                    0 <= a < i && 0 <= j < k ==> (#[trigger] r@[a]@[j]) as int == weight_in(
                        self.neurons@[a].weights@,
                        j + 1,
                    ) * one32(),
            decreases n - i,
        {
            let mut row: Vec<i64> = Vec::new();
            let mut j: usize = 0;
            while j < k
                invariant
                    j <= k,
                    row@.len() == j,
                    forall|c: int| 0 <= c < j ==> row@[c] == 0,
                decreases k - j,
            {
                row.push(0);
                j = j + 1;
            }
            let ws = &self.neurons[i].weights;
            assert(forall|e: int|
                0 <= e < ws@.len() ==> 1 <= (#[trigger] ws@[e]).0 <= k) by {
                assert forall|e: int| 0 <= e < ws@.len() implies 1 <= (#[trigger] ws@[e]).0 <= k by {
                    assert(1 <= self.neurons@[i as int].weights@[e].0 <= self.k());
                }
            }
            let mut e: usize = 0;
            while e < ws.len()
                invariant
                    e <= ws@.len(),
                    row@.len() == k,
                    forall|e: int| 0 <= e < ws@.len() ==> 1 <= (#[trigger] ws@[e]).0 <= k,
                    forall|c: int|
                        0 <= c < k ==> (#[trigger] row@[c]) as int == weight_in(
                            ws@.take(e as int),
                            c + 1,
                        ) * one32(),
                decreases ws@.len() - e,
            {
                let (u, v) = ws[e];
                let bits = fx32_from_u16(v);
                row.set((u - 1) as usize, bits);
                assert(ws@.take(e as int + 1).drop_last() =~= ws@.take(e as int));
                e = e + 1;
            }
            assert(ws@.take(ws@.len() as int) =~= ws@);
            r.push(row);
            i = i + 1;
        }
        r
    }
}

impl Pallet {
    /// Validates a weight submission by `hotkey` and, if it passes, replaces
    /// that slot's row with `uids` zipped with the max-upscaled `values`, and
    /// stamps the slot with `current_block`. A refused submission changes
    /// nothing.
    pub fn set_root_weights(
        &mut self,
        hotkey: u64,
        uids: Vec<u16>,
        values: Vec<u16>,
        current_block: u64,
    ) -> (r: Result<(), RootError>)
        requires
            old(self).wf(),
        ensures
            final(self).wf(),
            match old(self).weights_outcome(hotkey, uids@, values@, current_block) {
                Err(e) => r == Err::<(), RootError>(e) && *final(self) == *old(self),
                Ok(slot) => {
                    &&& r is Ok
                    &&& final(self).same_except_neurons(old(self))
                    &&& final(self).n() == old(self).n()
                    &&& forall|k: int|
                        0 <= k < old(self).n() && k != slot ==> final(self).neurons@[k]
                            == old(self).neurons@[k]
                    &&& final(self).neurons@[slot].hotkey == old(self).neurons@[slot].hotkey
                    &&& final(self).neurons@[slot].coldkey == old(self).neurons@[slot].coldkey
                    &&& final(self).neurons@[slot].registered_at
                        == old(self).neurons@[slot].registered_at
                    &&& final(self).neurons@[slot].last_update == current_block
                    &&& final(self).neurons@[slot].weights@.len() == uids@.len()
                    &&& forall|e: int|
                        0 <= e < uids@.len() ==> (#[trigger] final(self).neurons@[slot].weights@[e]).0
                            == uids@[e] && final(self).neurons@[slot].weights@[e].1 as int
                            == upscaled(values@)[e]
                },
            },
    {
        if uids.len() != values.len() {
            return Err(RootError::WeightVecNotEqualSize);
        }
        if uids.len() > self.subnets.len() {
            return Err(RootError::TooManyUids);
        }
        let slot = match self.get_uid_for_hotkey(hotkey) {
            None => {
                return Err(RootError::NotRegistered);
            },
            Some(u) => u as usize,
        };
        let last = self.neurons[slot].last_update;
        if !(last == 0 || (current_block >= last && current_block - last
            >= self.weights_set_rate_limit)) {
            return Err(RootError::SettingWeightsTooFast);
        }
        if has_duplicate_uids(&uids) {
            return Err(RootError::DuplicateUids);
        }
        if self.contains_invalid_root_uids(&uids) {
            return Err(RootError::InvalidUid);
        }
        let up = vec_u16_max_upscale_to_u16(&values);
        assert forall|e: int| 0 <= e < values@.len() implies up@[e] as int == (#[trigger] upscaled(
            values@,
        )[e]) by {
            if max_of(values@) == 0 {
                assert(up@[e] == values@[e]);
            }
        }
        let mut zipped: Vec<(u16, u16)> = Vec::new();
        let mut e: usize = 0;
        while e < uids.len()
            invariant
                e <= uids@.len(),
                uids@.len() == up@.len(),
                zipped@.len() == e,
                forall|a: int| 0 <= a < e ==> (#[trigger] zipped@[a]) == (uids@[a], up@[a]),
            decreases uids@.len() - e,
        {
            zipped.push((uids[e], up[e]));
            e = e + 1;
        }
        let ghost k = self.k();
        assert forall|a: int| 0 <= a < zipped@.len() implies 1 <= (#[trigger] zipped@[a]).0 <= k by {
            assert(zipped@[a].0 == uids@[a]);
            assert(!(uids@[a] > k || uids@[a] == 0));
        }
        let neuron = RootNeuron {
            hotkey: self.neurons[slot].hotkey,
            coldkey: self.neurons[slot].coldkey,
            registered_at: self.neurons[slot].registered_at,
            last_update: current_block,
            weights: zipped,
        };
        let ghost before = self.neurons@;
        self.neurons.set(slot, neuron);
        assert(self.neurons@ == before.update(slot as int, neuron));
        assert forall|i: int, j: int|
            0 <= i < self.n() && 0 <= j < self.n() && i != j implies (#[trigger] self.neurons@[i]).hotkey
            != (#[trigger] self.neurons@[j]).hotkey by {
            assert(before[i].hotkey == self.neurons@[i].hotkey);
            assert(before[j].hotkey == self.neurons@[j].hotkey);
        }
        assert forall|i: int, x: int|
            0 <= i < self.n() && 0 <= x < self.neurons@[i].weights@.len() implies 1
            <= (#[trigger] self.neurons@[i].weights@[x]).0 <= self.k() by {
            if i != slot as int {
                assert(self.neurons@[i] == before[i]);
            }
        }
        Ok(())
    }
}

/// Whether some id occurs twice.
pub fn has_duplicate_uids(uids: &Vec<u16>) -> (r: bool)
    ensures
        r == has_duplicates(uids@),
{
    let n = uids.len();
    let mut i: usize = 0;
    while i < n
        invariant
            n == uids@.len(),
            i <= n,
            forall|a: int, b: int| 0 <= a < b < i ==> uids@[a] != uids@[b],
        decreases n - i,
    {
        let mut j: usize = 0;
        while j < i
            invariant
                n == uids@.len(),
                j <= i < n,
                forall|a: int| 0 <= a < j ==> uids@[a] != uids@[i as int],
            decreases i - j,
        {
            if uids[j] == uids[i] {
                return true;
            }
            j = j + 1;
        }
        i = i + 1;
    }
    false
}

} // verus!
