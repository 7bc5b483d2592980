//! Admission to the root network: growth while there is room, replacement
//! of the lowest-stake slot once it is full.

use crate::state::{Pallet, RootError, RootNeuron};
use vstd::prelude::*;

verus! {

/// The first index holding the smallest of the first `n` entries of `s`
/// (`n >= 1`), scanning upward.
pub open spec fn lowest_to(s: Seq<u64>, n: int) -> int
    decreases n,
{
    if n <= 1 {
        0
    } else if s[n - 1] < s[lowest_to(s, n - 1)] {
        n - 1
    } else {
        lowest_to(s, n - 1)
    }
}

/// The first index holding the smallest entry of `s`.
pub open spec fn lowest_slot(s: Seq<u64>) -> int {
    lowest_to(s, s.len() as int)
}

/// `lowest_to(s, n)` holds the smallest of the first `n` stakes, at the
/// lowest index that holds it.
pub proof fn lemma_lowest_to(s: Seq<u64>, n: int)
    requires
        1 <= n <= s.len(),
    ensures
        0 <= lowest_to(s, n) < n,
        forall|k: int| 0 <= k < n ==> s[lowest_to(s, n)] <= #[trigger] s[k],
        forall|k: int| 0 <= k < lowest_to(s, n) ==> s[lowest_to(s, n)] < #[trigger] s[k],
    decreases n,
{
    if n > 1 {
        lemma_lowest_to(s, n - 1);
    }
}

/// The registration counter after one more registration, held at its
/// largest value.
pub open spec fn bumped(c: u16) -> u16 {
    if c < 0xffff {
        (c + 1) as u16
    } else {
        c
    }
}

/// A copy of a sparse weight row.
fn copy_row(ws: &Vec<(u16, u16)>) -> (r: Vec<(u16, u16)>)
    ensures
        r@ == ws@,
{
    let mut r: Vec<(u16, u16)> = Vec::new();
    let mut e: usize = 0;
    while e < ws.len()
        invariant
            e <= ws@.len(),
            r@ == ws@.take(e as int),
        decreases ws@.len() - e,
    {
        r.push(ws[e]);
        assert(ws@.take(e as int + 1) =~= ws@.take(e as int).push(ws@[e as int]));
        e = e + 1;
    }
    assert(ws@.take(ws@.len() as int) =~= ws@);
    r
}

impl Pallet {
    /// The outcome that registering `hotkey` owes: the first failed condition,
    /// or the slot it takes. `stakes[i]` is the stake behind slot `i`.
    pub open spec fn register_outcome(
        &self,
        hotkey: u64,
        hotkey_stake: u64,
        stakes: Seq<u64>,
    ) -> Result<int, RootError> {
        if !self.root_exists {
            Err(RootError::NetworkDoesNotExist)
        } else if self.registrations_this_block >= self.root_max_registrations_per_block {
            Err(RootError::TooManyRegistrationsThisBlock)
        } else if self.registrations_this_interval as int >= self.root_target_registrations_per_interval
            * 3 {
            Err(RootError::TooManyRegistrationsThisInterval)
        } else if self.has_hotkey(hotkey) {
            Err(RootError::AlreadyRegistered)
        } else if self.root_max_allowed_uids == 0 {
            Err(RootError::NetworkDoesNotExist)
        } else if self.n() < self.root_max_allowed_uids {
            Ok(self.n())
        } else if !(stakes[lowest_slot(stakes)] < hotkey_stake) {
            Err(RootError::StakeTooLowForRoot)
        } else {
            Ok(lowest_slot(stakes))
        }
    }

    /// Registers `hotkey`, owned by `coldkey`, on the root network at
    /// `current_block`. While the root network has room the hotkey takes a
    /// new slot at the end; once it is full it takes the slot with the
    /// smallest stake (the lowest such index), provided its own stake is
    /// strictly larger. `slot_stakes[i]` is the total stake of the hotkey in
    /// slot `i`. Returns the slot taken; a refusal changes nothing.
    pub fn do_root_register(
        &mut self,
        coldkey: u64,
        hotkey: u64,
        hotkey_stake: u64,
        slot_stakes: &Vec<u64>,
        current_block: u64,
    ) -> (r: Result<u16, RootError>)
        requires
            old(self).wf(),
            slot_stakes@.len() == old(self).n(),
        ensures
            final(self).wf(),
            match old(self).register_outcome(hotkey, hotkey_stake, slot_stakes@) {
                Err(e) => r == Err::<u16, RootError>(e) && *final(self) == *old(self),
                Ok(uid) => {
                    &&& r == Ok::<u16, RootError>(uid as u16)
                    &&& final(self).same_except_registration(old(self))
                    &&& final(self).registrations_this_block == old(self).registrations_this_block
                        + 1
                    &&& final(self).registrations_this_interval == bumped(
                        old(self).registrations_this_interval,
                    )
                    &&& final(self).neurons@[uid].hotkey == hotkey
                    &&& final(self).neurons@[uid].coldkey == coldkey
                    &&& final(self).neurons@[uid].registered_at == current_block
                    &&& forall|k: int|
                        0 <= k < old(self).n() && k != uid ==> final(self).neurons@[k]
                            == old(self).neurons@[k]
                    &&& uid == old(self).n() ==> {
                        &&& final(self).n() == old(self).n() + 1
                        &&& final(self).neurons@[uid].last_update == 0
                        &&& final(self).neurons@[uid].weights@.len() == 0
                    }
                    &&& uid < old(self).n() ==> {
                        &&& final(self).n() == old(self).n()
                        &&& final(self).neurons@[uid].last_update
                            == old(self).neurons@[uid].last_update
                        &&& final(self).neurons@[uid].weights@
                            == old(self).neurons@[uid].weights@
                    }
                },
            },
    {
        if !self.root_exists {
            return Err(RootError::NetworkDoesNotExist);
        }
        if self.registrations_this_block >= self.root_max_registrations_per_block {
            return Err(RootError::TooManyRegistrationsThisBlock);
        }
        if self.registrations_this_interval as u64 >= self.root_target_registrations_per_interval
            as u64 * 3 {
            return Err(RootError::TooManyRegistrationsThisInterval);
        }
        if self.get_uid_for_hotkey(hotkey).is_some() {
            return Err(RootError::AlreadyRegistered);
        }
        if self.root_max_allowed_uids == 0 {
            return Err(RootError::NetworkDoesNotExist);
        }
        let ghost before = self.neurons@;
        let n = self.neurons.len();
        let uid: usize;
        if n < self.root_max_allowed_uids as usize {
            uid = n;
            let neuron = RootNeuron {
                hotkey,
                coldkey,
                registered_at: current_block,
                last_update: 0,
                weights: Vec::new(),
            };
            self.neurons.push(neuron);
            assert(self.neurons@ == before.push(neuron));
        } else {
            let mut lowest_stake: u64 = slot_stakes[0];
            let mut lowest_uid: usize = 0;
            let mut i: usize = 1;
            while i < n
                invariant
                    n == slot_stakes@.len(),
                    1 <= i <= n,
                    lowest_uid < i,
                    lowest_uid as int == lowest_to(slot_stakes@, i as int),
                    lowest_stake == slot_stakes@[lowest_uid as int],
                decreases n - i,
            {
                if slot_stakes[i] < lowest_stake {
                    lowest_stake = slot_stakes[i];
                    lowest_uid = i;
                }
                i = i + 1;
            }
            proof {
                lemma_lowest_to(slot_stakes@, n as int);
            }
            if !(lowest_stake < hotkey_stake) {
                return Err(RootError::StakeTooLowForRoot);
            }
            uid = lowest_uid;
            let neuron = RootNeuron {
                hotkey,
                coldkey,
                registered_at: current_block,
                last_update: self.neurons[uid].last_update,
                weights: copy_row(&self.neurons[uid].weights),
            };
            assert(neuron.weights@ == before[uid as int].weights@);
            self.neurons.set(uid, neuron);
            assert(self.neurons@ == before.update(uid as int, neuron));
        }
        self.registrations_this_block = self.registrations_this_block + 1;
        if self.registrations_this_interval < 0xffff {
            self.registrations_this_interval = self.registrations_this_interval + 1;
        }
        assert forall|i: int, j: int|
            0 <= i < self.n() && 0 <= j < self.n() && i != j implies (#[trigger] self.neurons@[i]).hotkey
            != (#[trigger] self.neurons@[j]).hotkey by {
            if i != uid as int && j != uid as int {
                assert(before[i].hotkey == self.neurons@[i].hotkey);
                assert(before[j].hotkey == self.neurons@[j].hotkey);
            } else if i == uid as int {
                assert(before[j].hotkey == self.neurons@[j].hotkey);
                assert(before[j].hotkey != hotkey);
            } else {
                assert(before[i].hotkey == self.neurons@[i].hotkey);
                assert(before[i].hotkey != hotkey);
            }
        }
        assert forall|i: int, x: int|
            0 <= i < self.n() && 0 <= x < self.neurons@[i].weights@.len() implies 1
            <= (#[trigger] self.neurons@[i].weights@[x]).0 <= self.k() by {
            if i != uid as int {
                assert(self.neurons@[i] == before[i]);
            } else {
                assert(self.neurons@[i].weights@ == before[i].weights@ || self.neurons@[i].weights@.len() == 0);
            }
        }
        Ok(uid as u16)
    }
}

} // verus!
