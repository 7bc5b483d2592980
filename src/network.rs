//! Creation of subnetworks under a global cap, recycling a pruned id once
//! the cap is reached.

use crate::state::{Pallet, RootError, SubnetParams};
use vstd::prelude::*;

verus! {

/// The parameters that a new subnetwork starts with.
pub open spec fn default_params() -> SubnetParams {
    SubnetParams {
        tempo: 100,
        registration_allowed: true,
        immunity_period: 5000,
        max_allowed_uids: 256,
        max_allowed_validators: 128,
        min_allowed_weights: 64,
        max_weight_limit: 511,
        adjustment_interval: 500,
        target_registrations_per_interval: 1,
        adjustment_alpha: 58000,
        min_burn: 100_000_000,
        locked_balance: 0,
        registered_at: 0,
        owner: 0,
        emission: 0,
    }
}

/// The parameters of a subnetwork created by `owner` at `block` with
/// `lock` locked.
pub open spec fn created_params(lock: u64, block: u64, owner: u64) -> SubnetParams {
    SubnetParams { locked_balance: lock, registered_at: block, owner, ..default_params() }
}

impl Pallet {
    /// Every field but the subnetworks and the network-creation records is
    /// the same in both.
    pub open spec fn same_except_subnets(&self, o: &Pallet) -> bool {
        &&& self.root_exists == o.root_exists
        &&& self.root_max_allowed_uids == o.root_max_allowed_uids
        &&& self.root_max_registrations_per_block == o.root_max_registrations_per_block
        &&& self.root_target_registrations_per_interval == o.root_target_registrations_per_interval
        &&& self.registrations_this_block == o.registrations_this_block
        &&& self.registrations_this_interval == o.registrations_this_interval
        &&& self.weights_set_rate_limit == o.weights_set_rate_limit
        &&& self.last_epoch_block == o.last_epoch_block
        &&& self.neurons@ == o.neurons@
        &&& self.subnet_limit == o.subnet_limit
    }

    /// Sets up subnetwork `netuid` with the default parameters: as a new
    /// subnetwork when `netuid` is the next unused id, else in place of the
    /// one that had that id.
    pub fn init_new_network_with_params(&mut self, netuid: u16)
        requires
            old(self).wf(),
            1 <= netuid <= old(self).k() + 1,
        ensures
            final(self).wf(),
            final(self).same_except_subnets(old(self)),
            final(self).network_last_registered == old(self).network_last_registered,
            final(self).network_last_lock == old(self).network_last_lock,
            final(self).k() == if netuid as int == old(self).k() + 1 {
                old(self).k() + 1
            } else {
                old(self).k()
            },
            final(self).subnets@[netuid - 1] == default_params(),
            forall|i: int|
                0 <= i < old(self).k() && i != netuid - 1 ==> final(self).subnets@[i]
                    == old(self).subnets@[i],
    {
        self.set_subnet(netuid, SubnetParams {
            tempo: 100,
            registration_allowed: true,
            immunity_period: 5000,
            max_allowed_uids: 256,
            max_allowed_validators: 128,
            min_allowed_weights: 64,
            max_weight_limit: 511,
            adjustment_interval: 500,
            target_registrations_per_interval: 1,
            adjustment_alpha: 58000,
            min_burn: 100_000_000,
            locked_balance: 0,
            registered_at: 0,
            owner: 0,
            emission: 0,
        });
    }

    /// Stores `params` under `netuid`, the next unused id or an existing one.
    fn set_subnet(&mut self, netuid: u16, params: SubnetParams)
        requires
            old(self).wf(),
            1 <= netuid <= old(self).k() + 1,
        ensures
            final(self).wf(),
            final(self).same_except_subnets(old(self)),
            final(self).network_last_registered == old(self).network_last_registered,
            final(self).network_last_lock == old(self).network_last_lock,
            final(self).subnets@ == if netuid as int == old(self).k() + 1 {
                old(self).subnets@.push(params)
            } else {
                old(self).subnets@.update(netuid - 1, params)
            },
    {
        if netuid as usize == self.subnets.len() + 1 {
            self.subnets.push(params);
        } else {
            self.subnets.set((netuid - 1) as usize, params);
        }
    }

    /// The outcome that a request to create a subnetwork owes: the first
    /// failed condition, or the id the new subnetwork takes. The last four
    /// arguments are the answers of the balance ledger and of the pruning
    /// policy.
    pub open spec fn network_outcome(
        &self,
        current_block: u64,
        lock_as_balance: Option<u64>,
        free_balance: u64,
        withdrawal_ok: bool,
        prune_candidate: u16,
    ) -> Result<int, RootError> {
        if !(current_block > self.network_last_registered) {
            Err(RootError::TxRateLimitExceeded)
        } else if lock_as_balance is None {
            Err(RootError::CouldNotConvertToBalance)
        } else if free_balance < lock_as_balance.unwrap() {
            Err(RootError::NotEnoughBalanceToStake)
        } else if !withdrawal_ok {
            Err(RootError::BalanceWithdrawalError)
        } else if self.k() < self.subnet_limit {
            Ok(self.k() + 1)
        } else {
            Ok(prune_candidate as int)
        }
    }

    /// Creates a subnetwork owned by `coldkey`, locking `lock_amount`.
    ///
    /// Below the cap the subnetwork takes the lowest unused id from 1 up; at
    /// the cap the subnetwork `prune_candidate` is pruned and its id reused.
    /// `lock_as_balance` is `lock_amount` in the ledger's unit, if it
    /// converts; `free_balance` is what `coldkey` can spend; `withdrawal_ok`
    /// says whether the ledger took the lock. Returns the new id; a refusal
    /// changes nothing.
    pub fn user_add_network(
        &mut self,
        coldkey: u64,
        current_block: u64,
        lock_amount: u64,
        lock_as_balance: Option<u64>,
        free_balance: u64,
        withdrawal_ok: bool,
        prune_candidate: u16,
    ) -> (r: Result<u16, RootError>)
        requires
            old(self).wf(),
            old(self).k() >= old(self).subnet_limit ==> old(self).subnet_exists(
                prune_candidate as int,
            ),
        ensures
            final(self).wf(),
            match old(self).network_outcome(
                current_block,
                lock_as_balance,
                free_balance,
                withdrawal_ok,
                prune_candidate,
            ) {
                Err(e) => r == Err::<u16, RootError>(e) && *final(self) == *old(self),
                Ok(id) => {
                    &&& r == Ok::<u16, RootError>(id as u16)
                    &&& final(self).same_except_subnets(old(self))
                    &&& final(self).network_last_registered == current_block
                    &&& final(self).network_last_lock == lock_amount
                    &&& final(self).subnets@[id - 1] == created_params(
                        lock_amount,
                        current_block,
                        coldkey,
                    )
                    &&& forall|i: int|
                        0 <= i < old(self).k() && i != id - 1 ==> final(self).subnets@[i]
                            == old(self).subnets@[i]
                    &&& old(self).k() < old(self).subnet_limit ==> {
                        &&& !old(self).subnet_exists(id)
                        &&& id >= 1
                        &&& forall|m: int| 1 <= m < id ==> old(self).subnet_exists(m)
                        &&& final(self).k() == old(self).k() + 1
                    }
                    &&& old(self).k() >= old(self).subnet_limit ==> {
                        &&& id == prune_candidate
                        &&& old(self).subnet_exists(id)
                        &&& final(self).k() == old(self).k()
                    }
                },
            },
    {
        if !(current_block > self.network_last_registered) {
            return Err(RootError::TxRateLimitExceeded);
        }
        let lock = match lock_as_balance {
            None => {
                return Err(RootError::CouldNotConvertToBalance);
            },
            Some(b) => b,
        };
        if free_balance < lock {
            return Err(RootError::NotEnoughBalanceToStake);
        }
        if !withdrawal_ok {
            return Err(RootError::BalanceWithdrawalError);
        }
        let current_num_subnets = self.get_num_subnets();
        let max_allowed_subnets = self.get_max_allowed_subnets();
        let netuid: u16 = if current_num_subnets < max_allowed_subnets {
            current_num_subnets + 1
        } else {
            prune_candidate
        };
        self.init_new_network_with_params(netuid);
        let ghost mid = self.subnets@;
        let mut params = self.subnets[(netuid - 1) as usize];
        params.locked_balance = lock_amount;
        params.registered_at = current_block;
        params.owner = coldkey;
        self.subnets.set((netuid - 1) as usize, params);
        assert(self.subnets@ == mid.update(netuid - 1, params));
        self.network_last_registered = current_block;
        self.network_last_lock = lock_amount;
        Ok(netuid)
    }
}

} // verus!
