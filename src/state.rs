//! The state of the root network and of the subnetworks it pays.

use vstd::prelude::*;

verus! {

/// Why a request on the root network was refused.
#[derive(Clone, Copy, Debug, PartialEq, Eq, Structural)]
pub enum RootError {
    WeightVecNotEqualSize,
    TooManyUids,
    NotRegistered,
    SettingWeightsTooFast,
    DuplicateUids,
    InvalidUid,
    NetworkDoesNotExist,
    TooManyRegistrationsThisBlock,
    TooManyRegistrationsThisInterval,
    AlreadyRegistered,
    StakeTooLowForRoot,
    TxRateLimitExceeded,
    CouldNotConvertToBalance,
    NotEnoughBalanceToStake,
    BalanceWithdrawalError,
}

/// One slot of the root network.
#[derive(Debug)]
pub struct RootNeuron {
    pub hotkey: u64,
    pub coldkey: u64,
    pub registered_at: u64,
    /// Block of the last weight submission; zero when there was none.
    pub last_update: u64,
    /// Sparse weights: (target subnetwork id, magnitude).
    pub weights: Vec<(u16, u16)>,
}

/// The parameters of one subnetwork.
#[derive(Clone, Copy, Debug, PartialEq, Eq, Structural)]
pub struct SubnetParams {
    pub tempo: u16,
    pub registration_allowed: bool,
    pub immunity_period: u16,
    pub max_allowed_uids: u16,
    pub max_allowed_validators: u16,
    pub min_allowed_weights: u16,
    pub max_weight_limit: u16,
    pub adjustment_interval: u16,
    pub target_registrations_per_interval: u16,
    pub adjustment_alpha: u64,
    pub min_burn: u64,
    pub locked_balance: u64,
    pub registered_at: u64,
    pub owner: u64,
    pub emission: u64,
}

/// Root network and subnetwork registry.
///
/// Subnetwork ids are dense: the subnetwork with id `i + 1` sits at
/// `subnets[i]`, and id 0 is the root network itself. Root slots are dense
/// too: slot `uid` sits at `neurons[uid]`.
#[derive(Debug)]
pub struct Pallet {
    pub root_exists: bool,
    pub root_max_allowed_uids: u16,
    pub root_max_registrations_per_block: u16,
    pub root_target_registrations_per_interval: u16,
    pub registrations_this_block: u16,
    pub registrations_this_interval: u16,
    pub weights_set_rate_limit: u64,
    /// Block of the last root epoch, if one ran.
    pub last_epoch_block: Option<u64>,
    pub neurons: Vec<RootNeuron>,
    pub subnets: Vec<SubnetParams>,
    pub subnet_limit: u16,
    pub network_last_registered: u64,
    pub network_last_lock: u64,
}

impl Pallet {
    /// Number of subnetworks, root excluded.
    pub open spec fn k(&self) -> int {
        self.subnets@.len() as int
    }

    /// Number of root slots.
    pub open spec fn n(&self) -> int {
        self.neurons@.len() as int
    }

    pub open spec fn subnet_exists(&self, netuid: int) -> bool {
        1 <= netuid <= self.k()
    }

    pub open spec fn has_hotkey(&self, hotkey: u64) -> bool {
        exists|i: int| 0 <= i < self.n() && (#[trigger] self.neurons@[i]).hotkey == hotkey
    }

    /// The slot of a registered hotkey.
    pub open spec fn slot_of(&self, hotkey: u64) -> int {
        choose|i: int| 0 <= i < self.n() && (#[trigger] self.neurons@[i]).hotkey == hotkey
    }

    /// Every field but the root slots and the registration counters is the
    /// same in both.
    pub open spec fn same_except_registration(&self, o: &Pallet) -> bool {
        &&& self.root_exists == o.root_exists
        &&& self.root_max_allowed_uids == o.root_max_allowed_uids
        &&& self.root_max_registrations_per_block == o.root_max_registrations_per_block
        &&& self.root_target_registrations_per_interval == o.root_target_registrations_per_interval
        &&& self.weights_set_rate_limit == o.weights_set_rate_limit
        &&& self.last_epoch_block == o.last_epoch_block
        &&& self.subnets@ == o.subnets@
        &&& self.subnet_limit == o.subnet_limit
        &&& self.network_last_registered == o.network_last_registered
        &&& self.network_last_lock == o.network_last_lock
    }

    /// Every field but the root slots is the same in both.
    pub open spec fn same_except_neurons(&self, o: &Pallet) -> bool {
        &&& self.root_exists == o.root_exists
        &&& self.root_max_allowed_uids == o.root_max_allowed_uids
        &&& self.root_max_registrations_per_block == o.root_max_registrations_per_block
        &&& self.root_target_registrations_per_interval == o.root_target_registrations_per_interval
        &&& self.registrations_this_block == o.registrations_this_block
        &&& self.registrations_this_interval == o.registrations_this_interval
        &&& self.weights_set_rate_limit == o.weights_set_rate_limit
        &&& self.last_epoch_block == o.last_epoch_block
        &&& self.subnets@ == o.subnets@
        &&& self.subnet_limit == o.subnet_limit
        &&& self.network_last_registered == o.network_last_registered
        &&& self.network_last_lock == o.network_last_lock
    }

    /// Well-formedness: slot indices and subnetwork ids fit in `u16`, each
    /// hotkey holds at most one slot, and stored weights target existing
    /// subnetworks.
    pub open spec fn wf(&self) -> bool {
        &&& self.neurons@.len() < 0x1_0000
        &&& self.subnets@.len() < 0x1_0000
        &&& forall|i: int, j: int|
            0 <= i < self.n() && 0 <= j < self.n() && i != j ==> (#[trigger] self.neurons@[i]).hotkey
                != (#[trigger] self.neurons@[j]).hotkey
        &&& forall|i: int, e: int|
            0 <= i < self.n() && 0 <= e < self.neurons@[i].weights@.len() ==> 1
                <= (#[trigger] self.neurons@[i].weights@[e]).0 <= self.k()
    }

    /// An empty registry with a root network that can take
    /// `root_max_allowed_uids` slots.
    pub fn new(
        subnet_limit: u16,
        root_max_allowed_uids: u16,
        root_max_registrations_per_block: u16,
        root_target_registrations_per_interval: u16,
        weights_set_rate_limit: u64,
    ) -> (r: Pallet)
        ensures
            r.wf(),
            r.root_exists,
            r.neurons@.len() == 0,
            r.subnets@.len() == 0,
            r.subnet_limit == subnet_limit,
            r.root_max_allowed_uids == root_max_allowed_uids,
            r.root_max_registrations_per_block == root_max_registrations_per_block,
            r.root_target_registrations_per_interval == root_target_registrations_per_interval,
            r.weights_set_rate_limit == weights_set_rate_limit,
            r.registrations_this_block == 0,
            r.registrations_this_interval == 0,
            r.last_epoch_block.is_none(),
            r.network_last_registered == 0,
            r.network_last_lock == 0,
    {
        Pallet {
            root_exists: true,
            root_max_allowed_uids,
            root_max_registrations_per_block,
            root_target_registrations_per_interval,
            registrations_this_block: 0,
            registrations_this_interval: 0,
            weights_set_rate_limit,
            last_epoch_block: None,
            neurons: Vec::new(),
            subnets: Vec::new(),
            subnet_limit,
            network_last_registered: 0,
            network_last_lock: 0,
        }
    }

    /// The id of the root network.
    pub fn get_root_netuid() -> (r: u16)
        ensures
            r == 0,
    {
        0
    }

    /// The number of blocks between two root epochs.
    pub fn get_root_tempo() -> (r: u16)
        ensures
            r == 100,
    {
        100
    }

    /// The number of subnetworks, root excluded.
    pub fn get_num_subnets(&self) -> (r: u16)
        requires
            self.wf(),
        ensures
            r as int == self.k(),
    {
        self.subnets.len() as u16
    }

    /// The cap on the number of subnetworks.
    pub fn get_max_allowed_subnets(&self) -> (r: u16)
        ensures
            r == self.subnet_limit,
    {
        self.subnet_limit
    }

    /// The slot that `hotkey` holds on the root network, if any.
    pub fn get_uid_for_hotkey(&self, hotkey: u64) -> (r: Option<u16>)
        requires
            self.wf(),
        ensures
            r.is_some() == self.has_hotkey(hotkey),
            r.is_some() ==> r.unwrap() as int == self.slot_of(hotkey),
    {
        let mut i: usize = 0;
        while i < self.neurons.len()
            invariant
                self.wf(),
                i <= self.neurons@.len(),
                forall|k: int| 0 <= k < i ==> (#[trigger] self.neurons@[k]).hotkey != hotkey,
            decreases self.neurons@.len() - i,
        {
            if self.neurons[i].hotkey == hotkey {
                assert(self.has_hotkey(hotkey));
                let ghost c = self.slot_of(hotkey);
                assert(self.neurons@[c].hotkey == hotkey);
                return Some(i as u16);
            }
            i = i + 1;
        }
        None
    }
}

} // verus!
