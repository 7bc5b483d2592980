use subtensor_root::fixed::{
    inplace_normalize_64, matmul, vec_fixed32_to_fixed64, vec_fixed64_scale_to_u64,
    vec_fixed64_to_fixed32, vec_u16_max_upscale_to_u16, vec_u64_to_fixed64,
};
use subtensor_root::state::{Pallet, RootError};
use subtensor_root::weights::has_duplicate_uids;

const ONE64: i128 = 1i128 << 64;
const ONE32: i64 = 1i64 << 32;

/// A registry with `k` subnetworks and the given root hotkeys registered.
fn setup(k: u16, hotkeys: &[u64], max_uids: u16) -> Pallet {
    let mut p = Pallet::new(10, max_uids, 100, 100, 0);
    for i in 0..k {
        p.user_add_network(1000 + i as u64, 1 + i as u64, 10, Some(10), 100, true, 0)
            .unwrap();
    }
    for (i, hk) in hotkeys.iter().enumerate() {
        p.do_root_register(500 + i as u64, *hk, 0, &vec![0; p.neurons.len()], 1)
            .unwrap();
    }
    p.registrations_this_block = 0;
    p.registrations_this_interval = 0;
    p
}

#[test]
fn root_constants() {
    assert_eq!(Pallet::get_root_netuid(), 0);
    assert_eq!(Pallet::get_root_tempo(), 100);
    let p = setup(3, &[], 8);
    assert_eq!(p.get_num_subnets(), 3);
    assert_eq!(p.get_max_allowed_subnets(), 10);
}

#[test]
fn normalize_sums_to_one() {
    let mut v: Vec<i128> = vec![ONE64, 2 * ONE64, 3 * ONE64];
    inplace_normalize_64(&mut v);
    assert_eq!(
        v,
        vec![3074457345618258602, 6148914691236517205, 9223372036854775808]
    );
    let s: i128 = v.iter().sum();
    assert!(s <= ONE64 && s >= ONE64 - 3);
}

#[test]
fn normalize_all_zero_stays_zero() {
    let mut v: Vec<i128> = vec![0, 0, 0];
    inplace_normalize_64(&mut v);
    assert_eq!(v, vec![0, 0, 0]);
    let mut e: Vec<i128> = vec![];
    inplace_normalize_64(&mut e);
    assert!(e.is_empty());
}

#[test]
fn fixed_conversions() {
    assert_eq!(vec_u64_to_fixed64(&vec![3, 0]), vec![3 * ONE64, 0]);
    assert_eq!(
        vec_fixed64_to_fixed32(vec![ONE64 + (1i128 << 33) + 5]),
        vec![ONE32 + 2]
    );
    assert_eq!(vec_fixed32_to_fixed64(vec![ONE32 + 1]), vec![ONE64 + (1i128 << 32)]);
    assert_eq!(vec_fixed64_scale_to_u64(&vec![ONE64 / 4, ONE64, 0], 1000), vec![250, 1000, 0]);
}

#[test]
fn matmul_ranks_columns() {
    let w = vec![vec![2 * ONE32, 0], vec![ONE32, 3 * ONE32]];
    let s = vec![ONE32 / 2, ONE32 / 4];
    assert_eq!(matmul(&w, &s, 2), vec![ONE32 + ONE32 / 4, 3 * ONE32 / 4]);
    assert_eq!(matmul(&vec![], &vec![], 3), vec![0, 0, 0]);
}

#[test]
fn max_upscale() {
    assert_eq!(vec_u16_max_upscale_to_u16(&vec![1, 2, 4]), vec![16383, 32767, 65535]);
    assert_eq!(vec_u16_max_upscale_to_u16(&vec![0, 0]), vec![0, 0]);
    assert_eq!(vec_u16_max_upscale_to_u16(&vec![]), Vec::<u16>::new());
    assert_eq!(vec_u16_max_upscale_to_u16(&vec![65535, 1]), vec![65535, 1]);
}

#[test]
fn duplicates_detected() {
    assert!(has_duplicate_uids(&vec![3, 3]));
    assert!(has_duplicate_uids(&vec![1, 2, 1]));
    assert!(!has_duplicate_uids(&vec![1, 2, 3]));
    assert!(!has_duplicate_uids(&vec![]));
}

#[test]
fn invalid_root_uids_boundary() {
    let p = setup(3, &[], 8);
    assert!(!p.contains_invalid_root_uids(&vec![1, 2, 3]));
    assert!(p.contains_invalid_root_uids(&vec![4]));
    assert!(p.contains_invalid_root_uids(&vec![0]));
    assert!(!p.contains_invalid_root_uids(&vec![]));
}

#[test]
fn set_weights_errors_in_order() {
    let mut p = setup(3, &[7, 8], 8);
    assert_eq!(
        p.set_root_weights(7, vec![1, 2], vec![1], 10),
        Err(RootError::WeightVecNotEqualSize)
    );
    assert_eq!(
        p.set_root_weights(7, vec![1, 2, 3, 1], vec![1, 1, 1, 1], 10),
        Err(RootError::TooManyUids)
    );
    assert_eq!(p.set_root_weights(99, vec![1], vec![1], 10), Err(RootError::NotRegistered));
    assert_eq!(p.set_root_weights(7, vec![1, 0], vec![1, 1], 10), Err(RootError::InvalidUid));
    assert_eq!(p.set_root_weights(7, vec![4], vec![1], 10), Err(RootError::InvalidUid));
    assert!(p.neurons[0].weights.is_empty());
    p.weights_set_rate_limit = 5;
    assert_eq!(p.set_root_weights(7, vec![3], vec![1], 10), Ok(()));
    assert_eq!(p.neurons[0].last_update, 10);
    assert_eq!(
        p.set_root_weights(7, vec![1], vec![1], 14),
        Err(RootError::SettingWeightsTooFast)
    );
    assert_eq!(p.neurons[0].weights, vec![(3, 65535)]);
    assert_eq!(p.set_root_weights(7, vec![1], vec![1], 15), Ok(()));
}

#[test]
fn duplicate_uids_always_rejected() {
    for values in [vec![1u16, 2], vec![0, 0], vec![65535, 65535]] {
        let mut p = setup(4, &[7], 8);
        assert_eq!(
            p.set_root_weights(7, vec![3, 3], values, 10),
            Err(RootError::DuplicateUids)
        );
        assert!(p.neurons[0].weights.is_empty());
        assert_eq!(p.neurons[0].last_update, 0);
    }
}

#[test]
fn weight_commit_overwrites() {
    let mut p = setup(3, &[7], 8);
    assert_eq!(p.set_root_weights(7, vec![1, 2], vec![10, 20], 10), Ok(()));
    assert_eq!(p.neurons[0].weights, vec![(1, 32767), (2, 65535)]);
    assert_eq!(p.set_root_weights(7, vec![3], vec![5], 11), Ok(()));
    assert_eq!(p.neurons[0].weights, vec![(3, 65535)]);
    let w = p.get_root_weights();
    assert_eq!(w, vec![vec![0, 0, 65535 * ONE32]]);
}

#[test]
fn register_appends_then_replaces_lowest() {
    let mut p = Pallet::new(10, 2, 100, 100, 0);
    assert_eq!(p.do_root_register(1, 10, 5, &vec![], 3), Ok(0));
    assert_eq!(p.do_root_register(1, 11, 5, &vec![5], 4), Ok(1));
    assert_eq!(p.registrations_this_block, 2);
    assert_eq!(p.registrations_this_interval, 2);
    assert_eq!(p.do_root_register(1, 10, 50, &vec![5, 9], 5), Err(RootError::AlreadyRegistered));
    // Full: the lowest stake is slot 1 (stake 3).
    assert_eq!(
        p.do_root_register(2, 12, 3, &vec![9, 3], 5),
        Err(RootError::StakeTooLowForRoot)
    );
    assert_eq!(p.neurons[1].hotkey, 11);
    assert_eq!(p.do_root_register(2, 12, 4, &vec![9, 3], 6), Ok(1));
    assert_eq!(p.neurons[0].hotkey, 10);
    assert_eq!(p.neurons[1].hotkey, 12);
    assert_eq!(p.neurons[1].coldkey, 2);
    assert_eq!(p.neurons[1].registered_at, 6);
    assert_eq!(p.neurons.len(), 2);
}

#[test]
fn register_ties_take_lowest_index() {
    let mut p = Pallet::new(10, 3, 100, 100, 0);
    for hk in [1u64, 2, 3] {
        p.do_root_register(0, hk, 0, &vec![0; p.neurons.len()], 1).unwrap();
    }
    assert_eq!(p.do_root_register(0, 4, 8, &vec![9, 7, 7], 2), Ok(1));
    assert_eq!(p.neurons[1].hotkey, 4);
    assert_eq!(p.neurons[2].hotkey, 3);
}

#[test]
fn register_refusals() {
    let mut p = Pallet::new(10, 2, 1, 1, 0);
    p.root_exists = false;
    assert_eq!(p.do_root_register(0, 1, 0, &vec![], 1), Err(RootError::NetworkDoesNotExist));
    p.root_exists = true;
    p.root_max_allowed_uids = 0;
    assert_eq!(p.do_root_register(0, 1, 0, &vec![], 1), Err(RootError::NetworkDoesNotExist));
    p.root_max_allowed_uids = 2;
    assert_eq!(p.do_root_register(0, 1, 0, &vec![], 1), Ok(0));
    assert_eq!(
        p.do_root_register(0, 2, 0, &vec![0], 1),
        Err(RootError::TooManyRegistrationsThisBlock)
    );
    p.registrations_this_block = 0;
    p.registrations_this_interval = 3;
    assert_eq!(
        p.do_root_register(0, 2, 0, &vec![0], 1),
        Err(RootError::TooManyRegistrationsThisInterval)
    );
    assert_eq!(p.neurons.len(), 1);
}

#[test]
fn add_network_assigns_lowest_then_recycles() {
    let mut p = Pallet::new(2, 8, 1, 1, 0);
    assert_eq!(p.user_add_network(5, 1, 77, Some(77), 100, true, 0), Ok(1));
    assert_eq!(p.user_add_network(6, 2, 78, Some(78), 100, true, 0), Ok(2));
    assert_eq!(p.get_num_subnets(), 2);
    assert_eq!(p.subnets[1].owner, 6);
    assert_eq!(p.subnets[1].locked_balance, 78);
    assert_eq!(p.subnets[1].registered_at, 2);
    assert_eq!(p.subnets[1].tempo, 100);
    assert_eq!(p.subnets[1].immunity_period, 5000);
    assert_eq!(p.subnets[1].max_allowed_uids, 256);
    assert_eq!(p.subnets[1].min_burn, 100_000_000);
    // At the cap: subnetwork 1 is pruned and its id reused.
    p.subnets[0].emission = 9;
    assert_eq!(p.user_add_network(7, 3, 79, Some(79), 100, true, 1), Ok(1));
    assert_eq!(p.get_num_subnets(), 2);
    assert_eq!(p.subnets[0].owner, 7);
    assert_eq!(p.subnets[0].emission, 0);
    assert_eq!(p.subnets[1].owner, 6);
    assert_eq!(p.network_last_registered, 3);
    assert_eq!(p.network_last_lock, 79);
}

#[test]
fn add_network_refusals() {
    let mut p = Pallet::new(2, 8, 1, 1, 0);
    p.network_last_registered = 5;
    assert_eq!(
        p.user_add_network(1, 5, 10, Some(10), 100, true, 0),
        Err(RootError::TxRateLimitExceeded)
    );
    assert_eq!(
        p.user_add_network(1, 6, 10, None, 100, true, 0),
        Err(RootError::CouldNotConvertToBalance)
    );
    assert_eq!(
        p.user_add_network(1, 6, 10, Some(10), 9, true, 0),
        Err(RootError::NotEnoughBalanceToStake)
    );
    assert_eq!(
        p.user_add_network(1, 6, 10, Some(10), 10, false, 0),
        Err(RootError::BalanceWithdrawalError)
    );
    assert_eq!(p.get_num_subnets(), 0);
    assert_eq!(p.network_last_registered, 5);
}

#[test]
fn init_network_defaults() {
    let mut p = Pallet::new(4, 8, 1, 1, 0);
    p.init_new_network_with_params(1);
    assert_eq!(p.get_num_subnets(), 1);
    let s = p.subnets[0];
    assert!(s.registration_allowed);
    assert_eq!(s.max_allowed_validators, 128);
    assert_eq!(s.min_allowed_weights, 64);
    assert_eq!(s.max_weight_limit, 511);
    assert_eq!(s.adjustment_interval, 500);
    assert_eq!(s.target_registrations_per_interval, 1);
    assert_eq!(s.adjustment_alpha, 58000);
}

#[test]
fn epoch_example_two_slots() {
    let mut p = setup(2, &[7, 8], 8);
    assert_eq!(p.set_root_weights(7, vec![1], vec![1], 10), Ok(()));
    assert_eq!(p.set_root_weights(8, vec![2], vec![1], 10), Ok(()));
    p.root_epoch(100, &vec![30, 70], 1000);
    assert_eq!(p.subnets[0].emission, 299);
    assert_eq!(p.subnets[1].emission, 700);
    assert_eq!(p.last_epoch_block, Some(100));
    let stake = vec_fixed64_to_fixed32({
        let mut s = vec_u64_to_fixed64(&vec![30, 70]);
        inplace_normalize_64(&mut s);
        s
    });
    assert_eq!(stake, vec![1288490188, 3006477107]);
}

#[test]
fn epoch_gated_within_tempo() {
    let mut p = setup(2, &[7], 8);
    assert_eq!(p.set_root_weights(7, vec![1], vec![1], 10), Ok(()));
    p.root_epoch(200, &vec![5], 1000);
    assert_eq!(p.subnets[0].emission, 1000);
    p.root_epoch(250, &vec![5], 4000);
    p.root_epoch(299, &vec![5], 4000);
    assert_eq!(p.subnets[0].emission, 1000);
    assert_eq!(p.last_epoch_block, Some(200));
    p.root_epoch(300, &vec![5], 4000);
    assert_eq!(p.subnets[0].emission, 4000);
}

#[test]
fn epoch_without_weights_emits_nothing() {
    let mut p = setup(3, &[7], 8);
    p.root_epoch(1, &vec![5], 1000);
    assert_eq!(p.subnets.iter().map(|s| s.emission).collect::<Vec<_>>(), vec![0, 0, 0]);
}

#[test]
fn epoch_conserves_emission() {
    let mut p = setup(3, &[7, 8, 9], 8);
    assert_eq!(p.set_root_weights(7, vec![1, 2, 3], vec![1, 1, 1], 10), Ok(()));
    assert_eq!(p.set_root_weights(8, vec![2, 3], vec![3, 1], 10), Ok(()));
    p.root_epoch(1, &vec![1, 1, 1], 1_000_001);
    let total: u64 = p.subnets.iter().map(|s| s.emission).sum();
    assert!(total <= 1_000_001 && total + 6 >= 1_000_001);
}

#[test]
fn uid_lookup() {
    let p = setup(1, &[7, 8], 8);
    assert_eq!(p.get_uid_for_hotkey(8), Some(1));
    assert_eq!(p.get_uid_for_hotkey(7), Some(0));
    assert_eq!(p.get_uid_for_hotkey(9), None);
}
