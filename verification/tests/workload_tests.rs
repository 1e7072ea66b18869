use sui_benchmark::base_types::{BenchmarkError, ObjectDigest, ObjectID, ObjectRef, Owner, SuiAddress};
use sui_benchmark::sampling::alias_weights_are_valid;
use sui_benchmark::util::{
    Gas, KeyRef, SplitCoinAndPayAction, SplitCoinAndPayEvent, TransactionEffects, MAX_GAS_FOR_TESTING,
};
use sui_benchmark::workloads::transfer_object::{TransferObjectTestPayload, TransferObjectWorkload};
use sui_benchmark::workloads::workload::{
    combine_payloads, generate_gas_for_test, partition_gas_coins, CombinationPayload, GasCoinConfig,
    GenerateGasAction, Payload, WorkloadPayloadConfig, WorkloadType,
};

fn addr(n: u128) -> SuiAddress {
    SuiAddress { high: 1, low: n }
}

fn oid(n: u128) -> ObjectID {
    ObjectID { high: 2, low: n }
}

fn oref(n: u128, version: u64) -> ObjectRef {
    (oid(n), version, ObjectDigest { high: 3, low: n })
}

fn key(n: u64) -> KeyRef {
    KeyRef { id: n }
}

fn coin(n: u128, owner: u128, k: u64) -> Gas {
    (oref(n, 1), Owner::AddressOwner(addr(owner)), key(k))
}

#[test]
fn workload_type_names() {
    assert_eq!(WorkloadType::SharedCounter.to_string(), "shared_counter");
    assert_eq!(WorkloadType::TransferObject.to_string(), "transfer_object");
    assert_eq!(WorkloadType::Combination.to_string(), "combination");
}

#[test]
fn partition_divides_coins_in_order() {
    let coins: Vec<Gas> = (0..10).map(|i| coin(i, 1, 1)).collect();
    let (init, payload) = partition_gas_coins(&coins, 2, 5, 3);
    assert_eq!(init.shared_counter_init_gas, coins[0..2].to_vec());
    assert_eq!(payload.shared_counter_payload_gas, coins[2..5].to_vec());
    assert_eq!(payload.transfer_tokens, coins[5..8].to_vec());
    assert_eq!(payload.transfer_object_payload_gas, coins[8..10].to_vec());
    let mut all = init.shared_counter_init_gas.clone();
    all.extend(payload.shared_counter_payload_gas.clone());
    all.extend(payload.transfer_tokens.clone());
    all.extend(payload.transfer_object_payload_gas.clone());
    assert_eq!(all, coins);
}

#[test]
fn partition_with_empty_parts() {
    let coins: Vec<Gas> = (0..3).map(|i| coin(i, 1, 1)).collect();
    let (init, payload) = partition_gas_coins(&coins, 0, 0, 3);
    assert!(init.shared_counter_init_gas.is_empty());
    assert!(payload.shared_counter_payload_gas.is_empty());
    assert_eq!(payload.transfer_tokens, coins);
    assert!(payload.transfer_object_payload_gas.is_empty());
}

fn cfg(a: u128, k: u64) -> GasCoinConfig {
    GasCoinConfig { amount: 7, address: addr(a), keypair: key(k) }
}

#[test]
fn generate_gas_for_test_divides_the_new_coins() {
    let (state, action) = generate_gas_for_test(
        Owner::AddressOwner(addr(1)),
        oref(50, 1),
        coin(100, 1, 1),
        1,
        vec![cfg(10, 10)],
        vec![cfg(11, 11)],
        vec![cfg(12, 12), cfg(13, 13)],
        10_000,
    );
    assert!(matches!(action, GenerateGasAction::Forward(SplitCoinAndPayAction::GetFramework)));
    assert_eq!(state.num_shared_counter_init_coins, 1);
    assert_eq!(state.num_shared_counter_coins, 2);
    let (state, action) = state.step(SplitCoinAndPayEvent::Framework(oref(9, 1)));
    assert!(state.counts_fit(&action));
    let (state, action) = state.follow(action);
    assert!(matches!(action, GenerateGasAction::Forward(SplitCoinAndPayAction::ExecuteSplit(_))));
    let created: Vec<(ObjectRef, Owner)> = (60..64).map(|i| (oref(i, 2), Owner::AddressOwner(addr(1)))).collect();
    let effects = TransactionEffects { created, mutated: vec![(oref(100, 2), Owner::AddressOwner(addr(1)))] };
    let (state, action) = state.step(SplitCoinAndPayEvent::Executed(effects));
    let (state, action) = state.follow(action);
    match action {
        GenerateGasAction::Forward(SplitCoinAndPayAction::ExecutePay(tx)) => {
            assert_eq!(tx.recipients, vec![addr(10), addr(11), addr(12), addr(13)]);
            assert_eq!(tx.amounts, vec![7, 7, 7, 7]);
            assert_eq!(tx.gas_budget, 10_000);
        }
        _ => panic!("expected the payment"),
    }
    let mutated = vec![
        (oref(60, 3), Owner::AddressOwner(addr(10))),
        (oref(61, 3), Owner::AddressOwner(addr(11))),
        (oref(62, 3), Owner::AddressOwner(addr(12))),
        (oref(63, 3), Owner::AddressOwner(addr(13))),
        (oref(100, 3), Owner::AddressOwner(addr(1))),
    ];
    let (state, action) = state.step(SplitCoinAndPayEvent::Executed(TransactionEffects { created: vec![], mutated }));
    assert!(state.counts_fit(&action));
    let (_, action) = state.follow(action);
    match action {
        GenerateGasAction::Finish(Ok((init, payload))) => {
            assert_eq!(init.shared_counter_init_gas, vec![(oref(60, 3), Owner::AddressOwner(addr(10)), key(10))]);
            assert_eq!(payload.shared_counter_payload_gas, vec![(oref(61, 3), Owner::AddressOwner(addr(11)), key(11))]);
            assert_eq!(payload.transfer_tokens, vec![(oref(62, 3), Owner::AddressOwner(addr(12)), key(12))]);
            assert_eq!(payload.transfer_object_payload_gas, vec![(oref(63, 3), Owner::AddressOwner(addr(13)), key(13))]);
        }
        _ => panic!("expected the configurations"),
    }
}

#[test]
fn generate_gas_for_test_passes_errors_on() {
    let (_, action) = generate_gas_for_test(
        Owner::Shared { initial_shared_version: 1 },
        oref(50, 1),
        coin(100, 1, 1),
        0,
        vec![],
        vec![],
        vec![],
        10_000,
    );
    assert!(matches!(action, GenerateGasAction::Finish(Err(BenchmarkError::UnexpectedOwnerType))));
}

#[test]
fn coin_configs_for_transfer_payloads() {
    let accounts = vec![(addr(1), key(1)), (addr(2), key(2)), (addr(3), key(3))];
    let configs = TransferObjectWorkload::generate_coin_config_for_payloads(1, 2, 3, accounts);
    assert_eq!(configs.len(), 1 + 2 * 3);
    assert!(configs.iter().all(|c| c.amount == MAX_GAS_FOR_TESTING));
    let owners: Vec<SuiAddress> = configs.iter().map(|c| c.address).collect();
    assert_eq!(owners, vec![addr(1), addr(2), addr(2), addr(2), addr(3), addr(3), addr(3)]);
    let keys: Vec<KeyRef> = configs.iter().map(|c| c.keypair).collect();
    assert_eq!(keys, vec![key(1), key(2), key(2), key(2), key(3), key(3), key(3)]);
}

#[test]
fn coin_configs_without_payloads() {
    let accounts = vec![(addr(1), key(1)), (addr(2), key(2))];
    let configs = TransferObjectWorkload::generate_coin_config_for_payloads(1, 1, 0, accounts);
    assert_eq!(configs.len(), 1);
    assert_eq!(configs[0].address, addr(1));
}

#[test]
fn workload_accounts_keep_the_last_key() {
    let workload = TransferObjectWorkload::new_boxed(vec![(addr(1), key(1)), (addr(2), key(2)), (addr(1), key(3))]);
    assert_eq!(workload.transfer_keypairs.get(addr(1)), Some(key(3)));
    assert_eq!(workload.transfer_keypairs.get(addr(2)), Some(key(2)));
    assert_eq!(workload.transfer_keypairs.get(addr(4)), None);
    let mut addresses = workload.transfer_keypairs.addresses();
    addresses.sort_by_key(|a| a.low);
    assert_eq!(addresses, vec![addr(1), addr(2)]);
    assert_eq!(workload.get_workload_type(), WorkloadType::TransferObject);
}

/// Two accounts (1 and 2), two rounds, and two tokens owned by account 9.
fn two_account_payloads() -> (Vec<TransferObjectTestPayload>, Vec<SuiAddress>) {
    let workload = TransferObjectWorkload::new_boxed(vec![(addr(1), key(1)), (addr(2), key(2)), (addr(9), key(9))]);
    let gas = vec![coin(10, 1, 1), coin(11, 1, 1), coin(20, 2, 2), coin(21, 2, 2)];
    let tokens = vec![coin(30, 9, 9), coin(31, 9, 9), coin(32, 9, 9)];
    let order = workload.transfer_keypairs.addresses();
    // Account 9 needs gas too: give it two coins.
    let mut all_gas = gas;
    all_gas.push(coin(90, 9, 9));
    all_gas.push(coin(91, 9, 9));
    let config = WorkloadPayloadConfig { transfer_tokens: tokens, transfer_object_payload_gas: all_gas, shared_counter_payload_gas: vec![] };
    (workload.make_test_payloads(2, config), order)
}

#[test]
fn test_payloads_take_one_coin_per_account_per_round() {
    let (payloads, order) = two_account_payloads();
    assert_eq!(payloads.len(), 2);
    for (round, p) in payloads.iter().enumerate() {
        assert_eq!(p.transfer_object, oref(30 + round as u128, 1));
        assert_eq!(p.transfer_from, addr(9));
        assert_eq!(p.gas.len(), 3);
        for (j, g) in p.gas.iter().enumerate() {
            assert_eq!(g.1, Owner::AddressOwner(order[j]));
        }
        let expected_to = *order.iter().find(|a| **a != addr(9)).unwrap();
        assert_eq!(p.transfer_to, expected_to);
        assert_eq!(p.get_object_id(), oid(30 + round as u128));
        assert_eq!(p.get_workload_type(), WorkloadType::TransferObject);
    }
    let index_of = |a: SuiAddress| order.iter().position(|x| *x == a).unwrap();
    assert_eq!(payloads[0].gas[index_of(addr(1))].0, oref(10, 1));
    assert_eq!(payloads[1].gas[index_of(addr(1))].0, oref(11, 1));
    assert_eq!(payloads[1].gas[index_of(addr(2))].0, oref(21, 1));
}

#[test]
fn test_payloads_use_the_last_run_of_an_owner() {
    let workload = TransferObjectWorkload::new_boxed(vec![(addr(1), key(1)), (addr(2), key(2))]);
    // Account 1's coins come in two runs; the later one is used.
    let gas = vec![coin(10, 1, 1), coin(20, 2, 2), coin(11, 1, 1)];
    let tokens = vec![coin(30, 1, 1)];
    let config = WorkloadPayloadConfig { transfer_tokens: tokens, transfer_object_payload_gas: gas, shared_counter_payload_gas: vec![] };
    let payloads = workload.make_test_payloads(1, config);
    assert_eq!(payloads.len(), 1);
    let coins: Vec<ObjectRef> = payloads[0].gas.iter().map(|g| g.0).collect();
    assert!(coins.contains(&oref(11, 1)));
    assert!(!coins.contains(&oref(10, 1)));
    assert_eq!(payloads[0].transfer_to, addr(2));
}

#[test]
fn test_payloads_stop_at_the_tokens() {
    let workload = TransferObjectWorkload::new_boxed(vec![(addr(1), key(1)), (addr(2), key(2))]);
    let gas = vec![coin(10, 1, 1), coin(11, 1, 1), coin(20, 2, 2), coin(21, 2, 2)];
    let config = WorkloadPayloadConfig { transfer_tokens: vec![coin(30, 1, 1)], transfer_object_payload_gas: gas, shared_counter_payload_gas: vec![] };
    assert_eq!(workload.make_test_payloads(2, config).len(), 1);
    let config = WorkloadPayloadConfig { transfer_tokens: vec![], transfer_object_payload_gas: vec![], shared_counter_payload_gas: vec![] };
    assert_eq!(workload.make_test_payloads(0, config).len(), 0);
}

#[test]
fn transfer_payload_rotates_between_accounts() {
    let workload = TransferObjectWorkload::new_boxed(vec![(addr(1), key(1)), (addr(2), key(2))]);
    let gas = vec![coin(10, 1, 1), coin(20, 2, 2)];
    let config = WorkloadPayloadConfig { transfer_tokens: vec![coin(30, 1, 1)], transfer_object_payload_gas: gas, shared_counter_payload_gas: vec![] };
    let mut payloads = workload.make_test_payloads(1, config);
    let p = payloads.pop().unwrap();
    assert_eq!(p.transfer_from, addr(1));
    assert_eq!(p.transfer_to, addr(2));
    let tx = p.make_transaction();
    assert_eq!(tx.object, oref(30, 1));
    assert_eq!(tx.sender, addr(1));
    assert_eq!(tx.recipient, addr(2));
    assert_eq!(tx.keypair, key(1));
    assert_eq!(tx.gas, oref(10, 1));
    let p = p.make_new_payload(oref(30, 2), oref(10, 2));
    assert_eq!(p.transfer_object, oref(30, 2));
    assert_eq!(p.transfer_from, addr(2));
    assert_eq!(p.transfer_to, addr(1));
    let tx = p.make_transaction();
    assert_eq!(tx.sender, addr(2));
    assert_eq!(tx.recipient, addr(1));
    assert_eq!(tx.keypair, key(2));
    assert_eq!(tx.gas, oref(20, 1));
    let p = p.make_new_payload(oref(30, 3), oref(20, 2));
    assert_eq!(p.transfer_from, addr(1));
    assert_eq!(p.transfer_to, addr(2));
    let coins: Vec<ObjectRef> = p.gas.iter().map(|g| g.0).collect();
    assert!(coins.contains(&oref(10, 2)));
    assert!(coins.contains(&oref(20, 2)));
    assert_eq!(p.make_transaction().gas, oref(10, 2));
}

#[test]
fn renewal_makes_object_owned_gas_address_owned() {
    let keys = TransferObjectWorkload::new_boxed(vec![(addr(1), key(1)), (addr(2), key(2))]);
    let p = TransferObjectTestPayload {
        transfer_object: oref(30, 1),
        transfer_from: addr(1),
        transfer_to: addr(2),
        gas: vec![(oref(10, 1), Owner::ObjectOwner(addr(1)), key(1)), coin(20, 2, 2)],
        keypairs: keys.transfer_keypairs.share(),
    };
    let p = p.make_new_payload(oref(30, 2), oref(10, 2));
    assert_eq!(p.gas[0], (oref(10, 2), Owner::AddressOwner(addr(1)), key(1)));
    assert_eq!(p.gas[1], coin(20, 2, 2));
}

fn payload_set(n: u128) -> Vec<TransferObjectTestPayload> {
    let workload = TransferObjectWorkload::new_boxed(vec![(addr(1), key(1)), (addr(2), key(2))]);
    let gas = vec![coin(10, 1, 1), coin(11, 1, 1), coin(20, 2, 2), coin(21, 2, 2)];
    let tokens = vec![coin(n, 1, 1), coin(n + 1, 1, 1)];
    let config = WorkloadPayloadConfig { transfer_tokens: tokens, transfer_object_payload_gas: gas, shared_counter_payload_gas: vec![] };
    workload.make_test_payloads(2, config)
}

#[test]
fn combination_takes_payloads_from_the_back() {
    let combined = combine_payloads(2, vec![(1, payload_set(100)), (3, payload_set(200))]);
    assert_eq!(combined.len(), 2);
    assert_eq!(combined[0].current_index(), 0);
    assert_eq!(combined[0].get_object_id(), oid(101));
    assert_eq!(combined[1].get_object_id(), oid(100));
    assert_eq!(combined[0].get_workload_type(), WorkloadType::TransferObject);
    assert_eq!(combined[0].make_transaction().object, oref(101, 1));
}

#[test]
fn combination_moves_only_the_current_payload() {
    let mut combined = combine_payloads(2, vec![(1, payload_set(100)), (0, payload_set(200))]);
    let c: CombinationPayload<TransferObjectTestPayload> = combined.remove(0);
    let c = c.make_new_payload(oref(101, 2), oref(10, 2));
    // The second workload weighs nothing: the first is always drawn.
    assert_eq!(c.current_index(), 0);
    assert_eq!(c.get_object_id(), oid(101));
    assert_eq!(c.make_transaction().object, oref(101, 2));
    assert_eq!(c.make_transaction().sender, addr(2));
    // Drawn again and again, the weightless workload never comes up.
    let mut c = c;
    for version in 3..40 {
        c = c.make_new_payload(oref(101, version), oref(20, version));
        assert_eq!(c.current_index(), 0);
        assert_eq!(c.get_object_id(), oid(101));
    }
}

#[test]
fn combination_draws_among_the_workloads() {
    let mut combined = combine_payloads(2, vec![(1, payload_set(100)), (1, payload_set(200)), (5, payload_set(300))]);
    let mut c = combined.remove(0);
    let mut seen = [false; 3];
    for version in 2..200 {
        let current = c.current_index();
        assert!(current < 3);
        c = c.make_new_payload(oref(1000, version), oref(10, version));
        seen[c.current_index()] = true;
    }
    assert!(seen[2]);
}

#[test]
fn combination_of_nothing() {
    let combined: Vec<CombinationPayload<TransferObjectTestPayload>> = combine_payloads(0, vec![]);
    assert!(combined.is_empty());
}

#[test]
fn generate_gas_for_test_counts_that_do_not_fit() {
    let (state, _) = generate_gas_for_test(
        Owner::AddressOwner(addr(1)),
        oref(50, 1),
        coin(100, 1, 1),
        2,
        vec![cfg(10, 10)],
        vec![],
        vec![cfg(12, 12)],
        10_000,
    );
    let (state, _) = state.step(SplitCoinAndPayEvent::Framework(oref(9, 1)));
    let created: Vec<(ObjectRef, Owner)> = (60..62).map(|i| (oref(i, 2), Owner::AddressOwner(addr(1)))).collect();
    let effects = TransactionEffects { created, mutated: vec![(oref(100, 2), Owner::AddressOwner(addr(1)))] };
    let (state, _) = state.step(SplitCoinAndPayEvent::Executed(effects));
    let mutated = vec![
        (oref(60, 3), Owner::AddressOwner(addr(10))),
        (oref(61, 3), Owner::AddressOwner(addr(12))),
        (oref(100, 3), Owner::AddressOwner(addr(1))),
    ];
    let (state, action) = state.step(SplitCoinAndPayEvent::Executed(TransactionEffects { created: vec![], mutated }));
    // Two coins, one for the shared counter: one left, and two tokens asked for.
    assert!(!state.counts_fit(&action));
}

#[test]
fn alias_weights_validity() {
    assert!(!alias_weights_are_valid(&vec![]));
    assert!(!alias_weights_are_valid(&vec![0, 0]));
    assert!(!alias_weights_are_valid(&vec![u32::MAX, 1]));
    assert!(alias_weights_are_valid(&vec![u32::MAX / 2, u32::MAX / 2]));
    assert!(!alias_weights_are_valid(&vec![u32::MAX / 2 + 1, 1]));
    assert!(alias_weights_are_valid(&vec![0, 3]));
    assert!(alias_weights_are_valid(&vec![u32::MAX]));
}

#[test]
fn payloads_possible_decides_make_test_payloads() {
    let workload = TransferObjectWorkload::new_boxed(vec![(addr(1), key(1)), (addr(2), key(2))]);
    let config = |tokens: Vec<Gas>, gas: Vec<Gas>| WorkloadPayloadConfig {
        transfer_tokens: tokens,
        transfer_object_payload_gas: gas,
        shared_counter_payload_gas: vec![],
    };
    let gas = vec![coin(10, 1, 1), coin(11, 1, 1), coin(20, 2, 2), coin(21, 2, 2)];
    assert!(workload.payloads_possible(2, &config(vec![coin(30, 1, 1)], gas.clone())));
    // Too few coins in an account's run.
    assert!(!workload.payloads_possible(3, &config(vec![coin(30, 1, 1)], gas.clone())));
    // An account with no coins at all.
    assert!(!workload.payloads_possible(1, &config(vec![coin(30, 1, 1)], vec![coin(10, 1, 1)])));
    // No payloads asked for: nothing is looked up.
    assert!(workload.payloads_possible(0, &config(vec![], vec![coin(10, 1, 1)])));
    // A gas coin with no address owner.
    let mut shared = gas.clone();
    shared.push((oref(40, 1), Owner::Immutable, key(1)));
    assert!(!workload.payloads_possible(1, &config(vec![coin(30, 1, 1)], shared)));
    // A token with no address owner.
    let token = (oref(30, 1), Owner::Shared { initial_shared_version: 1 }, key(1));
    assert!(!workload.payloads_possible(1, &config(vec![token], gas.clone())));
    // A token whose owner owns every coin of the round.
    let single = TransferObjectWorkload::new_boxed(vec![(addr(1), key(1))]);
    assert!(!single.payloads_possible(1, &config(vec![coin(30, 1, 1)], vec![coin(10, 1, 1)])));
    assert!(single.payloads_possible(1, &config(vec![coin(30, 2, 1)], vec![coin(10, 1, 1)])));
}

#[test]
fn payload_readiness_deciders() {
    let keys = TransferObjectWorkload::new_boxed(vec![(addr(1), key(1)), (addr(2), key(2))]);
    let payload = |from: u128, to: u128, gas: Vec<Gas>| TransferObjectTestPayload {
        transfer_object: oref(30, 1),
        transfer_from: addr(from),
        transfer_to: addr(to),
        gas,
        keypairs: keys.transfer_keypairs.share(),
    };
    let p = payload(1, 2, vec![coin(10, 1, 1), coin(20, 2, 2)]);
    assert!(p.is_renewable());
    assert!(p.is_ready());
    // Every coin owned by the recipient: nowhere to go next.
    let p = payload(1, 2, vec![coin(20, 2, 2)]);
    assert!(!p.is_renewable());
    assert!(!p.is_ready());
    // A coin with no address owner before the sender's.
    let p = payload(1, 2, vec![(oref(40, 1), Owner::Immutable, key(1)), coin(10, 1, 1), coin(20, 2, 2)]);
    assert!(!p.is_renewable());
    assert!(!p.is_ready());
    // The same coin after the sender's: ready, but not renewable.
    let p = payload(1, 2, vec![coin(10, 1, 1), (oref(40, 1), Owner::Immutable, key(1)), coin(20, 2, 2)]);
    assert!(!p.is_renewable());
    assert!(p.is_ready());
    // A sender without a key pair.
    let p = payload(3, 2, vec![coin(10, 3, 3), coin(20, 2, 2)]);
    assert!(p.is_renewable());
    assert!(!p.is_ready());
    let combined = combine_payloads(1, vec![(1, vec![payload(1, 2, vec![coin(10, 1, 1), coin(20, 2, 2)])])]);
    assert!(combined[0].is_renewable());
    assert!(combined[0].is_ready());
}
