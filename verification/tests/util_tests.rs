use sui_benchmark::base_types::{BenchmarkError, ObjectDigest, ObjectID, ObjectRef, Owner, SuiAddress};
use sui_benchmark::util::{
    make_pay_tx, make_split_coin_tx, split_coin_and_pay, transfer_sui_for_testing, CallArg, Gas, KeyRef,
    SplitCoinAndPay, SplitCoinAndPayAction, SplitCoinAndPayEvent, TransactionEffects, TransferSuiAction,
    TransferSuiEvent, MAX_GAS_FOR_TESTING,
};
use sui_benchmark::workloads::workload::GasCoinConfig;

/// The payment's gas budget in these tests.
const PAY_BUDGET: u64 = 10_000;

fn addr(n: u128) -> SuiAddress {
    SuiAddress { high: 0, low: n }
}

fn oid(n: u128) -> ObjectID {
    ObjectID { high: 7, low: n }
}

fn oref(n: u128, version: u64) -> ObjectRef {
    (oid(n), version, ObjectDigest { high: n, low: version as u128 })
}

fn key(n: u64) -> KeyRef {
    KeyRef { id: n }
}

fn config(amount: u64, a: u128, k: u64) -> GasCoinConfig {
    GasCoinConfig { amount, address: addr(a), keypair: key(k) }
}

fn primary_gas() -> Gas {
    (oref(100, 1), Owner::AddressOwner(addr(1)), key(1))
}

fn pure_bytes(arg: &CallArg) -> Vec<u8> {
    match arg {
        CallArg::Pure(b) => b.clone(),
        CallArg::ImmOrOwnedObject(_) => panic!("expected pure bytes"),
    }
}

#[test]
fn owner_address_of_each_kind() {
    assert_eq!(Owner::AddressOwner(addr(3)).get_owner_address(), Ok(addr(3)));
    assert_eq!(Owner::ObjectOwner(addr(4)).get_owner_address(), Ok(addr(4)));
    assert_eq!(
        Owner::Shared { initial_shared_version: 2 }.get_owner_address(),
        Err(BenchmarkError::UnexpectedOwnerType)
    );
    assert_eq!(Owner::Immutable.get_owner_address(), Err(BenchmarkError::UnexpectedOwnerType));
}

fn split_bytes(amounts: Vec<u64>) -> Vec<u8> {
    let tx = make_split_coin_tx(oref(9, 1), addr(1), oref(50, 3), amounts, oref(100, 1), key(1));
    pure_bytes(&tx.arguments[1])
}

#[test]
fn bcs_encodes_length_then_little_endian_values() {
    assert_eq!(split_bytes(vec![1, 2]), vec![2, 1, 0, 0, 0, 0, 0, 0, 0, 2, 0, 0, 0, 0, 0, 0, 0]);
    assert_eq!(split_bytes(vec![0x0102030405060708]), vec![1, 8, 7, 6, 5, 4, 3, 2, 1]);
    let bytes = split_bytes(vec![0u64; 300]);
    assert_eq!(&bytes[..2], &[0xac, 0x02]);
    assert_eq!(bytes.len(), 2 + 300 * 8);
    let bytes = split_bytes(vec![u64::MAX; 128]);
    assert_eq!(&bytes[..2], &[0x80, 0x01]);
    assert_eq!(bytes[2..10], [0xff; 8]);
    assert_eq!(split_bytes(vec![]), vec![0]);
}

#[test]
fn split_coin_tx_carries_coin_and_encoded_amounts() {
    let tx = make_split_coin_tx(oref(9, 1), addr(1), oref(50, 3), vec![5, 6], oref(100, 1), key(1));
    assert_eq!(tx.sender, addr(1));
    assert_eq!(tx.framework, oref(9, 1));
    assert_eq!(tx.gas, oref(100, 1));
    assert_eq!(tx.gas_budget, MAX_GAS_FOR_TESTING);
    assert_eq!(tx.gas_budget, 1_000_000_000);
    assert_eq!(tx.keypair, key(1));
    assert_eq!(tx.arguments.len(), 2);
    match &tx.arguments[0] {
        CallArg::ImmOrOwnedObject(r) => assert_eq!(*r, oref(50, 3)),
        CallArg::Pure(_) => panic!("expected the coin"),
    }
    assert_eq!(pure_bytes(&tx.arguments[1]), vec![2, 5, 0, 0, 0, 0, 0, 0, 0, 6, 0, 0, 0, 0, 0, 0, 0]);
}

#[test]
fn pay_tx_keeps_its_arguments() {
    let tx = make_pay_tx(vec![oref(1, 1), oref(2, 1)], addr(1), vec![addr(5), addr(6)], vec![10, 20], oref(3, 2), 777, key(4));
    assert_eq!(tx.input_coins, vec![oref(1, 1), oref(2, 1)]);
    assert_eq!(tx.sender, addr(1));
    assert_eq!(tx.recipients, vec![addr(5), addr(6)]);
    assert_eq!(tx.amounts, vec![10, 20]);
    assert_eq!(tx.gas, oref(3, 2));
    assert_eq!(tx.gas_budget, 777);
    assert_eq!(tx.keypair, key(4));
}

fn start_split(configs: Vec<GasCoinConfig>) -> SplitCoinAndPay {
    let (state, action) = split_coin_and_pay(Owner::AddressOwner(addr(1)), oref(50, 3), configs, primary_gas(), PAY_BUDGET);
    assert!(matches!(action, SplitCoinAndPayAction::GetFramework));
    state
}

fn split_effects() -> TransactionEffects {
    TransactionEffects {
        created: vec![(oref(60, 4), Owner::AddressOwner(addr(1))), (oref(61, 4), Owner::AddressOwner(addr(1)))],
        mutated: vec![(oref(50, 4), Owner::AddressOwner(addr(1))), (oref(100, 2), Owner::AddressOwner(addr(1)))],
    }
}

#[test]
fn split_coin_and_pay_runs_to_the_transferred_coins() {
    let configs = vec![config(10, 5, 50), config(20, 6, 60)];
    let state = start_split(configs);
    let (state, action) = state.step(SplitCoinAndPayEvent::Framework(oref(9, 1)));
    match action {
        SplitCoinAndPayAction::ExecuteSplit(tx) => {
            assert_eq!(tx.sender, addr(1));
            assert_eq!(tx.gas, oref(100, 1));
            assert_eq!(pure_bytes(&tx.arguments[1]), vec![2, 10, 0, 0, 0, 0, 0, 0, 0, 20, 0, 0, 0, 0, 0, 0, 0]);
        }
        _ => panic!("expected the split"),
    }
    let (state, action) = state.step(SplitCoinAndPayEvent::Executed(split_effects()));
    match action {
        SplitCoinAndPayAction::ExecutePay(tx) => {
            assert_eq!(tx.input_coins, vec![oref(60, 4), oref(61, 4)]);
            assert_eq!(tx.recipients, vec![addr(5), addr(6)]);
            assert_eq!(tx.amounts, vec![10, 20]);
            assert_eq!(tx.gas, oref(100, 2));
            assert_eq!(tx.gas_budget, PAY_BUDGET);
            assert_ne!(tx.gas_budget, MAX_GAS_FOR_TESTING);
            assert_eq!(tx.sender, addr(1));
            assert_eq!(tx.keypair, key(1));
        }
        _ => panic!("expected the payment"),
    }
    let pay_effects = TransactionEffects {
        created: vec![],
        mutated: vec![
            (oref(61, 5), Owner::AddressOwner(addr(6))),
            (oref(100, 3), Owner::AddressOwner(addr(1))),
            (oref(77, 1), Owner::AddressOwner(addr(9))),
            (oref(60, 5), Owner::AddressOwner(addr(5))),
        ],
    };
    let (state, action) = state.step(SplitCoinAndPayEvent::Executed(pay_effects));
    assert!(matches!(state, SplitCoinAndPay::Finished));
    match action {
        SplitCoinAndPayAction::Finish(Ok((gas, coins))) => {
            assert_eq!(gas, (oref(100, 3), Owner::AddressOwner(addr(1)), key(1)));
            assert_eq!(
                coins,
                vec![
                    (oref(61, 5), Owner::AddressOwner(addr(6)), key(60)),
                    (oref(60, 5), Owner::AddressOwner(addr(5)), key(50)),
                ]
            );
        }
        _ => panic!("expected success"),
    }
}

#[test]
fn split_coin_and_pay_key_of_repeated_address_is_the_last() {
    let configs = vec![config(10, 5, 50), config(20, 5, 51)];
    let state = start_split(configs);
    let (state, _) = state.step(SplitCoinAndPayEvent::Framework(oref(9, 1)));
    let (state, _) = state.step(SplitCoinAndPayEvent::Executed(split_effects()));
    let pay_effects = TransactionEffects {
        created: vec![],
        mutated: vec![(oref(60, 5), Owner::AddressOwner(addr(5))), (oref(100, 3), Owner::AddressOwner(addr(1)))],
    };
    let (_, action) = state.step(SplitCoinAndPayEvent::Executed(pay_effects));
    match action {
        SplitCoinAndPayAction::Finish(Ok((_, coins))) => {
            assert_eq!(coins, vec![(oref(60, 5), Owner::AddressOwner(addr(5)), key(51))]);
        }
        _ => panic!("expected success"),
    }
}

#[test]
fn split_coin_and_pay_coin_without_address_owner() {
    let (state, action) = split_coin_and_pay(Owner::Immutable, oref(50, 3), vec![config(1, 5, 5)], primary_gas(), PAY_BUDGET);
    assert!(matches!(state, SplitCoinAndPay::Finished));
    assert!(matches!(action, SplitCoinAndPayAction::Finish(Err(BenchmarkError::UnexpectedOwnerType))));
}

#[test]
fn split_coin_and_pay_gas_missing_after_split() {
    let state = start_split(vec![config(10, 5, 50), config(20, 6, 60)]);
    let (state, _) = state.step(SplitCoinAndPayEvent::Framework(oref(9, 1)));
    let effects = TransactionEffects { created: vec![], mutated: vec![(oref(50, 4), Owner::AddressOwner(addr(1)))] };
    let (state, action) = state.step(SplitCoinAndPayEvent::Executed(effects));
    assert!(matches!(state, SplitCoinAndPay::Finished));
    assert!(matches!(action, SplitCoinAndPayAction::Finish(Err(BenchmarkError::InputGasMissing))));
}

fn after_split(configs: Vec<GasCoinConfig>) -> SplitCoinAndPay {
    let state = start_split(configs);
    let (state, _) = state.step(SplitCoinAndPayEvent::Framework(oref(9, 1)));
    let (state, _) = state.step(SplitCoinAndPayEvent::Executed(split_effects()));
    state
}

#[test]
fn split_coin_and_pay_gas_missing_after_pay() {
    let state = after_split(vec![config(10, 5, 50), config(20, 6, 60)]);
    let effects = TransactionEffects { created: vec![], mutated: vec![(oref(60, 5), Owner::Shared { initial_shared_version: 1 })] };
    let (_, action) = state.step(SplitCoinAndPayEvent::Executed(effects));
    // The gas coin is looked for before the coins are: its absence decides.
    assert!(matches!(action, SplitCoinAndPayAction::Finish(Err(BenchmarkError::InputGasMissing))));
}

#[test]
fn split_coin_and_pay_coin_with_shared_owner() {
    let state = after_split(vec![config(10, 5, 50), config(20, 6, 60)]);
    let effects = TransactionEffects {
        created: vec![],
        mutated: vec![
            (oref(100, 3), Owner::AddressOwner(addr(1))),
            (oref(61, 5), Owner::Shared { initial_shared_version: 1 }),
            (oref(60, 5), Owner::AddressOwner(addr(99))),
        ],
    };
    let (_, action) = state.step(SplitCoinAndPayEvent::Executed(effects));
    assert!(matches!(action, SplitCoinAndPayAction::Finish(Err(BenchmarkError::UnexpectedOwnerType))));
}

#[test]
fn split_coin_and_pay_coin_of_unknown_address() {
    let state = after_split(vec![config(10, 5, 50), config(20, 6, 60)]);
    let effects = TransactionEffects {
        created: vec![],
        mutated: vec![(oref(60, 5), Owner::AddressOwner(addr(99))), (oref(100, 3), Owner::AddressOwner(addr(1)))],
    };
    let (_, action) = state.step(SplitCoinAndPayEvent::Executed(effects));
    assert!(matches!(action, SplitCoinAndPayAction::Finish(Err(BenchmarkError::OwnerAddressMissing))));
}

#[test]
fn transfer_sui_succeeds_with_updated_and_minted() {
    let (state, action) = transfer_sui_for_testing(oref(100, 1), Owner::AddressOwner(addr(1)), key(1), 500, addr(2));
    let tx = match action {
        TransferSuiAction::Execute(tx) => tx,
        _ => panic!("expected execution"),
    };
    assert_eq!(tx.gas, oref(100, 1));
    assert_eq!(tx.recipient, addr(2));
    assert_eq!(tx.amount, Some(500));
    assert_eq!(tx.sender, addr(1));
    assert_eq!(tx.keypair, key(1));
    let effects = TransactionEffects {
        created: vec![(oref(70, 2), Owner::AddressOwner(addr(2))), (oref(71, 2), Owner::AddressOwner(addr(2)))],
        mutated: vec![(oref(5, 2), Owner::AddressOwner(addr(1))), (oref(100, 2), Owner::AddressOwner(addr(1)))],
    };
    let (state, action) = state.step(TransferSuiEvent::Executed(effects));
    assert!(state.finished);
    match action {
        TransferSuiAction::Done((updated, minted)) => {
            assert_eq!(updated, oref(100, 2));
            assert_eq!(minted, oref(70, 2));
        }
        _ => panic!("expected the result"),
    }
}

#[test]
fn transfer_sui_gives_up_after_five_failures() {
    let (mut state, action) = transfer_sui_for_testing(oref(100, 1), Owner::ObjectOwner(addr(1)), key(1), 5, addr(2));
    assert!(matches!(action, TransferSuiAction::Execute(_)));
    let mut executions = 1;
    loop {
        let (next, action) = state.step(TransferSuiEvent::Failed);
        state = next;
        match action {
            TransferSuiAction::SleepThenExecute(secs, tx) => {
                assert_eq!(secs, 3);
                assert_eq!(tx.gas, oref(100, 1));
                assert_eq!(tx.sender, addr(1));
                executions += 1;
            }
            TransferSuiAction::SleepThenGiveUp(secs) => {
                assert_eq!(secs, 3);
                break;
            }
            _ => panic!("unexpected action"),
        }
    }
    assert_eq!(executions, 5);
    assert_eq!(state.failures, 5);
    assert!(state.finished);
}

#[test]
fn split_coin_and_pay_accepts_only_fitting_answers() {
    let state = start_split(vec![config(10, 5, 50), config(20, 6, 60)]);
    assert!(state.accepts(&SplitCoinAndPayEvent::Framework(oref(9, 1))));
    assert!(!state.accepts(&SplitCoinAndPayEvent::Executed(split_effects())));
    let (state, _) = state.step(SplitCoinAndPayEvent::Framework(oref(9, 1)));
    assert!(!state.accepts(&SplitCoinAndPayEvent::Framework(oref(9, 1))));
    assert!(state.accepts(&SplitCoinAndPayEvent::Executed(split_effects())));
    // One coin created for two amounts.
    let short = TransactionEffects {
        created: vec![(oref(60, 4), Owner::AddressOwner(addr(1)))],
        mutated: vec![(oref(100, 2), Owner::AddressOwner(addr(1)))],
    };
    assert!(!state.accepts(&SplitCoinAndPayEvent::Executed(short)));
    // Without the gas coin, the count does not matter: the work ends with an error.
    let no_gas = TransactionEffects { created: vec![], mutated: vec![] };
    assert!(state.accepts(&SplitCoinAndPayEvent::Executed(no_gas)));
}

#[test]
fn transfer_sui_accepts_only_fitting_answers() {
    let (state, _) = transfer_sui_for_testing(oref(100, 1), Owner::AddressOwner(addr(1)), key(1), 5, addr(2));
    assert!(state.accepts(&TransferSuiEvent::Failed));
    let nothing_created = TransactionEffects { created: vec![], mutated: vec![(oref(100, 2), Owner::AddressOwner(addr(1)))] };
    assert!(!state.accepts(&TransferSuiEvent::Executed(nothing_created)));
    let gas_missing = TransactionEffects { created: vec![(oref(7, 1), Owner::AddressOwner(addr(2)))], mutated: vec![] };
    assert!(!state.accepts(&TransferSuiEvent::Executed(gas_missing)));
    let (state, _) = state.step(TransferSuiEvent::Executed(split_effects_for_transfer()));
    assert!(!state.accepts(&TransferSuiEvent::Failed));
}

fn split_effects_for_transfer() -> TransactionEffects {
    TransactionEffects {
        created: vec![(oref(7, 1), Owner::AddressOwner(addr(2)))],
        mutated: vec![(oref(100, 2), Owner::AddressOwner(addr(1)))],
    }
}
