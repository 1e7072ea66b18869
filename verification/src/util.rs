//! Gas coins and the transactions that create and hand them out: the split of
//! one primary coin into many, the payment of the pieces to their recipients,
//! and the transfer of SUI with retries. Each step that waits on the network is
//! a state machine here: the caller performs the action it returns and hands
//! back what the network answered.

use crate::base_types::{owner_address, BenchmarkError, ObjectID, ObjectRef, Owner, SuiAddress};
use crate::encoding::{bcs_decode_u64_seq, bcs_to_bytes_u64s, bcs_u64_seq, lemma_bcs_u64_seq_decodes, BCS_MAX_SEQUENCE_LENGTH};
use crate::workloads::workload::GasCoinConfig;
use vstd::prelude::*;

verus! {

/// The maximum gas transferred from the primary coin into any gas coin for
/// running the benchmark; also the gas budget of the split transaction.
pub const MAX_GAS_FOR_TESTING: u64 = 1_000_000_000;

/// How many times a SUI transfer is tried before giving up.
pub const TRANSFER_SUI_ATTEMPTS: u64 = 5;

/// Seconds to wait after a failed SUI transfer.
pub const TRANSFER_SUI_RETRY_SECS: u64 = 3;

/// A handle by which the caller finds the key pair of an account. The logic
/// here never reads a key pair; it only carries the handle along.
#[derive(Clone, Copy, Debug, PartialEq, Eq, Hash, Structural)]
pub struct KeyRef {
    pub id: u64,
}

/// A gas coin: its reference, its owner, and the key pair that signs for it.
pub type Gas = (ObjectRef, Owner, KeyRef);

/// The updated gas coin and the newly minted coin of a transfer.
pub type UpdatedAndNewlyMinted = (ObjectRef, ObjectRef);

/// The updated primary gas coin and the newly created gas coins.
pub type UpdatedAndNewlyMintedGasCoins = (Gas, Vec<Gas>);

/// What an executed transaction did to objects, as far as the benchmark reads it.
pub struct TransactionEffects {
    pub created: Vec<(ObjectRef, Owner)>,
    pub mutated: Vec<(ObjectRef, Owner)>,
}

/// An argument of a Move call.
pub enum CallArg {
    Pure(Vec<u8>),
    ImmOrOwnedObject(ObjectRef),
}

/// A call of the framework's `pay::split_vec`, which splits `coin` into new
/// coins of the given amounts, signed by `keypair`.
pub struct SplitCoinTx {
    pub sender: SuiAddress,
    pub framework: ObjectRef,
    pub arguments: Vec<CallArg>,
    pub gas: ObjectRef,
    pub gas_budget: u64,
    pub keypair: KeyRef,
}

/// A payment of `input_coins` to `recipients`, in `amounts`, paid with `gas`
/// up to `gas_budget`, signed by `keypair`.
pub struct PayTx {
    pub input_coins: Vec<ObjectRef>,
    pub sender: SuiAddress,
    pub recipients: Vec<SuiAddress>,
    pub amounts: Vec<u64>,
    pub gas: ObjectRef,
    pub gas_budget: u64,
    pub keypair: KeyRef,
}

/// A transfer of `amount` SUI out of `gas` to `recipient`, signed by `keypair`.
#[derive(Clone, Copy, Debug)]
pub struct TransferSuiTx {
    pub gas: ObjectRef,
    pub recipient: SuiAddress,
    pub amount: Option<u64>,
    pub sender: SuiAddress,
    pub keypair: KeyRef,
}

// ---------------------------------------------------------------------------
// Searching effects

/// The first entry whose object is `id`.
pub open spec fn find_by_id(entries: Seq<(ObjectRef, Owner)>, id: ObjectID) -> Option<(ObjectRef, Owner)>
    decreases entries.len(),
{
    if entries.len() == 0 {
        None
    } else if entries[0].0.0 == id {
        Some(entries[0])
    } else {
        find_by_id(entries.drop_first(), id)
    }
}

proof fn lemma_find_by_id_step(entries: Seq<(ObjectRef, Owner)>, id: ObjectID, i: int)
    requires
        0 <= i < entries.len(),
    ensures
        find_by_id(entries.subrange(i, entries.len() as int), id) == if entries[i].0.0 == id {
            Some(entries[i])
        } else {
            find_by_id(entries.subrange(i + 1, entries.len() as int), id)
        },
{
    let s = entries.subrange(i, entries.len() as int);
    assert(s.drop_first() =~= entries.subrange(i + 1, entries.len() as int));
}

/// The first entry of `entries` whose object is `id`.
pub fn find_object(entries: &Vec<(ObjectRef, Owner)>, id: ObjectID) -> (r: Option<(ObjectRef, Owner)>)
    ensures
        r == find_by_id(entries@, id),
{
    let mut i: usize = 0;
    proof {
        assert(entries@.subrange(0, entries@.len() as int) =~= entries@);
    }
    while i < entries.len()
        invariant
            i <= entries.len(),
            find_by_id(entries@, id) == find_by_id(entries@.subrange(i as int, entries@.len() as int), id),
        decreases entries.len() - i,
    {
        proof {
            lemma_find_by_id_step(entries@, id, i as int);
        }
        if entries[i].0.0 == id {
            return Some(entries[i]);
        }
        i = i + 1;
    }
    proof {
        assert(entries@.subrange(i as int, entries@.len() as int) =~= Seq::<(ObjectRef, Owner)>::empty());
    }
    None
}

/// Whether `id` is among `ids`.
pub fn contains_id(ids: &Vec<ObjectID>, id: ObjectID) -> (r: bool)
    ensures
        r == ids@.contains(id),
{
    let mut i: usize = 0;
    while i < ids.len()
        invariant
            i <= ids.len(),
            forall|j: int| 0 <= j < i ==> ids@[j] != id,
        decreases ids.len() - i,
    {
        if ids[i] == id {
            assert(ids@[i as int] == id);
            return true;
        }
        i = i + 1;
    }
    false
}


// ---------------------------------------------------------------------------
// Models of the values that the network is handed and hands back

/// What an executed transaction did, as plain sequences.
pub struct EffectsModel {
    pub created: Seq<(ObjectRef, Owner)>,
    pub mutated: Seq<(ObjectRef, Owner)>,
}

impl View for TransactionEffects {
    type V = EffectsModel;

    open spec fn view(&self) -> EffectsModel {
        EffectsModel { created: self.created@, mutated: self.mutated@ }
    }
}

/// A Move call argument with its bytes as a sequence.
pub enum CallArgModel {
    Pure(Seq<u8>),
    ImmOrOwnedObject(ObjectRef),
}

impl View for CallArg {
    type V = CallArgModel;

    open spec fn view(&self) -> CallArgModel {
        match self {
            CallArg::Pure(bytes) => CallArgModel::Pure(bytes@),
            CallArg::ImmOrOwnedObject(r) => CallArgModel::ImmOrOwnedObject(*r),
        }
    }
}

pub struct SplitCoinTxModel {
    pub sender: SuiAddress,
    pub framework: ObjectRef,
    pub arguments: Seq<CallArgModel>,
    pub gas: ObjectRef,
    pub gas_budget: u64,
    pub keypair: KeyRef,
}

impl View for SplitCoinTx {
    type V = SplitCoinTxModel;

    open spec fn view(&self) -> SplitCoinTxModel {
        SplitCoinTxModel {
            sender: self.sender,
            framework: self.framework,
            arguments: self.arguments@.map_values(|a: CallArg| a@),
            gas: self.gas,
            gas_budget: self.gas_budget,
            keypair: self.keypair,
        }
    }
}

pub struct PayTxModel {
    pub input_coins: Seq<ObjectRef>,
    pub sender: SuiAddress,
    pub recipients: Seq<SuiAddress>,
    pub amounts: Seq<u64>,
    pub gas: ObjectRef,
    pub gas_budget: u64,
    pub keypair: KeyRef,
}

impl View for PayTx {
    type V = PayTxModel;

    open spec fn view(&self) -> PayTxModel {
        PayTxModel {
            input_coins: self.input_coins@,
            sender: self.sender,
            recipients: self.recipients@,
            amounts: self.amounts@,
            gas: self.gas,
            gas_budget: self.gas_budget,
            keypair: self.keypair,
        }
    }
}

// ---------------------------------------------------------------------------
// Building the split and pay transactions

/// The split transaction: `pay::split_vec` of the framework package on `coin`,
/// with the amounts in BCS, and `MAX_GAS_FOR_TESTING` as its gas budget.
pub open spec fn split_coin_tx_model(
    framework: ObjectRef,
    sender: SuiAddress,
    coin: ObjectRef,
    split_amounts: Seq<u64>,
    gas: ObjectRef,
    keypair: KeyRef,
) -> SplitCoinTxModel {
    SplitCoinTxModel {
        sender,
        framework,
        arguments: seq![CallArgModel::ImmOrOwnedObject(coin), CallArgModel::Pure(bcs_u64_seq(split_amounts))],
        gas,
        gas_budget: MAX_GAS_FOR_TESTING,
        keypair,
    }
}

/// Builds the transaction that splits `coin` into coins of `split_amounts`.
pub fn make_split_coin_tx(
    framework: ObjectRef,
    sender: SuiAddress,
    coin: ObjectRef,
    split_amounts: Vec<u64>,
    gas: ObjectRef,
    keypair: KeyRef,
) -> (tx: SplitCoinTx)
    requires
        split_amounts@.len() <= BCS_MAX_SEQUENCE_LENGTH,
    ensures
        tx@ == split_coin_tx_model(framework, sender, coin, split_amounts@, gas, keypair),
{
    let encoded = match bcs_to_bytes_u64s(&split_amounts) {
        Some(bytes) => bytes,
        None => {
            proof {
                assert(false);
            }
            Vec::new()
        },
    };
    let mut arguments: Vec<CallArg> = Vec::new();
    arguments.push(CallArg::ImmOrOwnedObject(coin));
    arguments.push(CallArg::Pure(encoded));
    let tx = SplitCoinTx { sender, framework, arguments, gas, gas_budget: MAX_GAS_FOR_TESTING, keypair };
    proof {
        assert(tx@.arguments =~= split_coin_tx_model(framework, sender, coin, split_amounts@, gas, keypair).arguments);
    }
    tx
}

/// The split transaction names the coin as it is, and its amounts decode
/// back to the split amounts, in order (an empty list too).
pub proof fn lemma_split_coin_tx_arguments(
    framework: ObjectRef,
    sender: SuiAddress,
    coin: ObjectRef,
    split_amounts: Seq<u64>,
    gas: ObjectRef,
    keypair: KeyRef,
)
    ensures
        ({
            let tx = split_coin_tx_model(framework, sender, coin, split_amounts, gas, keypair);
            &&& tx.arguments.len() == 2
            &&& tx.arguments[0] == CallArgModel::ImmOrOwnedObject(coin)
            &&& tx.arguments[1] matches CallArgModel::Pure(bytes) && bcs_decode_u64_seq(bytes) == Some(split_amounts)
        }),
{
    lemma_bcs_u64_seq_decodes(split_amounts);
}

/// The split transaction depends on its arguments alone: two calls with
/// equal arguments give equal transactions.
pub proof fn lemma_split_coin_tx_deterministic(
    framework: ObjectRef,
    sender: SuiAddress,
    coin: ObjectRef,
    split_amounts: Seq<u64>,
    gas: ObjectRef,
    keypair: KeyRef,
    first: SplitCoinTxModel,
    second: SplitCoinTxModel,
)
    requires
        first == split_coin_tx_model(framework, sender, coin, split_amounts, gas, keypair),
        second == split_coin_tx_model(framework, sender, coin, split_amounts, gas, keypair),
    ensures
        first == second,
{
}

/// Builds the transaction that pays `input_coins` to `addresses` in
/// `split_amounts`, with the gas budget `gas_budget`.
pub fn make_pay_tx(
    input_coins: Vec<ObjectRef>,
    sender: SuiAddress,
    addresses: Vec<SuiAddress>,
    split_amounts: Vec<u64>,
    gas: ObjectRef,
    gas_budget: u64,
    keypair: KeyRef,
) -> (tx: PayTx)
    ensures
        tx@ == (PayTxModel {
            input_coins: input_coins@,
            sender,
            recipients: addresses@,
            amounts: split_amounts@,
            gas,
            gas_budget,
            keypair,
        }),
{
    PayTx { input_coins, sender, recipients: addresses, amounts: split_amounts, gas, gas_budget, keypair }
}

// ---------------------------------------------------------------------------
// Reading gas coin configurations and effects

/// The amount of each configured coin, in order.
pub open spec fn split_amounts_of(configs: Seq<GasCoinConfig>) -> Seq<u64> {
    configs.map_values(|c: GasCoinConfig| c.amount)
}

/// The recipient of each configured coin, in order.
pub open spec fn recipients_of(configs: Seq<GasCoinConfig>) -> Seq<SuiAddress> {
    configs.map_values(|c: GasCoinConfig| c.address)
}

/// The key pair configured for `address`: that of the last configuration
/// with this address, as when the configurations are collected into a map.
pub open spec fn keypair_for_address(configs: Seq<GasCoinConfig>, address: SuiAddress) -> Option<KeyRef>
    decreases configs.len(),
{
    if configs.len() == 0 {
        None
    } else if configs.last().address == address {
        Some(configs.last().keypair)
    } else {
        keypair_for_address(configs.drop_last(), address)
    }
}

/// The references of the created objects, in order.
pub open spec fn object_refs_of(entries: Seq<(ObjectRef, Owner)>) -> Seq<ObjectRef> {
    entries.map_values(|e: (ObjectRef, Owner)| e.0)
}

/// The identifiers of the referenced objects, in order.
pub open spec fn object_ids_of(refs: Seq<ObjectRef>) -> Seq<ObjectID> {
    refs.map_values(|r: ObjectRef| r.0)
}

/// The coins among `entries` whose objects are in `ids`, each with the key
/// pair configured for its owner; the first entry that fails decides the
/// error: an owner that is no address, or an address that no configuration
/// names.
pub open spec fn transferred_coins(
    entries: Seq<(ObjectRef, Owner)>,
    ids: Seq<ObjectID>,
    configs: Seq<GasCoinConfig>,
) -> Result<Seq<Gas>, BenchmarkError>
    decreases entries.len(),
{
    if entries.len() == 0 {
        Ok(Seq::empty())
    } else {
        match transferred_coins(entries.drop_last(), ids, configs) {
            Err(e) => Err(e),
            Ok(coins) => {
                let entry = entries.last();
                if !ids.contains(entry.0.0) {
                    Ok(coins)
                } else {
                    match owner_address(entry.1) {
                        None => Err(BenchmarkError::UnexpectedOwnerType),
                        Some(address) => match keypair_for_address(configs, address) {
                            None => Err(BenchmarkError::OwnerAddressMissing),
                            Some(keypair) => Ok(coins.push((entry.0, entry.1, keypair))),
                        },
                    }
                }
            },
        }
    }
}

/// The amount of each configured coin.
pub fn split_amounts(configs: &Vec<GasCoinConfig>) -> (r: Vec<u64>)
    ensures
        r@ == split_amounts_of(configs@),
{
    let mut r: Vec<u64> = Vec::new();
    let mut i: usize = 0;
    while i < configs.len()
        invariant
            i <= configs.len(),
            r@ == split_amounts_of(configs@.take(i as int)),
        decreases configs.len() - i,
    {
        proof {
            assert(configs@.take(i + 1) =~= configs@.take(i as int).push(configs@[i as int]));
        }
        r.push(configs[i].amount);
        i = i + 1;
    }
    proof {
        assert(configs@.take(i as int) =~= configs@);
    }
    r
}

/// The recipient of each configured coin.
pub fn recipient_addresses(configs: &Vec<GasCoinConfig>) -> (r: Vec<SuiAddress>)
    ensures
        r@ == recipients_of(configs@),
{
    let mut r: Vec<SuiAddress> = Vec::new();
    let mut i: usize = 0;
    while i < configs.len()
        invariant
            i <= configs.len(),
            r@ == recipients_of(configs@.take(i as int)),
        decreases configs.len() - i,
    {
        proof {
            assert(configs@.take(i + 1) =~= configs@.take(i as int).push(configs@[i as int]));
        }
        r.push(configs[i].address);
        i = i + 1;
    }
    proof {
        assert(configs@.take(i as int) =~= configs@);
    }
    r
}

/// The key pair configured for `address`, the last configuration winning.
pub fn find_keypair(configs: &Vec<GasCoinConfig>, address: SuiAddress) -> (r: Option<KeyRef>)
    ensures
        r == keypair_for_address(configs@, address),
{
    let mut found: Option<KeyRef> = None;
    let mut i: usize = 0;
    while i < configs.len()
        invariant
            i <= configs.len(),
            found == keypair_for_address(configs@.take(i as int), address),
        decreases configs.len() - i,
    {
        proof {
            assert(configs@.take(i + 1).drop_last() =~= configs@.take(i as int));
        }
        if configs[i].address == address {
            found = Some(configs[i].keypair);
        }
        i = i + 1;
    }
    proof {
        assert(configs@.take(i as int) =~= configs@);
    }
    found
}

/// The references of the created objects.
pub fn created_object_refs(entries: &Vec<(ObjectRef, Owner)>) -> (r: Vec<ObjectRef>)
    ensures
        r@ == object_refs_of(entries@),
{
    let mut r: Vec<ObjectRef> = Vec::new();
    let mut i: usize = 0;
    while i < entries.len()
        invariant
            i <= entries.len(),
            r@ == object_refs_of(entries@.take(i as int)),
        decreases entries.len() - i,
    {
        proof {
            assert(entries@.take(i + 1) =~= entries@.take(i as int).push(entries@[i as int]));
        }
        r.push(entries[i].0);
        i = i + 1;
    }
    proof {
        assert(entries@.take(i as int) =~= entries@);
    }
    r
}

/// The identifiers of the referenced objects.
pub fn object_ids(refs: &Vec<ObjectRef>) -> (r: Vec<ObjectID>)
    ensures
        r@ == object_ids_of(refs@),
{
    let mut r: Vec<ObjectID> = Vec::new();
    let mut i: usize = 0;
    while i < refs.len()
        invariant
            i <= refs.len(),
            r@ == object_ids_of(refs@.take(i as int)),
        decreases refs.len() - i,
    {
        proof {
            assert(refs@.take(i + 1) =~= refs@.take(i as int).push(refs@[i as int]));
        }
        r.push(refs[i].0);
        i = i + 1;
    }
    proof {
        assert(refs@.take(i as int) =~= refs@);
    }
    r
}

/// The coins that the payment handed out: the mutated objects among the
/// created coins, each with the key pair configured for its owner.
pub fn collect_transferred_coins(
    mutated: &Vec<(ObjectRef, Owner)>,
    created_coin_ids: &Vec<ObjectID>,
    coin_configs: &Vec<GasCoinConfig>,
) -> (r: Result<Vec<Gas>, BenchmarkError>)
    ensures
        match transferred_coins(mutated@, created_coin_ids@, coin_configs@) {
            Ok(coins) => r matches Ok(v) && v@ == coins,
            Err(e) => r == Err::<Vec<Gas>, BenchmarkError>(e),
        },
{
    let mut coins: Vec<Gas> = Vec::new();
    let mut i: usize = 0;
    while i < mutated.len()
        invariant
            i <= mutated.len(),
            transferred_coins(mutated@.take(i as int), created_coin_ids@, coin_configs@) == Ok::<Seq<Gas>, BenchmarkError>(coins@),
        decreases mutated.len() - i,
    {
        proof {
            assert(mutated@.take(i + 1).drop_last() =~= mutated@.take(i as int));
        }
        let entry = mutated[i];
        if contains_id(created_coin_ids, entry.0.0) {
            match entry.1.get_owner_address() {
                Err(e) => {
                    proof {
                        lemma_transferred_coins_error_sticks(mutated@, created_coin_ids@, coin_configs@, i + 1);
                    }
                    return Err(e);
                },
                Ok(address) => match find_keypair(coin_configs, address) {
                    None => {
                        proof {
                            lemma_transferred_coins_error_sticks(mutated@, created_coin_ids@, coin_configs@, i + 1);
                        }
                        return Err(BenchmarkError::OwnerAddressMissing);
                    },
                    Some(keypair) => {
                        coins.push((entry.0, entry.1, keypair));
                    },
                },
            }
        }
        i = i + 1;
    }
    proof {
        assert(mutated@.take(i as int) =~= mutated@);
    }
    Ok(coins)
}

/// Once a prefix of the entries fails, every longer prefix fails the same way.
proof fn lemma_transferred_coins_error_sticks(
    entries: Seq<(ObjectRef, Owner)>,
    ids: Seq<ObjectID>,
    configs: Seq<GasCoinConfig>,
    k: int,
)
    requires
        0 <= k <= entries.len(),
        transferred_coins(entries.take(k), ids, configs) is Err,
    ensures
        transferred_coins(entries, ids, configs) == transferred_coins(entries.take(k), ids, configs),
    decreases entries.len() - k,
{
    if k < entries.len() {
        assert(entries.take(k + 1).drop_last() =~= entries.take(k));
        lemma_transferred_coins_error_sticks(entries, ids, configs, k + 1);
    } else {
        assert(entries.take(k) =~= entries);
    }
}

// ---------------------------------------------------------------------------
// Splitting a primary coin and paying the pieces out

/// Where a split-and-pay stands: waiting for the framework package, for the
/// effects of the split, for the effects of the payment, or done.
pub enum SplitCoinAndPay {
    AwaitFramework {
        sender: SuiAddress,
        coin: ObjectRef,
        coin_configs: Vec<GasCoinConfig>,
        gas: Gas,
        pay_gas_budget: u64,
    },
    AwaitSplit {
        sender: SuiAddress,
        coin_configs: Vec<GasCoinConfig>,
        gas: Gas,
        split_amounts: Vec<u64>,
        pay_gas_budget: u64,
    },
    AwaitPay { coin_configs: Vec<GasCoinConfig>, gas: Gas, created_coin_ids: Vec<ObjectID> },
    Finished,
}

/// What the network answered.
pub enum SplitCoinAndPayEvent {
    /// The current reference of the framework package.
    Framework(ObjectRef),
    /// The effects of the transaction that was executed.
    Executed(TransactionEffects),
}

/// What the caller is to do next.
pub enum SplitCoinAndPayAction {
    /// Read the framework package object.
    GetFramework,
    /// Execute the split transaction.
    ExecuteSplit(SplitCoinTx),
    /// Execute the payment.
    ExecutePay(PayTx),
    /// Stop with this result.
    Finish(Result<UpdatedAndNewlyMintedGasCoins, BenchmarkError>),
}

pub enum SplitCoinAndPayModel {
    AwaitFramework {
        sender: SuiAddress,
        coin: ObjectRef,
        coin_configs: Seq<GasCoinConfig>,
        gas: Gas,
        pay_gas_budget: u64,
    },
    AwaitSplit {
        sender: SuiAddress,
        coin_configs: Seq<GasCoinConfig>,
        gas: Gas,
        split_amounts: Seq<u64>,
        pay_gas_budget: u64,
    },
    AwaitPay { coin_configs: Seq<GasCoinConfig>, gas: Gas, created_coin_ids: Seq<ObjectID> },
    Finished,
}

pub enum SplitCoinAndPayEventModel {
    Framework(ObjectRef),
    Executed(EffectsModel),
}

pub enum SplitCoinAndPayActionModel {
    GetFramework,
    ExecuteSplit(SplitCoinTxModel),
    ExecutePay(PayTxModel),
    Finish(Result<(Gas, Seq<Gas>), BenchmarkError>),
}

impl View for SplitCoinAndPay {
    type V = SplitCoinAndPayModel;

    open spec fn view(&self) -> SplitCoinAndPayModel {
        match self {
            SplitCoinAndPay::AwaitFramework { sender, coin, coin_configs, gas, pay_gas_budget } =>
                SplitCoinAndPayModel::AwaitFramework {
                    sender: *sender,
                    coin: *coin,
                    coin_configs: coin_configs@,
                    gas: *gas,
                    pay_gas_budget: *pay_gas_budget,
                },
            SplitCoinAndPay::AwaitSplit { sender, coin_configs, gas, split_amounts, pay_gas_budget } =>
                SplitCoinAndPayModel::AwaitSplit {
                    sender: *sender,
                    coin_configs: coin_configs@,
                    gas: *gas,
                    split_amounts: split_amounts@,
                    pay_gas_budget: *pay_gas_budget,
                },
            SplitCoinAndPay::AwaitPay { coin_configs, gas, created_coin_ids } =>
                SplitCoinAndPayModel::AwaitPay { coin_configs: coin_configs@, gas: *gas, created_coin_ids: created_coin_ids@ },
            SplitCoinAndPay::Finished => SplitCoinAndPayModel::Finished,
        }
    }
}

impl View for SplitCoinAndPayEvent {
    type V = SplitCoinAndPayEventModel;

    open spec fn view(&self) -> SplitCoinAndPayEventModel {
        match self {
            SplitCoinAndPayEvent::Framework(r) => SplitCoinAndPayEventModel::Framework(*r),
            SplitCoinAndPayEvent::Executed(effects) => SplitCoinAndPayEventModel::Executed(effects@),
        }
    }
}

impl View for SplitCoinAndPayAction {
    type V = SplitCoinAndPayActionModel;

    open spec fn view(&self) -> SplitCoinAndPayActionModel {
        match self {
            SplitCoinAndPayAction::GetFramework => SplitCoinAndPayActionModel::GetFramework,
            SplitCoinAndPayAction::ExecuteSplit(tx) => SplitCoinAndPayActionModel::ExecuteSplit(tx@),
            SplitCoinAndPayAction::ExecutePay(tx) => SplitCoinAndPayActionModel::ExecutePay(tx@),
            SplitCoinAndPayAction::Finish(Ok((gas, coins))) => SplitCoinAndPayActionModel::Finish(Ok((*gas, coins@))),
            SplitCoinAndPayAction::Finish(Err(e)) => SplitCoinAndPayActionModel::Finish(Err(*e)),
        }
    }
}

/// The first step: the sender is the owner of the coin to split; an owner
/// that is no address ends the work at once.
pub open spec fn split_coin_and_pay_start(
    coin_owner: Owner,
    coin: ObjectRef,
    coin_configs: Seq<GasCoinConfig>,
    gas: Gas,
    pay_gas_budget: u64,
) -> (SplitCoinAndPayModel, SplitCoinAndPayActionModel) {
    match owner_address(coin_owner) {
        None => (SplitCoinAndPayModel::Finished, SplitCoinAndPayActionModel::Finish(Err(BenchmarkError::UnexpectedOwnerType))),
        Some(sender) => (
            SplitCoinAndPayModel::AwaitFramework { sender, coin, coin_configs, gas, pay_gas_budget },
            SplitCoinAndPayActionModel::GetFramework,
        ),
    }
}

/// The answers that a state takes: the framework for the first wait (with
/// no more coins than BCS encodes), effects for the others; and the effects of
/// the split, where they show the gas coin, create one coin per amount.
pub open spec fn split_coin_and_pay_accepts(state: SplitCoinAndPayModel, event: SplitCoinAndPayEventModel) -> bool {
    match (state, event) {
        (SplitCoinAndPayModel::AwaitFramework { coin_configs, .. }, SplitCoinAndPayEventModel::Framework(_)) =>
            coin_configs.len() <= BCS_MAX_SEQUENCE_LENGTH,
        (SplitCoinAndPayModel::AwaitSplit { gas, split_amounts, .. }, SplitCoinAndPayEventModel::Executed(effects)) =>
            find_by_id(effects.mutated, gas.0.0) is Some ==> effects.created.len() == split_amounts.len(),
        (SplitCoinAndPayModel::AwaitPay { .. }, SplitCoinAndPayEventModel::Executed(_)) => true,
        _ => false,
    }
}

/// One step of a split-and-pay: after the framework, split the coin into the
/// configured amounts; after the split, pay the created coins to the
/// configured recipients with the updated gas coin; after the payment, return
/// the updated gas coin and the coins handed out. A gas coin missing from the
/// effects ends the work with `InputGasMissing`.
pub open spec fn split_coin_and_pay_next(
    state: SplitCoinAndPayModel,
    event: SplitCoinAndPayEventModel,
) -> (SplitCoinAndPayModel, SplitCoinAndPayActionModel) {
    match (state, event) {
        (
            SplitCoinAndPayModel::AwaitFramework { sender, coin, coin_configs, gas, pay_gas_budget },
            SplitCoinAndPayEventModel::Framework(framework),
        ) => {
            let amounts = split_amounts_of(coin_configs);
            (
                SplitCoinAndPayModel::AwaitSplit { sender, coin_configs, gas, split_amounts: amounts, pay_gas_budget },
                SplitCoinAndPayActionModel::ExecuteSplit(split_coin_tx_model(framework, sender, coin, amounts, gas.0, gas.2)),
            )
        },
        (
            SplitCoinAndPayModel::AwaitSplit { sender, coin_configs, gas, split_amounts, pay_gas_budget },
            SplitCoinAndPayEventModel::Executed(effects),
        ) => match find_by_id(effects.mutated, gas.0.0) {
            None => (SplitCoinAndPayModel::Finished, SplitCoinAndPayActionModel::Finish(Err(BenchmarkError::InputGasMissing))),
            Some(updated_gas) => {
                let created = object_refs_of(effects.created);
                (
                    SplitCoinAndPayModel::AwaitPay { coin_configs, gas, created_coin_ids: object_ids_of(created) },
                    SplitCoinAndPayActionModel::ExecutePay(PayTxModel {
                        input_coins: created,
                        sender,
                        recipients: recipients_of(coin_configs),
                        amounts: split_amounts,
                        gas: updated_gas.0,
                        gas_budget: pay_gas_budget,
                        keypair: gas.2,
                    }),
                )
            },
        },
        (
            SplitCoinAndPayModel::AwaitPay { coin_configs, gas, created_coin_ids },
            SplitCoinAndPayEventModel::Executed(effects),
        ) => (
            SplitCoinAndPayModel::Finished,
            SplitCoinAndPayActionModel::Finish(
                match find_by_id(effects.mutated, gas.0.0) {
                    None => Err(BenchmarkError::InputGasMissing),
                    Some(updated_gas) => match transferred_coins(effects.mutated, created_coin_ids, coin_configs) {
                        Err(e) => Err(e),
                        Ok(coins) => Ok(((updated_gas.0, updated_gas.1, gas.2), coins)),
                    },
                },
            ),
        ),
        _ => (state, SplitCoinAndPayActionModel::GetFramework),
    }
}

/// Starts splitting the primary coin `coin`, owned by `coin_owner`, into the
/// configured gas coins, paid for with `gas`; the payment gets the gas budget
/// `pay_gas_budget`.
pub fn split_coin_and_pay(
    coin_owner: Owner,
    coin: ObjectRef,
    coin_configs: Vec<GasCoinConfig>,
    gas: Gas,
    pay_gas_budget: u64,
) -> (r: (SplitCoinAndPay, SplitCoinAndPayAction))
    ensures
        (r.0@, r.1@) == split_coin_and_pay_start(coin_owner, coin, coin_configs@, gas, pay_gas_budget),
{
    match coin_owner.get_owner_address() {
        Err(e) => (SplitCoinAndPay::Finished, SplitCoinAndPayAction::Finish(Err(e))),
        Ok(sender) => (
            SplitCoinAndPay::AwaitFramework { sender, coin, coin_configs, gas, pay_gas_budget },
            SplitCoinAndPayAction::GetFramework,
        ),
    }
}

impl SplitCoinAndPay {
    /// Whether `step` takes this answer now.
    pub fn accepts(&self, event: &SplitCoinAndPayEvent) -> (b: bool)
        ensures
            b == split_coin_and_pay_accepts(self@, event@),
    {
        match (self, event) {
            (SplitCoinAndPay::AwaitFramework { coin_configs, .. }, SplitCoinAndPayEvent::Framework(_)) =>
                coin_configs.len() <= BCS_MAX_SEQUENCE_LENGTH,
            (SplitCoinAndPay::AwaitSplit { gas, split_amounts, .. }, SplitCoinAndPayEvent::Executed(effects)) => {
                match find_object(&effects.mutated, gas.0.0) {
                    Some(_) => effects.created.len() == split_amounts.len(),
                    None => true,
                }
            },
            (SplitCoinAndPay::AwaitPay { .. }, SplitCoinAndPayEvent::Executed(_)) => true,
            _ => false,
        }
    }

    /// Takes the network's answer and says what to do next.
    pub fn step(self, event: SplitCoinAndPayEvent) -> (r: (SplitCoinAndPay, SplitCoinAndPayAction))
        requires
            split_coin_and_pay_accepts(self@, event@),
        ensures
            (r.0@, r.1@) == split_coin_and_pay_next(self@, event@),
    {
        match (self, event) {
            (
                SplitCoinAndPay::AwaitFramework { sender, coin, coin_configs, gas, pay_gas_budget },
                SplitCoinAndPayEvent::Framework(framework),
            ) => {
                let amounts = split_amounts(&coin_configs);
                let tx = make_split_coin_tx(framework, sender, coin, amounts.clone(), gas.0, gas.2);
                (
                    SplitCoinAndPay::AwaitSplit { sender, coin_configs, gas, split_amounts: amounts, pay_gas_budget },
                    SplitCoinAndPayAction::ExecuteSplit(tx),
                )
            },
            (
                SplitCoinAndPay::AwaitSplit { sender, coin_configs, gas, split_amounts, pay_gas_budget },
                SplitCoinAndPayEvent::Executed(effects),
            ) => match find_object(&effects.mutated, gas.0.0) {
                None => (SplitCoinAndPay::Finished, SplitCoinAndPayAction::Finish(Err(BenchmarkError::InputGasMissing))),
                Some(updated_gas) => {
                    let created_coins = created_object_refs(&effects.created);
                    let created_coin_ids = object_ids(&created_coins);
                    let recipients = recipient_addresses(&coin_configs);
                    let tx = make_pay_tx(created_coins, sender, recipients, split_amounts, updated_gas.0, pay_gas_budget, gas.2);
                    (SplitCoinAndPay::AwaitPay { coin_configs, gas, created_coin_ids }, SplitCoinAndPayAction::ExecutePay(tx))
                },
            },
            (
                SplitCoinAndPay::AwaitPay { coin_configs, gas, created_coin_ids },
                SplitCoinAndPayEvent::Executed(effects),
            ) => {
                let transferred = collect_transferred_coins(&effects.mutated, &created_coin_ids, &coin_configs);
                let result = match find_object(&effects.mutated, gas.0.0) {
                    None => Err(BenchmarkError::InputGasMissing),
                    Some(updated_gas) => match transferred {
                        Err(e) => Err(e),
                        Ok(coins) => Ok(((updated_gas.0, updated_gas.1, gas.2), coins)),
                    },
                };
                (SplitCoinAndPay::Finished, SplitCoinAndPayAction::Finish(result))
            },
            (state, _) => {
                proof {
                    assert(false);
                }
                (state, SplitCoinAndPayAction::GetFramework)
            },
        }
    }
}

// ---------------------------------------------------------------------------
// Transferring SUI, with retries

/// Where a SUI transfer stands: the transaction, how many times it failed,
/// and whether it is over.
pub struct TransferSuiForTesting {
    pub tx: TransferSuiTx,
    pub failures: u64,
    pub finished: bool,
}

/// What the network answered to the transfer.
pub enum TransferSuiEvent {
    Executed(TransactionEffects),
    Failed,
}

pub enum TransferSuiEventModel {
    Executed(EffectsModel),
    Failed,
}

impl View for TransferSuiEvent {
    type V = TransferSuiEventModel;

    open spec fn view(&self) -> TransferSuiEventModel {
        match self {
            TransferSuiEvent::Executed(effects) => TransferSuiEventModel::Executed(effects@),
            TransferSuiEvent::Failed => TransferSuiEventModel::Failed,
        }
    }
}

/// What the caller is to do next.
pub enum TransferSuiAction {
    /// Execute the transfer.
    Execute(TransferSuiTx),
    /// Wait this many seconds, then execute the transfer again.
    SleepThenExecute(u64, TransferSuiTx),
    /// Wait this many seconds, then give up: the transfer cannot be done.
    SleepThenGiveUp(u64),
    /// Stop: the gas coin as updated and the coin that the transfer minted.
    Done(UpdatedAndNewlyMinted),
}

/// The transfer of `value` SUI from `gas` to `address`, sent by the owner of the gas.
pub open spec fn transfer_sui_tx(gas: ObjectRef, sender: SuiAddress, keypair: KeyRef, value: u64, address: SuiAddress) -> TransferSuiTx {
    TransferSuiTx { gas, recipient: address, amount: Some(value), sender, keypair }
}

/// The answers that a transfer in progress takes: a failure, or effects that
/// created an object and mutated the gas coin.
pub open spec fn transfer_sui_accepts(state: TransferSuiForTesting, event: TransferSuiEventModel) -> bool {
    &&& !state.finished
    &&& state.failures < TRANSFER_SUI_ATTEMPTS
    &&& event matches TransferSuiEventModel::Executed(effects) ==> {
        &&& effects.created.len() > 0
        &&& find_by_id(effects.mutated, state.tx.gas.0) is Some
    }
}

/// One step of a transfer: on success, the updated gas coin and the first
/// created object; on failure, wait and try again, unless this was the fifth
/// failure.
pub open spec fn transfer_sui_next(state: TransferSuiForTesting, event: TransferSuiEventModel) -> (TransferSuiForTesting, TransferSuiAction) {
    match event {
        TransferSuiEventModel::Executed(effects) => (
            TransferSuiForTesting { finished: true, ..state },
            TransferSuiAction::Done(((find_by_id(effects.mutated, state.tx.gas.0)->0).0, effects.created[0].0)),
        ),
        TransferSuiEventModel::Failed => {
            let failures = (state.failures + 1) as u64;
            if failures < TRANSFER_SUI_ATTEMPTS {
                (
                    TransferSuiForTesting { failures, ..state },
                    TransferSuiAction::SleepThenExecute(TRANSFER_SUI_RETRY_SECS, state.tx),
                )
            } else {
                (
                    TransferSuiForTesting { failures, finished: true, ..state },
                    TransferSuiAction::SleepThenGiveUp(TRANSFER_SUI_RETRY_SECS),
                )
            }
        },
    }
}

/// Starts transferring `value` SUI out of `gas`, owned by `sender`, to `address`.
pub fn transfer_sui_for_testing(
    gas: ObjectRef,
    sender: Owner,
    keypair: KeyRef,
    value: u64,
    address: SuiAddress,
) -> (r: (TransferSuiForTesting, TransferSuiAction))
    requires
        owner_address(sender) is Some,
    ensures
        r.0 == (TransferSuiForTesting {
            tx: transfer_sui_tx(gas, owner_address(sender)->0, keypair, value, address),
            failures: 0,
            finished: false,
        }),
        r.1 == TransferSuiAction::Execute(r.0.tx),
        r.0.tx.amount == Some(value),
        r.0.tx.gas == gas,
        r.0.tx.recipient == address,
        Some(r.0.tx.sender) == owner_address(sender),
        r.0.tx.keypair == keypair,
{
    let sender_address = match sender.get_owner_address() {
        Ok(a) => a,
        Err(_) => {
            proof {
                assert(false);
            }
            address
        },
    };
    let tx = TransferSuiTx { gas, recipient: address, amount: Some(value), sender: sender_address, keypair };
    (TransferSuiForTesting { tx, failures: 0, finished: false }, TransferSuiAction::Execute(tx))
}

impl TransferSuiForTesting {
    /// Whether `step` takes this answer now.
    pub fn accepts(&self, event: &TransferSuiEvent) -> (b: bool)
        ensures
            b == transfer_sui_accepts(*self, event@),
    {
        if self.finished || self.failures >= TRANSFER_SUI_ATTEMPTS {
            return false;
        }
        match event {
            TransferSuiEvent::Executed(effects) => effects.created.len() > 0 && find_object(
                &effects.mutated,
                self.tx.gas.0,
            ).is_some(),
            TransferSuiEvent::Failed => true,
        }
    }

    /// Takes the network's answer and says what to do next.
    pub fn step(self, event: TransferSuiEvent) -> (r: (TransferSuiForTesting, TransferSuiAction))
        requires
            transfer_sui_accepts(self, event@),
        ensures
            r == transfer_sui_next(self, event@),
    {
        match event {
            TransferSuiEvent::Executed(effects) => {
                let minted = effects.created[0].0;
                let updated = match find_object(&effects.mutated, self.tx.gas.0) {
                    Some(entry) => entry.0,
                    None => {
                        proof {
                            assert(false);
                        }
                        minted
                    },
                };
                (TransferSuiForTesting { finished: true, ..self }, TransferSuiAction::Done((updated, minted)))
            },
            TransferSuiEvent::Failed => {
                let failures = self.failures + 1;
                if failures < TRANSFER_SUI_ATTEMPTS {
                    (TransferSuiForTesting { failures, ..self }, TransferSuiAction::SleepThenExecute(TRANSFER_SUI_RETRY_SECS, self.tx))
                } else {
                    (TransferSuiForTesting { failures, finished: true, ..self }, TransferSuiAction::SleepThenGiveUp(TRANSFER_SUI_RETRY_SECS))
                }
            },
        }
    }
}

// ---------------------------------------------------------------------------
// Laws

/// How many answers a split-and-pay still waits for.
pub open spec fn split_coin_and_pay_remaining(state: SplitCoinAndPayModel) -> nat {
    match state {
        SplitCoinAndPayModel::AwaitFramework { .. } => 3,
        SplitCoinAndPayModel::AwaitSplit { .. } => 2,
        SplitCoinAndPayModel::AwaitPay { .. } => 1,
        SplitCoinAndPayModel::Finished => 0,
    }
}

/// A split-and-pay asks the network at most three times: it starts waiting,
/// or finishes at once; each answer brings it closer to the end; and it
/// stops exactly when it is finished.
pub proof fn lemma_split_coin_and_pay_terminates(
    coin_owner: Owner,
    coin: ObjectRef,
    coin_configs: Seq<GasCoinConfig>,
    gas: Gas,
    pay_gas_budget: u64,
    state: SplitCoinAndPayModel,
    event: SplitCoinAndPayEventModel,
)
    ensures
        ({
            let start = split_coin_and_pay_start(coin_owner, coin, coin_configs, gas, pay_gas_budget);
            &&& split_coin_and_pay_remaining(start.0) <= 3
            &&& (start.1 is Finish <==> start.0 is Finished)
        }),
        split_coin_and_pay_accepts(state, event) ==> {
            let next = split_coin_and_pay_next(state, event);
            &&& split_coin_and_pay_remaining(next.0) < split_coin_and_pay_remaining(state)
            &&& (next.1 is Finish <==> next.0 is Finished)
        },
{
}

/// The payment matches the split: after a split of the configured amounts,
/// the payment sends the created coins, as many as there are configurations
/// and in order, each to the configured address with the configured amount,
/// paid with the gas coin as the split left it, within the payment's own gas
/// budget.
pub proof fn lemma_pay_matches_split(
    sender: SuiAddress,
    coin: ObjectRef,
    coin_configs: Seq<GasCoinConfig>,
    gas: Gas,
    pay_gas_budget: u64,
    framework: ObjectRef,
    effects: EffectsModel,
)
    requires
        coin_configs.len() <= BCS_MAX_SEQUENCE_LENGTH,
    ensures
        ({
            let s0 = SplitCoinAndPayModel::AwaitFramework { sender, coin, coin_configs, gas, pay_gas_budget };
            let (s1, a1) = split_coin_and_pay_next(s0, SplitCoinAndPayEventModel::Framework(framework));
            &&& a1 == SplitCoinAndPayActionModel::ExecuteSplit(
                split_coin_tx_model(framework, sender, coin, split_amounts_of(coin_configs), gas.0, gas.2),
            )
            &&& (split_coin_and_pay_accepts(s1, SplitCoinAndPayEventModel::Executed(effects)) && find_by_id(
                effects.mutated,
                gas.0.0,
            ) is Some) ==> {
                let (s2, a2) = split_coin_and_pay_next(s1, SplitCoinAndPayEventModel::Executed(effects));
                &&& a2 matches SplitCoinAndPayActionModel::ExecutePay(pay)
                &&& pay.input_coins.len() == coin_configs.len()
                &&& forall|i: int|
                    0 <= i < coin_configs.len() ==> {
                        &&& pay.input_coins[i] == (#[trigger] effects.created[i]).0
                        &&& pay.recipients[i] == coin_configs[i].address
                        &&& pay.amounts[i] == coin_configs[i].amount
                    }
                &&& pay.gas == (find_by_id(effects.mutated, gas.0.0)->0).0
                &&& pay.gas_budget == pay_gas_budget
                &&& pay.sender == sender
            }
        }),
{
}

/// `find_by_id` finds the first entry with the object, and nothing exactly
/// when no entry has it.
pub proof fn lemma_find_by_id_first(entries: Seq<(ObjectRef, Owner)>, id: ObjectID)
    ensures
        find_by_id(entries, id) matches Some(e) ==> exists|i: int|
            0 <= i < entries.len() && #[trigger] entries[i] == e && e.0.0 == id && forall|j: int|
                0 <= j < i ==> (#[trigger] entries[j]).0.0 != id,
        find_by_id(entries, id) is None ==> forall|j: int| 0 <= j < entries.len() ==> (#[trigger] entries[j]).0.0 != id,
    decreases entries.len(),
{
    if entries.len() > 0 && entries[0].0.0 != id {
        let rest = entries.drop_first();
        lemma_find_by_id_first(rest, id);
        if let Some(e) = find_by_id(rest, id) {
            let i = choose|i: int|
                0 <= i < rest.len() && #[trigger] rest[i] == e && e.0.0 == id && forall|j: int|
                    0 <= j < i ==> (#[trigger] rest[j]).0.0 != id;
            assert(entries[i + 1] == e);
            assert forall|j: int| 0 <= j < i + 1 implies (#[trigger] entries[j]).0.0 != id by {
                if j > 0 {
                    assert(entries[j] == rest[j - 1]);
                }
            }
        } else {
            assert forall|j: int| 0 <= j < entries.len() implies (#[trigger] entries[j]).0.0 != id by {
                if j > 0 {
                    assert(entries[j] == rest[j - 1]);
                }
            }
        }
    } else if entries.len() > 0 {
        assert(entries[0] == entries[0]);
    }
}

/// The key pair configured for an address is that of its last configuration,
/// and there is none exactly when no configuration names the address.
pub proof fn lemma_keypair_for_address_last(configs: Seq<GasCoinConfig>, address: SuiAddress)
    ensures
        keypair_for_address(configs, address) matches Some(k) ==> exists|i: int|
            0 <= i < configs.len() && #[trigger] configs[i].address == address && configs[i].keypair == k && forall|
                j: int,
            | i < j < configs.len() ==> (#[trigger] configs[j]).address != address,
        keypair_for_address(configs, address) is None ==> forall|j: int|
            0 <= j < configs.len() ==> (#[trigger] configs[j]).address != address,
    decreases configs.len(),
{
    if configs.len() > 0 {
        let front = configs.drop_last();
        lemma_keypair_for_address_last(front, address);
        let n = configs.len() - 1;
        if configs.last().address == address {
            assert(configs[n].address == address);
        } else if let Some(k) = keypair_for_address(front, address) {
            let i = choose|i: int|
                0 <= i < front.len() && #[trigger] front[i].address == address && front[i].keypair == k && forall|
                    j: int,
                | i < j < front.len() ==> (#[trigger] front[j]).address != address;
            assert(configs[i] == front[i]);
            assert forall|j: int| i < j < configs.len() implies (#[trigger] configs[j]).address != address by {
                if j < n {
                    assert(configs[j] == front[j]);
                }
            }
        } else {
            assert forall|j: int| 0 <= j < configs.len() implies (#[trigger] configs[j]).address != address by {
                if j < n {
                    assert(configs[j] == front[j]);
                }
            }
        }
    }
}

/// Whether an effect entry is one of the created coins.
pub open spec fn is_created_coin(ids: Seq<ObjectID>) -> spec_fn((ObjectRef, Owner)) -> bool {
    |e: (ObjectRef, Owner)| ids.contains(e.0.0)
}

/// Whether an entry's owner is an address with a configured key pair.
pub open spec fn has_configured_key(configs: Seq<GasCoinConfig>, e: (ObjectRef, Owner)) -> bool {
    owner_address(e.1) matches Some(a) && keypair_for_address(configs, a) is Some
}

/// The coins handed out are exactly the mutated entries of the created coins,
/// every one of them and in order, whatever their owners: one coin per entry,
/// with the entry's reference and owner and the key pair configured for the
/// owner's address. The hand-out fails exactly when such an entry has no
/// address owner or no configured key pair.
pub proof fn lemma_transferred_coins_complete(
    entries: Seq<(ObjectRef, Owner)>,
    ids: Seq<ObjectID>,
    configs: Seq<GasCoinConfig>,
)
    ensures
        ({
            let kept = entries.filter(is_created_coin(ids));
            &&& (transferred_coins(entries, ids, configs) is Ok <==> forall|i: int|
                0 <= i < kept.len() ==> has_configured_key(configs, #[trigger] kept[i]))
            &&& transferred_coins(entries, ids, configs) matches Ok(coins) ==> {
                &&& coins.len() == kept.len()
                &&& forall|i: int|
                    0 <= i < kept.len() ==> {
                        &&& (#[trigger] coins[i]).0 == kept[i].0
                        &&& coins[i].1 == kept[i].1
                        &&& keypair_for_address(configs, owner_address(kept[i].1)->0) == Some(coins[i].2)
                    }
            }
        }),
    decreases entries.len(),
{
    if entries.len() > 0 {
        let front = entries.drop_last();
        let e = entries.last();
        lemma_transferred_coins_complete(front, ids, configs);
        let kept = entries.filter(is_created_coin(ids));
        let kept_front = front.filter(is_created_coin(ids));
        reveal(Seq::filter);
        if is_created_coin(ids)(e) {
            assert(kept == kept_front.push(e));
            assert(kept[kept.len() - 1] == e);
            assert forall|i: int| 0 <= i < kept_front.len() implies kept[i] == kept_front[i] by {}
            if transferred_coins(entries, ids, configs) is Ok {
                assert forall|i: int| 0 <= i < kept.len() implies has_configured_key(configs, #[trigger] kept[i]) by {
                    if i < kept_front.len() {
                        assert(kept[i] == kept_front[i]);
                    }
                }
            } else if transferred_coins(front, ids, configs) is Ok {
                assert(!has_configured_key(configs, kept[kept.len() - 1]));
            } else {
                let w = choose|i: int| 0 <= i < kept_front.len() && !has_configured_key(configs, #[trigger] kept_front[i]);
                assert(kept[w] == kept_front[w]);
                assert(!has_configured_key(configs, kept[w]));
            }
        } else {
            assert(kept == kept_front);
        }
    }
}

/// Every coin handed out by the payment is one of the created coins, owned by
/// an address, and carries the key pair configured for that address.
pub proof fn lemma_transferred_coins_keys(
    entries: Seq<(ObjectRef, Owner)>,
    ids: Seq<ObjectID>,
    configs: Seq<GasCoinConfig>,
)
    ensures
        transferred_coins(entries, ids, configs) matches Ok(coins) ==> forall|i: int|
            0 <= i < coins.len() ==> {
                &&& ids.contains((#[trigger] coins[i]).0.0)
                &&& owner_address(coins[i].1) is Some
                &&& keypair_for_address(configs, owner_address(coins[i].1)->0) == Some(coins[i].2)
            },
    decreases entries.len(),
{
    if entries.len() > 0 {
        lemma_transferred_coins_keys(entries.drop_last(), ids, configs);
    }
}

/// After the payment, a split-and-pay finishes; it hands out, with the gas
/// coin as the payment left it, every mutated entry of a created coin, in the
/// order of the effects and whatever its owner; it fails with
/// `InputGasMissing` where the effects do not show the gas coin, and otherwise
/// exactly where such an entry lacks an address owner with a configured key.
pub proof fn lemma_split_coin_and_pay_hands_out_every_paid_coin(
    coin_configs: Seq<GasCoinConfig>,
    gas: Gas,
    created_coin_ids: Seq<ObjectID>,
    effects: EffectsModel,
)
    ensures
        ({
            let state = SplitCoinAndPayModel::AwaitPay { coin_configs, gas, created_coin_ids };
            let (next, action) = split_coin_and_pay_next(state, SplitCoinAndPayEventModel::Executed(effects));
            let kept = effects.mutated.filter(is_created_coin(created_coin_ids));
            &&& next is Finished
            &&& action matches SplitCoinAndPayActionModel::Finish(result)
            &&& (find_by_id(effects.mutated, gas.0.0) is None ==> result == Err::<(Gas, Seq<Gas>), BenchmarkError>(
                BenchmarkError::InputGasMissing,
            ))
            &&& (find_by_id(effects.mutated, gas.0.0) is Some ==> (result is Ok <==> forall|i: int|
                0 <= i < kept.len() ==> has_configured_key(coin_configs, #[trigger] kept[i])))
            &&& result matches Ok((updated, coins)) ==> {
                &&& find_by_id(effects.mutated, gas.0.0) matches Some(u) && updated == (u.0, u.1, gas.2)
                &&& coins.len() == kept.len()
                &&& forall|i: int|
                    0 <= i < kept.len() ==> {
                        &&& (#[trigger] coins[i]).0 == kept[i].0
                        &&& coins[i].1 == kept[i].1
                        &&& keypair_for_address(coin_configs, owner_address(kept[i].1)->0) == Some(coins[i].2)
                    }
            }
        }),
{
    lemma_transferred_coins_complete(effects.mutated, created_coin_ids, coin_configs);
}

/// The split-and-pay's first two steps do what the configurations say: the
/// split takes the coin as it is, with the gas coin, the sender and the
/// gas's key pair, its amounts decoding to the configured amounts in order;
/// after the split, a gas coin missing from the effects ends the work with
/// `InputGasMissing`, and otherwise the payment sends each created coin, in
/// order, to the configured address with the configured amount, paid with the
/// gas coin as the split left it.
pub proof fn lemma_split_coin_and_pay_first_steps(
    sender: SuiAddress,
    coin: ObjectRef,
    coin_configs: Seq<GasCoinConfig>,
    gas: Gas,
    pay_gas_budget: u64,
    framework: ObjectRef,
    effects: EffectsModel,
)
    requires
        coin_configs.len() <= BCS_MAX_SEQUENCE_LENGTH,
    ensures
        ({
            let s0 = SplitCoinAndPayModel::AwaitFramework { sender, coin, coin_configs, gas, pay_gas_budget };
            let (s1, a1) = split_coin_and_pay_next(s0, SplitCoinAndPayEventModel::Framework(framework));
            &&& a1 matches SplitCoinAndPayActionModel::ExecuteSplit(tx) && {
                &&& tx.sender == sender
                &&& tx.framework == framework
                &&& tx.gas == gas.0
                &&& tx.keypair == gas.2
                &&& tx.gas_budget == MAX_GAS_FOR_TESTING
                &&& tx.arguments.len() == 2
                &&& tx.arguments[0] == CallArgModel::ImmOrOwnedObject(coin)
                &&& tx.arguments[1] matches CallArgModel::Pure(bytes) && bcs_decode_u64_seq(bytes) matches Some(amounts)
                    && amounts.len() == coin_configs.len() && forall|i: int|
                    0 <= i < coin_configs.len() ==> #[trigger] amounts[i] == coin_configs[i].amount
            }
            &&& split_coin_and_pay_accepts(s1, SplitCoinAndPayEventModel::Executed(effects)) ==> {
                let (s2, a2) = split_coin_and_pay_next(s1, SplitCoinAndPayEventModel::Executed(effects));
                &&& find_by_id(effects.mutated, gas.0.0) is None ==> s2 is Finished && a2
                    == SplitCoinAndPayActionModel::Finish(Err(BenchmarkError::InputGasMissing))
                &&& find_by_id(effects.mutated, gas.0.0) is Some ==> (a2 matches SplitCoinAndPayActionModel::ExecutePay(
                    pay,
                ) && {
                    &&& pay.sender == sender
                    &&& pay.keypair == gas.2
                    &&& pay.gas_budget == pay_gas_budget
                    &&& pay.input_coins.len() == coin_configs.len()
                    &&& pay.recipients.len() == coin_configs.len()
                    &&& pay.amounts.len() == coin_configs.len()
                    &&& forall|i: int|
                        0 <= i < coin_configs.len() ==> {
                            &&& pay.input_coins[i] == (#[trigger] effects.created[i]).0
                            &&& pay.recipients[i] == coin_configs[i].address
                            &&& pay.amounts[i] == coin_configs[i].amount
                        }
                    &&& exists|k: int|
                        0 <= k < effects.mutated.len() && #[trigger] effects.mutated[k].0 == pay.gas && pay.gas.0
                            == gas.0.0
                })
            }
        }),
{
    lemma_bcs_u64_seq_decodes(split_amounts_of(coin_configs));
    lemma_find_by_id_first(effects.mutated, gas.0.0);
}

/// The transfer sends exactly what was asked: the requested amount, out of the
/// given gas coin, to the given address, from its owner, signed with the given
/// key pair.
pub proof fn lemma_transfer_sui_tx_as_requested(
    gas: ObjectRef,
    sender: SuiAddress,
    keypair: KeyRef,
    value: u64,
    address: SuiAddress,
)
    ensures
        transfer_sui_tx(gas, sender, keypair, value, address).amount == Some(value),
        transfer_sui_tx(gas, sender, keypair, value, address).gas == gas,
        transfer_sui_tx(gas, sender, keypair, value, address).recipient == address,
        transfer_sui_tx(gas, sender, keypair, value, address).sender == sender,
        transfer_sui_tx(gas, sender, keypair, value, address).keypair == keypair,
{
}

/// A SUI transfer executes its transaction at most `TRANSFER_SUI_ATTEMPTS`
/// times, always the same one: every retry resends the first transaction, a
/// retry comes only after fewer failures than that, and the transfer ends
/// exactly when it is done or gives up.
pub proof fn lemma_transfer_sui_attempts_bounded(state: TransferSuiForTesting, event: TransferSuiEventModel)
    requires
        transfer_sui_accepts(state, event),
    ensures
        ({
            let (next, action) = transfer_sui_next(state, event);
            &&& (event matches TransferSuiEventModel::Executed(effects) ==> (action matches TransferSuiAction::Done(
                (updated, minted),
            ) && minted == effects.created[0].0 && updated.0 == state.tx.gas.0 && exists|k: int|
                0 <= k < effects.mutated.len() && #[trigger] effects.mutated[k].0 == updated))
            &&& (event is Failed ==> next.failures == state.failures + 1)
            &&& next.tx == state.tx
            &&& next.failures <= TRANSFER_SUI_ATTEMPTS
            &&& (action matches TransferSuiAction::SleepThenExecute(_, tx) ==> tx == state.tx && next.failures
                < TRANSFER_SUI_ATTEMPTS)
            &&& (next.finished <==> (action is Done || action is SleepThenGiveUp))
            &&& (action is SleepThenGiveUp ==> next.failures == TRANSFER_SUI_ATTEMPTS)
        }),
{
    if let TransferSuiEventModel::Executed(effects) = event {
        lemma_find_by_id_first(effects.mutated, state.tx.gas.0);
    }
}

} // verus!
