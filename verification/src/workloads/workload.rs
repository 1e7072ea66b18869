//! Workload kinds, gas coin configurations, the division of freshly created
//! gas coins among the workloads, and the weighted combination of payloads of
//! several workloads.

use crate::base_types::{BenchmarkError, ObjectID, ObjectRef, Owner, SuiAddress};
use crate::sampling::{alias_sampler_weights, valid_alias_weights, AliasSampler};
use crate::util::{
    split_coin_and_pay, split_coin_and_pay_accepts, split_coin_and_pay_next, split_coin_and_pay_start, Gas,
    KeyRef, SplitCoinAndPay, SplitCoinAndPayAction, SplitCoinAndPayActionModel, SplitCoinAndPayEvent,
};
use vstd::prelude::*;

verus! {

/// The kinds of workload.
#[derive(Clone, Copy, Debug, PartialEq, Eq, Hash, Structural)]
pub enum WorkloadType {
    SharedCounter,
    TransferObject,
    Combination,
}

/// The name by which a workload kind is shown.
pub open spec fn workload_type_name(t: WorkloadType) -> Seq<char> {
    match t {
        WorkloadType::SharedCounter => "shared_counter"@,
        WorkloadType::TransferObject => "transfer_object"@,
        WorkloadType::Combination => "combination"@,
    }
}

impl WorkloadType {
    /// The name by which this workload kind is shown.
    pub fn to_string(&self) -> (s: String)
        ensures
            s@ == workload_type_name(*self),
    {
        match self {
            WorkloadType::SharedCounter => "shared_counter".to_owned(),
            WorkloadType::TransferObject => "transfer_object".to_owned(),
            WorkloadType::Combination => "combination".to_owned(),
        }
    }
}

/// Distinct workload kinds are shown by distinct names.
pub proof fn lemma_workload_type_names_distinct(a: WorkloadType, b: WorkloadType)
    ensures
        a != b ==> workload_type_name(a) != workload_type_name(b),
{
    reveal_strlit("shared_counter");
    reveal_strlit("transfer_object");
    reveal_strlit("combination");
    if a != b {
        assert(workload_type_name(a)[0] != workload_type_name(b)[0]);
    }
}

/// The gas coin to create for a workload: how much SUI it holds, who receives
/// it, and the key pair of the recipient.
#[derive(Clone, Copy, Debug, PartialEq, Eq, Structural)]
pub struct GasCoinConfig {
    pub amount: u64,
    pub address: SuiAddress,
    pub keypair: KeyRef,
}

/// The gas coins with which the workloads set themselves up (for the shared
/// counter: publishing its package and creating the counters).
pub struct WorkloadInitConfig {
    pub shared_counter_init_gas: Vec<Gas>,
}

/// The gas coins that the workloads use while the benchmark runs.
pub struct WorkloadPayloadConfig {
    /// The objects that transfer-object payloads pass between accounts.
    pub transfer_tokens: Vec<Gas>,
    /// The gas of the transfers.
    pub transfer_object_payload_gas: Vec<Gas>,
    /// The gas of the shared counter increments.
    pub shared_counter_payload_gas: Vec<Gas>,
}

// ---------------------------------------------------------------------------
// Dividing freshly created gas coins among the workloads

/// Copies the gas coins at positions `lo` up to `hi`.
pub fn gas_range(coins: &Vec<Gas>, lo: usize, hi: usize) -> (r: Vec<Gas>)
    requires
        lo <= hi <= coins@.len(),
    ensures
        r@ == coins@.subrange(lo as int, hi as int),
{
    let mut r: Vec<Gas> = Vec::new();
    let mut i: usize = lo;
    while i < hi
        invariant
            lo <= i <= hi <= coins@.len(),
            r@ == coins@.subrange(lo as int, i as int),
        decreases hi - i,
    {
        proof {
            assert(coins@.subrange(lo as int, i + 1) =~= coins@.subrange(lo as int, i as int).push(coins@[i as int]));
        }
        r.push(coins[i]);
        i = i + 1;
    }
    r
}

/// Divides the created gas coins, in order: the shared counter's set-up coins,
/// its payload coins (together `num_shared_counter_coins`), then the transfer
/// tokens, and what is left as the transfer payloads' gas.
pub fn partition_gas_coins(
    coins: &Vec<Gas>,
    num_shared_counter_init_coins: usize,
    num_shared_counter_coins: usize,
    num_transfer_object_tokens: usize,
) -> (r: (WorkloadInitConfig, WorkloadPayloadConfig))
    requires
        num_shared_counter_init_coins <= num_shared_counter_coins <= coins.len(),
        num_transfer_object_tokens <= coins.len() - num_shared_counter_coins,
    ensures
        r.0.shared_counter_init_gas@ == coins@.subrange(0, num_shared_counter_init_coins as int),
        r.1.shared_counter_payload_gas@ == coins@.subrange(
            num_shared_counter_init_coins as int,
            num_shared_counter_coins as int,
        ),
        r.1.transfer_tokens@ == coins@.subrange(
            num_shared_counter_coins as int,
            num_shared_counter_coins + num_transfer_object_tokens,
        ),
        r.1.transfer_object_payload_gas@ == coins@.subrange(
            num_shared_counter_coins + num_transfer_object_tokens,
            coins@.len() as int,
        ),
{
    let tokens_end = num_shared_counter_coins + num_transfer_object_tokens;
    let init = WorkloadInitConfig { shared_counter_init_gas: gas_range(coins, 0, num_shared_counter_init_coins) };
    let payload = WorkloadPayloadConfig {
        transfer_tokens: gas_range(coins, num_shared_counter_coins, tokens_end),
        transfer_object_payload_gas: gas_range(coins, tokens_end, coins.len()),
        shared_counter_payload_gas: gas_range(coins, num_shared_counter_init_coins, num_shared_counter_coins),
    };
    (init, payload)
}

/// Dividing loses no coin and adds none: the parts, put back in the order of
/// the division, are the coins that were divided.
pub proof fn lemma_gas_partition_is_lossless(
    coins: Seq<Gas>,
    num_shared_counter_init_coins: int,
    num_shared_counter_coins: int,
    num_transfer_object_tokens: int,
)
    requires
        0 <= num_shared_counter_init_coins <= num_shared_counter_coins <= coins.len(),
        0 <= num_transfer_object_tokens <= coins.len() - num_shared_counter_coins,
    ensures
        ({
            let (init, payload) = gas_partition(
                coins,
                num_shared_counter_init_coins,
                num_shared_counter_coins,
                num_transfer_object_tokens,
            );
            init.shared_counter_init_gas + payload.shared_counter_payload_gas + payload.transfer_tokens
                + payload.transfer_object_payload_gas == coins
        }),
{
    lemma_partition_is_lossless(coins, num_shared_counter_init_coins, num_shared_counter_coins, num_transfer_object_tokens);
}

proof fn lemma_partition_is_lossless(
    coins: Seq<Gas>,
    num_shared_counter_init_coins: int,
    num_shared_counter_coins: int,
    num_transfer_object_tokens: int,
)
    requires
        0 <= num_shared_counter_init_coins <= num_shared_counter_coins <= coins.len(),
        0 <= num_transfer_object_tokens <= coins.len() - num_shared_counter_coins,
    ensures
        coins.subrange(0, num_shared_counter_init_coins)
            + coins.subrange(num_shared_counter_init_coins, num_shared_counter_coins)
            + coins.subrange(num_shared_counter_coins, num_shared_counter_coins + num_transfer_object_tokens)
            + coins.subrange(num_shared_counter_coins + num_transfer_object_tokens, coins.len() as int)
            == coins,
{
    assert(coins.subrange(0, num_shared_counter_init_coins)
        + coins.subrange(num_shared_counter_init_coins, num_shared_counter_coins)
        + coins.subrange(num_shared_counter_coins, num_shared_counter_coins + num_transfer_object_tokens)
        + coins.subrange(num_shared_counter_coins + num_transfer_object_tokens, coins.len() as int) =~= coins);
}

pub struct WorkloadInitConfigModel {
    pub shared_counter_init_gas: Seq<Gas>,
}

pub struct WorkloadPayloadConfigModel {
    pub transfer_tokens: Seq<Gas>,
    pub transfer_object_payload_gas: Seq<Gas>,
    pub shared_counter_payload_gas: Seq<Gas>,
}

impl View for WorkloadInitConfig {
    type V = WorkloadInitConfigModel;

    open spec fn view(&self) -> WorkloadInitConfigModel {
        WorkloadInitConfigModel { shared_counter_init_gas: self.shared_counter_init_gas@ }
    }
}

impl View for WorkloadPayloadConfig {
    type V = WorkloadPayloadConfigModel;

    open spec fn view(&self) -> WorkloadPayloadConfigModel {
        WorkloadPayloadConfigModel {
            transfer_tokens: self.transfer_tokens@,
            transfer_object_payload_gas: self.transfer_object_payload_gas@,
            shared_counter_payload_gas: self.shared_counter_payload_gas@,
        }
    }
}

/// The division of the created coins that `partition_gas_coins` makes.
pub open spec fn gas_partition(
    coins: Seq<Gas>,
    num_shared_counter_init_coins: int,
    num_shared_counter_coins: int,
    num_transfer_object_tokens: int,
) -> (WorkloadInitConfigModel, WorkloadPayloadConfigModel) {
    let tokens_end = num_shared_counter_coins + num_transfer_object_tokens;
    (
        WorkloadInitConfigModel { shared_counter_init_gas: coins.subrange(0, num_shared_counter_init_coins) },
        WorkloadPayloadConfigModel {
            transfer_tokens: coins.subrange(num_shared_counter_coins, tokens_end),
            transfer_object_payload_gas: coins.subrange(tokens_end, coins.len() as int),
            shared_counter_payload_gas: coins.subrange(num_shared_counter_init_coins, num_shared_counter_coins),
        },
    )
}

/// Creating the gas coins of a test run: one split-and-pay of the primary
/// coin into all configured coins, whose result is then divided among the
/// workloads.
pub struct GenerateGasForTest {
    pub split: SplitCoinAndPay,
    pub num_shared_counter_init_coins: usize,
    pub num_shared_counter_coins: usize,
    pub num_transfer_object_tokens: u64,
}

/// What the caller is to do next.
pub enum GenerateGasAction {
    /// Perform this step of the split-and-pay (never its `Finish`).
    Forward(SplitCoinAndPayAction),
    /// Stop with the gas coins of the set-up and of the payloads.
    Finish(Result<(WorkloadInitConfig, WorkloadPayloadConfig), BenchmarkError>),
}

pub enum GenerateGasActionModel {
    Forward(SplitCoinAndPayActionModel),
    Finish(Result<(WorkloadInitConfigModel, WorkloadPayloadConfigModel), BenchmarkError>),
}

impl View for GenerateGasAction {
    type V = GenerateGasActionModel;

    open spec fn view(&self) -> GenerateGasActionModel {
        match self {
            GenerateGasAction::Forward(a) => GenerateGasActionModel::Forward(a@),
            GenerateGasAction::Finish(Ok((init, payload))) => GenerateGasActionModel::Finish(Ok((init@, payload@))),
            GenerateGasAction::Finish(Err(e)) => GenerateGasActionModel::Finish(Err(*e)),
        }
    }
}

/// Whether the coins that a finished split-and-pay hands out are enough for
/// the shared counter's coins and the transfer tokens.
pub open spec fn gas_counts_fit(
    action: SplitCoinAndPayActionModel,
    num_shared_counter_init_coins: usize,
    num_shared_counter_coins: usize,
    num_transfer_object_tokens: u64,
) -> bool {
    action matches SplitCoinAndPayActionModel::Finish(Ok((_, coins))) ==> {
        &&& num_shared_counter_init_coins <= num_shared_counter_coins <= coins.len()
        &&& (num_transfer_object_tokens as usize) <= coins.len() - num_shared_counter_coins
    }
}

/// What the caller does after a step of the split-and-pay: forward it, or,
/// once it finished, divide its coins (or pass its error on).
pub open spec fn generate_gas_action(
    action: SplitCoinAndPayActionModel,
    num_shared_counter_init_coins: usize,
    num_shared_counter_coins: usize,
    num_transfer_object_tokens: u64,
) -> GenerateGasActionModel {
    match action {
        SplitCoinAndPayActionModel::Finish(Err(e)) => GenerateGasActionModel::Finish(Err(e)),
        SplitCoinAndPayActionModel::Finish(Ok((_, coins))) => GenerateGasActionModel::Finish(
            Ok(
                gas_partition(
                    coins,
                    num_shared_counter_init_coins as int,
                    num_shared_counter_coins as int,
                    (num_transfer_object_tokens as usize) as int,
                ),
            ),
        ),
        _ => GenerateGasActionModel::Forward(action),
    }
}

/// Once the split-and-pay hands out its coins, they are divided in their
/// order and none is lost or added: the shared counter's set-up coins, then its
/// payload coins (together `num_shared_counter_coins`), then exactly
/// `num_transfer_object_tokens` transfer tokens, then every remaining coin as
/// gas of the transfers.
pub proof fn lemma_generate_gas_division(
    action: SplitCoinAndPayActionModel,
    num_shared_counter_init_coins: usize,
    num_shared_counter_coins: usize,
    num_transfer_object_tokens: u64,
)
    requires
        gas_counts_fit(action, num_shared_counter_init_coins, num_shared_counter_coins, num_transfer_object_tokens),
    ensures
        action matches SplitCoinAndPayActionModel::Finish(Ok((_, coins))) ==> {
            &&& generate_gas_action(
                action,
                num_shared_counter_init_coins,
                num_shared_counter_coins,
                num_transfer_object_tokens,
            ) matches GenerateGasActionModel::Finish(Ok((init, payload)))
            &&& init.shared_counter_init_gas.len() == num_shared_counter_init_coins
            &&& payload.shared_counter_payload_gas.len() == num_shared_counter_coins - num_shared_counter_init_coins
            &&& payload.transfer_tokens.len() == num_transfer_object_tokens as usize
            &&& init.shared_counter_init_gas + payload.shared_counter_payload_gas + payload.transfer_tokens
                + payload.transfer_object_payload_gas == coins
        },
        action matches SplitCoinAndPayActionModel::Finish(Err(e)) ==> generate_gas_action(
            action,
            num_shared_counter_init_coins,
            num_shared_counter_coins,
            num_transfer_object_tokens,
        ) == GenerateGasActionModel::Finish(Err(e)),
        !(action is Finish) ==> generate_gas_action(
            action,
            num_shared_counter_init_coins,
            num_shared_counter_coins,
            num_transfer_object_tokens,
        ) == GenerateGasActionModel::Forward(action),
{
    if let SplitCoinAndPayActionModel::Finish(Ok((_, coins))) = action {
        lemma_partition_is_lossless(
            coins,
            num_shared_counter_init_coins as int,
            num_shared_counter_coins as int,
            (num_transfer_object_tokens as usize) as int,
        );
    }
}

impl GenerateGasForTest {
    /// Takes the network's answer and gives the split-and-pay's next action,
    /// which `follow` then turns into this work's next action.
    pub fn step(self, event: SplitCoinAndPayEvent) -> (r: (GenerateGasForTest, SplitCoinAndPayAction))
        requires
            split_coin_and_pay_accepts(self.split@, event@),
        ensures
            r.0.split@ == split_coin_and_pay_next(self.split@, event@).0,
            r.0.num_shared_counter_init_coins == self.num_shared_counter_init_coins,
            r.0.num_shared_counter_coins == self.num_shared_counter_coins,
            r.0.num_transfer_object_tokens == self.num_transfer_object_tokens,
            r.1@ == split_coin_and_pay_next(self.split@, event@).1,
    {
        let GenerateGasForTest { split, num_shared_counter_init_coins, num_shared_counter_coins, num_transfer_object_tokens } =
            self;
        let (split, action) = split.step(event);
        (GenerateGasForTest { split, num_shared_counter_init_coins, num_shared_counter_coins, num_transfer_object_tokens }, action)
    }

    /// Whether the coins that `action` hands out, if it finishes the
    /// split-and-pay, are enough to divide.
    pub fn counts_fit(&self, action: &SplitCoinAndPayAction) -> (b: bool)
        ensures
            b == gas_counts_fit(
                action@,
                self.num_shared_counter_init_coins,
                self.num_shared_counter_coins,
                self.num_transfer_object_tokens,
            ),
    {
        match action {
            SplitCoinAndPayAction::Finish(Ok((_, coins))) => {
                self.num_shared_counter_init_coins <= self.num_shared_counter_coins
                    && self.num_shared_counter_coins <= coins.len()
                    && (self.num_transfer_object_tokens as usize) <= coins.len() - self.num_shared_counter_coins
            },
            _ => true,
        }
    }

    /// What to do after a step of the split-and-pay: forward it, or, once it
    /// finished, divide its coins (or pass its error on).
    pub fn follow(self, action: SplitCoinAndPayAction) -> (r: (GenerateGasForTest, GenerateGasAction))
        requires
            gas_counts_fit(
                action@,
                self.num_shared_counter_init_coins,
                self.num_shared_counter_coins,
                self.num_transfer_object_tokens,
            ),
        ensures
            r.0.split@ == self.split@,
            r.0.num_shared_counter_init_coins == self.num_shared_counter_init_coins,
            r.0.num_shared_counter_coins == self.num_shared_counter_coins,
            r.0.num_transfer_object_tokens == self.num_transfer_object_tokens,
            r.1@ == generate_gas_action(
                action@,
                self.num_shared_counter_init_coins,
                self.num_shared_counter_coins,
                self.num_transfer_object_tokens,
            ),
    {
        let next_action = match action {
            SplitCoinAndPayAction::Finish(Err(e)) => GenerateGasAction::Finish(Err(e)),
            SplitCoinAndPayAction::Finish(Ok((_, coins))) => GenerateGasAction::Finish(
                Ok(
                    partition_gas_coins(
                        &coins,
                        self.num_shared_counter_init_coins,
                        self.num_shared_counter_coins,
                        self.num_transfer_object_tokens as usize,
                    ),
                ),
            ),
            other => GenerateGasAction::Forward(other),
        };
        (self, next_action)
    }
}

/// Starts creating the gas coins of a test run: all configured coins (the
/// shared counter's set-up coins, its payload coins, then the transfer-object
/// coins, of which the first `num_transfer_object_tokens` become transfer
/// tokens) are split off `pay_coin` in one split-and-pay, whose payment gets
/// the gas budget `pay_gas_budget`.
pub fn generate_gas_for_test(
    pay_coin_owner: Owner,
    pay_coin: ObjectRef,
    gas: Gas,
    num_transfer_object_tokens: u64,
    shared_counter_init_gas_config: Vec<GasCoinConfig>,
    shared_counter_payload_coin_configs: Vec<GasCoinConfig>,
    transfer_object_payload_coin_configs: Vec<GasCoinConfig>,
    pay_gas_budget: u64,
) -> (r: (GenerateGasForTest, GenerateGasAction))
    requires
        shared_counter_init_gas_config@.len() + shared_counter_payload_coin_configs@.len()
            + transfer_object_payload_coin_configs@.len() <= usize::MAX,
    ensures
        ({
            let configs = shared_counter_init_gas_config@ + shared_counter_payload_coin_configs@
                + transfer_object_payload_coin_configs@;
            let start = split_coin_and_pay_start(pay_coin_owner, pay_coin, configs, gas, pay_gas_budget);
            &&& r.0.split@ == start.0
            &&& r.0.num_shared_counter_init_coins == shared_counter_init_gas_config@.len()
            &&& r.0.num_shared_counter_coins == shared_counter_init_gas_config@.len()
                + shared_counter_payload_coin_configs@.len()
            &&& r.0.num_transfer_object_tokens == num_transfer_object_tokens
            &&& r.1@ == generate_gas_action(
                start.1,
                r.0.num_shared_counter_init_coins,
                r.0.num_shared_counter_coins,
                num_transfer_object_tokens,
            )
        }),
{
    let num_shared_counter_init_coins = shared_counter_init_gas_config.len();
    let num_shared_counter_coins = num_shared_counter_init_coins + shared_counter_payload_coin_configs.len();
    let mut coin_configs: Vec<GasCoinConfig> = Vec::new();
    let mut init_configs = shared_counter_init_gas_config;
    let mut payload_configs = shared_counter_payload_coin_configs;
    let mut transfer_configs = transfer_object_payload_coin_configs;
    coin_configs.append(&mut init_configs);
    coin_configs.append(&mut payload_configs);
    coin_configs.append(&mut transfer_configs);
    let (split, action) = split_coin_and_pay(pay_coin_owner, pay_coin, coin_configs, gas, pay_gas_budget);
    let state = GenerateGasForTest {
        split,
        num_shared_counter_init_coins,
        num_shared_counter_coins,
        num_transfer_object_tokens,
    };
    state.follow(action)
}

// ---------------------------------------------------------------------------
// Payloads

/// A payload: the next transaction that a workload sends, and how the
/// payload moves on once that transaction has been executed.
pub trait Payload: Sized {
    /// What the payload asks the caller to sign and send.
    type Transaction;

    /// Whether `make_new_payload` may be called.
    spec fn renewable(&self) -> bool;

    /// Whether `next` is a payload that `make_new_payload` may give, after the
    /// transaction left `new_object` and `new_gas` behind.
    spec fn renews_to(&self, new_object: ObjectRef, new_gas: ObjectRef, next: Self) -> bool;

    /// Whether `make_transaction` may be called.
    spec fn ready(&self) -> bool;

    /// The transaction that `make_transaction` gives.
    spec fn transaction(&self) -> Self::Transaction;

    /// The object that the payload works on.
    spec fn object_id(&self) -> ObjectID;

    /// The kind of workload that the payload belongs to.
    spec fn workload_type(&self) -> WorkloadType;

    /// Whether `make_new_payload` may be called.
    fn is_renewable(&self) -> (b: bool)
        ensures
            b == self.renewable(),
    ;

    /// Whether `make_transaction` may be called.
    fn is_ready(&self) -> (b: bool)
        ensures
            b == self.ready(),
    ;

    /// The payload for the next transaction, once the current one left
    /// `new_object` and `new_gas` behind.
    fn make_new_payload(self, new_object: ObjectRef, new_gas: ObjectRef) -> (next: Self)
        requires
            self.renewable(),
        ensures
            self.renews_to(new_object, new_gas, next),
    ;

    /// The transaction to send.
    fn make_transaction(&self) -> (tx: Self::Transaction)
        requires
            self.ready(),
        ensures
            tx == self.transaction(),
    ;

    /// The object that the payload works on.
    fn get_object_id(&self) -> (id: ObjectID)
        ensures
            id == self.object_id(),
    ;

    /// The kind of workload that the payload belongs to.
    fn get_workload_type(&self) -> (t: WorkloadType)
        ensures
            t == self.workload_type(),
    ;
}

/// A payload that stands for several, one of each workload, and sends the
/// transaction of one of them at a time, drawn by the workloads' weights.
pub struct CombinationPayload<P: Payload> {
    payloads: Vec<P>,
    dist: AliasSampler,
    curr_index: usize,
}

impl<P: Payload> CombinationPayload<P> {
    /// The current payload exists, and the weights cover every payload.
    #[verifier::type_invariant]
    spec fn well_formed(self) -> bool {
        &&& self.curr_index < self.payloads@.len()
        &&& alias_sampler_weights(self.dist).len() == self.payloads@.len()
    }

    /// The payloads, one of each workload.
    pub closed spec fn payloads(self) -> Seq<P> {
        self.payloads@
    }

    /// The position of the payload whose transaction comes next.
    pub closed spec fn curr_index(self) -> int {
        self.curr_index as int
    }

    /// The weighted distribution by which the next payload is drawn.
    pub closed spec fn sampler(self) -> AliasSampler {
        self.dist
    }

    /// Combines `payloads`, starting with the first, drawn later by `dist`.
    pub fn new(payloads: Vec<P>, dist: AliasSampler) -> (r: Self)
        requires
            payloads@.len() > 0,
            alias_sampler_weights(dist).len() == payloads@.len(),
        ensures
            r.payloads() == payloads@,
            r.curr_index() == 0,
            r.sampler() == dist,
    {
        CombinationPayload { payloads, dist, curr_index: 0 }
    }

    /// The current position is that of one of the payloads.
    pub fn current_index(&self) -> (i: usize)
        ensures
            i == self.curr_index(),
            i < self.payloads().len(),
            self.payloads().len() == alias_sampler_weights(self.sampler()).len(),
    {
        proof {
            use_type_invariant(self);
        }
        self.curr_index
    }
}

impl<P: Payload> Payload for CombinationPayload<P> {
    type Transaction = P::Transaction;

    open spec fn renewable(&self) -> bool {
        self.payloads()[self.curr_index()].renewable()
    }

    /// Only the current payload moves on; the next one is drawn at random,
    /// among those whose workload weighs more than zero.
    open spec fn renews_to(&self, new_object: ObjectRef, new_gas: ObjectRef, next: Self) -> bool {
        &&& next.payloads().len() == self.payloads().len()
        &&& forall|i: int|
            0 <= i < self.payloads().len() && i != self.curr_index() ==> next.payloads()[i] == self.payloads()[i]
        &&& self.payloads()[self.curr_index()].renews_to(new_object, new_gas, next.payloads()[self.curr_index()])
        &&& next.sampler() == self.sampler()
        &&& 0 <= next.curr_index() < next.payloads().len()
        &&& alias_sampler_weights(next.sampler())[next.curr_index()] > 0
    }

    open spec fn ready(&self) -> bool {
        self.payloads()[self.curr_index()].ready()
    }

    open spec fn transaction(&self) -> P::Transaction {
        self.payloads()[self.curr_index()].transaction()
    }

    open spec fn object_id(&self) -> ObjectID {
        self.payloads()[self.curr_index()].object_id()
    }

    open spec fn workload_type(&self) -> WorkloadType {
        self.payloads()[self.curr_index()].workload_type()
    }

    fn is_renewable(&self) -> (b: bool) {
        proof {
            use_type_invariant(self);
        }
        self.payloads[self.curr_index].is_renewable()
    }

    fn is_ready(&self) -> (b: bool) {
        proof {
            use_type_invariant(self);
        }
        self.payloads[self.curr_index].is_ready()
    }

    fn make_new_payload(self, new_object: ObjectRef, new_gas: ObjectRef) -> (next: Self) {
        proof {
            use_type_invariant(&self);
        }
        let CombinationPayload { payloads, dist, curr_index } = self;
        let mut payloads = payloads;
        let current = payloads.remove(curr_index);
        let updated = current.make_new_payload(new_object, new_gas);
        payloads.insert(curr_index, updated);
        let next_index = dist.sample();
        CombinationPayload { payloads, dist, curr_index: next_index }
    }

    fn make_transaction(&self) -> (tx: P::Transaction) {
        proof {
            use_type_invariant(self);
        }
        self.payloads[self.curr_index].make_transaction()
    }

    fn get_object_id(&self) -> (id: ObjectID) {
        proof {
            use_type_invariant(self);
        }
        self.payloads[self.curr_index].get_object_id()
    }

    fn get_workload_type(&self) -> (t: WorkloadType) {
        proof {
            use_type_invariant(self);
        }
        self.payloads[self.curr_index].get_workload_type()
    }
}

/// A combination payload acts as its current payload: the same transaction,
/// object, workload kind, and readiness.
pub proof fn lemma_combination_acts_as_current<P: Payload>(p: CombinationPayload<P>)
    ensures
        p.transaction() == p.payloads()[p.curr_index()].transaction(),
        p.object_id() == p.payloads()[p.curr_index()].object_id(),
        p.workload_type() == p.payloads()[p.curr_index()].workload_type(),
        p.ready() == p.payloads()[p.curr_index()].ready(),
        p.renewable() == p.payloads()[p.curr_index()].renewable(),
{
}

/// A combination payload moves on to a payload of its own, drawn among
/// those whose workload weighs more than zero, with its weights unchanged;
/// the other payloads stay as they were.
pub proof fn lemma_combination_moves_to_weighted_payload<P: Payload>(
    p: CombinationPayload<P>,
    new_object: ObjectRef,
    new_gas: ObjectRef,
    next: CombinationPayload<P>,
)
    requires
        0 <= p.curr_index() < p.payloads().len(),
        p.payloads().len() == alias_sampler_weights(p.sampler()).len(),
        p.renews_to(new_object, new_gas, next),
    ensures
        next.payloads().len() == alias_sampler_weights(next.sampler()).len(),
        alias_sampler_weights(next.sampler()) == alias_sampler_weights(p.sampler()),
        0 <= next.curr_index() < next.payloads().len(),
        alias_sampler_weights(next.sampler())[next.curr_index()] > 0,
        forall|i: int| 0 <= i < p.payloads().len() && i != p.curr_index() ==> next.payloads()[i] == p.payloads()[i],
        p.payloads()[p.curr_index()].renews_to(new_object, new_gas, next.payloads()[p.curr_index()]),
{
}

// ---------------------------------------------------------------------------
// Combining the payloads of several workloads

/// The weight of each workload, in order.
pub open spec fn weights_of<P>(workloads: Seq<(u32, Vec<P>)>) -> Seq<u32> {
    workloads.map_values(|w: (u32, Vec<P>)| w.0)
}

/// The payloads of round `k` of the combination: the last payload of each
/// workload that earlier rounds left.
pub open spec fn round_payloads<P>(workloads: Seq<(u32, Vec<P>)>, num_payloads: int, k: int) -> Seq<P> {
    workloads.map_values(|w: (u32, Vec<P>)| w.1@[num_payloads - 1 - k])
}

/// The weights of the workloads are their own weights, one per workload, in
/// their order.
pub proof fn lemma_weights_of<P>(workloads: Seq<(u32, Vec<P>)>)
    ensures
        weights_of(workloads).len() == workloads.len(),
        forall|j: int| 0 <= j < workloads.len() ==> #[trigger] weights_of(workloads)[j] == workloads[j].0,
{
}

/// Combines `num_payloads` payloads of each workload into `num_payloads`
/// combination payloads. Each round takes the last payload left of every
/// workload, in the order of `workloads`, weighted by the workloads' weights,
/// and starts at the first of them.
pub fn combine_payloads<P: Payload>(num_payloads: u64, workloads: Vec<(u32, Vec<P>)>) -> (r: Vec<CombinationPayload<P>>)
    requires
        forall|j: int| 0 <= j < workloads@.len() ==> (#[trigger] workloads@[j]).1@.len() == num_payloads,
        num_payloads > 0 ==> valid_alias_weights(weights_of(workloads@)),
    ensures
        r@.len() == num_payloads,
        forall|k: int|
            0 <= k < num_payloads ==> {
                &&& (#[trigger] r@[k]).payloads() == round_payloads(workloads@, num_payloads as int, k)
                &&& r@[k].curr_index() == 0
                &&& alias_sampler_weights(r@[k].sampler()) == weights_of(workloads@)
            },
        forall|j: int, p: int|
            0 <= j < workloads@.len() && 0 <= p < num_payloads ==> #[trigger] r@[num_payloads - 1 - p].payloads()[j]
                == #[trigger] workloads@[j].1@[p],
        forall|k: int|
            0 <= k < num_payloads ==> (#[trigger] alias_sampler_weights(r@[k].sampler())).len() == workloads@.len(),
        forall|k: int, j: int|
            0 <= k < num_payloads && 0 <= j < workloads@.len() ==> #[trigger] alias_sampler_weights(
                r@[k].sampler(),
            )[j] == #[trigger] workloads@[j].0,
{
    let ghost original = workloads@;
    let mut weights: Vec<u32> = Vec::new();
    let mut lists: Vec<Vec<P>> = Vec::new();
    let mut workloads = workloads;
    let mut j: usize = 0;
    let m = workloads.len();
    while workloads.len() > 0
        invariant
            m == original.len(),
            j + workloads@.len() == m,
            workloads@ == original.subrange(j as int, m as int),
            weights@ == weights_of(original).take(j as int),
            lists@.len() == j,
            forall|t: int| 0 <= t < j ==> (#[trigger] lists@[t])@ == original[t].1@,
        decreases workloads@.len(),
    {
        let (weight, list) = workloads.remove(0);
        proof {
            assert(weights_of(original).take(j + 1) =~= weights_of(original).take(j as int).push(weight));
        }
        weights.push(weight);
        lists.push(list);
        j = j + 1;
        proof {
            assert(workloads@ =~= original.subrange(j as int, m as int));
        }
    }
    proof {
        assert(weights@ =~= weights_of(original));
    }
    let mut result: Vec<CombinationPayload<P>> = Vec::new();
    let mut i: u64 = 0;
    while i < num_payloads
        invariant
            m == original.len(),
            i <= num_payloads,
            weights@ == weights_of(original),
            num_payloads > 0 ==> valid_alias_weights(weights@),
            lists@.len() == m,
            forall|t: int| 0 <= t < m ==> (#[trigger] lists@[t])@ == original[t].1@.take(num_payloads - i),
            forall|t: int| 0 <= t < m ==> (#[trigger] original[t]).1@.len() == num_payloads,
            result@.len() == i,
            forall|k: int|
                0 <= k < i ==> {
                    &&& (#[trigger] result@[k]).payloads() == round_payloads(original, num_payloads as int, k)
                    &&& result@[k].curr_index() == 0
                    &&& alias_sampler_weights(result@[k].sampler()) == weights_of(original)
                },
        decreases num_payloads - i,
    {
        let mut all_payloads: Vec<P> = Vec::new();
        let mut dist: Vec<u32> = Vec::new();
        let mut rest: Vec<Vec<P>> = Vec::new();
        let mut t: usize = 0;
        while lists.len() > 0
            invariant
                m == original.len(),
                i < num_payloads,
                t + lists@.len() == m,
                rest@.len() == t,
                all_payloads@.len() == t,
                dist@ == weights@.take(t as int),
                weights@ == weights_of(original),
                forall|u: int| 0 <= u < lists@.len() ==> (#[trigger] lists@[u])@ == original[t + u].1@.take(num_payloads - i),
                forall|u: int| 0 <= u < t ==> (#[trigger] rest@[u])@ == original[u].1@.take(num_payloads - i - 1),
                forall|u: int| 0 <= u < t ==> #[trigger] all_payloads@[u] == original[u].1@[num_payloads - 1 - i],
                forall|u: int| 0 <= u < m ==> (#[trigger] original[u]).1@.len() == num_payloads,
            decreases lists@.len(),
        {
            let ghost before = lists@;
            let mut list = lists.remove(0);
            proof {
                assert(forall|u: int| 0 <= u < lists@.len() ==> lists@[u] == before[u + 1]);
                assert(original[t as int].1@.len() == num_payloads);
            }
            let last = match list.pop() {
                Some(p) => p,
                None => {
                    proof {
                        assert(false);
                    }
                    return result;
                },
            };
            proof {
                assert(list@ =~= original[t as int].1@.take(num_payloads - i - 1));
                assert(weights@.take(t + 1) =~= weights@.take(t as int).push(weights@[t as int]));
            }
            all_payloads.push(last);
            dist.push(weights[t]);
            rest.push(list);
            t = t + 1;
        }
        lists = rest;
        proof {
            assert(dist@ =~= weights@);
            assert(all_payloads@ =~= round_payloads(original, num_payloads as int, i as int));
        }
        let sampler = match AliasSampler::new(dist) {
            Some(s) => s,
            None => {
                proof {
                    assert(false);
                }
                return result;
            },
        };
        result.push(CombinationPayload::new(all_payloads, sampler));
        i = i + 1;
    }
    proof {
        lemma_weights_of(original);
        assert forall|j: int, p: int|
            0 <= j < original.len() && 0 <= p < num_payloads implies #[trigger] result@[num_payloads - 1 - p].payloads()[j]
                == #[trigger] original[j].1@[p] by {
            let k = num_payloads - 1 - p;
            assert(result@[k].payloads() == round_payloads(original, num_payloads as int, k));
        }
    }
    result
}

} // verus!
