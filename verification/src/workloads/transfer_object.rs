//! The transfer-object workload: tokens passed from account to account, each
//! transfer paid for with a gas coin of the sending account.

use crate::base_types::{owner_address, ObjectID, ObjectRef, Owner, SuiAddress};
use crate::search::{find_index, lemma_find_index, lemma_find_index_is, lemma_find_index_none};
use crate::util::{Gas, KeyRef, MAX_GAS_FOR_TESTING};
use crate::workloads::workload::{gas_range, GasCoinConfig, Payload, WorkloadPayloadConfig, WorkloadType};
use itertools::Itertools;
use vstd::prelude::*;

verus! {

// ---------------------------------------------------------------------------
// The accounts between which objects are transferred

/// The key pair registered for `address`, if any.
pub open spec fn key_of(entries: Seq<(SuiAddress, KeyRef)>, address: SuiAddress) -> Option<KeyRef>
    decreases entries.len(),
{
    if entries.len() == 0 {
        None
    } else if entries.last().0 == address {
        Some(entries.last().1)
    } else {
        key_of(entries.drop_last(), address)
    }
}

/// No address occurs twice.
pub open spec fn distinct_addresses(entries: Seq<(SuiAddress, KeyRef)>) -> bool {
    forall|i: int, j: int| 0 <= i < j < entries.len() ==> entries[i].0 != entries[j].0
}

/// Accounts and their key pairs, each address once.
pub struct AccountKeys {
    entries: Vec<(SuiAddress, KeyRef)>,
}

impl AccountKeys {
    #[verifier::type_invariant]
    spec fn well_formed(self) -> bool {
        distinct_addresses(self.entries@)
    }

    /// The accounts, in the order in which they are walked.
    pub closed spec fn entries(self) -> Seq<(SuiAddress, KeyRef)> {
        self.entries@
    }

    /// The accounts are distinct.
    pub fn entries_are_distinct(&self)
        ensures
            distinct_addresses(self.entries()),
    {
        proof {
            use_type_invariant(self);
        }
    }

    /// Collects accounts as into a map: each address once, with the key pair
    /// that it was given last. In which order the addresses come is left open.
    pub fn from_accounts(accounts: Vec<(SuiAddress, KeyRef)>) -> (r: Self)
        ensures
            forall|a: SuiAddress| #[trigger] key_of(r.entries(), a) == key_of(accounts@, a),
            forall|i: int|
                0 <= i < r.entries().len() ==> key_of(accounts@, #[trigger] r.entries()[i].0) == Some(
                    r.entries()[i].1,
                ),
    {
        let mut entries: Vec<(SuiAddress, KeyRef)> = Vec::new();
        let mut i: usize = 0;
        while i < accounts.len()
            invariant
                i <= accounts.len(),
                distinct_addresses(entries@),
                forall|a: SuiAddress| #[trigger] key_of(entries@, a) == key_of(accounts@.take(i as int), a),
            decreases accounts.len() - i,
        {
            let (address, keypair) = accounts[i];
            let ghost old_entries = entries@;
            proof {
                assert(accounts@.take(i + 1).drop_last() =~= accounts@.take(i as int));
            }
            match position_of(&entries, address) {
                Some(k) => {
                    entries.set(k, (address, keypair));
                    proof {
                        assert(accounts@.take(i + 1).last() == (address, keypair));
                        assert forall|a: SuiAddress| #[trigger] key_of(entries@, a) == key_of(accounts@.take(i + 1), a) by {
                            lemma_key_of_update(old_entries, k as int, address, keypair, a);
                        }
                    }
                },
                None => {
                    entries.push((address, keypair));
                    proof {
                        assert(entries@.drop_last() =~= old_entries);
                        assert(entries@.last() == (address, keypair));
                        assert(accounts@.take(i + 1).last() == (address, keypair));
                        assert forall|a: SuiAddress| #[trigger] key_of(entries@, a) == key_of(accounts@.take(i + 1), a) by {
                            assert(key_of(old_entries, a) == key_of(accounts@.take(i as int), a));
                        }
                    }
                },
            }
            i = i + 1;
        }
        proof {
            assert(accounts@.take(i as int) =~= accounts@);
            assert forall|j: int| 0 <= j < entries@.len() implies key_of(accounts@, #[trigger] entries@[j].0) == Some(
                entries@[j].1,
            ) by {
                lemma_key_of_at(entries@, j);
            }
        }
        AccountKeys { entries }
    }

    /// The key pair of `address`, if it is one of the accounts.
    pub fn get(&self, address: SuiAddress) -> (r: Option<KeyRef>)
        ensures
            r == key_of(self.entries(), address),
    {
        proof {
            use_type_invariant(self);
        }
        match position_of(&self.entries, address) {
            Some(k) => {
                proof {
                    lemma_key_of_at(self.entries@, k as int);
                }
                Some(self.entries[k].1)
            },
            None => {
                proof {
                    lemma_key_of_absent(self.entries@, address);
                }
                None
            },
        }
    }

    /// The addresses of the accounts, in order.
    pub fn addresses(&self) -> (r: Vec<SuiAddress>)
        ensures
            r@ == self.entries().map_values(|e: (SuiAddress, KeyRef)| e.0),
    {
        let mut r: Vec<SuiAddress> = Vec::new();
        let mut i: usize = 0;
        while i < self.entries.len()
            invariant
                i <= self.entries@.len(),
                r@ == self.entries@.take(i as int).map_values(|e: (SuiAddress, KeyRef)| e.0),
            decreases self.entries@.len() - i,
        {
            proof {
                assert(self.entries@.take(i + 1) =~= self.entries@.take(i as int).push(self.entries@[i as int]));
            }
            r.push(self.entries[i].0);
            i = i + 1;
        }
        proof {
            assert(self.entries@.take(i as int) =~= self.entries@);
        }
        r
    }

    /// Another handle on the same accounts.
    pub fn share(&self) -> (r: Self)
        ensures
            r.entries() == self.entries(),
    {
        proof {
            use_type_invariant(self);
        }
        let mut entries: Vec<(SuiAddress, KeyRef)> = Vec::new();
        let mut i: usize = 0;
        while i < self.entries.len()
            invariant
                i <= self.entries@.len(),
                entries@ == self.entries@.take(i as int),
            decreases self.entries@.len() - i,
        {
            proof {
                assert(self.entries@.take(i + 1) =~= self.entries@.take(i as int).push(self.entries@[i as int]));
            }
            entries.push(self.entries[i]);
            i = i + 1;
        }
        proof {
            assert(self.entries@.take(i as int) =~= self.entries@);
        }
        AccountKeys { entries }
    }
}

/// The position of `address` among distinct entries.
fn position_of(entries: &Vec<(SuiAddress, KeyRef)>, address: SuiAddress) -> (r: Option<usize>)
    ensures
        match r {
            Some(k) => k < entries@.len() && entries@[k as int].0 == address,
            None => forall|j: int| 0 <= j < entries@.len() ==> entries@[j].0 != address,
        },
{
    let mut i: usize = 0;
    while i < entries.len()
        invariant
            i <= entries@.len(),
            forall|j: int| 0 <= j < i ==> entries@[j].0 != address,
        decreases entries@.len() - i,
    {
        if entries[i].0 == address {
            return Some(i);
        }
        i = i + 1;
    }
    None
}

proof fn lemma_key_of_absent(entries: Seq<(SuiAddress, KeyRef)>, address: SuiAddress)
    requires
        forall|j: int| 0 <= j < entries.len() ==> entries[j].0 != address,
    ensures
        key_of(entries, address) is None,
    decreases entries.len(),
{
    if entries.len() > 0 {
        lemma_key_of_absent(entries.drop_last(), address);
    }
}

/// Among distinct entries, the key of an entry's address is that entry's.
proof fn lemma_key_of_at(entries: Seq<(SuiAddress, KeyRef)>, k: int)
    requires
        distinct_addresses(entries),
        0 <= k < entries.len(),
    ensures
        key_of(entries, entries[k].0) == Some(entries[k].1),
    decreases entries.len(),
{
    if k < entries.len() - 1 {
        assert(entries.last().0 != entries[k].0);
        lemma_key_of_at(entries.drop_last(), k);
    }
}

/// Overwriting the key of an entry changes the key of its address only.
proof fn lemma_key_of_update(
    entries: Seq<(SuiAddress, KeyRef)>,
    k: int,
    address: SuiAddress,
    keypair: KeyRef,
    a: SuiAddress,
)
    requires
        distinct_addresses(entries),
        0 <= k < entries.len(),
        entries[k].0 == address,
    ensures
        key_of(entries.update(k, (address, keypair)), a) == if a == address {
            Some(keypair)
        } else {
            key_of(entries, a)
        },
    decreases entries.len(),
{
    let updated = entries.update(k, (address, keypair));
    if k == entries.len() - 1 {
        assert(updated.drop_last() =~= entries.drop_last());
    } else {
        assert(updated.drop_last() =~= entries.drop_last().update(k, (address, keypair)));
        lemma_key_of_update(entries.drop_last(), k, address, keypair, a);
    }
}

// ---------------------------------------------------------------------------
// Transfer-object payloads

/// Whether a gas coin is owned by `address`.
pub open spec fn owned_by(address: SuiAddress) -> spec_fn(Gas) -> bool {
    |g: Gas| owner_address(g.1) == Some(address)
}

/// Whether a gas coin is owned by something other than `address`.
pub open spec fn not_owned_by(address: SuiAddress) -> spec_fn(Gas) -> bool {
    |g: Gas| owner_address(g.1) != Some(address)
}

/// Every gas coin is owned by an address.
pub open spec fn all_address_owned(gas: Seq<Gas>) -> bool {
    forall|i: int| 0 <= i < gas.len() ==> (#[trigger] owner_address(gas[i].1)) is Some
}

/// The gas coins after a transfer from `from`: those of `from` become
/// `new_gas`, owned by the address `from`; the others stay.
pub open spec fn renewed_gas(gas: Seq<Gas>, from: SuiAddress, new_gas: ObjectRef) -> Seq<Gas> {
    gas.map_values(
        |g: Gas|
            if owner_address(g.1) == Some(from) {
                (new_gas, Owner::AddressOwner(from), g.2)
            } else {
                g
            },
    )
}

/// A transfer of `object` from `sender` to `recipient`, paid with `gas` and
/// signed by `keypair`.
#[derive(Clone, Copy, Debug)]
pub struct TransferObjectTx {
    pub object: ObjectRef,
    pub gas: ObjectRef,
    pub sender: SuiAddress,
    pub keypair: KeyRef,
    pub recipient: SuiAddress,
}

/// A token passed from account to account: the next transfer is of
/// `transfer_object` from `transfer_from` to `transfer_to`, paid with the gas
/// coin of `transfer_from` among `gas` (one coin per account).
pub struct TransferObjectTestPayload {
    pub transfer_object: ObjectRef,
    pub transfer_from: SuiAddress,
    pub transfer_to: SuiAddress,
    pub gas: Vec<Gas>,
    pub keypairs: AccountKeys,
}

/// The first gas coin at which `pred` holds, by position.
fn find_gas(gas: &Vec<Gas>, address: SuiAddress, owned: bool) -> (r: Option<usize>)
    ensures
        ({
            let pred = if owned { owned_by(address) } else { not_owned_by(address) };
            match r {
                Some(i) => find_index(gas@, pred) == Some(i as int),
                None => find_index(gas@, pred) is None,
            }
        }),
{
    let ghost pred = if owned { owned_by(address) } else { not_owned_by(address) };
    let mut i: usize = 0;
    while i < gas.len()
        invariant
            i <= gas@.len(),
            pred == (if owned { owned_by(address) } else { not_owned_by(address) }),
            forall|j: int| 0 <= j < i ==> !pred(#[trigger] gas@[j]),
        decreases gas@.len() - i,
    {
        let is_owner = match gas[i].1.get_owner_address() {
            Ok(a) => a == address,
            Err(_) => false,
        };
        if is_owner == owned {
            proof {
                lemma_find_index_is(gas@, pred, i as int);
            }
            return Some(i);
        }
        i = i + 1;
    }
    proof {
        lemma_find_index_none(gas@, pred);
    }
    None
}

impl Payload for TransferObjectTestPayload {
    type Transaction = TransferObjectTx;

    /// Every gas coin is owned by an address, and one by an address other
    /// than the recipient's.
    open spec fn renewable(&self) -> bool {
        &&& all_address_owned(self.gas@)
        &&& find_index(self.gas@, not_owned_by(self.transfer_to)) is Some
    }

    /// The token, now at `new_object`, goes next from the recipient to the
    /// owner of the first gas coin not owned by the recipient; the sender's gas
    /// coin is now `new_gas`.
    open spec fn renews_to(&self, new_object: ObjectRef, new_gas: ObjectRef, next: Self) -> bool {
        let k = find_index(self.gas@, not_owned_by(self.transfer_to))->0;
        &&& next.transfer_object == new_object
        &&& next.transfer_from == self.transfer_to
        &&& Some(next.transfer_to) == owner_address(self.gas@[k].1)
        &&& next.gas@ == renewed_gas(self.gas@, self.transfer_from, new_gas)
        &&& next.keypairs.entries() == self.keypairs.entries()
    }

    /// A gas coin owned by the sender (with no coin before it whose owner is
    /// not an address), and a key pair of the sender.
    open spec fn ready(&self) -> bool {
        &&& find_index(self.gas@, owned_by(self.transfer_from)) matches Some(i) && forall|j: int|
            0 <= j < i ==> (#[trigger] owner_address(self.gas@[j].1)) is Some
        &&& key_of(self.keypairs.entries(), self.transfer_from) is Some
    }

    /// The transfer of the token to the recipient, paid with the sender's
    /// first gas coin and signed with the sender's key pair.
    open spec fn transaction(&self) -> TransferObjectTx {
        TransferObjectTx {
            object: self.transfer_object,
            gas: self.gas@[find_index(self.gas@, owned_by(self.transfer_from))->0].0,
            sender: self.transfer_from,
            keypair: key_of(self.keypairs.entries(), self.transfer_from)->0,
            recipient: self.transfer_to,
        }
    }

    open spec fn object_id(&self) -> ObjectID {
        self.transfer_object.0
    }

    open spec fn workload_type(&self) -> WorkloadType {
        WorkloadType::TransferObject
    }

    fn is_renewable(&self) -> (b: bool) {
        all_gas_address_owned(&self.gas) && find_gas(&self.gas, self.transfer_to, false).is_some()
    }

    fn is_ready(&self) -> (b: bool) {
        let ghost pred = owned_by(self.transfer_from);
        let mut i: usize = 0;
        while i < self.gas.len()
            invariant
                i <= self.gas@.len(),
                pred == owned_by(self.transfer_from),
                forall|j: int| 0 <= j < i ==> (#[trigger] owner_address(self.gas@[j].1)) is Some && !pred(self.gas@[j]),
            decreases self.gas@.len() - i,
        {
            match self.gas[i].1.get_owner_address() {
                Err(_) => {
                    proof {
                        lemma_find_index(self.gas@, pred);
                        assert(!pred(self.gas@[i as int]));
                    }
                    return false;
                },
                Ok(a) => {
                    if a == self.transfer_from {
                        proof {
                            lemma_find_index_is(self.gas@, pred, i as int);
                        }
                        return self.keypairs.get(self.transfer_from).is_some();
                    }
                },
            }
            i = i + 1;
        }
        proof {
            lemma_find_index_none(self.gas@, pred);
        }
        false
    }

    fn make_new_payload(self, new_object: ObjectRef, new_gas: ObjectRef) -> (next: Self) {
        let k = match find_gas(&self.gas, self.transfer_to, false) {
            Some(k) => k,
            None => {
                proof {
                    assert(false);
                }
                0
            },
        };
        proof {
            lemma_find_index(self.gas@, not_owned_by(self.transfer_to));
            assert(owner_address(self.gas@[k as int].1) is Some);
        }
        let recipient = match self.gas[k].1.get_owner_address() {
            Ok(a) => a,
            Err(_) => self.transfer_to,
        };
        let mut updated_gas: Vec<Gas> = Vec::new();
        let mut i: usize = 0;
        while i < self.gas.len()
            invariant
                i <= self.gas@.len(),
                updated_gas@ == renewed_gas(self.gas@.take(i as int), self.transfer_from, new_gas),
            decreases self.gas@.len() - i,
        {
            proof {
                assert(self.gas@.take(i + 1) =~= self.gas@.take(i as int).push(self.gas@[i as int]));
                assert(renewed_gas(self.gas@.take(i + 1), self.transfer_from, new_gas) =~= renewed_gas(
                    self.gas@.take(i as int),
                    self.transfer_from,
                    new_gas,
                ).push(renewed_gas(self.gas@.take(i + 1), self.transfer_from, new_gas)[i as int]));
            }
            let g = self.gas[i];
            let is_sender = match g.1.get_owner_address() {
                Ok(a) => a == self.transfer_from,
                Err(_) => false,
            };
            if is_sender {
                updated_gas.push((new_gas, Owner::AddressOwner(self.transfer_from), g.2));
            } else {
                updated_gas.push(g);
            }
            i = i + 1;
        }
        proof {
            assert(self.gas@.take(i as int) =~= self.gas@);
        }
        TransferObjectTestPayload {
            transfer_object: new_object,
            transfer_from: self.transfer_to,
            transfer_to: recipient,
            gas: updated_gas,
            keypairs: self.keypairs,
        }
    }

    fn make_transaction(&self) -> (tx: TransferObjectTx) {
        let i = match find_gas(&self.gas, self.transfer_from, true) {
            Some(i) => i,
            None => {
                proof {
                    assert(false);
                }
                0
            },
        };
        proof {
            lemma_find_index(self.gas@, owned_by(self.transfer_from));
        }
        let keypair = match self.keypairs.get(self.transfer_from) {
            Some(k) => k,
            None => {
                proof {
                    assert(false);
                }
                KeyRef { id: 0 }
            },
        };
        TransferObjectTx {
            object: self.transfer_object,
            gas: self.gas[i].0,
            sender: self.transfer_from,
            keypair,
            recipient: self.transfer_to,
        }
    }

    fn get_object_id(&self) -> (id: ObjectID) {
        self.transfer_object.0
    }

    fn get_workload_type(&self) -> (t: WorkloadType) {
        WorkloadType::TransferObject
    }
}

// ---------------------------------------------------------------------------
// The transfer-object workload

/// The workload: the accounts between which tokens are transferred.
pub struct TransferObjectWorkload {
    pub transfer_keypairs: AccountKeys,
}

/// A configuration of a gas coin of `MAX_GAS_FOR_TESTING` for an account.
pub open spec fn max_gas_config(account: (SuiAddress, KeyRef)) -> GasCoinConfig {
    GasCoinConfig { amount: MAX_GAS_FOR_TESTING, address: account.0, keypair: account.1 }
}

/// The gas coins of the workload: one per token account, then
/// `num_payloads` for each transfer account.
pub open spec fn transfer_coin_configs(
    token_accounts: Seq<(SuiAddress, KeyRef)>,
    transfer_accounts: Seq<(SuiAddress, KeyRef)>,
    num_payloads: nat,
) -> Seq<GasCoinConfig> {
    token_accounts.map_values(|a: (SuiAddress, KeyRef)| max_gas_config(a)) + transfer_accounts.map_values(
        |a: (SuiAddress, KeyRef)| Seq::new(num_payloads, |j: int| max_gas_config(a)),
    ).flatten()
}

/// Where the `j`-th coin of the `a`-th transfer account stands among the
/// configured coins.
pub open spec fn config_position(num_tokens: nat, a: int, num_payloads: nat, j: int) -> int {
    num_tokens + a * num_payloads + j
}

/// The configured gas coins of the workload: one per token account and
/// `num_payloads` per transfer account, each of `MAX_GAS_FOR_TESTING`, the
/// transfer account's coins together in the order of the accounts.
pub proof fn lemma_transfer_coin_configs_shape(
    token_accounts: Seq<(SuiAddress, KeyRef)>,
    transfer_accounts: Seq<(SuiAddress, KeyRef)>,
    num_payloads: nat,
)
    ensures
        ({
            let configs = transfer_coin_configs(token_accounts, transfer_accounts, num_payloads);
            &&& configs.len() == token_accounts.len() + transfer_accounts.len() * num_payloads
            &&& forall|i: int| 0 <= i < configs.len() ==> (#[trigger] configs[i]).amount == MAX_GAS_FOR_TESTING
            &&& forall|i: int|
                0 <= i < token_accounts.len() ==> #[trigger] configs[i] == max_gas_config(token_accounts[i])
            &&& forall|a: int, j: int|
                0 <= a < transfer_accounts.len() && 0 <= j < num_payloads ==> #[trigger] configs[config_position(
                    token_accounts.len(),
                    a,
                    num_payloads,
                    j,
                )] == max_gas_config(transfer_accounts[a])
        }),
    decreases transfer_accounts.len(),
{
    let per = |acc: (SuiAddress, KeyRef)| Seq::new(num_payloads, |j: int| max_gas_config(acc));
    let tokens = token_accounts.map_values(|a: (SuiAddress, KeyRef)| max_gas_config(a));
    if transfer_accounts.len() > 0 {
        let front = transfer_accounts.drop_last();
        let last = transfer_accounts.last();
        lemma_transfer_coin_configs_shape(token_accounts, front, num_payloads);
        let blocks = transfer_accounts.map_values(per);
        assert(blocks =~= front.map_values(per).push(per(last)));
        front.map_values(per).lemma_flatten_push(per(last));
        let configs = transfer_coin_configs(token_accounts, transfer_accounts, num_payloads);
        let prev = transfer_coin_configs(token_accounts, front, num_payloads);
        assert(configs =~= prev + per(last));
        assert(front.len() * num_payloads + num_payloads == transfer_accounts.len() * num_payloads) by (nonlinear_arith)
            requires
                front.len() + 1 == transfer_accounts.len(),
        ;
        assert forall|a: int, j: int|
            0 <= a < transfer_accounts.len() && 0 <= j < num_payloads implies #[trigger] configs[config_position(
                token_accounts.len(),
                a,
                num_payloads,
                j,
            )] == max_gas_config(transfer_accounts[a]) by {
            assert(config_position(token_accounts.len(), a, num_payloads, j) == token_accounts.len() + a * num_payloads + j);
            if a < front.len() {
                assert(a * num_payloads + j < front.len() * num_payloads) by (nonlinear_arith)
                    requires
                        a + 1 <= front.len(),
                        j < num_payloads,
                ;
                assert(configs[config_position(token_accounts.len(), a, num_payloads, j)] == prev[config_position(
                    token_accounts.len(),
                    a,
                    num_payloads,
                    j,
                )]);
                assert(transfer_accounts[a] == front[a]);
            } else {
                assert(a * num_payloads == front.len() * num_payloads);
            }
        }
    } else {
        assert(transfer_accounts.map_values(per) =~= Seq::<Seq<GasCoinConfig>>::empty());
        assert(transfer_coin_configs(token_accounts, transfer_accounts, num_payloads) =~= tokens);
    }
}

/// The runs of consecutive gas coins with the same owner address, in order,
/// each with that address.
pub open spec fn gas_runs(gas: Seq<Gas>) -> Seq<(SuiAddress, Seq<Gas>)>
    decreases gas.len(),
{
    if gas.len() == 0 {
        Seq::empty()
    } else {
        let runs = gas_runs(gas.drop_last());
        let g = gas.last();
        let a = owner_address(g.1)->0;
        if runs.len() > 0 && runs.last().0 == a {
            runs.update(runs.len() - 1, (a, runs.last().1.push(g)))
        } else {
            runs.push((a, seq![g]))
        }
    }
}

/// The runs, with their coins as sequences.
pub open spec fn runs_view(runs: Seq<(SuiAddress, Vec<Gas>)>) -> Seq<(SuiAddress, Seq<Gas>)> {
    runs.map_values(|r: (SuiAddress, Vec<Gas>)| (r.0, r.1@))
}

/// The last run of `address`: the one that is kept when the runs are
/// collected into a map by owner.
pub open spec fn last_run_of(runs: Seq<(SuiAddress, Seq<Gas>)>, address: SuiAddress) -> Option<Seq<Gas>>
    decreases runs.len(),
{
    if runs.len() == 0 {
        None
    } else if runs.last().0 == address {
        Some(runs.last().1)
    } else {
        last_run_of(runs.drop_last(), address)
    }
}

/// The gas coins of round `i`: the `i`-th coin of the last run of each
/// account, in the order of the accounts.
pub open spec fn round_gas(runs: Seq<(SuiAddress, Seq<Gas>)>, accounts: Seq<(SuiAddress, KeyRef)>, i: int) -> Seq<Gas> {
    accounts.map_values(|a: (SuiAddress, KeyRef)| (last_run_of(runs, a.0)->0)[i])
}

/// Whether a gas coin has an owner other than `owner`.
pub open spec fn owner_differs(owner: Owner) -> spec_fn(Gas) -> bool {
    |g: Gas| g.1 != owner
}

/// Calls `Itertools::group_by` on the gas coins, keyed by their owners'
/// addresses, and collects each group. Claims what the crate documents: the
/// groups are the runs of consecutive coins with the same owner address, in
/// order.
#[verifier::external_body]
fn group_gas_by_owner(gas: Vec<Gas>) -> (runs: Vec<(SuiAddress, Vec<Gas>)>)
    requires
        all_address_owned(gas@),
    ensures
        runs_view(runs@) == gas_runs(gas@),
{
    gas.into_iter().group_by(|g| gas_owner_address(g)).into_iter().map(|(a, run)| (a, run.collect())).collect()
}

/// The address that owns a gas coin owned by an address.
fn gas_owner_address(g: &Gas) -> (a: SuiAddress)
    requires
        owner_address(g.1) is Some,
    ensures
        Some(a) == owner_address(g.1),
{
    match g.1.get_owner_address() {
        Ok(a) => a,
        Err(_) => {
            proof {
                assert(false);
            }
            SuiAddress { high: 0, low: 0 }
        },
    }
}

/// The position of the last run of `address`.
fn last_run_index(runs: &Vec<(SuiAddress, Vec<Gas>)>, address: SuiAddress) -> (r: Option<usize>)
    ensures
        match r {
            Some(x) => x < runs@.len() && last_run_of(runs_view(runs@), address) == Some(runs@[x as int].1@),
            None => last_run_of(runs_view(runs@), address) is None,
        },
{
    let ghost view = runs_view(runs@);
    let mut found: Option<usize> = None;
    let mut i: usize = 0;
    while i < runs.len()
        invariant
            i <= runs@.len(),
            view == runs_view(runs@),
            match found {
                Some(x) => x < i && last_run_of(view.take(i as int), address) == Some(runs@[x as int].1@),
                None => last_run_of(view.take(i as int), address) is None,
            },
        decreases runs@.len() - i,
    {
        proof {
            assert(view.take(i + 1).drop_last() =~= view.take(i as int));
            assert(view.take(i + 1).last() == view[i as int]);
        }
        if runs[i].0 == address {
            found = Some(i);
        }
        i = i + 1;
    }
    proof {
        assert(view.take(i as int) =~= view);
    }
    found
}

/// The position of the first gas coin whose owner is not `owner`.
fn find_other_owner(gas: &Vec<Gas>, owner: Owner) -> (r: Option<usize>)
    ensures
        match r {
            Some(i) => find_index(gas@, owner_differs(owner)) == Some(i as int),
            None => find_index(gas@, owner_differs(owner)) is None,
        },
{
    let mut i: usize = 0;
    while i < gas.len()
        invariant
            i <= gas@.len(),
            forall|j: int| 0 <= j < i ==> !owner_differs(owner)(#[trigger] gas@[j]),
        decreases gas@.len() - i,
    {
        if gas[i].1 != owner {
            proof {
                lemma_find_index_is(gas@, owner_differs(owner), i as int);
            }
            return Some(i);
        }
        i = i + 1;
    }
    proof {
        lemma_find_index_none(gas@, owner_differs(owner));
    }
    None
}

/// Each run is non-empty, and all its coins are owned by its address.
pub proof fn lemma_gas_runs_owned(gas: Seq<Gas>)
    requires
        all_address_owned(gas),
    ensures
        forall|i: int| 0 <= i < gas_runs(gas).len() ==> (#[trigger] gas_runs(gas)[i]).1.len() > 0,
        forall|i: int, k: int|
            0 <= i < gas_runs(gas).len() && 0 <= k < gas_runs(gas)[i].1.len() ==> owner_address(
                (#[trigger] gas_runs(gas)[i].1[k]).1,
            ) == Some(gas_runs(gas)[i].0),
    decreases gas.len(),
{
    if gas.len() > 0 {
        let prefix = gas.drop_last();
        assert(all_address_owned(prefix)) by {
            assert forall|i: int| 0 <= i < prefix.len() implies (#[trigger] owner_address(prefix[i].1)) is Some by {
                assert(prefix[i] == gas[i]);
            }
        }
        lemma_gas_runs_owned(prefix);
        assert(owner_address(gas[gas.len() - 1].1) is Some);
    }
}

/// The last run of an address, where there is one, is owned by that address.
pub proof fn lemma_last_run_owned(runs: Seq<(SuiAddress, Seq<Gas>)>, address: SuiAddress)
    requires
        forall|i: int, k: int|
            0 <= i < runs.len() && 0 <= k < runs[i].1.len() ==> owner_address((#[trigger] runs[i].1[k]).1) == Some(
                runs[i].0,
            ),
    ensures
        last_run_of(runs, address) matches Some(run) ==> forall|k: int|
            0 <= k < run.len() ==> owner_address((#[trigger] run[k]).1) == Some(address),
    decreases runs.len(),
{
    if runs.len() > 0 && runs.last().0 != address {
        let prefix = runs.drop_last();
        assert forall|i: int, k: int| 0 <= i < prefix.len() && 0 <= k < prefix[i].1.len() implies owner_address(
            (#[trigger] prefix[i].1[k]).1,
        ) == Some(prefix[i].0) by {
            assert(prefix[i] == runs[i]);
        }
        lemma_last_run_owned(prefix, address);
    } else if runs.len() > 0 {
        assert forall|k: int| 0 <= k < runs.last().1.len() implies owner_address((#[trigger] runs.last().1[k]).1) == Some(
            address,
        ) by {
            assert(owner_address(runs[runs.len() - 1].1[k].1) == Some(runs[runs.len() - 1].0));
        }
    }
}

/// What the transfer payload of one round is: the token goes from its owner
/// to the owner of the first gas coin of the round with another owner; the
/// round's gas coins pay, and the workload's accounts sign.
pub open spec fn transfer_payload_is(
    p: TransferObjectTestPayload,
    token: Gas,
    round: Seq<Gas>,
    accounts: Seq<(SuiAddress, KeyRef)>,
) -> bool {
    &&& p.transfer_object == token.0
    &&& Some(p.transfer_from) == owner_address(token.1)
    &&& Some(p.transfer_to) == owner_address(round[find_index(round, owner_differs(token.1))->0].1)
    &&& p.gas@ == round
    &&& p.keypairs.entries() == accounts
}

/// What `make_test_payloads` needs: gas coins owned by addresses, at least
/// `num_payloads` coins in the last run of every account (where there is a
/// payload to make), and, for every token that gets a payload, an owner
/// address and a gas coin of the round owned by someone else.
pub open spec fn test_payloads_possible(
    accounts: Seq<(SuiAddress, KeyRef)>,
    num_payloads: u64,
    tokens: Seq<Gas>,
    payload_gas: Seq<Gas>,
) -> bool {
    let runs = gas_runs(payload_gas);
    &&& all_address_owned(payload_gas)
    &&& num_payloads > 0 ==> forall|j: int|
        0 <= j < accounts.len() ==> (#[trigger] last_run_of(runs, accounts[j].0) matches Some(run) && run.len()
            >= num_payloads)
    &&& forall|k: int|
        0 <= k < num_payloads && k < tokens.len() ==> {
            &&& owner_address((#[trigger] tokens[k]).1) is Some
            &&& find_index(round_gas(runs, accounts, k), owner_differs(tokens[k].1)) is Some
        }
}

/// The gas coins of round `i`, for accounts whose last runs are long enough.
fn round_gas_of(
    runs: &Vec<(SuiAddress, Vec<Gas>)>,
    addrs: &Vec<SuiAddress>,
    i: u64,
    Ghost(accounts): Ghost<Seq<(SuiAddress, KeyRef)>>,
) -> (r: Vec<Gas>)
    requires
        addrs@ == accounts.map_values(|e: (SuiAddress, KeyRef)| e.0),
        forall|j: int|
            0 <= j < accounts.len() ==> (#[trigger] last_run_of(runs_view(runs@), accounts[j].0) matches Some(run)
                && run.len() > i),
    ensures
        r@ == round_gas(runs_view(runs@), accounts, i as int),
{
    let ghost runs_model = runs_view(runs@);
    let mut account_gas: Vec<Gas> = Vec::new();
    let mut j: usize = 0;
    while j < addrs.len()
        invariant
            j <= addrs@.len(),
            addrs@ == accounts.map_values(|e: (SuiAddress, KeyRef)| e.0),
            runs_model == runs_view(runs@),
            forall|t: int|
                0 <= t < accounts.len() ==> (#[trigger] last_run_of(runs_model, accounts[t].0) matches Some(run)
                    && run.len() > i),
            account_gas@ == round_gas(runs_model, accounts.take(j as int), i as int),
        decreases addrs@.len() - j,
    {
        let address = addrs[j];
        proof {
            assert(address == accounts[j as int].0);
            assert(last_run_of(runs_model, accounts[j as int].0) is Some);
        }
        let x = match last_run_index(runs, address) {
            Some(x) => x,
            None => {
                proof {
                    assert(false);
                }
                0
            },
        };
        proof {
            assert(runs_model[x as int] == (runs@[x as int].0, runs@[x as int].1@));
            assert(accounts.take(j + 1) =~= accounts.take(j as int).push(accounts[j as int]));
            assert(round_gas(runs_model, accounts.take(j + 1), i as int) =~= round_gas(
                runs_model,
                accounts.take(j as int),
                i as int,
            ).push(runs@[x as int].1@[i as int]));
        }
        let run_len = runs[x].1.len();
        assert(i < run_len);
        account_gas.push(runs[x].1[i as usize]);
        j = j + 1;
    }
    proof {
        assert(accounts.take(j as int) =~= accounts);
    }
    account_gas
}

/// Whether every gas coin is owned by an address.
fn all_gas_address_owned(gas: &Vec<Gas>) -> (b: bool)
    ensures
        b == all_address_owned(gas@),
{
    let mut i: usize = 0;
    while i < gas.len()
        invariant
            i <= gas@.len(),
            forall|j: int| 0 <= j < i ==> (#[trigger] owner_address(gas@[j].1)) is Some,
        decreases gas@.len() - i,
    {
        if gas[i].1.get_owner_address().is_err() {
            assert(owner_address(gas@[i as int].1) is None);
            return false;
        }
        i = i + 1;
    }
    true
}

impl TransferObjectWorkload {
    /// Whether `make_test_payloads` can make these payloads, as
    /// `test_payloads_possible` says.
    pub fn payloads_possible(&self, num_payloads: u64, payload_config: &WorkloadPayloadConfig) -> (b: bool)
        ensures
            b == test_payloads_possible(
                self.transfer_keypairs.entries(),
                num_payloads,
                payload_config.transfer_tokens@,
                payload_config.transfer_object_payload_gas@,
            ),
    {
        let ghost accounts = self.transfer_keypairs.entries();
        let gas = &payload_config.transfer_object_payload_gas;
        let tokens = &payload_config.transfer_tokens;
        let ghost all_gas = gas@;
        if !all_gas_address_owned(gas) {
            return false;
        }
        let ghost runs_model = gas_runs(all_gas);
        let runs = group_gas_by_owner(gas_range(gas, 0, gas.len()));
        proof {
            assert(gas@.subrange(0, gas@.len() as int) =~= gas@);
        }
        let addrs = self.transfer_keypairs.addresses();
        if num_payloads > 0 {
            let mut j: usize = 0;
            while j < addrs.len()
                invariant
                    j <= addrs@.len(),
                    num_payloads > 0,
                    accounts == self.transfer_keypairs.entries(),
                    all_gas == payload_config.transfer_object_payload_gas@,
                    runs_model == gas_runs(all_gas),
                    addrs@ == accounts.map_values(|e: (SuiAddress, KeyRef)| e.0),
                    runs_view(runs@) == runs_model,
                    forall|t: int|
                        0 <= t < j ==> (#[trigger] last_run_of(runs_model, accounts[t].0) matches Some(run) && run.len()
                            >= num_payloads),
                decreases addrs@.len() - j,
            {
                proof {
                    assert(addrs[j as int] == accounts[j as int].0);
                }
                match last_run_index(&runs, addrs[j]) {
                    None => {
                        proof {
                            assert(!(last_run_of(runs_model, accounts[j as int].0) matches Some(run) && run.len()
                                >= num_payloads));
                        }
                        return false;
                    },
                    Some(x) => {
                        if (runs[x].1.len() as u64) < num_payloads {
                            proof {
                                assert(runs_model[x as int] == (runs@[x as int].0, runs@[x as int].1@));
                                assert(!(last_run_of(runs_model, accounts[j as int].0) matches Some(run) && run.len()
                                    >= num_payloads));
                            }
                            return false;
                        }
                    },
                }
                j = j + 1;
            }
        }
        let mut k: u64 = 0;
        while k < num_payloads && k < tokens.len() as u64
            invariant
                k <= num_payloads,
                accounts == self.transfer_keypairs.entries(),
                tokens@ == payload_config.transfer_tokens@,
                addrs@ == accounts.map_values(|e: (SuiAddress, KeyRef)| e.0),
                runs_view(runs@) == runs_model,
                runs_model == gas_runs(all_gas),
                all_gas == payload_config.transfer_object_payload_gas@,
                all_address_owned(all_gas),
                num_payloads > 0 ==> forall|t: int|
                    0 <= t < accounts.len() ==> (#[trigger] last_run_of(runs_model, accounts[t].0) matches Some(run)
                        && run.len() >= num_payloads),
                forall|q: int|
                    0 <= q < k && q < tokens@.len() ==> {
                        &&& owner_address((#[trigger] tokens@[q]).1) is Some
                        &&& find_index(round_gas(runs_model, accounts, q), owner_differs(tokens@[q].1)) is Some
                    },
            decreases num_payloads - k,
        {
            let token = tokens[k as usize];
            if token.1.get_owner_address().is_err() {
                proof {
                    assert(owner_address(tokens@[k as int].1) is None);
                }
                return false;
            }
            proof {
                assert forall|t: int| 0 <= t < accounts.len() implies (#[trigger] last_run_of(
                    runs_model,
                    accounts[t].0,
                ) matches Some(run) && run.len() > k) by {
                    assert(last_run_of(runs_model, accounts[t].0) is Some);
                }
            }
            let round = round_gas_of(&runs, &addrs, k, Ghost(accounts));
            if find_other_owner(&round, token.1).is_none() {
                proof {
                    assert(find_index(round_gas(runs_model, accounts, k as int), owner_differs(tokens@[k as int].1)) is None);
                }
                return false;
            }
            k = k + 1;
        }
        true
    }

    /// The kind of this workload.
    pub fn get_workload_type(&self) -> (t: WorkloadType)
        ensures
            t == WorkloadType::TransferObject,
    {
        WorkloadType::TransferObject
    }

    /// The payloads of the workload: for round `i`, the `i`-th coin of each
    /// account's gas (the last run of its coins, in the order of the coins),
    /// and the `i`-th transfer token; as many rounds as there are both
    /// `num_payloads` and tokens.
    pub fn make_test_payloads(&self, num_payloads: u64, payload_config: WorkloadPayloadConfig) -> (r: Vec<
        TransferObjectTestPayload,
    >)
        requires
            test_payloads_possible(
                self.transfer_keypairs.entries(),
                num_payloads,
                payload_config.transfer_tokens@,
                payload_config.transfer_object_payload_gas@,
            ),
        ensures
            r@.len() == if num_payloads < payload_config.transfer_tokens@.len() {
                num_payloads as int
            } else {
                payload_config.transfer_tokens@.len() as int
            },
            forall|k: int|
                0 <= k < r@.len() ==> transfer_payload_is(
                    #[trigger] r@[k],
                    payload_config.transfer_tokens@[k],
                    round_gas(
                        gas_runs(payload_config.transfer_object_payload_gas@),
                        self.transfer_keypairs.entries(),
                        k,
                    ),
                    self.transfer_keypairs.entries(),
                ),
    {
        let ghost accounts = self.transfer_keypairs.entries();
        let ghost all_gas = payload_config.transfer_object_payload_gas@;
        let ghost runs_model = gas_runs(all_gas);
        proof {
            lemma_gas_runs_owned(all_gas);
        }
        let WorkloadPayloadConfig { transfer_tokens, transfer_object_payload_gas, shared_counter_payload_gas: _ } =
            payload_config;
        let tokens = transfer_tokens;
        let runs = group_gas_by_owner(transfer_object_payload_gas);
        let addrs = self.transfer_keypairs.addresses();
        let mut result: Vec<TransferObjectTestPayload> = Vec::new();
        let mut i: u64 = 0;
        while i < num_payloads
            invariant
                i <= num_payloads,
                accounts == self.transfer_keypairs.entries(),
                addrs@ == accounts.map_values(|e: (SuiAddress, KeyRef)| e.0),
                runs_view(runs@) == runs_model,
                runs_model == gas_runs(all_gas),
                test_payloads_possible(accounts, num_payloads, tokens@, all_gas),
                forall|x: int, k: int|
                    0 <= x < runs_model.len() && 0 <= k < runs_model[x].1.len() ==> owner_address(
                        (#[trigger] runs_model[x].1[k]).1,
                    ) == Some(runs_model[x].0),
                result@.len() == if i < tokens@.len() {
                    i as int
                } else {
                    tokens@.len() as int
                },
                forall|k: int|
                    0 <= k < result@.len() ==> transfer_payload_is(
                        #[trigger] result@[k],
                        tokens@[k],
                        round_gas(runs_model, accounts, k),
                        accounts,
                    ),
            decreases num_payloads - i,
        {
            proof {
                assert forall|j: int| 0 <= j < accounts.len() implies (#[trigger] last_run_of(runs_model, accounts[j].0) matches Some(
                    run,
                ) && run.len() > i) by {
                    assert(last_run_of(runs_model, accounts[j].0) is Some);
                }
            }
            let account_gas = round_gas_of(&runs, &addrs, i, Ghost(accounts));
            if i < tokens.len() as u64 {
                let token = tokens[i as usize];
                let k = match find_other_owner(&account_gas, token.1) {
                    Some(k) => k,
                    None => {
                        proof {
                            assert(false);
                        }
                        return result;
                    },
                };
                proof {
                    lemma_find_index(account_gas@, owner_differs(token.1));
                    let a = accounts[k as int].0;
                    lemma_last_run_owned(runs_model, a);
                    assert(account_gas@[k as int] == (last_run_of(runs_model, a)->0)[i as int]);
                }
                let from = match token.1.get_owner_address() {
                    Ok(a) => a,
                    Err(_) => {
                        proof {
                            assert(false);
                        }
                        return result;
                    },
                };
                let to = gas_owner_address(&account_gas[k]);
                let payload = TransferObjectTestPayload {
                    transfer_object: token.0,
                    transfer_from: from,
                    transfer_to: to,
                    gas: account_gas,
                    keypairs: self.transfer_keypairs.share(),
                };
                result.push(payload);
            }
            i = i + 1;
        }
        result
    }

    /// The workload over the given accounts, each address once.
    pub fn new_boxed(accounts: Vec<(SuiAddress, KeyRef)>) -> (r: Box<TransferObjectWorkload>)
        ensures
            forall|a: SuiAddress| #[trigger] key_of(r.transfer_keypairs.entries(), a) == key_of(accounts@, a),
            forall|i: int|
                0 <= i < r.transfer_keypairs.entries().len() ==> key_of(
                    accounts@,
                    #[trigger] r.transfer_keypairs.entries()[i].0,
                ) == Some(r.transfer_keypairs.entries()[i].1),
    {
        Box::new(TransferObjectWorkload { transfer_keypairs: AccountKeys::from_accounts(accounts) })
    }

    /// The gas coins to create for the workload: a coin of
    /// `MAX_GAS_FOR_TESTING` for each of the `num_tokens` token accounts, then
    /// `num_payloads` such coins for each of the `num_transfer_accounts`
    /// transfer accounts. `new_accounts` are the freshly made accounts, the
    /// token accounts first.
    pub fn generate_coin_config_for_payloads(
        num_tokens: u64,
        num_transfer_accounts: u64,
        num_payloads: u64,
        new_accounts: Vec<(SuiAddress, KeyRef)>,
    ) -> (configs: Vec<GasCoinConfig>)
        requires
            new_accounts@.len() == num_tokens + num_transfer_accounts,
            num_tokens + num_transfer_accounts * num_payloads <= usize::MAX,
        ensures
            configs@ == transfer_coin_configs(
                new_accounts@.take(num_tokens as int),
                new_accounts@.skip(num_tokens as int),
                num_payloads as nat,
            ),
    {
        let ghost tokens = new_accounts@.take(num_tokens as int);
        let ghost transfers = new_accounts@.skip(num_tokens as int);
        let ghost token_part = tokens.map_values(|a: (SuiAddress, KeyRef)| max_gas_config(a));
        let ghost per_account = transfers.map_values(
            |a: (SuiAddress, KeyRef)| Seq::new(num_payloads as nat, |j: int| max_gas_config(a)),
        );
        let mut configs: Vec<GasCoinConfig> = Vec::new();
        let mut i: u64 = 0;
        while i < num_tokens
            invariant
                i <= num_tokens,
                new_accounts@.len() == num_tokens + num_transfer_accounts,
                tokens == new_accounts@.take(num_tokens as int),
                token_part == tokens.map_values(|a: (SuiAddress, KeyRef)| max_gas_config(a)),
                configs@ == token_part.take(i as int),
            decreases num_tokens - i,
        {
            proof {
                assert(token_part.take(i + 1) =~= token_part.take(i as int).push(token_part[i as int]));
            }
            let (address, keypair) = new_accounts[i as usize];
            configs.push(GasCoinConfig { amount: MAX_GAS_FOR_TESTING, address, keypair });
            i = i + 1;
        }
        proof {
            assert(token_part.take(i as int) =~= token_part);
        }
        let mut a: u64 = 0;
        while a < num_transfer_accounts
            invariant
                a <= num_transfer_accounts,
                new_accounts.len() == num_tokens + num_transfer_accounts,
                num_tokens + num_transfer_accounts * num_payloads <= usize::MAX,
                transfers == new_accounts@.skip(num_tokens as int),
                per_account == transfers.map_values(
                    |acc: (SuiAddress, KeyRef)| Seq::new(num_payloads as nat, |j: int| max_gas_config(acc)),
                ),
                configs@ == token_part + per_account.take(a as int).flatten(),
                configs@.len() == num_tokens + a * num_payloads,
            decreases num_transfer_accounts - a,
        {
            let (address, keypair) = new_accounts[(num_tokens + a) as usize];
            proof {
                assert(transfers[a as int] == (address, keypair));
                assert(per_account.take(a + 1) =~= per_account.take(a as int).push(per_account[a as int]));
                per_account.take(a as int).lemma_flatten_push(per_account[a as int]);
                assert((a + 1) * num_payloads <= num_transfer_accounts * num_payloads) by (nonlinear_arith)
                    requires
                        a + 1 <= num_transfer_accounts,
                ;
                assert((a + 1) * num_payloads == a * num_payloads + num_payloads) by (nonlinear_arith);
            }
            let ghost before = configs@;
            let mut j: u64 = 0;
            while j < num_payloads
                invariant
                    j <= num_payloads,
                    configs@ == before + Seq::new(j as nat, |k: int| max_gas_config((address, keypair))),
                    before.len() + num_payloads <= usize::MAX,
                decreases num_payloads - j,
            {
                configs.push(GasCoinConfig { amount: MAX_GAS_FOR_TESTING, address, keypair });
                j = j + 1;
                proof {
                    assert(configs@ =~= before + Seq::new(j as nat, |k: int| max_gas_config((address, keypair))));
                }
            }
            a = a + 1;
        }
        proof {
            assert(per_account.take(a as int) =~= per_account);
        }
        configs
    }
}

// ---------------------------------------------------------------------------
// Laws of the transfer-object payloads

/// The key pair of an address is the one it was registered with last, and
/// there is none exactly when the address is not registered.
pub proof fn lemma_key_of_last(entries: Seq<(SuiAddress, KeyRef)>, address: SuiAddress)
    ensures
        key_of(entries, address) matches Some(k) ==> exists|i: int|
            0 <= i < entries.len() && #[trigger] entries[i] == (address, k) && forall|j: int|
                i < j < entries.len() ==> (#[trigger] entries[j]).0 != address,
        key_of(entries, address) is None ==> forall|j: int| 0 <= j < entries.len() ==> (#[trigger] entries[j]).0 != address,
    decreases entries.len(),
{
    if entries.len() > 0 {
        let front = entries.drop_last();
        let n = entries.len() - 1;
        lemma_key_of_last(front, address);
        if entries.last().0 == address {
            assert(entries[n] == (address, entries.last().1));
        } else if let Some(k) = key_of(front, address) {
            let i = choose|i: int|
                0 <= i < front.len() && #[trigger] front[i] == (address, k) && forall|j: int|
                    i < j < front.len() ==> (#[trigger] front[j]).0 != address;
            assert(entries[i] == front[i]);
            assert forall|j: int| i < j < entries.len() implies (#[trigger] entries[j]).0 != address by {
                if j < n {
                    assert(entries[j] == front[j]);
                }
            }
        } else {
            assert forall|j: int| 0 <= j < entries.len() implies (#[trigger] entries[j]).0 != address by {
                if j < n {
                    assert(entries[j] == front[j]);
                }
            }
        }
    }
}

/// The last run of an address is the last run keyed by it, and there is none
/// exactly when no run is.
pub proof fn lemma_last_run_of_last(runs: Seq<(SuiAddress, Seq<Gas>)>, address: SuiAddress)
    ensures
        last_run_of(runs, address) matches Some(run) ==> exists|i: int|
            0 <= i < runs.len() && #[trigger] runs[i] == (address, run) && forall|j: int|
                i < j < runs.len() ==> (#[trigger] runs[j]).0 != address,
        last_run_of(runs, address) is None ==> forall|j: int| 0 <= j < runs.len() ==> (#[trigger] runs[j]).0 != address,
    decreases runs.len(),
{
    if runs.len() > 0 {
        let front = runs.drop_last();
        let n = runs.len() - 1;
        lemma_last_run_of_last(front, address);
        if runs.last().0 == address {
            assert(runs[n] == (address, runs.last().1));
        } else if let Some(run) = last_run_of(front, address) {
            let i = choose|i: int|
                0 <= i < front.len() && #[trigger] front[i] == (address, run) && forall|j: int|
                    i < j < front.len() ==> (#[trigger] front[j]).0 != address;
            assert(runs[i] == front[i]);
            assert forall|j: int| i < j < runs.len() implies (#[trigger] runs[j]).0 != address by {
                if j < n {
                    assert(runs[j] == front[j]);
                }
            }
        } else {
            assert forall|j: int| 0 <= j < runs.len() implies (#[trigger] runs[j]).0 != address by {
                if j < n {
                    assert(runs[j] == front[j]);
                }
            }
        }
    }
}

/// The coins of a run, one run after another.
pub open spec fn run_coins(runs: Seq<(SuiAddress, Seq<Gas>)>) -> Seq<Seq<Gas>> {
    runs.map_values(|r: (SuiAddress, Seq<Gas>)| r.1)
}

/// The runs divide the gas coins: put back one after another they are the
/// coins, in order; no run is empty; every coin of a run is owned by the
/// run's address; and two neighbouring runs have different addresses.
pub proof fn lemma_gas_runs_partition(gas: Seq<Gas>)
    requires
        all_address_owned(gas),
    ensures
        run_coins(gas_runs(gas)).flatten() == gas,
        forall|i: int| 0 <= i < gas_runs(gas).len() ==> (#[trigger] gas_runs(gas)[i]).1.len() > 0,
        forall|i: int, k: int|
            0 <= i < gas_runs(gas).len() && 0 <= k < gas_runs(gas)[i].1.len() ==> owner_address(
                (#[trigger] gas_runs(gas)[i].1[k]).1,
            ) == Some(gas_runs(gas)[i].0),
        forall|i: int| 0 < i < gas_runs(gas).len() ==> (#[trigger] gas_runs(gas)[i]).0 != gas_runs(gas)[i - 1].0,
    decreases gas.len(),
{
    lemma_gas_runs_owned(gas);
    if gas.len() > 0 {
        let prefix = gas.drop_last();
        let g = gas.last();
        assert(all_address_owned(prefix)) by {
            assert forall|i: int| 0 <= i < prefix.len() implies (#[trigger] owner_address(prefix[i].1)) is Some by {
                assert(prefix[i] == gas[i]);
            }
        }
        lemma_gas_runs_partition(prefix);
        let runs = gas_runs(prefix);
        let a = owner_address(g.1)->0;
        let new_runs = gas_runs(gas);
        if runs.len() > 0 && runs.last().0 == a {
            let front = runs.drop_last();
            let last = runs.last();
            assert(run_coins(runs) =~= run_coins(front).push(last.1));
            run_coins(front).lemma_flatten_push(last.1);
            assert(run_coins(new_runs) =~= run_coins(front).push(last.1.push(g)));
            run_coins(front).lemma_flatten_push(last.1.push(g));
            assert(run_coins(new_runs).flatten() =~= run_coins(runs).flatten().push(g));
            assert forall|i: int| 0 < i < new_runs.len() implies (#[trigger] new_runs[i]).0 != new_runs[i - 1].0 by {
                if i < new_runs.len() - 1 {
                    assert(new_runs[i] == runs[i]);
                }
                assert(new_runs[i - 1] == runs[i - 1]);
            }
        } else {
            assert(run_coins(new_runs) =~= run_coins(runs).push(seq![g]));
            run_coins(runs).lemma_flatten_push(seq![g]);
            assert(run_coins(new_runs).flatten() =~= run_coins(runs).flatten().push(g));
            assert forall|i: int| 0 < i < new_runs.len() implies (#[trigger] new_runs[i]).0 != new_runs[i - 1].0 by {
                if i < new_runs.len() - 1 {
                    assert(new_runs[i] == runs[i]);
                }
                assert(new_runs[i - 1] == runs[i - 1]);
            }
        }
        assert(gas =~= prefix.push(g));
    } else {
        assert(run_coins(gas_runs(gas)) =~= Seq::<Seq<Gas>>::empty());
    }
}

/// Moving a payload on: the new object goes next from the old recipient to
/// the owner of the first gas coin not owned by the old recipient; the
/// sender's gas coins become `new_gas`, owned by the sender's address, and
/// every other coin stays; the accounts stay.
pub proof fn lemma_transfer_payload_renewal(
    p: TransferObjectTestPayload,
    new_object: ObjectRef,
    new_gas: ObjectRef,
    next: TransferObjectTestPayload,
)
    requires
        p.renewable(),
        p.renews_to(new_object, new_gas, next),
    ensures
        next.transfer_object == new_object,
        next.transfer_from == p.transfer_to,
        next.transfer_to != p.transfer_to,
        exists|k: int|
            0 <= k < p.gas@.len() && #[trigger] owner_address(p.gas@[k].1) == Some(next.transfer_to) && forall|j: int|
                0 <= j < k ==> owner_address((#[trigger] p.gas@[j]).1) == Some(p.transfer_to),
        next.gas@.len() == p.gas@.len(),
        forall|i: int|
            0 <= i < p.gas@.len() ==> #[trigger] next.gas@[i] == if owner_address(p.gas@[i].1) == Some(p.transfer_from) {
                (new_gas, Owner::AddressOwner(p.transfer_from), p.gas@[i].2)
            } else {
                p.gas@[i]
            },
        next.keypairs.entries() == p.keypairs.entries(),
{
    lemma_find_index(p.gas@, not_owned_by(p.transfer_to));
    let k = find_index(p.gas@, not_owned_by(p.transfer_to))->0;
    assert(owner_address(p.gas@[k].1) is Some);
    assert forall|j: int| 0 <= j < k implies owner_address((#[trigger] p.gas@[j]).1) == Some(p.transfer_to) by {
        assert(!not_owned_by(p.transfer_to)(p.gas@[j]));
    }
}

/// A payload made for a round sends the round's token from the token's owner
/// to the owner of the first coin of the round with another owner, paid with
/// the round's coins, one per account in the accounts' order.
pub proof fn lemma_test_payload_fields(
    p: TransferObjectTestPayload,
    token: Gas,
    round: Seq<Gas>,
    accounts: Seq<(SuiAddress, KeyRef)>,
)
    requires
        transfer_payload_is(p, token, round, accounts),
        find_index(round, owner_differs(token.1)) is Some,
    ensures
        p.transfer_object == token.0,
        Some(p.transfer_from) == owner_address(token.1),
        exists|k: int|
            0 <= k < round.len() && #[trigger] round[k].1 != token.1 && Some(p.transfer_to) == owner_address(round[k].1)
                && forall|j: int| 0 <= j < k ==> (#[trigger] round[j]).1 == token.1,
        p.gas@ == round,
        p.keypairs.entries() == accounts,
{
    lemma_find_index(round, owner_differs(token.1));
    let k = find_index(round, owner_differs(token.1))->0;
    assert forall|j: int| 0 <= j < k implies (#[trigger] round[j]).1 == token.1 by {
        assert(!owner_differs(token.1)(round[j]));
    }
}

/// A round takes, for each account in order, the coin at the round's position
/// in the last run of that account's coins.
pub proof fn lemma_round_gas_positions(
    runs: Seq<(SuiAddress, Seq<Gas>)>,
    accounts: Seq<(SuiAddress, KeyRef)>,
    i: int,
)
    ensures
        round_gas(runs, accounts, i).len() == accounts.len(),
        forall|j: int|
            0 <= j < accounts.len() ==> (last_run_of(runs, accounts[j].0) matches Some(run) ==> #[trigger] round_gas(
                runs,
                accounts,
                i,
            )[j] == run[i]),
{
}

/// The transaction of a ready payload sends its object from `transfer_from`
/// to `transfer_to`, signed with the sender's key pair, and paid with the
/// first gas coin that the sender owns.
pub proof fn lemma_transfer_transaction(p: TransferObjectTestPayload)
    requires
        p.ready(),
    ensures
        p.transaction().object == p.transfer_object,
        p.transaction().sender == p.transfer_from,
        p.transaction().recipient == p.transfer_to,
        Some(p.transaction().keypair) == key_of(p.keypairs.entries(), p.transfer_from),
        exists|i: int|
            0 <= i < p.gas@.len() && #[trigger] p.gas@[i].0 == p.transaction().gas && owner_address(p.gas@[i].1) == Some(
                p.transfer_from,
            ) && forall|j: int| 0 <= j < i ==> owner_address((#[trigger] p.gas@[j]).1) != Some(p.transfer_from),
{
    lemma_find_index(p.gas@, owned_by(p.transfer_from));
    let i = find_index(p.gas@, owned_by(p.transfer_from))->0;
    assert(p.gas@[i].0 == p.transaction().gas);
    assert forall|j: int| 0 <= j < i implies owner_address((#[trigger] p.gas@[j]).1) != Some(p.transfer_from) by {
        assert(!owned_by(p.transfer_from)(p.gas@[j]));
    }
}

/// A payload whose token can keep moving: every gas coin is owned by an
/// address with a key pair among the workload's accounts, the recipient owns a
/// gas coin, and some gas coin is owned by another address.
pub open spec fn circulating(p: TransferObjectTestPayload) -> bool {
    &&& all_address_owned(p.gas@)
    &&& forall|i: int|
        0 <= i < p.gas@.len() ==> key_of(p.keypairs.entries(), (#[trigger] owner_address(p.gas@[i].1))->0) is Some
    &&& exists|i: int| 0 <= i < p.gas@.len() && #[trigger] owner_address(p.gas@[i].1) == Some(p.transfer_to)
    &&& exists|i: int| 0 <= i < p.gas@.len() && #[trigger] owner_address(p.gas@[i].1) != Some(p.transfer_to)
}

/// A circulating payload can move on, and every payload it moves on to is
/// circulating again and ready to send its transaction: the token passes
/// between the accounts for as long as the benchmark runs.
pub proof fn lemma_transfer_payload_circulates(
    p: TransferObjectTestPayload,
    new_object: ObjectRef,
    new_gas: ObjectRef,
    next: TransferObjectTestPayload,
)
    requires
        circulating(p),
    ensures
        p.renewable(),
        p.renews_to(new_object, new_gas, next) ==> circulating(next) && next.ready(),
{
    let to = p.transfer_to;
    let w = choose|i: int| 0 <= i < p.gas@.len() && #[trigger] owner_address(p.gas@[i].1) != Some(to);
    lemma_find_index(p.gas@, not_owned_by(to));
    if find_index(p.gas@, not_owned_by(to)) is None {
        assert(!not_owned_by(to)(p.gas@[w]));
    }
    if p.renews_to(new_object, new_gas, next) {
        let k = find_index(p.gas@, not_owned_by(to))->0;
        let g = next.gas@;
        assert(g.len() == p.gas@.len());
        assert forall|i: int| 0 <= i < g.len() implies #[trigger] owner_address(g[i].1) == owner_address(p.gas@[i].1) by {
            if owner_address(p.gas@[i].1) == Some(p.transfer_from) {
                assert(g[i].1 == Owner::AddressOwner(p.transfer_from));
            }
        }
        // The old recipient owns a coin, and becomes the sender.
        let v = choose|i: int| 0 <= i < p.gas@.len() && #[trigger] owner_address(p.gas@[i].1) == Some(to);
        assert(owner_address(g[v].1) == Some(next.transfer_from));
        // The new recipient owns the coin found, which the old recipient does not.
        assert(owner_address(g[k].1) == Some(next.transfer_to));
        assert(owner_address(g[v].1) != Some(next.transfer_to));
        assert(all_address_owned(g)) by {
            assert forall|i: int| 0 <= i < g.len() implies (#[trigger] owner_address(g[i].1)) is Some by {
                assert(owner_address(g[i].1) == owner_address(p.gas@[i].1));
            }
        }
        assert forall|i: int| 0 <= i < g.len() implies key_of(
            next.keypairs.entries(),
            (#[trigger] owner_address(g[i].1))->0,
        ) is Some by {
            assert(owner_address(g[i].1) == owner_address(p.gas@[i].1));
        }
        // Ready: some coin is owned by the sender, and all coins before it by addresses.
        lemma_find_index(g, owned_by(next.transfer_from));
        if find_index(g, owned_by(next.transfer_from)) is None {
            assert(!owned_by(next.transfer_from)(g[v]));
        }
        assert(key_of(next.keypairs.entries(), (owner_address(g[v].1))->0) is Some);
    }
}

/// In a round over accounts whose runs are long enough, the coin at each
/// position is owned by the account at that position.
pub proof fn lemma_round_gas_owned(
    payload_gas: Seq<Gas>,
    accounts: Seq<(SuiAddress, KeyRef)>,
    num_payloads: u64,
    k: int,
)
    requires
        all_address_owned(payload_gas),
        0 <= k < num_payloads,
        forall|j: int|
            0 <= j < accounts.len() ==> (#[trigger] last_run_of(gas_runs(payload_gas), accounts[j].0) matches Some(run)
                && run.len() >= num_payloads),
    ensures
        round_gas(gas_runs(payload_gas), accounts, k).len() == accounts.len(),
        forall|j: int|
            0 <= j < accounts.len() ==> owner_address(
                (#[trigger] round_gas(gas_runs(payload_gas), accounts, k)[j]).1,
            ) == Some(accounts[j].0),
{
    let runs = gas_runs(payload_gas);
    lemma_gas_runs_owned(payload_gas);
    assert forall|j: int| 0 <= j < accounts.len() implies owner_address(
        (#[trigger] round_gas(runs, accounts, k)[j]).1,
    ) == Some(accounts[j].0) by {
        lemma_last_run_owned(runs, accounts[j].0);
        assert(last_run_of(runs, accounts[j].0) is Some);
    }
}

/// Over at least two distinct accounts, every payload that
/// `make_test_payloads` makes is circulating: its token passes between the
/// accounts for as long as the benchmark runs.
pub proof fn lemma_test_payloads_circulate(
    accounts: Seq<(SuiAddress, KeyRef)>,
    num_payloads: u64,
    tokens: Seq<Gas>,
    payload_gas: Seq<Gas>,
    k: int,
    p: TransferObjectTestPayload,
)
    requires
        distinct_addresses(accounts),
        accounts.len() >= 2,
        test_payloads_possible(accounts, num_payloads, tokens, payload_gas),
        0 <= k < num_payloads,
        k < tokens.len(),
        transfer_payload_is(p, tokens[k], round_gas(gas_runs(payload_gas), accounts, k), accounts),
    ensures
        circulating(p),
{
    let runs = gas_runs(payload_gas);
    let round = round_gas(runs, accounts, k);
    lemma_round_gas_owned(payload_gas, accounts, num_payloads, k);
    assert(p.gas@ == round);
    assert(all_address_owned(round)) by {
        assert forall|i: int| 0 <= i < round.len() implies (#[trigger] owner_address(round[i].1)) is Some by {
            assert(owner_address(round[i].1) == Some(accounts[i].0));
        }
    }
    assert forall|i: int| 0 <= i < round.len() implies key_of(accounts, (#[trigger] owner_address(round[i].1))->0) is Some by {
        assert(owner_address(round[i].1) == Some(accounts[i].0));
        lemma_key_of_at(accounts, i);
    }
    let x = find_index(round, owner_differs(tokens[k].1))->0;
    lemma_find_index(round, owner_differs(tokens[k].1));
    assert(owner_address(round[x].1) == Some(p.transfer_to));
    assert(accounts[0].0 != accounts[1].0);
    assert(owner_address(round[0].1) == Some(accounts[0].0));
    assert(owner_address(round[1].1) == Some(accounts[1].0));
    if accounts[0].0 == p.transfer_to {
        assert(owner_address(round[1].1) != Some(p.transfer_to));
    } else {
        assert(owner_address(round[0].1) != Some(p.transfer_to));
    }
}

} // verus!
