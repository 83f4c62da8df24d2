//! The registry's state: subnetworks with their parameters, counters and slots,
//! and the per-account staking ledger.
use vstd::prelude::*;

verus! {

/// Default capacity of a new subnetwork.
pub const DEFAULT_MAX_ALLOWED_UIDS: u16 = 4096;

/// Default number of blocks during which a freshly registered slot cannot be evicted.
pub const DEFAULT_IMMUNITY_PERIOD: u16 = 4096;

/// Default cap on registrations per block and subnetwork.
pub const DEFAULT_MAX_REGISTRATIONS_PER_BLOCK: u16 = 3;

/// Default number of blocks between two resets of the interval registration counter.
pub const DEFAULT_ADJUSTMENT_INTERVAL: u16 = 100;

/// Default target of registrations per adjustment interval.
pub const DEFAULT_TARGET_REGISTRATIONS_PER_INTERVAL: u16 = 2;

/// Default activity cutoff, in blocks.
pub const DEFAULT_ACTIVITY_CUTOFF: u16 = 5000;

/// Default minimum number of weights a participant must set.
pub const DEFAULT_MIN_ALLOWED_WEIGHTS: u16 = 1;

/// Default minimum spacing, in blocks, between two endpoint updates.
pub const DEFAULT_SERVING_RATE_LIMIT: u64 = 50;

/// Default minimum spacing, in blocks, between two weight submissions.
pub const DEFAULT_WEIGHTS_SET_RATE_LIMIT: u64 = 100;

/// Errors reported to callers. Every check runs before any write, so an
/// operation that fails leaves the state as it was.
#[derive(PartialEq, Eq, Structural, Clone, Copy, Debug)]
pub enum SubspaceError {
    NetworkDoesNotExist,
    NetworkExist,
    InvalidTempo,
    TooManyRegistrationsThisBlock,
    AlreadyRegistered,
    NotRegistered,
    TxRateLimitExceeded,
    ServingRateLimitExceeded,
    InvalidIpAddress,
    NotEnoughBalanceToStake,
    NotEnoughBalanceToRegister,
    NotEnoughStaketoWithdraw,
    BalanceWithdrawalError,
    WeightVecNotEqualSize,
    NotSettingEnoughWeights,
    DuplicateUids,
    InvalidUid,
    InvalidEmissionValues,
    MaxAllowedUIdsNotAllowed,
}

/// One occupied slot (uid) of a subnetwork: its participant and its score entries.
#[derive(Clone, Copy, Debug)]
pub struct Slot {
    pub key: u64,
    pub block_at_registration: u64,
    pub active: bool,
    pub rank: u16,
    pub incentive: u16,
    pub dividends: u16,
    pub emission: u64,
    pub pruning_score: u16,
    pub last_update: u64,
}

/// The endpoint a participant serves on a subnetwork.
#[derive(Clone, Debug)]
pub struct ModuleInfo {
    pub block: u64,
    pub version: u64,
    pub ip: u128,
    pub port: u16,
    pub name: Vec<u8>,
    pub uri: Vec<u8>,
}

/// A subnetwork: parameters, counters, occupied slots (uid = index), the
/// `(uid, value)` weight and bond lists of each slot (by uid, as long as the
/// slots), the queue of emission tuples awaiting payout, and the endpoints served
/// on it.
#[derive(Clone, Debug)]
pub struct Subnet {
    pub netuid: u16,
    pub tempo: u16,
    pub max_allowed_uids: u16,
    pub immunity_period: u16,
    pub min_allowed_weights: u16,
    pub max_weight_limit: u16,
    pub activity_cutoff: u16,
    pub adjustment_interval: u16,
    pub target_registrations_per_interval: u16,
    pub max_registrations_per_block: u16,
    pub serving_rate_limit: u64,
    pub weights_set_rate_limit: u64,
    pub emission_value: u64,
    pub pending_emission: u64,
    pub blocks_since_last_step: u64,
    pub last_adjustment_block: u64,
    pub last_mechanism_step_block: u64,
    pub registrations_this_block: u16,
    pub registrations_this_interval: u16,
    pub slots: Vec<Slot>,
    pub weights: Vec<Vec<(u16, u16)>>,
    pub bonds: Vec<Vec<(u16, u16)>>,
    pub loaded_emission: Vec<(u64, u64)>,
    pub modules: Vec<(u64, ModuleInfo)>,
}

/// A participant's ledger entry.
#[derive(Clone, Copy, Debug)]
pub struct Account {
    pub key: u64,
    pub stake: u64,
    pub owner: Option<u64>,
    pub last_tx_block: u64,
}

/// The whole registry.
#[derive(Clone, Debug)]
pub struct Pallet {
    pub subnets: Vec<Subnet>,
    pub accounts: Vec<Account>,
    pub total_stake: u64,
    pub total_issuance: u64,
    pub block_emission: u64,
    pub tx_rate_limit: u64,
}

// ---------------------------------------------------------------------------
// Lookups. Each one finds the first entry with the given id.
// ---------------------------------------------------------------------------

pub open spec fn is_subnet_at(s: Seq<Subnet>, netuid: u16, i: int) -> bool {
    &&& 0 <= i < s.len()
    &&& s[i].netuid == netuid
    &&& forall|j: int| 0 <= j < i ==> s[j].netuid != netuid
}

/// Index of the subnetwork `netuid`, or -1.
pub open spec fn subnet_index(s: Seq<Subnet>, netuid: u16) -> int {
    if exists|i: int| is_subnet_at(s, netuid, i) {
        choose|i: int| is_subnet_at(s, netuid, i)
    } else {
        -1
    }
}

pub open spec fn is_slot_at(s: Seq<Slot>, key: u64, i: int) -> bool {
    &&& 0 <= i < s.len()
    &&& s[i].key == key
    &&& forall|j: int| 0 <= j < i ==> s[j].key != key
}

/// The uid that `key` holds among `s`, or -1.
pub open spec fn slot_index(s: Seq<Slot>, key: u64) -> int {
    if exists|i: int| is_slot_at(s, key, i) {
        choose|i: int| is_slot_at(s, key, i)
    } else {
        -1
    }
}

pub open spec fn is_account_at(s: Seq<Account>, key: u64, i: int) -> bool {
    &&& 0 <= i < s.len()
    &&& s[i].key == key
    &&& forall|j: int| 0 <= j < i ==> s[j].key != key
}

/// Index of the ledger entry of `key`, or -1.
pub open spec fn account_index(s: Seq<Account>, key: u64) -> int {
    if exists|i: int| is_account_at(s, key, i) {
        choose|i: int| is_account_at(s, key, i)
    } else {
        -1
    }
}

pub open spec fn is_module_at(s: Seq<(u64, ModuleInfo)>, key: u64, i: int) -> bool {
    &&& 0 <= i < s.len()
    &&& s[i].0 == key
    &&& forall|j: int| 0 <= j < i ==> s[j].0 != key
}

/// Index of the endpoint entry of `key`, or -1.
pub open spec fn module_index(s: Seq<(u64, ModuleInfo)>, key: u64) -> int {
    if exists|i: int| is_module_at(s, key, i) {
        choose|i: int| is_module_at(s, key, i)
    } else {
        -1
    }
}

pub proof fn lemma_subnet_index(s: Seq<Subnet>, netuid: u16, i: int)
    requires
        is_subnet_at(s, netuid, i),
    ensures
        subnet_index(s, netuid) == i,
{
    let k = subnet_index(s, netuid);
    assert(is_subnet_at(s, netuid, k));
    if k < i {
        assert(s[k].netuid != netuid);
    } else if i < k {
        assert(s[i].netuid != netuid);
    }
}

pub proof fn lemma_slot_index(s: Seq<Slot>, key: u64, i: int)
    requires
        is_slot_at(s, key, i),
    ensures
        slot_index(s, key) == i,
{
    let k = slot_index(s, key);
    assert(is_slot_at(s, key, k));
    if k < i {
        assert(s[k].key != key);
    } else if i < k {
        assert(s[i].key != key);
    }
}

pub proof fn lemma_account_index(s: Seq<Account>, key: u64, i: int)
    requires
        is_account_at(s, key, i),
    ensures
        account_index(s, key) == i,
{
    let k = account_index(s, key);
    assert(is_account_at(s, key, k));
    if k < i {
        assert(s[k].key != key);
    } else if i < k {
        assert(s[i].key != key);
    }
}

pub proof fn lemma_module_index(s: Seq<(u64, ModuleInfo)>, key: u64, i: int)
    requires
        is_module_at(s, key, i),
    ensures
        module_index(s, key) == i,
{
    let k = module_index(s, key);
    assert(is_module_at(s, key, k));
    if k < i {
        assert(s[k].0 != key);
    } else if i < k {
        assert(s[i].0 != key);
    }
}

// ---------------------------------------------------------------------------
// Well-formedness.
// ---------------------------------------------------------------------------

/// No two slots of a subnetwork hold the same participant.
pub open spec fn slot_keys_unique(s: Seq<Slot>) -> bool {
    forall|i: int, j: int| 0 <= i < j < s.len() ==> s[i].key != s[j].key
}

/// No two ledger entries belong to the same participant.
pub open spec fn account_keys_unique(s: Seq<Account>) -> bool {
    forall|i: int, j: int| 0 <= i < j < s.len() ==> s[i].key != s[j].key
}

pub open spec fn subnet_wf(s: Subnet) -> bool {
    &&& slot_keys_unique(s.slots@)
    &&& s.slots@.len() <= u16::MAX
    &&& s.weights@.len() == s.slots@.len()
    &&& s.bonds@.len() == s.slots@.len()
}

impl Pallet {
    pub open spec fn wf(self) -> bool {
        &&& forall|i: int, j: int|
            0 <= i < j < self.subnets@.len() ==> self.subnets@[i].netuid != self.subnets@[j].netuid
        &&& forall|i: int| 0 <= i < self.subnets@.len() ==> subnet_wf(#[trigger] self.subnets@[i])
        &&& account_keys_unique(self.accounts@)
    }

    pub open spec fn net_index(self, netuid: u16) -> int {
        subnet_index(self.subnets@, netuid)
    }

    pub open spec fn network_exists(self, netuid: u16) -> bool {
        self.net_index(netuid) >= 0
    }

    /// The subnetwork `netuid`; meaningful when it exists.
    pub open spec fn net(self, netuid: u16) -> Subnet {
        self.subnets@[self.net_index(netuid)]
    }

    /// The subnetworks after `netuid` (if it exists) is replaced by `s`.
    pub open spec fn with_net(self, netuid: u16, s: Subnet) -> Seq<Subnet> {
        if self.network_exists(netuid) {
            self.subnets@.update(self.net_index(netuid), s)
        } else {
            self.subnets@
        }
    }

    /// Number of occupied slots of `netuid` (0 when it does not exist).
    pub open spec fn network_n(self, netuid: u16) -> nat {
        if self.network_exists(netuid) {
            self.net(netuid).slots@.len()
        } else {
            0
        }
    }

    pub open spec fn stake_of(self, key: u64) -> u64 {
        stake_in(self.accounts@, key)
    }

    /// Same ledger and global parameters.
    pub open spec fn same_ledger(self, o: Pallet) -> bool {
        &&& self.accounts@ == o.accounts@
        &&& self.total_stake == o.total_stake
        &&& self.total_issuance == o.total_issuance
        &&& self.block_emission == o.block_emission
        &&& self.tx_rate_limit == o.tx_rate_limit
    }

    /// Same state as `o` in everything.
    pub open spec fn same_state(self, o: Pallet) -> bool {
        self.same_ledger(o) && self.subnets@ == o.subnets@
    }

    /// The sum of all stakes equals `total_stake`.
    pub open spec fn stake_accounting(self) -> bool {
        sum_stake(self.accounts@) == self.total_stake
    }
}

/// The stake of `key` in the ledger `s`: 0 when it has no entry.
pub open spec fn stake_in(s: Seq<Account>, key: u64) -> u64 {
    let i = account_index(s, key);
    if i >= 0 {
        s[i].stake
    } else {
        0
    }
}

/// The sum of the stakes of the ledger entries.
pub open spec fn sum_stake(s: Seq<Account>) -> int
    decreases s.len(),
{
    if s.len() == 0 {
        0
    } else {
        sum_stake(s.drop_last()) + s.last().stake
    }
}

} // verus!
