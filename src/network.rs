//! Subnetwork lifecycle: creation with default parameters, removal with all of its
//! state, the per-block emission split, and read-only descriptors.
use vstd::prelude::*;

use crate::state::{
    is_subnet_at, lemma_subnet_index, subnet_wf, Pallet, Subnet, SubspaceError,
    DEFAULT_ACTIVITY_CUTOFF, DEFAULT_ADJUSTMENT_INTERVAL, DEFAULT_IMMUNITY_PERIOD,
    DEFAULT_MAX_ALLOWED_UIDS, DEFAULT_MAX_REGISTRATIONS_PER_BLOCK, DEFAULT_MIN_ALLOWED_WEIGHTS,
    DEFAULT_SERVING_RATE_LIMIT, DEFAULT_TARGET_REGISTRATIONS_PER_INTERVAL,
    DEFAULT_WEIGHTS_SET_RATE_LIMIT,
};

verus! {

/// Descriptor of a subnetwork for the query layer.
#[derive(Clone, Copy, Debug, PartialEq, Eq, Structural)]
pub struct Network {
    pub netuid: u16,
    pub immunity_period: u16,
    pub min_allowed_weights: u16,
    pub max_weights_limit: u16,
    pub network_n: u16,
    pub max_allowed_uids: u16,
    pub blocks_since_last_step: u64,
    pub tempo: u16,
    pub emission_values: u64,
}

pub open spec fn network_view(s: Subnet) -> Network {
    Network {
        netuid: s.netuid,
        immunity_period: s.immunity_period,
        min_allowed_weights: s.min_allowed_weights,
        max_weights_limit: s.max_weight_limit,
        network_n: s.slots@.len() as u16,
        max_allowed_uids: s.max_allowed_uids,
        blocks_since_last_step: s.blocks_since_last_step,
        tempo: s.tempo,
        emission_values: s.emission_value,
    }
}

/// `s` is a newly created subnetwork `netuid` with tempo `tempo`: default
/// parameters, zero counters, no slots, no queued emission, no endpoints.
pub open spec fn is_new_subnet(s: Subnet, netuid: u16, tempo: u16) -> bool {
    &&& s.netuid == netuid
    &&& s.tempo == tempo
    &&& s.max_allowed_uids == DEFAULT_MAX_ALLOWED_UIDS
    &&& s.immunity_period == DEFAULT_IMMUNITY_PERIOD
    &&& s.min_allowed_weights == DEFAULT_MIN_ALLOWED_WEIGHTS
    &&& s.max_weight_limit == u16::MAX
    &&& s.activity_cutoff == DEFAULT_ACTIVITY_CUTOFF
    &&& s.adjustment_interval == DEFAULT_ADJUSTMENT_INTERVAL
    &&& s.target_registrations_per_interval == DEFAULT_TARGET_REGISTRATIONS_PER_INTERVAL
    &&& s.max_registrations_per_block == DEFAULT_MAX_REGISTRATIONS_PER_BLOCK
    &&& s.serving_rate_limit == DEFAULT_SERVING_RATE_LIMIT
    &&& s.weights_set_rate_limit == DEFAULT_WEIGHTS_SET_RATE_LIMIT
    &&& s.emission_value == 0
    &&& s.pending_emission == 0
    &&& s.blocks_since_last_step == 0
    &&& s.last_adjustment_block == 0
    &&& s.last_mechanism_step_block == 0
    &&& s.registrations_this_block == 0
    &&& s.registrations_this_interval == 0
    &&& s.slots@.len() == 0
    &&& s.weights@.len() == 0
    &&& s.bonds@.len() == 0
    &&& s.loaded_emission@.len() == 0
    &&& s.modules@.len() == 0
}

pub open spec fn has_duplicates(s: Seq<u16>) -> bool {
    exists|i: int, j: int| 0 <= i < j < s.len() && s[i] == s[j]
}

pub open spec fn sum_u64(s: Seq<u64>) -> int
    decreases s.len(),
{
    if s.len() == 0 {
        0
    } else {
        sum_u64(s.drop_last()) + s.last()
    }
}

pub proof fn lemma_sum_u64_prefix(s: Seq<u64>, i: int)
    requires
        0 <= i <= s.len(),
    ensures
        sum_u64(s.take(i)) <= sum_u64(s),
    decreases s.len(),
{
    if s.len() > 0 {
        if i == s.len() {
            assert(s.take(i) =~= s);
        } else {
            lemma_sum_u64_prefix(s.drop_last(), i);
            assert(s.drop_last().take(i) =~= s.take(i));
        }
    } else {
        assert(s.take(i) =~= s);
    }
}

/// Whether the tempo may be given to a subnetwork.
pub fn if_tempo_is_valid(tempo: u16) -> (r: bool)
    ensures
        r == (tempo < u16::MAX),
{
    tempo < u16::MAX
}

/// Whether `netuids` holds some id twice.
pub fn has_duplicate_netuids(netuids: &Vec<u16>) -> (r: bool)
    ensures
        r == has_duplicates(netuids@),
{
    let mut j: usize = 0;
    while j < netuids.len()
        invariant
            j <= netuids@.len(),
            forall|a: int, b: int| 0 <= a < b < j ==> netuids@[a] != netuids@[b],
        decreases netuids@.len() - j,
    {
        let mut i: usize = 0;
        while i < j
            invariant
                i <= j < netuids@.len(),
                forall|a: int| 0 <= a < i ==> netuids@[a] != netuids@[j as int],
            decreases j - i,
        {
            if netuids[i] == netuids[j] {
                return true;
            }
            i += 1;
        }
        j += 1;
    }
    false
}

/// Whether the amounts of `emission` sum to exactly `target`.
pub fn emission_sum_is(emission: &Vec<u64>, target: u64) -> (r: bool)
    ensures
        r == (sum_u64(emission@) == target),
{
    let mut acc: u128 = 0;
    let mut i: usize = 0;
    while i < emission.len()
        invariant
            i <= emission@.len(),
            acc == sum_u64(emission@.take(i as int)),
            acc <= target,
        decreases emission@.len() - i,
    {
        proof {
            assert(emission@.take(i + 1).drop_last() =~= emission@.take(i as int));
        }
        acc = acc + emission[i] as u128;
        if acc > target as u128 {
            proof {
                lemma_sum_u64_prefix(emission@, i + 1);
            }
            return false;
        }
        i += 1;
    }
    proof {
        assert(emission@.take(i as int) =~= emission@);
    }
    acc == target as u128
}

impl Pallet {
    /// An empty registry minting `block_emission` per block.
    pub fn new(block_emission: u64) -> (r: Pallet)
        ensures
            r.wf(),
            r.stake_accounting(),
            r.subnets@.len() == 0,
            r.accounts@.len() == 0,
            r.total_stake == 0,
            r.total_issuance == 0,
            r.block_emission == block_emission,
            r.tx_rate_limit == 0,
    {
        Pallet {
            subnets: Vec::new(),
            accounts: Vec::new(),
            total_stake: 0,
            total_issuance: 0,
            block_emission,
            tx_rate_limit: 0,
        }
    }

    /// Number of subnetworks.
    pub fn get_number_of_networks(&self) -> (r: usize)
        ensures
            r == self.subnets@.len(),
    {
        self.subnets.len()
    }

    /// The first failed precondition of `do_set_emission_values`, if any.
    pub open spec fn emission_values_error(self, netuids: Seq<u16>, emission: Seq<u64>) -> Option<
        SubspaceError,
    > {
        if netuids.len() != emission.len() {
            Some(SubspaceError::WeightVecNotEqualSize)
        } else if netuids.len() != self.subnets@.len() {
            Some(SubspaceError::NotSettingEnoughWeights)
        } else if has_duplicates(netuids) {
            Some(SubspaceError::DuplicateUids)
        } else if exists|k: int| 0 <= k < netuids.len() && !self.network_exists(netuids[k]) {
            Some(SubspaceError::InvalidUid)
        } else if sum_u64(emission) != self.block_emission {
            Some(SubspaceError::InvalidEmissionValues)
        } else {
            None
        }
    }

    /// Adds the subnetwork `netuid`, with default parameters, at the end.
    pub fn init_new_network(&mut self, netuid: u16, tempo: u16)
        requires
            old(self).wf(),
            !old(self).network_exists(netuid),
        ensures
            final(self).wf(),
            final(self).same_ledger(*old(self)),
            final(self).subnets@ == old(self).subnets@.push(final(self).subnets@.last()),
            is_new_subnet(final(self).subnets@.last(), netuid, tempo),
            final(self).network_exists(netuid),
    {
        let subnet = Subnet {
            netuid,
            tempo,
            max_allowed_uids: DEFAULT_MAX_ALLOWED_UIDS,
            immunity_period: DEFAULT_IMMUNITY_PERIOD,
            min_allowed_weights: DEFAULT_MIN_ALLOWED_WEIGHTS,
            max_weight_limit: u16::MAX,
            activity_cutoff: DEFAULT_ACTIVITY_CUTOFF,
            adjustment_interval: DEFAULT_ADJUSTMENT_INTERVAL,
            target_registrations_per_interval: DEFAULT_TARGET_REGISTRATIONS_PER_INTERVAL,
            max_registrations_per_block: DEFAULT_MAX_REGISTRATIONS_PER_BLOCK,
            serving_rate_limit: DEFAULT_SERVING_RATE_LIMIT,
            weights_set_rate_limit: DEFAULT_WEIGHTS_SET_RATE_LIMIT,
            emission_value: 0,
            pending_emission: 0,
            blocks_since_last_step: 0,
            last_adjustment_block: 0,
            last_mechanism_step_block: 0,
            registrations_this_block: 0,
            registrations_this_interval: 0,
            slots: Vec::new(),
            weights: Vec::new(),
            bonds: Vec::new(),
            loaded_emission: Vec::new(),
            modules: Vec::new(),
        };
        let ghost n = self.subnets@.len();
        proof {
            assert forall|j: int| 0 <= j < n implies self.subnets@[j].netuid != netuid by {
                if self.subnets@[j].netuid == netuid {
                    assert forall|m: int| 0 <= m < j implies self.subnets@[m].netuid != netuid by {
                        assert(self.subnets@[m].netuid != self.subnets@[j].netuid);
                    }
                    assert(is_subnet_at(self.subnets@, netuid, j));
                }
            }
        }
        self.subnets.push(subnet);
        proof {
            assert(is_subnet_at(self.subnets@, netuid, n as int));
            assert(self.subnets@ =~= old(self).subnets@.push(self.subnets@.last()));
            assert forall|a: int| 0 <= a < self.subnets@.len() implies subnet_wf(
                #[trigger] self.subnets@[a],
            ) by {
                if a < n {
                    assert(subnet_wf(old(self).subnets@[a]));
                }
            }
        }
    }

    /// Creates the subnetwork `netuid` with tempo `tempo`. Fails with
    /// `NetworkExist` when it exists, then with `InvalidTempo` when the tempo is
    /// the maximum value.
    pub fn do_add_network(&mut self, netuid: u16, tempo: u16) -> (r: Result<(), SubspaceError>)
        requires
            old(self).wf(),
        ensures
            final(self).wf(),
            final(self).same_ledger(*old(self)),
            r == (if old(self).network_exists(netuid) {
                Err(SubspaceError::NetworkExist)
            } else if tempo == u16::MAX {
                Err(SubspaceError::InvalidTempo)
            } else {
                Ok(())
            }),
            r is Err ==> final(self).subnets@ == old(self).subnets@,
            r is Ok ==> {
                &&& final(self).subnets@ == old(self).subnets@.push(final(self).subnets@.last())
                &&& is_new_subnet(final(self).subnets@.last(), netuid, tempo)
                &&& final(self).network_exists(netuid)
            },
    {
        if self.if_network_exist(netuid) {
            return Err(SubspaceError::NetworkExist);
        }
        if !if_tempo_is_valid(tempo) {
            return Err(SubspaceError::InvalidTempo);
        }
        self.init_new_network(netuid, tempo);
        Ok(())
    }

    /// Erases the subnetwork `netuid` and everything stored under it.
    pub fn remove_network(&mut self, netuid: u16)
        requires
            old(self).wf(),
        ensures
            final(self).wf(),
            final(self).same_ledger(*old(self)),
            final(self).subnets@ == (if old(self).network_exists(netuid) {
                old(self).subnets@.remove(old(self).net_index(netuid))
            } else {
                old(self).subnets@
            }),
            !final(self).network_exists(netuid),
    {
        if let Some(i) = self.find_subnet(netuid) {
            let ghost s = self.subnets@;
            self.subnets.remove(i);
            proof {
                let t = self.subnets@;
                assert forall|a: int| 0 <= a < t.len() implies t[a] == (if a < i {
                    s[a]
                } else {
                    s[a + 1]
                }) by {}
                assert forall|a: int, b: int| 0 <= a < b < t.len() implies t[a].netuid
                    != t[b].netuid by {
                    let a0 = if a < i {
                        a
                    } else {
                        a + 1
                    };
                    let b0 = if b < i {
                        b
                    } else {
                        b + 1
                    };
                    assert(s[a0].netuid != s[b0].netuid);
                }
                assert forall|a: int| 0 <= a < t.len() implies subnet_wf(#[trigger] t[a]) by {
                    let a0 = if a < i {
                        a
                    } else {
                        a + 1
                    };
                    assert(subnet_wf(s[a0]));
                }
                assert forall|a: int| 0 <= a < t.len() implies t[a].netuid != netuid by {
                    let a0 = if a < i {
                        a
                    } else {
                        a + 1
                    };
                    assert(s[a0].netuid != s[i as int].netuid);
                }
                if exists|a: int| is_subnet_at(t, netuid, a) {
                    let a = choose|a: int| is_subnet_at(t, netuid, a);
                    assert(t[a].netuid != netuid);
                }
            }
        }
    }

    /// Removes the subnetwork `netuid`; `NetworkDoesNotExist` when there is none.
    pub fn do_remove_network(&mut self, netuid: u16) -> (r: Result<(), SubspaceError>)
        requires
            old(self).wf(),
        ensures
            final(self).wf(),
            final(self).same_ledger(*old(self)),
            r == (if old(self).network_exists(netuid) {
                Ok(())
            } else {
                Err(SubspaceError::NetworkDoesNotExist)
            }),
            final(self).subnets@ == (if old(self).network_exists(netuid) {
                old(self).subnets@.remove(old(self).net_index(netuid))
            } else {
                old(self).subnets@
            }),
    {
        if !self.if_network_exist(netuid) {
            return Err(SubspaceError::NetworkDoesNotExist);
        }
        self.remove_network(netuid);
        Ok(())
    }

    /// Whether some id of `netuids` names no subnetwork.
    pub fn contains_invalid_netuids(&self, netuids: &Vec<u16>) -> (r: bool)
        ensures
            r == exists|k: int| 0 <= k < netuids@.len() && !self.network_exists(netuids@[k]),
    {
        let mut k: usize = 0;
        while k < netuids.len()
            invariant
                k <= netuids@.len(),
                forall|a: int| 0 <= a < k ==> self.network_exists(netuids@[a]),
            decreases netuids@.len() - k,
        {
            if !self.if_network_exist(netuids[k]) {
                return true;
            }
            k += 1;
        }
        false
    }

    /// Sets the emission share of the subnetwork `netuid`.
    pub fn set_emission_for_network(&mut self, netuid: u16, emission: u64)
        ensures
            final(self).same_ledger(*old(self)),
            final(self).subnets@ == old(self).with_net(
                netuid,
                (Subnet { emission_value: emission, ..old(self).net(netuid) }),
            ),
    {
        if let Some(i) = self.find_subnet(netuid) {
            self.subnets[i].emission_value = emission;
            assert(self.subnets@ =~= old(self).with_net(
                netuid,
                (Subnet { emission_value: emission, ..old(self).net(netuid) }),
            ));
        }
    }

    /// Gives each subnetwork `netuids[k]` the emission share `emission[k]`.
    pub fn set_emission_values(&mut self, netuids: &Vec<u16>, emission: &Vec<u64>)
        requires
            old(self).wf(),
            netuids@.len() == emission@.len(),
            !has_duplicates(netuids@),
        ensures
            final(self).wf(),
            final(self).same_ledger(*old(self)),
            final(self).subnets@.len() == old(self).subnets@.len(),
            forall|j: int|
                0 <= j < old(self).subnets@.len() ==> #[trigger] final(self).subnets@[j] == (Subnet {
                    emission_value: final(self).subnets@[j].emission_value,
                    ..old(self).subnets@[j]
                }),
            forall|j: int, k: int|
                0 <= j < old(self).subnets@.len() && 0 <= k < netuids@.len() && netuids@[k]
                    == old(self).subnets@[j].netuid ==> #[trigger] final(self).subnets@[j].emission_value
                    == #[trigger] emission@[k],
            forall|j: int|
                0 <= j < old(self).subnets@.len() && (forall|k: int|
                    0 <= k < netuids@.len() ==> netuids@[k] != old(self).subnets@[j].netuid)
                    ==> #[trigger] final(self).subnets@[j] == old(self).subnets@[j],
    {
        let mut k: usize = 0;
        while k < netuids.len()
            invariant
                self.wf(),
                netuids@.len() == emission@.len(),
                !has_duplicates(netuids@),
                k <= netuids@.len(),
                self.same_ledger(*old(self)),
                self.subnets@.len() == old(self).subnets@.len(),
                forall|j: int|
                    0 <= j < old(self).subnets@.len() ==> #[trigger] self.subnets@[j] == (Subnet {
                        emission_value: self.subnets@[j].emission_value,
                        ..old(self).subnets@[j]
                    }),
                forall|j: int, a: int|
                    0 <= j < old(self).subnets@.len() && 0 <= a < k && netuids@[a]
                        == old(self).subnets@[j].netuid ==> #[trigger] self.subnets@[j].emission_value
                        == #[trigger] emission@[a],
                forall|j: int|
                    0 <= j < old(self).subnets@.len() && (forall|a: int|
                        0 <= a < k ==> netuids@[a] != old(self).subnets@[j].netuid)
                        ==> #[trigger] self.subnets@[j] == old(self).subnets@[j],
            decreases netuids@.len() - k,
        {
            let ghost pre = self.subnets@;
            let netuid = netuids[k];
            self.set_emission_for_network(netuid, emission[k]);
            proof {
                if pre.len() > 0 && exists|x: int| is_subnet_at(pre, netuid, x) {
                    let x = choose|x: int| is_subnet_at(pre, netuid, x);
                    lemma_subnet_index(pre, netuid, x);
                }
                assert forall|j: int, a: int|
                    0 <= j < old(self).subnets@.len() && 0 <= a < k + 1 && netuids@[a]
                        == old(self).subnets@[j].netuid implies #[trigger] self.subnets@[j].emission_value
                    == #[trigger] emission@[a] by {
                    if a < k {
                        assert(netuids@[a] != netuids@[k as int]);
                        if exists|x: int| is_subnet_at(pre, netuid, x) {
                            let x = choose|x: int| is_subnet_at(pre, netuid, x);
                            assert(pre[j].netuid == old(self).subnets@[j].netuid);
                            assert(j != x);
                        }
                    } else {
                        assert(pre[j].netuid == netuid);
                        if !is_subnet_at(pre, netuid, j) {
                            let m = choose|m: int| 0 <= m < j && pre[m].netuid == netuid;
                            assert(pre[m].netuid == old(self).subnets@[m].netuid);
                        }
                        lemma_subnet_index(pre, netuid, j);
                    }
                }
                assert forall|j: int|
                    0 <= j < old(self).subnets@.len() && (forall|a: int|
                        0 <= a < k + 1 ==> netuids@[a] != old(self).subnets@[j].netuid)
                        implies #[trigger] self.subnets@[j] == old(self).subnets@[j] by {
                    assert(netuids@[k as int] != old(self).subnets@[j].netuid);
                    if exists|x: int| is_subnet_at(pre, netuid, x) {
                        let x = choose|x: int| is_subnet_at(pre, netuid, x);
                        assert(pre[j].netuid == old(self).subnets@[j].netuid);
                        assert(j != x);
                    }
                }
                assert forall|a: int| 0 <= a < self.subnets@.len() implies subnet_wf(
                    #[trigger] self.subnets@[a],
                ) by {
                    assert(subnet_wf(pre[a]));
                }
            }
            k += 1;
        }
    }

    /// Sets the emission share of every subnetwork at once.
    ///
    /// Checks, first failure wins: both lists have the same length
    /// (`WeightVecNotEqualSize`); they name as many ids as there are subnetworks
    /// (`NotSettingEnoughWeights`); no id repeats (`DuplicateUids`); every id names
    /// a subnetwork (`InvalidUid`); the shares sum to the block emission
    /// (`InvalidEmissionValues`).
    pub fn do_set_emission_values(&mut self, netuids: &Vec<u16>, emission: &Vec<u64>) -> (r: Result<
        (),
        SubspaceError,
    >)
        requires
            old(self).wf(),
        ensures
            final(self).wf(),
            final(self).same_ledger(*old(self)),
            match old(self).emission_values_error(netuids@, emission@) {
                Some(e) => r == Err::<(), SubspaceError>(e) && final(self).subnets@ == old(self).subnets@,
                None => r is Ok,
            },
            r is Ok ==> {
                &&& final(self).subnets@.len() == old(self).subnets@.len()
                &&& forall|j: int|
                    0 <= j < old(self).subnets@.len() ==> #[trigger] final(self).subnets@[j] == (
                    Subnet {
                        emission_value: final(self).subnets@[j].emission_value,
                        ..old(self).subnets@[j]
                    })
                &&& forall|j: int, k: int|
                    0 <= j < old(self).subnets@.len() && 0 <= k < netuids@.len() && netuids@[k]
                        == old(self).subnets@[j].netuid ==> #[trigger] final(self).subnets@[j].emission_value == #[trigger] emission@[k]
            },
    {
        if netuids.len() != emission.len() {
            return Err(SubspaceError::WeightVecNotEqualSize);
        }
        if netuids.len() != self.subnets.len() {
            return Err(SubspaceError::NotSettingEnoughWeights);
        }
        if has_duplicate_netuids(netuids) {
            return Err(SubspaceError::DuplicateUids);
        }
        if self.contains_invalid_netuids(netuids) {
            return Err(SubspaceError::InvalidUid);
        }
        if !emission_sum_is(emission, self.block_emission) {
            return Err(SubspaceError::InvalidEmissionValues);
        }
        self.set_emission_values(netuids, emission);
        Ok(())
    }

    /// The descriptor of `netuid`, if it exists.
    pub fn get_network(&self, netuid: u16) -> (r: Option<Network>)
        requires
            self.wf(),
        ensures
            r == (if self.network_exists(netuid) {
                Some(network_view(self.net(netuid)))
            } else {
                None
            }),
    {
        match self.find_subnet(netuid) {
            Some(i) => Some(self.network_at(i)),
            None => None,
        }
    }

    fn network_at(&self, i: usize) -> (r: Network)
        requires
            self.wf(),
            i < self.subnets@.len(),
        ensures
            r == network_view(self.subnets@[i as int]),
    {
        let s = &self.subnets[i];
        proof {
            assert(subnet_wf(self.subnets@[i as int]));
        }
        Network {
            netuid: s.netuid,
            immunity_period: s.immunity_period,
            min_allowed_weights: s.min_allowed_weights,
            max_weights_limit: s.max_weight_limit,
            network_n: s.slots.len() as u16,
            max_allowed_uids: s.max_allowed_uids,
            blocks_since_last_step: s.blocks_since_last_step,
            tempo: s.tempo,
            emission_values: s.emission_value,
        }
    }

    /// The descriptors of all subnetworks, in ascending order of netuid.
    pub fn get_networks(&self) -> (r: Vec<Network>)
        requires
            self.wf(),
        ensures
            forall|a: int|
                0 <= a < r@.len() ==> self.network_exists(#[trigger] r@[a].netuid) && r@[a]
                    == network_view(self.net(r@[a].netuid)),
            forall|a: int, b: int| 0 <= a < b < r@.len() ==> r@[a].netuid < r@[b].netuid,
            forall|m: u16|
                self.network_exists(m) ==> exists|a: int| 0 <= a < r@.len() && #[trigger] r@[a].netuid == m,
    {
        let mut networks: Vec<Network> = Vec::new();
        let mut n: u32 = 0;
        while n <= u16::MAX as u32
            invariant
                self.wf(),
                n <= u16::MAX as u32 + 1,
                forall|a: int|
                    0 <= a < networks@.len() ==> self.network_exists(#[trigger] networks@[a].netuid)
                        && networks@[a] == network_view(self.net(networks@[a].netuid))
                        && networks@[a].netuid < n,
                forall|a: int, b: int|
                    0 <= a < b < networks@.len() ==> networks@[a].netuid < networks@[b].netuid,
                forall|m: u16|
                    m < n && self.network_exists(m) ==> exists|a: int|
                        0 <= a < networks@.len() && #[trigger] networks@[a].netuid == m,
            decreases u16::MAX as u32 + 1 - n,
        {
            let netuid = n as u16;
            let ghost prev = networks@;
            let found = self.find_subnet(netuid);
            if let Some(i) = found {
                let view = self.network_at(i);
                networks.push(view);
            }
            proof {
                assert forall|m: u16| m < n + 1 && self.network_exists(m) implies exists|a: int|
                    0 <= a < networks@.len() && #[trigger] networks@[a].netuid == m by {
                    if m < n {
                        let a = choose|a: int| 0 <= a < prev.len() && #[trigger] prev[a].netuid == m;
                        assert(networks@[a] == prev[a]);
                    } else {
                        assert(found is Some);
                        assert(networks@[networks@.len() - 1].netuid == m);
                    }
                }
            }
            n += 1;
        }
        networks
    }
}

} // verus!
