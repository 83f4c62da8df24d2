//! Admission and pruning: registration appends a slot while the subnetwork has
//! room, and otherwise evicts the lowest-scored slot outside its immunity period.
use vstd::prelude::*;

use crate::staking::{can_remove, can_remove_balance_from_account, lemma_sum_stake_update, Currency};
use crate::state::{
    account_index, lemma_slot_index, lemma_subnet_index, slot_index, slot_keys_unique, subnet_wf, sum_stake, Account, Pallet, Slot,
    Subnet, SubspaceError,
};
use crate::utils::{cleared_at, find_account, find_slot};

verus! {

/// The entry of a freshly registered slot: default scores, and a pruning score at
/// its maximum, so that it is not preferred for eviction until it is scored.
pub open spec fn fresh_slot(key: u64, block: u64) -> Slot {
    Slot {
        key,
        block_at_registration: block,
        active: true,
        rank: 0,
        incentive: 0,
        dividends: 0,
        emission: 0,
        pruning_score: u16::MAX,
        last_update: block,
    }
}

pub fn new_slot(key: u64, block: u64) -> (r: Slot)
    ensures
        r == fresh_slot(key, block),
{
    Slot {
        key,
        block_at_registration: block,
        active: true,
        rank: 0,
        incentive: 0,
        dividends: 0,
        emission: 0,
        pruning_score: u16::MAX,
        last_update: block,
    }
}

/// A slot registered less than `immunity_period` blocks ago cannot be evicted
/// while another one can.
pub open spec fn is_immune(slot: Slot, current_block: u64, immunity_period: u16) -> bool {
    (if current_block >= slot.block_at_registration {
        current_block - slot.block_at_registration
    } else {
        0
    }) < immunity_period
}

pub open spec fn has_unprotected(s: Seq<Slot>, current_block: u64, immunity_period: u16) -> bool {
    exists|j: int| 0 <= j < s.len() && !is_immune(s[j], current_block, immunity_period)
}

/// The slots eviction chooses among: those out of immunity, or all of them when
/// every slot is immune.
pub open spec fn is_prune_candidate(
    s: Seq<Slot>,
    current_block: u64,
    immunity_period: u16,
    j: int,
) -> bool {
    &&& 0 <= j < s.len()
    &&& has_unprotected(s, current_block, immunity_period) ==> !is_immune(
        s[j],
        current_block,
        immunity_period,
    )
}

/// `r` is the candidate with the lowest pruning score, the lowest uid among equals.
pub open spec fn is_prune_choice(s: Seq<Slot>, current_block: u64, immunity_period: u16, r: int) -> bool {
    &&& is_prune_candidate(s, current_block, immunity_period, r)
    &&& forall|j: int| #[trigger]
        is_prune_candidate(s, current_block, immunity_period, j) ==> s[r].pruning_score
            <= s[j].pruning_score
    &&& forall|j: int|
        0 <= j < r && #[trigger] is_prune_candidate(s, current_block, immunity_period, j)
            ==> s[j].pruning_score > s[r].pruning_score
}

/// Eviction never picks a slot whose score is not minimal among the candidates,
/// and once its score is reset to the maximum, the next eviction on the same
/// slots picks another slot whenever some candidate still scores below the maximum.
pub proof fn lemma_prune_never_repeats(s: Seq<Slot>, b: u64, ip: u16, r: int, r2: int, j: int)
    requires
        is_prune_choice(s, b, ip, r),
        is_prune_choice(s.update(r, Slot { pruning_score: u16::MAX, ..s[r] }), b, ip, r2),
        is_prune_candidate(s, b, ip, j),
        s.update(r, Slot { pruning_score: u16::MAX, ..s[r] })[j].pruning_score < u16::MAX,
    ensures
        forall|k: int| is_prune_candidate(s, b, ip, k) ==> s[r].pruning_score <= s[k].pruning_score,
        r2 != r,
{
    let t = s.update(r, Slot { pruning_score: u16::MAX, ..s[r] });
    assert forall|k: int| 0 <= k < s.len() implies is_immune(t[k], b, ip) == is_immune(s[k], b, ip) by {}
    assert(has_unprotected(t, b, ip) == has_unprotected(s, b, ip)) by {
        if has_unprotected(s, b, ip) {
            let k = choose|k: int| 0 <= k < s.len() && !is_immune(s[k], b, ip);
            assert(!is_immune(t[k], b, ip));
        }
        if has_unprotected(t, b, ip) {
            let k = choose|k: int| 0 <= k < t.len() && !is_immune(t[k], b, ip);
            assert(!is_immune(s[k], b, ip));
        }
    }
    assert(is_prune_candidate(t, b, ip, j));
}

/// The ledger after `key` gains its owner record (single-key model: it owns itself).
pub open spec fn with_owner(s: Seq<Account>, key: u64) -> Seq<Account> {
    let i = account_index(s, key);
    if i >= 0 {
        s.update(i, Account { owner: Some(key), ..s[i] })
    } else {
        s.push(Account { key, stake: 0, owner: Some(key), last_tx_block: 0 })
    }
}

/// The slots of `s` after `key` registers at `uid` in block `block`.
pub open spec fn registered_slots(s: Subnet, key: u64, block: u64, uid: int) -> Seq<Slot> {
    if uid == s.slots@.len() {
        s.slots@.push(fresh_slot(key, block))
    } else {
        s.slots@.update(uid, fresh_slot(key, block))
    }
}

impl Pallet {
    /// The first failed precondition of a registration of `key` on `netuid`, if any.
    pub open spec fn registration_error(self, netuid: u16, key: u64) -> Option<SubspaceError> {
        if !self.network_exists(netuid) {
            Some(SubspaceError::NetworkDoesNotExist)
        } else if self.net(netuid).registrations_this_block
            >= self.net(netuid).max_registrations_per_block {
            Some(SubspaceError::TooManyRegistrationsThisBlock)
        } else if slot_index(self.net(netuid).slots@, key) >= 0 {
            Some(SubspaceError::AlreadyRegistered)
        } else if self.net(netuid).max_allowed_uids == 0 {
            Some(SubspaceError::NetworkDoesNotExist)
        } else {
            None
        }
    }

    /// `self` is `old` after `key` took slot `uid` of `netuid` at `block`: appended
    /// below capacity, or in place of the eviction choice at capacity, with both
    /// registration counters one higher, the weights and bonds of the slot empty,
    /// and the owner record of `key` in place.
    /// Says nothing of `total_issuance`.
    pub open spec fn registration_applied(
        self,
        old: Pallet,
        netuid: u16,
        key: u64,
        block: u64,
        uid: u16,
    ) -> bool {
        let s = old.net(netuid);
        let idx = old.net_index(netuid);
        &&& if s.slots@.len() < s.max_allowed_uids {
            uid == s.slots@.len()
        } else {
            is_prune_choice(s.slots@, block, s.immunity_period, uid as int)
        }
        &&& self.subnets@ == old.subnets@.update(idx, self.subnets@[idx])
        &&& self.subnets@[idx].slots@ == registered_slots(s, key, block, uid as int)
        &&& cleared_at(s.weights@, self.subnets@[idx].weights@, uid as int)
        &&& cleared_at(s.bonds@, self.subnets@[idx].bonds@, uid as int)
        &&& self.subnets@[idx] == (Subnet {
            slots: self.subnets@[idx].slots,
            weights: self.subnets@[idx].weights,
            bonds: self.subnets@[idx].bonds,
            registrations_this_block: (s.registrations_this_block + 1) as u16,
            registrations_this_interval: s.registrations_this_interval.saturating_add(1),
            ..s
        })
        &&& self.accounts@ == with_owner(old.accounts@, key)
        &&& self.total_stake == old.total_stake
        &&& self.block_emission == old.block_emission
        &&& self.tx_rate_limit == old.tx_rate_limit
    }

    /// Picks the slot to evict from `netuid` at `current_block`: the lowest pruning
    /// score among the slots out of immunity, or among all slots when every one is
    /// immune; the lowest uid among equal scores. The chosen slot's score is set to
    /// the maximum, so a repeated call picks another slot until scores are
    /// recomputed. Returns 0, changing nothing, when the subnetwork has no slot.
    pub fn get_module_to_prune(&mut self, netuid: u16, current_block: u64) -> (r: u16)
        requires
            old(self).wf(),
        ensures
            final(self).wf(),
            old(self).network_n(netuid) == 0 ==> r == 0 && final(self).same_state(*old(self)),
            old(self).network_n(netuid) > 0 ==> {
                let s = old(self).net(netuid).slots@;
                &&& is_prune_choice(s, current_block, old(self).net(netuid).immunity_period, r as int)
                &&& final(self).slots_replaced(
                    *old(self),
                    netuid,
                    s.update(r as int, (Slot { pruning_score: u16::MAX, ..s[r as int] })),
                )
            },
    {
        let i = match self.find_subnet(netuid) {
            Some(i) => i,
            None => {
                return 0;
            },
        };
        let n = self.subnets[i].slots.len();
        if n == 0 {
            return 0;
        }
        let immunity_period = self.subnets[i].immunity_period;
        let slots = &self.subnets[i].slots;
        let ghost s = slots@;
        proof {
            assert(subnet_wf(self.subnets@[i as int]));
        }
        let mut found_free = false;
        let mut min_free: u16 = u16::MAX;
        let mut uid_free: usize = 0;
        let mut found_immune = false;
        let mut min_immune: u16 = u16::MAX;
        let mut uid_immune: usize = 0;
        let mut k: usize = 0;
        while k < n
            invariant
                n == s.len(),
                s == slots@,
                k <= n,
                k > 0 ==> found_free || found_immune,
                found_free == exists|j: int| 0 <= j < k && !is_immune(s[j], current_block, immunity_period),
                found_free ==> {
                    &&& uid_free < k
                    &&& !is_immune(s[uid_free as int], current_block, immunity_period)
                    &&& min_free == s[uid_free as int].pruning_score
                    &&& forall|j: int|
                        0 <= j < k && !is_immune(s[j], current_block, immunity_period) ==> min_free <= s[j].pruning_score
                    &&& forall|j: int|
                        0 <= j < uid_free && !is_immune(s[j], current_block, immunity_period) ==> s[j].pruning_score
                            > min_free
                },
                found_immune ==> {
                    &&& uid_immune < k
                    &&& is_immune(s[uid_immune as int], current_block, immunity_period)
                    &&& min_immune == s[uid_immune as int].pruning_score
                    &&& forall|j: int|
                        0 <= j < k && is_immune(s[j], current_block, immunity_period) ==> min_immune <= s[j].pruning_score
                    &&& forall|j: int|
                        0 <= j < uid_immune && is_immune(s[j], current_block, immunity_period) ==> s[j].pruning_score
                            > min_immune
                },
                !found_immune ==> forall|j: int| 0 <= j < k ==> !is_immune(s[j], current_block, immunity_period),
            decreases n - k,
        {
            let slot = slots[k];
            let elapsed: u64 = if current_block >= slot.block_at_registration {
                current_block - slot.block_at_registration
            } else {
                0
            };
            let immune = elapsed < immunity_period as u64;
            proof {
                assert(slot == s[k as int]);
                assert(immune == is_immune(s[k as int], current_block, immunity_period));
                if exists|j: int| 0 <= j < k + 1 && !is_immune(s[j], current_block, immunity_period) {
                    let j = choose|j: int| 0 <= j < k + 1 && !is_immune(s[j], current_block, immunity_period);
                    if j < k {
                        assert(exists|j: int| 0 <= j < k && !is_immune(s[j], current_block, immunity_period));
                    }
                }
                if !immune {
                    assert(0 <= k < k + 1 && !is_immune(s[k as int], current_block, immunity_period));
                }
            }
            if immune {
                if !found_immune || slot.pruning_score < min_immune {
                    found_immune = true;
                    min_immune = slot.pruning_score;
                    uid_immune = k;
                }
            } else {
                if !found_free || slot.pruning_score < min_free {
                    found_free = true;
                    min_free = slot.pruning_score;
                    uid_free = k;
                }
            }
            k += 1;
        }
        let uid: usize = if found_free {
            uid_free
        } else {
            uid_immune
        };
        proof {
            assert(has_unprotected(s, current_block, immunity_period) == found_free);
            assert(is_prune_choice(s, current_block, immunity_period, uid as int));
        }
        self.subnets[i].slots[uid].pruning_score = u16::MAX;
        proof {
            assert(self.subnets@ =~= old(self).subnets@.update(i as int, self.subnets@[i as int]));
            assert(self.subnets@[i as int].slots@ =~= s.update(
                uid as int,
                (Slot { pruning_score: u16::MAX, ..s[uid as int] }),
            ));
            assert forall|a: int| 0 <= a < self.subnets@.len() implies subnet_wf(
                #[trigger] self.subnets@[a],
            ) by {
                if a != i {
                    assert(subnet_wf(old(self).subnets@[a]));
                } else {
                    assert(subnet_wf(old(self).subnets@[a]));
                    let t = self.subnets@[a].slots@;
                    assert forall|x: int, y: int| 0 <= x < y < t.len() implies t[x].key
                        != t[y].key by {
                        assert(s[x].key != s[y].key);
                    }
                }
            }
        }
        uid as u16
    }

    /// Appends a slot for `key` to `netuid`; its uid is the former occupancy count.
    pub fn append_module(&mut self, netuid: u16, key: u64, block: u64) -> (r: u16)
        requires
            old(self).wf(),
            old(self).network_exists(netuid),
            old(self).network_n(netuid) < u16::MAX,
            slot_index(old(self).net(netuid).slots@, key) == -1,
        ensures
            final(self).wf(),
            r == old(self).network_n(netuid),
            final(self).slot_taken(
                *old(self),
                netuid,
                old(self).net(netuid).slots@.push(fresh_slot(key, block)),
                r as int,
            ),
    {
        let i = self.find_subnet(netuid).unwrap();
        let uid = self.subnets[i].slots.len() as u16;
        let ghost s = self.subnets@[i as int].slots@;
        proof {
            assert(subnet_wf(self.subnets@[i as int]));
            assert forall|j: int| 0 <= j < s.len() implies s[j].key != key by {
                if s[j].key == key {
                    assert forall|m: int| 0 <= m < j implies s[m].key != key by {
                        assert(s[m].key != s[j].key);
                    }
                    lemma_slot_index(s, key, j);
                }
            }
        }
        let slot = new_slot(key, block);
        self.subnets[i].slots.push(slot);
        self.subnets[i].weights.push(Vec::new());
        self.subnets[i].bonds.push(Vec::new());
        proof {
            assert(self.subnets@[i as int].weights@ =~= old(self).subnets@[i as int].weights@.push(
                self.subnets@[i as int].weights@.last(),
            ));
            assert(self.subnets@[i as int].bonds@ =~= old(self).subnets@[i as int].bonds@.push(
                self.subnets@[i as int].bonds@.last(),
            ));
            assert(self.subnets@ =~= old(self).subnets@.update(i as int, self.subnets@[i as int]));
            assert forall|a: int| 0 <= a < self.subnets@.len() implies subnet_wf(
                #[trigger] self.subnets@[a],
            ) by {
                assert(subnet_wf(old(self).subnets@[a]));
            }
        }
        uid
    }

    /// Gives the slot `uid` of `netuid` to `key`, with fresh scores; occupancy is unchanged.
    pub fn replace_module(&mut self, netuid: u16, uid: u16, key: u64, block: u64)
        requires
            old(self).wf(),
            old(self).has_uid(netuid, uid),
            forall|j: int|
                0 <= j < old(self).net(netuid).slots@.len() && j != uid ==> old(self).net(
                    netuid,
                ).slots@[j].key != key,
        ensures
            final(self).wf(),
            final(self).slot_taken(
                *old(self),
                netuid,
                old(self).net(netuid).slots@.update(uid as int, fresh_slot(key, block)),
                uid as int,
            ),
    {
        let i = self.find_subnet(netuid).unwrap();
        let ghost s = self.subnets@[i as int].slots@;
        let slot = new_slot(key, block);
        self.subnets[i].slots[uid as usize] = slot;
        proof {
            assert(subnet_wf(old(self).subnets@[i as int]));
        }
        self.subnets[i].weights[uid as usize] = Vec::new();
        self.subnets[i].bonds[uid as usize] = Vec::new();
        proof {
            assert(self.subnets@[i as int].weights@ =~= old(self).subnets@[i as int].weights@.update(
                uid as int,
                self.subnets@[i as int].weights@[uid as int],
            ));
            assert(self.subnets@[i as int].bonds@ =~= old(self).subnets@[i as int].bonds@.update(
                uid as int,
                self.subnets@[i as int].bonds@[uid as int],
            ));
            assert(self.subnets@ =~= old(self).subnets@.update(i as int, self.subnets@[i as int]));
            assert(subnet_wf(old(self).subnets@[i as int]));
            assert forall|a: int| 0 <= a < self.subnets@.len() implies subnet_wf(
                #[trigger] self.subnets@[a],
            ) by {
                assert(subnet_wf(old(self).subnets@[a]));
            }
        }
    }

    /// Records `key` as registered in the ledger (creating its entry if needed).
    fn register_owner(&mut self, key: u64)
        requires
            old(self).wf(),
        ensures
            final(self).wf(),
            final(self).accounts@ == with_owner(old(self).accounts@, key),
            final(self).subnets@ == old(self).subnets@,
            final(self).total_stake == old(self).total_stake,
            final(self).total_issuance == old(self).total_issuance,
            final(self).block_emission == old(self).block_emission,
            final(self).tx_rate_limit == old(self).tx_rate_limit,
            sum_stake(final(self).accounts@) == sum_stake(old(self).accounts@),
    {
        match find_account(&self.accounts, key) {
            Some(i) => {
                self.accounts[i].owner = Some(key);
                proof {
                    lemma_sum_stake_update(old(self).accounts@, i as int, self.accounts@[i as int]);
                }
            },
            None => {
                self.accounts.push(Account { key, stake: 0, owner: Some(key), last_tx_block: 0 });
                proof {
                    assert(self.accounts@.drop_last() =~= old(self).accounts@);
                }
            },
        }
        assert(self.accounts@ =~= with_owner(old(self).accounts@, key));
    }

    /// Registers `key` on `netuid` at `current_block` and returns its uid.
    ///
    /// Checks, first failure wins: the subnetwork exists (`NetworkDoesNotExist`);
    /// fewer than `max_registrations_per_block` registrations happened this block
    /// (`TooManyRegistrationsThisBlock`); `key` holds no slot there
    /// (`AlreadyRegistered`); the capacity is not zero (`NetworkDoesNotExist`).
    /// Below capacity the new slot is appended; at capacity the slot chosen by
    /// `get_module_to_prune` is given to `key`. Both registration counters grow by one.
    pub fn do_registration(&mut self, netuid: u16, key: u64, current_block: u64) -> (r: Result<
        u16,
        SubspaceError,
    >)
        requires
            old(self).wf(),
        ensures
            final(self).wf(),
            match old(self).registration_error(netuid, key) {
                Some(e) => r == Err::<u16, SubspaceError>(e) && final(self).same_state(*old(self)),
                None => r is Ok,
            },
            r is Ok ==> final(self).registration_applied(*old(self), netuid, key, current_block, r->Ok_0),
            r is Ok ==> final(self).total_issuance == old(self).total_issuance,
            r is Ok ==> {
                let t = final(self).subnets@[old(self).net_index(netuid)].slots@;
                &&& slot_keys_unique(t)
                &&& t[r->Ok_0 as int].key == key
                &&& old(self).net(netuid).slots@.len() <= old(self).net(netuid).max_allowed_uids
                    ==> r->Ok_0 < old(self).net(netuid).max_allowed_uids
            },
            sum_stake(final(self).accounts@) == sum_stake(old(self).accounts@),
            old(self).stake_accounting() ==> final(self).stake_accounting(),
    {
        let i = match self.find_subnet(netuid) {
            Some(i) => i,
            None => {
                return Err(SubspaceError::NetworkDoesNotExist);
            },
        };
        if self.subnets[i].registrations_this_block >= self.subnets[i].max_registrations_per_block {
            return Err(SubspaceError::TooManyRegistrationsThisBlock);
        }
        if find_slot(&self.subnets[i].slots, key).is_some() {
            return Err(SubspaceError::AlreadyRegistered);
        }
        proof {
            assert(subnet_wf(self.subnets@[i as int]));
        }
        let current_network_n = self.subnets[i].slots.len() as u16;
        let max_allowed_uids = self.subnets[i].max_allowed_uids;
        if max_allowed_uids == 0 {
            return Err(SubspaceError::NetworkDoesNotExist);
        }
        let ghost s0 = self.subnets@[i as int].slots@;
        let uid: u16;
        if current_network_n < max_allowed_uids {
            uid = self.append_module(netuid, key, current_block);
        } else {
            uid = self.get_module_to_prune(netuid, current_block);
            proof {
                lemma_subnet_index(self.subnets@, netuid, i as int);
                assert forall|j: int|
                    0 <= j < self.subnets@[i as int].slots@.len() && j != uid implies self.subnets@[i as int].slots@[j].key
                    != key by {
                    assert(self.subnets@[i as int].slots@[j].key == s0[j].key);
                }
            }
            self.replace_module(netuid, uid, key, current_block);
            proof {
                assert(self.subnets@[i as int].slots@ =~= s0.update(
                    uid as int,
                    fresh_slot(key, current_block),
                ));
            }
        }
        let interval = self.subnets[i].registrations_this_interval;
        self.subnets[i].registrations_this_interval = interval.saturating_add(1);
        let this_block = self.subnets[i].registrations_this_block;
        self.subnets[i].registrations_this_block = this_block + 1;
        proof {
            assert(self.subnets@ =~= old(self).subnets@.update(i as int, self.subnets@[i as int]));
            assert forall|a: int| 0 <= a < self.subnets@.len() implies subnet_wf(
                #[trigger] self.subnets@[a],
            ) by {
                if a != i {
                    assert(subnet_wf(old(self).subnets@[a]));
                }
            }
        }
        self.register_owner(key);
        Ok(uid)
    }
    /// The participant holding slot `uid` of `netuid`, if any.
    pub fn get_key_for_net_and_uid(&self, netuid: u16, uid: u16) -> (r: Option<u64>)
        ensures
            r == (if self.has_uid(netuid, uid) {
                Some(self.slot(netuid, uid).key)
            } else {
                None
            }),
    {
        match self.find_subnet(netuid) {
            Some(i) => if (uid as usize) < self.subnets[i].slots.len() {
                Some(self.subnets[i].slots[uid as usize].key)
            } else {
                None
            },
            None => None,
        }
    }

    /// The slot that `key` holds on `netuid`, if any.
    pub fn get_uid_for_net_and_key(&self, netuid: u16, key: u64) -> (r: Option<u16>)
        requires
            self.wf(),
        ensures
            r == (if self.network_exists(netuid) && slot_index(self.net(netuid).slots@, key) >= 0 {
                Some(slot_index(self.net(netuid).slots@, key) as u16)
            } else {
                None
            }),
            r matches Some(uid) ==> self.has_uid(netuid, uid) && self.slot(netuid, uid).key == key,
    {
        match self.find_subnet(netuid) {
            Some(i) => {
                proof {
                    assert(subnet_wf(self.subnets@[i as int]));
                }
                match find_slot(&self.subnets[i].slots, key) {
                    Some(uid) => Some(uid as u16),
                    None => None,
                }
            },
            None => None,
        }
    }

    /// Whether `key` holds a slot on `netuid`.
    pub fn is_key_registered_on_network(&self, netuid: u16, key: u64) -> (r: bool)
        ensures
            r == (self.network_exists(netuid) && slot_index(self.net(netuid).slots@, key) >= 0),
    {
        match self.find_subnet(netuid) {
            Some(i) => find_slot(&self.subnets[i].slots, key).is_some(),
            None => false,
        }
    }

    /// The first failed precondition of a registration of `key` on `netuid`, if any.
    pub fn check_registration(&self, netuid: u16, key: u64) -> (r: Option<SubspaceError>)
        ensures
            r == self.registration_error(netuid, key),
    {
        let i = match self.find_subnet(netuid) {
            Some(i) => i,
            None => {
                return Some(SubspaceError::NetworkDoesNotExist);
            },
        };
        if self.subnets[i].registrations_this_block >= self.subnets[i].max_registrations_per_block {
            return Some(SubspaceError::TooManyRegistrationsThisBlock);
        }
        if find_slot(&self.subnets[i].slots, key).is_some() {
            return Some(SubspaceError::AlreadyRegistered);
        }
        if self.subnets[i].max_allowed_uids == 0 {
            return Some(SubspaceError::NetworkDoesNotExist);
        }
        None
    }

    /// Paid registration: as `do_registration`, after `burn` has been withdrawn
    /// from `key`'s balance and taken out of `total_issuance`.
    ///
    /// The registration checks come first, then the balance must cover the burn
    /// (`NotEnoughBalanceToRegister`) and the ledger must accept the withdrawal
    /// (`BalanceWithdrawalError`); the two balance checks are the ledger's to decide.
    pub fn do_burned_registration<C: Currency>(
        &mut self,
        currency: &mut C,
        netuid: u16,
        key: u64,
        current_block: u64,
        burn: u64,
    ) -> (r: Result<u16, SubspaceError>)
        requires
            old(self).wf(),
        ensures
            final(self).wf(),
            match old(self).registration_error(netuid, key) {
                Some(e) => r == Err::<u16, SubspaceError>(e),
                None => if !can_remove(*old(currency), key, burn) {
                    r == Err::<u16, SubspaceError>(SubspaceError::NotEnoughBalanceToRegister)
                } else {
                    r is Ok || r == Err::<u16, SubspaceError>(SubspaceError::BalanceWithdrawalError)
                },
            },
            r is Err ==> final(self).same_state(*old(self)) && *final(currency) == *old(currency),
            r is Ok ==> final(currency).balance_of(key) == old(currency).balance_of(key) - burn,
            r is Ok ==> forall|k: u64|
                k != key ==> final(currency).balance_of(k) == old(currency).balance_of(k),
            r is Ok ==> final(self).registration_applied(*old(self), netuid, key, current_block, r->Ok_0),
            r is Ok ==> final(self).total_issuance == old(self).total_issuance.saturating_sub(burn),
            old(self).stake_accounting() ==> final(self).stake_accounting(),
    {
        if let Some(e) = self.check_registration(netuid, key) {
            return Err(e);
        }
        if !can_remove_balance_from_account(currency, key, burn) {
            return Err(SubspaceError::NotEnoughBalanceToRegister);
        }
        if !currency.withdraw(key, burn) {
            return Err(SubspaceError::BalanceWithdrawalError);
        }
        self.total_issuance = self.total_issuance.saturating_sub(burn);
        self.do_registration(netuid, key, current_block)
    }
}

} // verus!
