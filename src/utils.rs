//! Parameter store: lookups, per-subnetwork getters and setters, per-uid score
//! accessors with fail-soft defaults, and the transaction rate limiter.
use vstd::prelude::*;

use crate::staking::{lemma_push_lookup, lemma_sum_stake_update, lemma_update_lookup};
use crate::state::{
    account_index, is_account_at, is_module_at, is_slot_at, is_subnet_at, lemma_account_index,
    lemma_module_index, lemma_slot_index, lemma_subnet_index, module_index, slot_index,
    subnet_wf, sum_stake, Account, ModuleInfo, Pallet, Slot, Subnet,
};

verus! {

/// Whether a transaction at `current_block` comes too soon after one at `last_tx_block`.
/// A limit of 0 disables the check, and so does a participant without a prior
/// transaction (`last_tx_block == 0`).
pub open spec fn rate_limited(last_tx_block: u64, current_block: u64, limit: u64) -> bool {
    if limit == 0 || last_tx_block == 0 {
        false
    } else {
        current_block - last_tx_block <= limit
    }
}

pub fn exceeds_rate_limit(last_tx_block: u64, current_block: u64, limit: u64) -> (r: bool)
    ensures
        r == rate_limited(last_tx_block, current_block, limit),
{
    if limit == 0 || last_tx_block == 0 {
        false
    } else if current_block < last_tx_block {
        true
    } else {
        current_block - last_tx_block <= limit
    }
}

/// Disabling, staggering and spacing of the rate limiter.
pub proof fn lemma_rate_limit_window(b: u64, x: u64, l: u64)
    requires
        b + l + 1 <= u64::MAX,
    ensures
        !rate_limited(0, x, l),
        b > 0 && l > 0 ==> rate_limited(b, (b + l) as u64, l),
        !rate_limited(b, (b + l + 1) as u64, l),
{
}

/// `new` is `old` with the list at `uid` emptied, or with an empty list
/// appended when `uid` is `old.len()`.
pub open spec fn cleared_at(old: Seq<Vec<(u16, u16)>>, new: Seq<Vec<(u16, u16)>>, uid: int) -> bool {
    &&& if uid == old.len() {
        new == old.push(new.last())
    } else {
        new == old.update(uid, new[uid])
    }
    &&& new[uid]@.len() == 0
}

pub fn find_slot(slots: &Vec<Slot>, key: u64) -> (r: Option<usize>)
    ensures
        match r {
            Some(i) => i as int == slot_index(slots@, key) && is_slot_at(slots@, key, i as int),
            None => slot_index(slots@, key) == -1 && forall|j: int|
                0 <= j < slots@.len() ==> slots@[j].key != key,
        },
{
    let mut i: usize = 0;
    while i < slots.len()
        invariant
            i <= slots@.len(),
            forall|j: int| 0 <= j < i ==> slots@[j].key != key,
        decreases slots@.len() - i,
    {
        if slots[i].key == key {
            proof {
                lemma_slot_index(slots@, key, i as int);
            }
            return Some(i);
        }
        i += 1;
    }
    None
}

pub fn find_account(accounts: &Vec<Account>, key: u64) -> (r: Option<usize>)
    ensures
        match r {
            Some(i) => i as int == account_index(accounts@, key) && is_account_at(
                accounts@,
                key,
                i as int,
            ),
            None => account_index(accounts@, key) == -1 && forall|j: int|
                0 <= j < accounts@.len() ==> accounts@[j].key != key,
        },
{
    let mut i: usize = 0;
    while i < accounts.len()
        invariant
            i <= accounts@.len(),
            forall|j: int| 0 <= j < i ==> accounts@[j].key != key,
        decreases accounts@.len() - i,
    {
        if accounts[i].key == key {
            proof {
                lemma_account_index(accounts@, key, i as int);
            }
            return Some(i);
        }
        i += 1;
    }
    None
}

pub fn find_module(modules: &Vec<(u64, ModuleInfo)>, key: u64) -> (r: Option<usize>)
    ensures
        match r {
            Some(i) => i as int == module_index(modules@, key) && is_module_at(
                modules@,
                key,
                i as int,
            ),
            None => module_index(modules@, key) == -1,
        },
{
    let mut i: usize = 0;
    while i < modules.len()
        invariant
            i <= modules@.len(),
            forall|j: int| 0 <= j < i ==> modules@[j].0 != key,
        decreases modules@.len() - i,
    {
        if modules[i].0 == key {
            proof {
                lemma_module_index(modules@, key, i as int);
            }
            return Some(i);
        }
        i += 1;
    }
    None
}

impl Pallet {
    /// Whether `uid` is an occupied slot of the existing subnetwork `netuid`.
    pub open spec fn has_uid(self, netuid: u16, uid: u16) -> bool {
        self.network_exists(netuid) && uid < self.net(netuid).slots@.len()
    }

    pub open spec fn slot(self, netuid: u16, uid: u16) -> Slot {
        self.net(netuid).slots@[uid as int]
    }

    /// `self` is `old` with the slots of `netuid` (if it exists) replaced by `slots`.
    pub open spec fn slots_replaced(self, old: Pallet, netuid: u16, slots: Seq<Slot>) -> bool {
        &&& self.same_ledger(old)
        &&& if old.network_exists(netuid) {
            let i = old.net_index(netuid);
            &&& self.subnets@ == old.subnets@.update(i, self.subnets@[i])
            &&& self.subnets@[i].slots@ == slots
            &&& self.subnets@[i] == (Subnet { slots: self.subnets@[i].slots, ..old.subnets@[i] })
        } else {
            self.subnets@ == old.subnets@
        }
    }

    /// `self` is `old` where, on the existing subnetwork `netuid`, the slots are
    /// now `slots` and the weights and bonds of `uid` (a new last uid, or an
    /// existing one) are empty.
    pub open spec fn slot_taken(self, old: Pallet, netuid: u16, slots: Seq<Slot>, uid: int) -> bool {
        let i = old.net_index(netuid);
        let t = self.subnets@[i];
        &&& self.same_ledger(old)
        &&& self.subnets@ == old.subnets@.update(i, t)
        &&& t.slots@ == slots
        &&& cleared_at(old.subnets@[i].weights@, t.weights@, uid)
        &&& cleared_at(old.subnets@[i].bonds@, t.bonds@, uid)
        &&& t == (Subnet { slots: t.slots, weights: t.weights, bonds: t.bonds, ..old.subnets@[i] })
    }

    pub fn find_subnet(&self, netuid: u16) -> (r: Option<usize>)
        ensures
            match r {
                Some(i) => i as int == self.net_index(netuid) && is_subnet_at(
                    self.subnets@,
                    netuid,
                    i as int,
                ),
                None => !self.network_exists(netuid) && forall|j: int|
                    0 <= j < self.subnets@.len() ==> self.subnets@[j].netuid != netuid,
            },
    {
        let mut i: usize = 0;
        while i < self.subnets.len()
            invariant
                i <= self.subnets@.len(),
                forall|j: int| 0 <= j < i ==> self.subnets@[j].netuid != netuid,
            decreases self.subnets@.len() - i,
        {
            if self.subnets[i].netuid == netuid {
                proof {
                    lemma_subnet_index(self.subnets@, netuid, i as int);
                }
                return Some(i);
            }
            i += 1;
        }
        None
    }

    /// Whether the subnetwork `netuid` exists.
    pub fn if_network_exist(&self, netuid: u16) -> (r: bool)
        ensures
            r == self.network_exists(netuid),
    {
        self.find_subnet(netuid).is_some()
    }

    /// Number of occupied slots of `netuid`.
    pub fn get_network_n(&self, netuid: u16) -> (r: u16)
        requires
            self.wf(),
        ensures
            r == self.network_n(netuid),
    {
        match self.find_subnet(netuid) {
            Some(i) => {
                assert(subnet_wf(self.subnets@[i as int]));
                self.subnets[i].slots.len() as u16
            },
            None => 0,
        }
    }

    // ==== Global getters ====
    pub fn get_total_issuance(&self) -> (r: u64)
        ensures
            r == self.total_issuance,
    {
        self.total_issuance
    }

    pub fn get_block_emission(&self) -> (r: u64)
        ensures
            r == self.block_emission,
    {
        self.block_emission
    }

    // ==== Per-uid scores ====

    /// The rank entry of every slot of `netuid`, by uid; empty when it does not exist.
    pub fn get_rank(&self, netuid: u16) -> (r: Vec<u16>)
        ensures
            r@.len() == self.network_n(netuid),
            forall|u: int| 0 <= u < r@.len() ==> #[trigger] r@[u] == self.net(netuid).slots@[u].rank,
    {
        let mut r: Vec<u16> = Vec::new();
        if let Some(i) = self.find_subnet(netuid) {
            let slots = &self.subnets[i].slots;
            let mut u: usize = 0;
            while u < slots.len()
                invariant
                    slots@ == self.net(netuid).slots@,
                    u <= slots@.len(),
                    r@.len() == u,
                    forall|v: int| 0 <= v < u ==> #[trigger] r@[v] == slots@[v].rank,
                decreases slots@.len() - u,
            {
                r.push(slots[u].rank);
                u += 1;
            }
        }
        r
    }

    /// The active entry of every slot of `netuid`, by uid; empty when it does not exist.
    pub fn get_active(&self, netuid: u16) -> (r: Vec<bool>)
        ensures
            r@.len() == self.network_n(netuid),
            forall|u: int| 0 <= u < r@.len() ==> #[trigger] r@[u] == self.net(netuid).slots@[u].active,
    {
        let mut r: Vec<bool> = Vec::new();
        if let Some(i) = self.find_subnet(netuid) {
            let slots = &self.subnets[i].slots;
            let mut u: usize = 0;
            while u < slots.len()
                invariant
                    slots@ == self.net(netuid).slots@,
                    u <= slots@.len(),
                    r@.len() == u,
                    forall|v: int| 0 <= v < u ==> #[trigger] r@[v] == slots@[v].active,
                decreases slots@.len() - u,
            {
                r.push(slots[u].active);
                u += 1;
            }
        }
        r
    }

    /// The emission entry of every slot of `netuid`, by uid; empty when it does not exist.
    pub fn get_emission(&self, netuid: u16) -> (r: Vec<u64>)
        ensures
            r@.len() == self.network_n(netuid),
            forall|u: int| 0 <= u < r@.len() ==> #[trigger] r@[u] == self.net(netuid).slots@[u].emission,
    {
        let mut r: Vec<u64> = Vec::new();
        if let Some(i) = self.find_subnet(netuid) {
            let slots = &self.subnets[i].slots;
            let mut u: usize = 0;
            while u < slots.len()
                invariant
                    slots@ == self.net(netuid).slots@,
                    u <= slots@.len(),
                    r@.len() == u,
                    forall|v: int| 0 <= v < u ==> #[trigger] r@[v] == slots@[v].emission,
                decreases slots@.len() - u,
            {
                r.push(slots[u].emission);
                u += 1;
            }
        }
        r
    }

    /// The incentive entry of every slot of `netuid`, by uid; empty when it does not exist.
    pub fn get_incentive(&self, netuid: u16) -> (r: Vec<u16>)
        ensures
            r@.len() == self.network_n(netuid),
            forall|u: int| 0 <= u < r@.len() ==> #[trigger] r@[u] == self.net(netuid).slots@[u].incentive,
    {
        let mut r: Vec<u16> = Vec::new();
        if let Some(i) = self.find_subnet(netuid) {
            let slots = &self.subnets[i].slots;
            let mut u: usize = 0;
            while u < slots.len()
                invariant
                    slots@ == self.net(netuid).slots@,
                    u <= slots@.len(),
                    r@.len() == u,
                    forall|v: int| 0 <= v < u ==> #[trigger] r@[v] == slots@[v].incentive,
                decreases slots@.len() - u,
            {
                r.push(slots[u].incentive);
                u += 1;
            }
        }
        r
    }

    /// The dividends entry of every slot of `netuid`, by uid; empty when it does not exist.
    pub fn get_dividends(&self, netuid: u16) -> (r: Vec<u16>)
        ensures
            r@.len() == self.network_n(netuid),
            forall|u: int| 0 <= u < r@.len() ==> #[trigger] r@[u] == self.net(netuid).slots@[u].dividends,
    {
        let mut r: Vec<u16> = Vec::new();
        if let Some(i) = self.find_subnet(netuid) {
            let slots = &self.subnets[i].slots;
            let mut u: usize = 0;
            while u < slots.len()
                invariant
                    slots@ == self.net(netuid).slots@,
                    u <= slots@.len(),
                    r@.len() == u,
                    forall|v: int| 0 <= v < u ==> #[trigger] r@[v] == slots@[v].dividends,
                decreases slots@.len() - u,
            {
                r.push(slots[u].dividends);
                u += 1;
            }
        }
        r
    }

    /// The last update entry of every slot of `netuid`, by uid; empty when it does not exist.
    pub fn get_last_update(&self, netuid: u16) -> (r: Vec<u64>)
        ensures
            r@.len() == self.network_n(netuid),
            forall|u: int| 0 <= u < r@.len() ==> #[trigger] r@[u] == self.net(netuid).slots@[u].last_update,
    {
        let mut r: Vec<u64> = Vec::new();
        if let Some(i) = self.find_subnet(netuid) {
            let slots = &self.subnets[i].slots;
            let mut u: usize = 0;
            while u < slots.len()
                invariant
                    slots@ == self.net(netuid).slots@,
                    u <= slots@.len(),
                    r@.len() == u,
                    forall|v: int| 0 <= v < u ==> #[trigger] r@[v] == slots@[v].last_update,
                decreases slots@.len() - u,
            {
                r.push(slots[u].last_update);
                u += 1;
            }
        }
        r
    }

    /// The pruning score entry of every slot of `netuid`, by uid; empty when it does not exist.
    pub fn get_pruning_score(&self, netuid: u16) -> (r: Vec<u16>)
        ensures
            r@.len() == self.network_n(netuid),
            forall|u: int| 0 <= u < r@.len() ==> #[trigger] r@[u] == self.net(netuid).slots@[u].pruning_score,
    {
        let mut r: Vec<u16> = Vec::new();
        if let Some(i) = self.find_subnet(netuid) {
            let slots = &self.subnets[i].slots;
            let mut u: usize = 0;
            while u < slots.len()
                invariant
                    slots@ == self.net(netuid).slots@,
                    u <= slots@.len(),
                    r@.len() == u,
                    forall|v: int| 0 <= v < u ==> #[trigger] r@[v] == slots@[v].pruning_score,
                decreases slots@.len() - u,
            {
                r.push(slots[u].pruning_score);
                u += 1;
            }
        }
        r
    }

    pub fn set_last_update_for_uid(&mut self, netuid: u16, uid: u16, last_update: u64)
        ensures
            final(self).slots_replaced(
                *old(self),
                netuid,
                if old(self).has_uid(netuid, uid) {
                    old(self).net(netuid).slots@.update(
                        uid as int,
                        (Slot { last_update, ..old(self).slot(netuid, uid) }),
                    )
                } else {
                    old(self).net(netuid).slots@
                },
            ),
    {
        if let Some(i) = self.find_subnet(netuid) {
            if (uid as usize) < self.subnets[i].slots.len() {
                self.subnets[i].slots[uid as usize].last_update = last_update;
            }
            assert(self.subnets@ =~= old(self).subnets@.update(i as int, self.subnets@[i as int]));
            assert(self.subnets@[i as int].slots@ =~= (if old(self).has_uid(netuid, uid) {
                old(self).net(netuid).slots@.update(
                    uid as int,
                    (Slot { last_update, ..old(self).slot(netuid, uid) }),
                )
            } else {
                old(self).net(netuid).slots@
            }));
        }
    }

    pub fn set_active_for_uid(&mut self, netuid: u16, uid: u16, active: bool)
        ensures
            final(self).slots_replaced(
                *old(self),
                netuid,
                if old(self).has_uid(netuid, uid) {
                    old(self).net(netuid).slots@.update(
                        uid as int,
                        (Slot { active, ..old(self).slot(netuid, uid) }),
                    )
                } else {
                    old(self).net(netuid).slots@
                },
            ),
    {
        if let Some(i) = self.find_subnet(netuid) {
            if (uid as usize) < self.subnets[i].slots.len() {
                self.subnets[i].slots[uid as usize].active = active;
            }
            assert(self.subnets@ =~= old(self).subnets@.update(i as int, self.subnets@[i as int]));
            assert(self.subnets@[i as int].slots@ =~= (if old(self).has_uid(netuid, uid) {
                old(self).net(netuid).slots@.update(
                    uid as int,
                    (Slot { active, ..old(self).slot(netuid, uid) }),
                )
            } else {
                old(self).net(netuid).slots@
            }));
        }
    }

    pub fn set_pruning_score_for_uid(&mut self, netuid: u16, uid: u16, pruning_score: u16)
        ensures
            final(self).slots_replaced(
                *old(self),
                netuid,
                if old(self).has_uid(netuid, uid) {
                    old(self).net(netuid).slots@.update(
                        uid as int,
                        (Slot { pruning_score, ..old(self).slot(netuid, uid) }),
                    )
                } else {
                    old(self).net(netuid).slots@
                },
            ),
    {
        if let Some(i) = self.find_subnet(netuid) {
            if (uid as usize) < self.subnets[i].slots.len() {
                self.subnets[i].slots[uid as usize].pruning_score = pruning_score;
            }
            assert(self.subnets@ =~= old(self).subnets@.update(i as int, self.subnets@[i as int]));
            assert(self.subnets@[i as int].slots@ =~= (if old(self).has_uid(netuid, uid) {
                old(self).net(netuid).slots@.update(
                    uid as int,
                    (Slot { pruning_score, ..old(self).slot(netuid, uid) }),
                )
            } else {
                old(self).net(netuid).slots@
            }));
        }
    }

    /// Replaces the `(uid, value)` weights list of slot `uid` of `netuid`; nothing
    /// changes when there is no such slot.
    pub fn set_weights_for_uid(&mut self, netuid: u16, uid: u16, weights: Vec<(u16, u16)>)
        requires
            old(self).wf(),
        ensures
            final(self).wf(),
            final(self).same_ledger(*old(self)),
            !old(self).has_uid(netuid, uid) ==> final(self).subnets@ == old(self).subnets@,
            old(self).has_uid(netuid, uid) ==> {
                let i = old(self).net_index(netuid);
                let t = final(self).subnets@[i];
                &&& final(self).subnets@ == old(self).subnets@.update(i, t)
                &&& t.weights@ == old(self).subnets@[i].weights@.update(uid as int, t.weights@[uid as int])
                &&& t.weights@[uid as int]@ == weights@
                &&& t == (Subnet { weights: t.weights, ..old(self).subnets@[i] })
            },
    {
        if let Some(i) = self.find_subnet(netuid) {
            if (uid as usize) < self.subnets[i].slots.len() {
                proof {
                    assert(subnet_wf(self.subnets@[i as int]));
                }
                self.subnets[i].weights[uid as usize] = weights;
                proof {
                    assert(self.subnets@ =~= old(self).subnets@.update(i as int, self.subnets@[i as int]));
                    assert(self.subnets@[i as int].weights@ =~= old(self).subnets@[i as int].weights@.update(
                        uid as int,
                        self.subnets@[i as int].weights@[uid as int],
                    ));
                    assert forall|a: int| 0 <= a < self.subnets@.len() implies subnet_wf(
                        #[trigger] self.subnets@[a],
                    ) by {
                        assert(subnet_wf(old(self).subnets@[a]));
                    }
                }
            }
        }
    }

    /// Replaces the `(uid, value)` bonds list of slot `uid` of `netuid`; nothing
    /// changes when there is no such slot.
    pub fn set_bonds_for_uid(&mut self, netuid: u16, uid: u16, bonds: Vec<(u16, u16)>)
        requires
            old(self).wf(),
        ensures
            final(self).wf(),
            final(self).same_ledger(*old(self)),
            !old(self).has_uid(netuid, uid) ==> final(self).subnets@ == old(self).subnets@,
            old(self).has_uid(netuid, uid) ==> {
                let i = old(self).net_index(netuid);
                let t = final(self).subnets@[i];
                &&& final(self).subnets@ == old(self).subnets@.update(i, t)
                &&& t.bonds@ == old(self).subnets@[i].bonds@.update(uid as int, t.bonds@[uid as int])
                &&& t.bonds@[uid as int]@ == bonds@
                &&& t == (Subnet { bonds: t.bonds, ..old(self).subnets@[i] })
            },
    {
        if let Some(i) = self.find_subnet(netuid) {
            if (uid as usize) < self.subnets[i].slots.len() {
                proof {
                    assert(subnet_wf(self.subnets@[i as int]));
                }
                self.subnets[i].bonds[uid as usize] = bonds;
                proof {
                    assert(self.subnets@ =~= old(self).subnets@.update(i as int, self.subnets@[i as int]));
                    assert(self.subnets@[i as int].bonds@ =~= old(self).subnets@[i as int].bonds@.update(
                        uid as int,
                        self.subnets@[i as int].bonds@[uid as int],
                    ));
                    assert forall|a: int| 0 <= a < self.subnets@.len() implies subnet_wf(
                        #[trigger] self.subnets@[a],
                    ) by {
                        assert(subnet_wf(old(self).subnets@[a]));
                    }
                }
            }
        }
    }

    pub fn get_rank_for_uid(&self, netuid: u16, uid: u16) -> (r: u16)
        ensures
            r == (if self.has_uid(netuid, uid) {
                self.slot(netuid, uid).rank
            } else {
                0
            }),
    {
        match self.find_subnet(netuid) {
            Some(i) => if (uid as usize) < self.subnets[i].slots.len() {
                self.subnets[i].slots[uid as usize].rank
            } else {
                0
            },
            None => 0,
        }
    }

    pub fn get_emission_for_uid(&self, netuid: u16, uid: u16) -> (r: u64)
        ensures
            r == (if self.has_uid(netuid, uid) {
                self.slot(netuid, uid).emission
            } else {
                0
            }),
    {
        match self.find_subnet(netuid) {
            Some(i) => if (uid as usize) < self.subnets[i].slots.len() {
                self.subnets[i].slots[uid as usize].emission
            } else {
                0
            },
            None => 0,
        }
    }

    pub fn get_active_for_uid(&self, netuid: u16, uid: u16) -> (r: bool)
        ensures
            r == (self.has_uid(netuid, uid) && self.slot(netuid, uid).active),
    {
        match self.find_subnet(netuid) {
            Some(i) => if (uid as usize) < self.subnets[i].slots.len() {
                self.subnets[i].slots[uid as usize].active
            } else {
                false
            },
            None => false,
        }
    }

    pub fn get_incentive_for_uid(&self, netuid: u16, uid: u16) -> (r: u16)
        ensures
            r == (if self.has_uid(netuid, uid) {
                self.slot(netuid, uid).incentive
            } else {
                0
            }),
    {
        match self.find_subnet(netuid) {
            Some(i) => if (uid as usize) < self.subnets[i].slots.len() {
                self.subnets[i].slots[uid as usize].incentive
            } else {
                0
            },
            None => 0,
        }
    }

    pub fn get_dividends_for_uid(&self, netuid: u16, uid: u16) -> (r: u16)
        ensures
            r == (if self.has_uid(netuid, uid) {
                self.slot(netuid, uid).dividends
            } else {
                0
            }),
    {
        match self.find_subnet(netuid) {
            Some(i) => if (uid as usize) < self.subnets[i].slots.len() {
                self.subnets[i].slots[uid as usize].dividends
            } else {
                0
            },
            None => 0,
        }
    }

    pub fn get_last_update_for_uid(&self, netuid: u16, uid: u16) -> (r: u64)
        ensures
            r == (if self.has_uid(netuid, uid) {
                self.slot(netuid, uid).last_update
            } else {
                0
            }),
    {
        match self.find_subnet(netuid) {
            Some(i) => if (uid as usize) < self.subnets[i].slots.len() {
                self.subnets[i].slots[uid as usize].last_update
            } else {
                0
            },
            None => 0,
        }
    }

    /// An unoccupied uid reads as the maximum score: never preferred for pruning.
    pub fn get_pruning_score_for_uid(&self, netuid: u16, uid: u16) -> (r: u16)
        ensures
            r == (if self.has_uid(netuid, uid) {
                self.slot(netuid, uid).pruning_score
            } else {
                u16::MAX
            }),
    {
        match self.find_subnet(netuid) {
            Some(i) => if (uid as usize) < self.subnets[i].slots.len() {
                self.subnets[i].slots[uid as usize].pruning_score
            } else {
                u16::MAX
            },
            None => u16::MAX,
        }
    }

    pub fn get_module_block_at_registration(&self, netuid: u16, module_uid: u16) -> (r: u64)
        ensures
            r == (if self.has_uid(netuid, module_uid) {
                self.slot(netuid, module_uid).block_at_registration
            } else {
                0
            }),
    {
        match self.find_subnet(netuid) {
            Some(i) => if (module_uid as usize) < self.subnets[i].slots.len() {
                self.subnets[i].slots[module_uid as usize].block_at_registration
            } else {
                0
            },
            None => 0,
        }
    }

    // ==== Rate limiting ====
    pub open spec fn last_tx_block_of(self, key: u64) -> u64 {
        let i = account_index(self.accounts@, key);
        if i >= 0 {
            self.accounts@[i].last_tx_block
        } else {
            0
        }
    }

    pub fn set_last_tx_block(&mut self, key: u64, block: u64)
        requires
            old(self).wf(),
        ensures
            final(self).wf(),
            final(self).subnets@ == old(self).subnets@,
            final(self).total_stake == old(self).total_stake,
            final(self).total_issuance == old(self).total_issuance,
            final(self).block_emission == old(self).block_emission,
            final(self).tx_rate_limit == old(self).tx_rate_limit,
            final(self).last_tx_block_of(key) == block,
            forall|k: u64| k != key ==> final(self).last_tx_block_of(k) == old(self).last_tx_block_of(k),
            forall|k: u64| final(self).stake_of(k) == old(self).stake_of(k),
            forall|k: u64| final(self).account_registered(k) == old(self).account_registered(k),
            sum_stake(final(self).accounts@) == sum_stake(old(self).accounts@),
    {
        match find_account(&self.accounts, key) {
            Some(i) => {
                self.accounts[i].last_tx_block = block;
                proof {
                    lemma_sum_stake_update(
                        old(self).accounts@,
                        i as int,
                        self.accounts@[i as int],
                    );
                    lemma_update_lookup(old(self).accounts@, i as int, self.accounts@[i as int]);
                }
            },
            None => {
                self.accounts.push(Account { key, stake: 0, owner: None, last_tx_block: block });
                proof {
                    lemma_push_lookup(old(self).accounts@, self.accounts@.last());
                    assert(self.accounts@.drop_last() =~= old(self).accounts@);
                }
            },
        }
    }

    pub fn get_last_tx_block(&self, key: u64) -> (r: u64)
        ensures
            r == self.last_tx_block_of(key),
    {
        match find_account(&self.accounts, key) {
            Some(i) => self.accounts[i].last_tx_block,
            None => 0,
        }
    }

    /// Whether a transaction at `current_block` after one at `prev_tx_block` breaks
    /// the global transaction rate limit.
    pub fn exceeds_tx_rate_limit(&self, prev_tx_block: u64, current_block: u64) -> (r: bool)
        ensures
            r == rate_limited(prev_tx_block, current_block, self.tx_rate_limit),
    {
        exceeds_rate_limit(prev_tx_block, current_block, self.get_tx_rate_limit())
    }

    pub fn get_tx_rate_limit(&self) -> (r: u64)
        ensures
            r == self.tx_rate_limit,
    {
        self.tx_rate_limit
    }

    pub fn set_tx_rate_limit(&mut self, tx_rate_limit: u64)
        ensures
            final(self).tx_rate_limit == tx_rate_limit,
            final(self).subnets@ == old(self).subnets@,
            final(self).accounts@ == old(self).accounts@,
            final(self).total_stake == old(self).total_stake,
            final(self).total_issuance == old(self).total_issuance,
            final(self).block_emission == old(self).block_emission,
    {
        self.tx_rate_limit = tx_rate_limit;
    }
}

} // verus!
