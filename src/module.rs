//! Read-only views of the participants of a subnetwork, for the query layer: a
//! full view with the slot's nonzero weights and bonds, and a lite view without them.
use vstd::prelude::*;

use crate::state::{subnet_wf, Pallet};

verus! {

/// What the query layer shows of one occupied slot, without weights and bonds.
#[derive(Clone, Copy, Debug, PartialEq, Eq, Structural)]
pub struct ModuleInfoLite {
    pub key: u64,
    pub uid: u16,
    pub netuid: u16,
    pub active: bool,
    pub stake: u64,
    pub rank: u16,
    pub emission: u64,
    pub incentive: u16,
    pub dividends: u16,
    pub last_update: u64,
    pub pruning_score: u16,
}

/// What the query layer shows of one occupied slot: the lite fields, and its
/// `(uid, weight)` and `(uid, bond)` pairs whose value is not zero.
#[derive(Clone, Debug, PartialEq, Eq)]
pub struct ModuleNetworkData {
    pub key: u64,
    pub uid: u16,
    pub netuid: u16,
    pub active: bool,
    pub stake: u64,
    pub rank: u16,
    pub emission: u64,
    pub incentive: u16,
    pub dividends: u16,
    pub last_update: u64,
    pub pruning_score: u16,
    pub weights: Vec<(u16, u16)>,
    pub bonds: Vec<(u16, u16)>,
}

/// The pairs of `s` whose value is not zero, in order.
pub open spec fn nonzero_pairs(s: Seq<(u16, u16)>) -> Seq<(u16, u16)>
    decreases s.len(),
{
    if s.len() == 0 {
        Seq::empty()
    } else if s.last().1 > 0 {
        nonzero_pairs(s.drop_last()).push(s.last())
    } else {
        nonzero_pairs(s.drop_last())
    }
}

/// The pairs of `v` whose value is not zero, in order.
pub fn nonzero_entries(v: &Vec<(u16, u16)>) -> (r: Vec<(u16, u16)>)
    ensures
        r@ == nonzero_pairs(v@),
{
    let mut r: Vec<(u16, u16)> = Vec::new();
    let mut i: usize = 0;
    while i < v.len()
        invariant
            i <= v@.len(),
            r@ == nonzero_pairs(v@.take(i as int)),
        decreases v@.len() - i,
    {
        proof {
            assert(v@.take(i + 1).drop_last() =~= v@.take(i as int));
            assert(v@.take(i + 1).last() == v@[i as int]);
        }
        if v[i].1 > 0 {
            r.push(v[i]);
        }
        i += 1;
    }
    proof {
        assert(v@.take(i as int) =~= v@);
    }
    r
}

impl Pallet {
    /// The lite view of slot `uid` of `netuid`; meaningful when `has_uid(netuid, uid)`.
    pub open spec fn module_lite_view(self, netuid: u16, uid: u16) -> ModuleInfoLite {
        let s = self.slot(netuid, uid);
        ModuleInfoLite {
            key: s.key,
            uid,
            netuid,
            active: s.active,
            stake: self.stake_of(s.key),
            rank: s.rank,
            emission: s.emission,
            incentive: s.incentive,
            dividends: s.dividends,
            last_update: s.last_update,
            pruning_score: s.pruning_score,
        }
    }

    /// `m` is the full view of slot `uid` of `netuid`.
    pub open spec fn is_module_view(self, netuid: u16, uid: u16, m: ModuleNetworkData) -> bool {
        let l = self.module_lite_view(netuid, uid);
        &&& m.key == l.key
        &&& m.uid == uid
        &&& m.netuid == netuid
        &&& m.active == l.active
        &&& m.stake == l.stake
        &&& m.rank == l.rank
        &&& m.emission == l.emission
        &&& m.incentive == l.incentive
        &&& m.dividends == l.dividends
        &&& m.last_update == l.last_update
        &&& m.pruning_score == l.pruning_score
        &&& m.weights@ == nonzero_pairs(self.net(netuid).weights@[uid as int]@)
        &&& m.bonds@ == nonzero_pairs(self.net(netuid).bonds@[uid as int]@)
    }

    fn module_lite_at(&self, i: usize, netuid: u16, uid: u16) -> (r: ModuleInfoLite)
        requires
            i == self.net_index(netuid),
            self.network_exists(netuid),
            uid < self.subnets@[i as int].slots@.len(),
        ensures
            r == self.module_lite_view(netuid, uid),
    {
        let s = self.subnets[i].slots[uid as usize];
        ModuleInfoLite {
            key: s.key,
            uid,
            netuid,
            active: s.active,
            stake: self.get_stake_for_account(s.key),
            rank: s.rank,
            emission: s.emission,
            incentive: s.incentive,
            dividends: s.dividends,
            last_update: s.last_update,
            pruning_score: s.pruning_score,
        }
    }

    fn module_at(&self, i: usize, netuid: u16, uid: u16) -> (r: ModuleNetworkData)
        requires
            self.wf(),
            i == self.net_index(netuid),
            self.network_exists(netuid),
            uid < self.subnets@[i as int].slots@.len(),
        ensures
            self.is_module_view(netuid, uid, r),
    {
        proof {
            assert(subnet_wf(self.subnets@[i as int]));
        }
        let l = self.module_lite_at(i, netuid, uid);
        ModuleNetworkData {
            key: l.key,
            uid,
            netuid,
            active: l.active,
            stake: l.stake,
            rank: l.rank,
            emission: l.emission,
            incentive: l.incentive,
            dividends: l.dividends,
            last_update: l.last_update,
            pruning_score: l.pruning_score,
            weights: nonzero_entries(&self.subnets[i].weights[uid as usize]),
            bonds: nonzero_entries(&self.subnets[i].bonds[uid as usize]),
        }
    }

    /// The participant at slot `uid` of `netuid`, with its nonzero weights and
    /// bonds; `None` when there is none.
    pub fn get_module(&self, netuid: u16, uid: u16) -> (r: Option<ModuleNetworkData>)
        requires
            self.wf(),
        ensures
            r is None <==> !self.has_uid(netuid, uid),
            r matches Some(m) ==> self.is_module_view(netuid, uid, m),
    {
        match self.find_subnet(netuid) {
            Some(i) => if (uid as usize) < self.subnets[i].slots.len() {
                Some(self.module_at(i, netuid, uid))
            } else {
                None
            },
            None => None,
        }
    }

    /// The participant at slot `uid` of `netuid` without weights and bonds;
    /// `None` when there is none.
    pub fn get_module_lite(&self, netuid: u16, uid: u16) -> (r: Option<ModuleInfoLite>)
        ensures
            r == (if self.has_uid(netuid, uid) {
                Some(self.module_lite_view(netuid, uid))
            } else {
                None
            }),
    {
        match self.find_subnet(netuid) {
            Some(i) => if (uid as usize) < self.subnets[i].slots.len() {
                Some(self.module_lite_at(i, netuid, uid))
            } else {
                None
            },
            None => None,
        }
    }

    /// Every participant of `netuid` by uid, with nonzero weights and bonds;
    /// empty when the subnetwork does not exist.
    pub fn get_modules(&self, netuid: u16) -> (r: Vec<ModuleNetworkData>)
        requires
            self.wf(),
        ensures
            r@.len() == self.network_n(netuid),
            forall|u: int| 0 <= u < r@.len() ==> self.is_module_view(netuid, u as u16, #[trigger] r@[u]),
    {
        let mut modules: Vec<ModuleNetworkData> = Vec::new();
        let i = match self.find_subnet(netuid) {
            Some(i) => i,
            None => {
                return modules;
            },
        };
        proof {
            assert(subnet_wf(self.subnets@[i as int]));
        }
        let n = self.subnets[i].slots.len();
        let mut uid: usize = 0;
        while uid < n
            invariant
                self.wf(),
                i == self.net_index(netuid),
                self.network_exists(netuid),
                n == self.subnets@[i as int].slots@.len(),
                n <= u16::MAX,
                uid <= n,
                modules@.len() == uid,
                forall|u: int| 0 <= u < uid ==> self.is_module_view(netuid, u as u16, #[trigger] modules@[u]),
            decreases n - uid,
        {
            modules.push(self.module_at(i, netuid, uid as u16));
            uid += 1;
        }
        modules
    }

    /// Every participant of `netuid` by uid, without weights and bonds; empty
    /// when the subnetwork does not exist.
    pub fn get_modules_lite(&self, netuid: u16) -> (r: Vec<ModuleInfoLite>)
        requires
            self.wf(),
        ensures
            r@.len() == self.network_n(netuid),
            forall|u: int| 0 <= u < r@.len() ==> #[trigger] r@[u] == self.module_lite_view(netuid, u as u16),
    {
        let mut modules: Vec<ModuleInfoLite> = Vec::new();
        let i = match self.find_subnet(netuid) {
            Some(i) => i,
            None => {
                return modules;
            },
        };
        proof {
            assert(subnet_wf(self.subnets@[i as int]));
        }
        let n = self.subnets[i].slots.len();
        let mut uid: usize = 0;
        while uid < n
            invariant
                i == self.net_index(netuid),
                self.network_exists(netuid),
                n == self.subnets@[i as int].slots@.len(),
                n <= u16::MAX,
                uid <= n,
                modules@.len() == uid,
                forall|u: int| 0 <= u < uid ==> #[trigger] modules@[u] == self.module_lite_view(netuid, u as u16),
            decreases n - uid,
        {
            modules.push(self.module_lite_at(i, netuid, uid as u16));
            uid += 1;
        }
        modules
    }
}

} // verus!
