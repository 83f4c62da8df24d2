//! Emission scheduler: once per block, reset the registration counters, pay out
//! the queued emission tuples, and run the epoch of every subnetwork at tempo.
use vstd::prelude::*;

use crate::staking::{
    add_all, credit, credit_all, lemma_credit_all_keeps_accounting, lemma_sum_amounts_prefix,
    sum_amounts,
};
use crate::state::{subnet_wf, Pallet, Subnet};

verus! {

/// Value returned for a disabled subnetwork (tempo 0): an epoch far away.
pub const EPOCH_DISABLED_COUNTDOWN: u64 = 1000;

/// Blocks left until the epoch of `netuid`. Subnetworks run their epoch when
/// `(block + netuid + 1) % (tempo + 1) == 0`, so that they do not all run on
/// the same block.
pub open spec fn epoch_countdown(netuid: int, tempo: int, block: int) -> int {
    if tempo == 0 {
        EPOCH_DISABLED_COUNTDOWN as int
    } else {
        tempo - (block + netuid + 1) % (tempo + 1)
    }
}

pub fn blocks_until_next_epoch(netuid: u16, tempo: u16, block_number: u64) -> (r: u64)
    ensures
        r == epoch_countdown(netuid as int, tempo as int, block_number as int),
{
    if tempo == 0 {
        return EPOCH_DISABLED_COUNTDOWN;
    }
    let m: u128 = (block_number as u128 + netuid as u128 + 1) % (tempo as u128 + 1);
    proof {
        vstd::arithmetic::div_mod::lemma_mod_bound(
            block_number as int + netuid as int + 1,
            tempo as int + 1,
        );
    }
    tempo as u64 - m as u64
}

/// The epoch countdown repeats every `tempo + 1` blocks, and subnetwork
/// `netuid + 1` runs one block ahead of subnetwork `netuid`. With tempo 1 on
/// subnetwork 0, the epoch blocks are the even ones.
pub proof fn lemma_epoch_schedule(netuid: int, tempo: int, block: int)
    requires
        0 <= netuid,
        0 <= tempo,
        0 <= block,
    ensures
        epoch_countdown(netuid, tempo, block + tempo + 1) == epoch_countdown(netuid, tempo, block),
        epoch_countdown(netuid + 1, tempo, block) == epoch_countdown(netuid, tempo, block + 1),
        tempo > 0 ==> 0 <= epoch_countdown(netuid, tempo, block) <= tempo,
        epoch_countdown(0, 1, block) == 0 <==> (block + 1) % 2 == 1,
{
    if tempo > 0 {
        let x = block + netuid + 1;
        vstd::arithmetic::div_mod::lemma_mod_add_multiples_vanish(x, tempo + 1);
        assert(block + tempo + 1 + netuid + 1 == (tempo + 1) + x);
        vstd::arithmetic::div_mod::lemma_mod_bound(x, tempo + 1);
    }
    vstd::arithmetic::div_mod::lemma_mod_bound(block + 1, 2);
}

/// After an epoch block, the next epoch of the same subnetwork comes exactly
/// `tempo + 1` blocks later, with none in between.
pub proof fn lemma_epoch_spacing(netuid: int, tempo: int, block: int, k: int)
    requires
        0 <= netuid,
        0 < tempo,
        0 <= block,
        epoch_countdown(netuid, tempo, block) == 0,
        0 < k <= tempo + 1,
    ensures
        epoch_countdown(netuid, tempo, block + k) == 0 <==> k == tempo + 1,
{
    let m = tempo + 1;
    let x = block + netuid + 1;
    let q = x / m;
    vstd::arithmetic::div_mod::lemma_fundamental_div_mod(x, m);
    assert(x % m == tempo);
    assert(block + k + netuid + 1 == m * q + (tempo + k));
    vstd::arithmetic::div_mod::lemma_mod_multiples_vanish(q, tempo + k, m);
    vstd::arithmetic::div_mod::lemma_mod_add_multiples_vanish(k - 1, m);
    vstd::arithmetic::div_mod::lemma_small_mod((k - 1) as nat, m as nat);
    assert(tempo + k == m + (k - 1));
}

/// How many of `n_remaining` queued tuples a bounded drain would pay at `block`:
/// all of them when the epoch is at most one block away or the tempo is below 2,
/// else enough to finish within half of the shorter of the tempo and the
/// countdown.
pub open spec fn drain_count(netuid: u16, tempo: u16, block: u64, n_remaining: int) -> int {
    let c = epoch_countdown(netuid as int, tempo as int, block as int);
    if c / 2 == 0 || tempo as int / 2 == 0 {
        n_remaining
    } else if n_remaining == 0 {
        0
    } else {
        let via_tempo = n_remaining / (tempo as int / 2);
        let via_countdown = n_remaining / (c / 2);
        if via_tempo > via_countdown {
            via_tempo
        } else {
            via_countdown
        }
    }
}

pub fn tuples_to_drain_this_block(netuid: u16, tempo: u16, block_number: u64, n_remaining: usize) -> (r: usize)
    ensures
        r == drain_count(netuid, tempo, block_number, n_remaining as int),
{
    let blocks_until_epoch: u64 = blocks_until_next_epoch(netuid, tempo, block_number);
    if blocks_until_epoch / 2 == 0 {
        return n_remaining;
    }
    if tempo / 2 == 0 {
        return n_remaining;
    }
    if n_remaining == 0 {
        return 0;
    }
    proof {
        lemma_epoch_schedule(netuid as int, tempo as int, block_number as int);
    }
    let to_sink_via_tempo: usize = n_remaining / (tempo as usize / 2);
    let to_sink_via_blocks_until_epoch: usize = n_remaining / (blocks_until_epoch as usize / 2);
    if to_sink_via_tempo > to_sink_via_blocks_until_epoch {
        to_sink_via_tempo
    } else {
        to_sink_via_blocks_until_epoch
    }
}

/// The subnetwork after the per-block reset of its registration counters: the
/// interval counter restarts once `adjustment_interval` blocks have passed since
/// the last adjustment, and the block counter restarts every block.
pub open spec fn adjusted_subnet(s: Subnet, block: u64) -> Subnet {
    if block.saturating_sub(s.last_adjustment_block) >= s.adjustment_interval {
        Subnet {
            last_adjustment_block: block,
            registrations_this_interval: 0,
            registrations_this_block: 0,
            ..s
        }
    } else {
        Subnet { registrations_this_block: 0, ..s }
    }
}

/// All queued emission tuples, subnetwork by subnetwork.
pub open spec fn queued_tuples(s: Seq<Subnet>) -> Seq<(u64, u64)>
    decreases s.len(),
{
    if s.len() == 0 {
        Seq::empty()
    } else {
        queued_tuples(s.drop_last()) + s.last().loaded_emission@
    }
}

/// `t` is `s` with its queue emptied.
pub open spec fn drained_subnet(s: Subnet, t: Subnet) -> bool {
    &&& t.loaded_emission@.len() == 0
    &&& t == (Subnet { loaded_emission: t.loaded_emission, ..s })
}

/// `t` is `s` after the generation step of block `block`, with `prior` the queue
/// before it. Emission accrues every block; at tempo the accrued amount is handed
/// to `epoch`, and its tuples are queued ahead of `prior` unless they claim more
/// than was accrued, in which case this cycle's emission is dropped.
pub open spec fn emission_generated<F: Fn(u16, u64) -> Vec<(u64, u64)>>(
    s: Subnet,
    t: Subnet,
    prior: Seq<(u64, u64)>,
    block: u64,
    epoch: F,
) -> bool {
    let pending = s.pending_emission.saturating_add(s.emission_value);
    if epoch_countdown(s.netuid as int, s.tempo as int, block as int) != 0 {
        &&& t.loaded_emission@ == prior
        &&& t == (Subnet {
            pending_emission: pending,
            blocks_since_last_step: s.blocks_since_last_step.saturating_add(1),
            loaded_emission: t.loaded_emission,
            ..s
        })
    } else {
        exists|out: Vec<(u64, u64)>|
            #[trigger] epoch.ensures((s.netuid, pending), out) && if sum_amounts(out@) > pending {
                &&& t.loaded_emission@ == prior
                &&& t == (Subnet { pending_emission: 0, loaded_emission: t.loaded_emission, ..s })
            } else {
                &&& t.loaded_emission@ == out@ + prior
                &&& t == (Subnet {
                    pending_emission: 0,
                    blocks_since_last_step: 0,
                    last_mechanism_step_block: block,
                    loaded_emission: t.loaded_emission,
                    ..s
                })
            }
    }
}

pub proof fn lemma_queued_tuples_step(s: Seq<Subnet>, i: int)
    requires
        0 <= i < s.len(),
    ensures
        queued_tuples(s.take(i + 1)) == queued_tuples(s.take(i)) + s[i].loaded_emission@,
{
    assert(s.take(i + 1).drop_last() =~= s.take(i));
}

/// The queued tuples depend on the queues alone.
pub proof fn lemma_queued_tuples_same(s: Seq<Subnet>, t: Seq<Subnet>)
    requires
        s.len() == t.len(),
        forall|i: int| 0 <= i < s.len() ==> s[i].loaded_emission@ == t[i].loaded_emission@,
    ensures
        queued_tuples(s) == queued_tuples(t),
    decreases s.len(),
{
    if s.len() > 0 {
        lemma_queued_tuples_same(s.drop_last(), t.drop_last());
    }
}

/// Whether the amounts of `tuples` sum to at most `limit`.
pub fn emission_within(tuples: &Vec<(u64, u64)>, limit: u64) -> (r: bool)
    ensures
        r == (sum_amounts(tuples@) <= limit),
{
    let mut acc: u128 = 0;
    let mut i: usize = 0;
    while i < tuples.len()
        invariant
            i <= tuples@.len(),
            acc == sum_amounts(tuples@.take(i as int)),
            acc <= limit,
        decreases tuples@.len() - i,
    {
        proof {
            assert(tuples@.take(i + 1).drop_last() =~= tuples@.take(i as int));
        }
        acc = acc + tuples[i].1 as u128;
        if acc > limit as u128 {
            proof {
                lemma_sum_amounts_prefix(tuples@, i + 1);
            }
            return false;
        }
        i += 1;
    }
    proof {
        assert(tuples@.take(i as int) =~= tuples@);
    }
    true
}

impl Pallet {
    /// Whether `netuid` has emission tuples waiting to be paid.
    pub fn has_loaded_emission_tuples(&self, netuid: u16) -> (r: bool)
        ensures
            r == (self.network_exists(netuid) && self.net(netuid).loaded_emission@.len() > 0),
    {
        match self.find_subnet(netuid) {
            Some(i) => self.subnets[i].loaded_emission.len() > 0,
            None => false,
        }
    }

    /// The emission tuples waiting to be paid on `netuid`, in payout order.
    pub fn get_loaded_emission_tuples(&self, netuid: u16) -> (r: Vec<(u64, u64)>)
        ensures
            r@ == (if self.network_exists(netuid) {
                self.net(netuid).loaded_emission@
            } else {
                Seq::empty()
            }),
    {
        let mut r: Vec<(u64, u64)> = Vec::new();
        if let Some(i) = self.find_subnet(netuid) {
            let q = &self.subnets[i].loaded_emission;
            let mut j: usize = 0;
            while j < q.len()
                invariant
                    j <= q@.len(),
                    r@ == q@.take(j as int),
                decreases q@.len() - j,
            {
                r.push(q[j]);
                j += 1;
                proof {
                    assert(r@ =~= q@.take(j as int));
                }
            }
            proof {
                assert(q@.take(j as int) =~= q@);
            }
        }
        r
    }

    /// Pays `emission` onto `key`'s stake as newly minted value.
    pub fn emit_inflation_through_account(&mut self, key: u64, emission: u64)
        requires
            old(self).wf(),
        ensures
            final(self).wf(),
            final(self).accounts@ == credit(old(self).accounts@, key, emission),
            final(self).total_stake == old(self).total_stake.saturating_add(emission),
            final(self).total_issuance == old(self).total_issuance.saturating_add(emission),
            final(self).subnets@ == old(self).subnets@,
            final(self).block_emission == old(self).block_emission,
            final(self).tx_rate_limit == old(self).tx_rate_limit,
    {
        self.increase_stake_on_account(key, emission);
    }

    /// Resets the registration counters of every subnetwork for `current_block`.
    pub fn adjust_registration_terms_for_networks(&mut self, current_block: u64)
        requires
            old(self).wf(),
        ensures
            final(self).wf(),
            final(self).same_ledger(*old(self)),
            final(self).subnets@.len() == old(self).subnets@.len(),
            forall|i: int|
                0 <= i < old(self).subnets@.len() ==> final(self).subnets@[i] == adjusted_subnet(
                    old(self).subnets@[i],
                    current_block,
                ),
    {
        let mut i: usize = 0;
        while i < self.subnets.len()
            invariant
                self.same_ledger(*old(self)),
                self.subnets@.len() == old(self).subnets@.len(),
                i <= self.subnets@.len(),
                forall|j: int|
                    0 <= j < i ==> self.subnets@[j] == adjusted_subnet(
                        old(self).subnets@[j],
                        current_block,
                    ),
                forall|j: int| i <= j < self.subnets@.len() ==> self.subnets@[j] == old(self).subnets@[j],
            decreases self.subnets@.len() - i,
        {
            let last_adjustment_block = self.subnets[i].last_adjustment_block;
            let adjustment_interval = self.subnets[i].adjustment_interval;
            if current_block.saturating_sub(last_adjustment_block) >= adjustment_interval as u64 {
                self.subnets[i].last_adjustment_block = current_block;
                self.subnets[i].registrations_this_interval = 0;
            }
            self.subnets[i].registrations_this_block = 0;
            i += 1;
        }
        proof {
            assert forall|a: int| 0 <= a < self.subnets@.len() implies subnet_wf(
                #[trigger] self.subnets@[a],
            ) by {
                assert(subnet_wf(old(self).subnets@[a]));
            }
        }
    }

    /// Pays every queued emission tuple onto its participant's stake, in queue
    /// order and subnetwork by subnetwork, then empties every queue.
    pub fn drain_emission(&mut self)
        requires
            old(self).wf(),
        ensures
            final(self).wf(),
            final(self).subnets@.len() == old(self).subnets@.len(),
            forall|i: int|
                0 <= i < old(self).subnets@.len() ==> drained_subnet(
                    old(self).subnets@[i],
                    #[trigger] final(self).subnets@[i],
                ),
            final(self).accounts@ == credit_all(old(self).accounts@, queued_tuples(old(self).subnets@)),
            final(self).total_stake == add_all(old(self).total_stake, queued_tuples(old(self).subnets@)),
            final(self).total_issuance == add_all(
                old(self).total_issuance,
                queued_tuples(old(self).subnets@),
            ),
            final(self).block_emission == old(self).block_emission,
            final(self).tx_rate_limit == old(self).tx_rate_limit,
            old(self).stake_accounting() && old(self).total_stake + sum_amounts(
                queued_tuples(old(self).subnets@),
            ) <= u64::MAX ==> final(self).stake_accounting(),
    {
        proof {
            if old(self).stake_accounting() && old(self).total_stake + sum_amounts(
                queued_tuples(old(self).subnets@),
            ) <= u64::MAX {
                lemma_credit_all_keeps_accounting(
                    old(self).accounts@,
                    old(self).total_stake,
                    queued_tuples(old(self).subnets@),
                );
            }
        }
        let ghost subnets0 = old(self).subnets@;
        let mut i: usize = 0;
        while i < self.subnets.len()
            invariant
                self.wf(),
                self.subnets@.len() == subnets0.len(),
                subnets0 == old(self).subnets@,
                i <= self.subnets@.len(),
                forall|j: int|
                    0 <= j < i ==> drained_subnet(subnets0[j], #[trigger] self.subnets@[j]),
                forall|j: int| i <= j < self.subnets@.len() ==> self.subnets@[j] == subnets0[j],
                self.accounts@ == credit_all(old(self).accounts@, queued_tuples(subnets0.take(i as int))),
                self.total_stake == add_all(old(self).total_stake, queued_tuples(subnets0.take(i as int))),
                self.total_issuance == add_all(
                    old(self).total_issuance,
                    queued_tuples(subnets0.take(i as int)),
                ),
                self.block_emission == old(self).block_emission,
                self.tx_rate_limit == old(self).tx_rate_limit,
            decreases self.subnets@.len() - i,
        {
            let ghost pre = self.subnets@;
            let mut tuples: Vec<(u64, u64)> = Vec::new();
            std::mem::swap(&mut tuples, &mut self.subnets[i].loaded_emission);
            proof {
                lemma_queued_tuples_step(subnets0, i as int);
                assert(tuples@ == subnets0[i as int].loaded_emission@);
                assert(queued_tuples(subnets0.take(i as int)) + tuples@.take(0) =~= queued_tuples(
                    subnets0.take(i as int),
                ));
                assert forall|a: int| 0 <= a < self.subnets@.len() implies subnet_wf(
                    #[trigger] self.subnets@[a],
                ) by {
                    assert(subnet_wf(pre[a]));
                }
            }
            let ghost prefix = queued_tuples(subnets0.take(i as int));
            let mut j: usize = 0;
            while j < tuples.len()
                invariant
                    self.wf(),
                    j <= tuples@.len(),
                    self.subnets@.len() == subnets0.len(),
                    i < self.subnets@.len(),
                    self.subnets@[i as int].loaded_emission@.len() == 0,
                    self.subnets@[i as int] == (Subnet {
                        loaded_emission: self.subnets@[i as int].loaded_emission,
                        ..subnets0[i as int]
                    }),
                    forall|k: int|
                        0 <= k < i ==> drained_subnet(subnets0[k], #[trigger] self.subnets@[k]),
                    forall|k: int| i < k < self.subnets@.len() ==> self.subnets@[k] == subnets0[k],
                    self.accounts@ == credit_all(old(self).accounts@, prefix + tuples@.take(j as int)),
                    self.total_stake == add_all(old(self).total_stake, prefix + tuples@.take(j as int)),
                    self.total_issuance == add_all(
                        old(self).total_issuance,
                        prefix + tuples@.take(j as int),
                    ),
                    self.block_emission == old(self).block_emission,
                    self.tx_rate_limit == old(self).tx_rate_limit,
                decreases tuples@.len() - j,
            {
                let (key, amount) = tuples[j];
                proof {
                    assert((prefix + tuples@.take(j + 1)).drop_last() =~= prefix + tuples@.take(
                        j as int,
                    ));
                    assert((prefix + tuples@.take(j + 1)).last() == (key, amount));
                }
                self.emit_inflation_through_account(key, amount);
                j += 1;
            }
            proof {
                assert(tuples@.take(j as int) =~= tuples@);
            }
            i += 1;
        }
        proof {
            assert(subnets0.take(i as int) =~= subnets0);
        }
    }

    /// Accrues each subnetwork's emission and runs `epoch` on the subnetworks at
    /// tempo, queueing the tuples it returns.
    pub fn generate_emission<F: Fn(u16, u64) -> Vec<(u64, u64)>>(
        &mut self,
        block_number: u64,
        epoch: &F,
    )
        requires
            old(self).wf(),
            forall|n: u16, e: u64| epoch.requires((n, e)),
        ensures
            final(self).wf(),
            final(self).same_ledger(*old(self)),
            final(self).subnets@.len() == old(self).subnets@.len(),
            forall|i: int|
                0 <= i < old(self).subnets@.len() ==> emission_generated(
                    old(self).subnets@[i],
                    #[trigger] final(self).subnets@[i],
                    old(self).subnets@[i].loaded_emission@,
                    block_number,
                    *epoch,
                ),
    {
        let mut i: usize = 0;
        while i < self.subnets.len()
            invariant
                forall|n: u16, e: u64| epoch.requires((n, e)),
                self.same_ledger(*old(self)),
                self.subnets@.len() == old(self).subnets@.len(),
                i <= self.subnets@.len(),
                forall|j: int|
                    0 <= j < i ==> emission_generated(
                        old(self).subnets@[j],
                        #[trigger] self.subnets@[j],
                        old(self).subnets@[j].loaded_emission@,
                        block_number,
                        *epoch,
                    ),
                forall|j: int| i <= j < self.subnets@.len() ==> self.subnets@[j] == old(self).subnets@[j],
            decreases self.subnets@.len() - i,
        {
            let netuid = self.subnets[i].netuid;
            let tempo = self.subnets[i].tempo;
            let new_queued_emission = self.subnets[i].emission_value;
            let pending = self.subnets[i].pending_emission.saturating_add(new_queued_emission);
            self.subnets[i].pending_emission = pending;
            if blocks_until_next_epoch(netuid, tempo, block_number) != 0 {
                let steps = self.subnets[i].blocks_since_last_step;
                self.subnets[i].blocks_since_last_step = steps.saturating_add(1);
            } else {
                let emission_to_drain = pending;
                self.subnets[i].pending_emission = 0;
                let emission_tuples = epoch(netuid, emission_to_drain);
                let ghost out = emission_tuples;
                if emission_within(&emission_tuples, emission_to_drain) {
                    let mut queue = emission_tuples;
                    let mut current: Vec<(u64, u64)> = Vec::new();
                    std::mem::swap(&mut current, &mut self.subnets[i].loaded_emission);
                    queue.append(&mut current);
                    self.subnets[i].loaded_emission = queue;
                    self.subnets[i].blocks_since_last_step = 0;
                    self.subnets[i].last_mechanism_step_block = block_number;
                }
                proof {
                    assert(epoch.ensures((netuid, emission_to_drain), out));
                }
            }
            i += 1;
        }
        proof {
            assert forall|a: int| 0 <= a < self.subnets@.len() implies subnet_wf(
                #[trigger] self.subnets@[a],
            ) by {
                assert(subnet_wf(old(self).subnets@[a]));
            }
        }
    }

    /// The per-block driver: resets the registration counters, pays out every
    /// queued tuple, then accrues emission and runs the epochs that are due,
    /// queueing their tuples for the next block.
    pub fn block_step<F: Fn(u16, u64) -> Vec<(u64, u64)>>(&mut self, block_number: u64, epoch: &F)
        requires
            old(self).wf(),
            forall|n: u16, e: u64| epoch.requires((n, e)),
        ensures
            final(self).wf(),
            final(self).subnets@.len() == old(self).subnets@.len(),
            forall|i: int|
                0 <= i < old(self).subnets@.len() ==> emission_generated(
                    adjusted_subnet(old(self).subnets@[i], block_number),
                    #[trigger] final(self).subnets@[i],
                    Seq::empty(),
                    block_number,
                    *epoch,
                ),
            final(self).accounts@ == credit_all(old(self).accounts@, queued_tuples(old(self).subnets@)),
            final(self).total_stake == add_all(old(self).total_stake, queued_tuples(old(self).subnets@)),
            final(self).total_issuance == add_all(
                old(self).total_issuance,
                queued_tuples(old(self).subnets@),
            ),
            final(self).block_emission == old(self).block_emission,
            final(self).tx_rate_limit == old(self).tx_rate_limit,
            old(self).stake_accounting() && old(self).total_stake + sum_amounts(
                queued_tuples(old(self).subnets@),
            ) <= u64::MAX ==> final(self).stake_accounting(),
    {
        self.adjust_registration_terms_for_networks(block_number);
        proof {
            lemma_queued_tuples_same(self.subnets@, old(self).subnets@);
        }
        let ghost adjusted = self.subnets@;
        self.drain_emission();
        let ghost drained = self.subnets@;
        self.generate_emission(block_number, epoch);
        proof {
            assert forall|i: int| 0 <= i < old(self).subnets@.len() implies emission_generated(
                adjusted_subnet(old(self).subnets@[i], block_number),
                #[trigger] self.subnets@[i],
                Seq::empty(),
                block_number,
                *epoch,
            ) by {
                assert(drained_subnet(adjusted[i], drained[i]));
                assert(emission_generated(
                    drained[i],
                    self.subnets@[i],
                    drained[i].loaded_emission@,
                    block_number,
                    *epoch,
                ));
                assert(drained[i].loaded_emission@ =~= Seq::<(u64, u64)>::empty());
            }
        }
    }
}

} // verus!
