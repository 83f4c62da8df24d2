//! Per-subnetwork parameters and counters: getters that read 0 for a missing
//! subnetwork, setters that leave a missing subnetwork alone, and the root-gated
//! setters that refuse a missing subnetwork.
use vstd::prelude::*;

use crate::state::{subnet_wf, Pallet, Subnet, SubspaceError};

verus! {

impl Pallet {
    /// A change that keeps every subnetwork's id and slots, and the ledger, keeps
    /// the state well formed.
    proof fn lemma_scalar_update_wf(old: Pallet, new: Pallet)
        requires
            old.wf(),
            new.accounts@ == old.accounts@,
            new.subnets@.len() == old.subnets@.len(),
            forall|a: int|
                0 <= a < old.subnets@.len() ==> #[trigger] new.subnets@[a].slots == old.subnets@[a].slots
                    && new.subnets@[a].weights == old.subnets@[a].weights
                    && new.subnets@[a].bonds == old.subnets@[a].bonds
                    && new.subnets@[a].netuid == old.subnets@[a].netuid,
        ensures
            new.wf(),
    {
        assert forall|a: int| 0 <= a < new.subnets@.len() implies subnet_wf(#[trigger] new.subnets@[a]) by {
            assert(subnet_wf(old.subnets@[a]));
            assert(new.subnets@[a].slots == old.subnets@[a].slots);
            assert(new.subnets@[a].weights == old.subnets@[a].weights);
        }
        assert forall|a: int, b: int| 0 <= a < b < new.subnets@.len() implies new.subnets@[a].netuid
            != new.subnets@[b].netuid by {
            assert(new.subnets@[a].slots == old.subnets@[a].slots);
            assert(new.subnets@[b].slots == old.subnets@[b].slots);
        }
    }

    pub fn get_tempo(&self, netuid: u16) -> (r: u16)
        ensures
            r == (if self.network_exists(netuid) {
                self.net(netuid).tempo
            } else {
                0
            }),
    {
        match self.find_subnet(netuid) {
            Some(i) => self.subnets[i].tempo,
            None => 0,
        }
    }

    pub fn get_emission_value(&self, netuid: u16) -> (r: u64)
        ensures
            r == (if self.network_exists(netuid) {
                self.net(netuid).emission_value
            } else {
                0
            }),
    {
        match self.find_subnet(netuid) {
            Some(i) => self.subnets[i].emission_value,
            None => 0,
        }
    }

    pub fn get_pending_emission(&self, netuid: u16) -> (r: u64)
        ensures
            r == (if self.network_exists(netuid) {
                self.net(netuid).pending_emission
            } else {
                0
            }),
    {
        match self.find_subnet(netuid) {
            Some(i) => self.subnets[i].pending_emission,
            None => 0,
        }
    }

    pub fn get_last_adjustment_block(&self, netuid: u16) -> (r: u64)
        ensures
            r == (if self.network_exists(netuid) {
                self.net(netuid).last_adjustment_block
            } else {
                0
            }),
    {
        match self.find_subnet(netuid) {
            Some(i) => self.subnets[i].last_adjustment_block,
            None => 0,
        }
    }

    pub fn get_blocks_since_last_step(&self, netuid: u16) -> (r: u64)
        ensures
            r == (if self.network_exists(netuid) {
                self.net(netuid).blocks_since_last_step
            } else {
                0
            }),
    {
        match self.find_subnet(netuid) {
            Some(i) => self.subnets[i].blocks_since_last_step,
            None => 0,
        }
    }

    pub fn get_registrations_this_block(&self, netuid: u16) -> (r: u16)
        ensures
            r == (if self.network_exists(netuid) {
                self.net(netuid).registrations_this_block
            } else {
                0
            }),
    {
        match self.find_subnet(netuid) {
            Some(i) => self.subnets[i].registrations_this_block,
            None => 0,
        }
    }

    pub fn get_last_mechanism_step_block(&self, netuid: u16) -> (r: u64)
        ensures
            r == (if self.network_exists(netuid) {
                self.net(netuid).last_mechanism_step_block
            } else {
                0
            }),
    {
        match self.find_subnet(netuid) {
            Some(i) => self.subnets[i].last_mechanism_step_block,
            None => 0,
        }
    }

    pub fn get_registrations_this_interval(&self, netuid: u16) -> (r: u16)
        ensures
            r == (if self.network_exists(netuid) {
                self.net(netuid).registrations_this_interval
            } else {
                0
            }),
    {
        match self.find_subnet(netuid) {
            Some(i) => self.subnets[i].registrations_this_interval,
            None => 0,
        }
    }

    pub fn get_serving_rate_limit(&self, netuid: u16) -> (r: u64)
        ensures
            r == (if self.network_exists(netuid) {
                self.net(netuid).serving_rate_limit
            } else {
                0
            }),
    {
        match self.find_subnet(netuid) {
            Some(i) => self.subnets[i].serving_rate_limit,
            None => 0,
        }
    }

    pub fn get_weights_set_rate_limit(&self, netuid: u16) -> (r: u64)
        ensures
            r == (if self.network_exists(netuid) {
                self.net(netuid).weights_set_rate_limit
            } else {
                0
            }),
    {
        match self.find_subnet(netuid) {
            Some(i) => self.subnets[i].weights_set_rate_limit,
            None => 0,
        }
    }

    pub fn get_adjustment_interval(&self, netuid: u16) -> (r: u16)
        ensures
            r == (if self.network_exists(netuid) {
                self.net(netuid).adjustment_interval
            } else {
                0
            }),
    {
        match self.find_subnet(netuid) {
            Some(i) => self.subnets[i].adjustment_interval,
            None => 0,
        }
    }

    pub fn get_max_weight_limit(&self, netuid: u16) -> (r: u16)
        ensures
            r == (if self.network_exists(netuid) {
                self.net(netuid).max_weight_limit
            } else {
                0
            }),
    {
        match self.find_subnet(netuid) {
            Some(i) => self.subnets[i].max_weight_limit,
            None => 0,
        }
    }

    pub fn get_immunity_period(&self, netuid: u16) -> (r: u16)
        ensures
            r == (if self.network_exists(netuid) {
                self.net(netuid).immunity_period
            } else {
                0
            }),
    {
        match self.find_subnet(netuid) {
            Some(i) => self.subnets[i].immunity_period,
            None => 0,
        }
    }

    pub fn get_min_allowed_weights(&self, netuid: u16) -> (r: u16)
        ensures
            r == (if self.network_exists(netuid) {
                self.net(netuid).min_allowed_weights
            } else {
                0
            }),
    {
        match self.find_subnet(netuid) {
            Some(i) => self.subnets[i].min_allowed_weights,
            None => 0,
        }
    }

    pub fn get_max_allowed_uids(&self, netuid: u16) -> (r: u16)
        ensures
            r == (if self.network_exists(netuid) {
                self.net(netuid).max_allowed_uids
            } else {
                0
            }),
    {
        match self.find_subnet(netuid) {
            Some(i) => self.subnets[i].max_allowed_uids,
            None => 0,
        }
    }

    pub fn get_activity_cutoff(&self, netuid: u16) -> (r: u16)
        ensures
            r == (if self.network_exists(netuid) {
                self.net(netuid).activity_cutoff
            } else {
                0
            }),
    {
        match self.find_subnet(netuid) {
            Some(i) => self.subnets[i].activity_cutoff,
            None => 0,
        }
    }

    pub fn get_target_registrations_per_interval(&self, netuid: u16) -> (r: u16)
        ensures
            r == (if self.network_exists(netuid) {
                self.net(netuid).target_registrations_per_interval
            } else {
                0
            }),
    {
        match self.find_subnet(netuid) {
            Some(i) => self.subnets[i].target_registrations_per_interval,
            None => 0,
        }
    }

    pub fn get_max_registrations_per_block(&self, netuid: u16) -> (r: u16)
        ensures
            r == (if self.network_exists(netuid) {
                self.net(netuid).max_registrations_per_block
            } else {
                0
            }),
    {
        match self.find_subnet(netuid) {
            Some(i) => self.subnets[i].max_registrations_per_block,
            None => 0,
        }
    }

    pub fn set_tempo(&mut self, netuid: u16, tempo: u16)
        ensures
            final(self).same_ledger(*old(self)),
            old(self).wf() ==> final(self).wf(),
            final(self).subnets@ == old(self).with_net(
                netuid,
                (Subnet { tempo, ..old(self).net(netuid) }),
            ),
    {
        if let Some(i) = self.find_subnet(netuid) {
            self.subnets[i].tempo = tempo;
            assert(self.subnets@ =~= old(self).with_net(
                netuid,
                (Subnet { tempo, ..old(self).net(netuid) }),
            ));
            proof {
                if old(self).wf() {
                    Self::lemma_scalar_update_wf(*old(self), *self);
                }
            }
        }
    }

    pub fn set_last_adjustment_block(&mut self, netuid: u16, last_adjustment_block: u64)
        ensures
            final(self).same_ledger(*old(self)),
            old(self).wf() ==> final(self).wf(),
            final(self).subnets@ == old(self).with_net(
                netuid,
                (Subnet { last_adjustment_block, ..old(self).net(netuid) }),
            ),
    {
        if let Some(i) = self.find_subnet(netuid) {
            self.subnets[i].last_adjustment_block = last_adjustment_block;
            assert(self.subnets@ =~= old(self).with_net(
                netuid,
                (Subnet { last_adjustment_block, ..old(self).net(netuid) }),
            ));
            proof {
                if old(self).wf() {
                    Self::lemma_scalar_update_wf(*old(self), *self);
                }
            }
        }
    }

    pub fn set_blocks_since_last_step(&mut self, netuid: u16, blocks_since_last_step: u64)
        ensures
            final(self).same_ledger(*old(self)),
            old(self).wf() ==> final(self).wf(),
            final(self).subnets@ == old(self).with_net(
                netuid,
                (Subnet { blocks_since_last_step, ..old(self).net(netuid) }),
            ),
    {
        if let Some(i) = self.find_subnet(netuid) {
            self.subnets[i].blocks_since_last_step = blocks_since_last_step;
            assert(self.subnets@ =~= old(self).with_net(
                netuid,
                (Subnet { blocks_since_last_step, ..old(self).net(netuid) }),
            ));
            proof {
                if old(self).wf() {
                    Self::lemma_scalar_update_wf(*old(self), *self);
                }
            }
        }
    }

    pub fn set_registrations_this_block(&mut self, netuid: u16, registrations_this_block: u16)
        ensures
            final(self).same_ledger(*old(self)),
            old(self).wf() ==> final(self).wf(),
            final(self).subnets@ == old(self).with_net(
                netuid,
                (Subnet { registrations_this_block, ..old(self).net(netuid) }),
            ),
    {
        if let Some(i) = self.find_subnet(netuid) {
            self.subnets[i].registrations_this_block = registrations_this_block;
            assert(self.subnets@ =~= old(self).with_net(
                netuid,
                (Subnet { registrations_this_block, ..old(self).net(netuid) }),
            ));
            proof {
                if old(self).wf() {
                    Self::lemma_scalar_update_wf(*old(self), *self);
                }
            }
        }
    }

    pub fn set_last_mechanism_step_block(&mut self, netuid: u16, last_mechanism_step_block: u64)
        ensures
            final(self).same_ledger(*old(self)),
            old(self).wf() ==> final(self).wf(),
            final(self).subnets@ == old(self).with_net(
                netuid,
                (Subnet { last_mechanism_step_block, ..old(self).net(netuid) }),
            ),
    {
        if let Some(i) = self.find_subnet(netuid) {
            self.subnets[i].last_mechanism_step_block = last_mechanism_step_block;
            assert(self.subnets@ =~= old(self).with_net(
                netuid,
                (Subnet { last_mechanism_step_block, ..old(self).net(netuid) }),
            ));
            proof {
                if old(self).wf() {
                    Self::lemma_scalar_update_wf(*old(self), *self);
                }
            }
        }
    }

    pub fn set_registrations_this_interval(&mut self, netuid: u16, registrations_this_interval: u16)
        ensures
            final(self).same_ledger(*old(self)),
            old(self).wf() ==> final(self).wf(),
            final(self).subnets@ == old(self).with_net(
                netuid,
                (Subnet { registrations_this_interval, ..old(self).net(netuid) }),
            ),
    {
        if let Some(i) = self.find_subnet(netuid) {
            self.subnets[i].registrations_this_interval = registrations_this_interval;
            assert(self.subnets@ =~= old(self).with_net(
                netuid,
                (Subnet { registrations_this_interval, ..old(self).net(netuid) }),
            ));
            proof {
                if old(self).wf() {
                    Self::lemma_scalar_update_wf(*old(self), *self);
                }
            }
        }
    }

    pub fn set_serving_rate_limit(&mut self, netuid: u16, serving_rate_limit: u64)
        ensures
            final(self).same_ledger(*old(self)),
            old(self).wf() ==> final(self).wf(),
            final(self).subnets@ == old(self).with_net(
                netuid,
                (Subnet { serving_rate_limit, ..old(self).net(netuid) }),
            ),
    {
        if let Some(i) = self.find_subnet(netuid) {
            self.subnets[i].serving_rate_limit = serving_rate_limit;
            assert(self.subnets@ =~= old(self).with_net(
                netuid,
                (Subnet { serving_rate_limit, ..old(self).net(netuid) }),
            ));
            proof {
                if old(self).wf() {
                    Self::lemma_scalar_update_wf(*old(self), *self);
                }
            }
        }
    }

    pub fn set_weights_set_rate_limit(&mut self, netuid: u16, weights_set_rate_limit: u64)
        ensures
            final(self).same_ledger(*old(self)),
            old(self).wf() ==> final(self).wf(),
            final(self).subnets@ == old(self).with_net(
                netuid,
                (Subnet { weights_set_rate_limit, ..old(self).net(netuid) }),
            ),
    {
        if let Some(i) = self.find_subnet(netuid) {
            self.subnets[i].weights_set_rate_limit = weights_set_rate_limit;
            assert(self.subnets@ =~= old(self).with_net(
                netuid,
                (Subnet { weights_set_rate_limit, ..old(self).net(netuid) }),
            ));
            proof {
                if old(self).wf() {
                    Self::lemma_scalar_update_wf(*old(self), *self);
                }
            }
        }
    }

    pub fn set_adjustment_interval(&mut self, netuid: u16, adjustment_interval: u16)
        ensures
            final(self).same_ledger(*old(self)),
            old(self).wf() ==> final(self).wf(),
            final(self).subnets@ == old(self).with_net(
                netuid,
                (Subnet { adjustment_interval, ..old(self).net(netuid) }),
            ),
    {
        if let Some(i) = self.find_subnet(netuid) {
            self.subnets[i].adjustment_interval = adjustment_interval;
            assert(self.subnets@ =~= old(self).with_net(
                netuid,
                (Subnet { adjustment_interval, ..old(self).net(netuid) }),
            ));
            proof {
                if old(self).wf() {
                    Self::lemma_scalar_update_wf(*old(self), *self);
                }
            }
        }
    }

    pub fn set_max_weight_limit(&mut self, netuid: u16, max_weight_limit: u16)
        ensures
            final(self).same_ledger(*old(self)),
            old(self).wf() ==> final(self).wf(),
            final(self).subnets@ == old(self).with_net(
                netuid,
                (Subnet { max_weight_limit, ..old(self).net(netuid) }),
            ),
    {
        if let Some(i) = self.find_subnet(netuid) {
            self.subnets[i].max_weight_limit = max_weight_limit;
            assert(self.subnets@ =~= old(self).with_net(
                netuid,
                (Subnet { max_weight_limit, ..old(self).net(netuid) }),
            ));
            proof {
                if old(self).wf() {
                    Self::lemma_scalar_update_wf(*old(self), *self);
                }
            }
        }
    }

    pub fn set_immunity_period(&mut self, netuid: u16, immunity_period: u16)
        ensures
            final(self).same_ledger(*old(self)),
            old(self).wf() ==> final(self).wf(),
            final(self).subnets@ == old(self).with_net(
                netuid,
                (Subnet { immunity_period, ..old(self).net(netuid) }),
            ),
    {
        if let Some(i) = self.find_subnet(netuid) {
            self.subnets[i].immunity_period = immunity_period;
            assert(self.subnets@ =~= old(self).with_net(
                netuid,
                (Subnet { immunity_period, ..old(self).net(netuid) }),
            ));
            proof {
                if old(self).wf() {
                    Self::lemma_scalar_update_wf(*old(self), *self);
                }
            }
        }
    }

    pub fn set_min_allowed_weights(&mut self, netuid: u16, min_allowed_weights: u16)
        ensures
            final(self).same_ledger(*old(self)),
            old(self).wf() ==> final(self).wf(),
            final(self).subnets@ == old(self).with_net(
                netuid,
                (Subnet { min_allowed_weights, ..old(self).net(netuid) }),
            ),
    {
        if let Some(i) = self.find_subnet(netuid) {
            self.subnets[i].min_allowed_weights = min_allowed_weights;
            assert(self.subnets@ =~= old(self).with_net(
                netuid,
                (Subnet { min_allowed_weights, ..old(self).net(netuid) }),
            ));
            proof {
                if old(self).wf() {
                    Self::lemma_scalar_update_wf(*old(self), *self);
                }
            }
        }
    }

    pub fn set_max_allowed_uids(&mut self, netuid: u16, max_allowed_uids: u16)
        ensures
            final(self).same_ledger(*old(self)),
            old(self).wf() ==> final(self).wf(),
            final(self).subnets@ == old(self).with_net(
                netuid,
                (Subnet { max_allowed_uids, ..old(self).net(netuid) }),
            ),
    {
        if let Some(i) = self.find_subnet(netuid) {
            self.subnets[i].max_allowed_uids = max_allowed_uids;
            assert(self.subnets@ =~= old(self).with_net(
                netuid,
                (Subnet { max_allowed_uids, ..old(self).net(netuid) }),
            ));
            proof {
                if old(self).wf() {
                    Self::lemma_scalar_update_wf(*old(self), *self);
                }
            }
        }
    }

    pub fn set_activity_cutoff(&mut self, netuid: u16, activity_cutoff: u16)
        ensures
            final(self).same_ledger(*old(self)),
            old(self).wf() ==> final(self).wf(),
            final(self).subnets@ == old(self).with_net(
                netuid,
                (Subnet { activity_cutoff, ..old(self).net(netuid) }),
            ),
    {
        if let Some(i) = self.find_subnet(netuid) {
            self.subnets[i].activity_cutoff = activity_cutoff;
            assert(self.subnets@ =~= old(self).with_net(
                netuid,
                (Subnet { activity_cutoff, ..old(self).net(netuid) }),
            ));
            proof {
                if old(self).wf() {
                    Self::lemma_scalar_update_wf(*old(self), *self);
                }
            }
        }
    }

    pub fn set_target_registrations_per_interval(&mut self, netuid: u16, target_registrations_per_interval: u16)
        ensures
            final(self).same_ledger(*old(self)),
            old(self).wf() ==> final(self).wf(),
            final(self).subnets@ == old(self).with_net(
                netuid,
                (Subnet { target_registrations_per_interval, ..old(self).net(netuid) }),
            ),
    {
        if let Some(i) = self.find_subnet(netuid) {
            self.subnets[i].target_registrations_per_interval = target_registrations_per_interval;
            assert(self.subnets@ =~= old(self).with_net(
                netuid,
                (Subnet { target_registrations_per_interval, ..old(self).net(netuid) }),
            ));
            proof {
                if old(self).wf() {
                    Self::lemma_scalar_update_wf(*old(self), *self);
                }
            }
        }
    }

    pub fn set_max_registrations_per_block(&mut self, netuid: u16, max_registrations_per_block: u16)
        ensures
            final(self).same_ledger(*old(self)),
            old(self).wf() ==> final(self).wf(),
            final(self).subnets@ == old(self).with_net(
                netuid,
                (Subnet { max_registrations_per_block, ..old(self).net(netuid) }),
            ),
    {
        if let Some(i) = self.find_subnet(netuid) {
            self.subnets[i].max_registrations_per_block = max_registrations_per_block;
            assert(self.subnets@ =~= old(self).with_net(
                netuid,
                (Subnet { max_registrations_per_block, ..old(self).net(netuid) }),
            ));
            proof {
                if old(self).wf() {
                    Self::lemma_scalar_update_wf(*old(self), *self);
                }
            }
        }
    }

    /// Root-gated setter: `NetworkDoesNotExist` when `netuid` does not exist.
    pub fn do_sudo_set_serving_rate_limit(&mut self, netuid: u16, serving_rate_limit: u64) -> (r: Result<(), SubspaceError>)
        ensures
            final(self).same_ledger(*old(self)),
            old(self).wf() ==> final(self).wf(),
            r == (if old(self).network_exists(netuid) {
                Ok(())
            } else {
                Err(SubspaceError::NetworkDoesNotExist)
            }),
            final(self).subnets@ == old(self).with_net(
                netuid,
                (Subnet { serving_rate_limit, ..old(self).net(netuid) }),
            ),
    {
        if !self.if_network_exist(netuid) {
            return Err(SubspaceError::NetworkDoesNotExist);
        }
        self.set_serving_rate_limit(netuid, serving_rate_limit);
        Ok(())
    }

    /// Root-gated setter: `NetworkDoesNotExist` when `netuid` does not exist.
    pub fn do_sudo_set_weights_set_rate_limit(&mut self, netuid: u16, weights_set_rate_limit: u64) -> (r: Result<(), SubspaceError>)
        ensures
            final(self).same_ledger(*old(self)),
            old(self).wf() ==> final(self).wf(),
            r == (if old(self).network_exists(netuid) {
                Ok(())
            } else {
                Err(SubspaceError::NetworkDoesNotExist)
            }),
            final(self).subnets@ == old(self).with_net(
                netuid,
                (Subnet { weights_set_rate_limit, ..old(self).net(netuid) }),
            ),
    {
        if !self.if_network_exist(netuid) {
            return Err(SubspaceError::NetworkDoesNotExist);
        }
        self.set_weights_set_rate_limit(netuid, weights_set_rate_limit);
        Ok(())
    }

    /// Root-gated setter: `NetworkDoesNotExist` when `netuid` does not exist.
    pub fn do_sudo_set_adjustment_interval(&mut self, netuid: u16, adjustment_interval: u16) -> (r: Result<(), SubspaceError>)
        ensures
            final(self).same_ledger(*old(self)),
            old(self).wf() ==> final(self).wf(),
            r == (if old(self).network_exists(netuid) {
                Ok(())
            } else {
                Err(SubspaceError::NetworkDoesNotExist)
            }),
            final(self).subnets@ == old(self).with_net(
                netuid,
                (Subnet { adjustment_interval, ..old(self).net(netuid) }),
            ),
    {
        if !self.if_network_exist(netuid) {
            return Err(SubspaceError::NetworkDoesNotExist);
        }
        self.set_adjustment_interval(netuid, adjustment_interval);
        Ok(())
    }

    /// Root-gated setter: `NetworkDoesNotExist` when `netuid` does not exist.
    pub fn do_sudo_set_max_weight_limit(&mut self, netuid: u16, max_weight_limit: u16) -> (r: Result<(), SubspaceError>)
        ensures
            final(self).same_ledger(*old(self)),
            old(self).wf() ==> final(self).wf(),
            r == (if old(self).network_exists(netuid) {
                Ok(())
            } else {
                Err(SubspaceError::NetworkDoesNotExist)
            }),
            final(self).subnets@ == old(self).with_net(
                netuid,
                (Subnet { max_weight_limit, ..old(self).net(netuid) }),
            ),
    {
        if !self.if_network_exist(netuid) {
            return Err(SubspaceError::NetworkDoesNotExist);
        }
        self.set_max_weight_limit(netuid, max_weight_limit);
        Ok(())
    }

    /// Root-gated setter: `NetworkDoesNotExist` when `netuid` does not exist.
    pub fn do_sudo_set_immunity_period(&mut self, netuid: u16, immunity_period: u16) -> (r: Result<(), SubspaceError>)
        ensures
            final(self).same_ledger(*old(self)),
            old(self).wf() ==> final(self).wf(),
            r == (if old(self).network_exists(netuid) {
                Ok(())
            } else {
                Err(SubspaceError::NetworkDoesNotExist)
            }),
            final(self).subnets@ == old(self).with_net(
                netuid,
                (Subnet { immunity_period, ..old(self).net(netuid) }),
            ),
    {
        if !self.if_network_exist(netuid) {
            return Err(SubspaceError::NetworkDoesNotExist);
        }
        self.set_immunity_period(netuid, immunity_period);
        Ok(())
    }

    /// Root-gated setter: `NetworkDoesNotExist` when `netuid` does not exist.
    pub fn do_sudo_set_min_allowed_weights(&mut self, netuid: u16, min_allowed_weights: u16) -> (r: Result<(), SubspaceError>)
        ensures
            final(self).same_ledger(*old(self)),
            old(self).wf() ==> final(self).wf(),
            r == (if old(self).network_exists(netuid) {
                Ok(())
            } else {
                Err(SubspaceError::NetworkDoesNotExist)
            }),
            final(self).subnets@ == old(self).with_net(
                netuid,
                (Subnet { min_allowed_weights, ..old(self).net(netuid) }),
            ),
    {
        if !self.if_network_exist(netuid) {
            return Err(SubspaceError::NetworkDoesNotExist);
        }
        self.set_min_allowed_weights(netuid, min_allowed_weights);
        Ok(())
    }

    /// Root-gated setter: `NetworkDoesNotExist` when `netuid` does not exist.
    pub fn do_sudo_set_activity_cutoff(&mut self, netuid: u16, activity_cutoff: u16) -> (r: Result<(), SubspaceError>)
        ensures
            final(self).same_ledger(*old(self)),
            old(self).wf() ==> final(self).wf(),
            r == (if old(self).network_exists(netuid) {
                Ok(())
            } else {
                Err(SubspaceError::NetworkDoesNotExist)
            }),
            final(self).subnets@ == old(self).with_net(
                netuid,
                (Subnet { activity_cutoff, ..old(self).net(netuid) }),
            ),
    {
        if !self.if_network_exist(netuid) {
            return Err(SubspaceError::NetworkDoesNotExist);
        }
        self.set_activity_cutoff(netuid, activity_cutoff);
        Ok(())
    }

    /// Root-gated setter: `NetworkDoesNotExist` when `netuid` does not exist.
    pub fn do_sudo_set_target_registrations_per_interval(&mut self, netuid: u16, target_registrations_per_interval: u16) -> (r: Result<(), SubspaceError>)
        ensures
            final(self).same_ledger(*old(self)),
            old(self).wf() ==> final(self).wf(),
            r == (if old(self).network_exists(netuid) {
                Ok(())
            } else {
                Err(SubspaceError::NetworkDoesNotExist)
            }),
            final(self).subnets@ == old(self).with_net(
                netuid,
                (Subnet { target_registrations_per_interval, ..old(self).net(netuid) }),
            ),
    {
        if !self.if_network_exist(netuid) {
            return Err(SubspaceError::NetworkDoesNotExist);
        }
        self.set_target_registrations_per_interval(netuid, target_registrations_per_interval);
        Ok(())
    }

    /// Root-gated setter: `NetworkDoesNotExist` when `netuid` does not exist.
    pub fn do_sudo_set_max_registrations_per_block(&mut self, netuid: u16, max_registrations_per_block: u16) -> (r: Result<(), SubspaceError>)
        ensures
            final(self).same_ledger(*old(self)),
            old(self).wf() ==> final(self).wf(),
            r == (if old(self).network_exists(netuid) {
                Ok(())
            } else {
                Err(SubspaceError::NetworkDoesNotExist)
            }),
            final(self).subnets@ == old(self).with_net(
                netuid,
                (Subnet { max_registrations_per_block, ..old(self).net(netuid) }),
            ),
    {
        if !self.if_network_exist(netuid) {
            return Err(SubspaceError::NetworkDoesNotExist);
        }
        self.set_max_registrations_per_block(netuid, max_registrations_per_block);
        Ok(())
    }

    /// Root-gated setter of the global transaction rate limit.
    pub fn do_sudo_set_tx_rate_limit(&mut self, tx_rate_limit: u64)
        ensures
            final(self).tx_rate_limit == tx_rate_limit,
            final(self).subnets@ == old(self).subnets@,
            final(self).accounts@ == old(self).accounts@,
            final(self).total_stake == old(self).total_stake,
            final(self).total_issuance == old(self).total_issuance,
            final(self).block_emission == old(self).block_emission,
    {
        self.set_tx_rate_limit(tx_rate_limit);
    }

    /// Root-gated capacity setter. Capacity only grows: fails with
    /// `NetworkDoesNotExist` when `netuid` does not exist, then with
    /// `MaxAllowedUIdsNotAllowed` unless the new capacity exceeds the current one.
    pub fn do_sudo_set_max_allowed_uids(&mut self, netuid: u16, max_allowed_uids: u16) -> (r: Result<
        (),
        SubspaceError,
    >)
        ensures
            final(self).same_ledger(*old(self)),
            old(self).wf() ==> final(self).wf(),
            r == (if !old(self).network_exists(netuid) {
                Err(SubspaceError::NetworkDoesNotExist)
            } else if old(self).net(netuid).max_allowed_uids >= max_allowed_uids {
                Err(SubspaceError::MaxAllowedUIdsNotAllowed)
            } else {
                Ok(())
            }),
            r is Err ==> final(self).subnets@ == old(self).subnets@,
            r is Ok ==> final(self).subnets@ == old(self).with_net(
                netuid,
                (Subnet { max_allowed_uids, ..old(self).net(netuid) }),
            ),
    {
        if !self.if_network_exist(netuid) {
            return Err(SubspaceError::NetworkDoesNotExist);
        }
        if self.get_max_allowed_uids(netuid) >= max_allowed_uids {
            return Err(SubspaceError::MaxAllowedUIdsNotAllowed);
        }
        self.set_max_allowed_uids(netuid, max_allowed_uids);
        Ok(())
    }
}

} // verus!
