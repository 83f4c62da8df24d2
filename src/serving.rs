//! Endpoint serving: participants publish the address at which they serve a
//! subnetwork, subject to address validation and a per-subnetwork rate limit.
use vstd::prelude::*;

use crate::state::{module_index, slot_index, subnet_wf, ModuleInfo, Pallet, Subnet, SubspaceError};
use crate::utils::{exceeds_rate_limit, find_module, find_slot, rate_limited};

verus! {

/// Largest value of the IPv4 range.
pub const IPV4_MAX: u128 = 0xffff_ffff;

/// The IPv4 loopback address.
pub const IPV4_LOCALHOST: u128 = 0x7f00_0001;

/// The IPv6 loopback address.
pub const IPV6_LOCALHOST: u128 = 1;

/// An address is valid when it is not zero, and: in the IPv4 range, below its
/// top and not the loopback; above it, not all ones.
pub open spec fn valid_ip(ip: u128) -> bool {
    &&& ip != 0
    &&& ip <= IPV4_MAX ==> ip < IPV4_MAX && ip != IPV4_LOCALHOST
    &&& ip > IPV4_MAX ==> ip != u128::MAX && ip != IPV6_LOCALHOST
}

/// Whether an endpoint last served at `last_serve` may be served again at
/// `current_block` under `rate_limit`: the transaction rate limiter's rule, so a
/// serve is refused while `current_block - last_serve <= rate_limit` (0 disables
/// the limit, and so does a first serve).
pub open spec fn serve_allowed(rate_limit: u64, last_serve: u64, current_block: u64) -> bool {
    !rate_limited(last_serve, current_block, rate_limit)
}

/// `info` is the endpoint recorded by a serve at `block` of `ip`, `port`, `name`
/// and `uri`, keeping the version `version`.
pub open spec fn is_served_info(
    info: ModuleInfo,
    block: u64,
    version: u64,
    ip: u128,
    port: u16,
    name: Seq<u8>,
    uri: Seq<u8>,
) -> bool {
    &&& info.block == block
    &&& info.version == version
    &&& info.ip == ip
    &&& info.port == port
    &&& info.name@ == name
    &&& info.uri@ == uri
}

/// The address family: 4 for the IPv4 range, 6 above it.
fn get_ip_type(ip: u128) -> (r: u8)
    ensures
        r == (if ip <= IPV4_MAX {
            4u8
        } else {
            6u8
        }),
{
    if ip <= IPV4_MAX {
        4
    } else {
        6
    }
}

pub fn is_valid_ip_address(ip: u128) -> (r: bool)
    ensures
        r == valid_ip(ip),
{
    let ip_type = get_ip_type(ip);
    if ip == 0 {
        return false;
    }
    if ip_type == 4 {
        if ip >= IPV4_MAX {
            return false;
        }
        if ip == IPV4_LOCALHOST {
            return false;
        }
    }
    if ip_type == 6 {
        if ip == u128::MAX {
            return false;
        }
        if ip == IPV6_LOCALHOST {
            return false;
        }
    }
    true
}

fn copy_bytes(v: &Vec<u8>) -> (r: Vec<u8>)
    ensures
        r@ == v@,
{
    let mut r: Vec<u8> = Vec::new();
    let mut i: usize = 0;
    while i < v.len()
        invariant
            i <= v@.len(),
            r@ == v@.take(i as int),
        decreases v@.len() - i,
    {
        r.push(v[i]);
        i += 1;
        proof {
            assert(r@ =~= v@.take(i as int));
        }
    }
    proof {
        assert(v@.take(i as int) =~= v@);
    }
    r
}

impl Pallet {
    /// Whether `key` holds a slot on some subnetwork.
    pub open spec fn registered_anywhere(self, key: u64) -> bool {
        exists|i: int| 0 <= i < self.subnets@.len() && slot_index(self.subnets@[i].slots@, key) >= 0
    }

    /// Whether `key` has published an endpoint on `netuid`.
    pub open spec fn module_served(self, netuid: u16, key: u64) -> bool {
        self.network_exists(netuid) && module_index(self.net(netuid).modules@, key) >= 0
    }

    /// The endpoint of `key` on `netuid`; meaningful when `module_served`.
    pub open spec fn served(self, netuid: u16, key: u64) -> ModuleInfo {
        self.net(netuid).modules@[module_index(self.net(netuid).modules@, key)].1
    }

    pub open spec fn serving_rate_limit_of(self, netuid: u16) -> u64 {
        if self.network_exists(netuid) {
            self.net(netuid).serving_rate_limit
        } else {
            0
        }
    }

    pub fn is_key_registered_on_any_network(&self, key: u64) -> (r: bool)
        ensures
            r == self.registered_anywhere(key),
    {
        let mut i: usize = 0;
        while i < self.subnets.len()
            invariant
                i <= self.subnets@.len(),
                forall|j: int| 0 <= j < i ==> slot_index(self.subnets@[j].slots@, key) < 0,
            decreases self.subnets@.len() - i,
        {
            if find_slot(&self.subnets[i].slots, key).is_some() {
                return true;
            }
            i += 1;
        }
        false
    }

    pub fn has_module(&self, netuid: u16, key: u64) -> (r: bool)
        ensures
            r == self.module_served(netuid, key),
    {
        match self.find_subnet(netuid) {
            Some(i) => find_module(&self.subnets[i].modules, key).is_some(),
            None => false,
        }
    }

    /// The endpoint of `key` on `netuid`, or an empty one (block 0) when it has none.
    pub fn get_module_from_key(&self, netuid: u16, key: u64) -> (r: ModuleInfo)
        ensures
            self.module_served(netuid, key) ==> {
                let m = self.served(netuid, key);
                is_served_info(r, m.block, m.version, m.ip, m.port, m.name@, m.uri@)
            },
            !self.module_served(netuid, key) ==> is_served_info(
                r,
                0,
                0,
                0,
                0,
                Seq::empty(),
                Seq::empty(),
            ),
    {
        if let Some(i) = self.find_subnet(netuid) {
            if let Some(j) = find_module(&self.subnets[i].modules, key) {
                let m = &self.subnets[i].modules[j].1;
                return ModuleInfo {
                    block: m.block,
                    version: m.version,
                    ip: m.ip,
                    port: m.port,
                    name: copy_bytes(&m.name),
                    uri: copy_bytes(&m.uri),
                };
            }
        }
        ModuleInfo { block: 0, version: 0, ip: 0, port: 0, name: Vec::new(), uri: Vec::new() }
    }

    pub fn module_passes_rate_limit(&self, netuid: u16, prev_module: &ModuleInfo, current_block: u64) -> (r: bool)
        ensures
            r == serve_allowed(self.serving_rate_limit_of(netuid), prev_module.block, current_block),
    {
        let rate_limit: u64 = match self.find_subnet(netuid) {
            Some(i) => self.subnets[i].serving_rate_limit,
            None => 0,
        };
        !exceeds_rate_limit(prev_module.block, current_block, rate_limit)
    }

    /// Publishes the endpoint of `key` on `netuid` at `current_block`.
    ///
    /// Checks, first failure wins: the subnetwork exists (`NetworkDoesNotExist`);
    /// `key` holds a slot somewhere (`NotRegistered`); the address is valid
    /// (`InvalidIpAddress`); the previous serve is far enough back
    /// (`ServingRateLimitExceeded`).
    pub fn do_serve_module(
        &mut self,
        netuid: u16,
        key: u64,
        name: Vec<u8>,
        ip: u128,
        port: u16,
        uri: Vec<u8>,
        current_block: u64,
    ) -> (r: Result<(), SubspaceError>)
        requires
            old(self).wf(),
        ensures
            final(self).wf(),
            final(self).same_ledger(*old(self)),
            r == (if !old(self).network_exists(netuid) {
                Err(SubspaceError::NetworkDoesNotExist)
            } else if !old(self).registered_anywhere(key) {
                Err(SubspaceError::NotRegistered)
            } else if !valid_ip(ip) {
                Err(SubspaceError::InvalidIpAddress)
            } else if !serve_allowed(
                old(self).serving_rate_limit_of(netuid),
                if old(self).module_served(netuid, key) {
                    old(self).served(netuid, key).block
                } else {
                    0
                },
                current_block,
            ) {
                Err(SubspaceError::ServingRateLimitExceeded)
            } else {
                Ok(())
            }),
            r is Err ==> final(self).subnets@ == old(self).subnets@,
            r is Ok ==> {
                let idx = old(self).net_index(netuid);
                let s = old(self).net(netuid);
                let t = final(self).subnets@[idx];
                let m = module_index(s.modules@, key);
                &&& final(self).subnets@ == old(self).subnets@.update(idx, t)
                &&& t == (Subnet { modules: t.modules, ..s })
                &&& if m >= 0 {
                    &&& t.modules@ == s.modules@.update(m, t.modules@[m])
                    &&& t.modules@[m].0 == key
                    &&& is_served_info(
                        t.modules@[m].1,
                        current_block,
                        s.modules@[m].1.version,
                        ip,
                        port,
                        name@,
                        uri@,
                    )
                } else {
                    &&& t.modules@ == s.modules@.push(t.modules@.last())
                    &&& t.modules@.last().0 == key
                    &&& is_served_info(t.modules@.last().1, current_block, 0, ip, port, name@, uri@)
                }
            },
    {
        let i = match self.find_subnet(netuid) {
            Some(i) => i,
            None => {
                return Err(SubspaceError::NetworkDoesNotExist);
            },
        };
        if !self.is_key_registered_on_any_network(key) {
            return Err(SubspaceError::NotRegistered);
        }
        if !is_valid_ip_address(ip) {
            return Err(SubspaceError::InvalidIpAddress);
        }
        let prev_module = self.get_module_from_key(netuid, key);
        if !self.module_passes_rate_limit(netuid, &prev_module, current_block) {
            return Err(SubspaceError::ServingRateLimitExceeded);
        }
        let info = ModuleInfo {
            block: current_block,
            version: prev_module.version,
            ip,
            port,
            name,
            uri,
        };
        match find_module(&self.subnets[i].modules, key) {
            Some(j) => {
                self.subnets[i].modules[j] = (key, info);
            },
            None => {
                self.subnets[i].modules.push((key, info));
            },
        }
        proof {
            assert(self.subnets@ =~= old(self).subnets@.update(i as int, self.subnets@[i as int]));
            assert forall|a: int| 0 <= a < self.subnets@.len() implies subnet_wf(
                #[trigger] self.subnets@[a],
            ) by {
                assert(subnet_wf(old(self).subnets@[a]));
            }
        }
        Ok(())
    }
}

} // verus!
