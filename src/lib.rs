//! A registry of subnetworks whose participants register into capacity-bounded
//! slots, stake, and receive periodically computed emission.
pub mod block_step;
pub mod module;
pub mod network;
pub mod params;
pub mod registration;
pub mod rpc;
pub mod serving;
pub mod staking;
pub mod state;
pub mod utils;

pub use block_step::blocks_until_next_epoch;
pub use module::{ModuleInfoLite, ModuleNetworkData};
pub use network::Network;
pub use rpc::{Error, SubspaceCustom};
pub use staking::Currency;
pub use state::{Account, ModuleInfo, Pallet, Slot, Subnet, SubspaceError};
pub use utils::exceeds_rate_limit;
