//! Token economics: supply accounting, vesting, staking, burning and
//! protocol-owned liquidity.
pub mod burn;
pub mod error;
pub mod pol;
pub mod staking;
pub mod supply;
pub mod vesting;

pub use burn::BurnEngine;
pub use error::TokenomicsError;
pub use pol::ProtocolOwnedLiquidity;
pub use staking::{StakeInfo, StakingPool};
pub use supply::{TokenSupply, TOTAL_SUPPLY};
pub use vesting::{VestingEntry, VestingSchedule};
