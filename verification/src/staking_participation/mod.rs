//! The staking participation pallet: how operators join, stake, retire and are slashed.
pub mod call_laws;
pub mod laws;
pub mod pallet;
pub mod types;

pub use crate::staking_participation::pallet::{Error, Event, GenesisConfig, Pallet};
pub use crate::staking_participation::types::{
    CardanoStakeReference, GovernanceConfig, OperatorRecord, OperatorStatus, SlashProposal,
    StakingCertificate,
};
