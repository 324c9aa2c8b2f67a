//! The oracle pallet: prices, consensus, staking of nodes and messages.
pub mod call_laws;
pub mod calls;
pub mod certificate_laws;
pub mod consensus;
pub mod consensus_laws;
pub mod finalize;
pub mod finalize_laws;
pub mod laws;
pub mod message_laws;
pub mod messages;
pub mod offchain;
pub mod slashing;
pub mod staking;
pub mod state;
pub mod types;
pub mod vote_laws;

pub use crate::pallet::calls::ProviderChange;
pub use crate::pallet::messages::{OracleMessage, StakingMessage, WithdrawalMessage};
pub use crate::pallet::offchain::OffchainPlan;
pub use crate::pallet::state::{Error, Event, GenesisConfig, Pallet};
pub use crate::pallet::types::{
    AggregationState, IssuedStakingCert, IssuedWithdrawalCert, NodeStakingInfo,
    OracleNodeStakingState, SlashProposal, SlashVote, StakingTerms,
};
