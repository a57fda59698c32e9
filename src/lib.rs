//! A registry of non-fungible tokens: which account owns which token, what
//! metadata each token carries, and which accounts may act for an owner.

pub mod account;
pub mod approvals;
pub mod contract;
pub mod laws;
pub mod metadata;
pub mod registry;

pub use account::AccountId;
pub use approvals::{Approval, ApprovalTable};
pub use contract::{storage_refund, Contract, NftError, Token};
pub use metadata::{ContractMetadata, TokenMetadata};
pub use registry::Registry;
