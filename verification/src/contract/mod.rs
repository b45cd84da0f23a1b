pub mod canonical;
pub mod models;
pub mod sha;
pub mod store;

pub use canonical::canonical_value;
pub use models::{Contract, ExecutionMode};
pub use sha::{ContractSha, ContractShaParseError};
pub use store::{ContractStore, ContractStoreError, FilesystemContractStore};
