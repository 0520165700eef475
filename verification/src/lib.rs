//! Finds and cross-references the secrets that a set of rendered Kubernetes
//! manifests refers to, and maps them onto paths of a Vault key/value store.

pub mod chart;
pub mod export;
pub mod generate;
pub mod groups;
pub mod haystack;
pub mod report;
pub mod sequences;
pub mod split;
pub mod text;
pub mod tree;
pub mod vault;
pub mod vault_path;
pub mod verify;
pub mod yaml;
