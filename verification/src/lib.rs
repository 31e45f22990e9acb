//! Selective disclosure of claim-bearing credentials: the claim-path
//! grammar, the disclosure policy, the presentation builder, the identity
//! resolver's cache discipline and the verification checks, each with a
//! machine-checked contract.

pub mod claim_path;
pub mod claim_tree;
pub mod disclosure;
pub mod document;
pub mod error;
pub mod jwp;
pub mod presentation;
pub mod resolver;
pub mod service_endpoint;
pub mod text;
pub mod timestamp;
pub mod token;
pub mod verification;
