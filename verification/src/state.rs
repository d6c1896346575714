//! The protocol's persistent state and the values it is built from.

pub mod address;
pub mod digest;
pub mod master_agent;
pub mod multisig;
pub mod multisig_proofs;
pub mod signer_bitmap;
