//! Verified core of the tubor-yield master-agent minting protocol.
//!
//! A master agent is minted by an instruction that a multisig guards: each
//! signer submits the instruction with the same parameters, the multisig
//! counts the signatures per instruction digest, and the call that
//! completes the threshold creates the agent's record.
//!
//! * [`state::digest`] binds an instruction kind and its serialized
//!   parameters to a SHA-256 digest.
//! * [`state::multisig`] holds the signers, the threshold and the pending
//!   signatures, and counts one signature per call;
//!   [`state::multisig_proofs`] proves what follows for sequences of calls.
//! * [`state::master_agent`] is the record, with its initialization and its
//!   invariant.
//! * [`instructions::mint_master_agent`] serializes the parameters, derives
//!   the addresses of the accounts, and runs the instruction.
//!
//! Every function is verified against its contract. Two calls leave the
//! crate and are believed, not proved: the SHA-256 hash in
//! [`state::digest`] and the derivation of program addresses in
//! [`state::address`]. Of each the contracts assume only that equal inputs
//! give equal results.

pub mod error;
pub mod instructions;
pub mod math;
pub mod state;
