//! A policy-gated signing engine for multi-party wallets.
//!
//! The library assembles a canonical multi-signature spending descriptor
//! from a textual cosigner setup record, substitutes one party's public
//! key material with its private counterpart at signing time, and decides,
//! through a fail-closed set of authorization policies, whether a proposed
//! transaction may be signed.

pub mod andonpolicy;
pub mod descriptor;
pub mod orchestrator;
pub mod policy;
pub mod text;
pub mod transaction;
pub mod valuepolicy;
