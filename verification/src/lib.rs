//! A configuration-reconciliation library.
//!
//! The library compares a declared desired state of a machine against its
//! actual state, stages the difference in a version-controlled "shadow"
//! working tree, and plans the application of approved changes back to
//! reality. Its verified core covers the slash-path router, the desired-state
//! script model and its validation, the line-oriented effector wire protocol,
//! the effector registry, and the planning logic of the three reconciliation
//! phases (check, draft, apply).

pub mod strutil;
pub mod paths;
pub mod percent;
pub mod protocol;
pub mod script;
pub mod config;
pub mod effectors;
pub mod casefold;
pub mod engine;
pub mod manaprotocol;
pub mod winfeat;
pub mod zeroinstall;
pub mod scp;
pub mod ssh;
pub mod handlers;
