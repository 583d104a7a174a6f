//! View-synchronized consensus phases: transaction batching, verifiable
//! information dispersal (VID), vote accumulation into threshold certificates,
//! and the shared ledger state that phase tasks read and mutate.

pub mod certificate;
pub mod commitment;
pub mod consensus;
pub mod crypto;
pub mod data;
pub mod dispersal;
pub mod events;
pub mod network_config;
pub mod phase;
pub mod pool;
pub mod state;
pub mod transactions;
pub mod vid;
pub mod vote;
