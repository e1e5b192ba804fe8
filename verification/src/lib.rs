//! Core of a replicated stablecoin ledger: the transaction state machine, the
//! Merkle Patricia Trie that commits its state, and block assembly.
//!
//! The ledger keeps a senior, peg-targeted unit (LUSD), a junior,
//! risk-absorbing unit (LJUN) and a native gas unit. Replicas apply the same
//! signed transactions in the same order and must reach the same state, byte
//! for byte. Everything here is therefore a function of its inputs alone:
//! amounts are 64-bit integers with checked arithmetic, ratios are integers in
//! parts per million, mappings are kept in ascending order of key.
//!
//! - [`state`], [`instruction`], [`transaction`], [`block`], [`views`]: the data
//!   model.
//! - [`execution`], [`stability`]: what each instruction does to the state, and
//!   the reserve ratio, circuit breaker and health index that gate it.
//! - [`merkle`], [`trie_node`], [`trie_build`]: the trie, its root and its
//!   proofs.
//! - [`consensus`]: one tick of block assembly.
//! - [`wire`], [`wire_list`], [`wire_map`], [`instruction_codec`],
//!   [`state_codec`]: the wire format, little-endian with length prefixes.
//! - [`layout`]: the keys under which a node persists state and blocks.
//! - [`hashing`], [`signatures`], [`zk`]: digests, signatures and the verdicts
//!   on bundled proofs.
//! - [`execution_laws`], [`supply_laws`], [`trie_laws`],
//!   [`replication_laws`]: what holds of all of the above, proved.

pub mod block;
pub mod byte_order;
pub mod consensus;
pub mod execution;
pub mod execution_laws;
pub mod genesis;
pub mod hashing;
pub mod instruction;
pub mod instruction_codec;
pub mod layout;
pub mod merkle;
pub mod oracles;
pub mod replication_laws;
pub mod signatures;
pub mod sorted_map;
pub mod stability;
pub mod state;
pub mod state_codec;
pub mod supply_laws;
pub mod transaction;
pub mod trie_build;
pub mod trie_laws;
pub mod trie_node;
pub mod views;
pub mod wire;
pub mod wire_list;
pub mod wire_map;
pub mod zk;
