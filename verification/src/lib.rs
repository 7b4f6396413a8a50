//! The state of a Bitcoin chain kept by a node that holds no UTXO set: headers live in a store,
//! unspent outputs in a Utreexo accumulator.

pub mod accumulator;
pub mod answers;
pub mod best_chain;
pub mod chain_state;
pub mod connect;
pub mod encoding;
pub mod error;
pub mod hash;
pub mod laws;
pub mod leaf;
pub mod locator;
pub mod lookup;
pub mod notification;
pub mod outcomes;
pub mod params;
pub mod pow;
pub mod primitives;
pub mod store;
pub mod uint;
pub mod utxo;
