//! A causally consistent object memory: slabs hold memos, the immutable
//! records of an append-only causal graph, and exchange them with peers.
pub mod memo;
pub mod memoref;
pub mod slab;
pub mod causal;
pub mod network;
pub mod simulator;
pub mod codec;
pub mod transport;
