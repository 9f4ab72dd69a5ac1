//! Domain-isolation runtime: cross-domain shared heap, per-domain resource
//! ledger, read-side quiescence barrier and hot-swappable domain proxies.
pub mod error;
pub mod frame;
pub mod heap;
pub mod id;
pub mod proxy;
pub mod resource;
pub mod srcu;
pub mod stack;
pub mod vm;
