//! Host-side bridge to independently compiled native modules.
//!
//! The verified core of the bridge: the module registry, the wire encoding of
//! payloads, the settlement of a module's reply under the ownership-transfer
//! protocol, the streaming callback route, and the bookkeeping of module
//! discovery. Opening libraries and calling through their entry points is left
//! to the host, which hands the results to these functions as plain values.
pub mod discovery;
pub mod dispatch;
pub mod registry;
pub mod stream;
pub mod text;
pub mod wire;
