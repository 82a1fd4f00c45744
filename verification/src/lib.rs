//! The desired routing configuration of a reverse-proxy cluster: virtual-host
//! fronts, backend instances and TLS certificates, with the commands that
//! move a proxy from one configuration to another.
//!
//! - [`messages`] holds the entities and the orders.
//! - [`state`] holds the configuration state: it follows an order, dumps
//!   itself as orders, and gives the orders that lead to another state.
//! - [`model`] says in mathematics what those three do, and [`laws`] and
//!   [`soundness`] prove what follows from it.
//! - [`routing`] makes a state from the routing rules of the applications;
//!   [`authority`] reads the addresses written in them, and [`chain`] splits
//!   a chain of certificates.
//! - [`certificate`] computes the fingerprint of a certificate.
//! - [`list_map`] is the map that the state keeps its tables in, and
//!   [`value`] says what its keys and values must offer.
//! - [`table`] holds how a list of entities takes an item and how the orders
//!   of a table are written; [`listing`], [`entities`] and [`groups`] hold the
//!   steps of the proofs.

pub mod authority;
pub mod certificate;
pub mod chain;
pub mod entities;
pub mod groups;
pub mod laws;
pub mod list_map;
pub mod listing;
pub mod messages;
pub mod model;
pub mod routing;
pub mod soundness;
pub mod state;
pub mod table;
pub mod value;
