//! Networking and crash-recovery core of a cross-chain atomic-swap node.
//!
//! The crate holds the decisions of the node and proves them; it opens no
//! file and no socket. A program around it performs the actions that the
//! crate asks for and reports their outcomes.
//!
//! - [`database`]: the swap store, with role-tagged records.
//! - [`network::tor_transport`]: onion addresses and the routing of dials.
//! - [`network::transport`]: the plan of the composed transport.
//! - [`network::request_response`]: the frames of the negotiation protocol.
//! - [`tor`]: authentication with the local daemon and the provisioning of
//!   onion services.

pub mod database;
pub mod keyed;
pub mod network;
pub mod text;
pub mod tor;
