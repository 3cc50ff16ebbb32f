//! Peer-to-peer networking: addressing, dial routing, the plan of the
//! composed transport and message framing.

pub mod request_response;
pub mod tor_transport;
pub mod transport;
