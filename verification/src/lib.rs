//! Onion-routed messaging between peers: fixed-size layered packets, blinded
//! paths, and a messenger that queues outbound packets per peer.

pub mod blinded_path;
pub mod bytes;
pub mod crypto;
pub mod keys;
pub mod messenger;
pub mod packet;
pub mod payload;
pub mod route;
pub mod stream;
pub mod test_utils;
