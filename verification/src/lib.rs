//! Rendezvous and relay logic for punching UDP holes between two peers.
//!
//! Two clients that share a name announce their UDP ports to a server, which
//! passes each announcement on to the other client, together with the address
//! it came from. Each client then sends empty datagrams ("bubbles") towards
//! the other one's ports, which opens the way through address translators, and
//! relays the traffic of a local application through whichever ports are
//! alive.
//!
//! Sockets, the clock and the encoding of messages are the caller's: every
//! function here takes what was received and says what to send.
pub mod actor;
pub mod addr;
pub mod advert;
pub mod cache;
pub mod expiry;
pub mod history;
pub mod limiter;
pub mod metrics;
pub mod options;
pub mod ports;
pub mod random;
pub mod registry;
pub mod server;
pub mod stun;
pub mod wire;
