//! Control plane and rendezvous logic of a reverse TCP/UDP tunnel: a server relays user
//! connections on advertised public ports to a client behind NAT, which dials back one
//! tunnel connection per user connection.

pub mod be;
pub mod model;
pub mod frame;
pub mod codec;
pub mod registry;
pub mod supervisor;
pub mod client;
pub mod splice;
pub mod text;
pub mod client_config;
pub mod server_config;
