//! The client↔agent remote runtime: the capability negotiation contract and the typed errors an
//! agent service reports. The framed transport and the processes live outside the library.
pub mod agent;
pub mod client;
pub mod error;
pub mod protocol;
pub mod transport;
