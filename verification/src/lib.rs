//! A minimal remote-actuation protocol library: a server issues positional
//! move commands to connected agents over a framed byte stream, tracks each
//! agent's last reported state in a registry, and exchanges structured
//! messages as length-prefixed, self-describing envelopes.

pub mod client;
pub mod codec;
pub mod messages;
pub mod registry;
pub mod session;
