//! A NETCONF (RFC 6241) client core: message framing for both base
//! protocol versions (RFC 6242), the XML codec for hello, request envelopes
//! and replies, and the session state machine that drives a transport.
use vstd::prelude::*;

pub mod envelope;
pub mod error;
pub mod framer;
pub mod host;
pub mod message;
pub mod reply;
pub mod scan;
pub mod session;
pub mod xml;

verus! {

/// Namespace of the NETCONF base protocol.
pub const NETCONF_URN: &'static str = "urn:ietf:params:xml:ns:netconf:base:1.0";

/// Capability advertising base protocol 1.0 (end-of-message framing).
pub const NETCONF_BASE_10_CAP: &'static str = "urn:ietf:params:netconf:base:1.0";

/// Capability advertising base protocol 1.1 (chunked framing).
pub const NETCONF_BASE_11_CAP: &'static str = "urn:ietf:params:netconf:base:1.1";

} // verus!
