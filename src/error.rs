use crate::reply::RpcReply;
use vstd::prelude::*;

verus! {

/// Errors of the NETCONF client.
#[derive(Debug)]
#[allow(inconsistent_fields)]
pub enum NetconfClientError {
    /// Socket, channel or operating-system failure, with its description.
    Io(String),
    /// SSH handshake, authentication or channel setup failure.
    Ssh(String),
    /// Malformed XML, a missing required element or attribute, or an unknown
    /// enumerated value.
    SerializingFailure(String),
    /// A well-formed reply that carries one or more `rpc-error` records.
    Netconf(RpcReply),
    /// A chunk header that breaks the chunked framing grammar.
    MalformedChunk { expected: char, actual: char },
    /// A datastore name that is none of the known ones.
    UnknownDatastore { expected: Vec<String>, unknown: String },
    /// Anything else, as a free-form message.
    Protocol(String),
}

impl NetconfClientError {
    /// A free-form error.
    pub fn new(msg: String) -> (r: NetconfClientError)
        ensures
            r == NetconfClientError::Protocol(msg),
    {
        NetconfClientError::Protocol(msg)
    }
}

} // verus!
