use crate::error::NetconfClientError;
use crate::reply::{parse_decimal, parse_u64};
use crate::scan::{chars_of, find_chars, find_from, push_chars};
use vstd::prelude::*;
use vstd::string::StringExecFns;

verus! {

/// The NETCONF-over-SSH port (RFC 6242).
pub const NETCONF_PORT: u16 = 830;

/// Host and port of an address `host` or `host:port`: without a colon the
/// port is 830; otherwise the text after the first colon is the decimal port.
pub open spec fn address_parts(addr: Seq<char>) -> Option<(Seq<char>, u16)> {
    match find_from(addr, seq![':'], 0) {
        None => Some((addr, 830u16)),
        Some(c) => match parse_u64(addr.subrange(c + 1, addr.len() as int)) {
            Some(p) => if p <= u16::MAX {
                Some((addr.subrange(0, c), p as u16))
            } else {
                None
            },
            None => None,
        },
    }
}

/// Splits an address into host and port.
pub fn parse_address(addr: &str) -> (r: Result<(String, u16), NetconfClientError>)
    ensures
        r matches Ok((h, p)) ==> address_parts(addr@) == Some((h@, p)),
        r is Err <==> address_parts(addr@) is None,
{
    let c = chars_of(addr);
    let colon: [char; 1] = [':'];
    proof {
        assert(colon@ =~= seq![':']);
    }
    match find_chars(c.as_slice(), colon.as_slice(), 0) {
        None => Ok((String::from_str(addr), NETCONF_PORT)),
        Some(k) => {
            let n = c.len();
            proof {
                crate::scan::lemma_find_from(c@, seq![':'], 0);
            }
            let port = match parse_decimal(&c.as_slice()[k + 1..n]) {
                Some(p) => p,
                None => {
                    return Err(NetconfClientError::Protocol(String::from_str("invalid port")));
                },
            };
            if port > 65535 {
                return Err(NetconfClientError::Protocol(String::from_str("invalid port")));
            }
            let mut host = String::new();
            push_chars(&mut host, c.as_slice(), 0, k);
            proof {
                assert(host@ =~= c@.subrange(0, k as int));
            }
            Ok((host, port as u16))
        },
    }
}

/// Where and as whom to connect to one device.
#[derive(Debug)]
pub struct Host {
    pub address: String,
    pub port: u16,
    pub auth_user: String,
    pub auth_password: Option<String>,
}

/// Whether an address names its port.
pub open spec fn names_port(addr: Seq<char>) -> bool {
    find_from(addr, seq![':'], 0) is Some
}

impl Host {
    /// A host from its address, credentials and SSH configuration. The
    /// configuration's host name replaces the address's host; its port
    /// applies where the address names none. The user given on the command
    /// line wins over the one of the SSH configuration; without a password
    /// an identity file must be configured.
    pub fn new(
        addr: &str,
        username: Option<String>,
        password: Option<String>,
        config_user: Option<String>,
        has_identity_file: bool,
        config_host_name: Option<String>,
        config_port: Option<u16>,
    ) -> (r: Result<Host, NetconfClientError>)
        ensures
            r matches Ok(h) ==> address_parts(addr@) matches Some((host, port)) && h.address@ == (
            match config_host_name {
                Some(n) => n@,
                None => host,
            }) && h.port == (if names_port(addr@) {
                port
            } else {
                match config_port {
                    Some(p) => p,
                    None => port,
                }
            }) && h.auth_user == (match username {
                Some(u) => u,
                None => config_user.unwrap(),
            }) && h.auth_password == password,
            r is Ok <==> (address_parts(addr@) is Some && (username is Some || config_user is Some)
                && (password is Some || has_identity_file)),
    {
        let (parsed_host, parsed_port) = parse_address(addr)?;
        let auth_user = match username {
            Some(u) => u,
            None => match config_user {
                Some(u) => u,
                None => {
                    return Err(NetconfClientError::Protocol(String::from_str("No username provided")));
                },
            },
        };
        if password.is_none() && !has_identity_file {
            return Err(
                NetconfClientError::Protocol(
                    String::from_str("No password or identity file provided"),
                ),
            );
        }
        let address = match config_host_name {
            Some(n) => n,
            None => parsed_host,
        };
        let c = chars_of(addr);
        let colon: [char; 1] = [':'];
        proof {
            assert(colon@ =~= seq![':']);
        }
        let port = if find_chars(c.as_slice(), colon.as_slice(), 0).is_some() {
            parsed_port
        } else {
            match config_port {
                Some(p) => p,
                None => parsed_port,
            }
        };
        Ok(Host { address, port, auth_user, auth_password: password })
    }
}

} // verus!
