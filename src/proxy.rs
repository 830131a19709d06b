//! The proxy's configuration and its admission check.
use vstd::prelude::*;
use crate::access::{access_decision, check_access, ip_allowed, network_ok, opt_str, opt_text, source_allowed, Denial, IpAddress, IpNetwork};

verus! {

/// The proxy's settings.
#[derive(Debug)]
pub struct Settings {
    pub bird_socket: String,
    pub listen: String,
    pub allowed_nets: Vec<IpNetwork>,
    pub traceroute_bin: Option<String>,
    pub traceroute_flags: Vec<String>,
    pub traceroute_raw: bool,
    pub traceroute_max_concurrent: usize,
    pub bird_restrict_cmds: bool,
    pub auth_enabled: bool,
    pub auth_token: Option<String>,
}

impl Settings {
    pub open spec fn wf(&self) -> bool {
        forall|i: int| 0 <= i < self.allowed_nets@.len() ==> network_ok(#[trigger] self.allowed_nets@[i])
    }

    /// Whether a connection from `remote` may use the proxy.
    pub fn has_access(&self, remote: &IpAddress) -> (r: bool)
        requires
            self.wf(),
        ensures
            r == ip_allowed(self.allowed_nets@, *remote),
    {
        source_allowed(self.allowed_nets.as_slice(), remote)
    }

    /// Admission of a request from `remote` with `authorization` as its
    /// `Authorization` header.
    pub fn check_request(&self, remote: &IpAddress, authorization: Option<&str>) -> (r: Result<(), Denial>)
        requires
            self.wf(),
        ensures
            r == access_decision(
                self.allowed_nets@,
                *remote,
                self.auth_enabled,
                opt_text(self.auth_token),
                opt_str(authorization),
            ),
    {
        check_access(self.allowed_nets.as_slice(), remote, self.auth_enabled, &self.auth_token, authorization)
    }

    /// Admission of a request whose connection may have no IP peer (a Unix
    /// socket): without one, only an empty allow-list lets it past the
    /// address rule, and the token rule still applies.
    pub fn check_peer(&self, peer: Option<IpAddress>, authorization: Option<&str>) -> (r: Result<(), Denial>)
        requires
            self.wf(),
        ensures
            peer matches Some(a) ==> r == access_decision(
                self.allowed_nets@,
                a,
                self.auth_enabled,
                opt_text(self.auth_token),
                opt_str(authorization),
            ),
            peer is None && self.allowed_nets@.len() > 0 ==> r == Err::<(), Denial>(Denial::Forbidden),
            peer is None && self.allowed_nets@.len() == 0 ==> r == access_decision(
                self.allowed_nets@,
                IpAddress { v6: false, bits: 0 },
                self.auth_enabled,
                opt_text(self.auth_token),
                opt_str(authorization),
            ),
    {
        match peer {
            Some(a) => self.check_request(&a, authorization),
            None => {
                if self.allowed_nets.len() > 0 {
                    Err(Denial::Forbidden)
                } else {
                    self.check_request(&IpAddress { v6: false, bits: 0 }, authorization)
                }
            },
        }
    }
}

} // verus!
