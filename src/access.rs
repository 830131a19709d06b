//! Admission control in front of the proxy: the connection's source address
//! must lie in an allowed network, and a bearer token may be required.
use vstd::prelude::*;
use vstd::arithmetic::div_mod::lemma_basic_div;
use vstd::arithmetic::power2::{lemma2_to64, lemma_pow2_adds, pow2};
use vstd::bits::lemma_u128_shr_is_div;
use crate::text::{push_str, same_text, text_from_chars};

verus! {

/// An IP address: IPv4 in the low 32 bits, or IPv6.
#[derive(Debug, Clone, Copy, PartialEq, Eq, Structural)]
pub struct IpAddress {
    pub v6: bool,
    pub bits: u128,
}

/// A network prefix: the address and how many leading bits are fixed.
#[derive(Debug, Clone, Copy, PartialEq, Eq, Structural)]
pub struct IpNetwork {
    pub v6: bool,
    pub addr: u128,
    pub prefix_len: u8,
}

/// Bits in an address of the family.
pub open spec fn family_width(v6: bool) -> nat {
    if v6 {
        128
    } else {
        32
    }
}

pub open spec fn network_ok(n: IpNetwork) -> bool {
    n.prefix_len as nat <= family_width(n.v6) && (!n.v6 ==> n.addr < 0x1_0000_0000)
}

/// `a` lies in `n`: same family, and the first `prefix_len` bits agree.
pub open spec fn net_contains(n: IpNetwork, a: IpAddress) -> bool {
    let host = (family_width(n.v6) - n.prefix_len as nat) as nat;
    n.v6 == a.v6 && a.bits as nat / pow2(host) == n.addr as nat / pow2(host)
}

impl IpNetwork {
    /// Whether `a` lies in this network.
    pub fn contains(&self, a: &IpAddress) -> (r: bool)
        requires
            network_ok(*self),
        ensures
            r == net_contains(*self, *a),
    {
        if self.v6 != a.v6 {
            return false;
        }
        let width: u8 = if self.v6 { 128 } else { 32 };
        let host: u8 = width - self.prefix_len;
        if host >= 128 {
            proof {
                lemma2_to64();
                lemma_pow2_adds(64, 64);
                assert(pow2(128) == 0x1_0000_0000_0000_0000_0000_0000_0000_0000);
                lemma_basic_div(a.bits as int, pow2(128) as int);
                lemma_basic_div(self.addr as int, pow2(128) as int);
            }
            return true;
        }
        proof {
            lemma_u128_shr_is_div(a.bits, host as u128);
            lemma_u128_shr_is_div(self.addr, host as u128);
        }
        (a.bits >> (host as u128)) == (self.addr >> (host as u128))
    }
}

/// Why a request is refused.
#[derive(Debug, Clone, Copy, PartialEq, Eq, Structural)]
pub enum Denial {
    /// The source address is in no allowed network.
    Forbidden,
    /// The bearer token is missing or wrong.
    Unauthorized,
    /// Tokens are required but none is configured.
    Misconfigured,
}

/// An empty list admits every address; otherwise one network must hold it.
pub open spec fn ip_allowed(allowed: Seq<IpNetwork>, a: IpAddress) -> bool {
    allowed.len() == 0 || exists|i: int| 0 <= i < allowed.len() && net_contains(allowed[i], a)
}

/// The admission rule: the source address first, then the bearer token when
/// tokens are required.
pub open spec fn access_decision(
    allowed: Seq<IpNetwork>,
    source: IpAddress,
    auth_enabled: bool,
    token: Option<Seq<char>>,
    header: Option<Seq<char>>,
) -> Result<(), Denial> {
    if !ip_allowed(allowed, source) {
        Err(Denial::Forbidden)
    } else if !auth_enabled {
        Ok(())
    } else {
        match token {
            None => Err(Denial::Misconfigured),
            Some(t) => if header == Some("Bearer "@ + t) {
                Ok(())
            } else {
                Err(Denial::Unauthorized)
            },
        }
    }
}

pub open spec fn opt_text(o: Option<String>) -> Option<Seq<char>> {
    match o {
        Some(s) => Some(s@),
        None => None,
    }
}

pub open spec fn opt_str(o: Option<&str>) -> Option<Seq<char>> {
    match o {
        Some(s) => Some(s@),
        None => None,
    }
}

/// Whether some network of `allowed` holds `source`, or the list is empty.
pub fn source_allowed(allowed: &[IpNetwork], source: &IpAddress) -> (r: bool)
    requires
        forall|i: int| 0 <= i < allowed@.len() ==> network_ok(#[trigger] allowed@[i]),
    ensures
        r == ip_allowed(allowed@, *source),
{
    if allowed.len() == 0 {
        return true;
    }
    let mut i: usize = 0;
    while i < allowed.len()
        invariant
            i <= allowed@.len(),
            forall|k: int| 0 <= k < allowed@.len() ==> network_ok(#[trigger] allowed@[k]),
            forall|k: int| 0 <= k < i ==> !net_contains(#[trigger] allowed@[k], *source),
        decreases allowed@.len() - i,
    {
        if allowed[i].contains(source) {
            return true;
        }
        i = i + 1;
    }
    false
}

/// Decides whether a request is admitted: `source` is the connection's own
/// peer address, `header` the `Authorization` header if sent.
pub fn check_access(
    allowed: &[IpNetwork],
    source: &IpAddress,
    auth_enabled: bool,
    token: &Option<String>,
    header: Option<&str>,
) -> (r: Result<(), Denial>)
    requires
        forall|i: int| 0 <= i < allowed@.len() ==> network_ok(#[trigger] allowed@[i]),
    ensures
        r == access_decision(allowed@, *source, auth_enabled, opt_text(*token), opt_str(header)),
{
    if !source_allowed(allowed, source) {
        return Err(Denial::Forbidden);
    }
    if !auth_enabled {
        return Ok(());
    }
    match token {
        None => Err(Denial::Misconfigured),
        Some(t) => {
            let mut expected: Vec<char> = Vec::new();
            push_str(&mut expected, "Bearer ");
            push_str(&mut expected, t.as_str());
            let expected = text_from_chars(expected.as_slice());
            match header {
                Some(h) => {
                    if same_text(h, expected.as_str()) {
                        Ok(())
                    } else {
                        Err(Denial::Unauthorized)
                    }
                },
                None => Err(Denial::Unauthorized),
            }
        },
    }
}


/// The admission rules: with an empty allow-list and no tokens every source
/// is admitted; a non-empty list admits exactly the sources that one of its
/// networks holds; with tokens required, an admitted source passes with the
/// header `Bearer <token>` and is refused as unauthorized otherwise; tokens
/// required with none configured is a misconfiguration.
pub proof fn lemma_access_rules(
    allowed: Seq<IpNetwork>,
    source: IpAddress,
    auth_enabled: bool,
    token: Option<Seq<char>>,
    header: Option<Seq<char>>,
)
    ensures
        allowed.len() == 0 && !auth_enabled ==> access_decision(allowed, source, auth_enabled, token, header)
            == Ok::<(), Denial>(()),
        allowed.len() > 0 ==> (access_decision(allowed, source, auth_enabled, token, header) == Err::<
            (),
            Denial,
        >(Denial::Forbidden) <==> !exists|i: int| 0 <= i < allowed.len() && net_contains(allowed[i], source)),
        allowed.len() > 0 && !auth_enabled ==> (access_decision(allowed, source, auth_enabled, token, header)
            == Ok::<(), Denial>(()) <==> exists|i: int| 0 <= i < allowed.len() && net_contains(allowed[i], source)),
        ip_allowed(allowed, source) && auth_enabled && token is None ==> access_decision(
            allowed,
            source,
            auth_enabled,
            token,
            header,
        ) == Err::<(), Denial>(Denial::Misconfigured),
        ip_allowed(allowed, source) && auth_enabled && token is Some ==> (header == Some("Bearer "@ + token->0)
            ==> access_decision(allowed, source, auth_enabled, token, header) == Ok::<(), Denial>(())),
        ip_allowed(allowed, source) && auth_enabled && token is Some ==> (header != Some("Bearer "@ + token->0)
            ==> access_decision(allowed, source, auth_enabled, token, header) == Err::<(), Denial>(
            Denial::Unauthorized,
        )),
{
}

} // verus!
