use vstd::prelude::*;
use crate::message::IpAddress;

verus! {

/// A block of addresses: those whose first `prefix_len` bits equal those of `addr`.
#[derive(Clone, Copy, Debug, PartialEq, Eq, Structural)]
pub struct Cidr {
    pub addr: IpAddress,
    pub prefix_len: u8,
}

/// Whether `a` and `b` agree on their first `p` bits (all 32 when `p >= 32`).
pub open spec fn same_prefix_v4(a: u32, b: u32, p: u8) -> bool {
    if p == 0 {
        true
    } else if p >= 32 {
        a == b
    } else {
        (a >> ((32 - p) as u32)) == (b >> ((32 - p) as u32))
    }
}

/// Whether `a` and `b` agree on their first `p` bits (all 128 when `p >= 128`).
pub open spec fn same_prefix_v6(a: u128, b: u128, p: u8) -> bool {
    if p == 0 {
        true
    } else if p >= 128 {
        a == b
    } else {
        (a >> ((128 - p) as u128)) == (b >> ((128 - p) as u128))
    }
}

/// Whether the block `c` holds `ip`: same family, same leading bits.
pub open spec fn cidr_holds(c: Cidr, ip: IpAddress) -> bool {
    match (c.addr, ip) {
        (IpAddress::V4(n), IpAddress::V4(a)) => same_prefix_v4(n, a, c.prefix_len),
        (IpAddress::V6(n), IpAddress::V6(a)) => same_prefix_v6(n, a, c.prefix_len),
        _ => false,
    }
}

impl Cidr {
    /// The block that holds `ip` alone.
    pub fn host(ip: IpAddress) -> (r: Cidr)
        ensures
            r.addr == ip,
            r.prefix_len == match ip {
                IpAddress::V4(_) => 32u8,
                IpAddress::V6(_) => 128u8,
            },
    {
        match ip {
            IpAddress::V4(_) => Cidr { addr: ip, prefix_len: 32 },
            IpAddress::V6(_) => Cidr { addr: ip, prefix_len: 128 },
        }
    }

    pub fn contains(&self, ip: IpAddress) -> (r: bool)
        ensures
            r == cidr_holds(*self, ip),
    {
        match (self.addr, ip) {
            (IpAddress::V4(n), IpAddress::V4(a)) => {
                let p = self.prefix_len;
                if p == 0 {
                    true
                } else if p >= 32 {
                    n == a
                } else {
                    let s: u32 = (32 - p) as u32;
                    (n >> s) == (a >> s)
                }
            },
            (IpAddress::V6(n), IpAddress::V6(a)) => {
                let p = self.prefix_len;
                if p == 0 {
                    true
                } else if p >= 128 {
                    n == a
                } else {
                    let s: u128 = (128 - p) as u128;
                    (n >> s) == (a >> s)
                }
            },
            _ => false,
        }
    }
}

/// What ipnet reads from a text of the form `address/prefix`.
pub uninterp spec fn cidr_text(s: Seq<char>) -> Option<Cidr>;

/// What the standard library reads from an IP address text.
pub uninterp spec fn address_text(s: Seq<char>) -> Option<IpAddress>;

/// Relies on ipnet's `FromStr` for `IpNet`: the block, with a prefix no wider than its address.
#[verifier::external_body]
pub(crate) fn parse_cidr(s: &str) -> (r: Option<Cidr>)
    ensures
        r == cidr_text(s@),
        r matches Some(c) ==> match c.addr {
            IpAddress::V4(_) => c.prefix_len <= 32,
            IpAddress::V6(_) => c.prefix_len <= 128,
        },
{
    match s.parse::<ipnet::IpNet>() {
        Ok(ipnet::IpNet::V4(n)) => Some(Cidr { addr: IpAddress::V4(u32::from(n.addr())), prefix_len: n.prefix_len() }),
        Ok(ipnet::IpNet::V6(n)) => Some(Cidr { addr: IpAddress::V6(u128::from(n.addr())), prefix_len: n.prefix_len() }),
        Err(_) => None,
    }
}

/// Relies on `FromStr` for `IpAddr`: the address a dotted-quad or IPv6 text spells.
#[verifier::external_body]
pub(crate) fn parse_address(s: &str) -> (r: Option<IpAddress>)
    ensures
        r == address_text(s@),
{
    match s.parse::<core::net::IpAddr>() {
        Ok(core::net::IpAddr::V4(a)) => Some(IpAddress::V4(u32::from(a))),
        Ok(core::net::IpAddr::V6(a)) => Some(IpAddress::V6(u128::from(a))),
        Err(_) => None,
    }
}

} // verus!
