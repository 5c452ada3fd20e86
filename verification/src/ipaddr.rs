//! The resolved public address: two independent discovery methods must agree
//! before an address is accepted. The discovery itself (a UDP probe and an
//! interface enumeration) happens outside the library; the agreement check
//! and the selection among enumerated interfaces are verified.

use vstd::prelude::*;
use crate::text::str_eq;

verus! {

/// The address family a resolution is asked for.
pub enum IPAddr {
    IPV4,
    IPV6,
}

/// The two discovery methods disagreed: the outbound-probe address and the
/// interface-enumeration address, kept for the error message.
pub struct IpMismatch {
    pub local: String,
    pub net: String,
}

/// A source of one resolved, double-checked address.
pub trait IpOprator {
    spec fn addr_spec(&self) -> Seq<char>;

    fn get_addr(&self) -> (r: String)
        ensures
            r@ == self.addr_spec(),
    ;
}

/// An IPv4 address that both discovery methods agreed on.
pub struct Ipv4DDNS {
    ip: String,
}

/// An IPv6 address that both discovery methods agreed on.
pub struct Ipv6DDNS {
    ip: String,
}

impl Ipv4DDNS {
    /// Accepts the interface-enumeration address only when the outbound-probe
    /// address equals it; a mismatch is a configuration error, reported with
    /// both addresses.
    pub fn new(local_ip: String, net_ip: String) -> (r: Result<Ipv4DDNS, IpMismatch>)
        ensures
            r is Ok <==> local_ip@ == net_ip@,
            r matches Ok(v) ==> v.addr_spec() == local_ip@,
            r matches Err(e) ==> e.local@ == local_ip@ && e.net@ == net_ip@,
    {
        if str_eq(local_ip.as_str(), net_ip.as_str()) {
            Result::Ok(Ipv4DDNS { ip: local_ip })
        } else {
            Result::Err(IpMismatch { local: local_ip, net: net_ip })
        }
    }
}

impl IpOprator for Ipv4DDNS {
    closed spec fn addr_spec(&self) -> Seq<char> {
        self.ip@
    }

    fn get_addr(&self) -> (r: String) {
        self.ip.clone()
    }
}

impl Ipv6DDNS {
    /// Accepts the interface-enumeration address only when the outbound-probe
    /// address equals it; a mismatch is a configuration error, reported with
    /// both addresses.
    pub fn new(local_ip: String, net_ip: String) -> (r: Result<Ipv6DDNS, IpMismatch>)
        ensures
            r is Ok <==> local_ip@ == net_ip@,
            r matches Ok(v) ==> v.addr_spec() == local_ip@,
            r matches Err(e) ==> e.local@ == local_ip@ && e.net@ == net_ip@,
    {
        if str_eq(local_ip.as_str(), net_ip.as_str()) {
            Result::Ok(Ipv6DDNS { ip: local_ip })
        } else {
            Result::Err(IpMismatch { local: local_ip, net: net_ip })
        }
    }
}

impl IpOprator for Ipv6DDNS {
    closed spec fn addr_spec(&self) -> Seq<char> {
        self.ip@
    }

    fn get_addr(&self) -> (r: String) {
        self.ip.clone()
    }
}

/// A resolved address of either family.
pub enum DDNSIP {
    Ipv4(Ipv4DDNS),
    Ipv6(Ipv6DDNS),
}

impl DDNSIP {
    pub open spec fn addr_view(&self) -> Seq<char> {
        match self {
            DDNSIP::Ipv4(x) => x.addr_spec(),
            DDNSIP::Ipv6(x) => x.addr_spec(),
        }
    }

    /// The resolved address, whichever family it belongs to.
    pub fn get_addr(&self) -> (r: String)
        ensures
            r@ == self.addr_view(),
    {
        match self {
            DDNSIP::Ipv4(x) => x.get_addr(),
            DDNSIP::Ipv6(x) => x.get_addr(),
        }
    }
}

/// One enumerated local network interface: its name, its address, and
/// whether that address is an IPv6 one.
pub struct NetInterface {
    pub name: String,
    pub addr: String,
    pub is_v6: bool,
}

pub open spec fn interface_views(s: Seq<NetInterface>) -> Seq<(Seq<char>, Seq<char>, bool)> {
    Seq::new(s.len(), |i: int| (s[i].name@, s[i].addr@, s[i].is_v6))
}

/// The address of the first IPv6 entry of the interface named `name`.
pub open spec fn first_v6_addr(ifas: Seq<(Seq<char>, Seq<char>, bool)>, name: Seq<char>) -> Option<
    Seq<char>,
>
    decreases ifas.len(),
{
    if ifas.len() == 0 {
        Option::None
    } else if ifas[0].0 == name && ifas[0].2 {
        Option::Some(ifas[0].1)
    } else {
        first_v6_addr(ifas.drop_first(), name)
    }
}

/// Selects the IPv6 address of the designated interface from the enumerated
/// interfaces; none when that interface has no IPv6 address.
pub fn find_v6_addr(ifas: &Vec<NetInterface>, name: &str) -> (r: Option<String>)
    ensures
        match r {
            Option::Some(a) => first_v6_addr(interface_views(ifas@), name@) == Option::Some(a@),
            Option::None => first_v6_addr(interface_views(ifas@), name@) is None,
        },
{
    let ghost iv = interface_views(ifas@);
    let mut i: usize = 0;
    proof {
        assert(iv.skip(0) =~= iv);
    }
    while i < ifas.len()
        invariant
            i <= ifas.len(),
            iv == interface_views(ifas@),
            iv.len() == ifas.len(),
            first_v6_addr(iv, name@) == first_v6_addr(iv.skip(i as int), name@),
        decreases ifas.len() - i,
    {
        if ifas[i].is_v6 && str_eq(ifas[i].name.as_str(), name) {
            return Option::Some(ifas[i].addr.clone());
        }
        proof {
            assert(iv.skip(i as int).drop_first() =~= iv.skip(i as int + 1));
        }
        i = i + 1;
    }
    Option::None
}

} // verus!
