//! `IpAddress` / `NotIpAddress`: context values are IP addresses, policy
//! values are CIDR networks or single addresses.
use vstd::prelude::*;
use crate::ci_map::strings_view;
use crate::text::{has_char, contains_char};

verus! {

/// An IP address as its numeric value.
#[derive(Debug, Clone, Copy)]
pub enum IpAddress {
    V4(u32),
    V6(u128),
}

/// A network: an address and a prefix length.
#[derive(Debug, Clone, Copy)]
pub struct IpNetwork {
    pub addr: IpAddress,
    pub prefix_len: u8,
}

/// The prefix length fits the address family.
pub open spec fn network_valid(n: IpNetwork) -> bool {
    match n.addr {
        IpAddress::V4(_) => n.prefix_len <= 32,
        IpAddress::V6(_) => n.prefix_len <= 128,
    }
}

/// `str::parse::<IpAddr>` of `s`.
pub uninterp spec fn ip_address_of(s: Seq<char>) -> Option<IpAddress>;

/// `str::parse::<ipnet::IpNet>` of `s`.
pub uninterp spec fn ip_network_of(s: Seq<char>) -> Option<IpNetwork>;

/// `str::parse::<IpAddr>`, the address converted to its numeric value. The
/// contract claims only that the result is a function of `s`.
#[verifier::external_body]
fn parse_ip_address(s: &str) -> (r: Option<IpAddress>)
    ensures
        r == ip_address_of(s@),
{
    match s.parse::<core::net::IpAddr>() {
        Ok(core::net::IpAddr::V4(a)) => Some(IpAddress::V4(u32::from(a))),
        Ok(core::net::IpAddr::V6(a)) => Some(IpAddress::V6(u128::from(a))),
        Err(_) => None,
    }
}

/// `str::parse::<ipnet::IpNet>`, converted to address value and prefix
/// length. Besides being a function of `s`, the contract claims what the
/// parser's source shows: the prefix length is at most 32 for IPv4 and 128 for IPv6.
#[verifier::external_body]
fn parse_ip_network(s: &str) -> (r: Option<IpNetwork>)
    ensures
        r == ip_network_of(s@),
        r matches Some(n) ==> network_valid(n),
{
    match s.parse::<ipnet::IpNet>() {
        Ok(ipnet::IpNet::V4(n)) => Some(IpNetwork { addr: IpAddress::V4(u32::from(n.addr())), prefix_len: n.prefix_len() }),
        Ok(ipnet::IpNet::V6(n)) => Some(IpNetwork { addr: IpAddress::V6(u128::from(n.addr())), prefix_len: n.prefix_len() }),
        Err(_) => None,
    }
}

/// `IpNet::from(addr)`: the single-address network.
pub open spec fn host_network(a: IpAddress) -> IpNetwork {
    match a {
        IpAddress::V4(_) => IpNetwork { addr: a, prefix_len: 32 },
        IpAddress::V6(_) => IpNetwork { addr: a, prefix_len: 128 },
    }
}

/// `IpNet::contains(&IpAddr)`: same family, and the address agrees with the
/// network on the first `prefix_len` bits.
pub open spec fn network_contains(n: IpNetwork, ip: IpAddress) -> bool {
    match (n.addr, ip) {
        (IpAddress::V4(a), IpAddress::V4(b)) => n.prefix_len == 0 || (a >> ((32 - n.prefix_len) as u32)) == (b >> ((32 - n.prefix_len) as u32)),
        (IpAddress::V6(a), IpAddress::V6(b)) => n.prefix_len == 0 || (a >> ((128 - n.prefix_len) as u32)) == (b >> ((128 - n.prefix_len) as u32)),
        _ => false,
    }
}

/// The network a policy value names: CIDR text when it holds `/`, else a single address.
pub open spec fn policy_network(pv: Seq<char>) -> Option<IpNetwork> {
    if has_char(pv, '/') {
        ip_network_of(pv)
    } else {
        match ip_address_of(pv) {
            Some(a) => Some(host_network(a)),
            None => None,
        }
    }
}

/// The policy value `pv` names a network holding `ip`.
pub open spec fn value_holds_ip(pv: Seq<char>, ip: IpAddress) -> bool {
    match policy_network(pv) {
        Some(n) => network_contains(n, ip),
        None => false,
    }
}

/// Some policy value names a network holding `ip`.
pub open spec fn in_some_network(ip: IpAddress, pvs: Seq<Seq<char>>) -> bool {
    exists|j: int| 0 <= j < pvs.len() && #[trigger] value_holds_ip(pvs[j], ip)
}

/// The context value `cv` is an address whose membership differs from `negated`.
pub open spec fn address_qualifies(cv: Seq<char>, pvs: Seq<Seq<char>>, negated: bool) -> bool {
    match ip_address_of(cv) {
        Some(ip) => in_some_network(ip, pvs) != negated,
        None => false,
    }
}

/// Some context value is an address whose membership differs from `negated`.
pub open spec fn ip_holds(cvs: Seq<Seq<char>>, pvs: Seq<Seq<char>>, negated: bool) -> bool {
    exists|i: int| 0 <= i < cvs.len() && #[trigger] address_qualifies(cvs[i], pvs, negated)
}

fn network_for(pv: &str) -> (r: Option<IpNetwork>)
    ensures
        r == policy_network(pv@),
        r matches Some(n) ==> network_valid(n),
{
    if contains_char(pv, '/') {
        parse_ip_network(pv)
    } else {
        match parse_ip_address(pv) {
            Some(a) => Some(
                match a {
                    IpAddress::V4(_) => IpNetwork { addr: a, prefix_len: 32 },
                    IpAddress::V6(_) => IpNetwork { addr: a, prefix_len: 128 },
                },
            ),
            None => None,
        }
    }
}

fn contains(n: IpNetwork, ip: IpAddress) -> (r: bool)
    requires
        network_valid(n),
    ensures
        r == network_contains(n, ip),
{
    match (n.addr, ip) {
        (IpAddress::V4(a), IpAddress::V4(b)) => n.prefix_len == 0 || (a >> ((32 - n.prefix_len) as u32)) == (b >> ((32 - n.prefix_len) as u32)),
        (IpAddress::V6(a), IpAddress::V6(b)) => n.prefix_len == 0 || (a >> ((128 - n.prefix_len) as u32)) == (b >> ((128 - n.prefix_len) as u32)),
        _ => false,
    }
}

fn in_networks(ip: IpAddress, policy_values: &[String]) -> (r: bool)
    ensures
        r == in_some_network(ip, strings_view(policy_values@)),
{
    let ghost pv = strings_view(policy_values@);
    let mut j: usize = 0;
    while j < policy_values.len()
        invariant
            j <= policy_values.len(),
            pv == strings_view(policy_values@),
            forall|b: int| 0 <= b < j ==> !#[trigger] value_holds_ip(pv[b], ip),
        decreases policy_values.len() - j,
    {
        match network_for(policy_values[j].as_str()) {
            Some(n) => {
                if contains(n, ip) {
                    proof {
                        assert(value_holds_ip(pv[j as int], ip));
                    }
                    return true;
                }
            },
            None => {},
        }
        j = j + 1;
    }
    false
}

pub fn evaluate(context_values: &[String], policy_values: &[String], negated: bool) -> (r: bool)
    ensures
        r == ip_holds(strings_view(context_values@), strings_view(policy_values@), negated),
{
    let ghost cv = strings_view(context_values@);
    let ghost pv = strings_view(policy_values@);
    let mut i: usize = 0;
    while i < context_values.len()
        invariant
            i <= context_values.len(),
            cv == strings_view(context_values@),
            pv == strings_view(policy_values@),
            forall|a: int| 0 <= a < i ==> !#[trigger] address_qualifies(cv[a], pv, negated),
        decreases context_values.len() - i,
    {
        match parse_ip_address(context_values[i].as_str()) {
            Some(ip) => {
                let contained = in_networks(ip, policy_values);
                if contained != negated {
                    proof {
                        assert(address_qualifies(cv[i as int], pv, negated));
                    }
                    return true;
                }
            },
            None => {},
        }
        i = i + 1;
    }
    false
}

} // verus!
