//! Which IP addresses an outbound request may reach: loopback, unspecified, private and
//! link-local addresses are refused (an IPv4-mapped IPv6 address is judged as IPv4).
use vstd::prelude::*;

verus! {

/// An IPv4 address by its four octets.
#[derive(Clone, Copy, Debug)]
pub struct Ipv4 {
    pub octets: [u8; 4],
}

/// An IPv6 address by its eight 16-bit segments.
#[derive(Clone, Copy, Debug)]
pub struct Ipv6 {
    pub segments: [u16; 8],
}

/// An IP address of either family.
#[derive(Clone, Copy, Debug)]
pub enum IpAddr {
    V4(Ipv4),
    V6(Ipv6),
}

impl Ipv4 {
    /// `127.0.0.0/8`.
    pub open spec fn loopback(&self) -> bool {
        self.octets@[0] == 127
    }

    /// `0.0.0.0`.
    pub open spec fn unspecified(&self) -> bool {
        self.octets@[0] == 0 && self.octets@[1] == 0 && self.octets@[2] == 0 && self.octets@[3] == 0
    }

    /// `10.0.0.0/8`, `172.16.0.0/12`, `192.168.0.0/16`.
    pub open spec fn private(&self) -> bool {
        let o = self.octets@;
        o[0] == 10 || (o[0] == 172 && 16 <= o[1] <= 31) || (o[0] == 192 && o[1] == 168)
    }

    /// `169.254.0.0/16`.
    pub open spec fn link_local(&self) -> bool {
        self.octets@[0] == 169 && self.octets@[1] == 254
    }

    /// `255.255.255.255`.
    pub open spec fn broadcast(&self) -> bool {
        self.octets@[0] == 255 && self.octets@[1] == 255 && self.octets@[2] == 255 && self.octets@[3] == 255
    }

    /// `192.0.2.0/24`, `198.51.100.0/24`, `203.0.113.0/24`.
    pub open spec fn documentation(&self) -> bool {
        let o = self.octets@;
        (o[0] == 192 && o[1] == 0 && o[2] == 2) || (o[0] == 198 && o[1] == 51 && o[2] == 100) || (o[0]
            == 203 && o[1] == 0 && o[2] == 113)
    }

    /// `224.0.0.0/4`.
    pub open spec fn multicast(&self) -> bool {
        224 <= self.octets@[0] <= 239
    }

    pub fn is_loopback(&self) -> (b: bool)
        ensures
            b == self.loopback(),
    {
        self.octets[0] == 127
    }

    pub fn is_unspecified(&self) -> (b: bool)
        ensures
            b == self.unspecified(),
    {
        self.octets[0] == 0 && self.octets[1] == 0 && self.octets[2] == 0 && self.octets[3] == 0
    }

    pub fn is_private(&self) -> (b: bool)
        ensures
            b == self.private(),
    {
        let a = self.octets[0];
        let b = self.octets[1];
        a == 10 || (a == 172 && 16 <= b && b <= 31) || (a == 192 && b == 168)
    }

    pub fn is_link_local(&self) -> (b: bool)
        ensures
            b == self.link_local(),
    {
        self.octets[0] == 169 && self.octets[1] == 254
    }

    pub fn is_broadcast(&self) -> (b: bool)
        ensures
            b == self.broadcast(),
    {
        self.octets[0] == 255 && self.octets[1] == 255 && self.octets[2] == 255 && self.octets[3] == 255
    }

    pub fn is_documentation(&self) -> (b: bool)
        ensures
            b == self.documentation(),
    {
        let o = self.octets;
        (o[0] == 192 && o[1] == 0 && o[2] == 2) || (o[0] == 198 && o[1] == 51 && o[2] == 100) || (o[0]
            == 203 && o[1] == 0 && o[2] == 113)
    }

    pub fn is_multicast(&self) -> (b: bool)
        ensures
            b == self.multicast(),
    {
        224 <= self.octets[0] && self.octets[0] <= 239
    }
}

/// The IPv4 address whose octets are the two segments `hi` and `lo`.
pub open spec fn v4_of(hi: u16, lo: u16) -> Ipv4 {
    Ipv4 { octets: [(hi >> 8u16) as u8, (hi & 0xffu16) as u8, (lo >> 8u16) as u8, (lo & 0xffu16) as u8] }
}

impl Ipv6 {
    /// Whether the first five segments are zero.
    pub open spec fn zero_prefix(&self) -> bool {
        let s = self.segments@;
        s[0] == 0 && s[1] == 0 && s[2] == 0 && s[3] == 0 && s[4] == 0
    }

    /// `::ffff:a.b.c.d` as `a.b.c.d`.
    pub open spec fn ipv4_mapped(&self) -> Option<Ipv4> {
        if self.zero_prefix() && self.segments@[5] == 0xffff {
            Some(v4_of(self.segments@[6], self.segments@[7]))
        } else {
            None
        }
    }

    /// `::a.b.c.d` or `::ffff:a.b.c.d` as `a.b.c.d`.
    pub open spec fn ipv4_compatible(&self) -> Option<Ipv4> {
        if self.zero_prefix() && (self.segments@[5] == 0 || self.segments@[5] == 0xffff) {
            Some(v4_of(self.segments@[6], self.segments@[7]))
        } else {
            None
        }
    }

    /// `::1`.
    pub open spec fn loopback(&self) -> bool {
        self.zero_prefix() && self.segments@[5] == 0 && self.segments@[6] == 0 && self.segments@[7] == 1
    }

    /// `::`.
    pub open spec fn unspecified(&self) -> bool {
        self.zero_prefix() && self.segments@[5] == 0 && self.segments@[6] == 0 && self.segments@[7] == 0
    }

    /// `ff00::/8`.
    pub open spec fn multicast(&self) -> bool {
        self.segments@[0] & 0xff00u16 == 0xff00u16
    }

    /// `fe80::/10`.
    pub open spec fn unicast_link_local(&self) -> bool {
        self.segments@[0] & 0xffc0u16 == 0xfe80u16
    }

    /// `fc00::/7` (unique local).
    pub open spec fn unique_local(&self) -> bool {
        self.segments@[0] & 0xfe00u16 == 0xfc00u16
    }

    fn has_zero_prefix(&self) -> (b: bool)
        ensures
            b == self.zero_prefix(),
    {
        let s = self.segments;
        s[0] == 0 && s[1] == 0 && s[2] == 0 && s[3] == 0 && s[4] == 0
    }

    fn last_two_as_v4(&self) -> (r: Ipv4)
        ensures
            r == v4_of(self.segments@[6], self.segments@[7]),
    {
        let hi = self.segments[6];
        let lo = self.segments[7];
        let r = Ipv4 { octets: [(hi >> 8u16) as u8, (hi & 0xffu16) as u8, (lo >> 8u16) as u8, (lo & 0xffu16) as u8] };
        assert(r.octets@ =~= v4_of(hi, lo).octets@);
        r
    }

    pub fn to_ipv4_mapped(&self) -> (r: Option<Ipv4>)
        ensures
            r == self.ipv4_mapped(),
    {
        if self.has_zero_prefix() && self.segments[5] == 0xffff {
            Some(self.last_two_as_v4())
        } else {
            None
        }
    }

    pub fn to_ipv4(&self) -> (r: Option<Ipv4>)
        ensures
            r == self.ipv4_compatible(),
    {
        if self.has_zero_prefix() && (self.segments[5] == 0 || self.segments[5] == 0xffff) {
            Some(self.last_two_as_v4())
        } else {
            None
        }
    }

    pub fn is_loopback(&self) -> (b: bool)
        ensures
            b == self.loopback(),
    {
        self.has_zero_prefix() && self.segments[5] == 0 && self.segments[6] == 0 && self.segments[7] == 1
    }

    pub fn is_unspecified(&self) -> (b: bool)
        ensures
            b == self.unspecified(),
    {
        self.has_zero_prefix() && self.segments[5] == 0 && self.segments[6] == 0 && self.segments[7] == 0
    }

    pub fn is_multicast(&self) -> (b: bool)
        ensures
            b == self.multicast(),
    {
        self.segments[0] & 0xff00u16 == 0xff00u16
    }

    pub fn is_unicast_link_local(&self) -> (b: bool)
        ensures
            b == self.unicast_link_local(),
    {
        self.segments[0] & 0xffc0u16 == 0xfe80u16
    }
}

/// Why an address is refused.
pub open spec fn ip_verdict(ip: IpAddr) -> Result<(), Seq<char>> {
    match ip {
        IpAddr::V4(v4) => v4_verdict(v4),
        IpAddr::V6(v6) => match v6.ipv4_mapped() {
            Some(v4) => v4_verdict(v4),
            None => if v6.loopback() || v6.unspecified() {
                Err("LoopbackDenied"@)
            } else if v6.unique_local() || v6.unicast_link_local() {
                Err("PrivateIpDenied"@)
            } else {
                Ok(())
            },
        },
    }
}

pub open spec fn v4_verdict(v4: Ipv4) -> Result<(), Seq<char>> {
    if v4.loopback() || v4.unspecified() {
        Err("LoopbackDenied"@)
    } else if v4.private() || v4.link_local() {
        Err("PrivateIpDenied"@)
    } else {
        Ok(())
    }
}

/// Whether the result carries exactly the verdict `v`.
pub open spec fn is_verdict(r: Result<(), String>, v: Result<(), Seq<char>>) -> bool {
    match (r, v) {
        (Ok(()), Ok(())) => true,
        (Err(e), Err(m)) => e@ == m,
        _ => false,
    }
}

/// Refuse loopback and unspecified addresses (`LoopbackDenied`) and private and link-local
/// ones (`PrivateIpDenied`); an IPv4-mapped IPv6 address is judged as its IPv4 address, and
/// unique-local IPv6 addresses count as private.
pub fn check_ip(ip: IpAddr) -> (r: Result<(), String>)
    ensures
        is_verdict(r, ip_verdict(ip)),
    decreases (if ip is V6 {
        1int
    } else {
        0int
    }),
{
    match ip {
        IpAddr::V4(ipv4) => {
            if ipv4.is_loopback() || ipv4.is_unspecified() {
                return Err("LoopbackDenied".to_owned());
            }
            if ipv4.is_private() || ipv4.is_link_local() {
                return Err("PrivateIpDenied".to_owned());
            }
        },
        IpAddr::V6(ipv6) => {
            if let Some(ipv4) = ipv6.to_ipv4_mapped() {
                return check_ip(IpAddr::V4(ipv4));
            }
            if ipv6.is_loopback() || ipv6.is_unspecified() {
                return Err("LoopbackDenied".to_owned());
            }
            if (ipv6.segments[0] & 0xfe00u16) == 0xfc00u16 || ipv6.is_unicast_link_local() {
                return Err("PrivateIpDenied".to_owned());
            }
        },
    }
    Ok(())
}

/// The IPv4 addresses a request may not reach: loopback, private, link-local, unspecified,
/// broadcast, documentation, multicast, `0.0.0.0/8`, shared (`100.64.0.0/10`) and reserved
/// (`240.0.0.0/4`).
pub open spec fn v4_blocked(a: Ipv4) -> bool {
    let o = a.octets@;
    a.loopback() || a.private() || a.link_local() || a.unspecified() || a.broadcast() || a.documentation()
        || a.multicast() || o[0] == 0 || (o[0] == 100 && 64 <= o[1] <= 127) || o[0] >= 240
}

pub fn ipv4_is_blocked(addr: Ipv4) -> (b: bool)
    ensures
        b == v4_blocked(addr),
{
    let a = addr.octets[0];
    let b = addr.octets[1];
    addr.is_loopback() || addr.is_private() || addr.is_link_local() || addr.is_unspecified() || addr.is_broadcast()
        || addr.is_documentation() || addr.is_multicast() || a == 0 || (a == 100 && 64 <= b && b <= 127) || a
        >= 240
}

/// The IPv6 addresses a request may not reach: an IPv4-compatible or -mapped address as its
/// IPv4 address (so `::1` counts as `0.0.0.1`), else loopback, unspecified, multicast, unique
/// local and link-local addresses.
pub open spec fn v6_blocked(a: Ipv6) -> bool {
    match a.ipv4_compatible() {
        Some(m) => v4_blocked(m),
        None => a.loopback() || a.unspecified() || a.multicast() || a.unique_local() || a.unicast_link_local(),
    }
}

pub fn ipv6_is_blocked_old(addr: Ipv6) -> (b: bool)
    ensures
        b == v6_blocked(addr),
{
    if let Some(mapped) = addr.to_ipv4() {
        return ipv4_is_blocked(mapped);
    }
    let first = addr.segments[0];
    addr.is_loopback() || addr.is_unspecified() || addr.is_multicast() || (first & 0xfe00u16) == 0xfc00u16
        || (first & 0xffc0u16) == 0xfe80u16
}

} // verus!
