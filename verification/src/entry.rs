//! Addresses, set entries and the options a set is created with.

use vstd::prelude::*;
use vstd::std_specs::convert::FromSpecImpl;

verus! {

/// An IP address, held as the number its octets spell in network byte order.
#[derive(Clone, Copy, Debug, PartialEq, Eq, Structural)]
pub enum IpAddress {
    /// An IPv4 address: `10.0.0.1` is `0x0A00_0001`.
    V4(u32),
    /// An IPv6 address.
    V6(u128),
}

impl IpAddress {
    /// Number of octets of the address on the wire: 4 or 16.
    pub open spec fn width(self) -> nat {
        match self {
            IpAddress::V4(_) => 4,
            IpAddress::V6(_) => 16,
        }
    }
}

/// One member of a set: an address and, optionally, the number of seconds
/// after which the kernel drops it. Without a timeout the set's default holds.
#[derive(Clone, Copy, Debug, PartialEq, Eq, Structural)]
pub struct IpEntry {
    pub addr: IpAddress,
    pub timeout: Option<u32>,
}

impl IpEntry {
    /// An entry without a timeout of its own.
    pub fn new(addr: IpAddress) -> (e: IpEntry)
        ensures
            e == (IpEntry { addr, timeout: None }),
    {
        IpEntry { addr, timeout: None }
    }

    /// An entry that expires `timeout` seconds after it was added.
    pub fn with_timeout(addr: IpAddress, timeout: u32) -> (e: IpEntry)
        ensures
            e == (IpEntry { addr, timeout: Some(timeout) }),
    {
        IpEntry { addr, timeout: Some(timeout) }
    }
}

impl From<IpAddress> for IpEntry {
    fn from(addr: IpAddress) -> (e: IpEntry) {
        IpEntry { addr, timeout: None }
    }
}

impl FromSpecImpl<IpAddress> for IpEntry {
    open spec fn obeys_from_spec() -> bool {
        true
    }

    open spec fn from_spec(addr: IpAddress) -> IpEntry {
        IpEntry { addr, timeout: None }
    }
}

/// Address family of an ipset set: it fixes the width of the addresses the
/// set accepts.
#[derive(Clone, Copy, Debug, PartialEq, Eq, Structural)]
pub enum IpSetFamily {
    /// IPv4 addresses.
    Inet,
    /// IPv6 addresses.
    Inet6,
}

impl IpSetFamily {
    /// Width in octets of the addresses a set of this family holds.
    pub open spec fn width(self) -> nat {
        match self {
            IpSetFamily::Inet => 4,
            IpSetFamily::Inet6 => 16,
        }
    }
}

impl Default for IpSetFamily {
    fn default() -> (f: IpSetFamily)
        ensures
            f == IpSetFamily::Inet,
    {
        IpSetFamily::Inet
    }
}

/// Shape of the members of an ipset set.
#[derive(Clone, Copy, Debug, PartialEq, Eq, Structural)]
pub enum IpSetType {
    /// `hash:ip`, single addresses.
    HashIp,
    /// `hash:net`, networks.
    HashNet,
}

impl Default for IpSetType {
    fn default() -> (t: IpSetType)
        ensures
            t == IpSetType::HashIp,
    {
        IpSetType::HashIp
    }
}

/// Shape of the members of an nftables set.
#[derive(Clone, Copy, Debug, PartialEq, Eq, Structural)]
pub enum NftSetType {
    /// `ipv4_addr`, keys of 4 octets.
    Ipv4Addr,
    /// `ipv6_addr`, keys of 16 octets.
    Ipv6Addr,
}

impl NftSetType {
    /// Width in octets of the keys of a set of this type.
    pub open spec fn width(self) -> nat {
        match self {
            NftSetType::Ipv4Addr => 4,
            NftSetType::Ipv6Addr => 16,
        }
    }
}

impl Default for NftSetType {
    fn default() -> (t: NftSetType)
        ensures
            t == NftSetType::Ipv4Addr,
    {
        NftSetType::Ipv4Addr
    }
}

/// What an ipset set is created with.
#[derive(Clone, Copy, Debug, PartialEq, Eq, Structural)]
pub struct IpSetCreateOptions {
    pub set_type: IpSetType,
    pub family: IpSetFamily,
    /// Initial size of the hash table; the kernel's default when absent.
    pub hashsize: Option<u32>,
    /// Largest number of members; the kernel's default when absent.
    pub maxelem: Option<u32>,
    /// Default lifetime of a member in seconds; members never expire when
    /// absent.
    pub timeout: Option<u32>,
}

impl Default for IpSetCreateOptions {
    fn default() -> (o: IpSetCreateOptions)
        ensures
            o == (IpSetCreateOptions {
                set_type: IpSetType::HashIp,
                family: IpSetFamily::Inet,
                hashsize: None,
                maxelem: None,
                timeout: None,
            }),
    {
        IpSetCreateOptions {
            set_type: IpSetType::HashIp,
            family: IpSetFamily::Inet,
            hashsize: None,
            maxelem: None,
            timeout: None,
        }
    }
}

/// What an nftables set is created with.
#[derive(Clone, Copy, Debug, PartialEq, Eq, Structural)]
pub struct NftSetCreateOptions {
    pub set_type: NftSetType,
    /// Default lifetime of a member in seconds. When present the set is
    /// created with timeouts enabled.
    pub timeout: Option<u32>,
}

impl Default for NftSetCreateOptions {
    fn default() -> (o: NftSetCreateOptions)
        ensures
            o == (NftSetCreateOptions { set_type: NftSetType::Ipv4Addr, timeout: None }),
    {
        NftSetCreateOptions { set_type: NftSetType::Ipv4Addr, timeout: None }
    }
}

} // verus!
