//! Addresses.

use vstd::prelude::*;

verus! {

/// An address of a host: the four octets of IPv4, or the eight groups of IPv6.
#[derive(Debug, Clone, Copy, PartialEq, Eq)]
pub enum IpAddress {
    V4([u8; 4]),
    V6([u16; 8]),
}

/// The address of this machine: `127.x.x.x` or `::1`.
pub open spec fn loops_back(ip: IpAddress) -> bool {
    match ip {
        IpAddress::V4(o) => o@[0] == 127,
        IpAddress::V6(g) => g@[7] == 1 && forall|i: int| 0 <= i < 7 ==> #[trigger] g@[i] == 0,
    }
}

impl IpAddress {
    /// Is this the address of this machine?
    pub fn is_loopback(&self) -> (b: bool)
        ensures
            b == loops_back(*self),
    {
        match self {
            IpAddress::V4(o) => o[0] == 127,
            IpAddress::V6(g) => {
                if g[7] != 1 {
                    return false;
                }
                let mut i: usize = 0;
                while i < 7
                    invariant
                        i <= 7,
                        *self == IpAddress::V6(*g),
                        forall|j: int| 0 <= j < i ==> #[trigger] g@[j] == 0,
                    decreases 7 - i,
                {
                    if g[i] != 0 {
                        return false;
                    }
                    i += 1;
                }
                true
            },
        }
    }
}

/// This machine is meant by every IPv4 address that begins with 127, and by one IPv6 address.
pub proof fn law_loopback_is_this_machine(ip: &IpAddress, b: bool)
    requires
        call_ensures(IpAddress::is_loopback, (ip,), b),
    ensures
        match *ip {
            IpAddress::V4(octets) => b <==> octets@[0] == 127,
            IpAddress::V6(groups) => b <==> groups@ == seq![0u16, 0, 0, 0, 0, 0, 0, 1],
        },
{
    if let IpAddress::V6(groups) = *ip {
        if b {
            assert(groups@ =~= seq![0u16, 0, 0, 0, 0, 0, 0, 1]);
        } else if groups@ == seq![0u16, 0, 0, 0, 0, 0, 0, 1] {
            assert(groups@[7] == 1);
        }
    }
}

} // verus!
