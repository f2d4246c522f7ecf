//! Internet addresses as plain integers.

use vstd::prelude::*;

verus! {

/// An IPv4 or IPv6 address. The integer is the address read as one
/// big-endian number, so `10.1.2.3` is `V4(0x0a01_0203)` and `::1` is `V6(1)`.
#[derive(Clone, Copy, Debug, PartialEq, Eq, Structural, PartialOrd, Ord, Hash)]
pub enum IpAddr {
    V4(u32),
    V6(u128),
}

/// The number that the four octets `a.b.c.d` denote.
pub open spec fn v4_value(a: u8, b: u8, c: u8, d: u8) -> int {
    a as int * 0x100_0000 + b as int * 0x1_0000 + c as int * 0x100 + d as int
}

impl IpAddr {
    /// The dotted quad `a.b.c.d`.
    pub fn v4(a: u8, b: u8, c: u8, d: u8) -> (r: IpAddr)
        ensures
            r == IpAddr::V4(v4_value(a, b, c, d) as u32),
            v4_value(a, b, c, d) <= u32::MAX,
    {
        let a: u32 = a as u32;
        let b: u32 = b as u32;
        let c: u32 = c as u32;
        let d: u32 = d as u32;
        IpAddr::V4(a * 0x100_0000 + b * 0x1_0000 + c * 0x100 + d)
    }

    /// Number of bits in an address of this family.
    pub open spec fn spec_width(self) -> u8 {
        match self {
            IpAddr::V4(_) => 32,
            IpAddr::V6(_) => 128,
        }
    }

    /// Number of bits in an address of this family: 32 or 128.
    #[verifier::when_used_as_spec(spec_width)]
    pub fn width(self) -> (r: u8)
        ensures
            r == self.spec_width(),
    {
        match self {
            IpAddr::V4(_) => 32,
            IpAddr::V6(_) => 128,
        }
    }

    /// Whether this is an IPv4 address.
    pub open spec fn spec_is_v4(self) -> bool {
        self is V4
    }

    /// Whether this is an IPv4 address.
    #[verifier::when_used_as_spec(spec_is_v4)]
    pub fn is_v4(self) -> (r: bool)
        ensures
            r == (self is V4),
    {
        match self {
            IpAddr::V4(_) => true,
            IpAddr::V6(_) => false,
        }
    }

    /// Whether this is the wildcard address of its family, `0.0.0.0` or `::`.
    pub open spec fn spec_is_unspecified(self) -> bool {
        self == IpAddr::V4(0) || self == IpAddr::V6(0)
    }

    /// Whether this is the wildcard address of its family, `0.0.0.0` or `::`.
    #[verifier::when_used_as_spec(spec_is_unspecified)]
    pub fn is_unspecified(self) -> (r: bool)
        ensures
            r == self.spec_is_unspecified(),
    {
        match self {
            IpAddr::V4(a) => a == 0,
            IpAddr::V6(a) => a == 0,
        }
    }
}

} // verus!
