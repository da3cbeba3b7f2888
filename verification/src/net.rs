//! IPv4 addresses.
use vstd::prelude::*;

verus! {

/// An IPv4 address, `a.b.c.d`.
#[derive(Clone, Copy, Debug, PartialEq, Eq, Structural)]
pub struct Ipv4Addr {
    pub a: u8,
    pub b: u8,
    pub c: u8,
    pub d: u8,
}

impl Ipv4Addr {
    /// The address `a.b.c.d`.
    pub fn new(a: u8, b: u8, c: u8, d: u8) -> (ip: Ipv4Addr)
        ensures
            ip == (Ipv4Addr { a, b, c, d }),
    {
        Ipv4Addr { a, b, c, d }
    }

    /// Whether this is the unspecified address, `0.0.0.0`.
    pub fn is_unspecified(&self) -> (unspecified: bool)
        ensures
            unspecified == (*self == Ipv4Addr { a: 0, b: 0, c: 0, d: 0 }),
    {
        self.a == 0 && self.b == 0 && self.c == 0 && self.d == 0
    }
}

} // verus!
