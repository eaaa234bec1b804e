use vstd::prelude::*;

verus! {

/// An IPv4 endpoint, held as its four dotted-quad octets.
///
/// Immutable value type; used as a set and map key throughout the crate.
#[derive(Clone, Copy, PartialEq, Eq, Structural, Hash, Debug)]
pub struct Address {
    pub o0: u8,
    pub o1: u8,
    pub o2: u8,
    pub o3: u8,
}

impl Address {
    pub fn new(o0: u8, o1: u8, o2: u8, o3: u8) -> (r: Address)
        ensures
            r == (Address { o0, o1, o2, o3 }),
    {
        Address { o0, o1, o2, o3 }
    }
}

} // verus!
