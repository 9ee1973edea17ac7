//! Socket addresses.

use vstd::prelude::*;

verus! {

/// The address of a peer.
#[derive(Clone, Copy, Debug, PartialEq, Eq, Structural)]
#[allow(inconsistent_fields)]
pub enum Address {
    V4 { ip: u32, port: u16 },
    V6 { ip: u128, port: u16, flow: u32, scope: u32 },
}

} // verus!
