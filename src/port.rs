//! Port writes that device programming sequences are made of.
use vstd::prelude::*;

verus! {

/// One byte written to one I/O port.
#[derive(Clone, Copy, PartialEq, Eq, Structural)]
pub struct PortWrite {
    pub port: u16,
    pub value: u8,
}

pub open spec fn pw(port: u16, value: u8) -> PortWrite {
    PortWrite { port, value }
}

} // verus!
