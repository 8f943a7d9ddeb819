use vstd::prelude::*;

verus! {

/// Names a region of shared packet-buffer memory that is queued for transmission.
///
/// A descriptor is passed by value. It does not own the memory it refers to.
#[derive(Clone, Copy, Debug, PartialEq, Eq, Structural)]
pub struct Descriptor {
    /// Offset of the packet in the shared buffer.
    pub address: u64,
    /// Length of the packet in bytes.
    pub len: u32,
}

} // verus!
