use vstd::prelude::*;

verus! {

/// Stable numeric identity of a synchronized entity or of a peer.
///
/// Unique within a synchronized world and stable across the lifetime of
/// the entity it names; encoded on the wire as a raw 64-bit integer.
#[derive(Clone, Copy, Debug, Hash, PartialEq, Eq, PartialOrd, Ord, Structural)]
pub struct NetId(pub u64);

/// A type with a fixed identity tag in the synchronization scheme.
pub trait NetTypeId {
    const ID: NetId;
}

} // verus!
