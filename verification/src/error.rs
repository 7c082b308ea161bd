use vstd::prelude::*;
use crate::id::NetId;

verus! {

/// Report of a rejected update: a peer that does not own an entity tried
/// to overwrite its state.  Recoverable at per-entity granularity — the
/// offending record is discarded and the rest of the message still applies.
#[derive(Clone, Copy, Debug, PartialEq, Eq, Structural)]
pub struct OwnershipViolation {
    /// The peer that sent the rejected update.
    pub updater: NetId,
    /// The entity the update was aimed at.
    pub entity: NetId,
    /// The recorded owner of that entity.
    pub owner: NetId,
}

/// Structural failure of a wire message: truncated data, a bad tag, or a
/// payload length that runs past the end of the buffer.  Fatal to the
/// whole message — nothing of a malformed message is applied.
#[derive(Clone, Copy, Debug, PartialEq, Eq, Structural)]
pub struct DecodeError;

} // verus!
