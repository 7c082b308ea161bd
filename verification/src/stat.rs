use vstd::prelude::*;
use crate::error::OwnershipViolation;
use crate::id::NetId;
use crate::sync::SyncSeq;

verus! {

/// Network status of a synchronized entity: its identity, the identity of
/// the owning peer, and the sequence index of the last applied update.
///
/// Gatekeeps every entity mutation: an update is applied only when its
/// claimed owner matches the recorded owner and its sequence index is
/// strictly greater than the recorded one.
#[derive(Clone, Copy, Debug, Hash, PartialEq, Eq, PartialOrd, Ord, Structural)]
pub struct NetStat {
    pub id: NetId,
    pub owner: NetId,
    pub sync_seq: SyncSeq,
}

impl NetStat {
    /// Status of a freshly observed entity: sequence starts at zero.
    pub fn new(id: NetId, owner: NetId) -> (r: NetStat)
        ensures
            r == (NetStat { id, owner, sync_seq: SyncSeq(0) }),
    {
        NetStat {
            id,
            owner,
            sync_seq: SyncSeq::new(),
        }
    }

    /// Ownership guard and sequence gate, run as a unit.
    ///
    /// The caller guarantees that `new` speaks of this entity.  A claimed
    /// owner different from the recorded one rejects the update outright —
    /// a non-owner can never advance the sequence counter.  Otherwise the
    /// sequence gate decides: `Ok(true)` adopts `new` and tells the caller
    /// to apply the update's payload, `Ok(false)` is a stale no-op.
    pub fn update(&mut self, new: NetStat) -> (r: Result<bool, OwnershipViolation>)
        requires
            new.id == old(self).id,
        ensures
            new.owner != old(self).owner ==> {
                &&& r == Err::<bool, OwnershipViolation>(OwnershipViolation {
                    updater: new.owner,
                    entity: new.id,
                    owner: old(self).owner,
                })
                &&& *final(self) == *old(self)
            },
            new.owner == old(self).owner ==> {
                &&& r == Ok::<bool, OwnershipViolation>(new.sync_seq.0 > old(self).sync_seq.0)
                &&& *final(self) == (if new.sync_seq.0 > old(self).sync_seq.0 {
                    new
                } else {
                    *old(self)
                })
            },
    {
        if new.owner == self.owner {
            Ok(self.sync_seq.update(new.sync_seq))
        } else {
            Err(OwnershipViolation {
                updater: new.owner,
                entity: new.id,
                owner: self.owner,
            })
        }
    }

    /// The identity of the entity this status belongs to.
    pub fn id(&self) -> (r: NetId)
        ensures
            r == self.id,
    {
        self.id
    }
}

} // verus!
