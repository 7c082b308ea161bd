use vstd::prelude::*;

verus! {

/// Monotonic sequence index of an update stream.
///
/// A receiver accepts an incoming value only when it is strictly greater
/// than the last accepted one; equal or lesser values are silent no-ops.
#[derive(Clone, Copy, Debug, Hash, PartialEq, Eq, PartialOrd, Ord, Structural)]
pub struct SyncSeq(pub u64);

impl SyncSeq {
    /// A freshly created stream starts at zero.
    pub fn new() -> (r: SyncSeq)
        ensures
            r == (SyncSeq(0)),
    {
        SyncSeq(0)
    }

    /// Adopts `rhs` as the new value iff it is strictly greater than the
    /// current one.  Returns `true` iff the value was adopted.
    pub fn update(&mut self, rhs: SyncSeq) -> (r: bool)
        ensures
            r == (rhs.0 > old(self).0),
            *final(self) == (if rhs.0 > old(self).0 { rhs } else { *old(self) }),
    {
        if self.0 >= rhs.0 {
            false
        } else {
            self.0 = rhs.0;
            true
        }
    }
}

} // verus!
