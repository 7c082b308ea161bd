use vstd::prelude::*;
use core::marker::PhantomData;

verus! {

/// Calls a closure to pick the next track when the audio sink runs empty.
///
/// Only the construction and the picking rule live here; the driving loop
/// that polls the real sink belongs to the host application.
pub struct DjSystem<F, R> {
    pub f: F,
    pub marker: PhantomData<R>,
}

impl<F, R> DjSystem<F, R> {
    /// Creates a new `DjSystem` with the music picker being `f`.  The
    /// closure takes a reference to the resource the host fetches for it,
    /// and returns the handle of the next source to play, if any.
    pub fn new(f: F) -> (r: DjSystem<F, R>)
        ensures
            r.f == f,
    {
        DjSystem { f, marker: PhantomData }
    }
}

/// The scheduling rule of the system's tick: a new track is appended
/// exactly when the sink is empty and the picker found a loadable source.
pub fn dj_should_append(sink_empty: bool, picked_source: bool) -> (r: bool)
    ensures
        r == (sink_empty && picked_source),
{
    sink_empty && picked_source
}

} // verus!
