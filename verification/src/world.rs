use vstd::prelude::*;
use crate::id::NetId;
use crate::stat::NetStat;
use crate::sync::SyncSeq;

verus! {

/// View of one synchronizable slot: the encoded value if present.
pub open spec fn slot_view(s: Option<Vec<u8>>) -> Option<Seq<u8>> {
    match s {
        Some(p) => Some(p@),
        None => None,
    }
}

/// View of a positional slot list.
pub open spec fn slots_view(v: Seq<Option<Vec<u8>>>) -> Seq<Option<Seq<u8>>> {
    Seq::new(v.len(), |i: int| slot_view(v[i]))
}

/// A synchronized entity: its network status and one slot per syncable
/// component type, in the fixed wire order.
pub struct Entity {
    pub stat: NetStat,
    pub comps: Vec<Option<Vec<u8>>>,
}

/// Mathematical view of an entity.
#[verifier::ext_equal]
pub struct EntityV {
    pub stat: NetStat,
    pub comps: Seq<Option<Seq<u8>>>,
}

impl View for Entity {
    type V = EntityV;

    open spec fn view(&self) -> EntityV {
        EntityV { stat: self.stat, comps: slots_view(self.comps@) }
    }
}

/// First index in `es` of the entity with identity `id`, or `es.len()`
/// when no entity carries it.
pub open spec fn idx_of_entity(es: Seq<EntityV>, id: NetId) -> int
    decreases es.len(),
{
    if es.len() == 0 {
        0
    } else if es[0].stat.id == id {
        0
    } else {
        1 + idx_of_entity(es.drop_first(), id)
    }
}

/// `idx_of_entity` is the first matching index, or the length.
pub proof fn lemma_idx_of_entity(es: Seq<EntityV>, id: NetId)
    ensures
        0 <= idx_of_entity(es, id) <= es.len(),
        idx_of_entity(es, id) < es.len() ==> es[idx_of_entity(es, id)].stat.id == id,
        forall|j: int| 0 <= j < idx_of_entity(es, id) ==> es[j].stat.id != id,
    decreases es.len(),
{
    if es.len() == 0 {
    } else if es[0].stat.id == id {
    } else {
        lemma_idx_of_entity(es.drop_first(), id);
        assert forall|j: int| 0 <= j < idx_of_entity(es, id) implies es[j].stat.id != id by {
            if j >= 1 {
                assert(es[j] == es.drop_first()[j - 1]);
            }
        }
    }
}

/// An index that matches and is preceded by no match is the one
/// `idx_of_entity` names.
pub proof fn lemma_idx_of_is_first(es: Seq<EntityV>, id: NetId, k: int)
    requires
        0 <= k < es.len(),
        es[k].stat.id == id,
        forall|j: int| 0 <= j < k ==> es[j].stat.id != id,
    ensures
        idx_of_entity(es, id) == k,
{
    lemma_idx_of_entity(es, id);
}

/// When no entity carries `id`, `idx_of_entity` is the length.
pub proof fn lemma_idx_of_absent(es: Seq<EntityV>, id: NetId)
    requires
        forall|j: int| 0 <= j < es.len() ==> es[j].stat.id != id,
    ensures
        idx_of_entity(es, id) == es.len(),
{
    lemma_idx_of_entity(es, id);
}

/// Mathematical view of a whole world.
#[verifier::ext_equal]
pub struct WorldV {
    /// Number of syncable component types; fixed wire order.
    pub comp_arity: nat,
    /// Number of syncable resource types; fixed wire order.
    pub res_arity: nat,
    /// Shared sequence index gating the resource group as a unit.
    pub res_seq: SyncSeq,
    /// One slot per resource type; `None` while uninitialized.
    pub resources: Seq<Option<Seq<u8>>>,
    /// The synchronized entities, each with a distinct identity.
    pub entities: Seq<EntityV>,
}

impl WorldV {
    /// Well-formedness: the slot lists match the arities and entity
    /// identities are unique — at most one local entity per `NetId`.
    pub open spec fn wf(self) -> bool {
        &&& self.resources.len() == self.res_arity
        &&& forall|i: int|
            0 <= i < self.entities.len() ==> (#[trigger] self.entities[i]).comps.len()
                == self.comp_arity
        &&& forall|i: int, j: int|
            #![trigger self.entities[i], self.entities[j]]
            0 <= i < j < self.entities.len() ==> self.entities[i].stat.id
                != self.entities[j].stat.id
    }

    /// First index of the entity carrying `id`, or the entity count.
    pub open spec fn idx_of(self, id: NetId) -> int {
        idx_of_entity(self.entities, id)
    }

    /// Whether some local entity carries `id`.
    pub open spec fn has(self, id: NetId) -> bool {
        self.idx_of(id) < self.entities.len()
    }
}

/// A replicated simulation world: the entity set with per-entity component
/// slots, the global resource slots, and the shared resource sequence.
///
/// This is the state the codec reads on encode and mutates on decode; the
/// identity map required of the decode side is the (invariant-guaranteed
/// unique) association from `stat.id` to position in `entities`.
pub struct World {
    pub comp_arity: usize,
    pub res_arity: usize,
    pub res_seq: SyncSeq,
    pub resources: Vec<Option<Vec<u8>>>,
    pub entities: Vec<Entity>,
}

impl View for World {
    type V = WorldV;

    open spec fn view(&self) -> WorldV {
        WorldV {
            comp_arity: self.comp_arity as nat,
            res_arity: self.res_arity as nat,
            res_seq: self.res_seq,
            resources: slots_view(self.resources@),
            entities: Seq::new(self.entities@.len(), |i: int| self.entities@[i]@),
        }
    }
}

/// A list of `n` empty slots.
pub fn none_slots(n: usize) -> (r: Vec<Option<Vec<u8>>>)
    ensures
        r@.len() == n,
        forall|i: int| 0 <= i < n ==> r@[i] is None,
{
    let mut r: Vec<Option<Vec<u8>>> = Vec::new();
    let mut k: usize = 0;
    while k < n
        invariant
            k <= n,
            r@.len() == k,
            forall|i: int| 0 <= i < k ==> r@[i] is None,
        decreases n - k,
    {
        r.push(None);
        k = k + 1;
    }
    r
}

impl World {
    pub open spec fn wf(self) -> bool {
        self@.wf()
    }

    /// An empty world: no entities, every resource uninitialized, and the
    /// resource sequence at zero.
    pub fn new(comp_arity: usize, res_arity: usize) -> (r: World)
        ensures
            r@.comp_arity == comp_arity,
            r@.res_arity == res_arity,
            r@.res_seq == (SyncSeq(0)),
            r@.entities == Seq::<EntityV>::empty(),
            r@.resources.len() == res_arity,
            forall|i: int| 0 <= i < res_arity ==> r@.resources[i] is None,
            r.wf(),
    {
        let r = World {
            comp_arity,
            res_arity,
            res_seq: SyncSeq::new(),
            resources: none_slots(res_arity),
            entities: Vec::new(),
        };
        proof {
            assert(r@.entities =~= Seq::<EntityV>::empty());
        }
        r
    }

    /// Position of the local entity carrying `id`, if one exists.
    pub fn find_entity(&self, id: NetId) -> (r: Option<usize>)
        ensures
            match r {
                Some(k) => self@.has(id) && k == self@.idx_of(id),
                None => !self@.has(id),
            },
    {
        proof {
            lemma_idx_of_entity(self@.entities, id);
        }
        let n = self.entities.len();
        let mut k: usize = 0;
        while k < n
            invariant
                n == self@.entities.len(),
                k <= n,
                forall|j: int| 0 <= j < k ==> self@.entities[j].stat.id != id,
            decreases n - k,
        {
            if self.entities[k].stat.id == id {
                proof {
                    lemma_idx_of_is_first(self@.entities, id, k as int);
                }
                return Some(k);
            }
            k = k + 1;
        }
        proof {
            lemma_idx_of_absent(self@.entities, id);
        }
        None
    }

    /// Creates a fresh entity carrying `stat`, every component slot empty,
    /// and returns its position.  The caller guarantees the identity is
    /// free — at most one local entity per `NetId`.
    pub fn create_entity(&mut self, stat: NetStat) -> (k: usize)
        requires
            old(self).wf(),
            !old(self)@.has(stat.id),
        ensures
            final(self).wf(),
            k == old(self)@.entities.len(),
            final(self)@ == (WorldV {
                entities: old(self)@.entities.push(
                    EntityV {
                        stat,
                        comps: Seq::new(old(self)@.comp_arity, |i: int| None::<Seq<u8>>),
                    },
                ),
                ..old(self)@
            }),
    {
        proof {
            lemma_idx_of_entity(old(self)@.entities, stat.id);
        }
        let k = self.entities.len();
        let comps = none_slots(self.comp_arity);
        self.entities.push(Entity { stat, comps });
        proof {
            assert(self@.entities =~~= old(self)@.entities.push(
                EntityV {
                    stat,
                    comps: Seq::new(old(self)@.comp_arity, |i: int| None::<Seq<u8>>),
                },
            ));
            assert(self@ =~= (WorldV {
                entities: old(self)@.entities.push(
                    EntityV {
                        stat,
                        comps: Seq::new(old(self)@.comp_arity, |i: int| None::<Seq<u8>>),
                    },
                ),
                ..old(self)@
            }));
            let es = self@.entities;
            assert forall|i: int, j: int|
                0 <= i < j < es.len() implies es[i].stat.id != es[j].stat.id by {
                if j == es.len() - 1 {
                    assert(old(self)@.entities[i].stat.id != stat.id);
                }
            }
        }
        k
    }

    /// Deletes the entity at position `k`, freeing its identity.
    pub fn delete_entity(&mut self, k: usize)
        requires
            old(self).wf(),
            k < old(self)@.entities.len(),
        ensures
            final(self).wf(),
            final(self)@ == (WorldV {
                entities: old(self)@.entities.remove(k as int),
                ..old(self)@
            }),
    {
        let _removed = self.entities.remove(k);
        proof {
            assert(self@ =~= (WorldV {
                entities: old(self)@.entities.remove(k as int),
                ..old(self)@
            }));
            let es = self@.entities;
            assert forall|i: int, j: int|
                0 <= i < j < es.len() implies es[i].stat.id != es[j].stat.id by {
                if j < k {
                } else if i < k <= j {
                    assert(es[j] == old(self)@.entities[j + 1]);
                } else {
                    assert(es[i] == old(self)@.entities[i + 1]);
                    assert(es[j] == old(self)@.entities[j + 1]);
                }
            }
        }
    }

    /// The network status of the entity at position `k`.
    pub fn stat_of(&self, k: usize) -> (r: NetStat)
        requires
            k < self@.entities.len(),
        ensures
            r == self@.entities[k as int].stat,
    {
        self.entities[k].stat
    }

    /// The component in `slot` of the entity at position `k`, if present.
    pub fn get_component(&self, k: usize, slot: usize) -> (r: Option<&Vec<u8>>)
        requires
            k < self@.entities.len(),
            slot < self@.entities[k as int].comps.len(),
        ensures
            match r {
                Some(v) => self@.entities[k as int].comps[slot as int] == Some(v@),
                None => self@.entities[k as int].comps[slot as int] is None,
            },
    {
        self.entities[k].comps[slot].as_ref()
    }

    /// Inserts or replaces the component in `slot` of the entity at
    /// position `k`.
    pub fn insert_component(&mut self, k: usize, slot: usize, value: Vec<u8>)
        requires
            old(self).wf(),
            k < old(self)@.entities.len(),
            slot < old(self)@.comp_arity,
        ensures
            final(self).wf(),
            final(self)@ == (WorldV {
                entities: old(self)@.entities.update(
                    k as int,
                    EntityV {
                        stat: old(self)@.entities[k as int].stat,
                        comps: old(self)@.entities[k as int].comps.update(
                            slot as int,
                            Some(value@),
                        ),
                    },
                ),
                ..old(self)@
            }),
    {
        let ghost target = EntityV {
            stat: old(self)@.entities[k as int].stat,
            comps: old(self)@.entities[k as int].comps.update(slot as int, Some(value@)),
        };
        let mut e = self.entities.remove(k);
        e.comps[slot] = Some(value);
        proof {
            assert(e@ =~= target);
        }
        self.entities.insert(k, e);
        proof {
            assert(self@ =~= (WorldV {
                entities: old(self)@.entities.update(k as int, target),
                ..old(self)@
            }));
            let es = self@.entities;
            assert forall|i: int, j: int|
                0 <= i < j < es.len() implies es[i].stat.id != es[j].stat.id by {
                assert(old(self)@.entities[i].stat.id != old(self)@.entities[j].stat.id);
            }
        }
    }

    /// Removes the component in `slot` of the entity at position `k`.
    /// Idempotent: an empty slot stays empty.
    pub fn remove_component(&mut self, k: usize, slot: usize)
        requires
            old(self).wf(),
            k < old(self)@.entities.len(),
            slot < old(self)@.comp_arity,
        ensures
            final(self).wf(),
            final(self)@ == (WorldV {
                entities: old(self)@.entities.update(
                    k as int,
                    EntityV {
                        stat: old(self)@.entities[k as int].stat,
                        comps: old(self)@.entities[k as int].comps.update(
                            slot as int,
                            None::<Seq<u8>>,
                        ),
                    },
                ),
                ..old(self)@
            }),
    {
        let ghost target = EntityV {
            stat: old(self)@.entities[k as int].stat,
            comps: old(self)@.entities[k as int].comps.update(slot as int, None::<Seq<u8>>),
        };
        let mut e = self.entities.remove(k);
        e.comps[slot] = None;
        proof {
            assert(e@ =~= target);
        }
        self.entities.insert(k, e);
        proof {
            assert(self@ =~= (WorldV {
                entities: old(self)@.entities.update(k as int, target),
                ..old(self)@
            }));
            let es = self@.entities;
            assert forall|i: int, j: int|
                0 <= i < j < es.len() implies es[i].stat.id != es[j].stat.id by {
                assert(old(self)@.entities[i].stat.id != old(self)@.entities[j].stat.id);
            }
        }
    }

    /// The current global resource in `slot`, if initialized.
    pub fn get_resource(&self, slot: usize) -> (r: Option<&Vec<u8>>)
        requires
            slot < self@.resources.len(),
        ensures
            match r {
                Some(v) => self@.resources[slot as int] == Some(v@),
                None => self@.resources[slot as int] is None,
            },
    {
        self.resources[slot].as_ref()
    }

    /// Replaces the global resource in `slot`.
    pub fn replace_resource(&mut self, slot: usize, value: Vec<u8>)
        requires
            old(self).wf(),
            slot < old(self)@.res_arity,
        ensures
            final(self).wf(),
            final(self)@ == (WorldV {
                resources: old(self)@.resources.update(slot as int, Some(value@)),
                ..old(self)@
            }),
    {
        self.resources[slot] = Some(value);
        proof {
            assert(self@ =~= (WorldV {
                resources: old(self)@.resources.update(slot as int, Some(value@)),
                ..old(self)@
            }));
        }
    }
}

} // verus!
