use vstd::prelude::*;
use crate::codec::{
    decode_message, parse_message, records_view, EntityRecord, EntityUpdate, Message, MessageV,
    RecordV, ResourceBlock, ResourceBlockV, UpdateV,
};
use crate::error::{DecodeError, OwnershipViolation};
use crate::stat::NetStat;
use crate::world::{lemma_idx_of_entity, Entity, EntityV, World, WorldV};

verus! {

// Applying a decoded message to a world.  The meaning of every step is a
// total spec function; the executable code is proved to compute exactly
// that meaning.  Ownership violations are collected, not fatal: the rest
// of the message still applies.

/// What one entity record does to a world.
///
/// The record's entity is resolved through the identity map; an existing
/// entity is gated by the ownership guard and the sequence gate before
/// any mutation, a fresh one is adopted as the record says.  An accepted
/// update replaces the status and every component slot; an accepted
/// remove deletes the entity and frees its identity.
pub open spec fn spec_apply_record(w: WorldV, r: RecordV) -> (WorldV, Option<OwnershipViolation>) {
    let k = w.idx_of(r.stat.id);
    if k < w.entities.len() {
        let e = w.entities[k];
        if r.stat.owner != e.stat.owner {
            (
                w,
                Some(
                    OwnershipViolation {
                        updater: r.stat.owner,
                        entity: r.stat.id,
                        owner: e.stat.owner,
                    },
                ),
            )
        } else if r.stat.sync_seq.0 <= e.stat.sync_seq.0 {
            (w, None)
        } else {
            match r.update {
                UpdateV::Remove => (WorldV { entities: w.entities.remove(k), ..w }, None),
                UpdateV::Update(ss) => (
                    WorldV {
                        entities: w.entities.update(k, EntityV { stat: r.stat, comps: ss }),
                        ..w
                    },
                    None,
                ),
            }
        }
    } else {
        match r.update {
            UpdateV::Remove => (w, None),
            UpdateV::Update(ss) => (
                WorldV { entities: w.entities.push(EntityV { stat: r.stat, comps: ss }), ..w },
                None,
            ),
        }
    }
}

/// A violation report as a (zero- or one-element) sequence.
pub open spec fn opt_viol(v: Option<OwnershipViolation>) -> Seq<OwnershipViolation> {
    match v {
        Some(x) => seq![x],
        None => Seq::empty(),
    }
}

/// Folding a record list over a world, collecting the violations in
/// order.
pub open spec fn spec_apply_records(w: WorldV, rs: Seq<RecordV>) -> (
    WorldV,
    Seq<OwnershipViolation>,
)
    decreases rs.len(),
{
    if rs.len() == 0 {
        (w, Seq::empty())
    } else {
        let first = spec_apply_record(w, rs[0]);
        let rest = spec_apply_records(first.0, rs.drop_first());
        (rest.0, opt_viol(first.1) + rest.1)
    }
}

/// Unrolling the record fold from the back.
pub proof fn lemma_spec_apply_records_push(w: WorldV, rs: Seq<RecordV>, r: RecordV)
    ensures
        spec_apply_records(w, rs.push(r)).0 == spec_apply_record(
            spec_apply_records(w, rs).0,
            r,
        ).0,
        spec_apply_records(w, rs.push(r)).1 == spec_apply_records(w, rs).1 + opt_viol(
            spec_apply_record(spec_apply_records(w, rs).0, r).1,
        ),
    decreases rs.len(),
{
    let pushed = rs.push(r);
    if rs.len() == 0 {
        assert(pushed.drop_first() =~= Seq::<RecordV>::empty());
        assert(pushed[0] == r);
        let first = spec_apply_record(w, r);
        assert(pushed.drop_first().len() == 0);
        assert(spec_apply_records(first.0, pushed.drop_first()) == (
            first.0,
            Seq::<OwnershipViolation>::empty(),
        ));
        assert(spec_apply_records(w, pushed) == (
            first.0,
            opt_viol(first.1) + Seq::<OwnershipViolation>::empty(),
        ));
        assert(spec_apply_records(w, rs) == (w, Seq::<OwnershipViolation>::empty()));
        assert(opt_viol(first.1) + Seq::<OwnershipViolation>::empty() =~= Seq::<
            OwnershipViolation,
        >::empty() + opt_viol(first.1));
    } else {
        assert(pushed.drop_first() =~= rs.drop_first().push(r));
        assert(pushed[0] == rs[0]);
        let first = spec_apply_record(w, rs[0]);
        lemma_spec_apply_records_push(first.0, rs.drop_first(), r);
        let prev = spec_apply_records(first.0, rs.drop_first());
        let step = spec_apply_record(prev.0, r);
        assert(spec_apply_records(w, pushed) == (
            spec_apply_records(first.0, pushed.drop_first()).0,
            opt_viol(first.1) + spec_apply_records(first.0, pushed.drop_first()).1,
        ));
        assert(spec_apply_records(w, rs) == (prev.0, opt_viol(first.1) + prev.1));
        assert(opt_viol(first.1) + (prev.1 + opt_viol(step.1)) =~= (opt_viol(first.1) + prev.1)
            + opt_viol(step.1));
    }
}

/// Pointwise application of resource slots: a present slot replaces the
/// resource, an absent one leaves it as it stands.
pub open spec fn apply_res_slots(cur: Seq<Option<Seq<u8>>>, ss: Seq<Option<Seq<u8>>>) -> Seq<
    Option<Seq<u8>>,
> {
    Seq::new(
        cur.len(),
        |i: int|
            if 0 <= i < ss.len() && ss[i] is Some {
                ss[i]
            } else {
                cur[i]
            },
    )
}

/// What the resource block does to a world: all slots when the shared
/// sequence advances, nothing at all when it does not.
pub open spec fn spec_apply_resources(w: WorldV, rb: ResourceBlockV) -> WorldV {
    if rb.sync_seq.0 > w.res_seq.0 {
        WorldV { res_seq: rb.sync_seq, resources: apply_res_slots(w.resources, rb.slots), ..w }
    } else {
        w
    }
}

/// What a whole message does: the resource block first, then every
/// entity record in order.
pub open spec fn spec_apply_message(w: WorldV, m: MessageV) -> (WorldV, Seq<OwnershipViolation>) {
    spec_apply_records(spec_apply_resources(w, m.resources), m.records)
}

/// One record keeps the world well-formed and touches nothing but the
/// entity set.
pub proof fn lemma_apply_record_wf(w: WorldV, r: RecordV)
    requires
        w.wf(),
        r.update matches UpdateV::Update(ss) ==> ss.len() == w.comp_arity,
    ensures
        spec_apply_record(w, r).0.wf(),
        spec_apply_record(w, r).0.comp_arity == w.comp_arity,
        spec_apply_record(w, r).0.res_arity == w.res_arity,
        spec_apply_record(w, r).0.res_seq == w.res_seq,
        spec_apply_record(w, r).0.resources == w.resources,
{
    lemma_idx_of_entity(w.entities, r.stat.id);
    let k = w.idx_of(r.stat.id);
    let w1 = spec_apply_record(w, r).0;
    if k < w.entities.len() {
        let e = w.entities[k];
        if r.stat.owner == e.stat.owner && r.stat.sync_seq.0 > e.stat.sync_seq.0 {
            match r.update {
                UpdateV::Remove => {
                    let es = w.entities.remove(k);
                    assert forall|i: int, j: int|
                        0 <= i < j < es.len() implies es[i].stat.id != es[j].stat.id by {
                        if j < k {
                        } else if i < k <= j {
                            assert(es[j] == w.entities[j + 1]);
                        } else {
                            assert(es[i] == w.entities[i + 1]);
                            assert(es[j] == w.entities[j + 1]);
                        }
                    }
                },
                UpdateV::Update(ss) => {
                    let es = w.entities.update(k, EntityV { stat: r.stat, comps: ss });
                    assert(e.stat.id == r.stat.id);
                    assert forall|i: int, j: int|
                        0 <= i < j < es.len() implies es[i].stat.id != es[j].stat.id by {
                        assert(w.entities[i].stat.id != w.entities[j].stat.id);
                    }
                },
            }
        }
    } else {
        match r.update {
            UpdateV::Remove => {},
            UpdateV::Update(ss) => {
                let es = w.entities.push(EntityV { stat: r.stat, comps: ss });
                assert forall|i: int, j: int|
                    0 <= i < j < es.len() implies es[i].stat.id != es[j].stat.id by {
                    if j == es.len() - 1 {
                        assert(w.entities[i].stat.id != r.stat.id);
                    } else {
                        assert(w.entities[i].stat.id != w.entities[j].stat.id);
                    }
                }
            },
        }
    }
}

/// Applies one entity record to the world.
///
/// Returns the ownership violation when the record's claimed owner is not
/// the recorded owner of an existing entity — in that case, and on a
/// stale sequence, the world is untouched.
pub fn apply_record(w: &mut World, rec: EntityRecord) -> (r: Option<OwnershipViolation>)
    requires
        old(w).wf(),
        rec@.update matches UpdateV::Update(ss) ==> ss.len() == old(w)@.comp_arity,
    ensures
        final(w).wf(),
        final(w)@ == spec_apply_record(old(w)@, rec@).0,
        r == spec_apply_record(old(w)@, rec@).1,
{
    proof {
        lemma_apply_record_wf(old(w)@, rec@);
        lemma_idx_of_entity(old(w)@.entities, rec@.stat.id);
    }
    let stat = rec.stat;
    match w.find_entity(stat.id) {
        Some(k) => {
            let mut cur: NetStat = w.entities[k].stat;
            match cur.update(stat) {
                Err(v) => Some(v),
                Ok(false) => None,
                Ok(true) => {
                    match rec.update {
                        EntityUpdate::Remove => {
                            let _removed = w.entities.remove(k);
                            proof {
                                assert(w@ =~= spec_apply_record(old(w)@, rec@).0);
                            }
                            None
                        },
                        EntityUpdate::Update(ss) => {
                            let ent = Entity { stat: cur, comps: ss };
                            w.entities[k] = ent;
                            proof {
                                assert(w@ =~= spec_apply_record(old(w)@, rec@).0);
                            }
                            None
                        },
                    }
                },
            }
        },
        None => {
            match rec.update {
                EntityUpdate::Remove => None,
                EntityUpdate::Update(ss) => {
                    w.entities.push(Entity { stat, comps: ss });
                    proof {
                        assert(w@ =~= spec_apply_record(old(w)@, rec@).0);
                    }
                    None
                },
            }
        },
    }
}

/// Applies the resource block: every slot when the shared sequence
/// advances, none at all when it does not.
pub fn apply_resources(w: &mut World, block: ResourceBlock)
    requires
        old(w).wf(),
        block@.slots.len() == old(w)@.res_arity,
    ensures
        final(w).wf(),
        final(w)@ == spec_apply_resources(old(w)@, block@),
{
    let ghost orig = block@.slots;
    if !(block.sync_seq.0 > w.res_seq.0) {
        return ;
    }
    w.res_seq = block.sync_seq;
    let mut slots = block.slots;
    let n = w.resources.len();
    let mut i: usize = 0;
    while i < n
        invariant
            n == w@.res_arity == w@.resources.len(),
            old(w)@.resources.len() == n,
            i <= n,
            orig.len() == n,
            slots@.len() == n - i,
            forall|j: int|
                0 <= j < n - i ==> crate::world::slot_view(#[trigger] slots@[j]) == orig[j + i],
            w@.comp_arity == old(w)@.comp_arity,
            w@.res_arity == old(w)@.res_arity,
            w@.entities == old(w)@.entities,
            w@.res_seq == block@.sync_seq,
            forall|j: int| i <= j < n ==> #[trigger] w@.resources[j] == old(w)@.resources[j],
            forall|j: int|
                0 <= j < i ==> #[trigger] w@.resources[j] == (if orig[j] is Some {
                    orig[j]
                } else {
                    old(w)@.resources[j]
                }),
        decreases n - i,
    {
        let ghost slots_pre = slots@;
        let ghost res_pre = w@.resources;
        let s = slots.remove(0);
        proof {
            assert(crate::world::slot_view(s) == orig[i as int]);
        }
        match s {
            Some(v) => {
                w.resources[i] = Some(v);
                proof {
                    assert forall|j: int| 0 <= j < n implies #[trigger] w@.resources[j] == (if j
                        == i {
                        orig[j]
                    } else {
                        res_pre[j]
                    }) by {}
                }
            },
            None => {},
        }
        proof {
            assert forall|j: int|
                0 <= j < n - i - 1 implies crate::world::slot_view(#[trigger] slots@[j]) == orig[j
                + i + 1] by {
                assert(slots@[j] == slots_pre[j + 1]);
            }
        }
        i = i + 1;
    }
    proof {
        assert(w@ =~= spec_apply_resources(old(w)@, block@));
    }
}

/// Applies one whole decoded message: the resource group as a unit, then
/// every entity record in order.  Ownership violations are collected in
/// record order and returned; they abort only their own record.
pub fn apply_message(w: &mut World, m: Message) -> (viols: Vec<OwnershipViolation>)
    requires
        old(w).wf(),
        m@.wf(old(w)@.comp_arity, old(w)@.res_arity),
    ensures
        final(w).wf(),
        final(w)@ == spec_apply_message(old(w)@, m@).0,
        viols@ == spec_apply_message(old(w)@, m@).1,
{
    let ghost all = records_view(m.entities@);
    let ghost w1 = spec_apply_resources(old(w)@, m.resources@);
    apply_resources(w, m.resources);
    let mut viols: Vec<OwnershipViolation> = Vec::new();
    let mut recs = m.entities;
    let ghost mut done: int = 0;
    proof {
        assert(all.take(0) =~= Seq::<RecordV>::empty());
        assert(viols@ =~= spec_apply_records(w1, all.take(0)).1);
        assert(records_view(recs@) =~= all.subrange(0, all.len() as int));
    }
    while recs.len() > 0
        invariant
            w.wf(),
            0 <= done <= all.len(),
            done + recs@.len() == all.len(),
            records_view(recs@) =~= all.subrange(done, all.len() as int),
            w@.comp_arity == old(w)@.comp_arity,
            w@ == spec_apply_records(w1, all.take(done)).0,
            viols@ == spec_apply_records(w1, all.take(done)).1,
            forall|i: int|
                0 <= i < all.len() ==> ((#[trigger] all[i]).update matches UpdateV::Update(ss)
                    ==> ss.len() == old(w)@.comp_arity),
        decreases recs@.len(),
    {
        proof {
            assert(records_view(recs@)[0] == all.subrange(done, all.len() as int)[0]);
            lemma_apply_record_wf(w@, all[done]);
            lemma_spec_apply_records_push(w1, all.take(done), all[done]);
            assert(all.take(done).push(all[done]) =~= all.take(done + 1));
        }
        let ghost recs_pre = recs@;
        let rec = recs.remove(0);
        proof {
            assert(rec@ == records_view(recs_pre)[0]);
            assert(rec@ == all[done]);
        }
        let res = apply_record(w, rec);
        match res {
            Some(v) => {
                viols.push(v);
                proof {
                    assert(viols@ =~= spec_apply_records(w1, all.take(done + 1)).1);
                }
            },
            None => {
                proof {
                    assert(viols@ =~= spec_apply_records(w1, all.take(done + 1)).1);
                }
            },
        }
        proof {
            done = done + 1;
            assert forall|j: int|
                0 <= j < recs@.len() implies #[trigger] records_view(recs@)[j] == all.subrange(
                done,
                all.len() as int,
            )[j] by {
                assert(recs@[j] == recs_pre[j + 1]);
                assert(records_view(recs_pre)[j + 1] == all.subrange(
                    done - 1,
                    all.len() as int,
                )[j + 1]);
            }
            assert(records_view(recs@) =~= all.subrange(done, all.len() as int));
        }
    }
    proof {
        assert(all.take(done) =~= all);
    }
    viols
}

/// Top-level decode driver: parses one wire message against this world's
/// arities and applies it.
///
/// A structural error is fatal to the whole message and leaves the world
/// untouched; ownership violations abort only their own record and come
/// back collected, in record order, for the caller's peer policy.
pub fn sync_world(w: &mut World, bytes: &Vec<u8>) -> (r: Result<
    Vec<OwnershipViolation>,
    DecodeError,
>)
    requires
        old(w).wf(),
    ensures
        final(w).wf(),
        match r {
            Ok(viols) => parse_message(
                bytes@,
                old(w)@.comp_arity,
                old(w)@.res_arity,
            ) matches Some(m) && final(w)@ == spec_apply_message(old(w)@, m).0 && viols@
                == spec_apply_message(old(w)@, m).1,
            Err(_) => parse_message(bytes@, old(w)@.comp_arity, old(w)@.res_arity) is None
                && *final(w) == *old(w),
        },
{
    let comp_arity = w.comp_arity;
    let res_arity = w.res_arity;
    let m = match decode_message(bytes, comp_arity, res_arity) {
        Ok(m) => m,
        Err(e) => {
            return Err(e);
        },
    };
    Ok(apply_message(w, m))
}

} // verus!
