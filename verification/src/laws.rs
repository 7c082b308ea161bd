use vstd::prelude::*;
use crate::apply::{
    spec_apply_message, spec_apply_record, spec_apply_records, spec_apply_resources,
    lemma_apply_record_wf,
};
use crate::codec::{enc_message, msg_of_world, parse_message, lemma_parse_message_enc, RecordV,
    UpdateV};
use crate::error::OwnershipViolation;
use crate::sync::SyncSeq;
use crate::wire::slots_fit;
use crate::world::{
    lemma_idx_of_absent, lemma_idx_of_entity, lemma_idx_of_is_first, EntityV, WorldV,
};

verus! {

// The guarantees of the synchronization protocol, stated once and proved
// from the specification-level semantics that every executable function
// is pinned to.

/// Every payload anywhere in the world fits a 64-bit length prefix.
/// True of any world held in memory; needed only to state encode laws.
pub open spec fn world_fits(w: WorldV) -> bool {
    &&& slots_fit(w.resources)
    &&& forall|i: int| 0 <= i < w.entities.len() ==> slots_fit((#[trigger] w.entities[i]).comps)
}

/// The world a receiver starts from: no entities, no initialized
/// resources, resource sequence at zero.
pub open spec fn empty_world(comp_arity: nat, res_arity: nat) -> WorldV {
    WorldV {
        comp_arity,
        res_arity,
        res_seq: SyncSeq(0),
        resources: Seq::new(res_arity, |i: int| None),
        entities: Seq::empty(),
    }
}

/// An update record the world accepts: it speaks of a fresh identity, or
/// of an existing entity with the recorded owner and a strictly newer
/// sequence index.
pub open spec fn accepted_update(w: WorldV, r: RecordV) -> bool {
    &&& r.update is Update
    &&& r.update->Update_0.len() == w.comp_arity
    &&& (w.has(r.stat.id) ==> w.entities[w.idx_of(r.stat.id)].stat.owner == r.stat.owner
        && w.entities[w.idx_of(r.stat.id)].stat.sync_seq.0 < r.stat.sync_seq.0)
}

/// An accepted update leaves the entity carrying exactly the record's
/// status and slots, and reports nothing.
pub proof fn lemma_accepted_update(w: WorldV, r: RecordV)
    requires
        w.wf(),
        accepted_update(w, r),
    ensures
        spec_apply_record(w, r).1 is None,
        spec_apply_record(w, r).0.wf(),
        spec_apply_record(w, r).0.comp_arity == w.comp_arity,
        spec_apply_record(w, r).0.res_arity == w.res_arity,
        spec_apply_record(w, r).0.res_seq == w.res_seq,
        spec_apply_record(w, r).0.resources == w.resources,
        spec_apply_record(w, r).0.has(r.stat.id),
        spec_apply_record(w, r).0.entities[spec_apply_record(w, r).0.idx_of(r.stat.id)] == (EntityV {
            stat: r.stat,
            comps: r.update->Update_0,
        }),
{
    lemma_apply_record_wf(w, r);
    lemma_idx_of_entity(w.entities, r.stat.id);
    let k = w.idx_of(r.stat.id);
    let w1 = spec_apply_record(w, r).0;
    if k < w.entities.len() {
        assert forall|j: int| 0 <= j < k implies w1.entities[j].stat.id != r.stat.id by {
            assert(w1.entities[j] == w.entities[j]);
        }
        lemma_idx_of_is_first(w1.entities, r.stat.id, k);
    } else {
        lemma_idx_of_is_first(w1.entities, r.stat.id, w.entities.len() as int);
    }
}

/// Law: over any run of updates to one entity with strictly increasing
/// sequence indices and a constant owner, the final component state is
/// slot for slot the last update's state, the final status is the last
/// update's status, and no violation is reported.
pub proof fn lemma_last_update_wins(w: WorldV, rs: Seq<RecordV>)
    requires
        w.wf(),
        rs.len() > 0,
        forall|i: int| 0 <= i < rs.len() ==> (#[trigger] rs[i]).stat.id == rs[0].stat.id,
        forall|i: int| 0 <= i < rs.len() ==> (#[trigger] rs[i]).stat.owner == rs[0].stat.owner,
        forall|i: int| 0 <= i < rs.len() ==> (#[trigger] rs[i]).update is Update,
        forall|i: int|
            0 <= i < rs.len() ==> (#[trigger] rs[i]).update->Update_0.len() == w.comp_arity,
        forall|i: int|
            0 <= i < rs.len() - 1 ==> (#[trigger] rs[i]).stat.sync_seq.0 < rs[i
                + 1].stat.sync_seq.0,
        accepted_update(w, rs[0]),
    ensures
        spec_apply_records(w, rs).1 == Seq::<OwnershipViolation>::empty(),
        spec_apply_records(w, rs).0.wf(),
        spec_apply_records(w, rs).0.has(rs[0].stat.id),
        spec_apply_records(w, rs).0.entities[spec_apply_records(w, rs).0.idx_of(rs[0].stat.id)]
            == (EntityV { stat: rs.last().stat, comps: rs.last().update->Update_0 }),
    decreases rs.len(),
{
    lemma_accepted_update(w, rs[0]);
    let w1 = spec_apply_record(w, rs[0]).0;
    if rs.len() == 1 {
        assert(rs.last() == rs[0]);
        assert(rs.drop_first().len() == 0);
        assert(spec_apply_records(w1, rs.drop_first()) == (
            w1,
            Seq::<OwnershipViolation>::empty(),
        ));
        assert(spec_apply_records(w, rs).1 =~= Seq::<OwnershipViolation>::empty());
    } else {
        let tail = rs.drop_first();
        assert forall|i: int| 0 <= i < tail.len() implies (#[trigger] tail[i]).stat.id
            == tail[0].stat.id && tail[i].stat.owner == tail[0].stat.owner && tail[i].update
            is Update && tail[i].update->Update_0.len() == w1.comp_arity by {
            assert(tail[i] == rs[i + 1]);
            assert(tail[0] == rs[1]);
        }
        assert forall|i: int|
            0 <= i < tail.len() - 1 implies (#[trigger] tail[i]).stat.sync_seq.0 < tail[i
            + 1].stat.sync_seq.0 by {
            assert(tail[i] == rs[i + 1]);
            assert(tail[i + 1] == rs[i + 2]);
        }
        assert(tail[0] == rs[1]);
        assert(accepted_update(w1, tail[0]));
        lemma_last_update_wins(w1, tail);
        assert(tail.last() == rs.last());
        assert(spec_apply_records(w, rs).1 =~= Seq::<OwnershipViolation>::empty());
    }
}

/// Law: after a newer update was applied, an older (or equal) sequence
/// index from the same owner is a silent no-op — the world stays exactly
/// as the newer update left it, and nothing is reported.
pub proof fn lemma_out_of_order_noop(w: WorldV, r1: RecordV, r2: RecordV)
    requires
        w.wf(),
        accepted_update(w, r1),
        r2.stat.id == r1.stat.id,
        r2.stat.owner == r1.stat.owner,
        r2.stat.sync_seq.0 <= r1.stat.sync_seq.0,
    ensures
        spec_apply_record(spec_apply_record(w, r1).0, r2).0 == spec_apply_record(w, r1).0,
        spec_apply_record(spec_apply_record(w, r1).0, r2).1 is None,
{
    lemma_accepted_update(w, r1);
}

/// Law: a record whose claimed owner differs from the recorded owner
/// never mutates the world, whatever its sequence index, and is reported
/// as an ownership violation.
pub proof fn lemma_wrong_owner_rejected(w: WorldV, r: RecordV)
    requires
        w.wf(),
        w.has(r.stat.id),
        w.entities[w.idx_of(r.stat.id)].stat.owner != r.stat.owner,
    ensures
        spec_apply_record(w, r).0 == w,
        spec_apply_record(w, r).1 == Some(
            OwnershipViolation {
                updater: r.stat.owner,
                entity: r.stat.id,
                owner: w.entities[w.idx_of(r.stat.id)].stat.owner,
            },
        ),
{
}

/// Law: an accepted remove deletes the entity and frees its identity, so
/// that a following record with the same identity is a brand-new entity:
/// whatever its sequence index, it is adopted as it stands, with no stale
/// rejection against the removed entity's old counter.
pub proof fn lemma_remove_frees_identity(w: WorldV, rem: RecordV, r: RecordV)
    requires
        w.wf(),
        rem.update is Remove,
        w.has(rem.stat.id),
        w.entities[w.idx_of(rem.stat.id)].stat.owner == rem.stat.owner,
        w.entities[w.idx_of(rem.stat.id)].stat.sync_seq.0 < rem.stat.sync_seq.0,
        r.stat.id == rem.stat.id,
        r.update is Update,
        r.update->Update_0.len() == w.comp_arity,
    ensures
        spec_apply_record(w, rem).1 is None,
        !spec_apply_record(w, rem).0.has(rem.stat.id),
        spec_apply_record(spec_apply_record(w, rem).0, r).1 is None,
        spec_apply_record(spec_apply_record(w, rem).0, r).0.has(r.stat.id),
        ({
            let w2 = spec_apply_record(spec_apply_record(w, rem).0, r).0;
            w2.entities[w2.idx_of(r.stat.id)] == (EntityV {
                stat: r.stat,
                comps: r.update->Update_0,
            })
        }),
{
    lemma_apply_record_wf(w, rem);
    lemma_idx_of_entity(w.entities, rem.stat.id);
    let k = w.idx_of(rem.stat.id);
    let w1 = spec_apply_record(w, rem).0;
    assert forall|j: int| 0 <= j < w1.entities.len() implies w1.entities[j].stat.id
        != rem.stat.id by {
        if j < k {
        } else {
            assert(w1.entities[j] == w.entities[j + 1]);
        }
    }
    lemma_idx_of_absent(w1.entities, rem.stat.id);
    lemma_accepted_update(w1, r);
}

/// Law: the resource group is all-or-nothing — when the shared sequence
/// does not advance, not one of the resource slots is applied.
pub proof fn lemma_resources_all_or_nothing(w: WorldV, rb: crate::codec::ResourceBlockV)
    requires
        rb.sync_seq.0 <= w.res_seq.0,
    ensures
        spec_apply_resources(w, rb) == w,
{
}

/// Applying a run of fresh update records creates exactly those entities,
/// in order, after the ones already there.
pub proof fn lemma_apply_fresh_updates(w0: WorldV, rs: Seq<RecordV>)
    requires
        w0.wf(),
        forall|i: int| 0 <= i < rs.len() ==> (#[trigger] rs[i]).update is Update,
        forall|i: int|
            0 <= i < rs.len() ==> (#[trigger] rs[i]).update->Update_0.len() == w0.comp_arity,
        forall|i: int, j: int|
            #![trigger rs[i], rs[j]]
            0 <= i < j < rs.len() ==> rs[i].stat.id != rs[j].stat.id,
        forall|i: int| 0 <= i < rs.len() ==> !w0.has((#[trigger] rs[i]).stat.id),
    ensures
        spec_apply_records(w0, rs).1 == Seq::<OwnershipViolation>::empty(),
        spec_apply_records(w0, rs).0 == (WorldV {
            entities: w0.entities + Seq::new(
                rs.len(),
                |i: int| EntityV { stat: rs[i].stat, comps: rs[i].update->Update_0 },
            ),
            ..w0
        }),
    decreases rs.len(),
{
    let created = Seq::new(
        rs.len(),
        |i: int| EntityV { stat: rs[i].stat, comps: rs[i].update->Update_0 },
    );
    if rs.len() == 0 {
        assert(w0.entities + created =~= w0.entities);
        assert(spec_apply_records(w0, rs).0 =~= (WorldV { entities: w0.entities + created, ..w0 }));
    } else {
        assert(accepted_update(w0, rs[0]));
        lemma_accepted_update(w0, rs[0]);
        lemma_idx_of_entity(w0.entities, rs[0].stat.id);
        let e0 = EntityV { stat: rs[0].stat, comps: rs[0].update->Update_0 };
        let w1 = spec_apply_record(w0, rs[0]).0;
        assert(w1.entities == w0.entities.push(e0));
        let tail = rs.drop_first();
        assert forall|i: int| 0 <= i < tail.len() implies (#[trigger] tail[i]).update is Update
            && tail[i].update->Update_0.len() == w1.comp_arity by {
            assert(tail[i] == rs[i + 1]);
        }
        assert forall|i: int, j: int|
            #![trigger tail[i], tail[j]]
            0 <= i < j < tail.len() implies tail[i].stat.id != tail[j].stat.id by {
            assert(tail[i] == rs[i + 1]);
            assert(tail[j] == rs[j + 1]);
        }
        assert forall|i: int| 0 <= i < tail.len() implies !w1.has(
            (#[trigger] tail[i]).stat.id,
        ) by {
            assert(tail[i] == rs[i + 1]);
            let id = rs[i + 1].stat.id;
            lemma_idx_of_entity(w0.entities, id);
            assert forall|j: int| 0 <= j < w1.entities.len() implies w1.entities[j].stat.id
                != id by {
                if j < w0.entities.len() {
                    assert(w1.entities[j] == w0.entities[j]);
                } else {
                    assert(w1.entities[j] == e0);
                    assert(rs[0].stat.id != rs[i + 1].stat.id);
                }
            }
            lemma_idx_of_absent(w1.entities, id);
        }
        lemma_apply_fresh_updates(w1, tail);
        let created_tail = Seq::new(
            tail.len(),
            |i: int| EntityV { stat: tail[i].stat, comps: tail[i].update->Update_0 },
        );
        assert(w0.entities.push(e0) + created_tail =~= w0.entities + created) by {
            assert forall|i: int| 0 <= i < created.len() implies created[i] == (w0.entities.push(e0)
                + created_tail)[w0.entities.len() + i] by {
                if i >= 1 {
                    assert(tail[i - 1] == rs[i]);
                }
            }
        }
        assert(spec_apply_records(w0, rs).0 =~= (WorldV { entities: w0.entities + created, ..w0 }));
        assert(spec_apply_records(w0, rs).1 =~= Seq::<OwnershipViolation>::empty());
    }
}

/// Law: a full snapshot round-trips — decoding the encoding of a world
/// into an empty world rebuilds the same entity set, component
/// assignments, resource values and sequence indices, with no violation
/// reported.  (A snapshot whose resource sequence is still zero cannot
/// advance the receiver's zero counter, so it is left out.)
pub proof fn lemma_world_round_trip(w: WorldV)
    requires
        w.wf(),
        w.res_seq.0 > 0,
        world_fits(w),
    ensures
        parse_message(enc_message(msg_of_world(w)), w.comp_arity, w.res_arity) == Some(
            msg_of_world(w),
        ),
        spec_apply_message(empty_world(w.comp_arity, w.res_arity), msg_of_world(w)).0 == w,
        spec_apply_message(empty_world(w.comp_arity, w.res_arity), msg_of_world(w)).1 == Seq::<
            OwnershipViolation,
        >::empty(),
{
    let m = msg_of_world(w);
    let w0 = empty_world(w.comp_arity, w.res_arity);
    assert(m.wf(w.comp_arity, w.res_arity));
    assert(m.fits()) by {
        assert(forall|i: int|
            0 <= i < m.records.len() ==> (#[trigger] m.records[i]).update == UpdateV::Update(
                w.entities[i].comps,
            ));
    }
    lemma_parse_message_enc(m, w.comp_arity, w.res_arity);
    let w1 = spec_apply_resources(w0, m.resources);
    assert(w1.resources =~= w.resources);
    assert(w1 =~= (WorldV { res_seq: w.res_seq, resources: w.resources, ..w0 }));
    assert(w1.wf());
    assert forall|i: int| 0 <= i < m.records.len() implies !w1.has(
        (#[trigger] m.records[i]).stat.id,
    ) by {
        lemma_idx_of_entity(w1.entities, m.records[i].stat.id);
    }
    assert forall|i: int, j: int|
        #![trigger m.records[i], m.records[j]]
        0 <= i < j < m.records.len() implies m.records[i].stat.id != m.records[j].stat.id by {
        assert(w.entities[i].stat.id != w.entities[j].stat.id);
    }
    lemma_apply_fresh_updates(w1, m.records);
    let created = Seq::new(
        m.records.len(),
        |i: int| EntityV { stat: m.records[i].stat, comps: m.records[i].update->Update_0 },
    );
    assert(w1.entities + created =~= w.entities) by {
        assert forall|i: int| 0 <= i < w.entities.len() implies (w1.entities + created)[i]
            =~= w.entities[i] by {}
    }
    assert(spec_apply_message(w0, m).0 =~= w);
}

} // verus!
