use netsync::apply::{apply_message, apply_record, apply_resources};
use netsync::codec::{EntityRecord, EntityUpdate, Message, ResourceBlock};
use netsync::error::OwnershipViolation;
use netsync::id::NetId;
use netsync::stat::NetStat;
use netsync::sync::SyncSeq;
use netsync::world::World;

fn record(id: u64, owner: u64, seq: u64, slots: Vec<Option<Vec<u8>>>) -> EntityRecord {
    EntityRecord {
        stat: NetStat {
            id: NetId(id),
            owner: NetId(owner),
            sync_seq: SyncSeq(seq),
        },
        update: EntityUpdate::Update(slots),
    }
}

fn remove(id: u64, owner: u64, seq: u64) -> EntityRecord {
    EntityRecord {
        stat: NetStat {
            id: NetId(id),
            owner: NetId(owner),
            sync_seq: SyncSeq(seq),
        },
        update: EntityUpdate::Remove,
    }
}

#[test]
fn sync_seq_gate() {
    let mut s = SyncSeq::new();
    assert_eq!(s, SyncSeq(0));
    assert!(s.update(SyncSeq(3)));
    assert_eq!(s, SyncSeq(3));
    assert!(!s.update(SyncSeq(3)));
    assert_eq!(s, SyncSeq(3));
    assert!(!s.update(SyncSeq(1)));
    assert_eq!(s, SyncSeq(3));
    assert!(s.update(SyncSeq(9)));
    assert_eq!(s, SyncSeq(9));
}

#[test]
fn net_stat_guard() {
    let mut st = NetStat::new(NetId(7), NetId(1));
    assert_eq!(st.sync_seq, SyncSeq(0));
    assert_eq!(st.id(), NetId(7));
    // same owner, newer sequence: accepted
    let newer = NetStat {
        id: NetId(7),
        owner: NetId(1),
        sync_seq: SyncSeq(2),
    };
    assert_eq!(st.update(newer), Ok(true));
    assert_eq!(st, newer);
    // same owner, stale sequence: silent no-op
    let stale = NetStat {
        id: NetId(7),
        owner: NetId(1),
        sync_seq: SyncSeq(2),
    };
    assert_eq!(st.update(stale), Ok(false));
    assert_eq!(st, newer);
    // different owner: rejected with the violation report
    let intruder = NetStat {
        id: NetId(7),
        owner: NetId(2),
        sync_seq: SyncSeq(9),
    };
    assert_eq!(
        st.update(intruder),
        Err(OwnershipViolation {
            updater: NetId(2),
            entity: NetId(7),
            owner: NetId(1),
        })
    );
    assert_eq!(st, newer);
}

// The scenario: an entity with status (id 5, owner 1, seq 3) and
// components (present with value, absent) rejects a stale update, rejects
// a non-owner update, and adopts an owned newer update.
#[test]
fn scenario_stale_owner_accept() {
    let mut w = World::new(2, 0);
    assert_eq!(
        apply_record(&mut w, record(5, 1, 3, vec![Some(vec![1]), None])),
        None
    );
    assert_eq!(w.get_component(0, 0), Some(&vec![1u8]));
    assert_eq!(w.get_component(0, 1), None);

    // seq 2 <= 3: stale, state unchanged
    assert_eq!(
        apply_record(&mut w, record(5, 1, 2, vec![Some(vec![9]), None])),
        None
    );
    assert_eq!(w.get_component(0, 0), Some(&vec![1u8]));
    assert_eq!(w.stat_of(0).sync_seq, SyncSeq(3));

    // owner 2 != 1: ownership violation, state unchanged even with seq 4
    assert_eq!(
        apply_record(&mut w, record(5, 2, 4, vec![Some(vec![9]), None])),
        Some(OwnershipViolation {
            updater: NetId(2),
            entity: NetId(5),
            owner: NetId(1),
        })
    );
    assert_eq!(w.get_component(0, 0), Some(&vec![1u8]));
    assert_eq!(w.stat_of(0).sync_seq, SyncSeq(3));

    // owner 1, seq 4: accepted, position becomes the new value
    assert_eq!(
        apply_record(&mut w, record(5, 1, 4, vec![Some(vec![2]), None])),
        None
    );
    assert_eq!(w.get_component(0, 0), Some(&vec![2u8]));
    assert_eq!(w.get_component(0, 1), None);
    assert_eq!(w.stat_of(0).sync_seq, SyncSeq(4));
}

#[test]
fn last_update_wins_slot_by_slot() {
    let mut w = World::new(3, 0);
    apply_record(&mut w, record(1, 1, 1, vec![Some(vec![1]), Some(vec![2]), None]));
    apply_record(&mut w, record(1, 1, 2, vec![None, Some(vec![5]), Some(vec![6])]));
    apply_record(&mut w, record(1, 1, 7, vec![Some(vec![8]), None, None]));
    // final state is exactly the last update's slots
    assert_eq!(w.get_component(0, 0), Some(&vec![8u8]));
    assert_eq!(w.get_component(0, 1), None);
    assert_eq!(w.get_component(0, 2), None);
    assert_eq!(w.stat_of(0).sync_seq, SyncSeq(7));
}

#[test]
fn out_of_order_delivery_is_noop() {
    let mut w = World::new(1, 0);
    apply_record(&mut w, record(4, 1, 8, vec![Some(vec![8])]));
    // the lower-sequence update arrives second: silent no-op
    assert_eq!(apply_record(&mut w, record(4, 1, 5, vec![Some(vec![5])])), None);
    assert_eq!(w.get_component(0, 0), Some(&vec![8u8]));
    assert_eq!(w.stat_of(0).sync_seq, SyncSeq(8));
}

#[test]
fn remove_frees_identity_for_reuse() {
    let mut w = World::new(1, 0);
    apply_record(&mut w, record(9, 1, 40, vec![Some(vec![1])]));
    assert_eq!(apply_record(&mut w, remove(9, 1, 41)), None);
    assert_eq!(w.find_entity(NetId(9)), None);
    // a later record with the same identity is brand new: its sequence 2
    // is far below the removed entity's 40, yet it is adopted
    assert_eq!(apply_record(&mut w, record(9, 1, 2, vec![Some(vec![3])])), None);
    let k = w.find_entity(NetId(9)).unwrap();
    assert_eq!(w.get_component(k, 0), Some(&vec![3u8]));
    assert_eq!(w.stat_of(k).sync_seq, SyncSeq(2));
}

#[test]
fn resources_apply_all_or_nothing() {
    let mut w = World::new(0, 2);
    apply_resources(
        &mut w,
        ResourceBlock {
            sync_seq: SyncSeq(5),
            slots: vec![Some(vec![10]), Some(vec![20])],
        },
    );
    assert_eq!(w.get_resource(0), Some(&vec![10u8]));
    assert_eq!(w.get_resource(1), Some(&vec![20u8]));
    // shared sequence does not advance: no slot applies, however new the
    // values look individually
    apply_resources(
        &mut w,
        ResourceBlock {
            sync_seq: SyncSeq(5),
            slots: vec![Some(vec![11]), Some(vec![21])],
        },
    );
    assert_eq!(w.get_resource(0), Some(&vec![10u8]));
    assert_eq!(w.get_resource(1), Some(&vec![20u8]));
    assert_eq!(w.res_seq, SyncSeq(5));
    // advancing applies every slot; an absent slot leaves the value
    apply_resources(
        &mut w,
        ResourceBlock {
            sync_seq: SyncSeq(6),
            slots: vec![None, Some(vec![22])],
        },
    );
    assert_eq!(w.get_resource(0), Some(&vec![10u8]));
    assert_eq!(w.get_resource(1), Some(&vec![22u8]));
    assert_eq!(w.res_seq, SyncSeq(6));
}

#[test]
fn violations_are_collected_not_fatal() {
    let mut w = World::new(1, 0);
    apply_record(&mut w, record(1, 1, 1, vec![Some(vec![1])]));
    apply_record(&mut w, record(2, 1, 1, vec![Some(vec![2])]));
    // one offending record in the middle does not stop the rest
    let msg = Message {
        resources: ResourceBlock {
            sync_seq: SyncSeq(0),
            slots: vec![],
        },
        entities: vec![
            record(1, 1, 2, vec![Some(vec![11])]),
            record(2, 9, 5, vec![Some(vec![99])]),
            record(3, 1, 1, vec![Some(vec![33])]),
        ],
    };
    let viols = apply_message(&mut w, msg);
    assert_eq!(
        viols,
        vec![OwnershipViolation {
            updater: NetId(9),
            entity: NetId(2),
            owner: NetId(1),
        }]
    );
    assert_eq!(w.get_component(0, 0), Some(&vec![11u8]));
    assert_eq!(w.get_component(1, 0), Some(&vec![2u8]));
    let k3 = w.find_entity(NetId(3)).unwrap();
    assert_eq!(w.get_component(k3, 0), Some(&vec![33u8]));
}

#[test]
fn sequence_at_the_counter_maximum() {
    let mut s = SyncSeq(0);
    assert!(s.update(SyncSeq(u64::MAX)));
    assert_eq!(s, SyncSeq(u64::MAX));
    // nothing is newer than the maximum
    assert!(!s.update(SyncSeq(u64::MAX)));
    assert!(!s.update(SyncSeq(0)));
    assert_eq!(s, SyncSeq(u64::MAX));
}

#[test]
fn two_records_for_one_entity_in_one_message() {
    let mut w = World::new(1, 0);
    let msg = Message {
        resources: ResourceBlock {
            sync_seq: SyncSeq(0),
            slots: vec![],
        },
        entities: vec![
            record(5, 1, 2, vec![Some(vec![2])]),
            // same identity again: gated against the first record's state
            record(5, 1, 1, vec![Some(vec![1])]), // stale against seq 2
            record(5, 1, 3, vec![Some(vec![3])]), // newer: wins
        ],
    };
    let viols = apply_message(&mut w, msg);
    assert!(viols.is_empty());
    assert_eq!(w.entities.len(), 1);
    assert_eq!(w.get_component(0, 0), Some(&vec![3u8]));
    assert_eq!(w.stat_of(0).sync_seq, SyncSeq(3));
}

#[test]
fn capability_interface_on_world() {
    let mut w = World::new(2, 1);
    let k = w.create_entity(NetStat::new(NetId(12), NetId(3)));
    assert_eq!(k, 0);
    assert_eq!(w.get_component(k, 0), None);
    w.insert_component(k, 0, vec![7, 7]);
    assert_eq!(w.get_component(k, 0), Some(&vec![7u8, 7u8]));
    w.insert_component(k, 0, vec![8]);
    assert_eq!(w.get_component(k, 0), Some(&vec![8u8]));
    w.remove_component(k, 0);
    assert_eq!(w.get_component(k, 0), None);
    // removing an absent component is idempotent
    w.remove_component(k, 0);
    assert_eq!(w.get_component(k, 0), None);
    assert_eq!(w.get_resource(0), None);
    w.replace_resource(0, vec![42]);
    assert_eq!(w.get_resource(0), Some(&vec![42u8]));
    w.delete_entity(k);
    assert_eq!(w.find_entity(NetId(12)), None);
}
