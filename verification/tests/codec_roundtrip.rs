use netsync::apply::{apply_message, sync_world};
use netsync::codec::{decode_message, encode_message, encode_world, EntityRecord, EntityUpdate,
    Message, ResourceBlock};
use netsync::id::NetId;
use netsync::stat::NetStat;
use netsync::sync::SyncSeq;
use netsync::world::World;

fn stat(id: u64, owner: u64, seq: u64) -> NetStat {
    NetStat {
        id: NetId(id),
        owner: NetId(owner),
        sync_seq: SyncSeq(seq),
    }
}

fn assert_same_world(a: &World, b: &World) {
    assert_eq!(a.res_seq, b.res_seq);
    assert_eq!(a.entities.len(), b.entities.len());
    for i in 0..a.entities.len() {
        let other = b
            .find_entity(a.entities[i].stat.id)
            .expect("entity missing after round trip");
        assert_eq!(a.entities[i].stat, b.entities[other].stat);
        assert_eq!(a.entities[i].comps, b.entities[other].comps);
    }
    assert_eq!(a.resources, b.resources);
}

#[test]
fn exact_wire_bytes() {
    // one entity record, no resources: sequence 1, id 2, owner 3, seq 4,
    // update with one present one-byte payload and one absent slot
    let msg = Message {
        resources: ResourceBlock {
            sync_seq: SyncSeq(1),
            slots: vec![],
        },
        entities: vec![EntityRecord {
            stat: stat(2, 3, 4),
            update: EntityUpdate::Update(vec![Some(vec![0xAB]), None]),
        }],
    };
    let bytes = encode_message(&msg);
    let expected: Vec<u8> = vec![
        1, 0, 0, 0, 0, 0, 0, 0, // resource group sequence
        2, 0, 0, 0, 0, 0, 0, 0, // entity id
        3, 0, 0, 0, 0, 0, 0, 0, // owner id
        4, 0, 0, 0, 0, 0, 0, 0, // entity sequence
        0, // update tag
        1, // slot present
        1, 0, 0, 0, 0, 0, 0, 0, // payload length
        0xAB, // payload
        0, // slot absent
    ];
    assert_eq!(bytes, expected);
}

#[test]
fn round_trip_empty_world() {
    let mut w = World::new(2, 1);
    w.res_seq = SyncSeq(1);
    let bytes = encode_world(&w);
    let msg = decode_message(&bytes, 2, 1).expect("decode failed");
    let mut fresh = World::new(2, 1);
    let viols = apply_message(&mut fresh, msg);
    assert!(viols.is_empty());
    assert_same_world(&w, &fresh);
}

#[test]
fn round_trip_one_entity() {
    let mut w = World::new(2, 0);
    let k = w.create_entity(stat(5, 1, 3));
    w.insert_component(k, 0, vec![1, 2, 3]);
    let bytes = encode_world(&w);
    let msg = decode_message(&bytes, 2, 0).expect("decode failed");
    let mut fresh = World::new(2, 0);
    let viols = apply_message(&mut fresh, msg);
    assert!(viols.is_empty());
    assert_same_world(&w, &fresh);
}

#[test]
fn round_trip_many_entities_and_resources() {
    let mut w = World::new(3, 2);
    w.res_seq = SyncSeq(7);
    w.replace_resource(0, vec![9, 9, 9]);
    // resource slot 1 stays uninitialized
    let a = w.create_entity(stat(10, 1, 4));
    w.insert_component(a, 0, vec![1]);
    w.insert_component(a, 2, vec![]);
    let b = w.create_entity(stat(11, 2, 9));
    w.insert_component(b, 1, vec![255, 0, 255]);
    let _empty_comps = w.create_entity(stat(12, 1, 1));

    let bytes = encode_world(&w);
    let msg = decode_message(&bytes, 3, 2).expect("decode failed");
    let mut fresh = World::new(3, 2);
    let viols = apply_message(&mut fresh, msg);
    assert!(viols.is_empty());
    assert_same_world(&w, &fresh);
}

#[test]
fn message_round_trip_with_remove() {
    let msg = Message {
        resources: ResourceBlock {
            sync_seq: SyncSeq(2),
            slots: vec![None, Some(vec![5])],
        },
        entities: vec![
            EntityRecord {
                stat: stat(1, 1, 1),
                update: EntityUpdate::Update(vec![None]),
            },
            EntityRecord {
                stat: stat(2, 1, 1),
                update: EntityUpdate::Remove,
            },
        ],
    };
    let bytes = encode_message(&msg);
    let back = decode_message(&bytes, 1, 2).expect("decode failed");
    assert_eq!(back.resources.sync_seq, SyncSeq(2));
    assert_eq!(back.resources.slots, vec![None, Some(vec![5])]);
    assert_eq!(back.entities.len(), 2);
    assert_eq!(back.entities[0].stat, stat(1, 1, 1));
    assert!(matches!(
        back.entities[0].update,
        EntityUpdate::Update(ref ss) if ss == &vec![None]
    ));
    assert_eq!(back.entities[1].stat, stat(2, 1, 1));
    assert!(matches!(back.entities[1].update, EntityUpdate::Remove));
}

#[test]
fn sync_world_drives_decode_and_apply() {
    let mut w = World::new(1, 1);
    w.res_seq = SyncSeq(4);
    w.replace_resource(0, vec![6]);
    let k = w.create_entity(stat(30, 2, 12));
    w.insert_component(k, 0, vec![1, 2]);

    let bytes = encode_world(&w);
    let mut fresh = World::new(1, 1);
    let viols = sync_world(&mut fresh, &bytes).expect("structurally valid");
    assert!(viols.is_empty());
    assert_same_world(&w, &fresh);

    // a structural error leaves the world exactly as it stands
    let before_len = fresh.entities.len();
    assert!(sync_world(&mut fresh, &vec![9, 9]).is_err());
    assert_eq!(fresh.entities.len(), before_len);
    assert_same_world(&w, &fresh);
}

#[test]
fn decode_rejects_truncated_message() {
    // too short for even the resource sequence
    assert!(decode_message(&vec![1, 2, 3], 0, 0).is_err());
    // a record whose slots run past the end of the stream
    let msg = Message {
        resources: ResourceBlock {
            sync_seq: SyncSeq(1),
            slots: vec![],
        },
        entities: vec![EntityRecord {
            stat: stat(1, 1, 1),
            update: EntityUpdate::Update(vec![Some(vec![1, 2, 3])]),
        }],
    };
    let mut bytes = encode_message(&msg);
    bytes.pop();
    assert!(decode_message(&bytes, 1, 0).is_err());
}

#[test]
fn decode_rejects_bad_tag() {
    let mut bytes = vec![0u8; 8]; // resource sequence 0
    bytes.push(7); // no slot starts with tag 7
    assert!(decode_message(&bytes, 0, 1).is_err());
}

#[test]
fn decode_rejects_wrong_arity() {
    // encoded with two component slots, decoded expecting three
    let msg = Message {
        resources: ResourceBlock {
            sync_seq: SyncSeq(1),
            slots: vec![],
        },
        entities: vec![EntityRecord {
            stat: stat(1, 1, 1),
            update: EntityUpdate::Update(vec![None, None]),
        }],
    };
    let bytes = encode_message(&msg);
    assert!(decode_message(&bytes, 3, 0).is_err());
}

#[test]
fn structural_error_applies_nothing() {
    let mut w = World::new(1, 0);
    let msg = Message {
        resources: ResourceBlock {
            sync_seq: SyncSeq(0),
            slots: vec![],
        },
        entities: vec![EntityRecord {
            stat: stat(1, 1, 1),
            update: EntityUpdate::Update(vec![Some(vec![1])]),
        }],
    };
    let mut bytes = encode_message(&msg);
    bytes.push(0xEE); // trailing garbage breaks the whole message
    assert!(decode_message(&bytes, 1, 0).is_err());
    // the world was never touched: decode failed before any apply
    assert_eq!(w.entities.len(), 0);
    let _ = &mut w;
}
