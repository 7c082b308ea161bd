use vstd::prelude::*;
use crate::error::DecodeError;
use crate::id::NetId;
use crate::stat::NetStat;
use crate::sync::SyncSeq;
use crate::wire::{
    enc_slots, lemma_parse_slots_enc, lemma_parse_slots_len, parse_slots, parse_u64,
    lemma_parse_u64_enc, push_u64, read_slots, read_u64, slots_fit, u64_le_bytes, write_slots,
};
use crate::world::{slots_view, World, WorldV};

verus! {

// Wire message shape, outermost first:
//
//   Message        := ResourceBlock EntityRecord*   (records until stream end)
//   ResourceBlock  := SyncSeq Slot^res_arity
//   EntityRecord   := NetStat (0 Slot^comp_arity | 1)
//   NetStat        := NetId NetId SyncSeq           (three 64-bit integers)
//   Slot           := 0 | 1 Payload
//
// The per-entity tagged union is `Update` (tag 0) carrying one slot per
// syncable component type in fixed order, or `Remove` (tag 1).

/// Instruction of one entity record: replace the component slots, or
/// delete the entity.
pub enum EntityUpdate {
    Update(Vec<Option<Vec<u8>>>),
    Remove,
}

/// Mathematical view of an entity instruction.
#[verifier::ext_equal]
pub enum UpdateV {
    Update(Seq<Option<Seq<u8>>>),
    Remove,
}

impl View for EntityUpdate {
    type V = UpdateV;

    open spec fn view(&self) -> UpdateV {
        match self {
            EntityUpdate::Update(v) => UpdateV::Update(slots_view(v@)),
            EntityUpdate::Remove => UpdateV::Remove,
        }
    }
}

/// One per-entity record of a message: the claimed status, then the
/// instruction.
pub struct EntityRecord {
    pub stat: NetStat,
    pub update: EntityUpdate,
}

/// Mathematical view of an entity record.
#[verifier::ext_equal]
pub struct RecordV {
    pub stat: NetStat,
    pub update: UpdateV,
}

impl View for EntityRecord {
    type V = RecordV;

    open spec fn view(&self) -> RecordV {
        RecordV { stat: self.stat, update: self.update@ }
    }
}

/// The resource group of a message: the shared sequence index, then one
/// slot per syncable resource type in fixed order.
pub struct ResourceBlock {
    pub sync_seq: SyncSeq,
    pub slots: Vec<Option<Vec<u8>>>,
}

/// Mathematical view of a resource block.
#[verifier::ext_equal]
pub struct ResourceBlockV {
    pub sync_seq: SyncSeq,
    pub slots: Seq<Option<Seq<u8>>>,
}

impl View for ResourceBlock {
    type V = ResourceBlockV;

    open spec fn view(&self) -> ResourceBlockV {
        ResourceBlockV { sync_seq: self.sync_seq, slots: slots_view(self.slots@) }
    }
}

/// View of a record list.
pub open spec fn records_view(v: Seq<EntityRecord>) -> Seq<RecordV> {
    Seq::new(v.len(), |i: int| v[i]@)
}

/// One whole wire message: the resource group, then the entity records.
pub struct Message {
    pub resources: ResourceBlock,
    pub entities: Vec<EntityRecord>,
}

/// Mathematical view of a message.
#[verifier::ext_equal]
pub struct MessageV {
    pub resources: ResourceBlockV,
    pub records: Seq<RecordV>,
}

impl View for Message {
    type V = MessageV;

    open spec fn view(&self) -> MessageV {
        MessageV { resources: self.resources@, records: records_view(self.entities@) }
    }
}

impl MessageV {
    /// The slot lists match the arities both ends agreed on at compile
    /// time.
    pub open spec fn wf(self, comp_arity: nat, res_arity: nat) -> bool {
        &&& self.resources.slots.len() == res_arity
        &&& forall|i: int|
            0 <= i < self.records.len() ==> ((#[trigger] self.records[i]).update matches
            UpdateV::Update(ss) ==> ss.len() == comp_arity)
    }

    /// Every payload fits its 64-bit length prefix.
    pub open spec fn fits(self) -> bool {
        &&& slots_fit(self.resources.slots)
        &&& forall|i: int|
            0 <= i < self.records.len() ==> ((#[trigger] self.records[i]).update matches
            UpdateV::Update(ss) ==> slots_fit(ss))
    }
}

// ---------------------------------------------------------------------
// Specification-level encoding.

/// Encoding of a network status record: three 64-bit integers.
pub open spec fn enc_stat(st: NetStat) -> Seq<u8> {
    u64_le_bytes(st.id.0) + u64_le_bytes(st.owner.0) + u64_le_bytes(st.sync_seq.0)
}

/// Encoding of an entity instruction: the union tag, then the slots for
/// an update.
pub open spec fn enc_update(u: UpdateV) -> Seq<u8> {
    match u {
        UpdateV::Update(ss) => seq![0u8] + enc_slots(ss),
        UpdateV::Remove => seq![1u8],
    }
}

/// Encoding of one entity record.
pub open spec fn enc_record(r: RecordV) -> Seq<u8> {
    enc_stat(r.stat) + enc_update(r.update)
}

/// Encoding of the record list, in order.
pub open spec fn enc_records(rs: Seq<RecordV>) -> Seq<u8>
    decreases rs.len(),
{
    if rs.len() == 0 {
        Seq::empty()
    } else {
        enc_record(rs[0]) + enc_records(rs.drop_first())
    }
}

/// Appending one record to a list appends its encoding.
pub proof fn lemma_enc_records_push(rs: Seq<RecordV>, r: RecordV)
    ensures
        enc_records(rs.push(r)) == enc_records(rs) + enc_record(r),
    decreases rs.len(),
{
    if rs.len() == 0 {
        assert(rs.push(r).drop_first() =~= rs);
        assert(enc_records(rs.push(r)) =~= enc_records(rs) + enc_record(r));
    } else {
        assert(rs.push(r).drop_first() =~= rs.drop_first().push(r));
        lemma_enc_records_push(rs.drop_first(), r);
        assert(enc_records(rs.push(r)) =~= enc_records(rs) + enc_record(r));
    }
}

/// Encoding of the resource block.
pub open spec fn enc_resource_block(rb: ResourceBlockV) -> Seq<u8> {
    u64_le_bytes(rb.sync_seq.0) + enc_slots(rb.slots)
}

/// Encoding of a whole message.
pub open spec fn enc_message(m: MessageV) -> Seq<u8> {
    enc_resource_block(m.resources) + enc_records(m.records)
}

// ---------------------------------------------------------------------
// Specification-level parsing.

/// A network status record at `pos`.
pub open spec fn parse_stat(b: Seq<u8>, pos: int) -> Option<(NetStat, int)> {
    match parse_u64(b, pos) {
        Some((id, p1)) => match parse_u64(b, p1) {
            Some((owner, p2)) => match parse_u64(b, p2) {
                Some((sq, p3)) => Some(
                    (NetStat { id: NetId(id), owner: NetId(owner), sync_seq: SyncSeq(sq) }, p3),
                ),
                None => None,
            },
            None => None,
        },
        None => None,
    }
}

/// An entity instruction at `pos`, with `n` component slots per update.
pub open spec fn parse_update(b: Seq<u8>, pos: int, n: nat) -> Option<(UpdateV, int)> {
    if 0 <= pos < b.len() {
        if b[pos] == 0 {
            match parse_slots(b, pos + 1, n) {
                Some((ss, q)) => Some((UpdateV::Update(ss), q)),
                None => None,
            }
        } else if b[pos] == 1 {
            Some((UpdateV::Remove, pos + 1))
        } else {
            None
        }
    } else {
        None
    }
}

/// One entity record at `pos`.
pub open spec fn parse_record(b: Seq<u8>, pos: int, n: nat) -> Option<(RecordV, int)> {
    match parse_stat(b, pos) {
        Some((st, p)) => match parse_update(b, p, n) {
            Some((u, q)) => Some((RecordV { stat: st, update: u }, q)),
            None => None,
        },
        None => None,
    }
}

/// The entity records from `pos` to the end of the buffer.
pub open spec fn parse_records(b: Seq<u8>, pos: int, n: nat) -> Option<Seq<RecordV>>
    decreases b.len() - pos,
{
    if pos == b.len() {
        Some(Seq::empty())
    } else if 0 <= pos < b.len() {
        match parse_record(b, pos, n) {
            Some((r, q)) => if pos < q <= b.len() {
                match parse_records(b, q, n) {
                    Some(rest) => Some(seq![r] + rest),
                    None => None,
                }
            } else {
                None
            },
            None => None,
        }
    } else {
        None
    }
}

/// The resource block at `pos`, with `rn` resource slots.
pub open spec fn parse_resource_block(b: Seq<u8>, pos: int, rn: nat) -> Option<
    (ResourceBlockV, int),
> {
    match parse_u64(b, pos) {
        Some((sq, p)) => match parse_slots(b, p, rn) {
            Some((ss, q)) => Some((ResourceBlockV { sync_seq: SyncSeq(sq), slots: ss }, q)),
            None => None,
        },
        None => None,
    }
}

/// A whole message: the resource block, then records until stream end.
pub open spec fn parse_message(b: Seq<u8>, comp_arity: nat, res_arity: nat) -> Option<MessageV> {
    match parse_resource_block(b, 0, res_arity) {
        Some((rb, p)) => match parse_records(b, p, comp_arity) {
            Some(rs) => Some(MessageV { resources: rb, records: rs }),
            None => None,
        },
        None => None,
    }
}

/// Whatever parses is well-formed: slot lists have the agreed lengths.
pub proof fn lemma_parse_records_wf(b: Seq<u8>, pos: int, n: nat)
    requires
        parse_records(b, pos, n) is Some,
    ensures
        parse_records(b, pos, n) matches Some(rs) ==> forall|i: int|
            0 <= i < rs.len() ==> ((#[trigger] rs[i]).update matches UpdateV::Update(ss)
                ==> ss.len() == n),
    decreases b.len() - pos,
{
    if pos == b.len() {
    } else if 0 <= pos < b.len() {
        let rq = parse_record(b, pos, n)->0;
        let stp = parse_stat(b, pos)->0;
    let p = stp.1;
        if b[p] == 0 {
            lemma_parse_slots_len(b, p + 1, n);
        }
        if pos < rq.1 <= b.len() {
            lemma_parse_records_wf(b, rq.1, n);
            let rest = parse_records(b, rq.1, n)->0;
            let rs = parse_records(b, pos, n)->0;
            assert forall|i: int|
                0 <= i < rs.len() implies ((#[trigger] rs[i]).update matches UpdateV::Update(ss)
                ==> ss.len() == n) by {
                if i >= 1 {
                    assert(rs[i] == rest[i - 1]);
                }
            }
        }
    }
}

/// A message that parses is well-formed for the arities it was parsed
/// with.
pub proof fn lemma_parse_message_wf(b: Seq<u8>, comp_arity: nat, res_arity: nat)
    requires
        parse_message(b, comp_arity, res_arity) is Some,
    ensures
        parse_message(b, comp_arity, res_arity) matches Some(m) ==> m.wf(comp_arity, res_arity),
{
    let rbp = parse_resource_block(b, 0, res_arity)->0;
    let sqp = parse_u64(b, 0)->0;
    let p = sqp.1;
    lemma_parse_slots_len(b, p, res_arity);
    lemma_parse_records_wf(b, rbp.1, comp_arity);
}

// ---------------------------------------------------------------------
// Completeness: a buffer that carries an encoding parses back to the
// encoded value.

/// A buffer carrying `enc_stat(st)` at `pos` parses to `st`.
pub proof fn lemma_parse_stat_enc(b: Seq<u8>, pos: int, st: NetStat)
    requires
        0 <= pos,
        pos + 24 <= b.len(),
        b.subrange(pos, pos + 24) == enc_stat(st),
    ensures
        parse_stat(b, pos) == Some((st, pos + 24)),
{
    let e = enc_stat(st);
    assert(b.subrange(pos, pos + 8) =~= e.subrange(0, 8));
    assert(e.subrange(0, 8) =~= u64_le_bytes(st.id.0));
    lemma_parse_u64_enc(b, pos, st.id.0);
    assert(b.subrange(pos + 8, pos + 16) =~= e.subrange(8, 16));
    assert(e.subrange(8, 16) =~= u64_le_bytes(st.owner.0));
    lemma_parse_u64_enc(b, pos + 8, st.owner.0);
    assert(b.subrange(pos + 16, pos + 24) =~= e.subrange(16, 24));
    assert(e.subrange(16, 24) =~= u64_le_bytes(st.sync_seq.0));
    lemma_parse_u64_enc(b, pos + 16, st.sync_seq.0);
}

/// A buffer carrying `enc_update(u)` at `pos` parses to `u`.
pub proof fn lemma_parse_update_enc(b: Seq<u8>, pos: int, u: UpdateV, n: nat)
    requires
        0 <= pos,
        u matches UpdateV::Update(ss) ==> ss.len() == n && slots_fit(ss),
        pos + enc_update(u).len() <= b.len(),
        b.subrange(pos, pos + enc_update(u).len() as int) == enc_update(u),
    ensures
        parse_update(b, pos, n) == Some((u, pos + enc_update(u).len())),
{
    let e = enc_update(u);
    assert(b[pos] == e[0]);
    match u {
        UpdateV::Update(ss) => {
            assert(e[0] == 0);
            let es = enc_slots(ss);
            assert(b.subrange(pos + 1, pos + 1 + es.len() as int) =~= e.subrange(
                1,
                1 + es.len() as int,
            ));
            assert(e.subrange(1, 1 + es.len() as int) =~= es);
            lemma_parse_slots_enc(b, pos + 1, ss);
        },
        UpdateV::Remove => {
            assert(e[0] == 1);
        },
    }
}

/// A buffer carrying `enc_record(r)` at `pos` parses to `r`.
pub proof fn lemma_parse_record_enc(b: Seq<u8>, pos: int, r: RecordV, n: nat)
    requires
        0 <= pos,
        r.update matches UpdateV::Update(ss) ==> ss.len() == n && slots_fit(ss),
        pos + enc_record(r).len() <= b.len(),
        b.subrange(pos, pos + enc_record(r).len() as int) == enc_record(r),
    ensures
        parse_record(b, pos, n) == Some((r, pos + enc_record(r).len())),
{
    let e = enc_record(r);
    let eu = enc_update(r.update);
    assert(e.len() == 24 + eu.len());
    assert(b.subrange(pos, pos + 24) =~= e.subrange(0, 24));
    assert(e.subrange(0, 24) =~= enc_stat(r.stat));
    lemma_parse_stat_enc(b, pos, r.stat);
    assert(b.subrange(pos + 24, pos + 24 + eu.len() as int) =~= e.subrange(
        24,
        24 + eu.len() as int,
    ));
    assert(e.subrange(24, 24 + eu.len() as int) =~= eu);
    lemma_parse_update_enc(b, pos + 24, r.update, n);
}

/// A buffer whose tail from `pos` is exactly `enc_records(rs)` parses to
/// `rs`.
pub proof fn lemma_parse_records_enc(b: Seq<u8>, pos: int, rs: Seq<RecordV>, n: nat)
    requires
        0 <= pos,
        forall|i: int|
            0 <= i < rs.len() ==> ((#[trigger] rs[i]).update matches UpdateV::Update(ss)
                ==> ss.len() == n && slots_fit(ss)),
        pos + enc_records(rs).len() == b.len(),
        b.subrange(pos, b.len() as int) == enc_records(rs),
    ensures
        parse_records(b, pos, n) == Some(rs),
    decreases rs.len(),
{
    if rs.len() == 0 {
        assert(pos == b.len());
        assert(rs =~= Seq::<RecordV>::empty());
    } else {
        let e = enc_records(rs);
        let e0 = enc_record(rs[0]);
        assert(e == e0 + enc_records(rs.drop_first()));
        assert(e0.len() >= 25) by {
            assert(enc_update(rs[0].update).len() >= 1);
        }
        assert(b.subrange(pos, pos + e0.len() as int) =~= e.subrange(0, e0.len() as int));
        assert(e.subrange(0, e0.len() as int) =~= e0);
        lemma_parse_record_enc(b, pos, rs[0], n);
        let q = pos + e0.len();
        assert(b.subrange(q, b.len() as int) =~= e.subrange(e0.len() as int, e.len() as int));
        assert(e.subrange(e0.len() as int, e.len() as int) =~= enc_records(rs.drop_first()));
        lemma_parse_records_enc(b, q, rs.drop_first(), n);
        assert(seq![rs[0]] + rs.drop_first() =~= rs);
    }
}

/// Decoding inverts encoding: a buffer that is exactly the encoding of a
/// well-formed message parses back to that message.
pub proof fn lemma_parse_message_enc(m: MessageV, comp_arity: nat, res_arity: nat)
    requires
        m.wf(comp_arity, res_arity),
        m.fits(),
    ensures
        parse_message(enc_message(m), comp_arity, res_arity) == Some(m),
{
    let b = enc_message(m);
    let erb = enc_resource_block(m.resources);
    let es = enc_slots(m.resources.slots);
    assert(b.subrange(0, 8) =~= erb.subrange(0, 8));
    assert(erb.subrange(0, 8) =~= u64_le_bytes(m.resources.sync_seq.0));
    assert(b.subrange(0, 8) =~= u64_le_bytes(m.resources.sync_seq.0));
    lemma_parse_u64_enc(b, 0, m.resources.sync_seq.0);
    assert(b.subrange(8, 8 + es.len() as int) =~= erb.subrange(8, 8 + es.len() as int));
    assert(erb.subrange(8, 8 + es.len() as int) =~= es);
    lemma_parse_slots_enc(b, 8, m.resources.slots);
    let p = 8 + es.len() as int;
    assert(parse_resource_block(b, 0, res_arity) == Some((m.resources, p)));
    assert(b.subrange(p, b.len() as int) =~= enc_records(m.records));
    lemma_parse_records_enc(b, p, m.records, comp_arity);
}

// ---------------------------------------------------------------------
// Executable codec.

/// Reads a network status record at `pos`.
pub fn read_stat(b: &Vec<u8>, pos: usize) -> (r: Result<(NetStat, usize), DecodeError>)
    ensures
        match r {
            Ok(x) => {
                &&& parse_stat(b@, pos as int) == Some((x.0, x.1 as int))
                &&& pos < x.1 <= b@.len()
            },
            Err(_) => parse_stat(b@, pos as int) is None,
        },
{
    let idp = match read_u64(b, pos) {
        Ok(x) => x,
        Err(e) => {
            return Err(e);
        },
    };
    let ownp = match read_u64(b, idp.1) {
        Ok(x) => x,
        Err(e) => {
            return Err(e);
        },
    };
    let sqp = match read_u64(b, ownp.1) {
        Ok(x) => x,
        Err(e) => {
            return Err(e);
        },
    };
    Ok((NetStat { id: NetId(idp.0), owner: NetId(ownp.0), sync_seq: SyncSeq(sqp.0) }, sqp.1))
}

/// Reads an entity instruction at `pos`.
pub fn read_update(b: &Vec<u8>, pos: usize, n: usize) -> (r: Result<
    (EntityUpdate, usize),
    DecodeError,
>)
    ensures
        match r {
            Ok(x) => {
                &&& parse_update(b@, pos as int, n as nat) == Some((x.0@, x.1 as int))
                &&& pos < x.1 <= b@.len()
            },
            Err(_) => parse_update(b@, pos as int, n as nat) is None,
        },
{
    if pos >= b.len() {
        return Err(DecodeError);
    }
    let tag: u8 = b[pos];
    if tag == 0 {
        let ss = match read_slots(b, pos + 1, n) {
            Ok(x) => x,
            Err(e) => {
                return Err(e);
            },
        };
        Ok((EntityUpdate::Update(ss.0), ss.1))
    } else if tag == 1 {
        Ok((EntityUpdate::Remove, pos + 1))
    } else {
        Err(DecodeError)
    }
}

/// Reads the entity records from `start` to the end of the buffer.
pub fn read_records(b: &Vec<u8>, start: usize, n: usize) -> (r: Result<
    Vec<EntityRecord>,
    DecodeError,
>)
    requires
        start <= b@.len(),
    ensures
        match r {
            Ok(v) => parse_records(b@, start as int, n as nat) == Some(records_view(v@)),
            Err(_) => parse_records(b@, start as int, n as nat) is None,
        },
{
    let bl: usize = b.len();
    let mut acc: Vec<EntityRecord> = Vec::new();
    let mut pos: usize = start;
    proof {
        assert(records_view(acc@) =~= Seq::<RecordV>::empty());
    }
    while pos < bl
        invariant
            bl == b@.len(),
            pos <= bl,
            (match parse_records(b@, pos as int, n as nat) {
                Some(rest) => parse_records(b@, start as int, n as nat) == Some(
                    records_view(acc@) + rest,
                ),
                None => parse_records(b@, start as int, n as nat) is None,
            }),
        decreases bl - pos,
    {
        let st = match read_stat(b, pos) {
            Ok(x) => x,
            Err(_) => {
                return Err(DecodeError);
            },
        };
        let up = match read_update(b, st.1, n) {
            Ok(x) => x,
            Err(_) => {
                return Err(DecodeError);
            },
        };
        let rec = EntityRecord { stat: st.0, update: up.0 };
        proof {
            let rv = rec@;
            let q = up.1 as int;
            assert(parse_record(b@, pos as int, n as nat) == Some((rv, q)));
            match parse_records(b@, q, n as nat) {
                Some(rest) => {
                    assert(parse_records(b@, pos as int, n as nat) == Some(seq![rv] + rest));
                    assert(records_view(acc@.push(rec)) =~= records_view(acc@).push(rv));
                    assert(records_view(acc@) + (seq![rv] + rest) =~= records_view(acc@).push(rv)
                        + rest);
                },
                None => {
                    assert(parse_records(b@, pos as int, n as nat) is None);
                },
            }
        }
        acc.push(rec);
        pos = up.1;
    }
    proof {
        assert(parse_records(b@, pos as int, n as nat) == Some(Seq::<RecordV>::empty()));
        assert(records_view(acc@) + Seq::<RecordV>::empty() =~= records_view(acc@));
    }
    Ok(acc)
}

/// Reads the resource block at `pos`.
pub fn read_resource_block(b: &Vec<u8>, pos: usize, rn: usize) -> (r: Result<
    (ResourceBlock, usize),
    DecodeError,
>)
    ensures
        match r {
            Ok(x) => {
                &&& parse_resource_block(b@, pos as int, rn as nat) == Some((x.0@, x.1 as int))
                &&& pos < x.1 <= b@.len()
            },
            Err(_) => parse_resource_block(b@, pos as int, rn as nat) is None,
        },
{
    let sq = match read_u64(b, pos) {
        Ok(x) => x,
        Err(e) => {
            return Err(e);
        },
    };
    let ss = match read_slots(b, sq.1, rn) {
        Ok(x) => x,
        Err(e) => {
            return Err(e);
        },
    };
    Ok((ResourceBlock { sync_seq: SyncSeq(sq.0), slots: ss.0 }, ss.1))
}

/// Decodes one whole wire message.
///
/// Returns the parsed message exactly when the buffer is a structurally
/// valid message for the given arities; any truncation, bad tag or
/// overlong length is a `DecodeError`, and nothing of the message is
/// usable.  The returned message is well-formed: its slot lists have the
/// given arities.
pub fn decode_message(b: &Vec<u8>, comp_arity: usize, res_arity: usize) -> (r: Result<
    Message,
    DecodeError,
>)
    ensures
        match r {
            Ok(m) => {
                &&& parse_message(b@, comp_arity as nat, res_arity as nat) == Some(m@)
                &&& m@.wf(comp_arity as nat, res_arity as nat)
            },
            Err(_) => parse_message(b@, comp_arity as nat, res_arity as nat) is None,
        },
{
    let rb = match read_resource_block(b, 0, res_arity) {
        Ok(x) => x,
        Err(e) => {
            return Err(e);
        },
    };
    let recs = match read_records(b, rb.1, comp_arity) {
        Ok(x) => x,
        Err(e) => {
            return Err(e);
        },
    };
    let m = Message { resources: rb.0, entities: recs };
    proof {
        lemma_parse_message_wf(b@, comp_arity as nat, res_arity as nat);
    }
    Ok(m)
}

/// Writes a network status record.
pub fn write_stat(out: &mut Vec<u8>, st: &NetStat)
    ensures
        final(out)@ == old(out)@ + enc_stat(*st),
{
    push_u64(out, st.id.0);
    push_u64(out, st.owner.0);
    push_u64(out, st.sync_seq.0);
    assert(out@ =~= old(out)@ + enc_stat(*st));
}

/// Writes one entity record.
pub fn write_record(out: &mut Vec<u8>, rec: &EntityRecord)
    ensures
        final(out)@ == old(out)@ + enc_record(rec@),
{
    write_stat(out, &rec.stat);
    match &rec.update {
        EntityUpdate::Update(ss) => {
            out.push(0u8);
            write_slots(out, ss);
        },
        EntityUpdate::Remove => {
            out.push(1u8);
        },
    }
    assert(out@ =~= old(out)@ + enc_record(rec@));
}

/// Encodes one whole message to its wire bytes.
pub fn encode_message(m: &Message) -> (r: Vec<u8>)
    ensures
        r@ == enc_message(m@),
{
    let mut out: Vec<u8> = Vec::new();
    push_u64(&mut out, m.resources.sync_seq.0);
    write_slots(&mut out, &m.resources.slots);
    assert(out@ =~= enc_resource_block(m.resources@));
    let n = m.entities.len();
    let mut i: usize = 0;
    proof {
        assert(records_view(m.entities@).take(0) =~= Seq::<RecordV>::empty());
        assert(out@ =~= enc_resource_block(m.resources@) + enc_records(
            records_view(m.entities@).take(0),
        ));
    }
    while i < n
        invariant
            n == m.entities@.len(),
            i <= n,
            out@ =~= enc_resource_block(m.resources@) + enc_records(
                records_view(m.entities@).take(i as int),
            ),
        decreases n - i,
    {
        write_record(&mut out, &m.entities[i]);
        proof {
            let rv = records_view(m.entities@);
            lemma_enc_records_push(rv.take(i as int), rv[i as int]);
            assert(rv.take(i as int).push(rv[i as int]) =~= rv.take(i as int + 1));
        }
        i = i + 1;
    }
    proof {
        assert(records_view(m.entities@).take(n as int) =~= records_view(m.entities@));
    }
    out
}

/// The message a world encodes to: its resource block as it stands, then
/// one update record per entity, every component slot spelled out.
pub open spec fn msg_of_world(w: WorldV) -> MessageV {
    MessageV {
        resources: ResourceBlockV { sync_seq: w.res_seq, slots: w.resources },
        records: Seq::new(
            w.entities.len(),
            |i: int|
                RecordV { stat: w.entities[i].stat, update: UpdateV::Update(w.entities[i].comps) },
        ),
    }
}

/// Encodes a whole world as one wire message: a full snapshot every
/// receiver can reconstruct the world from.
pub fn encode_world(w: &World) -> (r: Vec<u8>)
    ensures
        r@ == enc_message(msg_of_world(w@)),
{
    let mut out: Vec<u8> = Vec::new();
    push_u64(&mut out, w.res_seq.0);
    write_slots(&mut out, &w.resources);
    proof {
        assert(out@ =~= enc_resource_block(msg_of_world(w@).resources));
        assert(msg_of_world(w@).records.take(0) =~= Seq::<RecordV>::empty());
        assert(out@ =~= enc_resource_block(msg_of_world(w@).resources) + enc_records(
            msg_of_world(w@).records.take(0),
        ));
    }
    let n = w.entities.len();
    let mut i: usize = 0;
    while i < n
        invariant
            n == w.entities@.len(),
            out@ =~= enc_resource_block(msg_of_world(w@).resources) + enc_records(
                msg_of_world(w@).records.take(i as int),
            ),
            i <= n,
        decreases n - i,
    {
        let ent = &w.entities[i];
        write_stat(&mut out, &ent.stat);
        out.push(0u8);
        write_slots(&mut out, &ent.comps);
        proof {
            let rv = msg_of_world(w@).records;
            assert(rv[i as int] == (RecordV {
                stat: w@.entities[i as int].stat,
                update: UpdateV::Update(w@.entities[i as int].comps),
            }));
            lemma_enc_records_push(rv.take(i as int), rv[i as int]);
            assert(rv.take(i as int).push(rv[i as int]) =~= rv.take(i as int + 1));
            assert(out@ =~= enc_resource_block(msg_of_world(w@).resources) + enc_records(
                rv.take(i as int + 1),
            ));
        }
        i = i + 1;
    }
    proof {
        assert(msg_of_world(w@).records.take(n as int) =~= msg_of_world(w@).records);
    }
    out
}

} // verus!
