use vstd::prelude::*;
use crate::error::DecodeError;
use crate::world::{slot_view, slots_view};

verus! {

// The wire format is a self-describing byte stream: integers are eight
// little-endian bytes, a payload is a length-prefixed byte string, and an
// optional slot is a one-byte tag (absent / present) followed by the
// payload when present.  Each parser is stated twice: a total spec
// function that says exactly which buffers parse to what, and an
// executable reader proved equal to it.

/// Little-endian encoding of a 64-bit integer: eight bytes, low byte first.
pub open spec fn u64_le_bytes(v: u64) -> Seq<u8> {
    seq![
        (v & 0xff) as u8,
        ((v >> 8) & 0xff) as u8,
        ((v >> 16) & 0xff) as u8,
        ((v >> 24) & 0xff) as u8,
        ((v >> 32) & 0xff) as u8,
        ((v >> 40) & 0xff) as u8,
        ((v >> 48) & 0xff) as u8,
        ((v >> 56) & 0xff) as u8,
    ]
}

/// The integer read back from eight little-endian bytes.
pub open spec fn u64_from_le(b: Seq<u8>) -> u64
    recommends
        b.len() == 8,
{
    (b[0] as u64) | ((b[1] as u64) << 8) | ((b[2] as u64) << 16) | ((b[3] as u64) << 24) | ((
    b[4] as u64) << 32) | ((b[5] as u64) << 40) | ((b[6] as u64) << 48) | ((b[7] as u64) << 56)
}

/// Reading back the eight little-endian bytes of `v` yields `v`.
pub proof fn lemma_u64_le_roundtrip(v: u64)
    ensures
        u64_from_le(u64_le_bytes(v)) == v,
{
    assert((((v & 0xff) as u8) as u64) | (((((v >> 8) & 0xff) as u8) as u64) << 8) | (((((v >> 16)
        & 0xff) as u8) as u64) << 16) | (((((v >> 24) & 0xff) as u8) as u64) << 24) | (((((v >> 32)
        & 0xff) as u8) as u64) << 32) | (((((v >> 40) & 0xff) as u8) as u64) << 40) | (((((v >> 48)
        & 0xff) as u8) as u64) << 48) | (((((v >> 56) & 0xff) as u8) as u64) << 56) == v)
        by (bit_vector);
}

/// A 64-bit integer at `pos`, when eight bytes are there to read.
pub open spec fn parse_u64(b: Seq<u8>, pos: int) -> Option<(u64, int)> {
    if 0 <= pos && pos + 8 <= b.len() {
        Some((u64_from_le(b.subrange(pos, pos + 8)), pos + 8))
    } else {
        None
    }
}

/// A buffer carrying `u64_le_bytes(v)` at `pos` parses to `v`.
pub proof fn lemma_parse_u64_enc(b: Seq<u8>, pos: int, v: u64)
    requires
        0 <= pos,
        pos + 8 <= b.len(),
        b.subrange(pos, pos + 8) == u64_le_bytes(v),
    ensures
        parse_u64(b, pos) == Some((v, pos + 8)),
{
    lemma_u64_le_roundtrip(v);
}

/// Appends the eight little-endian bytes of `v`.
pub fn push_u64(out: &mut Vec<u8>, v: u64)
    ensures
        final(out)@ == old(out)@ + u64_le_bytes(v),
{
    assert(v & 0xff < 256 && (v >> 8) & 0xff < 256 && (v >> 16) & 0xff < 256 && (v >> 24) & 0xff
        < 256 && (v >> 32) & 0xff < 256 && (v >> 40) & 0xff < 256 && (v >> 48) & 0xff < 256 && (v
        >> 56) & 0xff < 256) by (bit_vector);
    out.push((v & 0xff) as u8);
    out.push(((v >> 8) & 0xff) as u8);
    out.push(((v >> 16) & 0xff) as u8);
    out.push(((v >> 24) & 0xff) as u8);
    out.push(((v >> 32) & 0xff) as u8);
    out.push(((v >> 40) & 0xff) as u8);
    out.push(((v >> 48) & 0xff) as u8);
    out.push(((v >> 56) & 0xff) as u8);
    assert(out@ =~= old(out)@ + u64_le_bytes(v));
}

/// Reads a 64-bit little-endian integer at `pos`.
pub fn read_u64(b: &Vec<u8>, pos: usize) -> (r: Result<(u64, usize), DecodeError>)
    ensures
        match r {
            Ok(x) => {
                &&& parse_u64(b@, pos as int) == Some((x.0, x.1 as int))
                &&& pos < x.1 <= b@.len()
            },
            Err(_) => parse_u64(b@, pos as int) is None,
        },
{
    if pos > b.len() || b.len() - pos < 8 {
        return Err(DecodeError);
    }
    let v: u64 = (b[pos] as u64) | ((b[pos + 1] as u64) << 8) | ((b[pos + 2] as u64) << 16) | ((
    b[pos + 3] as u64) << 24) | ((b[pos + 4] as u64) << 32) | ((b[pos + 5] as u64) << 40) | ((b[pos
        + 6] as u64) << 48) | ((b[pos + 7] as u64) << 56);
    proof {
        let s = b@.subrange(pos as int, pos as int + 8);
        assert(v == u64_from_le(s));
    }
    Ok((v, pos + 8))
}

/// Length-prefixed byte string: the payload of one present slot.
pub open spec fn enc_payload(p: Seq<u8>) -> Seq<u8> {
    u64_le_bytes(p.len() as u64) + p
}

/// A payload at `pos`: its length, then that many bytes.
pub open spec fn parse_payload(b: Seq<u8>, pos: int) -> Option<(Seq<u8>, int)> {
    match parse_u64(b, pos) {
        Some((len, p)) => if p + len <= b.len() {
            Some((b.subrange(p, p + len), p + len))
        } else {
            None
        },
        None => None,
    }
}

/// A buffer carrying `enc_payload(p)` at `pos` parses to `p`.
pub proof fn lemma_parse_payload_enc(b: Seq<u8>, pos: int, p: Seq<u8>)
    requires
        0 <= pos,
        p.len() <= u64::MAX,
        pos + enc_payload(p).len() <= b.len(),
        b.subrange(pos, pos + enc_payload(p).len() as int) == enc_payload(p),
    ensures
        parse_payload(b, pos) == Some((p, pos + enc_payload(p).len())),
{
    let e = enc_payload(p);
    let n = p.len() as int;
    assert(e.len() == 8 + n);
    assert(b.subrange(pos, pos + 8) =~= e.subrange(0, 8));
    assert(e.subrange(0, 8) =~= u64_le_bytes(p.len() as u64));
    lemma_parse_u64_enc(b, pos, p.len() as u64);
    assert(b.subrange(pos + 8, pos + 8 + n) =~= e.subrange(8, 8 + n));
    assert(e.subrange(8, 8 + n) =~= p);
}

/// Reads a length-prefixed byte string at `pos`.
pub fn read_payload(b: &Vec<u8>, pos: usize) -> (r: Result<(Vec<u8>, usize), DecodeError>)
    ensures
        match r {
            Ok(x) => {
                &&& parse_payload(b@, pos as int) == Some((x.0@, x.1 as int))
                &&& pos < x.1 <= b@.len()
            },
            Err(_) => parse_payload(b@, pos as int) is None,
        },
{
    let lq = match read_u64(b, pos) {
        Ok(x) => x,
        Err(e) => {
            return Err(e);
        },
    };
    let len: u64 = lq.0;
    let q: usize = lq.1;
    if len > (b.len() - q) as u64 {
        return Err(DecodeError);
    }
    let l: usize = len as usize;
    let bl: usize = b.len();
    let mut out: Vec<u8> = Vec::new();
    let mut i: usize = 0;
    while i < l
        invariant
            bl == b@.len(),
            q + l <= bl,
            i <= l,
            out@ =~= b@.subrange(q as int, q as int + i as int),
        decreases l - i,
    {
        out.push(b[q + i]);
        i = i + 1;
        proof {
            assert(out@ =~= b@.subrange(q as int, q as int + i as int));
        }
    }
    Ok((out, q + l))
}

/// Encoding of one optional slot: an absent-or-present tag, then the
/// payload when present.
pub open spec fn enc_slot(s: Option<Seq<u8>>) -> Seq<u8> {
    match s {
        None => seq![0u8],
        Some(p) => seq![1u8] + enc_payload(p),
    }
}

/// One optional slot at `pos`.
pub open spec fn parse_slot(b: Seq<u8>, pos: int) -> Option<(Option<Seq<u8>>, int)> {
    if 0 <= pos < b.len() {
        if b[pos] == 0 {
            Some((None, pos + 1))
        } else if b[pos] == 1 {
            match parse_payload(b, pos + 1) {
                Some((p, q)) => Some((Some(p), q)),
                None => None,
            }
        } else {
            None
        }
    } else {
        None
    }
}

/// A buffer carrying `enc_slot(s)` at `pos` parses to `s`.
pub proof fn lemma_parse_slot_enc(b: Seq<u8>, pos: int, s: Option<Seq<u8>>)
    requires
        0 <= pos,
        s is Some ==> s->0.len() <= u64::MAX,
        pos + enc_slot(s).len() <= b.len(),
        b.subrange(pos, pos + enc_slot(s).len() as int) == enc_slot(s),
    ensures
        parse_slot(b, pos) == Some((s, pos + enc_slot(s).len())),
{
    let e = enc_slot(s);
    assert(b[pos] == e[0]);
    match s {
        None => {
            assert(e[0] == 0);
        },
        Some(p) => {
            assert(e[0] == 1);
            assert(b.subrange(pos + 1, pos + 1 + enc_payload(p).len() as int) =~= e.subrange(
                1,
                1 + enc_payload(p).len() as int,
            ));
            assert(e.subrange(1, 1 + enc_payload(p).len() as int) =~= enc_payload(p));
            lemma_parse_payload_enc(b, pos + 1, p);
        },
    }
}

/// Reads one optional slot at `pos`.
pub fn read_slot(b: &Vec<u8>, pos: usize) -> (r: Result<(Option<Vec<u8>>, usize), DecodeError>)
    ensures
        match r {
            Ok(x) => {
                &&& parse_slot(b@, pos as int) == Some((slot_view(x.0), x.1 as int))
                &&& pos < x.1 <= b@.len()
            },
            Err(_) => parse_slot(b@, pos as int) is None,
        },
{
    if pos >= b.len() {
        return Err(DecodeError);
    }
    let tag: u8 = b[pos];
    if tag == 0 {
        Ok((None, pos + 1))
    } else if tag == 1 {
        match read_payload(b, pos + 1) {
            Ok(x) => Ok((Some(x.0), x.1)),
            Err(e) => Err(e),
        }
    } else {
        Err(DecodeError)
    }
}

/// Every present payload fits the 64-bit length prefix.  True of any slot
/// list that ever existed in memory; needed only to state encode laws.
pub open spec fn slots_fit(ss: Seq<Option<Seq<u8>>>) -> bool {
    forall|i: int|
        0 <= i < ss.len() ==> ((#[trigger] ss[i]) matches Some(p) ==> p.len() <= u64::MAX)
}

/// Encoding of a positional slot list, in order.
pub open spec fn enc_slots(ss: Seq<Option<Seq<u8>>>) -> Seq<u8>
    decreases ss.len(),
{
    if ss.len() == 0 {
        Seq::empty()
    } else {
        enc_slot(ss[0]) + enc_slots(ss.drop_first())
    }
}

/// Appending one slot to a list appends its encoding.
pub proof fn lemma_enc_slots_push(ss: Seq<Option<Seq<u8>>>, s: Option<Seq<u8>>)
    ensures
        enc_slots(ss.push(s)) == enc_slots(ss) + enc_slot(s),
    decreases ss.len(),
{
    if ss.len() == 0 {
        assert(ss.push(s).drop_first() =~= ss);
        assert(ss.push(s)[0] == s);
        assert(enc_slots(ss.push(s)) =~= enc_slots(ss) + enc_slot(s));
    } else {
        assert(ss.push(s).drop_first() =~= ss.drop_first().push(s));
        lemma_enc_slots_push(ss.drop_first(), s);
        assert(enc_slots(ss.push(s)) =~= enc_slots(ss) + enc_slot(s));
    }
}

/// Exactly `n` slots in a row, starting at `pos`.
pub open spec fn parse_slots(b: Seq<u8>, pos: int, n: nat) -> Option<(Seq<Option<Seq<u8>>>, int)>
    decreases n,
{
    if n == 0 {
        Some((Seq::empty(), pos))
    } else {
        match parse_slot(b, pos) {
            Some((s, q)) => match parse_slots(b, q, (n - 1) as nat) {
                Some((rest, e)) => Some((seq![s] + rest, e)),
                None => None,
            },
            None => None,
        }
    }
}

/// A successful slot-list parse yields exactly `n` slots.
pub proof fn lemma_parse_slots_len(b: Seq<u8>, pos: int, n: nat)
    requires
        parse_slots(b, pos, n) is Some,
    ensures
        parse_slots(b, pos, n) matches Some(x) ==> x.0.len() == n,
    decreases n,
{
    if n > 0 {
        let sq = parse_slot(b, pos)->0;
        lemma_parse_slots_len(b, sq.1, (n - 1) as nat);
    }
}

/// A buffer carrying `enc_slots(ss)` at `pos` parses to `ss`.
pub proof fn lemma_parse_slots_enc(b: Seq<u8>, pos: int, ss: Seq<Option<Seq<u8>>>)
    requires
        0 <= pos,
        slots_fit(ss),
        pos + enc_slots(ss).len() <= b.len(),
        b.subrange(pos, pos + enc_slots(ss).len() as int) == enc_slots(ss),
    ensures
        parse_slots(b, pos, ss.len()) == Some((ss, pos + enc_slots(ss).len())),
    decreases ss.len(),
{
    if ss.len() == 0 {
        assert(parse_slots(b, pos, 0) == Some((Seq::<Option<Seq<u8>>>::empty(), pos)));
        assert(ss =~= Seq::<Option<Seq<u8>>>::empty());
    } else {
        let s0 = ss[0];
        let e0 = enc_slot(s0);
        let e = enc_slots(ss);
        assert(e == e0 + enc_slots(ss.drop_first()));
        assert(b.subrange(pos, pos + e0.len() as int) =~= e.subrange(0, e0.len() as int));
        assert(e.subrange(0, e0.len() as int) =~= e0);
        lemma_parse_slot_enc(b, pos, s0);
        let q = pos + e0.len();
        let erest = enc_slots(ss.drop_first());
        assert(b.subrange(q, q + erest.len() as int) =~= e.subrange(
            e0.len() as int,
            e.len() as int,
        ));
        assert(e.subrange(e0.len() as int, e.len() as int) =~= erest);
        lemma_parse_slots_enc(b, q, ss.drop_first());
        assert(seq![s0] + ss.drop_first() =~= ss);
    }
}

/// Reads exactly `n` optional slots at `pos`.
pub fn read_slots(b: &Vec<u8>, pos: usize, n: usize) -> (r: Result<
    (Vec<Option<Vec<u8>>>, usize),
    DecodeError,
>)
    ensures
        match r {
            Ok(x) => {
                &&& parse_slots(b@, pos as int, n as nat) == Some((slots_view(x.0@), x.1 as int))
                &&& x.0@.len() == n
                &&& pos <= x.1
                &&& n == 0 ==> x.1 == pos
                &&& n > 0 ==> pos < x.1 <= b@.len()
            },
            Err(_) => parse_slots(b@, pos as int, n as nat) is None,
        },
        pos <= b@.len() ==> (r is Err ==> parse_slots(b@, pos as int, n as nat) is None),
    decreases n,
{
    if n == 0 {
        let empty: Vec<Option<Vec<u8>>> = Vec::new();
        proof {
            assert(slots_view(empty@) =~= Seq::<Option<Seq<u8>>>::empty());
            assert(parse_slots(b@, pos as int, n as nat) == Some(
                (slots_view(empty@), pos as int),
            ));
        }
        return Ok((empty, pos));
    }
    let first = match read_slot(b, pos) {
        Ok(x) => x,
        Err(e) => {
            return Err(e);
        },
    };
    let rest = match read_slots(b, first.1, n - 1) {
        Ok(x) => x,
        Err(e) => {
            return Err(e);
        },
    };
    let mut v: Vec<Option<Vec<u8>>> = rest.0;
    v.insert(0, first.0);
    proof {
        assert(slots_view(v@) =~= seq![slot_view(first.0)] + slots_view(v@.drop_first()));
        assert(v@.drop_first() =~= rest.0@);
    }
    Ok((v, rest.1))
}

/// Writes the bytes of `p` as they stand.
pub fn write_bytes(out: &mut Vec<u8>, p: &Vec<u8>)
    ensures
        final(out)@ == old(out)@ + p@,
{
    let n = p.len();
    let mut i: usize = 0;
    while i < n
        invariant
            n == p@.len(),
            i <= n,
            out@ =~= old(out)@ + p@.subrange(0, i as int),
        decreases n - i,
    {
        out.push(p[i]);
        i = i + 1;
        proof {
            assert(out@ =~= old(out)@ + p@.subrange(0, i as int));
        }
    }
    assert(out@ =~= old(out)@ + p@);
}

/// Writes one optional slot: tag byte, then the payload when present.
pub fn write_slot(out: &mut Vec<u8>, s: &Option<Vec<u8>>)
    ensures
        final(out)@ == old(out)@ + enc_slot(slot_view(*s)),
{
    match s {
        None => {
            out.push(0u8);
            assert(out@ =~= old(out)@ + enc_slot(slot_view(None)));
        },
        Some(p) => {
            out.push(1u8);
            push_u64(out, p.len() as u64);
            write_bytes(out, p);
            assert(out@ =~= old(out)@ + enc_slot(slot_view(Some(*p))));
        },
    }
}

/// Writes a whole slot list, in order.
pub fn write_slots(out: &mut Vec<u8>, ss: &Vec<Option<Vec<u8>>>)
    ensures
        final(out)@ == old(out)@ + enc_slots(slots_view(ss@)),
{
    let n = ss.len();
    let mut i: usize = 0;
    proof {
        assert(slots_view(ss@).take(0) =~= Seq::<Option<Seq<u8>>>::empty());
    }
    while i < n
        invariant
            n == ss@.len(),
            i <= n,
            out@ =~= old(out)@ + enc_slots(slots_view(ss@).take(i as int)),
        decreases n - i,
    {
        write_slot(out, &ss[i]);
        proof {
            let sv = slots_view(ss@);
            lemma_enc_slots_push(sv.take(i as int), sv[i as int]);
            assert(sv.take(i as int).push(sv[i as int]) =~= sv.take(i as int + 1));
        }
        i = i + 1;
    }
    proof {
        assert(slots_view(ss@).take(n as int) =~= slots_view(ss@));
    }
}

} // verus!
