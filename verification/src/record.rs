use vstd::prelude::*;

verus! {

/// A sink record: an identity key and the raw payload fetched for it. Each
/// record is appended to the store as one complete, length-prefixed unit, so
/// the store parses back into exactly the records that were written.
pub struct Record {
    pub key: Vec<u8>,
    pub payload: Vec<u8>,
}

/// The mathematical model of a sink record.
pub struct RecordModel {
    pub key: Seq<u8>,
    pub payload: Seq<u8>,
}

impl View for Record {
    type V = RecordModel;

    open spec fn view(&self) -> RecordModel {
        RecordModel { key: self.key@, payload: self.payload@ }
    }
}

/// A byte string short enough for its length to fit the 4-byte prefix.
pub open spec fn fits_frame(s: Seq<u8>) -> bool {
    s.len() < 0x1_0000_0000
}

/// The 4-byte big-endian form of a 32-bit length.
pub open spec fn spec_be32(n: u32) -> Seq<u8> {
    seq![(n >> 24) as u8, (n >> 16) as u8, (n >> 8) as u8, n as u8]
}

/// The 32-bit value read back from 4 big-endian bytes.
pub open spec fn spec_be32_val(b0: u8, b1: u8, b2: u8, b3: u8) -> u32 {
    ((b0 as u32) << 24) | ((b1 as u32) << 16) | ((b2 as u32) << 8) | (b3 as u32)
}

proof fn lemma_be32_round_trip(n: u32)
    ensures
        spec_be32_val((n >> 24) as u8, (n >> 16) as u8, (n >> 8) as u8, n as u8) == n,
{
    assert(((((n >> 24) as u8) as u32) << 24) | ((((n >> 16) as u8) as u32) << 16)
        | ((((n >> 8) as u8) as u32) << 8) | ((n as u8) as u32) == n) by (bit_vector);
}

/// One record's frame: length-prefixed key, then length-prefixed payload.
pub open spec fn spec_encode(r: RecordModel) -> Seq<u8> {
    spec_be32(r.key.len() as u32) + r.key + spec_be32(r.payload.len() as u32) + r.payload
}

/// The whole store's bytes: each record's frame, in order of arrival.
pub open spec fn spec_encode_all(rs: Seq<RecordModel>) -> Seq<u8>
    decreases rs.len(),
{
    if rs.len() == 0 {
        Seq::empty()
    } else {
        spec_encode(rs[0]) + spec_encode_all(rs.skip(1))
    }
}

/// Parse one frame off the front of `b`: the record and the remaining bytes,
/// or `None` when `b` is too short for the lengths it announces.
pub open spec fn spec_decode_one(b: Seq<u8>) -> Option<(RecordModel, Seq<u8>)> {
    if b.len() < 4 {
        None
    } else {
        let klen = spec_be32_val(b[0], b[1], b[2], b[3]) as int;
        if b.len() < 4 + klen + 4 {
            None
        } else {
            let plen = spec_be32_val(b[4 + klen], b[4 + klen + 1], b[4 + klen + 2], b[4 + klen + 3]) as int;
            if b.len() < 4 + klen + 4 + plen {
                None
            } else {
                Some((
                    RecordModel {
                        key: b.subrange(4, 4 + klen),
                        payload: b.subrange(4 + klen + 4, 4 + klen + 4 + plen),
                    },
                    b.subrange(4 + klen + 4 + plen, b.len() as int),
                ))
            }
        }
    }
}

/// Parse the whole store back into its records, or `None` when the bytes are
/// not a sequence of complete frames.
pub open spec fn spec_decode(b: Seq<u8>) -> Option<Seq<RecordModel>>
    decreases b.len(),
{
    if b.len() == 0 {
        Some(Seq::empty())
    } else {
        match spec_decode_one(b) {
            None => None,
            Some((r, rest)) => match spec_decode(rest) {
                None => None,
                Some(s) => Some(seq![r] + s),
            },
        }
    }
}

fn push_be32(out: &mut Vec<u8>, n: u32)
    ensures
        final(out)@ == old(out)@ + spec_be32(n),
{
    out.push((n >> 24) as u8);
    out.push((n >> 16) as u8);
    out.push((n >> 8) as u8);
    out.push(n as u8);
    assert(out@ =~= old(out)@ + spec_be32(n));
}

fn append_bytes(out: &mut Vec<u8>, b: &Vec<u8>)
    ensures
        final(out)@ == old(out)@ + b@,
{
    let mut i: usize = 0;
    while i < b.len()
        invariant
            i <= b@.len(),
            out@ == old(out)@ + b@.take(i as int),
        decreases b.len() - i,
    {
        out.push(b[i]);
        assert(out@ =~= old(out)@ + b@.take(i + 1 as int));
        i += 1;
    }
    assert(out@ =~= old(out)@ + b@);
}

/// Encode one record as its complete frame.
pub fn encode_record(r: &Record) -> (out: Vec<u8>)
    requires
        fits_frame(r.key@),
        fits_frame(r.payload@),
    ensures
        out@ == spec_encode(r@),
{
    let mut out: Vec<u8> = Vec::new();
    push_be32(&mut out, r.key.len() as u32);
    append_bytes(&mut out, &r.key);
    push_be32(&mut out, r.payload.len() as u32);
    append_bytes(&mut out, &r.payload);
    assert(out@ =~= spec_encode(r@));
    out
}

fn read_be32(bytes: &Vec<u8>, i: usize) -> (r: u32)
    requires
        i + 4 <= bytes@.len(),
    ensures
        r == spec_be32_val(bytes@[i as int], bytes@[i + 1], bytes@[i + 2], bytes@[i + 3]),
{
    let n: usize = bytes.len();
    assert(i + 4 <= n);
    ((bytes[i] as u32) << 24) | ((bytes[i + 1] as u32) << 16) | ((bytes[i + 2] as u32) << 8)
        | (bytes[i + 3] as u32)
}

pub(crate) fn copy_range(bytes: &Vec<u8>, start: usize, count: usize) -> (out: Vec<u8>)
    requires
        start + count <= bytes@.len(),
    ensures
        out@ == bytes@.subrange(start as int, start + count),
{
    let n: usize = bytes.len();
    let mut out: Vec<u8> = Vec::new();
    let mut i: usize = 0;
    while i < count
        invariant
            i <= count,
            start + count <= n,
            n == bytes@.len(),
            out@ == bytes@.subrange(start as int, start + i),
        decreases count - i,
    {
        out.push(bytes[start + i]);
        assert(out@ =~= bytes@.subrange(start as int, start + i + 1));
        i += 1;
    }
    out
}

/// Parse a store's bytes back into the records that were appended to it.
pub fn decode_records(bytes: &Vec<u8>) -> (out: Option<Vec<Record>>)
    ensures
        match out {
            Some(v) => spec_decode(bytes@) == Some(v@.map_values(|r: Record| r@)),
            None => spec_decode(bytes@) is None,
        },
{
    let n = bytes.len();
    let mut acc: Vec<Record> = Vec::new();
    let mut i: usize = 0;
    proof {
        assert(bytes@.subrange(0, n as int) =~= bytes@);
        if spec_decode(bytes@) is Some {
            assert(acc@.map_values(|r: Record| r@) + spec_decode(bytes@)->Some_0
                =~= spec_decode(bytes@)->Some_0);
        }
    }
    loop
        invariant
            i <= n,
            n == bytes@.len(),
            spec_decode(bytes@) == (match spec_decode(bytes@.subrange(i as int, n as int)) {
                None => None::<Seq<RecordModel>>,
                Some(s) => Some(acc@.map_values(|r: Record| r@) + s),
            }),
        decreases n - i,
    {
        let ghost rem = bytes@.subrange(i as int, n as int);
        if i == n {
            assert(rem =~= Seq::<u8>::empty());
            assert(acc@.map_values(|r: Record| r@) + Seq::<RecordModel>::empty()
                =~= acc@.map_values(|r: Record| r@));
            return Some(acc);
        }
        if n - i < 4 {
            assert(spec_decode_one(rem) is None);
            return None;
        }
        let klen32 = read_be32(bytes, i);
        assert(klen32 == spec_be32_val(rem[0], rem[1], rem[2], rem[3]));
        let klen = klen32 as usize;
        if n - i - 4 < klen || n - i - 4 - klen < 4 {
            assert(rem.len() < 4 + klen + 4);
            assert(spec_decode_one(rem) is None);
            return None;
        }
        let plen32 = read_be32(bytes, i + 4 + klen);
        assert(plen32 == spec_be32_val(rem[4 + klen], rem[4 + klen + 1], rem[4 + klen + 2], rem[4 + klen + 3]));
        let plen = plen32 as usize;
        if n - i - 4 - klen - 4 < plen {
            assert(rem.len() < 4 + klen + 4 + plen);
            assert(spec_decode_one(rem) is None);
            return None;
        }
        let key = copy_range(bytes, i + 4, klen);
        let payload = copy_range(bytes, i + 4 + klen + 4, plen);
        let next: usize = i + 4 + klen + 4 + plen;
        let rec = Record { key, payload };
        proof {
            let parsed = spec_decode_one(rem);
            assert(rem.subrange(4, 4 + klen as int) =~= bytes@.subrange(i + 4, i + 4 + klen));
            assert(rem.subrange(4 + klen + 4, 4 + klen + 4 + plen as int)
                =~= bytes@.subrange(i + 4 + klen as int + 4, i + 4 + klen as int + 4 + plen));
            assert(rem.subrange(4 + klen + 4 + plen as int, rem.len() as int)
                =~= bytes@.subrange(next as int, n as int));
            assert(parsed == Some((rec@, bytes@.subrange(next as int, n as int))));
        }
        let ghost old_models = acc@.map_values(|r: Record| r@);
        acc.push(rec);
        proof {
            assert(acc@.map_values(|r: Record| r@) =~= old_models.push(rec@));
            let rest = bytes@.subrange(next as int, n as int);
            assert(spec_decode(rem) == (match spec_decode(rest) {
                None => None::<Seq<RecordModel>>,
                Some(s) => Some(seq![rec@] + s),
            }));
            if spec_decode(rest) is Some {
                let s = spec_decode(rest)->Some_0;
                assert(old_models + (seq![rec@] + s) =~= old_models.push(rec@) + s);
            }
        }
        i = next;
    }
}

proof fn lemma_decode_one_of_encode(r: RecordModel, rest: Seq<u8>)
    requires
        fits_frame(r.key),
        fits_frame(r.payload),
    ensures
        spec_decode_one(spec_encode(r) + rest) == Some((r, rest)),
{
    let b = spec_encode(r) + rest;
    let klen32 = r.key.len() as u32;
    let plen32 = r.payload.len() as u32;
    lemma_be32_round_trip(klen32);
    lemma_be32_round_trip(plen32);
    let klen = r.key.len() as int;
    let plen = r.payload.len() as int;
    assert(b.len() == 4 + klen + 4 + plen + rest.len());
    assert(b[0] == (klen32 >> 24) as u8);
    assert(b[1] == (klen32 >> 16) as u8);
    assert(b[2] == (klen32 >> 8) as u8);
    assert(b[3] == klen32 as u8);
    assert(spec_be32_val(b[0], b[1], b[2], b[3]) == klen32);
    assert(b[4 + klen] == (plen32 >> 24) as u8);
    assert(b[4 + klen + 1] == (plen32 >> 16) as u8);
    assert(b[4 + klen + 2] == (plen32 >> 8) as u8);
    assert(b[4 + klen + 3] == plen32 as u8);
    assert(spec_be32_val(b[4 + klen], b[4 + klen + 1], b[4 + klen + 2], b[4 + klen + 3]) == plen32);
    assert(b.subrange(4, 4 + klen) =~= r.key);
    assert(b.subrange(4 + klen + 4, 4 + klen + 4 + plen) =~= r.payload);
    assert(b.subrange(4 + klen + 4 + plen, b.len() as int) =~= rest);
}

/// Writing any sequence of records to the store, each as one complete frame
/// and none interleaved with another, leaves bytes that parse back into
/// exactly that sequence of records.
#[verifier::rlimit(100)]
#[verifier::spinoff_prover]
pub proof fn lemma_store_round_trip(rs: Seq<RecordModel>)
    requires
        forall|i: int| 0 <= i < rs.len()
            ==> fits_frame((#[trigger] rs[i]).key) && fits_frame(rs[i].payload),
    ensures
        spec_decode(spec_encode_all(rs)) == Some(rs),
    decreases rs.len(),
{
    if rs.len() == 0 {
        assert(spec_encode_all(rs).len() == 0);
        assert(spec_decode(spec_encode_all(rs)) == Some(Seq::<RecordModel>::empty()));
        assert(rs =~= Seq::<RecordModel>::empty());
    } else {
        let b = spec_encode_all(rs);
        let tail = spec_encode_all(rs.skip(1));
        assert(b == spec_encode(rs[0]) + tail);
        lemma_decode_one_of_encode(rs[0], tail);
        assert(spec_decode_one(b) == Some((rs[0], tail)));
        assert(b.len() > 0);
        assert forall|i: int| 0 <= i < rs.skip(1).len()
            implies fits_frame((#[trigger] rs.skip(1)[i]).key) && fits_frame(rs.skip(1)[i].payload) by {
            assert(rs.skip(1)[i] == rs[i + 1]);
        };
        lemma_store_round_trip(rs.skip(1));
        assert(spec_decode(tail) == Some(rs.skip(1)));
        assert(spec_decode(b) == Some(seq![rs[0]] + rs.skip(1)));
        assert(seq![rs[0]] + rs.skip(1) =~= rs);
    }
}

} // verus!
