//! The journal of the hash cache: a sequence of records, each its length
//! as 8 little-endian bytes followed by that many bytes. Reading keeps the
//! complete records in order and stops at the first damage (a cut length,
//! a cut record, or a length over the limit); what the records hold is
//! decoded by the caller.

use vstd::prelude::*;

verus! {

/// A journal record longer than this is damage.
pub const JOURNAL_COMPACT_BYTES: u64 = 8 * 1024 * 1024;

/// The number that 8 little-endian bytes spell.
pub open spec fn le_u64(b: Seq<u8>) -> u64 {
    (b[0] as u64) | ((b[1] as u64) << 8u64) | ((b[2] as u64) << 16u64) | ((b[3] as u64) << 24u64) | ((b[4] as u64)
        << 32u64) | ((b[5] as u64) << 40u64) | ((b[6] as u64) << 48u64) | ((b[7] as u64) << 56u64)
}

/// The 8 little-endian bytes of a number.
pub open spec fn le_bytes(n: u64) -> Seq<u8> {
    seq![
        (n & 0xff) as u8,
        ((n >> 8u64) & 0xff) as u8,
        ((n >> 16u64) & 0xff) as u8,
        ((n >> 24u64) & 0xff) as u8,
        ((n >> 32u64) & 0xff) as u8,
        ((n >> 40u64) & 0xff) as u8,
        ((n >> 48u64) & 0xff) as u8,
        ((n >> 56u64) & 0xff) as u8,
    ]
}

/// A record as the journal holds it: its length, then its bytes.
pub open spec fn frame(p: Seq<u8>) -> Seq<u8> {
    le_bytes(p.len() as u64) + p
}

/// Records framed one after another.
pub open spec fn frames(ps: Seq<Seq<u8>>) -> Seq<u8>
    decreases ps.len(),
{
    if ps.len() == 0 {
        Seq::empty()
    } else {
        frame(ps[0]) + frames(ps.drop_first())
    }
}

/// What reading a journal gives: its complete records in order, and
/// whether reading stopped at damage.
pub open spec fn journal_records(data: Seq<u8>) -> (Seq<Seq<u8>>, bool)
    decreases data.len(),
{
    if data.len() == 0 {
        (Seq::empty(), false)
    } else if data.len() < 8 {
        (Seq::empty(), true)
    } else {
        let n = le_u64(data.take(8));
        if n > JOURNAL_COMPACT_BYTES || data.len() - 8 < n {
            (Seq::empty(), true)
        } else {
            let rest = journal_records(data.skip(8 + n));
            (seq![data.subrange(8, 8 + n)] + rest.0, rest.1)
        }
    }
}

/// The models of a list of records.
pub open spec fn records_view(v: Seq<Vec<u8>>) -> Seq<Seq<u8>> {
    v.map_values(|r: Vec<u8>| r@)
}

proof fn lemma_le_round_trip(n: u64)
    ensures
        le_u64(le_bytes(n)) == n,
{
    let b = le_bytes(n);
    assert(b[0] == (n & 0xff) as u8);
    assert(b[1] == ((n >> 8u64) & 0xff) as u8);
    assert(b[2] == ((n >> 16u64) & 0xff) as u8);
    assert(b[3] == ((n >> 24u64) & 0xff) as u8);
    assert(b[4] == ((n >> 32u64) & 0xff) as u8);
    assert(b[5] == ((n >> 40u64) & 0xff) as u8);
    assert(b[6] == ((n >> 48u64) & 0xff) as u8);
    assert(b[7] == ((n >> 56u64) & 0xff) as u8);
    assert((((n & 0xff) as u8) as u64) | ((((n >> 8u64) & 0xff) as u8) as u64) << 8u64 | ((((n >> 16u64) & 0xff) as u8)
        as u64) << 16u64 | ((((n >> 24u64) & 0xff) as u8) as u64) << 24u64 | ((((n >> 32u64) & 0xff) as u8) as u64)
        << 32u64 | ((((n >> 40u64) & 0xff) as u8) as u64) << 40u64 | ((((n >> 48u64) & 0xff) as u8) as u64) << 48u64
        | ((((n >> 56u64) & 0xff) as u8) as u64) << 56u64 == n) by (bit_vector);
}

/// A framed record reads back as itself, followed by what the rest of the
/// journal reads as.
pub proof fn lemma_framed_record_reads_back(p: Seq<u8>, rest: Seq<u8>)
    requires
        p.len() <= JOURNAL_COMPACT_BYTES,
    ensures
        journal_records(frame(p) + rest) == (seq![p] + journal_records(rest).0, journal_records(rest).1),
{
    let d = frame(p) + rest;
    lemma_le_round_trip(p.len() as u64);
    assert(d.take(8) =~= le_bytes(p.len() as u64));
    assert(d.subrange(8, 8 + p.len() as int) =~= p);
    assert(d.skip(8 + p.len() as int) =~= rest);
}

/// Records framed one after another read back as themselves, followed by
/// what the rest of the journal reads as: a journal written record by
/// record keeps every complete record, whatever follows it.
pub proof fn lemma_journal_reads_back(ps: Seq<Seq<u8>>, rest: Seq<u8>)
    requires
        forall|i: int| 0 <= i < ps.len() ==> (#[trigger] ps[i]).len() <= JOURNAL_COMPACT_BYTES,
    ensures
        journal_records(frames(ps) + rest) == (ps + journal_records(rest).0, journal_records(rest).1),
    decreases ps.len(),
{
    if ps.len() == 0 {
        assert(frames(ps) + rest =~= rest);
        assert(ps + journal_records(rest).0 =~= journal_records(rest).0);
    } else {
        lemma_journal_reads_back(ps.drop_first(), rest);
        assert(ps[0].len() <= JOURNAL_COMPACT_BYTES);
        assert(frames(ps) + rest =~= frame(ps[0]) + (frames(ps.drop_first()) + rest));
        lemma_framed_record_reads_back(ps[0], frames(ps.drop_first()) + rest);
        assert(seq![ps[0]] + (ps.drop_first() + journal_records(rest).0) =~= ps + journal_records(rest).0);
    }
}

/// A record cut short (as by a crash while appending it) reads as damage
/// with no record.
pub proof fn lemma_cut_record_is_damage(p: Seq<u8>, k: int)
    requires
        p.len() <= JOURNAL_COMPACT_BYTES,
        0 < k < frame(p).len(),
    ensures
        journal_records(frame(p).take(k)) == (Seq::<Seq<u8>>::empty(), true),
{
    let d = frame(p).take(k);
    if k >= 8 {
        lemma_le_round_trip(p.len() as u64);
        assert(d.take(8) =~= le_bytes(p.len() as u64));
    }
}

/// The number that the 8 bytes at `at` spell, little-endian.
fn read_le_u64(data: &[u8], at: usize) -> (res: u64)
    requires
        at + 8 <= data@.len(),
    ensures
        res == le_u64(data@.subrange(at as int, at + 8)),
{
    let ghost b = data@.subrange(at as int, at + 8);
    assert(b[0] == data@[at as int] && b[7] == data@[at + 7]);
    assert(b[1] == data@[at + 1] && b[2] == data@[at + 2] && b[3] == data@[at + 3]);
    assert(b[4] == data@[at + 4] && b[5] == data@[at + 5] && b[6] == data@[at + 6]);
    (data[at] as u64) | ((data[at + 1] as u64) << 8u64) | ((data[at + 2] as u64) << 16u64) | ((data[at + 3] as u64)
        << 24u64) | ((data[at + 4] as u64) << 32u64) | ((data[at + 5] as u64) << 40u64) | ((data[at + 6] as u64)
        << 48u64) | ((data[at + 7] as u64) << 56u64)
}

/// Reads a journal: its complete records in order, and whether reading
/// stopped at damage.
pub fn split_journal(data: &[u8]) -> (res: (Vec<Vec<u8>>, bool))
    ensures
        (records_view(res.0@), res.1) == journal_records(data@),
{
    let mut out: Vec<Vec<u8>> = Vec::new();
    let mut pos: usize = 0;
    let n = data.len();
    assert(data@.skip(0) =~= data@);
    loop
        invariant
            n == data@.len(),
            pos <= n,
            journal_records(data@) == (records_view(out@) + journal_records(data@.skip(pos as int)).0, journal_records(
                data@.skip(pos as int),
            ).1),
        decreases n - pos,
    {
        let ghost rest = data@.skip(pos as int);
        if pos == n {
            assert(rest.len() == 0);
            assert(records_view(out@) + Seq::<Seq<u8>>::empty() =~= records_view(out@));
            return (out, false);
        }
        if n - pos < 8 {
            assert(records_view(out@) + Seq::<Seq<u8>>::empty() =~= records_view(out@));
            return (out, true);
        }
        let len = read_le_u64(data, pos);
        assert(rest.take(8) =~= data@.subrange(pos as int, pos + 8));
        if len > JOURNAL_COMPACT_BYTES || ((n - pos - 8) as u64) < len {
            assert(records_view(out@) + Seq::<Seq<u8>>::empty() =~= records_view(out@));
            return (out, true);
        }
        let start = pos + 8;
        let end = start + len as usize;
        let mut rec: Vec<u8> = Vec::new();
        let mut i = start;
        while i < end
            invariant
                start <= i <= end,
                end <= n,
                n == data@.len(),
                rec@ == data@.subrange(start as int, i as int),
            decreases end - i,
        {
            rec.push(data[i]);
            assert(rec@ =~= data@.subrange(start as int, i + 1));
            i += 1;
        }
        let ghost before = records_view(out@);
        out.push(rec);
        proof {
            assert(records_view(out@) =~= before.push(data@.subrange(start as int, end as int)));
            assert(rest.subrange(8, 8 + len) =~= data@.subrange(start as int, end as int));
            assert(rest.skip(8 + len) =~= data@.skip(end as int));
            assert(before + (seq![rest.subrange(8, 8 + len)] + journal_records(data@.skip(end as int)).0)
                =~= before.push(data@.subrange(start as int, end as int)) + journal_records(data@.skip(end as int)).0);
        }
        pos = end;
    }
}

/// A record as the journal holds it: its length as 8 little-endian bytes,
/// then its bytes.
pub fn frame_record(payload: &[u8]) -> (res: Vec<u8>)
    ensures
        res@ == frame(payload@),
{
    let len = payload.len() as u64;
    let mut out: Vec<u8> = Vec::new();
    out.push((len & 0xff) as u8);
    out.push(((len >> 8u64) & 0xff) as u8);
    out.push(((len >> 16u64) & 0xff) as u8);
    out.push(((len >> 24u64) & 0xff) as u8);
    out.push(((len >> 32u64) & 0xff) as u8);
    out.push(((len >> 40u64) & 0xff) as u8);
    out.push(((len >> 48u64) & 0xff) as u8);
    out.push(((len >> 56u64) & 0xff) as u8);
    assert(out@ =~= le_bytes(len));
    let m = payload.len();
    for i in 0..m
        invariant
            m == payload@.len(),
            out@ == le_bytes(len) + payload@.take(i as int),
    {
        out.push(payload[i]);
        assert(out@ =~= le_bytes(len) + payload@.take(i + 1));
    }
    assert(payload@.take(m as int) =~= payload@);
    out
}

} // verus!
