//! The write-ahead journal and the settlement sweep over it: each record is
//! framed by a four-byte big-endian length; the sweep reads frames from a
//! cursor until an empty or truncated one, and tallies approved
//! authorizations per acquirer.
use vstd::prelude::*;
use vstd::string::StringExecFns;
use vstd::utf8::encode_utf8;
use crate::canonical::Transaction;
use crate::numeric::append_bytes;
use crate::text::{bytes_end_with, bytes_equal, string_bytes};

verus! {

/// The end-of-day settlement of the general ledger.
pub struct SettlementEngine;

/// A big-endian 32-bit length at `at`.
pub open spec fn be32(b: Seq<u8>, at: int) -> nat {
    b[at] as nat * 16777216 + b[at + 1] as nat * 65536 + b[at + 2] as nat * 256 + b[at + 3] as nat
}

/// The four big-endian bytes of `n`, taken modulo 2^32.
pub open spec fn be32_bytes(n: nat) -> Seq<u8> {
    seq![(n / 16777216 % 256) as u8, (n / 65536 % 256) as u8, (n / 256 % 256) as u8, (n % 256) as u8]
}

/// The journal frame of a record.
pub open spec fn journal_frame(rec: Seq<u8>) -> Seq<u8> {
    be32_bytes(rec.len()) + rec
}

/// A journal holding `recs` in order.
pub open spec fn wal_of(recs: Seq<Seq<u8>>) -> Seq<u8>
    decreases recs.len(),
{
    if recs.len() == 0 {
        Seq::empty()
    } else {
        journal_frame(recs[0]) + wal_of(recs.drop_first())
    }
}

/// The byte ranges of the records a sweep reads from `cursor` on: frame after
/// frame until one has length zero or runs past the end.
pub open spec fn wal_scan(buf: Seq<u8>, cursor: int) -> Seq<(int, int)>
    decreases buf.len() - cursor,
{
    if cursor < 0 || cursor + 4 > buf.len() {
        Seq::empty()
    } else {
        let n = be32(buf, cursor);
        if n == 0 || cursor + 4 + n > buf.len() {
            Seq::empty()
        } else {
            seq![(cursor + 4, cursor + 4 + n)] + wal_scan(buf, cursor + 4 + n)
        }
    }
}

/// Where a sweep from `cursor` stops.
pub open spec fn wal_end(buf: Seq<u8>, cursor: int) -> int
    decreases buf.len() - cursor,
{
    if cursor < 0 || cursor + 4 > buf.len() {
        cursor
    } else {
        let n = be32(buf, cursor);
        if n == 0 || cursor + 4 + n > buf.len() {
            cursor
        } else {
            wal_end(buf, cursor + 4 + n)
        }
    }
}

/// The journal frame of a record: its length, then the record.
pub fn journal_frame_bytes(rec: &[u8]) -> (r: Vec<u8>)
    ensures
        r@ == journal_frame(rec@),
{
    let n = rec.len();
    let hdr = [((n / 16777216) % 256) as u8, ((n / 65536) % 256) as u8, ((n / 256) % 256) as u8, (n % 256) as u8];
    let mut r: Vec<u8> = Vec::new();
    append_bytes(&mut r, &hdr);
    append_bytes(&mut r, rec);
    assert(r@ =~= journal_frame(rec@));
    r
}

/// A record of `len` bytes still fits a journal of `capacity` bytes filled
/// up to `offset`.
pub fn journal_has_room(offset: usize, len: usize, capacity: usize) -> (r: bool)
    ensures
        r == (offset + 4 + len <= capacity),
{
    offset <= capacity && capacity - offset >= 4 && capacity - offset - 4 >= len
}

/// The records a sweep reads from `cursor`: their byte ranges, and where it stops.
pub fn scan_wal(buf: &[u8], cursor: usize) -> (r: (Vec<(usize, usize)>, usize))
    ensures
        r.0@.map_values(|p: (usize, usize)| (p.0 as int, p.1 as int)) == wal_scan(buf@, cursor as int),
        r.1 == wal_end(buf@, cursor as int),
{
    let mut frames: Vec<(usize, usize)> = Vec::new();
    let mut cur = cursor;
    let n = buf.len();
    loop
        invariant
            n == buf@.len(),
            frames@.map_values(|p: (usize, usize)| (p.0 as int, p.1 as int)) + wal_scan(buf@, cur as int)
                == wal_scan(buf@, cursor as int),
            wal_end(buf@, cur as int) == wal_end(buf@, cursor as int),
        ensures
            frames@.map_values(|p: (usize, usize)| (p.0 as int, p.1 as int)) == wal_scan(buf@, cursor as int),
            cur == wal_end(buf@, cursor as int),
        decreases n - cur,
    {
        if !(cur <= n && n - cur >= 4) {
            assert(wal_scan(buf@, cur as int) =~= Seq::<(int, int)>::empty());
            assert(frames@.map_values(|p: (usize, usize)| (p.0 as int, p.1 as int)) =~= frames@.map_values(
                |p: (usize, usize)| (p.0 as int, p.1 as int),
            ) + wal_scan(buf@, cur as int));
            break;
        }
        let len: u64 = (buf[cur] as u64) * 16777216 + (buf[cur + 1] as u64) * 65536 + (buf[cur + 2] as u64) * 256
            + (buf[cur + 3] as u64);
        assert(len == be32(buf@, cur as int));
        if len == 0 || len > (n - cur - 4) as u64 {
            assert(wal_scan(buf@, cur as int) =~= Seq::<(int, int)>::empty());
            assert(frames@.map_values(|p: (usize, usize)| (p.0 as int, p.1 as int)) =~= frames@.map_values(
                |p: (usize, usize)| (p.0 as int, p.1 as int),
            ) + wal_scan(buf@, cur as int));
            break;
        }
        let start = cur + 4;
        let end = cur + 4 + len as usize;
        let ghost before = frames@;
        frames.push((start, end));
        assert(frames@.map_values(|p: (usize, usize)| (p.0 as int, p.1 as int)) =~= before.map_values(
            |p: (usize, usize)| (p.0 as int, p.1 as int),
        ).push((start as int, end as int)));
        assert(wal_scan(buf@, cur as int) == seq![(start as int, end as int)] + wal_scan(buf@, end as int));
        assert(frames@.map_values(|p: (usize, usize)| (p.0 as int, p.1 as int)) + wal_scan(buf@, end as int)
            =~= before.map_values(|p: (usize, usize)| (p.0 as int, p.1 as int)) + wal_scan(buf@, cur as int));
        cur = end;
    }
    (frames, cur)
}

/// The records the ranges pick out of `buf`.
pub open spec fn records_at(buf: Seq<u8>, ranges: Seq<(int, int)>) -> Seq<Seq<u8>> {
    ranges.map_values(|p: (int, int)| buf.subrange(p.0, p.1))
}

/// The ranges moved `k` bytes on.
pub open spec fn shifted(ranges: Seq<(int, int)>, k: int) -> Seq<(int, int)> {
    ranges.map_values(|p: (int, int)| (p.0 + k, p.1 + k))
}

proof fn lemma_scan_shift(p: Seq<u8>, w: Seq<u8>, c: int)
    requires
        0 <= c,
    ensures
        wal_scan(p + w, p.len() + c) == shifted(wal_scan(w, c), p.len() as int),
    decreases w.len() - c,
{
    let buf = p + w;
    let k = p.len() as int;
    if c + 4 <= w.len() {
        assert(be32(buf, k + c) == be32(w, c)) by {
            assert(buf[k + c] == w[c]);
            assert(buf[k + c + 1] == w[c + 1]);
            assert(buf[k + c + 2] == w[c + 2]);
            assert(buf[k + c + 3] == w[c + 3]);
        }
        let n = be32(w, c);
        if n != 0 && c + 4 + n <= w.len() {
            lemma_scan_shift(p, w, c + 4 + n);
            assert(shifted(wal_scan(w, c), k) =~= seq![(k + c + 4, k + c + 4 + n)] + shifted(
                wal_scan(w, c + 4 + n),
                k,
            ));
        } else {
            assert(shifted(wal_scan(w, c), k) =~= Seq::<(int, int)>::empty());
        }
    } else {
        assert(shifted(wal_scan(w, c), k) =~= Seq::<(int, int)>::empty());
    }
}

proof fn lemma_records_shifted(p: Seq<u8>, w: Seq<u8>, ranges: Seq<(int, int)>)
    requires
        forall|i: int| 0 <= i < ranges.len() ==> 0 <= #[trigger] ranges[i].0 <= ranges[i].1 <= w.len(),
    ensures
        records_at(p + w, shifted(ranges, p.len() as int)) == records_at(w, ranges),
{
    let k = p.len() as int;
    assert forall|i: int| 0 <= i < ranges.len() implies #[trigger] records_at(p + w, shifted(ranges, k))[i]
        == records_at(w, ranges)[i] by {
        let r = ranges[i];
        assert((p + w).subrange(r.0 + k, r.1 + k) =~= w.subrange(r.0, r.1));
    }
    assert(records_at(p + w, shifted(ranges, k)) =~= records_at(w, ranges));
}

proof fn lemma_scan_bounds(buf: Seq<u8>, c: int)
    requires
        0 <= c,
    ensures
        forall|i: int|
            0 <= i < wal_scan(buf, c).len() ==> c <= #[trigger] wal_scan(buf, c)[i].0 <= wal_scan(buf, c)[i].1
                <= buf.len(),
    decreases buf.len() - c,
{
    if c + 4 <= buf.len() {
        let n = be32(buf, c);
        if n != 0 && c + 4 + n <= buf.len() {
            lemma_scan_bounds(buf, c + 4 + n);
            let s = wal_scan(buf, c);
            assert forall|i: int| 0 <= i < s.len() implies c <= #[trigger] s[i].0 <= s[i].1 <= buf.len() by {
                if i > 0 {
                    assert(s[i] == wal_scan(buf, c + 4 + n)[i - 1]);
                }
            }
        }
    }
}

proof fn lemma_be32_roundtrip(n: nat)
    requires
        n < 4294967296,
    ensures
        be32(be32_bytes(n), 0) == n,
{
    let b = be32_bytes(n);
    assert(b[0] == (n / 16777216 % 256) as u8);
    assert(b[1] == (n / 65536 % 256) as u8);
    assert(b[2] == (n / 256 % 256) as u8);
    assert(b[3] == (n % 256) as u8);
    assert((n / 16777216 % 256) * 16777216 + (n / 65536 % 256) * 65536 + (n / 256 % 256) * 256 + n % 256 == n)
        by (nonlinear_arith)
        requires
            n < 4294967296,
    ;
}

/// What the journal writes the sweep reads back: over a journal holding
/// non-empty records of less than 4 GiB each, followed by zero padding (or
/// fewer than four bytes), the sweep from the start reads exactly those
/// records, in order.
pub proof fn law_wal_roundtrip(recs: Seq<Seq<u8>>, tail: Seq<u8>)
    requires
        forall|i: int| 0 <= i < recs.len() ==> 0 < #[trigger] recs[i].len() < 4294967296,
        tail.len() < 4 || be32(tail, 0) == 0,
    ensures
        records_at(wal_of(recs) + tail, wal_scan(wal_of(recs) + tail, 0)) == recs,
    decreases recs.len(),
{
    let buf = wal_of(recs) + tail;
    if recs.len() == 0 {
        assert(buf =~= tail);
        assert(wal_scan(buf, 0) =~= Seq::<(int, int)>::empty());
        assert(records_at(buf, wal_scan(buf, 0)) =~= recs);
    } else {
        let r0 = recs[0];
        let rest = recs.drop_first();
        assert forall|i: int| 0 <= i < rest.len() implies 0 < #[trigger] rest[i].len() < 4294967296 by {
            assert(rest[i] == recs[i + 1]);
        }
        law_wal_roundtrip(rest, tail);
        let w = wal_of(rest) + tail;
        let f = journal_frame(r0);
        assert(buf =~= f + w);
        let n = r0.len();
        lemma_be32_roundtrip(n);
        assert(be32(buf, 0) == n) by {
            assert(buf[0] == f[0] && buf[1] == f[1] && buf[2] == f[2] && buf[3] == f[3]);
            assert(be32(f, 0) == be32(be32_bytes(n), 0));
        }
        lemma_scan_shift(f, w, 0);
        assert(f.len() + 0 == 4 + n);
        assert(wal_scan(buf, 0) == seq![(4int, 4 + n as int)] + wal_scan(buf, 4 + n as int));
        lemma_scan_bounds(w, 0);
        lemma_records_shifted(f, w, wal_scan(w, 0));
        let s = wal_scan(buf, 0);
        let tail_ranges = shifted(wal_scan(w, 0), f.len() as int);
        assert(s =~= seq![(4int, 4 + n as int)] + tail_ranges);
        assert(buf.subrange(4, 4 + n as int) =~= r0);
        assert(records_at(buf, s) =~= seq![r0] + records_at(buf, tail_ranges));
        assert(recs =~= seq![r0] + rest);
    }
}

/// A journal record counts toward settlement: an approved (`00`)
/// authorization request (`0100`).
pub open spec fn settles(t: crate::canonical::TransactionView) -> bool {
    encode_utf8(t.mti) == seq![48u8, 49u8, 48u8, 48u8] && encode_utf8(t.response_code) == seq![48u8, 48u8]
}

/// Whether a journal record counts toward settlement.
pub fn counts_toward_settlement(t: &Transaction) -> (r: bool)
    ensures
        r == settles(t@),
{
    bytes_equal(string_bytes(&t.mti), &[48u8, 49u8, 48u8, 48u8]) && bytes_equal(string_bytes(&t.response_code), &[48u8, 48u8])
}

/// An acquirer's running total and count after one more settled record of `amount`.
pub fn tally_step(total: u64, count: u64, amount: i64) -> (r: (u64, u64))
    requires
        total + (amount as u64) <= u64::MAX,
        count < u64::MAX,
    ensures
        r.0 == total + (amount as u64),
        r.1 == count + 1,
{
    (total + amount as u64, count + 1)
}

/// The key an acquirer's count is kept under: its name and `_count`.
pub fn count_key(acquirer: &str) -> (r: String)
    ensures
        r@ == acquirer@ + "_count"@,
{
    let mut k = String::from_str(acquirer);
    k.append("_count");
    k
}

/// A tally key that names an acquirer's total: neither the sweep cursor nor a count.
pub open spec fn names_total(k: Seq<u8>) -> bool {
    k != "cursor_offset"@.map_values(|c: char| c as u8) && !(k.len() >= 6 && k.subrange(k.len() - 6, k.len() as int)
        == "_count"@.map_values(|c: char| c as u8))
}

/// Whether a tally key names an acquirer's total.
pub fn is_total_key(k: &[u8]) -> (r: bool)
    ensures
        r == names_total(k@),
{
    proof {
        reveal_strlit("cursor_offset");
        reveal_strlit("_count");
    }
    let cursor = [99u8, 117u8, 114u8, 115u8, 111u8, 114u8, 95u8, 111u8, 102u8, 102u8, 115u8, 101u8, 116u8];
    let suffix = [95u8, 99u8, 111u8, 117u8, 110u8, 116u8];
    assert(cursor@ =~= "cursor_offset"@.map_values(|c: char| c as u8));
    assert(suffix@ =~= "_count"@.map_values(|c: char| c as u8));
    !bytes_equal(k, &cursor) && !bytes_end_with(k, &suffix)
}

/// A big-endian 64-bit value.
pub open spec fn be64(b: Seq<u8>) -> nat {
    be32(b, 0) * 4294967296 + be32(b, 4)
}

/// Reads a stored eight-byte big-endian tally.
pub fn read_be_u64(b: &[u8]) -> (r: u64)
    requires
        b@.len() == 8,
    ensures
        r as nat == be64(b@),
{
    let hi: u64 = (b[0] as u64) * 16777216 + (b[1] as u64) * 65536 + (b[2] as u64) * 256 + (b[3] as u64);
    let lo: u64 = (b[4] as u64) * 16777216 + (b[5] as u64) * 65536 + (b[6] as u64) * 256 + (b[7] as u64);
    hi * 4294967296 + lo
}

} // verus!
