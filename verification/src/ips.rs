//! The patch stream decoder and applier.
//!
//! A patch stream is a 5-byte preamble, zero or more records, and a 3-byte
//! sentinel. Each record is a 3-byte big-endian address followed by a 2-byte
//! big-endian length: a non-zero length introduces that many literal bytes,
//! a zero length introduces a 2-byte big-endian run length and one fill
//! byte. Records apply to a growable byte buffer strictly in stream order:
//! an address inside the buffer overwrites in place, an address at or past
//! the end first extends the buffer with zero bytes. A truncated read fails
//! with `PatchFormatError`; records already applied are kept.

use vstd::prelude::*;

use crate::bytes::{be16_at, be24_at, read_be16, read_be24, zero_bytes};
use crate::errors::PatchFormatError;
use vstd::math::max;

verus! {

/// How many bytes of preamble precede the first record.
pub const PREAMBLE_LEN: usize = 5;

/// A decoded patch record: either literal bytes copied to an address, or a
/// fill byte repeated over a run.
pub enum RecordModel {
    /// Copy `data` to the buffer starting at `address`.
    Literal { address: int, data: Seq<u8> },
    /// Write `fill` at `run_length` consecutive positions from `address`.
    Fill { address: int, run_length: int, fill: u8 },
}

/// The first address a record writes.
pub open spec fn record_address(r: RecordModel) -> int {
    match r {
        RecordModel::Literal { address, .. } => address,
        RecordModel::Fill { address, .. } => address,
    }
}

/// How many bytes a record writes.
pub open spec fn record_span(r: RecordModel) -> int {
    match r {
        RecordModel::Literal { data, .. } => data.len() as int,
        RecordModel::Fill { run_length, .. } => run_length,
    }
}

/// The byte a record writes at offset `i` from its address.
pub open spec fn record_byte(r: RecordModel, i: int) -> u8 {
    match r {
        RecordModel::Literal { data, .. } => data[i],
        RecordModel::Fill { fill, .. } => fill,
    }
}

/// A record as the parser produces it: its address is a 3-byte value and
/// its span a 2-byte value.
pub open spec fn record_wf(r: RecordModel) -> bool {
    &&& 0 <= record_address(r) < 0x1000000
    &&& 0 <= record_span(r) < 0x10000
}

/// Whether the three bytes of `b` at `p` are the stream's end sentinel.
pub open spec fn sentinel_at(b: Seq<u8>, p: int) -> bool {
    b[p] == 0x45u8 && b[p + 1] == 0x4Fu8 && b[p + 2] == 0x46u8
}

/// Decodes the records of `b` from position `p` on. Returns every record
/// that is complete before the sentinel or a truncation, and whether the
/// stream ended with the sentinel rather than a truncation.
pub open spec fn parse_from(b: Seq<u8>, p: int) -> (Seq<RecordModel>, bool)
    decreases b.len() - p,
{
    if p + 3 > b.len() {
        (Seq::empty(), false)
    } else if sentinel_at(b, p) {
        (Seq::empty(), true)
    } else if p + 5 > b.len() {
        (Seq::empty(), false)
    } else {
        let address = be24_at(b, p);
        let length = be16_at(b, p + 3);
        if length != 0 {
            if p + 5 + length > b.len() {
                (Seq::empty(), false)
            } else {
                let rec = RecordModel::Literal {
                    address,
                    data: b.subrange(p + 5, p + 5 + length),
                };
                let rest = parse_from(b, p + 5 + length);
                (seq![rec] + rest.0, rest.1)
            }
        } else {
            if p + 8 > b.len() {
                (Seq::empty(), false)
            } else {
                let rec = RecordModel::Fill {
                    address,
                    run_length: be16_at(b, p + 5),
                    fill: b[p + 7],
                };
                let rest = parse_from(b, p + 8);
                (seq![rec] + rest.0, rest.1)
            }
        }
    }
}

/// The records of a whole patch stream, preamble skipped.
pub open spec fn patch_records(b: Seq<u8>) -> Seq<RecordModel> {
    parse_from(b, PREAMBLE_LEN as int).0
}

/// Whether a whole patch stream is well formed: every read lands in bounds
/// and the sentinel ends it.
pub open spec fn patch_ok(b: Seq<u8>) -> bool {
    parse_from(b, PREAMBLE_LEN as int).1
}

/// One byte written at `a`: inside the buffer it overwrites, at or past the
/// end the buffer is extended with zero bytes up to `a` and the byte
/// appended.
pub open spec fn write_byte(buf: Seq<u8>, a: int, x: u8) -> Seq<u8> {
    if a < buf.len() {
        buf.update(a, x)
    } else {
        buf + zero_bytes(a - buf.len()) + seq![x]
    }
}

/// `data` written byte for byte at consecutive addresses from `a`.
pub open spec fn write_bytes(buf: Seq<u8>, a: int, data: Seq<u8>) -> Seq<u8>
    decreases data.len(),
{
    if data.len() == 0 {
        buf
    } else {
        write_bytes(write_byte(buf, a, data[0]), a + 1, data.drop_first())
    }
}

/// `x` written at `n` consecutive addresses from `a`.
pub open spec fn write_fill(buf: Seq<u8>, a: int, n: int, x: u8) -> Seq<u8>
    decreases n,
{
    if n <= 0 {
        buf
    } else {
        write_fill(write_byte(buf, a, x), a + 1, n - 1, x)
    }
}

/// One record applied to a buffer.
pub open spec fn apply_record(buf: Seq<u8>, r: RecordModel) -> Seq<u8> {
    match r {
        RecordModel::Literal { address, data } => write_bytes(buf, address, data),
        RecordModel::Fill { address, run_length, fill } => write_fill(
            buf,
            address,
            run_length,
            fill,
        ),
    }
}

/// A list of records applied in order.
pub open spec fn apply_records(buf: Seq<u8>, recs: Seq<RecordModel>) -> Seq<u8>
    decreases recs.len(),
{
    if recs.len() == 0 {
        buf
    } else {
        apply_records(apply_record(buf, recs[0]), recs.drop_first())
    }
}

/// Appending one record to a list applies it after the list.
pub proof fn lemma_apply_records_snoc(buf: Seq<u8>, recs: Seq<RecordModel>, r: RecordModel)
    ensures
        apply_records(buf, recs.push(r)) == apply_record(apply_records(buf, recs), r),
    decreases recs.len(),
{
    if recs.len() == 0 {
        reveal_with_fuel(apply_records, 2);
        assert(recs.push(r).drop_first() =~= Seq::<RecordModel>::empty());
        assert(recs.push(r)[0] == r);
    } else {
        assert(recs.push(r).drop_first() =~= recs.drop_first().push(r));
        assert(recs.push(r)[0] == recs[0]);
        lemma_apply_records_snoc(apply_record(buf, recs[0]), recs.drop_first(), r);
    }
}

/// Writing one more literal byte writes it after the others.
pub proof fn lemma_write_bytes_snoc(buf: Seq<u8>, a: int, data: Seq<u8>, x: u8)
    ensures
        write_bytes(buf, a, data.push(x)) == write_byte(write_bytes(buf, a, data), a + data.len(), x),
    decreases data.len(),
{
    if data.len() == 0 {
        reveal_with_fuel(write_bytes, 2);
        assert(data.push(x)[0] == x);
        assert(data.push(x).drop_first() =~= Seq::<u8>::empty());
    } else {
        assert(data.push(x)[0] == data[0]);
        assert(data.push(x).drop_first() =~= data.drop_first().push(x));
        lemma_write_bytes_snoc(write_byte(buf, a, data[0]), a + 1, data.drop_first(), x);
    }
}

/// Filling one more position writes the fill byte after the others.
pub proof fn lemma_write_fill_snoc(buf: Seq<u8>, a: int, n: int, x: u8)
    requires
        n >= 0,
    ensures
        write_fill(buf, a, n + 1, x) == write_byte(write_fill(buf, a, n, x), a + n, x),
    decreases n,
{
    if n > 0 {
        lemma_write_fill_snoc(write_byte(buf, a, x), a + 1, n - 1, x);
    } else {
        reveal_with_fuel(write_fill, 2);
    }
}

/// What one written byte does to every position of the buffer.
pub proof fn lemma_write_byte_char(buf: Seq<u8>, a: int, x: u8)
    requires
        a >= 0,
    ensures
        write_byte(buf, a, x).len() == max(buf.len() as int, a + 1),
        write_byte(buf, a, x)[a] == x,
        forall|i: int|
            0 <= i < write_byte(buf, a, x).len() && i != a ==> write_byte(buf, a, x)[i] == (
            if i < buf.len() {
                buf[i]
            } else {
                0u8
            }),
{
}

/// What a literal record does to every position of the buffer.
pub proof fn lemma_write_bytes_char(buf: Seq<u8>, a: int, data: Seq<u8>)
    requires
        a >= 0,
    ensures
        write_bytes(buf, a, data).len() == (if data.len() == 0 {
            buf.len() as int
        } else {
            max(buf.len() as int, a + data.len())
        }),
        forall|i: int|
            a <= i < a + data.len() ==> write_bytes(buf, a, data)[i] == data[i - a],
        forall|i: int|
            0 <= i < write_bytes(buf, a, data).len() && !(a <= i < a + data.len())
                ==> write_bytes(buf, a, data)[i] == (if i < buf.len() {
                buf[i]
            } else {
                0u8
            }),
    decreases data.len(),
{
    if data.len() > 0 {
        let buf1 = write_byte(buf, a, data[0]);
        lemma_write_byte_char(buf, a, data[0]);
        lemma_write_bytes_char(buf1, a + 1, data.drop_first());
    }
}

/// What a fill record does to every position of the buffer.
pub proof fn lemma_write_fill_char(buf: Seq<u8>, a: int, n: int, x: u8)
    requires
        a >= 0,
    ensures
        write_fill(buf, a, n, x).len() == (if n <= 0 {
            buf.len() as int
        } else {
            max(buf.len() as int, a + n)
        }),
        forall|i: int| a <= i < a + n ==> write_fill(buf, a, n, x)[i] == x,
        forall|i: int|
            0 <= i < write_fill(buf, a, n, x).len() && !(a <= i < a + n) ==> write_fill(
                buf,
                a,
                n,
                x,
            )[i] == (if i < buf.len() {
                buf[i]
            } else {
                0u8
            }),
    decreases n,
{
    if n > 0 {
        let buf1 = write_byte(buf, a, x);
        lemma_write_byte_char(buf, a, x);
        lemma_write_fill_char(buf1, a + 1, n - 1, x);
    }
}

/// Law: records apply in stream order, so when two records overlap, the
/// later record's bytes win at every overlapping address.
pub proof fn lemma_later_record_wins(
    buf: Seq<u8>,
    first: RecordModel,
    second: RecordModel,
    a: int,
)
    requires
        record_wf(first),
        record_wf(second),
        record_address(second) <= a < record_address(second) + record_span(second),
    ensures
        a < apply_records(buf, seq![first, second]).len(),
        apply_records(buf, seq![first, second])[a] == record_byte(
            second,
            a - record_address(second),
        ),
{
    let two = seq![first, second];
    assert(two.drop_first() =~= seq![second]);
    assert(seq![second].drop_first() =~= Seq::<RecordModel>::empty());
    let buf1 = apply_record(buf, first);
    assert(apply_records(buf, two) == apply_record(buf1, second)) by {
        reveal_with_fuel(apply_records, 3);
    }
    match second {
        RecordModel::Literal { address, data } => {
            lemma_write_bytes_char(buf1, address, data);
        },
        RecordModel::Fill { address, run_length, fill } => {
            lemma_write_fill_char(buf1, address, run_length, fill);
        },
    }
}

/// Writes one byte at `idx`, growing the buffer with zero bytes first when
/// `idx` is at or past the end.
pub fn write_byte_grow(v: &mut Vec<u8>, idx: usize, x: u8)
    ensures
        final(v)@ == write_byte(old(v)@, idx as int, x),
{
    if idx < v.len() {
        v.set(idx, x);
        assert(v@ =~= write_byte(old(v)@, idx as int, x));
    } else {
        while v.len() < idx
            invariant
                old(v)@.len() <= v@.len() <= max(idx as int, old(v)@.len() as int),
                v@ == old(v)@ + zero_bytes(v@.len() - old(v)@.len()),
            decreases idx - v.len(),
        {
            v.push(0);
            assert(v@ =~= old(v)@ + zero_bytes(v@.len() - old(v)@.len()));
        }
        v.push(x);
        assert(v@ =~= write_byte(old(v)@, idx as int, x));
    }
}

/// One parsed patch stream, ready to be applied to a buffer.
pub struct Ips {
    stream: Vec<u8>,
}

impl View for Ips {
    type V = Seq<u8>;

    closed spec fn view(&self) -> Seq<u8> {
        self.stream@
    }
}

impl Ips {
    /// Wraps raw patch bytes. The stream is checked record by record when
    /// it is applied, not here.
    pub fn new(bytes: Vec<u8>) -> (r: Ips)
        ensures
            r@ == bytes@,
    {
        Ips { stream: bytes }
    }

    /// Applies the stream's records to `rom` in stream order. On a
    /// truncated stream every record that was complete has been applied
    /// and `PatchFormatError` comes back; nothing is rolled back.
    pub fn apply_to(&mut self, rom: &mut Vec<u8>) -> (r: Result<(), PatchFormatError>)
        ensures
            final(self)@ == old(self)@,
            final(rom)@ == apply_records(old(rom)@, patch_records(old(self)@)),
            r is Ok <==> patch_ok(old(self)@),
    {
        apply_patch(rom, &self.stream)
    }
}

/// Applies one whole patch stream to `rom`, record by record, in stream
/// order. Applied records stay applied even when a later read is cut off.
pub fn apply_patch(rom: &mut Vec<u8>, stream: &Vec<u8>) -> (r: Result<(), PatchFormatError>)
    ensures
        final(rom)@ == apply_records(old(rom)@, patch_records(stream@)),
        r is Ok <==> patch_ok(stream@),
{
    let ghost s = stream@;
    let ghost rom0 = rom@;
    let ghost full = parse_from(s, PREAMBLE_LEN as int);
    let ghost mut sofar: Seq<RecordModel> = Seq::empty();
    let n = stream.len();
    let mut p: usize = PREAMBLE_LEN;
    loop
        invariant
            s == stream@,
            rom0 == old(rom)@,
            n == s.len(),
            PREAMBLE_LEN <= p,
            p <= n || p == PREAMBLE_LEN,
            full == parse_from(s, PREAMBLE_LEN as int),
            full.0 == sofar + parse_from(s, p as int).0,
            full.1 == parse_from(s, p as int).1,
            rom@ == apply_records(rom0, sofar),
        decreases n + 8 - p,
    {
        let rem = if p >= n {
            0
        } else {
            n - p
        };
        if rem < 3 {
            proof {
                assert(parse_from(s, p as int).0 =~= Seq::<RecordModel>::empty());
                assert(full.0 =~= sofar);
            }
            return Err(PatchFormatError);
        }
        let b0 = stream[p];
        let b1 = stream[p + 1];
        let b2 = stream[p + 2];
        if b0 == 0x45 && b1 == 0x4F && b2 == 0x46 {
            proof {
                assert(sentinel_at(s, p as int));
                assert(parse_from(s, p as int).0 =~= Seq::<RecordModel>::empty());
                assert(full.0 =~= sofar);
            }
            return Ok(());
        }
        assert(!sentinel_at(s, p as int));
        if rem < 5 {
            proof {
                assert(parse_from(s, p as int).0 =~= Seq::<RecordModel>::empty());
                assert(full.0 =~= sofar);
            }
            return Err(PatchFormatError);
        }
        let address = read_be24(stream, p);
        let length = read_be16(stream, p + 3);
        let addr = address as usize;
        let len = length as usize;
        assert(addr < 0x1000000 && len < 0x10000);
        if len != 0 {
            if rem - 5 < len {
                proof {
                    assert(p + 5 + len > n);
                    assert(parse_from(s, p as int).0 =~= Seq::<RecordModel>::empty());
                    assert(full.0 =~= sofar);
                }
                return Err(PatchFormatError);
            }
            let ghost ldata = s.subrange(p as int + 5, p as int + 5 + len as int);
            let ghost rec = RecordModel::Literal { address: addr as int, data: ldata };
            let ghost rom_iter = rom@;
            let mut j: usize = 0;
            while j < len
                invariant
                    j <= len,
                    s == stream@,
                    n == s.len(),
                    p + 5 + len <= n,
                    addr < 0x1000000,
                    len < 0x10000,
                    ldata == s.subrange(p as int + 5, p as int + 5 + len as int),
                    rom@ == write_bytes(rom_iter, addr as int, ldata.take(j as int)),
                decreases len - j,
            {
                let x = stream[p + 5 + j];
                proof {
                    assert(ldata[j as int] == s[p as int + 5 + j as int]);
                }
                write_byte_grow(rom, addr + j, x);
                proof {
                    lemma_write_bytes_snoc(rom_iter, addr as int, ldata.take(j as int), x);
                    assert(ldata.take(j as int).push(x) =~= ldata.take(j as int + 1));
                }
                j = j + 1;
            }
            proof {
                assert(ldata.take(len as int) =~= ldata);
                assert(rom@ == apply_record(rom_iter, rec));
                let rest = parse_from(s, p as int + 5 + len as int);
                assert(parse_from(s, p as int).0 == seq![rec] + rest.0);
                assert(parse_from(s, p as int).1 == rest.1);
                lemma_apply_records_snoc(rom0, sofar, rec);
                assert(sofar + (seq![rec] + rest.0) =~= (sofar.push(rec)) + rest.0);
                sofar = sofar.push(rec);
            }
            p = p + 5 + len;
        } else {
            if rem < 8 {
                proof {
                    assert(parse_from(s, p as int).0 =~= Seq::<RecordModel>::empty());
                    assert(full.0 =~= sofar);
                }
                return Err(PatchFormatError);
            }
            let run = read_be16(stream, p + 5);
            let fill = stream[p + 7];
            let run_len = run as usize;
            let ghost rec = RecordModel::Fill {
                address: addr as int,
                run_length: run_len as int,
                fill,
            };
            let ghost rom_iter = rom@;
            let mut j: usize = 0;
            while j < run_len
                invariant
                    j <= run_len,
                    addr < 0x1000000,
                    run_len < 0x10000,
                    rom@ == write_fill(rom_iter, addr as int, j as int, fill),
                decreases run_len - j,
            {
                write_byte_grow(rom, addr + j, fill);
                proof {
                    lemma_write_fill_snoc(rom_iter, addr as int, j as int, fill);
                }
                j = j + 1;
            }
            proof {
                assert(rom@ == apply_record(rom_iter, rec));
                let rest = parse_from(s, p as int + 8);
                assert(parse_from(s, p as int).0 == seq![rec] + rest.0);
                assert(parse_from(s, p as int).1 == rest.1);
                lemma_apply_records_snoc(rom0, sofar, rec);
                assert(sofar + (seq![rec] + rest.0) =~= (sofar.push(rec)) + rest.0);
                sofar = sofar.push(rec);
            }
            p = p + 8;
        }
    }
}

} // verus!
