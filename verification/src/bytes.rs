//! Byte-level primitives shared by the codec, the linker and the patch
//! engine: little-endian and big-endian integer fields inside a byte
//! sequence, stated arithmetically and proved free of overflow.

use vstd::prelude::*;

verus! {

/// The value of the 2-byte little-endian field of `b` that starts at `p`.
pub open spec fn le16_at(b: Seq<u8>, p: int) -> int {
    b[p] + b[p + 1] * 0x100
}

/// The value of the 4-byte little-endian field of `b` that starts at `p`.
pub open spec fn le32_at(b: Seq<u8>, p: int) -> int {
    b[p] + b[p + 1] * 0x100 + b[p + 2] * 0x10000 + b[p + 3] * 0x1000000
}

/// The value of the 2-byte big-endian field of `b` that starts at `p`.
pub open spec fn be16_at(b: Seq<u8>, p: int) -> int {
    b[p] * 0x100 + b[p + 1]
}

/// The value of the 3-byte big-endian field of `b` that starts at `p`.
pub open spec fn be24_at(b: Seq<u8>, p: int) -> int {
    b[p] * 0x10000 + b[p + 1] * 0x100 + b[p + 2]
}

/// The 2-byte little-endian encoding of `x`.
pub open spec fn le16_bytes(x: int) -> Seq<u8> {
    seq![(x % 0x100) as u8, ((x / 0x100) % 0x100) as u8]
}

/// The 4-byte little-endian encoding of `x`.
pub open spec fn le32_bytes(x: int) -> Seq<u8> {
    seq![
        (x % 0x100) as u8,
        ((x / 0x100) % 0x100) as u8,
        ((x / 0x10000) % 0x100) as u8,
        ((x / 0x1000000) % 0x100) as u8,
    ]
}

/// Encoding a 16-bit value and reading the field back yields the value.
pub proof fn lemma_le16_roundtrip(x: int)
    requires
        0 <= x < 0x10000,
    ensures
        le16_at(le16_bytes(x), 0) == x,
{
    assert(x == x % 0x100 + (x / 0x100) * 0x100) by (nonlinear_arith)
        requires 0 <= x < 0x10000;
    assert((x / 0x100) % 0x100 == x / 0x100) by (nonlinear_arith)
        requires 0 <= x < 0x10000;
}

/// Encoding a 32-bit value and reading the field back yields the value.
pub proof fn lemma_le32_roundtrip(x: int)
    requires
        0 <= x < 0x100000000,
    ensures
        le32_at(le32_bytes(x), 0) == x,
{
    assert(x == x % 0x100 + ((x / 0x100) % 0x100) * 0x100 + ((x / 0x10000) % 0x100) * 0x10000 + ((
    x / 0x1000000) % 0x100) * 0x1000000) by (nonlinear_arith)
        requires 0 <= x < 0x100000000;
}

/// Reading a field sees only the bytes under it: equal windows give equal
/// values.
pub proof fn lemma_le32_depends_only_on_window(a: Seq<u8>, p: int, b: Seq<u8>, q: int)
    requires
        0 <= p,
        p + 4 <= a.len(),
        0 <= q,
        q + 4 <= b.len(),
        a[p] == b[q],
        a[p + 1] == b[q + 1],
        a[p + 2] == b[q + 2],
        a[p + 3] == b[q + 3],
    ensures
        le32_at(a, p) == le32_at(b, q),
{
}

/// Reads the 4-byte little-endian field of `v` at `p`.
pub fn read_le32(v: &Vec<u8>, p: usize) -> (r: u32)
    requires
        p + 4 <= v.len(),
    ensures
        r == le32_at(v@, p as int),
{
    let b0 = v[p] as u32;
    let b1 = v[p + 1] as u32;
    let b2 = v[p + 2] as u32;
    let b3 = v[p + 3] as u32;
    b0 + b1 * 0x100 + b2 * 0x10000 + b3 * 0x1000000
}

/// Reads the 2-byte little-endian field of `v` at `p`.
pub fn read_le16(v: &Vec<u8>, p: usize) -> (r: u16)
    requires
        p + 2 <= v.len(),
    ensures
        r == le16_at(v@, p as int),
{
    let b0 = v[p] as u16;
    let b1 = v[p + 1] as u16;
    b0 + b1 * 0x100
}

/// Reads the 2-byte big-endian field of `v` at `p`.
pub fn read_be16(v: &Vec<u8>, p: usize) -> (r: u16)
    requires
        p + 2 <= v.len(),
    ensures
        r == be16_at(v@, p as int),
{
    let b0 = v[p] as u16;
    let b1 = v[p + 1] as u16;
    b0 * 0x100 + b1
}

/// Reads the 3-byte big-endian field of `v` at `p`.
pub fn read_be24(v: &Vec<u8>, p: usize) -> (r: u32)
    requires
        p + 3 <= v.len(),
    ensures
        r == be24_at(v@, p as int),
{
    let b0 = v[p] as u32;
    let b1 = v[p + 1] as u32;
    let b2 = v[p + 2] as u32;
    b0 * 0x10000 + b1 * 0x100 + b2
}

/// Appends the 4-byte little-endian encoding of `x` to `out`.
pub fn push_le32(out: &mut Vec<u8>, x: u32)
    ensures
        final(out)@ == old(out)@ + le32_bytes(x as int),
{
    let b0 = (x % 0x100) as u8;
    let b1 = ((x / 0x100) % 0x100) as u8;
    let b2 = ((x / 0x10000) % 0x100) as u8;
    let b3 = ((x / 0x1000000) % 0x100) as u8;
    out.push(b0);
    out.push(b1);
    out.push(b2);
    out.push(b3);
    assert(out@ =~= old(out)@ + le32_bytes(x as int));
}

/// Appends the 2-byte little-endian encoding of `x` to `out`.
pub fn push_le16(out: &mut Vec<u8>, x: u16)
    ensures
        final(out)@ == old(out)@ + le16_bytes(x as int),
{
    let b0 = (x % 0x100) as u8;
    let b1 = ((x / 0x100) % 0x100) as u8;
    out.push(b0);
    out.push(b1);
    assert(out@ =~= old(out)@ + le16_bytes(x as int));
}

/// The byte sequence with the 4-byte little-endian encoding of `x` put at
/// `p` and everything else unchanged.
pub open spec fn store_le32_at(b: Seq<u8>, p: int, x: int) -> Seq<u8> {
    b.update(p, le32_bytes(x)[0]).update(p + 1, le32_bytes(x)[1]).update(p + 2, le32_bytes(x)[2])
        .update(p + 3, le32_bytes(x)[3])
}

/// What storing a field does to every position of the buffer.
pub proof fn lemma_store_le32_at_char(b: Seq<u8>, p: int, x: int)
    requires
        0 <= p,
        p + 4 <= b.len(),
        0 <= x < 0x100000000,
    ensures
        store_le32_at(b, p, x).len() == b.len(),
        le32_at(store_le32_at(b, p, x), p) == x,
        forall|i: int|
            0 <= i < b.len() && !(p <= i < p + 4) ==> store_le32_at(b, p, x)[i] == b[i],
        store_le32_at(b, p, x).subrange(p, p + 4) == le32_bytes(x),
{
    lemma_le32_roundtrip(x);
    assert(store_le32_at(b, p, x).subrange(p, p + 4) =~= le32_bytes(x));
    lemma_le32_depends_only_on_window(store_le32_at(b, p, x), p, le32_bytes(x), 0);
}

/// Writes the 4-byte little-endian encoding of `x` into `v` at `p`,
/// overwriting in place.
pub fn store_le32(v: &mut Vec<u8>, p: usize, x: u32)
    requires
        p + 4 <= old(v).len(),
    ensures
        final(v)@ == store_le32_at(old(v)@, p as int, x as int),
        final(v)@.len() == old(v)@.len(),
        le32_at(final(v)@, p as int) == x,
        forall|i: int| 0 <= i < old(v)@.len() && !(p <= i < p + 4) ==> final(v)@[i] == old(v)@[i],
        final(v)@.subrange(p as int, p as int + 4) == le32_bytes(x as int),
{
    proof {
        lemma_store_le32_at_char(old(v)@, p as int, x as int);
    }
    let b0 = (x % 0x100) as u8;
    let b1 = ((x / 0x100) % 0x100) as u8;
    let b2 = ((x / 0x10000) % 0x100) as u8;
    let b3 = ((x / 0x1000000) % 0x100) as u8;
    v.set(p, b0);
    v.set(p + 1, b1);
    v.set(p + 2, b2);
    v.set(p + 3, b3);
    proof {
        lemma_le32_roundtrip(x as int);
        assert(v@.subrange(p as int, p as int + 4) =~= le32_bytes(x as int));
        lemma_le32_depends_only_on_window(v@, p as int, le32_bytes(x as int), 0);
    }
}

/// `n` zero bytes.
pub open spec fn zero_bytes(n: int) -> Seq<u8> {
    Seq::new(if n >= 0 { n as nat } else { 0 }, |i: int| 0u8)
}

/// Appends zero bytes to `out` until it is `target` long.
pub fn pad_to(out: &mut Vec<u8>, target: usize)
    requires
        old(out).len() <= target,
    ensures
        final(out)@ == old(out)@ + zero_bytes(target - old(out)@.len()),
        final(out)@.len() == target,
{
    while out.len() < target
        invariant
            old(out)@.len() <= out@.len() <= target,
            out@ == old(out)@ + zero_bytes(out@.len() - old(out)@.len()),
        decreases target - out.len(),
    {
        out.push(0);
        assert(out@ =~= old(out)@ + zero_bytes(out@.len() - old(out)@.len()));
    }
    assert(out@ =~= old(out)@ + zero_bytes(target - old(out)@.len()));
}

/// Appends every byte of `v` to `out`.
pub fn push_bytes(out: &mut Vec<u8>, v: &Vec<u8>)
    ensures
        final(out)@ == old(out)@ + v@,
{
    let n = v.len();
    let mut i: usize = 0;
    while i < n
        invariant
            n == v.len(),
            i <= n,
            out@ == old(out)@ + v@.take(i as int),
        decreases n - i,
    {
        out.push(v[i]);
        assert(out@ =~= old(out)@ + v@.take(i as int + 1));
        i = i + 1;
    }
    assert(out@ =~= old(out)@ + v@);
}

/// Whether two byte vectors hold the same bytes.
pub fn bytes_eq(a: &Vec<u8>, b: &Vec<u8>) -> (r: bool)
    ensures
        r == (a@ == b@),
{
    if a.len() != b.len() {
        return false;
    }
    let n = a.len();
    let mut i: usize = 0;
    while i < n
        invariant
            n == a.len(),
            n == b.len(),
            i <= n,
            forall|k: int| 0 <= k < i ==> a@[k] == b@[k],
        decreases n - i,
    {
        if a[i] != b[i] {
            return false;
        }
        i = i + 1;
    }
    proof {
        assert(a@ =~= b@);
    }
    true
}

/// A fresh vector with the same bytes.
pub fn copy_bytes(v: &Vec<u8>) -> (r: Vec<u8>)
    ensures
        r@ == v@,
{
    let n = v.len();
    let mut r: Vec<u8> = Vec::new();
    let mut i: usize = 0;
    while i < n
        invariant
            n == v.len(),
            i <= n,
            r@ == v@.take(i as int),
        decreases n - i,
    {
        r.push(v[i]);
        assert(r@ =~= v@.take(i as int + 1));
        i = i + 1;
    }
    assert(v@.take(n as int) =~= v@);
    r
}

/// A fresh vector with the bytes of `v` from `start` to `end`.
pub fn copy_range(v: &Vec<u8>, start: usize, end: usize) -> (r: Vec<u8>)
    requires
        start <= end,
        end <= v.len(),
    ensures
        r@ == v@.subrange(start as int, end as int),
{
    let mut r: Vec<u8> = Vec::new();
    let mut i: usize = start;
    while i < end
        invariant
            start <= i <= end,
            end <= v.len(),
            r@ == v@.subrange(start as int, i as int),
        decreases end - i,
    {
        r.push(v[i]);
        assert(r@ =~= v@.subrange(start as int, i as int + 1));
        i = i + 1;
    }
    r
}

/// The value every big- or little-endian 16-bit field takes is bounded.
pub proof fn lemma_field_bounds(b: Seq<u8>, p: int)
    requires
        0 <= p,
        p + 4 <= b.len(),
    ensures
        0 <= le16_at(b, p) < 0x10000,
        0 <= be16_at(b, p) < 0x10000,
        0 <= be24_at(b, p) < 0x1000000,
        0 <= le32_at(b, p) < 0x100000000,
{
}

} // verus!
