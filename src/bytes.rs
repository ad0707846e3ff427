//! Fixed-width little-endian integers inside byte buffers.
use borsh::BorshSerialize;
use vstd::prelude::*;

verus! {

/// The four little-endian bytes of `v`.
pub open spec fn u32_le(v: u32) -> Seq<u8> {
    seq![
        (v & 0xff) as u8,
        ((v >> 8u32) & 0xff) as u8,
        ((v >> 16u32) & 0xff) as u8,
        ((v >> 24u32) & 0xff) as u8,
    ]
}

/// The eight little-endian bytes of `v`.
pub open spec fn u64_le(v: u64) -> Seq<u8> {
    seq![
        (v & 0xff) as u8,
        ((v >> 8u64) & 0xff) as u8,
        ((v >> 16u64) & 0xff) as u8,
        ((v >> 24u64) & 0xff) as u8,
        ((v >> 32u64) & 0xff) as u8,
        ((v >> 40u64) & 0xff) as u8,
        ((v >> 48u64) & 0xff) as u8,
        ((v >> 56u64) & 0xff) as u8,
    ]
}

/// The `u32` whose little-endian bytes start `s`.
pub open spec fn le_u32(s: Seq<u8>) -> u32 {
    (s[0] as u32) | ((s[1] as u32) << 8u32) | ((s[2] as u32) << 16u32) | ((s[3] as u32) << 24u32)
}

/// The `u64` whose little-endian bytes start `s`.
pub open spec fn le_u64(s: Seq<u8>) -> u64 {
    (s[0] as u64) | ((s[1] as u64) << 8u64) | ((s[2] as u64) << 16u64) | ((s[3] as u64) << 24u64)
        | ((s[4] as u64) << 32u64) | ((s[5] as u64) << 40u64) | ((s[6] as u64) << 48u64) | ((
    s[7] as u64) << 56u64)
}

/// `b` with the bytes from `pos` on replaced by `s`.
pub open spec fn write_at(b: Seq<u8>, pos: int, s: Seq<u8>) -> Seq<u8> {
    b.subrange(0, pos) + s + b.subrange(pos + s.len(), b.len() as int)
}

pub proof fn lemma_u32_round_trip(v: u32)
    ensures
        le_u32(u32_le(v)) == v,
{
    let s = u32_le(v);
    let (b0, b1, b2, b3) = (s[0], s[1], s[2], s[3]);
    assert(b0 == (v & 0xff) as u8 && b1 == ((v >> 8u32) & 0xff) as u8 && b2 == ((v >> 16u32)
        & 0xff) as u8 && b3 == ((v >> 24u32) & 0xff) as u8);
    assert((b0 as u32) | ((b1 as u32) << 8u32) | ((b2 as u32) << 16u32) | ((b3 as u32) << 24u32)
        == v) by (bit_vector)
        requires
            b0 == (v & 0xff) as u8,
            b1 == ((v >> 8u32) & 0xff) as u8,
            b2 == ((v >> 16u32) & 0xff) as u8,
            b3 == ((v >> 24u32) & 0xff) as u8,
    ;
}

pub proof fn lemma_u64_round_trip(v: u64)
    ensures
        le_u64(u64_le(v)) == v,
{
    let s = u64_le(v);
    let (b0, b1, b2, b3, b4, b5, b6, b7) = (s[0], s[1], s[2], s[3], s[4], s[5], s[6], s[7]);
    assert((b0 as u64) | ((b1 as u64) << 8u64) | ((b2 as u64) << 16u64) | ((b3 as u64) << 24u64)
        | ((b4 as u64) << 32u64) | ((b5 as u64) << 40u64) | ((b6 as u64) << 48u64) | ((
    b7 as u64) << 56u64) == v) by (bit_vector)
        requires
            b0 == (v & 0xff) as u8,
            b1 == ((v >> 8u64) & 0xff) as u8,
            b2 == ((v >> 16u64) & 0xff) as u8,
            b3 == ((v >> 24u64) & 0xff) as u8,
            b4 == ((v >> 32u64) & 0xff) as u8,
            b5 == ((v >> 40u64) & 0xff) as u8,
            b6 == ((v >> 48u64) & 0xff) as u8,
            b7 == ((v >> 56u64) & 0xff) as u8,
    ;
}

pub proof fn lemma_u32_canonical(s: Seq<u8>)
    requires
        s.len() == 4,
    ensures
        u32_le(le_u32(s)) == s,
{
    let (b0, b1, b2, b3) = (s[0], s[1], s[2], s[3]);
    let v = le_u32(s);
    assert((v & 0xff) as u8 == b0 && ((v >> 8u32) & 0xff) as u8 == b1 && ((v >> 16u32) & 0xff) as u8
        == b2 && ((v >> 24u32) & 0xff) as u8 == b3) by (bit_vector)
        requires
            v == (b0 as u32) | ((b1 as u32) << 8u32) | ((b2 as u32) << 16u32) | ((b3 as u32)
                << 24u32),
    ;
    assert(u32_le(v) =~= s);
}

pub proof fn lemma_u64_canonical(s: Seq<u8>)
    requires
        s.len() == 8,
    ensures
        u64_le(le_u64(s)) == s,
{
    let (b0, b1, b2, b3, b4, b5, b6, b7) = (s[0], s[1], s[2], s[3], s[4], s[5], s[6], s[7]);
    let v = le_u64(s);
    assert((v & 0xff) as u8 == b0 && ((v >> 8u64) & 0xff) as u8 == b1 && ((v >> 16u64) & 0xff) as u8
        == b2 && ((v >> 24u64) & 0xff) as u8 == b3 && ((v >> 32u64) & 0xff) as u8 == b4 && ((v
        >> 40u64) & 0xff) as u8 == b5 && ((v >> 48u64) & 0xff) as u8 == b6 && ((v >> 56u64)
        & 0xff) as u8 == b7) by (bit_vector)
        requires
            v == (b0 as u64) | ((b1 as u64) << 8u64) | ((b2 as u64) << 16u64) | ((b3 as u64)
                << 24u64) | ((b4 as u64) << 32u64) | ((b5 as u64) << 40u64) | ((b6 as u64)
                << 48u64) | ((b7 as u64) << 56u64),
    ;
    assert(u64_le(v) =~= s);
}

/// Reads the little-endian `u32` at `pos`.
pub fn read_u32(b: &[u8], pos: usize) -> (r: u32)
    requires
        pos + 4 <= b@.len(),
    ensures
        r == le_u32(b@.subrange(pos as int, pos + 4)),
{
    let s = Ghost(b@.subrange(pos as int, pos + 4));
    assert(s@[0] == b@[pos as int] && s@[1] == b@[pos + 1] && s@[2] == b@[pos + 2] && s@[3]
        == b@[pos + 3]);
    (b[pos] as u32) | ((b[pos + 1] as u32) << 8u32) | ((b[pos + 2] as u32) << 16u32) | ((b[pos
        + 3] as u32) << 24u32)
}

/// Reads the little-endian `u64` at `pos`.
pub fn read_u64(b: &[u8], pos: usize) -> (r: u64)
    requires
        pos + 8 <= b@.len(),
    ensures
        r == le_u64(b@.subrange(pos as int, pos + 8)),
{
    let s = Ghost(b@.subrange(pos as int, pos + 8));
    assert(s@[0] == b@[pos as int] && s@[1] == b@[pos + 1] && s@[2] == b@[pos + 2] && s@[3]
        == b@[pos + 3] && s@[4] == b@[pos + 4] && s@[5] == b@[pos + 5] && s@[6] == b@[pos + 6]
        && s@[7] == b@[pos + 7]);
    (b[pos] as u64) | ((b[pos + 1] as u64) << 8u64) | ((b[pos + 2] as u64) << 16u64) | ((b[pos
        + 3] as u64) << 24u64) | ((b[pos + 4] as u64) << 32u64) | ((b[pos + 5] as u64) << 40u64)
        | ((b[pos + 6] as u64) << 48u64) | ((b[pos + 7] as u64) << 56u64)
}

/// Overwrites `buf` from `pos` on with the bytes of `s`; the length stays.
pub fn write_bytes(buf: &mut Vec<u8>, pos: usize, s: &[u8])
    requires
        pos + s@.len() <= old(buf)@.len(),
    ensures
        final(buf)@ == write_at(old(buf)@, pos as int, s@),
{
    let mut i: usize = 0;
    while i < s.len()
        invariant
            pos + s@.len() <= buf@.len(),
            i <= s@.len(),
            buf@.len() == old(buf)@.len(),
            forall|j: int| 0 <= j < pos ==> buf@[j] == old(buf)@[j],
            forall|j: int| pos <= j < pos + i ==> buf@[j] == s@[j - pos],
            forall|j: int| pos + i <= j < buf@.len() ==> buf@[j] == old(buf)@[j],
        decreases s@.len() - i,
    {
        let len = buf.len();
        assert(pos + i < len);
        buf.set(pos + i, s[i]);
        i = i + 1;
    }
    assert(buf@ =~= write_at(old(buf)@, pos as int, s@));
}

/// Relies on borsh's `BorshSerialize` for `u32`, which writes `to_le_bytes()`; writing
/// into a `Vec<u8>` appends and cannot fail.
#[verifier::external_body]
pub(crate) fn append_u32(out: &mut Vec<u8>, v: u32)
    ensures
        final(out)@ == old(out)@ + u32_le(v),
{
    let _ = BorshSerialize::serialize(&v, out);
}

/// Relies on borsh's `BorshSerialize` for `u64`, which writes `to_le_bytes()`; writing
/// into a `Vec<u8>` appends and cannot fail.
#[verifier::external_body]
pub(crate) fn append_u64(out: &mut Vec<u8>, v: u64)
    ensures
        final(out)@ == old(out)@ + u64_le(v),
{
    let _ = BorshSerialize::serialize(&v, out);
}

/// Overwrites four bytes of `buf` at `pos` with the little-endian bytes of `v`.
pub fn write_u32(buf: &mut Vec<u8>, pos: usize, v: u32)
    requires
        pos + 4 <= old(buf)@.len(),
    ensures
        final(buf)@ == write_at(old(buf)@, pos as int, u32_le(v)),
{
    let mut tmp: Vec<u8> = Vec::new();
    append_u32(&mut tmp, v);
    assert(tmp@ =~= u32_le(v));
    write_bytes(buf, pos, tmp.as_slice());
}

/// Overwrites eight bytes of `buf` at `pos` with the little-endian bytes of `v`.
pub fn write_u64(buf: &mut Vec<u8>, pos: usize, v: u64)
    requires
        pos + 8 <= old(buf)@.len(),
    ensures
        final(buf)@ == write_at(old(buf)@, pos as int, u64_le(v)),
{
    let mut tmp: Vec<u8> = Vec::new();
    append_u64(&mut tmp, v);
    assert(tmp@ =~= u64_le(v));
    write_bytes(buf, pos, tmp.as_slice());
}


/// The byte sequences of `ss`, one after the other.
pub open spec fn concat_all(ss: Seq<Seq<u8>>) -> Seq<u8>
    decreases ss.len(),
{
    if ss.len() == 0 {
        seq![]
    } else {
        ss[0] + concat_all(ss.subrange(1, ss.len() as int))
    }
}

/// `p` cut into consecutive 32-byte pieces (a shorter tail is dropped).
pub open spec fn chunks32(p: Seq<u8>) -> Seq<Seq<u8>> {
    Seq::new(p.len() / 32, |i: int| p.subrange(32 * i, 32 * i + 32))
}

pub proof fn lemma_concat_all_len32(ss: Seq<Seq<u8>>)
    requires
        forall|i: int| 0 <= i < ss.len() ==> (#[trigger] ss[i]).len() == 32,
    ensures
        concat_all(ss).len() == 32 * ss.len(),
        forall|i: int|
            0 <= i < ss.len() ==> #[trigger] concat_all(ss).subrange(32 * i, 32 * i + 32) == ss[i],
    decreases ss.len(),
{
    if ss.len() > 0 {
        let tail = ss.subrange(1, ss.len() as int);
        lemma_concat_all_len32(tail);
        let c = concat_all(ss);
        assert forall|i: int| 0 <= i < ss.len() implies #[trigger] c.subrange(32 * i, 32 * i + 32)
            == ss[i] by {
            if i == 0 {
                assert(c.subrange(0, 32) =~= ss[0]);
            } else {
                assert(tail[i - 1] == ss[i]);
                assert(c.subrange(32 * i, 32 * i + 32) =~= concat_all(tail).subrange(
                    32 * (i - 1),
                    32 * (i - 1) + 32,
                ));
            }
        }
    }
}

pub proof fn lemma_chunks_of_concat(ss: Seq<Seq<u8>>)
    requires
        forall|i: int| 0 <= i < ss.len() ==> (#[trigger] ss[i]).len() == 32,
    ensures
        chunks32(concat_all(ss)) == ss,
{
    lemma_concat_all_len32(ss);
    let c = concat_all(ss);
    assert((32 * ss.len()) / 32 == ss.len()) by (nonlinear_arith);
    assert(chunks32(c) =~= ss);
}

pub proof fn lemma_concat_of_chunks(p: Seq<u8>)
    requires
        p.len() % 32 == 0,
    ensures
        concat_all(chunks32(p)) == p,
    decreases p.len(),
{
    if p.len() > 0 {
        let rest = p.subrange(32, p.len() as int);
        lemma_concat_of_chunks(rest);
        assert(p.len() / 32 == rest.len() / 32 + 1);
        let cs = chunks32(p);
        assert forall|k: int| 0 <= k < rest.len() / 32 implies #[trigger] cs[k + 1]
            == chunks32(rest)[k] by {
            assert(cs[k + 1] =~= chunks32(rest)[k]);
        }
        assert(cs.subrange(1, cs.len() as int) =~= chunks32(rest));
        assert(cs[0] =~= p.subrange(0, 32));
        assert(concat_all(cs) =~= p);
    } else {
        assert(chunks32(p) =~= Seq::<Seq<u8>>::empty());
    }
}


pub proof fn lemma_concat_all_push(ss: Seq<Seq<u8>>, x: Seq<u8>)
    ensures
        concat_all(ss.push(x)) == concat_all(ss) + x,
    decreases ss.len(),
{
    if ss.len() == 0 {
        assert(ss.push(x).subrange(1, 1) =~= Seq::<Seq<u8>>::empty());
        assert(concat_all(ss.push(x).subrange(1, 1)) =~= Seq::<u8>::empty());
        assert(concat_all(ss.push(x)) =~= x);
        assert(concat_all(ss) =~= Seq::<u8>::empty());
    } else {
        let tail = ss.subrange(1, ss.len() as int);
        lemma_concat_all_push(tail, x);
        assert(ss.push(x).subrange(1, ss.len() as int + 1) =~= tail.push(x));
        assert(concat_all(ss.push(x)) =~= concat_all(ss) + x);
    }
}

/// The contents of each slice of `rs`.
pub open spec fn slice_views(rs: Seq<&[u8]>) -> Seq<Seq<u8>> {
    Seq::new(rs.len(), |i: int| rs[i]@)
}


/// The bytes of a prefix of `ss` are no more than the bytes of all of `ss`.
pub proof fn lemma_concat_all_prefix_len(ss: Seq<Seq<u8>>, i: int)
    requires
        0 <= i <= ss.len(),
    ensures
        concat_all(ss.subrange(0, i)).len() <= concat_all(ss).len(),
    decreases ss.len() - i,
{
    if i < ss.len() {
        lemma_concat_all_prefix_len(ss, i + 1);
        lemma_concat_all_push(ss.subrange(0, i), ss[i]);
        assert(ss.subrange(0, i + 1) =~= ss.subrange(0, i).push(ss[i]));
    } else {
        assert(ss.subrange(0, i) =~= ss);
    }
}


/// A window of `write_at(b, pos, s)` that lies inside the written bytes.
pub proof fn lemma_write_at_inside(b: Seq<u8>, pos: int, s: Seq<u8>, a: int, c: int)
    requires
        0 <= pos,
        pos + s.len() <= b.len(),
        pos <= a <= c <= pos + s.len(),
    ensures
        write_at(b, pos, s).len() == b.len(),
        write_at(b, pos, s).subrange(a, c) == s.subrange(a - pos, c - pos),
{
    assert(write_at(b, pos, s).subrange(a, c) =~= s.subrange(a - pos, c - pos));
}

/// A window of `write_at(b, pos, s)` that lies outside the written bytes.
pub proof fn lemma_write_at_outside(b: Seq<u8>, pos: int, s: Seq<u8>, a: int, c: int)
    requires
        0 <= pos,
        pos + s.len() <= b.len(),
        0 <= a <= c <= b.len(),
        c <= pos || pos + s.len() <= a,
    ensures
        write_at(b, pos, s).len() == b.len(),
        write_at(b, pos, s).subrange(a, c) == b.subrange(a, c),
{
    assert(write_at(b, pos, s).subrange(a, c) =~= b.subrange(a, c));
}

pub proof fn lemma_concat_all_len8(ss: Seq<Seq<u8>>)
    requires
        forall|i: int| 0 <= i < ss.len() ==> (#[trigger] ss[i]).len() == 8,
    ensures
        concat_all(ss).len() == 8 * ss.len(),
        forall|i: int|
            0 <= i < ss.len() ==> #[trigger] concat_all(ss).subrange(8 * i, 8 * i + 8) == ss[i],
    decreases ss.len(),
{
    if ss.len() > 0 {
        let tail = ss.subrange(1, ss.len() as int);
        lemma_concat_all_len8(tail);
        let c = concat_all(ss);
        assert forall|i: int| 0 <= i < ss.len() implies #[trigger] c.subrange(8 * i, 8 * i + 8)
            == ss[i] by {
            if i == 0 {
                assert(c.subrange(0, 8) =~= ss[0]);
            } else {
                assert(tail[i - 1] == ss[i]);
                assert(c.subrange(8 * i, 8 * i + 8) =~= concat_all(tail).subrange(
                    8 * (i - 1),
                    8 * (i - 1) + 8,
                ));
            }
        }
    }
}


/// Whether `a` and `b` hold the same bytes.
pub fn bytes_eq(a: &[u8], b: &[u8]) -> (r: bool)
    ensures
        r == (a@ == b@),
{
    if a.len() != b.len() {
        return false;
    }
    let mut i: usize = 0;
    while i < a.len()
        invariant
            a@.len() == b@.len(),
            i <= a@.len(),
            forall|j: int| 0 <= j < i ==> a@[j] == b@[j],
        decreases a@.len() - i,
    {
        if a[i] != b[i] {
            return false;
        }
        i = i + 1;
    }
    assert(a@ =~= b@);
    true
}

/// The number of bytes of `t` from `i` on before the first `sep` (or the end).
pub open spec fn span_len(t: Seq<u8>, i: int, sep: u8) -> nat
    decreases t.len() - i,
{
    if i < 0 || i >= t.len() || t[i] == sep {
        0
    } else {
        1 + span_len(t, i + 1, sep)
    }
}

/// Finds where the span of `t` from `i` ends: at the first `sep`, or at the end.
pub fn span_end(t: &[u8], i: usize, sep: u8) -> (r: usize)
    requires
        i <= t@.len(),
    ensures
        r == i + span_len(t@, i as int, sep),
        r <= t@.len(),
        r < t@.len() ==> t@[r as int] == sep,
{
    let mut j = i;
    while j < t.len() && t[j] != sep
        invariant
            i <= j <= t@.len(),
            i + span_len(t@, i as int, sep) == j + span_len(t@, j as int, sep),
        decreases t@.len() - j,
    {
        j = j + 1;
    }
    j
}

} // verus!
