//! The storage record: a fixed header, the encodings of every published revision of a
//! rule set, and an append-only revision index locating each of them.
//!
//! ```text
//! | Header  | Revision 0 | ... | Revision n-1 | Revision index                         |
//! | 8 bytes | variable   | ... | variable     | version, count, (offset, length) * n+1 |
//! ```
use crate::bytes::{
    concat_all, lemma_concat_all_push, le_u32, le_u64, read_u32, read_u64, u32_le, u64_le,
    write_at, write_bytes, write_u32, write_u64,
};
use crate::error::RuleSetError;
use crate::rule_set::RULE_SET_REV_MAP_VERSION;
use vstd::prelude::*;

verus! {

/// Size of the record header in bytes.
pub const ACCOUNT_HEADER_LENGTH: usize = 8;

/// Minimum size of the revision index after its version byte: the count and one entry.
pub const MINIMUM_REVISION_MAP_LENGTH: usize = 16;

/// The discriminant that marks a record as holding a rule set.
pub const RULE_SET_KEY: u32 = 1;

/// The record header: the record's discriminant and where the revision index begins.
#[derive(Clone, Copy, Debug)]
pub struct AccountHeader {
    pub data: [u32; 2],
}

impl AccountHeader {
    pub fn key(&self) -> (r: usize)
        ensures
            r == self.data@[0],
    {
        self.data[0] as usize
    }

    pub fn map_location(&self) -> (r: usize)
        ensures
            r == self.data@[1],
    {
        self.data[1] as usize
    }

    pub fn set_key(&mut self, key: u32)
        ensures
            final(self).data@ == old(self).data@.update(0, key),
    {
        self.data[0] = key;
    }

    pub fn set_map_location(&mut self, map_location: u32)
        ensures
            final(self).data@ == old(self).data@.update(1, map_location),
    {
        self.data[1] = map_location;
    }

    /// Reads the header at the start of `bytes`; fails with `TruncatedBuffer` when there
    /// are fewer than 8 bytes and with `KeyMismatch` when the record is not a rule set.
    pub fn from_bytes(bytes: &[u8]) -> (r: Result<AccountHeader, RuleSetError>)
        ensures
            bytes@.len() < 8 ==> r == Err::<AccountHeader, RuleSetError>(
                RuleSetError::TruncatedBuffer,
            ),
            bytes@.len() >= 8 && le_u32(bytes@.subrange(0, 4)) != RULE_SET_KEY ==> r == Err::<
                AccountHeader,
                RuleSetError,
            >(RuleSetError::KeyMismatch),
            bytes@.len() >= 8 && le_u32(bytes@.subrange(0, 4)) == RULE_SET_KEY ==> r is Ok
                && r->Ok_0.data@ == seq![RULE_SET_KEY, le_u32(bytes@.subrange(4, 8))],
    {
        if bytes.len() < ACCOUNT_HEADER_LENGTH {
            return Err(RuleSetError::TruncatedBuffer);
        }
        let key = read_u32(bytes, 0);
        if key != RULE_SET_KEY {
            return Err(RuleSetError::KeyMismatch);
        }
        let h = AccountHeader { data: [key, read_u32(bytes, 4)] };
        assert(h.data@ =~= seq![RULE_SET_KEY, le_u32(bytes@.subrange(4, 8))]);
        Ok(h)
    }
}

/// One revision's place in the record: its byte offset and its byte length.
#[derive(Clone, Copy, Debug)]
pub struct Revision {
    pub data: [u32; 2],
}

impl Revision {
    pub fn offset(&self) -> (r: usize)
        ensures
            r == self.data@[0],
    {
        self.data[0] as usize
    }

    pub fn legnth(&self) -> (r: usize)
        ensures
            r == self.data@[1],
    {
        self.data[1] as usize
    }

    pub fn set_offset(&mut self, offset: u32)
        ensures
            final(self).data@ == old(self).data@.update(0, offset),
    {
        self.data[0] = offset;
    }

    pub fn set_length(&mut self, length: u32)
        ensures
            final(self).data@ == old(self).data@.update(1, length),
    {
        self.data[1] = length;
    }

    /// The entry as an (offset, length) pair.
    pub open spec fn pair(&self) -> (u32, u32) {
        (self.data@[0], self.data@[1])
    }
}

/// The (offset, length) entry whose bytes start at `pos`.
pub open spec fn entry_at(b: Seq<u8>, pos: int) -> (u32, u32) {
    (le_u32(b.subrange(pos, pos + 4)), le_u32(b.subrange(pos + 4, pos + 8)))
}

/// The bytes of an (offset, length) entry.
pub open spec fn entry_bytes(e: (u32, u32)) -> Seq<u8> {
    u32_le(e.0) + u32_le(e.1)
}

/// The bytes of the entries `es`, one after the other.
pub open spec fn entries_bytes(es: Seq<(u32, u32)>) -> Seq<u8> {
    concat_all(Seq::new(es.len(), |j: int| entry_bytes(es[j])))
}

/// Decodes a revision map (count, then count + 1 entries, the last one being room for
/// the next revision) at the start of `s`.
pub open spec fn parse_revision_map(s: Seq<u8>) -> Result<(u64, Seq<(u32, u32)>), RuleSetError> {
    if s.len() < 8 {
        Err(RuleSetError::TruncatedBuffer)
    } else {
        let n = le_u64(s.subrange(0, 8));
        if (s.len() - 8) / 8 < n + 1 {
            Err(RuleSetError::TruncatedBuffer)
        } else {
            Ok((n, Seq::new((n + 1) as nat, |j: int| entry_at(s, 8 + 8 * j))))
        }
    }
}

/// The decoded revision map: how many revisions exist and where each one lies, plus
/// the slot reserved for the next one.
#[derive(Debug)]
pub struct AccountRevisionMap {
    pub size: u64,
    pub revisions: Vec<Revision>,
}

impl AccountRevisionMap {
    /// The entries as (offset, length) pairs.
    pub open spec fn pairs(&self) -> Seq<(u32, u32)> {
        Seq::new(self.revisions@.len(), |j: int| self.revisions@[j].pair())
    }

    /// Decodes the revision map at the start of `bytes`.
    pub fn from_bytes_mut(bytes: &[u8]) -> (r: Result<AccountRevisionMap, RuleSetError>)
        ensures
            match parse_revision_map(bytes@) {
                Ok((n, es)) => r is Ok && r->Ok_0.size == n && r->Ok_0.pairs() == es,
                Err(e) => r == Err::<AccountRevisionMap, RuleSetError>(e),
            },
    {
        read_revision_map(bytes, 0)
    }
}

/// Decodes the revision map starting at `start`.
fn read_revision_map(bytes: &[u8], start: usize) -> (r: Result<AccountRevisionMap, RuleSetError>)
    requires
        start <= bytes@.len(),
    ensures
        match parse_revision_map(bytes@.subrange(start as int, bytes@.len() as int)) {
            Ok((n, es)) => r is Ok && r->Ok_0.size == n && r->Ok_0.pairs() == es,
            Err(e) => r == Err::<AccountRevisionMap, RuleSetError>(e),
        },
{
    let ghost s = bytes@.subrange(start as int, bytes@.len() as int);
    if bytes.len() - start < 8 {
        return Err(RuleSetError::TruncatedBuffer);
    }
    let size = read_u64(bytes, start);
    assert(s.subrange(0, 8) =~= bytes@.subrange(start as int, start + 8));
    let room = ((bytes.len() - start - 8) / 8) as u64;
    if room < 1 || room - 1 < size {
        return Err(RuleSetError::TruncatedBuffer);
    }
    let mut revisions: Vec<Revision> = Vec::new();
    let mut j: u64 = 0;
    assert(8 * room <= s.len() - 8);
    let blen = bytes.len();
    while j <= size
        invariant
            blen == bytes@.len(),
            start <= bytes@.len(),
            8 * room <= s.len() - 8,
            s == bytes@.subrange(start as int, bytes@.len() as int),
            size < room,
            room == (s.len() - 8) / 8,
            j <= size + 1,
            revisions@.len() == j,
            forall|i: int|
                0 <= i < j ==> (#[trigger] revisions@[i]).pair() == entry_at(s, 8 + 8 * i),
        decreases size + 1 - j,
    {
        let p = start + 8 + 8 * (j as usize);
        let offset = read_u32(bytes, p);
        let length = read_u32(bytes, p + 4);
        assert(s.subrange(8 + 8 * j, 8 + 8 * j + 4) =~= bytes@.subrange(p as int, p + 4));
        assert(s.subrange(8 + 8 * j + 4, 8 + 8 * j + 8) =~= bytes@.subrange(p + 4, p + 8));
        let rev = Revision { data: [offset, length] };
        assert(rev.data@[0] == offset && rev.data@[1] == length);
        revisions.push(rev);
        j = j + 1;
    }
    let map = AccountRevisionMap { size, revisions };
    assert(map.pairs() =~= Seq::new((size + 1) as nat, |i: int| entry_at(s, 8 + 8 * i)));
    Ok(map)
}

/// Locates the revision index of the record `b`: its offset and the number of
/// published revisions.
pub open spec fn parse_index(b: Seq<u8>) -> Result<(int, u64), RuleSetError> {
    if b.len() < 8 {
        Err(RuleSetError::TruncatedBuffer)
    } else if le_u32(b.subrange(0, 4)) != RULE_SET_KEY {
        Err(RuleSetError::KeyMismatch)
    } else {
        let ml = le_u32(b.subrange(4, 8)) as int;
        if ml + 1 > b.len() {
            Err(RuleSetError::TruncatedBuffer)
        } else if b[ml] != RULE_SET_REV_MAP_VERSION {
            Err(RuleSetError::IncompatibleRevisionMap)
        } else {
            match parse_revision_map(b.subrange(ml + 1, b.len() as int)) {
                Ok((n, _)) => Ok((ml, n)),
                Err(e) => Err(e),
            }
        }
    }
}

/// The entry of revision `j` in a record whose index begins at `ml`.
pub open spec fn revision_entry(b: Seq<u8>, ml: int, j: int) -> (u32, u32) {
    entry_at(b, ml + 9 + 8 * j)
}

/// The byte range that a request resolves to: `None` is the latest revision.
pub open spec fn resolve(b: Seq<u8>, revision: Option<u64>) -> Result<(int, int), RuleSetError> {
    match parse_index(b) {
        Err(e) => Err(e),
        Ok((ml, n)) => {
            let j = match revision {
                None => n as int - 1,
                Some(x) => x as int,
            };
            if j < 0 || j >= n {
                Err(RuleSetError::RevisionNotFound)
            } else {
                let e = revision_entry(b, ml, j);
                if e.0 + e.1 > b.len() {
                    Err(RuleSetError::TruncatedBuffer)
                } else {
                    Ok((e.0 as int, e.0 + e.1))
                }
            }
        }
    }
}

/// Reads the record header and the revision index of `buf`.
fn read_index(buf: &[u8]) -> (r: Result<(usize, AccountRevisionMap), RuleSetError>)
    ensures
        match parse_index(buf@) {
            Ok((ml, n)) => r is Ok && r->Ok_0.0 == ml && r->Ok_0.1.size == n
                && r->Ok_0.1.revisions@.len() == n + 1 && forall|j: int|
                0 <= j <= n ==> #[trigger] r->Ok_0.1.revisions@[j].pair() == revision_entry(
                buf@,
                ml,
                j,
            ),
            Err(e) => r == Err::<(usize, AccountRevisionMap), RuleSetError>(e),
        },
{
    let header = AccountHeader::from_bytes(buf)?;
    let ml = header.map_location();
    if ml >= buf.len() {
        return Err(RuleSetError::TruncatedBuffer);
    }
    if buf[ml] != RULE_SET_REV_MAP_VERSION {
        return Err(RuleSetError::IncompatibleRevisionMap);
    }
    let ghost s = buf@.subrange(ml + 1, buf@.len() as int);
    let map = match read_revision_map(buf, ml + 1) {
        Ok(m) => m,
        Err(e) => {
            return Err(e);
        },
    };
    proof {
        let es = map.pairs();
        assert(es.len() == map.revisions@.len());
        assert forall|j: int| 0 <= j <= map.size implies #[trigger] map.revisions@[j].pair()
            == revision_entry(buf@, ml as int, j) by {
            assert(es[j] == map.revisions@[j].pair());
            assert(es[j] == entry_at(s, 8 + 8 * j));
            assert(s.subrange(8 + 8 * j, 8 + 8 * j + 4) =~= buf@.subrange(
                ml + 9 + 8 * j,
                ml + 9 + 8 * j + 4,
            ));
            assert(s.subrange(8 + 8 * j + 4, 8 + 8 * j + 8) =~= buf@.subrange(
                ml + 9 + 8 * j + 4,
                ml + 9 + 8 * j + 8,
            ));
        }
    }
    Ok((ml, map))
}

/// The byte range of the requested revision of the record `buf`; `None` asks for the
/// latest one.
pub fn resolve_revision(buf: &[u8], revision: Option<u64>) -> (r: Result<(usize, usize), RuleSetError>)
    ensures
        r matches Ok((a, c)) ==> a <= c <= buf@.len(),
        match resolve(buf@, revision) {
            Ok((a, c)) => r matches Ok((x, y)) && x == a && y == c,
            Err(e) => r == Err::<(usize, usize), RuleSetError>(e),
        },
{
    let (ml, map) = match read_index(buf) {
        Ok(x) => x,
        Err(e) => {
            return Err(e);
        },
    };
    let j = match revision {
        None => {
            if map.size == 0 {
                return Err(RuleSetError::RevisionNotFound);
            }
            map.size - 1
        },
        Some(x) => {
            if x >= map.size {
                return Err(RuleSetError::RevisionNotFound);
            }
            x
        },
    };
    let count = map.revisions.len();
    assert(j < count);
    let e = map.revisions[j as usize];
    assert(e.pair() == revision_entry(buf@, ml as int, j as int));
    let offset = e.offset();
    let length = e.legnth();
    if offset > buf.len() || length > buf.len() - offset {
        return Err(RuleSetError::TruncatedBuffer);
    }
    Ok((offset, offset + length))
}

/// The entries of the `n` revisions published in a record whose index begins at `ml`.
pub open spec fn old_entries(b: Seq<u8>, ml: int, n: u64) -> Seq<(u32, u32)> {
    Seq::new(n as nat, |j: int| revision_entry(b, ml, j))
}

/// The revision index that publishing a revision of `len` bytes at `ml` writes.
pub open spec fn new_index_bytes(n: u64, olds: Seq<(u32, u32)>, ml: int, len: int) -> Seq<u8> {
    seq![RULE_SET_REV_MAP_VERSION] + u64_le((n + 1) as u64) + entries_bytes(
        olds.push((ml as u32, len as u32)),
    )
}

/// What publishing `x` into the record `b` returns: the new revision's number, or the
/// error of reading the index, `NumericalOverflow` when the new index offset does not
/// fit 32 bits, `BufferTooSmall` when the record cannot hold the revision and the grown
/// index (with room for one more entry).
pub open spec fn publish_result(b: Seq<u8>, x: Seq<u8>) -> Result<u64, RuleSetError> {
    match parse_index(b) {
        Err(e) => Err(e),
        Ok((ml, n)) => {
            let nml = ml + x.len();
            if nml > u32::MAX {
                Err(RuleSetError::NumericalOverflow)
            } else if nml + 9 + 8 * (n + 2) > b.len() {
                Err(RuleSetError::BufferTooSmall)
            } else {
                Ok(n)
            }
        },
    }
}

/// The record after publishing `x`: `x` where the index was, the grown index after it,
/// and the header pointing at the new index.
pub open spec fn publish_image(b: Seq<u8>, x: Seq<u8>) -> Seq<u8> {
    let ml = parse_index(b)->Ok_0.0;
    let n = parse_index(b)->Ok_0.1;
    let nml = ml + x.len();
    let b1 = write_at(b, ml, x);
    let b2 = write_at(b1, nml, new_index_bytes(n, old_entries(b, ml, n), ml, x.len() as int));
    write_at(b2, 4, u32_le(nml as u32))
}

/// A record with the rule-set header and an empty revision index right after it.
pub open spec fn initial_image(b: Seq<u8>) -> Seq<u8> {
    write_at(
        write_at(
            write_at(write_at(b, 0, u32_le(RULE_SET_KEY)), 4, u32_le(8)),
            8,
            seq![RULE_SET_REV_MAP_VERSION],
        ),
        9,
        u64_le(0),
    )
}

pub proof fn lemma_entries_bytes_push(es: Seq<(u32, u32)>, e: (u32, u32))
    ensures
        entries_bytes(es.push(e)) == entries_bytes(es) + entry_bytes(e),
{
    let f = Seq::new(es.len(), |j: int| entry_bytes(es[j]));
    lemma_concat_all_push(f, entry_bytes(e));
    assert(Seq::new(es.push(e).len(), |j: int| entry_bytes(es.push(e)[j])) =~= f.push(
        entry_bytes(e),
    ));
}

/// Writes the rule-set header and an empty revision index into `buf`; fails with
/// `BufferTooSmall` when `buf` cannot hold them.
pub fn initialize(buf: &mut Vec<u8>) -> (r: Result<(), RuleSetError>)
    ensures
        old(buf)@.len() < 25 ==> r == Err::<(), RuleSetError>(RuleSetError::BufferTooSmall)
            && final(buf)@ == old(buf)@,
        old(buf)@.len() >= 25 ==> r is Ok && final(buf)@ == initial_image(old(buf)@),
{
    if buf.len() < ACCOUNT_HEADER_LENGTH + 1 + MINIMUM_REVISION_MAP_LENGTH {
        return Err(RuleSetError::BufferTooSmall);
    }
    write_u32(buf, 0, RULE_SET_KEY);
    write_u32(buf, 4, ACCOUNT_HEADER_LENGTH as u32);
    let version: [u8; 1] = [RULE_SET_REV_MAP_VERSION];
    assert(version@ =~= seq![RULE_SET_REV_MAP_VERSION]);
    write_bytes(buf, 8, version.as_slice());
    write_u64(buf, 9, 0);
    Ok(())
}

/// Appends a revision holding `rule_set` to the record `buf` and returns its number.
/// Earlier revisions stay where they are; the record's length never changes.
pub fn publish(buf: &mut Vec<u8>, rule_set: &[u8]) -> (r: Result<u64, RuleSetError>)
    ensures
        match publish_result(old(buf)@, rule_set@) {
            Ok(n) => r == Ok::<u64, RuleSetError>(n) && final(buf)@ == publish_image(
                old(buf)@,
                rule_set@,
            ),
            Err(e) => r == Err::<u64, RuleSetError>(e) && final(buf)@ == old(buf)@,
        },
{
    let (ml, map) = match read_index(buf.as_slice()) {
        Ok(x) => x,
        Err(e) => {
            return Err(e);
        },
    };
    let n = map.size;
    let ghost b = buf@;
    assert(ml <= u32::MAX);
    if rule_set.len() > u32::MAX as usize - ml {
        return Err(RuleSetError::NumericalOverflow);
    }
    let nml = ml + rule_set.len();
    let blen = buf.len();
    let count = map.revisions.len();
    if blen < nml || blen - nml < 9 || ((blen - nml - 9) / 8) < count + 1 {
        return Err(RuleSetError::BufferTooSmall);
    }
    let ghost olds = old_entries(b, ml as int, n);
    let mut idx: Vec<u8> = Vec::new();
    idx.push(RULE_SET_REV_MAP_VERSION);
    crate::bytes::append_u64(&mut idx, n + 1);
    let ghost head = idx@;
    let mut j: usize = 0;
    assert(olds.subrange(0, 0) =~= Seq::<(u32, u32)>::empty());
    assert(entries_bytes(Seq::<(u32, u32)>::empty()) =~= Seq::<u8>::empty());
    assert(head + Seq::<u8>::empty() =~= head);
    while j < count - 1
        invariant
            count == map.revisions@.len(),
            count == n + 1,
            olds == old_entries(b, ml as int, n),
            forall|i: int|
                0 <= i <= n ==> #[trigger] map.revisions@[i].pair() == revision_entry(
                    b,
                    ml as int,
                    i,
                ),
            j <= n,
            idx@ == head + entries_bytes(olds.subrange(0, j as int)),
        decreases n - j,
    {
        let e = map.revisions[j];
        proof {
            lemma_entries_bytes_push(olds.subrange(0, j as int), e.pair());
            assert(olds.subrange(0, j + 1) =~= olds.subrange(0, j as int).push(e.pair()));
        }
        crate::bytes::append_u32(&mut idx, e.data[0]);
        crate::bytes::append_u32(&mut idx, e.data[1]);
        assert(idx@ =~= head + entries_bytes(olds.subrange(0, j + 1)));
        j = j + 1;
    }
    assert(olds.subrange(0, j as int) =~= olds);
    proof {
        lemma_entries_bytes_push(olds, (ml as u32, rule_set@.len() as u32));
    }
    crate::bytes::append_u32(&mut idx, ml as u32);
    crate::bytes::append_u32(&mut idx, rule_set.len() as u32);
    assert(idx@ =~= new_index_bytes(n, olds, ml as int, rule_set@.len() as int));
    proof {
        crate::bytes::lemma_concat_all_len8(
            Seq::new(olds.len() + 1, |i: int| entry_bytes(olds.push((ml as u32, rule_set@.len() as u32))[i])),
        );
    }
    assert(idx@.len() == 9 + 8 * (n + 1));
    write_bytes(buf, ml, rule_set);
    write_bytes(buf, nml, idx.as_slice());
    write_u32(buf, 4, nml as u32);
    Ok(n)
}

} // verus!
