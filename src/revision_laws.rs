//! Publishing appends: earlier revisions keep their place and their bytes.
use crate::account::{
    entries_bytes, entry_bytes, initial_image, new_index_bytes, old_entries, parse_index,
    parse_revision_map, publish_image, publish_result, resolve, revision_entry, RULE_SET_KEY,
};
use crate::bytes::{
    le_u32, lemma_concat_all_len8, lemma_u32_round_trip, lemma_u64_round_trip,
    lemma_write_at_inside, lemma_write_at_outside, u32_le, u64_le, write_at,
};
use crate::error::RuleSetError;
use crate::rule_set::{parse_rule_set, RULE_SET_REV_MAP_VERSION};
use vstd::prelude::*;

verus! {

/// A record (a buffer in memory) whose header and index read back, whose index lies
/// after the header, and whose revisions all lie between the header and the index.
pub open spec fn account_valid(b: Seq<u8>) -> bool {
    &&& b.len() <= usize::MAX
    &&& parse_index(b) is Ok
    &&& parse_index(b)->Ok_0.0 >= 8
    &&& forall|j: int|
        0 <= j < parse_index(b)->Ok_0.1 ==> 8 <= (#[trigger] revision_entry(
            b,
            parse_index(b)->Ok_0.0,
            j,
        )).0 && revision_entry(b, parse_index(b)->Ok_0.0, j).0 + revision_entry(
            b,
            parse_index(b)->Ok_0.0,
            j,
        ).1 <= parse_index(b)->Ok_0.0
}

/// A freshly initialised record is valid and holds no revision.
pub proof fn lemma_initial_image(b: Seq<u8>)
    requires
        25 <= b.len() <= usize::MAX,
    ensures
        parse_index(initial_image(b)) == Ok::<(int, u64), RuleSetError>((8, 0)),
        account_valid(initial_image(b)),
{
    let w1 = write_at(b, 0, u32_le(RULE_SET_KEY));
    let w2 = write_at(w1, 4, u32_le(8));
    let w3 = write_at(w2, 8, seq![RULE_SET_REV_MAP_VERSION]);
    let w4 = write_at(w3, 9, u64_le(0));
    assert(w4 == initial_image(b));
    lemma_write_at_inside(b, 0, u32_le(RULE_SET_KEY), 0, 4);
    lemma_write_at_outside(w1, 4, u32_le(8), 0, 4);
    lemma_write_at_inside(w1, 4, u32_le(8), 4, 8);
    lemma_write_at_outside(w2, 8, seq![RULE_SET_REV_MAP_VERSION], 0, 8);
    lemma_write_at_inside(w2, 8, seq![RULE_SET_REV_MAP_VERSION], 8, 9);
    lemma_write_at_outside(w3, 9, u64_le(0), 0, 9);
    lemma_write_at_inside(w3, 9, u64_le(0), 9, 17);
    assert(w4.subrange(0, 4) =~= w3.subrange(0, 9).subrange(0, 4));
    assert(w3.subrange(0, 9).subrange(0, 4) =~= w2.subrange(0, 8).subrange(0, 4));
    assert(w4.subrange(4, 8) =~= w3.subrange(0, 9).subrange(4, 8));
    assert(w3.subrange(0, 9).subrange(4, 8) =~= w2.subrange(0, 8).subrange(4, 8));
    assert(w4[8] == w4.subrange(0, 9)[8]);
    assert(w4.subrange(0, 9) == w3.subrange(0, 9));
    assert(w3.subrange(8, 9)[0] == w3[8]);
    lemma_u32_round_trip(RULE_SET_KEY);
    lemma_u32_round_trip(8);
    lemma_u64_round_trip(0);
    let s = w4.subrange(9, w4.len() as int);
    assert(s.subrange(0, 8) =~= w4.subrange(9, 17));
}

/// The bytes of a published record, region by region.
proof fn lemma_publish_windows(b: Seq<u8>, x: Seq<u8>)
    requires
        account_valid(b),
        publish_result(b, x) is Ok,
    ensures
        ({
            let ml = parse_index(b)->Ok_0.0;
            let n = parse_index(b)->Ok_0.1;
            let nml = ml + x.len();
            let idx = new_index_bytes(n, old_entries(b, ml, n), ml, x.len() as int);
            let b2 = publish_image(b, x);
            &&& idx.len() == 9 + 8 * (n + 1)
            &&& b2.len() == b.len()
            &&& b2.subrange(0, 4) == b.subrange(0, 4)
            &&& b2.subrange(4, 8) == u32_le(nml as u32)
            &&& b2.subrange(ml, nml) == x
            &&& forall|a: int, c: int|
                8 <= a <= c <= ml ==> #[trigger] b2.subrange(a, c) == b.subrange(a, c)
            &&& forall|a: int, c: int|
                nml <= a <= c <= nml + idx.len() ==> #[trigger] b2.subrange(a, c) == idx.subrange(
                    a - nml,
                    c - nml,
                )
        }),
{
    let ml = parse_index(b)->Ok_0.0;
    let n = parse_index(b)->Ok_0.1;
    let nml = ml + x.len();
    let olds = old_entries(b, ml, n);
    let es = olds.push((ml as u32, x.len() as u32));
    let f = Seq::new(es.len(), |j: int| entry_bytes(es[j]));
    lemma_concat_all_len8(f);
    let idx = new_index_bytes(n, olds, ml, x.len() as int);
    assert(idx.len() == 9 + 8 * (n + 1));
    let b1 = write_at(b, ml, x);
    let b2 = write_at(b1, nml, idx);
    let b3 = write_at(b2, 4, u32_le(nml as u32));
    assert(b3 == publish_image(b, x));
    lemma_write_at_outside(b, ml, x, 0, 4);
    lemma_write_at_outside(b1, nml, idx, 0, 4);
    lemma_write_at_outside(b2, 4, u32_le(nml as u32), 0, 4);
    lemma_write_at_inside(b2, 4, u32_le(nml as u32), 4, 8);
    lemma_write_at_inside(b, ml, x, ml, nml);
    lemma_write_at_outside(b1, nml, idx, ml, nml);
    lemma_write_at_outside(b2, 4, u32_le(nml as u32), ml, nml);
    assert(x.subrange(0, x.len() as int) =~= x);
    assert forall|a: int, c: int| 8 <= a <= c <= ml implies #[trigger] b3.subrange(a, c)
        == b.subrange(a, c) by {
        lemma_write_at_outside(b, ml, x, a, c);
        lemma_write_at_outside(b1, nml, idx, a, c);
        lemma_write_at_outside(b2, 4, u32_le(nml as u32), a, c);
    }
    assert forall|a: int, c: int| nml <= a <= c <= nml + idx.len() implies #[trigger] b3.subrange(
        a,
        c,
    ) == idx.subrange(a - nml, c - nml) by {
        lemma_write_at_inside(b1, nml, idx, a, c);
        lemma_write_at_outside(b2, 4, u32_le(nml as u32), a, c);
    }
}

/// The entries written by publishing: the old ones, then the new revision's.
proof fn lemma_new_index_entries(n: u64, olds: Seq<(u32, u32)>, ml: int, len: int, j: int)
    requires
        olds.len() == n,
        0 <= j <= n,
    ensures
        ({
            let idx = new_index_bytes(n, olds, ml, len);
            let e = olds.push((ml as u32, len as u32))[j];
            &&& idx.subrange(9 + 8 * j, 9 + 8 * j + 4) == u32_le(e.0)
            &&& idx.subrange(9 + 8 * j + 4, 9 + 8 * j + 8) == u32_le(e.1)
        }),
{
    let es = olds.push((ml as u32, len as u32));
    let f = Seq::new(es.len(), |i: int| entry_bytes(es[i]));
    lemma_concat_all_len8(f);
    let c = entries_bytes(es);
    assert(c.subrange(8 * j, 8 * j + 8) == f[j]);
    let idx = new_index_bytes(n, olds, ml, len);
    assert(idx.subrange(9 + 8 * j, 9 + 8 * j + 4) =~= c.subrange(8 * j, 8 * j + 8).subrange(0, 4));
    assert(idx.subrange(9 + 8 * j + 4, 9 + 8 * j + 8) =~= c.subrange(8 * j, 8 * j + 8).subrange(
        4,
        8,
    ));
    assert(entry_bytes(es[j]).subrange(0, 4) =~= u32_le(es[j].0));
    assert(entry_bytes(es[j]).subrange(4, 8) =~= u32_le(es[j].1));
}

/// Publishing `x` into a valid record gives a valid record with one more revision: the
/// new revision holds `x` right where the index was, and every earlier revision keeps
/// its entry and its bytes.
pub proof fn lemma_publish(b: Seq<u8>, x: Seq<u8>)
    requires
        account_valid(b),
        publish_result(b, x) is Ok,
    ensures
        ({
            let ml = parse_index(b)->Ok_0.0;
            let n = parse_index(b)->Ok_0.1;
            let nml = ml + x.len();
            let b2 = publish_image(b, x);
            &&& n + 1 <= u64::MAX
            &&& parse_index(b2) == Ok::<(int, u64), RuleSetError>((nml, (n + 1) as u64))
            &&& account_valid(b2)
            &&& forall|j: int|
                0 <= j < n ==> #[trigger] revision_entry(b2, nml, j) == revision_entry(b, ml, j)
            &&& revision_entry(b2, nml, n as int) == (ml as u32, x.len() as u32)
            &&& b2.subrange(ml, nml) == x
            &&& forall|a: int, c: int|
                8 <= a <= c <= ml ==> #[trigger] b2.subrange(a, c) == b.subrange(a, c)
        }),
{
    let ml = parse_index(b)->Ok_0.0;
    let n = parse_index(b)->Ok_0.1;
    let nml = ml + x.len();
    let olds = old_entries(b, ml, n);
    let idx = new_index_bytes(n, olds, ml, x.len() as int);
    let b2 = publish_image(b, x);
    lemma_publish_windows(b, x);
    lemma_u32_round_trip(nml as u32);
    assert(le_u32(b2.subrange(0, 4)) == RULE_SET_KEY);
    assert(b2.subrange(nml, nml + 1) == idx.subrange(0, 1));
    assert(b2[nml] == b2.subrange(nml, nml + 1)[0]);
    assert(b2[nml] == RULE_SET_REV_MAP_VERSION);
    let s = b2.subrange(nml + 1, b2.len() as int);
    assert(s.subrange(0, 8) =~= b2.subrange(nml + 1, nml + 9));
    assert(b2.subrange(nml + 1, nml + 9) == idx.subrange(1, 9));
    assert(idx.subrange(1, 9) =~= u64_le((n + 1) as u64));
    lemma_u64_round_trip((n + 1) as u64);
    assert(parse_revision_map(s) is Ok);
    assert(parse_index(b2) == Ok::<(int, u64), RuleSetError>((nml, (n + 1) as u64)));
    assert forall|j: int| 0 <= j <= n implies #[trigger] revision_entry(b2, nml, j)
        == olds.push((ml as u32, x.len() as u32))[j] by {
        lemma_new_index_entries(n, olds, ml, x.len() as int, j);
        let e = olds.push((ml as u32, x.len() as u32))[j];
        assert(b2.subrange(nml + 9 + 8 * j, nml + 9 + 8 * j + 4) == idx.subrange(
            9 + 8 * j,
            9 + 8 * j + 4,
        ));
        assert(b2.subrange(nml + 9 + 8 * j + 4, nml + 9 + 8 * j + 8) == idx.subrange(
            9 + 8 * j + 4,
            9 + 8 * j + 8,
        ));
        lemma_u32_round_trip(e.0);
        lemma_u32_round_trip(e.1);
    }
    assert forall|j: int| 0 <= j < n implies #[trigger] revision_entry(b2, nml, j)
        == revision_entry(b, ml, j) by {
        assert(revision_entry(b2, nml, j) == olds.push((ml as u32, x.len() as u32))[j]);
    }
    assert(revision_entry(b2, nml, n as int) == olds.push((ml as u32, x.len() as u32))[n as int]);
    assert(account_valid(b2)) by {
        assert forall|j: int| 0 <= j < n + 1 implies 8 <= (#[trigger] revision_entry(b2, nml, j)).0
            && revision_entry(b2, nml, j).0 + revision_entry(b2, nml, j).1 <= nml by {
            if j < n {
                assert(revision_entry(b2, nml, j) == revision_entry(b, ml, j));
            } else {
                assert(revision_entry(b2, nml, j) == olds.push((ml as u32, x.len() as u32))[j]);
            }
        }
    }
}

/// Publishing keeps every earlier revision resolvable to the same bytes, and both the
/// new revision's number and the latest revision resolve to the published bytes.
pub proof fn law_publish_appends(b: Seq<u8>, x: Seq<u8>)
    requires
        account_valid(b),
        publish_result(b, x) is Ok,
    ensures
        ({
            let n = publish_result(b, x)->Ok_0;
            let b2 = publish_image(b, x);
            &&& account_valid(b2)
            &&& forall|j: u64|
                j < n ==> #[trigger] resolve(b2, Some(j)) == resolve(b, Some(j)) && resolve(
                    b,
                    Some(j),
                ) is Ok && b2.subrange(resolve(b, Some(j))->Ok_0.0, resolve(b, Some(j))->Ok_0.1)
                    == b.subrange(resolve(b, Some(j))->Ok_0.0, resolve(b, Some(j))->Ok_0.1)
            &&& resolve(b2, Some(n)) is Ok
            &&& resolve(b2, None) == resolve(b2, Some(n))
            &&& b2.subrange(resolve(b2, Some(n))->Ok_0.0, resolve(b2, Some(n))->Ok_0.1) == x
        }),
{
    let n = parse_index(b)->Ok_0.1;
    let b2 = publish_image(b, x);
    lemma_publish(b, x);
    assert forall|j: u64| j < n implies #[trigger] resolve(b2, Some(j)) == resolve(b, Some(j))
        && resolve(b, Some(j)) is Ok && b2.subrange(
        resolve(b, Some(j))->Ok_0.0,
        resolve(b, Some(j))->Ok_0.1,
    ) == b.subrange(resolve(b, Some(j))->Ok_0.0, resolve(b, Some(j))->Ok_0.1) by {
        lemma_resolve_kept(b, x, j);
    }
    lemma_resolve_new(b, x);
}

#[verifier::rlimit(50)]
proof fn lemma_resolve_new(b: Seq<u8>, x: Seq<u8>)
    requires
        account_valid(b),
        publish_result(b, x) is Ok,
    ensures
        publish_result(b, x) == Ok::<u64, RuleSetError>(parse_index(b)->Ok_0.1),
        resolve(publish_image(b, x), Some(parse_index(b)->Ok_0.1)) == Ok::<(int, int), RuleSetError>(
            (parse_index(b)->Ok_0.0, parse_index(b)->Ok_0.0 + x.len()),
        ),
        resolve(publish_image(b, x), None) == resolve(publish_image(b, x), Some(parse_index(b)->Ok_0.1)),
        publish_image(b, x).subrange(parse_index(b)->Ok_0.0, parse_index(b)->Ok_0.0 + x.len()) == x,
{
    let ml = parse_index(b)->Ok_0.0;
    let n = parse_index(b)->Ok_0.1;
    let nml = ml + x.len();
    let b2 = publish_image(b, x);
    lemma_publish(b, x);
    assert(parse_index(b2) == Ok::<(int, u64), RuleSetError>((nml, (n + 1) as u64)));
    assert(revision_entry(b2, nml, n as int) == (ml as u32, x.len() as u32));
}

#[verifier::rlimit(50)]
proof fn lemma_resolve_kept(b: Seq<u8>, x: Seq<u8>, j: u64)
    requires
        account_valid(b),
        publish_result(b, x) is Ok,
        j < parse_index(b)->Ok_0.1,
    ensures
        resolve(publish_image(b, x), Some(j)) == resolve(b, Some(j)),
        resolve(b, Some(j)) is Ok,
        publish_image(b, x).subrange(resolve(b, Some(j))->Ok_0.0, resolve(b, Some(j))->Ok_0.1)
            == b.subrange(resolve(b, Some(j))->Ok_0.0, resolve(b, Some(j))->Ok_0.1),
{
    let ml = parse_index(b)->Ok_0.0;
    let nml = ml + x.len();
    let b2 = publish_image(b, x);
    lemma_publish(b, x);
    assert(revision_entry(b2, nml, j as int) == revision_entry(b, ml, j as int));
    let n = parse_index(b)->Ok_0.1;
    let e = revision_entry(b, ml, j as int);
    assert(8 <= e.0 && e.0 + e.1 <= ml);
    assert(parse_index(b2) == Ok::<(int, u64), RuleSetError>((nml, (n + 1) as u64)));
    assert(resolve(b, Some(j)) == Ok::<(int, int), RuleSetError>((e.0 as int, e.0 + e.1)));
    assert(resolve(b2, Some(j)) == Ok::<(int, int), RuleSetError>((e.0 as int, e.0 + e.1)));
    assert(b2.subrange(e.0 as int, e.0 + e.1) == b.subrange(e.0 as int, e.0 + e.1));
}

/// After two successive publications into a freshly initialised record, revision 0
/// still holds (and decodes as) what the first one published, and the latest
/// revision, revision 1, holds what the second one published.
pub proof fn law_revision_pinning(b: Seq<u8>, first: Seq<u8>, second: Seq<u8>)
    requires
        25 <= b.len() <= usize::MAX,
        publish_result(initial_image(b), first) is Ok,
        publish_result(publish_image(initial_image(b), first), second) is Ok,
    ensures
        ({
            let b1 = publish_image(initial_image(b), first);
            let b2 = publish_image(b1, second);
            &&& publish_result(initial_image(b), first) == Ok::<u64, RuleSetError>(0)
            &&& publish_result(b1, second) == Ok::<u64, RuleSetError>(1)
            &&& resolve(b2, Some(0)) is Ok
            &&& b2.subrange(resolve(b2, Some(0))->Ok_0.0, resolve(b2, Some(0))->Ok_0.1) == first
            &&& parse_rule_set(
                b2.subrange(resolve(b2, Some(0))->Ok_0.0, resolve(b2, Some(0))->Ok_0.1),
            ) == parse_rule_set(first)
            &&& resolve(b2, None) == resolve(b2, Some(1))
            &&& resolve(b2, None) is Ok
            &&& b2.subrange(resolve(b2, None)->Ok_0.0, resolve(b2, None)->Ok_0.1) == second
        }),
{
    let b0 = initial_image(b);
    lemma_initial_image(b);
    let b1 = publish_image(b0, first);
    law_publish_appends(b0, first);
    lemma_publish(b0, first);
    let b2 = publish_image(b1, second);
    law_publish_appends(b1, second);
    assert(resolve(b2, Some(0)) == resolve(b1, Some(0)));
}

} // verus!
