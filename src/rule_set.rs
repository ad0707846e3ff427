//! The rule-set document: owner, name, a version/count pair, the operation names and
//! one root rule node per operation, in the same order.
use crate::bytes::{concat_all, lemma_concat_all_push, le_u32, read_u32, u32_le};
use crate::error::RuleSetError;
use crate::rule::{
    encode_rules, lemma_parse_rule_bounds, parse_rule, parse_rule_at, prepend, rule_models,
    RuleModel, RuleV2,
};
use crate::types::{pad32, pad_bytes, read_array32, text_bytes, Name, Pubkey};
use vstd::prelude::*;

verus! {

/// Version of the revision index layout.
pub const RULE_SET_REV_MAP_VERSION: u8 = 1;

/// Version of the rule-set layout written by this library.
pub const RULE_SET_LIB_VERSION: u32 = 2;

/// Size of the fixed part of a rule set: owner, name, version and count.
pub const RULE_SET_FIXED_LENGTH: usize = 72;

/// The meaning of a decoded rule set.
pub struct RuleSetModel {
    pub owner: Seq<u8>,
    pub name: Seq<u8>,
    pub lib_version: u32,
    pub operations: Seq<Seq<u8>>,
    pub rules: Seq<RuleModel>,
}

/// The encoding of a rule set.
pub open spec fn encode_rule_set(m: RuleSetModel) -> Seq<u8> {
    m.owner + m.name + u32_le(m.lib_version) + u32_le(m.operations.len() as u32) + concat_all(
        m.operations,
    ) + encode_rules(m.rules)
}

/// Decodes `n` consecutive nodes from the start of `w`; later bytes are not read.
pub open spec fn parse_rule_seq(w: Seq<u8>, n: nat) -> Result<Seq<RuleModel>, RuleSetError>
    decreases n,
{
    if n == 0 {
        Ok(seq![])
    } else {
        match parse_rule(w) {
            Err(e) => Err(e),
            Ok(m) => {
                let used = 8 + le_u32(w.subrange(4, 8));
                if used > w.len() {
                    Err(RuleSetError::TruncatedBuffer)
                } else {
                    prepend(seq![m], parse_rule_seq(w.subrange(used, w.len() as int), (n - 1) as nat))
                }
            },
        }
    }
}

/// Decodes the rule set at the start of `s`.
pub open spec fn parse_rule_set(s: Seq<u8>) -> Result<RuleSetModel, RuleSetError> {
    if s.len() < 72 {
        Err(RuleSetError::TruncatedBuffer)
    } else {
        let count = le_u32(s.subrange(68, 72));
        let ops_end = 72 + 32 * count;
        if ops_end > s.len() {
            Err(RuleSetError::TruncatedBuffer)
        } else {
            match parse_rule_seq(s.subrange(ops_end, s.len() as int), count as nat) {
                Err(e) => Err(e),
                Ok(rules) => Ok(
                    RuleSetModel {
                        owner: s.subrange(0, 32),
                        name: s.subrange(32, 64),
                        lib_version: le_u32(s.subrange(64, 68)),
                        operations: crate::bytes::chunks32(s.subrange(72, ops_end)),
                        rules,
                    },
                ),
            }
        }
    }
}

/// A rule set's version and number of operations.
#[derive(Clone, Copy, Debug)]
pub struct Data {
    pub data: [u32; 2],
}

impl Data {
    pub fn lib_version(&self) -> (r: u32)
        ensures
            r == self.data@[0],
    {
        self.data[0]
    }

    pub fn size(&self) -> (r: u32)
        ensures
            r == self.data@[1],
    {
        self.data[1]
    }
}

/// The bytes of each name of `ns`.
pub open spec fn name_bytes(ns: Seq<Name>) -> Seq<Seq<u8>> {
    Seq::new(ns.len(), |i: int| ns[i].value@)
}

/// A decoded rule set.
#[derive(Debug)]
pub struct RuleSetV2 {
    /// Owner (creator) of the rule set.
    pub owner: Pubkey,
    /// Name of the rule set.
    pub rule_set_name: Name,
    /// Layout version and number of operations.
    pub data: Data,
    /// Operation names, in declared order.
    pub operations: Vec<Name>,
    /// The root rule of each operation, in the same order.
    pub rules: Vec<RuleV2>,
}

impl RuleSetV2 {
    /// The meaning of the decoded rule set.
    pub open spec fn model(&self) -> RuleSetModel {
        RuleSetModel {
            owner: self.owner.bytes@,
            name: self.rule_set_name.value@,
            lib_version: self.data.data@[0],
            operations: name_bytes(self.operations@),
            rules: rule_models(self.rules@),
        }
    }

    /// The count, the operations and the rules agree.
    pub open spec fn well_formed(&self) -> bool {
        &&& self.operations@.len() == self.data.data@[1]
        &&& self.rules@.len() == self.data.data@[1]
    }

    /// Decodes the rule set at the start of `bytes`.
    pub fn from_bytes(bytes: &[u8]) -> (r: Result<RuleSetV2, RuleSetError>)
        ensures
            match parse_rule_set(bytes@) {
                Ok(m) => r is Ok && r->Ok_0.model() == m && r->Ok_0.well_formed(),
                Err(e) => r == Err::<RuleSetV2, RuleSetError>(e),
            },
    {
        let ghost s = bytes@;
        if bytes.len() < RULE_SET_FIXED_LENGTH {
            return Err(RuleSetError::TruncatedBuffer);
        }
        let owner = Pubkey { bytes: read_array32(bytes, 0) };
        let rule_set_name = Name { value: read_array32(bytes, 32) };
        let lib_version = read_u32(bytes, 64);
        let count = read_u32(bytes, 68);
        if ((bytes.len() - RULE_SET_FIXED_LENGTH) / 32) < count as usize {
            return Err(RuleSetError::TruncatedBuffer);
        }
        let ops_end = RULE_SET_FIXED_LENGTH + 32 * count as usize;
        let ghost q = s.subrange(72, ops_end as int);
        let mut operations: Vec<Name> = Vec::new();
        let mut i: usize = 0;
        while i < count as usize
            invariant
                s == bytes@,
                ops_end == 72 + 32 * count,
                ops_end <= s.len(),
                q == s.subrange(72, ops_end as int),
                i <= count,
                operations@.len() == i,
                forall|j: int|
                    0 <= j < i ==> (#[trigger] operations@[j]).value@ == q.subrange(
                        32 * j,
                        32 * j + 32,
                    ),
            decreases count - i,
        {
            let v = read_array32(bytes, RULE_SET_FIXED_LENGTH + 32 * i);
            assert(v@ =~= q.subrange(32 * i, 32 * i + 32));
            operations.push(Name { value: v });
            i = i + 1;
        }
        assert((32 * count) / 32 == count as int) by (nonlinear_arith);
        assert(name_bytes(operations@) =~= crate::bytes::chunks32(q));
        let mut rules: Vec<RuleV2> = Vec::new();
        let mut cursor: usize = ops_end;
        let mut k: u32 = 0;
        let ghost all = s.subrange(ops_end as int, s.len() as int);
        assert(all =~= bytes@.subrange(cursor as int, bytes@.len() as int));
        assert(rule_models(rules@) =~= Seq::<RuleModel>::empty());
        assert(forall|rs: Seq<RuleModel>| Seq::<RuleModel>::empty() + rs =~= rs);
        while k < count
            invariant
                s == bytes@,
                s.len() >= 72,
                count == le_u32(s.subrange(68, 72)),
                ops_end == 72 + 32 * count,
                ops_end <= cursor <= s.len(),
                k <= count,
                rules@.len() == k,
                all == s.subrange(ops_end as int, s.len() as int),
                parse_rule_seq(all, count as nat) == prepend(
                    rule_models(rules@),
                    parse_rule_seq(s.subrange(cursor as int, s.len() as int), (count - k) as nat),
                ),
            decreases count - k,
        {
            let ghost w = s.subrange(cursor as int, s.len() as int);
            let child = parse_rule_at(bytes, cursor, bytes.len());
            match child {
                Err(e) => {
                    assert(parse_rule_seq(w, (count - k) as nat) == Err::<
                        Seq<RuleModel>,
                        RuleSetError,
                    >(e));
                    return Err(e);
                },
                Ok(rule) => {
                    proof {
                        lemma_parse_rule_bounds(w);
                    }
                    let used = 8 + rule.header.length();
                    let ghost m = rule.model();
                    let ghost rest = w.subrange(used as int, w.len() as int);
                    assert(rest =~= s.subrange(cursor + used, s.len() as int));
                    let ghost tail = parse_rule_seq(rest, (count - k - 1) as nat);
                    assert(parse_rule_seq(w, (count - k) as nat) == prepend(seq![m], tail));
                    let ghost old_models = rule_models(rules@);
                    rules.push(rule);
                    assert(rule_models(rules@) =~= old_models + seq![m]);
                    assert(prepend(old_models, prepend(seq![m], tail)) == prepend(
                        old_models + seq![m],
                        tail,
                    )) by {
                        match tail {
                            Ok(rs) => {
                                assert(old_models + (seq![m] + rs) =~= (old_models + seq![m]) + rs);
                            },
                            Err(_) => {},
                        }
                    }
                    cursor = cursor + used;
                    k = k + 1;
                },
            }
        }
        assert(rule_models(rules@) + Seq::<RuleModel>::empty() =~= rule_models(rules@));
        let data = Data { data: [lib_version, count] };
        assert(data.data@[0] == lib_version && data.data@[1] == count);
        assert(s.subrange(0, 32) == owner.bytes@);
        Ok(RuleSetV2 { owner, rule_set_name, data, operations, rules })
    }
}

/// The padded operation fields of `ops`.
pub open spec fn op_fields(ops: Seq<String>) -> Seq<Seq<u8>> {
    Seq::new(ops.len(), |i: int| pad32(text_bytes(ops[i]@)))
}

/// The contents of each vector of `rs`.
pub open spec fn vec_views(rs: Seq<Vec<u8>>) -> Seq<Seq<u8>> {
    Seq::new(rs.len(), |i: int| rs[i]@)
}

/// The encoding that publishing `owner`, `name`, `ops` and the encoded `rules` gives.
pub open spec fn rule_set_bytes(
    owner: Seq<u8>,
    name: Seq<u8>,
    ops: Seq<Seq<u8>>,
    rules: Seq<Seq<u8>>,
) -> Seq<u8> {
    owner + name + u32_le(RULE_SET_LIB_VERSION) + u32_le(ops.len() as u32) + concat_all(ops)
        + concat_all(rules)
}

/// Appends the fixed part of a rule set.
fn append_fixed(data: &mut Vec<u8>, owner: &Pubkey, name: &str, count: u32)
    requires
        text_bytes(name@).len() <= 32,
    ensures
        final(data)@ == old(data)@ + owner.bytes@ + pad32(text_bytes(name@)) + u32_le(
            RULE_SET_LIB_VERSION,
        ) + u32_le(count),
{
    data.extend_from_slice(owner.bytes.as_slice());
    let n = pad_bytes(name.as_bytes());
    data.extend_from_slice(n.as_slice());
    crate::bytes::append_u32(data, RULE_SET_LIB_VERSION);
    crate::bytes::append_u32(data, count);
    assert(final(data)@ =~= old(data)@ + owner.bytes@ + pad32(text_bytes(name@)) + u32_le(
        RULE_SET_LIB_VERSION,
    ) + u32_le(count));
}

impl RuleSetV2 {
    /// Encodes a rule set from its owner, its name, its operation names and the encoded
    /// root rule of each operation; fails with `DataIsEmpty` when there is no operation
    /// and with `NumericalOverflow` when the count does not fit 32 bits.
    pub fn serialize(owner: Pubkey, name: &str, operations: &[String], rules: &[Vec<u8>]) -> (r:
        Result<Vec<u8>, RuleSetError>)
        requires
            text_bytes(name@).len() <= 32,
            forall|i: int| 0 <= i < operations@.len() ==> text_bytes(#[trigger] operations@[i]@).len() <= 32,
            operations@.len() == rules@.len(),
        ensures
            operations@.len() == 0 ==> r == Err::<Vec<u8>, RuleSetError>(RuleSetError::DataIsEmpty),
            operations@.len() > u32::MAX ==> r == Err::<Vec<u8>, RuleSetError>(
                RuleSetError::NumericalOverflow,
            ),
            0 < operations@.len() <= u32::MAX ==> r is Ok && r->Ok_0@ == rule_set_bytes(
                owner.bytes@,
                pad32(text_bytes(name@)),
                op_fields(operations@),
                vec_views(rules@),
            ),
    {
        if operations.len() == 0 {
            return Err(RuleSetError::DataIsEmpty);
        }
        if operations.len() > u32::MAX as usize {
            return Err(RuleSetError::NumericalOverflow);
        }
        Ok(serialize_parts(&owner, name, operations, rules))
    }

    /// Encodes a rule set with no operation: a placeholder that owns nothing but its name.
    pub fn serialize_empty(owner: Pubkey, name: &str) -> (r: Vec<u8>)
        requires
            text_bytes(name@).len() <= 32,
        ensures
            r@ == rule_set_bytes(owner.bytes@, pad32(text_bytes(name@)), seq![], seq![]),
    {
        let mut data: Vec<u8> = Vec::new();
        append_fixed(&mut data, &owner, name, 0);
        assert(concat_all(Seq::<Seq<u8>>::empty()) == Seq::<u8>::empty());
        assert(data@ =~= rule_set_bytes(owner.bytes@, pad32(text_bytes(name@)), seq![], seq![]));
        data
    }
}

fn serialize_parts(owner: &Pubkey, name: &str, operations: &[String], rules: &[Vec<u8>]) -> (r: Vec<
    u8,
>)
    requires
        text_bytes(name@).len() <= 32,
        forall|i: int| 0 <= i < operations@.len() ==> text_bytes(#[trigger] operations@[i]@).len() <= 32,
        operations@.len() == rules@.len(),
        operations@.len() <= u32::MAX,
    ensures
        r@ == rule_set_bytes(
            owner.bytes@,
            pad32(text_bytes(name@)),
            op_fields(operations@),
            vec_views(rules@),
        ),
{
    let mut data: Vec<u8> = Vec::new();
    append_fixed(&mut data, owner, name, operations.len() as u32);
    let ghost ops = op_fields(operations@);
    let ghost views = vec_views(rules@);
    let ghost head = data@;
    let mut i: usize = 0;
    assert(head + concat_all(ops.subrange(0, 0)) =~= head);
    while i < operations.len()
        invariant
            ops == op_fields(operations@),
            forall|i: int| 0 <= i < operations@.len() ==> text_bytes(#[trigger] operations@[i]@).len() <= 32,
            i <= operations@.len(),
            data@ == head + concat_all(ops.subrange(0, i as int)),
        decreases operations@.len() - i,
    {
        proof {
            lemma_concat_all_push(ops.subrange(0, i as int), ops[i as int]);
            assert(ops.subrange(0, i + 1) =~= ops.subrange(0, i as int).push(ops[i as int]));
        }
        let f = pad_bytes(operations[i].as_str().as_bytes());
        data.extend_from_slice(f.as_slice());
        i = i + 1;
    }
    assert(ops.subrange(0, i as int) =~= ops);
    let ghost mid = data@;
    let mut j: usize = 0;
    assert(mid + concat_all(views.subrange(0, 0)) =~= mid);
    while j < rules.len()
        invariant
            views == vec_views(rules@),
            j <= rules@.len(),
            data@ == mid + concat_all(views.subrange(0, j as int)),
        decreases rules@.len() - j,
    {
        proof {
            lemma_concat_all_push(views.subrange(0, j as int), views[j as int]);
            assert(views.subrange(0, j + 1) =~= views.subrange(0, j as int).push(views[j as int]));
        }
        data.extend_from_slice(rules[j].as_slice());
        j = j + 1;
    }
    assert(views.subrange(0, j as int) =~= views);
    assert(data@ =~= rule_set_bytes(owner.bytes@, pad32(text_bytes(name@)), ops, views));
    data
}

} // verus!
