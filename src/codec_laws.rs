//! Round trips of the rule-node and rule-set encodings, and their exactness.
use crate::bytes::{
    concat_all, le_u32, le_u64, lemma_chunks_of_concat, lemma_concat_all_len32,
    lemma_concat_of_chunks, lemma_u32_canonical, lemma_u32_round_trip, lemma_u64_canonical,
    lemma_u64_round_trip, u32_le, u64_le,
};
use crate::error::RuleSetError;
use crate::rule::{
    encode_rule, encode_rules, kind_of, parse_rule, parse_rules, rule_well_formed,
    rules_well_formed, RuleModel,
};
use crate::rule_set::{encode_rule_set, parse_rule_seq, parse_rule_set, RuleSetModel};
use crate::types::{lemma_assert_type_code, lemma_compare_op_code, AssertType, CompareOp};
use vstd::prelude::*;

verus! {

/// Every encoded node is at least a header long.
pub proof fn lemma_encode_rule_len(m: RuleModel)
    ensures
        encode_rule(m).len() >= 8,
{
}

/// The encodings of `rs` take at least a header per node.
pub proof fn lemma_encode_rules_len(rs: Seq<RuleModel>)
    ensures
        encode_rules(rs).len() >= 8 * rs.len(),
    decreases rs.len(),
{
    if rs.len() > 0 {
        lemma_encode_rule_len(rs[0]);
        lemma_encode_rules_len(rs.subrange(1, rs.len() as int));
    }
}

/// The payload of a well-formed node, and the fact that its length fits the header.
proof fn lemma_payload(m: RuleModel)
    requires
        rule_well_formed(m),
    ensures
        encode_rule(m).len() <= u32::MAX + 8,
        encode_rule(m).subrange(0, 4) == u32_le(kind_of(m).spec_code()),
        le_u32(encode_rule(m).subrange(4, 8)) == encode_rule(m).len() - 8,
{
    let e = encode_rule(m);
    let p = e.subrange(8, e.len() as int);
    match m {
        RuleModel::ProgramOwnedList { field, programs } => {
            lemma_concat_all_len32(programs);
        },
        RuleModel::Amount { .. } => {},
        _ => {},
    }
    assert(e.subrange(0, 4) =~= u32_le(kind_of(m).spec_code()));
    assert(e.subrange(4, 8) =~= u32_le((e.len() - 8) as u32));
    lemma_u32_round_trip((e.len() - 8) as u32);
}

/// Decoding a well-formed node's encoding, whatever follows it, gives the node back.
pub proof fn lemma_rule_round_trip(m: RuleModel, t: Seq<u8>)
    requires
        rule_well_formed(m),
    ensures
        parse_rule(encode_rule(m) + t) == Ok::<RuleModel, RuleSetError>(m),
    decreases m,
{
    let e = encode_rule(m);
    let s = e + t;
    lemma_payload(m);
    lemma_u32_round_trip(kind_of(m).spec_code());
    lemma_assert_type_code(kind_of(m));
    assert(s.subrange(0, 4) =~= e.subrange(0, 4));
    assert(s.subrange(4, 8) =~= e.subrange(4, 8));
    let len = le_u32(s.subrange(4, 8));
    assert(len == e.len() - 8);
    let p = s.subrange(8, 8 + len);
    match m {
        RuleModel::Amount { amount, operator, field } => {
            assert(p =~= u64_le(amount) + u64_le(operator.spec_code()) + field);
            assert(p.subrange(0, 8) =~= u64_le(amount));
            assert(p.subrange(8, 16) =~= u64_le(operator.spec_code()));
            assert(p.subrange(16, 48) =~= field);
            lemma_u64_round_trip(amount);
            lemma_u64_round_trip(operator.spec_code());
            lemma_compare_op_code(operator);
        },
        RuleModel::Any { rules } => {
            lemma_rules_round_trip(rules);
            lemma_encode_rules_len(rules);
            assert(p =~= u64_le(rules.len() as u64) + encode_rules(rules));
            assert(p.subrange(0, 8) =~= u64_le(rules.len() as u64));
            assert(p.subrange(8, p.len() as int) =~= encode_rules(rules));
            lemma_u64_round_trip(rules.len() as u64);
        },
        RuleModel::All { rules } => {
            lemma_rules_round_trip(rules);
            lemma_encode_rules_len(rules);
            assert(p =~= u64_le(rules.len() as u64) + encode_rules(rules));
            assert(p.subrange(0, 8) =~= u64_le(rules.len() as u64));
            assert(p.subrange(8, p.len() as int) =~= encode_rules(rules));
            lemma_u64_round_trip(rules.len() as u64);
        },
        RuleModel::ProgramOwnedList { field, programs } => {
            lemma_concat_all_len32(programs);
            lemma_chunks_of_concat(programs);
            assert(p =~= field + concat_all(programs));
            assert(p.subrange(0, 32) =~= field);
            assert(p.subrange(32, p.len() as int) =~= concat_all(programs));
            assert((32 * programs.len()) % 32 == 0) by (nonlinear_arith);
        },
        RuleModel::IsWallet { field } => {
            assert(p =~= field);
        },
        RuleModel::Namespace => {
            assert(p =~= Seq::<u8>::empty());
        },
    }
}

/// Decoding the encodings of well-formed nodes, which fill the window exactly, gives
/// the nodes back.
pub proof fn lemma_rules_round_trip(rs: Seq<RuleModel>)
    requires
        rules_well_formed(rs),
    ensures
        parse_rules(encode_rules(rs), rs.len()) == Ok::<Seq<RuleModel>, RuleSetError>(rs),
    decreases rs,
{
    if rs.len() == 0 {
        assert(encode_rules(rs) =~= Seq::<u8>::empty());
        assert(rs =~= Seq::<RuleModel>::empty());
    } else {
        let tail = rs.subrange(1, rs.len() as int);
        let w = encode_rules(rs);
        let e = encode_rule(rs[0]);
        lemma_rule_round_trip(rs[0], encode_rules(tail));
        lemma_rules_round_trip(tail);
        lemma_payload(rs[0]);
        assert(w.subrange(4, 8) =~= e.subrange(4, 8));
        assert(w.subrange(e.len() as int, w.len() as int) =~= encode_rules(tail));
        assert(seq![rs[0]] + tail =~= rs);
    }
}

/// Decoding a sequence of well-formed encoded nodes, whatever follows them, gives the
/// nodes back.
pub proof fn lemma_rule_seq_round_trip(rs: Seq<RuleModel>, t: Seq<u8>)
    requires
        rules_well_formed(rs),
    ensures
        parse_rule_seq(encode_rules(rs) + t, rs.len()) == Ok::<Seq<RuleModel>, RuleSetError>(rs),
    decreases rs.len(),
{
    if rs.len() == 0 {
        assert(rs =~= Seq::<RuleModel>::empty());
    } else {
        let tail = rs.subrange(1, rs.len() as int);
        let e = encode_rule(rs[0]);
        let w = encode_rules(rs) + t;
        assert(w =~= e + (encode_rules(tail) + t));
        lemma_rule_round_trip(rs[0], encode_rules(tail) + t);
        lemma_rule_seq_round_trip(tail, t);
        lemma_payload(rs[0]);
        assert(w.subrange(4, 8) =~= e.subrange(4, 8));
        assert(w.subrange(e.len() as int, w.len() as int) =~= encode_rules(tail) + t);
        assert(seq![rs[0]] + tail =~= rs);
    }
}

/// Decoding the encoding of any well-formed node gives the node back.
pub proof fn law_rule_round_trip(m: RuleModel)
    requires
        rule_well_formed(m),
    ensures
        parse_rule(encode_rule(m)) == Ok::<RuleModel, RuleSetError>(m),
{
    lemma_rule_round_trip(m, seq![]);
    assert(encode_rule(m) + Seq::<u8>::empty() =~= encode_rule(m));
}

/// Whether a rule set can be encoded: 32-byte owner, name and operation names, as many
/// rules as operations, a count that fits 32 bits, and well-formed rules.
pub open spec fn rule_set_well_formed(m: RuleSetModel) -> bool {
    &&& m.owner.len() == 32
    &&& m.name.len() == 32
    &&& forall|i: int| 0 <= i < m.operations.len() ==> (#[trigger] m.operations[i]).len() == 32
    &&& m.operations.len() == m.rules.len()
    &&& m.operations.len() <= u32::MAX
    &&& rules_well_formed(m.rules)
}

/// Decoding the encoding of any well-formed rule set, with any number of operations
/// (none included), gives the rule set back.
pub proof fn law_rule_set_round_trip(m: RuleSetModel)
    requires
        rule_set_well_formed(m),
    ensures
        parse_rule_set(encode_rule_set(m)) == Ok::<RuleSetModel, RuleSetError>(m),
{
    let s = encode_rule_set(m);
    let n = m.operations.len() as int;
    let ops = concat_all(m.operations);
    let rules = encode_rules(m.rules);
    let pre = m.owner + m.name + u32_le(m.lib_version) + u32_le(n as u32);
    assert(s == pre + ops + rules);
    assert(pre.len() == 72);
    lemma_concat_all_len32(m.operations);
    lemma_chunks_of_concat(m.operations);
    lemma_u32_round_trip(n as u32);
    lemma_u32_round_trip(m.lib_version);
    assert(s.subrange(68, 72) =~= u32_le(n as u32));
    assert(s.subrange(64, 68) =~= u32_le(m.lib_version));
    assert(s.subrange(0, 32) =~= m.owner);
    assert(s.subrange(32, 64) =~= m.name);
    assert(s.subrange(72, 72 + 32 * n) =~= ops);
    let tail = s.subrange(72 + 32 * n, s.len() as int);
    assert(tail =~= rules + Seq::<u8>::empty());
    lemma_rule_seq_round_trip(m.rules, seq![]);
    assert(parse_rule_seq(tail, n as nat) == Ok::<Seq<RuleModel>, RuleSetError>(m.rules));
}

/// The header of an encoded node declares exactly the length of the payload that
/// follows it.
pub proof fn law_header_length(m: RuleModel)
    requires
        rule_well_formed(m),
    ensures
        le_u32(encode_rule(m).subrange(4, 8)) == encode_rule(m).len() - 8,
{
    lemma_payload(m);
}

/// Decoding accepts only exact encodings: when the node at the start of `s` decodes,
/// its header and payload are byte for byte the encoding of what it decodes to, so a
/// node whose declared length disagrees with its contents is rejected.
pub proof fn law_decode_exact(s: Seq<u8>)
    requires
        parse_rule(s) is Ok,
    ensures
        s.subrange(0, 8 + le_u32(s.subrange(4, 8))) == encode_rule(parse_rule(s)->Ok_0),
    decreases s.len(), 0int,
{
    let len = le_u32(s.subrange(4, 8));
    let kind = AssertType::spec_from_code(le_u32(s.subrange(0, 4)))->Some_0;
    let p = s.subrange(8, 8 + len);
    let m = parse_rule(s)->Ok_0;
    lemma_u32_canonical(s.subrange(0, 4));
    lemma_u32_canonical(s.subrange(4, 8));
    crate::rule::lemma_parse_rule_bounds(s);
    assert(kind_of(m) == kind);
    assert(AssertType::spec_from_code(kind.spec_code()) == Some(kind)) by {
        lemma_assert_type_code(kind);
    }
    let ep = payload_of_model(m);
    assert(p == ep) by {
        if kind == AssertType::Any || kind == AssertType::All {
            let n = le_u64(p.subrange(0, 8));
            let w = p.subrange(8, p.len() as int);
            let rules = parse_rules(w, n as nat)->Ok_0;
            lemma_rules_exact(w, n as nat);
            lemma_u64_canonical(p.subrange(0, 8));
            assert(p =~= p.subrange(0, 8) + w);
        } else if kind == AssertType::Amount {
            lemma_u64_canonical(p.subrange(0, 8));
            lemma_u64_canonical(p.subrange(8, 16));
            let op = CompareOp::spec_from_code(le_u64(p.subrange(8, 16)))->Some_0;
            assert(op.spec_code() == le_u64(p.subrange(8, 16)));
            assert(p =~= p.subrange(0, 8) + p.subrange(8, 16) + p.subrange(16, 48));
        } else if kind == AssertType::ProgramOwnedList {
            lemma_concat_of_chunks(p.subrange(32, p.len() as int));
            assert(p =~= p.subrange(0, 32) + p.subrange(32, p.len() as int));
        } else if kind == AssertType::Namespace {
            assert(p =~= Seq::<u8>::empty());
        }
    }
    assert(s.subrange(0, 8 + len) =~= s.subrange(0, 4) + s.subrange(4, 8) + p);
}

/// The payload that `encode_rule` writes for `m`.
pub open spec fn payload_of_model(m: RuleModel) -> Seq<u8> {
    match m {
        RuleModel::Amount { amount, operator, field } => u64_le(amount) + u64_le(
            operator.spec_code(),
        ) + field,
        RuleModel::Any { rules } => u64_le(rules.len() as u64) + encode_rules(rules),
        RuleModel::All { rules } => u64_le(rules.len() as u64) + encode_rules(rules),
        RuleModel::ProgramOwnedList { field, programs } => field + concat_all(programs),
        RuleModel::IsWallet { field } => field,
        RuleModel::Namespace => seq![],
    }
}

/// A window that decodes as `n` nodes is exactly their encodings.
proof fn lemma_rules_exact(w: Seq<u8>, n: nat)
    requires
        parse_rules(w, n) is Ok,
    ensures
        w == encode_rules(parse_rules(w, n)->Ok_0),
        parse_rules(w, n)->Ok_0.len() == n,
    decreases w.len(), 1int,
{
    if n == 0 {
        assert(w =~= Seq::<u8>::empty());
    } else {
        let m = parse_rule(w)->Ok_0;
        let used = 8 + le_u32(w.subrange(4, 8));
        let rest = w.subrange(used, w.len() as int);
        law_decode_exact(w);
        lemma_rules_exact(rest, (n - 1) as nat);
        let rs = parse_rules(w, n)->Ok_0;
        let tail = parse_rules(rest, (n - 1) as nat)->Ok_0;
        assert(rs == seq![m] + tail);
        assert(rs.subrange(1, rs.len() as int) =~= tail);
        assert(rs[0] == m);
        assert(w =~= w.subrange(0, used) + rest);
    }
}

/// The encodings of `rs` are the concatenation of each node's encoding.
pub proof fn lemma_encode_rules_concat(rs: Seq<RuleModel>)
    ensures
        encode_rules(rs) == concat_all(Seq::new(rs.len(), |i: int| encode_rule(rs[i]))),
    decreases rs.len(),
{
    let f = Seq::new(rs.len(), |i: int| encode_rule(rs[i]));
    if rs.len() > 0 {
        let tail = rs.subrange(1, rs.len() as int);
        lemma_encode_rules_concat(tail);
        assert(f.subrange(1, f.len() as int) =~= Seq::new(tail.len(), |i: int| encode_rule(tail[i])));
    } else {
        assert(f =~= Seq::<Seq<u8>>::empty());
    }
}

/// Encoding a combinator over the encodings of well-formed nodes, then decoding it,
/// gives the combinator over those nodes.
pub proof fn law_combinator_round_trip(kind: AssertType, encoded: Seq<Seq<u8>>, rs: Seq<RuleModel>)
    requires
        kind == AssertType::Any || kind == AssertType::All,
        encoded.len() == rs.len(),
        forall|i: int| 0 <= i < rs.len() ==> #[trigger] encoded[i] == encode_rule(rs[i]),
        rules_well_formed(rs),
        8 + concat_all(encoded).len() <= u32::MAX,
    ensures
        parse_rule(crate::encode::combinator_bytes(kind, encoded)) == Ok::<RuleModel, RuleSetError>(
            if kind == AssertType::Any {
                RuleModel::Any { rules: rs }
            } else {
                RuleModel::All { rules: rs }
            },
        ),
{
    lemma_encode_rules_concat(rs);
    assert(encoded =~= Seq::new(rs.len(), |i: int| encode_rule(rs[i])));
    let m = if kind == AssertType::Any {
        RuleModel::Any { rules: rs }
    } else {
        RuleModel::All { rules: rs }
    };
    assert(crate::encode::combinator_bytes(kind, encoded) =~= encode_rule(m));
    law_rule_round_trip(m);
}

/// Encoding a rule set from 32-byte fields and the encodings of well-formed rules, then
/// decoding it, gives those fields and rules back, with the current layout version.
pub proof fn law_serialized_rule_set_round_trip(
    owner: Seq<u8>,
    name: Seq<u8>,
    ops: Seq<Seq<u8>>,
    encoded: Seq<Seq<u8>>,
    rs: Seq<RuleModel>,
)
    requires
        owner.len() == 32,
        name.len() == 32,
        forall|i: int| 0 <= i < ops.len() ==> (#[trigger] ops[i]).len() == 32,
        ops.len() == rs.len(),
        ops.len() <= u32::MAX,
        encoded.len() == rs.len(),
        forall|i: int| 0 <= i < rs.len() ==> #[trigger] encoded[i] == encode_rule(rs[i]),
        rules_well_formed(rs),
    ensures
        parse_rule_set(crate::rule_set::rule_set_bytes(owner, name, ops, encoded)) == Ok::<
            RuleSetModel,
            RuleSetError,
        >(
            RuleSetModel {
                owner,
                name,
                lib_version: crate::rule_set::RULE_SET_LIB_VERSION,
                operations: ops,
                rules: rs,
            },
        ),
{
    let m = RuleSetModel {
        owner,
        name,
        lib_version: crate::rule_set::RULE_SET_LIB_VERSION,
        operations: ops,
        rules: rs,
    };
    lemma_encode_rules_concat(rs);
    assert(encoded =~= Seq::new(rs.len(), |i: int| encode_rule(rs[i])));
    assert(crate::rule_set::rule_set_bytes(owner, name, ops, encoded) =~= encode_rule_set(m));
    law_rule_set_round_trip(m);
}

} // verus!
