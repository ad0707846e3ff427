//! Properties that relate the library's functions, proved over their specifications.
use crate::bytes::span_len;
use crate::error::RuleSetError;
use crate::eval::{
    eval_rule, field_text, AccountRef, Payload,
    PayloadType, KEY_SEPARATOR,
};
use crate::rule::RuleModel;
use crate::rule_set::RuleSetModel;
use crate::types::{pad32, CompareOp};
use crate::validate::{find_operation, rule_for, validate_spec};
use vstd::prelude::*;

verus! {

/// An `Amount` rule passes exactly when the payload number compares with the rule's
/// amount by the rule's operator; otherwise it fails with `AmountCheckFailed`.
pub proof fn law_amount_semantics(
    operator: CompareOp,
    amount: u64,
    value: u64,
    field: Seq<u8>,
    p: Payload,
    accts: Seq<AccountRef>,
)
    requires
        p.get_spec(field_text(field)) == Some(PayloadType::Number(value)),
    ensures
        eval_rule(RuleModel::Amount { amount, operator, field }, p, accts) is Ok <==> operator.holds(
            value,
            amount,
        ),
        !operator.holds(value, amount) ==> eval_rule(
            RuleModel::Amount { amount, operator, field },
            p,
            accts,
        ) == Err::<(), RuleSetError>(RuleSetError::AmountCheckFailed),
{
}

/// `All` passes exactly when every child passes, and otherwise fails with the failure
/// of the first child that fails.
pub proof fn law_all_semantics(rs: Seq<RuleModel>, p: Payload, accts: Seq<AccountRef>)
    ensures
        eval_rule(RuleModel::All { rules: rs }, p, accts) is Ok <==> forall|i: int|
            0 <= i < rs.len() ==> #[trigger] eval_rule(rs[i], p, accts) is Ok,
        forall|i: int|
            0 <= i < rs.len() && eval_rule(rs[i], p, accts) is Err && (forall|j: int|
                0 <= j < i ==> #[trigger] eval_rule(rs[j], p, accts) is Ok) ==> eval_rule(
                RuleModel::All { rules: rs },
                p,
                accts,
            ) == eval_rule(#[trigger] rs[i], p, accts),
    decreases rs.len(),
{
    if rs.len() > 0 {
        let tail = rs.subrange(1, rs.len() as int);
        law_all_semantics(tail, p, accts);
        assert forall|i: int| 0 <= i < tail.len() implies tail[i] == rs[i + 1] by {}
        if eval_rule(rs[0], p, accts) is Ok {
            assert((forall|i: int| 0 <= i < rs.len() ==> #[trigger] eval_rule(rs[i], p, accts) is Ok)
                <==> (forall|i: int| 0 <= i < tail.len() ==> #[trigger] eval_rule(tail[i], p, accts) is Ok)) by {
                if forall|i: int| 0 <= i < tail.len() ==> #[trigger] eval_rule(tail[i], p, accts) is Ok {
                    assert forall|i: int| 0 <= i < rs.len() implies #[trigger] eval_rule(rs[i], p, accts) is Ok by {
                        if i > 0 {
                            assert(eval_rule(tail[i - 1], p, accts) is Ok);
                        }
                    }
                }
            }
            assert forall|i: int|
                0 <= i < rs.len() && eval_rule(rs[i], p, accts) is Err && (forall|j: int|
                    0 <= j < i ==> #[trigger] eval_rule(rs[j], p, accts) is Ok) implies eval_rule(
                RuleModel::All { rules: rs },
                p,
                accts,
            ) == eval_rule(#[trigger] rs[i], p, accts) by {
                assert(i > 0);
                assert(tail[i - 1] == rs[i]);
                assert forall|j: int| 0 <= j < i - 1 implies #[trigger] eval_rule(tail[j], p, accts) is Ok by {
                    assert(eval_rule(rs[j + 1], p, accts) is Ok);
                }
            }
        } else {
            assert(!(eval_rule(rs[0], p, accts) is Ok));
        }
    }
}

/// `Any` passes exactly when some child passes.
pub proof fn law_any_semantics(rs: Seq<RuleModel>, p: Payload, accts: Seq<AccountRef>)
    ensures
        eval_rule(RuleModel::Any { rules: rs }, p, accts) is Ok <==> exists|i: int|
            0 <= i < rs.len() && #[trigger] eval_rule(rs[i], p, accts) is Ok,
    decreases rs.len(),
{
    if rs.len() > 0 {
        let tail = rs.subrange(1, rs.len() as int);
        law_any_semantics(tail, p, accts);
        if eval_rule(rs[0], p, accts) is Ok {
            assert(eval_rule(rs[0], p, accts) is Ok);
        } else if rs.len() == 1 {
            assert(!exists|i: int| 0 <= i < rs.len() && #[trigger] eval_rule(rs[i], p, accts) is Ok);
        } else {
            if exists|i: int| 0 <= i < rs.len() && #[trigger] eval_rule(rs[i], p, accts) is Ok {
                let i = choose|i: int| 0 <= i < rs.len() && #[trigger] eval_rule(rs[i], p, accts) is Ok;
                assert(tail[i - 1] == rs[i]);
            }
            if exists|i: int| 0 <= i < tail.len() && #[trigger] eval_rule(tail[i], p, accts) is Ok {
                let i = choose|i: int| 0 <= i < tail.len() && #[trigger] eval_rule(tail[i], p, accts) is Ok;
                assert(tail[i] == rs[i + 1]);
            }
        }
    }
}

/// The two-child case of the combinators: `All{a, b}` passes iff both pass, `Any{a, b}`
/// iff one of them passes; when `a` fails, `All{a, b}` fails as `a` does, whatever `b`.
pub proof fn law_combinator_pair(a: RuleModel, b: RuleModel, p: Payload, accts: Seq<AccountRef>)
    ensures
        eval_rule(RuleModel::All { rules: seq![a, b] }, p, accts) is Ok <==> (eval_rule(a, p, accts) is Ok
            && eval_rule(b, p, accts) is Ok),
        eval_rule(RuleModel::Any { rules: seq![a, b] }, p, accts) is Ok <==> (eval_rule(a, p, accts) is Ok
            || eval_rule(b, p, accts) is Ok),
        eval_rule(a, p, accts) is Err ==> eval_rule(RuleModel::All { rules: seq![a, b] }, p, accts)
            == eval_rule(a, p, accts),
{
    let rs = seq![a, b];
    law_all_semantics(rs, p, accts);
    law_any_semantics(rs, p, accts);
    assert(rs[0] == a && rs[1] == b);
    if eval_rule(a, p, accts) is Ok || eval_rule(b, p, accts) is Ok {
        if eval_rule(a, p, accts) is Ok {
            assert(eval_rule(rs[0], p, accts) is Ok);
        } else {
            assert(eval_rule(rs[1], p, accts) is Ok);
        }
    }
    if eval_rule(a, p, accts) is Err {
        assert(eval_rule(rs[0], p, accts) is Err);
    }
}

/// A `ProgramOwnedList` rule over one payload key that names a known record: it passes
/// when the record's owner is on the allow-list and the record holds data, fails with
/// `DataIsEmpty` when the owner is on the list but the record holds no data, and with
/// `ProgramOwnedListCheckFailed` when the owner is not on the list.
pub proof fn law_program_owned_list(
    field: Seq<u8>,
    programs: Seq<Seq<u8>>,
    p: Payload,
    accts: Seq<AccountRef>,
    target: AccountRef,
)
    requires
        span_len(field_text(field), 0, KEY_SEPARATOR) == field_text(field).len(),
        p.get_spec(field_text(field)) == Some(PayloadType::Pubkey(target.key)),
        crate::eval::find_account(accts, target.key.bytes@) == Some(target),
    ensures
        programs.contains(target.owner.bytes@) && target.data_len > 0 ==> eval_rule(
            RuleModel::ProgramOwnedList { field, programs },
            p,
            accts,
        ) is Ok,
        programs.contains(target.owner.bytes@) && target.data_len == 0 ==> eval_rule(
            RuleModel::ProgramOwnedList { field, programs },
            p,
            accts,
        ) == Err::<(), RuleSetError>(RuleSetError::DataIsEmpty),
        !programs.contains(target.owner.bytes@) ==> eval_rule(
            RuleModel::ProgramOwnedList { field, programs },
            p,
            accts,
        ) == Err::<(), RuleSetError>(RuleSetError::ProgramOwnedListCheckFailed),
{
    let t = field_text(field);
    assert(t.subrange(0, t.len() as int) =~= t);
}

/// An operation absent from the rule set's operation table is denied with
/// `OperationNotFound`, whatever the payload and the records.
pub proof fn law_operation_not_found(
    rs: RuleSetModel,
    op: Seq<u8>,
    p: Payload,
    accts: Seq<AccountRef>,
)
    requires
        forall|i: int| 0 <= i < rs.operations.len() ==> !(op.len() <= 32 && #[trigger] rs.operations[i] == pad32(op)),
    ensures
        validate_spec(rs, op, p, accts) == Err::<(), RuleSetError>(RuleSetError::OperationNotFound),
{
    lemma_find_none(rs.operations, op, 0);
}

proof fn lemma_find_none(ops: Seq<Seq<u8>>, op: Seq<u8>, i: int)
    requires
        0 <= i,
        forall|k: int| 0 <= k < ops.len() ==> !(op.len() <= 32 && #[trigger] ops[k] == pad32(op)),
    ensures
        find_operation(ops, op, i) is None,
    decreases ops.len() - i,
{
    if i < ops.len() {
        lemma_find_none(ops, op, i + 1);
    }
}

/// An `IsWallet` rule always fails with `NotImplemented`, and so does every operation
/// whose governing rule is one, whatever the payload and the records.
pub proof fn law_is_wallet_not_implemented(
    field: Seq<u8>,
    rs: RuleSetModel,
    op: Seq<u8>,
    p: Payload,
    accts: Seq<AccountRef>,
)
    ensures
        eval_rule(RuleModel::IsWallet { field }, p, accts) == Err::<(), RuleSetError>(
            RuleSetError::NotImplemented,
        ),
        rule_for(rs, op) matches Ok(RuleModel::IsWallet { .. }) ==> validate_spec(rs, op, p, accts)
            == Err::<(), RuleSetError>(RuleSetError::NotImplemented),
{
}

} // verus!
