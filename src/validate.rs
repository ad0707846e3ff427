//! Deciding whether an operation is permitted: operation lookup in a rule set, the
//! namespace fallback, and the whole path from a storage record to a decision.
use crate::account::{resolve, resolve_revision};
use crate::bytes::{span_end, span_len};
use crate::error::RuleSetError;
use crate::eval::{eval_rule, AccountRef, Payload, NAMESPACE_SEPARATOR};
use crate::rule::{rule_models, RuleModel, RuleV2};
use crate::rule_set::{name_bytes, parse_rule_set, RuleSetModel, RuleSetV2};
use crate::types::{pad32, text_bytes, Name};
use vstd::prelude::*;

verus! {

/// The first index from `i` on whose operation name is `op`.
pub open spec fn find_operation(ops: Seq<Seq<u8>>, op: Seq<u8>, i: int) -> Option<int>
    decreases ops.len() - i,
{
    if i < 0 || i >= ops.len() {
        None
    } else if op.len() <= 32 && ops[i] == pad32(op) {
        Some(i)
    } else {
        find_operation(ops, op, i + 1)
    }
}

/// The namespace of an operation name: the bytes before its first `:`, if it has one.
pub open spec fn namespace_of(op: Seq<u8>) -> Option<Seq<u8>> {
    let k = span_len(op, 0, NAMESPACE_SEPARATOR);
    if k < op.len() {
        Some(op.subrange(0, k as int))
    } else {
        None
    }
}

/// The rule that governs `op`: its own, or, when its own is `Namespace` and it has a
/// namespace, the rule of its namespace. `OperationNotFound` when either is missing.
pub open spec fn rule_for(rs: RuleSetModel, op: Seq<u8>) -> Result<RuleModel, RuleSetError> {
    match find_operation(rs.operations, op, 0) {
        None => Err(RuleSetError::OperationNotFound),
        Some(i) => {
            let rule = rs.rules[i];
            if rule is Namespace {
                match namespace_of(op) {
                    None => Ok(rule),
                    Some(ns) => match find_operation(rs.operations, ns, 0) {
                        None => Err(RuleSetError::OperationNotFound),
                        Some(k) => Ok(rs.rules[k]),
                    },
                }
            } else {
                Ok(rule)
            }
        },
    }
}

/// The decision for `op` under the rule set `rs`.
pub open spec fn validate_spec(
    rs: RuleSetModel,
    op: Seq<u8>,
    p: Payload,
    accts: Seq<AccountRef>,
) -> Result<(), RuleSetError> {
    match rule_for(rs, op) {
        Err(e) => Err(e),
        Ok(rule) => eval_rule(rule, p, accts),
    }
}

/// The decision for `op` under the requested revision of the record `b`.
pub open spec fn validate_record(
    b: Seq<u8>,
    op: Seq<u8>,
    p: Payload,
    accts: Seq<AccountRef>,
    revision: Option<u64>,
) -> Result<(), RuleSetError> {
    match resolve(b, revision) {
        Err(e) => Err(e),
        Ok((a, c)) => match parse_rule_set(b.subrange(a, c)) {
            Err(e) => Err(e),
            Ok(rs) => validate_spec(rs, op, p, accts),
        },
    }
}

/// A found operation lies in range and carries the name.
pub proof fn lemma_find_operation(ops: Seq<Seq<u8>>, op: Seq<u8>, i: int)
    requires
        find_operation(ops, op, i) is Some,
    ensures
        i <= find_operation(ops, op, i)->Some_0 < ops.len(),
        op.len() <= 32,
        ops[find_operation(ops, op, i)->Some_0] == pad32(op),
    decreases ops.len() - i,
{
    if !(op.len() <= 32 && ops[i] == pad32(op)) {
        lemma_find_operation(ops, op, i + 1);
    }
}

fn find_operation_exec(ops: &Vec<Name>, op: &[u8]) -> (r: Option<usize>)
    ensures
        r matches Some(i) ==> i < ops@.len() && find_operation(name_bytes(ops@), op@, 0) == Some(
            i as int,
        ),
        r is None ==> find_operation(name_bytes(ops@), op@, 0) is None,
{
    let ghost ns = name_bytes(ops@);
    let mut i: usize = 0;
    while i < ops.len()
        invariant
            ns == name_bytes(ops@),
            i <= ops@.len(),
            find_operation(ns, op@, 0) == find_operation(ns, op@, i as int),
        decreases ops@.len() - i,
    {
        if ops[i].matches(op) {
            return Some(i);
        }
        i = i + 1;
    }
    None
}

impl RuleSetV2 {
    /// The rule that governs `operation`.
    pub fn get(&self, operation: &str) -> (r: Result<&RuleV2, RuleSetError>)
        requires
            self.well_formed(),
        ensures
            match rule_for(self.model(), text_bytes(operation@)) {
                Ok(m) => r is Ok && r->Ok_0.model() == m,
                Err(e) => r == Err::<&RuleV2, RuleSetError>(e),
            },
    {
        let op = operation.as_bytes();
        let i = match find_operation_exec(&self.operations, op) {
            None => {
                return Err(RuleSetError::OperationNotFound);
            },
            Some(i) => i,
        };
        let rule = &self.rules[i];
        assert(op@ == text_bytes(operation@));
        assert(find_operation(self.model().operations, op@, 0) == Some(i as int));
        assert(rule_models(self.rules@)[i as int] == rule.model());
        assert(self.model().rules[i as int] == rule.model());
        match &rule.data {
            crate::rule::Assertion::Namespace(_) => {
                assert(rule.model() is Namespace);
                let k = span_end(op, 0, NAMESPACE_SEPARATOR);
                if k >= op.len() {
                    return Ok(rule);
                }
                let ns = vstd::slice::slice_subrange(op, 0, k);
                match find_operation_exec(&self.operations, ns) {
                    None => Err(RuleSetError::OperationNotFound),
                    Some(j) => {
                        proof {
                            lemma_find_operation(name_bytes(self.operations@), ns@, 0);
                        }
                        assert(rule_models(self.rules@)[j as int] == self.rules@[j as int].model());
                        Ok(&self.rules[j])
                    },
                }
            },
            _ => {
                assert(!(rule.model() is Namespace));
                Ok(rule)
            },
        }
    }

    /// Decides whether `operation` is permitted for `payload` and `accounts`.
    pub fn validate(&self, operation: &str, payload: &Payload, accounts: &[AccountRef]) -> (r:
        Result<(), RuleSetError>)
        requires
            self.well_formed(),
        ensures
            r == validate_spec(self.model(), text_bytes(operation@), *payload, accounts@),
    {
        let rule = self.get(operation)?;
        rule.validate(payload, accounts)
    }
}

/// Decides whether `operation` is permitted under the requested revision (`None`: the
/// latest) of the rule set stored in the record `buffer`.
pub fn validate(
    buffer: &[u8],
    operation: &str,
    payload: &Payload,
    accounts: &[AccountRef],
    revision: Option<u64>,
) -> (r: Result<(), RuleSetError>)
    ensures
        r == validate_record(buffer@, text_bytes(operation@), *payload, accounts@, revision),
{
    let (a, c) = match resolve_revision(buffer, revision) {
        Ok(x) => x,
        Err(e) => {
            return Err(e);
        },
    };
    let bytes = vstd::slice::slice_subrange(buffer, a, c);
    let rule_set = match RuleSetV2::from_bytes(bytes) {
        Ok(x) => x,
        Err(e) => {
            return Err(e);
        },
    };
    rule_set.validate(operation, payload, accounts)
}

} // verus!
