//! Evaluating a rule against a payload and the auxiliary records it names.
use crate::bytes::{bytes_eq, span_end, span_len};
use crate::error::RuleSetError;
use crate::rule::{rule_models, Assertion, RuleModel, RuleV2};
use crate::types::{text_bytes, CompareOp, Name, Pubkey};
use vstd::prelude::*;

verus! {

/// A typed value of the payload.
#[derive(Clone, Debug)]
pub enum PayloadType {
    Number(u64),
    Pubkey(Pubkey),
    Seeds(Vec<Vec<u8>>),
}

/// The per-call keyed values that rules read. A later entry under a key replaces an
/// earlier one.
#[derive(Clone, Debug)]
pub struct Payload {
    pub entries: Vec<(Vec<u8>, PayloadType)>,
}

/// The value of the last entry of `es` under `key`.
pub open spec fn lookup_last(es: Seq<(Vec<u8>, PayloadType)>, key: Seq<u8>) -> Option<PayloadType>
    decreases es.len(),
{
    if es.len() == 0 {
        None
    } else if es.last().0@ == key {
        Some(es.last().1)
    } else {
        lookup_last(es.drop_last(), key)
    }
}

impl Payload {
    /// The value under `key`.
    pub open spec fn get_spec(&self, key: Seq<u8>) -> Option<PayloadType> {
        lookup_last(self.entries@, key)
    }

    /// A payload with no value.
    pub fn new() -> (r: Payload)
        ensures
            forall|k: Seq<u8>| r.get_spec(k) is None,
    {
        Payload { entries: Vec::new() }
    }

    /// Stores `value` under `key`, replacing what was there.
    pub fn insert(&mut self, key: &str, value: PayloadType)
        ensures
            forall|k: Seq<u8>|
                #[trigger] final(self).get_spec(k) == if k == text_bytes(key@) {
                    Some(value)
                } else {
                    old(self).get_spec(k)
                },
    {
        let k = vstd::slice::slice_to_vec(key.as_bytes());
        self.entries.push((k, value));
        assert forall|q: Seq<u8>| #[trigger] self.get_spec(q) == if q == text_bytes(key@) {
            Some(value)
        } else {
            old(self).get_spec(q)
        } by {
            assert(self.entries@.drop_last() =~= old(self).entries@);
        }
    }

    /// The value under `key`.
    pub fn get(&self, key: &[u8]) -> (r: Option<&PayloadType>)
        ensures
            match r {
                Some(v) => self.get_spec(key@) == Some(*v),
                None => self.get_spec(key@) is None,
            },
    {
        let mut i = self.entries.len();
        assert(self.entries@.subrange(0, i as int) =~= self.entries@);
        while i > 0
            invariant
                i <= self.entries@.len(),
                self.get_spec(key@) == lookup_last(self.entries@.subrange(0, i as int), key@),
            decreases i,
        {
            let ghost pre = self.entries@.subrange(0, i as int);
            assert(pre.drop_last() =~= self.entries@.subrange(0, i - 1));
            i = i - 1;
            if bytes_eq(self.entries[i].0.as_slice(), key) {
                return Some(&self.entries[i].1);
            }
        }
        None
    }
}

/// What the caller knows of an auxiliary record: its address, the program owning it and
/// the length of its data.
#[derive(Clone, Copy, Debug)]
pub struct AccountRef {
    pub key: Pubkey,
    pub owner: Pubkey,
    pub data_len: u64,
}

/// The first record of `accts` at the address `key`.
pub open spec fn find_account(accts: Seq<AccountRef>, key: Seq<u8>) -> Option<AccountRef>
    decreases accts.len(),
{
    if accts.len() == 0 {
        None
    } else if accts[0].key.bytes@ == key {
        Some(accts[0])
    } else {
        find_account(accts.subrange(1, accts.len() as int), key)
    }
}

/// The payload key written in a field: its bytes before the first zero.
pub open spec fn field_text(f: Seq<u8>) -> Seq<u8> {
    f.subrange(0, span_len(f, 0, 0) as int)
}

/// The byte that separates the payload keys of a `ProgramOwnedList` field.
pub const KEY_SEPARATOR: u8 = 0x7c;

/// The byte that separates an operation's namespace from the rest of its name.
pub const NAMESPACE_SEPARATOR: u8 = 0x3a;

/// Whether the record under payload key `key` is owned by one of `programs`: `Ok(true)`
/// when it is and holds data, `DataIsEmpty` when it is but holds none, `Ok(false)` when
/// it is not; `MissingPayloadField`, `InvalidPayloadType` or `MissingAccount` when the
/// key names no record.
pub open spec fn check_owner(
    key: Seq<u8>,
    programs: Seq<Seq<u8>>,
    p: Payload,
    accts: Seq<AccountRef>,
) -> Result<bool, RuleSetError> {
    match p.get_spec(key) {
        None => Err(RuleSetError::MissingPayloadField),
        Some(PayloadType::Pubkey(k)) => match find_account(accts, k.bytes@) {
            None => Err(RuleSetError::MissingAccount),
            Some(a) => if programs.contains(a.owner.bytes@) {
                if a.data_len == 0 {
                    Err(RuleSetError::DataIsEmpty)
                } else {
                    Ok(true)
                }
            } else {
                Ok(false)
            },
        },
        Some(_) => Err(RuleSetError::InvalidPayloadType),
    }
}

/// Checks the keys of the `|`-separated text `t` from `start` on, in order, until one
/// names a record owned by one of `programs`.
pub open spec fn eval_owned_list(
    t: Seq<u8>,
    start: int,
    programs: Seq<Seq<u8>>,
    p: Payload,
    accts: Seq<AccountRef>,
) -> Result<(), RuleSetError>
    decreases t.len() - start,
{
    let e = start + span_len(t, start, KEY_SEPARATOR);
    match check_owner(t.subrange(start, e), programs, p, accts) {
        Err(x) => Err(x),
        Ok(true) => Ok(()),
        Ok(false) => if start < 0 || e >= t.len() {
            Err(RuleSetError::ProgramOwnedListCheckFailed)
        } else {
            eval_owned_list(t, e + 1, programs, p, accts)
        },
    }
}

/// Compares the payload number under `field` with `amount`.
pub open spec fn eval_amount(amount: u64, operator: CompareOp, field: Seq<u8>, p: Payload) -> Result<
    (),
    RuleSetError,
> {
    match p.get_spec(field_text(field)) {
        None => Err(RuleSetError::MissingPayloadField),
        Some(PayloadType::Number(v)) => if operator.holds(v, amount) {
            Ok(())
        } else {
            Err(RuleSetError::AmountCheckFailed)
        },
        Some(_) => Err(RuleSetError::InvalidPayloadType),
    }
}

/// The outcome of evaluating `m`.
pub open spec fn eval_rule(m: RuleModel, p: Payload, accts: Seq<AccountRef>) -> Result<
    (),
    RuleSetError,
>
    decreases m,
{
    match m {
        RuleModel::Amount { amount, operator, field } => eval_amount(amount, operator, field, p),
        RuleModel::All { rules } => eval_all(rules, p, accts),
        RuleModel::Any { rules } => eval_any(rules, p, accts),
        RuleModel::ProgramOwnedList { field, programs } => eval_owned_list(
            field_text(field),
            0,
            programs,
            p,
            accts,
        ),
        RuleModel::IsWallet { .. } => Err(RuleSetError::NotImplemented),
        RuleModel::Namespace => Ok(()),
    }
}

/// Evaluates `rs` in order and stops at the first failure, which it returns.
pub open spec fn eval_all(rs: Seq<RuleModel>, p: Payload, accts: Seq<AccountRef>) -> Result<
    (),
    RuleSetError,
>
    decreases rs,
{
    if rs.len() == 0 {
        Ok(())
    } else {
        match eval_rule(rs[0], p, accts) {
            Err(e) => Err(e),
            Ok(()) => eval_all(rs.subrange(1, rs.len() as int), p, accts),
        }
    }
}

/// Evaluates `rs` in order and stops at the first pass; when all fail, returns the last
/// failure (`DataIsEmpty` when there is no rule).
pub open spec fn eval_any(rs: Seq<RuleModel>, p: Payload, accts: Seq<AccountRef>) -> Result<
    (),
    RuleSetError,
>
    decreases rs,
{
    if rs.len() == 0 {
        Err(RuleSetError::DataIsEmpty)
    } else {
        match eval_rule(rs[0], p, accts) {
            Ok(()) => Ok(()),
            Err(e) => if rs.len() == 1 {
                Err(e)
            } else {
                eval_any(rs.subrange(1, rs.len() as int), p, accts)
            },
        }
    }
}

/// Whether the address `k` is one of `programs`.
fn contains_key(programs: &Vec<Pubkey>, k: &Pubkey) -> (r: bool)
    ensures
        r == crate::rule::pubkey_bytes(programs@).contains(k.bytes@),
{
    let ghost ps = crate::rule::pubkey_bytes(programs@);
    let mut i: usize = 0;
    while i < programs.len()
        invariant
            ps == crate::rule::pubkey_bytes(programs@),
            i <= programs@.len(),
            forall|j: int| 0 <= j < i ==> ps[j] != k.bytes@,
        decreases programs@.len() - i,
    {
        if programs[i].same(k) {
            assert(ps[i as int] == k.bytes@);
            return true;
        }
        i = i + 1;
    }
    false
}

/// The first record of `accts` at the address `key`.
fn find_account_exec(accts: &[AccountRef], key: &Pubkey) -> (r: Option<AccountRef>)
    ensures
        r == find_account(accts@, key.bytes@),
{
    let mut i: usize = 0;
    assert(accts@.subrange(0, accts@.len() as int) =~= accts@);
    while i < accts.len()
        invariant
            i <= accts@.len(),
            find_account(accts@, key.bytes@) == find_account(
                accts@.subrange(i as int, accts@.len() as int),
                key.bytes@,
            ),
        decreases accts@.len() - i,
    {
        let ghost rest = accts@.subrange(i as int, accts@.len() as int);
        assert(rest.subrange(1, rest.len() as int) =~= accts@.subrange(i + 1, accts@.len() as int));
        if accts[i].key.same(key) {
            return Some(accts[i]);
        }
        i = i + 1;
    }
    assert(accts@.subrange(i as int, accts@.len() as int) =~= Seq::<AccountRef>::empty());
    None
}

/// The bytes of a field up to its first zero.
fn field_key(field: &Name) -> (r: &[u8])
    ensures
        r@ == field_text(field.value@),
{
    let end = span_end(field.value.as_slice(), 0, 0);
    vstd::slice::slice_subrange(field.value.as_slice(), 0, end)
}

fn check_owner_exec(key: &[u8], programs: &Vec<Pubkey>, payload: &Payload, accounts: &[AccountRef]) -> (r:
    Result<bool, RuleSetError>)
    ensures
        r == check_owner(key@, crate::rule::pubkey_bytes(programs@), *payload, accounts@),
{
    match payload.get(key) {
        None => Err(RuleSetError::MissingPayloadField),
        Some(PayloadType::Pubkey(k)) => match find_account_exec(accounts, k) {
            None => Err(RuleSetError::MissingAccount),
            Some(a) => if contains_key(programs, &a.owner) {
                if a.data_len == 0 {
                    Err(RuleSetError::DataIsEmpty)
                } else {
                    Ok(true)
                }
            } else {
                Ok(false)
            },
        },
        Some(_) => Err(RuleSetError::InvalidPayloadType),
    }
}

fn validate_owned_list(field: &Name, programs: &Vec<Pubkey>, payload: &Payload, accounts: &[AccountRef]) -> (r:
    Result<(), RuleSetError>)
    ensures
        r == eval_owned_list(
            field_text(field.value@),
            0,
            crate::rule::pubkey_bytes(programs@),
            *payload,
            accounts@,
        ),
{
    let t = field_key(field);
    let ghost ps = crate::rule::pubkey_bytes(programs@);
    let mut start: usize = 0;
    while start <= t.len()
        invariant
            start <= t@.len(),
            t@ == field_text(field.value@),
            ps == crate::rule::pubkey_bytes(programs@),
            eval_owned_list(t@, 0, ps, *payload, accounts@) == eval_owned_list(
                t@,
                start as int,
                ps,
                *payload,
                accounts@,
            ),
        decreases t@.len() + 1 - start,
    {
        let e = span_end(t, start, KEY_SEPARATOR);
        let key = vstd::slice::slice_subrange(t, start, e);
        match check_owner_exec(key, programs, payload, accounts) {
            Err(x) => {
                return Err(x);
            },
            Ok(true) => {
                return Ok(());
            },
            Ok(false) => {
                if e >= t.len() {
                    return Err(RuleSetError::ProgramOwnedListCheckFailed);
                }
                start = e + 1;
            },
        }
    }
    Err(RuleSetError::ProgramOwnedListCheckFailed)
}

impl RuleV2 {
    /// Evaluates the rule against `payload` and `accounts`.
    pub fn validate(&self, payload: &Payload, accounts: &[AccountRef]) -> (r: Result<(), RuleSetError>)
        ensures
            r == eval_rule(self.model(), *payload, accounts@),
        decreases self,
    {
        match &self.data {
            Assertion::Amount(a) => {
                let key = field_key(&a.field);
                match payload.get(key) {
                    None => Err(RuleSetError::MissingPayloadField),
                    Some(PayloadType::Number(v)) => if a.operator.compare(*v, a.amount) {
                        Ok(())
                    } else {
                        Err(RuleSetError::AmountCheckFailed)
                    },
                    Some(_) => Err(RuleSetError::InvalidPayloadType),
                }
            },
            Assertion::All(a) => {
                let ghost ms = rule_models(a.rules@);
                let mut i: usize = 0;
                assert(ms.subrange(0, ms.len() as int) =~= ms);
                while i < a.rules.len()
                    invariant
                        self.model() == (RuleModel::All { rules: ms }),
                        self.data == Assertion::All(*a),
                        ms == rule_models(a.rules@),
                        i <= a.rules@.len(),
                        eval_all(ms, *payload, accounts@) == eval_all(
                            ms.subrange(i as int, ms.len() as int),
                            *payload,
                            accounts@,
                        ),
                    decreases a.rules@.len() - i,
                {
                    let ghost rest = ms.subrange(i as int, ms.len() as int);
                    assert(rest[0] == a.rules@[i as int].model());
                    assert(rest.subrange(1, rest.len() as int) =~= ms.subrange(i + 1, ms.len() as int));
                    proof {
                        assert(decreases_to!(self => self.data));
                        assert(decreases_to!(self.data => *a));
                        assert(decreases_to!(*a => a.rules));
                        assert(decreases_to!(a.rules => a.rules@));
                        assert(decreases_to!(a.rules@ => a.rules@[i as int]));
                    }
                    match a.rules[i].validate(payload, accounts) {
                        Err(e) => {
                            return Err(e);
                        },
                        Ok(()) => {},
                    }
                    i = i + 1;
                }
                assert(ms.subrange(i as int, ms.len() as int) =~= Seq::<RuleModel>::empty());
                Ok(())
            },
            Assertion::Any(a) => {
                let ghost ms = rule_models(a.rules@);
                if a.rules.len() == 0 {
                    return Err(RuleSetError::DataIsEmpty);
                }
                let mut i: usize = 0;
                assert(ms.subrange(0, ms.len() as int) =~= ms);
                while i < a.rules.len()
                    invariant
                        self.model() == (RuleModel::Any { rules: ms }),
                        self.data == Assertion::Any(*a),
                        ms == rule_models(a.rules@),
                        i < a.rules@.len(),
                        eval_any(ms, *payload, accounts@) == eval_any(
                            ms.subrange(i as int, ms.len() as int),
                            *payload,
                            accounts@,
                        ),
                    decreases a.rules@.len() - i,
                {
                    let ghost rest = ms.subrange(i as int, ms.len() as int);
                    assert(rest[0] == a.rules@[i as int].model());
                    assert(rest.subrange(1, rest.len() as int) =~= ms.subrange(i + 1, ms.len() as int));
                    proof {
                        assert(decreases_to!(self => self.data));
                        assert(decreases_to!(self.data => *a));
                        assert(decreases_to!(*a => a.rules));
                        assert(decreases_to!(a.rules => a.rules@));
                        assert(decreases_to!(a.rules@ => a.rules@[i as int]));
                    }
                    match a.rules[i].validate(payload, accounts) {
                        Ok(()) => {
                            return Ok(());
                        },
                        Err(e) => {
                            if i + 1 == a.rules.len() {
                                return Err(e);
                            }
                        },
                    }
                    i = i + 1;
                }
                Err(RuleSetError::DataIsEmpty)
            },
            Assertion::ProgramOwnedList(l) => validate_owned_list(&l.field, &l.programs, payload, accounts),
            Assertion::IsWallet(_) => Err(RuleSetError::NotImplemented),
            Assertion::Namespace(_) => Ok(()),
        }
    }
}

} // verus!
