//! Building the encoding of each kind of rule node.
use crate::bytes::{
    append_u32, append_u64, concat_all, lemma_concat_all_push, slice_views, u32_le, u64_le,
};
use crate::error::RuleSetError;
use crate::rule::{
    encode_rule, pubkey_bytes, All, Amount, Any, IsWallet, Namespace, ProgramOwnedList, RuleModel,
    AMOUNT_PAYLOAD_LENGTH,
};
use crate::types::{pad32, pad_bytes, text_bytes, AssertType, CompareOp, Pubkey};
use vstd::prelude::*;

verus! {

/// Appends the 32-byte, zero-padded field holding `field`.
fn append_field(data: &mut Vec<u8>, field: &String)
    requires
        text_bytes(field@).len() <= 32,
    ensures
        final(data)@ == old(data)@ + pad32(text_bytes(field@)),
{
    let bytes = pad_bytes(field.as_str().as_bytes());
    data.extend_from_slice(bytes.as_slice());
}

/// The encoding of a combinator of kind `kind` over already encoded nodes.
pub open spec fn combinator_bytes(kind: AssertType, rules: Seq<Seq<u8>>) -> Seq<u8> {
    u32_le(kind.spec_code()) + u32_le((8 + concat_all(rules).len()) as u32) + u64_le(
        rules.len() as u64,
    ) + concat_all(rules)
}

/// What encoding a combinator over `rules` gives: `DataIsEmpty` for no rules,
/// `NumericalOverflow` when the payload length does not fit 32 bits.
pub open spec fn combinator_result(kind: AssertType, rules: Seq<Seq<u8>>) -> Result<
    Seq<u8>,
    RuleSetError,
> {
    if rules.len() == 0 {
        Err(RuleSetError::DataIsEmpty)
    } else if 8 + concat_all(rules).len() > u32::MAX {
        Err(RuleSetError::NumericalOverflow)
    } else {
        Ok(combinator_bytes(kind, rules))
    }
}

/// Whether `r` holds the bytes that `expected` gives, or its error.
pub open spec fn encoded_as(
    r: Result<Vec<u8>, RuleSetError>,
    expected: Result<Seq<u8>, RuleSetError>,
) -> bool {
    match expected {
        Ok(b) => r is Ok && r->Ok_0@ == b,
        Err(e) => r == Err::<Vec<u8>, RuleSetError>(e),
    }
}

fn serialize_combinator(kind: AssertType, rules: &[&[u8]]) -> (r: Result<Vec<u8>, RuleSetError>)
    ensures
        encoded_as(r, combinator_result(kind, slice_views(rules@))),
{
    let ghost views = slice_views(rules@);
    if rules.len() == 0 {
        return Err(RuleSetError::DataIsEmpty);
    }
    let mut total: u64 = 0;
    let mut i: usize = 0;
    assert(views.subrange(0, 0) =~= Seq::<Seq<u8>>::empty());
    while i < rules.len()
        invariant
            views == slice_views(rules@),
            i <= rules@.len(),
            total == concat_all(views.subrange(0, i as int)).len(),
            total + 8 <= u32::MAX,
        decreases rules@.len() - i,
    {
        proof {
            lemma_concat_all_push(views.subrange(0, i as int), views[i as int]);
            assert(views.subrange(0, i + 1) =~= views.subrange(0, i as int).push(views[i as int]));
        }
        let n = rules[i].len() as u64;
        if n > (u32::MAX - 8) as u64 - total {
            proof {
                crate::bytes::lemma_concat_all_prefix_len(views, i + 1);
            }
            return Err(RuleSetError::NumericalOverflow);
        }
        total = total + n;
        i = i + 1;
    }
    assert(views.subrange(0, i as int) =~= views);
    let mut data: Vec<u8> = Vec::new();
    append_u32(&mut data, kind.code());
    append_u32(&mut data, (8 + total) as u32);
    append_u64(&mut data, rules.len() as u64);
    let ghost head = data@;
    let mut j: usize = 0;
    assert(head + concat_all(views.subrange(0, 0)) =~= head);
    while j < rules.len()
        invariant
            views == slice_views(rules@),
            j <= rules@.len(),
            data@ == head + concat_all(views.subrange(0, j as int)),
        decreases rules@.len() - j,
    {
        proof {
            lemma_concat_all_push(views.subrange(0, j as int), views[j as int]);
            assert(views.subrange(0, j + 1) =~= views.subrange(0, j as int).push(views[j as int]));
        }
        data.extend_from_slice(rules[j]);
        j = j + 1;
    }
    assert(views.subrange(0, j as int) =~= views);
    assert(data@ =~= combinator_bytes(kind, views));
    Ok(data)
}

impl Amount {
    /// Encodes an `Amount` node comparing the payload number under `field` with `amount`.
    pub fn serialize(amount: u64, operator: CompareOp, field: String) -> (r: Result<
        Vec<u8>,
        RuleSetError,
    >)
        requires
            text_bytes(field@).len() <= 32,
        ensures
            r is Ok,
            r->Ok_0@ == encode_rule(
                RuleModel::Amount { amount, operator, field: pad32(text_bytes(field@)) },
            ),
    {
        let mut data: Vec<u8> = Vec::new();
        append_u32(&mut data, AssertType::Amount.code());
        append_u32(&mut data, AMOUNT_PAYLOAD_LENGTH as u32);
        append_u64(&mut data, amount);
        append_u64(&mut data, operator.code());
        append_field(&mut data, &field);
        let ghost m = RuleModel::Amount { amount, operator, field: pad32(text_bytes(field@)) };
        assert(data@ =~= encode_rule(m));
        Ok(data)
    }
}

impl ProgramOwnedList {
    /// Encodes a `ProgramOwnedList` node over the payload keys in `field` (separated by
    /// `|`) and the allowed owners `programs`; fails with `NumericalOverflow` when the
    /// payload length does not fit 32 bits.
    pub fn serialize(field: String, programs: &[Pubkey]) -> (r: Result<Vec<u8>, RuleSetError>)
        requires
            text_bytes(field@).len() <= 32,
        ensures
            32 + 32 * programs@.len() > u32::MAX ==> r == Err::<Vec<u8>, RuleSetError>(
                RuleSetError::NumericalOverflow,
            ),
            32 + 32 * programs@.len() <= u32::MAX ==> r is Ok && r->Ok_0@ == encode_rule(
                RuleModel::ProgramOwnedList {
                    field: pad32(text_bytes(field@)),
                    programs: pubkey_bytes(programs@),
                },
            ),
    {
        if programs.len() > ((u32::MAX - 32) / 32) as usize {
            return Err(RuleSetError::NumericalOverflow);
        }
        let length = (32 + 32 * programs.len()) as u32;
        let mut data: Vec<u8> = Vec::new();
        append_u32(&mut data, AssertType::ProgramOwnedList.code());
        append_u32(&mut data, length);
        append_field(&mut data, &field);
        let ghost head = data@;
        let ghost keys = pubkey_bytes(programs@);
        let mut i: usize = 0;
        assert(head + concat_all(keys.subrange(0, 0)) =~= head);
        while i < programs.len()
            invariant
                keys == pubkey_bytes(programs@),
                i <= programs@.len(),
                data@ == head + concat_all(keys.subrange(0, i as int)),
            decreases programs@.len() - i,
        {
            proof {
                lemma_concat_all_push(keys.subrange(0, i as int), keys[i as int]);
                assert(keys.subrange(0, i + 1) =~= keys.subrange(0, i as int).push(keys[i as int]));
            }
            data.extend_from_slice(programs[i].bytes.as_slice());
            i = i + 1;
        }
        assert(keys.subrange(0, i as int) =~= keys);
        proof {
            crate::bytes::lemma_concat_all_len32(keys);
        }
        let ghost m = RuleModel::ProgramOwnedList { field: pad32(text_bytes(field@)), programs: keys };
        assert(data@ =~= encode_rule(m));
        Ok(data)
    }
}

impl Any {
    /// Encodes an `Any` node over already encoded nodes; fails with `DataIsEmpty` for no
    /// nodes and with `NumericalOverflow` when the payload length does not fit 32 bits.
    pub fn serialize(rules: &[&[u8]]) -> (r: Result<Vec<u8>, RuleSetError>)
        ensures
            encoded_as(r, combinator_result(AssertType::Any, slice_views(rules@))),
    {
        serialize_combinator(AssertType::Any, rules)
    }
}

impl All {
    /// Encodes an `All` node over already encoded nodes; fails with `DataIsEmpty` for no
    /// nodes and with `NumericalOverflow` when the payload length does not fit 32 bits.
    pub fn serialize(rules: &[&[u8]]) -> (r: Result<Vec<u8>, RuleSetError>)
        ensures
            encoded_as(r, combinator_result(AssertType::All, slice_views(rules@))),
    {
        serialize_combinator(AssertType::All, rules)
    }
}

impl IsWallet {
    /// Encodes an `IsWallet` node over the payload key `field`.
    pub fn serialize(field: String) -> (r: Result<Vec<u8>, RuleSetError>)
        requires
            text_bytes(field@).len() <= 32,
        ensures
            r is Ok,
            r->Ok_0@ == encode_rule(RuleModel::IsWallet { field: pad32(text_bytes(field@)) }),
    {
        let mut data: Vec<u8> = Vec::new();
        append_u32(&mut data, AssertType::IsWallet.code());
        append_u32(&mut data, 32);
        append_field(&mut data, &field);
        let ghost m = RuleModel::IsWallet { field: pad32(text_bytes(field@)) };
        assert(data@ =~= encode_rule(m));
        Ok(data)
    }
}

impl Namespace {
    /// Encodes a `Namespace` node.
    pub fn serialize() -> (r: Result<Vec<u8>, RuleSetError>)
        ensures
            r is Ok,
            r->Ok_0@ == encode_rule(RuleModel::Namespace),
    {
        let mut data: Vec<u8> = Vec::new();
        append_u32(&mut data, AssertType::Namespace.code());
        append_u32(&mut data, 0);
        assert(data@ =~= encode_rule(RuleModel::Namespace));
        Ok(data)
    }
}

} // verus!
