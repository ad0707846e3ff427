use mpl_token_auth_rules::error::RuleSetError;
use mpl_token_auth_rules::rule::{All, Amount, Any, Assertion, IsWallet, Namespace, ProgramOwnedList, RuleV2};
use mpl_token_auth_rules::types::{AssertType, CompareOp, Pubkey, FIELD_LENGTH};

#[test]
fn rule_test_create_amount() {
    let amount = Amount::serialize(1, CompareOp::Eq, String::from("Destination")).unwrap();

    let rule = RuleV2::from_bytes(&amount).unwrap();

    assert_eq!(rule.header.length(), 48);
}

#[test]
fn test_create_program_owned_list() {
    let programs = &[Pubkey::default(), Pubkey::default()];

    let program_owned = ProgramOwnedList::serialize(String::from("Destination"), programs).unwrap();

    let rule = RuleV2::from_bytes(&program_owned).unwrap();
    println!("{:?}", rule);

    assert_eq!(rule.header.length(), 96);
}

#[test]
fn test_create_large_program_owned_list() {
    const SIZE: usize = 1000;

    let mut programs = Vec::new();

    for _ in 0..SIZE {
        programs.push(Pubkey::default());
    }

    let program_owned =
        ProgramOwnedList::serialize(String::from("Destination"), programs.as_mut_slice()).unwrap();

    let rule = RuleV2::from_bytes(&program_owned).unwrap();

    assert_eq!(rule.header.length(), FIELD_LENGTH + (SIZE * 32));
}

#[test]
fn test_create_any() {
    let programs_list1 = &[Pubkey::default()];
    let program_owned1 = ProgramOwnedList::serialize(String::from("Destination"), programs_list1).unwrap();

    let programs_list2 = &[Pubkey::default(), Pubkey::default(), Pubkey::default()];
    let program_owned2 = ProgramOwnedList::serialize(String::from("Destination"), programs_list2).unwrap();

    let any = Any::serialize(&[&program_owned1, &program_owned2]).unwrap();

    let rule = RuleV2::from_bytes(&any).unwrap();

    println!("{:?}", rule);

    assert_eq!(rule.header.length(), 8 + program_owned1.len() + program_owned2.len());
}

fn padded(s: &str) -> [u8; 32] {
    let mut out = [0u8; 32];
    out[..s.len()].copy_from_slice(s.as_bytes());
    out
}

#[test]
fn amount_encoding_is_little_endian_and_exact() {
    let bytes = Amount::serialize(0x0102, CompareOp::GtEq, String::from("Amount")).unwrap();
    assert_eq!(bytes.len(), 56);
    assert_eq!(&bytes[0..4], &[3, 0, 0, 0]);
    assert_eq!(&bytes[4..8], &[48, 0, 0, 0]);
    assert_eq!(&bytes[8..16], &[2, 1, 0, 0, 0, 0, 0, 0]);
    assert_eq!(&bytes[16..24], &[3, 0, 0, 0, 0, 0, 0, 0]);
    assert_eq!(&bytes[24..56], &padded("Amount"));
}

#[test]
fn amount_round_trip() {
    let bytes = Amount::serialize(42, CompareOp::Lt, String::from("Amount")).unwrap();
    let rule = RuleV2::from_bytes(&bytes).unwrap();
    assert_eq!(rule.assert_type(), AssertType::Amount);
    match &rule.data {
        Assertion::Amount(a) => {
            assert_eq!(a.amount, 42);
            assert_eq!(a.operator, CompareOp::Lt);
            assert_eq!(a.field.value, padded("Amount"));
        }
        _ => panic!("not an amount"),
    }
    let payload = Amount::from_bytes(&bytes[8..]).unwrap();
    assert_eq!(payload.amount, 42);
}

#[test]
fn program_owned_list_round_trip() {
    let a = Pubkey::new_from_array([7u8; 32]);
    let b = Pubkey::new_from_array([9u8; 32]);
    let bytes = ProgramOwnedList::serialize(String::from("Source|Destination"), &[a, b]).unwrap();
    assert_eq!(bytes.len(), 8 + 32 + 64);
    let rule = RuleV2::from_bytes(&bytes).unwrap();
    match &rule.data {
        Assertion::ProgramOwnedList(l) => {
            assert_eq!(l.field.value, padded("Source|Destination"));
            assert_eq!(l.programs, vec![a, b]);
        }
        _ => panic!("not a program-owned list"),
    }
    let payload = ProgramOwnedList::from_bytes(&bytes[8..]).unwrap();
    assert_eq!(payload.programs.len(), 2);
}

#[test]
fn nested_combinators_round_trip() {
    let amount = Amount::serialize(1, CompareOp::Eq, String::from("Amount")).unwrap();
    let wallet = IsWallet::serialize(String::from("Source")).unwrap();
    let namespace = Namespace::serialize().unwrap();
    let any = Any::serialize(&[&wallet, &namespace]).unwrap();
    let all = All::serialize(&[&amount, &any]).unwrap();
    assert_eq!(all.len(), 8 + 8 + amount.len() + any.len());
    let rule = RuleV2::from_bytes(&all).unwrap();
    assert_eq!(rule.assert_type(), AssertType::All);
    match &rule.data {
        Assertion::All(a) => {
            assert_eq!(a.size, 2);
            assert_eq!(a.rules[0].assert_type(), AssertType::Amount);
            assert_eq!(a.rules[1].assert_type(), AssertType::Any);
            match &a.rules[1].data {
                Assertion::Any(inner) => {
                    assert_eq!(inner.size, 2);
                    assert_eq!(inner.rules[0].assert_type(), AssertType::IsWallet);
                    assert_eq!(inner.rules[1].assert_type(), AssertType::Namespace);
                }
                _ => panic!("not an any"),
            }
        }
        _ => panic!("not an all"),
    }
    let children = All::from_bytes(&all[8..]).unwrap();
    assert_eq!(children.rules.len(), 2);
    let any_children = Any::from_bytes(&any[8..]).unwrap();
    assert_eq!(any_children.size, 2);
}

#[test]
fn namespace_and_is_wallet_encodings() {
    let namespace = Namespace::serialize().unwrap();
    assert_eq!(namespace, vec![7, 0, 0, 0, 0, 0, 0, 0]);
    let wallet = IsWallet::serialize(String::from("Source")).unwrap();
    assert_eq!(wallet.len(), 40);
    assert_eq!(&wallet[0..8], &[6, 0, 0, 0, 32, 0, 0, 0]);
}

#[test]
fn empty_combinator_is_refused() {
    let none: [&[u8]; 0] = [];
    assert_eq!(Any::serialize(&none).unwrap_err(), RuleSetError::DataIsEmpty);
    assert_eq!(All::serialize(&none).unwrap_err(), RuleSetError::DataIsEmpty);
}

#[test]
fn unknown_kind_is_malformed() {
    let mut bytes = Namespace::serialize().unwrap();
    bytes[0] = 99;
    assert_eq!(RuleV2::from_bytes(&bytes).unwrap_err(), RuleSetError::MalformedHeader);
}

#[test]
fn short_buffer_is_truncated() {
    let bytes = Amount::serialize(1, CompareOp::Eq, String::from("Amount")).unwrap();
    assert_eq!(RuleV2::from_bytes(&bytes[..5]).unwrap_err(), RuleSetError::TruncatedBuffer);
    assert_eq!(RuleV2::from_bytes(&bytes[..40]).unwrap_err(), RuleSetError::TruncatedBuffer);
}

#[test]
fn declared_length_mismatch_is_rejected() {
    let mut bytes = Amount::serialize(1, CompareOp::Eq, String::from("Amount")).unwrap();
    bytes[4] = 47;
    assert_eq!(RuleV2::from_bytes(&bytes).unwrap_err(), RuleSetError::MalformedHeader);

    let amount = Amount::serialize(1, CompareOp::Eq, String::from("Amount")).unwrap();
    let mut any = Any::serialize(&[&amount]).unwrap();
    any.push(0);
    any[4] += 1;
    assert_eq!(RuleV2::from_bytes(&any).unwrap_err(), RuleSetError::MalformedHeader);
}

#[test]
fn unknown_operator_is_malformed() {
    let mut bytes = Amount::serialize(1, CompareOp::Eq, String::from("Amount")).unwrap();
    bytes[16] = 5;
    assert_eq!(RuleV2::from_bytes(&bytes).unwrap_err(), RuleSetError::MalformedHeader);
}

#[test]
fn header_reports_kind() {
    let bytes = Namespace::serialize().unwrap();
    let rule = RuleV2::from_bytes(&bytes).unwrap();
    assert_eq!(rule.header.assert_type(), Ok(AssertType::Namespace));
    assert_eq!(rule.length(), 8);
}

#[test]
fn error_codes_are_stable() {
    assert_eq!(RuleSetError::MalformedHeader.code(), 0);
    assert_eq!(RuleSetError::DataIsEmpty.code(), 7);
    assert_eq!(RuleSetError::OperationNotFound.code(), 8);
    assert_eq!(RuleSetError::AmountCheckFailed.code(), 11);
    assert_eq!(RuleSetError::ProgramOwnedListCheckFailed.code(), 12);
    assert_eq!(RuleSetError::NotImplemented.code(), 13);
}
