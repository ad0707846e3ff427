use mpl_token_auth_rules::error::RuleSetError;
use mpl_token_auth_rules::rule::{Amount, ProgramOwnedList};
use mpl_token_auth_rules::rule_set::RuleSetV2;
use mpl_token_auth_rules::types::{CompareOp, Pubkey};

#[test]
fn rule_set_test_create_amount() {
    let amount = Amount::serialize(1, CompareOp::Eq, String::from("Destination")).unwrap();

    let programs = &[Pubkey::default(), Pubkey::default()];

    let program_owned = ProgramOwnedList::serialize(String::from("Destination"), programs).unwrap();

    let serialized = RuleSetV2::serialize(
        Pubkey::default(),
        "Royalties",
        &["deletage_transfer".to_string(), "transfer".to_string()],
        &[amount, program_owned],
    )
    .unwrap();

    let rule_set = RuleSetV2::from_bytes(&serialized).unwrap();
    println!("{:?}", rule_set);

    assert_eq!(rule_set.operations.len(), 2);
    assert_eq!(rule_set.rules.len(), 2);
}

fn padded(s: &str) -> [u8; 32] {
    let mut out = [0u8; 32];
    out[..s.len()].copy_from_slice(s.as_bytes());
    out
}

#[test]
fn rule_set_round_trip_keeps_fields() {
    let owner = Pubkey::new_from_array([5u8; 32]);
    let amount = Amount::serialize(3, CompareOp::LtEq, String::from("Amount")).unwrap();
    let serialized =
        RuleSetV2::serialize(owner, "Royalties", &["Transfer".to_string()], &[amount.clone()]).unwrap();
    assert_eq!(serialized.len(), 32 + 32 + 8 + 32 + amount.len());
    let rule_set = RuleSetV2::from_bytes(&serialized).unwrap();
    assert_eq!(rule_set.owner, owner);
    assert_eq!(rule_set.rule_set_name.value, padded("Royalties"));
    assert_eq!(rule_set.data.lib_version(), 2);
    assert_eq!(rule_set.data.size(), 1);
    assert_eq!(rule_set.operations[0].value, padded("Transfer"));
    assert_eq!(rule_set.rules[0].length() as usize, amount.len());
}

#[test]
fn rule_set_without_operations() {
    let owner = Pubkey::new_from_array([1u8; 32]);
    let empty: [String; 0] = [];
    let no_rules: [Vec<u8>; 0] = [];
    assert_eq!(
        RuleSetV2::serialize(owner, "second_rule_set", &empty, &no_rules).unwrap_err(),
        RuleSetError::DataIsEmpty
    );
    let serialized = RuleSetV2::serialize_empty(owner, "second_rule_set");
    assert_eq!(serialized.len(), 72);
    let rule_set = RuleSetV2::from_bytes(&serialized).unwrap();
    assert_eq!(rule_set.data.size(), 0);
    assert!(rule_set.operations.is_empty());
    assert!(rule_set.rules.is_empty());
    assert_eq!(rule_set.rule_set_name.value, padded("second_rule_set"));
}

#[test]
fn truncated_rule_set_is_rejected() {
    let amount = Amount::serialize(3, CompareOp::LtEq, String::from("Amount")).unwrap();
    let serialized =
        RuleSetV2::serialize(Pubkey::default(), "r", &["Transfer".to_string()], &[amount]).unwrap();
    assert_eq!(RuleSetV2::from_bytes(&serialized[..71]).unwrap_err(), RuleSetError::TruncatedBuffer);
    assert_eq!(RuleSetV2::from_bytes(&serialized[..90]).unwrap_err(), RuleSetError::TruncatedBuffer);
    assert_eq!(
        RuleSetV2::from_bytes(&serialized[..serialized.len() - 1]).unwrap_err(),
        RuleSetError::TruncatedBuffer
    );
}
