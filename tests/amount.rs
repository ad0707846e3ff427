use mpl_token_auth_rules::account::{initialize, publish};
use mpl_token_auth_rules::error::RuleSetError;
use mpl_token_auth_rules::eval::{Payload, PayloadType};
use mpl_token_auth_rules::rule::Amount;
use mpl_token_auth_rules::rule_set::RuleSetV2;
use mpl_token_auth_rules::types::{CompareOp, Pubkey};
use mpl_token_auth_rules::validate::validate;

fn parametric_amount_check(operator: CompareOp, amount: u64, fail_amount: u64, pass_amount: u64) {
    let rule = Amount::serialize(amount, operator, String::from("Amount")).unwrap();
    let rule_set = RuleSetV2::serialize(
        Pubkey::new_from_array([1u8; 32]),
        "test rule_set",
        &["Transfer".to_string()],
        &[rule],
    )
    .unwrap();
    let mut record = vec![0u8; 1024];
    initialize(&mut record).unwrap();
    publish(&mut record, &rule_set).unwrap();

    let mut payload = Payload::new();
    payload.insert("Amount", PayloadType::Number(fail_amount));
    let err = validate(&record, "Transfer", &payload, &[], None);
    assert_eq!(err, Err(RuleSetError::AmountCheckFailed));

    let mut payload = Payload::new();
    payload.insert("Amount", PayloadType::Number(pass_amount));
    assert_eq!(validate(&record, "Transfer", &payload, &[], None), Ok(()));
}

#[test]
fn test_less_than_amount() {
    parametric_amount_check(CompareOp::Lt, 100, 100, 99);
}

#[test]
fn test_less_than_or_equal_to_amount() {
    parametric_amount_check(CompareOp::LtEq, 100, 101, 100);
}

#[test]
fn equal_to_amount_fail_less_than() {
    parametric_amount_check(CompareOp::Eq, 100, 99, 100);
}

#[test]
fn equal_to_amount_fail_greater_than() {
    parametric_amount_check(CompareOp::Eq, 100, 101, 100);
}

#[test]
fn test_greater_than_or_equal_to_amount() {
    parametric_amount_check(CompareOp::GtEq, 100, 99, 100);
}

#[test]
fn test_greater_than_amount() {
    parametric_amount_check(CompareOp::Gt, 100, 100, 101);
}

#[test]
fn amount_payload_errors() {
    let rule = Amount::serialize(5, CompareOp::Eq, String::from("Amount")).unwrap();
    let rule_set =
        RuleSetV2::serialize(Pubkey::default(), "r", &["Transfer".to_string()], &[rule]).unwrap();
    let rule_set = RuleSetV2::from_bytes(&rule_set).unwrap();

    let payload = Payload::new();
    assert_eq!(rule_set.validate("Transfer", &payload, &[]), Err(RuleSetError::MissingPayloadField));

    let mut payload = Payload::new();
    payload.insert("Amount", PayloadType::Pubkey(Pubkey::default()));
    assert_eq!(rule_set.validate("Transfer", &payload, &[]), Err(RuleSetError::InvalidPayloadType));

    payload.insert("Amount", PayloadType::Number(5));
    assert_eq!(rule_set.validate("Transfer", &payload, &[]), Ok(()));
}

#[test]
fn payload_replaces_value_under_key() {
    let mut payload = Payload::new();
    payload.insert("Amount", PayloadType::Number(1));
    payload.insert("Other", PayloadType::Number(3));
    payload.insert("Amount", PayloadType::Number(2));
    assert!(matches!(payload.get(b"Amount"), Some(PayloadType::Number(2))));
    assert!(matches!(payload.get(b"Other"), Some(PayloadType::Number(3))));
    assert!(payload.get(b"Missing").is_none());
}
