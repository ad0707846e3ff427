use mpl_token_auth_rules::account::{initialize, publish, RULE_SET_KEY};
use mpl_token_auth_rules::error::RuleSetError;
use mpl_token_auth_rules::eval::{AccountRef, Payload, PayloadType};
use mpl_token_auth_rules::rule::{All, Amount, IsWallet, Namespace, ProgramOwnedList};
use mpl_token_auth_rules::rule_set::RuleSetV2;
use mpl_token_auth_rules::types::{CompareOp, Pubkey};
use mpl_token_auth_rules::validate::validate;

const RULE_SET_NAME: &str = "Metaplex Royalty RuleSet Dev";

fn key(n: u8) -> Pubkey {
    Pubkey::new_from_array([n; 32])
}

const SYSTEM_PROGRAM: u8 = 0;
const ROOSTER_PROGRAM: u8 = 201;
const TOKEN_METADATA_PROGRAM: u8 = 202;
const TOKEN_AUTH_RULES: u8 = 203;
const TOKEN_PROGRAM: u8 = 204;

fn allow_list() -> Vec<Pubkey> {
    let mut programs = vec![key(TOKEN_METADATA_PROGRAM), key(ROOSTER_PROGRAM), key(TOKEN_AUTH_RULES)];
    for i in 0..18u8 {
        programs.push(key(100 + i));
    }
    programs
}

fn get_royalty_rule_set(owner: Pubkey, omit: &str) -> Vec<u8> {
    let nft_amount = Amount::serialize(1, CompareOp::Eq, "Amount".to_string()).unwrap();
    let multi_field_program_allow_list =
        ProgramOwnedList::serialize("Source|Destination|Authority".to_string(), &allow_list()).unwrap();
    let source_is_wallet = IsWallet::serialize("Source".to_string()).unwrap();
    let dest_is_wallet = IsWallet::serialize("Destination".to_string()).unwrap();
    let delegate_program_allow_list =
        ProgramOwnedList::serialize("Delegate".to_string(), &allow_list()).unwrap();

    let transfer_rule = All::serialize(&[&nft_amount, &multi_field_program_allow_list]).unwrap();
    let wallet_to_wallet_rule =
        All::serialize(&[&nft_amount, &source_is_wallet, &dest_is_wallet]).unwrap();
    let delegate_rule = All::serialize(&[&nft_amount, &delegate_program_allow_list]).unwrap();
    let namespace_rule = Namespace::serialize().unwrap();

    let table: Vec<(&str, &Vec<u8>)> = vec![
        ("Transfer", &transfer_rule),
        ("Transfer:Owner", &namespace_rule),
        ("Transfer:TransferDelegate", &namespace_rule),
        ("Transfer:SaleDelegate", &namespace_rule),
        ("Transfer:MigrationDelegate", &namespace_rule),
        ("Transfer:WalletToWallet", &wallet_to_wallet_rule),
        ("Delegate", &delegate_rule),
        ("Delegate:Authority", &namespace_rule),
        ("Delegate:Collection", &namespace_rule),
        ("Delegate:Sale", &namespace_rule),
        ("Delegate:LockedTransfer", &delegate_rule),
    ];

    let mut operations = Vec::new();
    let mut rules = Vec::new();
    for (operation, rule) in table {
        if omit != operation {
            operations.push(operation.to_string());
            rules.push(rule.clone());
        }
    }
    RuleSetV2::serialize(owner, RULE_SET_NAME, &operations, &rules).unwrap()
}

fn create_record(omit: &str) -> Vec<u8> {
    let mut record = vec![0u8; 8192];
    initialize(&mut record).unwrap();
    let rule_set = get_royalty_rule_set(key(1), omit);
    publish(&mut record, &rule_set).unwrap();
    record
}

fn wallet(n: u8) -> AccountRef {
    AccountRef { key: key(n), owner: key(SYSTEM_PROGRAM), data_len: 0 }
}

fn program_owned(n: u8, owner: u8, data_len: u64) -> AccountRef {
    AccountRef { key: key(n), owner: key(owner), data_len }
}

fn transfer_payload(amount: u64, source: u8, destination: u8, authority: u8) -> Payload {
    let mut payload = Payload::new();
    payload.insert("Amount", PayloadType::Number(amount));
    payload.insert("Source", PayloadType::Pubkey(key(source)));
    payload.insert("Destination", PayloadType::Pubkey(key(destination)));
    payload.insert("Authority", PayloadType::Pubkey(key(authority)));
    payload
}

#[test]
fn create_rule_set() {
    let record = create_record("");
    assert_eq!(u32::from_le_bytes([record[0], record[1], record[2], record[3]]), RULE_SET_KEY);
}

#[test]
fn create_rule_set_v2() {
    let record = create_record("");
    let key_bytes = [record[0], record[1], record[2], record[3]];
    assert_eq!(u32::from_le_bytes(key_bytes), RULE_SET_KEY);
}

#[test]
fn wallet_to_wallet_unimplemented() {
    let record = create_record("");
    let mut payload = Payload::new();
    payload.insert("Amount", PayloadType::Number(1));
    payload.insert("Source", PayloadType::Pubkey(key(10)));
    payload.insert("Destination", PayloadType::Pubkey(key(11)));
    let accounts = [wallet(10), wallet(11)];
    let err = validate(&record, "Transfer:WalletToWallet", &payload, &accounts, None);
    assert_eq!(err, Err(RuleSetError::NotImplemented));
}

#[test]
fn wallet_to_prog_owned() {
    let record = create_record("");
    let payload = transfer_payload(1, 10, 50, 12);
    let accounts = [wallet(10), program_owned(50, TOKEN_AUTH_RULES, 4096), wallet(12)];
    assert_eq!(validate(&record, "Transfer:Owner", &payload, &accounts, None), Ok(()));
}

#[test]
fn wallet_to_prog_owned_missing_namespace() {
    let record = create_record("Transfer:Owner");
    let payload = transfer_payload(1, 10, 50, 12);
    let accounts = [wallet(10), program_owned(50, TOKEN_AUTH_RULES, 4096), wallet(12)];
    let err = validate(&record, "Transfer:Owner", &payload, &accounts, None);
    assert_eq!(err, Err(RuleSetError::OperationNotFound));
}

#[test]
fn wallet_to_prog_owned_no_default() {
    let record = create_record("Transfer");
    let payload = transfer_payload(1, 10, 50, 12);
    let accounts = [wallet(10), program_owned(50, TOKEN_AUTH_RULES, 4096), wallet(12)];
    let err = validate(&record, "Transfer:Owner", &payload, &accounts, None);
    assert_eq!(err, Err(RuleSetError::OperationNotFound));
}

#[test]
fn prog_owned_to_prog_owned() {
    let record = create_record("");
    let second = RuleSetV2::serialize_empty(key(1), "second_rule_set");
    assert_eq!(second.len(), 72);
    let payload = transfer_payload(1, 50, 51, 12);
    let accounts = [
        program_owned(50, TOKEN_AUTH_RULES, 4096),
        program_owned(51, TOKEN_AUTH_RULES, second.len() as u64),
        wallet(12),
    ];
    assert_eq!(validate(&record, "Transfer:TransferDelegate", &payload, &accounts, None), Ok(()));
}

#[test]
fn prog_owned_to_wallet() {
    let record = create_record("");
    let payload = transfer_payload(1, 50, 50, 12);
    let accounts = [program_owned(50, TOKEN_AUTH_RULES, 4096), wallet(11), wallet(12)];
    assert_eq!(validate(&record, "Transfer:SaleDelegate", &payload, &accounts, None), Ok(()));
}

#[test]
fn wrong_amount_fails() {
    let record = create_record("");
    let payload = transfer_payload(2, 50, 11, 12);
    let accounts = [program_owned(50, TOKEN_AUTH_RULES, 4096), wallet(11), wallet(12)];
    let err = validate(&record, "Transfer:SaleDelegate", &payload, &accounts, None);
    assert_eq!(err, Err(RuleSetError::AmountCheckFailed));
}

#[test]
fn prog_owner_not_on_list_fails() {
    let record = create_record("");
    let payload = transfer_payload(1, 10, 60, 12);
    let accounts = [wallet(10), program_owned(60, TOKEN_PROGRAM, 165), wallet(12)];
    let err = validate(&record, "Transfer:Owner", &payload, &accounts, None);
    assert_eq!(err, Err(RuleSetError::ProgramOwnedListCheckFailed));
}

#[test]
fn prog_owned_but_zero_data_length() {
    let record = create_record("");
    let payload = transfer_payload(1, 10, 61, 12);
    let accounts = [wallet(10), program_owned(61, TOKEN_AUTH_RULES, 0), wallet(12)];
    let err = validate(&record, "Transfer:Owner", &payload, &accounts, None);
    assert_eq!(err, Err(RuleSetError::DataIsEmpty));
}

#[test]
fn unknown_operation_is_denied_whatever_the_payload() {
    let record = create_record("");
    let payload = transfer_payload(1, 50, 50, 12);
    let accounts = [program_owned(50, TOKEN_AUTH_RULES, 4096), wallet(12)];
    let err = validate(&record, "Burn", &payload, &accounts, None);
    assert_eq!(err, Err(RuleSetError::OperationNotFound));
    let err = validate(&record, "Burn", &Payload::new(), &[], None);
    assert_eq!(err, Err(RuleSetError::OperationNotFound));
}

#[test]
fn delegate_rule_reads_single_key() {
    let record = create_record("");
    let mut payload = Payload::new();
    payload.insert("Amount", PayloadType::Number(1));
    payload.insert("Delegate", PayloadType::Pubkey(key(70)));
    let accounts = [program_owned(70, ROOSTER_PROGRAM, 10)];
    assert_eq!(validate(&record, "Delegate:Authority", &payload, &accounts, None), Ok(()));
    let accounts = [wallet(70)];
    assert_eq!(
        validate(&record, "Delegate:LockedTransfer", &payload, &accounts, None),
        Err(RuleSetError::ProgramOwnedListCheckFailed)
    );
    assert_eq!(
        validate(&record, "Delegate:Authority", &payload, &[], None),
        Err(RuleSetError::MissingAccount)
    );
}

#[test]
fn all_and_any_combinators() {
    let one = Amount::serialize(1, CompareOp::Eq, "Amount".to_string()).unwrap();
    let pol = ProgramOwnedList::serialize("Destination".to_string(), &[key(TOKEN_AUTH_RULES)]).unwrap();
    let all = All::serialize(&[&one, &pol]).unwrap();
    let any = mpl_token_auth_rules::rule::Any::serialize(&[&one, &pol]).unwrap();
    let rule_set = RuleSetV2::serialize(
        key(1),
        "combinators",
        &["All".to_string(), "Any".to_string()],
        &[all, any],
    )
    .unwrap();
    let rule_set = RuleSetV2::from_bytes(&rule_set).unwrap();
    let accounts = [program_owned(50, TOKEN_AUTH_RULES, 8), program_owned(51, TOKEN_PROGRAM, 8)];

    let mut payload = Payload::new();
    payload.insert("Amount", PayloadType::Number(1));
    payload.insert("Destination", PayloadType::Pubkey(key(50)));
    assert_eq!(rule_set.validate("All", &payload, &accounts), Ok(()));
    assert_eq!(rule_set.validate("Any", &payload, &accounts), Ok(()));

    payload.insert("Amount", PayloadType::Number(2));
    assert_eq!(rule_set.validate("All", &payload, &accounts), Err(RuleSetError::AmountCheckFailed));
    assert_eq!(rule_set.validate("Any", &payload, &accounts), Ok(()));

    payload.insert("Destination", PayloadType::Pubkey(key(51)));
    assert_eq!(rule_set.validate("All", &payload, &accounts), Err(RuleSetError::AmountCheckFailed));
    assert_eq!(
        rule_set.validate("Any", &payload, &accounts),
        Err(RuleSetError::ProgramOwnedListCheckFailed)
    );
}

#[test]
fn pinned_revision_keeps_old_policy() {
    let mut record = vec![0u8; 8192];
    initialize(&mut record).unwrap();
    let strict = Amount::serialize(1, CompareOp::Eq, "Amount".to_string()).unwrap();
    let loose = Amount::serialize(10, CompareOp::LtEq, "Amount".to_string()).unwrap();
    let first = RuleSetV2::serialize(key(1), "pin", &["Transfer".to_string()], &[strict]).unwrap();
    let second = RuleSetV2::serialize(key(1), "pin", &["Transfer".to_string()], &[loose]).unwrap();
    assert_eq!(publish(&mut record, &first), Ok(0));
    assert_eq!(publish(&mut record, &second), Ok(1));
    let mut payload = Payload::new();
    payload.insert("Amount", PayloadType::Number(5));
    assert_eq!(validate(&record, "Transfer", &payload, &[], None), Ok(()));
    assert_eq!(validate(&record, "Transfer", &payload, &[], Some(1)), Ok(()));
    assert_eq!(
        validate(&record, "Transfer", &payload, &[], Some(0)),
        Err(RuleSetError::AmountCheckFailed)
    );
    assert_eq!(
        validate(&record, "Transfer", &payload, &[], Some(2)),
        Err(RuleSetError::RevisionNotFound)
    );
}
