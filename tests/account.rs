use mpl_token_auth_rules::account::{
    initialize, publish, resolve_revision, AccountHeader, AccountRevisionMap, Revision,
};
use mpl_token_auth_rules::error::RuleSetError;
use mpl_token_auth_rules::rule::Amount;
use mpl_token_auth_rules::rule_set::RuleSetV2;
use mpl_token_auth_rules::types::{CompareOp, Pubkey};

fn rule_set_bytes(amount: u64) -> Vec<u8> {
    let rule = Amount::serialize(amount, CompareOp::Eq, String::from("Amount")).unwrap();
    RuleSetV2::serialize(Pubkey::default(), "pinning", &["Transfer".to_string()], &[rule]).unwrap()
}

#[test]
fn revision_pinning_after_two_publishes() {
    let mut buf = vec![0u8; 1024];
    initialize(&mut buf).unwrap();
    let first = rule_set_bytes(1);
    let second = rule_set_bytes(2);
    assert_eq!(publish(&mut buf, &first), Ok(0));
    assert_eq!(publish(&mut buf, &second), Ok(1));

    let (a, c) = resolve_revision(&buf, Some(0)).unwrap();
    assert_eq!(&buf[a..c], &first[..]);
    let rule_set = RuleSetV2::from_bytes(&buf[a..c]).unwrap();
    assert_eq!(rule_set.data.size(), 1);

    let (a, c) = resolve_revision(&buf, None).unwrap();
    assert_eq!(&buf[a..c], &second[..]);
    assert_eq!(resolve_revision(&buf, Some(1)), Ok((a, c)));
    assert_eq!(resolve_revision(&buf, Some(2)), Err(RuleSetError::RevisionNotFound));
}

#[test]
fn layout_after_publish() {
    let mut buf = vec![0u8; 512];
    initialize(&mut buf).unwrap();
    let first = rule_set_bytes(1);
    publish(&mut buf, &first).unwrap();
    let header = AccountHeader::from_bytes(&buf).unwrap();
    assert_eq!(header.key(), 1);
    assert_eq!(header.map_location(), 8 + first.len());
    let ml = header.map_location();
    assert_eq!(buf[ml], 1);
    let map = AccountRevisionMap::from_bytes_mut(&buf[ml + 1..]).unwrap();
    assert_eq!(map.size, 1);
    assert_eq!(map.revisions.len(), 2);
    assert_eq!(map.revisions[0].offset(), 8);
    assert_eq!(map.revisions[0].legnth(), first.len());
}

#[test]
fn empty_record_has_no_revision() {
    let mut buf = vec![0u8; 64];
    initialize(&mut buf).unwrap();
    assert_eq!(resolve_revision(&buf, None), Err(RuleSetError::RevisionNotFound));
    assert_eq!(resolve_revision(&buf, Some(0)), Err(RuleSetError::RevisionNotFound));
}

#[test]
fn publish_into_small_record_fails() {
    let mut buf = vec![0u8; 190];
    initialize(&mut buf).unwrap();
    let before = buf.clone();
    let first = rule_set_bytes(1);
    assert_eq!(publish(&mut buf, &first), Err(RuleSetError::BufferTooSmall));
    assert_eq!(buf, before);
    let mut tiny = vec![0u8; 24];
    assert_eq!(initialize(&mut tiny), Err(RuleSetError::BufferTooSmall));
}

#[test]
fn record_of_another_kind_is_refused() {
    let buf = vec![0u8; 64];
    assert_eq!(resolve_revision(&buf, None), Err(RuleSetError::KeyMismatch));
    let mut other = vec![0u8; 64];
    initialize(&mut other).unwrap();
    other[8] = 2;
    assert_eq!(resolve_revision(&other, None), Err(RuleSetError::IncompatibleRevisionMap));
}

#[test]
fn header_and_entry_setters() {
    let mut header = AccountHeader { data: [0, 0] };
    header.set_key(1);
    header.set_map_location(77);
    assert_eq!(header.key(), 1);
    assert_eq!(header.map_location(), 77);
    let mut rev = Revision { data: [0, 0] };
    rev.set_offset(8);
    rev.set_length(100);
    assert_eq!(rev.offset(), 8);
    assert_eq!(rev.legnth(), 100);
}
