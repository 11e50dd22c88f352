use adnl::queries::{QueriesCache, QueryState};
use adnl::transfer::{Transfer, TransferError, MAX_ADNL_MESSAGE_SIZE};
use sha2::Digest;

fn body(len: usize) -> Vec<u8> {
    (0..len).map(|i| (i * 13 % 256) as u8).collect()
}

fn hash(data: &[u8]) -> [u8; 32] {
    sha2::Sha256::digest(data).into()
}

#[test]
fn transfer_named_by_a_known_hash() {
    // SHA-256 of "abc"
    let id = [
        0xba, 0x78, 0x16, 0xbf, 0x8f, 0x01, 0xcf, 0xea, 0x41, 0x41, 0x40, 0xde, 0x5d, 0xae, 0x22,
        0x23, 0xb0, 0x03, 0x61, 0xa3, 0x96, 0x17, 0x7a, 0x9c, 0xb4, 0x10, 0xff, 0x61, 0xf2, 0x00,
        0x15, 0xad,
    ];
    let mut transfer = Transfer::new(3, 0);
    assert_eq!(transfer.add_part(1, b"bc", &id), Ok(None));
    assert_eq!(transfer.add_part(0, b"a", &id), Ok(Some(b"abc".to_vec())));
}

#[test]
fn parts_in_any_order_with_duplicates_give_the_body() {
    let data = body(5000);
    let id = hash(&data);
    let mut transfer = Transfer::new(5000, 7);
    assert_eq!(transfer.total_size(), 5000);
    let order = [(4000usize, 1000usize), (0, 1000), (4000, 1000), (2000, 1000), (500, 1000),
        (3000, 1000), (0, 1000), (1500, 499)];
    for (offset, len) in order {
        assert_eq!(transfer.add_part(offset, &data[offset..offset + len], &id), Ok(None));
    }
    // one byte is still missing
    assert_eq!(transfer.add_part(1999, &data[1999..2000], &id), Ok(Some(data.clone())));
}

#[test]
fn single_part_transfer_completes_at_once() {
    let data = body(1024);
    let mut transfer = Transfer::new(1024, 0);
    assert_eq!(transfer.add_part(0, &data, &hash(&data)), Ok(Some(data.clone())));
}

#[test]
fn overlapping_parts_are_tolerated() {
    let data = body(100);
    let id = hash(&data);
    let mut transfer = Transfer::new(100, 0);
    assert_eq!(transfer.add_part(0, &data[..60], &id), Ok(None));
    assert_eq!(transfer.add_part(0, &data[..60], &id), Ok(None));
    assert_eq!(transfer.add_part(40, &data[40..], &id), Ok(Some(data)));
}

#[test]
fn wrong_hash_fails_at_completion() {
    let data = body(2000);
    let mut wrong = hash(&data);
    wrong[0] ^= 1;
    let mut transfer = Transfer::new(2000, 0);
    assert_eq!(transfer.add_part(0, &data[..1000], &wrong), Ok(None));
    assert_eq!(transfer.add_part(1000, &data[1000..], &wrong), Err(TransferError::HashMismatch));
    // a part with other bytes than the body has
    let id = hash(&data);
    let mut transfer = Transfer::new(2000, 0);
    assert_eq!(transfer.add_part(0, &data[..1000], &id), Ok(None));
    assert_eq!(transfer.add_part(1000, &data[..1000], &id), Err(TransferError::HashMismatch));
}

#[test]
fn parts_out_of_bounds_are_refused() {
    let data = body(3000);
    let id = hash(&data[..2000]);
    let mut transfer = Transfer::new(2000, 0);
    assert_eq!(transfer.add_part(1500, &data[..501], &id), Err(TransferError::PartOutOfBounds));
    assert_eq!(transfer.add_part(2001, &[], &id), Err(TransferError::PartOutOfBounds));
    assert_eq!(transfer.add_part(usize::MAX, &data[..2], &id), Err(TransferError::PartOutOfBounds));
    assert_eq!(
        transfer.add_part(0, &data[..MAX_ADNL_MESSAGE_SIZE + 1], &id),
        Err(TransferError::PartOutOfBounds)
    );
    // what was refused left no trace
    assert_eq!(transfer.add_part(0, &data[..MAX_ADNL_MESSAGE_SIZE], &id), Ok(None));
    assert_eq!(
        transfer.add_part(MAX_ADNL_MESSAGE_SIZE, &data[MAX_ADNL_MESSAGE_SIZE..2000], &id),
        Ok(Some(data[..2000].to_vec()))
    );
}

#[test]
fn empty_transfer_completes_with_an_empty_part() {
    let id = hash(&[]);
    let mut transfer = Transfer::new(0, 0);
    assert_eq!(transfer.add_part(0, &[], &id), Ok(Some(vec![])));
}

#[test]
fn transfer_expires_when_idle() {
    let mut transfer = Transfer::new(10, 100);
    assert!(!transfer.is_expired(100, 3));
    assert!(!transfer.is_expired(102, 3));
    assert!(transfer.is_expired(103, 3));
    assert!(transfer.is_expired(1000, 3));
    assert!(!transfer.is_expired(99, 3));
    assert!(transfer.is_expired(100, 0));
    transfer.refresh(102);
    assert!(!transfer.is_expired(103, 3));
    assert!(transfer.is_expired(105, 3));
}

#[test]
fn query_is_settled_once() {
    let mut queries = QueriesCache::new();
    let id = [1u8; 32];
    assert!(!queries.update_query(&id, Some(b"early")));
    queries.add_query(id);
    assert_eq!(queries.len(), 1);
    assert_eq!(queries.take_outcome(&id), None);
    assert!(queries.update_query(&id, Some(b"answer")));
    assert!(!queries.update_query(&id, Some(b"second")));
    assert!(!queries.update_query(&id, None));
    assert_eq!(queries.take_outcome(&id), Some(QueryState::Answered(b"answer".to_vec())));
    assert_eq!(queries.take_outcome(&id), None);
    assert_eq!(queries.len(), 0);
    assert!(!queries.update_query(&id, None));
}

#[test]
fn dropped_query_stays_dropped() {
    let mut queries = QueriesCache::new();
    let id = [2u8; 32];
    let other = [3u8; 32];
    queries.add_query(id);
    queries.add_query(other);
    assert!(queries.update_query(&id, None));
    assert!(!queries.update_query(&id, Some(b"late")));
    assert_eq!(queries.take_outcome(&other), None);
    assert_eq!(queries.take_outcome(&id), Some(QueryState::Dropped));
    assert!(queries.update_query(&other, Some(b"")));
    assert_eq!(queries.take_outcome(&other), Some(QueryState::Answered(vec![])));
}

#[test]
fn removed_query_is_unknown() {
    let mut queries = QueriesCache::new();
    let id = [4u8; 32];
    queries.add_query(id);
    queries.remove_query(&id);
    assert_eq!(queries.len(), 0);
    assert!(!queries.update_query(&id, None));
}
