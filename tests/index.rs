use client_index::codec::{address_key_bytes, decode_entries, encode_entries};
use client_index::service::{read_entries, remove_first, Error, UnspentTransactionService, KEYSPACE};
use client_index::storage::{MemoryStorage, Storage};
use client_index::types::{Coin, ExtendedAddr, TxoPointer};

fn pointer(byte: u8, index: u64) -> TxoPointer {
    TxoPointer::new([byte; 32], index)
}

fn service() -> UnspentTransactionService<MemoryStorage> {
    UnspentTransactionService::new(MemoryStorage::new())
}

#[test]
fn fresh_address_reads_empty() {
    let index = service();
    let a = ExtendedAddr::OrTree([1; 32]);
    let b = ExtendedAddr::BasicRedeem([1; 20]);
    assert!(index.get(&a).unwrap().is_empty());
    assert!(index.get(&b).unwrap().is_empty());
}

#[test]
fn add_puts_pair_last() {
    let mut index = service();
    let a = ExtendedAddr::OrTree([2; 32]);
    index.add(&a, (pointer(1, 0), Coin(10))).unwrap();
    index.add(&a, (pointer(2, 3), Coin(20))).unwrap();
    let got = index.get(&a).unwrap();
    assert_eq!(got.len(), 2);
    assert_eq!(got[1], (pointer(2, 3), Coin(20)));
    assert_eq!(got[0], (pointer(1, 0), Coin(10)));
}

#[test]
fn add_twice_keeps_duplicates() {
    let mut index = service();
    let a = ExtendedAddr::OrTree([3; 32]);
    index.add(&a, (pointer(5, 1), Coin(7))).unwrap();
    index.add(&a, (pointer(5, 1), Coin(7))).unwrap();
    assert_eq!(index.get(&a).unwrap(), vec![(pointer(5, 1), Coin(7)), (pointer(5, 1), Coin(7))]);
}

#[test]
fn remove_takes_first_match_only() {
    let mut index = service();
    let a = ExtendedAddr::BasicRedeem([4; 20]);
    index.add(&a, (pointer(1, 0), Coin(1))).unwrap();
    index.add(&a, (pointer(9, 9), Coin(2))).unwrap();
    index.add(&a, (pointer(2, 0), Coin(3))).unwrap();
    index.add(&a, (pointer(9, 9), Coin(4))).unwrap();
    index.remove(&a, &pointer(9, 9)).unwrap();
    assert_eq!(
        index.get(&a).unwrap(),
        vec![(pointer(1, 0), Coin(1)), (pointer(2, 0), Coin(3)), (pointer(9, 9), Coin(4))]
    );
}

#[test]
fn remove_matches_index_as_well_as_id() {
    let mut index = service();
    let a = ExtendedAddr::OrTree([5; 32]);
    index.add(&a, (pointer(1, 0), Coin(1))).unwrap();
    index.remove(&a, &pointer(1, 1)).unwrap();
    assert_eq!(index.get(&a).unwrap(), vec![(pointer(1, 0), Coin(1))]);
}

#[test]
fn remove_absent_leaves_list() {
    let mut index = service();
    let a = ExtendedAddr::OrTree([6; 32]);
    index.add(&a, (pointer(1, 0), Coin(1))).unwrap();
    index.remove(&a, &pointer(3, 0)).unwrap();
    assert_eq!(index.get(&a).unwrap(), vec![(pointer(1, 0), Coin(1))]);
}

#[test]
fn remove_on_fresh_address_stores_empty_list() {
    let mut index = service();
    let a = ExtendedAddr::OrTree([7; 32]);
    index.remove(&a, &pointer(3, 0)).unwrap();
    assert!(index.get(&a).unwrap().is_empty());
}

#[test]
fn add_get_remove_get_round_trip() {
    let mut index = service();
    let a = ExtendedAddr::OrTree([8; 32]);
    index.add(&a, (pointer(1, 0), Coin(11))).unwrap();
    let before = index.get(&a).unwrap();
    index.add(&a, (pointer(2, 0), Coin(22))).unwrap();
    let mid = index.get(&a).unwrap();
    assert_eq!(mid.last(), Some(&(pointer(2, 0), Coin(22))));
    index.remove(&a, &pointer(2, 0)).unwrap();
    assert_eq!(index.get(&a).unwrap(), before);
}

#[test]
fn addresses_are_kept_apart() {
    let mut index = service();
    let a = ExtendedAddr::OrTree([9; 32]);
    let b = ExtendedAddr::OrTree([10; 32]);
    let c = ExtendedAddr::BasicRedeem([9; 20]);
    index.add(&a, (pointer(1, 0), Coin(1))).unwrap();
    assert!(index.get(&b).unwrap().is_empty());
    assert!(index.get(&c).unwrap().is_empty());
}

#[test]
fn scenario_add_add_remove_remove() {
    let mut index = service();
    let a1 = ExtendedAddr::OrTree([11; 32]);
    let p1 = pointer(1, 0);
    let p2 = pointer(2, 0);
    let p3 = pointer(3, 0);
    assert!(index.get(&a1).unwrap().is_empty());
    index.add(&a1, (p1, Coin(100))).unwrap();
    assert_eq!(index.get(&a1).unwrap(), vec![(p1, Coin(100))]);
    index.add(&a1, (p2, Coin(50))).unwrap();
    assert_eq!(index.get(&a1).unwrap(), vec![(p1, Coin(100)), (p2, Coin(50))]);
    index.remove(&a1, &p1).unwrap();
    assert_eq!(index.get(&a1).unwrap(), vec![(p2, Coin(50))]);
    index.remove(&a1, &p3).unwrap();
    assert_eq!(index.get(&a1).unwrap(), vec![(p2, Coin(50))]);
}

#[test]
fn corrupt_bytes_are_a_deserialization_error() {
    let a = ExtendedAddr::OrTree([12; 32]);
    let mut store = MemoryStorage::new();
    store.set(KEYSPACE, address_key_bytes(&a), vec![1, 2, 3]).unwrap();
    let mut index = UnspentTransactionService::new(store);
    assert!(matches!(index.get(&a), Err(Error::DeserializationError)));
    assert!(matches!(index.add(&a, (pointer(1, 0), Coin(1))), Err(Error::DeserializationError)));
    assert!(matches!(index.remove(&a, &pointer(1, 0)), Err(Error::DeserializationError)));
}

#[test]
fn announced_rows_missing_are_a_deserialization_error() {
    let a = ExtendedAddr::BasicRedeem([13; 20]);
    let mut store = MemoryStorage::new();
    store.set(KEYSPACE, address_key_bytes(&a), vec![1, 0, 0, 0, 0, 0, 0, 0]).unwrap();
    let index = UnspentTransactionService::new(store);
    assert!(matches!(index.get(&a), Err(Error::DeserializationError)));
}

#[test]
fn stored_empty_list_reads_empty() {
    let a = ExtendedAddr::BasicRedeem([14; 20]);
    let mut store = MemoryStorage::new();
    store.set(KEYSPACE, address_key_bytes(&a), vec![0; 8]).unwrap();
    let index = UnspentTransactionService::new(store);
    assert!(index.get(&a).unwrap().is_empty());
}

#[test]
fn address_keys_are_tagged() {
    let mut redeem = vec![0u8, 0, 0, 0];
    redeem.extend_from_slice(&[3u8; 20]);
    assert_eq!(address_key_bytes(&ExtendedAddr::BasicRedeem([3; 20])), redeem);
    let mut tree = vec![1u8, 0, 0, 0];
    tree.extend_from_slice(&[3u8; 32]);
    assert_eq!(address_key_bytes(&ExtendedAddr::OrTree([3; 32])), tree);
}

#[test]
fn encoding_lays_out_length_then_rows() {
    let list = vec![(pointer(0xab, 0x0102), Coin(0x0304))];
    let bytes = encode_entries(&list).unwrap();
    let mut expected = vec![1u8, 0, 0, 0, 0, 0, 0, 0];
    expected.extend_from_slice(&[0xab; 32]);
    expected.extend_from_slice(&[0x02, 0x01, 0, 0, 0, 0, 0, 0]);
    expected.extend_from_slice(&[0x04, 0x03, 0, 0, 0, 0, 0, 0]);
    assert_eq!(bytes, expected);
    assert_eq!(encode_entries(&Vec::new()).unwrap(), vec![0u8; 8]);
}

#[test]
fn decoding_reverses_encoding_and_ignores_trailing_bytes() {
    let list = vec![(pointer(1, 2), Coin(3)), (pointer(4, 5), Coin(6))];
    let mut bytes = encode_entries(&list).unwrap();
    assert_eq!(bytes.len(), 8 + 2 * 48);
    assert_eq!(decode_entries(&bytes), Some(list.clone()));
    bytes.push(0xff);
    assert_eq!(decode_entries(&bytes), Some(list));
    assert_eq!(decode_entries(&bytes[..8 + 47]), None);
    assert_eq!(decode_entries(&[0u8; 7]), None);
}

#[test]
fn read_entries_tells_absent_from_corrupt() {
    assert!(read_entries::<()>(None).unwrap().is_empty());
    assert!(matches!(read_entries::<()>(Some(vec![9])), Err(Error::DeserializationError)));
    let list = vec![(pointer(7, 7), Coin(70))];
    let bytes = encode_entries(&list).unwrap();
    assert_eq!(read_entries::<()>(Some(bytes)).unwrap(), list);
}

#[test]
fn remove_first_on_plain_list() {
    let mut list = vec![(pointer(1, 0), Coin(1)), (pointer(2, 0), Coin(2)), (pointer(1, 0), Coin(3))];
    remove_first(&mut list, &pointer(1, 0));
    assert_eq!(list, vec![(pointer(2, 0), Coin(2)), (pointer(1, 0), Coin(3))]);
    remove_first(&mut list, &pointer(5, 0));
    assert_eq!(list, vec![(pointer(2, 0), Coin(2)), (pointer(1, 0), Coin(3))]);
}

#[test]
fn memory_storage_replaces_and_separates_keyspaces() {
    let mut store = MemoryStorage::new();
    assert_eq!(store.get("a", &[1]).unwrap(), None);
    store.set("a", vec![1], vec![10]).unwrap();
    store.set("b", vec![1], vec![20]).unwrap();
    store.set("a", vec![1], vec![30]).unwrap();
    assert_eq!(store.get("a", &[1]).unwrap(), Some(vec![30]));
    assert_eq!(store.get("b", &[1]).unwrap(), Some(vec![20]));
    assert_eq!(store.get("a", &[2]).unwrap(), None);
}

#[test]
fn default_index_is_empty() {
    let mut index: UnspentTransactionService<MemoryStorage> = UnspentTransactionService::default();
    let a = ExtendedAddr::OrTree([15; 32]);
    assert!(index.get(&a).unwrap().is_empty());
    index.add(&a, (pointer(1, 0), Coin(1))).unwrap();
    assert_eq!(index.get(&a).unwrap(), vec![(pointer(1, 0), Coin(1))]);
}

#[test]
fn remove_ignores_amount_when_matching() {
    let mut index = service();
    let a = ExtendedAddr::OrTree([16; 32]);
    index.add(&a, (pointer(1, 0), Coin(100))).unwrap();
    index.add(&a, (pointer(2, 0), Coin(50))).unwrap();
    index.add(&a, (pointer(1, 0), Coin(7))).unwrap();
    index.remove(&a, &pointer(1, 0)).unwrap();
    assert_eq!(index.get(&a).unwrap(), vec![(pointer(2, 0), Coin(50)), (pointer(1, 0), Coin(7))]);
}
