use tx_validation::attribute::{TxAccess, TxAccessPolicy, TxAttributes};
use tx_validation::balance_service::{BalanceChange, BalanceService, ExtendedAddr};
use tx_validation::coin::{Coin, CoinError, MAX_COIN};
use tx_validation::error::ErrorKind;
use tx_validation::global_state_service::GlobalStateService;
use tx_validation::storage::{MemoryStorage, Storage};
use tx_validation::wallet_service::WalletService;

#[test]
fn balance_service_check_flow() {
    let mut balance_service = BalanceService::new(MemoryStorage::default());
    let address = ExtendedAddr::BasicRedeem(Default::default());

    assert_eq!(Coin::zero(), balance_service.get(&address).unwrap());

    assert!(balance_service
        .change(&address, &BalanceChange::Incoming(Coin::new(30).unwrap()))
        .is_ok());
    assert_eq!(
        Coin::new(30).unwrap(),
        balance_service.get(&address).unwrap()
    );

    assert!(balance_service
        .change(&address, &BalanceChange::Outgoing(Coin::new(20).unwrap()))
        .is_ok());
    assert_eq!(
        Coin::new(10).unwrap(),
        balance_service.get(&address).unwrap()
    );

    assert!(balance_service.clear().is_ok());
    assert_eq!(Coin::zero(), balance_service.get(&address).unwrap());
}

#[test]
fn global_state_service_check_flow() {
    let mut global_state_service = GlobalStateService::new(MemoryStorage::default());

    assert_eq!(None, global_state_service.last_block_height().unwrap());
    assert_eq!(None, global_state_service.set_last_block_height(5).unwrap());
    assert_eq!(
        5,
        global_state_service.last_block_height().unwrap().unwrap()
    );
    assert!(global_state_service.clear().is_ok());
    assert_eq!(None, global_state_service.last_block_height().unwrap());
}

#[test]
fn global_state_returns_previous_height() {
    let mut service = GlobalStateService::new(MemoryStorage::new());
    assert_eq!(None, service.set_last_block_height(7).unwrap());
    assert_eq!(Some(7), service.set_last_block_height(u64::MAX).unwrap());
    assert_eq!(Some(u64::MAX), service.last_block_height().unwrap());
}

#[test]
fn stored_height_is_little_endian() {
    let mut service = GlobalStateService::new(MemoryStorage::new());
    service.set_last_block_height(0x0102).unwrap();
    let key = b"last_block_height".to_vec();
    let stored = service.storage.get(&key).unwrap().unwrap();
    assert_eq!(vec![2u8, 1, 0, 0, 0, 0, 0, 0], stored);
}

#[test]
fn balance_outgoing_beyond_balance_fails() {
    let mut service = BalanceService::new(MemoryStorage::new());
    let address = ExtendedAddr::OrTree([7u8; 32]);
    service
        .change(&address, &BalanceChange::Incoming(Coin::new(5).unwrap()))
        .unwrap();
    assert_eq!(
        Err(ErrorKind::BalanceAdditionError),
        service.change(&address, &BalanceChange::Outgoing(Coin::new(6).unwrap()))
    );
    assert_eq!(5, service.get(&address).unwrap().value());
}

#[test]
fn balance_incoming_beyond_supply_fails() {
    let mut service = BalanceService::new(MemoryStorage::new());
    let address = ExtendedAddr::BasicRedeem([1u8; 20]);
    service
        .change(&address, &BalanceChange::Incoming(Coin::new(MAX_COIN).unwrap()))
        .unwrap();
    assert_eq!(
        Err(ErrorKind::BalanceAdditionError),
        service.change(&address, &BalanceChange::Incoming(Coin::new(1).unwrap()))
    );
    assert_eq!(MAX_COIN, service.get(&address).unwrap().value());
}

#[test]
fn balance_undecodable_value_is_an_error() {
    let mut service = BalanceService::new(MemoryStorage::new());
    let address = ExtendedAddr::BasicRedeem([0u8; 20]);
    let mut key = vec![0u8];
    key.extend_from_slice(&[0u8; 20]);
    service.storage.set(&key, vec![1, 2, 3]).unwrap();
    assert_eq!(Err(ErrorKind::DeserializationError), service.get(&address));
}

#[test]
fn coin_bounds() {
    assert_eq!(Err(CoinError::OutOfBound), Coin::new(MAX_COIN + 1));
    assert_eq!(MAX_COIN, Coin::new(MAX_COIN).unwrap().value());
    assert_eq!(
        Err(CoinError::Negative),
        Coin::new(1).unwrap().checked_sub(&Coin::new(2).unwrap())
    );
    assert_eq!(vec![30u8, 0, 0, 0, 0, 0, 0, 0], Coin::new(30).unwrap().encode());
    assert_eq!(Some(Coin::new(258).unwrap()), Coin::decode(&[2, 1, 0, 0, 0, 0, 0, 0]));
    assert_eq!(None, Coin::decode(&[2, 1, 0]));
    assert_eq!(None, Coin::decode(&[0xff; 8]));
}

#[test]
fn wallet_names_and_clear() {
    let mut storage = MemoryStorage::new();
    storage.set(b"alice", vec![1]).unwrap();
    storage.set(b"bob", vec![2]).unwrap();
    let mut service = WalletService::new(storage);
    let mut names = service.names().unwrap();
    names.sort();
    assert_eq!(vec!["alice".to_string(), "bob".to_string()], names);
    assert!(service.clear().is_ok());
    assert!(service.names().unwrap().is_empty());
}

#[test]
fn wallet_name_not_utf8_is_an_error() {
    let mut storage = MemoryStorage::new();
    storage.set(&[0xff, 0xfe], vec![1]).unwrap();
    let service = WalletService::new(storage);
    assert_eq!(Err(ErrorKind::DeserializationError), service.names());
}

#[test]
fn attributes_constructors() {
    let a = TxAttributes::new(0xab);
    assert_eq!(0xab, a.chain_hex_id);
    assert!(a.allowed_view.is_empty());
    let b = TxAttributes::new_with_access(1, Vec::new());
    assert_eq!(TxAttributes::new(1), b);
}

#[test]
fn attributes_round_trip() {
    let a = TxAttributes::new_with_access(
        0x2a,
        vec![
            TxAccessPolicy { view_key: vec![2u8; 33], access: TxAccess::AllData },
            TxAccessPolicy { view_key: vec![3u8; 33], access: TxAccess::AllData },
        ],
    );
    let bytes = a.encode();
    assert_eq!(&[0u8, 2, 0x2a, 8], &bytes[..4]);
    assert_eq!(4 + 2 * 34, bytes.len());
    assert_eq!(Some((a, bytes.len())), TxAttributes::decode(&bytes));
    assert_eq!(vec![0u8, 2, 7, 0], TxAttributes::new(7).encode());
}

#[test]
fn attributes_wrong_pair_or_access_rejected() {
    assert_eq!(None, TxAttributes::decode(&[1, 2, 7, 0]));
    assert_eq!(None, TxAttributes::decode(&[0, 3, 7, 0]));
    assert_eq!(None, TxAttributes::decode(&[0, 2]));
    let mut bytes = vec![0u8, 2, 7, 4];
    bytes.extend_from_slice(&[2u8; 33]);
    bytes.push(1);
    assert_eq!(None, TxAttributes::decode(&bytes));
}
