use tx_validation::attribute::{TxAccess, TxAccessPolicy, TxAttributes};
use tx_validation::balance_service::ExtendedAddr;
use tx_validation::coin::Coin;
use tx_validation::protocol::TxoPointer;
use tx_validation::storage::{MemoryStorage, Storage};
use tx_validation::transaction::{Transaction, Tx, TxOut};
use tx_validation::transaction_service::TransactionService;

fn sample_tx() -> Tx {
    Tx {
        inputs: vec![
            TxoPointer { id: [1u8; 32], index: 0x0203 },
            TxoPointer { id: [2u8; 32], index: 7 },
        ],
        outputs: vec![
            TxOut {
                address: ExtendedAddr::BasicRedeem([5u8; 20]),
                value: Coin::new(1000).unwrap(),
                valid_from: None,
            },
            TxOut {
                address: ExtendedAddr::OrTree([6u8; 32]),
                value: Coin::new(1).unwrap(),
                valid_from: Some(1_565_000_000),
            },
        ],
        attributes: TxAttributes::new_with_access(
            0xab,
            vec![TxAccessPolicy { view_key: vec![2u8; 33], access: TxAccess::AllData }],
        ),
    }
}

#[test]
fn transaction_service_check_flow() {
    let mut transaction_service = TransactionService::new(MemoryStorage::default());
    let id = [0u8; 32];
    let transaction = Transaction::TransferTransaction(Tx::default());

    assert_eq!(None, transaction_service.get(&id).unwrap());
    assert!(transaction_service.set(&id, &transaction).is_ok());
    assert_eq!(transaction, transaction_service.get(&id).unwrap().unwrap());
    assert!(transaction_service.clear().is_ok());
    assert_eq!(None, transaction_service.get(&id).unwrap());
}

#[test]
fn transaction_round_trip() {
    let t = Transaction::TransferTransaction(sample_tx());
    let bytes = t.encode();
    assert_eq!(Some(t), Transaction::decode(&bytes));
}

#[test]
fn default_transaction_layout() {
    let bytes = Transaction::TransferTransaction(Tx::default()).encode();
    // variant, no inputs, no outputs, attributes (0, 2, chain id 0, no keys)
    assert_eq!(vec![0u8, 0, 0, 0, 2, 0, 0], bytes);
}

#[test]
fn tx_layout() {
    let bytes = sample_tx().encode();
    assert_eq!(8, bytes[0]);
    assert_eq!(vec![1u8; 32], bytes[1..33].to_vec());
    assert_eq!(&[3u8, 2], &bytes[33..35]);
    // outputs start after two references
    assert_eq!(8, bytes[69]);
    assert_eq!(0, bytes[70]);
    let (tx, end) = Tx::decode_at(&bytes, 0).unwrap();
    assert_eq!(sample_tx(), tx);
    assert_eq!(bytes.len(), end);
}

#[test]
fn truncated_transaction_is_rejected() {
    let bytes = Transaction::TransferTransaction(sample_tx()).encode();
    for len in 0..bytes.len() {
        assert_eq!(None, Transaction::decode(&bytes[..len]));
    }
}

#[test]
fn output_amount_beyond_supply_is_rejected() {
    let mut bytes = Transaction::TransferTransaction(sample_tx()).encode();
    // first output's amount follows the variant byte, the two references,
    // the output count and the 21 address bytes
    let at = 1 + 69 + 1 + 21;
    for b in bytes[at..at + 8].iter_mut() {
        *b = 0xff;
    }
    assert_eq!(None, Transaction::decode(&bytes));
}

#[test]
fn undecodable_stored_transaction_reads_as_none() {
    let mut service = TransactionService::new(MemoryStorage::new());
    let id = [4u8; 32];
    service.storage.set(&id, vec![9, 9]).unwrap();
    assert_eq!(None, service.get(&id).unwrap());
}
