use tx_validation::coin::Coin;
use tx_validation::protocol::{
    ChainInfo, EnclaveRequest, EnclaveResponse, StakedState, TxAux, TxError, TxoPointer,
    VerifyTxRequest,
};
use tx_validation::server::{Step, TxValidationServer};
use tx_validation::storage::{MemoryStorage, Storage};

fn server() -> TxValidationServer<MemoryStorage> {
    TxValidationServer::new(MemoryStorage::new(), MemoryStorage::new())
}

fn info() -> ChainInfo {
    ChainInfo {
        min_fee_computed: Coin::new(1).unwrap(),
        chain_hex_id: 0xab,
        previous_block_time: 0,
        unbonding_period: 60,
    }
}

fn account() -> StakedState {
    StakedState {
        nonce: 0,
        bonded: Coin::zero(),
        unbonded: Coin::new(10).unwrap(),
        unbonded_from: 0,
        address: [3u8; 20],
    }
}

fn pointer(id: [u8; 32]) -> TxoPointer {
    TxoPointer { id, index: 0 }
}

#[test]
fn check_chain_fresh_chain_goes_to_enclave() {
    let mut s = server();
    let step = s.execute(Some(EnclaveRequest::CheckChain {
        chain_hex_id: 0xab,
        last_app_hash: None,
    }));
    assert_eq!(
        Step::CheckChain {
            chain_hex_id: 0xab,
            last_app_hash: None
        },
        step
    );
}

#[test]
fn check_chain_fresh_chain_with_claimed_hash_fails() {
    let mut s = server();
    let step = s.execute(Some(EnclaveRequest::CheckChain {
        chain_hex_id: 0xab,
        last_app_hash: Some([1u8; 32]),
    }));
    assert_eq!(Step::Reply(EnclaveResponse::CheckChain(Err(None))), step);
}

#[test]
fn commit_then_check_chain_same_hash() {
    let mut s = server();
    let h = [9u8; 32];
    let step = s.execute(Some(EnclaveRequest::CommitBlock { app_hash: h }));
    assert_eq!(Step::Reply(EnclaveResponse::CommitBlock(Ok(()))), step);
    let step = s.execute(Some(EnclaveRequest::CheckChain {
        chain_hex_id: 1,
        last_app_hash: Some(h),
    }));
    assert_eq!(
        Step::CheckChain {
            chain_hex_id: 1,
            last_app_hash: Some(h)
        },
        step
    );
}

#[test]
fn check_chain_other_hash_reports_stored() {
    let mut s = server();
    let h = [9u8; 32];
    s.commit_block(h);
    let step = s.check_chain(1, Some([8u8; 32]));
    assert_eq!(Step::Reply(EnclaveResponse::CheckChain(Err(Some(h)))), step);
    let step = s.check_chain(1, None);
    assert_eq!(Step::Reply(EnclaveResponse::CheckChain(Err(Some(h)))), step);
}

#[test]
fn failed_flush_keeps_previous_hash() {
    let mut s = server();
    let h = [9u8; 32];
    assert_eq!(EnclaveResponse::CommitBlock(Ok(())), s.commit_block(h));
    s.txdb.set_flush_failure(true);
    assert_eq!(EnclaveResponse::CommitBlock(Err(())), s.commit_block([4u8; 32]));
    assert_eq!(
        Step::CheckChain {
            chain_hex_id: 1,
            last_app_hash: Some(h)
        },
        s.check_chain(1, Some(h))
    );
}

#[test]
fn failed_flush_on_fresh_chain_leaves_no_hash() {
    let mut s = server();
    s.txdb.set_flush_failure(true);
    assert_eq!(EnclaveResponse::CommitBlock(Err(())), s.commit_block([4u8; 32]));
    assert_eq!(
        Step::CheckChain {
            chain_hex_id: 1,
            last_app_hash: None
        },
        s.check_chain(1, None)
    );
}

#[test]
fn sealed_lookup_is_all_or_nothing() {
    let mut s = server();
    let a = [0xaau8; 32];
    let b = [0xbbu8; 32];
    s.txdb.set(&a, vec![1, 2, 3]).unwrap();
    assert_eq!(None, s.lookup_txids(&vec![a, b]));
    assert_eq!(
        Step::Reply(EnclaveResponse::GetSealedTxData(None)),
        s.execute(Some(EnclaveRequest::GetSealedTxData { txids: vec![a, b] }))
    );
    s.txdb.set(&b, vec![4]).unwrap();
    assert_eq!(Some(vec![vec![4u8], vec![1, 2, 3]]), s.lookup_txids(&vec![b, a]));
    assert_eq!(Some(Vec::<Vec<u8>>::new()), s.lookup_txids(&vec![]));
}

#[test]
fn withdraw_without_account_is_invalid_input() {
    let mut s = server();
    let step = s.execute(Some(EnclaveRequest::VerifyTx(VerifyTxRequest {
        tx: TxAux::WithdrawUnbondedStakeTx { body: vec![1] },
        account: None,
        info: info(),
    })));
    assert_eq!(
        Step::Reply(EnclaveResponse::VerifyTx(Err(TxError::InvalidInput))),
        step
    );
}

#[test]
fn withdraw_with_account_goes_to_enclave() {
    let s = server();
    let step = s.verify_tx(VerifyTxRequest {
        tx: TxAux::WithdrawUnbondedStakeTx { body: vec![1] },
        account: Some(account()),
        info: info(),
    });
    assert_eq!(
        Step::VerifyWithdraw {
            tx: TxAux::WithdrawUnbondedStakeTx { body: vec![1] },
            account: account(),
            info: info()
        },
        step
    );
}

#[test]
fn transfer_with_missing_input_is_invalid_input() {
    let mut s = server();
    let a = [1u8; 32];
    s.txdb.set(&a, vec![7]).unwrap();
    let step = s.verify_tx(VerifyTxRequest {
        tx: TxAux::TransferTx {
            inputs: vec![pointer(a), pointer([2u8; 32])],
            body: vec![],
        },
        account: None,
        info: info(),
    });
    assert_eq!(
        Step::Reply(EnclaveResponse::VerifyTx(Err(TxError::InvalidInput))),
        step
    );
}

#[test]
fn transfer_with_inputs_goes_to_enclave() {
    let mut s = server();
    let a = [1u8; 32];
    s.txdb.set(&a, vec![7]).unwrap();
    let tx = TxAux::TransferTx {
        inputs: vec![pointer(a)],
        body: vec![5],
    };
    let step = s.verify_tx(VerifyTxRequest {
        tx: tx.clone(),
        account: None,
        info: info(),
    });
    assert_eq!(
        Step::VerifyTransfer {
            tx,
            inputs: vec![vec![7]],
            info: info()
        },
        step
    );
}

#[test]
fn deposit_passes_account_through() {
    let mut s = server();
    let a = [1u8; 32];
    s.txdb.set(&a, vec![7]).unwrap();
    let tx = TxAux::DepositStakeTx {
        inputs: vec![pointer(a)],
        body: vec![],
    };
    let step = s.verify_tx(VerifyTxRequest {
        tx: tx.clone(),
        account: Some(account()),
        info: info(),
    });
    assert_eq!(
        Step::VerifyDeposit {
            tx,
            inputs: vec![vec![7]],
            account: Some(account()),
            info: info()
        },
        step
    );
}

#[test]
fn unbond_is_invalid_input() {
    let s = server();
    let step = s.verify_tx(VerifyTxRequest {
        tx: TxAux::UnbondStakeTx { body: vec![] },
        account: Some(account()),
        info: info(),
    });
    assert_eq!(
        Step::Reply(EnclaveResponse::VerifyTx(Err(TxError::InvalidInput))),
        step
    );
}

#[test]
fn launch_token_absent_then_stored() {
    let mut s = server();
    assert_eq!(
        Step::Reply(EnclaveResponse::GetCachedLaunchToken(None)),
        s.execute(Some(EnclaveRequest::GetCachedLaunchToken {
            enclave_metaname: b"enclave".to_vec()
        }))
    );
    assert_eq!(
        Step::Reply(EnclaveResponse::UpdateCachedLaunchToken(Ok(()))),
        s.execute(Some(EnclaveRequest::UpdateCachedLaunchToken {
            enclave_metaname: b"enclave".to_vec(),
            token: vec![1, 2, 3],
        }))
    );
    assert_eq!(
        EnclaveResponse::GetCachedLaunchToken(Some(vec![1, 2, 3])),
        s.get_cached_launch_token(b"enclave")
    );
}

#[test]
fn undecodable_request_is_unknown() {
    let mut s = server();
    assert_eq!(Step::Reply(EnclaveResponse::UnknownRequest), s.execute(None));
}
