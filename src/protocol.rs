//! Messages exchanged between the application and the enclave gateway.
use vstd::prelude::*;
use crate::coin::Coin;

verus! {

/// A transaction's content digest.
pub type TxId = [u8; 32];

/// The checkpoint of the chain's state after a committed block.
pub type AppHash = [u8; 32];

/// A fee paid by a transaction.
pub type Fee = Coin;

/// A reference to an output of an earlier transaction.
#[derive(Debug, Clone, Copy, PartialEq, Eq)]
pub struct TxoPointer {
    pub id: TxId,
    pub index: u16,
}

/// A transaction with its witness, as submitted for validation. The parts
/// other than the spent outputs are carried as their encoded bytes: only the
/// enclave reads them.
#[derive(Debug, Clone, PartialEq, Eq)]
pub enum TxAux {
    /// Moves coins from earlier outputs to new ones.
    TransferTx { inputs: Vec<TxoPointer>, body: Vec<u8> },
    /// Bonds coins from earlier outputs to an account.
    DepositStakeTx { inputs: Vec<TxoPointer>, body: Vec<u8> },
    /// Starts unbonding an account's stake.
    UnbondStakeTx { body: Vec<u8> },
    /// Withdraws unbonded stake from an account to new outputs.
    WithdrawUnbondedStakeTx { body: Vec<u8> },
}

/// The state of a staking account.
#[derive(Debug, Clone, Copy, PartialEq, Eq)]
pub struct StakedState {
    pub nonce: u64,
    pub bonded: Coin,
    pub unbonded: Coin,
    pub unbonded_from: u64,
    pub address: [u8; 20],
}

/// What the enclave needs to know of the chain to validate a transaction.
#[derive(Debug, Clone, Copy, PartialEq, Eq)]
pub struct ChainInfo {
    pub min_fee_computed: Fee,
    pub chain_hex_id: u8,
    pub previous_block_time: u64,
    pub unbonding_period: u32,
}

/// A transaction to validate, with the account it touches, if any.
#[derive(Debug, Clone, PartialEq, Eq)]
pub struct VerifyTxRequest {
    pub tx: TxAux,
    pub account: Option<StakedState>,
    pub info: ChainInfo,
}

/// Why a transaction was found invalid.
#[derive(Debug, Clone, Copy, PartialEq, Eq, Structural)]
pub enum TxError {
    /// The transaction's kind does not fit the state sent with it, or the
    /// outputs it spends are not known.
    InvalidInput,
    /// The enclave rejected the transaction, with its error code.
    Enclave(u32),
}

/// A request from the application to the enclave gateway.
#[derive(Debug, Clone, PartialEq, Eq)]
pub enum EnclaveRequest {
    /// Checks that both sides run the same chain from the same checkpoint.
    CheckChain { chain_hex_id: u8, last_app_hash: Option<AppHash> },
    /// Validates one transaction.
    VerifyTx(VerifyTxRequest),
    /// Records the checkpoint of a finalized block.
    CommitBlock { app_hash: AppHash },
    /// Reads the cached launch token of an enclave.
    GetCachedLaunchToken { enclave_metaname: Vec<u8> },
    /// Stores the launch token of an enclave.
    UpdateCachedLaunchToken { enclave_metaname: Vec<u8>, token: Vec<u8> },
    /// Reads the sealed outputs of transactions, all or none.
    GetSealedTxData { txids: Vec<TxId> },
}

/// A reply of the enclave gateway.
#[derive(Debug, PartialEq, Eq)]
pub enum EnclaveResponse {
    /// Agreement, or the checkpoint found on this side (none if unknown).
    CheckChain(Result<(), Option<AppHash>>),
    /// The fee paid and the account's new state, or why the transaction is invalid.
    VerifyTx(Result<(Fee, Option<StakedState>), TxError>),
    /// Whether the checkpoint was made durable.
    CommitBlock(Result<(), ()>),
    /// The cached token, if one is stored.
    GetCachedLaunchToken(Option<Vec<u8>>),
    /// Whether the token was stored.
    UpdateCachedLaunchToken(Result<(), ()>),
    /// The sealed outputs, in the order asked, or none if any is missing.
    GetSealedTxData(Option<Vec<Vec<u8>>>),
    /// The request was understood but has no handler.
    UnsupportedTxType,
    /// The request could not be decoded.
    UnknownRequest,
}

/// A transaction submitted for encryption, with its witness.
#[derive(Debug, Clone, PartialEq, Eq)]
pub struct EncryptionResponse {
    pub tx: TxAux,
}

/// The transactions whose outputs a view key holder asks to read.
#[derive(Debug, Clone, PartialEq, Eq)]
pub struct DecryptionRequestBody {
    pub txs: Vec<TxId>,
}

/// A decryption request, signed by the view key.
#[derive(Debug, Clone, PartialEq, Eq)]
pub struct DecryptionRequest {
    pub body: DecryptionRequestBody,
    pub view_key_sig: [u8; 64],
}

impl TxAux {
    /// The outputs the transaction spends, for the kinds that spend any.
    pub open spec fn spent(&self) -> Option<Seq<TxoPointer>> {
        match self {
            TxAux::TransferTx { inputs, .. } => Some(inputs@),
            TxAux::DepositStakeTx { inputs, .. } => Some(inputs@),
            _ => None,
        }
    }
}

} // verus!
