//! Transactions kept in a store by id.
use vstd::prelude::*;
use crate::error::ErrorKind;
use crate::protocol::TxId;
use crate::server::stored_at;
use crate::storage::Storage;
use crate::transaction::{parse_transaction, transaction_bytes, Transaction, TransactionView};

verus! {

/// The transaction a stored value holds: none when nothing is stored or the
/// value does not decode.
pub open spec fn stored_transaction(v: Option<Seq<u8>>) -> Option<TransactionView> {
    match v {
        Some(b) => match parse_transaction(b) {
            Some((t, _)) => Some(t),
            None => None,
        },
        None => None,
    }
}

pub open spec fn transaction_option_view(t: Option<Transaction>) -> Option<TransactionView> {
    match t {
        Some(x) => Some(x@),
        None => None,
    }
}

/// Keeps `transaction id -> transaction`.
pub struct TransactionService<S: Storage> {
    pub storage: S,
}

impl<S: Storage> TransactionService<S> {
    pub open spec fn inv(&self) -> bool {
        self.storage.inv()
    }

    /// A service over `storage`.
    pub fn new(storage: S) -> (r: Self)
        ensures
            r.storage == storage,
    {
        TransactionService { storage }
    }

    /// The transaction stored under `id`, if any.
    pub fn get(&self, id: &TxId) -> (r: Result<Option<Transaction>, ErrorKind>)
        requires
            self.inv(),
        ensures
            self.storage.writes_succeed() ==> r is Ok,
            r matches Ok(t) ==> transaction_option_view(t) == stored_transaction(stored_at(self.storage.entries(), id@)),
            r matches Err(e) ==> e == ErrorKind::StorageError,
    {
        match self.storage.get(id.as_slice()) {
            Ok(Some(bytes)) => Ok(Transaction::decode(bytes.as_slice())),
            Ok(None) => Ok(None),
            Err(_) => Err(ErrorKind::StorageError),
        }
    }

    /// Stores `transaction` under `id`.
    pub fn set(&mut self, id: &TxId, transaction: &Transaction) -> (r: Result<(), ErrorKind>)
        requires
            old(self).inv(),
            transaction.encodable(),
        ensures
            final(self).inv(),
            final(self).storage.writes_succeed() == old(self).storage.writes_succeed(),
            old(self).storage.writes_succeed() ==> r is Ok,
            r is Ok ==> final(self).storage.entries()
                == old(self).storage.entries().insert(id@, transaction_bytes(transaction@)),
            r matches Err(e) ==> e == ErrorKind::StorageError
                && final(self).storage.entries() == old(self).storage.entries(),
    {
        match self.storage.set(id.as_slice(), transaction.encode()) {
            Ok(_) => Ok(()),
            Err(_) => Err(ErrorKind::StorageError),
        }
    }

    /// Forgets every transaction.
    pub fn clear(&mut self) -> (r: Result<(), ErrorKind>)
        requires
            old(self).inv(),
        ensures
            final(self).inv(),
            final(self).storage.writes_succeed() == old(self).storage.writes_succeed(),
            old(self).storage.writes_succeed() ==> r is Ok,
            r is Ok ==> final(self).storage.entries() == Map::<Seq<u8>, Seq<u8>>::empty(),
            r is Err ==> final(self).storage.entries() == old(self).storage.entries(),
    {
        match self.storage.clear() {
            Ok(()) => Ok(()),
            Err(_) => Err(ErrorKind::StorageError),
        }
    }
}

} // verus!
