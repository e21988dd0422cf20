//! The names of the wallets kept in a store.
use vstd::prelude::*;
use crate::error::ErrorKind;
use crate::storage::{key_views, Storage};

verus! {

/// The text that a byte string holds as UTF-8, if it is valid UTF-8.
pub uninterp spec fn utf8_text(b: Seq<u8>) -> Option<Seq<char>>;

/// Relies on `String::from_utf8`: it returns the text exactly when the bytes
/// are valid UTF-8, and the text depends on the bytes alone.
#[verifier::external_body]
fn string_from_utf8(b: Vec<u8>) -> (r: Option<String>)
    ensures
        match r {
            Some(s) => utf8_text(b@) == Some(s@),
            None => utf8_text(b@) is None,
        },
{
    String::from_utf8(b).ok()
}

/// Keeps wallets by name.
pub struct WalletService<S: Storage> {
    pub storage: S,
}

impl<S: Storage> WalletService<S> {
    pub open spec fn inv(&self) -> bool {
        self.storage.inv()
    }

    /// A service over `storage`.
    pub fn new(storage: S) -> (r: Self)
        ensures
            r.storage == storage,
    {
        WalletService { storage }
    }

    /// The names of all stored wallets, each once; an error if a stored name
    /// is not valid UTF-8.
    pub fn names(&self) -> (r: Result<Vec<String>, ErrorKind>)
        requires
            self.inv(),
        ensures
            r matches Ok(ns) ==> exists|ks: Seq<Vec<u8>>| {
                &&& key_views(ks).to_set() == self.storage.entries().dom()
                &&& key_views(ks).no_duplicates()
                &&& ks.len() == ns@.len()
                &&& forall|i: int| 0 <= i < ks.len() ==> utf8_text(#[trigger] ks[i]@) == Some(ns@[i]@)
            },
            r matches Err(e) ==> e == ErrorKind::StorageError
                || exists|k: Seq<u8>| self.storage.entries().contains_key(k) && utf8_text(k) is None,
            self.storage.writes_succeed()
                && (forall|k: Seq<u8>| #[trigger] self.storage.entries().contains_key(k) ==> utf8_text(k) is Some)
                ==> r is Ok,
    {
        let keys = match self.storage.keys() {
            Ok(ks) => ks,
            Err(_) => return Err(ErrorKind::StorageError),
        };
        let ghost ks = keys@;
        let mut names: Vec<String> = Vec::new();
        let mut i: usize = 0;
        while i < keys.len()
            invariant
                ks == keys@,
                key_views(ks).to_set() == self.storage.entries().dom(),
                0 <= i <= ks.len(),
                names@.len() == i,
                forall|j: int| 0 <= j < i ==> utf8_text(#[trigger] ks[j]@) == Some(names@[j]@),
            decreases ks.len() - i,
        {
            let k = crate::bytes::copy_bytes(keys[i].as_slice());
            match string_from_utf8(k) {
                Some(s) => names.push(s),
                None => {
                    assert(key_views(ks)[i as int] == ks[i as int]@);
                    assert(key_views(ks).to_set().contains(ks[i as int]@));
                    return Err(ErrorKind::DeserializationError);
                },
            }
            i = i + 1;
        }
        Ok(names)
    }

    /// Forgets every wallet.
    pub fn clear(&mut self) -> (r: Result<(), ErrorKind>)
        requires
            old(self).inv(),
        ensures
            final(self).inv(),
            old(self).storage.writes_succeed() ==> r is Ok,
            r is Ok ==> final(self).storage.entries() == Map::<Seq<u8>, Seq<u8>>::empty(),
            r is Err ==> final(self).storage.entries() == old(self).storage.entries(),
    {
        match self.storage.clear() {
            Ok(()) => Ok(()),
            Err(_) => Err(ErrorKind::StorageError),
        }
    }
}

} // verus!
