//! The client's global state: the height of the last block it has seen.
use vstd::prelude::*;
use crate::codec::{decode_u64, encode_u64, le_u64_bytes, le_u64_value};
use crate::error::ErrorKind;
use crate::server::stored_at;
use crate::storage::Storage;

verus! {

/// The key of the last block height.
pub open spec fn last_block_height_key() -> Seq<u8> {
    seq![108u8, 97u8, 115u8, 116u8, 95u8, 98u8, 108u8, 111u8, 99u8, 107u8, 95u8, 104u8, 101u8, 105u8, 103u8, 104u8, 116u8]
}

fn last_block_height_key_bytes() -> (r: Vec<u8>)
    ensures
        r@ == last_block_height_key(),
{
    let r = vec![108u8, 97u8, 115u8, 116u8, 95u8, 98u8, 108u8, 111u8, 99u8, 107u8, 95u8, 104u8, 101u8, 105u8, 103u8, 104u8, 116u8];
    assert(r@ =~= last_block_height_key());
    r
}

/// The height a stored value holds: none when nothing is stored or the value
/// is shorter than a height.
pub open spec fn stored_height(v: Option<Seq<u8>>) -> Option<u64> {
    match v {
        Some(b) => if b.len() >= 8 { Some(le_u64_value(b)) } else { None },
        None => None,
    }
}

fn decode_height(v: Option<Vec<u8>>) -> (r: Option<u64>)
    ensures
        r == stored_height(match v { Some(b) => Some(b@), None => None }),
{
    match v {
        Some(b) => decode_u64(b.as_slice()),
        None => None,
    }
}

/// Keeps the client's global state.
pub struct GlobalStateService<S: Storage> {
    pub storage: S,
}

impl<S: Storage> GlobalStateService<S> {
    pub open spec fn inv(&self) -> bool {
        self.storage.inv()
    }

    /// A service over `storage`.
    pub fn new(storage: S) -> (r: Self)
        ensures
            r.storage == storage,
    {
        GlobalStateService { storage }
    }

    /// The stored last block height, if any.
    pub fn last_block_height(&self) -> (r: Result<Option<u64>, ErrorKind>)
        requires
            self.inv(),
        ensures
            self.storage.writes_succeed() ==> r is Ok,
            r matches Ok(h) ==> h == stored_height(stored_at(self.storage.entries(), last_block_height_key())),
            r matches Err(e) ==> e == ErrorKind::StorageError,
    {
        let key = last_block_height_key_bytes();
        match self.storage.get(key.as_slice()) {
            Ok(v) => Ok(decode_height(v)),
            Err(_) => Err(ErrorKind::StorageError),
        }
    }

    /// Stores `last_block_height`, returning the height stored before.
    pub fn set_last_block_height(&mut self, last_block_height: u64) -> (r: Result<Option<u64>, ErrorKind>)
        requires
            old(self).inv(),
        ensures
            final(self).inv(),
            final(self).storage.writes_succeed() == old(self).storage.writes_succeed(),
            old(self).storage.writes_succeed() ==> r is Ok,
            r matches Ok(h) ==> h == stored_height(stored_at(old(self).storage.entries(), last_block_height_key()))
                && final(self).storage.entries()
                    == old(self).storage.entries().insert(last_block_height_key(), le_u64_bytes(last_block_height)),
            r matches Err(e) ==> e == ErrorKind::StorageError
                && final(self).storage.entries() == old(self).storage.entries(),
    {
        let key = last_block_height_key_bytes();
        match self.storage.set(key.as_slice(), encode_u64(last_block_height)) {
            Ok(previous) => Ok(decode_height(previous)),
            Err(_) => Err(ErrorKind::StorageError),
        }
    }

    /// Forgets the global state.
    pub fn clear(&mut self) -> (r: Result<(), ErrorKind>)
        requires
            old(self).inv(),
        ensures
            final(self).inv(),
            final(self).storage.writes_succeed() == old(self).storage.writes_succeed(),
            old(self).storage.writes_succeed() ==> r is Ok,
            r is Ok ==> final(self).storage.entries() == Map::<Seq<u8>, Seq<u8>>::empty(),
            r is Err ==> final(self).storage.entries() == old(self).storage.entries(),
    {
        match self.storage.clear() {
            Ok(()) => Ok(()),
            Err(_) => Err(ErrorKind::StorageError),
        }
    }
}

/// A stored height reads back as itself.
pub proof fn lemma_height_round_trip(m: Map<Seq<u8>, Seq<u8>>, h: u64)
    ensures
        stored_height(stored_at(m.insert(last_block_height_key(), le_u64_bytes(h)), last_block_height_key())) == Some(h),
{
    crate::codec::lemma_le_u64_round_trip(h, Seq::empty());
    assert(le_u64_bytes(h) + Seq::<u8>::empty() =~= le_u64_bytes(h));
}

} // verus!
