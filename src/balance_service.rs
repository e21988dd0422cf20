//! Balances of addresses, kept in a store as `address -> amount`.
use vstd::prelude::*;
use crate::codec::{le_u64_bytes, le_u64_value};
use crate::coin::{Coin, MAX_COIN};
use crate::error::ErrorKind;
use crate::server::stored_at;
use crate::storage::Storage;

verus! {

/// An address on the chain.
#[derive(Debug, Clone, Copy, PartialEq, Eq)]
pub enum ExtendedAddr {
    /// A single-key address (20 bytes).
    BasicRedeem([u8; 20]),
    /// The root of a Merklized script tree (32 bytes).
    OrTree([u8; 32]),
}

/// A change to a balance.
#[derive(Debug, Clone, Copy, PartialEq, Eq, Structural)]
pub enum BalanceChange {
    Incoming(Coin),
    Outgoing(Coin),
}

/// The encoding of an address: a variant byte and the address bytes.
pub open spec fn address_bytes(a: ExtendedAddr) -> Seq<u8> {
    match a {
        ExtendedAddr::BasicRedeem(b) => seq![0u8] + b@,
        ExtendedAddr::OrTree(b) => seq![1u8] + b@,
    }
}

/// The amount a stored value holds: none stored is zero; a value that does
/// not decode to an amount within the supply is an error.
pub open spec fn stored_balance(v: Option<Seq<u8>>) -> Result<u64, ErrorKind> {
    match v {
        None => Ok(0),
        Some(b) => if b.len() >= 8 && le_u64_value(b) <= MAX_COIN {
            Ok(le_u64_value(b))
        } else {
            Err(ErrorKind::DeserializationError)
        },
    }
}

/// The balance after a change, if it stays within range.
pub open spec fn apply_change(v: u64, c: BalanceChange) -> Option<u64> {
    match c {
        BalanceChange::Incoming(a) => if v + a.spec_value() <= MAX_COIN {
            Some((v + a.spec_value()) as u64)
        } else {
            None
        },
        BalanceChange::Outgoing(a) => if a.spec_value() <= v {
            Some((v - a.spec_value()) as u64)
        } else {
            None
        },
    }
}

fn encode_address(a: &ExtendedAddr) -> (r: Vec<u8>)
    ensures
        r@ == address_bytes(*a),
{
    let mut out: Vec<u8> = Vec::new();
    match a {
        ExtendedAddr::BasicRedeem(b) => {
            out.push(0u8);
            crate::bytes::append_bytes(&mut out, b.as_slice());
        },
        ExtendedAddr::OrTree(b) => {
            out.push(1u8);
            crate::bytes::append_bytes(&mut out, b.as_slice());
        },
    }
    out
}

/// Keeps the balance of each address.
pub struct BalanceService<S: Storage> {
    pub storage: S,
}

impl<S: Storage> BalanceService<S> {
    pub open spec fn inv(&self) -> bool {
        self.storage.inv()
    }

    /// A service over `storage`.
    pub fn new(storage: S) -> (r: Self)
        ensures
            r.storage == storage,
    {
        BalanceService { storage }
    }

    /// The balance of `address`: zero when none is stored.
    pub fn get(&self, address: &ExtendedAddr) -> (r: Result<Coin, ErrorKind>)
        requires
            self.inv(),
        ensures
            r matches Ok(c) ==> c.wf()
                && stored_balance(stored_at(self.storage.entries(), address_bytes(*address))) == Ok::<u64, ErrorKind>(c.spec_value()),
            self.storage.writes_succeed() ==> match stored_balance(stored_at(self.storage.entries(), address_bytes(*address))) {
                Ok(v) => r matches Ok(c) && c.spec_value() == v,
                Err(e) => r == Err::<Coin, ErrorKind>(e),
            },
    {
        let key = encode_address(address);
        match self.storage.get(key.as_slice()) {
            Err(_) => Err(ErrorKind::StorageError),
            Ok(None) => Ok(Coin::zero()),
            Ok(Some(bytes)) => match Coin::decode(bytes.as_slice()) {
                Some(c) => Ok(c),
                None => Err(ErrorKind::DeserializationError),
            },
        }
    }

    /// Applies `change` to the balance of `address`.
    pub fn change(&mut self, address: &ExtendedAddr, change: &BalanceChange) -> (r: Result<(), ErrorKind>)
        requires
            old(self).inv(),
            match *change {
                BalanceChange::Incoming(a) => a.wf(),
                BalanceChange::Outgoing(a) => a.wf(),
            },
        ensures
            final(self).inv(),
            final(self).storage.writes_succeed() == old(self).storage.writes_succeed(),
            r is Err ==> final(self).storage.entries() == old(self).storage.entries(),
            r is Ok ==> match stored_balance(stored_at(old(self).storage.entries(), address_bytes(*address))) {
                Ok(v) => apply_change(v, *change) matches Some(nv)
                    && final(self).storage.entries()
                        == old(self).storage.entries().insert(address_bytes(*address), le_u64_bytes(nv)),
                Err(_) => false,
            },
            old(self).storage.writes_succeed() ==> match stored_balance(stored_at(old(self).storage.entries(), address_bytes(*address))) {
                Ok(v) => match apply_change(v, *change) {
                    Some(nv) => r is Ok,
                    None => r == Err::<(), ErrorKind>(ErrorKind::BalanceAdditionError),
                },
                Err(e) => r == Err::<(), ErrorKind>(e),
            },
    {
        let current = match self.get(address) {
            Ok(c) => c,
            Err(e) => return Err(e),
        };
        let updated = match change {
            BalanceChange::Incoming(a) => current.checked_add(a),
            BalanceChange::Outgoing(a) => current.checked_sub(a),
        };
        let updated = match updated {
            Ok(c) => c,
            Err(_) => return Err(ErrorKind::BalanceAdditionError),
        };
        let key = encode_address(address);
        match self.storage.set(key.as_slice(), updated.encode()) {
            Ok(_) => Ok(()),
            Err(_) => Err(ErrorKind::StorageError),
        }
    }

    /// Forgets every balance.
    pub fn clear(&mut self) -> (r: Result<(), ErrorKind>)
        requires
            old(self).inv(),
        ensures
            final(self).inv(),
            final(self).storage.writes_succeed() == old(self).storage.writes_succeed(),
            old(self).storage.writes_succeed() ==> r is Ok,
            r is Ok ==> final(self).storage.entries() == Map::<Seq<u8>, Seq<u8>>::empty(),
            r is Err ==> final(self).storage.entries() == old(self).storage.entries(),
    {
        match self.storage.clear() {
            Ok(()) => Ok(()),
            Err(_) => Err(ErrorKind::StorageError),
        }
    }
}

} // verus!
