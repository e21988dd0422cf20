//! Durable key -> bytes stores: the capability the services and the
//! validation server consume, and an in-memory implementation of it.
use vstd::prelude::*;
use crate::bytes::{bytes_eq, copy_bytes};

verus! {

/// A store operation that did not complete.
#[derive(Debug, Clone, Copy, PartialEq, Eq, Structural)]
pub enum StoreError {
    /// The underlying medium refused the operation.
    Io,
}

/// The byte strings held by a list of keys.
pub open spec fn key_views(ks: Seq<Vec<u8>>) -> Seq<Seq<u8>> {
    ks.map_values(|k: Vec<u8>| k@)
}

/// A durable mapping from keys to byte strings.
///
/// Reads and writes may fail on some stores and flushes on others; a failed write
/// leaves the contents unchanged, so readers never observe a partial update.
pub trait Storage {
    /// The current contents.
    spec fn entries(&self) -> Map<Seq<u8>, Seq<u8>>;

    /// Whether reads and writes on this store succeed.
    spec fn writes_succeed(&self) -> bool;

    /// Whether flushes on this store succeed.
    spec fn flushes_succeed(&self) -> bool;

    /// The store's internal consistency.
    spec fn inv(&self) -> bool;

    /// Looks up `key`.
    fn get(&self, key: &[u8]) -> (r: Result<Option<Vec<u8>>, StoreError>)
        requires
            self.inv(),
        ensures
            self.writes_succeed() ==> r is Ok,
            match r {
                Ok(Some(v)) => self.entries().contains_key(key@) && self.entries()[key@] == v@,
                Ok(None) => !self.entries().contains_key(key@),
                Err(_) => true,
            },
    ;

    /// Maps `key` to `value`, returning what it was mapped to before.
    fn set(&mut self, key: &[u8], value: Vec<u8>) -> (r: Result<Option<Vec<u8>>, StoreError>)
        requires
            old(self).inv(),
        ensures
            final(self).inv(),
            final(self).writes_succeed() == old(self).writes_succeed(),
            final(self).flushes_succeed() == old(self).flushes_succeed(),
            old(self).writes_succeed() ==> r is Ok,
            match r {
                Ok(Some(v)) => old(self).entries().contains_key(key@)
                    && old(self).entries()[key@] == v@
                    && final(self).entries() == old(self).entries().insert(key@, value@),
                Ok(None) => !old(self).entries().contains_key(key@)
                    && final(self).entries() == old(self).entries().insert(key@, value@),
                Err(_) => final(self).entries() == old(self).entries(),
            },
    ;

    /// Removes `key`, returning what it was mapped to.
    fn remove(&mut self, key: &[u8]) -> (r: Result<Option<Vec<u8>>, StoreError>)
        requires
            old(self).inv(),
        ensures
            final(self).inv(),
            final(self).writes_succeed() == old(self).writes_succeed(),
            final(self).flushes_succeed() == old(self).flushes_succeed(),
            old(self).writes_succeed() ==> r is Ok,
            match r {
                Ok(Some(v)) => old(self).entries().contains_key(key@)
                    && old(self).entries()[key@] == v@
                    && final(self).entries() == old(self).entries().remove(key@),
                Ok(None) => !old(self).entries().contains_key(key@)
                    && final(self).entries() == old(self).entries(),
                Err(_) => final(self).entries() == old(self).entries(),
            },
    ;

    /// Removes every entry.
    fn clear(&mut self) -> (r: Result<(), StoreError>)
        requires
            old(self).inv(),
        ensures
            final(self).inv(),
            final(self).writes_succeed() == old(self).writes_succeed(),
            final(self).flushes_succeed() == old(self).flushes_succeed(),
            old(self).writes_succeed() ==> r is Ok,
            r is Ok ==> final(self).entries() == Map::<Seq<u8>, Seq<u8>>::empty(),
            r is Err ==> final(self).entries() == old(self).entries(),
    ;

    /// Lists the keys, each once.
    fn keys(&self) -> (r: Result<Vec<Vec<u8>>, StoreError>)
        requires
            self.inv(),
        ensures
            self.writes_succeed() ==> r is Ok,
            r matches Ok(ks) ==> key_views(ks@).to_set() == self.entries().dom()
                && key_views(ks@).no_duplicates(),
    ;

    /// Makes every completed write durable.
    fn flush(&mut self) -> (r: Result<(), StoreError>)
        requires
            old(self).inv(),
        ensures
            final(self).inv(),
            final(self).writes_succeed() == old(self).writes_succeed(),
            final(self).flushes_succeed() == old(self).flushes_succeed(),
            final(self).entries() == old(self).entries(),
            old(self).flushes_succeed() ==> r is Ok,
    ;
}

/// A store held in memory. Its flush can be made to fail, to exercise the
/// paths that must survive an unacknowledged write.
pub struct MemoryStorage {
    keys: Vec<Vec<u8>>,
    values: Vec<Vec<u8>>,
    flush_fails: bool,
    contents: Ghost<Map<Seq<u8>, Seq<u8>>>,
}

impl MemoryStorage {
    /// The stored keys are distinct, each maps to the value beside it, and
    /// nothing else is stored.
    pub closed spec fn wf(&self) -> bool {
        &&& self.keys@.len() == self.values@.len()
        &&& forall|i: int, j: int| 0 <= i < j < self.keys@.len() ==> self.keys@[i]@ != self.keys@[j]@
        &&& forall|i: int| 0 <= i < self.keys@.len()
                ==> self.contents@.contains_key(#[trigger] self.keys@[i]@)
                    && self.contents@[self.keys@[i]@] == self.values@[i]@
        &&& forall|k: Seq<u8>| #[trigger] self.contents@.contains_key(k)
                ==> exists|i: int| 0 <= i < self.keys@.len() && self.keys@[i]@ == k
    }

    pub closed spec fn contents(&self) -> Map<Seq<u8>, Seq<u8>> {
        self.contents@
    }

    pub closed spec fn flush_fails(&self) -> bool {
        self.flush_fails
    }

    /// An empty store whose flush succeeds.
    pub fn new() -> (r: Self)
        ensures
            r.wf(),
            r.contents() == Map::<Seq<u8>, Seq<u8>>::empty(),
            !r.flush_fails(),
    {
        MemoryStorage { keys: Vec::new(), values: Vec::new(), flush_fails: false, contents: Ghost(Map::empty()) }
    }

    /// Makes every later flush fail (`true`) or succeed (`false`).
    pub fn set_flush_failure(&mut self, fails: bool)
        requires
            old(self).wf(),
        ensures
            final(self).wf(),
            final(self).contents() == old(self).contents(),
            final(self).flush_fails() == fails,
    {
        self.flush_fails = fails;
        assert forall|k: Seq<u8>| #[trigger] self.contents@.contains_key(k) implies
            exists|j: int| 0 <= j < self.keys@.len() && self.keys@[j]@ == k by {
            let j = choose|j: int| 0 <= j < old(self).keys@.len() && old(self).keys@[j]@ == k;
            assert(self.keys@[j]@ == k);
        }
    }

    /// The position of `key`, if it is stored.
    fn position(&self, key: &[u8]) -> (r: Option<usize>)
        requires
            self.wf(),
        ensures
            match r {
                Some(i) => i < self.keys@.len() && self.keys@[i as int]@ == key@,
                None => !self.contents@.contains_key(key@),
            },
    {
        let mut i: usize = 0;
        while i < self.keys.len()
            invariant
                self.wf(),
                0 <= i <= self.keys@.len(),
                forall|j: int| 0 <= j < i ==> self.keys@[j]@ != key@,
            decreases self.keys@.len() - i,
        {
            if bytes_eq(self.keys[i].as_slice(), key) {
                return Some(i);
            }
            i = i + 1;
        }
        None
    }
}

impl Default for MemoryStorage {
    fn default() -> (r: Self)
        ensures
            r.wf(),
            r.contents() == Map::<Seq<u8>, Seq<u8>>::empty(),
            !r.flush_fails(),
    {
        MemoryStorage::new()
    }
}

impl Storage for MemoryStorage {
    open spec fn entries(&self) -> Map<Seq<u8>, Seq<u8>> {
        self.contents()
    }

    open spec fn writes_succeed(&self) -> bool {
        true
    }

    open spec fn flushes_succeed(&self) -> bool {
        !self.flush_fails()
    }

    open spec fn inv(&self) -> bool {
        self.wf()
    }

    fn get(&self, key: &[u8]) -> (r: Result<Option<Vec<u8>>, StoreError>) {
        match self.position(key) {
            Some(i) => Ok(Some(copy_bytes(self.values[i].as_slice()))),
            None => Ok(None),
        }
    }

    fn set(&mut self, key: &[u8], value: Vec<u8>) -> (r: Result<Option<Vec<u8>>, StoreError>) {
        assert(self.wf());
        match self.position(key) {
            Some(i) => {
                let previous = copy_bytes(self.values[i].as_slice());
                self.values.set(i, value);
                self.contents = Ghost(self.contents@.insert(key@, value@));
                assert forall|k: Seq<u8>| #[trigger] self.contents@.contains_key(k) implies
                    exists|j: int| 0 <= j < self.keys@.len() && self.keys@[j]@ == k by {
                    if k != key@ {
                        assert(old(self).contents@.contains_key(k));
                        let j = choose|j: int| 0 <= j < old(self).keys@.len() && old(self).keys@[j]@ == k;
                        assert(self.keys@[j]@ == k);
                    } else {
                        assert(self.keys@[i as int]@ == k);
                    }
                }
                Ok(Some(previous))
            },
            None => {
                self.keys.push(copy_bytes(key));
                self.values.push(value);
                self.contents = Ghost(self.contents@.insert(key@, value@));
                assert forall|i: int, j: int| 0 <= i < j < self.keys@.len() implies
                    self.keys@[i]@ != self.keys@[j]@ by {
                    if j == self.keys@.len() - 1 {
                        assert(old(self).contents@.contains_key(old(self).keys@[i]@));
                    }
                }
                assert forall|k: Seq<u8>| #[trigger] self.contents@.contains_key(k) implies
                    exists|j: int| 0 <= j < self.keys@.len() && self.keys@[j]@ == k by {
                    if k != key@ {
                        assert(old(self).contents@.contains_key(k));
                        let j = choose|j: int| 0 <= j < old(self).keys@.len() && old(self).keys@[j]@ == k;
                        assert(self.keys@[j]@ == k);
                    } else {
                        assert(self.keys@[self.keys@.len() - 1]@ == k);
                    }
                }
                Ok(None)
            },
        }
    }

    fn remove(&mut self, key: &[u8]) -> (r: Result<Option<Vec<u8>>, StoreError>) {
        match self.position(key) {
            Some(i) => {
                let ghost old_keys = self.keys@;
                let ghost old_values = self.values@;
                let _k = self.keys.remove(i);
                let previous = self.values.remove(i);
                self.contents = Ghost(self.contents@.remove(key@));
                assert forall|a: int, b: int| 0 <= a < b < self.keys@.len() implies
                    self.keys@[a]@ != self.keys@[b]@ by {
                    let oa = if a < i { a } else { a + 1 };
                    let ob = if b < i { b } else { b + 1 };
                    assert(self.keys@[a] == old_keys[oa]);
                    assert(self.keys@[b] == old_keys[ob]);
                }
                assert forall|a: int| 0 <= a < self.keys@.len() implies
                    self.contents@.contains_key(#[trigger] self.keys@[a]@)
                    && self.contents@[self.keys@[a]@] == self.values@[a]@ by {
                    let oa = if a < i { a } else { a + 1 };
                    assert(self.keys@[a] == old_keys[oa]);
                    assert(self.values@[a] == old_values[oa]);
                    assert(old_keys[oa]@ != key@);
                }
                assert forall|k: Seq<u8>| #[trigger] self.contents@.contains_key(k) implies
                    exists|j: int| 0 <= j < self.keys@.len() && self.keys@[j]@ == k by {
                    assert(old(self).contents@.contains_key(k));
                    let j = choose|j: int| 0 <= j < old_keys.len() && old_keys[j]@ == k;
                    assert(j != i);
                    let nj = if j < i { j } else { j - 1 };
                    assert(self.keys@[nj] == old_keys[j]);
                }
                Ok(Some(previous))
            },
            None => Ok(None),
        }
    }

    fn clear(&mut self) -> (r: Result<(), StoreError>) {
        self.keys = Vec::new();
        self.values = Vec::new();
        self.contents = Ghost(Map::empty());
        Ok(())
    }

    fn keys(&self) -> (r: Result<Vec<Vec<u8>>, StoreError>) {
        let mut out: Vec<Vec<u8>> = Vec::new();
        let mut i: usize = 0;
        while i < self.keys.len()
            invariant
                self.wf(),
                0 <= i <= self.keys@.len(),
                out@.len() == i,
                forall|j: int| 0 <= j < i ==> #[trigger] out@[j]@ == self.keys@[j]@,
            decreases self.keys@.len() - i,
        {
            out.push(copy_bytes(self.keys[i].as_slice()));
            i = i + 1;
        }
        let ghost views = key_views(out@);
        assert(views =~= key_views(self.keys@));
        assert forall|k: Seq<u8>| #[trigger] self.contents@.contains_key(k) implies views.contains(k) by {
            let j = choose|j: int| 0 <= j < self.keys@.len() && self.keys@[j]@ == k;
            assert(views[j] == k);
        }
        assert forall|k: Seq<u8>| views.contains(k) implies #[trigger] self.contents@.contains_key(k) by {
            let j = choose|j: int| 0 <= j < views.len() && views[j] == k;
            assert(self.keys@[j]@ == k);
        }
        assert(views.to_set() =~= self.contents@.dom());
        Ok(out)
    }

    fn flush(&mut self) -> (r: Result<(), StoreError>) {
        if self.flush_fails {
            Err(StoreError::Io)
        } else {
            Ok(())
        }
    }
}

} // verus!
