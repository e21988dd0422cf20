//! The validation server: one request in, one decision out, with the
//! transaction store and the metadata store kept consistent.
//!
//! Requests that need the enclave come back as a [`Step`] naming the enclave
//! call to make; the caller makes it and sends its result as the reply.
use vstd::prelude::*;
use crate::bytes::copy_bytes;
use crate::protocol::{
    AppHash, ChainInfo, EnclaveRequest, EnclaveResponse, StakedState, TxAux, TxError, TxId,
    TxoPointer, VerifyTxRequest,
};
use crate::storage::Storage;

verus! {

/// The key under which the last committed checkpoint is stored.
pub open spec fn app_hash_key() -> Seq<u8> {
    seq![108u8, 97u8, 115u8, 116u8, 95u8, 97u8, 112u8, 112u8, 104u8, 97u8, 115u8, 104u8]
}

fn app_hash_key_bytes() -> (r: Vec<u8>)
    ensures
        r@ == app_hash_key(),
{
    let r = vec![108u8, 97u8, 115u8, 116u8, 95u8, 97u8, 112u8, 112u8, 104u8, 97u8, 115u8, 104u8];
    assert(r@ =~= app_hash_key());
    r
}

/// What `m` maps `k` to, if anything.
pub open spec fn stored_at(m: Map<Seq<u8>, Seq<u8>>, k: Seq<u8>) -> Option<Seq<u8>> {
    if m.contains_key(k) { Some(m[k]) } else { None }
}

pub open spec fn hash_view(h: Option<AppHash>) -> Option<Seq<u8>> {
    match h {
        Some(x) => Some(x@),
        None => None,
    }
}

/// What a chain check decides from the stored checkpoint and the claimed one:
/// `Ok` to ask the enclave to confirm, or `Err` with the checkpoint to report.
/// A stored value that is not 32 bytes long reads as no checkpoint known.
pub open spec fn chain_check_decision(stored: Option<Seq<u8>>, claimed: Option<AppHash>) -> Result<(), Option<Seq<u8>>> {
    if stored matches Some(b) && b.len() != 32 {
        Err(None)
    } else if hash_view(claimed) == stored {
        Ok(())
    } else {
        Err(stored)
    }
}

/// The values of `ids` in `m`, in order, if every one is there.
pub open spec fn resolve(m: Map<Seq<u8>, Seq<u8>>, ids: Seq<Seq<u8>>) -> Option<Seq<Seq<u8>>> {
    if forall|i: int| 0 <= i < ids.len() ==> m.contains_key(#[trigger] ids[i]) {
        Some(ids.map_values(|k: Seq<u8>| m[k]))
    } else {
        None
    }
}

pub open spec fn id_views(ids: Seq<TxId>) -> Seq<Seq<u8>> {
    ids.map_values(|id: TxId| id@)
}

pub open spec fn input_ids(ps: Seq<TxoPointer>) -> Seq<Seq<u8>> {
    ps.map_values(|p: TxoPointer| p.id@)
}

pub open spec fn blobs_view(r: Option<Vec<Vec<u8>>>) -> Option<Seq<Seq<u8>>> {
    match r {
        Some(v) => Some(v@.map_values(|b: Vec<u8>| b@)),
        None => None,
    }
}

/// What the server does next with a request.
#[derive(Debug, PartialEq, Eq)]
pub enum Step {
    /// Send this reply.
    Reply(EnclaveResponse),
    /// Ask the enclave to confirm the chain id and checkpoint; reply with its answer.
    CheckChain { chain_hex_id: u8, last_app_hash: Option<AppHash> },
    /// Ask the enclave to validate a transfer spending these outputs.
    VerifyTransfer { tx: TxAux, inputs: Vec<Vec<u8>>, info: ChainInfo },
    /// Ask the enclave to validate a deposit spending these outputs.
    VerifyDeposit { tx: TxAux, inputs: Vec<Vec<u8>>, account: Option<StakedState>, info: ChainInfo },
    /// Ask the enclave to validate a withdrawal from this account.
    VerifyWithdraw { tx: TxAux, account: StakedState, info: ChainInfo },
}

/// The reply to a chain check, given the store's contents and whether its
/// reads succeed.
pub open spec fn check_chain_post(
    m: Map<Seq<u8>, Seq<u8>>,
    reads_ok: bool,
    chain_hex_id: u8,
    claimed: Option<AppHash>,
    r: Step,
) -> bool {
    &&& (r is CheckChain || r matches Step::Reply(EnclaveResponse::CheckChain(Err(_))))
    &&& reads_ok ==> match chain_check_decision(stored_at(m, app_hash_key()), claimed) {
        Ok(()) => r == Step::CheckChain { chain_hex_id, last_app_hash: claimed },
        Err(obs) => r matches Step::Reply(EnclaveResponse::CheckChain(Err(o))) && hash_view(o) == obs,
    }
}

/// The reply to a transaction check, given the transaction store's contents
/// and whether its reads succeed.
pub open spec fn verify_tx_post(m: Map<Seq<u8>, Seq<u8>>, reads_ok: bool, req: VerifyTxRequest, r: Step) -> bool {
    let invalid = Step::Reply(EnclaveResponse::VerifyTx(Err(TxError::InvalidInput)));
    match req.tx {
        TxAux::TransferTx { inputs, .. } => match r {
            Step::VerifyTransfer { tx, inputs: blobs, info } => tx == req.tx && info == req.info
                && resolve(m, input_ids(inputs@)) == blobs_view(Some(blobs)),
            _ => r == invalid && (reads_ok ==> resolve(m, input_ids(inputs@)) is None),
        },
        TxAux::DepositStakeTx { inputs, .. } => match r {
            Step::VerifyDeposit { tx, inputs: blobs, account, info } => tx == req.tx && info == req.info
                && account == req.account && resolve(m, input_ids(inputs@)) == blobs_view(Some(blobs)),
            _ => r == invalid && (reads_ok ==> resolve(m, input_ids(inputs@)) is None),
        },
        TxAux::WithdrawUnbondedStakeTx { .. } => match req.account {
            Some(account) => r == Step::VerifyWithdraw { tx: req.tx, account, info: req.info },
            None => r == invalid,
        },
        TxAux::UnbondStakeTx { .. } => r == invalid,
    }
}

/// The outcome of a durable write of `key`: it succeeds on a store whose
/// writes and flushes succeed; on success the key holds `value`; on failure
/// the contents are as before (when the store's writes succeed, so that the
/// old value could be put back).
pub open spec fn durable_write_post(
    before: Map<Seq<u8>, Seq<u8>>,
    after: Map<Seq<u8>, Seq<u8>>,
    writes_ok: bool,
    flushes_ok: bool,
    key: Seq<u8>,
    value: Seq<u8>,
    ok: bool,
) -> bool {
    &&& writes_ok && flushes_ok ==> ok
    &&& ok ==> after == before.insert(key, value)
    &&& !ok && writes_ok ==> after == before
}

/// The outcome of reading a cached token: absence reads as none, and a store
/// whose reads succeed gives what it holds.
pub open spec fn token_read_post(m: Map<Seq<u8>, Seq<u8>>, reads_ok: bool, name: Seq<u8>, r: Option<Vec<u8>>) -> bool {
    &&& !m.contains_key(name) ==> r is None
    &&& r matches Some(t) ==> stored_at(m, name) == Some(t@)
    &&& reads_ok && m.contains_key(name) ==> (r matches Some(t) && t@ == m[name])
}

/// The outcome of a lookup of sealed outputs: whatever is returned is the
/// full resolution, and a store whose reads succeed always resolves.
pub open spec fn lookup_post(m: Map<Seq<u8>, Seq<u8>>, reads_ok: bool, ids: Seq<Seq<u8>>, r: Option<Vec<Vec<u8>>>) -> bool {
    &&& r is Some ==> blobs_view(r) == resolve(m, ids)
    &&& reads_ok ==> blobs_view(r) == resolve(m, ids)
}

/// Copies a 32-byte string into a checkpoint.
fn hash_from_bytes(b: &[u8]) -> (r: Option<AppHash>)
    ensures
        b@.len() != 32 ==> r is None,
        b@.len() == 32 ==> (r matches Some(h) && h@ == b@),
{
    if b.len() != 32 {
        return None;
    }
    let mut h: [u8; 32] = [0u8; 32];
    let mut i: usize = 0;
    while i < 32
        invariant
            b@.len() == 32,
            0 <= i <= 32,
            h@.len() == 32,
            forall|j: int| 0 <= j < i ==> h@[j] == b@[j],
        decreases 32 - i,
    {
        h[i] = b[i];
        i = i + 1;
    }
    assert(h@ =~= b@);
    Some(h)
}

fn same_hash(a: &Option<AppHash>, b: &Option<AppHash>) -> (r: bool)
    ensures
        r == (hash_view(*a) == hash_view(*b)),
{
    match (a, b) {
        (Some(x), Some(y)) => crate::bytes::bytes_eq(x.as_slice(), y.as_slice()),
        (None, None) => true,
        _ => false,
    }
}

/// Writes `key` and flushes; when the flush fails, puts back what was there.
fn durable_set<S: Storage>(store: &mut S, key: &[u8], value: Vec<u8>) -> (r: Result<(), ()>)
    requires
        old(store).inv(),
    ensures
        final(store).inv(),
        final(store).writes_succeed() == old(store).writes_succeed(),
        final(store).flushes_succeed() == old(store).flushes_succeed(),
        old(store).writes_succeed() && old(store).flushes_succeed() ==> r is Ok,
        r is Ok ==> final(store).entries() == old(store).entries().insert(key@, value@),
        r is Err && old(store).writes_succeed() ==> final(store).entries() == old(store).entries(),
{
    let ghost value_view = value@;
    match store.set(key, value) {
        Err(_) => Err(()),
        Ok(previous) => match store.flush() {
            Ok(()) => Ok(()),
            Err(_) => {
                match previous {
                    Some(v) => {
                        let _ = store.set(key, v);
                    },
                    None => {
                        let _ = store.remove(key);
                    },
                }
                assert(old(store).writes_succeed() ==> final(store).entries() =~= old(store).entries());
                Err(())
            },
        },
    }
}

/// The server's state: the transaction store (sealed outputs and the
/// checkpoint) and the metadata store (launch tokens).
pub struct TxValidationServer<S: Storage> {
    pub txdb: S,
    pub metadb: S,
}

impl<S: Storage> TxValidationServer<S> {
    pub open spec fn inv(&self) -> bool {
        self.txdb.inv() && self.metadb.inv()
    }

    /// A server over the two stores.
    pub fn new(txdb: S, metadb: S) -> (r: Self)
        ensures
            r.txdb == txdb,
            r.metadb == metadb,
    {
        TxValidationServer { txdb, metadb }
    }

    /// The sealed outputs of `ids`, in order, or none if any is missing.
    pub fn lookup_txids(&self, ids: &Vec<TxId>) -> (r: Option<Vec<Vec<u8>>>)
        requires
            self.txdb.inv(),
        ensures
            lookup_post(self.txdb.entries(), self.txdb.writes_succeed(), id_views(ids@), r),
    {
        let ghost m = self.txdb.entries();
        let ghost keys = id_views(ids@);
        let mut out: Vec<Vec<u8>> = Vec::new();
        let mut i: usize = 0;
        while i < ids.len()
            invariant
                self.txdb.inv(),
                m == self.txdb.entries(),
                keys == id_views(ids@),
                0 <= i <= ids@.len(),
                out@.len() == i,
                forall|j: int| 0 <= j < i ==> m.contains_key(#[trigger] keys[j]),
                forall|j: int| 0 <= j < i ==> (#[trigger] out@[j])@ == m[keys[j]],
            decreases ids@.len() - i,
        {
            match self.txdb.get(ids[i].as_slice()) {
                Ok(Some(v)) => {
                    out.push(v);
                },
                Ok(None) => {
                    assert(!m.contains_key(keys[i as int]));
                    return None;
                },
                Err(_) => {
                    return None;
                },
            }
            i = i + 1;
        }
        assert(blobs_view(Some(out)).unwrap() =~= keys.map_values(|k: Seq<u8>| m[k]));
        Some(out)
    }

    /// The sealed outputs that a transaction spends, for the kinds that spend any.
    pub fn lookup(&self, tx: &TxAux) -> (r: Option<Vec<Vec<u8>>>)
        requires
            self.txdb.inv(),
        ensures
            tx.spent() is None ==> r is None,
            tx.spent() is Some
                ==> lookup_post(self.txdb.entries(), self.txdb.writes_succeed(), input_ids(tx.spent().unwrap()), r),
    {
        match tx {
            TxAux::TransferTx { inputs, .. } => {
                let ids = pointer_ids(inputs);
                self.lookup_txids(&ids)
            },
            TxAux::DepositStakeTx { inputs, .. } => {
                let ids = pointer_ids(inputs);
                self.lookup_txids(&ids)
            },
            _ => None,
        }
    }

    /// Compares the claimed checkpoint with the stored one.
    pub fn check_chain(&self, chain_hex_id: u8, last_app_hash: Option<AppHash>) -> (r: Step)
        requires
            self.txdb.inv(),
        ensures
            check_chain_post(self.txdb.entries(), self.txdb.writes_succeed(), chain_hex_id, last_app_hash, r),
    {
        let key = app_hash_key_bytes();
        match self.txdb.get(key.as_slice()) {
            Err(_) => Step::Reply(EnclaveResponse::CheckChain(Err(None))),
            Ok(stored) => {
                let observed: Option<AppHash> = match stored {
                    None => None,
                    Some(b) => match hash_from_bytes(b.as_slice()) {
                        Some(h) => Some(h),
                        None => {
                            return Step::Reply(EnclaveResponse::CheckChain(Err(None)));
                        },
                    },
                };
                if same_hash(&last_app_hash, &observed) {
                    Step::CheckChain { chain_hex_id, last_app_hash }
                } else {
                    Step::Reply(EnclaveResponse::CheckChain(Err(observed)))
                }
            },
        }
    }

    /// Records a checkpoint durably; on failure the previous one stays.
    pub fn commit_block(&mut self, app_hash: AppHash) -> (r: EnclaveResponse)
        requires
            old(self).inv(),
        ensures
            final(self).inv(),
            final(self).metadb == old(self).metadb,
            final(self).txdb.writes_succeed() == old(self).txdb.writes_succeed(),
            final(self).txdb.flushes_succeed() == old(self).txdb.flushes_succeed(),
            r matches EnclaveResponse::CommitBlock(res) && durable_write_post(
                old(self).txdb.entries(), final(self).txdb.entries(),
                old(self).txdb.writes_succeed(), old(self).txdb.flushes_succeed(),
                app_hash_key(), app_hash@, res is Ok),
    {
        let key = app_hash_key_bytes();
        let value = copy_bytes(app_hash.as_slice());
        match durable_set(&mut self.txdb, key.as_slice(), value) {
            Ok(()) => EnclaveResponse::CommitBlock(Ok(())),
            Err(()) => EnclaveResponse::CommitBlock(Err(())),
        }
    }

    /// Resolves what a transaction needs and names the enclave check to run,
    /// or replies that the transaction does not fit the state sent with it.
    pub fn verify_tx(&self, req: VerifyTxRequest) -> (r: Step)
        requires
            self.txdb.inv(),
        ensures
            verify_tx_post(self.txdb.entries(), self.txdb.writes_succeed(), req, r),
    {
        let VerifyTxRequest { tx, account, info } = req;
        let resolved = self.lookup(&tx);
        match tx {
            TxAux::TransferTx { inputs, body } => match resolved {
                Some(blobs) => Step::VerifyTransfer { tx: TxAux::TransferTx { inputs, body }, inputs: blobs, info },
                None => Step::Reply(EnclaveResponse::VerifyTx(Err(TxError::InvalidInput))),
            },
            TxAux::DepositStakeTx { inputs, body } => match resolved {
                Some(blobs) => Step::VerifyDeposit {
                    tx: TxAux::DepositStakeTx { inputs, body },
                    inputs: blobs,
                    account,
                    info,
                },
                None => Step::Reply(EnclaveResponse::VerifyTx(Err(TxError::InvalidInput))),
            },
            TxAux::WithdrawUnbondedStakeTx { body } => match account {
                Some(a) => Step::VerifyWithdraw { tx: TxAux::WithdrawUnbondedStakeTx { body }, account: a, info },
                None => Step::Reply(EnclaveResponse::VerifyTx(Err(TxError::InvalidInput))),
            },
            TxAux::UnbondStakeTx { .. } => Step::Reply(EnclaveResponse::VerifyTx(Err(TxError::InvalidInput))),
        }
    }

    /// The launch token cached under `name`; absence is not an error.
    pub fn get_cached_launch_token(&self, name: &[u8]) -> (r: EnclaveResponse)
        requires
            self.metadb.inv(),
        ensures
            r matches EnclaveResponse::GetCachedLaunchToken(t)
                && token_read_post(self.metadb.entries(), self.metadb.writes_succeed(), name@, t),
    {
        match self.metadb.get(name) {
            Ok(Some(t)) => EnclaveResponse::GetCachedLaunchToken(Some(t)),
            _ => EnclaveResponse::GetCachedLaunchToken(None),
        }
    }

    /// Stores `token` under `name` durably.
    pub fn update_cached_launch_token(&mut self, name: &[u8], token: Vec<u8>) -> (r: EnclaveResponse)
        requires
            old(self).inv(),
        ensures
            final(self).inv(),
            final(self).txdb == old(self).txdb,
            final(self).metadb.writes_succeed() == old(self).metadb.writes_succeed(),
            final(self).metadb.flushes_succeed() == old(self).metadb.flushes_succeed(),
            r matches EnclaveResponse::UpdateCachedLaunchToken(res) && durable_write_post(
                old(self).metadb.entries(), final(self).metadb.entries(),
                old(self).metadb.writes_succeed(), old(self).metadb.flushes_succeed(),
                name@, token@, res is Ok),
    {
        match durable_set(&mut self.metadb, name, token) {
            Ok(()) => EnclaveResponse::UpdateCachedLaunchToken(Ok(())),
            Err(()) => EnclaveResponse::UpdateCachedLaunchToken(Err(())),
        }
    }

    /// Handles one request. A request that could not be decoded (`None`)
    /// gets `UnknownRequest`; the server goes on either way.
    pub fn execute(&mut self, req: Option<EnclaveRequest>) -> (r: Step)
        requires
            old(self).inv(),
        ensures
            final(self).inv(),
            match req {
                None => r == Step::Reply(EnclaveResponse::UnknownRequest)
                    && *final(self) == *old(self),
                Some(EnclaveRequest::CheckChain { chain_hex_id, last_app_hash }) => *final(self) == *old(self)
                    && check_chain_post(
                        old(self).txdb.entries(), old(self).txdb.writes_succeed(), chain_hex_id, last_app_hash, r),
                Some(EnclaveRequest::VerifyTx(v)) => *final(self) == *old(self)
                    && verify_tx_post(old(self).txdb.entries(), old(self).txdb.writes_succeed(), v, r),
                Some(EnclaveRequest::CommitBlock { app_hash }) => final(self).metadb == old(self).metadb
                    && final(self).txdb.writes_succeed() == old(self).txdb.writes_succeed()
                    && final(self).txdb.flushes_succeed() == old(self).txdb.flushes_succeed()
                    && (r matches Step::Reply(EnclaveResponse::CommitBlock(res)) && durable_write_post(
                        old(self).txdb.entries(), final(self).txdb.entries(),
                        old(self).txdb.writes_succeed(), old(self).txdb.flushes_succeed(),
                        app_hash_key(), app_hash@, res is Ok)),
                Some(EnclaveRequest::GetCachedLaunchToken { enclave_metaname }) => *final(self) == *old(self)
                    && (r matches Step::Reply(EnclaveResponse::GetCachedLaunchToken(t)) && token_read_post(
                        old(self).metadb.entries(), old(self).metadb.writes_succeed(), enclave_metaname@, t)),
                Some(EnclaveRequest::UpdateCachedLaunchToken { enclave_metaname, token }) =>
                    final(self).txdb == old(self).txdb
                    && final(self).metadb.writes_succeed() == old(self).metadb.writes_succeed()
                    && final(self).metadb.flushes_succeed() == old(self).metadb.flushes_succeed()
                    && (r matches Step::Reply(EnclaveResponse::UpdateCachedLaunchToken(res)) && durable_write_post(
                        old(self).metadb.entries(), final(self).metadb.entries(),
                        old(self).metadb.writes_succeed(), old(self).metadb.flushes_succeed(),
                        enclave_metaname@, token@, res is Ok)),
                Some(EnclaveRequest::GetSealedTxData { txids }) => *final(self) == *old(self)
                    && (r matches Step::Reply(EnclaveResponse::GetSealedTxData(d)) && lookup_post(
                        old(self).txdb.entries(), old(self).txdb.writes_succeed(), id_views(txids@), d)),
            },
    {
        match req {
            None => Step::Reply(EnclaveResponse::UnknownRequest),
            Some(EnclaveRequest::CheckChain { chain_hex_id, last_app_hash }) =>
                self.check_chain(chain_hex_id, last_app_hash),
            Some(EnclaveRequest::VerifyTx(v)) => self.verify_tx(v),
            Some(EnclaveRequest::CommitBlock { app_hash }) => Step::Reply(self.commit_block(app_hash)),
            Some(EnclaveRequest::GetCachedLaunchToken { enclave_metaname }) =>
                Step::Reply(self.get_cached_launch_token(enclave_metaname.as_slice())),
            Some(EnclaveRequest::UpdateCachedLaunchToken { enclave_metaname, token }) =>
                Step::Reply(self.update_cached_launch_token(enclave_metaname.as_slice(), token)),
            Some(EnclaveRequest::GetSealedTxData { txids }) =>
                Step::Reply(EnclaveResponse::GetSealedTxData(self.lookup_txids(&txids))),
        }
    }
}

/// On a fresh chain (no checkpoint stored) a claim of none goes on to the
/// enclave.
pub proof fn lemma_fresh_chain_accepted(m: Map<Seq<u8>, Seq<u8>>)
    requires
        !m.contains_key(app_hash_key()),
    ensures
        chain_check_decision(stored_at(m, app_hash_key()), None) == Ok::<(), Option<Seq<u8>>>(()),
{
}

/// A claim equal to the stored checkpoint goes on to the enclave.
pub proof fn lemma_matching_checkpoint_accepted(m: Map<Seq<u8>, Seq<u8>>, h: AppHash)
    requires
        m.contains_key(app_hash_key()),
        m[app_hash_key()] == h@,
    ensures
        chain_check_decision(stored_at(m, app_hash_key()), Some(h)) == Ok::<(), Option<Seq<u8>>>(()),
{
}

/// Any other claim is refused with the stored checkpoint.
pub proof fn lemma_other_checkpoint_refused(m: Map<Seq<u8>, Seq<u8>>, h: AppHash, claimed: Option<AppHash>)
    requires
        m.contains_key(app_hash_key()),
        m[app_hash_key()] == h@,
        hash_view(claimed) != Some(h@),
    ensures
        chain_check_decision(stored_at(m, app_hash_key()), claimed) == Err::<(), Option<Seq<u8>>>(Some(h@)),
{
}

/// After a checkpoint is committed, a chain check claiming it goes on to the
/// enclave; after a failed commit on a store whose writes succeed, the
/// checkpoint stored before is still the one a check sees.
pub proof fn lemma_commit_then_check(
    before: Map<Seq<u8>, Seq<u8>>,
    after: Map<Seq<u8>, Seq<u8>>,
    flushes_ok: bool,
    h: AppHash,
    ok: bool,
)
    requires
        durable_write_post(before, after, true, flushes_ok, app_hash_key(), h@, ok),
    ensures
        ok ==> chain_check_decision(stored_at(after, app_hash_key()), Some(h)) == Ok::<(), Option<Seq<u8>>>(()),
        !ok ==> stored_at(after, app_hash_key()) == stored_at(before, app_hash_key()),
{
}

/// Resolution is all or nothing: one missing id leaves nothing resolved.
pub proof fn lemma_lookup_all_or_nothing(m: Map<Seq<u8>, Seq<u8>>, ids: Seq<Seq<u8>>, i: int)
    requires
        0 <= i < ids.len(),
        !m.contains_key(ids[i]),
    ensures
        resolve(m, ids) is None,
{
}

/// When every id is present, resolution gives one value per id, in order.
pub proof fn lemma_lookup_resolved(m: Map<Seq<u8>, Seq<u8>>, ids: Seq<Seq<u8>>)
    requires
        forall|i: int| 0 <= i < ids.len() ==> m.contains_key(#[trigger] ids[i]),
    ensures
        resolve(m, ids) matches Some(vs) && vs.len() == ids.len()
            && forall|i: int| 0 <= i < ids.len() ==> #[trigger] vs[i] == m[ids[i]],
{
}

/// The transaction ids that a list of output references points into.
fn pointer_ids(ps: &Vec<TxoPointer>) -> (r: Vec<TxId>)
    ensures
        id_views(r@) == input_ids(ps@),
{
    let mut out: Vec<TxId> = Vec::new();
    let mut i: usize = 0;
    while i < ps.len()
        invariant
            0 <= i <= ps@.len(),
            out@.len() == i,
            forall|j: int| 0 <= j < i ==> (#[trigger] out@[j]) == ps@[j].id,
        decreases ps@.len() - i,
    {
        out.push(ps[i].id);
        i = i + 1;
    }
    assert(id_views(out@) =~= input_ids(ps@));
    out
}

} // verus!
