//! Transaction witnesses and their canonical wire encoding.
//!
//! Each input witness starts with a tag byte and a marker byte, read together:
//! `(0, 2)` is a recoverable ECDSA signature (a recovery id and 64 bytes), and
//! `(1, 3)` a Schnorr signature (64 bytes) with a Merkle inclusion proof of a
//! raw public key. Any other pair, and any truncated or malformed input, is a
//! decode failure.
use vstd::prelude::*;
use crate::bytes::{append_bytes, copy_range};
use crate::codec::{
    compact_bytes, decode_compact, encode_compact, lemma_compact_round_trip, parse_compact,
    MAX_COMPACT_LEN,
};

verus! {

/// Length of a raw signature.
pub const SIGNATURE_LEN: usize = 64;

/// Length of a node hash in a Merkle proof.
pub const HASH_LEN: usize = 32;

/// Length of a raw (compressed) public key.
pub const PUBKEY_LEN: usize = 33;

/// Length of one encoded proof step: a side byte and a hash.
pub const STEP_LEN: usize = 33;

/// Whether 64 bytes and a recovery id form a recoverable ECDSA signature.
pub uninterp spec fn ecdsa_compact_parses(sig: Seq<u8>, recovery_id: u8) -> bool;

/// Relies on secp256k1's `RecoverableSignature::from_compact` (with the id
/// built by `RecoveryId::from_i32`, which accepts 0..=3): whether the bytes
/// parse as a recoverable signature.
#[verifier::external_body]
fn recoverable_signature_parses(sig: &[u8], recovery_id: u8) -> (r: bool)
    requires
        sig@.len() == 64,
        recovery_id < 4,
    ensures
        r == ecdsa_compact_parses(sig@, recovery_id),
{
    match secp256k1::recovery::RecoveryId::from_i32(recovery_id as i32) {
        Ok(id) => secp256k1::recovery::RecoverableSignature::from_compact(sig, id).is_ok(),
        Err(_) => false,
    }
}

/// Relies on secp256k1's `schnorrsig::Signature::from_slice`: it accepts
/// exactly the slices of 64 bytes.
#[verifier::external_body]
fn schnorr_signature_parses(sig: &[u8]) -> (r: bool)
    ensures
        r == (sig@.len() == 64),
{
    secp256k1::schnorrsig::Signature::from_slice(sig).is_ok()
}

/// One step of a Merkle inclusion proof: the sibling hash and its side.
#[derive(Debug, Clone, PartialEq, Eq)]
pub struct ProofStep {
    pub sibling_on_left: bool,
    pub hash: Vec<u8>,
}

/// A Merkle inclusion proof of a raw public key.
#[derive(Debug, Clone, PartialEq, Eq)]
pub struct MerkleProof {
    pub path: Vec<ProofStep>,
    pub leaf: Vec<u8>,
}

/// The proof of one transaction input.
#[derive(Debug, Clone, PartialEq, Eq)]
pub enum TxInWitness {
    /// A recoverable ECDSA signature: recovery id and 64-byte compact form.
    BasicRedeem { recovery_id: u8, signature: Vec<u8> },
    /// A 64-byte Schnorr signature and the proof that its key is in the tree.
    TreeSig { signature: Vec<u8>, proof: MerkleProof },
}

pub struct ProofStepView {
    pub sibling_on_left: bool,
    pub hash: Seq<u8>,
}

pub struct MerkleProofView {
    pub path: Seq<ProofStepView>,
    pub leaf: Seq<u8>,
}

pub enum TxInWitnessView {
    BasicRedeem { recovery_id: u8, signature: Seq<u8> },
    TreeSig { signature: Seq<u8>, proof: MerkleProofView },
}

impl View for ProofStep {
    type V = ProofStepView;

    open spec fn view(&self) -> ProofStepView {
        ProofStepView { sibling_on_left: self.sibling_on_left, hash: self.hash@ }
    }
}

pub open spec fn steps_view(p: Seq<ProofStep>) -> Seq<ProofStepView> {
    p.map_values(|st: ProofStep| st@)
}

impl View for MerkleProof {
    type V = MerkleProofView;

    open spec fn view(&self) -> MerkleProofView {
        MerkleProofView { path: steps_view(self.path@), leaf: self.leaf@ }
    }
}

impl View for TxInWitness {
    type V = TxInWitnessView;

    open spec fn view(&self) -> TxInWitnessView {
        match self {
            TxInWitness::BasicRedeem { recovery_id, signature } =>
                TxInWitnessView::BasicRedeem { recovery_id: *recovery_id, signature: signature@ },
            TxInWitness::TreeSig { signature, proof } =>
                TxInWitnessView::TreeSig { signature: signature@, proof: proof@ },
        }
    }
}

/// A proof whose parts have their fixed lengths.
pub open spec fn proof_wf(p: MerkleProofView) -> bool {
    &&& p.path.len() <= MAX_COMPACT_LEN
    &&& forall|i: int| 0 <= i < p.path.len() ==> (#[trigger] p.path[i]).hash.len() == HASH_LEN
    &&& p.leaf.len() == PUBKEY_LEN
}

/// A witness that can be constructed: fixed lengths hold and the signature
/// bytes parse as the signature kind of the variant.
pub open spec fn witness_wf(w: TxInWitnessView) -> bool {
    match w {
        TxInWitnessView::BasicRedeem { recovery_id, signature } => {
            &&& recovery_id < 4
            &&& signature.len() == SIGNATURE_LEN
            &&& ecdsa_compact_parses(signature, recovery_id)
        },
        TxInWitnessView::TreeSig { signature, proof } => {
            &&& signature.len() == SIGNATURE_LEN
            &&& proof_wf(proof)
        },
    }
}

pub open spec fn step_bytes(st: ProofStepView) -> Seq<u8> {
    seq![if st.sibling_on_left { 1u8 } else { 0u8 }] + st.hash
}

pub open spec fn steps_bytes(p: Seq<ProofStepView>) -> Seq<u8>
    decreases p.len(),
{
    if p.len() == 0 {
        Seq::empty()
    } else {
        steps_bytes(p.drop_last()) + step_bytes(p.last())
    }
}

pub open spec fn proof_bytes(p: MerkleProofView) -> Seq<u8> {
    compact_bytes(p.path.len()) + steps_bytes(p.path) + p.leaf
}

/// The canonical encoding of a witness.
pub open spec fn witness_bytes(w: TxInWitnessView) -> Seq<u8> {
    match w {
        TxInWitnessView::BasicRedeem { recovery_id, signature } =>
            seq![0u8, 2u8, recovery_id] + signature,
        TxInWitnessView::TreeSig { signature, proof } =>
            seq![1u8, 3u8] + signature + proof_bytes(proof),
    }
}

/// A witness whose proof path a compact prefix can count.
pub open spec fn encodable(w: TxInWitnessView) -> bool {
    w matches TxInWitnessView::TreeSig { proof, .. } ==> proof.path.len() <= MAX_COMPACT_LEN
}

/// The proof step encoded at index `i` of `s`.
pub open spec fn step_at(s: Seq<u8>, i: int) -> ProofStepView {
    ProofStepView {
        sibling_on_left: s[STEP_LEN * i] == 1,
        hash: s.subrange(STEP_LEN * i + 1, STEP_LEN * i + STEP_LEN),
    }
}

/// Reads `n` proof steps from the start of `s`.
pub open spec fn parse_steps(s: Seq<u8>, n: nat) -> Option<Seq<ProofStepView>> {
    if s.len() >= STEP_LEN * n && forall|i: int| 0 <= i < n ==> #[trigger] s[STEP_LEN * i] < 2 {
        Some(Seq::new(n, |i: int| step_at(s, i)))
    } else {
        None
    }
}

/// Reads a Merkle proof from the start of `s`, with the number of bytes used.
pub open spec fn parse_proof(s: Seq<u8>) -> Option<(MerkleProofView, nat)> {
    match parse_compact(s) {
        Some((n, k)) => {
            let body = s.subrange(k as int, s.len() as int);
            if body.len() < STEP_LEN * n + PUBKEY_LEN {
                None
            } else {
                match parse_steps(body, n) {
                    Some(path) => Some((
                        MerkleProofView {
                            path,
                            leaf: body.subrange(STEP_LEN * n, STEP_LEN * n + PUBKEY_LEN),
                        },
                        (k + STEP_LEN * n + PUBKEY_LEN) as nat,
                    )),
                    None => None,
                }
            }
        },
        None => None,
    }
}

/// Reads a witness from the start of `s`, with the number of bytes used.
pub open spec fn parse_witness(s: Seq<u8>) -> Option<(TxInWitnessView, nat)> {
    if s.len() < 2 {
        None
    } else if s[0] == 0 && s[1] == 2 {
        if s.len() < 3 + SIGNATURE_LEN || s[2] >= 4 {
            None
        } else {
            let signature = s.subrange(3, 3 + SIGNATURE_LEN);
            if ecdsa_compact_parses(signature, s[2]) {
                Some((TxInWitnessView::BasicRedeem { recovery_id: s[2], signature }, (3 + SIGNATURE_LEN) as nat))
            } else {
                None
            }
        }
    } else if s[0] == 1 && s[1] == 3 {
        if s.len() < 2 + SIGNATURE_LEN {
            None
        } else {
            let signature = s.subrange(2, 2 + SIGNATURE_LEN);
            match parse_proof(s.subrange(2 + SIGNATURE_LEN, s.len() as int)) {
                Some((proof, k)) => Some((TxInWitnessView::TreeSig { signature, proof }, (2 + SIGNATURE_LEN + k) as nat)),
                None => None,
            }
        }
    } else {
        None
    }
}

proof fn lemma_steps_bytes(p: Seq<ProofStepView>)
    requires
        forall|i: int| 0 <= i < p.len() ==> (#[trigger] p[i]).hash.len() == HASH_LEN,
    ensures
        steps_bytes(p).len() == STEP_LEN * p.len(),
        forall|i: int| 0 <= i < p.len()
            ==> steps_bytes(p).subrange(STEP_LEN * i, STEP_LEN * i + STEP_LEN) == step_bytes(#[trigger] p[i]),
    decreases p.len(),
{
    if p.len() > 0 {
        let q = p.drop_last();
        assert forall|i: int| 0 <= i < q.len() implies (#[trigger] q[i]).hash.len() == HASH_LEN by {
            assert(q[i] == p[i]);
        }
        lemma_steps_bytes(q);
        let n = q.len() as int;
        assert(STEP_LEN * (n + 1) == STEP_LEN * n + STEP_LEN);
        assert forall|i: int| 0 <= i < p.len() implies
            steps_bytes(p).subrange(STEP_LEN * i, STEP_LEN * i + STEP_LEN) == step_bytes(#[trigger] p[i]) by {
            if i < n {
                assert(q[i] == p[i]);
                assert(STEP_LEN * i + STEP_LEN <= STEP_LEN * n) by (nonlinear_arith)
                    requires i < n, i >= 0;
                assert(steps_bytes(p).subrange(STEP_LEN * i, STEP_LEN * i + STEP_LEN)
                    =~= steps_bytes(q).subrange(STEP_LEN * i, STEP_LEN * i + STEP_LEN));
            } else {
                assert(steps_bytes(p).subrange(STEP_LEN * i, STEP_LEN * i + STEP_LEN) =~= step_bytes(p.last()));
            }
        }
    }
}

proof fn lemma_proof_round_trip(p: MerkleProofView, rest: Seq<u8>)
    requires
        proof_wf(p),
    ensures
        parse_proof(proof_bytes(p) + rest) == Some((p, proof_bytes(p).len())),
{
    let n = p.path.len();
    let steps = steps_bytes(p.path);
    let s = proof_bytes(p) + rest;
    lemma_steps_bytes(p.path);
    lemma_compact_round_trip(n, steps + p.leaf + rest);
    assert(s =~= compact_bytes(n) + (steps + p.leaf + rest));
    let k = compact_bytes(n).len();
    let body = s.subrange(k as int, s.len() as int);
    assert(body =~= steps + p.leaf + rest);
    assert forall|i: int| 0 <= i < n implies #[trigger] body[STEP_LEN * i] < 2 && step_at(body, i) == p.path[i] by {
        let st = p.path[i];
        assert(STEP_LEN * i + STEP_LEN <= STEP_LEN * n) by (nonlinear_arith)
            requires i < n, i >= 0;
        let chunk = steps.subrange(STEP_LEN * i, STEP_LEN * i + STEP_LEN);
        assert(chunk == step_bytes(st));
        assert(body[STEP_LEN * i] == chunk[0]);
        assert(step_at(body, i).hash =~= chunk.subrange(1, STEP_LEN as int));
        assert(chunk.subrange(1, STEP_LEN as int) =~= st.hash);
    }
    assert(Seq::new(n, |i: int| step_at(body, i)) =~= p.path);
    assert(body.subrange(STEP_LEN * n, STEP_LEN * n + PUBKEY_LEN) =~= p.leaf);
}

/// Reading back the encoding of a constructible witness, whatever follows it,
/// gives the witness and consumes exactly its encoding.
pub proof fn lemma_witness_round_trip(w: TxInWitnessView, rest: Seq<u8>)
    requires
        witness_wf(w),
    ensures
        parse_witness(witness_bytes(w) + rest) == Some((w, witness_bytes(w).len())),
{
    let s = witness_bytes(w) + rest;
    match w {
        TxInWitnessView::BasicRedeem { recovery_id, signature } => {
            assert(s.subrange(3, 3 + SIGNATURE_LEN) =~= signature);
        },
        TxInWitnessView::TreeSig { signature, proof } => {
            assert(s.subrange(2, 2 + SIGNATURE_LEN) =~= signature);
            lemma_proof_round_trip(proof, rest);
            assert(s.subrange(2 + SIGNATURE_LEN, s.len() as int) =~= proof_bytes(proof) + rest);
        },
    }
}

impl TxInWitness {
    /// The canonical encoding.
    pub fn encode(&self) -> (r: Vec<u8>)
        requires
            encodable(self@),
        ensures
            r@ == witness_bytes(self@),
    {
        let mut out: Vec<u8> = Vec::new();
        match self {
            TxInWitness::BasicRedeem { recovery_id, signature } => {
                out.push(0u8);
                out.push(2u8);
                out.push(*recovery_id);
                append_bytes(&mut out, signature.as_slice());
            },
            TxInWitness::TreeSig { signature, proof } => {
                out.push(1u8);
                out.push(3u8);
                append_bytes(&mut out, signature.as_slice());
                encode_proof(proof, &mut out);
            },
        }
        assert(out@ =~= witness_bytes(self@));
        out
    }

    /// Reads a witness at `pos`: the witness and the position after it.
    pub fn decode_at(s: &[u8], pos: usize) -> (r: Option<(TxInWitness, usize)>)
        requires
            pos <= s@.len(),
        ensures
            match parse_witness(s@.subrange(pos as int, s@.len() as int)) {
                Some((w, k)) => r matches Some((x, e)) && x@ == w && e == pos + k,
                None => r is None,
            },
    {
        let ghost t = s@.subrange(pos as int, s@.len() as int);
        if s.len() - pos < 2 {
            return None;
        }
        let tag = s[pos];
        let marker = s[pos + 1];
        assert(tag == t[0] && marker == t[1]);
        if tag == 0 && marker == 2 {
            if s.len() - pos < 3 + SIGNATURE_LEN {
                return None;
            }
            let recovery_id = s[pos + 2];
            assert(recovery_id == t[2]);
            if recovery_id >= 4 {
                return None;
            }
            let signature = copy_range(s, pos + 3, pos + 3 + SIGNATURE_LEN);
            assert(signature@ =~= t.subrange(3, 3 + SIGNATURE_LEN));
            if !recoverable_signature_parses(signature.as_slice(), recovery_id) {
                return None;
            }
            Some((TxInWitness::BasicRedeem { recovery_id, signature }, pos + 3 + SIGNATURE_LEN))
        } else if tag == 1 && marker == 3 {
            if s.len() - pos < 2 + SIGNATURE_LEN {
                return None;
            }
            let signature = copy_range(s, pos + 2, pos + 2 + SIGNATURE_LEN);
            assert(signature@ =~= t.subrange(2, 2 + SIGNATURE_LEN));
            if !schnorr_signature_parses(signature.as_slice()) {
                return None;
            }
            assert(s@.subrange((pos + 2 + SIGNATURE_LEN) as int, s@.len() as int)
                =~= t.subrange(2 + SIGNATURE_LEN, t.len() as int));
            match decode_proof_at(s, pos + 2 + SIGNATURE_LEN) {
                Some((proof, end)) => Some((TxInWitness::TreeSig { signature, proof }, end)),
                None => None,
            }
        } else {
            None
        }
    }

    /// Reads a witness that takes up all of `s`.
    pub fn decode(s: &[u8]) -> (r: Option<TxInWitness>)
        ensures
            match parse_witness(s@) {
                Some((w, k)) => if k == s@.len() { r matches Some(x) && x@ == w } else { r is None },
                None => r is None,
            },
    {
        assert(s@.subrange(0, s@.len() as int) =~= s@);
        match TxInWitness::decode_at(s, 0) {
            Some((w, end)) => if end == s.len() { Some(w) } else { None },
            None => None,
        }
    }
}

fn encode_proof(proof: &MerkleProof, out: &mut Vec<u8>)
    requires
        proof.path@.len() <= MAX_COMPACT_LEN,
    ensures
        final(out)@ == old(out)@ + proof_bytes(proof@),
{
    let n = proof.path.len();
    let prefix = encode_compact(n);
    append_bytes(out, prefix.as_slice());
    let mut i: usize = 0;
    while i < n
        invariant
            n == proof.path@.len(),
            0 <= i <= n,
            out@ == old(out)@ + compact_bytes(n as nat) + steps_bytes(steps_view(proof.path@).subrange(0, i as int)),
        decreases n - i,
    {
        let step = &proof.path[i];
        let ghost before = out@;
        out.push(if step.sibling_on_left { 1u8 } else { 0u8 });
        append_bytes(out, step.hash.as_slice());
        let ghost done = steps_view(proof.path@).subrange(0, i + 1);
        assert(done.drop_last() =~= steps_view(proof.path@).subrange(0, i as int));
        assert(done.last() == step@);
        assert(out@ =~= before + step_bytes(step@));
        i = i + 1;
    }
    assert(steps_view(proof.path@).subrange(0, n as int) =~= steps_view(proof.path@));
    append_bytes(out, proof.leaf.as_slice());
    assert(out@ =~= old(out)@ + proof_bytes(proof@));
}

fn decode_proof_at(s: &[u8], pos: usize) -> (r: Option<(MerkleProof, usize)>)
    requires
        pos <= s@.len(),
    ensures
        match parse_proof(s@.subrange(pos as int, s@.len() as int)) {
            Some((p, k)) => r matches Some((x, e)) && x@ == p && e == pos + k,
            None => r is None,
        },
{
    let ghost t = s@.subrange(pos as int, s@.len() as int);
    let (n, start) = match decode_compact(s, pos) {
        Some(v) => v,
        None => return None,
    };
    assert(s.len() - pos >= parse_compact(t).unwrap().1);
    assert(parse_compact(t) == Some((n as nat, (start - pos) as nat)));
    let ghost body = t.subrange((start - pos) as int, t.len() as int);
    assert(body =~= s@.subrange(start as int, s@.len() as int));
    if ((s.len() - start) as u64) < 33 * (n as u64) + 33 {
        return None;
    }
    assert(STEP_LEN * n + PUBKEY_LEN <= s@.len() - start);
    let mut path: Vec<ProofStep> = Vec::new();
    let mut i: usize = 0;
    while i < n
        invariant
            pos < start <= s@.len(),
            t == s@.subrange(pos as int, s@.len() as int),
            parse_compact(t) == Some((n as nat, (start - pos) as nat)),
            body == t.subrange((start - pos) as int, t.len() as int),
            body == s@.subrange(start as int, s@.len() as int),
            body.len() >= STEP_LEN * n + PUBKEY_LEN,
            0 <= i <= n,
            path@.len() == i,
            forall|j: int| 0 <= j < i ==> #[trigger] body[STEP_LEN * j] < 2,
            steps_view(path@) =~= Seq::new(i as nat, |j: int| step_at(body, j)),
        decreases n - i,
    {
        assert(STEP_LEN * i + STEP_LEN <= STEP_LEN * n) by (nonlinear_arith)
            requires i < n;
        let ghost prev = steps_view(path@);
        assert(33 * i + 33 <= s.len() - start);
        let at = start + 33 * i;
        let side = s[at];
        assert(side == body[STEP_LEN * i]);
        if side >= 2 {
            assert(!(forall|j: int| 0 <= j < n ==> #[trigger] body[STEP_LEN * j] < 2));
            assert(parse_steps(body, n as nat) is None);
            assert(parse_proof(t) is None);
            return None;
        }
        let hash = copy_range(s, at + 1, at + 33);
        assert(hash@ =~= body.subrange(STEP_LEN * i + 1, STEP_LEN * i + STEP_LEN));
        path.push(ProofStep { sibling_on_left: side == 1, hash });
        assert(steps_view(path@)[i as int] == step_at(body, i as int));
        assert forall|j: int| 0 <= j < i + 1 implies #[trigger] steps_view(path@)[j] == step_at(body, j) by {
            if j < i {
                assert(steps_view(path@)[j] == path@[j]@);
                assert(prev[j] == step_at(body, j));
            }
        }
        i = i + 1;
        assert(steps_view(path@) =~= Seq::new(i as nat, |j: int| step_at(body, j)));
    }
    let leaf_at = start + 33 * n;
    let leaf = copy_range(s, leaf_at, leaf_at + 33);
    assert(leaf@ =~= body.subrange(STEP_LEN * n, STEP_LEN * n + PUBKEY_LEN));
    assert(parse_steps(body, n as nat) == Some(Seq::new(n as nat, |j: int| step_at(body, j))));
    Some((MerkleProof { path, leaf }, leaf_at + 33))
}

/// A witness whose first two bytes are not a known (tag, marker) pair does
/// not decode.
pub proof fn lemma_unknown_pair_rejected(s: Seq<u8>)
    requires
        s.len() < 2 || !((s[0] == 0 && s[1] == 2) || (s[0] == 1 && s[1] == 3)),
    ensures
        parse_witness(s) is None,
{
}

proof fn lemma_compact_prefix_rejected(n: nat, j: int)
    requires
        n <= MAX_COMPACT_LEN,
        0 <= j < compact_bytes(n).len(),
    ensures
        parse_compact(compact_bytes(n).subrange(0, j)) is None,
{
    let t = compact_bytes(n).subrange(0, j);
    if j > 0 {
        assert(t[0] == compact_bytes(n)[0]);
        if n < 64 {
        } else if n < 16384 {
            let v = n * 4 + 1;
            assert((v % 256) % 4 == 1) by (nonlinear_arith)
                requires v == n * 4 + 1;
        } else {
            let v = n * 4 + 2;
            assert((v % 256) % 4 == 2) by (nonlinear_arith)
                requires v == n * 4 + 2;
        }
    }
}

proof fn lemma_proof_prefix_rejected(p: MerkleProofView, j: int)
    requires
        proof_wf(p),
        0 <= j < proof_bytes(p).len(),
    ensures
        parse_proof(proof_bytes(p).subrange(0, j)) is None,
{
    let n = p.path.len();
    let c = compact_bytes(n);
    let full = proof_bytes(p);
    let t = full.subrange(0, j);
    lemma_steps_bytes(p.path);
    if j < c.len() {
        assert(t =~= c.subrange(0, j));
        lemma_compact_prefix_rejected(n, j);
    } else {
        let tail = full.subrange(c.len() as int, j);
        assert(t =~= c + tail);
        lemma_compact_round_trip(n, tail);
        assert(t.subrange(c.len() as int, t.len() as int) =~= tail);
    }
}

/// A strict prefix of the encoding of a constructible witness (a truncated
/// payload) does not decode.
pub proof fn lemma_truncated_rejected(w: TxInWitnessView, m: int)
    requires
        witness_wf(w),
        0 <= m < witness_bytes(w).len(),
    ensures
        parse_witness(witness_bytes(w).subrange(0, m)) is None,
{
    let full = witness_bytes(w);
    let t = full.subrange(0, m);
    match w {
        TxInWitnessView::BasicRedeem { recovery_id, signature } => {
        },
        TxInWitnessView::TreeSig { signature, proof } => {
            if m >= 2 + SIGNATURE_LEN {
                let j = m - (2 + SIGNATURE_LEN);
                lemma_proof_prefix_rejected(proof, j);
                assert(t.subrange(2 + SIGNATURE_LEN, t.len() as int) =~= proof_bytes(proof).subrange(0, j));
            }
        },
    }
}

/// The witnesses of a transaction's inputs, in input order.
#[derive(Debug, Clone, PartialEq, Eq)]
pub struct TxWitness(pub Vec<TxInWitness>);

pub open spec fn witnesses_view(ws: Seq<TxInWitness>) -> Seq<TxInWitnessView> {
    ws.map_values(|w: TxInWitness| w@)
}

/// The input witnesses' encodings, one after another.
pub open spec fn concat_witness_bytes(ws: Seq<TxInWitnessView>) -> Seq<u8>
    decreases ws.len(),
{
    if ws.len() == 0 {
        Seq::empty()
    } else {
        concat_witness_bytes(ws.drop_last()) + witness_bytes(ws.last())
    }
}

/// The encoding of a transaction witness: a compact count, then each input
/// witness.
pub open spec fn tx_witness_bytes(ws: Seq<TxInWitnessView>) -> Seq<u8> {
    compact_bytes(ws.len()) + concat_witness_bytes(ws)
}

/// Reads `n` input witnesses one after another from the start of `s`.
pub open spec fn parse_witnesses(s: Seq<u8>, n: nat) -> Option<(Seq<TxInWitnessView>, nat)>
    decreases n,
{
    if n == 0 {
        Some((Seq::empty(), 0))
    } else {
        match parse_witnesses(s, (n - 1) as nat) {
            Some((ws, k)) => match parse_witness(s.subrange(k as int, s.len() as int)) {
                Some((w, k2)) => Some((ws.push(w), k + k2)),
                None => None,
            },
            None => None,
        }
    }
}

/// Reads a transaction witness from the start of `s`.
pub open spec fn parse_tx_witness(s: Seq<u8>) -> Option<(Seq<TxInWitnessView>, nat)> {
    match parse_compact(s) {
        Some((n, k)) => match parse_witnesses(s.subrange(k as int, s.len() as int), n) {
            Some((ws, k2)) => Some((ws, k + k2)),
            None => None,
        },
        None => None,
    }
}

proof fn lemma_parse_witnesses_none_stays(s: Seq<u8>, a: nat, b: nat)
    requires
        a <= b,
        parse_witnesses(s, a) is None,
    ensures
        parse_witnesses(s, b) is None,
    decreases b,
{
    if b > a {
        lemma_parse_witnesses_none_stays(s, a, (b - 1) as nat);
    }
}

proof fn lemma_witnesses_round_trip(ws: Seq<TxInWitnessView>, rest: Seq<u8>)
    requires
        forall|i: int| 0 <= i < ws.len() ==> witness_wf(#[trigger] ws[i]),
    ensures
        parse_witnesses(concat_witness_bytes(ws) + rest, ws.len())
            == Some((ws, concat_witness_bytes(ws).len())),
    decreases ws.len(),
{
    if ws.len() > 0 {
        let init = ws.drop_last();
        let last = ws.last();
        assert forall|i: int| 0 <= i < init.len() implies witness_wf(#[trigger] init[i]) by {
            assert(init[i] == ws[i]);
        }
        let s = concat_witness_bytes(ws) + rest;
        assert(s =~= concat_witness_bytes(init) + (witness_bytes(last) + rest));
        lemma_witnesses_round_trip(init, witness_bytes(last) + rest);
        let k = concat_witness_bytes(init).len();
        assert(s.subrange(k as int, s.len() as int) =~= witness_bytes(last) + rest);
        lemma_witness_round_trip(last, rest);
        assert(init.push(last) =~= ws);
    }
}

/// Reading back the encoding of a transaction witness whose input witnesses
/// are constructible gives the same witnesses and consumes exactly the
/// encoding.
pub proof fn lemma_tx_witness_round_trip(ws: Seq<TxInWitnessView>, rest: Seq<u8>)
    requires
        ws.len() <= MAX_COMPACT_LEN,
        forall|i: int| 0 <= i < ws.len() ==> witness_wf(#[trigger] ws[i]),
    ensures
        parse_tx_witness(tx_witness_bytes(ws) + rest) == Some((ws, tx_witness_bytes(ws).len())),
{
    let c = compact_bytes(ws.len());
    let s = tx_witness_bytes(ws) + rest;
    assert(s =~= c + (concat_witness_bytes(ws) + rest));
    lemma_compact_round_trip(ws.len(), concat_witness_bytes(ws) + rest);
    assert(s.subrange(c.len() as int, s.len() as int) =~= concat_witness_bytes(ws) + rest);
    lemma_witnesses_round_trip(ws, rest);
}

impl TxWitness {
    /// No input witnesses.
    pub fn new() -> (r: TxWitness)
        ensures
            r.0@.len() == 0,
    {
        TxWitness(Vec::new())
    }

    /// The canonical encoding.
    pub fn encode(&self) -> (r: Vec<u8>)
        requires
            self.0@.len() <= MAX_COMPACT_LEN,
            forall|i: int| 0 <= i < self.0@.len() ==> encodable(#[trigger] self.0@[i]@),
        ensures
            r@ == tx_witness_bytes(witnesses_view(self.0@)),
    {
        let ghost views = witnesses_view(self.0@);
        let n = self.0.len();
        let mut out = encode_compact(n);
        let mut i: usize = 0;
        while i < n
            invariant
                n == self.0@.len(),
                views == witnesses_view(self.0@),
                forall|j: int| 0 <= j < self.0@.len() ==> encodable(#[trigger] self.0@[j]@),
                0 <= i <= n,
                out@ == compact_bytes(n as nat) + concat_witness_bytes(views.subrange(0, i as int)),
            decreases n - i,
        {
            let bytes = self.0[i].encode();
            crate::bytes::append_bytes(&mut out, bytes.as_slice());
            let ghost done = views.subrange(0, i + 1);
            assert(done.drop_last() =~= views.subrange(0, i as int));
            assert(done.last() == self.0@[i as int]@);
            i = i + 1;
        }
        assert(views.subrange(0, n as int) =~= views);
        out
    }

    /// Reads a transaction witness that takes up all of `s`.
    pub fn decode(s: &[u8]) -> (r: Option<TxWitness>)
        ensures
            match parse_tx_witness(s@) {
                Some((ws, k)) => if k == s@.len() {
                    r matches Some(x) && witnesses_view(x.0@) == ws
                } else {
                    r is None
                },
                None => r is None,
            },
    {
        assert(s@.subrange(0, s@.len() as int) =~= s@);
        let (n, start) = match decode_compact(s, 0) {
            Some(v) => v,
            None => return None,
        };
        let ghost t = s@.subrange(start as int, s@.len() as int);
        let mut out: Vec<TxInWitness> = Vec::new();
        let mut pos = start;
        let mut i: usize = 0;
        while i < n
            invariant
                0 < start <= pos <= s@.len(),
                t == s@.subrange(start as int, s@.len() as int),
                parse_compact(s@) == Some((n as nat, start as nat)),
                0 <= i <= n,
                parse_witnesses(t, i as nat) == Some((witnesses_view(out@), (pos - start) as nat)),
            decreases n - i,
        {
            assert(s@.subrange(pos as int, s@.len() as int) =~= t.subrange(pos - start, t.len() as int));
            let ghost prev = witnesses_view(out@);
            match TxInWitness::decode_at(s, pos) {
                Some((w, end)) => {
                    let ghost wv = w@;
                    out.push(w);
                    pos = end;
                    assert(witnesses_view(out@) =~= prev.push(wv));
                },
                None => {
                    proof {
                        lemma_parse_witnesses_none_stays(t, (i + 1) as nat, n as nat);
                    }
                    return None;
                },
            }
            i = i + 1;
        }
        if pos == s.len() {
            Some(TxWitness(out))
        } else {
            None
        }
    }
}

} // verus!
