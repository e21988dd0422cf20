//! Transaction attributes: the chain id and who may view the transaction.
use vstd::prelude::*;
use crate::bytes::{append_bytes, copy_range};
use crate::codec::{
    compact_bytes, decode_compact, encode_compact, lemma_compact_round_trip, parse_compact,
    MAX_COMPACT_LEN,
};

verus! {

/// What a view key holder may see.
#[derive(Debug, Clone, Copy, PartialEq, Eq, Structural)]
pub enum TxAccess {
    AllData,
}

/// A view key and what it may see.
#[derive(Debug, Clone, PartialEq, Eq)]
pub struct TxAccessPolicy {
    /// A compressed public key (33 bytes).
    pub view_key: Vec<u8>,
    pub access: TxAccess,
}

/// Transaction metadata.
#[derive(Debug, Clone, PartialEq, Eq)]
pub struct TxAttributes {
    /// The last byte of the chain id.
    pub chain_hex_id: u8,
    pub allowed_view: Vec<TxAccessPolicy>,
}

impl TxAttributes {
    /// Attributes for the chain, with no view keys.
    pub fn new(chain_hex_id: u8) -> (r: TxAttributes)
        ensures
            r.chain_hex_id == chain_hex_id,
            r.allowed_view@.len() == 0,
    {
        TxAttributes { chain_hex_id, allowed_view: Vec::new() }
    }

    /// Attributes for the chain with the given view keys.
    pub fn new_with_access(chain_hex_id: u8, allowed_view: Vec<TxAccessPolicy>) -> (r: TxAttributes)
        ensures
            r.chain_hex_id == chain_hex_id,
            r.allowed_view == allowed_view,
    {
        TxAttributes { chain_hex_id, allowed_view }
    }
}

/// Length of a view key.
pub const VIEW_KEY_LEN: usize = 33;

/// Length of one encoded policy: the key and the access byte.
pub const POLICY_LEN: usize = 34;

/// The chain id and the view keys; every policy grants all data.
pub struct TxAttributesView {
    pub chain_hex_id: u8,
    pub view_keys: Seq<Seq<u8>>,
}

pub open spec fn keys_view(ps: Seq<TxAccessPolicy>) -> Seq<Seq<u8>> {
    ps.map_values(|p: TxAccessPolicy| p.view_key@)
}

impl View for TxAttributes {
    type V = TxAttributesView;

    open spec fn view(&self) -> TxAttributesView {
        TxAttributesView { chain_hex_id: self.chain_hex_id, view_keys: keys_view(self.allowed_view@) }
    }
}

/// Attributes that can be encoded: keys of their fixed length, and a count
/// that a compact prefix carries.
pub open spec fn attributes_wf(a: TxAttributesView) -> bool {
    &&& a.view_keys.len() <= MAX_COMPACT_LEN
    &&& forall|i: int| 0 <= i < a.view_keys.len() ==> (#[trigger] a.view_keys[i]).len() == VIEW_KEY_LEN
}

pub open spec fn policies_bytes(keys: Seq<Seq<u8>>) -> Seq<u8>
    decreases keys.len(),
{
    if keys.len() == 0 {
        Seq::empty()
    } else {
        policies_bytes(keys.drop_last()) + keys.last() + seq![0u8]
    }
}

/// The encoding of attributes: tag 0, marker 2, the chain id, a compact
/// count, then each view key followed by its access byte (0: all data).
pub open spec fn attributes_bytes(a: TxAttributesView) -> Seq<u8> {
    seq![0u8, 2u8, a.chain_hex_id] + compact_bytes(a.view_keys.len()) + policies_bytes(a.view_keys)
}

/// Reads attributes from the start of `s`, with the number of bytes used.
pub open spec fn parse_attributes(s: Seq<u8>) -> Option<(TxAttributesView, nat)> {
    if s.len() < 3 || s[0] != 0 || s[1] != 2 {
        None
    } else {
        match parse_compact(s.subrange(3, s.len() as int)) {
            Some((n, k)) => {
                let body = s.subrange(3 + k as int, s.len() as int);
                if body.len() >= POLICY_LEN * n
                    && forall|i: int| 0 <= i < n ==> #[trigger] body[POLICY_LEN * i + VIEW_KEY_LEN] == 0 {
                    Some((
                        TxAttributesView {
                            chain_hex_id: s[2],
                            view_keys: Seq::new(n, |i: int| body.subrange(POLICY_LEN * i, POLICY_LEN * i + VIEW_KEY_LEN)),
                        },
                        (3 + k + POLICY_LEN * n) as nat,
                    ))
                } else {
                    None
                }
            },
            None => None,
        }
    }
}

proof fn lemma_policies_bytes(keys: Seq<Seq<u8>>)
    requires
        forall|i: int| 0 <= i < keys.len() ==> (#[trigger] keys[i]).len() == VIEW_KEY_LEN,
    ensures
        policies_bytes(keys).len() == POLICY_LEN * keys.len(),
        forall|i: int| 0 <= i < keys.len()
            ==> policies_bytes(keys).subrange(POLICY_LEN * i, POLICY_LEN * i + POLICY_LEN) == #[trigger] keys[i] + seq![0u8],
    decreases keys.len(),
{
    if keys.len() > 0 {
        let q = keys.drop_last();
        assert forall|i: int| 0 <= i < q.len() implies (#[trigger] q[i]).len() == VIEW_KEY_LEN by {
            assert(q[i] == keys[i]);
        }
        lemma_policies_bytes(q);
        let n = q.len() as int;
        assert forall|i: int| 0 <= i < keys.len() implies
            policies_bytes(keys).subrange(POLICY_LEN * i, POLICY_LEN * i + POLICY_LEN) == #[trigger] keys[i] + seq![0u8] by {
            if i < n {
                assert(q[i] == keys[i]);
                assert(POLICY_LEN * i + POLICY_LEN <= POLICY_LEN * n) by (nonlinear_arith)
                    requires i < n, i >= 0;
                assert(policies_bytes(keys).subrange(POLICY_LEN * i, POLICY_LEN * i + POLICY_LEN)
                    =~= policies_bytes(q).subrange(POLICY_LEN * i, POLICY_LEN * i + POLICY_LEN));
            } else {
                assert(policies_bytes(keys).subrange(POLICY_LEN * i, POLICY_LEN * i + POLICY_LEN) =~= keys.last() + seq![0u8]);
            }
        }
    }
}

/// Reading back the encoding of attributes, whatever follows it, gives the
/// same attributes and consumes exactly the encoding.
pub proof fn lemma_attributes_round_trip(a: TxAttributesView, rest: Seq<u8>)
    requires
        attributes_wf(a),
    ensures
        parse_attributes(attributes_bytes(a) + rest) == Some((a, attributes_bytes(a).len())),
{
    let n = a.view_keys.len();
    let ps = policies_bytes(a.view_keys);
    let s = attributes_bytes(a) + rest;
    lemma_policies_bytes(a.view_keys);
    lemma_compact_round_trip(n, ps + rest);
    assert(s.subrange(3, s.len() as int) =~= compact_bytes(n) + (ps + rest));
    let k = compact_bytes(n).len();
    let body = s.subrange(3 + k as int, s.len() as int);
    assert(body =~= ps + rest);
    assert forall|i: int| 0 <= i < n implies body[POLICY_LEN * i + VIEW_KEY_LEN] == 0
        && body.subrange(POLICY_LEN * i, POLICY_LEN * i + VIEW_KEY_LEN) == #[trigger] a.view_keys[i] by {
        assert(POLICY_LEN * i + POLICY_LEN <= POLICY_LEN * n) by (nonlinear_arith)
            requires i < n, i >= 0;
        let chunk = ps.subrange(POLICY_LEN * i, POLICY_LEN * i + POLICY_LEN);
        assert(chunk == a.view_keys[i] + seq![0u8]);
        assert(body[POLICY_LEN * i + VIEW_KEY_LEN] == chunk[VIEW_KEY_LEN as int]);
        assert(body.subrange(POLICY_LEN * i, POLICY_LEN * i + VIEW_KEY_LEN) =~= chunk.subrange(0, VIEW_KEY_LEN as int));
        assert(chunk.subrange(0, VIEW_KEY_LEN as int) =~= a.view_keys[i]);
    }
    assert forall|i: int| 0 <= i < n implies #[trigger] body[POLICY_LEN * i + VIEW_KEY_LEN] == 0 by {
        assert(a.view_keys[i] == a.view_keys[i]);
    }
    assert(Seq::new(n, |i: int| body.subrange(POLICY_LEN * i, POLICY_LEN * i + VIEW_KEY_LEN)) =~= a.view_keys);
}

impl TxAttributes {
    /// The canonical encoding.
    pub fn encode(&self) -> (r: Vec<u8>)
        requires
            self.allowed_view@.len() <= MAX_COMPACT_LEN,
        ensures
            r@ == attributes_bytes(self@),
    {
        let ghost keys = keys_view(self.allowed_view@);
        let n = self.allowed_view.len();
        let mut out: Vec<u8> = vec![0u8, 2u8, self.chain_hex_id];
        let prefix = encode_compact(n);
        append_bytes(&mut out, prefix.as_slice());
        let mut i: usize = 0;
        while i < n
            invariant
                n == self.allowed_view@.len(),
                keys == keys_view(self.allowed_view@),
                0 <= i <= n,
                out@ == seq![0u8, 2u8, self.chain_hex_id] + compact_bytes(n as nat)
                    + policies_bytes(keys.subrange(0, i as int)),
            decreases n - i,
        {
            let ghost before = out@;
            append_bytes(&mut out, self.allowed_view[i].view_key.as_slice());
            out.push(0u8);
            let ghost done = keys.subrange(0, i + 1);
            assert(done.drop_last() =~= keys.subrange(0, i as int));
            assert(done.last() == self.allowed_view@[i as int].view_key@);
            assert(out@ =~= before + done.last() + seq![0u8]);
            i = i + 1;
        }
        assert(keys.subrange(0, n as int) =~= keys);
        out
    }

    /// Reads attributes from the start of `s`: the attributes and the number
    /// of bytes they took.
    pub fn decode(s: &[u8]) -> (r: Option<(TxAttributes, usize)>)
        ensures
            match parse_attributes(s@) {
                Some((a, k)) => r matches Some((x, e)) && x@ == a && e == k,
                None => r is None,
            },
    {
        if s.len() < 3 || s[0] != 0 || s[1] != 2 {
            return None;
        }
        let chain_hex_id = s[2];
        let ghost t = s@.subrange(3, s@.len() as int);
        let (n, start) = match decode_compact(s, 3) {
            Some(v) => v,
            None => return None,
        };
        let ghost body = s@.subrange(start as int, s@.len() as int);
        assert(body =~= s@.subrange(3 + (start - 3), s@.len() as int));
        if ((s.len() - start) as u64) < 34 * (n as u64) {
            return None;
        }
        let mut policies: Vec<TxAccessPolicy> = Vec::new();
        let mut i: usize = 0;
        while i < n
            invariant
                3 < start <= s@.len(),
                s@.len() >= 3 && s@[0] == 0 && s@[1] == 2,
                t == s@.subrange(3, s@.len() as int),
                parse_compact(t) == Some((n as nat, (start - 3) as nat)),
                body == s@.subrange(start as int, s@.len() as int),
                body.len() >= POLICY_LEN * n,
                0 <= i <= n,
                forall|j: int| 0 <= j < i ==> #[trigger] body[POLICY_LEN * j + VIEW_KEY_LEN] == 0,
                keys_view(policies@) =~= Seq::new(i as nat, |j: int| body.subrange(POLICY_LEN * j, POLICY_LEN * j + VIEW_KEY_LEN)),
            decreases n - i,
        {
            assert(POLICY_LEN * i + POLICY_LEN <= POLICY_LEN * n) by (nonlinear_arith)
                requires i < n;
            let ghost prev = keys_view(policies@);
            assert(34 * i + 34 <= s.len() - start);
            let at = start + 34 * i;
            let access = s[at + 33];
            assert(access == body[POLICY_LEN * i + VIEW_KEY_LEN]);
            if access != 0 {
                assert(!(forall|j: int| 0 <= j < n ==> #[trigger] body[POLICY_LEN * j + VIEW_KEY_LEN] == 0));
                return None;
            }
            let view_key = copy_range(s, at, at + 33);
            assert(view_key@ =~= body.subrange(POLICY_LEN * i, POLICY_LEN * i + VIEW_KEY_LEN));
            policies.push(TxAccessPolicy { view_key, access: TxAccess::AllData });
            assert(keys_view(policies@) =~= prev.push(body.subrange(POLICY_LEN * i, POLICY_LEN * i + VIEW_KEY_LEN)));
            i = i + 1;
        }
        let end = start + 34 * n;
        Some((TxAttributes::new_with_access(chain_hex_id, policies), end))
    }
}

} // verus!
