//! Transfer transactions and their canonical encoding: the spent outputs,
//! the new outputs, then the attributes.
use vstd::prelude::*;
use crate::attribute::{attributes_bytes, attributes_wf, lemma_attributes_round_trip, parse_attributes, TxAttributes, TxAttributesView};
use crate::balance_service::{address_bytes, ExtendedAddr};
use crate::bytes::{append_bytes, copy_range, to_array};
use crate::codec::{
    compact_bytes, decode_compact, decode_u64, encode_compact, encode_u64, lemma_compact_round_trip,
    lemma_le_u64_round_trip, le_u64_bytes, le_u64_value, parse_compact, MAX_COMPACT_LEN,
};
use crate::coin::{Coin, MAX_COIN};
use crate::protocol::TxoPointer;

verus! {

/// Length of one encoded output reference: the id and a little-endian index.
pub const POINTER_LEN: usize = 34;

/// A new output: who may spend it, how much, and from when.
#[derive(Debug, Clone, Copy, PartialEq, Eq)]
pub struct TxOut {
    pub address: ExtendedAddr,
    pub value: Coin,
    pub valid_from: Option<u64>,
}

/// A transfer: the outputs it spends, the outputs it creates, its attributes.
#[derive(Debug, Clone, PartialEq, Eq)]
pub struct Tx {
    pub inputs: Vec<TxoPointer>,
    pub outputs: Vec<TxOut>,
    pub attributes: TxAttributes,
}

pub open spec fn pointer_bytes(p: (Seq<u8>, u16)) -> Seq<u8> {
    p.0 + seq![(p.1 % 256) as u8, (p.1 / 256) as u8]
}

pub open spec fn pointers_bytes(ps: Seq<(Seq<u8>, u16)>) -> Seq<u8>
    decreases ps.len(),
{
    if ps.len() == 0 {
        Seq::empty()
    } else {
        pointers_bytes(ps.drop_last()) + pointer_bytes(ps.last())
    }
}

/// The id and index encoded at position `i` of `s`.
pub open spec fn pointer_at(s: Seq<u8>, i: int) -> (Seq<u8>, u16) {
    (
        s.subrange(POINTER_LEN * i, POINTER_LEN * i + 32),
        (s[POINTER_LEN * i + 32] + 256 * s[POINTER_LEN * i + 33]) as u16,
    )
}

pub open spec fn pointers_view(ps: Seq<TxoPointer>) -> Seq<(Seq<u8>, u16)> {
    ps.map_values(|p: TxoPointer| (p.id@, p.index))
}

/// Reads a compact count and that many output references.
pub open spec fn parse_pointers(s: Seq<u8>) -> Option<(Seq<(Seq<u8>, u16)>, nat)> {
    match parse_compact(s) {
        Some((n, k)) => {
            let body = s.subrange(k as int, s.len() as int);
            if body.len() >= POINTER_LEN * n {
                Some((Seq::new(n, |i: int| pointer_at(body, i)), (k + POINTER_LEN * n) as nat))
            } else {
                None
            }
        },
        None => None,
    }
}

proof fn lemma_pointers_bytes(ps: Seq<(Seq<u8>, u16)>)
    requires
        forall|i: int| 0 <= i < ps.len() ==> (#[trigger] ps[i]).0.len() == 32,
    ensures
        pointers_bytes(ps).len() == POINTER_LEN * ps.len(),
        forall|i: int| 0 <= i < ps.len()
            ==> pointers_bytes(ps).subrange(POINTER_LEN * i, POINTER_LEN * i + POINTER_LEN) == pointer_bytes(#[trigger] ps[i]),
    decreases ps.len(),
{
    if ps.len() > 0 {
        let q = ps.drop_last();
        assert forall|i: int| 0 <= i < q.len() implies (#[trigger] q[i]).0.len() == 32 by {
            assert(q[i] == ps[i]);
        }
        lemma_pointers_bytes(q);
        let n = q.len() as int;
        assert forall|i: int| 0 <= i < ps.len() implies
            pointers_bytes(ps).subrange(POINTER_LEN * i, POINTER_LEN * i + POINTER_LEN) == pointer_bytes(#[trigger] ps[i]) by {
            if i < n {
                assert(q[i] == ps[i]);
                assert(POINTER_LEN * i + POINTER_LEN <= POINTER_LEN * n) by (nonlinear_arith)
                    requires i < n, i >= 0;
                assert(pointers_bytes(ps).subrange(POINTER_LEN * i, POINTER_LEN * i + POINTER_LEN)
                    =~= pointers_bytes(q).subrange(POINTER_LEN * i, POINTER_LEN * i + POINTER_LEN));
            } else {
                assert(pointers_bytes(ps).subrange(POINTER_LEN * i, POINTER_LEN * i + POINTER_LEN) =~= pointer_bytes(ps.last()));
            }
        }
    }
}

proof fn lemma_pointers_round_trip(ps: Seq<(Seq<u8>, u16)>, rest: Seq<u8>)
    requires
        ps.len() <= MAX_COMPACT_LEN,
        forall|i: int| 0 <= i < ps.len() ==> (#[trigger] ps[i]).0.len() == 32,
    ensures
        parse_pointers(compact_bytes(ps.len()) + pointers_bytes(ps) + rest)
            == Some((ps, (compact_bytes(ps.len()) + pointers_bytes(ps)).len())),
{
    let n = ps.len();
    let pb = pointers_bytes(ps);
    let s = compact_bytes(n) + pb + rest;
    lemma_pointers_bytes(ps);
    lemma_compact_round_trip(n, pb + rest);
    assert(s =~= compact_bytes(n) + (pb + rest));
    let k = compact_bytes(n).len();
    let body = s.subrange(k as int, s.len() as int);
    assert(body =~= pb + rest);
    assert forall|i: int| 0 <= i < n implies #[trigger] pointer_at(body, i) == ps[i] by {
        let p = ps[i];
        assert(POINTER_LEN * i + POINTER_LEN <= POINTER_LEN * n) by (nonlinear_arith)
            requires i < n, i >= 0;
        let chunk = pb.subrange(POINTER_LEN * i, POINTER_LEN * i + POINTER_LEN);
        assert(chunk == pointer_bytes(p));
        assert(body.subrange(POINTER_LEN * i, POINTER_LEN * i + 32) =~= chunk.subrange(0, 32));
        assert(chunk.subrange(0, 32) =~= p.0);
        assert(body[POINTER_LEN * i + 32] == chunk[32]);
        assert(body[POINTER_LEN * i + 33] == chunk[33]);
        assert(p.1 % 256 + 256 * (p.1 / 256) == p.1);
    }
    assert(Seq::new(n, |i: int| pointer_at(body, i)) =~= ps);
}

/// An output as the encoding sees it: the encoded address, the amount and
/// the time it becomes spendable.
pub struct TxOutView {
    pub address: Seq<u8>,
    pub value: u64,
    pub valid_from: Option<u64>,
}

impl View for TxOut {
    type V = TxOutView;

    open spec fn view(&self) -> TxOutView {
        TxOutView { address: address_bytes(self.address), value: self.value.spec_value(), valid_from: self.valid_from }
    }
}

pub open spec fn outputs_view(os: Seq<TxOut>) -> Seq<TxOutView> {
    os.map_values(|o: TxOut| o@)
}

pub open spec fn option_bytes(v: Option<u64>) -> Seq<u8> {
    match v {
        None => seq![0u8],
        Some(t) => seq![1u8] + le_u64_bytes(t),
    }
}

pub open spec fn output_bytes(o: TxOutView) -> Seq<u8> {
    o.address + le_u64_bytes(o.value) + option_bytes(o.valid_from)
}

pub open spec fn outputs_bytes(os: Seq<TxOutView>) -> Seq<u8>
    decreases os.len(),
{
    if os.len() == 0 {
        Seq::empty()
    } else {
        outputs_bytes(os.drop_last()) + output_bytes(os.last())
    }
}

/// An output that can be encoded and read back: a known address form and an
/// amount within the supply.
pub open spec fn output_wf(o: TxOutView) -> bool {
    &&& (o.address.len() == 21 && o.address[0] == 0) || (o.address.len() == 33 && o.address[0] == 1)
    &&& o.value <= MAX_COIN
}

/// Reads one output from the start of `s`, with the number of bytes used.
pub open spec fn parse_output(s: Seq<u8>) -> Option<(TxOutView, nat)> {
    if s.len() < 1 || s[0] > 1 {
        None
    } else {
        let a: int = if s[0] == 0 { 21 } else { 33 };
        if s.len() < a + 9 {
            None
        } else {
            let value = le_u64_value(s.subrange(a, a + 8));
            if value > MAX_COIN {
                None
            } else if s[a + 8] == 0 {
                Some((TxOutView { address: s.subrange(0, a), value, valid_from: None }, (a + 9) as nat))
            } else if s[a + 8] == 1 && s.len() >= a + 17 {
                Some((
                    TxOutView { address: s.subrange(0, a), value, valid_from: Some(le_u64_value(s.subrange(a + 9, a + 17))) },
                    (a + 17) as nat,
                ))
            } else {
                None
            }
        }
    }
}

/// Reads `n` outputs one after another from the start of `s`.
pub open spec fn parse_outputs(s: Seq<u8>, n: nat) -> Option<(Seq<TxOutView>, nat)>
    decreases n,
{
    if n == 0 {
        Some((Seq::empty(), 0))
    } else {
        match parse_outputs(s, (n - 1) as nat) {
            Some((os, k)) => match parse_output(s.subrange(k as int, s.len() as int)) {
                Some((o, k2)) => Some((os.push(o), k + k2)),
                None => None,
            },
            None => None,
        }
    }
}

proof fn lemma_output_round_trip(o: TxOutView, rest: Seq<u8>)
    requires
        output_wf(o),
    ensures
        parse_output(output_bytes(o) + rest) == Some((o, output_bytes(o).len())),
{
    let s = output_bytes(o) + rest;
    let a = o.address.len() as int;
    assert(s[0] == o.address[0]);
    lemma_le_u64_round_trip(o.value, option_bytes(o.valid_from) + rest);
    assert(s.subrange(a, a + 8) =~= (le_u64_bytes(o.value) + (option_bytes(o.valid_from) + rest)).subrange(0, 8));
    assert(le_u64_value(s.subrange(a, a + 8)) == o.value) by {
        let t = le_u64_bytes(o.value) + (option_bytes(o.valid_from) + rest);
        assert(s.subrange(a, a + 8) =~= t.subrange(0, 8));
        assert(forall|j: int| 0 <= j < 8 ==> s.subrange(a, a + 8)[j] == #[trigger] t[j]);
    }
    assert(s.subrange(0, a) =~= o.address);
    match o.valid_from {
        None => {
            assert(s[a + 8] == 0);
        },
        Some(t) => {
            assert(s[a + 8] == 1);
            lemma_le_u64_round_trip(t, rest);
            let u = le_u64_bytes(t) + rest;
            assert(forall|j: int| 0 <= j < 8 ==> s.subrange(a + 9, a + 17)[j] == #[trigger] u[j]);
        },
    }
}

proof fn lemma_outputs_round_trip(os: Seq<TxOutView>, rest: Seq<u8>)
    requires
        forall|i: int| 0 <= i < os.len() ==> output_wf(#[trigger] os[i]),
    ensures
        parse_outputs(outputs_bytes(os) + rest, os.len()) == Some((os, outputs_bytes(os).len())),
    decreases os.len(),
{
    if os.len() > 0 {
        let init = os.drop_last();
        let last = os.last();
        assert forall|i: int| 0 <= i < init.len() implies output_wf(#[trigger] init[i]) by {
            assert(init[i] == os[i]);
        }
        let s = outputs_bytes(os) + rest;
        assert(s =~= outputs_bytes(init) + (output_bytes(last) + rest));
        lemma_outputs_round_trip(init, output_bytes(last) + rest);
        let k = outputs_bytes(init).len();
        assert(s.subrange(k as int, s.len() as int) =~= output_bytes(last) + rest);
        lemma_output_round_trip(last, rest);
        assert(init.push(last) =~= os);
    }
}

/// A transfer as the encoding sees it.
pub struct TxView {
    pub inputs: Seq<(Seq<u8>, u16)>,
    pub outputs: Seq<TxOutView>,
    pub attributes: TxAttributesView,
}

impl View for Tx {
    type V = TxView;

    open spec fn view(&self) -> TxView {
        TxView {
            inputs: pointers_view(self.inputs@),
            outputs: outputs_view(self.outputs@),
            attributes: self.attributes@,
        }
    }
}

/// A transfer that can be encoded and read back.
pub open spec fn tx_wf(t: TxView) -> bool {
    &&& t.inputs.len() <= MAX_COMPACT_LEN
    &&& forall|i: int| 0 <= i < t.inputs.len() ==> (#[trigger] t.inputs[i]).0.len() == 32
    &&& t.outputs.len() <= MAX_COMPACT_LEN
    &&& forall|i: int| 0 <= i < t.outputs.len() ==> output_wf(#[trigger] t.outputs[i])
    &&& attributes_wf(t.attributes)
}

/// The encoding of a transfer.
pub open spec fn tx_bytes(t: TxView) -> Seq<u8> {
    compact_bytes(t.inputs.len()) + pointers_bytes(t.inputs) + compact_bytes(t.outputs.len())
        + outputs_bytes(t.outputs) + attributes_bytes(t.attributes)
}

/// Reads a transfer from the start of `s`, with the number of bytes used.
pub open spec fn parse_tx(s: Seq<u8>) -> Option<(TxView, nat)> {
    match parse_pointers(s) {
        Some((inputs, k1)) => {
            let s1 = s.subrange(k1 as int, s.len() as int);
            match parse_compact(s1) {
                Some((n, k2)) => {
                    let s2 = s1.subrange(k2 as int, s1.len() as int);
                    match parse_outputs(s2, n) {
                        Some((outputs, k3)) => {
                            let s3 = s2.subrange(k3 as int, s2.len() as int);
                            match parse_attributes(s3) {
                                Some((attributes, k4)) => Some((
                                    TxView { inputs, outputs, attributes },
                                    k1 + k2 + k3 + k4,
                                )),
                                None => None,
                            }
                        },
                        None => None,
                    }
                },
                None => None,
            }
        },
        None => None,
    }
}

/// Reading back the encoding of a transfer, whatever follows it, gives the
/// same transfer and consumes exactly the encoding.
#[verifier::rlimit(40)]
pub proof fn lemma_tx_round_trip(t: TxView, rest: Seq<u8>)
    requires
        tx_wf(t),
    ensures
        parse_tx(tx_bytes(t) + rest) == Some((t, tx_bytes(t).len())),
{
    let cp = compact_bytes(t.inputs.len()) + pointers_bytes(t.inputs);
    let co = compact_bytes(t.outputs.len());
    let ob = outputs_bytes(t.outputs);
    let ab = attributes_bytes(t.attributes);
    let s = tx_bytes(t) + rest;
    assert(s =~= cp + (co + ob + ab + rest));
    lemma_pointers_round_trip(t.inputs, co + ob + ab + rest);
    assert(parse_pointers(s) == Some((t.inputs, cp.len())));
    let s1 = s.subrange(cp.len() as int, s.len() as int);
    assert(s1 =~= co + (ob + ab + rest));
    lemma_compact_round_trip(t.outputs.len(), ob + ab + rest);
    assert(parse_compact(s1) == Some((t.outputs.len(), co.len())));
    let s2 = s1.subrange(co.len() as int, s1.len() as int);
    assert(s2 =~= ob + (ab + rest));
    lemma_outputs_round_trip(t.outputs, ab + rest);
    assert(parse_outputs(s2, t.outputs.len()) == Some((t.outputs, ob.len())));
    let s3 = s2.subrange(ob.len() as int, s2.len() as int);
    assert(s3 =~= ab + rest);
    lemma_attributes_round_trip(t.attributes, rest);
    assert(parse_attributes(s3) == Some((t.attributes, ab.len())));
    assert(tx_bytes(t).len() == cp.len() + co.len() + ob.len() + ab.len());
}

fn encode_pointers(ps: &Vec<TxoPointer>, out: &mut Vec<u8>)
    requires
        ps@.len() <= MAX_COMPACT_LEN,
    ensures
        final(out)@ == old(out)@ + compact_bytes(ps@.len()) + pointers_bytes(pointers_view(ps@)),
{
    let ghost views = pointers_view(ps@);
    let n = ps.len();
    let prefix = encode_compact(n);
    append_bytes(out, prefix.as_slice());
    let mut i: usize = 0;
    while i < n
        invariant
            n == ps@.len(),
            views == pointers_view(ps@),
            0 <= i <= n,
            out@ == old(out)@ + compact_bytes(n as nat) + pointers_bytes(views.subrange(0, i as int)),
        decreases n - i,
    {
        let ghost before = out@;
        append_bytes(out, ps[i].id.as_slice());
        out.push((ps[i].index % 256) as u8);
        out.push((ps[i].index / 256) as u8);
        let ghost done = views.subrange(0, i + 1);
        assert(done.drop_last() =~= views.subrange(0, i as int));
        assert(out@ =~= before + pointer_bytes(done.last()));
        i = i + 1;
    }
    assert(views.subrange(0, n as int) =~= views);
}

fn encode_output(o: &TxOut, out: &mut Vec<u8>)
    ensures
        final(out)@ == old(out)@ + output_bytes(o@),
{
    match o.address {
        ExtendedAddr::BasicRedeem(b) => {
            out.push(0u8);
            append_bytes(out, b.as_slice());
        },
        ExtendedAddr::OrTree(b) => {
            out.push(1u8);
            append_bytes(out, b.as_slice());
        },
    }
    let v = encode_u64(o.value.value());
    append_bytes(out, v.as_slice());
    match o.valid_from {
        None => out.push(0u8),
        Some(t) => {
            out.push(1u8);
            let tb = encode_u64(t);
            append_bytes(out, tb.as_slice());
        },
    }
    assert(final(out)@ =~= old(out)@ + output_bytes(o@));
}

fn encode_outputs(os: &Vec<TxOut>, out: &mut Vec<u8>)
    requires
        os@.len() <= MAX_COMPACT_LEN,
    ensures
        final(out)@ == old(out)@ + compact_bytes(os@.len()) + outputs_bytes(outputs_view(os@)),
{
    let ghost views = outputs_view(os@);
    let n = os.len();
    let prefix = encode_compact(n);
    append_bytes(out, prefix.as_slice());
    let mut i: usize = 0;
    while i < n
        invariant
            n == os@.len(),
            views == outputs_view(os@),
            0 <= i <= n,
            out@ == old(out)@ + compact_bytes(n as nat) + outputs_bytes(views.subrange(0, i as int)),
        decreases n - i,
    {
        let ghost before = out@;
        encode_output(&os[i], out);
        let ghost done = views.subrange(0, i + 1);
        assert(done.drop_last() =~= views.subrange(0, i as int));
        assert(done.last() == os@[i as int]@);
        i = i + 1;
    }
    assert(views.subrange(0, n as int) =~= views);
}

impl Tx {
    /// The canonical encoding.
    pub fn encode(&self) -> (r: Vec<u8>)
        requires
            self.inputs@.len() <= MAX_COMPACT_LEN,
            self.outputs@.len() <= MAX_COMPACT_LEN,
            self.attributes.allowed_view@.len() <= MAX_COMPACT_LEN,
        ensures
            r@ == tx_bytes(self@),
    {
        let mut out: Vec<u8> = Vec::new();
        encode_pointers(&self.inputs, &mut out);
        encode_outputs(&self.outputs, &mut out);
        let ab = self.attributes.encode();
        append_bytes(&mut out, ab.as_slice());
        assert(out@ =~= tx_bytes(self@));
        out
    }
}

fn decode_pointers_at(s: &[u8], pos: usize) -> (r: Option<(Vec<TxoPointer>, usize)>)
    requires
        pos <= s@.len(),
    ensures
        match parse_pointers(s@.subrange(pos as int, s@.len() as int)) {
            Some((ps, k)) => r matches Some((x, e)) && pointers_view(x@) == ps && e == pos + k,
            None => r is None,
        },
{
    let ghost t = s@.subrange(pos as int, s@.len() as int);
    let (n, start) = match decode_compact(s, pos) {
        Some(v) => v,
        None => return None,
    };
    assert(s.len() - pos >= parse_compact(t).unwrap().1);
    assert(parse_compact(t) == Some((n as nat, (start - pos) as nat)));
    let ghost body = t.subrange((start - pos) as int, t.len() as int);
    assert(body =~= s@.subrange(start as int, s@.len() as int));
    if ((s.len() - start) as u64) < 34 * (n as u64) {
        return None;
    }
    let mut out: Vec<TxoPointer> = Vec::new();
    let mut i: usize = 0;
    while i < n
        invariant
            pos < start <= s@.len(),
            body == s@.subrange(start as int, s@.len() as int),
            body.len() >= POINTER_LEN * n,
            0 <= i <= n,
            pointers_view(out@) =~= Seq::new(i as nat, |j: int| pointer_at(body, j)),
        decreases n - i,
    {
        assert(POINTER_LEN * i + POINTER_LEN <= POINTER_LEN * n) by (nonlinear_arith)
            requires i < n;
        let ghost prev = pointers_view(out@);
        assert(34 * i + 34 <= s.len() - start);
        let at = start + 34 * i;
        let id_bytes = copy_range(s, at, at + 32);
        let id: [u8; 32] = to_array(id_bytes.as_slice());
        let index: u16 = (s[at + 32] as u16) + 256 * (s[at + 33] as u16);
        assert(id@ =~= body.subrange(POINTER_LEN * i, POINTER_LEN * i + 32));
        assert(s[at + 32] == body[POINTER_LEN * i + 32] && s[at + 33] == body[POINTER_LEN * i + 33]);
        out.push(TxoPointer { id, index });
        assert(pointers_view(out@) =~= prev.push(pointer_at(body, i as int)));
        i = i + 1;
    }
    Some((out, start + 34 * n))
}

fn decode_output_at(s: &[u8], pos: usize) -> (r: Option<(TxOut, usize)>)
    requires
        pos <= s@.len(),
    ensures
        match parse_output(s@.subrange(pos as int, s@.len() as int)) {
            Some((o, k)) => r matches Some((x, e)) && x@ == o && e == pos + k,
            None => r is None,
        },
{
    let ghost t = s@.subrange(pos as int, s@.len() as int);
    if s.len() - pos < 1 || s[pos] > 1 {
        return None;
    }
    let a: usize = if s[pos] == 0 { 21 } else { 33 };
    if s.len() - pos < a + 9 {
        return None;
    }
    let address = if s[pos] == 0 {
        ExtendedAddr::BasicRedeem(to_array(vstd::slice::slice_subrange(s, pos + 1, pos + 21)))
    } else {
        ExtendedAddr::OrTree(to_array(vstd::slice::slice_subrange(s, pos + 1, pos + 33)))
    };
    assert(address_bytes(address) =~= t.subrange(0, a as int));
    let value = match decode_u64(vstd::slice::slice_subrange(s, pos + a, pos + a + 8)) {
        Some(v) => v,
        None => return None,
    };
    assert(s@.subrange((pos + a) as int, (pos + a + 8) as int) =~= t.subrange(a as int, a + 8));
    let coin = match Coin::new(value) {
        Ok(c) => c,
        Err(_) => return None,
    };
    let flag = s[pos + a + 8];
    if flag == 0 {
        Some((TxOut { address, value: coin, valid_from: None }, pos + a + 9))
    } else if flag == 1 && s.len() - pos >= a + 17 {
        let from = match decode_u64(vstd::slice::slice_subrange(s, pos + a + 9, pos + a + 17)) {
            Some(v) => v,
            None => return None,
        };
        assert(s@.subrange((pos + a + 9) as int, (pos + a + 17) as int) =~= t.subrange(a + 9, a + 17));
        Some((TxOut { address, value: coin, valid_from: Some(from) }, pos + a + 17))
    } else {
        None
    }
}

proof fn lemma_parse_outputs_none_stays(s: Seq<u8>, a: nat, b: nat)
    requires
        a <= b,
        parse_outputs(s, a) is None,
    ensures
        parse_outputs(s, b) is None,
    decreases b,
{
    if b > a {
        lemma_parse_outputs_none_stays(s, a, (b - 1) as nat);
    }
}

fn decode_outputs_at(s: &[u8], pos: usize, n: usize) -> (r: Option<(Vec<TxOut>, usize)>)
    requires
        pos <= s@.len(),
    ensures
        match parse_outputs(s@.subrange(pos as int, s@.len() as int), n as nat) {
            Some((os, k)) => r matches Some((x, e)) && outputs_view(x@) == os && e == pos + k,
            None => r is None,
        },
        r matches Some((x, e)) ==> pos <= e <= s@.len(),
{
    let ghost t = s@.subrange(pos as int, s@.len() as int);
    let mut out: Vec<TxOut> = Vec::new();
    let mut at = pos;
    let mut i: usize = 0;
    while i < n
        invariant
            pos <= at <= s@.len(),
            t == s@.subrange(pos as int, s@.len() as int),
            0 <= i <= n,
            parse_outputs(t, i as nat) == Some((outputs_view(out@), (at - pos) as nat)),
        decreases n - i,
    {
        assert(s@.subrange(at as int, s@.len() as int) =~= t.subrange(at - pos, t.len() as int));
        let ghost prev = outputs_view(out@);
        match decode_output_at(s, at) {
            Some((o, end)) => {
                let ghost ov = o@;
                out.push(o);
                at = end;
                assert(outputs_view(out@) =~= prev.push(ov));
            },
            None => {
                proof {
                    lemma_parse_outputs_none_stays(t, (i + 1) as nat, n as nat);
                }
                return None;
            },
        }
        i = i + 1;
    }
    Some((out, at))
}

impl Tx {
    /// Reads a transfer at `pos`: the transfer and the position after it.
    #[verifier::rlimit(60)]
    pub fn decode_at(s: &[u8], pos: usize) -> (r: Option<(Tx, usize)>)
        requires
            pos <= s@.len(),
        ensures
            match parse_tx(s@.subrange(pos as int, s@.len() as int)) {
                Some((t, k)) => r matches Some((x, e)) && x@ == t && e == pos + k,
                None => r is None,
            },
    {
        let ghost t = s@.subrange(pos as int, s@.len() as int);
        let (inputs, inputs_end) = match decode_pointers_at(s, pos) {
            Some(v) => v,
            None => return None,
        };
        assert(parse_pointers(t) == Some((pointers_view(inputs@), (inputs_end - pos) as nat)));
        assert(inputs_end <= s.len()) by {
            assert(parse_compact(t).unwrap().1 <= t.len());
        }
        let ghost s1 = t.subrange(inputs_end - pos, t.len() as int);
        assert(s1 =~= s@.subrange(inputs_end as int, s@.len() as int));
        let (n, count_end) = match decode_compact(s, inputs_end) {
            Some(v) => v,
            None => return None,
        };
        assert(s.len() - inputs_end >= parse_compact(s1).unwrap().1);
        assert(parse_compact(s1) == Some((n as nat, (count_end - inputs_end) as nat)));
        let ghost s2 = s1.subrange(count_end - inputs_end, s1.len() as int);
        assert(s2 =~= s@.subrange(count_end as int, s@.len() as int));
        let (outputs, outputs_end) = match decode_outputs_at(s, count_end, n) {
            Some(v) => v,
            None => return None,
        };
        assert(parse_outputs(s2, n as nat) == Some((outputs_view(outputs@), (outputs_end - count_end) as nat)));
        let ghost s3 = s2.subrange(outputs_end - count_end, s2.len() as int);
        assert(s3 =~= s@.subrange(outputs_end as int, s@.len() as int));
        let (attributes, k4) = match TxAttributes::decode(vstd::slice::slice_subrange(s, outputs_end, s.len())) {
            Some(v) => v,
            None => return None,
        };
        assert(parse_attributes(s3) == Some((attributes@, k4 as nat)));
        Some((Tx { inputs, outputs, attributes }, outputs_end + k4))
    }
}

impl Default for Tx {
    /// A transfer with no inputs, no outputs and default attributes.
    fn default() -> (r: Tx)
        ensures
            r.inputs@.len() == 0,
            r.outputs@.len() == 0,
            r.attributes.chain_hex_id == 0,
            r.attributes.allowed_view@.len() == 0,
    {
        Tx { inputs: Vec::new(), outputs: Vec::new(), attributes: TxAttributes::new(0) }
    }
}

/// A transaction the client keeps.
#[derive(Debug, Clone, PartialEq, Eq)]
pub enum Transaction {
    TransferTransaction(Tx),
}

pub enum TransactionView {
    TransferTransaction(TxView),
}

impl View for Transaction {
    type V = TransactionView;

    open spec fn view(&self) -> TransactionView {
        match self {
            Transaction::TransferTransaction(t) => TransactionView::TransferTransaction(t@),
        }
    }
}

/// The encoding of a transaction: a variant byte, then the transaction.
pub open spec fn transaction_bytes(t: TransactionView) -> Seq<u8> {
    match t {
        TransactionView::TransferTransaction(tx) => seq![0u8] + tx_bytes(tx),
    }
}

/// Reads a transaction from the start of `s`, with the number of bytes used.
pub open spec fn parse_transaction(s: Seq<u8>) -> Option<(TransactionView, nat)> {
    if s.len() < 1 || s[0] != 0 {
        None
    } else {
        match parse_tx(s.subrange(1, s.len() as int)) {
            Some((tx, k)) => Some((TransactionView::TransferTransaction(tx), k + 1)),
            None => None,
        }
    }
}

pub open spec fn transaction_wf(t: TransactionView) -> bool {
    match t {
        TransactionView::TransferTransaction(tx) => tx_wf(tx),
    }
}

/// Reading back the encoding of a transaction, whatever follows it, gives
/// the same transaction and consumes exactly the encoding.
pub proof fn lemma_transaction_round_trip(t: TransactionView, rest: Seq<u8>)
    requires
        transaction_wf(t),
    ensures
        parse_transaction(transaction_bytes(t) + rest) == Some((t, transaction_bytes(t).len())),
{
    match t {
        TransactionView::TransferTransaction(tx) => {
            let s = transaction_bytes(t) + rest;
            assert(s.subrange(1, s.len() as int) =~= tx_bytes(tx) + rest);
            lemma_tx_round_trip(tx, rest);
        },
    }
}

impl Transaction {
    /// Whether every count fits its compact prefix.
    pub open spec fn encodable(&self) -> bool {
        match self {
            Transaction::TransferTransaction(tx) => {
                &&& tx.inputs@.len() <= MAX_COMPACT_LEN
                &&& tx.outputs@.len() <= MAX_COMPACT_LEN
                &&& tx.attributes.allowed_view@.len() <= MAX_COMPACT_LEN
            },
        }
    }

    /// The canonical encoding.
    pub fn encode(&self) -> (r: Vec<u8>)
        requires
            self.encodable(),
        ensures
            r@ == transaction_bytes(self@),
    {
        match self {
            Transaction::TransferTransaction(tx) => {
                let mut out: Vec<u8> = vec![0u8];
                let body = tx.encode();
                append_bytes(&mut out, body.as_slice());
                assert(out@ =~= transaction_bytes(self@));
                out
            },
        }
    }

    /// Reads a transaction from the start of `s`; what follows it is left.
    pub fn decode(s: &[u8]) -> (r: Option<Transaction>)
        ensures
            match parse_transaction(s@) {
                Some((t, k)) => r matches Some(x) && x@ == t,
                None => r is None,
            },
    {
        if s.len() < 1 || s[0] != 0 {
            return None;
        }
        match Tx::decode_at(s, 1) {
            Some((tx, _)) => Some(Transaction::TransferTransaction(tx)),
            None => None,
        }
    }
}

} // verus!
