//! Primitive encodings: little-endian integers and compact length prefixes.
use vstd::prelude::*;

verus! {

/// The eight little-endian bytes of `v`.
pub open spec fn le_u64_bytes(v: u64) -> Seq<u8> {
    seq![
        (v & 0xff) as u8,
        ((v >> 8u64) & 0xff) as u8,
        ((v >> 16u64) & 0xff) as u8,
        ((v >> 24u64) & 0xff) as u8,
        ((v >> 32u64) & 0xff) as u8,
        ((v >> 40u64) & 0xff) as u8,
        ((v >> 48u64) & 0xff) as u8,
        ((v >> 56u64) & 0xff) as u8,
    ]
}

/// The integer whose little-endian bytes start `s`.
pub open spec fn le_u64_value(s: Seq<u8>) -> u64
    recommends
        s.len() >= 8,
{
    (s[0] as u64) | ((s[1] as u64) << 8u64) | ((s[2] as u64) << 16u64) | ((s[3] as u64) << 24u64)
        | ((s[4] as u64) << 32u64) | ((s[5] as u64) << 40u64) | ((s[6] as u64) << 48u64)
        | ((s[7] as u64) << 56u64)
}

proof fn lemma_le_u64_bits(v: u64)
    ensures
        ((v & 0xff) as u8 as u64) | ((((v >> 8u64) & 0xff) as u8 as u64) << 8u64)
            | ((((v >> 16u64) & 0xff) as u8 as u64) << 16u64)
            | ((((v >> 24u64) & 0xff) as u8 as u64) << 24u64)
            | ((((v >> 32u64) & 0xff) as u8 as u64) << 32u64)
            | ((((v >> 40u64) & 0xff) as u8 as u64) << 40u64)
            | ((((v >> 48u64) & 0xff) as u8 as u64) << 48u64)
            | ((((v >> 56u64) & 0xff) as u8 as u64) << 56u64) == v,
{
    assert(((v & 0xff) as u8 as u64) | ((((v >> 8u64) & 0xff) as u8 as u64) << 8u64)
            | ((((v >> 16u64) & 0xff) as u8 as u64) << 16u64)
            | ((((v >> 24u64) & 0xff) as u8 as u64) << 24u64)
            | ((((v >> 32u64) & 0xff) as u8 as u64) << 32u64)
            | ((((v >> 40u64) & 0xff) as u8 as u64) << 40u64)
            | ((((v >> 48u64) & 0xff) as u8 as u64) << 48u64)
            | ((((v >> 56u64) & 0xff) as u8 as u64) << 56u64) == v) by (bit_vector);
}

/// Reading back the bytes of an integer, whatever follows them, gives the integer.
pub proof fn lemma_le_u64_round_trip(v: u64, rest: Seq<u8>)
    ensures
        le_u64_value(le_u64_bytes(v) + rest) == v,
{
    let s = le_u64_bytes(v) + rest;
    assert(s[0] == (v & 0xff) as u8);
    assert(s[1] == ((v >> 8u64) & 0xff) as u8);
    assert(s[2] == ((v >> 16u64) & 0xff) as u8);
    assert(s[3] == ((v >> 24u64) & 0xff) as u8);
    assert(s[4] == ((v >> 32u64) & 0xff) as u8);
    assert(s[5] == ((v >> 40u64) & 0xff) as u8);
    assert(s[6] == ((v >> 48u64) & 0xff) as u8);
    assert(s[7] == ((v >> 56u64) & 0xff) as u8);
    lemma_le_u64_bits(v);
}

/// Encodes `v` as eight little-endian bytes.
pub fn encode_u64(v: u64) -> (r: Vec<u8>)
    ensures
        r@ == le_u64_bytes(v),
{
    let r = vec![
        (v & 0xff) as u8,
        ((v >> 8u64) & 0xff) as u8,
        ((v >> 16u64) & 0xff) as u8,
        ((v >> 24u64) & 0xff) as u8,
        ((v >> 32u64) & 0xff) as u8,
        ((v >> 40u64) & 0xff) as u8,
        ((v >> 48u64) & 0xff) as u8,
        ((v >> 56u64) & 0xff) as u8,
    ];
    assert(r@ =~= le_u64_bytes(v));
    r
}

/// Reads a little-endian integer from the first eight bytes of `s`; fails
/// when there are fewer.
pub fn decode_u64(s: &[u8]) -> (r: Option<u64>)
    ensures
        s@.len() < 8 ==> r is None,
        s@.len() >= 8 ==> r == Some(le_u64_value(s@)),
{
    if s.len() < 8 {
        return None;
    }
    Some((s[0] as u64) | ((s[1] as u64) << 8u64) | ((s[2] as u64) << 16u64) | ((s[3] as u64) << 24u64)
        | ((s[4] as u64) << 32u64) | ((s[5] as u64) << 40u64) | ((s[6] as u64) << 48u64)
        | ((s[7] as u64) << 56u64))
}

/// The largest length a compact prefix carries here (2^30 - 1): longer
/// sequences do not occur in messages.
pub const MAX_COMPACT_LEN: usize = 1073741823;

/// The compact (variable-width) encoding of a length: one byte below 2^6,
/// two below 2^14, four below 2^30; the low two bits give the width.
pub open spec fn compact_bytes(n: nat) -> Seq<u8> {
    if n < 64 {
        seq![(n * 4) as u8]
    } else if n < 16384 {
        let v = n * 4 + 1;
        seq![(v % 256) as u8, (v / 256) as u8]
    } else {
        let v = n * 4 + 2;
        seq![(v % 256) as u8, (v / 256 % 256) as u8, (v / 65536 % 256) as u8, (v / 16777216) as u8]
    }
}

/// Reads a compact length from the start of `s`: the length and the number of
/// bytes it took. Only the shortest form of each length is accepted.
pub open spec fn parse_compact(s: Seq<u8>) -> Option<(nat, nat)> {
    if s.len() == 0 {
        None
    } else if s[0] % 4 == 0 {
        Some(((s[0] / 4) as nat, 1))
    } else if s[0] % 4 == 1 {
        if s.len() < 2 {
            None
        } else {
            let n = ((s[0] + 256 * s[1]) / 4) as nat;
            if n < 64 { None } else { Some((n, 2)) }
        }
    } else if s[0] % 4 == 2 {
        if s.len() < 4 {
            None
        } else {
            let n = ((s[0] + 256 * s[1] + 65536 * s[2] + 16777216 * s[3]) / 4) as nat;
            if n < 16384 { None } else { Some((n, 4)) }
        }
    } else {
        None
    }
}

/// A compact length reads back as itself, whatever follows it.
pub proof fn lemma_compact_round_trip(n: nat, rest: Seq<u8>)
    requires
        n <= MAX_COMPACT_LEN,
    ensures
        parse_compact(compact_bytes(n) + rest) == Some((n, compact_bytes(n).len())),
{
    let s = compact_bytes(n) + rest;
    if n < 64 {
        assert(s[0] == (n * 4) as u8);
    } else if n < 16384 {
        let v = n * 4 + 1;
        assert(s[0] == (v % 256) as u8);
        assert(s[1] == (v / 256) as u8);
        assert(s[0] + 256 * s[1] == v) by (nonlinear_arith)
            requires s[0] == v % 256, s[1] == v / 256, v < 65536;
    } else {
        let v = n * 4 + 2;
        assert(s[0] == (v % 256) as u8);
        assert(s[1] == (v / 256 % 256) as u8);
        assert(s[2] == (v / 65536 % 256) as u8);
        assert(s[3] == (v / 16777216) as u8);
        assert(s[0] + 256 * s[1] + 65536 * s[2] + 16777216 * s[3] == v) by (nonlinear_arith)
            requires
                s[0] == v % 256,
                s[1] == v / 256 % 256,
                s[2] == v / 65536 % 256,
                s[3] == v / 16777216,
                v < 4294967296,
        ;
    }
}

/// Encodes a length in compact form.
pub fn encode_compact(n: usize) -> (r: Vec<u8>)
    requires
        n <= MAX_COMPACT_LEN,
    ensures
        r@ == compact_bytes(n as nat),
{
    let r = if n < 64 {
        vec![(n * 4) as u8]
    } else if n < 16384 {
        let v: usize = n * 4 + 1;
        vec![(v % 256) as u8, (v / 256) as u8]
    } else {
        let v: u64 = n as u64 * 4 + 2;
        vec![(v % 256) as u8, (v / 256 % 256) as u8, (v / 65536 % 256) as u8, (v / 16777216) as u8]
    };
    assert(r@ =~= compact_bytes(n as nat));
    r
}

/// Reads a compact length at `pos`: the length and the position after it.
pub fn decode_compact(s: &[u8], pos: usize) -> (r: Option<(usize, usize)>)
    requires
        pos <= s@.len(),
    ensures
        match parse_compact(s@.subrange(pos as int, s@.len() as int)) {
            Some((n, k)) => r == Some((n as usize, (pos + k) as usize)),
            None => r is None,
        },
        r matches Some((n, e)) ==> pos < e <= s@.len() && n <= MAX_COMPACT_LEN,
        parse_compact(s@.subrange(pos as int, s@.len() as int)) matches Some((n, k))
            ==> n <= MAX_COMPACT_LEN && 0 < k <= s@.len() - pos,
{
    let ghost rest = s@.subrange(pos as int, s@.len() as int);
    if pos >= s.len() {
        return None;
    }
    let b0 = s[pos] as u64;
    assert(b0 == rest[0]);
    if b0 % 4 == 0 {
        Some(((b0 / 4) as usize, pos + 1))
    } else if b0 % 4 == 1 {
        if s.len() - pos < 2 {
            return None;
        }
        let b1 = s[pos + 1] as u64;
        assert(b1 == rest[1]);
        let n = (b0 + 256 * b1) / 4;
        if n < 64 { None } else { Some((n as usize, pos + 2)) }
    } else if b0 % 4 == 2 {
        if s.len() - pos < 4 {
            return None;
        }
        let b1 = s[pos + 1] as u64;
        let b2 = s[pos + 2] as u64;
        let b3 = s[pos + 3] as u64;
        assert(b1 == rest[1] && b2 == rest[2] && b3 == rest[3]);
        let n = (b0 + 256 * b1 + 65536 * b2 + 16777216 * b3) / 4;
        if n < 16384 { None } else { Some((n as usize, pos + 4)) }
    } else {
        None
    }
}

} // verus!
