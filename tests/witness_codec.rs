use tx_validation::witness::{MerkleProof, ProofStep, TxInWitness, TxWitness};

fn tree_witness(steps: usize) -> TxInWitness {
    let path = (0..steps)
        .map(|i| ProofStep {
            sibling_on_left: i % 2 == 0,
            hash: vec![i as u8; 32],
        })
        .collect();
    TxInWitness::TreeSig {
        signature: vec![0x5a; 64],
        proof: MerkleProof {
            path,
            leaf: vec![0x02; 33],
        },
    }
}

fn redeem_witness() -> TxInWitness {
    TxInWitness::BasicRedeem {
        recovery_id: 1,
        signature: vec![0x01; 64],
    }
}

#[test]
fn tree_sig_round_trip() {
    for steps in [0usize, 1, 3, 64, 70] {
        let w = tree_witness(steps);
        let bytes = w.encode();
        assert_eq!(Some(w), TxInWitness::decode(&bytes));
    }
}

#[test]
fn basic_redeem_round_trip() {
    let w = redeem_witness();
    let bytes = w.encode();
    assert_eq!(67, bytes.len());
    assert_eq!(&[0u8, 2, 1], &bytes[..3]);
    assert_eq!(Some(w), TxInWitness::decode(&bytes));
}

#[test]
fn tree_sig_layout() {
    let bytes = tree_witness(1).encode();
    assert_eq!(1, bytes[0]);
    assert_eq!(3, bytes[1]);
    assert_eq!(vec![0x5a; 64], bytes[2..66].to_vec());
    // one step: compact length 1 is the byte 4
    assert_eq!(4, bytes[66]);
    assert_eq!(1, bytes[67]);
    assert_eq!(vec![0u8; 32], bytes[68..100].to_vec());
    assert_eq!(vec![0x02; 33], bytes[100..133].to_vec());
    assert_eq!(133, bytes.len());
}

#[test]
fn long_path_uses_two_byte_length() {
    let bytes = tree_witness(64).encode();
    // 64 * 4 + 1 = 257 = [0x01, 0x01]
    assert_eq!(&[1u8, 1], &bytes[66..68]);
}

#[test]
fn unknown_tag_marker_pairs_are_rejected() {
    let good = tree_witness(2).encode();
    for (tag, marker) in [(0u8, 3u8), (1, 2), (2, 3), (0, 0), (1, 1), (255, 255)] {
        let mut bytes = good.clone();
        bytes[0] = tag;
        bytes[1] = marker;
        assert_eq!(None, TxInWitness::decode(&bytes));
    }
    assert_eq!(None, TxInWitness::decode(&[]));
    assert_eq!(None, TxInWitness::decode(&[1]));
}

#[test]
fn truncated_input_is_rejected() {
    for w in [tree_witness(2), redeem_witness()] {
        let bytes = w.encode();
        for len in 0..bytes.len() {
            assert_eq!(None, TxInWitness::decode(&bytes[..len]));
        }
    }
}

#[test]
fn trailing_bytes_are_rejected() {
    let mut bytes = tree_witness(1).encode();
    bytes.push(0);
    assert_eq!(None, TxInWitness::decode(&bytes));
    let (w, end) = TxInWitness::decode_at(&bytes, 0).unwrap();
    assert_eq!(tree_witness(1), w);
    assert_eq!(bytes.len() - 1, end);
}

#[test]
fn bad_side_byte_is_rejected() {
    let mut bytes = tree_witness(1).encode();
    bytes[67] = 2;
    assert_eq!(None, TxInWitness::decode(&bytes));
}

#[test]
fn recovery_id_out_of_range_is_rejected() {
    let mut bytes = redeem_witness().encode();
    bytes[2] = 4;
    assert_eq!(None, TxInWitness::decode(&bytes));
}

#[test]
fn unparsable_ecdsa_signature_is_rejected() {
    let mut bytes = redeem_witness().encode();
    for b in bytes[3..].iter_mut() {
        *b = 0xff;
    }
    assert_eq!(None, TxInWitness::decode(&bytes));
}

#[test]
fn non_shortest_length_prefix_is_rejected() {
    let bytes = tree_witness(1).encode();
    // re-encode the length 1 in the two-byte form
    let mut long = bytes[..66].to_vec();
    long.extend_from_slice(&[0x05, 0x00]);
    long.extend_from_slice(&bytes[67..]);
    assert_eq!(None, TxInWitness::decode(&long));
}

#[test]
fn tx_witness_round_trip() {
    let empty = TxWitness::new();
    assert_eq!(vec![0u8], empty.encode());
    assert_eq!(Some(TxWitness::new()), TxWitness::decode(&[0]));
    let w = TxWitness(vec![tree_witness(2), redeem_witness(), tree_witness(0)]);
    let bytes = w.encode();
    assert_eq!(12, bytes[0]);
    assert_eq!(Some(w), TxWitness::decode(&bytes));
}

#[test]
fn tx_witness_truncated_is_rejected() {
    let w = TxWitness(vec![redeem_witness(), tree_witness(1)]);
    let bytes = w.encode();
    for len in 0..bytes.len() {
        assert_eq!(None, TxWitness::decode(&bytes[..len]));
    }
    // a count larger than the witnesses present
    let mut more = bytes.clone();
    more[0] = 12;
    assert_eq!(None, TxWitness::decode(&more));
}
