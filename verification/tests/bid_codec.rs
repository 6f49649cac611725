use focil::bid_codec::SszError;
use focil::payload_bid::{
    Address, ExecutionPayloadBid, ExecutionPayloadBidGloas, ExecutionPayloadBidHeze, ForkName,
    KzgCommitment,
};
use focil::primitives::Hash256;

/// The commitment limit of a block on mainnet.
const MAX_BLOB_COMMITMENTS_PER_BLOCK: usize = 4096;

fn sample_gloas() -> ExecutionPayloadBidGloas {
    ExecutionPayloadBidGloas {
        parent_block_hash: Hash256([1u8; 32]),
        parent_block_root: Hash256([2u8; 32]),
        block_hash: Hash256([3u8; 32]),
        prev_randao: Hash256([4u8; 32]),
        fee_recipient: Address([5u8; 20]),
        gas_limit: 30_000_000,
        builder_index: 7,
        slot: 0x0102_0304_0506_0708,
        value: 1_000_000_000,
        execution_payment: 42,
        blob_kzg_commitments: vec![KzgCommitment([9u8; 48]), KzgCommitment([10u8; 48])],
    }
}

fn sample_heze() -> ExecutionPayloadBidHeze {
    let g = sample_gloas();
    let mut bits = [false; 16];
    bits[0] = true;
    bits[3] = true;
    bits[9] = true;
    bits[15] = true;
    ExecutionPayloadBidHeze {
        parent_block_hash: g.parent_block_hash,
        parent_block_root: g.parent_block_root,
        block_hash: g.block_hash,
        prev_randao: g.prev_randao,
        fee_recipient: g.fee_recipient,
        gas_limit: g.gas_limit,
        builder_index: g.builder_index,
        slot: g.slot,
        value: g.value,
        execution_payment: g.execution_payment,
        blob_kzg_commitments: g.blob_kzg_commitments,
        inclusion_list_bits: bits,
    }
}

fn same_fields(a: &ExecutionPayloadBidGloas, b: &ExecutionPayloadBidGloas) -> bool {
    a.parent_block_hash.0 == b.parent_block_hash.0
        && a.parent_block_root.0 == b.parent_block_root.0
        && a.block_hash.0 == b.block_hash.0
        && a.prev_randao.0 == b.prev_randao.0
        && a.fee_recipient.0 == b.fee_recipient.0
        && a.gas_limit == b.gas_limit
        && a.builder_index == b.builder_index
        && a.slot == b.slot
        && a.value == b.value
        && a.execution_payment == b.execution_payment
        && a.blob_kzg_commitments.len() == b.blob_kzg_commitments.len()
        && a.blob_kzg_commitments.iter().zip(b.blob_kzg_commitments.iter()).all(|(x, y)| x.0 == y.0)
}

#[test]
fn test_heze_cannot_decode_as_gloas() {
    let heze_bid = ExecutionPayloadBidHeze::default();
    let heze_bytes = heze_bid.as_ssz_bytes();
    let result = ExecutionPayloadBidGloas::from_ssz_bytes(&heze_bytes, MAX_BLOB_COMMITMENTS_PER_BLOCK);
    assert!(
        result.is_err(),
        "Heze data should NOT be decodable as Gloas - this would cause data corruption!"
    );
}

#[test]
fn test_gloas_decode_via_enum() {
    let gloas_bid = ExecutionPayloadBidGloas::default();
    let gloas_bytes = gloas_bid.as_ssz_bytes();
    let decoded = ExecutionPayloadBid::from_ssz_bytes(&gloas_bytes, MAX_BLOB_COMMITMENTS_PER_BLOCK)
        .expect("should decode");
    assert!(matches!(decoded, ExecutionPayloadBid::Gloas(_)));
}

#[test]
fn test_heze_decode_via_enum() {
    let heze_bid = ExecutionPayloadBidHeze::default();
    let heze_bytes = heze_bid.as_ssz_bytes();
    let decoded = ExecutionPayloadBid::from_ssz_bytes(&heze_bytes, MAX_BLOB_COMMITMENTS_PER_BLOCK)
        .expect("should decode");
    assert!(matches!(decoded, ExecutionPayloadBid::Heze(_)));
}

#[test]
fn gloas_encoding_layout() {
    let bytes = sample_gloas().as_ssz_bytes();
    assert_eq!(bytes.len(), 192 + 2 * 48);
    assert_eq!(&bytes[0..32], &[1u8; 32]);
    assert_eq!(&bytes[128..148], &[5u8; 20]);
    // The slot, little-endian.
    assert_eq!(&bytes[164..172], &[8, 7, 6, 5, 4, 3, 2, 1]);
    // The offset of the commitments.
    assert_eq!(&bytes[188..192], &[192, 0, 0, 0]);
    assert_eq!(&bytes[192..240], &[9u8; 48]);
    assert_eq!(&bytes[240..288], &[10u8; 48]);
    assert_eq!(sample_gloas().ssz_bytes_len(), bytes.len());
}

#[test]
fn heze_encoding_layout() {
    let bytes = sample_heze().as_ssz_bytes();
    assert_eq!(bytes.len(), 194 + 2 * 48);
    assert_eq!(&bytes[188..192], &[194, 0, 0, 0]);
    // Bits 0 and 3 in the first byte, 9 and 15 in the second.
    assert_eq!(bytes[192], 0b0000_1001);
    assert_eq!(bytes[193], 0b1000_0010);
    assert_eq!(&bytes[194..242], &[9u8; 48]);
    assert_eq!(sample_heze().ssz_bytes_len(), bytes.len());
}

#[test]
fn bids_read_back_as_themselves() {
    let g = sample_gloas();
    match ExecutionPayloadBid::from_ssz_bytes(&g.as_ssz_bytes(), MAX_BLOB_COMMITMENTS_PER_BLOCK) {
        Ok(ExecutionPayloadBid::Gloas(d)) => assert!(same_fields(&d, &g)),
        other => panic!("expected a Gloas bid, got {:?}", other),
    }
    let h = sample_heze();
    match ExecutionPayloadBid::from_ssz_bytes(&h.as_ssz_bytes(), MAX_BLOB_COMMITMENTS_PER_BLOCK) {
        Ok(ExecutionPayloadBid::Heze(d)) => {
            assert_eq!(d.inclusion_list_bits, h.inclusion_list_bits);
            assert_eq!(d.gas_limit, h.gas_limit);
            assert_eq!(d.slot, h.slot);
            assert_eq!(d.blob_kzg_commitments.len(), 2);
            assert_eq!(d.blob_kzg_commitments[1].0, [10u8; 48]);
        }
        other => panic!("expected a Heze bid, got {:?}", other),
    }
    let enum_bytes = ExecutionPayloadBid::Heze(sample_heze()).as_ssz_bytes();
    assert_eq!(enum_bytes, sample_heze().as_ssz_bytes());
}

#[test]
fn bid_decoding_errors() {
    let max = MAX_BLOB_COMMITMENTS_PER_BLOCK;
    assert_eq!(
        ExecutionPayloadBidGloas::from_ssz_bytes(&[0u8; 10], max).unwrap_err(),
        SszError::InvalidByteLength { len: 10, expected: 32 }
    );
    assert_eq!(
        ExecutionPayloadBidGloas::from_ssz_bytes(&[0u8; 150], max).unwrap_err(),
        SszError::InvalidByteLength { len: 150, expected: 156 }
    );
    assert_eq!(
        ExecutionPayloadBidGloas::from_ssz_bytes(&[0u8; 190], max).unwrap_err(),
        SszError::InvalidLengthPrefix { len: 2, expected: 4 }
    );
    let mut bytes = ExecutionPayloadBidGloas::default().as_ssz_bytes();
    bytes[188] = 200;
    assert_eq!(
        ExecutionPayloadBidGloas::from_ssz_bytes(&bytes, max).unwrap_err(),
        SszError::OffsetOutOfBounds(200)
    );
    bytes[188] = 100;
    assert_eq!(
        ExecutionPayloadBidGloas::from_ssz_bytes(&bytes, max).unwrap_err(),
        SszError::OffsetIntoFixedPortion(100)
    );
    let mut two = sample_gloas().as_ssz_bytes();
    assert_eq!(
        ExecutionPayloadBidGloas::from_ssz_bytes(&two, 1).unwrap_err(),
        SszError::TooManyCommitments { count: 2, max: 1 }
    );
    two.push(0);
    assert_eq!(
        ExecutionPayloadBidGloas::from_ssz_bytes(&two, max).unwrap_err(),
        SszError::PartialCommitment { len: 97 }
    );
    let heze = ExecutionPayloadBidHeze::default().as_ssz_bytes();
    assert_eq!(
        ExecutionPayloadBidGloas::from_ssz_bytes(&heze, max).unwrap_err(),
        SszError::OffsetSkipsVariableBytes(194)
    );
    assert_eq!(
        ExecutionPayloadBidHeze::from_ssz_bytes(&heze[..193], max).unwrap_err(),
        SszError::OffsetOutOfBounds(194)
    );
    let mut short = heze[..193].to_vec();
    short[188] = 193;
    assert_eq!(
        ExecutionPayloadBidHeze::from_ssz_bytes(&short, max).unwrap_err(),
        SszError::InvalidByteLength { len: 193, expected: 194 }
    );
    // Neither variant: the Heze error is reported.
    assert_eq!(
        ExecutionPayloadBid::from_ssz_bytes(&[0u8; 10], max).unwrap_err(),
        SszError::InvalidByteLength { len: 10, expected: 32 }
    );
}

#[test]
fn bids_read_by_fork() {
    let max = MAX_BLOB_COMMITMENTS_PER_BLOCK;
    let gloas = ExecutionPayloadBidGloas::default().as_ssz_bytes();
    let heze = ExecutionPayloadBidHeze::default().as_ssz_bytes();
    assert!(matches!(
        ExecutionPayloadBid::from_ssz_bytes_by_fork(&gloas, ForkName::Gloas, max),
        Ok(ExecutionPayloadBid::Gloas(_))
    ));
    assert!(matches!(
        ExecutionPayloadBid::from_ssz_bytes_by_fork(&heze, ForkName::Heze, max),
        Ok(ExecutionPayloadBid::Heze(_))
    ));
    assert_eq!(
        ExecutionPayloadBid::from_ssz_bytes_by_fork(&heze, ForkName::Gloas, max).unwrap_err(),
        SszError::OffsetSkipsVariableBytes(194)
    );
    assert_eq!(
        ExecutionPayloadBid::from_ssz_bytes_by_fork(&gloas, ForkName::Fulu, max).unwrap_err(),
        SszError::UnsupportedFork(ForkName::Fulu)
    );
}

#[test]
fn accepted_bytes_reencode_to_themselves() {
    // Arbitrary field bytes with a valid offset and one commitment.
    let mut bytes: Vec<u8> = (0..240u32).map(|i| (i * 7 + 3) as u8).collect();
    bytes[188..192].copy_from_slice(&[192, 0, 0, 0]);
    let g = ExecutionPayloadBidGloas::from_ssz_bytes(&bytes, MAX_BLOB_COMMITMENTS_PER_BLOCK)
        .expect("should decode");
    assert_eq!(g.as_ssz_bytes(), bytes);
    // The same bytes are read as Gloas through the enum.
    assert!(matches!(
        ExecutionPayloadBid::from_ssz_bytes(&bytes, MAX_BLOB_COMMITMENTS_PER_BLOCK),
        Ok(ExecutionPayloadBid::Gloas(_))
    ));

    let mut heze_bytes: Vec<u8> = (0..242u32).map(|i| (i * 13 + 1) as u8).collect();
    heze_bytes[188..192].copy_from_slice(&[194, 0, 0, 0]);
    let h = ExecutionPayloadBidHeze::from_ssz_bytes(&heze_bytes, MAX_BLOB_COMMITMENTS_PER_BLOCK)
        .expect("should decode");
    assert_eq!(h.as_ssz_bytes(), heze_bytes);
    assert!(matches!(
        ExecutionPayloadBid::from_ssz_bytes(&heze_bytes, MAX_BLOB_COMMITMENTS_PER_BLOCK),
        Ok(ExecutionPayloadBid::Heze(_))
    ));
}
