//! The SSZ encoding of execution payload bids, and the decoder that reads a
//! bid of unknown fork.
//!
//! A bid is an SSZ container: its fixed-size fields in order, then a four-byte
//! little-endian offset to the list of blob KZG commitments, then (Heze only)
//! the two bytes of the inclusion list bits, then the commitments, 48 bytes
//! each.

use vstd::prelude::*;
use crate::primitives::Hash256;
use crate::payload_bid::{
    Address, BidFieldsView, BidView, BidVariant, ExecutionPayloadBid, ExecutionPayloadBidGloas,
    ExecutionPayloadBidHeze, ForkName, KzgCommitment, bid_variant_for_fork, commitments_view,
    select_bid_variant, spec_bid_variant_for_fork, spec_select_bid_variant,
};

verus! {

/// The little-endian bytes of a `u64`.
pub open spec fn u64_le(x: u64) -> Seq<u8> {
    seq![
        x as u8,
        (x >> 8u64) as u8,
        (x >> 16u64) as u8,
        (x >> 24u64) as u8,
        (x >> 32u64) as u8,
        (x >> 40u64) as u8,
        (x >> 48u64) as u8,
        (x >> 56u64) as u8,
    ]
}

/// The `u64` whose little-endian bytes are the first eight of `b`.
pub open spec fn u64_of_le(b: Seq<u8>) -> u64 {
    (b[0] as u64) | ((b[1] as u64) << 8u64) | ((b[2] as u64) << 16u64) | ((b[3] as u64) << 24u64)
        | ((b[4] as u64) << 32u64) | ((b[5] as u64) << 40u64) | ((b[6] as u64) << 48u64) | ((
    b[7] as u64) << 56u64)
}

/// The little-endian bytes of a `u32`.
pub open spec fn u32_le(x: u32) -> Seq<u8> {
    seq![x as u8, (x >> 8u32) as u8, (x >> 16u32) as u8, (x >> 24u32) as u8]
}

/// The `u32` whose little-endian bytes are the first four of `b`.
pub open spec fn u32_of_le(b: Seq<u8>) -> u32 {
    (b[0] as u32) | ((b[1] as u32) << 8u32) | ((b[2] as u32) << 16u32) | ((b[3] as u32) << 24u32)
}

/// Reading back the little-endian bytes of a `u64` gives the `u64`.
pub proof fn lemma_u64_le_roundtrip(x: u64)
    ensures
        u64_of_le(u64_le(x)) == x,
{
    let b = u64_le(x);
    assert(b[0] == x as u8 && b[1] == (x >> 8u64) as u8 && b[2] == (x >> 16u64) as u8 && b[3] == (x
        >> 24u64) as u8);
    assert(b[4] == (x >> 32u64) as u8 && b[5] == (x >> 40u64) as u8 && b[6] == (x >> 48u64) as u8
        && b[7] == (x >> 56u64) as u8);
    assert(((x as u8) as u64) | ((((x >> 8u64) as u8) as u64) << 8u64) | ((((x >> 16u64) as u8)
        as u64) << 16u64) | ((((x >> 24u64) as u8) as u64) << 24u64) | ((((x >> 32u64) as u8)
        as u64) << 32u64) | ((((x >> 40u64) as u8) as u64) << 40u64) | ((((x >> 48u64) as u8)
        as u64) << 48u64) | ((((x >> 56u64) as u8) as u64) << 56u64) == x) by (bit_vector);
}

/// Reading back the little-endian bytes of a `u32` gives the `u32`.
pub proof fn lemma_u32_le_roundtrip(x: u32)
    ensures
        u32_of_le(u32_le(x)) == x,
{
    let b = u32_le(x);
    assert(b[0] == x as u8 && b[1] == (x >> 8u32) as u8 && b[2] == (x >> 16u32) as u8 && b[3] == (x
        >> 24u32) as u8);
    assert(((x as u8) as u32) | ((((x >> 8u32) as u8) as u32) << 8u32) | ((((x >> 16u32) as u8)
        as u32) << 16u32) | ((((x >> 24u32) as u8) as u32) << 24u32) == x) by (bit_vector);
}

/// Size, in bytes, of the fixed part of a Gloas bid: its fixed-size fields
/// and the offset of the commitments.
pub const GLOAS_BID_FIXED_LEN: usize = 192;

/// Size, in bytes, of the fixed part of a Heze bid, which adds the two bytes
/// of the inclusion list bits.
pub const HEZE_BID_FIXED_LEN: usize = 194;

/// Where the offset of the commitments starts: after four roots, an address
/// and five `u64`s.
pub const COMMITMENTS_OFFSET_AT: usize = 188;

/// Why bytes could not be read as a bid.
#[derive(Clone, Copy, Debug, PartialEq, Eq)]
pub enum SszError {
    /// Too few bytes for the fixed-size fields, up to `expected`.
    InvalidByteLength { len: usize, expected: usize },
    /// Too few bytes left for the four-byte offset.
    InvalidLengthPrefix { len: usize, expected: usize },
    /// The offset points past the end of the bytes.
    OffsetOutOfBounds(usize),
    /// The offset points into the fixed part.
    OffsetIntoFixedPortion(usize),
    /// The offset points past the end of the fixed part.
    OffsetSkipsVariableBytes(usize),
    /// More commitments than a block may hold.
    TooManyCommitments { count: usize, max: usize },
    /// The commitment bytes are not a whole number of commitments.
    PartialCommitment { len: usize },
    /// The fork has no execution payload bids.
    UnsupportedFork(ForkName),
}

/// Bit `k` of a byte, counted from the lowest.
#[verifier::opaque]
pub open spec fn bit_of(byte: u8, k: u8) -> bool {
    (byte >> k) & 1u8 == 1u8
}

/// The byte whose bits, lowest first, are `b0` to `b7`.
#[verifier::opaque]
pub open spec fn pack8(b0: bool, b1: bool, b2: bool, b3: bool, b4: bool, b5: bool, b6: bool, b7: bool) -> u8 {
    (if b0 { 1u8 } else { 0u8 }) | (if b1 { 2u8 } else { 0u8 }) | (if b2 { 4u8 } else { 0u8 }) | (if b3 {
        8u8
    } else {
        0u8
    }) | (if b4 { 16u8 } else { 0u8 }) | (if b5 { 32u8 } else { 0u8 }) | (if b6 { 64u8 } else { 0u8 })
        | (if b7 { 128u8 } else { 0u8 })
}

/// The SSZ encoding of sixteen bits: two bytes, bit `i` at bit `i % 8` of
/// byte `i / 8`.
pub open spec fn bits_bytes(bits: Seq<bool>) -> Seq<u8> {
    seq![
        pack8(bits[0], bits[1], bits[2], bits[3], bits[4], bits[5], bits[6], bits[7]),
        pack8(bits[8], bits[9], bits[10], bits[11], bits[12], bits[13], bits[14], bits[15]),
    ]
}

/// The sixteen bits of two bytes.
pub open spec fn bits_of_bytes(b: Seq<u8>) -> Seq<bool> {
    Seq::new(16, |i: int| bit_of(b[i / 8], (i % 8) as u8))
}

/// The bytes of the commitments, one after the other.
pub open spec fn concat_chunks(c: Seq<Seq<u8>>) -> Seq<u8>
    decreases c.len(),
{
    if c.len() == 0 {
        Seq::empty()
    } else {
        concat_chunks(c.drop_last()) + c.last()
    }
}

/// The fixed-size fields of a bid, in order.
pub open spec fn fixed_fields_bytes(f: BidFieldsView) -> Seq<u8> {
    f.parent_block_hash + f.parent_block_root + f.block_hash + f.prev_randao + f.fee_recipient
        + u64_le(f.gas_limit) + u64_le(f.builder_index) + u64_le(f.slot) + u64_le(f.value) + u64_le(
        f.execution_payment,
    )
}

/// The SSZ encoding of a Gloas bid.
pub open spec fn encode_bid_gloas(f: BidFieldsView) -> Seq<u8> {
    fixed_fields_bytes(f) + u32_le(GLOAS_BID_FIXED_LEN as u32) + concat_chunks(f.blob_kzg_commitments)
}

/// The SSZ encoding of a Heze bid.
pub open spec fn encode_bid_heze(f: BidFieldsView, bits: Seq<bool>) -> Seq<u8> {
    fixed_fields_bytes(f) + u32_le(HEZE_BID_FIXED_LEN as u32) + bits_bytes(bits) + concat_chunks(
        f.blob_kzg_commitments,
    )
}

/// The SSZ encoding of a bid of either variant: that of the variant itself.
pub open spec fn encode_bid(v: BidView) -> Seq<u8> {
    match v {
        BidView::Gloas(f) => encode_bid_gloas(f),
        BidView::Heze(f, bits) => encode_bid_heze(f, bits),
    }
}

/// The fields read from `b`, with the commitments starting at `list_start`.
pub open spec fn fields_at(b: Seq<u8>, list_start: int) -> BidFieldsView {
    BidFieldsView {
        parent_block_hash: b.subrange(0, 32),
        parent_block_root: b.subrange(32, 64),
        block_hash: b.subrange(64, 96),
        prev_randao: b.subrange(96, 128),
        fee_recipient: b.subrange(128, 148),
        gas_limit: u64_of_le(b.subrange(148, 156)),
        builder_index: u64_of_le(b.subrange(156, 164)),
        slot: u64_of_le(b.subrange(164, 172)),
        value: u64_of_le(b.subrange(172, 180)),
        execution_payment: u64_of_le(b.subrange(180, 188)),
        blob_kzg_commitments: Seq::new(
            ((b.len() - list_start) / 48) as nat,
            |i: int| b.subrange(list_start + 48 * i, list_start + 48 * i + 48),
        ),
    }
}

/// The end of the first fixed-size field that does not fit in `len` bytes.
pub open spec fn fixed_field_end_past(len: nat) -> nat {
    if len < 32 {
        32
    } else if len < 64 {
        64
    } else if len < 96 {
        96
    } else if len < 128 {
        128
    } else if len < 148 {
        148
    } else if len < 156 {
        156
    } else if len < 164 {
        164
    } else if len < 172 {
        172
    } else if len < 180 {
        180
    } else {
        188
    }
}

/// Why `n` bytes are no list of at most `max` commitments, if they are not.
pub open spec fn commitments_error(n: nat, max: nat) -> Option<SszError> {
    if n == 0 {
        None
    } else if n / 48 > max {
        Some(SszError::TooManyCommitments { count: (n / 48) as usize, max: max as usize })
    } else if n % 48 != 0 {
        Some(SszError::PartialCommitment { len: n as usize })
    } else {
        None
    }
}

/// The offset of the commitments, read from its four bytes.
pub open spec fn commitments_offset(b: Seq<u8>) -> nat {
    u32_of_le(b.subrange(COMMITMENTS_OFFSET_AT as int, GLOAS_BID_FIXED_LEN as int)) as nat
}

/// Why `b` is no Gloas bid with at most `max` commitments, if it is not.
pub open spec fn gloas_decode_error(b: Seq<u8>, max: nat) -> Option<SszError> {
    let len = b.len();
    if len < 188 {
        Some(SszError::InvalidByteLength { len: len as usize, expected: fixed_field_end_past(len) as usize })
    } else if len < 192 {
        Some(SszError::InvalidLengthPrefix { len: (len - 188) as usize, expected: 4 })
    } else {
        let off = commitments_offset(b);
        if off > len {
            Some(SszError::OffsetOutOfBounds(off as usize))
        } else if off < 192 {
            Some(SszError::OffsetIntoFixedPortion(off as usize))
        } else if off > 192 {
            Some(SszError::OffsetSkipsVariableBytes(off as usize))
        } else {
            commitments_error((len - 192) as nat, max)
        }
    }
}

/// Why `b` is no Heze bid with at most `max` commitments, if it is not.
pub open spec fn heze_decode_error(b: Seq<u8>, max: nat) -> Option<SszError> {
    let len = b.len();
    if len < 188 {
        Some(SszError::InvalidByteLength { len: len as usize, expected: fixed_field_end_past(len) as usize })
    } else if len < 192 {
        Some(SszError::InvalidLengthPrefix { len: (len - 188) as usize, expected: 4 })
    } else {
        let off = commitments_offset(b);
        if off > len {
            Some(SszError::OffsetOutOfBounds(off as usize))
        } else if len < 194 {
            Some(SszError::InvalidByteLength { len: len as usize, expected: 194 })
        } else if off < 194 {
            Some(SszError::OffsetIntoFixedPortion(off as usize))
        } else if off > 194 {
            Some(SszError::OffsetSkipsVariableBytes(off as usize))
        } else {
            commitments_error((len - 194) as nat, max)
        }
    }
}

/// The Gloas bid read from `b`, where it is one.
pub open spec fn gloas_fields(b: Seq<u8>) -> BidFieldsView {
    fields_at(b, GLOAS_BID_FIXED_LEN as int)
}

/// The Heze bid read from `b`, where it is one.
pub open spec fn heze_fields(b: Seq<u8>) -> (BidFieldsView, Seq<bool>) {
    (fields_at(b, HEZE_BID_FIXED_LEN as int), bits_of_bytes(b.subrange(192, 194)))
}

/// What bytes of unknown fork are read as: Gloas when they decode as Gloas,
/// unless they are more than two bytes longer than the Gloas re-encoding
/// and decode as a Heze bid whose re-encoding consumes them all; else Heze
/// when they decode as Heze; else the Heze decoding error.
pub open spec fn spec_decode_bid(b: Seq<u8>, max: nat) -> Result<BidView, SszError> {
    let g = gloas_decode_error(b, max);
    let h = heze_decode_error(b, max);
    let glen: Option<nat> = if g is None {
        Some(encode_bid_gloas(gloas_fields(b)).len())
    } else {
        None
    };
    let hlen: Option<nat> = if h is None {
        Some(encode_bid_heze(heze_fields(b).0, heze_fields(b).1).len())
    } else {
        None
    };
    match spec_select_bid_variant(b.len(), glen, hlen) {
        Some(BidVariant::Gloas) => Ok(BidView::Gloas(gloas_fields(b))),
        Some(BidVariant::Heze) => Ok(BidView::Heze(heze_fields(b).0, heze_fields(b).1)),
        None => Err(h->0),
    }
}

/// What bytes read for a known fork are: the bid variant of the fork, or
/// its decoding error; an error for a fork without bids.
pub open spec fn spec_decode_bid_by_fork(b: Seq<u8>, fork: ForkName, max: nat) -> Result<
    BidView,
    SszError,
> {
    match spec_bid_variant_for_fork(fork) {
        Some(BidVariant::Gloas) => match gloas_decode_error(b, max) {
            None => Ok(BidView::Gloas(gloas_fields(b))),
            Some(e) => Err(e),
        },
        Some(BidVariant::Heze) => match heze_decode_error(b, max) {
            None => Ok(BidView::Heze(heze_fields(b).0, heze_fields(b).1)),
            Some(e) => Err(e),
        },
        None => Err(SszError::UnsupportedFork(fork)),
    }
}

/// Unpacking a packed byte gives its bits back.
proof fn lemma_pack8_bits(b0: bool, b1: bool, b2: bool, b3: bool, b4: bool, b5: bool, b6: bool, b7: bool)
    ensures
        bit_of(pack8(b0, b1, b2, b3, b4, b5, b6, b7), 0) == b0,
        bit_of(pack8(b0, b1, b2, b3, b4, b5, b6, b7), 1) == b1,
        bit_of(pack8(b0, b1, b2, b3, b4, b5, b6, b7), 2) == b2,
        bit_of(pack8(b0, b1, b2, b3, b4, b5, b6, b7), 3) == b3,
        bit_of(pack8(b0, b1, b2, b3, b4, b5, b6, b7), 4) == b4,
        bit_of(pack8(b0, b1, b2, b3, b4, b5, b6, b7), 5) == b5,
        bit_of(pack8(b0, b1, b2, b3, b4, b5, b6, b7), 6) == b6,
        bit_of(pack8(b0, b1, b2, b3, b4, b5, b6, b7), 7) == b7,
{
    reveal(pack8);
    reveal(bit_of);
    let y: u8 = (if b0 { 1u8 } else { 0u8 }) | (if b1 { 2u8 } else { 0u8 }) | (if b2 { 4u8 } else {
        0u8
    }) | (if b3 { 8u8 } else { 0u8 }) | (if b4 { 16u8 } else { 0u8 }) | (if b5 { 32u8 } else { 0u8 })
        | (if b6 { 64u8 } else { 0u8 }) | (if b7 { 128u8 } else { 0u8 });
    assert(y == pack8(b0, b1, b2, b3, b4, b5, b6, b7));
    assert(((y >> 0u8) & 1u8 == 1u8) == b0 && ((y >> 1u8) & 1u8 == 1u8) == b1 && ((y >> 2u8) & 1u8
        == 1u8) == b2 && ((y >> 3u8) & 1u8 == 1u8) == b3 && ((y >> 4u8) & 1u8 == 1u8) == b4 && ((y
        >> 5u8) & 1u8 == 1u8) == b5 && ((y >> 6u8) & 1u8 == 1u8) == b6 && ((y >> 7u8) & 1u8 == 1u8)
        == b7) by (bit_vector)
        requires
            y == (if b0 { 1u8 } else { 0u8 }) | (if b1 { 2u8 } else { 0u8 }) | (if b2 { 4u8 } else {
                0u8
            }) | (if b3 { 8u8 } else { 0u8 }) | (if b4 { 16u8 } else { 0u8 }) | (if b5 { 32u8 } else {
                0u8
            }) | (if b6 { 64u8 } else { 0u8 }) | (if b7 { 128u8 } else { 0u8 }),
    ;
}

/// Reading back the two bytes of sixteen bits gives the bits.
pub proof fn lemma_bits_roundtrip(bits: Seq<bool>)
    requires
        bits.len() == 16,
    ensures
        bits_of_bytes(bits_bytes(bits)) == bits,
{
    let two = bits_bytes(bits);
    let lo = pack8(bits[0], bits[1], bits[2], bits[3], bits[4], bits[5], bits[6], bits[7]);
    let hi = pack8(bits[8], bits[9], bits[10], bits[11], bits[12], bits[13], bits[14], bits[15]);
    lemma_pack8_bits(bits[0], bits[1], bits[2], bits[3], bits[4], bits[5], bits[6], bits[7]);
    lemma_pack8_bits(bits[8], bits[9], bits[10], bits[11], bits[12], bits[13], bits[14], bits[15]);
    let r = bits_of_bytes(two);
    assert(two[0] == lo && two[1] == hi);
    assert forall|i: int| 0 <= i < 16 implies r[i] == bits[i] by {
        if i < 8 {
            assert(i / 8 == 0 && i % 8 == i);
            if i < 4 {
                if i < 2 { if i == 0 {} else {} } else { if i == 2 {} else {} }
            } else {
                if i < 6 { if i == 4 {} else {} } else { if i == 6 {} else {} }
            }
        } else {
            assert(i / 8 == 1 && i % 8 == i - 8);
            if i < 12 {
                if i < 10 { if i == 8 {} else {} } else { if i == 10 {} else {} }
            } else {
                if i < 14 { if i == 12 {} else {} } else { if i == 14 {} else {} }
            }
        }
    }
    assert(r =~= bits);
}

/// The commitments' bytes are 48 per commitment, each at its place.
pub proof fn lemma_concat_chunks(c: Seq<Seq<u8>>)
    requires
        forall|i: int| 0 <= i < c.len() ==> (#[trigger] c[i]).len() == 48,
    ensures
        concat_chunks(c).len() == 48 * c.len(),
        forall|i: int|
            0 <= i < c.len() ==> concat_chunks(c).subrange(48 * i, 48 * i + 48) == #[trigger] c[i],
    decreases c.len(),
{
    if c.len() > 0 {
        let p = c.drop_last();
        lemma_concat_chunks(p);
        let whole = concat_chunks(c);
        assert(whole == concat_chunks(p) + c.last());
        assert forall|i: int| 0 <= i < c.len() implies whole.subrange(48 * i, 48 * i + 48)
            == #[trigger] c[i] by {
            if i < c.len() - 1 {
                assert(whole.subrange(48 * i, 48 * i + 48) =~= concat_chunks(p).subrange(
                    48 * i,
                    48 * i + 48,
                ));
                assert(p[i] == c[i]);
            } else {
                assert(whole.subrange(48 * i, 48 * i + 48) =~= c.last());
            }
        }
    }
}

/// The fixed-size fields read back from bytes that start with their
/// encoding are the fields.
proof fn lemma_fixed_fields_read_back(f: BidFieldsView, b: Seq<u8>, list_start: int)
    requires
        f.wf(),
        b.len() >= 188,
        b.subrange(0, 188) == fixed_fields_bytes(f),
    ensures
        fields_at(b, list_start).parent_block_hash == f.parent_block_hash,
        fields_at(b, list_start).parent_block_root == f.parent_block_root,
        fields_at(b, list_start).block_hash == f.block_hash,
        fields_at(b, list_start).prev_randao == f.prev_randao,
        fields_at(b, list_start).fee_recipient == f.fee_recipient,
        fields_at(b, list_start).gas_limit == f.gas_limit,
        fields_at(b, list_start).builder_index == f.builder_index,
        fields_at(b, list_start).slot == f.slot,
        fields_at(b, list_start).value == f.value,
        fields_at(b, list_start).execution_payment == f.execution_payment,
{
    let x = fixed_fields_bytes(f);
    assert(x.len() == 188);
    assert(b.subrange(0, 32) =~= x.subrange(0, 32));
    assert(b.subrange(32, 64) =~= x.subrange(32, 64));
    assert(b.subrange(64, 96) =~= x.subrange(64, 96));
    assert(b.subrange(96, 128) =~= x.subrange(96, 128));
    assert(b.subrange(128, 148) =~= x.subrange(128, 148));
    assert(b.subrange(148, 156) =~= x.subrange(148, 156));
    assert(b.subrange(156, 164) =~= x.subrange(156, 164));
    assert(b.subrange(164, 172) =~= x.subrange(164, 172));
    assert(b.subrange(172, 180) =~= x.subrange(172, 180));
    assert(b.subrange(180, 188) =~= x.subrange(180, 188));
    assert(x.subrange(0, 32) =~= f.parent_block_hash);
    assert(x.subrange(32, 64) =~= f.parent_block_root);
    assert(x.subrange(64, 96) =~= f.block_hash);
    assert(x.subrange(96, 128) =~= f.prev_randao);
    assert(x.subrange(128, 148) =~= f.fee_recipient);
    assert(x.subrange(148, 156) =~= u64_le(f.gas_limit));
    assert(x.subrange(156, 164) =~= u64_le(f.builder_index));
    assert(x.subrange(164, 172) =~= u64_le(f.slot));
    assert(x.subrange(172, 180) =~= u64_le(f.value));
    assert(x.subrange(180, 188) =~= u64_le(f.execution_payment));
    lemma_u64_le_roundtrip(f.gas_limit);
    lemma_u64_le_roundtrip(f.builder_index);
    lemma_u64_le_roundtrip(f.slot);
    lemma_u64_le_roundtrip(f.value);
    lemma_u64_le_roundtrip(f.execution_payment);
}

/// The commitments read back from bytes whose tail, from `list_start`, is
/// their encoding are the commitments.
proof fn lemma_commitments_read_back(c: Seq<Seq<u8>>, b: Seq<u8>, list_start: int)
    requires
        forall|i: int| 0 <= i < c.len() ==> (#[trigger] c[i]).len() == 48,
        0 <= list_start <= b.len(),
        b.subrange(list_start, b.len() as int) == concat_chunks(c),
    ensures
        b.len() - list_start == 48 * c.len(),
        fields_at(b, list_start).blob_kzg_commitments == c,
{
    lemma_concat_chunks(c);
    let n = c.len();
    let tail = concat_chunks(c);
    assert((48 * n) / 48 == n) by (nonlinear_arith);
    let got = fields_at(b, list_start).blob_kzg_commitments;
    assert forall|i: int| 0 <= i < n implies got[i] == c[i] by {
        assert(b.subrange(list_start + 48 * i, list_start + 48 * i + 48) =~= tail.subrange(
            48 * i,
            48 * i + 48,
        ));
    }
    assert(got =~= c);
}

/// No error is found in a list of at most `max` whole commitments.
proof fn lemma_whole_commitments_accepted(n: nat, max: nat)
    requires
        n <= max,
    ensures
        commitments_error(48 * n, max) is None,
{
    assert((48 * n) / 48 == n && (48 * n) % 48 == 0) by (nonlinear_arith);
}

/// A Gloas bid with at most `max` commitments is read back from its
/// encoding as itself.
pub proof fn lemma_gloas_bid_roundtrip(f: BidFieldsView, max: nat)
    requires
        f.wf(),
        f.blob_kzg_commitments.len() <= max,
    ensures
        gloas_decode_error(encode_bid_gloas(f), max) is None,
        gloas_fields(encode_bid_gloas(f)) == f,
{
    let b = encode_bid_gloas(f);
    let c = f.blob_kzg_commitments;
    lemma_concat_chunks(c);
    assert(b.subrange(0, 188) =~= fixed_fields_bytes(f));
    assert(b.subrange(188, 192) =~= u32_le(192u32));
    lemma_u32_le_roundtrip(192u32);
    assert(b.subrange(192, b.len() as int) =~= concat_chunks(c));
    lemma_fixed_fields_read_back(f, b, 192);
    lemma_commitments_read_back(c, b, 192);
    lemma_whole_commitments_accepted(c.len(), max);
    assert(gloas_fields(b) == f);
}

/// A Heze bid with at most `max` commitments is read back from its
/// encoding as itself, and its encoding is no Gloas bid: its offset points
/// two bytes past the Gloas fixed part.
pub proof fn lemma_heze_bid_roundtrip(f: BidFieldsView, bits: Seq<bool>, max: nat)
    requires
        f.wf(),
        bits.len() == 16,
        f.blob_kzg_commitments.len() <= max,
    ensures
        heze_decode_error(encode_bid_heze(f, bits), max) is None,
        heze_fields(encode_bid_heze(f, bits)) == (f, bits),
        gloas_decode_error(encode_bid_heze(f, bits), max) == Some(
            SszError::OffsetSkipsVariableBytes(HEZE_BID_FIXED_LEN),
        ),
{
    let b = encode_bid_heze(f, bits);
    let c = f.blob_kzg_commitments;
    lemma_concat_chunks(c);
    assert(b.subrange(0, 188) =~= fixed_fields_bytes(f));
    assert(b.subrange(188, 192) =~= u32_le(194u32));
    lemma_u32_le_roundtrip(194u32);
    assert(b.subrange(192, 194) =~= bits_bytes(bits));
    lemma_bits_roundtrip(bits);
    assert(b.subrange(194, b.len() as int) =~= concat_chunks(c));
    lemma_fixed_fields_read_back(f, b, 194);
    lemma_commitments_read_back(c, b, 194);
    lemma_whole_commitments_accepted(c.len(), max);
    assert(heze_fields(b).0 == f);
}

/// A bid with at most `max` commitments is read back from its encoding as
/// itself, of the same variant: a Gloas bid is never read as Heze, nor a
/// Heze bid as Gloas.
pub proof fn lemma_bid_roundtrip(v: BidView, max: nat)
    requires
        v.wf(),
        v.commitment_count() <= max,
    ensures
        spec_decode_bid(encode_bid(v), max) == Ok::<BidView, SszError>(v),
{
    match v {
        BidView::Gloas(f) => {
            lemma_gloas_bid_roundtrip(f, max);
        },
        BidView::Heze(f, bits) => {
            lemma_heze_bid_roundtrip(f, bits, max);
        },
    }
}

/// The little-endian bytes of the `u64` read from eight bytes are those
/// bytes.
proof fn lemma_u64_of_le_roundtrip(b: Seq<u8>)
    requires
        b.len() == 8,
    ensures
        u64_le(u64_of_le(b)) == b,
{
    let (b0, b1, b2, b3, b4, b5, b6, b7) = (b[0], b[1], b[2], b[3], b[4], b[5], b[6], b[7]);
    let x = u64_of_le(b);
    assert(x as u8 == b0 && (x >> 8u64) as u8 == b1 && (x >> 16u64) as u8 == b2 && (x >> 24u64) as u8
        == b3 && (x >> 32u64) as u8 == b4 && (x >> 40u64) as u8 == b5 && (x >> 48u64) as u8 == b6
        && (x >> 56u64) as u8 == b7) by (bit_vector)
        requires
            x == (b0 as u64) | ((b1 as u64) << 8u64) | ((b2 as u64) << 16u64) | ((b3 as u64) << 24u64)
                | ((b4 as u64) << 32u64) | ((b5 as u64) << 40u64) | ((b6 as u64) << 48u64) | ((
            b7 as u64) << 56u64),
    ;
    let e = u64_le(x);
    assert forall|i: int| 0 <= i < 8 implies e[i] == b[i] by {
        if i < 4 {
            if i < 2 { if i == 0 {} else {} } else { if i == 2 {} else {} }
        } else {
            if i < 6 { if i == 4 {} else {} } else { if i == 6 {} else {} }
        }
    }
    assert(e =~= b);
}

/// The little-endian bytes of the `u32` read from four bytes are those
/// bytes.
proof fn lemma_u32_of_le_roundtrip(b: Seq<u8>)
    requires
        b.len() == 4,
    ensures
        u32_le(u32_of_le(b)) == b,
{
    let (b0, b1, b2, b3) = (b[0], b[1], b[2], b[3]);
    let x = u32_of_le(b);
    assert(x as u8 == b0 && (x >> 8u32) as u8 == b1 && (x >> 16u32) as u8 == b2 && (x >> 24u32) as u8
        == b3) by (bit_vector)
        requires
            x == (b0 as u32) | ((b1 as u32) << 8u32) | ((b2 as u32) << 16u32) | ((b3 as u32) << 24u32),
    ;
    let e = u32_le(x);
    assert forall|i: int| 0 <= i < 4 implies e[i] == b[i] by {
        if i < 2 { if i == 0 {} else {} } else { if i == 2 {} else {} }
    }
    assert(e =~= b);
}

/// Packing the bits of a byte gives the byte.
proof fn lemma_bits_pack8(x: u8)
    ensures
        pack8(
            bit_of(x, 0),
            bit_of(x, 1),
            bit_of(x, 2),
            bit_of(x, 3),
            bit_of(x, 4),
            bit_of(x, 5),
            bit_of(x, 6),
            bit_of(x, 7),
        ) == x,
{
    reveal(pack8);
    reveal(bit_of);
    assert((if (x >> 0u8) & 1u8 == 1u8 { 1u8 } else { 0u8 }) | (if (x >> 1u8) & 1u8 == 1u8 { 2u8 } else {
        0u8
    }) | (if (x >> 2u8) & 1u8 == 1u8 { 4u8 } else { 0u8 }) | (if (x >> 3u8) & 1u8 == 1u8 { 8u8 } else {
        0u8
    }) | (if (x >> 4u8) & 1u8 == 1u8 { 16u8 } else { 0u8 }) | (if (x >> 5u8) & 1u8 == 1u8 { 32u8 } else {
        0u8
    }) | (if (x >> 6u8) & 1u8 == 1u8 { 64u8 } else { 0u8 }) | (if (x >> 7u8) & 1u8 == 1u8 { 128u8 } else {
        0u8
    }) == x) by (bit_vector);
}

/// The two bytes of the bits read from two bytes are those bytes.
proof fn lemma_bytes_of_bits_roundtrip(two: Seq<u8>)
    requires
        two.len() == 2,
    ensures
        bits_bytes(bits_of_bytes(two)) == two,
{
    let bits = bits_of_bytes(two);
    assert(bits[0] == bit_of(two[0], 0) && bits[1] == bit_of(two[0], 1) && bits[2] == bit_of(two[0], 2)
        && bits[3] == bit_of(two[0], 3));
    assert(bits[4] == bit_of(two[0], 4) && bits[5] == bit_of(two[0], 5) && bits[6] == bit_of(two[0], 6)
        && bits[7] == bit_of(two[0], 7));
    assert(bits[8] == bit_of(two[1], 0) && bits[9] == bit_of(two[1], 1) && bits[10] == bit_of(two[1], 2)
        && bits[11] == bit_of(two[1], 3));
    assert(bits[12] == bit_of(two[1], 4) && bits[13] == bit_of(two[1], 5) && bits[14] == bit_of(
        two[1],
        6,
    ) && bits[15] == bit_of(two[1], 7));
    lemma_bits_pack8(two[0]);
    lemma_bits_pack8(two[1]);
    assert(bits_bytes(bits) =~= two);
}

/// The commitments read from `n` 48-byte chunks, put back one after the
/// other, are those chunks.
proof fn lemma_concat_of_reads(b: Seq<u8>, start: int, n: nat)
    requires
        0 <= start,
        start + 48 * n <= b.len(),
    ensures
        concat_chunks(Seq::new(n, |i: int| b.subrange(start + 48 * i, start + 48 * i + 48)))
            == b.subrange(start, start + 48 * n),
    decreases n,
{
    let c = Seq::new(n, |i: int| b.subrange(start + 48 * i, start + 48 * i + 48));
    if n == 0 {
        assert(b.subrange(start, start) =~= Seq::<u8>::empty());
    } else {
        let m = (n - 1) as nat;
        lemma_concat_of_reads(b, start, m);
        assert(c.drop_last() =~= Seq::new(m, |i: int| b.subrange(start + 48 * i, start + 48 * i + 48)));
        assert(b.subrange(start, start + 48 * m) + b.subrange(start + 48 * m, start + 48 * m + 48)
            =~= b.subrange(start, start + 48 * n));
    }
}

/// The fixed-size fields read from bytes, encoded again, are the first 188
/// bytes.
proof fn lemma_fixed_fields_canonical(b: Seq<u8>, list_start: int)
    requires
        b.len() >= 188,
    ensures
        fixed_fields_bytes(fields_at(b, list_start)) == b.subrange(0, 188),
{
    let f = fields_at(b, list_start);
    lemma_u64_of_le_roundtrip(b.subrange(148, 156));
    lemma_u64_of_le_roundtrip(b.subrange(156, 164));
    lemma_u64_of_le_roundtrip(b.subrange(164, 172));
    lemma_u64_of_le_roundtrip(b.subrange(172, 180));
    lemma_u64_of_le_roundtrip(b.subrange(180, 188));
    assert(fixed_fields_bytes(f) =~= b.subrange(0, 188));
}

/// The commitment bytes that pass the checks are a whole number of
/// commitments.
proof fn lemma_accepted_commitments_whole(d: nat, max: nat)
    requires
        commitments_error(d, max) is None,
    ensures
        48 * (d / 48) == d,
{
    if d > 0 {
        assert(d % 48 == 0);
        assert(48 * (d / 48) + d % 48 == d) by (nonlinear_arith);
    }
}

/// Bytes that decode as a Gloas bid are the encoding of the bid they
/// decode to: each Gloas bid has one encoding that the decoder accepts.
pub proof fn lemma_gloas_decode_canonical(b: Seq<u8>, max: nat)
    requires
        gloas_decode_error(b, max) is None,
    ensures
        encode_bid_gloas(gloas_fields(b)) == b,
{
    let f = gloas_fields(b);
    let d = (b.len() - 192) as nat;
    lemma_accepted_commitments_whole(d, max);
    lemma_fixed_fields_canonical(b, 192);
    lemma_u32_of_le_roundtrip(b.subrange(188, 192));
    lemma_concat_of_reads(b, 192, d / 48);
    assert(f.blob_kzg_commitments == Seq::new(
        d / 48,
        |i: int| b.subrange(192 + 48 * i, 192 + 48 * i + 48),
    ));
    assert(b.subrange(0, 188) + b.subrange(188, 192) + b.subrange(192, b.len() as int) =~= b);
}

/// Bytes that decode as a Heze bid are the encoding of the bid they decode
/// to: each Heze bid has one encoding that the decoder accepts.
pub proof fn lemma_heze_decode_canonical(b: Seq<u8>, max: nat)
    requires
        heze_decode_error(b, max) is None,
    ensures
        encode_bid_heze(heze_fields(b).0, heze_fields(b).1) == b,
{
    let f = heze_fields(b).0;
    let d = (b.len() - 194) as nat;
    lemma_accepted_commitments_whole(d, max);
    lemma_fixed_fields_canonical(b, 194);
    lemma_u32_of_le_roundtrip(b.subrange(188, 192));
    lemma_bytes_of_bits_roundtrip(b.subrange(192, 194));
    lemma_concat_of_reads(b, 194, d / 48);
    assert(f.blob_kzg_commitments == Seq::new(
        d / 48,
        |i: int| b.subrange(194 + 48 * i, 194 + 48 * i + 48),
    ));
    assert(b.subrange(0, 188) + b.subrange(188, 192) + b.subrange(192, 194) + b.subrange(
        194,
        b.len() as int,
    ) =~= b);
}

/// Bytes that decode as a Gloas bid are read as that Gloas bid, never as
/// Heze: their Gloas re-encoding consumes all of them.
pub proof fn lemma_gloas_bytes_stay_gloas(b: Seq<u8>, max: nat)
    requires
        gloas_decode_error(b, max) is None,
    ensures
        spec_decode_bid(b, max) == Ok::<BidView, SszError>(BidView::Gloas(gloas_fields(b))),
{
    lemma_gloas_decode_canonical(b, max);
}

/// The SSZ encoding of a Gloas bid follows the container's field order:
/// the four roots at 0, 32, 64 and 96, the fee recipient at 128, then
/// `gas_limit`, `builder_index`, `slot`, `value` and `execution_payment`,
/// eight little-endian bytes each from 148, the offset 192 at 188, and the
/// commitments from 192, 48 bytes each.
pub proof fn lemma_gloas_encoding_layout(f: BidFieldsView)
    requires
        f.wf(),
    ensures
        encode_bid_gloas(f).len() == 192 + 48 * f.blob_kzg_commitments.len(),
        encode_bid_gloas(f).subrange(0, 32) == f.parent_block_hash,
        encode_bid_gloas(f).subrange(32, 64) == f.parent_block_root,
        encode_bid_gloas(f).subrange(64, 96) == f.block_hash,
        encode_bid_gloas(f).subrange(96, 128) == f.prev_randao,
        encode_bid_gloas(f).subrange(128, 148) == f.fee_recipient,
        encode_bid_gloas(f).subrange(148, 156) == u64_le(f.gas_limit),
        encode_bid_gloas(f).subrange(156, 164) == u64_le(f.builder_index),
        encode_bid_gloas(f).subrange(164, 172) == u64_le(f.slot),
        encode_bid_gloas(f).subrange(172, 180) == u64_le(f.value),
        encode_bid_gloas(f).subrange(180, 188) == u64_le(f.execution_payment),
        encode_bid_gloas(f).subrange(188, 192) == seq![192u8, 0u8, 0u8, 0u8],
        forall|i: int|
            0 <= i < f.blob_kzg_commitments.len() ==> encode_bid_gloas(f).subrange(
                192 + 48 * i,
                240 + 48 * i,
            ) == #[trigger] f.blob_kzg_commitments[i],
{
    let b = encode_bid_gloas(f);
    let c = f.blob_kzg_commitments;
    lemma_concat_chunks(c);
    assert(b.subrange(0, 188) =~= fixed_fields_bytes(f));
    lemma_fixed_fields_read_back(f, b, 192);
    lemma_u64_le_roundtrip(f.gas_limit);
    let x = fixed_fields_bytes(f);
    assert(x.subrange(0, 32) =~= f.parent_block_hash);
    assert(x.subrange(32, 64) =~= f.parent_block_root);
    assert(x.subrange(64, 96) =~= f.block_hash);
    assert(x.subrange(96, 128) =~= f.prev_randao);
    assert(x.subrange(128, 148) =~= f.fee_recipient);
    assert(x.subrange(148, 156) =~= u64_le(f.gas_limit));
    assert(x.subrange(156, 164) =~= u64_le(f.builder_index));
    assert(x.subrange(164, 172) =~= u64_le(f.slot));
    assert(x.subrange(172, 180) =~= u64_le(f.value));
    assert(x.subrange(180, 188) =~= u64_le(f.execution_payment));
    assert(b.subrange(0, 32) =~= x.subrange(0, 32));
    assert(b.subrange(32, 64) =~= x.subrange(32, 64));
    assert(b.subrange(64, 96) =~= x.subrange(64, 96));
    assert(b.subrange(96, 128) =~= x.subrange(96, 128));
    assert(b.subrange(128, 148) =~= x.subrange(128, 148));
    assert(b.subrange(148, 156) =~= x.subrange(148, 156));
    assert(b.subrange(156, 164) =~= x.subrange(156, 164));
    assert(b.subrange(164, 172) =~= x.subrange(164, 172));
    assert(b.subrange(172, 180) =~= x.subrange(172, 180));
    assert(b.subrange(180, 188) =~= x.subrange(180, 188));
    assert((192u32 as u8) == 192u8 && ((192u32 >> 8u32) as u8) == 0u8 && ((192u32 >> 16u32) as u8)
        == 0u8 && ((192u32 >> 24u32) as u8) == 0u8) by (bit_vector);
    assert(b.subrange(188, 192) =~= seq![192u8, 0u8, 0u8, 0u8]);
    let tail = concat_chunks(c);
    assert forall|i: int| 0 <= i < c.len() implies b.subrange(192 + 48 * i, 240 + 48 * i)
        == #[trigger] c[i] by {
        assert(b.subrange(192 + 48 * i, 240 + 48 * i) =~= tail.subrange(48 * i, 48 * i + 48));
    }
}

/// The SSZ encoding of a Heze bid has the Gloas field order for its first
/// 188 bytes, the offset 194 at 188, the inclusion list bits at 192 and 193
/// (bit `k` at bit `k % 8` of byte `192 + k / 8`), and the commitments from
/// 194, 48 bytes each.
pub proof fn lemma_heze_encoding_layout(f: BidFieldsView, bits: Seq<bool>)
    requires
        f.wf(),
        bits.len() == 16,
    ensures
        encode_bid_heze(f, bits).len() == 194 + 48 * f.blob_kzg_commitments.len(),
        encode_bid_heze(f, bits).subrange(0, 188) == encode_bid_gloas(f).subrange(0, 188),
        encode_bid_heze(f, bits).subrange(188, 192) == seq![194u8, 0u8, 0u8, 0u8],
        forall|k: int|
            0 <= k < 16 ==> ((encode_bid_heze(f, bits)[192 + k / 8] >> ((k % 8) as u8)) & 1u8 == 1u8)
                == #[trigger] bits[k],
        forall|i: int|
            0 <= i < f.blob_kzg_commitments.len() ==> encode_bid_heze(f, bits).subrange(
                194 + 48 * i,
                242 + 48 * i,
            ) == #[trigger] f.blob_kzg_commitments[i],
{
    let b = encode_bid_heze(f, bits);
    let g = encode_bid_gloas(f);
    let c = f.blob_kzg_commitments;
    lemma_concat_chunks(c);
    assert(b.subrange(0, 188) =~= fixed_fields_bytes(f));
    assert(g.subrange(0, 188) =~= fixed_fields_bytes(f));
    assert((194u32 as u8) == 194u8 && ((194u32 >> 8u32) as u8) == 0u8 && ((194u32 >> 16u32) as u8)
        == 0u8 && ((194u32 >> 24u32) as u8) == 0u8) by (bit_vector);
    assert(b.subrange(188, 192) =~= seq![194u8, 0u8, 0u8, 0u8]);
    let two = bits_bytes(bits);
    assert(b[192] == two[0] && b[193] == two[1]);
    lemma_bits_roundtrip(bits);
    assert forall|k: int| 0 <= k < 16 implies ((b[192 + k / 8] >> ((k % 8) as u8)) & 1u8 == 1u8)
        == #[trigger] bits[k] by {
        assert(bits_of_bytes(two)[k] == bit_of(two[k / 8], (k % 8) as u8));
        assert(b[192 + k / 8] == two[k / 8]);
        reveal(bit_of);
    }
    let tail = concat_chunks(c);
    assert forall|i: int| 0 <= i < c.len() implies b.subrange(194 + 48 * i, 242 + 48 * i)
        == #[trigger] c[i] by {
        assert(b.subrange(194 + 48 * i, 242 + 48 * i) =~= tail.subrange(48 * i, 48 * i + 48));
    }
}

/// The fields that the decoder reads from bytes it accepts sit where the
/// container's field order puts them: `value` is the little-endian `u64` at
/// 172, `execution_payment` the one at 180, and so on for every field.
pub proof fn lemma_decoded_gloas_layout(b: Seq<u8>, max: nat)
    requires
        gloas_decode_error(b, max) is None,
    ensures
        b.subrange(0, 32) == gloas_fields(b).parent_block_hash,
        b.subrange(32, 64) == gloas_fields(b).parent_block_root,
        b.subrange(64, 96) == gloas_fields(b).block_hash,
        b.subrange(96, 128) == gloas_fields(b).prev_randao,
        b.subrange(128, 148) == gloas_fields(b).fee_recipient,
        b.subrange(148, 156) == u64_le(gloas_fields(b).gas_limit),
        b.subrange(156, 164) == u64_le(gloas_fields(b).builder_index),
        b.subrange(164, 172) == u64_le(gloas_fields(b).slot),
        b.subrange(172, 180) == u64_le(gloas_fields(b).value),
        b.subrange(180, 188) == u64_le(gloas_fields(b).execution_payment),
{
    let f = gloas_fields(b);
    lemma_gloas_decode_canonical(b, max);
    assert(f.wf());
    lemma_gloas_encoding_layout(f);
}

/// Appends the bytes of `src` to `out`.
fn push_slice(out: &mut Vec<u8>, src: &[u8])
    ensures
        final(out)@ == old(out)@ + src@,
{
    let ghost start = out@;
    let mut i: usize = 0;
    while i < src.len()
        invariant
            i <= src@.len(),
            out@ == start + src@.subrange(0, i as int),
        decreases src.len() - i,
    {
        out.push(src[i]);
        i = i + 1;
        assert(out@ =~= start + src@.subrange(0, i as int));
    }
    assert(src@.subrange(0, src@.len() as int) =~= src@);
}

/// Appends the little-endian bytes of `x` to `out`.
fn push_u64_le(out: &mut Vec<u8>, x: u64)
    ensures
        final(out)@ == old(out)@ + u64_le(x),
{
    let ghost start = out@;
    out.push(x as u8);
    out.push((x >> 8u64) as u8);
    out.push((x >> 16u64) as u8);
    out.push((x >> 24u64) as u8);
    out.push((x >> 32u64) as u8);
    out.push((x >> 40u64) as u8);
    out.push((x >> 48u64) as u8);
    out.push((x >> 56u64) as u8);
    assert(out@ =~= start + u64_le(x));
}

/// Appends the little-endian bytes of `x` to `out`.
fn push_u32_le(out: &mut Vec<u8>, x: u32)
    ensures
        final(out)@ == old(out)@ + u32_le(x),
{
    let ghost start = out@;
    out.push(x as u8);
    out.push((x >> 8u32) as u8);
    out.push((x >> 16u32) as u8);
    out.push((x >> 24u32) as u8);
    assert(out@ =~= start + u32_le(x));
}

/// The `u64` whose little-endian bytes start at `at`.
fn read_u64_le(bytes: &[u8], at: usize) -> (r: u64)
    requires
        at + 8 <= bytes@.len(),
    ensures
        r == u64_of_le(bytes@.subrange(at as int, at + 8)),
{
    let ghost b = bytes@.subrange(at as int, at + 8);
    assert(b[0] == bytes@[at as int] && b[1] == bytes@[at + 1] && b[2] == bytes@[at + 2] && b[3]
        == bytes@[at + 3]);
    assert(b[4] == bytes@[at + 4] && b[5] == bytes@[at + 5] && b[6] == bytes@[at + 6] && b[7]
        == bytes@[at + 7]);
    (bytes[at] as u64) | ((bytes[at + 1] as u64) << 8u64) | ((bytes[at + 2] as u64) << 16u64) | ((
    bytes[at + 3] as u64) << 24u64) | ((bytes[at + 4] as u64) << 32u64) | ((bytes[at + 5] as u64)
        << 40u64) | ((bytes[at + 6] as u64) << 48u64) | ((bytes[at + 7] as u64) << 56u64)
}

/// The `u32` whose little-endian bytes start at `at`.
fn read_u32_le(bytes: &[u8], at: usize) -> (r: u32)
    requires
        at + 4 <= bytes@.len(),
    ensures
        r == u32_of_le(bytes@.subrange(at as int, at + 4)),
{
    let ghost b = bytes@.subrange(at as int, at + 4);
    assert(b[0] == bytes@[at as int] && b[1] == bytes@[at + 1] && b[2] == bytes@[at + 2] && b[3]
        == bytes@[at + 3]);
    (bytes[at] as u32) | ((bytes[at + 1] as u32) << 8u32) | ((bytes[at + 2] as u32) << 16u32) | ((
    bytes[at + 3] as u32) << 24u32)
}

/// The `N` bytes starting at `at`, as an array.
fn read_array<const N: usize>(bytes: &[u8], at: usize) -> (r: [u8; N])
    requires
        at + N <= bytes@.len(),
    ensures
        r@ == bytes@.subrange(at as int, at + N),
{
    let mut a: [u8; N] = [0u8; N];
    let mut i: usize = 0;
    while i < N
        invariant
            i <= N,
            at + N <= bytes.len(),
            a@.len() == N,
            forall|j: int| 0 <= j < i ==> a@[j] == bytes@[at + j],
        decreases N - i,
    {
        a[i] = bytes[at + i];
        i = i + 1;
    }
    assert(a@ =~= bytes@.subrange(at as int, at + N));
    a
}

/// Appends the fixed-size fields of a bid to `out`.
fn push_fixed_fields(
    out: &mut Vec<u8>,
    parent_block_hash: &Hash256,
    parent_block_root: &Hash256,
    block_hash: &Hash256,
    prev_randao: &Hash256,
    fee_recipient: &Address,
    gas_limit: u64,
    builder_index: u64,
    slot: u64,
    value: u64,
    execution_payment: u64,
)
    ensures
        final(out)@ == old(out)@ + (parent_block_hash.bytes() + parent_block_root.bytes()
            + block_hash.bytes() + prev_randao.bytes() + fee_recipient.0@ + u64_le(gas_limit)
            + u64_le(builder_index) + u64_le(slot) + u64_le(value) + u64_le(execution_payment)),
{
    let ghost start = out@;
    push_slice(out, parent_block_hash.0.as_slice());
    push_slice(out, parent_block_root.0.as_slice());
    push_slice(out, block_hash.0.as_slice());
    push_slice(out, prev_randao.0.as_slice());
    push_slice(out, fee_recipient.0.as_slice());
    push_u64_le(out, gas_limit);
    push_u64_le(out, builder_index);
    push_u64_le(out, slot);
    push_u64_le(out, value);
    push_u64_le(out, execution_payment);
    assert(out@ =~= start + (parent_block_hash.bytes() + parent_block_root.bytes()
        + block_hash.bytes() + prev_randao.bytes() + fee_recipient.0@ + u64_le(gas_limit)
        + u64_le(builder_index) + u64_le(slot) + u64_le(value) + u64_le(execution_payment)));
}

/// Appends the bytes of the commitments to `out`, one after the other.
fn push_commitments(out: &mut Vec<u8>, c: &Vec<KzgCommitment>)
    ensures
        final(out)@ == old(out)@ + concat_chunks(commitments_view(c@)),
{
    let ghost start = out@;
    let ghost cv = commitments_view(c@);
    let mut i: usize = 0;
    while i < c.len()
        invariant
            i <= c@.len(),
            cv == commitments_view(c@),
            out@ == start + concat_chunks(cv.take(i as int)),
        decreases c.len() - i,
    {
        proof {
            assert(cv.take(i + 1).drop_last() =~= cv.take(i as int));
        }
        push_slice(out, c[i].0.as_slice());
        proof {
            assert(cv.take(i + 1).last() == cv[i as int]);
            assert(out@ =~= start + concat_chunks(cv.take(i + 1)));
        }
        i = i + 1;
    }
    assert(cv.take(c@.len() as int) =~= cv);
}

/// The byte holding the eight bits of `bits` from `at`.
fn pack_bits(bits: &[bool; 16], at: usize) -> (r: u8)
    requires
        at + 8 <= 16,
    ensures
        r == pack8(
            bits@[at as int],
            bits@[at + 1],
            bits@[at + 2],
            bits@[at + 3],
            bits@[at + 4],
            bits@[at + 5],
            bits@[at + 6],
            bits@[at + 7],
        ),
{
    proof {
        reveal(pack8);
    }
    (if bits[at] { 1u8 } else { 0u8 }) | (if bits[at + 1] { 2u8 } else { 0u8 }) | (if bits[at + 2] {
        4u8
    } else {
        0u8
    }) | (if bits[at + 3] { 8u8 } else { 0u8 }) | (if bits[at + 4] { 16u8 } else { 0u8 }) | (if bits[at
        + 5] {
        32u8
    } else {
        0u8
    }) | (if bits[at + 6] { 64u8 } else { 0u8 }) | (if bits[at + 7] { 128u8 } else { 0u8 })
}

impl ExecutionPayloadBidGloas {
    /// The SSZ encoding of the bid.
    pub fn as_ssz_bytes(&self) -> (r: Vec<u8>)
        ensures
            r@ == encode_bid_gloas(self@),
    {
        let mut out: Vec<u8> = Vec::new();
        push_fixed_fields(
            &mut out,
            &self.parent_block_hash,
            &self.parent_block_root,
            &self.block_hash,
            &self.prev_randao,
            &self.fee_recipient,
            self.gas_limit,
            self.builder_index,
            self.slot,
            self.value,
            self.execution_payment,
        );
        push_u32_le(&mut out, 192u32);
        push_commitments(&mut out, &self.blob_kzg_commitments);
        assert(out@ =~= encode_bid_gloas(self@));
        out
    }
}

impl ExecutionPayloadBidHeze {
    /// The SSZ encoding of the bid.
    pub fn as_ssz_bytes(&self) -> (r: Vec<u8>)
        ensures
            r@ == encode_bid_heze(self@.0, self@.1),
    {
        let mut out: Vec<u8> = Vec::new();
        push_fixed_fields(
            &mut out,
            &self.parent_block_hash,
            &self.parent_block_root,
            &self.block_hash,
            &self.prev_randao,
            &self.fee_recipient,
            self.gas_limit,
            self.builder_index,
            self.slot,
            self.value,
            self.execution_payment,
        );
        push_u32_le(&mut out, 194u32);
        let lo = pack_bits(&self.inclusion_list_bits, 0);
        let hi = pack_bits(&self.inclusion_list_bits, 8);
        out.push(lo);
        out.push(hi);
        push_commitments(&mut out, &self.blob_kzg_commitments);
        assert(out@ =~= encode_bid_heze(self@.0, self@.1));
        out
    }
}

impl ExecutionPayloadBid {
    /// The SSZ encoding of the bid: that of its variant, with nothing to
    /// tell the variants apart.
    pub fn as_ssz_bytes(&self) -> (r: Vec<u8>)
        ensures
            r@ == encode_bid(self@),
    {
        match self {
            ExecutionPayloadBid::Gloas(b) => b.as_ssz_bytes(),
            ExecutionPayloadBid::Heze(b) => b.as_ssz_bytes(),
        }
    }
}

/// The end of the first fixed-size field that does not fit in `len` bytes.
fn first_field_end_past(len: usize) -> (r: usize)
    ensures
        r == fixed_field_end_past(len as nat),
{
    if len < 32 {
        32
    } else if len < 64 {
        64
    } else if len < 96 {
        96
    } else if len < 128 {
        128
    } else if len < 148 {
        148
    } else if len < 156 {
        156
    } else if len < 164 {
        164
    } else if len < 172 {
        172
    } else if len < 180 {
        180
    } else {
        188
    }
}

/// Why `n` bytes are no list of at most `max` commitments, if they are not.
fn check_commitments(n: usize, max: usize) -> (r: Option<SszError>)
    ensures
        r == commitments_error(n as nat, max as nat),
{
    if n == 0 {
        None
    } else if n / 48 > max {
        Some(SszError::TooManyCommitments { count: n / 48, max })
    } else if n % 48 != 0 {
        Some(SszError::PartialCommitment { len: n })
    } else {
        None
    }
}

/// The fields of a bid read from `bytes`, with the commitments from
/// `list_start` to the end.
fn read_fields(bytes: &[u8], list_start: usize) -> (r: ExecutionPayloadBidGloas)
    requires
        188 <= list_start <= bytes@.len(),
    ensures
        r@ == fields_at(bytes@, list_start as int),
{
    let d = bytes.len() - list_start;
    let n = d / 48;
    assert(48 * n <= d);
    let mut commitments: Vec<KzgCommitment> = Vec::new();
    let mut i: usize = 0;
    while i < n
        invariant
            i <= n,
            n == d / 48,
            48 * n <= d,
            d == bytes.len() - list_start,
            188 <= list_start <= bytes.len(),
            commitments@.len() == i,
            forall|j: int|
                0 <= j < i ==> (#[trigger] commitments@[j]).0@ == bytes@.subrange(
                    list_start + 48 * j,
                    list_start + 48 * j + 48,
                ),
        decreases n - i,
    {
        assert(48 * i + 48 <= 48 * n);
        let at = list_start + 48 * i;
        let c: [u8; 48] = read_array(bytes, at);
        commitments.push(KzgCommitment(c));
        i = i + 1;
    }
    let r = ExecutionPayloadBidGloas {
        parent_block_hash: Hash256(read_array(bytes, 0)),
        parent_block_root: Hash256(read_array(bytes, 32)),
        block_hash: Hash256(read_array(bytes, 64)),
        prev_randao: Hash256(read_array(bytes, 96)),
        fee_recipient: Address(read_array(bytes, 128)),
        gas_limit: read_u64_le(bytes, 148),
        builder_index: read_u64_le(bytes, 156),
        slot: read_u64_le(bytes, 164),
        value: read_u64_le(bytes, 172),
        execution_payment: read_u64_le(bytes, 180),
        blob_kzg_commitments: commitments,
    };
    assert(r@.blob_kzg_commitments =~= fields_at(bytes@, list_start as int).blob_kzg_commitments);
    r
}

/// The sixteen inclusion list bits of a Heze bid.
fn read_bits(bytes: &[u8]) -> (r: [bool; 16])
    requires
        194 <= bytes@.len(),
    ensures
        r@ == bits_of_bytes(bytes@.subrange(192, 194)),
{
    let mut bits: [bool; 16] = [false; 16];
    let mut i: usize = 0;
    while i < 16
        invariant
            i <= 16,
            194 <= bytes@.len(),
            bits@.len() == 16,
            forall|j: int|
                0 <= j < i ==> bits@[j] == bit_of(bytes@[192 + j / 8], (j % 8) as u8),
        decreases 16 - i,
    {
        let byte = bytes[192 + i / 8];
        let k = (i % 8) as u8;
        proof {
            reveal(bit_of);
        }
        bits[i] = (byte >> k) & 1u8 == 1u8;
        i = i + 1;
    }
    let ghost two = bytes@.subrange(192, 194);
    assert forall|j: int| 0 <= j < 16 implies bits@[j] == bits_of_bytes(two)[j] by {
        assert(two[j / 8] == bytes@[192 + j / 8]);
    }
    assert(bits@ =~= bits_of_bytes(two));
    bits
}

/// The fields of any bid have the sizes of their types.
pub proof fn lemma_bid_view_wf(b: &ExecutionPayloadBid)
    ensures
        b@.wf(),
{
}

impl ExecutionPayloadBidGloas {
    /// Reads a Gloas bid with at most `max_blob_commitments` commitments
    /// from its SSZ encoding.
    pub fn from_ssz_bytes(bytes: &[u8], max_blob_commitments: usize) -> (r: Result<Self, SszError>)
        ensures
            r is Ok <==> gloas_decode_error(bytes@, max_blob_commitments as nat) is None,
            r matches Ok(b) ==> b@ == gloas_fields(bytes@),
            r matches Err(e) ==> gloas_decode_error(bytes@, max_blob_commitments as nat) == Some(e),
    {
        let len = bytes.len();
        if len < 188 {
            return Err(SszError::InvalidByteLength { len, expected: first_field_end_past(len) });
        }
        if len < 192 {
            return Err(SszError::InvalidLengthPrefix { len: len - 188, expected: 4 });
        }
        let off = read_u32_le(bytes, 188) as usize;
        if off > len {
            return Err(SszError::OffsetOutOfBounds(off));
        }
        if off < 192 {
            return Err(SszError::OffsetIntoFixedPortion(off));
        }
        if off > 192 {
            return Err(SszError::OffsetSkipsVariableBytes(off));
        }
        match check_commitments(len - 192, max_blob_commitments) {
            Some(e) => Err(e),
            None => Ok(read_fields(bytes, 192)),
        }
    }

    /// The length of the SSZ encoding of the bid.
    pub fn ssz_bytes_len(&self) -> (r: usize)
        requires
            192 + 48 * self.blob_kzg_commitments@.len() <= usize::MAX,
        ensures
            r == encode_bid_gloas(self@).len(),
    {
        proof {
            lemma_concat_chunks(self@.blob_kzg_commitments);
        }
        192 + 48 * self.blob_kzg_commitments.len()
    }
}

impl ExecutionPayloadBidHeze {
    /// Reads a Heze bid with at most `max_blob_commitments` commitments from
    /// its SSZ encoding.
    pub fn from_ssz_bytes(bytes: &[u8], max_blob_commitments: usize) -> (r: Result<Self, SszError>)
        ensures
            r is Ok <==> heze_decode_error(bytes@, max_blob_commitments as nat) is None,
            r matches Ok(b) ==> b@ == heze_fields(bytes@),
            r matches Err(e) ==> heze_decode_error(bytes@, max_blob_commitments as nat) == Some(e),
    {
        let len = bytes.len();
        if len < 188 {
            return Err(SszError::InvalidByteLength { len, expected: first_field_end_past(len) });
        }
        if len < 192 {
            return Err(SszError::InvalidLengthPrefix { len: len - 188, expected: 4 });
        }
        let off = read_u32_le(bytes, 188) as usize;
        if off > len {
            return Err(SszError::OffsetOutOfBounds(off));
        }
        if len < 194 {
            return Err(SszError::InvalidByteLength { len, expected: 194 });
        }
        if off < 194 {
            return Err(SszError::OffsetIntoFixedPortion(off));
        }
        if off > 194 {
            return Err(SszError::OffsetSkipsVariableBytes(off));
        }
        match check_commitments(len - 194, max_blob_commitments) {
            Some(e) => Err(e),
            None => {
                let f = read_fields(bytes, 194);
                let bits = read_bits(bytes);
                Ok(
                    ExecutionPayloadBidHeze {
                        parent_block_hash: f.parent_block_hash,
                        parent_block_root: f.parent_block_root,
                        block_hash: f.block_hash,
                        prev_randao: f.prev_randao,
                        fee_recipient: f.fee_recipient,
                        gas_limit: f.gas_limit,
                        builder_index: f.builder_index,
                        slot: f.slot,
                        value: f.value,
                        execution_payment: f.execution_payment,
                        blob_kzg_commitments: f.blob_kzg_commitments,
                        inclusion_list_bits: bits,
                    },
                )
            },
        }
    }

    /// The length of the SSZ encoding of the bid.
    pub fn ssz_bytes_len(&self) -> (r: usize)
        requires
            194 + 48 * self.blob_kzg_commitments@.len() <= usize::MAX,
        ensures
            r == encode_bid_heze(self@.0, self@.1).len(),
    {
        proof {
            lemma_concat_chunks(self@.0.blob_kzg_commitments);
        }
        194 + 48 * self.blob_kzg_commitments.len()
    }
}

/// The commitments read from `b` fit, with the fixed part, in its length.
proof fn lemma_read_commitments_fit(b: Seq<u8>, list_start: int)
    requires
        0 <= list_start <= b.len(),
    ensures
        list_start + 48 * fields_at(b, list_start).blob_kzg_commitments.len() <= b.len(),
{
    let d = b.len() - list_start;
    assert(48 * (d / 48) <= d) by (nonlinear_arith)
        requires
            d >= 0,
    ;
}

impl ExecutionPayloadBid {
    /// Reads a bid of unknown fork with at most `max_blob_commitments`
    /// commitments from its SSZ encoding: as Gloas when it decodes as Gloas,
    /// unless it is more than two bytes longer than the Gloas re-encoding and
    /// decodes as a Heze bid whose re-encoding consumes all of it; else as
    /// Heze; else the Heze error.
    pub fn from_ssz_bytes(bytes: &[u8], max_blob_commitments: usize) -> (r: Result<Self, SszError>)
        ensures
            match r {
                Ok(b) => spec_decode_bid(bytes@, max_blob_commitments as nat) == Ok::<
                    BidView,
                    SszError,
                >(b@),
                Err(e) => spec_decode_bid(bytes@, max_blob_commitments as nat) == Err::<
                    BidView,
                    SszError,
                >(e),
            },
    {
        let ghost b = bytes@;
        let ghost max = max_blob_commitments as nat;
        let len = bytes.len();
        let gloas = ExecutionPayloadBidGloas::from_ssz_bytes(bytes, max_blob_commitments);
        let glen: Option<usize> = match &gloas {
            Ok(g) => {
                proof {
                    lemma_read_commitments_fit(b, 192);
                }
                Some(g.ssz_bytes_len())
            },
            Err(_) => None,
        };
        let try_heze = match glen {
            Some(l) => len > l && len - l > 2,
            None => true,
        };
        let heze: Option<Result<ExecutionPayloadBidHeze, SszError>> = if try_heze {
            Some(ExecutionPayloadBidHeze::from_ssz_bytes(bytes, max_blob_commitments))
        } else {
            None
        };
        let hlen: Option<usize> = match &heze {
            Some(Ok(h)) => {
                proof {
                    lemma_read_commitments_fit(b, 194);
                }
                Some(h.ssz_bytes_len())
            },
            _ => None,
        };
        let choice = select_bid_variant(len, glen, hlen);
        proof {
            let sg: Option<nat> = if gloas_decode_error(b, max) is None {
                Some(encode_bid_gloas(gloas_fields(b)).len())
            } else {
                None
            };
            let sh: Option<nat> = if heze_decode_error(b, max) is None {
                Some(encode_bid_heze(heze_fields(b).0, heze_fields(b).1).len())
            } else {
                None
            };
            assert(spec_select_bid_variant(len as nat, sg, sh) == choice);
        }
        match (choice, heze) {
            (Some(BidVariant::Gloas), _) => match gloas {
                Ok(g) => Ok(ExecutionPayloadBid::Gloas(g)),
                Err(e) => Err(e),
            },
            (Some(BidVariant::Heze), Some(Ok(h))) => Ok(ExecutionPayloadBid::Heze(h)),
            (_, Some(Err(e))) => Err(e),
            _ => {
                // Heze is chosen only where it was decoded, and nothing is
                // chosen only where both variants failed.
                proof {
                    assert(false);
                }
                Err(SszError::UnsupportedFork(ForkName::Heze))
            },
        }
    }

    /// Reads a bid of the variant of a known fork, with at most
    /// `max_blob_commitments` commitments, from its SSZ encoding; fails for
    /// a fork without bids.
    pub fn from_ssz_bytes_by_fork(bytes: &[u8], fork_name: ForkName, max_blob_commitments: usize) -> (r:
        Result<Self, SszError>)
        ensures
            match r {
                Ok(b) => spec_decode_bid_by_fork(bytes@, fork_name, max_blob_commitments as nat)
                    == Ok::<BidView, SszError>(b@),
                Err(e) => spec_decode_bid_by_fork(bytes@, fork_name, max_blob_commitments as nat)
                    == Err::<BidView, SszError>(e),
            },
    {
        match bid_variant_for_fork(fork_name) {
            Some(BidVariant::Gloas) => match ExecutionPayloadBidGloas::from_ssz_bytes(
                bytes,
                max_blob_commitments,
            ) {
                Ok(g) => Ok(ExecutionPayloadBid::Gloas(g)),
                Err(e) => Err(e),
            },
            Some(BidVariant::Heze) => match ExecutionPayloadBidHeze::from_ssz_bytes(
                bytes,
                max_blob_commitments,
            ) {
                Ok(h) => Ok(ExecutionPayloadBid::Heze(h)),
                Err(e) => Err(e),
            },
            None => Err(SszError::UnsupportedFork(fork_name)),
        }
    }
}

} // verus!
