//! Which variant of an execution payload bid a fork uses, and which variant
//! an SSZ encoding of unknown fork is read as.

use vstd::prelude::*;
use crate::primitives::{Hash256, Slot};
use crate::inclusion_list::SignatureBytes;

verus! {

/// The forks of the beacon chain, in order.
#[derive(Clone, Copy, Debug, PartialEq, Eq)]
pub enum ForkName {
    Base,
    Altair,
    Bellatrix,
    Capella,
    Deneb,
    Electra,
    Fulu,
    Gloas,
    Heze,
}

/// The variants of an execution payload bid: without and with the
/// inclusion list bits.
#[derive(Clone, Copy, Debug, PartialEq, Eq)]
pub enum BidVariant {
    Gloas,
    Heze,
}

/// The bid variant of a fork; none before the fork that introduced bids.
pub open spec fn spec_bid_variant_for_fork(fork: ForkName) -> Option<BidVariant> {
    match fork {
        ForkName::Gloas => Some(BidVariant::Gloas),
        ForkName::Heze => Some(BidVariant::Heze),
        _ => None,
    }
}

/// The bid variant that a fork decodes and deserializes bids as; `None`
/// for a fork that does not support bids.
pub fn bid_variant_for_fork(fork: ForkName) -> (r: Option<BidVariant>)
    ensures
        r == spec_bid_variant_for_fork(fork),
{
    match fork {
        ForkName::Base | ForkName::Altair | ForkName::Bellatrix | ForkName::Capella | ForkName::Deneb
        | ForkName::Electra | ForkName::Fulu => None,
        ForkName::Gloas => Some(BidVariant::Gloas),
        ForkName::Heze => Some(BidVariant::Heze),
    }
}

/// The variant a bid of `input_len` bytes is read as, given the length of
/// the re-encoding of each variant's decoding (`None` where it fails): the
/// shorter Gloas variant first; Heze only when the input is more than two
/// bytes longer than the Gloas re-encoding and Heze's re-encoding consumes
/// it exactly, or when Gloas fails.
pub open spec fn spec_select_bid_variant(
    input_len: nat,
    gloas_encoded_len: Option<nat>,
    heze_encoded_len: Option<nat>,
) -> Option<BidVariant> {
    match gloas_encoded_len {
        Some(g) => if input_len > g + 2 && heze_encoded_len == Some(input_len) {
            Some(BidVariant::Heze)
        } else {
            Some(BidVariant::Gloas)
        },
        None => match heze_encoded_len {
            Some(_) => Some(BidVariant::Heze),
            None => None,
        },
    }
}

/// Chooses the variant of a bid decoded from SSZ bytes of unknown fork;
/// `None` when neither variant decodes.
pub fn select_bid_variant(
    input_len: usize,
    gloas_encoded_len: Option<usize>,
    heze_encoded_len: Option<usize>,
) -> (r: Option<BidVariant>)
    ensures
        r == spec_select_bid_variant(
            input_len as nat,
            match gloas_encoded_len {
                Some(g) => Some(g as nat),
                None => None,
            },
            match heze_encoded_len {
                Some(h) => Some(h as nat),
                None => None,
            },
        ),
{
    match gloas_encoded_len {
        Some(g) => {
            if input_len > g && input_len - g > 2 {
                match heze_encoded_len {
                    Some(h) => {
                        if h == input_len {
                            return Some(BidVariant::Heze);
                        }
                    },
                    None => {},
                }
            }
            Some(BidVariant::Gloas)
        },
        None => match heze_encoded_len {
            Some(_) => Some(BidVariant::Heze),
            None => None,
        },
    }
}

/// Chooses the variant of a signed bid decoded from SSZ bytes of unknown
/// fork: Gloas when it decodes, else Heze when it decodes, else `None`.
pub fn select_signed_bid_variant(gloas_decodes: bool, heze_decodes: bool) -> (r: Option<BidVariant>)
    ensures
        r == (if gloas_decodes {
            Some(BidVariant::Gloas)
        } else if heze_decodes {
            Some(BidVariant::Heze)
        } else {
            None
        }),
{
    if gloas_decodes {
        Some(BidVariant::Gloas)
    } else if heze_decodes {
        Some(BidVariant::Heze)
    } else {
        None
    }
}

/// A Gloas encoding, whose re-encoding consumes all its bytes, is never
/// read as Heze.
pub proof fn lemma_exact_gloas_stays_gloas(input_len: nat, heze_encoded_len: Option<nat>)
    ensures
        spec_select_bid_variant(input_len, Some(input_len), heze_encoded_len) == Some(BidVariant::Gloas),
{
}

/// An execution-layer address.
#[derive(Clone, Copy, Debug)]
pub struct Address(pub [u8; 20]);

/// A KZG commitment to a blob.
#[derive(Clone, Copy, Debug)]
pub struct KzgCommitment(pub [u8; 48]);

/// A builder's bid for the execution payload of a block (Gloas).
#[derive(Debug)]
pub struct ExecutionPayloadBidGloas {
    pub parent_block_hash: Hash256,
    pub parent_block_root: Hash256,
    pub block_hash: Hash256,
    pub prev_randao: Hash256,
    pub fee_recipient: Address,
    pub gas_limit: u64,
    pub builder_index: u64,
    pub slot: Slot,
    pub value: u64,
    pub execution_payment: u64,
    pub blob_kzg_commitments: Vec<KzgCommitment>,
}

/// A builder's bid for the execution payload of a block (Heze), with the
/// bits of the inclusion list committee members whose lists the builder
/// claims to satisfy.
#[derive(Debug)]
pub struct ExecutionPayloadBidHeze {
    pub parent_block_hash: Hash256,
    pub parent_block_root: Hash256,
    pub block_hash: Hash256,
    pub prev_randao: Hash256,
    pub fee_recipient: Address,
    pub gas_limit: u64,
    pub builder_index: u64,
    pub slot: Slot,
    pub value: u64,
    pub execution_payment: u64,
    pub blob_kzg_commitments: Vec<KzgCommitment>,
    pub inclusion_list_bits: [bool; 16],
}

/// A builder's bid, of either variant.
#[derive(Debug)]
pub enum ExecutionPayloadBid {
    Gloas(ExecutionPayloadBidGloas),
    Heze(ExecutionPayloadBidHeze),
}

/// The fields that both bid variants share, as plain values.
pub struct BidFieldsView {
    pub parent_block_hash: Seq<u8>,
    pub parent_block_root: Seq<u8>,
    pub block_hash: Seq<u8>,
    pub prev_randao: Seq<u8>,
    pub fee_recipient: Seq<u8>,
    pub gas_limit: u64,
    pub builder_index: u64,
    pub slot: u64,
    pub value: u64,
    pub execution_payment: u64,
    pub blob_kzg_commitments: Seq<Seq<u8>>,
}

impl BidFieldsView {
    /// Every field has the size of its type: four 32-byte roots, a 20-byte
    /// address and 48-byte commitments.
    pub open spec fn wf(self) -> bool {
        &&& self.parent_block_hash.len() == 32
        &&& self.parent_block_root.len() == 32
        &&& self.block_hash.len() == 32
        &&& self.prev_randao.len() == 32
        &&& self.fee_recipient.len() == 20
        &&& forall|i: int|
            0 <= i < self.blob_kzg_commitments.len() ==> (#[trigger] self.blob_kzg_commitments[i]).len()
                == 48
    }
}

/// A bid of either variant, as plain values: the Heze variant adds its
/// sixteen inclusion list bits.
pub enum BidView {
    Gloas(BidFieldsView),
    Heze(BidFieldsView, Seq<bool>),
}

impl BidView {
    /// The fields have the sizes of their types, and a Heze bid has sixteen
    /// bits.
    pub open spec fn wf(self) -> bool {
        match self {
            BidView::Gloas(f) => f.wf(),
            BidView::Heze(f, bits) => f.wf() && bits.len() == 16,
        }
    }

    /// The number of blob commitments of the bid.
    pub open spec fn commitment_count(self) -> nat {
        match self {
            BidView::Gloas(f) => f.blob_kzg_commitments.len(),
            BidView::Heze(f, _) => f.blob_kzg_commitments.len(),
        }
    }
}

/// The bytes of each commitment, in order.
pub open spec fn commitments_view(c: Seq<KzgCommitment>) -> Seq<Seq<u8>> {
    c.map_values(|k: KzgCommitment| k.0@)
}

impl View for ExecutionPayloadBidGloas {
    type V = BidFieldsView;

    open spec fn view(&self) -> BidFieldsView {
        BidFieldsView {
            parent_block_hash: self.parent_block_hash.bytes(),
            parent_block_root: self.parent_block_root.bytes(),
            block_hash: self.block_hash.bytes(),
            prev_randao: self.prev_randao.bytes(),
            fee_recipient: self.fee_recipient.0@,
            gas_limit: self.gas_limit,
            builder_index: self.builder_index,
            slot: self.slot,
            value: self.value,
            execution_payment: self.execution_payment,
            blob_kzg_commitments: commitments_view(self.blob_kzg_commitments@),
        }
    }
}

impl View for ExecutionPayloadBidHeze {
    type V = (BidFieldsView, Seq<bool>);

    open spec fn view(&self) -> (BidFieldsView, Seq<bool>) {
        (
            BidFieldsView {
                parent_block_hash: self.parent_block_hash.bytes(),
                parent_block_root: self.parent_block_root.bytes(),
                block_hash: self.block_hash.bytes(),
                prev_randao: self.prev_randao.bytes(),
                fee_recipient: self.fee_recipient.0@,
                gas_limit: self.gas_limit,
                builder_index: self.builder_index,
                slot: self.slot,
                value: self.value,
                execution_payment: self.execution_payment,
                blob_kzg_commitments: commitments_view(self.blob_kzg_commitments@),
            },
            self.inclusion_list_bits@,
        )
    }
}

impl View for ExecutionPayloadBid {
    type V = BidView;

    open spec fn view(&self) -> BidView {
        match self {
            ExecutionPayloadBid::Gloas(b) => BidView::Gloas(b@),
            ExecutionPayloadBid::Heze(b) => BidView::Heze(b@.0, b@.1),
        }
    }
}

/// A signed Gloas bid.
#[derive(Debug)]
pub struct SignedExecutionPayloadBidGloas {
    pub message: ExecutionPayloadBid,
    pub signature: SignatureBytes,
}

/// A signed Heze bid.
#[derive(Debug)]
pub struct SignedExecutionPayloadBidHeze {
    pub message: ExecutionPayloadBid,
    pub signature: SignatureBytes,
}

/// A signed bid, of either variant.
#[derive(Debug)]
pub enum SignedExecutionPayloadBid {
    Gloas(SignedExecutionPayloadBidGloas),
    Heze(SignedExecutionPayloadBidHeze),
}

/// A root of zero bytes.
pub open spec fn zero_root(h: Hash256) -> bool {
    h.bytes() == Seq::new(32, |i: int| 0u8)
}

/// A Gloas bid with every field zero and no commitments.
pub open spec fn is_default_gloas(b: ExecutionPayloadBidGloas) -> bool {
    &&& zero_root(b.parent_block_hash)
    &&& zero_root(b.parent_block_root)
    &&& zero_root(b.block_hash)
    &&& zero_root(b.prev_randao)
    &&& b.fee_recipient.0@ == Seq::new(20, |i: int| 0u8)
    &&& b.gas_limit == 0 && b.builder_index == 0 && b.slot == 0
    &&& b.value == 0 && b.execution_payment == 0
    &&& b.blob_kzg_commitments@.len() == 0
}

/// A Heze bid with every field zero, no commitments and no bits set.
pub open spec fn is_default_heze(b: ExecutionPayloadBidHeze) -> bool {
    &&& zero_root(b.parent_block_hash)
    &&& zero_root(b.parent_block_root)
    &&& zero_root(b.block_hash)
    &&& zero_root(b.prev_randao)
    &&& b.fee_recipient.0@ == Seq::new(20, |i: int| 0u8)
    &&& b.gas_limit == 0 && b.builder_index == 0 && b.slot == 0
    &&& b.value == 0 && b.execution_payment == 0
    &&& b.blob_kzg_commitments@.len() == 0
    &&& b.inclusion_list_bits@ == Seq::new(16, |i: int| false)
}

impl Default for ExecutionPayloadBidGloas {
    fn default() -> (r: Self)
        ensures
            is_default_gloas(r),
    {
        let r = ExecutionPayloadBidGloas {
            parent_block_hash: Hash256::zero(),
            parent_block_root: Hash256::zero(),
            block_hash: Hash256::zero(),
            prev_randao: Hash256::zero(),
            fee_recipient: Address([0u8; 20]),
            gas_limit: 0,
            builder_index: 0,
            slot: 0,
            value: 0,
            execution_payment: 0,
            blob_kzg_commitments: Vec::new(),
        };
        assert(r.fee_recipient.0@ =~= Seq::new(20, |i: int| 0u8));
        r
    }
}

impl Default for ExecutionPayloadBidHeze {
    fn default() -> (r: Self)
        ensures
            is_default_heze(r),
    {
        let r = ExecutionPayloadBidHeze {
            parent_block_hash: Hash256::zero(),
            parent_block_root: Hash256::zero(),
            block_hash: Hash256::zero(),
            prev_randao: Hash256::zero(),
            fee_recipient: Address([0u8; 20]),
            gas_limit: 0,
            builder_index: 0,
            slot: 0,
            value: 0,
            execution_payment: 0,
            blob_kzg_commitments: Vec::new(),
            inclusion_list_bits: [false; 16],
        };
        assert(r.fee_recipient.0@ =~= Seq::new(20, |i: int| 0u8));
        assert(r.inclusion_list_bits@ =~= Seq::new(16, |i: int| false));
        r
    }
}

impl Default for ExecutionPayloadBid {
    /// The default bid is the default Gloas bid.
    fn default() -> (r: Self)
        ensures
            r matches ExecutionPayloadBid::Gloas(b) && is_default_gloas(b),
    {
        ExecutionPayloadBid::Gloas(ExecutionPayloadBidGloas::default())
    }
}

impl SignedExecutionPayloadBid {
    /// A signed Gloas bid with the default Gloas bid and the empty (all-zero)
    /// signature.
    pub fn empty_gloas() -> (r: Self)
        ensures
            r matches SignedExecutionPayloadBid::Gloas(s) && (s.message matches ExecutionPayloadBid::Gloas(
                b,
            ) && is_default_gloas(b)) && s.signature.0@ == Seq::new(96, |i: int| 0u8),
    {
        let signature = SignatureBytes([0u8; 96]);
        assert(signature.0@ =~= Seq::new(96, |i: int| 0u8));
        SignedExecutionPayloadBid::Gloas(
            SignedExecutionPayloadBidGloas {
                message: ExecutionPayloadBid::Gloas(ExecutionPayloadBidGloas::default()),
                signature,
            },
        )
    }

    /// A signed Heze bid with the default Heze bid and the empty (all-zero)
    /// signature.
    pub fn empty_heze() -> (r: Self)
        ensures
            r matches SignedExecutionPayloadBid::Heze(s) && (s.message matches ExecutionPayloadBid::Heze(
                b,
            ) && is_default_heze(b)) && s.signature.0@ == Seq::new(96, |i: int| 0u8),
    {
        let signature = SignatureBytes([0u8; 96]);
        assert(signature.0@ =~= Seq::new(96, |i: int| 0u8));
        SignedExecutionPayloadBid::Heze(
            SignedExecutionPayloadBidHeze {
                message: ExecutionPayloadBid::Heze(ExecutionPayloadBidHeze::default()),
                signature,
            },
        )
    }
}

/// An encoding that only the Heze variant decodes, and whose Heze
/// re-encoding consumes all its bytes, is read as Heze.
pub proof fn lemma_exact_heze_is_heze(input_len: nat)
    ensures
        spec_select_bid_variant(input_len, None, Some(input_len)) == Some(BidVariant::Heze),
{
}

/// Whatever the encoding, the bid is read as Gloas when the Heze variant
/// does not decode to exactly the input.
pub proof fn lemma_heze_needs_exact_encoding(input_len: nat, gloas_encoded_len: nat, heze_encoded_len: Option<nat>)
    requires
        heze_encoded_len != Some(input_len),
    ensures
        spec_select_bid_variant(input_len, Some(gloas_encoded_len), heze_encoded_len) == Some(
            BidVariant::Gloas,
        ),
{
}

} // verus!
