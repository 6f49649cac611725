//! Inclusion lists: the transactions that a committee member asks the next
//! block to include, and their size limits.

use vstd::prelude::*;
use crate::primitives::{Hash256, Slot, ValidatorIndex};

verus! {

/// Maximum number of transactions in an inclusion list.
pub const MAX_TRANSACTIONS_PER_INCLUSION_LIST: usize = 16;

/// Maximum total size, in bytes, of the transactions of an inclusion list.
pub const MAX_BYTES_PER_INCLUSION_LIST: usize = 8192;

/// Maximum size, in bytes, of a single transaction.
pub const MAX_BYTES_PER_TRANSACTION: usize = 1073741824;

/// Number of validators in the inclusion list committee of a slot.
pub const INCLUSION_LIST_COMMITTEE_SIZE: usize = 16;

/// A compressed BLS signature.
#[derive(Clone, Copy, Debug)]
pub struct SignatureBytes(pub [u8; 96]);

/// The transactions that a committee member asks to be included in a block
/// built on the given slot.
#[derive(Clone, Debug)]
pub struct InclusionList {
    /// The slot for which this list is intended.
    pub slot: Slot,
    /// The committee member who created this list.
    pub validator_index: ValidatorIndex,
    /// The root of the inclusion list committee of the slot.
    pub inclusion_list_committee_root: Hash256,
    /// The transactions, each an opaque byte string.
    pub transactions: Vec<Vec<u8>>,
}

/// An inclusion list with the committee member's signature.
#[derive(Clone, Debug)]
pub struct SignedInclusionList {
    /// The inclusion list.
    pub message: InclusionList,
    /// The signature over the list's signing root.
    pub signature: SignatureBytes,
}

/// The sum of the lengths of the byte strings in `txs`.
pub open spec fn sum_of_lengths(txs: Seq<Seq<u8>>) -> nat
    decreases txs.len(),
{
    if txs.len() == 0 {
        0
    } else {
        sum_of_lengths(txs.drop_last()) + txs.last().len()
    }
}

impl InclusionList {
    /// The transactions, each as a byte sequence.
    pub open spec fn transaction_bytes(&self) -> Seq<Seq<u8>> {
        self.transactions.deep_view()
    }

    /// The list is within the bounds of its type: at most
    /// `MAX_TRANSACTIONS_PER_INCLUSION_LIST` transactions, each of at most
    /// `MAX_BYTES_PER_TRANSACTION` bytes.
    pub open spec fn wf(&self) -> bool {
        &&& self.transactions@.len() <= MAX_TRANSACTIONS_PER_INCLUSION_LIST
        &&& forall|i: int|
            0 <= i < self.transactions@.len() ==> (#[trigger] self.transactions@[i])@.len()
                <= MAX_BYTES_PER_TRANSACTION
    }

    /// The total size in bytes of all transactions.
    pub open spec fn spec_total_bytes(&self) -> nat {
        sum_of_lengths(self.transaction_bytes())
    }

    /// Returns the total byte size of all transactions in the list.
    pub fn total_bytes(&self) -> (r: usize)
        requires
            self.spec_total_bytes() <= usize::MAX,
        ensures
            r == self.spec_total_bytes(),
    {
        let ghost txs = self.transaction_bytes();
        let mut total: usize = 0;
        let mut i: usize = 0;
        proof {
            lemma_sum_of_lengths_prefix_bounded(txs, 0);
            assert(txs.take(0) =~= Seq::<Seq<u8>>::empty());
        }
        while i < self.transactions.len()
            invariant
                i <= self.transactions.len(),
                txs == self.transaction_bytes(),
                txs.len() == self.transactions.len(),
                sum_of_lengths(txs) <= usize::MAX,
                total == sum_of_lengths(txs.take(i as int)),
            decreases self.transactions.len() - i,
        {
            proof {
                assert(txs.take(i + 1).drop_last() =~= txs.take(i as int));
                assert(txs[i as int] == self.transactions[i as int]@);
                lemma_sum_of_lengths_prefix_bounded(txs, i + 1);
            }
            total = total + self.transactions[i].len();
            i = i + 1;
        }
        proof {
            assert(txs.take(i as int) =~= txs);
        }
        total
    }

    /// The epoch of the list's slot, whose domain signs the list.
    pub fn signing_epoch(&self, slots_per_epoch: u64) -> (r: u64)
        requires
            slots_per_epoch > 0,
        ensures
            r == self.slot / slots_per_epoch,
    {
        self.slot / slots_per_epoch
    }

    /// Returns the number of transactions in the list.
    pub fn transaction_count(&self) -> (r: usize)
        ensures
            r == self.transactions@.len(),
    {
        self.transactions.len()
    }

    /// Whether the transactions exceed the maximum total size.
    pub fn exceeds_max_bytes(&self) -> (r: bool)
        requires
            self.spec_total_bytes() <= usize::MAX,
        ensures
            r == (self.spec_total_bytes() > MAX_BYTES_PER_INCLUSION_LIST),
    {
        self.total_bytes() > MAX_BYTES_PER_INCLUSION_LIST
    }
}

/// The lengths of a prefix sum to no more than the lengths of the whole.
pub proof fn lemma_sum_of_lengths_prefix_bounded(txs: Seq<Seq<u8>>, k: int)
    requires
        0 <= k <= txs.len(),
    ensures
        sum_of_lengths(txs.take(k)) <= sum_of_lengths(txs),
    decreases txs.len(),
{
    if k < txs.len() {
        assert(txs.drop_last().take(k) =~= txs.take(k));
        lemma_sum_of_lengths_prefix_bounded(txs.drop_last(), k);
    } else {
        assert(txs.take(k) =~= txs);
    }
}

} // verus!
