//! The fork-choice store: checkpoints, justified balances, equivocating
//! validators, and the per-block bookkeeping of inclusion-list satisfaction
//! and payload-timeliness committee votes, with its persisted forms.

use vstd::prelude::*;
use std::collections::BTreeSet;
use crate::primitives::{Epoch, Hash256, Slot};
use crate::balances::{
    ArithError, BalancesCache, CacheError, CacheItemView, JustifiedBalances, StateSummary,
    ValidatorBalance, cache_items_wf, count_counted, count_nonzero, counted_balances, spec_epoch_boundary_root,
    spec_insert, spec_lookup, sum_u64,
};
use crate::root_map::{
    RootMap, count_true, count_true_votes, keys_of, map_of_pairs, no_votes, pairs_view, vote_set,
    votes_view,
};
use crate::supermajority::{has_two_thirds_supermajority, spec_two_thirds};

verus! {

/// A checkpoint: an epoch and the root of the block at its first slot.
#[derive(Clone, Copy, Debug)]
pub struct Checkpoint {
    pub epoch: Epoch,
    pub root: Hash256,
}

/// Why the store could not be built or updated.
#[derive(Debug)]
pub enum Error {
    FailedToReadBlock(String),
    MissingBlock(Hash256),
    FailedToReadState(String),
    MissingState(Hash256),
    BeaconStateError(String),
    UnalignedCheckpoint { block_slot: Slot, state_slot: Slot },
    Arith(ArithError),
}

/// Where the justified balances come from after the justified checkpoint
/// changed.
#[derive(Debug)]
pub enum JustifiedBalancesUpdate {
    /// They were in the balances cache, and are set.
    FromCache,
    /// They were not cached: the justified state with this root must be read
    /// and handed to `set_justified_balances_from_state`.
    LoadState(Hash256),
}

/// The contents of the store, as its contracts speak of them.
pub struct StoreModel {
    pub time: Slot,
    pub finalized_checkpoint: Checkpoint,
    pub justified_checkpoint: Checkpoint,
    pub justified_balances: Seq<u64>,
    pub justified_total_effective_balance: u64,
    pub justified_num_active_validators: u64,
    pub justified_state_root: Hash256,
    pub unrealized_justified_checkpoint: Checkpoint,
    pub unrealized_justified_state_root: Hash256,
    pub unrealized_finalized_checkpoint: Checkpoint,
    pub proposer_boost_root: Hash256,
    pub equivocating_indices: Set<u64>,
    pub payload_inclusion_list_satisfaction: Map<Seq<u8>, bool>,
    pub payload_timeliness_vote: Map<Seq<u8>, Seq<bool>>,
    pub payload_data_availability_vote: Map<Seq<u8>, Seq<bool>>,
    pub ptc_size: usize,
    pub balances_cache: Seq<CacheItemView>,
}

/// The fork-choice store.
#[derive(Debug)]
pub struct BeaconForkChoiceStore {
    balances_cache: BalancesCache,
    time: Slot,
    finalized_checkpoint: Checkpoint,
    justified_checkpoint: Checkpoint,
    justified_balances: JustifiedBalances,
    justified_state_root: Hash256,
    unrealized_justified_checkpoint: Checkpoint,
    unrealized_justified_state_root: Hash256,
    unrealized_finalized_checkpoint: Checkpoint,
    proposer_boost_root: Hash256,
    equivocating_indices: BTreeSet<u64>,
    payload_inclusion_list_satisfaction: RootMap<bool>,
    payload_timeliness_vote: RootMap<Vec<bool>>,
    payload_data_availability_vote: RootMap<Vec<bool>>,
    ptc_size: usize,
}

impl View for BeaconForkChoiceStore {
    type V = StoreModel;

    closed spec fn view(&self) -> StoreModel {
        StoreModel {
            time: self.time,
            finalized_checkpoint: self.finalized_checkpoint,
            justified_checkpoint: self.justified_checkpoint,
            justified_balances: self.justified_balances.effective_balances@,
            justified_total_effective_balance: self.justified_balances.total_effective_balance,
            justified_num_active_validators: self.justified_balances.num_active_validators,
            justified_state_root: self.justified_state_root,
            unrealized_justified_checkpoint: self.unrealized_justified_checkpoint,
            unrealized_justified_state_root: self.unrealized_justified_state_root,
            unrealized_finalized_checkpoint: self.unrealized_finalized_checkpoint,
            proposer_boost_root: self.proposer_boost_root,
            equivocating_indices: self.equivocating_indices@,
            payload_inclusion_list_satisfaction: self.payload_inclusion_list_satisfaction@,
            payload_timeliness_vote: self.payload_timeliness_vote.votes(),
            payload_data_availability_vote: self.payload_data_availability_vote.votes(),
            ptc_size: self.ptc_size,
            balances_cache: self.balances_cache@,
        }
    }
}

/// The store that fork choice keeps its state in.
pub trait ForkChoiceStore: Sized {
    type Error;

    /// The store is well formed.
    spec fn store_wf(&self) -> bool;

    /// Returns the last value passed to `set_current_slot`.
    fn get_current_slot(&self) -> Slot
        requires
            self.store_wf(),
    ;

    /// Sets the value to be returned by `get_current_slot`.
    fn set_current_slot(&mut self, slot: Slot)
        requires
            old(self).store_wf(),
        ensures
            final(self).store_wf(),
    ;

    /// Called once a block is verified, before it enters fork choice; `state`
    /// is the block's post-state.
    fn on_verified_block(&mut self, block_root: Hash256, state: &StateSummary) -> (r: Result<
        (),
        Self::Error,
    >)
        requires
            old(self).store_wf(),
        ensures
            final(self).store_wf(),
    ;

    /// Returns the justified checkpoint.
    fn justified_checkpoint(&self) -> &Checkpoint
        requires
            self.store_wf(),
    ;

    /// Returns the state root of the justified checkpoint.
    fn justified_state_root(&self) -> Hash256
        requires
            self.store_wf(),
    ;

    /// Returns the balances of the justified state.
    fn justified_balances(&self) -> &JustifiedBalances
        requires
            self.store_wf(),
    ;

    /// Returns the finalized checkpoint.
    fn finalized_checkpoint(&self) -> &Checkpoint
        requires
            self.store_wf(),
    ;

    /// Returns the unrealized justified checkpoint.
    fn unrealized_justified_checkpoint(&self) -> &Checkpoint
        requires
            self.store_wf(),
    ;

    /// Returns the state root of the unrealized justified checkpoint.
    fn unrealized_justified_state_root(&self) -> Hash256
        requires
            self.store_wf(),
    ;

    /// Returns the unrealized finalized checkpoint.
    fn unrealized_finalized_checkpoint(&self) -> &Checkpoint
        requires
            self.store_wf(),
    ;

    /// Returns the proposer boost root.
    fn proposer_boost_root(&self) -> Hash256
        requires
            self.store_wf(),
    ;

    /// Sets the finalized checkpoint.
    fn set_finalized_checkpoint(&mut self, checkpoint: Checkpoint)
        requires
            old(self).store_wf(),
        ensures
            final(self).store_wf(),
    ;

    /// Sets the justified checkpoint and its state root, and the justified
    /// balances when they are cached; otherwise says which state to read.
    fn set_justified_checkpoint(&mut self, checkpoint: Checkpoint, state_root: Hash256) -> (r: Result<
        JustifiedBalancesUpdate,
        Self::Error,
    >)
        requires
            old(self).store_wf(),
        ensures
            final(self).store_wf(),
    ;

    /// Sets the unrealized justified checkpoint and its state root.
    fn set_unrealized_justified_checkpoint(&mut self, checkpoint: Checkpoint, state_root: Hash256)
        requires
            old(self).store_wf(),
        ensures
            final(self).store_wf(),
    ;

    /// Sets the unrealized finalized checkpoint.
    fn set_unrealized_finalized_checkpoint(&mut self, checkpoint: Checkpoint)
        requires
            old(self).store_wf(),
        ensures
            final(self).store_wf(),
    ;

    /// Sets the proposer boost root.
    fn set_proposer_boost_root(&mut self, proposer_boost_root: Hash256)
        requires
            old(self).store_wf(),
        ensures
            final(self).store_wf(),
    ;

    /// Returns the equivocating validator indices.
    fn equivocating_indices(&self) -> &BTreeSet<u64>
        requires
            self.store_wf(),
    ;

    /// Adds to the equivocating validator indices.
    fn extend_equivocating_indices(&mut self, indices: Vec<u64>)
        requires
            old(self).store_wf(),
        ensures
            final(self).store_wf(),
    ;

    /// Whether the payload of the block satisfies its inclusion lists;
    /// `None` for a block not recorded.
    fn is_payload_inclusion_list_satisfied(&self, block_root: Hash256) -> Option<bool>
        requires
            self.store_wf(),
    ;

    /// Records whether the payload of the block satisfies its inclusion
    /// lists.
    fn set_payload_inclusion_list_satisfaction(&mut self, block_root: Hash256, satisfied: bool)
        requires
            old(self).store_wf(),
        ensures
            final(self).store_wf(),
    ;

    /// Returns the whole map of inclusion-list satisfaction.
    fn payload_inclusion_list_satisfaction(&self) -> &RootMap<bool>
        requires
            self.store_wf(),
    ;

    /// Returns the payload-timeliness votes of the block, if any.
    fn payload_timeliness_vote(&self, block_root: Hash256) -> Option<&Vec<bool>>
        requires
            self.store_wf(),
    ;

    /// Records the payload-timeliness vote of committee member `index`.
    fn set_payload_timeliness_vote(&mut self, block_root: Hash256, index: usize, vote: bool)
        requires
            old(self).store_wf(),
        ensures
            final(self).store_wf(),
    ;

    /// Returns the data-availability votes of the block, if any.
    fn payload_data_availability_vote(&self, block_root: Hash256) -> Option<&Vec<bool>>
        requires
            self.store_wf(),
    ;

    /// Records the data-availability vote of committee member `index`.
    fn set_payload_data_availability_vote(&mut self, block_root: Hash256, index: usize, vote: bool)
        requires
            old(self).store_wf(),
        ensures
            final(self).store_wf(),
    ;

    /// Whether at least two thirds of a committee of `ptc_size` voted the
    /// payload timely.
    fn is_payload_timely(&self, ptc_size: usize, block_root: Hash256) -> bool
        requires
            self.store_wf(),
    ;

    /// Whether at least two thirds of a committee of `ptc_size` voted the
    /// payload's data available.
    fn is_payload_data_available(&self, ptc_size: usize, block_root: Hash256) -> bool
        requires
            self.store_wf(),
    ;

    /// Gives the block `ptc_size` false votes of each kind, keeping votes
    /// that were recorded before.
    fn initialize_ptc_votes(&mut self, block_root: Hash256, ptc_size: usize)
        requires
            old(self).store_wf(),
        ensures
            final(self).store_wf(),
    ;
}

/// The vote list of a block after a vote at `index`, from a list of
/// `default_len` false votes when the block had none.
pub open spec fn spec_after_vote(
    votes: Map<Seq<u8>, Seq<bool>>,
    root: Seq<u8>,
    index: usize,
    vote: bool,
    default_len: usize,
) -> Map<Seq<u8>, Seq<bool>> {
    votes.insert(
        root,
        vote_set(
            if votes.dom().contains(root) {
                votes[root]
            } else {
                no_votes(default_len as nat)
            },
            index as int,
            vote,
        ),
    )
}

/// Whether the recorded votes of a block reach two thirds of `ptc_size`.
pub open spec fn spec_votes_reach_two_thirds(
    votes: Map<Seq<u8>, Seq<bool>>,
    root: Seq<u8>,
    ptc_size: usize,
) -> bool {
    votes.dom().contains(root) && spec_two_thirds(count_true(votes[root]), ptc_size as nat)
}

/// The vote map after giving the block `ptc_size` false votes unless it has
/// some.
pub open spec fn spec_initialized(
    votes: Map<Seq<u8>, Seq<bool>>,
    root: Seq<u8>,
    ptc_size: usize,
) -> Map<Seq<u8>, Seq<bool>> {
    if votes.dom().contains(root) {
        votes
    } else {
        votes.insert(root, no_votes(ptc_size as nat))
    }
}

impl ForkChoiceStore for BeaconForkChoiceStore {
    type Error = Error;

    /// The maps hold each root once and the cache is within its bounds.
    closed spec fn store_wf(&self) -> bool {
        &&& self.payload_inclusion_list_satisfaction.wf()
        &&& self.payload_timeliness_vote.wf()
        &&& self.payload_data_availability_vote.wf()
        &&& cache_items_wf(self.balances_cache@)
    }

    fn get_current_slot(&self) -> (r: Slot)
        ensures
            r == self@.time,
    {
        self.time
    }

    fn set_current_slot(&mut self, slot: Slot)
        ensures
            final(self)@ == (StoreModel { time: slot, ..old(self)@ }),
    {
        self.time = slot;
    }

    fn on_verified_block(&mut self, block_root: Hash256, state: &StateSummary) -> (r: Result<
        (),
        Error,
    >)
        ensures
            match spec_epoch_boundary_root(block_root, *state) {
                Err(e) => r == Err::<(), Error>(Error::BeaconStateError(e)) && final(self)@ == old(self)@,
                Ok(root) => if spec_lookup(old(self)@.balances_cache, root.bytes(), state.current_epoch) is Some {
                    r is Ok && final(self)@ == old(self)@
                } else if sum_u64(counted_balances(state.validators@)) > u64::MAX {
                    r == Err::<(), Error>(Error::Arith(ArithError::Overflow)) && final(self)@ == old(self)@
                } else {
                    r is Ok && final(self)@ == (StoreModel {
                        balances_cache: spec_insert(
                            old(self)@.balances_cache,
                            root.bytes(),
                            state.current_epoch,
                            counted_balances(state.validators@),
                        ),
                        ..old(self)@
                    })
                },
            },
    {
        match self.balances_cache.process_state(block_root, state) {
            Ok(()) => Ok(()),
            Err(CacheError::BeaconStateError(e)) => Err(Error::BeaconStateError(e)),
            Err(CacheError::Arith(e)) => Err(Error::Arith(e)),
        }
    }

    fn justified_checkpoint(&self) -> (r: &Checkpoint)
        ensures
            *r == self@.justified_checkpoint,
    {
        &self.justified_checkpoint
    }

    fn justified_state_root(&self) -> (r: Hash256)
        ensures
            r == self@.justified_state_root,
    {
        self.justified_state_root
    }

    fn justified_balances(&self) -> (r: &JustifiedBalances)
        ensures
            r.effective_balances@ == self@.justified_balances,
            r.total_effective_balance == self@.justified_total_effective_balance,
            r.num_active_validators == self@.justified_num_active_validators,
    {
        &self.justified_balances
    }

    fn finalized_checkpoint(&self) -> (r: &Checkpoint)
        ensures
            *r == self@.finalized_checkpoint,
    {
        &self.finalized_checkpoint
    }

    fn unrealized_justified_checkpoint(&self) -> (r: &Checkpoint)
        ensures
            *r == self@.unrealized_justified_checkpoint,
    {
        &self.unrealized_justified_checkpoint
    }

    fn unrealized_justified_state_root(&self) -> (r: Hash256)
        ensures
            r == self@.unrealized_justified_state_root,
    {
        self.unrealized_justified_state_root
    }

    fn unrealized_finalized_checkpoint(&self) -> (r: &Checkpoint)
        ensures
            *r == self@.unrealized_finalized_checkpoint,
    {
        &self.unrealized_finalized_checkpoint
    }

    fn proposer_boost_root(&self) -> (r: Hash256)
        ensures
            r == self@.proposer_boost_root,
    {
        self.proposer_boost_root
    }

    fn set_finalized_checkpoint(&mut self, checkpoint: Checkpoint)
        ensures
            final(self)@ == (StoreModel { finalized_checkpoint: checkpoint, ..old(self)@ }),
    {
        self.finalized_checkpoint = checkpoint;
    }

    fn set_justified_checkpoint(&mut self, checkpoint: Checkpoint, state_root: Hash256) -> (r: Result<
        JustifiedBalancesUpdate,
        Error,
    >)
        ensures
            ({
                let moved = StoreModel {
                    justified_checkpoint: checkpoint,
                    justified_state_root: state_root,
                    ..old(self)@
                };
                match spec_lookup(old(self)@.balances_cache, checkpoint.root.bytes(), checkpoint.epoch) {
                    None => r matches Ok(JustifiedBalancesUpdate::LoadState(root)) && root == state_root
                        && final(self)@ == moved,
                    Some(b) => if sum_u64(b) > u64::MAX {
                        r == Err::<JustifiedBalancesUpdate, Error>(Error::Arith(ArithError::Overflow))
                            && final(self)@ == moved
                    } else {
                        r matches Ok(JustifiedBalancesUpdate::FromCache) && final(self)@ == (StoreModel {
                            justified_balances: b,
                            justified_total_effective_balance: sum_u64(b) as u64,
                            justified_num_active_validators: count_nonzero(b) as u64,
                            ..moved
                        })
                    },
                }
            }),
    {
        self.justified_checkpoint = checkpoint;
        self.justified_state_root = state_root;
        match self.balances_cache.get(checkpoint.root, checkpoint.epoch) {
            Some(balances) => {
                match JustifiedBalances::from_effective_balances(balances) {
                    Ok(b) => {
                        self.justified_balances = b;
                        Ok(JustifiedBalancesUpdate::FromCache)
                    },
                    Err(e) => Err(Error::Arith(e)),
                }
            },
            None => Ok(JustifiedBalancesUpdate::LoadState(state_root)),
        }
    }

    fn set_unrealized_justified_checkpoint(&mut self, checkpoint: Checkpoint, state_root: Hash256)
        ensures
            final(self)@ == (StoreModel {
                unrealized_justified_checkpoint: checkpoint,
                unrealized_justified_state_root: state_root,
                ..old(self)@
            }),
    {
        self.unrealized_justified_checkpoint = checkpoint;
        self.unrealized_justified_state_root = state_root;
    }

    fn set_unrealized_finalized_checkpoint(&mut self, checkpoint: Checkpoint)
        ensures
            final(self)@ == (StoreModel { unrealized_finalized_checkpoint: checkpoint, ..old(self)@ }),
    {
        self.unrealized_finalized_checkpoint = checkpoint;
    }

    fn set_proposer_boost_root(&mut self, proposer_boost_root: Hash256)
        ensures
            final(self)@ == (StoreModel { proposer_boost_root, ..old(self)@ }),
    {
        self.proposer_boost_root = proposer_boost_root;
    }

    fn equivocating_indices(&self) -> (r: &BTreeSet<u64>)
        ensures
            r@ == self@.equivocating_indices,
    {
        &self.equivocating_indices
    }

    fn extend_equivocating_indices(&mut self, indices: Vec<u64>)
        ensures
            final(self)@ == (StoreModel {
                equivocating_indices: old(self)@.equivocating_indices.union(indices@.to_set()),
                ..old(self)@
            }),
    {
        let mut i: usize = 0;
        proof {
            assert(indices@.take(0).to_set() =~= Set::<u64>::empty());
            assert(old(self)@.equivocating_indices.union(Set::<u64>::empty()) =~= old(self)@.equivocating_indices);
        }
        while i < indices.len()
            invariant
                i <= indices.len(),
                self.store_wf(),
                self@ == (StoreModel {
                    equivocating_indices: old(self)@.equivocating_indices.union(
                        indices@.take(i as int).to_set(),
                    ),
                    ..old(self)@
                }),
            decreases indices.len() - i,
        {
            let ghost before = self.equivocating_indices@;
            self.equivocating_indices.insert(indices[i]);
            proof {
                assert(indices@.take(i + 1) =~= indices@.take(i as int).push(indices@[i as int]));
                indices@.take(i as int).lemma_push_to_set_commute(indices@[i as int]);
                assert(self.equivocating_indices@ =~= old(self)@.equivocating_indices.union(
                    indices@.take(i + 1).to_set(),
                ));
            }
            i = i + 1;
        }
        assert(indices@.take(i as int) =~= indices@);
    }

    fn is_payload_inclusion_list_satisfied(&self, block_root: Hash256) -> (r: Option<bool>)
        ensures
            r == (if self@.payload_inclusion_list_satisfaction.dom().contains(block_root.bytes()) {
                Some(self@.payload_inclusion_list_satisfaction[block_root.bytes()])
            } else {
                None
            }),
    {
        match self.payload_inclusion_list_satisfaction.get(&block_root) {
            Some(b) => Some(*b),
            None => None,
        }
    }

    fn set_payload_inclusion_list_satisfaction(&mut self, block_root: Hash256, satisfied: bool)
        ensures
            final(self)@ == (StoreModel {
                payload_inclusion_list_satisfaction: old(self)@.payload_inclusion_list_satisfaction.insert(
                    block_root.bytes(),
                    satisfied,
                ),
                ..old(self)@
            }),
    {
        self.payload_inclusion_list_satisfaction.insert(block_root, satisfied);
    }

    fn payload_inclusion_list_satisfaction(&self) -> (r: &RootMap<bool>)
        ensures
            r.wf(),
            r@ == self@.payload_inclusion_list_satisfaction,
    {
        &self.payload_inclusion_list_satisfaction
    }

    fn payload_timeliness_vote(&self, block_root: Hash256) -> (r: Option<&Vec<bool>>)
        ensures
            match r {
                Some(v) => self@.payload_timeliness_vote.dom().contains(block_root.bytes()) && v@
                    == self@.payload_timeliness_vote[block_root.bytes()],
                None => !self@.payload_timeliness_vote.dom().contains(block_root.bytes()),
            },
    {
        self.payload_timeliness_vote.get_votes(&block_root)
    }

    fn set_payload_timeliness_vote(&mut self, block_root: Hash256, index: usize, vote: bool)
        ensures
            final(self)@ == (StoreModel {
                payload_timeliness_vote: spec_after_vote(
                    old(self)@.payload_timeliness_vote,
                    block_root.bytes(),
                    index,
                    vote,
                    old(self)@.ptc_size,
                ),
                ..old(self)@
            }),
    {
        let default_len = self.ptc_size;
        self.payload_timeliness_vote.set_vote(block_root, index, vote, default_len);
    }

    fn payload_data_availability_vote(&self, block_root: Hash256) -> (r: Option<&Vec<bool>>)
        ensures
            match r {
                Some(v) => self@.payload_data_availability_vote.dom().contains(block_root.bytes()) && v@
                    == self@.payload_data_availability_vote[block_root.bytes()],
                None => !self@.payload_data_availability_vote.dom().contains(block_root.bytes()),
            },
    {
        self.payload_data_availability_vote.get_votes(&block_root)
    }

    fn set_payload_data_availability_vote(&mut self, block_root: Hash256, index: usize, vote: bool)
        ensures
            final(self)@ == (StoreModel {
                payload_data_availability_vote: spec_after_vote(
                    old(self)@.payload_data_availability_vote,
                    block_root.bytes(),
                    index,
                    vote,
                    old(self)@.ptc_size,
                ),
                ..old(self)@
            }),
    {
        let default_len = self.ptc_size;
        self.payload_data_availability_vote.set_vote(block_root, index, vote, default_len);
    }

    fn is_payload_timely(&self, ptc_size: usize, block_root: Hash256) -> (r: bool)
        ensures
            r == spec_votes_reach_two_thirds(self@.payload_timeliness_vote, block_root.bytes(), ptc_size),
    {
        match self.payload_timeliness_vote.get_votes(&block_root) {
            Some(votes) => {
                let true_count = count_true_votes(votes);
                has_two_thirds_supermajority(true_count, ptc_size)
            },
            None => false,
        }
    }

    fn is_payload_data_available(&self, ptc_size: usize, block_root: Hash256) -> (r: bool)
        ensures
            r == spec_votes_reach_two_thirds(
                self@.payload_data_availability_vote,
                block_root.bytes(),
                ptc_size,
            ),
    {
        match self.payload_data_availability_vote.get_votes(&block_root) {
            Some(votes) => {
                let true_count = count_true_votes(votes);
                has_two_thirds_supermajority(true_count, ptc_size)
            },
            None => false,
        }
    }

    fn initialize_ptc_votes(&mut self, block_root: Hash256, ptc_size: usize)
        ensures
            final(self)@ == (StoreModel {
                payload_timeliness_vote: spec_initialized(
                    old(self)@.payload_timeliness_vote,
                    block_root.bytes(),
                    ptc_size,
                ),
                payload_data_availability_vote: spec_initialized(
                    old(self)@.payload_data_availability_vote,
                    block_root.bytes(),
                    ptc_size,
                ),
                ..old(self)@
            }),
    {
        self.payload_timeliness_vote.or_insert_votes(block_root, ptc_size);
        self.payload_data_availability_vote.or_insert_votes(block_root, ptc_size);
    }
}

/// What building the store reads of the anchor snapshot.
#[derive(Debug)]
pub struct AnchorSnapshot {
    /// The anchor state's slot.
    pub state_slot: Slot,
    /// The number of slots in an epoch.
    pub slots_per_epoch: u64,
    /// The anchor state's current epoch.
    pub current_epoch: Epoch,
    /// The slot of the anchor state's latest block header.
    pub block_header_slot: Slot,
    /// The canonical root of the anchor state's latest block header, with
    /// its state root set by `anchor_block_header_state_root`.
    pub block_root: Hash256,
    /// The anchor state's validators.
    pub validators: Vec<ValidatorBalance>,
    /// The anchor state's canonical root, or the state's error when it cannot
    /// give it.
    pub state_root: Result<Hash256, String>,
}

/// The state root to give the anchor block header before taking its root:
/// the snapshot's state root when the header's is zero (the header was
/// stored before its state was known), else the header's own.
pub fn anchor_block_header_state_root(header_state_root: Hash256, unadvanced_state_root: Hash256) -> (r:
    Hash256)
    ensures
        r == (if header_state_root.bytes() == Seq::new(32, |i: int| 0u8) {
            unadvanced_state_root
        } else {
            header_state_root
        }),
{
    if header_state_root.is_zero() {
        unadvanced_state_root
    } else {
        header_state_root
    }
}

/// Whether `slot` is a multiple of `slots_per_epoch` (only slot zero is a
/// multiple of zero).
pub open spec fn is_multiple(slot: Slot, slots_per_epoch: u64) -> bool {
    if slots_per_epoch == 0 {
        slot == 0
    } else {
        slot % slots_per_epoch == 0
    }
}

fn slot_is_multiple(slot: Slot, slots_per_epoch: u64) -> (r: bool)
    ensures
        r == is_multiple(slot, slots_per_epoch),
{
    if slots_per_epoch == 0 {
        slot == 0
    } else {
        slot % slots_per_epoch == 0
    }
}

/// `m` is the store built from an anchor whose checkpoint is at `root` in
/// `epoch`, at `time`, with the justified balances of `validators` and state
/// root `state_root`: every checkpoint is the anchor's, the proposer boost
/// root is zero, nothing is cached or equivocating, and the anchor block is
/// recorded as satisfying its inclusion lists with all `ptc_size` votes true.
pub open spec fn is_anchor_store(
    m: StoreModel,
    time: Slot,
    epoch: Epoch,
    root: Hash256,
    validators: Seq<ValidatorBalance>,
    state_root: Hash256,
    ptc_size: usize,
) -> bool {
    let checkpoint = Checkpoint { epoch, root };
    &&& m.time == time
    &&& m.finalized_checkpoint == checkpoint
    &&& m.justified_checkpoint == checkpoint
    &&& m.justified_balances == counted_balances(validators)
    &&& m.justified_total_effective_balance == sum_u64(counted_balances(validators))
    &&& m.justified_num_active_validators == count_counted(validators)
    &&& m.justified_state_root == state_root
    &&& m.unrealized_justified_checkpoint == checkpoint
    &&& m.unrealized_justified_state_root == state_root
    &&& m.unrealized_finalized_checkpoint == checkpoint
    &&& m.proposer_boost_root.bytes() == Seq::new(32, |i: int| 0u8)
    &&& m.equivocating_indices == Set::<u64>::empty()
    &&& m.payload_inclusion_list_satisfaction == Map::<Seq<u8>, bool>::empty().insert(root.bytes(), true)
    &&& m.payload_timeliness_vote == Map::<Seq<u8>, Seq<bool>>::empty().insert(
        root.bytes(),
        Seq::new(ptc_size as nat, |i: int| true),
    )
    &&& m.payload_data_availability_vote == Map::<Seq<u8>, Seq<bool>>::empty().insert(
        root.bytes(),
        Seq::new(ptc_size as nat, |i: int| true),
    )
    &&& m.ptc_size == ptc_size
    &&& m.balances_cache == Seq::<CacheItemView>::empty()
}

fn all_true_votes(n: usize) -> (r: Vec<bool>)
    ensures
        r@ == Seq::new(n as nat, |i: int| true),
{
    let mut r: Vec<bool> = Vec::new();
    let mut i: usize = 0;
    while i < n
        invariant
            i <= n,
            r@ == Seq::new(i as nat, |k: int| true),
        decreases n - i,
    {
        r.push(true);
        i = i + 1;
        assert(r@ =~= Seq::new(i as nat, |k: int| true));
    }
    r
}

/// The persisted store of schema 17.
#[derive(Debug)]
pub struct PersistedForkChoiceStoreV17 {
    pub balances_cache: BalancesCache,
    pub time: Slot,
    pub finalized_checkpoint: Checkpoint,
    pub justified_checkpoint: Checkpoint,
    pub justified_balances: Vec<u64>,
    pub unrealized_justified_checkpoint: Checkpoint,
    pub unrealized_finalized_checkpoint: Checkpoint,
    pub proposer_boost_root: Hash256,
    pub equivocating_indices: BTreeSet<u64>,
}

/// The persisted store of schema 28: the justified balances are no longer
/// stored, the justified state roots are, and the maps are lists of pairs.
#[derive(Debug)]
pub struct PersistedForkChoiceStoreV28 {
    pub time: Slot,
    pub finalized_checkpoint: Checkpoint,
    pub justified_checkpoint: Checkpoint,
    pub justified_state_root: Hash256,
    pub unrealized_justified_checkpoint: Checkpoint,
    pub unrealized_justified_state_root: Hash256,
    pub unrealized_finalized_checkpoint: Checkpoint,
    pub proposer_boost_root: Hash256,
    pub equivocating_indices: BTreeSet<u64>,
    pub payload_inclusion_list_satisfaction: Vec<(Hash256, bool)>,
    pub payload_timeliness_vote: Vec<(Hash256, Vec<bool>)>,
    pub payload_data_availability_vote: Vec<(Hash256, Vec<bool>)>,
}

/// The current persisted store.
pub type PersistedForkChoiceStore = PersistedForkChoiceStoreV28;

/// The map of persisted vote pairs.
pub open spec fn persisted_votes(pairs: Seq<(Hash256, Vec<bool>)>) -> Map<Seq<u8>, Seq<bool>> {
    map_of_pairs(votes_view(pairs_view(pairs)))
}

/// The roots of persisted vote pairs.
pub open spec fn persisted_vote_roots(pairs: Seq<(Hash256, Vec<bool>)>) -> Seq<Seq<u8>> {
    keys_of(votes_view(pairs_view(pairs)))
}

/// `p` holds what the store `m` persists: the scalar fields, the
/// equivocating indices, and each map as a list of pairs with distinct roots.
pub open spec fn persisted_from(m: StoreModel, p: PersistedForkChoiceStoreV28) -> bool {
    &&& p.time == m.time
    &&& p.finalized_checkpoint == m.finalized_checkpoint
    &&& p.justified_checkpoint == m.justified_checkpoint
    &&& p.justified_state_root == m.justified_state_root
    &&& p.unrealized_justified_checkpoint == m.unrealized_justified_checkpoint
    &&& p.unrealized_justified_state_root == m.unrealized_justified_state_root
    &&& p.unrealized_finalized_checkpoint == m.unrealized_finalized_checkpoint
    &&& p.proposer_boost_root == m.proposer_boost_root
    &&& p.equivocating_indices@ == m.equivocating_indices
    &&& keys_of(pairs_view(p.payload_inclusion_list_satisfaction@)).no_duplicates()
    &&& map_of_pairs(pairs_view(p.payload_inclusion_list_satisfaction@))
        == m.payload_inclusion_list_satisfaction
    &&& persisted_vote_roots(p.payload_timeliness_vote@).no_duplicates()
    &&& persisted_votes(p.payload_timeliness_vote@) == m.payload_timeliness_vote
    &&& persisted_vote_roots(p.payload_data_availability_vote@).no_duplicates()
    &&& persisted_votes(p.payload_data_availability_vote@) == m.payload_data_availability_vote
}

/// The store restored from `p`, with the justified balances of
/// `validators`: a later pair for a root overrides an earlier one; the
/// balances cache starts empty.
pub open spec fn spec_restored(
    p: PersistedForkChoiceStoreV28,
    validators: Seq<ValidatorBalance>,
    ptc_size: usize,
) -> StoreModel {
    StoreModel {
        time: p.time,
        finalized_checkpoint: p.finalized_checkpoint,
        justified_checkpoint: p.justified_checkpoint,
        justified_balances: counted_balances(validators),
        justified_total_effective_balance: sum_u64(counted_balances(validators)) as u64,
        justified_num_active_validators: count_counted(validators) as u64,
        justified_state_root: p.justified_state_root,
        unrealized_justified_checkpoint: p.unrealized_justified_checkpoint,
        unrealized_justified_state_root: p.unrealized_justified_state_root,
        unrealized_finalized_checkpoint: p.unrealized_finalized_checkpoint,
        proposer_boost_root: p.proposer_boost_root,
        equivocating_indices: p.equivocating_indices@,
        payload_inclusion_list_satisfaction: map_of_pairs(
            pairs_view(p.payload_inclusion_list_satisfaction@),
        ),
        payload_timeliness_vote: persisted_votes(p.payload_timeliness_vote@),
        payload_data_availability_vote: persisted_votes(p.payload_data_availability_vote@),
        ptc_size,
        balances_cache: Seq::empty(),
    }
}

/// The store with the justified balances of `validators`.
pub open spec fn with_justified_balances(m: StoreModel, validators: Seq<ValidatorBalance>) -> StoreModel {
    StoreModel {
        justified_balances: counted_balances(validators),
        justified_total_effective_balance: sum_u64(counted_balances(validators)) as u64,
        justified_num_active_validators: count_counted(validators) as u64,
        ..m
    }
}

/// The store and the result after setting the justified balances from the
/// outcome `loaded` of reading the justified state: a read error gives
/// `FailedToReadState`, no state gives `MissingState` of the justified state
/// root, a total that does not fit gives `Arith`; each leaves the store as
/// it was. Otherwise the balances are those of the state's validators.
pub open spec fn spec_load_outcome(
    m: StoreModel,
    loaded: Result<Option<Vec<ValidatorBalance>>, String>,
) -> (StoreModel, Result<(), Error>) {
    match loaded {
        Err(e) => (m, Err(Error::FailedToReadState(e))),
        Ok(None) => (m, Err(Error::MissingState(m.justified_state_root))),
        Ok(Some(validators)) => if sum_u64(counted_balances(validators@)) > u64::MAX {
            (m, Err(Error::Arith(ArithError::Overflow)))
        } else {
            (with_justified_balances(m, validators@), Ok(()))
        },
    }
}

/// Some outcome of `load` at `root` turns the store `m` into `after` with
/// result `r`, as `spec_load_outcome` says.
pub open spec fn loaded_by<F: FnOnce(Hash256) -> Result<Option<Vec<ValidatorBalance>>, String>>(
    load: F,
    root: Hash256,
    m: StoreModel,
    after: StoreModel,
    r: Result<(), Error>,
) -> bool {
    exists|loaded: Result<Option<Vec<ValidatorBalance>>, String>|
        #[trigger] load.ensures((root,), loaded) && spec_load_outcome(m, loaded) == (after, r)
}

/// After moving the justified checkpoint to one whose balances are not
/// cached, a read that finds no state fails with `MissingState` of the new
/// justified state root and keeps the previous justified balances.
pub proof fn lemma_missing_state_keeps_balances(
    m: StoreModel,
    checkpoint: Checkpoint,
    justified_state_root: Hash256,
)
    ensures
        ({
            let moved = StoreModel { justified_checkpoint: checkpoint, justified_state_root, ..m };
            let (after, r) = spec_load_outcome(moved, Ok(None));
            r == Err::<(), Error>(Error::MissingState(justified_state_root))
                && after.justified_balances == m.justified_balances
                && after.justified_total_effective_balance == m.justified_total_effective_balance
                && after.justified_num_active_validators == m.justified_num_active_validators
                && after.justified_checkpoint == checkpoint
                && after.justified_state_root == justified_state_root
        }),
{
}

/// After moving the justified checkpoint to one whose balances are not
/// cached, reading the justified state sets the balances to those of its
/// validators and changes nothing else, unless their total does not fit.
pub proof fn lemma_loaded_state_sets_balances(
    m: StoreModel,
    checkpoint: Checkpoint,
    justified_state_root: Hash256,
    validators: Vec<ValidatorBalance>,
)
    requires
        sum_u64(counted_balances(validators@)) <= u64::MAX,
    ensures
        ({
            let moved = StoreModel { justified_checkpoint: checkpoint, justified_state_root, ..m };
            spec_load_outcome(moved, Ok(Some(validators))) == (
            StoreModel {
                justified_checkpoint: checkpoint,
                justified_state_root,
                justified_balances: counted_balances(validators@),
                justified_total_effective_balance: sum_u64(counted_balances(validators@)) as u64,
                justified_num_active_validators: count_counted(validators@) as u64,
                ..m
            },
            Ok::<(), Error>(()),
        )
        }),
{
}

impl BeaconForkChoiceStore {
    /// Builds the store from an anchor snapshot, which must be on an epoch
    /// boundary (else `UnalignedCheckpoint`). The justified and finalized
    /// checkpoints, realized and unrealized, are the anchor's block at its
    /// state's current epoch; the anchor block is recorded as satisfying its
    /// inclusion lists and with all `ptc_size` committee votes true.
    pub fn get_forkchoice_store(anchor: &AnchorSnapshot, ptc_size: usize) -> (r: Result<Self, Error>)
        ensures
            !is_multiple(anchor.state_slot, anchor.slots_per_epoch) ==> r == Err::<Self, Error>(
                Error::UnalignedCheckpoint {
                    block_slot: anchor.block_header_slot,
                    state_slot: anchor.state_slot,
                },
            ),
            is_multiple(anchor.state_slot, anchor.slots_per_epoch) && sum_u64(
                counted_balances(anchor.validators@),
            ) > u64::MAX ==> r == Err::<Self, Error>(Error::Arith(ArithError::Overflow)),
            is_multiple(anchor.state_slot, anchor.slots_per_epoch) && sum_u64(
                counted_balances(anchor.validators@),
            ) <= u64::MAX ==> match anchor.state_root {
                Err(e) => r == Err::<Self, Error>(Error::BeaconStateError(e)),
                Ok(state_root) => r matches Ok(s) && s.store_wf() && is_anchor_store(
                    s@,
                    anchor.state_slot,
                    anchor.current_epoch,
                    anchor.block_root,
                    anchor.validators@,
                    state_root,
                    ptc_size,
                ),
            },
    {
        if !slot_is_multiple(anchor.state_slot, anchor.slots_per_epoch) {
            return Err(
                Error::UnalignedCheckpoint {
                    block_slot: anchor.block_header_slot,
                    state_slot: anchor.state_slot,
                },
            );
        }
        let anchor_block_root = anchor.block_root;
        let justified_checkpoint = Checkpoint { epoch: anchor.current_epoch, root: anchor_block_root };
        let finalized_checkpoint = justified_checkpoint;
        let justified_balances = match JustifiedBalances::from_justified_state(&anchor.validators) {
            Ok(b) => b,
            Err(e) => {
                return Err(Error::Arith(e));
            },
        };
        let justified_state_root = match &anchor.state_root {
            Ok(root) => *root,
            Err(e) => {
                return Err(Error::BeaconStateError(e.clone()));
            },
        };
        let s = BeaconForkChoiceStore {
            balances_cache: BalancesCache::new(),
            time: anchor.state_slot,
            justified_checkpoint,
            justified_balances,
            justified_state_root,
            finalized_checkpoint,
            unrealized_justified_checkpoint: justified_checkpoint,
            unrealized_justified_state_root: justified_state_root,
            unrealized_finalized_checkpoint: finalized_checkpoint,
            proposer_boost_root: Hash256::zero(),
            equivocating_indices: BTreeSet::new(),
            payload_inclusion_list_satisfaction: RootMap::singleton(anchor_block_root, true),
            payload_timeliness_vote: RootMap::singleton(anchor_block_root, all_true_votes(ptc_size)),
            payload_data_availability_vote: RootMap::singleton(
                anchor_block_root,
                all_true_votes(ptc_size),
            ),
            ptc_size,
        };
        proof {
            assert(s@.payload_timeliness_vote =~= Map::<Seq<u8>, Seq<bool>>::empty().insert(
                anchor_block_root.bytes(),
                Seq::new(ptc_size as nat, |i: int| true),
            ));
            assert(s@.payload_data_availability_vote =~= Map::<Seq<u8>, Seq<bool>>::empty().insert(
                anchor_block_root.bytes(),
                Seq::new(ptc_size as nat, |i: int| true),
            ));
        }
        Ok(s)
    }

    /// Sets the justified balances from the justified state that
    /// `set_justified_checkpoint` asked for: `loaded` is the outcome of
    /// reading it (an error of the read, no state, or its validators).
    pub fn set_justified_balances_from_state(
        &mut self,
        loaded: Result<Option<Vec<ValidatorBalance>>, String>,
    ) -> (r: Result<(), Error>)
        requires
            old(self).store_wf(),
        ensures
            final(self).store_wf(),
            (final(self)@, r) == spec_load_outcome(old(self)@, loaded),
    {
        match loaded {
            Err(e) => Err(Error::FailedToReadState(e)),
            Ok(None) => Err(Error::MissingState(self.justified_state_root)),
            Ok(Some(validators)) => {
                match JustifiedBalances::from_justified_state(&validators) {
                    Ok(b) => {
                        self.justified_balances = b;
                        Ok(())
                    },
                    Err(e) => Err(Error::Arith(e)),
                }
            },
        }
    }

    /// Sets the justified checkpoint and its state root, then the justified
    /// balances: from the balances cache when they are cached there, else
    /// from the justified state that `load` reads at `justified_state_root`
    /// (`load` is called only on a cache miss).
    pub fn set_justified_checkpoint_loading<F>(
        &mut self,
        checkpoint: Checkpoint,
        justified_state_root: Hash256,
        load: F,
    ) -> (r: Result<(), Error>)
        where
            F: FnOnce(Hash256) -> Result<Option<Vec<ValidatorBalance>>, String>,
        requires
            old(self).store_wf(),
            load.requires((justified_state_root,)),
        ensures
            final(self).store_wf(),
            ({
                let moved = StoreModel {
                    justified_checkpoint: checkpoint,
                    justified_state_root,
                    ..old(self)@
                };
                match spec_lookup(old(self)@.balances_cache, checkpoint.root.bytes(), checkpoint.epoch) {
                    Some(b) => if sum_u64(b) > u64::MAX {
                        r == Err::<(), Error>(Error::Arith(ArithError::Overflow))
                            && final(self)@ == moved
                    } else {
                        r is Ok && final(self)@ == (StoreModel {
                            justified_balances: b,
                            justified_total_effective_balance: sum_u64(b) as u64,
                            justified_num_active_validators: count_nonzero(b) as u64,
                            ..moved
                        })
                    },
                    None => loaded_by(load, justified_state_root, moved, final(self)@, r),
                }
            }),
    {
        match self.set_justified_checkpoint(checkpoint, justified_state_root) {
            Ok(JustifiedBalancesUpdate::FromCache) => Ok(()),
            Ok(JustifiedBalancesUpdate::LoadState(root)) => {
                let loaded = load(root);
                self.set_justified_balances_from_state(loaded)
            },
            Err(e) => Err(e),
        }
    }

    /// Saves the store as a persisted store.
    pub fn to_persisted(&self) -> (r: PersistedForkChoiceStoreV28)
        requires
            self.store_wf(),
        ensures
            persisted_from(self@, r),
    {
        let il = self.payload_inclusion_list_satisfaction.to_pairs();
        let timeliness = self.payload_timeliness_vote.to_pairs();
        let availability = self.payload_data_availability_vote.to_pairs();
        proof {
            self.payload_timeliness_vote.lemma_votes_of_pairs();
            self.payload_data_availability_vote.lemma_votes_of_pairs();
            assert(persisted_vote_roots(timeliness@) =~= keys_of(self.payload_timeliness_vote.pairs()));
            assert(persisted_vote_roots(availability@) =~= keys_of(
                self.payload_data_availability_vote.pairs(),
            ));
        }
        let equivocating_indices = self.equivocating_indices.clone();
        let r = PersistedForkChoiceStoreV28 {
            time: self.time,
            finalized_checkpoint: self.finalized_checkpoint,
            justified_checkpoint: self.justified_checkpoint,
            justified_state_root: self.justified_state_root,
            unrealized_justified_checkpoint: self.unrealized_justified_checkpoint,
            unrealized_justified_state_root: self.unrealized_justified_state_root,
            unrealized_finalized_checkpoint: self.unrealized_finalized_checkpoint,
            proposer_boost_root: self.proposer_boost_root,
            equivocating_indices,
            payload_inclusion_list_satisfaction: il,
            payload_timeliness_vote: timeliness,
            payload_data_availability_vote: availability,
        };
        assert(r.equivocating_indices@ == self@.equivocating_indices);
        assert(keys_of(pairs_view(r.payload_inclusion_list_satisfaction@)).no_duplicates());
        assert(map_of_pairs(pairs_view(r.payload_inclusion_list_satisfaction@))
            == self@.payload_inclusion_list_satisfaction);
        assert(persisted_vote_roots(r.payload_timeliness_vote@).no_duplicates());
        assert(persisted_votes(r.payload_timeliness_vote@) == self@.payload_timeliness_vote);
        r
    }

    /// Restores the store from a persisted store of schema 17, with the given
    /// justified state roots. The justified balances come from the persisted
    /// ones (`Arith` when their sum does not fit in a `u64`); the balances
    /// cache and the per-block maps start empty.
    pub fn from_persisted_v17(
        persisted: PersistedForkChoiceStoreV17,
        justified_state_root: Hash256,
        unrealized_justified_state_root: Hash256,
        ptc_size: usize,
    ) -> (r: Result<Self, Error>)
        ensures
            sum_u64(persisted.justified_balances@) > u64::MAX ==> r == Err::<Self, Error>(
                Error::Arith(ArithError::Overflow),
            ),
            sum_u64(persisted.justified_balances@) <= u64::MAX ==> (r matches Ok(s) && s.store_wf() && s@ == (
            StoreModel {
                time: persisted.time,
                finalized_checkpoint: persisted.finalized_checkpoint,
                justified_checkpoint: persisted.justified_checkpoint,
                justified_balances: persisted.justified_balances@,
                justified_total_effective_balance: sum_u64(persisted.justified_balances@) as u64,
                justified_num_active_validators: count_nonzero(persisted.justified_balances@) as u64,
                justified_state_root,
                unrealized_justified_checkpoint: persisted.unrealized_justified_checkpoint,
                unrealized_justified_state_root,
                unrealized_finalized_checkpoint: persisted.unrealized_finalized_checkpoint,
                proposer_boost_root: persisted.proposer_boost_root,
                equivocating_indices: persisted.equivocating_indices@,
                payload_inclusion_list_satisfaction: Map::empty(),
                payload_timeliness_vote: Map::empty(),
                payload_data_availability_vote: Map::empty(),
                ptc_size,
                balances_cache: Seq::empty(),
            })),
    {
        let justified_balances = match JustifiedBalances::from_effective_balances(
            persisted.justified_balances,
        ) {
            Ok(b) => b,
            Err(e) => {
                return Err(Error::Arith(e));
            },
        };
        let s = BeaconForkChoiceStore {
            balances_cache: BalancesCache::new(),
            time: persisted.time,
            finalized_checkpoint: persisted.finalized_checkpoint,
            justified_checkpoint: persisted.justified_checkpoint,
            justified_balances,
            justified_state_root,
            unrealized_justified_checkpoint: persisted.unrealized_justified_checkpoint,
            unrealized_justified_state_root,
            unrealized_finalized_checkpoint: persisted.unrealized_finalized_checkpoint,
            proposer_boost_root: persisted.proposer_boost_root,
            equivocating_indices: persisted.equivocating_indices,
            payload_inclusion_list_satisfaction: RootMap::new(),
            payload_timeliness_vote: RootMap::new(),
            payload_data_availability_vote: RootMap::new(),
            ptc_size,
        };
        assert(s@.payload_timeliness_vote =~= Map::<Seq<u8>, Seq<bool>>::empty());
        assert(s@.payload_data_availability_vote =~= Map::<Seq<u8>, Seq<bool>>::empty());
        Ok(s)
    }

    /// Restores the store from a persisted store. `justified_state` is the
    /// outcome of reading the state at the persisted justified state root:
    /// a read error gives `FailedToReadState`, no state `MissingState`, and
    /// otherwise the justified balances come from its validators. The lists
    /// of pairs become maps, a later pair for a root overriding an earlier
    /// one; the balances cache starts empty.
    pub fn from_persisted(
        persisted: PersistedForkChoiceStoreV28,
        justified_state: Result<Option<Vec<ValidatorBalance>>, String>,
        ptc_size: usize,
    ) -> (r: Result<Self, Error>)
        ensures
            match justified_state {
                Err(e) => r == Err::<Self, Error>(Error::FailedToReadState(e)),
                Ok(None) => r == Err::<Self, Error>(Error::MissingState(persisted.justified_state_root)),
                Ok(Some(validators)) => if sum_u64(counted_balances(validators@)) > u64::MAX {
                    r == Err::<Self, Error>(Error::Arith(ArithError::Overflow))
                } else {
                    r matches Ok(s) && s.store_wf() && s@ == spec_restored(persisted, validators@, ptc_size)
                },
            },
    {
        let validators = match justified_state {
            Err(e) => {
                return Err(Error::FailedToReadState(e));
            },
            Ok(None) => {
                return Err(Error::MissingState(persisted.justified_state_root));
            },
            Ok(Some(v)) => v,
        };
        let justified_balances = match JustifiedBalances::from_justified_state(&validators) {
            Ok(b) => b,
            Err(e) => {
                return Err(Error::Arith(e));
            },
        };
        let ghost p = persisted;
        let il = RootMap::from_pairs(persisted.payload_inclusion_list_satisfaction);
        let timeliness = RootMap::from_pairs(persisted.payload_timeliness_vote);
        let availability = RootMap::from_pairs(persisted.payload_data_availability_vote);
        proof {
            crate::root_map::lemma_map_of_pairs_votes(pairs_view(p.payload_timeliness_vote@));
            crate::root_map::lemma_map_of_pairs_votes(pairs_view(p.payload_data_availability_vote@));
        }
        Ok(
            BeaconForkChoiceStore {
                balances_cache: BalancesCache::new(),
                time: persisted.time,
                finalized_checkpoint: persisted.finalized_checkpoint,
                justified_checkpoint: persisted.justified_checkpoint,
                justified_balances,
                justified_state_root: persisted.justified_state_root,
                unrealized_justified_checkpoint: persisted.unrealized_justified_checkpoint,
                unrealized_justified_state_root: persisted.unrealized_justified_state_root,
                unrealized_finalized_checkpoint: persisted.unrealized_finalized_checkpoint,
                proposer_boost_root: persisted.proposer_boost_root,
                equivocating_indices: persisted.equivocating_indices,
                payload_inclusion_list_satisfaction: il,
                payload_timeliness_vote: timeliness,
                payload_data_availability_vote: availability,
                ptc_size,
            },
        )
    }
}

impl PersistedForkChoiceStoreV17 {
    /// The schema-17 form of a schema-28 persisted store, with the given
    /// justified balances: the balances cache is empty, and the justified
    /// state roots and the per-block maps are dropped.
    pub fn from_v28(v28: PersistedForkChoiceStoreV28, balances: JustifiedBalances) -> (r: Self)
        ensures
            r.balances_cache@ == Seq::<CacheItemView>::empty(),
            r.time == v28.time,
            r.finalized_checkpoint == v28.finalized_checkpoint,
            r.justified_checkpoint == v28.justified_checkpoint,
            r.justified_balances@ == balances.effective_balances@,
            r.unrealized_justified_checkpoint == v28.unrealized_justified_checkpoint,
            r.unrealized_finalized_checkpoint == v28.unrealized_finalized_checkpoint,
            r.proposer_boost_root == v28.proposer_boost_root,
            r.equivocating_indices@ == v28.equivocating_indices@,
    {
        PersistedForkChoiceStoreV17 {
            balances_cache: BalancesCache::new(),
            time: v28.time,
            finalized_checkpoint: v28.finalized_checkpoint,
            justified_checkpoint: v28.justified_checkpoint,
            justified_balances: balances.effective_balances,
            unrealized_justified_checkpoint: v28.unrealized_justified_checkpoint,
            unrealized_finalized_checkpoint: v28.unrealized_finalized_checkpoint,
            proposer_boost_root: v28.proposer_boost_root,
            equivocating_indices: v28.equivocating_indices,
        }
    }
}

/// Restoring a persisted store gives back the store that was persisted,
/// except that the balances cache starts empty, the committee size is the
/// one given, and the justified balances are those of the justified state
/// read back.
pub proof fn lemma_restore_after_persist(
    m: StoreModel,
    p: PersistedForkChoiceStoreV28,
    validators: Seq<ValidatorBalance>,
    ptc_size: usize,
)
    requires
        persisted_from(m, p),
    ensures
        spec_restored(p, validators, ptc_size) == (StoreModel {
            justified_balances: counted_balances(validators),
            justified_total_effective_balance: sum_u64(counted_balances(validators)) as u64,
            justified_num_active_validators: count_counted(validators) as u64,
            ptc_size,
            balances_cache: Seq::empty(),
            ..m
        }),
{
}

/// A vote recorded at an index within the block's vote list is read back,
/// and the votes of other blocks do not change.
pub proof fn lemma_vote_read_back(
    votes: Map<Seq<u8>, Seq<bool>>,
    root: Seq<u8>,
    index: usize,
    vote: bool,
    default_len: usize,
    other: Seq<u8>,
)
    requires
        index < (if votes.dom().contains(root) {
            votes[root].len()
        } else {
            default_len as nat
        }),
        other != root,
    ensures
        spec_after_vote(votes, root, index, vote, default_len)[root][index as int] == vote,
        spec_after_vote(votes, root, index, vote, default_len)[root].len() == (if votes.dom().contains(
            root,
        ) {
            votes[root].len()
        } else {
            default_len as nat
        }),
        spec_after_vote(votes, root, index, vote, default_len).dom().contains(other) == votes.dom().contains(other),
        votes.dom().contains(other) ==> spec_after_vote(votes, root, index, vote, default_len)[other]
            == votes[other],
        forall|j: int|
            0 <= j < spec_after_vote(votes, root, index, vote, default_len)[root].len() && j != index
                ==> #[trigger] spec_after_vote(votes, root, index, vote, default_len)[root][j] == (if votes.dom().contains(
                root,
            ) {
                votes[root][j]
            } else {
                false
            }),
{
}

/// A vote at an index past the block's vote list changes nothing but
/// giving the block its list.
pub proof fn lemma_vote_past_end_ignored(
    votes: Map<Seq<u8>, Seq<bool>>,
    root: Seq<u8>,
    index: usize,
    vote: bool,
    default_len: usize,
)
    requires
        index >= (if votes.dom().contains(root) {
            votes[root].len()
        } else {
            default_len as nat
        }),
    ensures
        spec_after_vote(votes, root, index, vote, default_len) == spec_initialized(
            votes,
            root,
            default_len,
        ),
{
    if votes.dom().contains(root) {
        assert(votes.insert(root, votes[root]) =~= votes);
    }
}

/// Freshly initialized votes of a nonempty committee are not a two-thirds
/// majority.
pub proof fn lemma_fresh_votes_not_timely(votes: Map<Seq<u8>, Seq<bool>>, root: Seq<u8>, ptc_size: usize)
    requires
        !votes.dom().contains(root),
        ptc_size > 0,
    ensures
        !spec_votes_reach_two_thirds(spec_initialized(votes, root, ptc_size), root, ptc_size),
{
    crate::root_map::lemma_count_true_no_votes(ptc_size as nat);
}

/// Reading the inclusion-list satisfaction of a block gives what was last
/// recorded for it, and recording for one block leaves the others.
pub proof fn lemma_satisfaction_read_after_write(
    recorded: Map<Seq<u8>, bool>,
    root: Seq<u8>,
    satisfied: bool,
    other: Seq<u8>,
)
    requires
        other != root,
    ensures
        recorded.insert(root, satisfied).dom().contains(root),
        recorded.insert(root, satisfied)[root] == satisfied,
        recorded.insert(root, satisfied).dom().contains(other) == recorded.dom().contains(other),
        recorded.dom().contains(other) ==> recorded.insert(root, satisfied)[other] == recorded[other],
{
}

} // verus!
