//! Gossip checks on inclusion lists and the store of observed lists with its
//! equivocation detection.

use vstd::prelude::*;
use crate::primitives::{Hash256, Slot, ValidatorIndex};
use crate::inclusion_list::{InclusionList, SignedInclusionList, MAX_BYTES_PER_INCLUSION_LIST, sum_of_lengths};
use crate::observed::{KeySet, KeyView, key_view};

verus! {

/// Maximum clock disparity allowed for gossip propagation, in milliseconds.
pub const MAXIMUM_GOSSIP_CLOCK_DISPARITY: u64 = 500;

/// Why an inclusion list was refused.
#[derive(Debug)]
pub enum Error {
    /// The inclusion list exceeds the maximum byte size.
    ExceedsMaxBytes { actual: usize, max: usize },
    /// The slot is neither the current nor the previous slot.
    InvalidSlot { slot: Slot, current_slot: Slot },
    /// The inclusion list was received too late.
    ReceivedTooLate { slot: Slot },
    /// The committee root does not match.
    CommitteeRootMismatch { expected: Hash256, provided: Hash256 },
    /// The validator is not in the inclusion list committee.
    ValidatorNotInCommittee { validator_index: ValidatorIndex },
    /// The validator has already equivocated.
    EquivocatedValidator { validator_index: ValidatorIndex },
    /// Invalid signature.
    InvalidSignature,
    /// Unknown validator index.
    UnknownValidatorIndex(ValidatorIndex),
    /// The chain is not synced enough to verify this inclusion list.
    NotSynced,
    /// Internal error during verification.
    InternalError(String),
}

/// The slot before `slot`, or slot zero for slot zero.
pub open spec fn previous_slot(slot: Slot) -> Slot {
    if slot == 0 {
        0
    } else {
        (slot - 1) as Slot
    }
}

/// Whether an inclusion list for `slot` may propagate at `current_slot`: it
/// must be for the current or the previous slot.
pub open spec fn slot_in_propagation_range(slot: Slot, current_slot: Slot) -> bool {
    slot == current_slot || slot == previous_slot(current_slot)
}

/// The error, if any, of the basic checks on `signed` at `current_slot`.
pub open spec fn spec_basic_error(signed: SignedInclusionList, current_slot: Slot) -> Option<Error> {
    let total = signed.message.spec_total_bytes();
    if total > MAX_BYTES_PER_INCLUSION_LIST {
        Some(Error::ExceedsMaxBytes { actual: total as usize, max: MAX_BYTES_PER_INCLUSION_LIST })
    } else if !slot_in_propagation_range(signed.message.slot, current_slot) {
        Some(Error::InvalidSlot { slot: signed.message.slot, current_slot })
    } else {
        None
    }
}

/// An inclusion list that passed the basic gossip checks.
#[derive(Debug)]
pub struct VerifiedInclusionList {
    signed_inclusion_list: SignedInclusionList,
}

impl View for VerifiedInclusionList {
    type V = SignedInclusionList;

    closed spec fn view(&self) -> SignedInclusionList {
        self.signed_inclusion_list
    }
}

fn saturating_previous_slot(slot: Slot) -> (r: Slot)
    ensures
        r == previous_slot(slot),
{
    slot.saturating_sub(1)
}

impl VerifiedInclusionList {
    /// Returns the wrapped signed inclusion list.
    pub fn as_inner(&self) -> (r: &SignedInclusionList)
        ensures
            *r == self@,
    {
        &self.signed_inclusion_list
    }

    /// Consumes `self`, returning the wrapped signed inclusion list.
    pub fn into_inner(self) -> (r: SignedInclusionList)
        ensures
            r == self@,
    {
        self.signed_inclusion_list
    }

    /// Verifies the checks that need no chain state: the transactions must
    /// fit in `MAX_BYTES_PER_INCLUSION_LIST` bytes (else `ExceedsMaxBytes`),
    /// and the list must be for the current or the previous slot (else
    /// `InvalidSlot`).
    pub fn verify_basic(signed_inclusion_list: SignedInclusionList, current_slot: Slot) -> (r:
        Result<Self, Error>)
        requires
            signed_inclusion_list.message.spec_total_bytes() <= usize::MAX,
        ensures
            r is Ok <==> spec_basic_error(signed_inclusion_list, current_slot) is None,
            r matches Ok(v) ==> v@ == signed_inclusion_list,
            r matches Err(e) ==> spec_basic_error(signed_inclusion_list, current_slot) == Some(e),
    {
        let total_bytes = signed_inclusion_list.message.total_bytes();
        if total_bytes > MAX_BYTES_PER_INCLUSION_LIST {
            return Err(Error::ExceedsMaxBytes { actual: total_bytes, max: MAX_BYTES_PER_INCLUSION_LIST });
        }
        let previous_slot = saturating_previous_slot(current_slot);
        let slot = signed_inclusion_list.message.slot;
        if slot != current_slot && slot != previous_slot {
            return Err(Error::InvalidSlot { slot, current_slot });
        }
        Ok(VerifiedInclusionList { signed_inclusion_list })
    }
}

/// The error, if any, of the propagation checks on `message`, given the
/// clock's current slot (`None` when the clock cannot be read) and whether
/// the clock is still before the end of the message's slot, with
/// `MAXIMUM_GOSSIP_CLOCK_DISPARITY` of tolerance.
pub open spec fn spec_propagation_error(
    current_slot: Option<Slot>,
    prior_to_slot_end: bool,
    message: InclusionList,
) -> Option<Error> {
    match current_slot {
        None => Some(Error::NotSynced),
        Some(current) => if !slot_in_propagation_range(message.slot, current) {
            Some(Error::InvalidSlot { slot: message.slot, current_slot: current })
        } else if !prior_to_slot_end {
            Some(Error::ReceivedTooLate { slot: message.slot })
        } else {
            None
        },
    }
}

/// Verifies that an inclusion list is within the allowed propagation range:
/// the clock must be readable (else `NotSynced`), the list must be for the
/// current or the previous slot (else `InvalidSlot`), and the clock must be
/// before the end of the slot with `MAXIMUM_GOSSIP_CLOCK_DISPARITY` of
/// tolerance (else `ReceivedTooLate`).
pub fn verify_propagation_slot_range(
    current_slot: Option<Slot>,
    prior_to_slot_end: bool,
    message: &InclusionList,
) -> (r: Result<(), Error>)
    ensures
        r is Ok <==> spec_propagation_error(current_slot, prior_to_slot_end, *message) is None,
        r matches Err(e) ==> spec_propagation_error(current_slot, prior_to_slot_end, *message)
            == Some(e),
{
    let current = match current_slot {
        Some(s) => s,
        None => return Err(Error::NotSynced),
    };
    let previous_slot = saturating_previous_slot(current);
    if message.slot != current && message.slot != previous_slot {
        return Err(Error::InvalidSlot { slot: message.slot, current_slot: current });
    }
    if !prior_to_slot_end {
        return Err(Error::ReceivedTooLate { slot: message.slot });
    }
    Ok(())
}

/// One observation: `(observed, equivocators, is_equivocation)` after seeing
/// a list for `key`. A key already marked as equivocating stays so; a key
/// seen once moves to the equivocators; a new key becomes observed.
pub open spec fn spec_observe(
    observed: Set<KeyView>,
    equivocators: Set<KeyView>,
    key: KeyView,
) -> (Set<KeyView>, Set<KeyView>, bool) {
    if equivocators.contains(key) {
        (observed, equivocators, true)
    } else if observed.contains(key) {
        (observed.remove(key), equivocators.insert(key), true)
    } else {
        (observed.insert(key), equivocators, false)
    }
}

/// The slot below which observations are pruned at `current_slot`.
pub open spec fn prune_slot(current_slot: Slot) -> Slot {
    if current_slot < 2 {
        0
    } else {
        (current_slot - 2) as Slot
    }
}

/// The inclusion lists observed on gossip, and the equivocators among their
/// senders, by slot, committee root and validator index.
#[derive(Debug)]
pub struct ObservedInclusionLists {
    observed: KeySet,
    equivocators: KeySet,
}

impl ObservedInclusionLists {
    /// The keys seen exactly once.
    pub closed spec fn observed_view(&self) -> Set<KeyView> {
        self.observed.view()
    }

    /// The keys of validators that sent two lists.
    pub closed spec fn equivocators_view(&self) -> Set<KeyView> {
        self.equivocators.view()
    }

    /// Each key is held once, and no key is both observed and equivocating.
    pub closed spec fn wf(&self) -> bool {
        &&& self.observed.wf()
        &&& self.equivocators.wf()
        &&& self.observed.view().disjoint(self.equivocators.view())
    }

    /// Creates an empty store.
    pub fn new() -> (r: Self)
        ensures
            r.wf(),
            r.observed_view() == Set::<KeyView>::empty(),
            r.equivocators_view() == Set::<KeyView>::empty(),
    {
        ObservedInclusionLists { observed: KeySet::new(), equivocators: KeySet::new() }
    }

    /// Whether this validator has been observed exactly once for this slot
    /// and committee.
    pub fn is_known(&self, slot: Slot, committee_root: Hash256, validator_index: ValidatorIndex) -> (r:
        bool)
        ensures
            r == self.observed_view().contains((slot, committee_root.bytes(), validator_index)),
    {
        self.observed.contains(&(slot, committee_root, validator_index))
    }

    /// Whether this validator has equivocated for this slot and committee.
    pub fn is_equivocator(
        &self,
        slot: Slot,
        committee_root: Hash256,
        validator_index: ValidatorIndex,
    ) -> (r: bool)
        ensures
            r == self.equivocators_view().contains((slot, committee_root.bytes(), validator_index)),
    {
        self.equivocators.contains(&(slot, committee_root, validator_index))
    }

    /// Observes an inclusion list. Returns true if this is an equivocation.
    pub fn observe(&mut self, slot: Slot, committee_root: Hash256, validator_index: ValidatorIndex) -> (r:
        bool)
        requires
            old(self).wf(),
        ensures
            final(self).wf(),
            (final(self).observed_view(), final(self).equivocators_view(), r) == spec_observe(
                old(self).observed_view(),
                old(self).equivocators_view(),
                (slot, committee_root.bytes(), validator_index),
            ),
            forall|k: KeyView|
                k != (slot, committee_root.bytes(), validator_index) ==> (final(self).observed_view().contains(k)
                    == old(self).observed_view().contains(k) && final(self).equivocators_view().contains(k)
                    == old(self).equivocators_view().contains(k)),
            r == (old(self).observed_view().contains((slot, committee_root.bytes(), validator_index))
                || old(self).equivocators_view().contains(
                (slot, committee_root.bytes(), validator_index),
            )),
            final(self).equivocators_view().contains((slot, committee_root.bytes(), validator_index))
                == r,
            final(self).observed_view().contains((slot, committee_root.bytes(), validator_index))
                == !r,
    {
        proof {
            lemma_observe_touches_only_its_key(
                self.observed_view(),
                self.equivocators_view(),
                (slot, committee_root.bytes(), validator_index),
            );
        }
        let key = (slot, committee_root, validator_index);
        if self.equivocators.contains(&key) {
            return true;
        }
        if self.observed.contains(&key) {
            self.equivocators.insert(key);
            self.observed.remove(&key);
            proof {
                assert(self.observed.view().disjoint(self.equivocators.view()));
            }
            return true;
        }
        self.observed.insert(key);
        false
    }

    /// Prunes the observations of slots more than two before `current_slot`.
    pub fn prune(&mut self, current_slot: Slot)
        requires
            old(self).wf(),
        ensures
            final(self).wf(),
            final(self).observed_view() == old(self).observed_view().filter(
                |k: KeyView| k.0 >= prune_slot(current_slot),
            ),
            final(self).equivocators_view() == old(self).equivocators_view().filter(
                |k: KeyView| k.0 >= prune_slot(current_slot),
            ),
    {
        let min_slot = current_slot.saturating_sub(2);
        self.observed.retain_from_slot(min_slot);
        self.equivocators.retain_from_slot(min_slot);
    }
}

/// A second observation of the same key is always an equivocation, and
/// leaves the key among the equivocators and no longer merely observed.
pub proof fn lemma_second_observation_is_equivocation(
    observed: Set<KeyView>,
    equivocators: Set<KeyView>,
    key: KeyView,
)
    requires
        observed.disjoint(equivocators),
    ensures
        ({
            let (o1, e1, _first) = spec_observe(observed, equivocators, key);
            let (o2, e2, second) = spec_observe(o1, e1, key);
            second && e2.contains(key) && !o2.contains(key)
        }),
{
}

/// Observing never removes an equivocator, and keeps the observed keys and
/// the equivocators disjoint.
pub proof fn lemma_observe_keeps_equivocators(
    observed: Set<KeyView>,
    equivocators: Set<KeyView>,
    key: KeyView,
)
    requires
        observed.disjoint(equivocators),
    ensures
        ({
            let (o1, e1, _r) = spec_observe(observed, equivocators, key);
            equivocators.subset_of(e1) && o1.disjoint(e1)
        }),
{
}

/// An observation reports an equivocation exactly when the key was already
/// seen, once or more.
pub proof fn lemma_observe_reports_repeats(
    observed: Set<KeyView>,
    equivocators: Set<KeyView>,
    key: KeyView,
)
    ensures
        spec_observe(observed, equivocators, key).2 == (observed.contains(key) || equivocators.contains(
            key,
        )),
{
}

/// Observing a list for one key leaves every other key as it was: observed
/// exactly when it was, an equivocator exactly when it was. The key itself
/// ends up an equivocator when it had been seen before (and that is the
/// answer), else observed once.
pub proof fn lemma_observe_touches_only_its_key(
    observed: Set<KeyView>,
    equivocators: Set<KeyView>,
    key: KeyView,
)
    requires
        observed.disjoint(equivocators),
    ensures
        ({
            let (o1, e1, r) = spec_observe(observed, equivocators, key);
            &&& forall|k: KeyView|
                k != key ==> (o1.contains(k) == observed.contains(k) && e1.contains(k)
                    == equivocators.contains(k))
            &&& r == (observed.contains(key) || equivocators.contains(key))
            &&& e1.contains(key) == r
            &&& o1.contains(key) == !r
        }),
{
}

/// A list passes the basic checks exactly when its transactions hold at most
/// `MAX_BYTES_PER_INCLUSION_LIST` bytes in all and it is for the current
/// slot or the one just before it.
pub proof fn lemma_basic_checks(signed: SignedInclusionList, current_slot: Slot)
    ensures
        spec_basic_error(signed, current_slot) is None <==> (sum_of_lengths(
            signed.message.transaction_bytes(),
        ) <= MAX_BYTES_PER_INCLUSION_LIST && (signed.message.slot == current_slot
            || signed.message.slot + 1 == current_slot)),
{
}

/// A list is within the propagation range exactly when the clock reads a
/// slot, the list is for that slot or the one just before it, and the clock
/// is still before the end of the slot.
pub proof fn lemma_propagation_range(
    current_slot: Option<Slot>,
    prior_to_slot_end: bool,
    message: InclusionList,
)
    ensures
        spec_propagation_error(current_slot, prior_to_slot_end, message) is None <==> (
        current_slot matches Some(c) && (message.slot == c || message.slot + 1 == c)
            && prior_to_slot_end),
{
}

/// Pruning at `current_slot` keeps exactly the keys of the current slot and
/// of the two slots before it.
pub proof fn lemma_prune_keeps_recent(keys: Set<KeyView>, current_slot: Slot, k: KeyView)
    ensures
        keys.filter(|x: KeyView| x.0 >= prune_slot(current_slot)).contains(k) <==> (keys.contains(k)
            && k.0 + 2 >= current_slot),
{
}

} // verus!
