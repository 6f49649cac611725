//! Justified balances and the cache of effective balances at epoch boundaries
//! that spares fork choice the reads of justified states.

use vstd::prelude::*;
use crate::primitives::{copy_u64s, Epoch, Hash256, Slot};

verus! {

/// The number of validator balance sets that the cache holds.
pub const MAX_BALANCE_CACHE_SIZE: usize = 4;

/// An arithmetic overflow.
#[derive(Clone, Copy, Debug, PartialEq, Eq)]
pub enum ArithError {
    /// A sum did not fit in a `u64`.
    Overflow,
}

/// What the justified balances read of a validator: its effective balance,
/// and whether it counts (active at the state's epoch and not slashed).
#[derive(Clone, Copy, Debug)]
pub struct ValidatorBalance {
    pub effective_balance: u64,
    pub active_and_unslashed: bool,
}

/// The balances of the justified state, as fork choice weighs votes.
#[derive(Debug)]
pub struct JustifiedBalances {
    /// The effective balance of each validator; zero for those that do not
    /// count.
    pub effective_balances: Vec<u64>,
    /// The sum of `effective_balances`.
    pub total_effective_balance: u64,
    /// The number of validators that count.
    pub num_active_validators: u64,
}

/// The sum of a sequence of balances.
pub open spec fn sum_u64(s: Seq<u64>) -> nat
    decreases s.len(),
{
    if s.len() == 0 {
        0
    } else {
        sum_u64(s.drop_last()) + s.last() as nat
    }
}

/// The number of nonzero balances in a sequence.
pub open spec fn count_nonzero(s: Seq<u64>) -> nat
    decreases s.len(),
{
    if s.len() == 0 {
        0
    } else {
        count_nonzero(s.drop_last()) + if s.last() != 0 { 1nat } else { 0nat }
    }
}

/// The effective balances that fork choice reads of `validators`: the
/// validator's effective balance where it counts, zero elsewhere.
pub open spec fn counted_balances(validators: Seq<ValidatorBalance>) -> Seq<u64> {
    validators.map_values(
        |v: ValidatorBalance| if v.active_and_unslashed { v.effective_balance } else { 0u64 },
    )
}

/// The number of validators that count.
pub open spec fn count_counted(validators: Seq<ValidatorBalance>) -> nat
    decreases validators.len(),
{
    if validators.len() == 0 {
        0
    } else {
        count_counted(validators.drop_last()) + if validators.last().active_and_unslashed {
            1nat
        } else {
            0nat
        }
    }
}

proof fn lemma_sum_prefix_bounded(s: Seq<u64>, k: int)
    requires
        0 <= k <= s.len(),
    ensures
        sum_u64(s.take(k)) <= sum_u64(s),
    decreases s.len(),
{
    if k < s.len() {
        assert(s.drop_last().take(k) =~= s.take(k));
        lemma_sum_prefix_bounded(s.drop_last(), k);
    } else {
        assert(s.take(k) =~= s);
    }
}

impl JustifiedBalances {
    /// The balances are consistent: the total is their sum.
    pub open spec fn spec_total_matches(&self) -> bool {
        self.total_effective_balance == sum_u64(self.effective_balances@)
    }

    /// Builds the justified balances from effective balances: the total is
    /// their sum and the active validators are those with a nonzero balance.
    /// Fails with `Overflow` when the sum does not fit in a `u64`.
    pub fn from_effective_balances(effective_balances: Vec<u64>) -> (r: Result<Self, ArithError>)
        ensures
            r is Ok <==> sum_u64(effective_balances@) <= u64::MAX,
            r matches Err(e) ==> e == ArithError::Overflow,
            r matches Ok(b) ==> {
                &&& b.effective_balances@ == effective_balances@
                &&& b.total_effective_balance == sum_u64(effective_balances@)
                &&& b.num_active_validators == count_nonzero(effective_balances@)
            },
    {
        let ghost s = effective_balances@;
        let mut total: u64 = 0;
        let mut active: u64 = 0;
        let mut i: usize = 0;
        assert(s.take(0) =~= Seq::<u64>::empty());
        while i < effective_balances.len()
            invariant
                i <= effective_balances.len(),
                s == effective_balances@,
                total == sum_u64(s.take(i as int)),
                active == count_nonzero(s.take(i as int)),
                active <= i,
            decreases effective_balances.len() - i,
        {
            let balance = effective_balances[i];
            proof {
                assert(s.take(i + 1).drop_last() =~= s.take(i as int));
            }
            if balance != 0 {
                match total.checked_add(balance) {
                    Some(t) => {
                        total = t;
                    },
                    None => {
                        proof {
                            lemma_sum_prefix_bounded(s, i + 1);
                        }
                        return Err(ArithError::Overflow);
                    },
                }
                active = active + 1;
            }
            i = i + 1;
        }
        proof {
            assert(s.take(i as int) =~= s);
        }
        Ok(JustifiedBalances {
            effective_balances,
            total_effective_balance: total,
            num_active_validators: active,
        })
    }

    /// Builds the justified balances of a state from its validators: a
    /// validator that is active at the state's epoch and not slashed counts
    /// with its effective balance, the others with zero. Fails with
    /// `Overflow` when the total does not fit in a `u64`.
    pub fn from_justified_state(validators: &Vec<ValidatorBalance>) -> (r: Result<Self, ArithError>)
        ensures
            r is Ok <==> sum_u64(counted_balances(validators@)) <= u64::MAX,
            r matches Err(e) ==> e == ArithError::Overflow,
            r matches Ok(b) ==> {
                &&& b.effective_balances@ == counted_balances(validators@)
                &&& b.total_effective_balance == sum_u64(counted_balances(validators@))
                &&& b.num_active_validators == count_counted(validators@)
            },
    {
        let ghost full = counted_balances(validators@);
        let mut balances: Vec<u64> = Vec::new();
        let mut total: u64 = 0;
        let mut active: u64 = 0;
        let mut i: usize = 0;
        assert(validators@.take(0) =~= Seq::<ValidatorBalance>::empty());
        while i < validators.len()
            invariant
                i <= validators.len(),
                full == counted_balances(validators@),
                balances@ == full.take(i as int),
                total == sum_u64(full.take(i as int)),
                active == count_counted(validators@.take(i as int)),
                active <= i,
            decreases validators.len() - i,
        {
            let v = validators[i];
            proof {
                assert(full.take(i + 1).drop_last() =~= full.take(i as int));
                assert(validators@.take(i + 1).drop_last() =~= validators@.take(i as int));
                assert(full[i as int] == (if v.active_and_unslashed { v.effective_balance } else { 0u64 }));
            }
            if v.active_and_unslashed {
                match total.checked_add(v.effective_balance) {
                    Some(t) => {
                        total = t;
                    },
                    None => {
                        proof {
                            lemma_sum_prefix_bounded(full, i + 1);
                        }
                        return Err(ArithError::Overflow);
                    },
                }
                active = active + 1;
                balances.push(v.effective_balance);
            } else {
                balances.push(0u64);
            }
            i = i + 1;
            assert(balances@ =~= full.take(i as int));
        }
        proof {
            assert(full.take(i as int) =~= full);
            assert(validators@.take(i as int) =~= validators@);
        }
        Ok(JustifiedBalances {
            effective_balances: balances,
            total_effective_balance: total,
            num_active_validators: active,
        })
    }
}

/// A cached set of balances: the epoch-boundary block root, the epoch and
/// the effective balances.
#[derive(Debug)]
pub struct CacheItem {
    pub block_root: Hash256,
    pub epoch: Epoch,
    pub balances: Vec<u64>,
}

/// The view of a cache item: root bytes, epoch and balances.
pub type CacheItemView = (Seq<u8>, Epoch, Seq<u64>);

/// The view of a cache item.
pub open spec fn item_view(item: CacheItem) -> CacheItemView {
    (item.block_root.bytes(), item.epoch, item.balances@)
}

/// Whether the cache item is for `root` and `epoch`.
pub open spec fn item_matches(item: CacheItemView, root: Seq<u8>, epoch: Epoch) -> bool {
    item.0 == root && item.1 == epoch
}

/// The cache holds at most `MAX_BALANCE_CACHE_SIZE` items, no two for the
/// same root and epoch.
pub open spec fn cache_items_wf(items: Seq<CacheItemView>) -> bool {
    &&& items.len() <= MAX_BALANCE_CACHE_SIZE
    &&& forall|i: int, j: int|
        0 <= i < j < items.len() ==> !item_matches(items[i], items[j].0, items[j].1)
}

/// The index of the first item for `root` and `epoch`, if any.
pub open spec fn spec_position(items: Seq<CacheItemView>, root: Seq<u8>, epoch: Epoch) -> Option<nat>
    decreases items.len(),
{
    if items.len() == 0 {
        None
    } else {
        match spec_position(items.drop_last(), root, epoch) {
            Some(i) => Some(i),
            None => if item_matches(items.last(), root, epoch) {
                Some((items.len() - 1) as nat)
            } else {
                None
            },
        }
    }
}

/// The balances cached for `root` and `epoch`, if any.
pub open spec fn spec_lookup(items: Seq<CacheItemView>, root: Seq<u8>, epoch: Epoch) -> Option<
    Seq<u64>,
> {
    match spec_position(items, root, epoch) {
        Some(i) => Some(items[i as int].2),
        None => None,
    }
}

/// The items after caching `balances` for `root` and `epoch`: nothing
/// changes when an item for them is there; otherwise the item is appended,
/// after dropping the oldest one when the cache is full.
pub open spec fn spec_insert(
    items: Seq<CacheItemView>,
    root: Seq<u8>,
    epoch: Epoch,
    balances: Seq<u64>,
) -> Seq<CacheItemView> {
    if spec_position(items, root, epoch) is Some {
        items
    } else if items.len() == MAX_BALANCE_CACHE_SIZE {
        items.drop_first().push((root, epoch, balances))
    } else {
        items.push((root, epoch, balances))
    }
}

/// The first matching index is the index of a matching item, before which
/// none matches; there is one exactly when some item matches.
pub proof fn lemma_position(items: Seq<CacheItemView>, root: Seq<u8>, epoch: Epoch)
    ensures
        match spec_position(items, root, epoch) {
            Some(i) => i < items.len() && item_matches(items[i as int], root, epoch) && forall|
                j: int,
            | 0 <= j < i ==> !item_matches(#[trigger] items[j], root, epoch),
            None => forall|j: int| 0 <= j < items.len() ==> !item_matches(#[trigger] items[j], root, epoch),
        },
    decreases items.len(),
{
    if items.len() > 0 {
        lemma_position(items.drop_last(), root, epoch);
        assert forall|j: int| 0 <= j < items.len() - 1 implies items.drop_last()[j] == items[j] by {}
    }
}

/// Reading after caching: the balances for `root` and `epoch` are those that
/// were cached for them before, or else the ones just cached; the cache
/// stays within its size and keeps no two items for one root and epoch.
pub proof fn lemma_lookup_after_insert(
    items: Seq<CacheItemView>,
    root: Seq<u8>,
    epoch: Epoch,
    balances: Seq<u64>,
)
    requires
        cache_items_wf(items),
    ensures
        cache_items_wf(spec_insert(items, root, epoch, balances)),
        spec_lookup(spec_insert(items, root, epoch, balances), root, epoch) == (
        match spec_lookup(items, root, epoch) {
            Some(b) => Some(b),
            None => Some(balances),
        }),
{
    lemma_position(items, root, epoch);
    let after = spec_insert(items, root, epoch, balances);
    if spec_position(items, root, epoch) is None {
        let full = items.len() == MAX_BALANCE_CACHE_SIZE;
        let kept = if full { items.drop_first() } else { items };
        assert(after == kept.push((root, epoch, balances)));
        assert forall|j: int| 0 <= j < kept.len() implies !item_matches(#[trigger] kept[j], root, epoch) by {
            if full {
                assert(kept[j] == items[j + 1]);
            }
        }
        assert forall|i: int, j: int| 0 <= i < j < after.len() implies !item_matches(
            after[i],
            after[j].0,
            after[j].1,
        ) by {
            if full {
                assert(after[i] == items[i + 1]);
                if j < after.len() - 1 {
                    assert(after[j] == items[j + 1]);
                }
            } else {
                assert(after[i] == items[i]);
                if j < after.len() - 1 {
                    assert(after[j] == items[j]);
                }
            }
        }
        lemma_position(after, root, epoch);
        let last = after.len() - 1;
        assert(item_matches(after[last], root, epoch));
        match spec_position(after, root, epoch) {
            Some(p) => {
                if p < last {
                    assert(after[p as int] == kept[p as int]);
                }
                assert(p == last);
            },
            None => {
                assert(!item_matches(after[last], root, epoch));
            },
        }
    }
}

/// Caching for one root and epoch leaves what is cached for any other root
/// or epoch, except the oldest item when a full cache makes room.
pub proof fn lemma_lookup_other_after_insert(
    items: Seq<CacheItemView>,
    root: Seq<u8>,
    epoch: Epoch,
    balances: Seq<u64>,
    other_root: Seq<u8>,
    other_epoch: Epoch,
)
    requires
        cache_items_wf(items),
        !(other_root == root && other_epoch == epoch),
        !(spec_position(items, root, epoch) is None && items.len() == MAX_BALANCE_CACHE_SIZE
            && item_matches(items[0], other_root, other_epoch)),
    ensures
        spec_lookup(spec_insert(items, root, epoch, balances), other_root, other_epoch)
            == spec_lookup(items, other_root, other_epoch),
{
    lemma_position(items, other_root, other_epoch);
    lemma_position(items, root, epoch);
    let after = spec_insert(items, root, epoch, balances);
    if spec_position(items, root, epoch) is None {
        let full = items.len() == MAX_BALANCE_CACHE_SIZE;
        let kept = if full { items.drop_first() } else { items };
        assert(after == kept.push((root, epoch, balances)));
        lemma_position(after, other_root, other_epoch);
        let last = after.len() - 1;
        assert(!item_matches(after[last], other_root, other_epoch));
        match spec_position(items, other_root, other_epoch) {
            Some(p) => {
                let q: int = if full { p - 1 } else { p as int };
                if full {
                    assert(p != 0);
                }
                assert(after[q] == items[p as int]);
                match spec_position(after, other_root, other_epoch) {
                    Some(a) => {
                        let src: int = if full { a as int + 1 } else { a as int };
                        assert(a < last);
                        assert(after[a as int] == items[src]);
                        if a < q {
                            assert(src < p);
                        } else if a > q {
                            assert(after[q] == items[p as int]);
                        }
                        assert(a == q);
                    },
                    None => {
                        assert(!item_matches(after[q], other_root, other_epoch));
                    },
                }
            },
            None => {
                match spec_position(after, other_root, other_epoch) {
                    Some(a) => {
                        let src: int = if full { a as int + 1 } else { a as int };
                        assert(after[a as int] == items[src]);
                    },
                    None => {},
                }
            },
        }
    }
}

/// The cached epoch-boundary balances, most recent last.
#[derive(Debug)]
pub struct BalancesCache {
    items: Vec<CacheItem>,
}

/// What `process_state` reads of a beacon state.
#[derive(Debug)]
pub struct StateSummary {
    /// The state's slot.
    pub slot: Slot,
    /// The state's current epoch.
    pub current_epoch: Epoch,
    /// The number of slots in an epoch.
    pub slots_per_epoch: u64,
    /// The state's block root at the first slot of its current epoch, or the
    /// state's error when it cannot give it.
    pub epoch_boundary_block_root: Result<Hash256, String>,
    /// The state's validators.
    pub validators: Vec<ValidatorBalance>,
}

/// The first slot of `epoch`, held at `u64::MAX` when it does not fit.
pub open spec fn epoch_start_slot(epoch: Epoch, slots_per_epoch: u64) -> Slot {
    if epoch * slots_per_epoch > u64::MAX {
        u64::MAX
    } else {
        (epoch * slots_per_epoch) as Slot
    }
}

/// The first slot of `epoch`.
pub fn start_slot(epoch: Epoch, slots_per_epoch: u64) -> (r: Slot)
    ensures
        r == epoch_start_slot(epoch, slots_per_epoch),
{
    match epoch.checked_mul(slots_per_epoch) {
        Some(s) => s,
        None => u64::MAX,
    }
}

/// Why caching the balances of a state failed.
#[derive(Debug)]
pub enum CacheError {
    /// The state could not give its epoch-boundary block root.
    BeaconStateError(String),
    /// The total of the state's balances does not fit in a `u64`.
    Arith(ArithError),
}

/// The root of the block at the first slot of the state's current epoch:
/// `block_root` when the state is at that slot, else what the state gives.
pub open spec fn spec_epoch_boundary_root(block_root: Hash256, state: StateSummary) -> Result<
    Hash256,
    String,
> {
    if epoch_start_slot(state.current_epoch, state.slots_per_epoch) == state.slot {
        Ok(block_root)
    } else {
        state.epoch_boundary_block_root
    }
}

impl BalancesCache {
    /// The cached items, oldest first.
    pub closed spec fn view(&self) -> Seq<CacheItemView> {
        self.items@.map_values(|item: CacheItem| item_view(item))
    }

    /// An empty cache.
    pub fn new() -> (r: Self)
        ensures
            r@ == Seq::<CacheItemView>::empty(),
    {
        let r = BalancesCache { items: Vec::new() };
        assert(r@ =~= Seq::<CacheItemView>::empty());
        r
    }

    /// The index of the cached item for `block_root` and `epoch`, if any.
    fn position(&self, block_root: Hash256, epoch: Epoch) -> (r: Option<usize>)
        ensures
            match r {
                Some(i) => spec_position(self@, block_root.bytes(), epoch) == Some(i as nat),
                None => spec_position(self@, block_root.bytes(), epoch) is None,
            },
    {
        proof {
            lemma_position(self@, block_root.bytes(), epoch);
        }
        let mut i: usize = 0;
        while i < self.items.len()
            invariant
                i <= self.items@.len(),
                self@.len() == self.items@.len(),
                forall|j: int| 0 <= j < i ==> !item_matches(#[trigger] self@[j], block_root.bytes(), epoch),
            decreases self.items.len() - i,
        {
            assert(self@[i as int] == item_view(self.items@[i as int]));
            if self.items[i].block_root == block_root && self.items[i].epoch == epoch {
                proof {
                    lemma_position(self@, block_root.bytes(), epoch);
                    match spec_position(self@, block_root.bytes(), epoch) {
                        Some(p) => {
                            if p < i {
                                assert(!item_matches(self@[p as int], block_root.bytes(), epoch));
                            } else if p > i {
                                assert(!item_matches(self@[i as int], block_root.bytes(), epoch));
                            }
                        },
                        None => {
                            assert(!item_matches(self@[i as int], block_root.bytes(), epoch));
                        },
                    }
                }
                return Some(i);
            }
            i = i + 1;
        }
        proof {
            match spec_position(self@, block_root.bytes(), epoch) {
                Some(p) => {
                    assert(!item_matches(self@[p as int], block_root.bytes(), epoch));
                },
                None => {},
            }
        }
        None
    }

    /// Returns a copy of the balances cached for `block_root` and `epoch`,
    /// if any.
    pub fn get(&mut self, block_root: Hash256, epoch: Epoch) -> (r: Option<Vec<u64>>)
        ensures
            final(self)@ == old(self)@,
            match spec_lookup(old(self)@, block_root.bytes(), epoch) {
                Some(b) => r matches Some(v) && v@ == b,
                None => r is None,
            },
    {
        proof {
            lemma_position(self@, block_root.bytes(), epoch);
        }
        match self.position(block_root, epoch) {
            Some(i) => {
                assert(self@[i as int] == item_view(self.items@[i as int]));
                assert(spec_position(self@, block_root.bytes(), epoch) == Some(i as nat));
                let b = copy_u64s(&self.items[i].balances);
                assert(b@ == self@[i as int].2);
                Some(b)
            },
            None => None,
        }
    }

    /// Caches the effective balances of `state`, for the block at the first
    /// slot of its current epoch, unless they are cached already.
    /// `block_root` is the root of the block that `state` is the post-state
    /// of. When the cache is full the oldest item makes room.
    pub fn process_state(&mut self, block_root: Hash256, state: &StateSummary) -> (r: Result<
        (),
        CacheError,
    >)
        requires
            cache_items_wf(old(self)@),
        ensures
            cache_items_wf(final(self)@),
            match spec_epoch_boundary_root(block_root, *state) {
                Err(e) => r == Err::<(), CacheError>(CacheError::BeaconStateError(e))
                    && final(self)@ == old(self)@,
                Ok(root) => if spec_lookup(old(self)@, root.bytes(), state.current_epoch) is Some {
                    r is Ok && final(self)@ == old(self)@
                } else if sum_u64(counted_balances(state.validators@)) > u64::MAX {
                    r == Err::<(), CacheError>(CacheError::Arith(ArithError::Overflow))
                        && final(self)@ == old(self)@
                } else {
                    r is Ok && final(self)@ == spec_insert(
                        old(self)@,
                        root.bytes(),
                        state.current_epoch,
                        counted_balances(state.validators@),
                    )
                },
            },
    {
        let epoch = state.current_epoch;
        let epoch_boundary_slot = start_slot(epoch, state.slots_per_epoch);
        let epoch_boundary_root = if epoch_boundary_slot == state.slot {
            block_root
        } else {
            match &state.epoch_boundary_block_root {
                Ok(root) => *root,
                Err(e) => {
                    return Err(CacheError::BeaconStateError(e.clone()));
                },
            }
        };
        if self.position(epoch_boundary_root, epoch).is_none() {
            let balances = match JustifiedBalances::from_justified_state(&state.validators) {
                Ok(b) => b.effective_balances,
                Err(e) => {
                    return Err(CacheError::Arith(e));
                },
            };
            let item = CacheItem { block_root: epoch_boundary_root, epoch, balances };
            let ghost before = self@;
            if self.items.len() == MAX_BALANCE_CACHE_SIZE {
                self.items.remove(0);
                assert(self@ =~= before.drop_first());
            }
            let ghost middle = self@;
            self.items.push(item);
            proof {
                assert(self@ =~= middle.push(item_view(item)));
                lemma_position(before, epoch_boundary_root.bytes(), epoch);
                let n = self@.len();
                assert forall|i: int, j: int| 0 <= i < j < n implies !item_matches(
                    self@[i],
                    self@[j].0,
                    self@[j].1,
                ) by {
                    if j == n - 1 {
                        if before.len() == MAX_BALANCE_CACHE_SIZE {
                            assert(self@[i] == before[i + 1]);
                        } else {
                            assert(self@[i] == before[i]);
                        }
                    } else if before.len() == MAX_BALANCE_CACHE_SIZE {
                        assert(self@[i] == before[i + 1]);
                        assert(self@[j] == before[j + 1]);
                    } else {
                        assert(self@[i] == before[i]);
                        assert(self@[j] == before[j]);
                    }
                }
            }
        }
        Ok(())
    }
}

} // verus!
