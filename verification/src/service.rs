//! The timing and the decisions of the inclusion list duty of a validator
//! client: when the fork is active, which of its validators serve on a
//! slot's committee, how long to wait before producing, and what list to
//! produce.

use vstd::prelude::*;
use crate::primitives::{Epoch, Hash256, Slot, ValidatorIndex};
use crate::inclusion_list::{InclusionList, MAX_BYTES_PER_TRANSACTION, MAX_TRANSACTIONS_PER_INCLUSION_LIST};

verus! {

/// Basis points of the slot at which inclusion lists are due (~67%).
pub const INCLUSION_LIST_SUBMISSION_DUE_BPS: u64 = 6667;

/// Basis points of the slot at which the view freezes (75%).
pub const VIEW_FREEZE_CUTOFF_BPS: u64 = 7500;

/// Basis points of the slot at which the proposer stops taking inclusion
/// lists (~92%).
pub const PROPOSER_INCLUSION_LIST_CUTOFF_BPS: u64 = 9167;

/// Milliseconds before the submission deadline at which the head is checked.
pub const HEAD_CHECK_MARGIN_MS: u64 = 1000;

/// What the duty timing reads of the chain specification.
#[derive(Clone, Copy, Debug)]
pub struct ChainSpec {
    /// The duration of a slot, in seconds.
    pub seconds_per_slot: u64,
    /// The first epoch of the fork that introduces inclusion lists, if it is
    /// scheduled.
    pub heze_fork_epoch: Option<Epoch>,
}

/// A BLS public key in compressed form.
#[derive(Clone, Copy, Debug)]
pub struct PublicKeyBytes(pub [u8; 48]);

/// The point in the slot, in milliseconds from its start, at `bps` basis
/// points of a slot of `seconds_per_slot` seconds.
pub open spec fn spec_slot_fraction_ms(seconds_per_slot: u64, bps: u64) -> int {
    (seconds_per_slot * 1000 * bps) / 10000
}

fn slot_fraction_ms(seconds_per_slot: u64, bps: u64) -> (r: u64)
    requires
        seconds_per_slot * 1000 * bps <= u64::MAX,
        0 < bps <= 10000,
    ensures
        r == spec_slot_fraction_ms(seconds_per_slot, bps),
{
    assert(seconds_per_slot * 1000 <= seconds_per_slot * 1000 * bps) by (nonlinear_arith)
        requires
            bps >= 1,
    ;
    let slot_duration_ms = seconds_per_slot * 1000;
    assert(slot_duration_ms * bps == seconds_per_slot * 1000 * bps);
    (slot_duration_ms * bps) / 10000
}

/// The submission deadline of inclusion lists, in milliseconds from the
/// start of the slot.
pub fn get_inclusion_list_submission_due_ms(spec: &ChainSpec) -> (r: u64)
    requires
        spec.seconds_per_slot * 1000 * INCLUSION_LIST_SUBMISSION_DUE_BPS <= u64::MAX,
    ensures
        r == spec_slot_fraction_ms(spec.seconds_per_slot, INCLUSION_LIST_SUBMISSION_DUE_BPS),
{
    slot_fraction_ms(spec.seconds_per_slot, INCLUSION_LIST_SUBMISSION_DUE_BPS)
}

/// The view freeze cutoff, in milliseconds from the start of the slot.
pub fn get_view_freeze_cutoff_ms(spec: &ChainSpec) -> (r: u64)
    requires
        spec.seconds_per_slot * 1000 * VIEW_FREEZE_CUTOFF_BPS <= u64::MAX,
    ensures
        r == spec_slot_fraction_ms(spec.seconds_per_slot, VIEW_FREEZE_CUTOFF_BPS),
{
    slot_fraction_ms(spec.seconds_per_slot, VIEW_FREEZE_CUTOFF_BPS)
}

/// The proposer's inclusion list cutoff, in milliseconds from the start of
/// the slot.
pub fn get_proposer_inclusion_list_cutoff_ms(spec: &ChainSpec) -> (r: u64)
    requires
        spec.seconds_per_slot * 1000 * PROPOSER_INCLUSION_LIST_CUTOFF_BPS <= u64::MAX,
    ensures
        r == spec_slot_fraction_ms(spec.seconds_per_slot, PROPOSER_INCLUSION_LIST_CUTOFF_BPS),
{
    slot_fraction_ms(spec.seconds_per_slot, PROPOSER_INCLUSION_LIST_CUTOFF_BPS)
}

/// Whether the fork with inclusion lists is active at the clock's slot: it
/// must be scheduled, the clock readable, and the slot's epoch at or past the
/// fork epoch.
pub open spec fn spec_heze_fork_activated(
    heze_fork_epoch: Option<Epoch>,
    current_slot: Option<Slot>,
    slots_per_epoch: u64,
) -> bool {
    match (heze_fork_epoch, current_slot) {
        (Some(fork_epoch), Some(slot)) => slot / slots_per_epoch >= fork_epoch,
        _ => false,
    }
}

/// Whether inclusion list duties should be performed at the clock's slot
/// (`None` when the clock cannot be read).
pub fn heze_fork_activated(
    heze_fork_epoch: Option<Epoch>,
    current_slot: Option<Slot>,
    slots_per_epoch: u64,
) -> (r: bool)
    requires
        slots_per_epoch > 0,
    ensures
        r == spec_heze_fork_activated(heze_fork_epoch, current_slot, slots_per_epoch),
{
    match heze_fork_epoch {
        Some(fork_epoch) => match current_slot {
            Some(slot) => {
                let current_epoch = slot / slots_per_epoch;
                current_epoch >= fork_epoch
            },
            None => false,
        },
        None => false,
    }
}

/// The duties of our validators for a committee: in the order of `ours`,
/// each validator whose index is known and in the committee, with its key.
pub open spec fn spec_duties(
    committee: Seq<ValidatorIndex>,
    ours: Seq<(PublicKeyBytes, Option<ValidatorIndex>)>,
) -> Seq<(ValidatorIndex, PublicKeyBytes)>
    decreases ours.len(),
{
    if ours.len() == 0 {
        Seq::empty()
    } else {
        let rest = spec_duties(committee, ours.drop_last());
        match ours.last().1 {
            Some(index) => if committee.contains(index) {
                rest.push((index, ours.last().0))
            } else {
                rest
            },
            None => rest,
        }
    }
}

/// Selects the inclusion list duties of our validators: `committee` is the
/// slot's committee, `ours` our voting keys with the validator index each
/// is known by, if any.
pub fn select_inclusion_list_duties(
    committee: &Vec<ValidatorIndex>,
    ours: &Vec<(PublicKeyBytes, Option<ValidatorIndex>)>,
) -> (r: Vec<(ValidatorIndex, PublicKeyBytes)>)
    ensures
        r@ == spec_duties(committee@, ours@),
        forall|j: int, i: ValidatorIndex|
            #![trigger ours@[j], committee@.contains(i)]
            0 <= j < ours@.len() && ours@[j].1 == Some(i) && committee@.contains(i) ==> r@.contains(
                (i, ours@[j].0),
            ),
        forall|d: (ValidatorIndex, PublicKeyBytes)|
            #[trigger] r@.contains(d) ==> committee@.contains(d.0) && exists|j: int|
                0 <= j < ours@.len() && ours@[j] == (d.1, Some(d.0)),
{
    proof {
        lemma_duties_of_members(committee@, ours@);
    }
    let mut duties: Vec<(ValidatorIndex, PublicKeyBytes)> = Vec::new();
    let mut i: usize = 0;
    assert(ours@.take(0) =~= Seq::<(PublicKeyBytes, Option<ValidatorIndex>)>::empty());
    while i < ours.len()
        invariant
            i <= ours.len(),
            duties@ == spec_duties(committee@, ours@.take(i as int)),
        decreases ours.len() - i,
    {
        assert(ours@.take(i + 1).drop_last() =~= ours@.take(i as int));
        let (pubkey, index) = ours[i];
        match index {
            Some(index) => {
                if vec_contains(committee, index) {
                    duties.push((index, pubkey));
                }
            },
            None => {},
        }
        i = i + 1;
    }
    assert(ours@.take(i as int) =~= ours@);
    duties
}

fn vec_contains(v: &Vec<u64>, x: u64) -> (r: bool)
    ensures
        r == v@.contains(x),
{
    let mut i: usize = 0;
    while i < v.len()
        invariant
            i <= v.len(),
            forall|k: int| 0 <= k < i ==> v@[k] != x,
        decreases v.len() - i,
    {
        if v[i] == x {
            assert(v@[i as int] == x);
            return true;
        }
        i = i + 1;
    }
    false
}

/// How long to wait before producing inclusion lists: until the submission
/// deadline of the slot (its start plus `submission_due_ms`) less the time
/// already `elapsed_ms`, and then `HEAD_CHECK_MARGIN_MS` less, never below
/// zero.
pub open spec fn spec_duty_wait_ms(slot_start_ms: u64, submission_due_ms: u64, elapsed_ms: u64) -> int {
    let until_deadline = slot_start_ms + submission_due_ms - elapsed_ms;
    let clipped = if until_deadline < 0 { 0 } else { until_deadline };
    if clipped < HEAD_CHECK_MARGIN_MS {
        0
    } else {
        clipped - HEAD_CHECK_MARGIN_MS
    }
}

/// The time to wait, in milliseconds, before producing inclusion lists.
pub fn duty_wait_ms(slot_start_ms: u64, submission_due_ms: u64, elapsed_ms: u64) -> (r: u64)
    requires
        slot_start_ms + submission_due_ms <= u64::MAX,
    ensures
        r == spec_duty_wait_ms(slot_start_ms, submission_due_ms, elapsed_ms),
{
    let submission_deadline = slot_start_ms + submission_due_ms;
    let wait_until_deadline = submission_deadline.saturating_sub(elapsed_ms);
    wait_until_deadline.saturating_sub(HEAD_CHECK_MARGIN_MS)
}

/// The transactions that fit in an inclusion list entry, in order.
pub open spec fn spec_fitting_transactions(txs: Seq<Seq<u8>>) -> Seq<Seq<u8>> {
    txs.filter(|tx: Seq<u8>| tx.len() <= MAX_BYTES_PER_TRANSACTION)
}

/// The transactions of a produced inclusion list: those that fit an entry,
/// or none at all when more than `MAX_TRANSACTIONS_PER_INCLUSION_LIST` fit.
pub open spec fn spec_list_transactions(txs: Seq<Seq<u8>>) -> Seq<Seq<u8>> {
    let kept = spec_fitting_transactions(txs);
    if kept.len() <= MAX_TRANSACTIONS_PER_INCLUSION_LIST {
        kept
    } else {
        Seq::empty()
    }
}

/// Builds the inclusion list of a committee member from the execution
/// engine's transactions: a transaction larger than
/// `MAX_BYTES_PER_TRANSACTION` is left out, and when more than
/// `MAX_TRANSACTIONS_PER_INCLUSION_LIST` remain the list is empty.
pub fn build_inclusion_list(
    slot: Slot,
    validator_index: ValidatorIndex,
    inclusion_list_committee_root: Hash256,
    transactions: Vec<Vec<u8>>,
) -> (r: InclusionList)
    ensures
        r.slot == slot,
        r.validator_index == validator_index,
        r.inclusion_list_committee_root == inclusion_list_committee_root,
        r.transactions.deep_view() == spec_list_transactions(transactions.deep_view()),
        r.wf(),
{
    let ghost all = transactions.deep_view();
    let mut kept: Vec<Vec<u8>> = Vec::new();
    let mut rest = transactions;
    let ghost n = all.len();
    proof {
        assert(all.take(0) =~= Seq::<Seq<u8>>::empty());
        assert(all.skip(0) =~= all);
        assert(all.take(0).filter(|tx: Seq<u8>| tx.len() <= MAX_BYTES_PER_TRANSACTION) =~= Seq::<Seq<u8>>::empty());
    }
    while rest.len() > 0
        invariant
            n == all.len(),
            rest@.len() <= n,
            rest.deep_view() == all.skip(n - rest@.len()),
            kept.deep_view() == spec_fitting_transactions(all.take(n - rest@.len())),
        decreases rest.len(),
    {
        let ghost k = n - rest@.len();
        let ghost before = rest.deep_view();
        let ghost kept_before = kept.deep_view();
        let tx = rest.remove(0);
        proof {
            assert(before[0] == all[k]);
            assert(tx@ == all[k]);
            assert(rest.deep_view() =~= all.skip(k + 1)) by {
                assert forall|j: int| 0 <= j < rest.deep_view().len() implies rest.deep_view()[j]
                    == all.skip(k + 1)[j] by {
                    assert(before[j + 1] == all.skip(k)[j + 1]);
                }
            }
            assert(all.take(k + 1).drop_last() =~= all.take(k));
            assert(all.take(k + 1).last() == all[k]);
            reveal_with_fuel(Seq::<_>::filter, 1);
        }
        if tx.len() <= MAX_BYTES_PER_TRANSACTION {
            kept.push(tx);
            assert(kept.deep_view() =~= kept_before.push(tx@));
        }
    }
    proof {
        assert(all.take(n as int) =~= all);
    }
    let list = if kept.len() <= MAX_TRANSACTIONS_PER_INCLUSION_LIST {
        kept
    } else {
        Vec::new()
    };
    assert(list.deep_view() =~= spec_list_transactions(all));
    proof {
        lemma_built_list_bounded(all);
        assert forall|i: int| 0 <= i < list@.len() implies (#[trigger] list@[i])@.len()
            <= MAX_BYTES_PER_TRANSACTION by {
            assert(list.deep_view()[i] == list@[i]@);
        }
    }
    InclusionList { slot, validator_index, inclusion_list_committee_root, transactions: list }
}

/// Within a slot, the submission deadline comes no later than the view
/// freeze, which comes no later than the proposer's cutoff, which comes no
/// later than the end of the slot.
pub proof fn lemma_deadlines_ordered(seconds_per_slot: u64)
    ensures
        spec_slot_fraction_ms(seconds_per_slot, INCLUSION_LIST_SUBMISSION_DUE_BPS)
            <= spec_slot_fraction_ms(seconds_per_slot, VIEW_FREEZE_CUTOFF_BPS),
        spec_slot_fraction_ms(seconds_per_slot, VIEW_FREEZE_CUTOFF_BPS) <= spec_slot_fraction_ms(
            seconds_per_slot,
            PROPOSER_INCLUSION_LIST_CUTOFF_BPS,
        ),
        spec_slot_fraction_ms(seconds_per_slot, PROPOSER_INCLUSION_LIST_CUTOFF_BPS) <= seconds_per_slot
            * 1000,
{
    let d = seconds_per_slot * 1000;
    assert(d * 6667 <= d * 7500) by (nonlinear_arith)
        requires
            d >= 0,
    ;
    assert(d * 7500 <= d * 9167) by (nonlinear_arith)
        requires
            d >= 0,
    ;
    assert(d * 9167 <= d * 10000) by (nonlinear_arith)
        requires
            d >= 0,
    ;
    vstd::arithmetic::div_mod::lemma_div_is_ordered(d * 6667, d * 7500, 10000);
    vstd::arithmetic::div_mod::lemma_div_is_ordered(d * 7500, d * 9167, 10000);
    vstd::arithmetic::div_mod::lemma_div_is_ordered(d * 9167, d * 10000, 10000);
    vstd::arithmetic::div_mod::lemma_div_multiples_vanish(d, 10000);
    assert(d * 10000 == 10000 * d) by (nonlinear_arith);
}

/// Once the fork is active at a slot, it is active at every later slot.
pub proof fn lemma_fork_activation_monotonic(
    heze_fork_epoch: Option<Epoch>,
    slot: Slot,
    later: Slot,
    slots_per_epoch: u64,
)
    requires
        slots_per_epoch > 0,
        slot <= later,
        spec_heze_fork_activated(heze_fork_epoch, Some(slot), slots_per_epoch),
    ensures
        spec_heze_fork_activated(heze_fork_epoch, Some(later), slots_per_epoch),
{
    vstd::arithmetic::div_mod::lemma_div_is_ordered(slot as int, later as int, slots_per_epoch as int);
}

/// A produced inclusion list holds at most
/// `MAX_TRANSACTIONS_PER_INCLUSION_LIST` transactions, each of at most
/// `MAX_BYTES_PER_TRANSACTION` bytes, all among the engine's transactions.
pub proof fn lemma_built_list_bounded(txs: Seq<Seq<u8>>)
    ensures
        spec_list_transactions(txs).len() <= MAX_TRANSACTIONS_PER_INCLUSION_LIST,
        forall|i: int|
            0 <= i < spec_list_transactions(txs).len() ==> (#[trigger] spec_list_transactions(txs)[i]).len()
                <= MAX_BYTES_PER_TRANSACTION && txs.contains(spec_list_transactions(txs)[i]),
{
    let kept = spec_fitting_transactions(txs);
    assert forall|i: int| 0 <= i < kept.len() implies (#[trigger] kept[i]).len() <= MAX_BYTES_PER_TRANSACTION
        && txs.contains(kept[i]) by {
        let pred = |tx: Seq<u8>| tx.len() <= MAX_BYTES_PER_TRANSACTION;
        txs.lemma_filter_pred(pred, i);
        assert(kept.contains(kept[i]));
        txs.lemma_filter_contains_rev(pred, kept[i]);
    }
}

/// Each of our validators whose index is known and appears anywhere in the
/// committee gets a duty, with its key; and each duty is of one of our
/// validators, known by that index, whose index is in the committee.
pub proof fn lemma_duties_of_members(
    committee: Seq<ValidatorIndex>,
    ours: Seq<(PublicKeyBytes, Option<ValidatorIndex>)>,
)
    ensures
        forall|j: int, i: ValidatorIndex|
            #![trigger ours[j], committee.contains(i)]
            0 <= j < ours.len() && ours[j].1 == Some(i) && committee.contains(i) ==> spec_duties(
                committee,
                ours,
            ).contains((i, ours[j].0)),
        forall|d: (ValidatorIndex, PublicKeyBytes)|
            #[trigger] spec_duties(committee, ours).contains(d) ==> committee.contains(d.0) && exists|
                j: int,
            |
                0 <= j < ours.len() && ours[j] == (d.1, Some(d.0)),
    decreases ours.len(),
{
    if ours.len() > 0 {
        let p = ours.drop_last();
        lemma_duties_of_members(committee, p);
        let rest = spec_duties(committee, p);
        let all = spec_duties(committee, ours);
        let n = ours.len() - 1;
        assert forall|j: int, i: ValidatorIndex|
            #![trigger ours[j], committee.contains(i)]
            0 <= j < ours.len() && ours[j].1 == Some(i) && committee.contains(i) implies all.contains(
                (i, ours[j].0),
            ) by {
            if j < n {
                assert(p[j] == ours[j]);
                let k = choose|k: int| 0 <= k < rest.len() && rest[k] == (i, p[j].0);
                assert(all[k] == rest[k]);
            } else {
                assert(all[all.len() - 1] == (i, ours[j].0));
            }
        }
        assert forall|d: (ValidatorIndex, PublicKeyBytes)| #[trigger] all.contains(d) implies committee.contains(
            d.0,
        ) && exists|j: int| 0 <= j < ours.len() && ours[j] == (d.1, Some(d.0)) by {
            let k = choose|k: int| 0 <= k < all.len() && all[k] == d;
            if k < rest.len() {
                assert(rest[k] == d);
                assert(rest.contains(d));
                let j = choose|j: int| 0 <= j < p.len() && p[j] == (d.1, Some(d.0));
                assert(ours[j] == p[j]);
            } else {
                assert(ours[n] == (d.1, Some(d.0)));
            }
        }
    }
}

/// The fork is active exactly when it is scheduled, the clock reads a slot,
/// and that slot is at or past the first slot of the fork epoch.
pub proof fn lemma_fork_activation_at_first_slot(
    heze_fork_epoch: Option<Epoch>,
    current_slot: Option<Slot>,
    slots_per_epoch: u64,
)
    requires
        slots_per_epoch > 0,
    ensures
        spec_heze_fork_activated(heze_fork_epoch, current_slot, slots_per_epoch) <==> (
        heze_fork_epoch matches Some(e) && current_slot matches Some(s) && s >= e * slots_per_epoch),
{
    match (heze_fork_epoch, current_slot) {
        (Some(e), Some(s)) => {
            let q = s / slots_per_epoch;
            assert(q * slots_per_epoch <= s < q * slots_per_epoch + slots_per_epoch) by (nonlinear_arith)
                requires
                    slots_per_epoch > 0,
                    q == s / slots_per_epoch,
            ;
            if q >= e {
                assert(q * slots_per_epoch >= e * slots_per_epoch) by (nonlinear_arith)
                    requires
                        q >= e,
                        slots_per_epoch > 0,
                ;
            } else {
                assert(q * slots_per_epoch + slots_per_epoch <= e * slots_per_epoch) by (
                nonlinear_arith)
                    requires
                        q + 1 <= e,
                        slots_per_epoch > 0,
                ;
            }
        },
        _ => {},
    }
}

/// With time left before the submission deadline (`slot_start_ms +
/// submission_due_ms`) beyond the head-check margin, the wait ends exactly
/// that margin before the deadline; otherwise there is no wait.
pub proof fn lemma_duty_wait_before_deadline(slot_start_ms: u64, submission_due_ms: u64, elapsed_ms: u64)
    ensures
        elapsed_ms + HEAD_CHECK_MARGIN_MS <= slot_start_ms + submission_due_ms ==> elapsed_ms
            + spec_duty_wait_ms(slot_start_ms, submission_due_ms, elapsed_ms) + HEAD_CHECK_MARGIN_MS
            == slot_start_ms + submission_due_ms,
        elapsed_ms + HEAD_CHECK_MARGIN_MS >= slot_start_ms + submission_due_ms ==> spec_duty_wait_ms(
            slot_start_ms,
            submission_due_ms,
            elapsed_ms,
        ) == 0,
{
}

/// Every engine transaction that fits an entry is in the produced list,
/// unless more than `MAX_TRANSACTIONS_PER_INCLUSION_LIST` fit, in which case
/// the list is empty; so with at most that many transactions offered, none
/// that fits is left out.
pub proof fn lemma_built_list_complete(txs: Seq<Seq<u8>>, tx: Seq<u8>)
    requires
        txs.contains(tx),
        tx.len() <= MAX_BYTES_PER_TRANSACTION,
    ensures
        spec_list_transactions(txs).contains(tx) || spec_list_transactions(txs).len() == 0,
        txs.len() <= MAX_TRANSACTIONS_PER_INCLUSION_LIST ==> spec_list_transactions(txs).contains(tx),
{
    let pred = |t: Seq<u8>| t.len() <= MAX_BYTES_PER_TRANSACTION;
    let kept = spec_fitting_transactions(txs);
    let i = choose|i: int| 0 <= i < txs.len() && txs[i] == tx;
    txs.lemma_filter_contains(pred, i);
    assert(kept.contains(tx));
    if txs.len() <= MAX_TRANSACTIONS_PER_INCLUSION_LIST {
        txs.lemma_filter_len(pred);
    }
}

} // verus!
