//! Selection of the inclusion list committee of a slot, its root, membership
//! and the checks on an inclusion list's signer.

use vstd::prelude::*;
use crate::primitives::{Hash256, ValidatorIndex};
use crate::inclusion_list::{SignedInclusionList, INCLUSION_LIST_COMMITTEE_SIZE};
use ssz_types::FixedVector;
use ssz_types::Error as SszTypesError;
use typenum::{UInt, UTerm, B0, B1, U16};

verus! {

#[verifier::external_type_specification]
#[verifier::external_body]
#[verifier::reject_recursive_types(T)]
#[verifier::reject_recursive_types(N)]
pub struct ExFixedVector<T, N>(FixedVector<T, N>);

#[verifier::external_type_specification]
#[verifier::external_body]
pub struct ExSszTypesError(SszTypesError);

#[verifier::external_type_specification]
#[verifier::external_body]
#[verifier::reject_recursive_types(U)]
#[verifier::reject_recursive_types(B)]
pub struct ExUInt<U, B>(UInt<U, B>);

#[verifier::external_type_specification]
#[verifier::external_body]
pub struct ExUTerm(UTerm);

#[verifier::external_type_specification]
#[verifier::external_body]
pub struct ExB0(B0);

#[verifier::external_type_specification]
#[verifier::external_body]
pub struct ExB1(B1);

/// The values held by a fixed-length vector of sixteen validator indices.
pub uninterp spec fn fixed_vector_elems(v: FixedVector<u64, U16>) -> Seq<u64>;

/// `FixedVector::new`: succeeds exactly when the vector has the type-level
/// length (sixteen), and then holds the given values in order.
#[verifier::external_body]
fn fixed_vector_new(v: Vec<u64>) -> (r: Result<FixedVector<u64, U16>, SszTypesError>)
    ensures
        r is Ok <==> v@.len() == 16,
        r matches Ok(f) ==> fixed_vector_elems(f) == v@,
{
    FixedVector::new(v)
}

/// `FixedVector` read back as a `Vec`: the same values in the same order.
#[verifier::external_body]
fn fixed_vector_to_vec(v: &FixedVector<u64, U16>) -> (r: Vec<u64>)
    ensures
        r@ == fixed_vector_elems(*v),
{
    v.to_vec()
}

/// The SSZ tree-hash root of a vector of sixteen `u64` values, as bytes.
pub uninterp spec fn vector_tree_hash_root(elems: Seq<u64>) -> Seq<u8>;

/// `TreeHash::tree_hash_root` of a `FixedVector<u64, U16>`: its result is
/// named by `vector_tree_hash_root` applied to the vector's values.
#[verifier::external_body]
fn committee_tree_hash_root(v: &FixedVector<u64, U16>) -> (r: Hash256)
    ensures
        r.bytes() == vector_tree_hash_root(fixed_vector_elems(*v)),
{
    Hash256(tree_hash::TreeHash::tree_hash_root(v).0)
}

/// Errors of the committee and signature helpers.
#[derive(Debug)]
pub enum HelperError {
    /// The committee could not be held in a fixed-length vector.
    FixedVector(SszTypesError),
    /// The signer's validator index is not in the registry.
    ValidatorIndexOutOfBounds(ValidatorIndex),
    /// The signer's public key could not be decompressed.
    PubkeyDecompression,
}

/// All beacon committees of a slot, concatenated in order.
pub open spec fn flatten(committees: Seq<Seq<u64>>) -> Seq<u64>
    decreases committees.len(),
{
    if committees.len() == 0 {
        Seq::empty()
    } else {
        flatten(committees.drop_last()) + committees.last()
    }
}

/// Sixteen validators chosen from `all`: position `i` holds
/// `all[i % all.len()]`; sixteen zeros when `all` is empty.
pub open spec fn select_committee(all: Seq<u64>) -> Seq<u64> {
    if all.len() == 0 {
        Seq::new(INCLUSION_LIST_COMMITTEE_SIZE as nat, |i: int| 0u64)
    } else {
        Seq::new(INCLUSION_LIST_COMMITTEE_SIZE as nat, |i: int| all[i % (all.len() as int)])
    }
}

/// The inclusion list committee of a slot whose beacon committees are
/// `committees`.
pub open spec fn spec_inclusion_list_committee(committees: Seq<Seq<u64>>) -> Seq<u64> {
    select_committee(flatten(committees))
}

/// The root of the inclusion list committee of a slot whose beacon committees
/// are `committees`.
pub open spec fn spec_inclusion_list_committee_root(committees: Seq<Seq<u64>>) -> Seq<u8> {
    vector_tree_hash_root(spec_inclusion_list_committee(committees))
}

fn concatenate_committees(committees: &Vec<Vec<u64>>) -> (r: Vec<u64>)
    ensures
        r@ == flatten(committees.deep_view()),
{
    let ghost cs = committees.deep_view();
    let mut all: Vec<u64> = Vec::new();
    let mut i: usize = 0;
    assert(cs.take(0) =~= Seq::<Seq<u64>>::empty());
    while i < committees.len()
        invariant
            i <= committees.len(),
            cs == committees.deep_view(),
            cs.len() == committees.len(),
            all@ == flatten(cs.take(i as int)),
        decreases committees.len() - i,
    {
        let committee = &committees[i];
        let ghost before = all@;
        let mut j: usize = 0;
        while j < committee.len()
            invariant
                j <= committee.len(),
                all@ == before + committee@.take(j as int),
            decreases committee.len() - j,
        {
            all.push(committee[j]);
            j = j + 1;
            assert(all@ =~= before + committee@.take(j as int));
        }
        proof {
            assert(committee@.take(j as int) =~= committee@);
            assert(cs[i as int] == committee@);
            assert(cs.take(i + 1).drop_last() =~= cs.take(i as int));
        }
        i = i + 1;
    }
    assert(cs.take(i as int) =~= cs);
    all
}

/// Returns the inclusion list committee of a slot, given the slot's beacon
/// committees in order: their members are concatenated and sixteen of them
/// are taken round-robin; an empty slot gives sixteen zeros.
pub fn get_inclusion_list_committee(committees: &Vec<Vec<u64>>) -> (r: Result<
    FixedVector<u64, U16>,
    HelperError,
>)
    ensures
        r is Ok,
        r matches Ok(c) ==> fixed_vector_elems(c) == spec_inclusion_list_committee(
            committees.deep_view(),
        ),
{
    let all = concatenate_committees(committees);
    let mut selected: Vec<u64> = Vec::new();
    if all.len() == 0 {
        let mut i: usize = 0;
        while i < INCLUSION_LIST_COMMITTEE_SIZE
            invariant
                i <= INCLUSION_LIST_COMMITTEE_SIZE,
                selected@.len() == i,
                forall|k: int| 0 <= k < i ==> selected@[k] == 0u64,
            decreases INCLUSION_LIST_COMMITTEE_SIZE - i,
        {
            selected.push(0u64);
            i = i + 1;
        }
    } else {
        let mut i: usize = 0;
        while i < INCLUSION_LIST_COMMITTEE_SIZE
            invariant
                i <= INCLUSION_LIST_COMMITTEE_SIZE,
                all@.len() > 0,
                selected@.len() == i,
                forall|k: int| 0 <= k < i ==> selected@[k] == all@[k % (all@.len() as int)],
            decreases INCLUSION_LIST_COMMITTEE_SIZE - i,
        {
            let index = i % all.len();
            selected.push(all[index]);
            i = i + 1;
        }
    }
    assert(selected@ =~= select_committee(all@));
    match fixed_vector_new(selected) {
        Ok(c) => Ok(c),
        Err(e) => Err(HelperError::FixedVector(e)),
    }
}

/// Returns the root of the inclusion list committee of a slot, given the
/// slot's beacon committees.
pub fn get_inclusion_list_committee_root(committees: &Vec<Vec<u64>>) -> (r: Result<
    Hash256,
    HelperError,
>)
    ensures
        r is Ok,
        r matches Ok(root) ==> root.bytes() == spec_inclusion_list_committee_root(
            committees.deep_view(),
        ),
{
    let committee = get_inclusion_list_committee(committees)?;
    Ok(committee_tree_hash_root(&committee))
}

fn vec_contains(v: &Vec<u64>, x: u64) -> (r: bool)
    ensures
        r == v@.contains(x),
{
    let mut i: usize = 0;
    while i < v.len()
        invariant
            i <= v.len(),
            forall|k: int| 0 <= k < i ==> v@[k] != x,
        decreases v.len() - i,
    {
        if v[i] == x {
            assert(v@[i as int] == x);
            return true;
        }
        i = i + 1;
    }
    false
}

/// Whether `validator_index` is a member of the inclusion list committee of
/// a slot, given the slot's beacon committees.
pub fn is_inclusion_list_committee_member(
    committees: &Vec<Vec<u64>>,
    validator_index: ValidatorIndex,
) -> (r: Result<bool, HelperError>)
    ensures
        r == Ok::<bool, HelperError>(
            spec_inclusion_list_committee(committees.deep_view()).contains(validator_index),
        ),
        r == Ok::<bool, HelperError>(among_first_sixteen(committees.deep_view(), validator_index)),
{
    proof {
        lemma_committee_members(committees.deep_view(), validator_index);
    }
    let committee = get_inclusion_list_committee(committees)?;
    let members = fixed_vector_to_vec(&committee);
    Ok(vec_contains(&members, validator_index))
}

/// The outcome of the signature check of an inclusion list, given what the
/// registry and the BLS library say of its signer.
pub open spec fn spec_inclusion_list_signature_check(
    signed: SignedInclusionList,
    validator_count: nat,
    pubkey_decompresses: bool,
    committees: Seq<Seq<u64>>,
    signature_verifies: bool,
) -> Result<bool, HelperError> {
    let message = signed.message;
    if message.validator_index >= validator_count {
        Err(HelperError::ValidatorIndexOutOfBounds(message.validator_index))
    } else if !pubkey_decompresses {
        Err(HelperError::PubkeyDecompression)
    } else if !spec_inclusion_list_committee(committees).contains(message.validator_index) {
        Ok(false)
    } else if message.inclusion_list_committee_root.bytes() != spec_inclusion_list_committee_root(
        committees,
    ) {
        Ok(false)
    } else {
        Ok(signature_verifies)
    }
}

/// Checks whether a signed inclusion list has a valid signature: the signer
/// must be in the registry (`validator_count` validators) with a public key
/// that decompresses, must be a member of the committee of the list's slot
/// (whose beacon committees are `committees`), the list must name that
/// committee's root, and then the BLS signature over the list's signing root
/// with the inclusion-list-committee domain decides (`signature_verifies`).
pub fn is_valid_inclusion_list_signature(
    signed_inclusion_list: &SignedInclusionList,
    validator_count: usize,
    pubkey_decompresses: bool,
    committees: &Vec<Vec<u64>>,
    signature_verifies: bool,
) -> (r: Result<bool, HelperError>)
    ensures
        r == spec_inclusion_list_signature_check(
            *signed_inclusion_list,
            validator_count as nat,
            pubkey_decompresses,
            committees.deep_view(),
            signature_verifies,
        ),
        r == Ok::<bool, HelperError>(true) ==> among_first_sixteen(
            committees.deep_view(),
            signed_inclusion_list.message.validator_index,
        ) && signature_verifies,
        signed_inclusion_list.message.validator_index < validator_count && pubkey_decompresses
            && !among_first_sixteen(committees.deep_view(), signed_inclusion_list.message.validator_index)
            ==> r == Ok::<bool, HelperError>(false),
{
    proof {
        lemma_committee_members(committees.deep_view(), signed_inclusion_list.message.validator_index);
    }
    let message = &signed_inclusion_list.message;
    let validator_index = message.validator_index;
    if validator_index >= validator_count as u64 {
        return Err(HelperError::ValidatorIndexOutOfBounds(validator_index));
    }
    if !pubkey_decompresses {
        return Err(HelperError::PubkeyDecompression);
    }
    let is_member = is_inclusion_list_committee_member(committees, validator_index)?;
    if !is_member {
        return Ok(false);
    }
    let expected_committee_root = get_inclusion_list_committee_root(committees)?;
    if !(message.inclusion_list_committee_root == expected_committee_root) {
        return Ok(false);
    }
    Ok(signature_verifies)
}

/// Every member of the inclusion list committee of a slot with validators
/// is a member of one of the slot's beacon committees, and a slot with at
/// least sixteen validators gives its first sixteen, in order.
pub proof fn lemma_committee_drawn_from_beacon_committees(committees: Seq<Seq<u64>>)
    requires
        flatten(committees).len() > 0,
    ensures
        forall|i: int|
            0 <= i < INCLUSION_LIST_COMMITTEE_SIZE ==> flatten(committees).contains(
                #[trigger] spec_inclusion_list_committee(committees)[i],
            ),
        flatten(committees).len() >= INCLUSION_LIST_COMMITTEE_SIZE ==> spec_inclusion_list_committee(
            committees,
        ) == flatten(committees).take(INCLUSION_LIST_COMMITTEE_SIZE as int),
{
    let all = flatten(committees);
    assert forall|i: int| 0 <= i < INCLUSION_LIST_COMMITTEE_SIZE implies all.contains(
        #[trigger] spec_inclusion_list_committee(committees)[i],
    ) by {
        let j = i % (all.len() as int);
        assert(0 <= j < all.len());
        assert(all[j] == spec_inclusion_list_committee(committees)[i]);
    }
    if all.len() >= INCLUSION_LIST_COMMITTEE_SIZE {
        assert forall|i: int| 0 <= i < INCLUSION_LIST_COMMITTEE_SIZE implies #[trigger] spec_inclusion_list_committee(committees)[i] == all[i] by {
            vstd::arithmetic::div_mod::lemma_small_mod(i as nat, all.len());
        }
        assert(spec_inclusion_list_committee(committees) =~= all.take(INCLUSION_LIST_COMMITTEE_SIZE as int));
    }
}

/// Whether `v` is among the first sixteen validators of the slot's beacon
/// committees taken in order (among all of them, if there are fewer); with
/// no validators at all, the committee is sixteen zeros and only validator 0
/// is in it.
pub open spec fn among_first_sixteen(committees: Seq<Seq<u64>>, v: u64) -> bool {
    let all = flatten(committees);
    if all.len() == 0 {
        v == 0
    } else {
        exists|j: int| 0 <= j < INCLUSION_LIST_COMMITTEE_SIZE && j < all.len() && all[j] == v
    }
}

/// The inclusion list committee of a slot holds exactly the first sixteen
/// validators of its beacon committees, in order, taken round-robin when
/// there are fewer; so a validator past the sixteenth place is never in it.
pub proof fn lemma_committee_members(committees: Seq<Seq<u64>>, v: u64)
    ensures
        spec_inclusion_list_committee(committees).contains(v) <==> among_first_sixteen(committees, v),
{
    let all = flatten(committees);
    let c = spec_inclusion_list_committee(committees);
    let n = all.len();
    if n == 0 {
        if v == 0 {
            assert(c[0] == 0);
        }
    } else {
        if c.contains(v) {
            let i = choose|i: int| 0 <= i < c.len() && c[i] == v;
            vstd::arithmetic::div_mod::lemma_mod_pos_bound(i, n as int);
            let j = i % (n as int);
            if i < n {
                vstd::arithmetic::div_mod::lemma_small_mod(i as nat, n);
            }
            assert(0 <= j < INCLUSION_LIST_COMMITTEE_SIZE && j < n && all[j] == v);
        }
        if among_first_sixteen(committees, v) {
            let j = choose|j: int| 0 <= j < INCLUSION_LIST_COMMITTEE_SIZE && j < all.len() && all[j] == v;
            vstd::arithmetic::div_mod::lemma_small_mod(j as nat, n);
            assert(c[j] == v);
        }
    }
}

/// A list whose signer is in the registry and has a decompressing key is
/// validly signed only when the signer is in the slot's inclusion list
/// committee (the first sixteen validators of its beacon committees): any
/// other signer gets `Ok(false)` whatever the BLS check says. A member that
/// names the committee's root gets the BLS outcome.
pub proof fn lemma_signature_check_requires_membership(
    signed: SignedInclusionList,
    validator_count: nat,
    committees: Seq<Seq<u64>>,
    signature_verifies: bool,
)
    requires
        signed.message.validator_index < validator_count,
    ensures
        !among_first_sixteen(committees, signed.message.validator_index)
            ==> spec_inclusion_list_signature_check(
            signed,
            validator_count,
            true,
            committees,
            signature_verifies,
        ) == Ok::<bool, HelperError>(false),
        spec_inclusion_list_signature_check(
            signed,
            validator_count,
            true,
            committees,
            signature_verifies,
        ) == Ok::<bool, HelperError>(true) ==> among_first_sixteen(
            committees,
            signed.message.validator_index,
        ) && signature_verifies,
        among_first_sixteen(committees, signed.message.validator_index)
            && signed.message.inclusion_list_committee_root.bytes()
            == spec_inclusion_list_committee_root(committees) ==> spec_inclusion_list_signature_check(
            signed,
            validator_count,
            true,
            committees,
            signature_verifies,
        ) == Ok::<bool, HelperError>(signature_verifies),
{
    lemma_committee_members(committees, signed.message.validator_index);
}

} // verus!
