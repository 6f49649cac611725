//! Response bodies of the beacon API endpoints for inclusion lists.

use vstd::prelude::*;
use crate::primitives::Hash256;
use crate::inclusion_list::SignedInclusionList;

verus! {

/// Response of `GET /v1/beacon/blocks/{block_id}/inclusion_lists`.
#[derive(Debug)]
pub struct GetInclusionListsResponse {
    pub inclusion_lists: Vec<SignedInclusionList>,
}

/// Response of `GET /v1/beacon/states/{state_id}/inclusion_list_committee`.
#[derive(Debug)]
pub struct GetInclusionListCommitteeResponse {
    pub validators: Vec<u64>,
    pub committee_root: Hash256,
}

} // verus!
