//! Fork-choice enforced inclusion lists (FOCIL): committee selection, gossip
//! checks, equivocation tracking, the fork-choice store's payload bookkeeping,
//! the timing rules of the inclusion-list duty and the SSZ encoding of
//! builder bids, with their contracts.

pub mod primitives;
pub mod supermajority;
pub mod balances;
pub mod root_map;
pub mod fork_choice_store;
pub mod inclusion_list;
pub mod committee;
pub mod observed;
pub mod verification;
pub mod service;
pub mod api;
pub mod payload_bid;
pub mod bid_codec;
pub mod envelope;
