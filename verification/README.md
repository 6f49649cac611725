# focil

Verified logic of fork-choice enforced inclusion lists (FOCIL) for a beacon
node and a validator client, written in Verus.

`src/` is the verified library:

- `primitives` — roots, slots, epochs.
- `inclusion_list` — inclusion lists and their size limits.
- `committee` — selection of the inclusion list committee of a slot, its
  SSZ root, membership, and the checks on the signer of a list.
- `observed` / `verification` — gossip checks on inclusion lists and the
  store of observed lists that detects equivocations.
- `supermajority` — the two-thirds threshold of committee votes.
- `balances` — justified balances and the cache of epoch-boundary balances.
- `root_map` — maps keyed by block root.
- `fork_choice_store` — the fork-choice store, its persisted forms and the
  payload-timeliness votes.
- `service` — timing and decisions of the inclusion-list duty.
- `payload_bid` — which execution payload bid variant a fork or an encoding
  uses.
- `envelope` — the steps of publishing an execution payload envelope.
- `api` — response bodies of the inclusion-list API.

`app/` holds what Verus does not check: JSON forms of the responses, a lock
around the observed lists, error messages, and the per-slot duty driver.
`tests/` exercises the library.
