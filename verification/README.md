# crowdfunding

A crowdfunding contract for NEAR. A project's raised funds become claimable
in equal steps over its vesting period, and `claim_reward` pays what is
claimable to whoever calls it. A majority of a project's supporters can stop
it; after that, each supporter can take back its share of what has not
vested.

- `src/` is the verified library. Each call of the contract is a function
  from the state and the call's context (`CallContext`) to a new state and a
  result; its contract (`*_outcome` and `*_post` in the same file) says
  exactly which result and which state. Refused calls answer a
  `ContractError` and leave the state unchanged.
  - `collections.rs`: insertion-ordered string maps and sets. They stand in
    for near-sdk's storage-backed maps and sets, whose methods need Borsh
    bounds on keys and values and read and write chain storage; app/ keeps
    the state in storage instead.
  - `project.rs`: projects, the vesting schedule, and the read-only calls.
  - `actions_of_project.rs`, `actions_of_reward.rs`,
    `actions_of_supporters.rs`: the calls that change the state.
  - `consistency.rs`: a run-time check of the state's invariant.
  - `laws.rs`: properties that span calls (once a claim's transfer is
    recorded it cannot be claimed again; a zero balance stays zero and draws
    nothing; a vote counts once; vesting never decreases over time and stays
    within the funds; donations add to the funds and to the sum of balances).
- `app/` binds the library to the chain with `near-sdk`: it reads the call's
  context, stores the state, panics with the refusal's message, and makes
  the transfers that `claim_reward` and `drawdown` answer.
