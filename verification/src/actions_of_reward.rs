//! Claiming vested funds, and settling a claim once its transfer is done.
use vstd::prelude::*;

use crate::collections::{has_key, lemma_key_index, lemma_put, lemma_put_entries, lookup, put};
use crate::constants::{Balance, ProjectId};
use crate::project::{claimable_of, ProjectMetadata};
use crate::{contract_wf, force_stopped, CallContext, Contract, ContractError, ContractView};

verus! {

/// The callback through which the contract learns how a reward transfer
/// ended.
pub trait ExtProjectReward {
    fn on_reward_transfer(&mut self, project_id: ProjectId, amount: Balance) -> bool;
}

/// The answer to `claim_reward` at time `now`: the project must exist and
/// not be stopped, and something must be claimable; the answer is the
/// claimable amount, which goes to the caller.
pub open spec fn claim_outcome(s: ContractView, pid: Seq<char>, now: u64) -> Result<
    Balance,
    ContractError,
> {
    if !has_key(s.project, pid) {
        Err(ContractError::UnknownProject)
    } else if force_stopped(s, pid) {
        match lookup(s.project_metadata, pid) {
            None => Err(ContractError::ProjectNotFound),
            Some(m) => match m.force_stop_ts {
                None => Err(ContractError::MissingValue),
                Some(_) => Err(ContractError::ForcedStop),
            },
        }
    } else {
        match claimable_of(s, pid, now) {
            Err(e) => Err(e),
            Ok(a) => if a > 0 {
                Ok(a)
            } else {
                Err(ContractError::NothingToClaim)
            },
        }
    }
}

/// The answer to `on_reward_transfer`: `true` when the transfer succeeded
/// and was recorded, `false` when it failed.
pub open spec fn reward_transfer_outcome(
    s: ContractView,
    pid: Seq<char>,
    amount: Balance,
    transfer_succeeded: bool,
) -> Result<bool, ContractError> {
    if !transfer_succeeded {
        Ok(false)
    } else {
        match lookup(s.project_metadata, pid) {
            None => Err(ContractError::MissingValue),
            Some(m) => if m.claimed + amount > u128::MAX {
                Err(ContractError::Overflow)
            } else {
                Ok(true)
            },
        }
    }
}

/// The state after `on_reward_transfer`: a successful transfer adds its
/// amount to what the project has paid out.
pub open spec fn reward_transfer_post(
    s: ContractView,
    pid: Seq<char>,
    amount: Balance,
    transfer_succeeded: bool,
) -> ContractView {
    match reward_transfer_outcome(s, pid, amount, transfer_succeeded) {
        Ok(true) => match lookup(s.project_metadata, pid) {
            Some(m) => ContractView {
                project_metadata: put(
                    s.project_metadata,
                    pid,
                    ProjectMetadata { claimed: (m.claimed + amount) as u128, ..m },
                ),
                ..s
            },
            None => s,
        },
        _ => s,
    }
}

/// Replacing the metadata of an existing project keeps the invariant.
pub proof fn lemma_replace_metadata_wf(s: ContractView, pid: Seq<char>, m: ProjectMetadata)
    requires
        contract_wf(s),
        has_key(s.project_metadata, pid),
    ensures
        contract_wf(ContractView { project_metadata: put(s.project_metadata, pid, m), ..s }),
        forall|k: Seq<char>|
            #[trigger] has_key(put(s.project_metadata, pid, m), k) == has_key(s.project_metadata, k),
{
    let t = ContractView { project_metadata: put(s.project_metadata, pid, m), ..s };
    lemma_put(s.project_metadata, pid, m);
    lemma_put_entries(s.project_metadata, pid, m);
    assert forall|k: Seq<char>|
        #[trigger] has_key(put(s.project_metadata, pid, m), k) == has_key(s.project_metadata, k) by {
        if k != pid {
            assert(has_key(t.project_metadata, k) == has_key(s.project_metadata, k));
        }
    }
    assert forall|k: Seq<char>|
        #![trigger has_key(t.project, k)]
        #![trigger has_key(t.project_metadata, k)]
        has_key(t.project, k) <==> has_key(t.project_metadata, k) by {
        assert(has_key(t.project_metadata, k) == has_key(s.project_metadata, k));
    }
    assert forall|i: int, j: int|
        0 <= i < t.project_per_owner.len() && 0 <= j < t.project_per_owner[i].1.len() implies has_key(
        t.project_metadata,
        #[trigger] t.project_per_owner[i].1[j],
    ) by {
        let k = s.project_per_owner[i].1[j];
        assert(has_key(s.project_metadata, k));
        assert(has_key(t.project_metadata, k) == has_key(s.project_metadata, k));
    }
}

/// `on_reward_transfer` keeps the invariant.
proof fn lemma_reward_transfer_wf(s: ContractView, pid: Seq<char>, amount: Balance, ok: bool)
    requires
        contract_wf(s),
    ensures
        contract_wf(reward_transfer_post(s, pid, amount, ok)),
{
    if reward_transfer_outcome(s, pid, amount, ok) == Ok::<bool, ContractError>(true) {
        let m = lookup(s.project_metadata, pid).unwrap();
        lemma_replace_metadata_wf(
            s,
            pid,
            ProjectMetadata { claimed: (m.claimed + amount) as u128, ..m },
        );
    }
}

impl Contract {
    /// Answers what can be claimed from `project_id` now; that amount
    /// goes to the caller, and `on_reward_transfer` records it once the
    /// transfer is done. The state does not change.
    pub fn claim_reward(&mut self, project_id: ProjectId, ctx: &CallContext) -> (r: Result<
        Balance,
        ContractError,
    >)
        requires
            old(self).wf(),
        ensures
            r == claim_outcome(old(self)@, project_id@, ctx.block_timestamp),
            final(self)@ == old(self)@,
            final(self).wf(),
    {
        if self.project.find(&project_id).is_none() {
            return Err(ContractError::UnknownProject);
        }
        if self.force_stopped_ref(&project_id) {
            match self.project_metadata.get(&project_id) {
                None => {
                    return Err(ContractError::ProjectNotFound);
                },
                Some(m) => {
                    if m.force_stop_ts.is_none() {
                        return Err(ContractError::MissingValue);
                    }
                    return Err(ContractError::ForcedStop);
                },
            }
        }
        let amount = match self.claimable_ref(&project_id, ctx.block_timestamp) {
            Ok(a) => a,
            Err(e) => {
                return Err(e);
            },
        };
        if amount == 0 {
            return Err(ContractError::NothingToClaim);
        }
        Ok(amount)
    }

    /// Records the outcome of the transfer of `amount` claimed from
    /// `project_id`: a successful transfer adds to what the project has paid
    /// out, and the answer tells whether it succeeded.
    pub fn on_reward_transfer(
        &mut self,
        project_id: ProjectId,
        amount: Balance,
        transfer_succeeded: bool,
    ) -> (r: Result<bool, ContractError>)
        requires
            old(self).wf(),
        ensures
            r == reward_transfer_outcome(old(self)@, project_id@, amount, transfer_succeeded),
            final(self)@ == reward_transfer_post(old(self)@, project_id@, amount, transfer_succeeded),
            final(self).wf(),
    {
        let ghost s = self@;
        proof {
            lemma_reward_transfer_wf(s, project_id@, amount, transfer_succeeded);
        }
        if !transfer_succeeded {
            return Ok(false);
        }
        let idx = match self.project_metadata.find(&project_id) {
            Some(i) => i,
            None => {
                return Err(ContractError::MissingValue);
            },
        };
        proof {
            lemma_key_index(s.project_metadata, project_id@, idx as int);
        }
        let m = self.project_metadata.value_at(idx);
        let claimed = match m.claimed.checked_add(amount) {
            Some(c) => c,
            None => {
                return Err(ContractError::Overflow);
            },
        };
        let mut metadata = m.copied();
        metadata.claimed = claimed;
        self.project_metadata.insert(project_id, metadata);
        assert(self@ =~= reward_transfer_post(s, project_id@, amount, transfer_succeeded));
        Ok(true)
    }
}

} // verus!
