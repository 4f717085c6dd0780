//! How supporters stop a project by majority vote, and take back their
//! share of what has not vested.
use vstd::prelude::*;

use crate::actions_of_project::lemma_supporters_of;
use crate::actions_of_reward::lemma_replace_metadata_wf;
use crate::laws::law_votes_within_supporters;
use crate::collections::{
    has_key, key_index, keys_unique, lemma_key_index, lemma_put, lemma_put_entries, lemma_set_add,
    lookup, put, set_add, IdSet, StrMap,
};
use crate::constants::{Balance, ProjectId};
use crate::project::{claimable_of, ProjectMetadata};
use crate::{
    contract_wf, force_stopped, supporters_of, votes_of, CallContext, Contract, ContractError,
    ContractView,
};

verus! {

/// The state once `voter`'s vote to stop `pid` is counted.
pub open spec fn after_vote(s: ContractView, pid: Seq<char>, voter: Seq<char>) -> ContractView {
    ContractView {
        force_stop_project: put(s.force_stop_project, pid, set_add(votes_of(s, pid), voter)),
        ..s
    }
}

/// The answer to `force_stop`: the project must not be stopped already, it
/// must have supporters, and the caller must be one of them.
pub open spec fn force_stop_outcome(s: ContractView, pid: Seq<char>, ctx: CallContext) -> Result<
    (),
    ContractError,
> {
    let voter = ctx.predecessor_account_id@;
    if force_stopped(s, pid) {
        Err(ContractError::AlreadyForceStopped)
    } else if !has_key(s.supporters_per_project, pid) {
        Err(ContractError::ProjectNotFound)
    } else if !has_key(supporters_of(s, pid), voter) {
        Err(ContractError::NotASupporter)
    } else if force_stopped(after_vote(s, pid, voter), pid) && !has_key(s.project_metadata, pid) {
        Err(ContractError::ProjectNotFound)
    } else {
        Ok(())
    }
}

/// The state after `force_stop`: the caller's vote is counted, and when the
/// votes now make a majority the project records the time it stopped.
pub open spec fn force_stop_post(s: ContractView, pid: Seq<char>, ctx: CallContext) -> ContractView {
    match force_stop_outcome(s, pid, ctx) {
        Err(_) => s,
        Ok(_) => {
            let v = after_vote(s, pid, ctx.predecessor_account_id@);
            if force_stopped(v, pid) {
                match lookup(s.project_metadata, pid) {
                    Some(m) => ContractView {
                        project_metadata: put(
                            s.project_metadata,
                            pid,
                            ProjectMetadata { force_stop_ts: Some(ctx.block_timestamp), ..m },
                        ),
                        ..v
                    },
                    None => v,
                }
            } else {
                v
            }
        },
    }
}

/// The answer to `drawdown`: from a stopped project, a supporter with a
/// balance gets the share of the funds that are neither paid out nor
/// claimable, in proportion `balance / funded` in whole units; the answer is
/// that amount, which goes to the caller.
pub open spec fn drawdown_outcome(s: ContractView, pid: Seq<char>, ctx: CallContext) -> Result<
    Balance,
    ContractError,
> {
    if !force_stopped(s, pid) {
        Err(ContractError::ProjectRunning)
    } else {
        match lookup(s.project_metadata, pid) {
            None => Err(ContractError::ProjectNotFound),
            Some(m) => if m.funded < m.claimed {
                Err(ContractError::Overflow)
            } else {
                match claimable_of(s, pid, ctx.block_timestamp) {
                    Err(e) => Err(e),
                    Ok(c) => if m.funded - m.claimed < c {
                        Err(ContractError::Overflow)
                    } else if !has_key(s.supporters_per_project, pid) {
                        Err(ContractError::ProjectNotFound)
                    } else {
                        match lookup(supporters_of(s, pid), ctx.predecessor_account_id@) {
                            None => Err(ContractError::NotASupporter),
                            Some(invested) => if invested == 0 {
                                Err(ContractError::ZeroInvestment)
                            } else if m.funded == 0 {
                                Err(ContractError::DivisionByZero)
                            } else if (invested / m.funded) * (m.funded - m.claimed - c)
                                > u128::MAX {
                                Err(ContractError::Overflow)
                            } else {
                                Ok(((invested / m.funded) * (m.funded - m.claimed - c)) as u128)
                            },
                        }
                    },
                }
            },
        }
    }
}

/// The state after `drawdown`: the caller's balance in the project is zero.
pub open spec fn drawdown_post(s: ContractView, pid: Seq<char>, ctx: CallContext) -> ContractView {
    match drawdown_outcome(s, pid, ctx) {
        Err(_) => s,
        Ok(_) => ContractView {
            supporters_per_project: put(
                s.supporters_per_project,
                pid,
                put(supporters_of(s, pid), ctx.predecessor_account_id@, 0u128),
            ),
            ..s
        },
    }
}

/// The votes on a project, as stored, list nobody twice and are all cast
/// by its supporters.
pub proof fn lemma_votes_of(s: ContractView, pid: Seq<char>)
    requires
        contract_wf(s),
    ensures
        votes_of(s, pid).no_duplicates(),
        forall|j: int|
            0 <= j < votes_of(s, pid).len() ==> has_key(
                supporters_of(s, pid),
                #[trigger] votes_of(s, pid)[j],
            ),
        has_key(s.force_stop_project, pid) ==> has_key(s.supporters_per_project, pid),
        has_key(s.force_stop_project, pid) ==> votes_of(s, pid) == s.force_stop_project[key_index(
            s.force_stop_project,
            pid,
        )].1,
{
    if has_key(s.force_stop_project, pid) {
        let i = key_index(s.force_stop_project, pid);
        assert(s.force_stop_project[i].0 == pid);
        assert forall|j: int| 0 <= j < votes_of(s, pid).len() implies has_key(
            supporters_of(s, pid),
            #[trigger] votes_of(s, pid)[j],
        ) by {
            assert(s.force_stop_project[i].1[j] == votes_of(s, pid)[j]);
        }
    }
}

/// Counting a supporter's vote keeps the invariant.
proof fn lemma_after_vote_wf(s: ContractView, pid: Seq<char>, voter: Seq<char>)
    requires
        contract_wf(s),
        has_key(supporters_of(s, pid), voter),
        has_key(s.supporters_per_project, pid),
    ensures
        contract_wf(after_vote(s, pid, voter)),
        supporters_of(after_vote(s, pid, voter), pid) == supporters_of(s, pid),
        votes_of(after_vote(s, pid, voter), pid) == set_add(votes_of(s, pid), voter),
{
    let t = after_vote(s, pid, voter);
    let votes = set_add(votes_of(s, pid), voter);
    lemma_votes_of(s, pid);
    lemma_set_add(votes_of(s, pid), voter);
    lemma_put(s.force_stop_project, pid, votes);
    lemma_put_entries(s.force_stop_project, pid, votes);
    assert forall|i: int| 0 <= i < t.force_stop_project.len() implies (
    #[trigger] t.force_stop_project[i]).1.no_duplicates() by {
        if t.force_stop_project[i] != (pid, votes) {
            assert(t.force_stop_project[i] == s.force_stop_project[i]);
        }
    }
    assert forall|i: int| 0 <= i < t.force_stop_project.len() implies has_key(
        t.supporters_per_project,
        (#[trigger] t.force_stop_project[i]).0,
    ) by {
        if t.force_stop_project[i] != (pid, votes) {
            assert(t.force_stop_project[i] == s.force_stop_project[i]);
        }
    }
    assert forall|i: int, j: int|
        0 <= i < t.force_stop_project.len() && 0 <= j < t.force_stop_project[i].1.len() implies has_key(
        supporters_of(t, t.force_stop_project[i].0),
        #[trigger] t.force_stop_project[i].1[j],
    ) by {
        if t.force_stop_project[i] == (pid, votes) {
            if votes[j] != voter {
                assert(votes[j] == votes_of(s, pid)[j]);
            }
        } else {
            assert(t.force_stop_project[i] == s.force_stop_project[i]);
        }
    }
}

/// `force_stop` keeps the invariant.
proof fn lemma_force_stop_wf(s: ContractView, pid: Seq<char>, ctx: CallContext)
    requires
        contract_wf(s),
    ensures
        contract_wf(force_stop_post(s, pid, ctx)),
{
    if force_stop_outcome(s, pid, ctx) is Ok {
        let voter = ctx.predecessor_account_id@;
        lemma_after_vote_wf(s, pid, voter);
        let v = after_vote(s, pid, voter);
        if force_stopped(v, pid) {
            let m = lookup(s.project_metadata, pid).unwrap();
            lemma_replace_metadata_wf(
                v,
                pid,
                ProjectMetadata { force_stop_ts: Some(ctx.block_timestamp), ..m },
            );
        }
    }
}

/// Setting a supporter's balance keeps the invariant.
proof fn lemma_set_balance_wf(s: ContractView, pid: Seq<char>, who: Seq<char>, b: Balance)
    requires
        contract_wf(s),
        has_key(s.supporters_per_project, pid),
        has_key(supporters_of(s, pid), who),
    ensures
        contract_wf(
            ContractView {
                supporters_per_project: put(
                    s.supporters_per_project,
                    pid,
                    put(supporters_of(s, pid), who, b),
                ),
                ..s
            },
        ),
{
    let sup = supporters_of(s, pid);
    let t = ContractView {
        supporters_per_project: put(s.supporters_per_project, pid, put(sup, who, b)),
        ..s
    };
    lemma_supporters_of(s, pid);
    lemma_put(sup, who, b);
    lemma_put(s.supporters_per_project, pid, put(sup, who, b));
    lemma_put_entries(s.supporters_per_project, pid, put(sup, who, b));
    assert forall|i: int| 0 <= i < t.supporters_per_project.len() implies keys_unique(
        (#[trigger] t.supporters_per_project[i]).1,
    ) by {
        if t.supporters_per_project[i] != (pid, put(sup, who, b)) {
            assert(t.supporters_per_project[i] == s.supporters_per_project[i]);
        }
    }
    assert forall|i: int| 0 <= i < t.force_stop_project.len() implies has_key(
        t.supporters_per_project,
        (#[trigger] t.force_stop_project[i]).0,
    ) by {
        assert(has_key(s.supporters_per_project, s.force_stop_project[i].0));
    }
    assert forall|i: int, j: int|
        0 <= i < t.force_stop_project.len() && 0 <= j < t.force_stop_project[i].1.len() implies has_key(
        supporters_of(t, t.force_stop_project[i].0),
        #[trigger] t.force_stop_project[i].1[j],
    ) by {
        let k = t.force_stop_project[i].0;
        let x = t.force_stop_project[i].1[j];
        assert(has_key(supporters_of(s, k), x));
        if k == pid {
            if x != who {
                assert(lookup(put(sup, who, b), x) == lookup(sup, x));
                assert(has_key(put(sup, who, b), x) == has_key(sup, x));
            }
        } else {
            assert(lookup(t.supporters_per_project, k) == lookup(s.supporters_per_project, k));
        }
    }
}

impl Contract {
    /// Counts the caller's vote to stop `project_id`. When the votes then
    /// outnumber half the supporters, the project is stopped as of now.
    pub fn force_stop(&mut self, project_id: ProjectId, ctx: &CallContext) -> (r: Result<
        (),
        ContractError,
    >)
        requires
            old(self).wf(),
        ensures
            r == force_stop_outcome(old(self)@, project_id@, *ctx),
            final(self)@ == force_stop_post(old(self)@, project_id@, *ctx),
            final(self).wf(),
    {
        let ghost s = self@;
        let ghost voter = ctx.predecessor_account_id@;
        proof {
            lemma_force_stop_wf(s, project_id@, *ctx);
            lemma_votes_of(s, project_id@);
            lemma_supporters_of(s, project_id@);
        }
        if self.force_stopped_ref(&project_id) {
            return Err(ContractError::AlreadyForceStopped);
        }
        let sup_idx = match self.supporters_per_project.find(&project_id) {
            Some(i) => i,
            None => {
                return Err(ContractError::ProjectNotFound);
            },
        };
        let supporters = self.supporters_per_project.value_at(sup_idx);
        assert(supporters@ == supporters_of(s, project_id@));
        if supporters.find(&ctx.predecessor_account_id).is_none() {
            return Err(ContractError::NotASupporter);
        }
        let supporters_len = supporters.len();
        proof {
            lemma_after_vote_wf(s, project_id@, voter);
            lemma_set_add(votes_of(s, project_id@), voter);
        }
        let vote_idx = self.force_stop_project.find(&project_id);
        let votes_after: usize = match vote_idx {
            Some(i) => {
                let votes = self.force_stop_project.value_at(i);
                assert(votes@ == votes_of(s, project_id@));
                if votes.contains(&ctx.predecessor_account_id) {
                    votes.len()
                } else {
                    assert(votes@.len() < usize::MAX) by {
                        assert(votes@.no_duplicates());
                        assert(votes@.len() <= supporters_of(s, project_id@).len()) by {
                            law_votes_within_supporters(s, project_id@);
                        }
                    }
                    votes.len() + 1
                }
            },
            None => {
                assert(votes_of(s, project_id@) =~= Seq::<Seq<char>>::empty());
                1
            },
        };
        let stops = votes_after > supporters_len / 2;
        assert(stops == force_stopped(after_vote(s, project_id@, voter), project_id@));
        let meta_idx = self.project_metadata.find(&project_id);
        if stops && meta_idx.is_none() {
            return Err(ContractError::ProjectNotFound);
        }
        match vote_idx {
            Some(i) => {
                let mut votes = self.force_stop_project.replace_value(i, IdSet::new());
                votes.insert(ctx.predecessor_account_id.clone());
                self.force_stop_project.replace_value(i, votes);
                assert(self@.force_stop_project =~= put(
                    s.force_stop_project,
                    project_id@,
                    set_add(votes_of(s, project_id@), voter),
                ));
            },
            None => {
                let mut votes = IdSet::new();
                votes.insert(ctx.predecessor_account_id.clone());
                assert(votes@ =~= set_add(votes_of(s, project_id@), voter));
                self.force_stop_project.insert(project_id.clone(), votes);
            },
        }
        assert(self@ =~= after_vote(s, project_id@, voter));
        if stops {
            if let Some(j) = meta_idx {
                proof {
                    lemma_key_index(s.project_metadata, project_id@, j as int);
                }
                let mut metadata = self.project_metadata.value_at(j).copied();
                metadata.force_stop_ts = Some(ctx.block_timestamp);
                self.project_metadata.insert(project_id, metadata);
            }
        }
        assert(self@ =~= force_stop_post(s, project_id@, *ctx));
        Ok(())
    }

    /// Pays the caller back, from a stopped project, its share of the funds
    /// that are neither paid out nor claimable, and sets its balance in the
    /// project to zero. Answers the amount, which goes to the caller.
    pub fn drawdown(&mut self, project_id: ProjectId, ctx: &CallContext) -> (r: Result<
        Balance,
        ContractError,
    >)
        requires
            old(self).wf(),
        ensures
            r == drawdown_outcome(old(self)@, project_id@, *ctx),
            final(self)@ == drawdown_post(old(self)@, project_id@, *ctx),
            final(self).wf(),
    {
        let ghost s = self@;
        let ghost caller = ctx.predecessor_account_id@;
        proof {
            lemma_supporters_of(s, project_id@);
        }
        if !self.force_stopped_ref(&project_id) {
            return Err(ContractError::ProjectRunning);
        }
        let (funded, claimed) = match self.project_metadata.get(&project_id) {
            None => {
                return Err(ContractError::ProjectNotFound);
            },
            Some(m) => (m.funded, m.claimed),
        };
        if funded < claimed {
            return Err(ContractError::Overflow);
        }
        let claimable = match self.claimable_ref(&project_id, ctx.block_timestamp) {
            Ok(c) => c,
            Err(e) => {
                return Err(e);
            },
        };
        if funded - claimed < claimable {
            return Err(ContractError::Overflow);
        }
        let remaining_fund: Balance = funded - claimed - claimable;
        let sup_idx = match self.supporters_per_project.find(&project_id) {
            Some(i) => i,
            None => {
                return Err(ContractError::ProjectNotFound);
            },
        };
        let my_invest: u128 = match self.supporters_per_project.value_at(sup_idx).get(
            &ctx.predecessor_account_id,
        ) {
            Some(b) => *b,
            None => {
                return Err(ContractError::NotASupporter);
            },
        };
        if my_invest == 0 {
            return Err(ContractError::ZeroInvestment);
        }
        if funded == 0 {
            return Err(ContractError::DivisionByZero);
        }
        let amount = match (my_invest / funded).checked_mul(remaining_fund) {
            Some(a) => a,
            None => {
                return Err(ContractError::Overflow);
            },
        };
        proof {
            lemma_set_balance_wf(s, project_id@, caller, 0u128);
        }
        let mut supporters = self.supporters_per_project.replace_value(sup_idx, StrMap::new());
        supporters.insert(ctx.predecessor_account_id.clone(), 0);
        self.supporters_per_project.replace_value(sup_idx, supporters);
        assert(self@ =~= drawdown_post(s, project_id@, *ctx));
        Ok(amount)
    }
}

} // verus!
