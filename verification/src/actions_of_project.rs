//! Creating a project and supporting it.
use vstd::prelude::*;

use crate::collections::{
    has_key, key_index, keys_unique, lemma_key_index, lemma_put, lemma_put_entries, lemma_set_add,
    lookup, put, set_add, IdSet, StrMap,
};
use crate::constants::{Balance, ProjectId, MAX_TITLE_LENGTH, NEAR_DECIMAL};
use crate::project::{Project, ProjectMetadata};
use crate::utils::{
    gen_proj_id, lemma_named_after_unique, lemma_project_id_named_after, named_after,
    project_id_for,
};
use crate::{
    contract_wf, owner_of, projects_of, supporters_of, CallContext, Contract, ContractError, ContractView,
};

verus! {

/// The length of `s` in bytes, as `str::len` gives it for a string whose
/// characters are `s`.
pub open spec fn byte_len(s: Seq<char>) -> usize {
    vstd::utf8::encode_utf8(s).len() as usize
}

/// `m` as a new project records it: nothing funded, nothing claimed.
pub open spec fn with_fresh_funding(m: ProjectMetadata) -> ProjectMetadata {
    ProjectMetadata { funded: 0, claimed: 0, ..m }
}

/// The answer to `new_project`: the creation fee must be exactly one NEAR,
/// the title at most `MAX_TITLE_LENGTH` bytes, and the funding period must
/// end after now; the project is then named after its creator and block.
pub open spec fn new_project_outcome(m: ProjectMetadata, ctx: CallContext) -> Result<
    Seq<char>,
    ContractError,
> {
    if ctx.attached_deposit != NEAR_DECIMAL {
        Err(ContractError::WrongCreationDeposit)
    } else if byte_len(m.title@) > MAX_TITLE_LENGTH {
        Err(ContractError::TitleTooLong)
    } else if m.ended_at <= ctx.block_timestamp {
        Err(ContractError::InvalidEndTime)
    } else {
        Ok(project_id_for(ctx.predecessor_account_id@, ctx.block_index))
    }
}

/// The state after `new_project`: the project with its owner and fresh
/// metadata, listed under its owner.
pub open spec fn new_project_post(s: ContractView, m: ProjectMetadata, ctx: CallContext) -> ContractView {
    match new_project_outcome(m, ctx) {
        Err(_) => s,
        Ok(id) => {
            let owner = ctx.predecessor_account_id@;
            ContractView {
                project: put(s.project, id, Project { owner_id: ctx.predecessor_account_id }),
                project_metadata: put(s.project_metadata, id, with_fresh_funding(m)),
                project_per_owner: put(s.project_per_owner, owner, set_add(projects_of(s, owner), id)),
                ..s
            }
        },
    }
}

/// The balance of `account` in project `pid` (zero when it never supported it).
pub open spec fn balance_of(s: ContractView, pid: Seq<char>, account: Seq<char>) -> Balance {
    match lookup(supporters_of(s, pid), account) {
        Some(b) => b,
        None => 0,
    }
}

/// The answer to `support_project`: the project must exist, the deposit
/// reach its minimum, and its funding period not have ended; the answer is
/// the caller's new balance.
pub open spec fn support_outcome(s: ContractView, pid: Seq<char>, ctx: CallContext) -> Result<
    Balance,
    ContractError,
> {
    match lookup(s.project_metadata, pid) {
        None => Err(ContractError::ProjectDoesNotExist),
        Some(m) => if ctx.attached_deposit < m.minimum_deposit {
            Err(ContractError::DepositBelowMinimum { minimum: m.minimum_deposit })
        } else if m.ended_at < ctx.block_timestamp {
            Err(ContractError::DonationEnded)
        } else if m.funded + ctx.attached_deposit > u128::MAX {
            Err(ContractError::Overflow)
        } else if balance_of(s, pid, ctx.predecessor_account_id@) + ctx.attached_deposit
            > u128::MAX {
            Err(ContractError::Overflow)
        } else {
            Ok((balance_of(s, pid, ctx.predecessor_account_id@) + ctx.attached_deposit) as u128)
        },
    }
}

/// The state after `support_project`: the deposit is added to the project's
/// funds and to the caller's balance.
pub open spec fn support_post(s: ContractView, pid: Seq<char>, ctx: CallContext) -> ContractView {
    match support_outcome(s, pid, ctx) {
        Err(_) => s,
        Ok(b) => match lookup(s.project_metadata, pid) {
            Some(m) => ContractView {
                project_metadata: put(
                    s.project_metadata,
                    pid,
                    ProjectMetadata { funded: (m.funded + ctx.attached_deposit) as u128, ..m },
                ),
                supporters_per_project: put(
                    s.supporters_per_project,
                    pid,
                    put(supporters_of(s, pid), ctx.predecessor_account_id@, b),
                ),
                ..s
            },
            None => s,
        },
    }
}

/// The list of projects under `owner`, as stored, is free of duplicates.
proof fn lemma_projects_of(s: ContractView, owner: Seq<char>)
    requires
        contract_wf(s),
    ensures
        projects_of(s, owner).no_duplicates(),
        forall|j: int|
            0 <= j < projects_of(s, owner).len() ==> has_key(
                s.project_metadata,
                #[trigger] projects_of(s, owner)[j],
            ),
        forall|j: int|
            0 <= j < projects_of(s, owner).len() ==> owner_of(s, #[trigger] projects_of(s, owner)[j])
                == Some(owner),
{
    if has_key(s.project_per_owner, owner) {
        let i = key_index(s.project_per_owner, owner);
        assert(s.project_per_owner[i].0 == owner);
        assert(s.project_per_owner[i].1 == projects_of(s, owner));
        assert forall|j: int| 0 <= j < projects_of(s, owner).len() implies has_key(
            s.project_metadata,
            #[trigger] projects_of(s, owner)[j],
        ) && owner_of(s, projects_of(s, owner)[j]) == Some(owner) by {
            assert(s.project_per_owner[i].1[j] == projects_of(s, owner)[j]);
        }
    }
}

/// The balances of a project's supporters, as stored, list nobody twice.
pub proof fn lemma_supporters_of(s: ContractView, pid: Seq<char>)
    requires
        contract_wf(s),
    ensures
        keys_unique(supporters_of(s, pid)),
        has_key(s.supporters_per_project, pid) ==> supporters_of(s, pid)
            == s.supporters_per_project[key_index(s.supporters_per_project, pid)].1,
{
    if has_key(s.supporters_per_project, pid) {
        let i = key_index(s.supporters_per_project, pid);
        assert(s.supporters_per_project[i].0 == pid);
    }
}

/// `new_project` keeps the invariant.
proof fn lemma_new_project_wf(s: ContractView, m: ProjectMetadata, ctx: CallContext)
    requires
        contract_wf(s),
    ensures
        contract_wf(new_project_post(s, m, ctx)),
{
    if let Ok(id) = new_project_outcome(m, ctx) {
        let t = new_project_post(s, m, ctx);
        let owner = ctx.predecessor_account_id@;
        let ids = projects_of(s, owner);
        lemma_projects_of(s, owner);
        lemma_set_add(ids, id);
        lemma_put(s.project, id, Project { owner_id: ctx.predecessor_account_id });
        lemma_put(s.project_metadata, id, with_fresh_funding(m));
        lemma_put(s.project_per_owner, owner, set_add(ids, id));
        lemma_put_entries(s.project_metadata, id, with_fresh_funding(m));
        lemma_put_entries(s.project_per_owner, owner, set_add(ids, id));
        assert forall|i: int| 0 <= i < t.project_per_owner.len() implies (
        #[trigger] t.project_per_owner[i]).1.no_duplicates() by {
            if t.project_per_owner[i] != (owner, set_add(ids, id)) {
                assert(t.project_per_owner[i] == s.project_per_owner[i]);
            }
        }
        assert forall|k: Seq<char>|
            #![trigger has_key(t.project, k)]
            #![trigger has_key(t.project_metadata, k)]
            has_key(t.project, k) <==> has_key(t.project_metadata, k) by {
            if k != id {
                assert(has_key(t.project, k) == has_key(s.project, k));
                assert(has_key(t.project_metadata, k) == has_key(s.project_metadata, k));
            }
        }
        assert forall|i: int, j: int|
            0 <= i < t.project_per_owner.len() && 0 <= j < t.project_per_owner[i].1.len() implies has_key(
            t.project_metadata,
            #[trigger] t.project_per_owner[i].1[j],
        ) by {
            if t.project_per_owner[i] == (owner, set_add(ids, id)) {
                if set_add(ids, id)[j] != id {
                    assert(set_add(ids, id)[j] == ids[j]);
                    assert(has_key(s.project_metadata, ids[j]));
                }
            } else {
                assert(t.project_per_owner[i] == s.project_per_owner[i]);
                assert(has_key(s.project_metadata, s.project_per_owner[i].1[j]));
            }
        }
        let p = Project { owner_id: ctx.predecessor_account_id };
        lemma_put_entries(s.project, id, p);
        lemma_project_id_named_after(owner, ctx.block_index);
        assert(owner_of(t, id) == Some(owner));
        assert forall|i: int| 0 <= i < t.project.len() implies named_after(
            (#[trigger] t.project[i]).0,
            t.project[i].1.owner_id@,
        ) by {
            if t.project[i] != (id, p) {
                assert(t.project[i] == s.project[i]);
            }
        }
        assert forall|i: int| 0 <= i < t.project.len() implies projects_of(
            t,
            (#[trigger] t.project[i]).1.owner_id@,
        ).contains(t.project[i].0) by {
            if t.project[i] != (id, p) {
                let k = s.project[i].0;
                let b = s.project[i].1.owner_id@;
                assert(t.project[i] == s.project[i]);
                assert(projects_of(s, b).contains(k));
                if b == owner {
                    let w = choose|w: int| 0 <= w < ids.len() && ids[w] == k;
                    assert(set_add(ids, id)[w] == k);
                } else {
                    assert(lookup(t.project_per_owner, b) == lookup(s.project_per_owner, b));
                }
            } else {
                assert(set_add(ids, id).contains(id));
            }
        }
        assert forall|i: int, j: int|
            0 <= i < t.project_per_owner.len() && 0 <= j < t.project_per_owner[i].1.len() implies owner_of(
            t,
            #[trigger] t.project_per_owner[i].1[j],
        ) == Some(t.project_per_owner[i].0) by {
            let x = t.project_per_owner[i].1[j];
            if x != id {
                assert(lookup(t.project, x) == lookup(s.project, x));
                if t.project_per_owner[i] == (owner, set_add(ids, id)) {
                    assert(set_add(ids, id)[j] == ids[j]);
                } else {
                    assert(t.project_per_owner[i] == s.project_per_owner[i]);
                }
            } else if t.project_per_owner[i] != (owner, set_add(ids, id)) {
                let b = s.project_per_owner[i].0;
                assert(t.project_per_owner[i] == s.project_per_owner[i]);
                assert(owner_of(s, id) == Some(b));
                let k = key_index(s.project, id);
                assert(s.project[k].0 == id);
                lemma_key_index(s.project, id, k);
                assert(named_after(id, b));
                lemma_named_after_unique(id, b, owner);
            }
        }
    }
}

/// `support_project` keeps the invariant.
proof fn lemma_support_wf(s: ContractView, pid: Seq<char>, ctx: CallContext)
    requires
        contract_wf(s),
    ensures
        contract_wf(support_post(s, pid, ctx)),
{
    if let Ok(b) = support_outcome(s, pid, ctx) {
        let m = lookup(s.project_metadata, pid).unwrap();
        let t = support_post(s, pid, ctx);
        let caller = ctx.predecessor_account_id@;
        let sup = supporters_of(s, pid);
        let m2 = ProjectMetadata { funded: (m.funded + ctx.attached_deposit) as u128, ..m };
        lemma_supporters_of(s, pid);
        lemma_put(sup, caller, b);
        lemma_put_entries(sup, caller, b);
        lemma_put(s.project_metadata, pid, m2);
        lemma_put(s.supporters_per_project, pid, put(sup, caller, b));
        lemma_put_entries(s.supporters_per_project, pid, put(sup, caller, b));
        assert(has_key(s.project_metadata, pid));
        assert forall|i: int| 0 <= i < t.supporters_per_project.len() implies keys_unique(
            (#[trigger] t.supporters_per_project[i]).1,
        ) by {
            if t.supporters_per_project[i] != (pid, put(sup, caller, b)) {
                assert(t.supporters_per_project[i] == s.supporters_per_project[i]);
            }
        }
        assert forall|k: Seq<char>|
            #![trigger has_key(t.project, k)]
            #![trigger has_key(t.project_metadata, k)]
            has_key(t.project, k) <==> has_key(t.project_metadata, k) by {
            if k != pid {
                assert(has_key(t.project_metadata, k) == has_key(s.project_metadata, k));
            }
        }
        assert forall|i: int| 0 <= i < t.force_stop_project.len() implies has_key(
            t.supporters_per_project,
            (#[trigger] t.force_stop_project[i]).0,
        ) by {
            assert(has_key(s.supporters_per_project, s.force_stop_project[i].0));
        }
        assert forall|i: int, j: int|
            0 <= i < t.force_stop_project.len() && 0 <= j < t.force_stop_project[i].1.len() implies has_key(
            supporters_of(t, t.force_stop_project[i].0),
            #[trigger] t.force_stop_project[i].1[j],
        ) by {
            let k = t.force_stop_project[i].0;
            let voter = t.force_stop_project[i].1[j];
            assert(has_key(supporters_of(s, k), voter));
            if k == pid {
                assert(supporters_of(t, k) == put(sup, caller, b));
                if voter != caller {
                    assert(has_key(put(sup, caller, b), voter) == has_key(sup, voter));
                }
            } else {
                assert(lookup(t.supporters_per_project, k) == lookup(s.supporters_per_project, k));
            }
        }
        assert forall|i: int, j: int|
            0 <= i < t.project_per_owner.len() && 0 <= j < t.project_per_owner[i].1.len() implies has_key(
            t.project_metadata,
            #[trigger] t.project_per_owner[i].1[j],
        ) by {
            let k = s.project_per_owner[i].1[j];
            assert(has_key(s.project_metadata, k));
            if k != pid {
                assert(has_key(t.project_metadata, k) == has_key(s.project_metadata, k));
            }
        }
    }
}

impl Contract {
    /// Creates a project owned by the caller, who pays a fee of one NEAR,
    /// and answers its identifier. `metadata` is recorded with nothing
    /// funded and nothing claimed.
    pub fn new_project(&mut self, metadata: ProjectMetadata, ctx: &CallContext) -> (r: Result<
        ProjectId,
        ContractError,
    >)
        requires
            old(self).wf(),
        ensures
            match r {
                Ok(id) => new_project_outcome(metadata, *ctx) == Ok::<Seq<char>, ContractError>(
                    id@,
                ),
                Err(e) => new_project_outcome(metadata, *ctx) == Err::<Seq<char>, ContractError>(
                    e,
                ),
            },
            final(self)@ == new_project_post(old(self)@, metadata, *ctx),
            final(self).wf(),
    {
        let ghost s = self@;
        proof {
            lemma_new_project_wf(s, metadata, *ctx);
        }
        let owner = ctx.predecessor_account_id.clone();
        if ctx.attached_deposit != NEAR_DECIMAL {
            return Err(ContractError::WrongCreationDeposit);
        }
        if metadata.title.as_str().len() > MAX_TITLE_LENGTH {
            return Err(ContractError::TitleTooLong);
        }
        if metadata.ended_at <= ctx.block_timestamp {
            return Err(ContractError::InvalidEndTime);
        }
        let project_id = gen_proj_id(ctx);
        let ghost m0 = metadata;
        let mut metadata = metadata;
        metadata.claimed = 0;
        metadata.funded = 0;
        assert(metadata == with_fresh_funding(m0));
        self.project.insert(project_id.clone(), Project { owner_id: owner.clone() });
        self.project_metadata.insert(project_id.clone(), metadata);
        proof {
            lemma_projects_of(s, owner@);
        }
        match self.project_per_owner.find(&owner) {
            Some(i) => {
                let mut ids = self.project_per_owner.replace_value(i, IdSet::new());
                proof {
                    assert(s.project_per_owner[i as int].0 == owner@);
                    assert(ids@ == projects_of(s, owner@));
                }
                ids.insert(project_id.clone());
                self.project_per_owner.replace_value(i, ids);
                assert(self@.project_per_owner =~= put(
                    s.project_per_owner,
                    owner@,
                    set_add(projects_of(s, owner@), project_id@),
                ));
            },
            None => {
                let mut ids = IdSet::new();
                ids.insert(project_id.clone());
                assert(ids@ =~= set_add(projects_of(s, owner@), project_id@));
                self.project_per_owner.insert(owner, ids);
            },
        }
        assert(self@ =~= new_project_post(s, m0, *ctx));
        Ok(project_id)
    }

    /// Adds the attached deposit to `project_id`'s funds and to the caller's
    /// balance in it, and answers the caller's new balance.
    pub fn support_project(&mut self, project_id: ProjectId, ctx: &CallContext) -> (r: Result<
        Balance,
        ContractError,
    >)
        requires
            old(self).wf(),
        ensures
            r == support_outcome(old(self)@, project_id@, *ctx),
            final(self)@ == support_post(old(self)@, project_id@, *ctx),
            final(self).wf(),
    {
        let ghost s = self@;
        proof {
            lemma_support_wf(s, project_id@, *ctx);
            lemma_supporters_of(s, project_id@);
        }
        let amount = ctx.attached_deposit;
        let idx = match self.project_metadata.find(&project_id) {
            Some(i) => i,
            None => {
                return Err(ContractError::ProjectDoesNotExist);
            },
        };
        proof {
            lemma_key_index(s.project_metadata, project_id@, idx as int);
        }
        let m = self.project_metadata.value_at(idx);
        if amount < m.minimum_deposit {
            return Err(ContractError::DepositBelowMinimum { minimum: m.minimum_deposit });
        }
        if m.ended_at < ctx.block_timestamp {
            return Err(ContractError::DonationEnded);
        }
        let funded = match m.funded.checked_add(amount) {
            Some(f) => f,
            None => {
                return Err(ContractError::Overflow);
            },
        };
        let my_balance: u128 = match self.supporters_per_project.get(&project_id) {
            Some(supporters) => match supporters.get(&ctx.predecessor_account_id) {
                Some(b) => *b,
                None => 0,
            },
            None => 0,
        };
        assert(my_balance == balance_of(s, project_id@, ctx.predecessor_account_id@));
        let new_balance = match my_balance.checked_add(amount) {
            Some(b) => b,
            None => {
                return Err(ContractError::Overflow);
            },
        };
        let mut metadata = m.copied();
        metadata.funded = funded;
        self.project_metadata.insert(project_id.clone(), metadata);
        match self.supporters_per_project.find(&project_id) {
            Some(i) => {
                let mut supporters = self.supporters_per_project.replace_value(i, StrMap::new());
                assert(supporters@ == supporters_of(s, project_id@));
                supporters.insert(ctx.predecessor_account_id.clone(), new_balance);
                self.supporters_per_project.replace_value(i, supporters);
                assert(self@.supporters_per_project =~= put(
                    s.supporters_per_project,
                    project_id@,
                    put(supporters_of(s, project_id@), ctx.predecessor_account_id@, new_balance),
                ));
            },
            None => {
                let mut supporters = StrMap::new();
                supporters.insert(ctx.predecessor_account_id.clone(), new_balance);
                assert(supporters_of(s, project_id@) =~= Seq::empty());
                self.supporters_per_project.insert(project_id, supporters);
            },
        }
        assert(self@ =~= support_post(s, project_id@, *ctx));
        Ok(new_balance)
    }
}

} // verus!
