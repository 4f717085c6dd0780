//! Projects, their vesting schedule, and the contract's read-only calls.
use vstd::prelude::*;

use crate::collections::{has_key, key_index, lookup};
use crate::constants::{AccountId, Balance, Duration, ProjectId, Timestamp, NEAR_DECIMAL};
use crate::{contract_wf, force_stopped, projects_of, supporters_of, Contract, ContractError, ContractView};

verus! {

/// Stages in the life of a project.
#[derive(Clone, Copy, Debug, PartialEq, Eq, Structural)]
pub enum ProjectStatus {
    NotStarted,
    CrowdFunding,
    Vesting,
    Ended,
}

/// Who owns a project.
#[derive(Clone, Debug, PartialEq)]
pub struct Project {
    pub owner_id: AccountId,
}

impl View for Project {
    type V = Project;

    open spec fn view(&self) -> Project {
        *self
    }
}

/// What a project asks for, how much it has raised, and how the raised
/// funds vest: from `vesting_start_time` to `vesting_end_time` they become
/// claimable in equal steps, one every `vesting_interval`.
#[derive(Clone, Debug, PartialEq)]
pub struct ProjectMetadata {
    pub title: String,
    pub description: String,
    pub target: Balance,
    pub minimum_deposit: Balance,
    pub started_at: Timestamp,
    pub ended_at: Timestamp,
    pub funded: Balance,
    pub vesting_start_time: Timestamp,
    pub vesting_end_time: Timestamp,
    pub vesting_interval: Duration,
    pub claimed: Balance,
    pub force_stop_ts: Option<u64>,
}

impl View for ProjectMetadata {
    type V = ProjectMetadata;

    open spec fn view(&self) -> ProjectMetadata {
        *self
    }
}

/// Nanoseconds in a second.
pub const NANOS_PER_SECOND: u64 = 1_000_000_000;

impl ProjectMetadata {
    /// The metadata that a project gets when none is given, for a project
    /// created at `now`: a target of 100 NEAR, a minimum deposit of 1 NEAR,
    /// 60 seconds of funding, then 120 seconds of vesting in steps of 30.
    pub fn default_at(now: Timestamp) -> (m: Self)
        requires
            now + 180 * NANOS_PER_SECOND <= u64::MAX,
        ensures
            m.title@ == seq!['D', 'e', 'f', 'a', 'u', 'l', 't', ' ', 't', 'i', 't', 'l', 'e'],
            m.description@ == Seq::<char>::empty(),
            m.target == NEAR_DECIMAL * 100,
            m.minimum_deposit == NEAR_DECIMAL,
            m.started_at == now,
            m.ended_at == now + 60 * NANOS_PER_SECOND,
            m.funded == 0,
            m.vesting_start_time == now + 60 * NANOS_PER_SECOND,
            m.vesting_end_time == now + 180 * NANOS_PER_SECOND,
            m.vesting_interval == 30 * NANOS_PER_SECOND,
            m.claimed == 0,
            m.force_stop_ts == None::<u64>,
    {
        let title = String::from_str("Default title");
        proof {
            reveal_strlit("Default title");
        }
        assert(title@ =~= seq!['D', 'e', 'f', 'a', 'u', 'l', 't', ' ', 't', 'i', 't', 'l', 'e']);
        ProjectMetadata {
            title,
            description: String::new(),
            target: NEAR_DECIMAL * 100,
            minimum_deposit: NEAR_DECIMAL,
            started_at: now,
            ended_at: now + NANOS_PER_SECOND * 60,
            funded: 0,
            vesting_start_time: now + NANOS_PER_SECOND * 60,
            vesting_end_time: now + NANOS_PER_SECOND * 180,
            vesting_interval: NANOS_PER_SECOND * 30,
            claimed: 0,
            force_stop_ts: None,
        }
    }

    /// The amount raised.
    pub fn internal_get_funded(&self) -> (r: u128)
        ensures
            r == self.funded,
    {
        self.funded
    }

    /// The amount already paid out to the owner.
    pub fn internal_get_claimed(&self) -> (r: u128)
        ensures
            r == self.claimed,
    {
        self.claimed
    }

    /// A field-by-field copy.
    pub fn copied(&self) -> (r: Self)
        ensures
            r == *self,
    {
        ProjectMetadata {
            title: self.title.clone(),
            description: self.description.clone(),
            target: self.target,
            minimum_deposit: self.minimum_deposit,
            started_at: self.started_at,
            ended_at: self.ended_at,
            funded: self.funded,
            vesting_start_time: self.vesting_start_time,
            vesting_end_time: self.vesting_end_time,
            vesting_interval: self.vesting_interval,
            claimed: self.claimed,
            force_stop_ts: self.force_stop_ts,
        }
    }
}

/// Whole vesting intervals from the start of vesting to `ts`.
pub open spec fn elapsed_intervals(m: ProjectMetadata, ts: u64) -> int {
    (ts - m.vesting_start_time) / (m.vesting_interval as int)
}

/// Whole vesting intervals in the vesting period: the project's milestones.
pub open spec fn total_intervals(m: ProjectMetadata) -> int {
    (m.vesting_end_time - m.vesting_start_time) / (m.vesting_interval as int)
}

/// What has vested after `elapsed` of `total` intervals: an equal share of
/// the funds, rounded down, for each interval that has passed.
pub open spec fn vested_after(m: ProjectMetadata, elapsed: int, total: int) -> int {
    ((m.funded as int) / total) * elapsed
}

/// What can be claimed at time `ts`: nothing before vesting starts,
/// everything not yet claimed once it has ended, and in between the share
/// for the intervals that have passed, less what was claimed.
pub open spec fn vesting_claimable(m: ProjectMetadata, ts: u64) -> Result<Balance, ContractError> {
    if ts < m.vesting_start_time {
        Ok(0)
    } else if ts >= m.vesting_end_time {
        if m.claimed <= m.funded {
            Ok((m.funded - m.claimed) as u128)
        } else {
            Err(ContractError::Overflow)
        }
    } else if m.vesting_interval == 0 {
        Err(ContractError::DivisionByZero)
    } else if total_intervals(m) == 0 {
        Err(ContractError::DivisionByZero)
    } else {
        let vested = vested_after(m, elapsed_intervals(m, ts), total_intervals(m));
        if m.claimed <= vested {
            Ok((vested - m.claimed) as u128)
        } else {
            Err(ContractError::Overflow)
        }
    }
}

/// The claimable amount of project `pid` at time `now`: a stopped project
/// is frozen at the time it was stopped.
pub open spec fn claimable_of(s: ContractView, pid: Seq<char>, now: u64) -> Result<
    Balance,
    ContractError,
> {
    match lookup(s.project_metadata, pid) {
        None => Err(ContractError::MissingProjectMetadata),
        Some(m) => if force_stopped(s, pid) {
            match m.force_stop_ts {
                Some(ts) => vesting_claimable(m, ts),
                None => Err(ContractError::MissingValue),
            }
        } else {
            vesting_claimable(m, now)
        },
    }
}

/// The number of milestones of project `pid`.
pub open spec fn milestones_of(s: ContractView, pid: Seq<char>) -> Result<u64, ContractError> {
    match lookup(s.project_metadata, pid) {
        None => Err(ContractError::UnknownProject),
        Some(m) => if m.vesting_end_time < m.vesting_start_time {
            Err(ContractError::Overflow)
        } else if m.vesting_interval == 0 {
            Err(ContractError::DivisionByZero)
        } else {
            Ok(total_intervals(m) as u64)
        },
    }
}

/// Below the first index listed by `get_projects`.
pub open spec fn page_from(n: int, from_index: int, limit: int) -> int {
    if n > limit + from_index {
        n - limit - from_index
    } else {
        0
    }
}

/// One past the last index listed by `get_projects`.
pub open spec fn page_to(n: int, from_index: int) -> int {
    if n > from_index {
        n - from_index
    } else {
        0
    }
}

/// End of the window that `get_my_projects` lists.
pub open spec fn window_end(n: int, from_index: int, limit: int) -> int {
    if from_index + limit < n {
        from_index + limit
    } else {
        n
    }
}

/// An equal share for each of `elapsed` of `total` intervals stays within
/// the whole.
pub proof fn lemma_share_bounded(funded: int, total: int, elapsed: int)
    by (nonlinear_arith)
    requires
        0 <= funded,
        0 < total,
        0 <= elapsed <= total,
    ensures
        0 <= (funded / total) * elapsed <= funded,
{
    assert(funded / total >= 0);
    assert((funded / total) * elapsed <= (funded / total) * total);
    assert(funded == total * (funded / total) + funded % total);
}

/// The elapsed intervals never exceed the total before vesting ends.
pub proof fn lemma_elapsed_within_total(m: ProjectMetadata, ts: u64)
    requires
        m.vesting_start_time <= ts < m.vesting_end_time,
        m.vesting_interval > 0,
    ensures
        0 <= elapsed_intervals(m, ts) <= total_intervals(m),
{
    vstd::arithmetic::div_mod::lemma_div_is_ordered(
        ts - m.vesting_start_time,
        m.vesting_end_time - m.vesting_start_time,
        m.vesting_interval as int,
    );
    vstd::arithmetic::div_mod::lemma_div_pos_is_pos(
        ts - m.vesting_start_time,
        m.vesting_interval as int,
    );
}

/// Computes `vesting_claimable(*m, ts)`.
pub fn vesting_claimable_at(m: &ProjectMetadata, ts: u64) -> (r: Result<Balance, ContractError>)
    ensures
        r == vesting_claimable(*m, ts),
{
    if ts < m.vesting_start_time {
        Ok(0)
    } else if ts >= m.vesting_end_time {
        if m.claimed <= m.funded {
            Ok(m.funded - m.claimed)
        } else {
            Err(ContractError::Overflow)
        }
    } else if m.vesting_interval == 0 {
        Err(ContractError::DivisionByZero)
    } else {
        let cur_intervals: u64 = (ts - m.vesting_start_time) / m.vesting_interval;
        let total: u64 = (m.vesting_end_time - m.vesting_start_time) / m.vesting_interval;
        if total == 0 {
            Err(ContractError::DivisionByZero)
        } else {
            proof {
                lemma_elapsed_within_total(*m, ts);
                lemma_share_bounded(m.funded as int, total as int, cur_intervals as int);
            }
            let share: u128 = m.funded / (total as u128);
            let vested: u128 = share * (cur_intervals as u128);
            if m.claimed <= vested {
                Ok(vested - m.claimed)
            } else {
                Err(ContractError::Overflow)
            }
        }
    }
}

impl Contract {
    /// Whether the supporters stopped `project_id`.
    pub(crate) fn force_stopped_ref(&self, project_id: &String) -> (r: bool)
        requires
            self.wf(),
        ensures
            r == force_stopped(self@, project_id@),
    {
        match self.force_stop_project.get(project_id) {
            Some(votes) => {
                proof {
                    let i = key_index(self@.force_stop_project, project_id@);
                    assert(self@.force_stop_project[i].0 == project_id@);
                    assert(has_key(self@.supporters_per_project, project_id@));
                }
                match self.supporters_per_project.get(project_id) {
                    Some(supporters) => votes.len() > supporters.len() / 2,
                    None => false,
                }
            },
            None => false,
        }
    }

    /// Whether more than half of the supporters of `project_id` voted to
    /// stop it.
    pub fn is_force_stop(&self, project_id: ProjectId) -> (r: bool)
        requires
            self.wf(),
        ensures
            r == force_stopped(self@, project_id@),
    {
        self.force_stopped_ref(&project_id)
    }

    /// Projects in order of creation, newest first: the `limit` entries
    /// that come `from_index` entries before the newest.
    pub fn get_projects(&self, from_index: u64, limit: u64) -> (r: Vec<(ProjectId, ProjectMetadata)>)
        requires
            from_index + limit <= u64::MAX,
        ensures
            ({
                let s = self@.project_metadata;
                let lo = page_from(s.len() as int, from_index as int, limit as int);
                let hi = page_to(s.len() as int, from_index as int);
                &&& r@.len() == hi - lo
                &&& forall|i: int|
                    0 <= i < r@.len() ==> (#[trigger] r@[i]).0@ == s[hi - 1 - i].0 && r@[i].1 == s[hi
                        - 1 - i].1
            }),
    {
        let n: u64 = self.project_metadata.len() as u64;
        let from: u64 = if n > limit + from_index {
            n - limit - from_index
        } else {
            0
        };
        let to: u64 = if n > from_index {
            n - from_index
        } else {
            0
        };
        let ghost s = self@.project_metadata;
        let mut r: Vec<(ProjectId, ProjectMetadata)> = Vec::new();
        let mut j: u64 = to;
        while j > from
            invariant
                s == self@.project_metadata,
                n == s.len(),
                s.len() <= usize::MAX,
                from <= j <= to <= n,
                r@.len() == to - j,
                forall|i: int|
                    0 <= i < r@.len() ==> (#[trigger] r@[i]).0@ == s[to - 1 - i].0 && r@[i].1 == s[to
                        - 1 - i].1,
            decreases j,
        {
            j = j - 1;
            let id = self.project_metadata.key_at(j as usize).clone();
            let m = self.project_metadata.value_at(j as usize).copied();
            let ghost before = r@;
            r.push((id, m));
            assert forall|i: int| 0 <= i < r@.len() implies (#[trigger] r@[i]).0@ == s[to - 1 - i].0
                && r@[i].1 == s[to - 1 - i].1 by {
                if i < before.len() {
                    assert(r@[i] == before[i]);
                } else {
                    assert(to - 1 - i == j);
                }
            }
        }
        r
    }

    /// The metadata of `project_id`.
    pub fn get_project(&self, project_id: ProjectId) -> (r: Result<ProjectMetadata, ContractError>)
        requires
            self.wf(),
        ensures
            match r {
                Ok(m) => lookup(self@.project_metadata, project_id@) == Some(m),
                Err(e) => e == ContractError::ProjectNotFound && lookup(
                    self@.project_metadata,
                    project_id@,
                ) == None::<ProjectMetadata>,
            },
    {
        match self.project_metadata.get(&project_id) {
            Some(m) => Ok(m.copied()),
            None => Err(ContractError::ProjectNotFound),
        }
    }

    /// The projects that `account_id` created, from position `from_index`,
    /// at most `limit` of them, with their metadata.
    pub fn get_my_projects(&self, account_id: AccountId, from_index: u64, limit: u64) -> (r: Vec<
        (ProjectId, ProjectMetadata),
    >)
        requires
            self.wf(),
            from_index + limit <= u64::MAX,
        ensures
            ({
                let ids = projects_of(self@, account_id@);
                let hi = window_end(ids.len() as int, from_index as int, limit as int);
                &&& r@.len() == if hi > from_index {
                    hi - from_index
                } else {
                    0
                }
                &&& forall|i: int|
                    0 <= i < r@.len() ==> (#[trigger] r@[i]).0@ == ids[from_index + i] && lookup(
                        self@.project_metadata,
                        ids[from_index + i],
                    ) == Some(r@[i].1)
            }),
    {
        let ghost ids = projects_of(self@, account_id@);
        let mut r: Vec<(ProjectId, ProjectMetadata)> = Vec::new();
        match self.project_per_owner.get(&account_id) {
            Some(projects) => {
                let n: u64 = projects.len() as u64;
                let end: u64 = if from_index + limit < n {
                    from_index + limit
                } else {
                    n
                };
                let mut j: u64 = from_index;
                proof {
                    let k = key_index(self@.project_per_owner, account_id@);
                    assert(self@.project_per_owner[k].1 == ids);
                }
                while j < end
                    invariant
                        contract_wf(self@),
                        ids == projects@,
                        ids == projects_of(self@, account_id@),
                        has_key(self@.project_per_owner, account_id@),
                        n == ids.len(),
                        ids.len() <= usize::MAX,
                        end <= n,
                        from_index <= j,
                        j <= end || j == from_index,
                        r@.len() == if j > from_index {
                            j - from_index
                        } else {
                            0
                        },
                        forall|i: int|
                            0 <= i < r@.len() ==> (#[trigger] r@[i]).0@ == ids[from_index + i]
                                && lookup(self@.project_metadata, ids[from_index + i]) == Some(
                                r@[i].1,
                            ),
                    decreases end - j,
                {
                    let id = projects.item_at(j as usize);
                    proof {
                        let k = key_index(self@.project_per_owner, account_id@);
                        assert(self@.project_per_owner[k].1[j as int] == ids[j as int]);
                        assert(has_key(self@.project_metadata, ids[j as int]));
                    }
                    match self.project_metadata.get(id) {
                        Some(m) => {
                            let ghost before = r@;
                            r.push((id.clone(), m.copied()));
                            assert forall|i: int| 0 <= i < r@.len() implies (#[trigger] r@[i]).0@
                                == ids[from_index + i] && lookup(
                                self@.project_metadata,
                                ids[from_index + i],
                            ) == Some(r@[i].1) by {
                                if i < before.len() {
                                    assert(r@[i] == before[i]);
                                } else {
                                    assert(from_index + i == j);
                                }
                            }
                        },
                        None => {},
                    }
                    j = j + 1;
                }
            },
            None => {},
        }
        r
    }

    /// What can be claimed from `project_id` at time `now`.
    pub fn internal_get_claimable_amount(&self, project_id: ProjectId, now: Timestamp) -> (r:
        Result<Balance, ContractError>)
        requires
            self.wf(),
        ensures
            r == claimable_of(self@, project_id@, now),
    {
        self.claimable_ref(&project_id, now)
    }

    pub(crate) fn claimable_ref(&self, project_id: &String, now: Timestamp) -> (r: Result<
        Balance,
        ContractError,
    >)
        requires
            self.wf(),
        ensures
            r == claimable_of(self@, project_id@, now),
    {
        match self.project_metadata.get(project_id) {
            None => Err(ContractError::MissingProjectMetadata),
            Some(m) => {
                if self.force_stopped_ref(project_id) {
                    match m.force_stop_ts {
                        Some(ts) => vesting_claimable_at(m, ts),
                        None => Err(ContractError::MissingValue),
                    }
                } else {
                    vesting_claimable_at(m, now)
                }
            },
        }
    }

    /// What can be claimed from `project_id` at time `now`.
    pub fn get_claimable_amount(&self, project_id: ProjectId, now: Timestamp) -> (r: Result<
        Balance,
        ContractError,
    >)
        requires
            self.wf(),
        ensures
            r == claimable_of(self@, project_id@, now),
    {
        self.claimable_ref(&project_id, now)
    }

    /// The supporters of `project_id` with their balances, in order of
    /// first support.
    pub fn get_supporters(&self, project_id: ProjectId) -> (r: Result<
        Vec<(AccountId, Balance)>,
        ContractError,
    >)
        requires
            self.wf(),
        ensures
            match r {
                Ok(v) => has_key(self@.supporters_per_project, project_id@) && v@.len()
                    == supporters_of(self@, project_id@).len() && forall|i: int|
                    0 <= i < v@.len() ==> (#[trigger] v@[i]).0@ == supporters_of(
                        self@,
                        project_id@,
                    )[i].0 && v@[i].1 == supporters_of(self@, project_id@)[i].1,
                Err(e) => e == ContractError::ProjectNotFound && !has_key(
                    self@.supporters_per_project,
                    project_id@,
                ),
            },
    {
        match self.supporters_per_project.get(&project_id) {
            Some(m) => Ok(m.to_vec()),
            None => {
                proof {
                    if has_key(self@.supporters_per_project, project_id@) {
                        assert(lookup(self@.supporters_per_project, project_id@).is_some());
                    }
                }
                Err(ContractError::ProjectNotFound)
            },
        }
    }

    /// The number of milestones of `project_id`.
    pub fn get_number_of_miletones(&self, project_id: ProjectId) -> (r: Result<u64, ContractError>)
        requires
            self.wf(),
        ensures
            r == milestones_of(self@, project_id@),
    {
        match self.project_metadata.get(&project_id) {
            None => Err(ContractError::UnknownProject),
            Some(m) => {
                if m.vesting_end_time < m.vesting_start_time {
                    Err(ContractError::Overflow)
                } else if m.vesting_interval == 0 {
                    Err(ContractError::DivisionByZero)
                } else {
                    Ok((m.vesting_end_time - m.vesting_start_time) / m.vesting_interval)
                }
            },
        }
    }

    /// The list of accounts that voted to stop `project_id`, as the contract
    /// answers it: the call returns before it reads the list, so the answer
    /// is always empty.
    pub fn get_force_stop_accounts(&self, project_id: ProjectId) -> (r: Vec<AccountId>)
        ensures
            r@.len() == 0,
    {
        Vec::new()
    }

    /// The status of `project_id`; the contract does not compute it yet.
    pub fn get_project_status(&self, project_id: ProjectId) {
    }
}

} // verus!
