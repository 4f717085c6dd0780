//! A crowdfunding contract whose funds become claimable along a vesting
//! schedule, paid to whoever calls `claim_reward`, and which its supporters
//! can stop by majority.
//!
//! Every call of the contract is a function from the contract's state and the
//! call's context (caller, attached deposit, block time and height) to a new
//! state and a result. A call that is refused answers with a `ContractError`
//! and leaves the state as it was, as a reverted transaction does. Moving
//! tokens is left to the caller of the library: a successful `claim_reward`
//! or `drawdown` names the amount that goes to the caller of the contract.
use vstd::prelude::*;

pub mod actions_of_project;
pub mod actions_of_reward;
pub mod actions_of_supporters;
pub mod collections;
pub mod consistency;
pub mod constants;
pub mod laws;
pub mod project;
pub mod utils;

use crate::collections::{has_key, keys_unique, lookup};
use crate::utils::named_after;

pub use crate::actions_of_reward::ExtProjectReward;
pub use crate::collections::{IdSet, StrMap};
pub use crate::constants::{
    AccountId, Balance, Duration, Gas, ProjectId, Timestamp, DEFAULT_GAS_FEE, MAX_TITLE_LENGTH,
    NEAR_DECIMAL,
};
pub use crate::project::{vesting_claimable_at, Project, ProjectMetadata, ProjectStatus};
pub use crate::utils::{gen_proj_id, valid_url};

verus! {

/// What the chain tells a call about itself.
#[derive(Clone, Debug)]
pub struct CallContext {
    /// The account that made the call.
    pub predecessor_account_id: AccountId,
    /// Tokens attached to the call.
    pub attached_deposit: Balance,
    /// Time of the block that holds the call.
    pub block_timestamp: Timestamp,
    /// Height of the block that holds the call.
    pub block_index: u64,
}

/// Why a call was refused.
#[derive(Clone, Copy, Debug, PartialEq, Eq, Structural)]
pub enum ContractError {
    /// A project was created without exactly one NEAR attached.
    WrongCreationDeposit,
    /// The title is longer than `MAX_TITLE_LENGTH` bytes.
    TitleTooLong,
    /// The funding period of a new project ends no later than now.
    InvalidEndTime,
    /// A supported project does not exist.
    ProjectDoesNotExist,
    /// A donation is smaller than the project's minimum deposit.
    DepositBelowMinimum { minimum: Balance },
    /// A donation comes after the funding period.
    DonationEnded,
    /// A project named by a claim or a milestone count does not exist.
    UnknownProject,
    /// A project whose claimable amount is asked for has no metadata.
    MissingProjectMetadata,
    /// A project, or its list of supporters, was not found.
    ProjectNotFound,
    /// A claim on a project that its supporters stopped.
    ForcedStop,
    /// A claim when nothing has vested beyond what was claimed.
    NothingToClaim,
    /// A vote to stop a project that is already stopped.
    AlreadyForceStopped,
    /// The caller has not supported the project.
    NotASupporter,
    /// A drawdown from a project that was not stopped.
    ProjectRunning,
    /// A drawdown by a supporter whose balance is zero.
    ZeroInvestment,
    /// A value that the computation needs was absent.
    MissingValue,
    /// A division by zero.
    DivisionByZero,
    /// An arithmetic result out of range.
    Overflow,
}

/// The text with which the contract refuses a call for reason `e`.
pub open spec fn error_text(e: ContractError) -> Seq<char> {
    match e {
        ContractError::WrongCreationDeposit => "Attach exactly 1 Near to create new project"@,
        ContractError::TitleTooLong => "Title's too long!"@,
        ContractError::InvalidEndTime => "Endtime is not valid"@,
        ContractError::ProjectDoesNotExist => "Project doesn't exist!"@,
        ContractError::DepositBelowMinimum { .. } => "Donation must greater than"@,
        ContractError::DonationEnded => "Donation time is ended"@,
        ContractError::UnknownProject => "Project doesn't exists!"@,
        ContractError::MissingProjectMetadata => "project doesn't exists!"@,
        ContractError::ProjectNotFound => "Project not found"@,
        ContractError::ForcedStop => "The reward is forced stop by the community!!"@,
        ContractError::NothingToClaim => "There is nothing to claim at the moment"@,
        ContractError::AlreadyForceStopped => "Project already force stop"@,
        ContractError::NotASupporter => "You are not a supporter!"@,
        ContractError::ProjectRunning => "Project is running"@,
        ContractError::ZeroInvestment => "You invest is Zero!!"@,
        ContractError::MissingValue => "called `Option::unwrap()` on a `None` value"@,
        ContractError::DivisionByZero => "attempt to divide by zero"@,
        ContractError::Overflow => "arithmetic operation overflowed"@,
    }
}

impl ContractError {
    /// The text with which the contract refuses the call. For
    /// `DepositBelowMinimum` the minimum deposit follows it.
    pub fn message(&self) -> (r: &'static str)
        ensures
            r@ == error_text(*self),
    {
        match self {
            ContractError::WrongCreationDeposit => "Attach exactly 1 Near to create new project",
            ContractError::TitleTooLong => "Title's too long!",
            ContractError::InvalidEndTime => "Endtime is not valid",
            ContractError::ProjectDoesNotExist => "Project doesn't exist!",
            ContractError::DepositBelowMinimum { .. } => "Donation must greater than",
            ContractError::DonationEnded => "Donation time is ended",
            ContractError::UnknownProject => "Project doesn't exists!",
            ContractError::MissingProjectMetadata => "project doesn't exists!",
            ContractError::ProjectNotFound => "Project not found",
            ContractError::ForcedStop => "The reward is forced stop by the community!!",
            ContractError::NothingToClaim => "There is nothing to claim at the moment",
            ContractError::AlreadyForceStopped => "Project already force stop",
            ContractError::NotASupporter => "You are not a supporter!",
            ContractError::ProjectRunning => "Project is running",
            ContractError::ZeroInvestment => "You invest is Zero!!",
            ContractError::MissingValue => "called `Option::unwrap()` on a `None` value",
            ContractError::DivisionByZero => "attempt to divide by zero",
            ContractError::Overflow => "arithmetic operation overflowed",
        }
    }
}

/// The state of the contract.
pub struct Contract {
    /// The account that created the contract.
    pub owner_id: AccountId,
    /// For each owner, the projects it created.
    pub project_per_owner: StrMap<IdSet>,
    /// Each project's owner.
    pub project: StrMap<Project>,
    /// Each project's metadata, in order of creation.
    pub project_metadata: StrMap<ProjectMetadata>,
    /// For each project, each supporter's balance, in order of first support.
    pub supporters_per_project: StrMap<StrMap<Balance>>,
    /// For each project, the supporters who voted to stop it.
    pub force_stop_project: StrMap<IdSet>,
}

/// The contract's state as mathematical values. Every map is a sequence of
/// (key, value) pairs in the order in which the keys were first written.
#[verifier::ext_equal]
pub struct ContractView {
    pub owner_id: Seq<char>,
    pub project_per_owner: Seq<(Seq<char>, Seq<Seq<char>>)>,
    pub project: Seq<(Seq<char>, Project)>,
    pub project_metadata: Seq<(Seq<char>, ProjectMetadata)>,
    pub supporters_per_project: Seq<(Seq<char>, Seq<(Seq<char>, Balance)>)>,
    pub force_stop_project: Seq<(Seq<char>, Seq<Seq<char>>)>,
}

impl View for Contract {
    type V = ContractView;

    open spec fn view(&self) -> ContractView {
        ContractView {
            owner_id: self.owner_id@,
            project_per_owner: self.project_per_owner@,
            project: self.project@,
            project_metadata: self.project_metadata@,
            supporters_per_project: self.supporters_per_project@,
            force_stop_project: self.force_stop_project@,
        }
    }
}

/// The state's invariant:
/// - no map lists a key twice and no set a member twice;
/// - a project has an owner exactly when it has metadata;
/// - a project with stop votes has supporters, and every voter is one of them;
/// - every project listed under an owner has metadata;
/// - a project with supporters has metadata;
/// - a project's identifier is named after its owner (see `named_after`);
/// - every project is listed under its owner, and every project listed
///   under an account is owned by that account.
pub open spec fn contract_wf(s: ContractView) -> bool {
    &&& keys_unique(s.project_per_owner)
    &&& keys_unique(s.project)
    &&& keys_unique(s.project_metadata)
    &&& keys_unique(s.supporters_per_project)
    &&& keys_unique(s.force_stop_project)
    &&& forall|i: int|
        0 <= i < s.project_per_owner.len() ==> (#[trigger] s.project_per_owner[i]).1.no_duplicates()
    &&& forall|i: int|
        0 <= i < s.force_stop_project.len() ==> (#[trigger] s.force_stop_project[i]).1.no_duplicates()
    &&& forall|i: int|
        0 <= i < s.supporters_per_project.len() ==> keys_unique(
            (#[trigger] s.supporters_per_project[i]).1,
        )
    &&& forall|k: Seq<char>|
        #![trigger has_key(s.project, k)]
        #![trigger has_key(s.project_metadata, k)]
        has_key(s.project, k) <==> has_key(s.project_metadata, k)
    &&& forall|i: int|
        0 <= i < s.force_stop_project.len() ==> has_key(
            s.supporters_per_project,
            (#[trigger] s.force_stop_project[i]).0,
        )
    &&& forall|i: int, j: int|
        0 <= i < s.force_stop_project.len() && 0 <= j < s.force_stop_project[i].1.len() ==> has_key(
            supporters_of(s, s.force_stop_project[i].0),
            #[trigger] s.force_stop_project[i].1[j],
        )
    &&& forall|i: int, j: int|
        0 <= i < s.project_per_owner.len() && 0 <= j < s.project_per_owner[i].1.len() ==> has_key(
            s.project_metadata,
            #[trigger] s.project_per_owner[i].1[j],
        )
    &&& forall|i: int|
        0 <= i < s.supporters_per_project.len() ==> has_key(
            s.project_metadata,
            (#[trigger] s.supporters_per_project[i]).0,
        )
    &&& forall|i: int|
        0 <= i < s.project.len() ==> named_after(
            (#[trigger] s.project[i]).0,
            s.project[i].1.owner_id@,
        )
    &&& forall|i: int|
        0 <= i < s.project.len() ==> projects_of(s, (#[trigger] s.project[i]).1.owner_id@).contains(
            s.project[i].0,
        )
    &&& forall|i: int, j: int|
        0 <= i < s.project_per_owner.len() && 0 <= j < s.project_per_owner[i].1.len() ==> owner_of(
            s,
            #[trigger] s.project_per_owner[i].1[j],
        ) == Some(s.project_per_owner[i].0)
}

/// The owner of project `pid`, if it exists.
pub open spec fn owner_of(s: ContractView, pid: Seq<char>) -> Option<Seq<char>> {
    match lookup(s.project, pid) {
        Some(p) => Some(p.owner_id@),
        None => None,
    }
}

/// The balances of the supporters of `pid` (none when nobody supported it).
pub open spec fn supporters_of(s: ContractView, pid: Seq<char>) -> Seq<(Seq<char>, Balance)> {
    match lookup(s.supporters_per_project, pid) {
        Some(m) => m,
        None => Seq::empty(),
    }
}

/// The supporters who voted to stop `pid`.
pub open spec fn votes_of(s: ContractView, pid: Seq<char>) -> Seq<Seq<char>> {
    match lookup(s.force_stop_project, pid) {
        Some(v) => v,
        None => Seq::empty(),
    }
}

/// The projects listed under `owner`.
pub open spec fn projects_of(s: ContractView, owner: Seq<char>) -> Seq<Seq<char>> {
    match lookup(s.project_per_owner, owner) {
        Some(v) => v,
        None => Seq::empty(),
    }
}

/// `pid` is stopped: it has stop votes, and more of them than half its
/// supporters (rounded down).
pub open spec fn force_stopped(s: ContractView, pid: Seq<char>) -> bool {
    match lookup(s.force_stop_project, pid) {
        Some(votes) => votes.len() > supporters_of(s, pid).len() / 2,
        None => false,
    }
}

impl Contract {
    /// The state's invariant holds.
    pub open spec fn wf(&self) -> bool {
        contract_wf(self@)
    }

    /// A contract with no projects, owned by its creator.
    pub fn new(ctx: &CallContext) -> (c: Contract)
        ensures
            c@ == (ContractView {
                owner_id: ctx.predecessor_account_id@,
                project_per_owner: Seq::empty(),
                project: Seq::empty(),
                project_metadata: Seq::empty(),
                supporters_per_project: Seq::empty(),
                force_stop_project: Seq::empty(),
            }),
            c.wf(),
    {
        Contract {
            owner_id: ctx.predecessor_account_id.clone(),
            project_per_owner: StrMap::new(),
            project: StrMap::new(),
            project_metadata: StrMap::new(),
            supporters_per_project: StrMap::new(),
            force_stop_project: StrMap::new(),
        }
    }
}

} // verus!
