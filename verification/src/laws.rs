//! Properties of the contract that span calls or hold of every state.
use vstd::prelude::*;

use crate::actions_of_project::{
    balance_of, lemma_supporters_of, new_project_outcome, new_project_post, support_outcome,
    support_post, with_fresh_funding,
};
use crate::actions_of_reward::{claim_outcome, reward_transfer_outcome, reward_transfer_post};
use crate::actions_of_supporters::{
    after_vote, lemma_votes_of, drawdown_outcome, drawdown_post, force_stop_outcome, force_stop_post,
};
use crate::collections::{
    has_key, key_index, keys_unique, lemma_put, lemma_set_add, lookup, put, set_add,
};
use crate::constants::{Balance, MAX_TITLE_LENGTH, NEAR_DECIMAL};
use crate::project::{
    claimable_of, elapsed_intervals, milestones_of, lemma_elapsed_within_total, lemma_share_bounded,
    total_intervals, vested_after, vesting_claimable, Project,
    ProjectMetadata,
};
use crate::utils::decimal;
use crate::{
    contract_wf, force_stopped, projects_of, supporters_of, votes_of, CallContext, ContractError,
    ContractView,
};

verus! {

/// What vesting makes claimable, when anything, added to what was already
/// claimed, never exceeds the funds raised.
pub proof fn law_vesting_within_funds(m: ProjectMetadata, ts: u64)
    requires
        vesting_claimable(m, ts) is Ok,
    ensures
        vesting_claimable(m, ts)->Ok_0 == 0 || vesting_claimable(m, ts)->Ok_0 + m.claimed
            <= m.funded,
{
    if m.vesting_start_time <= ts < m.vesting_end_time {
        lemma_vested_bounded(m, ts);
    }
}

/// Between the start and the end of vesting, what has vested is within
/// the funds.
proof fn lemma_vested_bounded(m: ProjectMetadata, ts: u64)
    requires
        m.vesting_start_time <= ts < m.vesting_end_time,
        m.vesting_interval > 0,
        total_intervals(m) > 0,
    ensures
        0 <= elapsed_intervals(m, ts) <= total_intervals(m),
        0 <= vested_after(m, elapsed_intervals(m, ts), total_intervals(m)) <= m.funded,
{
    lemma_elapsed_within_total(m, ts);
    lemma_share_bounded(m.funded as int, total_intervals(m), elapsed_intervals(m, ts));
}

proof fn lemma_share_monotone(funded: int, total: int, e1: int, e2: int)
    by (nonlinear_arith)
    requires
        0 <= funded,
        0 < total,
        0 <= e1 <= e2,
    ensures
        (funded / total) * e1 <= (funded / total) * e2,
{
    assert(funded / total >= 0);
}

/// The claimable amount never decreases as time passes.
pub proof fn law_vesting_monotone(m: ProjectMetadata, t1: u64, t2: u64)
    requires
        t1 <= t2,
        vesting_claimable(m, t1) is Ok,
        vesting_claimable(m, t2) is Ok,
    ensures
        vesting_claimable(m, t1)->Ok_0 <= vesting_claimable(m, t2)->Ok_0,
{
    if t1 < m.vesting_start_time {
    } else if t1 >= m.vesting_end_time {
    } else {
        lemma_vested_bounded(m, t1);
        if t2 < m.vesting_end_time {
            lemma_vested_bounded(m, t2);
            vstd::arithmetic::div_mod::lemma_div_is_ordered(
                t1 - m.vesting_start_time,
                t2 - m.vesting_start_time,
                m.vesting_interval as int,
            );
            lemma_share_monotone(
                m.funded as int,
                total_intervals(m),
                elapsed_intervals(m, t1),
                elapsed_intervals(m, t2),
            );
        }
    }
}

/// Once a claim's transfer is recorded, nothing more can be claimed at the
/// same time: a vested amount is paid out once its transfer is recorded,
/// and not again. (Two claims made before the first is recorded both get
/// the amount.)
pub proof fn law_claim_pays_once(s: ContractView, pid: Seq<char>, now: u64)
    requires
        contract_wf(s),
        claim_outcome(s, pid, now) is Ok,
    ensures
        ({
            let a = claim_outcome(s, pid, now)->Ok_0;
            &&& reward_transfer_outcome(s, pid, a, true) == Ok::<bool, ContractError>(true)
            &&& claim_outcome(reward_transfer_post(s, pid, a, true), pid, now) == Err::<
                Balance,
                ContractError,
            >(ContractError::NothingToClaim)
        }),
{
    let a = claim_outcome(s, pid, now)->Ok_0;
    let m = lookup(s.project_metadata, pid).unwrap();
    assert(!force_stopped(s, pid));
    assert(claimable_of(s, pid, now) == Ok::<Balance, ContractError>(a));
    assert(vesting_claimable(m, now) == Ok::<Balance, ContractError>(a));
    assert(a > 0);
    law_vesting_within_funds(m, now);
    let m2 = ProjectMetadata { claimed: (m.claimed + a) as u128, ..m };
    let t = reward_transfer_post(s, pid, a, true);
    lemma_put(s.project_metadata, pid, m2);
    assert(lookup(t.project_metadata, pid) == Some(m2));
    assert(force_stopped(t, pid) == force_stopped(s, pid));
    assert(has_key(t.project, pid));
    assert(m2.claimed == m.claimed + a);
    if m.vesting_start_time <= now < m.vesting_end_time {
        lemma_vested_bounded(m, now);
        assert(elapsed_intervals(m2, now) == elapsed_intervals(m, now));
        assert(total_intervals(m2) == total_intervals(m));
        assert(vested_after(m2, elapsed_intervals(m2, now), total_intervals(m2)) == vested_after(
            m,
            elapsed_intervals(m, now),
            total_intervals(m),
        ));
        let vested = vested_after(m, elapsed_intervals(m, now), total_intervals(m));
        assert(a == vested - m.claimed);
        assert(m2.claimed == vested);
    } else if now >= m.vesting_end_time {
        assert(a == m.funded - m.claimed);
        assert(m2.claimed == m.funded);
    }
    assert(vesting_claimable(m2, now) == Ok::<Balance, ContractError>(0));
}

/// A supporter who drew down cannot draw down again: the second call is
/// refused because its balance is zero.
pub proof fn law_drawdown_once(s: ContractView, pid: Seq<char>, ctx: CallContext)
    requires
        contract_wf(s),
        drawdown_outcome(s, pid, ctx) is Ok,
    ensures
        drawdown_outcome(drawdown_post(s, pid, ctx), pid, ctx) == Err::<Balance, ContractError>(
            ContractError::ZeroInvestment,
        ),
        balance_of(drawdown_post(s, pid, ctx), pid, ctx.predecessor_account_id@) == 0,
        force_stopped(drawdown_post(s, pid, ctx), pid) == force_stopped(s, pid),
        total_balance(supporters_of(drawdown_post(s, pid, ctx), pid)) == total_balance(
            supporters_of(s, pid),
        ) - balance_of(s, pid, ctx.predecessor_account_id@),
        drawdown_post(s, pid, ctx).project_metadata == s.project_metadata,
{
    let caller = ctx.predecessor_account_id@;
    let sup = supporters_of(s, pid);
    let t = drawdown_post(s, pid, ctx);
    lemma_supporters_of(s, pid);
    lemma_put(sup, caller, 0u128);
    lemma_put(s.supporters_per_project, pid, put(sup, caller, 0u128));
    assert(has_key(sup, caller));
    assert(supporters_of(t, pid) == put(sup, caller, 0u128));
    assert(supporters_of(t, pid).len() == sup.len());
    assert(force_stopped(t, pid) == force_stopped(s, pid));
    assert(claimable_of(t, pid, ctx.block_timestamp) == claimable_of(s, pid, ctx.block_timestamp));
    assert(lookup(supporters_of(t, pid), caller) == Some(0u128));
    lemma_total_put(sup, caller, 0u128);
}

/// On a project that has supporters, and so metadata, stopping and drawing
/// down always find the project: `force_stop` answers `ProjectNotFound`
/// only for a project nobody supports, and `drawdown` never does.
pub proof fn law_supported_projects_are_found(s: ContractView, pid: Seq<char>, ctx: CallContext)
    requires
        contract_wf(s),
    ensures
        force_stop_outcome(s, pid, ctx) == Err::<(), ContractError>(ContractError::ProjectNotFound)
            <==> !force_stopped(s, pid) && !has_key(s.supporters_per_project, pid),
        drawdown_outcome(s, pid, ctx) != Err::<Balance, ContractError>(
            ContractError::ProjectNotFound,
        ),
{
    if has_key(s.supporters_per_project, pid) {
        let i = key_index(s.supporters_per_project, pid);
        assert(s.supporters_per_project[i].0 == pid);
        assert(has_key(s.project_metadata, pid));
    }
    if force_stopped(s, pid) {
        let i = key_index(s.force_stop_project, pid);
        assert(s.force_stop_project[i].0 == pid);
        assert(has_key(s.supporters_per_project, pid));
        let k = key_index(s.supporters_per_project, pid);
        assert(s.supporters_per_project[k].0 == pid);
        assert(has_key(s.project_metadata, pid));
    }
}

/// A balance of zero stays zero under every call but its holder's own
/// donation to that project.
pub proof fn law_zero_balance_stays(
    s: ContractView,
    pid: Seq<char>,
    holder: Seq<char>,
    other_pid: Seq<char>,
    m: ProjectMetadata,
    amount: Balance,
    transfer_succeeded: bool,
    ctx: CallContext,
)
    requires
        contract_wf(s),
        balance_of(s, pid, holder) == 0,
    ensures
        balance_of(new_project_post(s, m, ctx), pid, holder) == 0,
        other_pid != pid || ctx.predecessor_account_id@ != holder ==> balance_of(
            support_post(s, other_pid, ctx),
            pid,
            holder,
        ) == 0,
        balance_of(reward_transfer_post(s, other_pid, amount, transfer_succeeded), pid, holder)
            == 0,
        balance_of(force_stop_post(s, other_pid, ctx), pid, holder) == 0,
        balance_of(drawdown_post(s, other_pid, ctx), pid, holder) == 0,
{
    let caller = ctx.predecessor_account_id@;
    lemma_supporters_of(s, other_pid);
    lemma_supporters_of(s, pid);
    if support_outcome(s, other_pid, ctx) is Ok && (other_pid != pid || caller != holder) {
        let b = support_outcome(s, other_pid, ctx)->Ok_0;
        let inner = put(supporters_of(s, other_pid), caller, b);
        lemma_put(s.supporters_per_project, other_pid, inner);
        lemma_put(supporters_of(s, other_pid), caller, b);
        let t = support_post(s, other_pid, ctx);
        if other_pid != pid {
            assert(lookup(t.supporters_per_project, pid) == lookup(s.supporters_per_project, pid));
        } else {
            assert(lookup(inner, holder) == lookup(supporters_of(s, pid), holder));
        }
    }
    if drawdown_outcome(s, other_pid, ctx) is Ok {
        let inner = put(supporters_of(s, other_pid), caller, 0u128);
        lemma_put(s.supporters_per_project, other_pid, inner);
        lemma_put(supporters_of(s, other_pid), caller, 0u128);
        let t = drawdown_post(s, other_pid, ctx);
        if other_pid != pid {
            assert(lookup(t.supporters_per_project, pid) == lookup(s.supporters_per_project, pid));
        } else if caller != holder {
            assert(lookup(inner, holder) == lookup(supporters_of(s, pid), holder));
        }
    }
}

/// A drawdown by an account whose balance is zero pays nothing: it is
/// refused.
pub proof fn law_zero_balance_draws_nothing(s: ContractView, pid: Seq<char>, ctx: CallContext)
    requires
        balance_of(s, pid, ctx.predecessor_account_id@) == 0,
    ensures
        drawdown_outcome(s, pid, ctx) is Err,
{
}

/// The sum of the balances in `s`.
pub open spec fn total_balance(s: Seq<(Seq<char>, Balance)>) -> int
    decreases s.len(),
{
    if s.len() == 0 {
        0
    } else {
        total_balance(s.drop_last()) + s.last().1
    }
}

/// Replacing one entry changes the sum by the difference of the balances.
proof fn lemma_total_update(s: Seq<(Seq<char>, Balance)>, i: int, x: (Seq<char>, Balance))
    requires
        0 <= i < s.len(),
    ensures
        total_balance(s.update(i, x)) == total_balance(s) - s[i].1 + x.1,
    decreases s.len(),
{
    let u = s.update(i, x);
    if i == s.len() - 1 {
        assert(u.drop_last() =~= s.drop_last());
    } else {
        assert(u.drop_last() =~= s.drop_last().update(i, x));
        lemma_total_update(s.drop_last(), i, x);
    }
}

/// Writing a balance under a key changes the sum by the difference with
/// what the key held (nothing, for a new key).
proof fn lemma_total_put(s: Seq<(Seq<char>, Balance)>, k: Seq<char>, v: Balance)
    requires
        keys_unique(s),
    ensures
        total_balance(put(s, k, v)) == total_balance(s) - (match lookup(s, k) {
            Some(b) => b as int,
            None => 0,
        }) + v,
{
    if has_key(s, k) {
        let i = key_index(s, k);
        assert(s[i].0 == k);
        lemma_total_update(s, i, (k, v));
    } else {
        assert(s.push((k, v)).drop_last() =~= s);
    }
}

/// Voting twice counts once: after a counted vote, the same supporter's
/// second vote is refused because the project is stopped, or is accepted
/// and changes nothing.
pub proof fn law_vote_counts_once(s: ContractView, pid: Seq<char>, ctx: CallContext)
    requires
        contract_wf(s),
        force_stop_outcome(s, pid, ctx) is Ok,
    ensures
        ({
            let t = force_stop_post(s, pid, ctx);
            ||| force_stop_outcome(t, pid, ctx) == Err::<(), ContractError>(
                ContractError::AlreadyForceStopped,
            )
            ||| force_stop_outcome(t, pid, ctx) == Ok::<(), ContractError>(()) && force_stop_post(
                t,
                pid,
                ctx,
            ) == t
        }),
{
    let voter = ctx.predecessor_account_id@;
    let t = force_stop_post(s, pid, ctx);
    let v = after_vote(s, pid, voter);
    if !force_stopped(t, pid) {
        let votes = set_add(votes_of(s, pid), voter);
        lemma_votes_of(s, pid);
        lemma_set_add(votes_of(s, pid), voter);
        lemma_put(s.force_stop_project, pid, votes);
        assert(lookup(v.force_stop_project, pid) == Some(votes));
        assert(supporters_of(v, pid) == supporters_of(s, pid));
        assert(!force_stopped(v, pid));
        assert(t == v);
        assert(votes_of(t, pid) == votes);
        assert(set_add(votes_of(t, pid), voter) == votes);
        lemma_put_same(t.force_stop_project, pid, votes);
        assert(after_vote(t, pid, voter) =~= t);
        assert(has_key(supporters_of(t, pid), voter));
        assert(has_key(t.supporters_per_project, pid));
        assert(force_stop_post(t, pid, ctx) =~= t);
    }
}

/// Writing back the value a key already holds changes nothing.
proof fn lemma_put_same<T>(s: Seq<(Seq<char>, T)>, k: Seq<char>, v: T)
    requires
        keys_unique(s),
        lookup(s, k) == Some(v),
    ensures
        put(s, k, v) == s,
{
    let i = key_index(s, k);
    assert(s[i].0 == k);
    assert(put(s, k, v) =~= s);
}

/// A created project can be read back: its owner, its metadata with
/// nothing funded and nothing claimed, and its place among its owner's
/// projects.
pub proof fn law_created_project_readable(s: ContractView, m: ProjectMetadata, ctx: CallContext)
    requires
        contract_wf(s),
        new_project_outcome(m, ctx) is Ok,
    ensures
        ({
            let id = new_project_outcome(m, ctx)->Ok_0;
            let t = new_project_post(s, m, ctx);
            &&& lookup(t.project, id) == Some(Project { owner_id: ctx.predecessor_account_id })
            &&& lookup(t.project_metadata, id) == Some(with_fresh_funding(m))
            &&& lookup(t.project_metadata, id) == Some(ProjectMetadata { funded: 0, claimed: 0, ..m })
            &&& projects_of(t, ctx.predecessor_account_id@).contains(id)
        }),
{
    let id = new_project_outcome(m, ctx)->Ok_0;
    let owner = ctx.predecessor_account_id@;
    let ids = projects_of(s, owner);
    let t = new_project_post(s, m, ctx);
    lemma_put(s.project, id, Project { owner_id: ctx.predecessor_account_id });
    lemma_put(s.project_metadata, id, with_fresh_funding(m));
    lemma_put(s.project_per_owner, owner, set_add(ids, id));
    if has_key(s.project_per_owner, owner) {
        let i = key_index(s.project_per_owner, owner);
        assert(s.project_per_owner[i].0 == owner);
    }
    lemma_set_add(ids, id);
}

/// A donation is added both to the project's funds and to the donor's
/// balance, which is what the call answers.
pub proof fn law_support_is_recorded(s: ContractView, pid: Seq<char>, ctx: CallContext)
    requires
        contract_wf(s),
        support_outcome(s, pid, ctx) is Ok,
    ensures
        ({
            let t = support_post(s, pid, ctx);
            let b = support_outcome(s, pid, ctx)->Ok_0;
            &&& b == balance_of(s, pid, ctx.predecessor_account_id@) + ctx.attached_deposit
            &&& balance_of(t, pid, ctx.predecessor_account_id@) == b
            &&& lookup(t.project_metadata, pid)->Some_0.funded == lookup(
                s.project_metadata,
                pid,
            )->Some_0.funded + ctx.attached_deposit
            &&& total_balance(supporters_of(t, pid)) == total_balance(supporters_of(s, pid))
                + ctx.attached_deposit
            &&& forall|other: Seq<char>|
                other != pid ==> #[trigger] supporters_of(t, other) == supporters_of(s, other)
        }),
{
    let caller = ctx.predecessor_account_id@;
    let b = support_outcome(s, pid, ctx)->Ok_0;
    let m = lookup(s.project_metadata, pid)->Some_0;
    lemma_supporters_of(s, pid);
    lemma_put(supporters_of(s, pid), caller, b);
    lemma_put(s.supporters_per_project, pid, put(supporters_of(s, pid), caller, b));
    lemma_total_put(supporters_of(s, pid), caller, b);
    let t = support_post(s, pid, ctx);
    assert forall|other: Seq<char>| other != pid implies #[trigger] supporters_of(t, other)
        == supporters_of(s, other) by {
        assert(lookup(t.supporters_per_project, other) == lookup(s.supporters_per_project, other));
    }
    lemma_put(
        s.project_metadata,
        pid,
        ProjectMetadata { funded: (m.funded + ctx.attached_deposit) as u128, ..m },
    );
}

/// A refused call leaves the state as it was, and so does the report of a
/// failed transfer.
pub proof fn law_refusal_changes_nothing(
    s: ContractView,
    pid: Seq<char>,
    m: ProjectMetadata,
    amount: Balance,
    ctx: CallContext,
)
    ensures
        new_project_outcome(m, ctx) is Err ==> new_project_post(s, m, ctx) == s,
        support_outcome(s, pid, ctx) is Err ==> support_post(s, pid, ctx) == s,
        reward_transfer_outcome(s, pid, amount, true) is Err ==> reward_transfer_post(
            s,
            pid,
            amount,
            true,
        ) == s,
        force_stop_outcome(s, pid, ctx) is Err ==> force_stop_post(s, pid, ctx) == s,
        drawdown_outcome(s, pid, ctx) is Err ==> drawdown_post(s, pid, ctx) == s,
        reward_transfer_post(s, pid, amount, false) == s,
{
}

/// The votes to stop a project never outnumber its supporters: only
/// supporters vote, and each vote counts once.
pub proof fn law_votes_within_supporters(s: ContractView, pid: Seq<char>)
    requires
        contract_wf(s),
    ensures
        votes_of(s, pid).len() <= supporters_of(s, pid).len(),
{
    lemma_votes_of(s, pid);
    let votes = votes_of(s, pid);
    let sup = supporters_of(s, pid);
    lemma_supporters_of(s, pid);
    // Each vote names a distinct supporter: map votes injectively into
    // supporter positions.
    let f = |j: int| key_index(sup, votes[j]);
    assert forall|a: int, b: int|
        0 <= a < votes.len() && 0 <= b < votes.len() && a != b implies #[trigger] f(a) != #[trigger] f(
        b,
    ) by {
        assert(has_key(sup, votes[a]));
        assert(has_key(sup, votes[b]));
        assert(sup[f(a)].0 == votes[a]);
        assert(sup[f(b)].0 == votes[b]);
    }
    assert forall|a: int| 0 <= a < votes.len() implies 0 <= #[trigger] f(a) < sup.len() by {
        assert(has_key(sup, votes[a]));
    }
    lemma_injective_len(votes.len() as int, sup.len() as int, f);
}

/// An injection from `0..n` into `0..m` needs `n <= m`.
proof fn lemma_injective_len(n: int, m: int, f: spec_fn(int) -> int)
    requires
        0 <= n,
        0 <= m,
        forall|a: int| 0 <= a < n ==> 0 <= #[trigger] f(a) < m,
        forall|a: int, b: int|
            0 <= a < n && 0 <= b < n && a != b ==> #[trigger] f(a) != #[trigger] f(b),
    ensures
        n <= m,
    decreases n,
{
    if n > 0 {
        // Drop the last element of the domain, and swap `f(n-1)`'s image
        // with the top of the range.
        let top = m - 1;
        let g = |a: int| if f(a) == top { f(n - 1) } else { f(a) };
        assert forall|a: int| 0 <= a < n - 1 implies 0 <= #[trigger] g(a) < m - 1 by {
            if f(a) == top {
                assert(f(n - 1) != f(a));
            }
        }
        assert forall|a: int, b: int|
            0 <= a < n - 1 && 0 <= b < n - 1 && a != b implies #[trigger] g(a) != #[trigger] g(b) by {
            assert(f(a) != f(b));
            if f(a) == top {
                assert(f(n - 1) != f(b));
            }
            if f(b) == top {
                assert(f(n - 1) != f(a));
            }
        }
        lemma_injective_len(n - 1, m - 1, g);
    }
}


/// Creating a project costs exactly one NEAR, needs a title of at most
/// `MAX_TITLE_LENGTH` bytes and a funding period that ends after now, and
/// names the project after its creator and block; every other creation is
/// refused, the fee first, then the title, then the end time.
pub proof fn law_new_project_rules(m: ProjectMetadata, ctx: CallContext)
    ensures
        ({
            let title_ok = (vstd::utf8::encode_utf8(m.title@).len() as usize) <= MAX_TITLE_LENGTH;
            let fee_ok = ctx.attached_deposit == NEAR_DECIMAL;
            let end_ok = m.ended_at > ctx.block_timestamp;
            &&& new_project_outcome(m, ctx) is Ok <==> fee_ok && title_ok && end_ok
            &&& new_project_outcome(m, ctx) is Ok ==> new_project_outcome(m, ctx)->Ok_0
                == ctx.predecessor_account_id@ + seq!['#'] + decimal(ctx.block_index as nat)
            &&& !fee_ok ==> new_project_outcome(m, ctx) == Err::<Seq<char>, ContractError>(
                ContractError::WrongCreationDeposit,
            )
            &&& fee_ok && !title_ok ==> new_project_outcome(m, ctx) == Err::<
                Seq<char>,
                ContractError,
            >(ContractError::TitleTooLong)
            &&& fee_ok && title_ok && m.ended_at <= ctx.block_timestamp ==> new_project_outcome(
                m,
                ctx,
            ) == Err::<Seq<char>, ContractError>(ContractError::InvalidEndTime)
        }),
{
}

/// A donation is accepted only for an existing project, only when it
/// reaches the project's minimum deposit, and only up to the end of the
/// funding period (`ended_at`, inclusive); within those bounds, and short
/// of overflow, it is accepted and answers the donor's old balance plus
/// the deposit.
pub proof fn law_support_rules(s: ContractView, pid: Seq<char>, ctx: CallContext)
    ensures
        ({
            let m = lookup(s.project_metadata, pid)->Some_0;
            let known = has_key(s.project_metadata, pid);
            let enough = ctx.attached_deposit >= m.minimum_deposit;
            let in_time = ctx.block_timestamp <= m.ended_at;
            &&& support_outcome(s, pid, ctx) is Ok ==> known && enough && in_time
            &&& !known ==> support_outcome(s, pid, ctx) == Err::<Balance, ContractError>(
                ContractError::ProjectDoesNotExist,
            )
            &&& known && !enough ==> support_outcome(s, pid, ctx) == Err::<Balance, ContractError>(
                ContractError::DepositBelowMinimum { minimum: m.minimum_deposit },
            )
            &&& known && enough && !in_time ==> support_outcome(s, pid, ctx) == Err::<
                Balance,
                ContractError,
            >(ContractError::DonationEnded)
            &&& known && enough && in_time && m.funded + ctx.attached_deposit <= u128::MAX
                && balance_of(s, pid, ctx.predecessor_account_id@) + ctx.attached_deposit
                <= u128::MAX ==> support_outcome(s, pid, ctx) == Ok::<Balance, ContractError>(
                (balance_of(s, pid, ctx.predecessor_account_id@) + ctx.attached_deposit) as u128,
            )
        }),
{
    if has_key(s.project_metadata, pid) {
        assert(lookup(s.project_metadata, pid) is Some);
    }
}

/// A project is stopped exactly when its stop votes outnumber half its
/// supporters, rounded down: with `n` supporters, `n / 2 + 1` votes stop
/// it and `n / 2` do not.
pub proof fn law_majority_stops(s: ContractView, pid: Seq<char>)
    ensures
        force_stopped(s, pid) <==> votes_of(s, pid).len() > supporters_of(s, pid).len() / 2,
        votes_of(s, pid).len() == supporters_of(s, pid).len() / 2 + 1 ==> force_stopped(s, pid),
        votes_of(s, pid).len() == supporters_of(s, pid).len() / 2 ==> !force_stopped(s, pid),
{
}

/// A vote to stop is taken only from a supporter of a project that is not
/// stopped. It adds the voter to the project's votes, leaves its supporters
/// as they are, and records the time of the stop exactly when the votes now
/// outnumber half the supporters; a project already stopped refuses it.
pub proof fn law_force_stop_rules(s: ContractView, pid: Seq<char>, ctx: CallContext)
    requires
        contract_wf(s),
    ensures
        ({
            let voter = ctx.predecessor_account_id@;
            let n = supporters_of(s, pid).len();
            let votes = set_add(votes_of(s, pid), voter);
            let t = force_stop_post(s, pid, ctx);
            let m = lookup(s.project_metadata, pid)->Some_0;
            &&& votes_of(s, pid).len() > n / 2 ==> force_stop_outcome(s, pid, ctx) == Err::<
                (),
                ContractError,
            >(ContractError::AlreadyForceStopped)
            &&& force_stop_outcome(s, pid, ctx) is Ok ==> {
                &&& votes_of(s, pid).len() <= n / 2
                &&& has_key(supporters_of(s, pid), voter)
                &&& votes_of(t, pid) == votes
                &&& supporters_of(t, pid) == supporters_of(s, pid)
                &&& votes.len() > n / 2 ==> lookup(t.project_metadata, pid) == Some(
                    ProjectMetadata { force_stop_ts: Some(ctx.block_timestamp), ..m },
                )
                &&& votes.len() <= n / 2 ==> t.project_metadata == s.project_metadata
            }
        }),
{
    let voter = ctx.predecessor_account_id@;
    let votes = set_add(votes_of(s, pid), voter);
    if force_stop_outcome(s, pid, ctx) is Ok {
        lemma_votes_of(s, pid);
        lemma_set_add(votes_of(s, pid), voter);
        lemma_put(s.force_stop_project, pid, votes);
        let v = after_vote(s, pid, voter);
        assert(lookup(v.force_stop_project, pid) == Some(votes));
        assert(supporters_of(v, pid) == supporters_of(s, pid));
        if force_stopped(v, pid) {
            lemma_put(
                s.project_metadata,
                pid,
                ProjectMetadata { force_stop_ts: Some(ctx.block_timestamp), ..lookup(
                    s.project_metadata,
                    pid,
                )->Some_0 },
            );
        }
    }
}

/// The vesting schedule in terms of the metadata: nothing before vesting
/// starts; everything not yet claimed once it has started and ended; and in
/// between,
/// for `e` whole intervals elapsed of the `t` intervals from start to end,
/// `e` equal shares of `funded / t`, less what was claimed.
pub proof fn law_vesting_schedule(m: ProjectMetadata, ts: u64)
    ensures
        ts < m.vesting_start_time ==> vesting_claimable(m, ts) == Ok::<Balance, ContractError>(0),
        m.vesting_start_time <= ts && ts >= m.vesting_end_time && m.claimed <= m.funded
            ==> vesting_claimable(m, ts) == Ok::<
            Balance,
            ContractError,
        >((m.funded - m.claimed) as u128),
        ({
            let i = m.vesting_interval as int;
            let t = (m.vesting_end_time - m.vesting_start_time) / i;
            let e = (ts - m.vesting_start_time) / i;
            let vested = (m.funded as int / t) * e;
            m.vesting_start_time <= ts < m.vesting_end_time && i > 0 && t > 0 && m.claimed <= vested
                ==> vesting_claimable(m, ts) == Ok::<Balance, ContractError>(
                (vested - m.claimed) as u128,
            )
        }),
        m.vesting_start_time <= ts < m.vesting_end_time && m.vesting_interval == 0
            ==> vesting_claimable(m, ts) == Err::<Balance, ContractError>(
            ContractError::DivisionByZero,
        ),
{
}

/// What a project has to claim follows its schedule at the current time
/// while it runs, and at the time it was stopped once stopped.
pub proof fn law_claimable_clock(s: ContractView, pid: Seq<char>, now: u64)
    requires
        has_key(s.project_metadata, pid),
    ensures
        ({
            let m = lookup(s.project_metadata, pid)->Some_0;
            let stopped = votes_of(s, pid).len() > supporters_of(s, pid).len() / 2;
            &&& !stopped ==> claimable_of(s, pid, now) == vesting_claimable(m, now)
            &&& stopped && m.force_stop_ts is Some ==> claimable_of(s, pid, now)
                == vesting_claimable(m, m.force_stop_ts->Some_0)
        }),
{
    law_majority_stops(s, pid);
}

/// A claim succeeds only on a project that exists and is not stopped, and
/// answers a positive amount that, with what was already claimed, stays
/// within the funds; on a stopped project with a stop time it is refused.
pub proof fn law_claim_rules(s: ContractView, pid: Seq<char>, now: u64)
    requires
        contract_wf(s),
    ensures
        ({
            let m = lookup(s.project_metadata, pid)->Some_0;
            let stopped = votes_of(s, pid).len() > supporters_of(s, pid).len() / 2;
            &&& claim_outcome(s, pid, now) is Ok ==> {
                let a = claim_outcome(s, pid, now)->Ok_0;
                &&& has_key(s.project, pid)
                &&& !stopped
                &&& a > 0
                &&& a + m.claimed <= m.funded
                &&& vesting_claimable(m, now) == Ok::<Balance, ContractError>(a)
            }
            &&& has_key(s.project, pid) && stopped && m.force_stop_ts is Some ==> claim_outcome(
                s,
                pid,
                now,
            ) == Err::<Balance, ContractError>(ContractError::ForcedStop)
        }),
{
    law_majority_stops(s, pid);
    if has_key(s.project, pid) {
        assert(has_key(s.project_metadata, pid));
    }
    if claim_outcome(s, pid, now) is Ok {
        let m = lookup(s.project_metadata, pid)->Some_0;
        law_vesting_within_funds(m, now);
    }
}

/// Recording a transfer adds exactly its amount to what the project paid
/// out and changes nothing else; a failed transfer changes nothing.
pub proof fn law_transfer_is_recorded(s: ContractView, pid: Seq<char>, amount: Balance)
    requires
        contract_wf(s),
    ensures
        reward_transfer_outcome(s, pid, amount, false) == Ok::<bool, ContractError>(false),
        reward_transfer_post(s, pid, amount, false) == s,
        reward_transfer_outcome(s, pid, amount, true) == Ok::<bool, ContractError>(true) ==> {
            let m = lookup(s.project_metadata, pid)->Some_0;
            let t = reward_transfer_post(s, pid, amount, true);
            &&& lookup(t.project_metadata, pid) == Some(
                ProjectMetadata { claimed: (m.claimed + amount) as u128, ..m },
            )
            &&& m.claimed + amount <= u128::MAX
            &&& t.supporters_per_project == s.supporters_per_project
            &&& t.force_stop_project == s.force_stop_project
        },
{
    if reward_transfer_outcome(s, pid, amount, true) == Ok::<bool, ContractError>(true) {
        let m = lookup(s.project_metadata, pid)->Some_0;
        lemma_put(
            s.project_metadata,
            pid,
            ProjectMetadata { claimed: (m.claimed + amount) as u128, ..m },
        );
    }
}

/// A drawdown is refused while the project runs. When it pays, what it
/// pays, with what was paid out and what is still claimable, stays within
/// the funds, and it is no more than the caller's balance; a sole
/// supporter, whose balance is the whole funding, gets all that is neither
/// paid out nor claimable. (This needs the balance within the funds, which
/// fails only where a project was created again in the block of its
/// first creation, resetting its funds.)
pub proof fn law_drawdown_within_unvested(s: ContractView, pid: Seq<char>, ctx: CallContext)
    requires
        contract_wf(s),
    ensures
        votes_of(s, pid).len() <= supporters_of(s, pid).len() / 2 ==> drawdown_outcome(s, pid, ctx)
            == Err::<Balance, ContractError>(ContractError::ProjectRunning),
        ({
            let m = lookup(s.project_metadata, pid)->Some_0;
            let invested = balance_of(s, pid, ctx.predecessor_account_id@);
            drawdown_outcome(s, pid, ctx) is Ok && invested <= m.funded ==> {
                let a = drawdown_outcome(s, pid, ctx)->Ok_0;
                &&& claimable_of(s, pid, ctx.block_timestamp) is Ok
                &&& a + m.claimed + claimable_of(s, pid, ctx.block_timestamp)->Ok_0 <= m.funded
                &&& a <= invested
                &&& invested == m.funded ==> a + m.claimed + claimable_of(
                    s,
                    pid,
                    ctx.block_timestamp,
                )->Ok_0 == m.funded
            }
        }),
{
    law_majority_stops(s, pid);
    let m = lookup(s.project_metadata, pid)->Some_0;
    let invested = balance_of(s, pid, ctx.predecessor_account_id@);
    if drawdown_outcome(s, pid, ctx) is Ok && invested <= m.funded {
        let c = claimable_of(s, pid, ctx.block_timestamp)->Ok_0;
        let rest = m.funded - m.claimed - c;
        assert(invested > 0 && m.funded > 0);
        if invested < m.funded {
            vstd::arithmetic::div_mod::lemma_basic_div(invested as int, m.funded as int);
            assert(invested / m.funded == 0);
        } else {
            vstd::arithmetic::div_mod::lemma_div_by_self(m.funded as int);
            assert(invested / m.funded == 1);
        }
    }
}

/// The number of milestones is the number of whole vesting intervals from
/// the start to the end of vesting: the same count the vesting schedule
/// divides the funds by.
pub proof fn law_milestones(s: ContractView, pid: Seq<char>)
    ensures
        ({
            let m = lookup(s.project_metadata, pid)->Some_0;
            &&& milestones_of(s, pid) is Ok ==> has_key(s.project_metadata, pid)
                && milestones_of(s, pid)->Ok_0 == (m.vesting_end_time - m.vesting_start_time)
                / (m.vesting_interval as int)
                && milestones_of(s, pid)->Ok_0 == total_intervals(m)
            &&& has_key(s.project_metadata, pid) && m.vesting_start_time <= m.vesting_end_time
                && m.vesting_interval > 0 ==> milestones_of(s, pid) is Ok
            &&& !has_key(s.project_metadata, pid) ==> milestones_of(s, pid) == Err::<
                u64,
                ContractError,
            >(ContractError::UnknownProject)
        }),
{
    let m = lookup(s.project_metadata, pid)->Some_0;
    if has_key(s.project_metadata, pid) && m.vesting_start_time <= m.vesting_end_time
        && m.vesting_interval > 0 {
        vstd::arithmetic::div_mod::lemma_div_is_ordered_by_denominator(
            m.vesting_end_time - m.vesting_start_time,
            1,
            m.vesting_interval as int,
        );
    }
}

} // verus!
