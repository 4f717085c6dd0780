use crowdfunding::{
    IdSet, Project, StrMap,
    vesting_claimable_at, CallContext, Contract, ContractError, ProjectMetadata, NEAR_DECIMAL,
};

fn ctx(who: &str, deposit: u128, now: u64, block: u64) -> CallContext {
    CallContext {
        predecessor_account_id: who.to_string(),
        attached_deposit: deposit,
        block_timestamp: now,
        block_index: block,
    }
}

fn metadata(title: &str) -> ProjectMetadata {
    ProjectMetadata {
        title: title.to_string(),
        description: "a project".to_string(),
        target: 1_000,
        minimum_deposit: 100,
        started_at: 0,
        ended_at: 1_000,
        funded: 77,
        vesting_start_time: 1_000,
        vesting_end_time: 4_000,
        vesting_interval: 1_000,
        claimed: 5,
        force_stop_ts: None,
    }
}

fn contract() -> Contract {
    Contract::new(&ctx("owner.near", 0, 0, 1))
}

/// A contract with one project, "alice.near#7", created at time 10.
fn contract_with_project() -> (Contract, String) {
    let mut c = contract();
    let id = c.new_project(metadata("Garden"), &ctx("alice.near", NEAR_DECIMAL, 10, 7)).unwrap();
    (c, id)
}

#[test]
fn new_contract_is_empty() {
    let c = contract();
    assert_eq!(c.owner_id, "owner.near");
    assert!(c.get_projects(0, 10).is_empty());
    assert_eq!(c.get_project("x#1".to_string()), Err(ContractError::ProjectNotFound));
}

#[test]
fn new_project_requires_one_near() {
    let mut c = contract();
    let r = c.new_project(metadata("Garden"), &ctx("alice.near", NEAR_DECIMAL - 1, 10, 7));
    assert_eq!(r, Err(ContractError::WrongCreationDeposit));
    let r = c.new_project(metadata("Garden"), &ctx("alice.near", 2 * NEAR_DECIMAL, 10, 7));
    assert_eq!(r, Err(ContractError::WrongCreationDeposit));
    assert!(c.get_projects(0, 10).is_empty());
}

#[test]
fn new_project_limits_title_bytes() {
    let mut c = contract();
    let long = "a".repeat(101);
    let r = c.new_project(metadata(&long), &ctx("alice.near", NEAR_DECIMAL, 10, 7));
    assert_eq!(r, Err(ContractError::TitleTooLong));
    // 50 two-byte characters are 100 bytes: accepted.
    let two_byte = "é".repeat(50);
    assert!(c.new_project(metadata(&two_byte), &ctx("alice.near", NEAR_DECIMAL, 10, 7)).is_ok());
    // 51 of them are 102 bytes, though only 51 characters.
    let too_long = "é".repeat(51);
    let r = c.new_project(metadata(&too_long), &ctx("alice.near", NEAR_DECIMAL, 10, 8));
    assert_eq!(r, Err(ContractError::TitleTooLong));
}

#[test]
fn new_project_requires_future_end() {
    let mut c = contract();
    let r = c.new_project(metadata("Garden"), &ctx("alice.near", NEAR_DECIMAL, 1_000, 7));
    assert_eq!(r, Err(ContractError::InvalidEndTime));
    assert!(c.new_project(metadata("Garden"), &ctx("alice.near", NEAR_DECIMAL, 999, 7)).is_ok());
}

#[test]
fn new_project_records_fresh_funding() {
    let (c, id) = contract_with_project();
    assert_eq!(id, "alice.near#7");
    let m = c.get_project(id.clone()).unwrap();
    assert_eq!(m.funded, 0);
    assert_eq!(m.claimed, 0);
    assert_eq!(m.title, "Garden");
    assert_eq!(m.vesting_interval, 1_000);
    let mine = c.get_my_projects("alice.near".to_string(), 0, 10);
    assert_eq!(mine.len(), 1);
    assert_eq!(mine[0].0, id);
    assert!(c.get_my_projects("bob.near".to_string(), 0, 10).is_empty());
}

#[test]
fn support_adds_to_funds_and_balance() {
    let (mut c, id) = contract_with_project();
    assert_eq!(c.support_project(id.clone(), &ctx("bob.near", 300, 20, 8)), Ok(300));
    assert_eq!(c.support_project(id.clone(), &ctx("bob.near", 150, 21, 9)), Ok(450));
    assert_eq!(c.support_project(id.clone(), &ctx("carol.near", 100, 22, 9)), Ok(100));
    assert_eq!(c.get_project(id.clone()).unwrap().funded, 550);
    let supporters = c.get_supporters(id).unwrap();
    assert_eq!(
        supporters,
        vec![("bob.near".to_string(), 450), ("carol.near".to_string(), 100)]
    );
}

#[test]
fn support_refusals() {
    let (mut c, id) = contract_with_project();
    assert_eq!(
        c.support_project("nobody#1".to_string(), &ctx("bob.near", 300, 20, 8)),
        Err(ContractError::ProjectDoesNotExist)
    );
    assert_eq!(
        c.support_project(id.clone(), &ctx("bob.near", 99, 20, 8)),
        Err(ContractError::DepositBelowMinimum { minimum: 100 })
    );
    assert_eq!(
        c.support_project(id.clone(), &ctx("bob.near", 300, 1_001, 8)),
        Err(ContractError::DonationEnded)
    );
    // The last moment of the funding period still counts.
    assert_eq!(c.support_project(id.clone(), &ctx("bob.near", 300, 1_000, 8)), Ok(300));
    assert_eq!(
        c.get_supporters("nobody#1".to_string()),
        Err(ContractError::ProjectNotFound)
    );
}

#[test]
fn vesting_schedule_values() {
    let mut m = metadata("Garden");
    m.funded = 300;
    m.claimed = 0;
    assert_eq!(vesting_claimable_at(&m, 999), Ok(0));
    assert_eq!(vesting_claimable_at(&m, 1_000), Ok(0));
    assert_eq!(vesting_claimable_at(&m, 1_999), Ok(0));
    assert_eq!(vesting_claimable_at(&m, 2_000), Ok(100));
    assert_eq!(vesting_claimable_at(&m, 3_500), Ok(200));
    assert_eq!(vesting_claimable_at(&m, 4_000), Ok(300));
    m.claimed = 100;
    assert_eq!(vesting_claimable_at(&m, 3_000), Ok(100));
    assert_eq!(vesting_claimable_at(&m, 5_000), Ok(200));
    // Shares are rounded down per interval.
    m.funded = 301;
    m.claimed = 0;
    assert_eq!(vesting_claimable_at(&m, 2_000), Ok(100));
    assert_eq!(vesting_claimable_at(&m, 4_000), Ok(301));
}

#[test]
fn vesting_schedule_errors() {
    let mut m = metadata("Garden");
    m.funded = 300;
    m.claimed = 0;
    m.vesting_interval = 0;
    assert_eq!(vesting_claimable_at(&m, 2_000), Err(ContractError::DivisionByZero));
    m.vesting_interval = 5_000;
    assert_eq!(vesting_claimable_at(&m, 2_000), Err(ContractError::DivisionByZero));
    m.vesting_interval = 1_000;
    m.claimed = 150;
    assert_eq!(vesting_claimable_at(&m, 2_000), Err(ContractError::Overflow));
    m.claimed = 301;
    assert_eq!(vesting_claimable_at(&m, 4_000), Err(ContractError::Overflow));
}

#[test]
fn vesting_never_decreases_over_time() {
    let mut m = metadata("Garden");
    m.funded = 1_000;
    m.claimed = 0;
    let mut last = 0;
    for t in (0..6_000).step_by(250) {
        let now = vesting_claimable_at(&m, t).unwrap();
        assert!(now >= last);
        assert!(now <= m.funded - m.claimed);
        last = now;
    }
}

#[test]
fn claim_and_settle() {
    let (mut c, id) = contract_with_project();
    c.support_project(id.clone(), &ctx("bob.near", 300, 20, 8)).unwrap();
    assert_eq!(
        c.claim_reward(id.clone(), &ctx("alice.near", 0, 1_500, 9)),
        Err(ContractError::NothingToClaim)
    );
    assert_eq!(c.get_claimable_amount(id.clone(), 2_500), Ok(100));
    assert_eq!(c.claim_reward(id.clone(), &ctx("alice.near", 0, 2_500, 9)), Ok(100));
    // A claim changes nothing until its transfer is settled.
    assert_eq!(c.get_project(id.clone()).unwrap().claimed, 0);
    assert_eq!(c.on_reward_transfer(id.clone(), 100, false), Ok(false));
    assert_eq!(c.get_project(id.clone()).unwrap().claimed, 0);
    assert_eq!(c.on_reward_transfer(id.clone(), 100, true), Ok(true));
    assert_eq!(c.get_project(id.clone()).unwrap().claimed, 100);
    // What was paid out cannot be claimed again at the same time.
    assert_eq!(
        c.claim_reward(id.clone(), &ctx("alice.near", 0, 2_500, 9)),
        Err(ContractError::NothingToClaim)
    );
    assert_eq!(c.claim_reward(id.clone(), &ctx("alice.near", 0, 9_000, 9)), Ok(200));
    assert_eq!(
        c.claim_reward("nobody#1".to_string(), &ctx("alice.near", 0, 2_500, 9)),
        Err(ContractError::UnknownProject)
    );
    assert_eq!(
        c.on_reward_transfer("nobody#1".to_string(), 1, true),
        Err(ContractError::MissingValue)
    );
    assert_eq!(c.on_reward_transfer("nobody#1".to_string(), 1, false), Ok(false));
}

#[test]
fn milestones() {
    let (c, id) = contract_with_project();
    assert_eq!(c.get_number_of_miletones(id), Ok(3));
    assert_eq!(
        c.get_number_of_miletones("nobody#1".to_string()),
        Err(ContractError::UnknownProject)
    );
    assert_eq!(
        c.internal_get_claimable_amount("nobody#1".to_string(), 5),
        Err(ContractError::MissingProjectMetadata)
    );
}

#[test]
fn majority_stops_a_project() {
    let (mut c, id) = contract_with_project();
    c.support_project(id.clone(), &ctx("bob.near", 300, 20, 8)).unwrap();
    c.support_project(id.clone(), &ctx("carol.near", 300, 20, 8)).unwrap();
    c.support_project(id.clone(), &ctx("dave.near", 300, 20, 8)).unwrap();
    assert_eq!(
        c.force_stop(id.clone(), &ctx("eve.near", 0, 30, 9)),
        Err(ContractError::NotASupporter)
    );
    assert_eq!(
        c.force_stop("nobody#1".to_string(), &ctx("bob.near", 0, 30, 9)),
        Err(ContractError::ProjectNotFound)
    );
    assert_eq!(c.force_stop(id.clone(), &ctx("bob.near", 0, 30, 9)), Ok(()));
    assert!(!c.is_force_stop(id.clone()));
    // A second vote by the same supporter changes nothing.
    assert_eq!(c.force_stop(id.clone(), &ctx("bob.near", 0, 31, 9)), Ok(()));
    assert!(!c.is_force_stop(id.clone()));
    assert_eq!(c.get_project(id.clone()).unwrap().force_stop_ts, None);
    assert_eq!(c.force_stop(id.clone(), &ctx("carol.near", 0, 2_500, 9)), Ok(()));
    assert!(c.is_force_stop(id.clone()));
    assert_eq!(c.get_project(id.clone()).unwrap().force_stop_ts, Some(2_500));
    assert_eq!(
        c.force_stop(id.clone(), &ctx("dave.near", 0, 2_600, 9)),
        Err(ContractError::AlreadyForceStopped)
    );
    assert_eq!(
        c.claim_reward(id.clone(), &ctx("alice.near", 0, 3_000, 9)),
        Err(ContractError::ForcedStop)
    );
    // Vesting is frozen at the time of the stop.
    assert_eq!(c.get_claimable_amount(id.clone(), 9_000), Ok(300));
    // The list of voters is answered empty.
    assert!(c.get_force_stop_accounts(id).is_empty());
}

#[test]
fn drawdown_from_a_stopped_project() {
    let (mut c, id) = contract_with_project();
    c.support_project(id.clone(), &ctx("bob.near", 600, 20, 8)).unwrap();
    assert_eq!(
        c.drawdown(id.clone(), &ctx("bob.near", 0, 30, 9)),
        Err(ContractError::ProjectRunning)
    );
    c.force_stop(id.clone(), &ctx("bob.near", 0, 2_500, 9)).unwrap();
    assert!(c.is_force_stop(id.clone()));
    // 600 funded, 200 vested by time 2500: 400 go back to the only supporter.
    assert_eq!(c.drawdown(id.clone(), &ctx("bob.near", 0, 3_000, 9)), Ok(400));
    assert_eq!(c.get_supporters(id.clone()).unwrap(), vec![("bob.near".to_string(), 0)]);
    assert_eq!(
        c.drawdown(id.clone(), &ctx("bob.near", 0, 3_000, 9)),
        Err(ContractError::ZeroInvestment)
    );
    assert_eq!(
        c.drawdown(id.clone(), &ctx("eve.near", 0, 3_000, 9)),
        Err(ContractError::NotASupporter)
    );
    // The project stays stopped: the supporter is still counted.
    assert!(c.is_force_stop(id));
}

#[test]
fn drawdown_share_is_whole_units_of_funding() {
    let (mut c, id) = contract_with_project();
    c.support_project(id.clone(), &ctx("bob.near", 300, 20, 8)).unwrap();
    c.support_project(id.clone(), &ctx("carol.near", 300, 20, 8)).unwrap();
    c.force_stop(id.clone(), &ctx("bob.near", 0, 500, 9)).unwrap();
    c.force_stop(id.clone(), &ctx("carol.near", 0, 500, 9)).unwrap();
    assert!(c.is_force_stop(id.clone()));
    // 300 / 600 is zero in whole units, so the share is zero.
    assert_eq!(c.drawdown(id.clone(), &ctx("bob.near", 0, 600, 9)), Ok(0));
    assert_eq!(
        c.drawdown(id, &ctx("bob.near", 0, 600, 9)),
        Err(ContractError::ZeroInvestment)
    );
}

#[test]
fn projects_listed_newest_first() {
    let mut c = contract();
    for block in 1..=5u64 {
        c.new_project(metadata("P"), &ctx("alice.near", NEAR_DECIMAL, 10, block)).unwrap();
    }
    let ids = |v: Vec<(String, ProjectMetadata)>| v.into_iter().map(|p| p.0).collect::<Vec<_>>();
    assert_eq!(
        ids(c.get_projects(0, 2)),
        vec!["alice.near#5".to_string(), "alice.near#4".to_string()]
    );
    assert_eq!(
        ids(c.get_projects(2, 2)),
        vec!["alice.near#3".to_string(), "alice.near#2".to_string()]
    );
    assert_eq!(ids(c.get_projects(4, 2)), vec!["alice.near#1".to_string()]);
    assert!(c.get_projects(5, 2).is_empty());
    assert_eq!(ids(c.get_projects(0, 100)).len(), 5);
    let mine = ids(c.get_my_projects("alice.near".to_string(), 1, 2));
    assert_eq!(mine, vec!["alice.near#2".to_string(), "alice.near#3".to_string()]);
    assert!(c.get_my_projects("alice.near".to_string(), 7, 2).is_empty());
}

#[test]
fn recreating_in_the_same_block_overwrites() {
    let mut c = contract();
    let first = c.new_project(metadata("One"), &ctx("alice.near", NEAR_DECIMAL, 10, 3)).unwrap();
    c.support_project(first.clone(), &ctx("bob.near", 300, 20, 4)).unwrap();
    let second = c.new_project(metadata("Two"), &ctx("alice.near", NEAR_DECIMAL, 11, 3)).unwrap();
    assert_eq!(first, second);
    let m = c.get_project(second.clone()).unwrap();
    assert_eq!(m.title, "Two");
    assert_eq!(m.funded, 0);
    assert_eq!(c.get_projects(0, 10).len(), 1);
    assert_eq!(c.get_my_projects("alice.near".to_string(), 0, 10).len(), 1);
    assert_eq!(c.get_supporters(second).unwrap(), vec![("bob.near".to_string(), 300)]);
}

#[test]
fn error_messages() {
    assert_eq!(
        ContractError::WrongCreationDeposit.message(),
        "Attach exactly 1 Near to create new project"
    );
    assert_eq!(ContractError::TitleTooLong.message(), "Title's too long!");
    assert_eq!(ContractError::ZeroInvestment.message(), "You invest is Zero!!");
    assert_eq!(
        ContractError::DepositBelowMinimum { minimum: 5 }.message(),
        "Donation must greater than"
    );
}

#[test]
fn refused_support_changes_nothing() {
    let (mut c, id) = contract_with_project();
    c.support_project(id.clone(), &ctx("bob.near", 300, 20, 8)).unwrap();
    let before = c.get_projects(0, 10);
    assert!(c.support_project(id.clone(), &ctx("carol.near", 1, 20, 8)).is_err());
    assert_eq!(c.get_projects(0, 10), before);
    assert_eq!(c.get_supporters(id).unwrap(), vec![("bob.near".to_string(), 300)]);
}

#[test]
fn operations_keep_the_invariant() {
    let (mut c, id) = contract_with_project();
    assert!(c.check_invariant());
    c.support_project(id.clone(), &ctx("bob.near", 300, 20, 8)).unwrap();
    c.force_stop(id.clone(), &ctx("bob.near", 0, 30, 9)).unwrap();
    c.drawdown(id.clone(), &ctx("bob.near", 0, 40, 9)).unwrap();
    assert!(c.check_invariant());
}

#[test]
fn invariant_check_rejects_an_inconsistent_state() {
    let (mut c, _) = contract_with_project();
    // An owner without metadata.
    c.project.insert("ghost#1".to_string(), Project { owner_id: "x".to_string() });
    assert!(!c.check_invariant());
    let (mut c, id) = contract_with_project();
    // A vote from someone who never supported the project.
    let mut votes = IdSet::new();
    votes.insert("mallory.near".to_string());
    c.force_stop_project.insert(id.clone(), votes);
    assert!(!c.check_invariant());
    let mut supporters = StrMap::new();
    supporters.insert("bob.near".to_string(), 1u128);
    c.supporters_per_project.insert(id, supporters);
    assert!(!c.check_invariant());
}

#[test]
fn claimable_before_and_after_vesting() {
    let (mut c, id) = contract_with_project();
    c.support_project(id.clone(), &ctx("bob.near", 300, 20, 8)).unwrap();
    assert_eq!(c.get_claimable_amount(id.clone(), 500), Ok(0));
    assert_eq!(c.get_claimable_amount(id.clone(), 3_999), Ok(200));
    assert_eq!(c.internal_get_claimable_amount(id.clone(), 4_000), Ok(300));
    assert_eq!(
        c.claim_reward(id, &ctx("alice.near", 0, 500, 9)),
        Err(ContractError::NothingToClaim)
    );
}

#[test]
fn invariant_check_rejects_misattributed_projects() {
    let (mut c, id) = contract_with_project();
    // Alice's project listed under Bob.
    let mut ids = IdSet::new();
    ids.insert(id.clone());
    c.project_per_owner.insert("bob.near".to_string(), ids);
    assert!(!c.check_invariant());
    // A project whose name does not match its owner.
    let (mut c, id) = contract_with_project();
    c.project.insert(id, Project { owner_id: "bob.near".to_string() });
    assert!(!c.check_invariant());
    // Supporters of a project that has no metadata.
    let (mut c, _) = contract_with_project();
    let mut supporters = StrMap::new();
    supporters.insert("bob.near".to_string(), 1u128);
    c.supporters_per_project.insert("nobody#1".to_string(), supporters);
    assert!(!c.check_invariant());
}

#[test]
fn donations_add_to_the_sum_of_balances() {
    let (mut c, id) = contract_with_project();
    let total = |c: &Contract| c.get_supporters(id.clone()).unwrap().iter().map(|e| e.1).sum::<u128>();
    c.support_project(id.clone(), &ctx("bob.near", 300, 20, 8)).unwrap();
    assert_eq!(total(&c), 300);
    c.support_project(id.clone(), &ctx("carol.near", 250, 20, 8)).unwrap();
    c.support_project(id.clone(), &ctx("bob.near", 100, 20, 8)).unwrap();
    assert_eq!(total(&c), 650);
    assert_eq!(c.get_project(id.clone()).unwrap().funded, 650);
}

#[test]
fn a_drawn_down_balance_stays_zero() {
    let (mut c, id) = contract_with_project();
    c.support_project(id.clone(), &ctx("bob.near", 600, 20, 8)).unwrap();
    c.force_stop(id.clone(), &ctx("bob.near", 0, 2_500, 9)).unwrap();
    assert_eq!(c.drawdown(id.clone(), &ctx("bob.near", 0, 3_000, 9)), Ok(400));
    // Other accounts' calls in between.
    c.new_project(metadata("Other"), &ctx("carol.near", NEAR_DECIMAL, 10, 11)).unwrap();
    c.support_project("carol.near#11".to_string(), &ctx("bob.near", 200, 20, 12)).unwrap();
    assert_eq!(c.claim_reward(id.clone(), &ctx("alice.near", 0, 3_100, 13)), Err(ContractError::ForcedStop));
    assert_eq!(c.get_supporters(id.clone()).unwrap(), vec![("bob.near".to_string(), 0)]);
    assert!(c.drawdown(id.clone(), &ctx("bob.near", 0, 3_200, 14)).is_err());
    assert!(c.check_invariant());
}
