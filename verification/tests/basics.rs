use crowdfunding::{gen_proj_id, valid_url, CallContext, ProjectMetadata, NEAR_DECIMAL};

#[test]
fn project_id_joins_creator_and_block() {
    let ctx = CallContext {
        predecessor_account_id: "alice.near".to_string(),
        attached_deposit: 0,
        block_timestamp: 0,
        block_index: 42,
    };
    assert_eq!(gen_proj_id(&ctx), "alice.near#42");
    let ctx = CallContext { block_index: 0, ..ctx };
    assert_eq!(gen_proj_id(&ctx), "alice.near#0");
    let ctx = CallContext { block_index: u64::MAX, ..ctx };
    assert_eq!(gen_proj_id(&ctx), "alice.near#18446744073709551615");
}

#[test]
fn urls_are_checked_by_the_url_crate() {
    assert!(valid_url("https://near.org/projects?id=1".to_string()));
    assert!(valid_url("mailto:someone@example.com".to_string()));
    assert!(!valid_url("not a url".to_string()));
    assert!(!valid_url("".to_string()));
    assert!(!valid_url("/relative/path".to_string()));
}

#[test]
fn default_metadata() {
    let now = 5_000_000_000u64;
    let m = ProjectMetadata::default_at(now);
    assert_eq!(m.title, "Default title");
    assert_eq!(m.description, "");
    assert_eq!(m.target, NEAR_DECIMAL * 100);
    assert_eq!(m.minimum_deposit, NEAR_DECIMAL);
    assert_eq!(m.started_at, now);
    assert_eq!(m.ended_at, now + 60_000_000_000);
    assert_eq!(m.funded, 0);
    assert_eq!(m.vesting_start_time, now + 60_000_000_000);
    assert_eq!(m.vesting_end_time, now + 180_000_000_000);
    assert_eq!(m.vesting_interval, 30_000_000_000);
    assert_eq!(m.claimed, 0);
    assert_eq!(m.force_stop_ts, None);
    assert_eq!(m.internal_get_funded(), 0);
    assert_eq!(m.internal_get_claimed(), 0);
}
