use leveling::error::EngineError;
use leveling::ladder::{RoleEntry, RoleMap};
use leveling::policy::LevelingPolicy;
use leveling::progress::UserProgress;
use leveling::progress::backfill_record;
use leveling::roles::{
    assign_missing_roles, grant_milestone_role, load_ladder, reconcile_level, reconcile_users,
    role_grant_from, summarize, teardown_ladder, teardown_of, BatchSummary, RoleGrant,
    UserReconciliation,
};
use std::collections::HashMap;

const STORED: &str = "{0:\"r0\",5:\"r5\",10:\"r10\"}";

fn user(id: &str, level: u32) -> UserProgress {
    UserProgress {
        user_id: id.to_string(),
        username: format!("name-{}", id),
        level,
        xp: 0,
        last_activity_time: 0,
    }
}

fn entry(milestone: u32) -> RoleEntry {
    RoleEntry { milestone, role_id: format!("r{}", milestone) }
}

#[test]
fn teardown_without_a_ladder_is_not_found_and_deletes_nothing() {
    assert_eq!(teardown_ladder(None), Err(EngineError::NotFound));
}

#[test]
fn teardown_lists_every_role_once() {
    let teardown = teardown_ladder(Some(STORED)).unwrap();
    assert_eq!(teardown.count, 3);
    let mut deletions = teardown.deletions;
    deletions.sort_by_key(|e| e.milestone);
    assert_eq!(deletions, vec![entry(0), entry(5), entry(10)]);
    let empty = teardown_ladder(Some("{}")).unwrap();
    assert_eq!(empty.count, 0);
    assert!(empty.deletions.is_empty());
}

#[test]
fn teardown_of_a_corrupt_ladder_is_reported() {
    assert_eq!(teardown_ladder(Some("not a map")), Err(EngineError::Corruption));
}

#[test]
fn teardown_of_a_map_counts_its_rungs() {
    let mut table = HashMap::new();
    table.insert(3, "x".to_string());
    let teardown = teardown_of(&RoleMap::from_table(table));
    assert_eq!(teardown.count, 1);
    assert_eq!(teardown.deletions, vec![RoleEntry { milestone: 3, role_id: "x".to_string() }]);
}

#[test]
fn ladder_loads_from_the_store() {
    assert_eq!(load_ladder(None).err(), Some(EngineError::NotFound));
    assert_eq!(load_ladder(Some("{")).err(), Some(EngineError::Corruption));
    let map = load_ladder(Some(STORED)).unwrap();
    assert_eq!(map.role_for(10), Some("r10".to_string()));
}

#[test]
fn milestone_role_is_granted_from_the_stored_ladder() {
    let grant = grant_milestone_role(Some(STORED), "guild", "42", 5).unwrap();
    assert_eq!(
        grant,
        RoleGrant {
            guild_id: "guild".to_string(),
            user_id: "42".to_string(),
            level: 5,
            role_id: "r5".to_string(),
        }
    );
}

#[test]
fn grant_fails_where_the_ladder_lacks_the_level() {
    assert_eq!(grant_milestone_role(Some(STORED), "guild", "42", 15), Err(EngineError::ExternalApiFailure));
    assert_eq!(grant_milestone_role(Some(STORED), "guild", "42", 7), Err(EngineError::ExternalApiFailure));
    assert_eq!(grant_milestone_role(None, "guild", "42", 5), Err(EngineError::NotFound));
    assert_eq!(grant_milestone_role(Some("junk"), "guild", "42", 5), Err(EngineError::Corruption));
    let map = load_ladder(Some(STORED)).unwrap();
    assert_eq!(role_grant_from(&map, "g", "u", 1), Err(EngineError::ExternalApiFailure));
    assert_eq!(role_grant_from(&map, "g", "u", 0).unwrap().role_id, "r0");
}

#[test]
fn user_at_level_twelve_is_owed_three_roles_once_each() {
    let policy = LevelingPolicy::standard();
    let out = assign_missing_roles(Some(STORED), &vec![user("42", 12)], &policy).unwrap();
    assert_eq!(
        out,
        vec![UserReconciliation {
            user_id: "42".to_string(),
            grants: vec![entry(0), entry(5), entry(10)],
            missing: None,
        }]
    );
}

#[test]
fn one_users_gap_does_not_touch_the_others() {
    let policy = LevelingPolicy::standard();
    let users = vec![user("a", 4), user("b", 17), user("c", 10), user("d", 0)];
    let out = assign_missing_roles(Some(STORED), &users, &policy).unwrap();
    assert_eq!(out.len(), 4);
    assert_eq!(out[0], UserReconciliation { user_id: "a".to_string(), grants: vec![entry(0)], missing: None });
    assert_eq!(
        out[1],
        UserReconciliation {
            user_id: "b".to_string(),
            grants: vec![entry(0), entry(5), entry(10)],
            missing: Some(15),
        }
    );
    assert_eq!(
        out[2],
        UserReconciliation { user_id: "c".to_string(), grants: vec![entry(0), entry(5), entry(10)], missing: None }
    );
    assert_eq!(out[3], UserReconciliation { user_id: "d".to_string(), grants: vec![entry(0)], missing: None });
}

#[test]
fn reconciliation_stops_at_the_first_gap() {
    let map = load_ladder(Some("{0:\"r0\",10:\"r10\"}")).unwrap();
    assert_eq!(reconcile_level(&map, 12, 5), (vec![entry(0)], Some(5)));
    let none = load_ladder(Some("{}")).unwrap();
    assert_eq!(reconcile_level(&none, 12, 5), (vec![], Some(0)));
    let policy = LevelingPolicy::standard();
    assert!(reconcile_users(&map, &vec![], &policy).is_empty());
}

#[test]
fn reconciliation_without_a_ladder_fails_as_a_whole() {
    let policy = LevelingPolicy::standard();
    assert_eq!(assign_missing_roles(None, &vec![user("a", 4)], &policy), Err(EngineError::NotFound));
    assert_eq!(assign_missing_roles(Some("x"), &vec![user("a", 4)], &policy), Err(EngineError::Corruption));
}

#[test]
fn batch_summary_counts_each_item_once() {
    assert_eq!(summarize(&vec![]), BatchSummary { succeeded: 0, failed: 0 });
    assert_eq!(
        summarize(&vec![true, false, true, true, false]),
        BatchSummary { succeeded: 3, failed: 2 }
    );
    assert_eq!(summarize(&vec![false; 4]), BatchSummary { succeeded: 0, failed: 4 });
}

#[test]
fn backfill_leaves_existing_records_alone() {
    assert_eq!(backfill_record(true, "42", "ada"), None);
    assert_eq!(backfill_record(false, "42", "ada"), Some(user_with_name("42", "ada")));
}

fn user_with_name(id: &str, name: &str) -> UserProgress {
    UserProgress {
        user_id: id.to_string(),
        username: name.to_string(),
        level: 0,
        xp: 0,
        last_activity_time: 0,
    }
}
