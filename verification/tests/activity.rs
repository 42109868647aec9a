use leveling::activity::{apply_activity, record_activity, ActivityOutcome, Intent, StoredProgress};
use leveling::curve::XpCurve;
use leveling::error::EngineError;
use leveling::policy::LevelingPolicy;
use leveling::progress::{override_level, set_level, UserProgress};

fn record(level: u32, xp: u32, last: i64) -> UserProgress {
    UserProgress {
        user_id: "42".to_string(),
        username: "ada".to_string(),
        level,
        xp,
        last_activity_time: last,
    }
}

fn apply(stored: StoredProgress, event_time: i64, grant: u32) -> Result<ActivityOutcome, EngineError> {
    apply_activity(&LevelingPolicy::standard(), stored, "guild", "42", "ada", event_time, grant)
}

#[test]
fn grant_that_reaches_the_threshold_levels_up_and_discards_the_rest() {
    let out = apply(StoredProgress::Present(record(0, 90, 0)), 100, 15).unwrap();
    assert_eq!(out.progress, record(1, 0, 100));
    assert_eq!(out.intents, vec![Intent::LevelUp { level: 1 }]);
}

#[test]
fn grant_that_meets_the_threshold_exactly_levels_up() {
    let out = apply(StoredProgress::Present(record(0, 85, 0)), 100, 15).unwrap();
    assert_eq!(out.progress, record(1, 0, 100));
}

#[test]
fn grant_below_the_threshold_only_adds_xp() {
    let out = apply(StoredProgress::Present(record(0, 84, 0)), 100, 15).unwrap();
    assert_eq!(out.progress, record(0, 99, 100));
    assert!(out.intents.is_empty());
}

#[test]
fn first_sighting_creates_a_fresh_record_and_asks_for_the_level_zero_role() {
    let out = apply(StoredProgress::Absent, 1_700_000_000, 15).unwrap();
    assert_eq!(out.progress, record(0, 0, 1_700_000_000));
    assert_eq!(
        out.intents,
        vec![Intent::GrantMilestoneRole {
            guild_id: "guild".to_string(),
            user_id: "42".to_string(),
            level: 0,
        }]
    );
}

#[test]
fn fresh_record_matches_the_first_sighting() {
    assert_eq!(UserProgress::fresh("42", "ada", 7), record(0, 0, 7));
    assert_eq!(record(3, 4, 5).duplicate(), record(3, 4, 5));
}

#[test]
fn event_within_the_cooldown_changes_nothing() {
    let before = record(2, 40, 1000);
    for event_time in [1000, 1001, 1060, 999, -5] {
        let out = apply(StoredProgress::Present(before.clone()), event_time, 15).unwrap();
        assert_eq!(out.progress, before);
        assert!(out.intents.is_empty());
    }
    let out = apply(StoredProgress::Present(before.clone()), 1061, 15).unwrap();
    assert_eq!(out.progress, record(2, 55, 1061));
}

#[test]
fn second_event_within_a_minute_is_a_no_op() {
    let first = apply(StoredProgress::Present(record(1, 10, 0)), 500, 12).unwrap();
    assert_eq!(first.progress, record(1, 22, 500));
    let second = apply(StoredProgress::Present(first.progress.clone()), 560, 19).unwrap();
    assert_eq!(second.progress, first.progress);
    assert!(second.intents.is_empty());
    let created = apply(StoredProgress::Absent, 500, 12).unwrap();
    let again = apply(StoredProgress::Present(created.progress.clone()), 530, 12).unwrap();
    assert_eq!(again.progress, created.progress);
}

#[test]
fn spaced_events_never_lower_the_level_and_keep_xp_below_the_threshold() {
    let policy = LevelingPolicy::standard();
    let mut current = record(0, 0, 0);
    let mut time: i64 = 0;
    for round in 0..400u32 {
        time += 61;
        let grant = 10 + round % 10;
        let out = apply_activity(
            &policy,
            StoredProgress::Present(current.clone()),
            "guild",
            "42",
            "ada",
            time,
            grant,
        )
        .unwrap();
        assert!(out.progress.level >= current.level);
        assert!(out.progress.level <= current.level + 1);
        let cost = policy.curve().threshold(out.progress.level).unwrap();
        assert!(out.progress.xp < cost);
        assert_eq!(out.progress.last_activity_time, time);
        if out.progress.level == current.level {
            assert_eq!(out.progress.xp, current.xp + grant);
        } else {
            assert_eq!(out.progress.xp, 0);
        }
        current = out.progress;
    }
    assert!(current.level >= 5);
}

#[test]
fn record_at_zero_asks_for_the_level_zero_role() {
    let grant_zero = Intent::GrantMilestoneRole {
        guild_id: "guild".to_string(),
        user_id: "42".to_string(),
        level: 0,
    };
    let out = apply(StoredProgress::Present(record(0, 0, 0)), 100, 15).unwrap();
    assert_eq!(out.progress, record(0, 15, 100));
    assert_eq!(out.intents, vec![grant_zero.clone()]);
    let cooling = apply(StoredProgress::Present(record(0, 0, 90)), 100, 15).unwrap();
    assert_eq!(cooling.progress, record(0, 0, 90));
    assert_eq!(cooling.intents, vec![grant_zero]);
}

#[test]
fn reaching_a_milestone_asks_for_its_role_after_the_announcement() {
    let out = apply(StoredProgress::Present(record(4, 280, 0)), 100, 10).unwrap();
    assert_eq!(out.progress, record(5, 0, 100));
    assert_eq!(
        out.intents,
        vec![
            Intent::LevelUp { level: 5 },
            Intent::GrantMilestoneRole {
                guild_id: "guild".to_string(),
                user_id: "42".to_string(),
                level: 5,
            },
        ]
    );
    let plain = apply(StoredProgress::Present(record(5, 370, 0)), 100, 10).unwrap();
    assert_eq!(plain.progress, record(6, 0, 100));
    assert_eq!(plain.intents, vec![Intent::LevelUp { level: 6 }]);
}

#[test]
fn role_step_of_the_policy_decides_the_milestones() {
    let policy = LevelingPolicy::new(XpCurve::standard(), 2).unwrap();
    let out = apply_activity(
        &policy,
        StoredProgress::Present(record(1, 125, 0)),
        "g",
        "u",
        "n",
        100,
        10,
    )
    .unwrap();
    assert_eq!(
        out.intents,
        vec![
            Intent::LevelUp { level: 2 },
            Intent::GrantMilestoneRole { guild_id: "g".to_string(), user_id: "u".to_string(), level: 2 },
        ]
    );
}

#[test]
fn corrupt_record_is_reported_not_replaced() {
    assert_eq!(apply(StoredProgress::Corrupt, 100, 15), Err(EngineError::Corruption));
}

#[test]
fn empty_identifiers_are_refused() {
    let policy = LevelingPolicy::standard();
    let r = apply_activity(&policy, StoredProgress::Absent, "", "42", "ada", 1, 15);
    assert_eq!(r, Err(EngineError::InvalidInput));
    let r = apply_activity(&policy, StoredProgress::Absent, "guild", "", "ada", 1, 15);
    assert_eq!(r, Err(EngineError::InvalidInput));
    let r = apply_activity(&policy, StoredProgress::Corrupt, "", "", "ada", 1, 15);
    assert_eq!(r, Err(EngineError::InvalidInput));
    let r = apply_activity(&policy, StoredProgress::Absent, "guild", "42", "", 1, 15);
    assert!(r.is_ok());
}

#[test]
fn xp_counter_saturates_where_no_threshold_is_in_reach() {
    let out = apply(StoredProgress::Present(record(70, u32::MAX - 5, 0)), 100, 15).unwrap();
    assert_eq!(out.progress, record(70, u32::MAX, 100));
    assert!(out.intents.is_empty());
    let top = apply(StoredProgress::Present(record(u32::MAX, 7, 0)), 100, 15).unwrap();
    assert_eq!(top.progress, record(u32::MAX, 22, 100));
}

#[test]
fn stored_record_at_or_over_the_threshold_levels_up_on_the_next_grant() {
    let out = apply(StoredProgress::Present(record(0, 100, 0)), 100, 10).unwrap();
    assert_eq!(out.progress, record(1, 0, 100));
    let far = apply(StoredProgress::Present(record(0, 5000, 0)), 100, 10).unwrap();
    assert_eq!(far.progress, record(1, 0, 100));
    assert_eq!(far.intents, vec![Intent::LevelUp { level: 1 }]);
}

#[test]
fn extreme_times_do_not_overflow() {
    let out = apply(StoredProgress::Present(record(1, 0, i64::MIN)), i64::MAX, 10).unwrap();
    assert_eq!(out.progress, record(1, 10, i64::MAX));
    let back = apply(StoredProgress::Present(record(1, 0, i64::MAX)), i64::MIN, 10).unwrap();
    assert_eq!(back.progress, record(1, 0, i64::MAX));
}

#[test]
fn record_activity_grants_between_ten_and_nineteen() {
    let policy = LevelingPolicy::standard();
    for _ in 0..200 {
        let out = record_activity(
            &policy,
            StoredProgress::Present(record(3, 50, 0)),
            "guild",
            "42",
            "ada",
            100,
        )
        .unwrap();
        assert_eq!(out.progress.level, 3);
        assert!(out.progress.xp >= 60 && out.progress.xp < 70);
        assert_eq!(out.progress.last_activity_time, 100);
    }
    let refused = record_activity(&policy, StoredProgress::Corrupt, "guild", "42", "ada", 100);
    assert_eq!(refused, Err(EngineError::Corruption));
}

#[test]
fn override_writes_the_level_and_resets_xp() {
    let p = override_level("42", "ada", 17, 1_700_000_000).unwrap();
    assert_eq!(p, record(17, 0, 1_700_000_000));
    assert_eq!(override_level("42", "ada", 0, 5).unwrap(), record(0, 0, 5));
    assert_eq!(override_level("42", "ada", u32::MAX as i64, 5).unwrap().level, u32::MAX);
}

#[test]
fn override_refuses_levels_that_no_record_holds() {
    assert_eq!(override_level("42", "ada", -1, 5), Err(EngineError::InvalidInput));
    assert_eq!(override_level("42", "ada", i64::MIN, 5), Err(EngineError::InvalidInput));
    assert_eq!(override_level("42", "ada", u32::MAX as i64 + 1, 5), Err(EngineError::InvalidInput));
}

#[test]
fn set_level_stamps_the_clock() {
    let p = set_level("42", "ada", 9).unwrap();
    assert_eq!(p.level, 9);
    assert_eq!(p.xp, 0);
    assert_eq!(p.user_id, "42");
    assert_eq!(p.username, "ada");
    assert!(p.last_activity_time > 1_600_000_000);
    assert_eq!(set_level("42", "ada", -3), Err(EngineError::InvalidInput));
}
