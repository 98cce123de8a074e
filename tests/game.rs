use chat_score::cooldown::{check, hours_minutes, Cooldown, COOLDOWN_SECS};
use chat_score::error::StoreError;
use chat_score::game::{apply_attempt, play, AttemptOutcome};
use chat_score::rank::{rank, top_positions};
use chat_score::record::{PlayerRecord, ScopeStore};
use chat_score::selector::{draw, pick_range, standard_table, total, WeightedRange};

fn store_of(players: &[(i64, i16)]) -> ScopeStore {
    let mut s = ScopeStore::new();
    for (id, score) in players {
        s.upsert(*id, PlayerRecord::new(format!("p{}", id), *score, 0));
    }
    s
}

#[test]
fn rank_orders_by_score_then_id() {
    let s = store_of(&[(5, 10), (3, 20), (9, 10), (1, 10)]);
    assert_eq!(rank(&s, 3), Ok(1));
    assert_eq!(rank(&s, 1), Ok(2));
    assert_eq!(rank(&s, 5), Ok(3));
    assert_eq!(rank(&s, 9), Ok(4));
}

#[test]
fn rank_of_missing_user() {
    let s = store_of(&[(5, 10)]);
    assert_eq!(rank(&s, 6), Err(StoreError::NotFound));
    assert_eq!(rank(&ScopeStore::new(), 1), Err(StoreError::NotFound));
}

#[test]
fn raising_a_score_never_lowers_the_place() {
    let mut s = store_of(&[(1, 10), (2, 20), (3, 30)]);
    let before = rank(&s, 1).unwrap();
    s.upsert(1, PlayerRecord::new("p1".to_string(), 25, 0));
    let after = rank(&s, 1).unwrap();
    assert_eq!(before, 3);
    assert_eq!(after, 2);
    s.upsert(1, PlayerRecord::new("p1".to_string(), 30, 0));
    assert_eq!(rank(&s, 1), Ok(1));
}

#[test]
fn top_lists_in_order() {
    let s = store_of(&[(5, 10), (3, 20), (9, 10), (1, -4)]);
    let ids = |pos: Vec<usize>| pos.iter().map(|p| s.entry_at(*p).0).collect::<Vec<i64>>();
    assert_eq!(ids(top_positions(&s, 10)), vec![3, 5, 9, 1]);
    assert_eq!(ids(top_positions(&s, 2)), vec![3, 5]);
    assert!(top_positions(&s, 0).is_empty());
    assert!(top_positions(&ScopeStore::new(), 10).is_empty());
}

#[test]
fn cooldown_right_after_attempt() {
    let now = 1_700_000_000;
    let r = PlayerRecord::new("A".to_string(), 1, now);
    assert_eq!(check(Some(&r), now), Cooldown::OnCooldown { remaining_secs: 86400 });
    assert_eq!(hours_minutes(86400), (24, 0));
}

#[test]
fn cooldown_over_after_window() {
    let now = 1_700_000_000;
    let r = PlayerRecord::new("A".to_string(), 1, now - COOLDOWN_SECS);
    assert_eq!(check(Some(&r), now), Cooldown::Eligible);
    let r2 = PlayerRecord::new("A".to_string(), 1, now - COOLDOWN_SECS + 1);
    assert_eq!(check(Some(&r2), now), Cooldown::OnCooldown { remaining_secs: 1 });
    assert_eq!(check(None, now), Cooldown::Eligible);
}

#[test]
fn cooldown_remaining_time() {
    let r = PlayerRecord::new("A".to_string(), 1, 1000);
    assert_eq!(check(Some(&r), 1000 + 3 * 3600 + 125), Cooldown::OnCooldown { remaining_secs: 86400 - 10925 });
    assert_eq!(hours_minutes(86400 - 10925), (20, 57));
    let extreme = PlayerRecord::new("A".to_string(), 1, i64::MAX);
    assert_eq!(
        check(Some(&extreme), i64::MIN),
        Cooldown::OnCooldown { remaining_secs: 86400 + (i64::MAX as i128 - i64::MIN as i128) }
    );
}

#[test]
fn single_range_always_draws_its_value() {
    let table = vec![WeightedRange { low: 1, high: 1, weight: 1000 }];
    for _ in 0..2000 {
        assert_eq!(draw(&table), 1);
    }
}

#[test]
fn zero_weight_range_never_drawn() {
    let table = vec![WeightedRange { low: 1, high: 1, weight: 1000 }, WeightedRange { low: 2, high: 2, weight: 0 }];
    for _ in 0..2000 {
        assert_eq!(draw(&table), 1);
    }
}

#[test]
fn all_zero_weights_fall_back_to_last() {
    let table = vec![WeightedRange { low: 1, high: 1, weight: 0 }, WeightedRange { low: 2, high: 2, weight: 0 }];
    assert_eq!(draw(&table), 2);
}

#[test]
fn pick_walks_ranges_in_order() {
    let table = standard_table();
    assert_eq!(total(&table), 1000);
    assert_eq!(pick_range(&table, 0), 0);
    assert_eq!(pick_range(&table, 1), 1);
    assert_eq!(pick_range(&table, 50), 1);
    assert_eq!(pick_range(&table, 51), 2);
    assert_eq!(pick_range(&table, 301), 3);
    assert_eq!(pick_range(&table, 899), 3);
    assert_eq!(pick_range(&table, 900), 4);
    assert_eq!(pick_range(&table, 999), 4);
    assert_eq!(pick_range(&table, 5000), 4);
}

#[test]
fn standard_draws_stay_in_ranges() {
    let table = standard_table();
    for _ in 0..2000 {
        let d = draw(&table);
        assert!((-179..=-178).contains(&d) || (-10..=-1).contains(&d) || (1..=14).contains(&d));
    }
}

#[test]
fn attempt_updates_or_inserts() {
    let mut s = ScopeStore::new();
    apply_attempt(&mut s, 7, "Bob".to_string(), 4, 100);
    assert_eq!(s.get(7).unwrap().score, 4);
    assert_eq!(s.get(7).unwrap().name, "Bob");
    apply_attempt(&mut s, 7, "Robert".to_string(), -10, 200);
    let r = s.get(7).unwrap();
    assert_eq!((r.name.as_str(), r.score, r.last_attempt), ("Bob", -6, 200));
    assert_eq!(s.len(), 1);
}

#[test]
fn attempt_score_saturates() {
    let mut s = ScopeStore::new();
    s.upsert(1, PlayerRecord::new("A".to_string(), i16::MAX - 2, 0));
    apply_attempt(&mut s, 1, "A".to_string(), 14, 10);
    assert_eq!(s.get(1).unwrap().score, i16::MAX);
    s.upsert(2, PlayerRecord::new("B".to_string(), i16::MIN + 100, 0));
    apply_attempt(&mut s, 2, "B".to_string(), -179, 10);
    assert_eq!(s.get(2).unwrap().score, i16::MIN);
}

#[test]
fn play_then_cooldown() {
    let table = vec![WeightedRange { low: 3, high: 3, weight: 1 }];
    let mut s = store_of(&[(1, 50)]);
    let now = 1_700_000_000;
    let first = play(&mut s, 2, "New".to_string(), now, &table);
    assert_eq!(first, AttemptOutcome::Played { delta: 3, score: 3, rank: 2 });
    let second = play(&mut s, 2, "New".to_string(), now + 60, &table);
    assert_eq!(second, AttemptOutcome::OnCooldown { score: 3, rank: 2, remaining_secs: 86400 - 60 });
    assert_eq!(s.get(2).unwrap().last_attempt, now);
    let third = play(&mut s, 2, "New".to_string(), now + COOLDOWN_SECS, &table);
    assert_eq!(third, AttemptOutcome::Played { delta: 3, score: 6, rank: 2 });
}
