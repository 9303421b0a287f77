use rustysync::latency_control::SMOOTHING_SAMPLES;
use rustysync::{
    bwlimit_kb, control_actions, pool_is_fast, select_canary, DriveStatus, Reading, RecoveryAction, RecoveryState,
    SlowLatch, FAST_POKE_KB, SLOW_POKE_KB,
};

fn valid(below_recovery: bool) -> Reading {
    Reading::Valid { below_recovery }
}

fn slowed() -> SlowLatch {
    let mut latch = SlowLatch::new();
    for i in 0..SMOOTHING_SAMPLES {
        let outcome = latch.read(valid(false));
        assert!(!outcome.reset_trend);
        assert_eq!(outcome.window_full, i + 1 == SMOOTHING_SAMPLES);
    }
    latch.judge_slope(true);
    assert!(!latch.is_fast());
    latch
}

#[test]
fn steep_slope_needs_a_full_window() {
    let mut latch = SlowLatch::new();
    for _ in 0..SMOOTHING_SAMPLES - 1 {
        latch.read(valid(false));
        latch.judge_slope(true);
        assert!(latch.is_fast());
    }
    let outcome = latch.read(valid(false));
    assert!(outcome.window_full);
    latch.judge_slope(false);
    assert!(latch.is_fast());
    latch.judge_slope(true);
    assert!(!latch.is_fast());
}

#[test]
fn missing_readings_hold_slow_and_recovery_needs_low_reading() {
    let mut latch = slowed();
    let outcome = latch.read(Reading::Missing);
    assert!(outcome.reset_trend && !outcome.window_full);
    assert!(!latch.is_fast());
    latch.read(valid(false));
    assert!(!latch.is_fast());
    let outcome = latch.read(valid(true));
    assert!(outcome.reset_trend);
    assert!(latch.is_fast());
    latch.read(Reading::Missing);
    assert!(latch.is_fast());
}

#[test]
fn missing_reading_restarts_the_window() {
    let mut latch = SlowLatch::new();
    for _ in 0..SMOOTHING_SAMPLES - 1 {
        latch.read(valid(false));
    }
    latch.read(Reading::Missing);
    for _ in 0..SMOOTHING_SAMPLES - 1 {
        assert!(!latch.read(valid(false)).window_full);
    }
    assert!(latch.read(valid(false)).window_full);
    assert!(latch.read(valid(false)).window_full);
}

#[test]
fn low_reading_on_fast_drive_keeps_the_trend() {
    let mut latch = SlowLatch::new();
    let outcome = latch.read(valid(true));
    assert!(!outcome.reset_trend);
    assert!(latch.is_fast());
}

fn row(fast: bool, latency_rank: i64) -> DriveStatus {
    DriveStatus { fast, latency_rank }
}

#[test]
fn any_slow_drive_slows_the_pool_and_is_the_canary() {
    let rows = vec![row(true, 90), row(false, 10), row(true, 50), row(false, 5)];
    assert!(!pool_is_fast(&rows));
    assert_eq!(select_canary(&rows), 1);
    assert_eq!(bwlimit_kb(pool_is_fast(&rows)), SLOW_POKE_KB);
}

#[test]
fn with_no_slow_drive_the_highest_latency_is_the_canary() {
    let rows = vec![row(true, 10), row(true, 100), row(true, -1)];
    assert!(pool_is_fast(&rows));
    assert_eq!(select_canary(&rows), 1);
    assert_eq!(bwlimit_kb(true), FAST_POKE_KB);
    assert_eq!(FAST_POKE_KB, 40_000);
    assert_eq!(SLOW_POKE_KB, 1000);
}

#[test]
fn ties_go_to_the_last_drive() {
    let rows = vec![row(true, 7), row(true, 7), row(true, 3)];
    assert_eq!(select_canary(&rows), 1);
    let rows = vec![row(false, 7), row(true, 9), row(false, 7)];
    assert_eq!(select_canary(&rows), 2);
}

#[test]
fn recovery_resumes_after_one_hundred_ticks() {
    let mut state = RecoveryState::Recovery { ticks: 0 };
    for _ in 0..99 {
        assert_eq!(state.tick(), RecoveryAction::NoAction);
    }
    assert!(matches!(state, RecoveryState::Recovery { ticks: 99 }));
    assert_eq!(state.tick(), RecoveryAction::Resume);
    assert!(matches!(state, RecoveryState::Probing));
    assert_eq!(state.tick(), RecoveryAction::NoAction);
    let mut normal = RecoveryState::Normal;
    assert_eq!(normal.tick(), RecoveryAction::NoAction);
    assert!(matches!(normal, RecoveryState::Normal));
}

#[test]
fn pokes_only_on_state_change() {
    let a = control_actions(true, false, false);
    assert_eq!(a.poke_kb, Some(SLOW_POKE_KB));
    assert!(!a.report_canary);
    let a = control_actions(false, true, true);
    assert_eq!(a.poke_kb, Some(FAST_POKE_KB));
    assert!(a.report_canary);
    assert_eq!(control_actions(true, true, false).poke_kb, None);
    assert_eq!(control_actions(false, false, true).poke_kb, None);
}

#[test]
fn no_slope_until_a_second_full_window() {
    let mut latch = SlowLatch::new();
    for _ in 0..SMOOTHING_SAMPLES {
        assert!(!latch.read(valid(false)).has_slope_point);
    }
    assert!(latch.read(valid(false)).has_slope_point);
    latch.read(Reading::Missing);
    for _ in 0..SMOOTHING_SAMPLES {
        assert!(!latch.read(valid(false)).has_slope_point);
    }
    assert!(latch.read(valid(false)).has_slope_point);
}

#[test]
fn recovery_restarts_the_slope_points() {
    let mut latch = slowed();
    let outcome = latch.read(valid(true));
    assert!(outcome.reset_trend && !outcome.has_slope_point);
    for _ in 1..SMOOTHING_SAMPLES {
        assert!(!latch.read(valid(false)).has_slope_point);
    }
    assert!(latch.read(valid(false)).has_slope_point);
}

#[test]
fn samples_are_matched_to_drives_by_name() {
    let names = vec!["b".to_string(), "a".to_string(), "a".to_string()];
    assert_eq!(rustysync::sample_index(&names, "a"), Some(1));
    assert_eq!(rustysync::sample_index(&names, "c"), None);
}
