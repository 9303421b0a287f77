use rustysync::assessment::{ASSESSMENT_COMPLETE_BURST, MIN_MEANINGFUL_BURST};
use rustysync::{Assessment, BurstCounter, Verdict};

#[test]
fn first_burst_continues_assessment() {
    let mut assessment = Assessment::new();

    let verdict = assessment.record_burst(100);

    assert_eq!(verdict, Verdict::Continue);
}

#[test]
fn improved_burst_continues_assessment() {
    let mut assessment = Assessment::new();

    assessment.record_burst(100);
    let verdict = assessment.record_burst(200);

    assert_eq!(verdict, Verdict::Continue);
}

#[test]
fn equal_burst_completes_assessment() {
    let mut assessment = Assessment::new();

    assessment.record_burst(100);
    let verdict = assessment.record_burst(100);

    assert_eq!(verdict, Verdict::Complete);
}

#[test]
fn shorter_burst_completes_assessment() {
    let mut assessment = Assessment::new();

    assessment.record_burst(200);
    let verdict = assessment.record_burst(100);

    assert_eq!(verdict, Verdict::Complete);
}

#[test]
fn bbsf_tracks_best_burst_not_previous_burst() {
    let mut assessment = Assessment::new();

    assessment.record_burst(100);
    assessment.record_burst(250);
    let verdict = assessment.record_burst(200);

    assert_eq!(verdict, Verdict::Complete);
}

#[test]
fn very_short_first_burst_cannot_continue() {
    let mut assessment = Assessment::new();

    let verdict = assessment.record_burst(MIN_MEANINGFUL_BURST - 1);

    assert_eq!(verdict, Verdict::CantContinue);
}

#[test]
fn sufficient_first_burst_continues_assessment() {
    let mut assessment = Assessment::new();

    let verdict = assessment.record_burst(MIN_MEANINGFUL_BURST);

    assert_eq!(verdict, Verdict::Continue);
}

#[test]
fn long_first_burst_completes_assessment() {
    let mut assessment = Assessment::new();

    let verdict = assessment.record_burst(ASSESSMENT_COMPLETE_BURST);

    assert_eq!(verdict, Verdict::Complete);
}

#[test]
fn short_burst_leaves_best_unchanged() {
    let mut assessment = Assessment::new();

    assessment.record_burst(100);
    assert_eq!(assessment.record_burst(3), Verdict::CantContinue);
    assert_eq!(assessment.record_burst(101), Verdict::Continue);
}

#[test]
fn default_assessment_starts_empty() {
    let mut assessment = Assessment::default();

    assert_eq!(assessment.record_burst(MIN_MEANINGFUL_BURST), Verdict::Continue);
}

#[test]
fn best_burst_is_the_longest_meaningful_one() {
    let mut assessment = Assessment::new();
    for burst in [7u32, 42, 3, 19, 41] {
        assessment.record_burst(burst);
    }
    assert_eq!(assessment.record_burst(42), Verdict::Complete);
    assert_eq!(assessment.record_burst(43), Verdict::Continue);
}

#[test]
fn counter_ends_burst_after_two_consecutive_rises() {
    // Seven writing samples with readings: the first starts the burst, the
    // next four build the baseline, the last two show a rise. The burst's
    // length leaves out the sample that ended it.
    let mut burst = BurstCounter::new();
    assert_eq!(burst.record_sample(true, true, false), None);
    assert!(burst.is_active());
    assert_eq!(burst.length(), 1);
    for _ in 0..4 {
        assert!(!burst.judges_next());
        assert_eq!(burst.record_sample(true, true, true), None);
    }
    assert_eq!(burst.length(), 5);
    assert!(burst.judges_next());
    assert_eq!(burst.record_sample(true, true, true), None);
    assert_eq!(burst.record_sample(true, true, true), Some(6));
    assert!(!burst.is_active());
    assert_eq!(burst.length(), 0);
}

#[test]
fn counter_needs_consecutive_rises() {
    let mut burst = BurstCounter::new();
    burst.record_sample(true, false, false);
    for _ in 0..4 {
        burst.record_sample(false, true, false);
    }
    assert_eq!(burst.record_sample(false, true, true), None);
    assert_eq!(burst.record_sample(false, true, false), None);
    assert_eq!(burst.record_sample(false, true, true), None);
    assert!(burst.is_active());
    assert_eq!(burst.record_sample(false, true, true), Some(1));
}

#[test]
fn idle_samples_neither_start_nor_lengthen_a_burst() {
    let mut burst = BurstCounter::new();
    assert_eq!(burst.record_sample(false, true, true), None);
    assert!(!burst.is_active());
    burst.record_sample(true, false, false);
    burst.record_sample(false, false, true);
    assert_eq!(burst.length(), 1);
    assert!(burst.is_active());
    assert!(!burst.would_overflow(true, true, true));
}

#[test]
fn any_length_history_decides_by_longest_meaningful_burst() {
    let mut assessment = Assessment::new();
    assessment.record_burst(350);
    assessment.record_burst(310);
    assert_eq!(assessment.record_burst(299), Verdict::Complete);
    assert_eq!(assessment.record_burst(4), Verdict::CantContinue);
    assert_eq!(assessment.record_burst(300), Verdict::Complete);
}
