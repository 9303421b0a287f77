use rustysync::{
    answer_is_yes, answer_or_default, last_run_contents, parse_last_run, run, validate_destination,
    validate_source, PathKind, PreflightError, PreflightResult,
};

#[test]
fn blank_answer_takes_the_default() {
    assert_eq!(answer_or_default("  \n", Some("/src")), "/src");
    assert_eq!(answer_or_default(" /other \n", Some("/src")), "/other");
    assert_eq!(answer_or_default("\n", None), "");
}

#[test]
fn yes_answers() {
    assert!(answer_is_yes("y\n"));
    assert!(answer_is_yes(" YES \n"));
    assert!(answer_is_yes("Yes"));
    assert!(!answer_is_yes("\n"));
    assert!(!answer_is_yes("no"));
    assert!(!answer_is_yes("yess"));
}

#[test]
fn validation_errors() {
    assert_eq!(validate_source("  "), Err(PreflightError::EmptySource));
    assert_eq!(validate_source("host:/data"), Ok(()));
    assert_eq!(validate_destination(" ", PathKind::Directory), Err(PreflightError::EmptyDestination));
    assert_eq!(validate_destination("/x", PathKind::Missing), Err(PreflightError::DestinationMissing));
    assert_eq!(
        validate_destination("/x", PathKind::NotDirectory),
        Err(PreflightError::DestinationNotDirectory)
    );
    assert_eq!(validate_destination("/x", PathKind::Directory), Ok(()));
}

#[test]
fn run_uses_remembered_answers() {
    let remembered = PreflightResult {
        source: "host:/data".to_string(),
        destination: "/tank".to_string(),
        debug_log: true,
    };
    let result = run(Some(&remembered), "\n", "\n", "\n", PathKind::Directory).unwrap();
    assert_eq!(result.source, "host:/data");
    assert_eq!(result.destination, "/tank");
    assert!(!result.debug_log);
    let result = run(None, "a\n", "/b\n", "y\n", PathKind::Directory).unwrap();
    assert_eq!(result.source, "a");
    assert!(result.debug_log);
    assert_eq!(run(None, "\n", "\n", "\n", PathKind::Missing).unwrap_err(), PreflightError::EmptySource);
    assert_eq!(run(None, "a", "/b", "", PathKind::Missing).unwrap_err(), PreflightError::DestinationMissing);
}

#[test]
fn last_run_round_trip() {
    let result = PreflightResult {
        source: "host:/data".to_string(),
        destination: "/tank/backup".to_string(),
        debug_log: true,
    };
    let text = last_run_contents(&result);
    assert_eq!(text, "source=host:/data\ndestination=/tank/backup\n");
    let back = parse_last_run(&text).unwrap();
    assert_eq!(back.source, result.source);
    assert_eq!(back.destination, result.destination);
    assert!(!back.debug_log);
}

#[test]
fn last_run_needs_both_values_and_takes_the_last() {
    assert!(parse_last_run("source=a\n").is_none());
    let r = parse_last_run("destination=/x\r\nsource=a\nother\nsource=b").unwrap();
    assert_eq!(r.source, "b");
    assert_eq!(r.destination, "/x");
}
