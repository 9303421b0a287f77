use rustysync::text::text_chars;
use rustysync::{
    block_name, event_label, header_compatible, nvme_controller, parse_temperature, poke_state,
    NumberError, Phase, SampleLog, CSV_HEADER,
};

#[test]
fn temperature_text_is_trimmed_and_signed() {
    assert_eq!(parse_temperature("41850\n"), Ok(41850));
    assert_eq!(parse_temperature("-5"), Ok(-5));
    assert_eq!(parse_temperature("-2147483648"), Ok(i32::MIN));
    assert_eq!(parse_temperature("2147483648"), Err(NumberError::TooLarge));
    assert_eq!(parse_temperature("-2147483649"), Err(NumberError::TooSmall));
    assert_eq!(parse_temperature(""), Err(NumberError::Empty));
    assert_eq!(parse_temperature("-"), Err(NumberError::InvalidDigit));
    assert_eq!(parse_temperature("4x"), Err(NumberError::InvalidDigit));
}

#[test]
fn controller_names() {
    assert_eq!(block_name("/dev/nvme0n1"), "nvme0n1");
    assert_eq!(block_name("nvme1n1"), "nvme1n1");
    assert_eq!(block_name("/dev/"), "");
    assert_eq!(nvme_controller("nvme0n1"), Some("nvme0".to_string()));
    assert_eq!(nvme_controller("nvme10n1p2"), Some("nvme10".to_string()));
    assert_eq!(nvme_controller("sda"), None);
}

#[test]
fn csv_header_compatibility() {
    assert!(header_compatible(""));
    assert!(header_compatible(&format!("{CSV_HEADER}\n")));
    assert!(!header_compatible("timestamp,drive\n"));
    assert_eq!(CSV_HEADER.split(',').count(), 13);
}

#[test]
fn console_labels() {
    assert_eq!(event_label("POKE INITIAL"), "START");
    assert_eq!(event_label("POKE CHANGE"), "CHANGE");
    assert_eq!(event_label("CANARY"), "CANARY");
    assert_eq!(event_label("STATUS"), "STATUS");
    assert_eq!(event_label("anything"), "STATUS");
    assert_eq!(poke_state(true), "FAST_POKE");
    assert_eq!(poke_state(false), "SLOW_POKE");
}

#[test]
fn sample_log_keeps_the_newest() {
    let mut log = SampleLog::new(2);
    assert!(log.is_empty());
    log.push(1);
    log.push(2);
    log.push(3);
    assert_eq!(log.len(), 2);
    assert_eq!(log.samples.iter().copied().collect::<Vec<i32>>(), vec![2, 3]);
    let mut unbounded = SampleLog::new(0);
    unbounded.push('a');
    unbounded.push('b');
    assert_eq!(unbounded.len(), 1);
}

#[test]
fn chars_of_text() {
    assert_eq!(text_chars("añb"), vec!['a', 'ñ', 'b']);
    assert_ne!(Phase::Startup, Phase::Running);
}
