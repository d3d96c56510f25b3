use seenbot::error::{render_error, BotError};
use seenbot::time::{epoch_offset, format_time, system_time_to_date_time};

#[test]
fn error_renders_its_message() {
    let e = BotError::new("x".to_string());
    assert_eq!(render_error(&e), "Error: x".to_string());
}

#[test]
fn error_renders_its_causal_chain_one_line_per_cause() {
    let e = BotError::new("a".to_string())
        .wrap("b".to_string())
        .wrap("c".to_string());
    assert_eq!(e.messages, vec!["c".to_string(), "b".to_string(), "a".to_string()]);
    assert_eq!(
        render_error(&e),
        "Error: c\ncaused by: b\ncaused by: a".to_string()
    );
}

#[test]
fn format_time_renders_the_epoch() {
    assert_eq!(format_time(0), "1970-01-01 00:00 UTC".to_string());
}

#[test]
fn format_time_renders_a_known_timestamp() {
    assert_eq!(format_time(1431648000), "2015-05-15 00:00 UTC".to_string());
}

#[test]
fn format_time_pads_fields_with_zeros() {
    // 2001-02-03 04:05:06 UTC
    assert_eq!(format_time(981173106), "2001-02-03 04:05 UTC".to_string());
}

#[test]
fn format_time_renders_the_last_representable_second() {
    assert_eq!(format_time(253402300799), "9999-12-31 23:59 UTC".to_string());
}

#[test]
fn epoch_offset_normalizes_pre_epoch_durations() {
    assert_eq!(epoch_offset(false, 10, 5), (10, 5));
    assert_eq!(epoch_offset(true, 10, 0), (-10, 0));
    assert_eq!(epoch_offset(true, 10, 1), (-11, 999_999_999));
}

#[test]
fn date_time_conversion_handles_pre_epoch_moments() {
    let p = system_time_to_date_time(true, 1, 0);
    assert_eq!(p.year, 1969);
    assert_eq!(p.month, 12);
    assert_eq!(p.day, 31);
    assert_eq!(p.hour, 23);
    assert_eq!(p.minute, 59);
}

#[test]
fn date_time_conversion_splits_a_timestamp() {
    let p = system_time_to_date_time(false, 981173106, 0);
    assert_eq!((p.year, p.month, p.day, p.hour, p.minute), (2001, 2, 3, 4, 5));
}
