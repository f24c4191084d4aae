use desk_timer::{format_time, parse_minutes, StartError, TimerApp, TimerState};

fn started(entry: &str, now: u64) -> TimerApp {
    let mut app = TimerApp::default();
    app.set_minutes_input(entry.to_string());
    app.try_start(now);
    app
}

fn finished_at(now: u64) -> TimerApp {
    let mut app = started("0.05", 0);
    assert_eq!(app.duration_secs(), 3);
    app.tick(now);
    assert_eq!(app.state(), TimerState::Finished);
    assert_eq!(app.last_flash(), now);
    app
}

#[test]
fn default_waits_for_entry() {
    let app = TimerApp::default();
    assert_eq!(app.state(), TimerState::Input);
    assert_eq!(app.minutes_input(), "");
    assert_eq!(app.start_time(), None);
    assert!(!app.flash_on());
    assert!(!app.is_active());
    assert!(!app.flash_background());
}

#[test]
fn rejected_entries_keep_input() {
    for entry in ["", "abc", "-1", "0", "0.0", "-0", "1.2.3", ".", "+", "1e2", "1 2", "--1", "2m"] {
        let app = started(entry, 1000);
        assert_eq!(app.state(), TimerState::Input, "entry {:?}", entry);
        assert_eq!(app.start_time(), None);
        assert_eq!(app.duration_secs(), 0);
        assert_eq!(app.remaining_secs(), 0);
        assert_eq!(app.minutes_input(), entry);
    }
}

#[test]
fn one_minute_entry() {
    let app = started("1", 42);
    assert_eq!(app.duration_secs(), 60);
    assert_eq!(app.remaining_secs(), 60);
    assert_eq!(app.state(), TimerState::Running);
    assert_eq!(app.start_time(), Some(42));
    assert!(app.is_active());
}

#[test]
fn entry_is_trimmed() {
    let app = started("  2\t\n", 0);
    assert_eq!(app.state(), TimerState::Running);
    assert_eq!(app.duration_secs(), 120);
}

#[test]
fn five_seconds_run_out_in_one_tick() {
    let mut app = started("0.08333334", 10_000);
    assert_eq!(app.duration_secs(), 5);
    app.tick(14_999);
    assert_eq!(app.state(), TimerState::Running);
    assert_eq!(app.remaining_secs(), 1);
    app.tick(15_000);
    assert_eq!(app.state(), TimerState::Finished);
    assert_eq!(app.remaining_secs(), 0);
    assert_eq!(app.start_time(), None);
    assert!(!app.flash_on());
}

#[test]
fn late_tick_still_finishes() {
    let mut app = started("0.08333334", 10_000);
    app.tick(90_000);
    assert_eq!(app.state(), TimerState::Finished);
    assert_eq!(app.remaining_secs(), 0);
}

#[test]
fn countdown_counts_whole_seconds() {
    let mut app = started("1", 0);
    app.tick(999);
    assert_eq!(app.remaining_secs(), 60);
    app.tick(1000);
    assert_eq!(app.remaining_secs(), 59);
    app.tick(30_500);
    assert_eq!(app.remaining_secs(), 30);
    assert_eq!(format_time(app.remaining_secs()), "00:30");
}

#[test]
fn flash_toggles_once_per_interval() {
    let mut app = finished_at(5_000);
    for t in [5_000, 5_100, 5_250, 5_499, 5_499] {
        app.tick(t);
        assert!(!app.flash_on());
        assert_eq!(app.last_flash(), 5_000);
    }
    app.tick(5_500);
    assert!(app.flash_on());
    assert!(app.flash_background());
    assert_eq!(app.last_flash(), 5_500);
    for t in [5_500, 5_600, 5_999] {
        app.tick(t);
        assert!(app.flash_on());
    }
    app.tick(6_000);
    assert!(!app.flash_on());
    assert_eq!(app.state(), TimerState::Finished);
}

#[test]
fn flash_waits_when_clock_is_behind() {
    let mut app = finished_at(5_000);
    app.tick(4_000);
    assert!(!app.flash_on());
    assert_eq!(app.last_flash(), 5_000);
}

#[test]
fn cancel_from_running() {
    let mut app = started("3", 0);
    app.tick(2_000);
    app.cancel();
    assert_eq!(app.state(), TimerState::Input);
    assert_eq!(app.start_time(), None);
    assert!(!app.flash_on());
    assert_eq!(app.minutes_input(), "");
    assert!(!app.is_active());
}

#[test]
fn reset_from_finished() {
    let mut app = finished_at(5_000);
    app.tick(5_600);
    assert!(app.flash_on());
    app.reset();
    assert_eq!(app.state(), TimerState::Input);
    assert_eq!(app.start_time(), None);
    assert!(!app.flash_on());
    assert!(!app.flash_background());
    assert_eq!(app.minutes_input(), "");
}

#[test]
fn ticks_while_waiting_change_nothing() {
    let mut app = TimerApp::default();
    app.set_minutes_input("4".to_string());
    app.tick(123_456);
    assert_eq!(app.state(), TimerState::Input);
    assert_eq!(app.minutes_input(), "4");
}

#[test]
fn two_and_a_half_minutes_then_prompt_tick() {
    let mut app = started("2.5", 7_000);
    assert_eq!(app.duration_secs(), 150);
    app.tick(7_000);
    assert_eq!(app.remaining_secs(), 150);
    app.tick(7_999);
    assert_eq!(app.remaining_secs(), 150);
    app.tick(8_500);
    assert_eq!(app.remaining_secs(), 149);
}

#[test]
fn zero_length_countdown_finishes_at_once() {
    let mut app = started("0.001", 0);
    assert_eq!(app.state(), TimerState::Running);
    assert_eq!(app.duration_secs(), 0);
    app.tick(0);
    assert_eq!(app.state(), TimerState::Finished);
}

#[test]
fn parse_accepts_decimal_forms() {
    assert_eq!(parse_minutes("1"), Ok(60));
    assert_eq!(parse_minutes("+2"), Ok(120));
    assert_eq!(parse_minutes("2.5"), Ok(150));
    assert_eq!(parse_minutes(".5"), Ok(30));
    assert_eq!(parse_minutes("5."), Ok(300));
    assert_eq!(parse_minutes("0.1"), Ok(6));
    assert_eq!(parse_minutes("0.99"), Ok(59));
    assert_eq!(parse_minutes("007"), Ok(420));
    assert_eq!(parse_minutes("1.0166666"), Ok(60));
    assert_eq!(parse_minutes("0.001"), Ok(0));
}

#[test]
fn parse_caps_huge_values() {
    assert_eq!(parse_minutes("307445734561825860"), Ok(18446744073709551600));
    assert_eq!(parse_minutes("307445734561825861"), Ok(u64::MAX));
    assert_eq!(parse_minutes("99999999999999999999999"), Ok(u64::MAX));
}

#[test]
fn parse_errors() {
    assert_eq!(parse_minutes(""), Err(StartError::ParseFailure));
    assert_eq!(parse_minutes("abc"), Err(StartError::ParseFailure));
    assert_eq!(parse_minutes("1.2.3"), Err(StartError::ParseFailure));
    assert_eq!(parse_minutes("-"), Err(StartError::ParseFailure));
    assert_eq!(parse_minutes(" 1"), Err(StartError::ParseFailure));
    assert_eq!(parse_minutes("-1"), Err(StartError::NonPositiveValue));
    assert_eq!(parse_minutes("-0.5"), Err(StartError::NonPositiveValue));
    assert_eq!(parse_minutes("0"), Err(StartError::NonPositiveValue));
    assert_eq!(parse_minutes("0.000"), Err(StartError::NonPositiveValue));
    assert_eq!(parse_minutes("+0"), Err(StartError::NonPositiveValue));
}

#[test]
fn format_time_pads_fields() {
    assert_eq!(format_time(0), "00:00");
    assert_eq!(format_time(5), "00:05");
    assert_eq!(format_time(59), "00:59");
    assert_eq!(format_time(60), "01:00");
    assert_eq!(format_time(125), "02:05");
    assert_eq!(format_time(5999), "99:59");
    assert_eq!(format_time(6000), "100:00");
    assert_eq!(format_time(u64::MAX), "307445734561825860:15");
}
