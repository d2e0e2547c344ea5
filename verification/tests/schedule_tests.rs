use blockandfocus::schedule::{Schedule, ScheduleEngine, ScheduleRule, WeekdayWrapper};
use blockandfocus::timeofday::NaiveTimeWrapper;

fn make_rule(name: &str, days: Vec<WeekdayWrapper>, start: &str, end: &str) -> ScheduleRule {
    ScheduleRule {
        name: name.to_string(),
        days,
        start_time: NaiveTimeWrapper::parse(start).unwrap(),
        end_time: NaiveTimeWrapper::parse(end).unwrap(),
    }
}

fn weekdays() -> Vec<WeekdayWrapper> {
    vec![
        WeekdayWrapper::Mon,
        WeekdayWrapper::Tue,
        WeekdayWrapper::Wed,
        WeekdayWrapper::Thu,
        WeekdayWrapper::Fri,
    ]
}

#[test]
fn test_schedule_disabled() {
    let schedule = Schedule { enabled: false, rules: vec![] };
    let engine = ScheduleEngine::new(schedule);

    // When schedule is disabled, blocking is always active
    assert!(engine.is_blocking_time());
}

#[test]
fn test_no_rules() {
    let schedule = Schedule { enabled: true, rules: vec![] };
    let engine = ScheduleEngine::new(schedule);

    // With no rules, blocking is never scheduled
    assert!(!engine.is_blocking_time());
}

#[test]
fn test_time_range_matching() {
    let rule = make_rule("Work Hours", weekdays(), "09:00", "17:00");

    let engine = ScheduleEngine::new(Schedule {
        enabled: true,
        rules: vec![make_rule("Work Hours", weekdays(), "09:00", "17:00")],
    });

    // Test at 10:00 on Monday
    let monday_10am = NaiveTimeWrapper::new(10, 0).unwrap();
    assert!(engine.rule_matches(&rule, WeekdayWrapper::Mon, monday_10am));

    // Test at 08:00 on Monday (before schedule)
    let monday_8am = NaiveTimeWrapper::new(8, 0).unwrap();
    assert!(!engine.rule_matches(&rule, WeekdayWrapper::Mon, monday_8am));

    // Test at 10:00 on Saturday (wrong day)
    let saturday_10am = NaiveTimeWrapper::new(10, 0).unwrap();
    assert!(!engine.rule_matches(&rule, WeekdayWrapper::Sat, saturday_10am));
}

#[test]
fn test_overnight_rule() {
    let rule = make_rule("Night Block", weekdays(), "22:00", "06:00");

    let engine = ScheduleEngine::new(Schedule {
        enabled: true,
        rules: vec![make_rule("Night Block", weekdays(), "22:00", "06:00")],
    });

    // Test at 23:00 (should match)
    let late_night = NaiveTimeWrapper::new(23, 0).unwrap();
    assert!(engine.rule_matches(&rule, WeekdayWrapper::Mon, late_night));

    // Test at 03:00 (should match)
    let early_morning = NaiveTimeWrapper::new(3, 0).unwrap();
    assert!(engine.rule_matches(&rule, WeekdayWrapper::Mon, early_morning));

    // Test at 12:00 (should not match)
    let noon = NaiveTimeWrapper::new(12, 0).unwrap();
    assert!(!engine.rule_matches(&rule, WeekdayWrapper::Mon, noon));
}

#[test]
fn test_night_rule_scenario() {
    let engine = ScheduleEngine::new(Schedule {
        enabled: true,
        rules: vec![make_rule("Night", vec![WeekdayWrapper::Mon], "22:00", "06:00")],
    });

    let eleven_pm = NaiveTimeWrapper::new(23, 0).unwrap();
    assert!(engine.is_blocking_time_at(WeekdayWrapper::Mon, eleven_pm));
    assert_eq!(
        engine.active_rule_name_at(WeekdayWrapper::Mon, eleven_pm),
        Some("Night".to_string())
    );

    let noon = NaiveTimeWrapper::new(12, 0).unwrap();
    assert!(!engine.is_blocking_time_at(WeekdayWrapper::Mon, noon));
    assert_eq!(engine.active_rule_name_at(WeekdayWrapper::Mon, noon), None);
}

#[test]
fn test_active_rule_iff_blocking_time() {
    let engine = ScheduleEngine::new(Schedule {
        enabled: true,
        rules: vec![
            make_rule("Morning", vec![WeekdayWrapper::Tue], "08:00", "12:00"),
            make_rule("Evening", vec![WeekdayWrapper::Tue], "18:00", "21:00"),
        ],
    });
    for hour in 0..24u8 {
        let t = NaiveTimeWrapper::new(hour, 30).unwrap();
        let blocking = engine.is_blocking_time_at(WeekdayWrapper::Tue, t);
        let active = engine.active_rule_name_at(WeekdayWrapper::Tue, t);
        assert_eq!(blocking, active.is_some());
    }
}

#[test]
fn test_first_matching_rule_wins() {
    let engine = ScheduleEngine::new(Schedule {
        enabled: true,
        rules: vec![
            make_rule("First", vec![WeekdayWrapper::Wed], "09:00", "17:00"),
            make_rule("Second", vec![WeekdayWrapper::Wed], "10:00", "16:00"),
        ],
    });
    let eleven = NaiveTimeWrapper::new(11, 0).unwrap();
    assert_eq!(
        engine.active_rule_name_at(WeekdayWrapper::Wed, eleven),
        Some("First".to_string())
    );
}

#[test]
fn test_window_boundaries() {
    let rule = make_rule("Work", vec![WeekdayWrapper::Thu], "09:00", "17:00");
    let engine = ScheduleEngine::new(Schedule {
        enabled: true,
        rules: vec![make_rule("Work", vec![WeekdayWrapper::Thu], "09:00", "17:00")],
    });
    // the window is [start, end)
    let start = NaiveTimeWrapper::new(9, 0).unwrap();
    let end = NaiveTimeWrapper::new(17, 0).unwrap();
    let just_before_end = NaiveTimeWrapper::new(16, 59).unwrap();
    assert!(engine.rule_matches(&rule, WeekdayWrapper::Thu, start));
    assert!(engine.rule_matches(&rule, WeekdayWrapper::Thu, just_before_end));
    assert!(!engine.rule_matches(&rule, WeekdayWrapper::Thu, end));
}

#[test]
fn test_time_wrapper_serialization() {
    let time = NaiveTimeWrapper::new(9, 30).unwrap();
    let rendered = time.format();
    assert_eq!(format!("\"{}\"", rendered), "\"09:30\"");

    let parsed = NaiveTimeWrapper::parse(&rendered).unwrap();
    assert_eq!(parsed.hour, 9);
    assert_eq!(parsed.minute, 30);
}

#[test]
fn test_time_parse_rejects_bad_strings() {
    assert!(NaiveTimeWrapper::parse("24:00").is_none());
    assert!(NaiveTimeWrapper::parse("12:60").is_none());
    assert!(NaiveTimeWrapper::parse("1:30").is_none());
    assert!(NaiveTimeWrapper::parse("12-30").is_none());
    assert!(NaiveTimeWrapper::parse("").is_none());
}
