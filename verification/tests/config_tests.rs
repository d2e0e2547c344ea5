use blockandfocus::config::Config;
use blockandfocus::configfmt::{parse_config, serialize_config};
use blockandfocus::schedule::{Schedule, ScheduleRule, WeekdayWrapper};
use blockandfocus::timeofday::NaiveTimeWrapper;

#[test]
fn test_default_config_values() {
    let c = Config::default();
    assert_eq!(c.dns.listen_address, "127.0.0.1");
    assert_eq!(c.dns.listen_port, 53);
    assert_eq!(c.dns.upstream, vec!["1.1.1.1".to_string(), "8.8.8.8".to_string()]);
    assert!(c.blocking.enabled);
    assert_eq!(c.blocking.domains.len(), 5);
    assert!(c.blocking.domains.contains(&"facebook.com".to_string()));
    assert!(!c.schedule.enabled);
    assert!(c.schedule.rules.is_empty());
    assert_eq!(c.quiz.num_questions, 3);
    assert_eq!(c.quiz.min_operand, 10);
    assert_eq!(c.quiz.max_operand, 99);
    assert_eq!(c.quiz.timeout_seconds, 60);
    assert_eq!(c.quiz.min_solve_seconds, 3);
}

#[test]
fn test_default_config_round_trips() {
    let c = Config::default();
    let text = serialize_config(&c);
    let parsed = parse_config(&text).expect("the rendering should parse");
    assert_eq!(parsed.dns.upstream, c.dns.upstream);
    assert_eq!(parsed.dns.listen_address, c.dns.listen_address);
    assert_eq!(parsed.dns.listen_port, c.dns.listen_port);
    assert_eq!(parsed.blocking.enabled, c.blocking.enabled);
    assert_eq!(parsed.blocking.domains, c.blocking.domains);
    assert_eq!(parsed.schedule.enabled, c.schedule.enabled);
    assert_eq!(parsed.schedule.rules.len(), 0);
    assert_eq!(parsed.quiz, c.quiz);
}

#[test]
fn test_config_with_rules_round_trips() {
    let mut c = Config::default();
    c.schedule.enabled = true;
    c.schedule.rules = vec![
        ScheduleRule {
            name: "Night \"shift\"".to_string(),
            days: vec![WeekdayWrapper::Mon, WeekdayWrapper::Sun],
            start_time: NaiveTimeWrapper::parse("22:00").unwrap(),
            end_time: NaiveTimeWrapper::parse("06:00").unwrap(),
        },
        ScheduleRule {
            name: "Focus".to_string(),
            days: vec![WeekdayWrapper::Wed],
            start_time: NaiveTimeWrapper::parse("09:00").unwrap(),
            end_time: NaiveTimeWrapper::parse("12:30").unwrap(),
        },
    ];
    c.quiz.min_operand = -40;
    let text = serialize_config(&c);
    let parsed = parse_config(&text).expect("the rendering should parse");
    assert_eq!(parsed.schedule.rules.len(), 2);
    assert_eq!(parsed.schedule.rules[0].name, "Night \"shift\"");
    assert_eq!(
        parsed.schedule.rules[0].days,
        vec![WeekdayWrapper::Mon, WeekdayWrapper::Sun]
    );
    assert_eq!(parsed.schedule.rules[0].start_time.format(), "22:00");
    assert_eq!(parsed.schedule.rules[0].end_time.format(), "06:00");
    assert_eq!(parsed.schedule.rules[1].name, "Focus");
    assert_eq!(parsed.quiz.min_operand, -40);
}

#[test]
fn test_config_rendering_is_toml_shaped() {
    let c = Config::default();
    let text = serialize_config(&c);
    assert!(text.starts_with("[dns]\n"));
    assert!(text.contains("\n[blocking]\n"));
    assert!(text.contains("\n[schedule]\n"));
    assert!(text.contains("\n[quiz]\n"));
    assert!(text.contains("listen_port = 53"));
    assert!(text.contains("enabled = true"));
}

#[test]
fn test_config_with_schedule_block() {
    let mut c = Config::default();
    c.schedule.rules = vec![ScheduleRule {
        name: "Work".to_string(),
        days: vec![WeekdayWrapper::Fri],
        start_time: NaiveTimeWrapper::parse("08:15").unwrap(),
        end_time: NaiveTimeWrapper::parse("17:45").unwrap(),
    }];
    let text = serialize_config(&c);
    assert!(text.contains("[[schedule.rules]]"));
    assert!(text.contains("start_time = \"08:15\""));

    let sched = Schedule { enabled: false, rules: Vec::new() };
    assert!(!sched.enabled);
}

#[test]
fn test_parse_config_rejects_other_text() {
    assert!(parse_config("").is_none());
    assert!(parse_config("[dns]").is_none());
    assert!(parse_config("nonsense").is_none());
}
