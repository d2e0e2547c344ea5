use blockandfocus::ipc::{Command, ErrorCode, Response, Status};
use blockandfocus::json::{parse_command, serialize_command, serialize_response};
use blockandfocus::schedule::{Schedule, ScheduleRule, WeekdayWrapper};
use blockandfocus::timeofday::NaiveTimeWrapper;

#[test]
fn test_command_serialization() {
    let cmd = Command::AddDomain { domain: "facebook.com".to_string() };
    let json = serialize_command(&cmd);
    assert!(json.contains("AddDomain"));
    assert!(json.contains("facebook.com"));

    let parsed = parse_command(&json).unwrap();
    match parsed {
        Command::AddDomain { domain } => assert_eq!(domain, "facebook.com"),
        _ => panic!("Wrong command type"),
    }
}

#[test]
fn test_response_serialization() {
    let resp = Response::Status(Status {
        blocking_active: true,
        blocked_domains_count: 5,
        queries_blocked: 100,
        queries_forwarded: 500,
        bypass_until: None,
        active_schedule_rule: Some("Work Hours".to_string()),
        schedule_enabled: true,
    });
    let json = serialize_response(&resp);
    assert!(json.contains("Status"));
    assert!(json.contains("blocking_active"));
}

#[test]
fn test_unit_commands_round_trip() {
    let unit_cases = [
        Command::Ping,
        Command::GetStatus,
        Command::GetBlocklist,
        Command::GetSchedule,
        Command::CancelBypass,
    ];
    let expect = ["Ping", "GetStatus", "GetBlocklist", "GetSchedule", "CancelBypass"];
    for (cmd, name) in unit_cases.iter().zip(expect.iter()) {
        let json = serialize_command(cmd);
        assert_eq!(json, format!("{{\"type\":\"{}\"}}", name));
        let parsed = parse_command(&json).unwrap();
        assert_eq!(serialize_command(&parsed), json);
    }
}

#[test]
fn test_request_bypass_round_trip() {
    let json = serialize_command(&Command::RequestBypass { duration_minutes: 10 });
    assert_eq!(json, "{\"type\":\"RequestBypass\",\"payload\":{\"duration_minutes\":10}}");
    match parse_command(&json).unwrap() {
        Command::RequestBypass { duration_minutes } => assert_eq!(duration_minutes, 10),
        _ => panic!("Wrong command type"),
    }
}

#[test]
fn test_submit_answers_round_trip() {
    let cmd = Command::SubmitQuizAnswers {
        challenge_id: "abc-123".to_string(),
        answers: vec![5, -17, 0],
    };
    let json = serialize_command(&cmd);
    assert_eq!(
        json,
        "{\"type\":\"SubmitQuizAnswers\",\"payload\":{\"challenge_id\":\"abc-123\",\"answers\":[5,-17,0]}}"
    );
    match parse_command(&json).unwrap() {
        Command::SubmitQuizAnswers { challenge_id, answers } => {
            assert_eq!(challenge_id, "abc-123");
            assert_eq!(answers, vec![5, -17, 0]);
        },
        _ => panic!("Wrong command type"),
    }
}

#[test]
fn test_update_schedule_round_trip() {
    let cmd = Command::UpdateSchedule {
        schedule: Schedule {
            enabled: true,
            rules: vec![ScheduleRule {
                name: "Night".to_string(),
                days: vec![WeekdayWrapper::Mon, WeekdayWrapper::Sun],
                start_time: NaiveTimeWrapper::parse("22:00").unwrap(),
                end_time: NaiveTimeWrapper::parse("06:00").unwrap(),
            }],
        },
    };
    let json = serialize_command(&cmd);
    assert_eq!(
        json,
        "{\"type\":\"UpdateSchedule\",\"payload\":{\"schedule\":{\"enabled\":true,\"rules\":[{\"name\":\"Night\",\"days\":[\"mon\",\"sun\"],\"start_time\":\"22:00\",\"end_time\":\"06:00\"}]}}}"
    );
    match parse_command(&json).unwrap() {
        Command::UpdateSchedule { schedule } => {
            assert!(schedule.enabled);
            assert_eq!(schedule.rules.len(), 1);
            assert_eq!(schedule.rules[0].name, "Night");
            assert_eq!(
                schedule.rules[0].days,
                vec![WeekdayWrapper::Mon, WeekdayWrapper::Sun]
            );
            assert_eq!(schedule.rules[0].start_time.format(), "22:00");
            assert_eq!(schedule.rules[0].end_time.format(), "06:00");
        },
        _ => panic!("Wrong command type"),
    }
}

#[test]
fn test_string_escaping_round_trip() {
    let odd = "we\"ird\\do\nmain".to_string();
    let cmd = Command::AddDomain { domain: odd.clone() };
    let json = serialize_command(&cmd);
    match parse_command(&json).unwrap() {
        Command::AddDomain { domain } => assert_eq!(domain, odd),
        _ => panic!("Wrong command type"),
    }
}

#[test]
fn test_parser_accepts_common_escapes() {
    let json = "{\"type\":\"AddDomain\",\"payload\":{\"domain\":\"a\\\"b\\\\c\"}}";
    match parse_command(json).unwrap() {
        Command::AddDomain { domain } => assert_eq!(domain, "a\"b\\c"),
        _ => panic!("Wrong command type"),
    }
}

#[test]
fn test_parser_rejects_malformed_lines() {
    assert!(parse_command("").is_none());
    assert!(parse_command("not json").is_none());
    assert!(parse_command("{\"type\":\"NoSuchCommand\"}").is_none());
    assert!(parse_command("{\"type\":\"Ping\"").is_none());
    assert!(parse_command("{\"type\":\"Ping\"}trailing").is_none());
    assert!(parse_command(
        "{\"type\":\"RequestBypass\",\"payload\":{\"duration_minutes\":-1}}",
    )
        .is_none());
}

#[test]
fn test_error_response_wire_form() {
    let resp = Response::Error {
        code: ErrorCode::QuizTooFast,
        message: "Quiz was solved too quickly".to_string(),
    };
    let json = serialize_response(&resp);
    assert_eq!(
        json,
        "{\"type\":\"Error\",\"payload\":{\"code\":\"quiz_too_fast\",\"message\":\"Quiz was solved too quickly\"}}"
    );
}

#[test]
fn test_blocklist_response_wire_form() {
    let resp = Response::Blocklist {
        domains: vec!["a.com".to_string(), "b.org".to_string()],
    };
    let json = serialize_response(&resp);
    assert_eq!(
        json,
        "{\"type\":\"Blocklist\",\"payload\":{\"domains\":[\"a.com\",\"b.org\"]}}"
    );
}

#[test]
fn test_status_response_wire_form() {
    let resp = Response::Status(Status {
        blocking_active: false,
        blocked_domains_count: 2,
        queries_blocked: 7,
        queries_forwarded: 11,
        bypass_until: Some(-5),
        active_schedule_rule: None,
        schedule_enabled: false,
    });
    let json = serialize_response(&resp);
    assert_eq!(
        json,
        "{\"type\":\"Status\",\"payload\":{\"blocking_active\":false,\"blocked_domains_count\":2,\"queries_blocked\":7,\"queries_forwarded\":11,\"bypass_until\":-5,\"active_schedule_rule\":null,\"schedule_enabled\":false}}"
    );
}

#[test]
fn test_minimum_timestamp_renders() {
    let resp = Response::Status(Status {
        blocking_active: false,
        blocked_domains_count: 0,
        queries_blocked: 0,
        queries_forwarded: 0,
        bypass_until: Some(i64::MIN),
        active_schedule_rule: None,
        schedule_enabled: false,
    });
    let json = serialize_response(&resp);
    assert!(json.contains("\"bypass_until\":-9223372036854775808"));
}
