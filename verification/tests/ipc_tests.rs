use blockandfocus::config::Config;
use blockandfocus::ipc::{handle_command, Command, ErrorCode, Response};
use blockandfocus::json::parse_command;
use blockandfocus::schedule::{Schedule, ScheduleRule, WeekdayWrapper};
use blockandfocus::state::AppState;
use blockandfocus::timeofday::NaiveTimeWrapper;

fn fresh_state() -> AppState {
    let mut config = Config::default();
    config.quiz.min_solve_seconds = 0;
    AppState::new(config)
}

#[test]
fn test_ping_pong() {
    let mut state = fresh_state();
    let (resp, dirty) = handle_command(&mut state, Command::Ping);
    assert!(matches!(resp, Response::Pong));
    assert!(!dirty);
}

#[test]
fn test_add_domain_normalizes_and_blocks() {
    let mut state = fresh_state();
    let cmd = parse_command("{\"type\":\"AddDomain\",\"payload\":{\"domain\":\"Reddit.COM\"}}")
        .expect("command should parse");
    let (resp, dirty) = handle_command(&mut state, cmd);
    assert!(matches!(resp, Response::Success));
    assert!(dirty);

    let (resp, _) = handle_command(&mut state, Command::GetBlocklist);
    match resp {
        Response::Blocklist { domains } => {
            assert!(domains.contains(&"reddit.com".to_string()));
        },
        _ => panic!("expected a blocklist"),
    }

    // subsequent DNS decisions observe the change
    assert!(state.blocker.should_block("news.reddit.com"));
    assert!(state.blocker.should_block("reddit.com"));
}

#[test]
fn test_add_domain_ignores_duplicates() {
    let mut state = fresh_state();
    let before = match handle_command(&mut state, Command::GetBlocklist).0 {
        Response::Blocklist { domains } => domains.len(),
        _ => panic!("expected a blocklist"),
    };
    let cmd = Command::AddDomain { domain: "FACEBOOK.com".to_string() };
    let (resp, _) = handle_command(&mut state, cmd);
    assert!(matches!(resp, Response::Success));
    let after = match handle_command(&mut state, Command::GetBlocklist).0 {
        Response::Blocklist { domains } => domains.len(),
        _ => panic!("expected a blocklist"),
    };
    assert_eq!(before, after);
}

#[test]
fn test_remove_domain_absent_is_invalid() {
    let mut state = fresh_state();
    let cmd = Command::RemoveDomain { domain: "not-there.example".to_string() };
    let (resp, _) = handle_command(&mut state, cmd);
    match resp {
        Response::Error { code, .. } => assert_eq!(code, ErrorCode::InvalidDomain),
        _ => panic!("expected an error"),
    }
}

#[test]
fn test_remove_domain_present() {
    let mut state = fresh_state();
    let cmd = Command::RemoveDomain { domain: "Facebook.com".to_string() };
    let (resp, dirty) = handle_command(&mut state, cmd);
    assert!(matches!(resp, Response::Success));
    assert!(dirty);
    assert!(!state.blocker.should_block("facebook.com"));
}

#[test]
fn test_update_and_get_schedule() {
    let mut state = fresh_state();
    let schedule = Schedule {
        enabled: true,
        rules: vec![ScheduleRule {
            name: "Night".to_string(),
            days: vec![WeekdayWrapper::Mon],
            start_time: NaiveTimeWrapper::parse("22:00").unwrap(),
            end_time: NaiveTimeWrapper::parse("06:00").unwrap(),
        }],
    };
    let (resp, dirty) = handle_command(&mut state, Command::UpdateSchedule { schedule });
    assert!(matches!(resp, Response::Success));
    assert!(dirty);

    let (resp, _) = handle_command(&mut state, Command::GetSchedule);
    match resp {
        Response::Schedule(s) => {
            assert!(s.enabled);
            assert_eq!(s.rules.len(), 1);
            assert_eq!(s.rules[0].name, "Night");
            assert_eq!(s.rules[0].start_time.hour, 22);
            assert_eq!(s.rules[0].end_time.hour, 6);
        },
        _ => panic!("expected a schedule"),
    }
}

#[test]
fn test_request_bypass_issues_quiz() {
    let mut state = fresh_state();
    let (resp, dirty) = handle_command(&mut state, Command::RequestBypass {
        duration_minutes: 10,
    });
    assert!(!dirty);
    match resp {
        Response::QuizChallenge(ch) => {
            assert_eq!(ch.questions.len(), 3);
            assert!(!ch.challenge_id.is_empty());
        },
        _ => panic!("expected a challenge"),
    }
}

#[test]
fn test_submit_quiz_success_activates_bypass() {
    let mut state = fresh_state();
    let ch = match handle_command(&mut state, Command::RequestBypass { duration_minutes: 10 }).0 {
        Response::QuizChallenge(ch) => ch,
        _ => panic!("expected a challenge"),
    };
    let answers = state.quiz.expected_answers(&ch.challenge_id).unwrap();
    let before = chrono::Utc::now().timestamp();
    let (resp, _) = handle_command(&mut state, Command::SubmitQuizAnswers {
        challenge_id: ch.challenge_id,
        answers,
    });
    assert!(matches!(resp, Response::Success));
    let until = state.bypass_until.expect("bypass should be active");
    // the fixed default of fifteen minutes applies
    assert!(until >= before + 900 && until <= before + 905);

    // a status report shows it, and blocking is suspended
    match handle_command(&mut state, Command::GetStatus).0 {
        Response::Status(st) => {
            assert_eq!(st.bypass_until, Some(until));
            assert!(!st.blocking_active);
        },
        _ => panic!("expected a status"),
    }
}

#[test]
fn test_submit_quiz_wrong_answers_consumes() {
    let mut state = fresh_state();
    let ch = match handle_command(&mut state, Command::RequestBypass { duration_minutes: 10 }).0 {
        Response::QuizChallenge(ch) => ch,
        _ => panic!("expected a challenge"),
    };
    let id = ch.challenge_id.clone();
    let (resp, _) = handle_command(&mut state, Command::SubmitQuizAnswers {
        challenge_id: id.clone(),
        answers: vec![1000000, 1000000, 1000000],
    });
    match resp {
        Response::Error { code, .. } => assert_eq!(code, ErrorCode::QuizFailed),
        _ => panic!("expected an error"),
    }
    // the failed attempt invalidated the challenge
    let (resp, _) = handle_command(&mut state, Command::SubmitQuizAnswers {
        challenge_id: id,
        answers: vec![0, 0, 0],
    });
    match resp {
        Response::Error { code, .. } => assert_eq!(code, ErrorCode::QuizNotFound),
        _ => panic!("expected an error"),
    }
    assert!(state.bypass_until.is_none());
}

#[test]
fn test_cancel_bypass() {
    let mut state = fresh_state();
    state.bypass_until = Some(chrono::Utc::now().timestamp() + 600);
    let (resp, dirty) = handle_command(&mut state, Command::CancelBypass);
    assert!(matches!(resp, Response::Success));
    assert!(!dirty);
    assert!(state.bypass_until.is_none());
}

#[test]
fn test_bypass_deadline_is_strict() {
    let mut state = fresh_state();
    let now = 1_700_000_000i64;
    let day = WeekdayWrapper::Mon;
    let noon = NaiveTimeWrapper::new(12, 0).unwrap();

    state.bypass_until = Some(now + 1);
    assert!(!state.is_blocking_active_at(now, day, noon));

    // a deadline exactly equal to now no longer suppresses blocking
    state.bypass_until = Some(now);
    assert!(state.is_blocking_active_at(now, day, noon));
}

#[test]
fn test_enabled_empty_schedule_turns_blocking_off() {
    let mut config = Config::default();
    config.schedule.enabled = true;
    config.schedule.rules = Vec::new();
    let state = AppState::new(config);
    let now = 1_700_000_000i64;
    let noon = NaiveTimeWrapper::new(12, 0).unwrap();
    assert!(!state.is_blocking_active_at(now, WeekdayWrapper::Mon, noon));
}

#[test]
fn test_blocking_disabled_flag_wins() {
    let mut config = Config::default();
    config.blocking.enabled = false;
    let state = AppState::new(config);
    let now = 1_700_000_000i64;
    let noon = NaiveTimeWrapper::new(12, 0).unwrap();
    assert!(!state.is_blocking_active_at(now, WeekdayWrapper::Mon, noon));
}

#[test]
fn test_status_counts() {
    let mut state = fresh_state();
    match handle_command(&mut state, Command::GetStatus).0 {
        Response::Status(st) => {
            assert_eq!(st.blocked_domains_count, 5);
            assert_eq!(st.queries_blocked, 0);
            assert_eq!(st.queries_forwarded, 0);
            assert!(!st.schedule_enabled);
            assert!(st.bypass_until.is_none());
        },
        _ => panic!("expected a status"),
    }
}
