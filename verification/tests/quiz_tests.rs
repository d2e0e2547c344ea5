use blockandfocus::config::QuizConfig;
use blockandfocus::quiz::{evaluate_submission, QuizEngine, QuizError};
use blockandfocus::state::deadline_after;

fn test_config() -> QuizConfig {
    QuizConfig {
        num_questions: 3,
        min_operand: 1,
        max_operand: 10,
        timeout_seconds: 60,
        min_solve_seconds: 0, // Disable for tests
    }
}

#[test]
fn test_generate_challenge() {
    let mut engine = QuizEngine::new(test_config());
    let challenge = engine.generate_challenge();

    assert!(!challenge.challenge_id.is_empty());
    assert_eq!(challenge.questions.len(), 3);
    assert!(challenge.expires_at > chrono::Utc::now().timestamp());
}

#[test]
fn test_validate_correct_answers() {
    let mut engine = QuizEngine::new(test_config());
    let challenge = engine.generate_challenge();

    // Get the correct answers from the pending challenge
    let correct_answers = engine.expected_answers(&challenge.challenge_id).unwrap();

    let result = engine.validate_answers(&challenge.challenge_id, &correct_answers);
    assert!(result.is_ok());
}

#[test]
fn test_validate_wrong_answers() {
    let mut engine = QuizEngine::new(test_config());
    let challenge = engine.generate_challenge();

    // Submit wrong answers
    let wrong_answers = vec![99999, 99999, 99999];
    let result = engine.validate_answers(&challenge.challenge_id, &wrong_answers);
    assert_eq!(result, Err(QuizError::WrongAnswer));
}

#[test]
fn test_challenge_not_found() {
    let mut engine = QuizEngine::new(test_config());
    let result = engine.validate_answers("nonexistent", &[1, 2, 3]);
    assert_eq!(result, Err(QuizError::NotFound));
}

#[test]
fn test_one_time_use() {
    let mut engine = QuizEngine::new(test_config());
    let challenge = engine.generate_challenge();

    let correct_answers = engine.expected_answers(&challenge.challenge_id).unwrap();

    // First validation succeeds
    let result = engine.validate_answers(&challenge.challenge_id, &correct_answers);
    assert!(result.is_ok());

    // Second validation fails (challenge consumed)
    let result = engine.validate_answers(&challenge.challenge_id, &correct_answers);
    assert_eq!(result, Err(QuizError::NotFound));
}

#[test]
fn test_too_fast_beats_correct_answers() {
    let mut cfg = test_config();
    cfg.min_solve_seconds = 3600;
    let mut engine = QuizEngine::new(cfg);
    let challenge = engine.generate_challenge();
    let correct_answers = engine.expected_answers(&challenge.challenge_id).unwrap();

    let result = engine.validate_answers(&challenge.challenge_id, &correct_answers);
    assert_eq!(result, Err(QuizError::TooFast));

    // The attempt consumed the challenge
    let result = engine.validate_answers(&challenge.challenge_id, &correct_answers);
    assert_eq!(result, Err(QuizError::NotFound));
}

#[test]
fn test_challenge_id_is_opaque_and_long() {
    let mut engine = QuizEngine::new(test_config());
    let a = engine.generate_challenge();
    let b = engine.generate_challenge();
    assert_eq!(a.challenge_id.len(), 36);
    assert_eq!(b.challenge_id.len(), 36);
    assert_ne!(a.challenge_id, b.challenge_id);
}

#[test]
fn test_questions_match_stored_answers() {
    let mut engine = QuizEngine::new(test_config());
    let challenge = engine.generate_challenge();
    let answers = engine.expected_answers(&challenge.challenge_id).unwrap();
    assert_eq!(challenge.questions.len(), answers.len());
    for (q, &a) in challenge.questions.iter().zip(answers.iter()) {
        // "x <op> y = ?"
        let parts: Vec<&str> = q.split_whitespace().collect();
        assert_eq!(parts.len(), 5);
        assert_eq!(parts[3], "=");
        assert_eq!(parts[4], "?");
        let x: i32 = parts[0].parse().unwrap();
        let y: i32 = parts[2].parse().unwrap();
        let expected = match parts[1] {
            "+" => x + y,
            "-" => x - y,
            "\u{d7}" => x * y,
            other => panic!("unexpected operator {}", other),
        };
        assert_eq!(a, expected);
    }
}

#[test]
fn test_evaluate_expired() {
    let expected = vec![1, 2];
    let r = evaluate_submission(&expected, &[1, 2], 100, 0, 101, 10);
    assert_eq!(r, Err(QuizError::Expired));
}

#[test]
fn test_evaluate_too_fast() {
    let expected = vec![1, 2];
    let r = evaluate_submission(&expected, &[1, 2], 100, 5, 50, 4);
    assert_eq!(r, Err(QuizError::TooFast));
}

#[test]
fn test_evaluate_wrong_count() {
    let expected = vec![1, 2];
    let r = evaluate_submission(&expected, &[1], 100, 0, 50, 10);
    assert_eq!(r, Err(QuizError::WrongAnswerCount));
}

#[test]
fn test_evaluate_wrong_answer() {
    let expected = vec![1, 2];
    let r = evaluate_submission(&expected, &[1, 3], 100, 0, 50, 10);
    assert_eq!(r, Err(QuizError::WrongAnswer));
}

#[test]
fn test_evaluate_success_at_boundaries() {
    let expected = vec![7];
    // wall clock exactly at the expiry is not yet expired
    let r = evaluate_submission(&expected, &[7], 100, 3, 100, 3);
    assert_eq!(r, Ok(()));
}

#[test]
fn test_error_messages_exact() {
    assert_eq!(QuizError::NotFound.message(), "Quiz challenge not found");
    assert_eq!(QuizError::Expired.message(), "Quiz challenge has expired");
    assert_eq!(QuizError::TooFast.message(), "Quiz was solved too quickly");
    assert_eq!(QuizError::WrongAnswerCount.message(), "Wrong number of answers");
    assert_eq!(
        QuizError::WrongAnswer.message(),
        "One or more answers are incorrect"
    );
}

#[test]
fn test_generate_keeps_other_challenges() {
    let mut engine = QuizEngine::new(test_config());
    let first = engine.generate_challenge();
    let first_answers = engine.expected_answers(&first.challenge_id).unwrap();

    // issuing another challenge must not consume the first one
    let _second = engine.generate_challenge();

    let result = engine.validate_answers(&first.challenge_id, &first_answers);
    assert!(result.is_ok());
}

#[test]
fn test_challenge_expiry_is_issue_time_plus_timeout() {
    let mut engine = QuizEngine::new(test_config());
    let before = chrono::Utc::now().timestamp();
    let challenge = engine.generate_challenge();
    let after = chrono::Utc::now().timestamp();
    assert!(challenge.expires_at >= before + 60);
    assert!(challenge.expires_at <= after + 60);
}

#[test]
fn test_deadline_arithmetic() {
    assert_eq!(deadline_after(0, 10), 600);
    assert_eq!(deadline_after(1_700_000_000, 15), 1_700_000_900);
    assert_eq!(deadline_after(i64::MAX - 10, 1), i64::MAX);
}
