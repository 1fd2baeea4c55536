use quiz_server::config::AppConfig;
use quiz_server::errors::AppError;
use quiz_server::models::player::{Answer, ConnectionStatus, Player};

#[test]
fn error_codes_and_statuses() {
    let cases: Vec<(AppError, &str, u16)> = vec![
        (AppError::InvalidUpload("x".to_string()), "invalid_upload", 400),
        (AppError::InvalidQuizFile(vec![]), "invalid_quiz_file", 400),
        (AppError::QuizNotFound, "quiz_not_found", 404),
        (AppError::SessionNotFound, "session_not_found", 404),
        (AppError::SessionNotJoinable, "session_not_joinable", 409),
        (AppError::MaxSessionsReached, "max_sessions_reached", 409),
        (AppError::SessionFull, "session_full", 409),
        (AppError::Internal("x".to_string()), "internal_error", 500),
    ];
    for (err, code, status) in cases {
        assert_eq!(err.error_code(), code);
        assert_eq!(err.http_status(), status);
    }
}

#[test]
fn config_defaults_match_the_documentation() {
    let c = AppConfig::defaults();
    assert_eq!(c.port, 3000);
    assert_eq!(c.max_sessions, 10);
    assert_eq!(c.max_players, 50);
    assert_eq!(c.question_time_sec, 20);
    assert_eq!(c.reconnect_timeout_sec, 120);
    assert!(c.static_dir.is_none());
}

#[test]
fn new_player_starts_fresh_and_tracks_answers() {
    let mut p = Player::new("id-1".to_string(), "Ada".to_string(), "🙂".to_string());
    assert_eq!(p.score, 0);
    assert_eq!(p.correct_count, 0);
    assert_eq!(p.connection_status, ConnectionStatus::Connected);
    assert!(p.disconnected_at.is_none());
    assert!(!p.has_answered(0));

    p.answers.push(Answer {
        question_index: 0,
        selected_index: 1,
        time_taken_ms: 500,
        points_awarded: 1000,
    });
    assert!(p.has_answered(0));
    assert!(!p.has_answered(1));
}
