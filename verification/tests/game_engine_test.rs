use quiz_server::models::quiz::parse_quiz;
use quiz_server::models::session::{GameSession, SessionStatus};
use quiz_server::models::scoring_rule::ScoringRule;
use quiz_server::services::game_engine::{
    advance_question, can_start, end_question, handle_answer, host_attach, host_detach,
    host_timeout, player_disconnect, player_join, player_reconnect, player_timeout,
    set_scoring_rule, start_game, AdvanceOutcome, GameEvent, LeaveReason, PauseReason,
    ResumeReason, ServerMessage, TerminateReason, WsErrorCode,
};

fn two_question_session() -> GameSession {
    let quiz = parse_quiz("# Q\n? Q1\n- A\n* B\n? Q2\n* X\n- Y\n", 20).unwrap();
    GameSession::new("ABC123".to_string(), quiz)
}

fn join(s: &mut GameSession, id: &str, name: &str) -> String {
    let (assigned, _) = player_join(
        s,
        id.to_string(),
        name.to_string(),
        "🙂".to_string(),
    )
    .unwrap();
    assigned
}

#[test]
fn happy_path_one_player_two_questions() {
    let mut s = two_question_session();
    let (_, events) = player_join(
        &mut s,
        "p1".to_string(),
        "P".to_string(),
        "🙂".to_string(),
    )
    .unwrap();
    assert_eq!(events.len(), 1);
    match &events[0] {
        GameEvent::BroadcastAll(ServerMessage::PlayerJoined {
            display_name,
            player_count,
            ..
        }) => {
            assert_eq!(display_name, "P");
            assert_eq!(*player_count, 1);
        }
        other => panic!("unexpected event: {other:?}"),
    }

    assert!(can_start(&s));
    let e = start_game(&mut s);
    assert_eq!(s.status, SessionStatus::Active);
    match e {
        GameEvent::BroadcastAll(ServerMessage::GameStarting {
            countdown_sec,
            total_questions,
        }) => {
            assert_eq!(countdown_sec, 3);
            assert_eq!(total_questions, 2);
        }
        other => panic!("unexpected event: {other:?}"),
    }

    let (e, outcome) = advance_question(&mut s, 10_000);
    assert_eq!(outcome, AdvanceOutcome::Asked(0));
    match e {
        GameEvent::BroadcastAll(ServerMessage::Question {
            question_index,
            total_questions,
            ref text,
            ref options,
            time_limit_sec,
        }) => {
            assert_eq!(question_index, 0);
            assert_eq!(total_questions, 2);
            assert_eq!(text, "Q1");
            assert_eq!(options, &vec!["A".to_string(), "B".to_string()]);
            assert_eq!(time_limit_sec, 20);
        }
        other => panic!("unexpected event: {other:?}"),
    }

    // Quick correct answer to question 0 earns the full 1000 points.
    let (events, all_answered) = handle_answer(&mut s, "p1", 0, 1, 12_000);
    assert!(all_answered);
    assert_eq!(events.len(), 2);
    match &events[0] {
        GameEvent::PlayerOnly {
            player_id,
            message:
                ServerMessage::AnswerResult {
                    correct,
                    points_awarded,
                    correct_index,
                },
        } => {
            assert_eq!(player_id, "p1");
            assert!(*correct);
            assert_eq!(*points_awarded, 1000);
            assert_eq!(*correct_index, 1);
        }
        other => panic!("unexpected event: {other:?}"),
    }
    match &events[1] {
        GameEvent::HostOnly(ServerMessage::AnswerCount { answered, total }) => {
            assert_eq!(*answered, 1);
            assert_eq!(*total, 1);
        }
        other => panic!("unexpected event: {other:?}"),
    }

    let ended = end_question(&s, 0).unwrap();
    match ended {
        GameEvent::BroadcastAll(ServerMessage::QuestionEnded {
            correct_index,
            ref correct_text,
            ..
        }) => {
            assert_eq!(correct_index, 1);
            assert_eq!(correct_text, "B");
        }
        other => panic!("unexpected event: {other:?}"),
    }

    let (_, outcome) = advance_question(&mut s, 20_000);
    assert_eq!(outcome, AdvanceOutcome::Asked(1));
    let (_, _) = handle_answer(&mut s, "p1", 1, 0, 21_000);
    assert!(end_question(&s, 1).is_some());

    let (e, outcome) = advance_question(&mut s, 30_000);
    assert_eq!(outcome, AdvanceOutcome::Finished);
    assert_eq!(s.status, SessionStatus::Finished);
    match e {
        GameEvent::BroadcastAll(ServerMessage::GameFinished {
            ref leaderboard,
            total_questions,
        }) => {
            assert_eq!(total_questions, 2);
            assert_eq!(leaderboard.len(), 1);
            assert_eq!(leaderboard[0].rank, 1);
            assert_eq!(leaderboard[0].display_name, "P");
            assert_eq!(leaderboard[0].score, 2000);
            assert!(leaderboard[0].is_winner);
        }
        other => panic!("unexpected event: {other:?}"),
    }
}

#[test]
fn name_collision_appends_a_numeric_suffix() {
    let mut s = two_question_session();
    let first = join(&mut s, "p1", "Alex");
    assert_eq!(first, "Alex");

    let (assigned, events) = player_join(
        &mut s,
        "p2".to_string(),
        "Alex".to_string(),
        "🙂".to_string(),
    )
    .unwrap();
    assert_eq!(assigned, "Alex 2");
    assert_eq!(events.len(), 2);
    match &events[0] {
        GameEvent::PlayerOnly {
            player_id,
            message:
                ServerMessage::NameAssigned {
                    requested_name,
                    assigned_name,
                },
        } => {
            assert_eq!(player_id, "p2");
            assert_eq!(requested_name, "Alex");
            assert_eq!(assigned_name, "Alex 2");
        }
        other => panic!("unexpected event: {other:?}"),
    }
    match &events[1] {
        GameEvent::BroadcastAll(ServerMessage::PlayerJoined { display_name, .. }) => {
            assert_eq!(display_name, "Alex 2");
        }
        other => panic!("unexpected event: {other:?}"),
    }

    let third = join(&mut s, "p3", "Alex");
    assert_eq!(third, "Alex 3");
}

#[test]
fn host_pause_and_resume() {
    let mut s = two_question_session();
    join(&mut s, "p1", "P");
    start_game(&mut s);
    advance_question(&mut s, 1_000);

    let paused = host_detach(&mut s).unwrap();
    assert_eq!(s.status, SessionStatus::Paused);
    assert!(matches!(
        paused,
        GameEvent::BroadcastAll(ServerMessage::GamePaused {
            reason: PauseReason::HostDisconnected
        })
    ));

    let resumed = host_attach(&mut s, "host-2".to_string()).unwrap();
    assert_eq!(s.status, SessionStatus::Active);
    assert!(matches!(
        resumed,
        GameEvent::BroadcastAll(ServerMessage::GameResumed {
            reason: ResumeReason::HostReconnected
        })
    ));
}

#[test]
fn host_timeout_terminates_the_game() {
    let mut s = two_question_session();
    join(&mut s, "p1", "P");
    start_game(&mut s);
    advance_question(&mut s, 1_000);
    host_detach(&mut s).unwrap();

    let terminated = host_timeout(&mut s).unwrap();
    assert_eq!(s.status, SessionStatus::Finished);
    match terminated {
        GameEvent::BroadcastAll(ServerMessage::GameTerminated {
            reason,
            ref leaderboard,
            total_questions,
        }) => {
            assert_eq!(reason, TerminateReason::HostTimeout);
            assert_eq!(total_questions, 2);
            assert_eq!(leaderboard.len(), 1);
        }
        other => panic!("unexpected event: {other:?}"),
    }

    // A second firing finds the game already finished and does nothing.
    assert!(host_timeout(&mut s).is_none());
}

#[test]
fn scoring_rule_can_only_change_in_the_lobby() {
    let mut s = two_question_session();
    join(&mut s, "p1", "P");

    let e = set_scoring_rule(&mut s, ScoringRule::LinearDecay).unwrap();
    assert!(matches!(
        e,
        GameEvent::BroadcastAll(ServerMessage::ScoringRuleSet {
            rule: ScoringRule::LinearDecay
        })
    ));
    assert_eq!(s.scoring_rule, ScoringRule::LinearDecay);

    start_game(&mut s);
    assert!(set_scoring_rule(&mut s, ScoringRule::FixedScore).is_none());
    assert_eq!(s.scoring_rule, ScoringRule::LinearDecay);
}

#[test]
fn duplicate_answer_and_wrong_question() {
    let mut s = two_question_session();
    join(&mut s, "p1", "P");
    join(&mut s, "p2", "Q");
    start_game(&mut s);
    advance_question(&mut s, 0);

    let (_, all) = handle_answer(&mut s, "p1", 0, 1, 1_000);
    assert!(!all); // the second player has not answered yet

    let (events, _) = handle_answer(&mut s, "p1", 0, 0, 2_000);
    assert_eq!(events.len(), 1);
    match &events[0] {
        GameEvent::PlayerOnly {
            player_id,
            message: ServerMessage::ErrorMsg { code, .. },
        } => {
            assert_eq!(player_id, "p1");
            assert_eq!(*code, WsErrorCode::AlreadyAnswered);
        }
        other => panic!("unexpected event: {other:?}"),
    }

    let (events, _) = handle_answer(&mut s, "p2", 1, 0, 2_000);
    assert_eq!(events.len(), 1);
    match &events[0] {
        GameEvent::PlayerOnly {
            player_id,
            message: ServerMessage::ErrorMsg { code, .. },
        } => {
            assert_eq!(player_id, "p2");
            assert_eq!(*code, WsErrorCode::WrongQuestion);
        }
        other => panic!("unexpected event: {other:?}"),
    }

    // An unknown player is silently dropped.
    let (events, all) = handle_answer(&mut s, "ghost", 0, 1, 2_000);
    assert!(events.is_empty());
    assert!(!all);
}

#[test]
fn wrong_answer_earns_nothing_and_ends_count() {
    let mut s = two_question_session();
    join(&mut s, "p1", "P");
    start_game(&mut s);
    advance_question(&mut s, 0);

    let (events, all) = handle_answer(&mut s, "p1", 0, 0, 1_000);
    assert!(all);
    match &events[0] {
        GameEvent::PlayerOnly {
            message:
                ServerMessage::AnswerResult {
                    correct,
                    points_awarded,
                    ..
                },
            ..
        } => {
            assert!(!*correct);
            assert_eq!(*points_awarded, 0);
        }
        other => panic!("unexpected event: {other:?}"),
    }
    assert_eq!(s.players[0].score, 0);
    assert_eq!(s.players[0].correct_count, 0);
}

#[test]
fn ending_a_stale_question_does_nothing() {
    let mut s = two_question_session();
    join(&mut s, "p1", "P");
    start_game(&mut s);
    advance_question(&mut s, 0);
    assert!(end_question(&s, 1).is_none());
}

#[test]
fn player_disconnect_and_reconnect_keep_the_score() {
    let mut s = two_question_session();
    join(&mut s, "p1", "P");
    start_game(&mut s);
    advance_question(&mut s, 0);
    handle_answer(&mut s, "p1", 0, 1, 1_000);

    let e = player_disconnect(&mut s, "p1", "P", 5_000);
    match e {
        GameEvent::BroadcastAll(ServerMessage::PlayerLeft {
            reason,
            player_count,
            ..
        }) => {
            assert_eq!(reason, LeaveReason::Disconnected);
            assert_eq!(player_count, 0);
        }
        other => panic!("unexpected event: {other:?}"),
    }

    // Within the window the same name resurrects the same player.
    let (pid, e) = player_reconnect(&mut s, "P", 30_000, 120).unwrap();
    assert_eq!(pid, "p1");
    match e {
        GameEvent::BroadcastAll(ServerMessage::PlayerReconnected {
            player_id,
            display_name,
            player_count,
        }) => {
            assert_eq!(player_id, "p1");
            assert_eq!(display_name, "P");
            assert_eq!(player_count, 1);
        }
        other => panic!("unexpected event: {other:?}"),
    }
    assert_eq!(s.players[0].score, 1000);

    // A reconnected player cannot be timed out any more.
    assert!(player_timeout(&mut s, "p1").is_none());
}

#[test]
fn player_timeout_removes_a_still_disconnected_player() {
    let mut s = two_question_session();
    join(&mut s, "p1", "P");
    player_disconnect(&mut s, "p1", "P", 5_000);

    // Outside the window the name is not resurrected.
    assert!(player_reconnect(&mut s, "P", 500_000, 120).is_none());

    let e = player_timeout(&mut s, "p1").unwrap();
    match e {
        GameEvent::BroadcastAll(ServerMessage::PlayerLeft {
            reason,
            display_name,
            player_count,
            ..
        }) => {
            assert_eq!(reason, LeaveReason::Timeout);
            assert_eq!(display_name, "P");
            assert_eq!(player_count, 0);
        }
        other => panic!("unexpected event: {other:?}"),
    }
    assert_eq!(s.players.len(), 0);
}

#[test]
fn join_rejected_after_the_lobby() {
    let mut s = two_question_session();
    join(&mut s, "p1", "P");
    start_game(&mut s);
    assert!(player_join(
        &mut s,
        "p2".to_string(),
        "Late".to_string(),
        "🙂".to_string()
    )
    .is_err());
}

#[test]
fn cannot_start_without_players() {
    let mut s = two_question_session();
    assert!(!can_start(&s));
    join(&mut s, "p1", "P");
    assert!(can_start(&s));
    start_game(&mut s);
    assert!(!can_start(&s));
}
