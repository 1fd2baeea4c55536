//! The per-session game state machine.
//!
//! Every function here is a pure state transition: it takes the session
//! record (and, where timing matters, the current time in milliseconds),
//! mutates the record, and returns the typed events to publish and what to
//! schedule next.  Sockets, timers and task spawning live outside the
//! library and drive these transitions.

use vstd::prelude::*;

use crate::models::leaderboard::{
    compute_leaderboard, is_leaderboard_of, player_key, players_keys, LeaderboardEntry,
};
use crate::models::player::{
    lemma_answers_bounded, lemma_sum_points_bound, lemma_sum_points_push, Answer,
    ConnectionStatus, Player,
};
use crate::models::session::{
    count_answered, count_connected, find_player_index, has_player_id, lemma_find_player_at,
    GameSession, SessionStatus,
};
use crate::models::scoring_rule::{spec_points, ScoringRule};
use crate::text::{
    chars_of, lemma_spec_digits_injective, lemma_spec_digits_len, push_digits, spec_digits,
    str_eq, string_from_chars,
};
use vstd::set_lib::{lemma_int_range, lemma_len_subset, set_int_range};

verus! {

/// Why a game was paused.
#[derive(Clone, Copy, Debug, PartialEq, Eq, Structural)]
pub enum PauseReason {
    HostDisconnected,
}

/// Why a game was resumed.
#[derive(Clone, Copy, Debug, PartialEq, Eq, Structural)]
pub enum ResumeReason {
    HostReconnected,
}

/// Why a game was terminated before its natural end.
#[derive(Clone, Copy, Debug, PartialEq, Eq, Structural)]
pub enum TerminateReason {
    HostTimeout,
}

/// Why a player left.
#[derive(Clone, Copy, Debug, PartialEq, Eq, Structural)]
pub enum LeaveReason {
    Disconnected,
    Timeout,
}

/// Error codes sent to a player over the session channel.
#[derive(Clone, Copy, Debug, PartialEq, Eq, Structural)]
pub enum WsErrorCode {
    WrongQuestion,
    AlreadyAnswered,
}

/// A typed message for session participants; the transport serializes it.
#[derive(Debug)]
pub enum ServerMessage {
    PlayerJoined { player_id: String, display_name: String, avatar: String, player_count: usize },
    PlayerReconnected { player_id: String, display_name: String, player_count: usize },
    PlayerLeft { player_id: String, display_name: String, player_count: usize, reason: LeaveReason },
    NameAssigned { requested_name: String, assigned_name: String },
    GameStarting { countdown_sec: u64, total_questions: usize },
    Question {
        question_index: usize,
        total_questions: usize,
        text: String,
        options: Vec<String>,
        time_limit_sec: u64,
    },
    AnswerResult { correct: bool, points_awarded: u32, correct_index: usize },
    AnswerCount { answered: usize, total: usize },
    QuestionEnded { correct_index: usize, correct_text: String, leaderboard: Vec<LeaderboardEntry> },
    GameFinished { leaderboard: Vec<LeaderboardEntry>, total_questions: usize },
    GamePaused { reason: PauseReason },
    GameResumed { reason: ResumeReason },
    GameTerminated {
        reason: TerminateReason,
        leaderboard: Vec<LeaderboardEntry>,
        total_questions: usize,
    },
    ScoringRuleSet { rule: ScoringRule },
    ErrorMsg { code: WsErrorCode, message: String },
}

/// A message together with who it is addressed to.
#[derive(Debug)]
pub enum GameEvent {
    /// Delivered to the host and every player.
    BroadcastAll(ServerMessage),
    /// Delivered only to the host.
    HostOnly(ServerMessage),
    /// Delivered only to the player with id `player_id`.
    PlayerOnly { player_id: String, message: ServerMessage },
}

/// What the caller must schedule after advancing the question cursor.
#[derive(Clone, Copy, Debug, PartialEq, Eq, Structural)]
pub enum AdvanceOutcome {
    /// The game ended; nothing is scheduled.
    Finished,
    /// This question was emitted: arm its question timer.
    Asked(usize),
}

/// The current leaderboard of the session's players.
#[verifier::loop_isolation(false)]
pub fn session_leaderboard(s: &GameSession, mark_winner: bool) -> (r: Vec<LeaderboardEntry>)
    requires
        s.players@.len() < 0xffff_ffff,
    ensures
        r@.len() == s.players@.len(),
        is_leaderboard_of(r.deep_view(), players_keys(s.players@), mark_winner),
{
    let mut refs: Vec<&Player> = Vec::new();
    let mut i: usize = 0;
    while i < s.players.len()
        invariant
            0 <= i <= s.players@.len(),
            refs@.len() == i,
            forall|k: int| 0 <= k < i ==> *(#[trigger] refs@[k]) == s.players@[k],
        decreases s.players@.len() - i,
    {
        refs.push(&s.players[i]);
        i = i + 1;
    }
    let sl = refs.as_slice();
    let r = compute_leaderboard(sl, mark_winner);
    proof {
        assert(sl@.map_values(|p: &Player| player_key(*p)) =~= players_keys(s.players@));
    }
    r
}

/// Whether the host may start the game: the session is still in the lobby
/// and at least one player has joined.
pub fn can_start(s: &GameSession) -> (r: bool)
    ensures
        r == (s.status == SessionStatus::Lobby && s.players@.len() >= 1),
{
    s.status == SessionStatus::Lobby && self_players_nonempty(s)
}

/// Whether the session has any player.
fn self_players_nonempty(s: &GameSession) -> (r: bool)
    ensures
        r == (s.players@.len() >= 1),
{
    s.players.len() >= 1
}

/// Start the game: the session becomes active and everyone is told the
/// countdown and the question count.  After the countdown the caller
/// advances to the first question.
pub fn start_game(s: &mut GameSession) -> (e: GameEvent)
    requires
        old(s).wf(),
        old(s).status == SessionStatus::Lobby,
        old(s).players@.len() >= 1,
    ensures
        final(s).wf(),
        *final(s) == (GameSession { status: SessionStatus::Active, ..*old(s) }),
        e matches GameEvent::BroadcastAll(
            ServerMessage::GameStarting { countdown_sec: c, total_questions: t },
        ) && c == 3 && t == old(s).spec_total_questions(),
{
    s.status = SessionStatus::Active;
    let total = s.quiz.questions.len();
    GameEvent::BroadcastAll(ServerMessage::GameStarting { countdown_sec: 3, total_questions: total })
}

/// Advance to the next question.
///
/// Moves the cursor one question forward.  Past the last question the game
/// finishes and everyone receives the winner-marked leaderboard; otherwise
/// the question is emitted with its options and time limit, the emission
/// time is recorded, and the caller arms that question's timer.
#[verifier::loop_isolation(false)]
pub fn advance_question(s: &mut GameSession, now_ms: u64) -> (r: (GameEvent, AdvanceOutcome))
    requires
        old(s).wf(),
        old(s).status != SessionStatus::Lobby,
        old(s).current_question < old(s).spec_total_questions(),
    ensures
        final(s).wf(),
        final(s).current_question == old(s).current_question + 1,
        old(s).current_question + 1 == old(s).spec_total_questions() ==> {
            &&& *final(s) == (GameSession {
                current_question: final(s).current_question,
                status: SessionStatus::Finished,
                ..*old(s)
            })
            &&& r.1 == AdvanceOutcome::Finished
            &&& r.0 matches GameEvent::BroadcastAll(
                ServerMessage::GameFinished { leaderboard: lb, total_questions: t },
            ) && t == old(s).spec_total_questions() && is_leaderboard_of(
                lb.deep_view(),
                players_keys(old(s).players@),
                true,
            )
        },
        old(s).current_question + 1 < old(s).spec_total_questions() ==> {
            let idx = old(s).current_question + 1;
            let q = old(s).quiz@.questions[idx];
            &&& *final(s) == (GameSession {
                current_question: final(s).current_question,
                question_started: Some(now_ms),
                ..*old(s)
            })
            &&& r.1 == AdvanceOutcome::Asked(idx as usize)
            &&& r.0 matches GameEvent::BroadcastAll(
                ServerMessage::Question {
                    question_index: qi,
                    total_questions: t,
                    text,
                    options,
                    time_limit_sec: tl,
                },
            ) && qi == idx && t == old(s).spec_total_questions() && text@ == q.text
                && options.deep_view() =~~= q.options && tl == q.time_limit_sec
        },
{
    s.current_question = s.current_question + 1;
    let idx: usize = s.current_question as usize;
    let total = s.quiz.questions.len();
    if idx >= total {
        let lb = session_leaderboard(s, true);
        s.status = SessionStatus::Finished;
        (
            GameEvent::BroadcastAll(
                ServerMessage::GameFinished { leaderboard: lb, total_questions: total },
            ),
            AdvanceOutcome::Finished,
        )
    } else {
        s.question_started = Some(now_ms);
        let q = &s.quiz.questions[idx];
        let mut options: Vec<String> = Vec::new();
        let mut k: usize = 0;
        while k < q.options.len()
            invariant
                0 <= k <= q.options@.len(),
                options.deep_view() =~~= q@.options.take(k as int),
            decreases q.options@.len() - k,
        {
            options.push(q.options[k].text.clone());
            proof {
                assert(options.deep_view() =~~= q@.options.take(k as int + 1));
            }
            k = k + 1;
        }
        proof {
            assert(q@.options.take(q.options@.len() as int) =~= q@.options);
        }
        let e = GameEvent::BroadcastAll(
            ServerMessage::Question {
                question_index: idx,
                total_questions: total,
                text: q.text.clone(),
                options,
                time_limit_sec: q.time_limit_sec,
            },
        );
        (e, AdvanceOutcome::Asked(idx))
    }
}

/// Elapsed answering time: the distance from the question's emission to
/// `now_ms`, and 0 when no question is running or clocks run backwards.
pub open spec fn spec_elapsed(question_started: Option<u64>, now_ms: u64) -> int {
    match question_started {
        Some(t) => if now_ms >= t {
            now_ms - t
        } else {
            0
        },
        None => 0,
    }
}

/// Arbitrate one answer submission.
///
/// A submission against anything but the currently active question earns a
/// `wrong_question` error; one from an unknown player is dropped; a second
/// submission for the same question earns `already_answered`.  Otherwise
/// the answer is recorded once and for all: correctness is judged against
/// the question's correct option, points follow the session's scoring rule
/// over the elapsed time, the player's score and correct count grow
/// accordingly, the player learns the verdict, and the host learns how
/// many players have answered.  The returned flag says whether every
/// player has now answered, which ends the question early.
#[verifier::loop_isolation(false)]
#[verifier::rlimit(100)]
pub fn handle_answer(
    s: &mut GameSession,
    player_id: &str,
    question_index: usize,
    selected_index: usize,
    now_ms: u64,
) -> (r: (Vec<GameEvent>, bool))
    requires
        old(s).wf(),
    ensures
        final(s).wf(),
        !(old(s).current_question >= 0 && old(s).current_question == question_index
            && question_index < old(s).spec_total_questions()) ==> {
            &&& *final(s) == *old(s)
            &&& !r.1
            &&& r.0@.len() == 1
            &&& r.0@[0] matches GameEvent::PlayerOnly {
                player_id: p,
                message: ServerMessage::ErrorMsg { code: WsErrorCode::WrongQuestion, .. },
            } && p@ == player_id@
        },
        (old(s).current_question >= 0 && old(s).current_question == question_index
            && question_index < old(s).spec_total_questions() && !has_player_id(
            old(s).players@,
            player_id@,
        )) ==> {
            &&& *final(s) == *old(s)
            &&& !r.1
            &&& r.0@.len() == 0
        },
        (old(s).current_question >= 0 && old(s).current_question == question_index
            && question_index < old(s).spec_total_questions() && has_player_id(
            old(s).players@,
            player_id@,
        )) ==> {
            let i = find_player_index(old(s).players@, player_id@);
            let p0 = old(s).players@[i];
            if p0.spec_has_answered(question_index as int) {
                &&& *final(s) == *old(s)
                &&& !r.1
                &&& r.0@.len() == 1
                &&& r.0@[0] matches GameEvent::PlayerOnly {
                    player_id: p,
                    message: ServerMessage::ErrorMsg { code: WsErrorCode::AlreadyAnswered, .. },
                } && p@ == player_id@
            } else {
                let q = old(s).quiz@.questions[question_index as int];
                let correct = selected_index == q.correct_index;
                let elapsed = spec_elapsed(old(s).question_started, now_ms);
                let pts = spec_points(old(s).scoring_rule, correct, elapsed, q.time_limit_sec as int);
                let p1 = final(s).players@[i];
                &&& *final(s) == (GameSession { players: final(s).players, ..*old(s) })
                &&& final(s).players@ == old(s).players@.update(i, p1)
                &&& p1.id == p0.id && p1.display_name == p0.display_name && p1.avatar == p0.avatar
                    && p1.connection_status == p0.connection_status && p1.disconnected_at
                    == p0.disconnected_at
                &&& p1.answers@ == p0.answers@.push(
                    Answer {
                        question_index,
                        selected_index,
                        time_taken_ms: elapsed as u64,
                        points_awarded: pts as u32,
                    },
                )
                &&& p1.score == p0.score + pts
                &&& p1.correct_count == p0.correct_count + if correct {
                    1int
                } else {
                    0int
                }
                &&& r.0@.len() == 2
                &&& r.0@[0] matches GameEvent::PlayerOnly {
                    player_id: p,
                    message: ServerMessage::AnswerResult {
                        correct: c,
                        points_awarded: pa,
                        correct_index: ci,
                    },
                } && p@ == player_id@ && c == correct && pa == pts && ci == q.correct_index
                &&& r.0@[1] matches GameEvent::HostOnly(
                    ServerMessage::AnswerCount { answered: a, total: t },
                ) && a == count_answered(final(s).players@, question_index as int) && t == old(
                    s,
                ).players@.len()
                &&& r.1 == (count_answered(final(s).players@, question_index as int) == old(
                    s,
                ).players@.len())
            }
        },
{
    let total = s.quiz.questions.len();
    let cq_ok = s.current_question >= 0 && s.current_question as usize == question_index
        && question_index < total;
    if !cq_ok {
        let mut evs: Vec<GameEvent> = Vec::new();
        evs.push(
            GameEvent::PlayerOnly {
                player_id: player_id.to_owned(),
                message: ServerMessage::ErrorMsg {
                    code: WsErrorCode::WrongQuestion,
                    message: ("Not the current question").to_owned(),
                },
            },
        );
        return (evs, false);
    }
    let pi = match s.find_player(player_id) {
        Some(i) => i,
        None => {
            return (Vec::new(), false);
        },
    };
    proof {
        lemma_find_player_at(s.players@, player_id@, pi as int);
    }
    if s.players[pi].has_answered(question_index) {
        let mut evs: Vec<GameEvent> = Vec::new();
        evs.push(
            GameEvent::PlayerOnly {
                player_id: player_id.to_owned(),
                message: ServerMessage::ErrorMsg {
                    code: WsErrorCode::AlreadyAnswered,
                    message: ("You have already submitted an answer for this question").to_owned(),
                },
            },
        );
        return (evs, false);
    }
    let q = &s.quiz.questions[question_index];
    let correct = selected_index == q.correct_index;
    let time_taken_ms: u64 = match s.question_started {
        Some(t) => if now_ms >= t {
            now_ms - t
        } else {
            0
        },
        None => 0,
    };
    proof {
        assert(s.quiz@.questions[question_index as int].wf());
    }
    let points = s.scoring_rule.calculate_points(correct, time_taken_ms, q.time_limit_sec);
    let correct_index = q.correct_index;
    let ghost players0 = s.players@;
    let mut p = s.players.remove(pi);
    let ghost p0 = p;
    let ghost nq = s.spec_total_questions();
    proof {
        // Bound the score before growing it.
        assert(p0.wf(nq));
        let pushed = p0.answers@.push(
            Answer {
                question_index,
                selected_index,
                time_taken_ms,
                points_awarded: points,
            },
        );
        assert forall|a: int, b: int| 0 <= a < b < pushed.len() implies #[trigger] pushed[a].question_index
            != #[trigger] pushed[b].question_index by {
            if b < pushed.len() - 1 {
                assert(pushed[a] == p0.answers@[a] && pushed[b] == p0.answers@[b]);
            } else {
                assert(!p0.spec_has_answered(question_index as int));
                assert(pushed[a] == p0.answers@[a]);
            }
        }
        lemma_answers_bounded(pushed, nq);
        assert(p0.answers@.len() + 1 <= nq);
        lemma_sum_points_bound(p0.answers@);
        assert(p0.score <= 1000 * p0.answers@.len());
        assert(1000 * p0.answers@.len() <= 1000 * (nq - 1)) by (nonlinear_arith)
            requires
                p0.answers@.len() <= nq - 1,
        ;
        assert(nq <= 4000000);
    }
    p.answers.push(
        Answer { question_index, selected_index, time_taken_ms, points_awarded: points },
    );
    if correct {
        p.correct_count = p.correct_count + 1;
    }
    p.score = p.score + points;
    proof {
        lemma_sum_points_push(
            p0.answers@,
            Answer { question_index, selected_index, time_taken_ms, points_awarded: points },
        );
    }
    let ghost p1 = p;
    s.players.insert(pi, p);
    proof {
        assert(s.players@ =~= players0.update(pi as int, p1));
        // The updated player is still consistent.
        assert(p1.wf(nq)) by {
            let pushed = p1.answers@;
            assert forall|a: int, b: int| 0 <= a < b < pushed.len() implies #[trigger] pushed[a].question_index
                != #[trigger] pushed[b].question_index by {
                if b < pushed.len() - 1 {
                    assert(pushed[a] == p0.answers@[a] && pushed[b] == p0.answers@[b]);
                } else {
                    assert(!p0.spec_has_answered(question_index as int));
                    assert(pushed[a] == p0.answers@[a]);
                }
            }
        }
        assert(s.wf());
    }
    let answered = s.answered_count(question_index);
    let total_players = s.players.len();
    let mut evs: Vec<GameEvent> = Vec::new();
    evs.push(
        GameEvent::PlayerOnly {
            player_id: player_id.to_owned(),
            message: ServerMessage::AnswerResult {
                correct,
                points_awarded: points,
                correct_index,
            },
        },
    );
    evs.push(
        GameEvent::HostOnly(ServerMessage::AnswerCount { answered, total: total_players }),
    );
    (evs, answered == total_players)
}

/// Close question `question_index` if it is still the current one.
///
/// Does nothing when the cursor moved on (the question already ended);
/// otherwise everyone learns the correct option and the current
/// leaderboard, not winner-marked.  The caller then waits briefly and
/// schedules advancement.
pub fn end_question(s: &GameSession, question_index: usize) -> (r: Option<GameEvent>)
    requires
        s.wf(),
        question_index < s.spec_total_questions(),
    ensures
        r is Some <==> s.current_question == question_index,
        r is Some ==> ({
            let q = s.quiz@.questions[question_index as int];
            r->0 matches GameEvent::BroadcastAll(
                ServerMessage::QuestionEnded { correct_index: ci, correct_text: ct, leaderboard: lb },
            ) && ci == q.correct_index && ct@ == q.options[q.correct_index] && is_leaderboard_of(
                lb.deep_view(),
                players_keys(s.players@),
                false,
            )
        }),
{
    if s.current_question < 0 || s.current_question as usize != question_index {
        return None;
    }
    let q = &s.quiz.questions[question_index];
    proof {
        assert(s.quiz@.questions[question_index as int].wf());
        assert(q.options@[q.correct_index as int]@ == q@.options[q.correct_index as int]);
    }
    let correct_index = q.correct_index;
    let correct_text = q.options[correct_index].text.clone();
    let lb = session_leaderboard(s, false);
    Some(
        GameEvent::BroadcastAll(
            ServerMessage::QuestionEnded { correct_index, correct_text, leaderboard: lb },
        ),
    )
}

/// Attach (or re-attach) a host: the session remembers the new host id,
/// and a paused game resumes.
pub fn host_attach(s: &mut GameSession, host_id: String) -> (r: Option<GameEvent>)
    requires
        old(s).wf(),
    ensures
        final(s).wf(),
        *final(s) == (GameSession {
            host_id: Some(host_id),
            status: final(s).status,
            ..*old(s)
        }),
        old(s).status == SessionStatus::Paused ==> final(s).status == SessionStatus::Active && (
        r matches Some(
            GameEvent::BroadcastAll(
                ServerMessage::GameResumed { reason: ResumeReason::HostReconnected },
            ),
        )),
        old(s).status != SessionStatus::Paused ==> final(s).status == old(s).status && r is None,
{
    s.host_id = Some(host_id);
    if s.status == SessionStatus::Paused {
        s.status = SessionStatus::Active;
        Some(
            GameEvent::BroadcastAll(
                ServerMessage::GameResumed { reason: ResumeReason::HostReconnected },
            ),
        )
    } else {
        None
    }
}

/// Change the scoring rule, allowed only while the session is still in the
/// lobby; everyone learns the new rule.  After the game started the
/// command is ignored.
pub fn set_scoring_rule(s: &mut GameSession, rule: ScoringRule) -> (r: Option<GameEvent>)
    requires
        old(s).wf(),
    ensures
        final(s).wf(),
        old(s).status == SessionStatus::Lobby ==> *final(s) == (GameSession {
            scoring_rule: rule,
            ..*old(s)
        }) && (r matches Some(
            GameEvent::BroadcastAll(ServerMessage::ScoringRuleSet { rule: rl }),
        ) && rl == rule),
        old(s).status != SessionStatus::Lobby ==> *final(s) == *old(s) && r is None,
{
    if s.status == SessionStatus::Lobby {
        s.scoring_rule = rule;
        Some(GameEvent::BroadcastAll(ServerMessage::ScoringRuleSet { rule }))
    } else {
        None
    }
}

/// End the game at the host's request: the session is finished, no event
/// is owed.
pub fn end_game(s: &mut GameSession)
    requires
        old(s).wf(),
    ensures
        final(s).wf(),
        *final(s) == (GameSession { status: SessionStatus::Finished, ..*old(s) }),
{
    s.status = SessionStatus::Finished;
}

/// The host's connection closed.  An active game pauses and the players
/// are told; the caller then arms the host reconnect timer.  In any other
/// state nothing changes and the caller tears the session's channel down.
pub fn host_detach(s: &mut GameSession) -> (r: Option<GameEvent>)
    requires
        old(s).wf(),
    ensures
        final(s).wf(),
        old(s).status == SessionStatus::Active ==> *final(s) == (GameSession {
            status: SessionStatus::Paused,
            ..*old(s)
        }) && (r matches Some(
            GameEvent::BroadcastAll(
                ServerMessage::GamePaused { reason: PauseReason::HostDisconnected },
            ),
        )),
        old(s).status != SessionStatus::Active ==> *final(s) == *old(s) && r is None,
{
    if s.status == SessionStatus::Active {
        s.status = SessionStatus::Paused;
        Some(
            GameEvent::BroadcastAll(
                ServerMessage::GamePaused { reason: PauseReason::HostDisconnected },
            ),
        )
    } else {
        None
    }
}

/// The host reconnect window expired.  A still-paused game terminates:
/// everyone receives the winner-marked leaderboard and the question count,
/// and the caller evicts the session's channel.
pub fn host_timeout(s: &mut GameSession) -> (r: Option<GameEvent>)
    requires
        old(s).wf(),
    ensures
        final(s).wf(),
        old(s).status == SessionStatus::Paused ==> *final(s) == (GameSession {
            status: SessionStatus::Finished,
            ..*old(s)
        }) && (r matches Some(
            GameEvent::BroadcastAll(
                ServerMessage::GameTerminated {
                    reason: TerminateReason::HostTimeout,
                    leaderboard: lb,
                    total_questions: t,
                },
            ),
        ) && t == old(s).spec_total_questions() && is_leaderboard_of(
            lb.deep_view(),
            players_keys(old(s).players@),
            true,
        )),
        old(s).status != SessionStatus::Paused ==> *final(s) == *old(s) && r is None,
{
    if s.status == SessionStatus::Paused {
        let lb = session_leaderboard(s, true);
        let total = s.quiz.questions.len();
        s.status = SessionStatus::Finished;
        Some(
            GameEvent::BroadcastAll(
                ServerMessage::GameTerminated {
                    reason: TerminateReason::HostTimeout,
                    leaderboard: lb,
                    total_questions: total,
                },
            ),
        )
    } else {
        None
    }
}

/// Whether some non-disconnected player of `s` displays `name`.
pub open spec fn name_taken(s: Seq<Player>, name: Seq<char>) -> bool {
    exists|i: int|
        0 <= i < s.len() && (#[trigger] s[i]).connection_status != ConnectionStatus::Disconnected
            && s[i].display_name@ == name
}

/// The display name tried at collision round `k`: the requested name, a
/// space and `k` in decimal.
pub open spec fn candidate_name(req: Seq<char>, k: nat) -> Seq<char> {
    req + seq![' '] + spec_digits(k)
}

/// Distinct collision rounds try distinct names.
pub proof fn lemma_candidate_injective(req: Seq<char>, j: nat, k: nat)
    requires
        candidate_name(req, j) == candidate_name(req, k),
    ensures
        j == k,
{
    let cj = candidate_name(req, j);
    let ck = candidate_name(req, k);
    lemma_spec_digits_len(j);
    lemma_spec_digits_len(k);
    assert(cj.subrange(req.len() as int + 1, cj.len() as int) =~= spec_digits(j));
    assert(ck.subrange(req.len() as int + 1, ck.len() as int) =~= spec_digits(k));
    lemma_spec_digits_injective(j, k);
}

/// Not every collision round up to the player count can be taken: there
/// are more candidate names than players, so some round is free.
pub proof fn lemma_name_candidates_free(players: Seq<Player>, req: Seq<char>)
    ensures
        exists|k: nat|
            2 <= k < players.len() + 3 && !name_taken(players, #[trigger] candidate_name(req, k)),
{
    if forall|k: nat|
        2 <= k < players.len() + 3 ==> name_taken(players, #[trigger] candidate_name(req, k)) {
        lemma_all_candidates_taken_impossible(players, req);
    }
}

/// Helper for [`lemma_name_candidates_free`]: from every candidate being
/// taken, count more distinct display names than players.
proof fn lemma_all_candidates_taken_impossible(players: Seq<Player>, req: Seq<char>)
    requires
        forall|k: nat|
            2 <= k < players.len() + 3 ==> name_taken(players, #[trigger] candidate_name(req, k)),
    ensures
        players.len() + 1 <= players.len(),
{
    let n = players.len() as int;
    let idxs = Seq::<int>::new((n + 1) as nat, |m: int| choose|i: int|
        0 <= i < players.len() && (#[trigger] players[i]).connection_status
            != ConnectionStatus::Disconnected && players[i].display_name@ == candidate_name(
            req,
            (m + 2) as nat,
        ));
    assert forall|m: int| 0 <= m < n + 1 implies 0 <= #[trigger] idxs[m] < n && players[idxs[m]].display_name@
        == candidate_name(req, (m + 2) as nat) by {
        assert(name_taken(players, candidate_name(req, (m + 2) as nat)));
        let i = choose|i: int|
            0 <= i < players.len() && (#[trigger] players[i]).connection_status
                != ConnectionStatus::Disconnected && players[i].display_name@ == candidate_name(
                req,
                (m + 2) as nat,
            );
        assert(idxs[m] == i);
    }
    assert(idxs.no_duplicates()) by {
        assert forall|a: int, b: int| 0 <= a < n + 1 && 0 <= b < n + 1 && a != b implies idxs[a]
            != idxs[b] by {
            if idxs[a] == idxs[b] {
                assert(candidate_name(req, (a + 2) as nat) == candidate_name(req, (b + 2) as nat));
                lemma_candidate_injective(req, (a + 2) as nat, (b + 2) as nat);
            }
        }
    }
    idxs.unique_seq_to_set();
    assert(idxs.to_set().subset_of(set_int_range(0, n))) by {
        assert forall|x: int| idxs.to_set().contains(x) implies set_int_range(0, n).contains(x) by {
            let m = choose|m: int| 0 <= m < idxs.len() && idxs[m] == x;
            assert(0 <= idxs[m] < n);
        }
    }
    lemma_int_range(0, n);
    lemma_len_subset(idxs.to_set(), set_int_range(0, n));
}

/// Whether some non-disconnected player displays `name`.
#[verifier::loop_isolation(false)]
fn name_taken_exec(s: &GameSession, name: &str) -> (r: bool)
    ensures
        r == name_taken(s.players@, name@),
{
    let mut i: usize = 0;
    while i < s.players.len()
        invariant
            0 <= i <= s.players@.len(),
            forall|k: int|
                0 <= k < i ==> !((#[trigger] s.players@[k]).connection_status
                    != ConnectionStatus::Disconnected && s.players@[k].display_name@ == name@),
        decreases s.players@.len() - i,
    {
        let p = &s.players[i];
        if !(p.connection_status == ConnectionStatus::Disconnected) && str_eq(
            p.display_name.as_str(),
            name,
        ) {
            return true;
        }
        i = i + 1;
    }
    false
}

/// Admit a new player to a joinable session.
///
/// Fails exactly when the session is no longer in the lobby.  Otherwise
/// the requested display name is kept if no non-disconnected player holds
/// it, and else extended with the smallest numeric suffix (from 2 up) that
/// is free; the player is added, connected, with no score; the renamed
/// player is privately told the assigned name, and everyone learns of the
/// join together with the connected player count.
#[verifier::loop_isolation(false)]
#[verifier::rlimit(60)]
pub fn player_join(
    s: &mut GameSession,
    player_id: String,
    requested_name: String,
    avatar: String,
) -> (r: Result<(String, Vec<GameEvent>), ()>)
    requires
        old(s).wf(),
        !has_player_id(old(s).players@, player_id@),
        old(s).players@.len() + 1 < 0xffff_ffff,
    ensures
        final(s).wf(),
        old(s).status != SessionStatus::Lobby ==> r is Err && *final(s) == *old(s),
        old(s).status == SessionStatus::Lobby ==> r is Ok && ({
            let assigned = r->Ok_0.0;
            let evs = r->Ok_0.1;
            let p = final(s).players@.last();
            &&& !name_taken(old(s).players@, assigned@)
            &&& !name_taken(old(s).players@, requested_name@) ==> assigned@ == requested_name@
            &&& name_taken(old(s).players@, requested_name@) ==> (exists|k: nat|
                2 <= k && assigned@ == candidate_name(requested_name@, k) && (forall|j: nat|
                    2 <= j < k ==> name_taken(
                        old(s).players@,
                        #[trigger] candidate_name(requested_name@, j),
                    )))
            &&& *final(s) == (GameSession { players: final(s).players, ..*old(s) })
            &&& final(s).players@ == old(s).players@.push(p)
            &&& p.id@ == player_id@ && p.display_name@ == assigned@ && p.avatar@ == avatar@
                && p.score == 0 && p.correct_count == 0 && p.answers@ == Seq::<Answer>::empty()
                && p.connection_status == ConnectionStatus::Connected && p.disconnected_at is None
            &&& assigned@ == requested_name@ ==> evs@.len() == 1
            &&& assigned@ != requested_name@ ==> evs@.len() == 2 && (evs@[0]
                matches GameEvent::PlayerOnly {
                player_id: pid,
                message: ServerMessage::NameAssigned { requested_name: rn, assigned_name: an },
            } && pid@ == player_id@ && rn@ == requested_name@ && an@ == assigned@)
            &&& evs@.last() matches GameEvent::BroadcastAll(
                ServerMessage::PlayerJoined {
                    player_id: pid,
                    display_name: dn,
                    avatar: av,
                    player_count: pc,
                },
            ) && pid@ == player_id@ && dn@ == assigned@ && av@ == avatar@ && pc == count_connected(
                final(s).players@,
            )
        }),
{
    if !s.is_joinable() {
        return Err(());
    }
    let mut assigned = requested_name.clone();
    let requested_taken = name_taken_exec(s, assigned.as_str());
    if requested_taken {
        let n = s.players.len();
        let bound: u64 = n as u64 + 2;
        let mut k: u64 = 2;
        let mut done = false;
        let ghost reqv = requested_name@;
        while k <= bound && !done
            invariant
                2 <= k <= bound + 1,
                bound == n + 2,
                n == s.players@.len(),
                !done ==> forall|j: nat|
                    2 <= j < k ==> name_taken(s.players@, #[trigger] candidate_name(reqv, j)),
                done ==> !name_taken(s.players@, assigned@) && (exists|kk: nat|
                    2 <= kk && assigned@ == candidate_name(reqv, kk) && (forall|j: nat|
                        2 <= j < kk ==> name_taken(s.players@, #[trigger] candidate_name(reqv, j)))),
            decreases bound + 1 - k,
        {
            let mut cv = chars_of(requested_name.as_str());
            cv.push(' ');
            push_digits(k, &mut cv);
            let cand = string_from_chars(&cv);
            proof {
                assert(cand@ =~= candidate_name(reqv, k as nat));
            }
            if !name_taken_exec(s, cand.as_str()) {
                assigned = cand;
                done = true;
            }
            k = k + 1;
        }
        if !done {
            proof {
                lemma_name_candidates_free(s.players@, reqv);
            }

            proof {
                let kk = choose|k: nat|
                    2 <= k < s.players@.len() + 3 && !name_taken(
                        s.players@,
                        #[trigger] candidate_name(reqv, k),
                    );
                assert(name_taken(s.players@, candidate_name(reqv, kk)));
            }
            return Err(());
        }
        proof {
            // A suffixed candidate is longer than the requested name.
            assert(assigned@.len() > requested_name@.len()) by {
                let kk = choose|kk: nat|
                    2 <= kk && assigned@ == candidate_name(reqv, kk) && (forall|j: nat|
                        2 <= j < kk ==> name_taken(s.players@, #[trigger] candidate_name(reqv, j)));
                lemma_spec_digits_len(kk);
            }
        }
    }
    let p = Player::new(player_id.clone(), assigned.clone(), avatar.clone());
    let ghost players0 = s.players@;
    s.players.push(p);
    let count = s.player_count();
    let mut evs: Vec<GameEvent> = Vec::new();
    let changed = !str_eq(assigned.as_str(), requested_name.as_str());
    if changed {
        evs.push(
            GameEvent::PlayerOnly {
                player_id: player_id.clone(),
                message: ServerMessage::NameAssigned {
                    requested_name: requested_name.clone(),
                    assigned_name: assigned.clone(),
                },
            },
        );
    }
    evs.push(
        GameEvent::BroadcastAll(
            ServerMessage::PlayerJoined {
                player_id,
                display_name: assigned.clone(),
                avatar,
                player_count: count,
            },
        ),
    );
    proof {
        assert(final(s).players@ =~= players0.push(final(s).players@.last()));
    }
    Ok((assigned, evs))
}

/// Index of the first disconnected player of `s` displaying `name`
/// (`s.len()` when none).
pub open spec fn reconnect_index(s: Seq<Player>, name: Seq<char>) -> int
    decreases s.len(),
{
    if s.len() == 0 {
        0
    } else if s[0].connection_status == ConnectionStatus::Disconnected && s[0].display_name@
        == name {
        0
    } else {
        1 + reconnect_index(s.drop_first(), name)
    }
}

/// Whether a disconnected player of `s` displays `name`.
pub open spec fn has_reconnect_candidate(s: Seq<Player>, name: Seq<char>) -> bool {
    exists|i: int|
        0 <= i < s.len() && (#[trigger] s[i]).connection_status == ConnectionStatus::Disconnected
            && s[i].display_name@ == name
}

/// Resurrect a disconnected player who asks for their old display name.
///
/// The first disconnected player displaying `requested_name` whose
/// disconnect lies within the reconnect window comes back connected, and
/// everyone learns of the reconnection; the caller resumes that player's
/// identity.  Without such a player (or outside the window) nothing
/// changes and the caller treats the connection as a fresh join.
#[verifier::loop_isolation(false)]
pub fn player_reconnect(
    s: &mut GameSession,
    requested_name: &str,
    now_ms: u64,
    reconnect_timeout_sec: u64,
) -> (r: Option<(String, GameEvent)>)
    requires
        old(s).wf(),
    ensures
        final(s).wf(),
        r is None ==> *final(s) == *old(s),
        (has_reconnect_candidate(old(s).players@, requested_name@) && (old(s).players@[
            reconnect_index(old(s).players@, requested_name@)
        ].disconnected_at matches Some(t) && (now_ms < t || (now_ms - t) / 1000
            < reconnect_timeout_sec))) ==> r is Some,
        r matches Some((pid, ev)) ==> ({
            let i = reconnect_index(old(s).players@, requested_name@);
            let p0 = old(s).players@[i];
            let p1 = final(s).players@[i];
            &&& has_reconnect_candidate(old(s).players@, requested_name@)
            &&& 0 <= i < old(s).players@.len()
            &&& p0.disconnected_at matches Some(t) && (if now_ms >= t {
                (now_ms - t) / 1000 < reconnect_timeout_sec
            } else {
                true
            })
            &&& *final(s) == (GameSession { players: final(s).players, ..*old(s) })
            &&& final(s).players@ == old(s).players@.update(i, p1)
            &&& p1 == (Player {
                connection_status: ConnectionStatus::Connected,
                disconnected_at: None,
                ..p0
            })
            &&& pid@ == p0.id@
            &&& ev matches GameEvent::BroadcastAll(
                ServerMessage::PlayerReconnected { player_id: epid, display_name: dn, player_count: pc },
            ) && epid@ == p0.id@ && dn@ == requested_name@ && pc == count_connected(
                final(s).players@,
            )
        }),
{
    let mut i: usize = 0;
    let n = s.players.len();
    while i < n
        invariant
            0 <= i <= n,
            *s == *old(s),
            n == s.players@.len(),
            forall|k: int|
                0 <= k < i ==> !((#[trigger] s.players@[k]).connection_status
                    == ConnectionStatus::Disconnected && s.players@[k].display_name@
                    == requested_name@),
        decreases n - i,
    {
        let found = {
            let p = &s.players[i];
            p.connection_status == ConnectionStatus::Disconnected && str_eq(
                p.display_name.as_str(),
                requested_name,
            )
        };
        if found {
            proof {
                lemma_reconnect_index_at(s.players@, requested_name@, i as int);
            }
            let within = match s.players[i].disconnected_at {
                Some(t) => {
                    if now_ms >= t {
                        (now_ms - t) / 1000 < reconnect_timeout_sec
                    } else {
                        true
                    }
                },
                None => false,
            };
            if !within {
                return None;
            }
            let ghost players0 = s.players@;
            let mut p = s.players.remove(i);
            let ghost p0 = p;
            p.connection_status = ConnectionStatus::Connected;
            p.disconnected_at = None;
            let pid = p.id.clone();
            s.players.insert(i, p);
            proof {
                assert(s.players@ =~= players0.update(
                    i as int,
                    Player {
                        connection_status: ConnectionStatus::Connected,
                        disconnected_at: None,
                        ..p0
                    },
                ));
            }
            let count = s.player_count();
            let ev = GameEvent::BroadcastAll(
                ServerMessage::PlayerReconnected {
                    player_id: pid.clone(),
                    display_name: requested_name.to_owned(),
                    player_count: count,
                },
            );
            return Some((pid, ev));
        }
        i = i + 1;
    }
    None
}

/// Among players, the first disconnected one displaying `name`, knowing
/// one stands at `i` and none before, is the one `reconnect_index` finds.
pub proof fn lemma_reconnect_index_at(s: Seq<Player>, name: Seq<char>, i: int)
    requires
        0 <= i < s.len(),
        s[i].connection_status == ConnectionStatus::Disconnected && s[i].display_name@ == name,
        forall|k: int|
            0 <= k < i ==> !((#[trigger] s[k]).connection_status == ConnectionStatus::Disconnected
                && s[k].display_name@ == name),
    ensures
        reconnect_index(s, name) == i,
        has_reconnect_candidate(s, name),
    decreases i,
{
    if i > 0 {
        assert(!(s[0].connection_status == ConnectionStatus::Disconnected && s[0].display_name@
            == name));
        assert forall|k: int| 0 <= k < i - 1 implies !((#[trigger] s.drop_first()[k]).connection_status
            == ConnectionStatus::Disconnected && s.drop_first()[k].display_name@ == name) by {
            assert(s.drop_first()[k] == s[k + 1]);
        }
        assert(s.drop_first()[i - 1] == s[i]);
        lemma_reconnect_index_at(s.drop_first(), name, i - 1);
    }
}

/// A player's connection closed: mark the player disconnected at `now_ms`
/// and tell everyone, with the remaining connected player count.  The
/// caller arms the player's reconnect timer.
#[verifier::loop_isolation(false)]
pub fn player_disconnect(s: &mut GameSession, player_id: &str, display_name: &str, now_ms: u64) -> (r:
    GameEvent)
    requires
        old(s).wf(),
    ensures
        final(s).wf(),
        !has_player_id(old(s).players@, player_id@) ==> *final(s) == *old(s),
        has_player_id(old(s).players@, player_id@) ==> ({
            let i = find_player_index(old(s).players@, player_id@);
            let p1 = final(s).players@[i];
            &&& *final(s) == (GameSession { players: final(s).players, ..*old(s) })
            &&& final(s).players@ == old(s).players@.update(i, p1)
            &&& p1 == (Player {
                connection_status: ConnectionStatus::Disconnected,
                disconnected_at: Some(now_ms),
                ..old(s).players@[i]
            })
        }),
        r matches GameEvent::BroadcastAll(
            ServerMessage::PlayerLeft {
                player_id: pid,
                display_name: dn,
                player_count: pc,
                reason: LeaveReason::Disconnected,
            },
        ) && pid@ == player_id@ && dn@ == display_name@ && pc == count_connected(final(s).players@),
{
    match s.find_player(player_id) {
        Some(i) => {
            proof {
                lemma_find_player_at(s.players@, player_id@, i as int);
            }
            let ghost players0 = s.players@;
            let mut p = s.players.remove(i);
            let ghost p0 = p;
            p.connection_status = ConnectionStatus::Disconnected;
            p.disconnected_at = Some(now_ms);
            s.players.insert(i, p);
            proof {
                assert(s.players@ =~= players0.update(
                    i as int,
                    Player {
                        connection_status: ConnectionStatus::Disconnected,
                        disconnected_at: Some(now_ms),
                        ..p0
                    },
                ));
            }
        },
        None => {},
    }
    let count = s.player_count();
    GameEvent::BroadcastAll(
        ServerMessage::PlayerLeft {
            player_id: player_id.to_owned(),
            display_name: display_name.to_owned(),
            player_count: count,
            reason: LeaveReason::Disconnected,
        },
    )
}

/// A player's reconnect window expired.  If the player is still
/// disconnected they are removed for good and everyone is told; a player
/// who reconnected meanwhile is left alone.
#[verifier::loop_isolation(false)]
pub fn player_timeout(s: &mut GameSession, player_id: &str) -> (r: Option<GameEvent>)
    requires
        old(s).wf(),
    ensures
        final(s).wf(),
        r is None ==> *final(s) == *old(s),
        r is Some <==> has_player_id(old(s).players@, player_id@) && old(s).players@[
            find_player_index(old(s).players@, player_id@)
        ].connection_status == ConnectionStatus::Disconnected,
        r matches Some(ev) ==> ({
            let i = find_player_index(old(s).players@, player_id@);
            &&& *final(s) == (GameSession { players: final(s).players, ..*old(s) })
            &&& final(s).players@ == old(s).players@.remove(i)
            &&& ev matches GameEvent::BroadcastAll(
                ServerMessage::PlayerLeft {
                    player_id: pid,
                    display_name: dn,
                    player_count: pc,
                    reason: LeaveReason::Timeout,
                },
            ) && pid@ == player_id@ && dn@ == old(s).players@[i].display_name@ && pc
                == count_connected(final(s).players@)
        }),
{
    match s.find_player(player_id) {
        Some(i) => {
            proof {
                lemma_find_player_at(s.players@, player_id@, i as int);
            }
            if s.players[i].connection_status == ConnectionStatus::Disconnected {
                let p = s.players.remove(i);
                let count = s.player_count();
                Some(
                    GameEvent::BroadcastAll(
                        ServerMessage::PlayerLeft {
                            player_id: player_id.to_owned(),
                            display_name: p.display_name,
                            player_count: count,
                            reason: LeaveReason::Timeout,
                        },
                    ),
                )
            } else {
                None
            }
        },
        None => None,
    }
}

} // verus!
