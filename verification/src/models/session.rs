//! Per-session mutable game state.

use vstd::prelude::*;

use super::player::{ConnectionStatus, Player};
use super::quiz::Quiz;
use super::scoring_rule::ScoringRule;

verus! {

/// Lifecycle state of a session.
#[derive(Clone, Copy, Debug, PartialEq, Eq, Structural)]
pub enum SessionStatus {
    Lobby,
    Active,
    Paused,
    Finished,
}

/// Cap on the number of questions of a hosted quiz, so that a `u32` score
/// (at most 1000 points a question) cannot overflow.
pub const MAX_QUESTIONS: usize = 4000000;

/// The state of one running quiz session.
#[derive(Debug)]
pub struct GameSession {
    pub join_code: String,
    pub quiz: Quiz,
    pub players: Vec<Player>,
    pub host_id: Option<String>,
    /// -1 before the first question; otherwise the index of the active or
    /// just-ended question; the question count once the game finished.
    pub current_question: i32,
    pub status: SessionStatus,
    /// Timestamp in milliseconds of the current question's emission.
    pub question_started: Option<u64>,
    /// Timestamp in milliseconds of the session's creation.
    pub created_at_ms: u64,
    pub scoring_rule: ScoringRule,
}

/// How many players of `s` are currently connected.
pub open spec fn count_connected(s: Seq<Player>) -> int
    decreases s.len(),
{
    if s.len() == 0 {
        0
    } else {
        count_connected(s.drop_last()) + if s.last().connection_status
            == ConnectionStatus::Connected {
            1int
        } else {
            0int
        }
    }
}

/// How many players of `s` hold an answer record for question `qi`.
pub open spec fn count_answered(s: Seq<Player>, qi: int) -> int
    decreases s.len(),
{
    if s.len() == 0 {
        0
    } else {
        count_answered(s.drop_last(), qi) + if s.last().spec_has_answered(qi) {
            1int
        } else {
            0int
        }
    }
}

/// Index of the first player of `s` whose id is `id` (`s.len()` when none).
pub open spec fn find_player_index(s: Seq<Player>, id: Seq<char>) -> int
    decreases s.len(),
{
    if s.len() == 0 {
        0
    } else if s[0].id@ == id {
        0
    } else {
        1 + find_player_index(s.drop_first(), id)
    }
}

/// Whether some player of `s` has id `id`.
pub open spec fn has_player_id(s: Seq<Player>, id: Seq<char>) -> bool {
    exists|i: int| 0 <= i < s.len() && (#[trigger] s[i]).id@ == id
}

impl GameSession {
    /// The number of questions of the hosted quiz.
    pub open spec fn spec_total_questions(self) -> int {
        self.quiz.questions@.len() as int
    }

    /// The number of connected players.
    pub open spec fn spec_player_count(self) -> int {
        count_connected(self.players@)
    }

    /// Internal consistency of a session: a valid quiz of bounded size,
    /// players with distinct ids each consistent with the quiz, a question
    /// cursor within range that only passes the last question when the game
    /// is finished, and a lobby that has not started anything yet.
    pub open spec fn wf(self) -> bool {
        &&& self.quiz@.wf()
        &&& self.quiz.questions@.len() <= MAX_QUESTIONS
        &&& self.players@.len() < 0xffff_ffff
        &&& forall|i: int, j: int|
            0 <= i < j < self.players@.len() ==> (#[trigger] self.players@[i]).id@ != (
            #[trigger] self.players@[j]).id@
        &&& forall|i: int|
            0 <= i < self.players@.len() ==> (#[trigger] self.players@[i]).wf(
                self.spec_total_questions(),
            )
        &&& -1 <= self.current_question <= self.spec_total_questions()
        &&& self.current_question == self.spec_total_questions() ==> self.status
            == SessionStatus::Finished
        &&& self.status == SessionStatus::Lobby ==> self.current_question == -1
            && self.question_started is None
    }

    /// A fresh session: in the lobby, without players, host or question
    /// progress, scoring with the default rule.
    pub fn new(join_code: String, quiz: Quiz) -> (s: GameSession)
        ensures
            s.join_code == join_code,
            s.quiz == quiz,
            s.players@ == Seq::<Player>::empty(),
            s.host_id is None,
            s.current_question == -1,
            s.status == SessionStatus::Lobby,
            s.question_started is None,
            s.created_at_ms == 0,
            s.scoring_rule == ScoringRule::SteppedDecay,
            quiz@.wf() && quiz.questions@.len() <= MAX_QUESTIONS ==> s.wf(),
    {
        GameSession {
            join_code,
            quiz,
            players: Vec::new(),
            host_id: None,
            current_question: -1,
            status: SessionStatus::Lobby,
            question_started: None,
            created_at_ms: 0,
            scoring_rule: ScoringRule::SteppedDecay,
        }
    }

    /// The number of connected players.
    #[verifier::loop_isolation(false)]
    pub fn player_count(&self) -> (r: usize)
        ensures
            r == self.spec_player_count(),
    {
        let mut n: usize = 0;
        let mut i: usize = 0;
        proof {
            assert(self.players@.take(0) =~= Seq::<Player>::empty());
        }
        while i < self.players.len()
            invariant
                0 <= i <= self.players@.len(),
                n == count_connected(self.players@.take(i as int)),
                n <= i,
            decreases self.players@.len() - i,
        {
            proof {
                assert(self.players@.take(i as int + 1).drop_last() =~= self.players@.take(
                    i as int,
                ));
            }
            if self.players[i].connection_status == ConnectionStatus::Connected {
                n = n + 1;
            }
            i = i + 1;
        }
        proof {
            assert(self.players@.take(self.players@.len() as int) =~= self.players@);
        }
        n
    }

    /// The number of players, connected or not.
    pub fn total_player_count(&self) -> (r: usize)
        ensures
            r == self.players@.len(),
    {
        self.players.len()
    }

    /// Whether new players may join: only while the session is in the lobby.
    pub fn is_joinable(&self) -> (r: bool)
        ensures
            r == (self.status == SessionStatus::Lobby),
    {
        self.status == SessionStatus::Lobby
    }

    /// The number of questions of the hosted quiz.
    pub fn total_questions(&self) -> (r: usize)
        ensures
            r == self.spec_total_questions(),
    {
        self.quiz.questions.len()
    }

    /// The index of the player with id `player_id`, if one exists.
    #[verifier::loop_isolation(false)]
    pub fn find_player(&self, player_id: &str) -> (r: Option<usize>)
        ensures
            match r {
                Some(i) => i < self.players@.len() && self.players@[i as int].id@ == player_id@
                    && has_player_id(self.players@, player_id@),
                None => !has_player_id(self.players@, player_id@),
            },
    {
        let mut i: usize = 0;
        while i < self.players.len()
            invariant
                0 <= i <= self.players@.len(),
                forall|k: int| 0 <= k < i ==> (#[trigger] self.players@[k]).id@ != player_id@,
            decreases self.players@.len() - i,
        {
            if crate::text::str_eq(self.players[i].id.as_str(), player_id) {
                return Some(i);
            }
            i = i + 1;
        }
        None
    }

    /// How many players hold an answer record for question
    /// `question_index`.
    #[verifier::loop_isolation(false)]
    pub fn answered_count(&self, question_index: usize) -> (r: usize)
        ensures
            r == count_answered(self.players@, question_index as int),
    {
        let mut n: usize = 0;
        let mut i: usize = 0;
        proof {
            assert(self.players@.take(0) =~= Seq::<Player>::empty());
        }
        while i < self.players.len()
            invariant
                0 <= i <= self.players@.len(),
                n == count_answered(self.players@.take(i as int), question_index as int),
                n <= i,
            decreases self.players@.len() - i,
        {
            proof {
                assert(self.players@.take(i as int + 1).drop_last() =~= self.players@.take(
                    i as int,
                ));
            }
            if self.players[i].has_answered(question_index) {
                n = n + 1;
            }
            i = i + 1;
        }
        proof {
            assert(self.players@.take(self.players@.len() as int) =~= self.players@);
        }
        n
    }
}

/// Among players with pairwise distinct ids, the player at `i` with id
/// `id` is the one `find_player_index` finds.
pub proof fn lemma_find_player_at(s: Seq<Player>, id: Seq<char>, i: int)
    requires
        0 <= i < s.len(),
        s[i].id@ == id,
        forall|a: int, b: int| 0 <= a < b < s.len() ==> (#[trigger] s[a]).id@ != (#[trigger] s[b]).id@,
    ensures
        find_player_index(s, id) == i,
    decreases i,
{
    if i > 0 {
        assert(s[0].id@ != id);
        assert forall|a: int, b: int| 0 <= a < b < s.drop_first().len() implies (
        #[trigger] s.drop_first()[a]).id@ != (#[trigger] s.drop_first()[b]).id@ by {
            assert(s.drop_first()[a] == s[a + 1]);
            assert(s.drop_first()[b] == s[b + 1]);
        }
        assert(s.drop_first()[i - 1] == s[i]);
        lemma_find_player_at(s.drop_first(), id, i - 1);
    }
}

} // verus!
