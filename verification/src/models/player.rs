//! Players and their answer records.

use vstd::prelude::*;
use vstd::set_lib::{lemma_int_range, lemma_len_subset, set_int_range};

verus! {

/// Avatar used when a player supplies none.
pub const DEFAULT_AVATAR: &'static str = "🙂";

/// Whether a player is currently attached to the session.
#[derive(Clone, Copy, Debug, PartialEq, Eq, Structural)]
pub enum ConnectionStatus {
    Connected,
    Disconnected,
    Left,
}

/// One submitted answer; created once and never changed afterwards.
#[derive(Clone, Copy, Debug, PartialEq, Eq, Structural)]
pub struct Answer {
    pub question_index: usize,
    pub selected_index: usize,
    pub time_taken_ms: u64,
    pub points_awarded: u32,
}

/// A participant of one session.
#[derive(Debug)]
pub struct Player {
    pub id: String,
    pub display_name: String,
    pub avatar: String,
    pub score: u32,
    pub correct_count: u32,
    pub answers: Vec<Answer>,
    pub connection_status: ConnectionStatus,
    /// Timestamp in milliseconds of the disconnect, present only while
    /// disconnected.
    pub disconnected_at: Option<u64>,
}

/// Sum of the points of a run of answer records.
pub open spec fn sum_points(s: Seq<Answer>) -> int
    decreases s.len(),
{
    if s.len() == 0 {
        0
    } else {
        sum_points(s.drop_last()) + s.last().points_awarded
    }
}

impl Player {
    /// Whether some answer record is for question `qi`.
    pub open spec fn spec_has_answered(self, qi: int) -> bool {
        exists|i: int|
            0 <= i < self.answers@.len() && #[trigger] self.answers@[i].question_index == qi
    }

    /// Internal consistency of a player of a quiz with `num_questions`
    /// questions: at most one answer per question, every answer within the
    /// quiz and worth at most 1000, and the score is the sum of the points.
    pub open spec fn wf(self, num_questions: int) -> bool {
        &&& forall|i: int|
            0 <= i < self.answers@.len() ==> (#[trigger] self.answers@[i]).question_index
                < num_questions && self.answers@[i].points_awarded <= 1000
        &&& forall|i: int, j: int|
            0 <= i < j < self.answers@.len() ==> #[trigger] self.answers@[i].question_index
                != #[trigger] self.answers@[j].question_index
        &&& self.score == sum_points(self.answers@)
        &&& self.correct_count <= self.answers@.len()
    }

    /// A new player starts connected, with no score and no answers.
    pub fn new(id: String, display_name: String, avatar: String) -> (p: Player)
        ensures
            p.id == id,
            p.display_name == display_name,
            p.avatar == avatar,
            p.score == 0,
            p.correct_count == 0,
            p.answers@ == Seq::<Answer>::empty(),
            p.connection_status == ConnectionStatus::Connected,
            p.disconnected_at is None,
            forall|n: int| p.wf(n),
    {
        let p = Player {
            id,
            display_name,
            avatar,
            score: 0,
            correct_count: 0,
            answers: Vec::new(),
            connection_status: ConnectionStatus::Connected,
            disconnected_at: None,
        };
        assert(forall|n: int| p.wf(n));
        p
    }

    /// Whether this player has already answered question `question_index`.
    pub fn has_answered(&self, question_index: usize) -> (r: bool)
        ensures
            r == self.spec_has_answered(question_index as int),
    {
        let mut i: usize = 0;
        while i < self.answers.len()
            invariant
                0 <= i <= self.answers@.len(),
                forall|k: int|
                    0 <= k < i ==> #[trigger] self.answers@[k].question_index
                        != question_index as int,
            decreases self.answers@.len() - i,
        {
            if self.answers[i].question_index == question_index {
                return true;
            }
            i = i + 1;
        }
        false
    }
}

/// The sum of a run of answers each worth at most 1000 points is bounded by
/// 1000 per answer.
pub proof fn lemma_sum_points_bound(s: Seq<Answer>)
    requires
        forall|i: int| 0 <= i < s.len() ==> (#[trigger] s[i]).points_awarded <= 1000,
    ensures
        0 <= sum_points(s) <= 1000 * s.len(),
    decreases s.len(),
{
    if s.len() > 0 {
        lemma_sum_points_bound(s.drop_last());
    }
}

/// Appending an answer record adds its points to the sum.
pub proof fn lemma_sum_points_push(s: Seq<Answer>, a: Answer)
    ensures
        sum_points(s.push(a)) == sum_points(s) + a.points_awarded,
{
    assert(s.push(a).drop_last() =~= s);
}

/// A run of answers addressing pairwise distinct questions of a quiz with
/// `num_questions` questions holds at most `num_questions` records.
pub proof fn lemma_answers_bounded(ans: Seq<Answer>, num_questions: int)
    requires
        forall|i: int| 0 <= i < ans.len() ==> (#[trigger] ans[i]).question_index < num_questions,
        forall|i: int, j: int|
            0 <= i < j < ans.len() ==> #[trigger] ans[i].question_index
                != #[trigger] ans[j].question_index,
        num_questions >= 0,
    ensures
        ans.len() <= num_questions,
{
    let idxs = ans.map_values(|a: Answer| a.question_index as int);
    assert(idxs.no_duplicates()) by {
        assert forall|i: int, j: int| i != j && 0 <= i < idxs.len() && 0 <= j < idxs.len()
            implies idxs[i] != idxs[j] by {
            if i < j {
                assert(ans[i].question_index != ans[j].question_index);
            } else {
                assert(ans[j].question_index != ans[i].question_index);
            }
        }
    }
    idxs.unique_seq_to_set();
    assert(idxs.to_set().subset_of(set_int_range(0, num_questions))) by {
        assert forall|x: int| idxs.to_set().contains(x) implies set_int_range(
            0,
            num_questions,
        ).contains(x) by {
            let i = choose|i: int| 0 <= i < idxs.len() && idxs[i] == x;
            assert(ans[i].question_index < num_questions);
        }
    }
    lemma_int_range(0, num_questions);
    lemma_len_subset(idxs.to_set(), set_int_range(0, num_questions));
}

} // verus!
