//! The session registry: uploaded quizzes by id, live sessions by join
//! code, and capacity enforcement.

use vstd::prelude::*;

use crate::config::AppConfig;
use crate::errors::AppError;
use crate::models::quiz::{clone_quiz, Quiz};
use crate::models::session::{GameSession, SessionStatus, MAX_QUESTIONS};
use crate::models::scoring_rule::ScoringRule;
use crate::text::{
    chars_of, count_alnum, is_ascii_alnum, is_ascii_alnum_char, is_lower_hex_char,
    is_upper_alnum_char, lemma_to_upper_alnum, str_eq, string_from_chars, to_upper,
};

verus! {

/// Whether some entry of `s` is keyed `key`.
pub open spec fn quiz_key_taken(s: Seq<(String, Quiz)>, key: Seq<char>) -> bool {
    exists|i: int| 0 <= i < s.len() && (#[trigger] s[i]).0@ == key
}

/// Index of the first entry of `s` keyed `key` (`s.len()` when none).
pub open spec fn quiz_key_index(s: Seq<(String, Quiz)>, key: Seq<char>) -> int
    decreases s.len(),
{
    if s.len() == 0 {
        0
    } else if s[0].0@ == key {
        0
    } else {
        1 + quiz_key_index(s.drop_first(), key)
    }
}

/// Whether some session of `s` is registered under `code`.
pub open spec fn code_taken(s: Seq<(String, GameSession)>, code: Seq<char>) -> bool {
    exists|i: int| 0 <= i < s.len() && (#[trigger] s[i]).0@ == code
}

/// Index of the first session of `s` registered under `code` (`s.len()`
/// when none).
pub open spec fn code_index(s: Seq<(String, GameSession)>, code: Seq<char>) -> int
    decreases s.len(),
{
    if s.len() == 0 {
        0
    } else if s[0].0@ == code {
        0
    } else {
        1 + code_index(s.drop_first(), code)
    }
}

/// Holds quizzes by id and sessions by join code, and enforces the session
/// capacity from the configuration.
#[derive(Debug)]
pub struct SessionManager {
    sessions: Vec<(String, GameSession)>,
    quizzes: Vec<(String, Quiz)>,
    config: AppConfig,
}

/// Relies on `uuid::Uuid::new_v4` and its `Display` form: the hyphenated
/// rendering is 36 characters, lower-case hexadecimal digits except for
/// `-` at positions 8, 13, 18 and 23.
#[verifier::external_body]
fn fresh_uuid() -> (r: String)
    ensures
        r@.len() == 36,
        forall|i: int|
            0 <= i < 36 && i != 8 && i != 13 && i != 18 && i != 23 ==> is_lower_hex_char(
                #[trigger] r@[i],
            ),
{
    uuid::Uuid::new_v4().to_string()
}

/// The first six alphanumeric characters of `u`, upper-cased — or nothing
/// when `u` holds fewer than six.
#[verifier::loop_isolation(false)]
fn derive_join_code(u: &Vec<char>) -> (r: Option<Vec<char>>)
    ensures
        r matches Some(c) ==> c@.len() == 6 && forall|i: int|
            0 <= i < 6 ==> is_upper_alnum_char(#[trigger] c@[i]),
        count_alnum(u@) >= 6 ==> r is Some,
{
    let mut out: Vec<char> = Vec::new();
    let mut i: usize = 0;
    proof {
        assert(u@.take(0) =~= Seq::<char>::empty());
    }
    while i < u.len() && out.len() < 6
        invariant
            0 <= i <= u@.len(),
            out@.len() <= 6,
            forall|k: int| 0 <= k < out@.len() ==> is_upper_alnum_char(#[trigger] out@[k]),
            out@.len() < 6 ==> out@.len() == count_alnum(u@.take(i as int)),
        decreases u@.len() - i,
    {
        proof {
            assert(u@.take(i as int + 1).drop_last() =~= u@.take(i as int));
            assert(u@.take(i as int + 1).last() == u@[i as int]);
        }
        let c = u[i];
        if is_ascii_alnum(c) {
            proof {
                lemma_to_upper_alnum(c);
            }
            out.push(to_upper(c));
        }
        i = i + 1;
    }
    if out.len() == 6 {
        Some(out)
    } else {
        proof {
            assert(u@.take(u@.len() as int) =~= u@);
        }
        None
    }
}

/// How many of the four fixed positions 8, 13, 18 and 23 lie below `k`.
spec fn hyphens_below(k: int) -> int {
    (if k > 8 {
        1int
    } else {
        0int
    }) + (if k > 13 {
        1int
    } else {
        0int
    }) + (if k > 18 {
        1int
    } else {
        0int
    }) + (if k > 23 {
        1int
    } else {
        0int
    })
}

/// A hyphenated rendering — lower-case hexadecimal except at the four
/// hyphen positions — holds at least 32 alphanumeric characters.
proof fn lemma_hyphenated_alnum_count(s: Seq<char>)
    requires
        s.len() == 36,
        forall|i: int|
            0 <= i < 36 && i != 8 && i != 13 && i != 18 && i != 23 ==> is_lower_hex_char(
                #[trigger] s[i],
            ),
    ensures
        count_alnum(s) >= 32,
{
    lemma_hyphenated_alnum_count_prefix(s, 36);
    assert(s.take(36) =~= s);
}

/// Helper for [`lemma_hyphenated_alnum_count`], over prefixes.
proof fn lemma_hyphenated_alnum_count_prefix(s: Seq<char>, k: int)
    requires
        s.len() == 36,
        0 <= k <= 36,
        forall|i: int|
            0 <= i < 36 && i != 8 && i != 13 && i != 18 && i != 23 ==> is_lower_hex_char(
                #[trigger] s[i],
            ),
    ensures
        count_alnum(s.take(k)) >= k - hyphens_below(k),
    decreases k,
{
    if k > 0 {
        lemma_hyphenated_alnum_count_prefix(s, k - 1);
        assert(s.take(k).drop_last() =~= s.take(k - 1));
        assert(s.take(k).last() == s[k - 1]);
        if k - 1 != 8 && k - 1 != 13 && k - 1 != 18 && k - 1 != 23 {
            assert(is_lower_hex_char(s[k - 1]));
            assert(is_ascii_alnum_char(s[k - 1]));
        }
    } else {
        assert(s.take(0) =~= Seq::<char>::empty());
    }
}

impl SessionManager {
    /// Keys are unique: each quiz id and each join code names at most one
    /// entry.
    pub closed spec fn wf(self) -> bool {
        &&& forall|i: int, j: int|
            0 <= i < j < self.quizzes@.len() ==> (#[trigger] self.quizzes@[i]).0@ != (
            #[trigger] self.quizzes@[j]).0@
        &&& forall|i: int, j: int|
            0 <= i < j < self.sessions@.len() ==> (#[trigger] self.sessions@[i]).0@ != (
            #[trigger] self.sessions@[j]).0@
    }

    /// The registered sessions, by join code.
    pub closed spec fn spec_sessions(self) -> Seq<(String, GameSession)> {
        self.sessions@
    }

    /// The stored quizzes, by id.
    pub closed spec fn spec_quizzes(self) -> Seq<(String, Quiz)> {
        self.quizzes@
    }

    /// The configuration the registry was built with.
    pub closed spec fn spec_config(self) -> AppConfig {
        self.config
    }

    /// An empty registry over `config`.
    pub fn new(config: AppConfig) -> (r: SessionManager)
        ensures
            r.spec_sessions() == Seq::<(String, GameSession)>::empty(),
            r.spec_quizzes() == Seq::<(String, Quiz)>::empty(),
            r.spec_config() == config,
            r.wf(),
    {
        SessionManager { sessions: Vec::new(), quizzes: Vec::new(), config }
    }

    /// Store `quiz` under `quiz_id`, replacing any quiz already stored
    /// under that id.
    #[verifier::loop_isolation(false)]
    pub fn store_quiz(&mut self, quiz_id: String, quiz: Quiz)
        requires
            old(self).wf(),
        ensures
            final(self).wf(),
            final(self).spec_sessions() == old(self).spec_sessions(),
            final(self).spec_config() == old(self).spec_config(),
            quiz_key_taken(final(self).spec_quizzes(), quiz_id@),
            !quiz_key_taken(old(self).spec_quizzes(), quiz_id@) ==> final(self).spec_quizzes()
                == old(self).spec_quizzes().push((quiz_id, quiz)),
            quiz_key_taken(old(self).spec_quizzes(), quiz_id@) ==> ({
                let i = quiz_key_index(old(self).spec_quizzes(), quiz_id@);
                final(self).spec_quizzes() == old(self).spec_quizzes().update(i, (quiz_id, quiz))
            }),
    {
        let mut i: usize = 0;
        let n = self.quizzes.len();
        while i < n
            invariant
                0 <= i <= n,
                *self == *old(self),
                n == self.quizzes@.len(),
                forall|k: int| 0 <= k < i ==> (#[trigger] self.quizzes@[k]).0@ != quiz_id@,
            decreases n - i,
        {
            if str_eq(self.quizzes[i].0.as_str(), quiz_id.as_str()) {
                proof {
                    lemma_quiz_key_index_at(self.quizzes@, quiz_id@, i as int);
                }
                let ghost before = self.quizzes@;
                let _ = self.quizzes.remove(i);
                self.quizzes.insert(i, (quiz_id, quiz));
                proof {
                    assert(self.quizzes@ =~= before.update(
                        i as int,
                        (final(self).quizzes@[i as int].0, final(self).quizzes@[i as int].1),
                    ));
                    assert(self.quizzes@ =~= before.update(i as int, self.quizzes@[i as int]));
                }
                return ;
            }
            i = i + 1;
        }
        let ghost idv = quiz_id@;
        self.quizzes.push((quiz_id, quiz));
        proof {
            assert(self.quizzes@[self.quizzes@.len() - 1].0@ == idv);
        }
    }

    /// A copy of the quiz stored under `quiz_id`, if any.
    #[verifier::loop_isolation(false)]
    pub fn get_quiz(&self, quiz_id: &str) -> (r: Option<Quiz>)
        ensures
            r is Some <==> quiz_key_taken(self.spec_quizzes(), quiz_id@),
            r matches Some(q) ==> q@ == self.spec_quizzes()[quiz_key_index(
                self.spec_quizzes(),
                quiz_id@,
            )].1@,
    {
        let mut i: usize = 0;
        let n = self.quizzes.len();
        while i < n
            invariant
                0 <= i <= n,
                n == self.quizzes@.len(),
                forall|k: int| 0 <= k < i ==> (#[trigger] self.quizzes@[k]).0@ != quiz_id@,
            decreases n - i,
        {
            if str_eq(self.quizzes[i].0.as_str(), quiz_id) {
                proof {
                    lemma_quiz_key_index_at(self.quizzes@, quiz_id@, i as int);
                }
                return Some(clone_quiz(&self.quizzes[i].1));
            }
            i = i + 1;
        }
        None
    }

    /// Whether a session is registered under `join_code`, and where.
    #[verifier::loop_isolation(false)]
    pub fn session_index(&self, join_code: &str) -> (r: Option<usize>)
        ensures
            r matches Some(i) ==> i < self.spec_sessions().len() && self.spec_sessions()[
                i as int
            ].0@ == join_code@ && code_taken(self.spec_sessions(), join_code@) && i == code_index(
                self.spec_sessions(),
                join_code@,
            ),
            r is None ==> !code_taken(self.spec_sessions(), join_code@),
    {
        let mut i: usize = 0;
        let n = self.sessions.len();
        while i < n
            invariant
                0 <= i <= n,
                n == self.sessions@.len(),
                forall|k: int| 0 <= k < i ==> (#[trigger] self.sessions@[k]).0@ != join_code@,
            decreases n - i,
        {
            if str_eq(self.sessions[i].0.as_str(), join_code) {
                proof {
                    lemma_code_index_at(self.sessions@, join_code@, i as int);
                }
                return Some(i);
            }
            i = i + 1;
        }
        None
    }

    /// The session registered under `join_code`, if any.
    pub fn get_session(&self, join_code: &str) -> (r: Option<&GameSession>)
        ensures
            r is Some <==> code_taken(self.spec_sessions(), join_code@),
            r matches Some(s) ==> *s == self.spec_sessions()[code_index(
                self.spec_sessions(),
                join_code@,
            )].1,
    {
        match self.session_index(join_code) {
            Some(i) => Some(&self.sessions[i].1),
            None => None,
        }
    }

    /// Mutable access to the session at `i`; everything else in the
    /// registry stays as it is.
    pub fn session_at_mut(&mut self, i: usize) -> (r: &mut GameSession)
        requires
            i < old(self).spec_sessions().len(),
        ensures
            *r == old(self).spec_sessions()[i as int].1,
            final(self).spec_sessions() == old(self).spec_sessions().update(
                i as int,
                (old(self).spec_sessions()[i as int].0, *final(r)),
            ),
            final(self).spec_quizzes() == old(self).spec_quizzes(),
            final(self).spec_config() == old(self).spec_config(),
            old(self).wf() ==> final(self).wf(),
    {
        let entry = &mut self.sessions[i];
        &mut entry.1
    }

    /// Register a new session over `quiz`.
    ///
    /// Fails with `max_sessions_reached` exactly when as many sessions are
    /// live as the configuration allows.  Otherwise a fresh six-character
    /// upper-case alphanumeric join code is drawn (retrying on the rare
    /// collision) and a session in the lobby state is stored under it; the
    /// join code is returned.  When no fresh code could be drawn, an
    /// internal error is reported and nothing changes.
    #[verifier::loop_isolation(false)]
    pub fn create_session(&mut self, quiz: Quiz) -> (r: Result<String, AppError>)
        requires
            old(self).wf(),
            quiz@.wf(),
            quiz.questions@.len() <= MAX_QUESTIONS,
        ensures
            final(self).wf(),
            old(self).spec_sessions().len() >= old(self).spec_config().max_sessions ==> (
            r matches Err(e) && e is MaxSessionsReached),
            old(self).spec_sessions().len() < old(self).spec_config().max_sessions && r is Err
                ==> r->Err_0 is Internal,
            r is Err ==> *final(self) == *old(self),
            r matches Ok(code) ==> ({
                let e = final(self).spec_sessions().last();
                &&& old(self).spec_sessions().len() < old(self).spec_config().max_sessions
                &&& code@.len() == 6
                &&& forall|i: int| 0 <= i < 6 ==> is_upper_alnum_char(#[trigger] code@[i])
                &&& !code_taken(old(self).spec_sessions(), code@)
                &&& final(self).spec_sessions() == old(self).spec_sessions().push(e)
                &&& final(self).spec_quizzes() == old(self).spec_quizzes()
                &&& final(self).spec_config() == old(self).spec_config()
                &&& e.0@ == code@
                &&& e.1.join_code@ == code@
                &&& e.1.quiz == quiz
                &&& e.1.status == SessionStatus::Lobby
                &&& e.1.players@.len() == 0
                &&& e.1.current_question == -1
                &&& e.1.question_started is None
                &&& e.1.host_id is None
                &&& e.1.scoring_rule == ScoringRule::SteppedDecay
                &&& e.1.wf()
            }),
    {
        if self.sessions.len() >= self.config.max_sessions {
            return Err(AppError::MaxSessionsReached);
        }
        let mut fresh: Option<String> = None;
        let mut attempt: usize = 0;
        while attempt < 100 && fresh.is_none()
            invariant
                *self == *old(self),
                fresh matches Some(code) ==> code@.len() == 6 && (forall|i: int|
                    0 <= i < 6 ==> is_upper_alnum_char(#[trigger] code@[i])) && !code_taken(
                    self.spec_sessions(),
                    code@,
                ),
            decreases 100 - attempt,
        {
            let u = fresh_uuid();
            let uv = chars_of(u.as_str());
            proof {
                lemma_hyphenated_alnum_count(uv@);
            }
            match derive_join_code(&uv) {
                Some(cv) => {
                    let code = string_from_chars(&cv);
                    if self.session_index(code.as_str()).is_none() {
                        fresh = Some(code);
                    }
                },
                None => {
                    // Impossible: the rendering always holds six
                    // alphanumeric characters.
                },
            }
            attempt = attempt + 1;
        }
        match fresh {
            Some(code) => {
                let session = GameSession::new(code.clone(), quiz);
                let ghost before = self.sessions@;
                self.sessions.push((code.clone(), session));
                proof {
                    assert forall|a: int, b: int|
                        0 <= a < b < self.sessions@.len() implies (
                    #[trigger] self.sessions@[a]).0@ != (#[trigger] self.sessions@[b]).0@ by {
                        if b < before.len() {
                            assert(self.sessions@[a] == before[a]);
                            assert(self.sessions@[b] == before[b]);
                        } else {
                            assert(self.sessions@[a] == before[a]);
                            assert(!code_taken(before, code@));
                        }
                    }
                }
                Ok(code)
            },
            None => Err(AppError::Internal(("could not draw a fresh join code").to_owned())),
        }
    }

    /// Drop the session registered under `join_code`, if any.
    pub fn remove_session(&mut self, join_code: &str)
        requires
            old(self).wf(),
        ensures
            final(self).wf(),
            final(self).spec_quizzes() == old(self).spec_quizzes(),
            final(self).spec_config() == old(self).spec_config(),
            !code_taken(old(self).spec_sessions(), join_code@) ==> final(self).spec_sessions()
                == old(self).spec_sessions(),
            code_taken(old(self).spec_sessions(), join_code@) ==> final(self).spec_sessions()
                == old(self).spec_sessions().remove(
                code_index(old(self).spec_sessions(), join_code@),
            ),
            !code_taken(final(self).spec_sessions(), join_code@),
    {
        match self.session_index(join_code) {
            Some(i) => {
                let ghost before = self.sessions@;
                let _ = self.sessions.remove(i);
                proof {
                    assert forall|a: int, b: int|
                        0 <= a < b < self.sessions@.len() implies (
                    #[trigger] self.sessions@[a]).0@ != (#[trigger] self.sessions@[b]).0@ by {
                        let a0: int = if a < i { a } else { a + 1 };
                        let b0: int = if b < i { b } else { b + 1 };
                        assert(self.sessions@[a] == before[a0]);
                        assert(self.sessions@[b] == before[b0]);
                    }
                    assert forall|k: int|
                        0 <= k < self.sessions@.len() implies (#[trigger] self.sessions@[k]).0@
                        != join_code@ by {
                        let k0: int = if k < i { k } else { k + 1 };
                        assert(self.sessions@[k] == before[k0]);
                        if k0 != i {
                            lemma_code_index_at(before, join_code@, i as int);
                            if before[k0].0@ == join_code@ {
                                assert(code_index(before, join_code@) == i);
                            }
                        }
                    }
                }
            },
            None => {},
        }
    }

    /// The configured player capacity of a session.
    pub fn max_players(&self) -> (r: usize)
        ensures
            r == self.spec_config().max_players,
    {
        self.config.max_players
    }

    /// The configured time budget of a question, in seconds.
    pub fn question_time_sec(&self) -> (r: u64)
        ensures
            r == self.spec_config().question_time_sec,
    {
        self.config.question_time_sec
    }

    /// The configured reconnect window, in seconds.
    pub fn reconnect_timeout_sec(&self) -> (r: u64)
        ensures
            r == self.spec_config().reconnect_timeout_sec,
    {
        self.config.reconnect_timeout_sec
    }
}

/// Among quiz entries with pairwise distinct keys — or with no entry keyed
/// `key` before `i` — the entry at `i` keyed `key` is the one
/// `quiz_key_index` finds.
pub proof fn lemma_quiz_key_index_at(s: Seq<(String, Quiz)>, key: Seq<char>, i: int)
    requires
        0 <= i < s.len(),
        s[i].0@ == key,
        forall|k: int| 0 <= k < i ==> (#[trigger] s[k]).0@ != key,
    ensures
        quiz_key_index(s, key) == i,
        quiz_key_taken(s, key),
    decreases i,
{
    if i > 0 {
        assert(s[0].0@ != key);
        assert forall|k: int| 0 <= k < i - 1 implies (#[trigger] s.drop_first()[k]).0@ != key by {
            assert(s.drop_first()[k] == s[k + 1]);
        }
        assert(s.drop_first()[i - 1] == s[i]);
        lemma_quiz_key_index_at(s.drop_first(), key, i - 1);
    }
}

/// The same, for sessions keyed by join code.
pub proof fn lemma_code_index_at(s: Seq<(String, GameSession)>, code: Seq<char>, i: int)
    requires
        0 <= i < s.len(),
        s[i].0@ == code,
        forall|k: int| 0 <= k < i ==> (#[trigger] s[k]).0@ != code,
    ensures
        code_index(s, code) == i,
        code_taken(s, code),
    decreases i,
{
    if i > 0 {
        assert(s[0].0@ != code);
        assert forall|k: int| 0 <= k < i - 1 implies (#[trigger] s.drop_first()[k]).0@ != code by {
            assert(s.drop_first()[k] == s[k + 1]);
        }
        assert(s.drop_first()[i - 1] == s[i]);
        lemma_code_index_at(s.drop_first(), code, i - 1);
    }
}

} // verus!
