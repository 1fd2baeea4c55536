//! The three selectable scoring rules and their point formulas.

use vstd::prelude::*;

verus! {

/// Maximum number of points a single answer can earn.
pub const MAX_SCORE: u32 = 1000;

/// Which formula maps answer timing to points for a session.
#[derive(Clone, Copy, Debug, PartialEq, Eq, Structural)]
pub enum ScoringRule {
    SteppedDecay,
    LinearDecay,
    FixedScore,
}

/// Points for a correct answer under `stepped_decay`: the budget is cut into
/// five-second steps and each elapsed step removes one step's worth of the
/// maximum score; a correct answer never earns less than 1.
pub open spec fn spec_stepped_decay(elapsed_ms: int, time_limit_sec: int) -> int {
    let num_steps: int = if time_limit_sec / 5 >= 1 {
        time_limit_sec / 5
    } else {
        1
    };
    let step_size: int = 1000int / num_steps;
    let elapsed_steps: int = elapsed_ms / 5000;
    let raw: int = if 1000 - elapsed_steps * step_size >= 0 {
        1000 - elapsed_steps * step_size
    } else {
        0
    };
    if raw >= 1 {
        raw
    } else {
        1
    }
}

/// Points for a correct answer under `linear_decay`: each elapsed second
/// removes `1000 / time_limit_sec` points (at least 1); a correct answer
/// never earns less than 1.
pub open spec fn spec_linear_decay(elapsed_ms: int, time_limit_sec: int) -> int {
    let step_size: int = if 1000int / time_limit_sec >= 1 {
        1000int / time_limit_sec
    } else {
        1
    };
    let elapsed_sec: int = elapsed_ms / 1000;
    let raw: int = if 1000 - elapsed_sec * step_size >= 0 {
        1000 - elapsed_sec * step_size
    } else {
        0
    };
    if raw >= 1 {
        raw
    } else {
        1
    }
}

/// Points awarded by `rule` for an answer: 0 when incorrect, otherwise the
/// rule's formula applied to the elapsed time and the question's time limit.
pub open spec fn spec_points(
    rule: ScoringRule,
    correct: bool,
    elapsed_ms: int,
    time_limit_sec: int,
) -> int {
    if !correct {
        0
    } else {
        match rule {
            ScoringRule::SteppedDecay => spec_stepped_decay(elapsed_ms, time_limit_sec),
            ScoringRule::LinearDecay => spec_linear_decay(elapsed_ms, time_limit_sec),
            ScoringRule::FixedScore => 1000,
        }
    }
}

/// Every rule awards between 0 and 1000 points, and 0 exactly for an
/// incorrect answer.
pub proof fn lemma_points_range(
    rule: ScoringRule,
    correct: bool,
    elapsed_ms: int,
    time_limit_sec: int,
)
    requires
        elapsed_ms >= 0,
        time_limit_sec >= 1,
    ensures
        0 <= spec_points(rule, correct, elapsed_ms, time_limit_sec) <= 1000,
        !correct ==> spec_points(rule, correct, elapsed_ms, time_limit_sec) == 0,
        correct ==> 1 <= spec_points(rule, correct, elapsed_ms, time_limit_sec),
{
    if correct {
        match rule {
            ScoringRule::SteppedDecay => {
                let num_steps: int = if time_limit_sec / 5 >= 1 {
                    time_limit_sec / 5
                } else {
                    1
                };
                let step_size: int = 1000int / num_steps;
                let elapsed_steps: int = elapsed_ms / 5000;
                assert(elapsed_steps * step_size >= 0) by (nonlinear_arith)
                    requires
                        elapsed_steps >= 0,
                        step_size >= 0,
                ;
            },
            ScoringRule::LinearDecay => {
                let step_size: int = if 1000int / time_limit_sec >= 1 {
                    1000int / time_limit_sec
                } else {
                    1
                };
                let elapsed_sec: int = elapsed_ms / 1000;
                assert(elapsed_sec * step_size >= 0) by (nonlinear_arith)
                    requires
                        elapsed_sec >= 0,
                        step_size >= 0,
                ;
            },
            ScoringRule::FixedScore => {},
        }
    }
}

impl Default for ScoringRule {
    /// The default rule for a new session is `stepped_decay`.
    fn default() -> (r: Self)
        ensures
            r == ScoringRule::SteppedDecay,
    {
        ScoringRule::SteppedDecay
    }
}

impl ScoringRule {
    /// Spec view of `display_name`.
    pub open spec fn spec_display_name(self) -> Seq<char> {
        match self {
            ScoringRule::SteppedDecay => "Stepped Decay"@,
            ScoringRule::LinearDecay => "Linear Decay"@,
            ScoringRule::FixedScore => "Fixed Score"@,
        }
    }

    /// Human-readable name of the rule.
    pub fn display_name(&self) -> (r: &'static str)
        ensures
            r@ == self.spec_display_name(),
    {
        match self {
            ScoringRule::SteppedDecay => "Stepped Decay",
            ScoringRule::LinearDecay => "Linear Decay",
            ScoringRule::FixedScore => "Fixed Score",
        }
    }

    /// Points awarded for an answer under this rule: 0 when incorrect,
    /// otherwise the rule's decay formula, never less than 1 and never more
    /// than `MAX_SCORE`.
    pub fn calculate_points(&self, correct: bool, time_taken_ms: u64, time_limit_sec: u64) -> (r:
        u32)
        requires
            time_limit_sec >= 1,
        ensures
            r as int == spec_points(*self, correct, time_taken_ms as int, time_limit_sec as int),
            r <= MAX_SCORE,
            !correct ==> r == 0,
            correct ==> r >= 1,
            correct && *self == ScoringRule::FixedScore ==> r == MAX_SCORE,
    {
        proof {
            lemma_points_range(*self, correct, time_taken_ms as int, time_limit_sec as int);
        }
        if !correct {
            return 0;
        }
        match self {
            ScoringRule::SteppedDecay => {
                let num_steps: u64 = if time_limit_sec / 5 >= 1 {
                    time_limit_sec / 5
                } else {
                    1
                };
                let step_size: u64 = 1000 / num_steps;
                let elapsed_steps: u64 = time_taken_ms / 5000;
                assert(elapsed_steps * step_size <= u64::MAX) by (nonlinear_arith)
                    requires
                        0 <= elapsed_steps <= u64::MAX as int / 5000,
                        0 <= step_size <= 1000,
                ;
                let dec: u64 = elapsed_steps * step_size;
                let raw: u64 = if dec >= 1000 {
                    0
                } else {
                    1000 - dec
                };
                let pts: u64 = if raw >= 1 {
                    raw
                } else {
                    1
                };
                pts as u32
            },
            ScoringRule::LinearDecay => {
                let step_size: u64 = if 1000 / time_limit_sec >= 1 {
                    1000 / time_limit_sec
                } else {
                    1
                };
                let elapsed_sec: u64 = time_taken_ms / 1000;
                assert(elapsed_sec * step_size <= u64::MAX) by (nonlinear_arith)
                    requires
                        0 <= elapsed_sec <= u64::MAX as int / 1000,
                        0 <= step_size <= 1000,
                ;
                let dec: u64 = elapsed_sec * step_size;
                let raw: u64 = if dec >= 1000 {
                    0
                } else {
                    1000 - dec
                };
                let pts: u64 = if raw >= 1 {
                    raw
                } else {
                    1
                };
                pts as u32
            },
            ScoringRule::FixedScore => MAX_SCORE,
        }
    }
}

} // verus!
