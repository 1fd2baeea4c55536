//! Tiered speed scoring used as the engine-internal baseline formula.

use vstd::prelude::*;

use crate::models::scoring_rule::{spec_points, ScoringRule};

verus! {

/// Points for an answer under tiered speed scoring: a correct answer in the
/// first third of the time limit earns 1000, in the second third 500, in the
/// last third 250, and 0 after the limit; an incorrect answer earns 0.
pub open spec fn spec_tiered_points(correct: bool, time_taken_ms: int, time_limit_sec: int) -> int {
    if !correct {
        0
    } else {
        let time_limit_ms = time_limit_sec * 1000;
        let third = time_limit_ms / 3;
        if time_taken_ms <= third {
            1000
        } else if time_taken_ms <= third * 2 {
            500
        } else if time_taken_ms <= time_limit_ms {
            250
        } else {
            0
        }
    }
}

/// Calculate points for an answer using tiered speed scoring.
pub fn calculate_points(correct: bool, time_taken_ms: u64, time_limit_sec: u64) -> (r: u32)
    requires
        time_limit_sec <= u64::MAX / 1000,
    ensures
        r as int == spec_tiered_points(correct, time_taken_ms as int, time_limit_sec as int),
        !correct ==> r == 0,
        r <= 1000,
{
    if !correct {
        return 0;
    }
    assert(time_limit_sec * 1000 <= u64::MAX) by (nonlinear_arith)
        requires
            time_limit_sec <= u64::MAX as int / 1000,
    ;
    let time_limit_ms: u64 = time_limit_sec * 1000;
    let third: u64 = time_limit_ms / 3;
    assert(third * 2 <= u64::MAX) by (nonlinear_arith)
        requires
            0 <= third <= u64::MAX as int / 3,
    ;
    if time_taken_ms <= third {
        1000
    } else if time_taken_ms <= third * 2 {
        500
    } else if time_taken_ms <= time_limit_ms {
        250
    } else {
        0
    }
}

/// An incorrect answer earns nothing: under every selectable scoring rule
/// and under the tiered baseline formula, whatever the elapsed time and
/// the time limit.
pub proof fn lemma_incorrect_scores_zero(rule: ScoringRule, elapsed_ms: int, time_limit_sec: int)
    ensures
        spec_points(rule, false, elapsed_ms, time_limit_sec) == 0,
        spec_tiered_points(false, elapsed_ms, time_limit_sec) == 0,
{
}

} // verus!
