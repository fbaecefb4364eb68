//! The tiered checker: grades a contestant's raw output against an ordered
//! list of acceptability predicates supplied by a problem.
//!
//! A malformed contestant answer is data, not an exceptional condition: it
//! is graded into the lowest tier, never an error. The predicates are
//! evaluated in strict priority order and the first match wins.

use vstd::prelude::*;
use vstd::math::abs;

use crate::text::{spec_parse_i64, spec_tokens, split_tokens, parse_i64};

verus! {

/// A named correctness bucket, ordered from best to worst.
#[derive(Clone, Copy, Debug, PartialEq, Eq, Structural)]
pub enum Tier {
    Correct,
    Partial,
    Wrong,
}

impl Tier {
    /// The decimal text of the tier's fixed numeric weight.
    pub open spec fn spec_score_text(self) -> Seq<char> {
        match self {
            Tier::Correct => "1.0"@,
            Tier::Partial => "0.5"@,
            Tier::Wrong => "0.0"@,
        }
    }

    /// Renders the tier's fixed numeric weight for the score channel.
    pub fn score_text(&self) -> (r: &'static str)
        ensures
            r@ == self.spec_score_text(),
    {
        match self {
            Tier::Correct => "1.0",
            Tier::Partial => "0.5",
            Tier::Wrong => "0.0",
        }
    }

    /// The reason-code suffix of the tier, appended to the problem's name.
    pub open spec fn spec_suffix(self) -> Seq<char> {
        match self {
            Tier::Correct => ":correct"@,
            Tier::Partial => ":partial"@,
            Tier::Wrong => ":wrong"@,
        }
    }
}

/// A grading outcome: the tier that won, and the machine-readable reason
/// code `"<problem>:<tier>"`. The numeric score comes from the tier; the
/// reason string is an independent channel for logs.
pub struct Outcome {
    pub tier: Tier,
    pub reason: String,
}

/// A judged problem: an ordered pair of acceptability predicates over the
/// contestant's parsed answer, best first, and a namespace for reason
/// codes. The checker core never assumes which problem it grades.
pub trait Problem {
    /// The highest-priority predicate: the answer is fully correct.
    spec fn spec_correct(&self, answer: int) -> bool;

    /// The second predicate: the answer earns partial credit.
    spec fn spec_partial(&self, answer: int) -> bool;

    /// The problem's namespace for reason codes.
    spec fn spec_name(&self) -> Seq<char>;

    /// Decides `spec_correct` on a concrete answer.
    fn is_correct(&self, answer: i64) -> (r: bool)
        ensures
            r == self.spec_correct(answer as int),
    ;

    /// Decides `spec_partial` on a concrete answer.
    fn is_partial(&self, answer: i64) -> (r: bool)
        ensures
            r == self.spec_partial(answer as int),
    ;

    /// Renders the problem's namespace.
    fn name(&self) -> (r: String)
        ensures
            r@ == self.spec_name(),
    ;
}

/// The contestant's answer as an integer: the raw output, surrounding
/// whitespace ignored, must hold exactly one token, and that token must be
/// a signed decimal that fits an `i64`.
pub open spec fn spec_answer(raw: Seq<char>) -> Option<int> {
    let ts = spec_tokens(raw);
    if ts.len() == 1 {
        spec_parse_i64(ts[0])
    } else {
        None
    }
}

/// Parses a contestant's raw output as a signed 64-bit integer, ignoring
/// surrounding whitespace.
pub fn parse_answer(raw: &str) -> (r: Option<i64>)
    ensures
        match r {
            Some(v) => spec_answer(raw@) == Some(v as int),
            None => spec_answer(raw@) is None,
        },
{
    let tokens = split_tokens(raw);
    if tokens.len() != 1 {
        return None;
    }
    proof {
        assert(tokens.deep_view()[0] == tokens@[0]@);
    }
    parse_i64(tokens[0].as_str())
}

/// The tier a contestant's raw output earns: the lowest tier when the
/// output is not an integer, else the first predicate that holds, in
/// priority order `correct`, `partial`, `wrong`.
pub open spec fn spec_grade<P: Problem>(problem: &P, raw: Seq<char>) -> Tier {
    match spec_answer(raw) {
        None => Tier::Wrong,
        Some(a) => if problem.spec_correct(a) {
            Tier::Correct
        } else if problem.spec_partial(a) {
            Tier::Partial
        } else {
            Tier::Wrong
        },
    }
}

/// Grades a contestant's raw output. Total: every output, well-formed or
/// not, yields an outcome whose tier is `spec_grade` and whose reason code
/// is the problem's namespace followed by the tier's suffix.
pub fn grade<P: Problem>(problem: &P, raw: &str) -> (r: Outcome)
    ensures
        r.tier == spec_grade(problem, raw@),
        r.reason@ == problem.spec_name() + r.tier.spec_suffix(),
{
    let tier = match parse_answer(raw) {
        None => Tier::Wrong,
        Some(a) => if problem.is_correct(a) {
            Tier::Correct
        } else if problem.is_partial(a) {
            Tier::Partial
        } else {
            Tier::Wrong
        },
    };
    let name = problem.name();
    let reason = match tier {
        Tier::Correct => name.concat(":correct"),
        Tier::Partial => name.concat(":partial"),
        Tier::Wrong => name.concat(":wrong"),
    };
    Outcome { tier, reason }
}

/// First match wins: whenever the contestant's output parses and the
/// `correct` predicate holds, the grade is `Correct` — even where a lower
/// predicate would also hold.
pub proof fn lemma_correct_wins<P: Problem>(problem: &P, raw: Seq<char>)
    requires
        spec_answer(raw) matches Some(a) && problem.spec_correct(a),
    ensures
        spec_grade(problem, raw) == Tier::Correct,
{
}

/// A malformed answer is graded, never fatal: whenever the contestant's
/// output does not parse as an integer, the grade is the lowest tier.
pub proof fn lemma_malformed_is_wrong<P: Problem>(problem: &P, raw: Seq<char>)
    requires
        spec_answer(raw) is None,
    ensures
        spec_grade(problem, raw) == Tier::Wrong,
{
}

/// The two-integer-sum problem: the reference input is the pair `(a, b)`.
/// The answer is correct when it is `a + b`, and earns partial credit when
/// it is `|a| + |b|`, the recognizable sign-dropping mistake.
pub struct SumProblem {
    pub a: i64,
    pub b: i64,
}

impl Problem for SumProblem {
    open spec fn spec_correct(&self, answer: int) -> bool {
        answer == self.a + self.b
    }

    open spec fn spec_partial(&self, answer: int) -> bool {
        answer == abs(self.a as int) + abs(self.b as int)
    }

    open spec fn spec_name(&self) -> Seq<char> {
        "sum"@
    }

    fn is_correct(&self, answer: i64) -> (r: bool) {
        answer as i128 == self.a as i128 + self.b as i128
    }

    fn is_partial(&self, answer: i64) -> (r: bool) {
        let abs_a: i128 = if self.a < 0 {
            -(self.a as i128)
        } else {
            self.a as i128
        };
        let abs_b: i128 = if self.b < 0 {
            -(self.b as i128)
        } else {
            self.b as i128
        };
        answer as i128 == abs_a + abs_b
    }

    fn name(&self) -> (r: String) {
        String::from_str("sum")
    }
}

} // verus!
