use judgekit::checker::{grade, parse_answer, SumProblem, Tier};
use judgekit::reader::parse_pair;

fn sum_problem(reference_input: &str) -> SumProblem {
    let (a, b) = parse_pair(reference_input).unwrap();
    SumProblem { a, b }
}

#[test]
fn correct_answer_scores_full_credit() {
    let outcome = grade(&sum_problem("2 3"), "5");
    assert_eq!(outcome.tier, Tier::Correct);
    assert_eq!(outcome.tier.score_text(), "1.0");
    assert_eq!(outcome.reason, "sum:correct");
}

#[test]
fn sign_dropping_answer_scores_partial_credit() {
    let outcome = grade(&sum_problem("-2 3"), "5");
    assert_eq!(outcome.tier, Tier::Partial);
    assert_eq!(outcome.tier.score_text(), "0.5");
    assert_eq!(outcome.reason, "sum:partial");
}

#[test]
fn wrong_answer_scores_nothing() {
    let outcome = grade(&sum_problem("2 3"), "9");
    assert_eq!(outcome.tier, Tier::Wrong);
    assert_eq!(outcome.tier.score_text(), "0.0");
    assert_eq!(outcome.reason, "sum:wrong");
}

#[test]
fn malformed_answer_is_graded_not_fatal() {
    let outcome = grade(&sum_problem("2 3"), "not-a-number");
    assert_eq!(outcome.tier, Tier::Wrong);
    assert_eq!(outcome.tier.score_text(), "0.0");
    assert_eq!(outcome.reason, "sum:wrong");
}

#[test]
fn correct_wins_where_partial_would_also_match() {
    // With non-negative inputs, a + b == |a| + |b|: both predicates hold.
    let outcome = grade(&SumProblem { a: 2, b: 3 }, "5");
    assert_eq!(outcome.tier, Tier::Correct);
    assert_eq!(outcome.reason, "sum:correct");
}

#[test]
fn answer_whitespace_is_ignored() {
    let outcome = grade(&sum_problem("2 3"), "  5\n");
    assert_eq!(outcome.tier, Tier::Correct);
}

#[test]
fn partial_with_overflowing_absolute_sum() {
    // |a| + |b| exceeds i64: no answer can earn partial credit, none crashes.
    let problem = SumProblem { a: i64::MIN, b: i64::MIN };
    let outcome = grade(&problem, "0");
    assert_eq!(outcome.tier, Tier::Wrong);
}

#[test]
fn parse_answer_matches_trimmed_integer_grammar() {
    assert_eq!(parse_answer(" 5 "), Some(5));
    assert_eq!(parse_answer("-12\n"), Some(-12));
    assert_eq!(parse_answer("5 6"), None);
    assert_eq!(parse_answer(""), None);
}
