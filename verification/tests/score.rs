use popquiz::score::{calculate_score, greatest_common_divisor, Score};

fn value(score: Score) -> f64 {
    score.num as f64 / score.den as f64
}

#[test]
fn score_constructors() {
    assert_eq!(Score::zero(), Score { num: 0, den: 1 });
    assert_eq!(Score::full(), Score { num: 1, den: 1 });
    assert_eq!(Score::all_or_nothing(true), Score::full());
    assert_eq!(Score::all_or_nothing(false), Score::zero());
    assert_eq!(Score::fraction(2, 3), Score { num: 2, den: 3 });
    assert!(Score::fraction(3, 3).is_full());
    assert!(!Score::fraction(2, 3).is_full());
    assert!(Score::fraction(0, 3).is_zero());
    assert!(!Score::fraction(1, 3).is_zero());
}

#[test]
fn no_timeout_means_no_decay() {
    let base = Score { num: 3, den: 4 };
    assert_eq!(calculate_score(base, None, 0), (base, false));
    assert_eq!(calculate_score(base, None, 1_000_000_000), (base, false));
}

#[test]
fn full_credit_up_to_the_limit() {
    let base = Score { num: 3, den: 4 };
    assert_eq!(calculate_score(base, Some(10), 0), (base, false));
    assert_eq!(calculate_score(base, Some(10), 9_999), (base, false));
    assert_eq!(calculate_score(base, Some(10), 10_000), (base, false));
}

#[test]
fn linear_decay_between_one_and_two_limits() {
    let (score, timed_out) = calculate_score(Score::full(), Some(10), 10_001);
    assert_eq!(score, Score { num: 9_999, den: 10_000 });
    assert!(timed_out);

    let (score, timed_out) = calculate_score(Score::full(), Some(10), 12_500);
    assert_eq!(score, Score { num: 7_500, den: 10_000 });
    assert_eq!(value(score), 0.75);
    assert!(timed_out);

    let (score, timed_out) = calculate_score(Score::full(), Some(10), 19_999);
    assert_eq!(score, Score { num: 1, den: 10_000 });
    assert!(timed_out);
}

#[test]
fn half_credit_at_one_and_a_half_limits() {
    let base = Score { num: 3, den: 4 };
    let (score, timed_out) = calculate_score(base, Some(10), 15_000);
    assert_eq!(score, Score { num: 15_000, den: 40_000 });
    assert_eq!(value(score), value(base) / 2.0);
    assert!(timed_out);
}

#[test]
fn nothing_left_from_twice_the_limit() {
    let base = Score { num: 3, den: 4 };
    assert_eq!(calculate_score(base, Some(10), 20_000), (Score::zero(), true));
    assert_eq!(calculate_score(base, Some(10), 20_001), (Score::zero(), true));
    assert_eq!(calculate_score(base, Some(10), u128::MAX), (Score::zero(), true));
}

#[test]
fn a_limit_of_zero_seconds() {
    let base = Score::full();
    assert_eq!(calculate_score(base, Some(0), 0), (base, false));
    assert_eq!(calculate_score(base, Some(0), 1), (Score::zero(), true));
}

#[test]
fn the_longest_limit_does_not_overflow() {
    let (score, timed_out) = calculate_score(Score::full(), Some(u64::MAX), 0);
    assert_eq!((score, timed_out), (Score::full(), false));
    let t = u64::MAX as u128 * 1000;
    let (score, timed_out) = calculate_score(Score::full(), Some(u64::MAX), t + t / 2);
    assert!(timed_out);
    assert_eq!(score.den, t);
    assert_eq!(score.num, t - t / 2);
}

#[test]
fn decay_of_no_credit_is_no_credit() {
    let (score, timed_out) = calculate_score(Score::zero(), Some(10), 15_000);
    assert!(score.is_zero());
    assert!(timed_out);
}

#[test]
fn greatest_common_divisor_values() {
    assert_eq!(greatest_common_divisor(12, 18), 6);
    assert_eq!(greatest_common_divisor(18, 12), 6);
    assert_eq!(greatest_common_divisor(7, 13), 1);
    assert_eq!(greatest_common_divisor(0, 5), 5);
    assert_eq!(greatest_common_divisor(5, 0), 5);
    assert_eq!(greatest_common_divisor(0, 0), 0);
    assert_eq!(greatest_common_divisor(u128::MAX, u128::MAX), u128::MAX);
}
