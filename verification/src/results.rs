//! What is recorded of one answered question, and of a whole sitting.

use vstd::prelude::*;
use crate::score::{
    greatest_common_divisor,
    lemma_plus,
    lemma_sums_agree,
    Percentage,
    Ratio,
    Score,
};

verus! {

/// `chrono::NaiveDateTime`: a date and time without a time zone. It is only
/// carried along; nothing here looks into it.
#[verifier::external_type_specification]
#[verifier::external_body]
pub struct ExNaiveDateTime(chrono::NaiveDateTime);

/// Copying a date and time.
///
/// `chrono::NaiveDateTime` derives `Clone` and `Copy`: the clone is the value
/// itself.
pub assume_specification[ <chrono::NaiveDateTime as Clone>::clone ](
    t: &chrono::NaiveDateTime,
) -> (r: chrono::NaiveDateTime)
    ensures
        r == *t,
;

/// The present moment in UTC.
///
/// Wraps `chrono::Utc::now`, and takes the date and time out of its result
/// with `DateTime::naive_utc`. Nothing is promised of the value: it is
/// whatever the system clock says. `chrono` panics where the clock stands
/// before 1970.
#[verifier::external_body]
pub(crate) fn utc_now() -> chrono::NaiveDateTime {
    chrono::Utc::now().naive_utc()
}

/// The outcome of asking one question on one occasion.
#[derive(Debug, Clone)]
pub struct QuestionResult {
    /// Identity of the question that was asked.
    pub id: String,
    /// When the answer was recorded (UTC).
    pub time_asked: chrono::NaiveDateTime,
    /// The response to a question that takes a single answer.
    pub response: Option<String>,
    /// The responses to a list question.
    pub response_list: Option<Vec<String>>,
    pub score: Score,
}

/// A [`QuestionResult`] without its time stamp, as plain text and numbers.
pub struct QuestionResultView {
    pub id: Seq<char>,
    pub response: Option<Seq<char>>,
    pub response_list: Option<Seq<Seq<char>>>,
    pub score: Ratio,
}

impl View for QuestionResult {
    type V = QuestionResultView;

    open spec fn view(&self) -> QuestionResultView {
        QuestionResultView {
            id: self.id@,
            response: self.response.deep_view(),
            response_list: self.response_list.deep_view(),
            score: self.score@,
        }
    }
}

impl QuestionResult {
    /// The score is a fraction in `[0, 1]`, and a single response and a list
    /// of responses never stand together.
    pub open spec fn wf(&self) -> bool {
        &&& self.score.wf()
        &&& !(self.response is Some && self.response_list is Some)
    }
}

/// The views of a sequence of results.
pub open spec fn result_views(results: Seq<QuestionResult>) -> Seq<QuestionResultView> {
    Seq::new(results.len(), |i: int| results[i]@)
}

/// Records the result of a question that takes a single answer, stamped with
/// the present time.
pub fn mkresult(id: &str, response: Option<String>, score: Score) -> (r: QuestionResult)
    ensures
        r@ == (QuestionResultView {
            id: id@,
            response: response.deep_view(),
            response_list: None,
            score: score@,
        }),
        r.score == score,
        r.response == response,
        score.wf() ==> r.wf(),
{
    QuestionResult {
        id: id.to_owned(),
        time_asked: utc_now(),
        score,
        response,
        response_list: None,
    }
}

/// Records the result of a list question, stamped with the present time.
pub fn mkresultlist(id: &str, responses: Vec<String>, score: Score) -> (r: QuestionResult)
    ensures
        r@ == (QuestionResultView {
            id: id@,
            response: None,
            response_list: Some(responses.deep_view()),
            score: score@,
        }),
        r.score == score,
        r.response_list == Some(responses),
        score.wf() ==> r.wf(),
{
    QuestionResult {
        id: id.to_owned(),
        time_asked: utc_now(),
        score,
        response: None,
        response_list: Some(responses),
    }
}

/// How many of `scores` carry full credit.
pub open spec fn count_full(results: Seq<QuestionResultView>) -> nat
    decreases results.len(),
{
    if results.len() == 0 {
        0
    } else {
        count_full(results.drop_last()) + if results.last().score.num
            == results.last().score.den {
            1nat
        } else {
            0nat
        }
    }
}

/// How many of `results` carry some credit, but not all of it.
pub open spec fn count_partial(results: Seq<QuestionResultView>) -> nat
    decreases results.len(),
{
    if results.len() == 0 {
        0
    } else {
        count_partial(results.drop_last()) + if results.last().score.num
            != results.last().score.den && results.last().score.num > 0 {
            1nat
        } else {
            0nat
        }
    }
}

/// The scores of `results`, added up exactly.
pub open spec fn total_credit(results: Seq<QuestionResultView>) -> Ratio
    decreases results.len(),
{
    if results.len() == 0 {
        Ratio::zero()
    } else {
        total_credit(results.drop_last()).plus(results.last().score)
    }
}

/// The mean of the scores of `results`: their sum over their number.
///
/// There is none for no results, and none where the denominator that the
/// scores have in common, times their number, is beyond `u128`.
pub open spec fn mean_of(results: Seq<QuestionResultView>) -> Option<Ratio> {
    let sum = total_credit(results);
    if results.len() > 0 && sum.den * results.len() <= u128::MAX {
        Some(Ratio { num: sum.num, den: sum.den * results.len() })
    } else {
        None
    }
}

/// The mean of the scores of `results` as a percentage: a hundred times the
/// mean.
///
/// There is none where there is no mean, and none where a hundred times its
/// numerator is beyond `u128`.
pub open spec fn percentage_of(results: Seq<QuestionResultView>) -> Option<Ratio> {
    match mean_of(results) {
        Some(mean) => if 100 * mean.num <= u128::MAX {
            Some(Ratio { num: 100 * mean.num, den: mean.den })
        } else {
            None
        },
        None => None,
    }
}

/// The value of a percentage that may be missing.
pub open spec fn percentage_view(percentage: Option<Percentage>) -> Option<Ratio> {
    match percentage {
        Some(p) => Some(p@),
        None => None,
    }
}

/// The scores of `results`, added up with the product of all denominators
/// as the common one.
pub open spec fn plain_sum(results: Seq<QuestionResultView>) -> Ratio
    decreases results.len(),
{
    if results.len() == 0 {
        Ratio::zero()
    } else {
        Ratio {
            num: plain_sum(results.drop_last()).num * results.last().score.den
                + results.last().score.num * plain_sum(results.drop_last()).den,
            den: plain_sum(results.drop_last()).den * results.last().score.den,
        }
    }
}

/// Every score of `results` is a fraction in `[0, 1]`.
pub open spec fn scores_in_range(results: Seq<QuestionResultView>) -> bool {
    forall|i: int| 0 <= i < results.len() ==> (#[trigger] results[i]).score.in_unit_range()
}

/// The value of a score that may be missing.
pub open spec fn score_view(score: Option<Score>) -> Option<Ratio> {
    match score {
        Some(s) => Some(s@),
        None => None,
    }
}

/// The exact sum has a positive denominator, is the plain sum as a number,
/// and is no more than the number of results.
pub proof fn lemma_total_credit(results: Seq<QuestionResultView>)
    requires
        scores_in_range(results),
    ensures
        total_credit(results).den > 0,
        plain_sum(results).den > 0,
        0 <= total_credit(results).num <= results.len() * total_credit(results).den,
        total_credit(results).same_value(plain_sum(results)),
    decreases results.len(),
{
    if results.len() > 0 {
        let before = results.drop_last();
        let x = results.last().score;
        assert(scores_in_range(before)) by {
            assert forall|i: int| 0 <= i < before.len() implies (
            #[trigger] before[i]).score.in_unit_range() by {
                assert(before[i] == results[i]);
            }
        }
        lemma_total_credit(before);
        let t = total_credit(before);
        let s = plain_sum(before);
        lemma_plus(t, x);
        let t2 = total_credit(results);
        let s2 = plain_sum(results);
        let m = Ratio { num: t.num * x.den + x.num * t.den, den: t.den * x.den };
        let g = crate::score::gcd(t.den as nat, x.den as nat) as int;
        let left = x.den / g;
        let right = t.den / g;
        assert(s2.den > 0) by (nonlinear_arith)
            requires
                s2.den == s.den * x.den,
                s.den > 0,
                x.den > 0,
        ;
        assert(m.den > 0) by (nonlinear_arith)
            requires
                m.den == t.den * x.den,
                t.den > 0,
                x.den > 0,
        ;
        assert(0 <= t2.num <= results.len() * t2.den) by (nonlinear_arith)
            requires
                t2.num == t.num * left + x.num * right,
                t2.den == t.den * left,
                t2.den == x.den * right,
                0 <= t.num <= before.len() * t.den,
                0 <= x.num <= x.den,
                left >= 1,
                right >= 1,
                results.len() == before.len() + 1,
        ;
        lemma_sums_agree(t, s, x);
        assert(m.num * s2.den == s2.num * m.den);
        assert(t2.num * s2.den == s2.num * t2.den) by (nonlinear_arith)
            requires
                t2.num * m.den == m.num * t2.den,
                m.num * s2.den == s2.num * m.den,
                m.den > 0,
        ;
    }
}

/// The denominator of the exact sum only grows as results are added.
pub proof fn lemma_total_credit_grows(results: Seq<QuestionResultView>, k: int)
    requires
        scores_in_range(results),
        0 <= k <= results.len(),
    ensures
        0 < total_credit(results.take(k)).den <= total_credit(results).den,
    decreases results.len() - k,
{
    assert(scores_in_range(results.take(k))) by {
        assert forall|i: int| 0 <= i < k implies (#[trigger] results.take(k)[i]).score.in_unit_range() by {
            assert(results.take(k)[i] == results[i]);
        }
    }
    lemma_total_credit(results.take(k));
    if k < results.len() {
        assert(results.take(k + 1).drop_last() =~= results.take(k));
        lemma_plus(total_credit(results.take(k)), results[k].score);
        lemma_total_credit_grows(results, k + 1);
    } else {
        assert(results.take(k) =~= results);
    }
}

/// The mean, where there is one, is the sum of the scores as numbers over
/// their count, and lies in `[0, 1]`.
pub proof fn law_mean_value(results: Seq<QuestionResultView>)
    requires
        scores_in_range(results),
        mean_of(results) is Some,
    ensures
        mean_of(results)->Some_0.same_value(
            Ratio { num: plain_sum(results).num, den: plain_sum(results).den * results.len() },
        ),
        mean_of(results)->Some_0.in_unit_range(),
{
    lemma_total_credit(results);
    let t = total_credit(results);
    let s = plain_sum(results);
    let n = results.len() as int;
    assert(t.num * (s.den * n) == s.num * (t.den * n)) by (nonlinear_arith)
        requires
            t.num * s.den == s.num * t.den,
    ;
    assert(0 < t.den * n) by (nonlinear_arith)
        requires
            t.den > 0,
            n > 0,
    ;
    assert(n * t.den == t.den * n) by (nonlinear_arith);
}

/// The mean of the scores of `results`.
pub fn mean_score(results: &Vec<QuestionResult>) -> (mean: Option<Score>)
    requires
        scores_in_range(result_views(results@)),
    ensures
        score_view(mean) == mean_of(result_views(results@)),
        mean matches Some(m) ==> m.wf(),
{
    let n = results.len();
    let ghost views = result_views(results@);
    if n == 0 {
        return None;
    }
    let mut num: u128 = 0;
    let mut den: u128 = 1;
    let mut i: usize = 0;
    assert(views.take(0) =~= Seq::empty());
    while i < n
        invariant
            i <= n,
            0 < n == results.len(),
            views == result_views(results@),
            scores_in_range(views),
            num == total_credit(views.take(i as int)).num,
            den == total_credit(views.take(i as int)).den,
            0 < den,
            num <= i * den,
            den * n <= u128::MAX,
        decreases n - i,
    {
        let x = results[i].score;
        let g = greatest_common_divisor(den, x.den);
        proof {
            assert(views.take(i + 1).drop_last() =~= views.take(i as int));
            assert(views.take(i + 1).last() == views[i as int]);
            assert(views[i as int].score == x@);
            lemma_plus(total_credit(views.take(i as int)), x@);
            lemma_total_credit_grows(views, i + 1);
            crate::score::lemma_gcd_divides(den as nat, x.den as nat);
        }
        let left: u128 = x.den / g;
        let right: u128 = den / g;
        let ghost next = total_credit(views.take(i + 1));
        assert(next.den == den * left);
        let scaled = match den.checked_mul(left) {
            Some(d) => d.checked_mul(n as u128),
            None => None,
        };
        if scaled.is_none() {
            proof {
                assert(next.den * n > u128::MAX) by (nonlinear_arith)
                    requires
                        next.den > u128::MAX || next.den * n > u128::MAX,
                        n >= 1,
                        next.den > 0,
                ;
                assert(total_credit(views).den * n >= next.den * n) by (nonlinear_arith)
                    requires
                        total_credit(views).den >= next.den,
                        n >= 1,
                ;
            }
            return None;
        }
        proof {
            assert(num * left + x.num * right <= (i + 1) * (den * left)) by (nonlinear_arith)
                requires
                    num <= i * den,
                    x.num <= x.den,
                    den * left == x.den * right,
                    left >= 1,
                    right >= 1,
            ;
            assert((i + 1) * (den * left) <= (den * left) * n) by (nonlinear_arith)
                requires
                    i + 1 <= n,
                    den * left > 0,
            ;
            assert(num * left <= num * left + x.num * right) by (nonlinear_arith)
                requires
                    x.num >= 0,
                    right >= 1,
            ;
            assert(x.num * right <= num * left + x.num * right) by (nonlinear_arith)
                requires
                    num >= 0,
                    left >= 1,
            ;
        }
        num = num * left + x.num * right;
        den = den * left;
        i += 1;
    }
    proof {
        assert(views.take(n as int) =~= views);
        assert(num <= den * n && 0 < den * n) by (nonlinear_arith)
            requires
                num <= n * den,
                0 < den,
                0 < n,
        ;
    }
    Some(Score { num, den: den * (n as u128) })
}

/// The mean of the scores of `results`, as a percentage.
pub fn percentage(results: &Vec<QuestionResult>) -> (percent: Option<Percentage>)
    requires
        scores_in_range(result_views(results@)),
    ensures
        percentage_view(percent) == percentage_of(result_views(results@)),
        percent matches Some(p) ==> p.wf(),
{
    match mean_score(results) {
        Some(mean) => match mean.num.checked_mul(100) {
            Some(num) => Some(Percentage { num, den: mean.den }),
            None => None,
        },
        None => None,
    }
}

/// The results of one sitting.
#[derive(Debug)]
pub struct QuizResult {
    /// When the sitting ended (UTC).
    pub time_finished: chrono::NaiveDateTime,
    /// Number of questions answered.
    pub total: usize,
    /// Answers with full credit.
    pub total_correct: usize,
    /// Answers with some credit, but not all.
    pub total_partially_correct: usize,
    /// Answers with no credit.
    pub total_incorrect: usize,
    /// The mean of the scores, as a percentage. There is none where
    /// nothing was answered, nor where the fraction cannot be held exactly.
    pub score: Option<Percentage>,
    /// One result per answered question, in the order asked.
    pub per_question: Vec<QuestionResult>,
}

impl QuizResult {
    /// The counts and the mean are those of `per_question`.
    pub open spec fn wf(&self) -> bool {
        &&& self.total == self.per_question.len()
        &&& self.total_correct == count_full(result_views(self.per_question@))
        &&& self.total_partially_correct == count_partial(result_views(self.per_question@))
        &&& self.total_incorrect == self.total - self.total_correct
            - self.total_partially_correct
        &&& percentage_view(self.score) == percentage_of(result_views(self.per_question@))
    }
}

/// Full and partial answers are never more than all answers.
pub proof fn lemma_counts_bounded(results: Seq<QuestionResultView>)
    ensures
        count_full(results) + count_partial(results) <= results.len(),
    decreases results.len(),
{
    if results.len() > 0 {
        lemma_counts_bounded(results.drop_last());
    }
}

} // verus!
