//! Asking a question with a single answer: a short answer or a flashcard.
//!
//! The caller shows the prompt, reads one response and measures the time it
//! took; what the response is worth is decided here.

use vstd::prelude::*;
use vstd::string::StringExecFns;
use crate::matching::{accepts, check};
use crate::question::{Answer, FlashcardQuestion, ShortAnswerQuestion};
use crate::results::{mkresult, QuestionResult, QuestionResultView};
use crate::score::{calculate_score, decay, Ratio, Score};

verus! {

/// What is said of one response.
#[derive(Debug, Clone, Copy, PartialEq, Eq, Structural)]
pub enum Verdict {
    /// It is right.
    Correct,
    /// It is wrong, or there was none.
    Incorrect,
    /// It is right, but was given before.
    Repeat,
    /// It is neither right nor wrong.
    NoCredit,
}

/// The outcome of a question with a single answer.
#[derive(Debug)]
pub struct Graded {
    pub result: QuestionResult,
    pub verdict: Verdict,
    /// The canonical answer, to be shown after a wrong response.
    pub expected: Option<String>,
    /// Whether the time limit was passed.
    pub timed_out: bool,
}

/// Whether `guess` answers a question whose answer is `answer`. No response
/// answers nothing.
pub open spec fn answered(answer: Seq<Seq<char>>, guess: Option<Seq<char>>) -> bool {
    guess matches Some(g) && accepts(answer, g)
}

/// The credit for a response that is right or wrong as `correct` says.
pub open spec fn credit(correct: bool) -> Ratio {
    if correct {
        Ratio::one()
    } else {
        Ratio::zero()
    }
}

/// The outcome that a question with the answer `answer` and the time limit
/// `timeout` owes to the response `guess`, given after `elapsed_ms`
/// milliseconds.
///
/// The response is right or wrong, and the credit for that decays with the
/// time taken. A wrong response is followed by the canonical answer.
pub open spec fn graded_as(
    graded: Graded,
    id: Seq<char>,
    answer: Seq<Seq<char>>,
    timeout: Option<u64>,
    guess: Option<Seq<char>>,
    elapsed_ms: int,
) -> bool {
    let correct = answered(answer, guess);
    &&& graded.verdict == (if correct {
        Verdict::Correct
    } else {
        Verdict::Incorrect
    })
    &&& graded.expected.deep_view() == (if correct {
        None
    } else {
        Some(answer[0])
    })
    &&& graded.timed_out == decay(credit(correct), timeout, elapsed_ms).1
    &&& graded.result@ == (QuestionResultView {
        id,
        response: guess,
        response_list: None,
        score: decay(credit(correct), timeout, elapsed_ms).0,
    })
    &&& graded.result.wf()
}

/// Grades one response against `answer`.
pub fn grade(
    id: &str,
    answer: &Answer,
    timeout: Option<u64>,
    guess: Option<String>,
    elapsed_ms: u128,
) -> (graded: Graded)
    requires
        answer.len() > 0,
    ensures
        graded_as(graded, id@, answer.deep_view(), timeout, guess.deep_view(), elapsed_ms as int),
{
    let correct = match &guess {
        Some(g) => check(answer, g.as_str()),
        None => false,
    };
    let base = Score::all_or_nothing(correct);
    let (score, timed_out) = calculate_score(base, timeout, elapsed_ms);
    let expected = if correct {
        None
    } else {
        Some(answer[0].clone())
    };
    Graded {
        result: mkresult(id, guess, score),
        verdict: if correct {
            Verdict::Correct
        } else {
            Verdict::Incorrect
        },
        expected,
        timed_out,
    }
}

impl ShortAnswerQuestion {
    /// Grades the response to this question.
    ///
    /// `guess` is what was read after the question's text was shown, if
    /// anything was; `elapsed_ms` is the time that took.
    pub fn ask(&self, guess: Option<String>, elapsed_ms: u128) -> (graded: Graded)
        requires
            self.wf(),
        ensures
            graded_as(
                graded,
                self.common.id@,
                self.answer.deep_view(),
                self.timeout,
                guess.deep_view(),
                elapsed_ms as int,
            ),
    {
        grade(self.common.id.as_str(), &self.answer, self.timeout, guess, elapsed_ms)
    }
}

impl FlashcardQuestion {
    /// What is shown of the front: its canonical spelling, followed by the
    /// context in square brackets if there is one.
    pub open spec fn prompt_text(&self) -> Seq<char> {
        match self.front_context {
            Some(context) => self.front[0]@ + " ["@ + context@ + "]"@,
            None => self.front[0]@,
        }
    }

    /// The text to show before the response is read.
    pub fn prompt(&self) -> (shown: String)
        requires
            self.wf(),
        ensures
            shown@ == self.prompt_text(),
    {
        let mut shown = self.front[0].clone();
        match &self.front_context {
            Some(context) => {
                shown.append(" [");
                shown.append(context.as_str());
                shown.append("]");
            },
            None => {},
        }
        shown
    }

    /// Grades the response to this card: the back is what is asked for.
    ///
    /// `guess` is what was read after the front was shown, if anything was;
    /// `elapsed_ms` is the time that took.
    pub fn ask(&self, guess: Option<String>, elapsed_ms: u128) -> (graded: Graded)
        requires
            self.wf(),
        ensures
            graded_as(
                graded,
                self.common.id@,
                self.back.deep_view(),
                self.timeout,
                guess.deep_view(),
                elapsed_ms as int,
            ),
    {
        grade(self.common.id.as_str(), &self.back, self.timeout, guess, elapsed_ms)
    }
}

} // verus!
