//! Asking a question of any kind, one response at a time.
//!
//! The caller shows what [`Question::begin`] gives it, then reads a response
//! and hands it to [`Question::ask`], again and again until the reply is
//! [`Reply::Done`].

use vstd::prelude::*;
use crate::ask::{graded_as, Graded, Verdict};
use crate::choice::{choice_graded, Options};
use crate::list::{
    concluded,
    ordered_concluded,
    ListAttempt,
    ListOutcome,
    ListState,
    OrderedAttempt,
    OrderedState,
};
use crate::question::Question;
use crate::results::QuestionResult;

verus! {

/// How far the asking of one question has come.
#[derive(Debug)]
pub enum Attempt {
    /// A short answer or a flashcard: one response is awaited.
    Single,
    /// A list: some answers may be given already.
    List(ListAttempt),
    /// An ordered list: some answers may be gone through already.
    Ordered(OrderedAttempt),
    /// A multiple choice: these options were shown.
    Choice(Options),
}

/// What to show before the first response is read.
#[derive(Debug)]
pub struct Opening {
    /// The text of the question.
    pub prompt: String,
    /// The state to hand back with the first response. For a multiple
    /// choice it holds the options to show under the text.
    pub attempt: Attempt,
}

/// What follows a response.
#[derive(Debug)]
pub enum Reply {
    /// The response named no option: read another, and say nothing.
    Again { attempt: Attempt },
    /// Say what the response was, then read another.
    Next { attempt: Attempt, verdict: Verdict, expected: Option<String> },
    /// Say what the response was; the question is over.
    Done {
        verdict: Verdict,
        /// The canonical answer, to be shown after a wrong response.
        expected: Option<String>,
        /// The answers of a list that were not given.
        missed: Vec<String>,
        /// Whether the time limit was passed.
        timed_out: bool,
        result: QuestionResult,
    },
}

impl Question {
    /// The text shown as the question: for a flashcard its front with the
    /// context, for any other question its text.
    pub open spec fn prompt_text(&self) -> Seq<char> {
        match self {
            Question::Flashcard(q) => q.prompt_text(),
            _ => self.text(),
        }
    }

    /// `attempt` is an attempt at this question that awaits a response.
    pub open spec fn awaits(&self, attempt: &Attempt) -> bool {
        match self {
            Question::ShortAnswer(_) => attempt is Single,
            Question::Flashcard(_) => attempt is Single,
            Question::List(q) => attempt matches Attempt::List(a) && a.deep_view().fits(
                q.answer_list.len() as nat,
            ) && !a.deep_view().over(),
            Question::OrderedList(q) => attempt matches Attempt::Ordered(a) && a.deep_view().fits(
                q.answer_list.len() as nat,
            ) && !a.deep_view().over(q.answer_list.len() as nat),
            Question::MultipleChoice(_) => attempt is Choice,
        }
    }

    /// `attempt` is where the asking of this question starts.
    pub open spec fn opens_with(&self, attempt: &Attempt) -> bool {
        match self {
            Question::ShortAnswer(_) => attempt is Single,
            Question::Flashcard(_) => attempt is Single,
            Question::List(q) => attempt matches Attempt::List(a) && a.deep_view()
                == ListState::start(q.answer_list.len() as nat),
            Question::OrderedList(_) => attempt matches Attempt::Ordered(a) && a.deep_view()
                == OrderedState::start(),
            Question::MultipleChoice(q) => attempt matches Attempt::Choice(options)
                && options.drawn_from(q.answer.deep_view(), q.choices.deep_view()),
        }
    }

    /// `reply` is what the response `guess`, given after `elapsed_ms`
    /// milliseconds, gets at the state `attempt`.
    ///
    /// A single response to a short answer or a flashcard is graded, and the
    /// question is over. A response to a list is taken into the attempt; the
    /// question is over when the attempt is, and then names what was missed.
    /// A response to a multiple choice that names no option is passed over;
    /// any other is graded, and the question is over.
    pub open spec fn replies(
        &self,
        attempt: Attempt,
        guess: Option<Seq<char>>,
        elapsed_ms: int,
        reply: Reply,
    ) -> bool {
        match (*self, attempt) {
            (Question::ShortAnswer(q), Attempt::Single) => {
                &&& reply matches Reply::Done { verdict, expected, missed, timed_out, result }
                &&& missed.len() == 0
                &&& graded_as(
                    Graded { result, verdict, expected, timed_out },
                    q.common.id@,
                    q.answer.deep_view(),
                    q.timeout,
                    guess,
                    elapsed_ms,
                )
            },
            (Question::Flashcard(q), Attempt::Single) => {
                &&& reply matches Reply::Done { verdict, expected, missed, timed_out, result }
                &&& missed.len() == 0
                &&& graded_as(
                    Graded { result, verdict, expected, timed_out },
                    q.common.id@,
                    q.back.deep_view(),
                    q.timeout,
                    guess,
                    elapsed_ms,
                )
            },
            (Question::List(q), Attempt::List(a)) => {
                let after = a.deep_view().step(
                    q.answer_list.deep_view(),
                    q.no_credit.deep_view(),
                    guess,
                );
                if after.0.over() {
                    &&& reply matches Reply::Done { verdict, expected, missed, timed_out, result }
                    &&& verdict == after.1
                    &&& expected is None
                    &&& !timed_out
                    &&& concluded(
                        ListOutcome { result, missed },
                        q.common.id@,
                        q.answer_list.deep_view(),
                        after.0,
                    )
                } else {
                    &&& reply matches Reply::Next { attempt: Attempt::List(next), verdict, expected }
                    &&& next.deep_view() == after.0
                    &&& verdict == after.1
                    &&& expected is None
                }
            },
            (Question::OrderedList(q), Attempt::Ordered(a)) => {
                let after = a.deep_view().step(q.answer_list.deep_view(), guess);
                let due = if after.1 == Verdict::Correct {
                    None
                } else {
                    Some(q.answer_list.deep_view()[a.position as int][0])
                };
                if after.0.over(q.answer_list.len() as nat) {
                    &&& reply matches Reply::Done { verdict, expected, missed, timed_out, result }
                    &&& verdict == after.1
                    &&& expected.deep_view() == due
                    &&& missed.len() == 0
                    &&& !timed_out
                    &&& ordered_concluded(
                        result,
                        q.common.id@,
                        q.answer_list.len() as nat,
                        after.0,
                    )
                } else {
                    &&& reply matches Reply::Next {
                        attempt: Attempt::Ordered(next),
                        verdict,
                        expected,
                    }
                    &&& next.deep_view() == after.0
                    &&& verdict == after.1
                    &&& expected.deep_view() == due
                }
            },
            (Question::MultipleChoice(q), Attempt::Choice(options)) => match reply {
                Reply::Again { attempt: Attempt::Choice(same) } => same == options && choice_graded(
                    None,
                    q.common.id@,
                    q.answer.deep_view(),
                    q.timeout,
                    options,
                    guess,
                    elapsed_ms,
                ),
                Reply::Done { verdict, expected, missed, timed_out, result } => missed.len() == 0
                    && choice_graded(
                    Some(Graded { result, verdict, expected, timed_out }),
                    q.common.id@,
                    q.answer.deep_view(),
                    q.timeout,
                    options,
                    guess,
                    elapsed_ms,
                ),
                _ => false,
            },
            _ => false,
        }
    }

    /// Whether `attempt` is an attempt at this question that awaits a
    /// response.
    pub fn expects(&self, attempt: &Attempt) -> (b: bool)
        ensures
            b == self.awaits(attempt),
    {
        match self {
            Question::ShortAnswer(_) => match attempt {
                Attempt::Single => true,
                _ => false,
            },
            Question::Flashcard(_) => match attempt {
                Attempt::Single => true,
                _ => false,
            },
            Question::List(q) => match attempt {
                Attempt::List(a) => q.fits(a) && !a.is_over(),
                _ => false,
            },
            Question::OrderedList(q) => match attempt {
                Attempt::Ordered(a) => q.fits(a) && !q.is_over(a),
                _ => false,
            },
            Question::MultipleChoice(_) => match attempt {
                Attempt::Choice(_) => true,
                _ => false,
            },
        }
    }

    /// Starts the asking: gives the text to show and the state to hand back
    /// with the first response. For a multiple choice the options are drawn
    /// with `rng`.
    pub fn begin(&self, rng: &mut rand::rngs::StdRng) -> (opening: Opening)
        requires
            self.wf(),
        ensures
            opening.prompt@ == self.prompt_text(),
            self.opens_with(&opening.attempt),
            self.awaits(&opening.attempt),
    {
        match self {
            Question::ShortAnswer(q) => Opening { prompt: q.get_text(), attempt: Attempt::Single },
            Question::Flashcard(q) => Opening { prompt: q.prompt(), attempt: Attempt::Single },
            Question::List(q) => Opening {
                prompt: q.get_text(),
                attempt: Attempt::List(q.begin()),
            },
            Question::OrderedList(q) => Opening {
                prompt: q.get_text(),
                attempt: Attempt::Ordered(q.begin()),
            },
            Question::MultipleChoice(q) => Opening {
                prompt: q.get_text(),
                attempt: Attempt::Choice(q.draw(rng)),
            },
        }
    }

    /// Takes in the next response, or the fact that there is none, and says
    /// what follows. `elapsed_ms` is the time the response took.
    pub fn ask(&self, attempt: Attempt, guess: Option<String>, elapsed_ms: u128) -> (reply: Reply)
        requires
            self.wf(),
            self.awaits(&attempt),
        ensures
            self.replies(attempt, guess.deep_view(), elapsed_ms as int, reply),
            match reply {
                Reply::Again { attempt: next } => self.awaits(&next),
                Reply::Next { attempt: next, .. } => self.awaits(&next),
                Reply::Done { .. } => true,
            },
    {
        match self {
            Question::ShortAnswer(q) => {
                let graded = q.ask(guess, elapsed_ms);
                Reply::Done {
                    verdict: graded.verdict,
                    expected: graded.expected,
                    missed: Vec::new(),
                    timed_out: graded.timed_out,
                    result: graded.result,
                }
            },
            Question::Flashcard(q) => {
                let graded = q.ask(guess, elapsed_ms);
                Reply::Done {
                    verdict: graded.verdict,
                    expected: graded.expected,
                    missed: Vec::new(),
                    timed_out: graded.timed_out,
                    result: graded.result,
                }
            },
            Question::List(q) => match attempt {
                Attempt::List(a) => {
                    let mut a = a;
                    let verdict = q.hear(&mut a, guess);
                    if a.is_over() {
                        let outcome = q.conclude(a);
                        Reply::Done {
                            verdict,
                            expected: None,
                            missed: outcome.missed,
                            timed_out: false,
                            result: outcome.result,
                        }
                    } else {
                        Reply::Next { attempt: Attempt::List(a), verdict, expected: None }
                    }
                },
                _ => Reply::Again { attempt },
            },
            Question::OrderedList(q) => match attempt {
                Attempt::Ordered(a) => {
                    let mut a = a;
                    let heard = q.hear(&mut a, guess);
                    if q.is_over(&a) {
                        Reply::Done {
                            verdict: heard.verdict,
                            expected: heard.expected,
                            missed: Vec::new(),
                            timed_out: false,
                            result: q.conclude(a),
                        }
                    } else {
                        Reply::Next {
                            attempt: Attempt::Ordered(a),
                            verdict: heard.verdict,
                            expected: heard.expected,
                        }
                    }
                },
                _ => Reply::Again { attempt },
            },
            Question::MultipleChoice(q) => match attempt {
                Attempt::Choice(options) => match q.ask(&options, guess, elapsed_ms) {
                    Some(graded) => Reply::Done {
                        verdict: graded.verdict,
                        expected: graded.expected,
                        missed: Vec::new(),
                        timed_out: graded.timed_out,
                        result: graded.result,
                    },
                    None => Reply::Again { attempt: Attempt::Choice(options) },
                },
                _ => Reply::Again { attempt },
            },
        }
    }
}

} // verus!
