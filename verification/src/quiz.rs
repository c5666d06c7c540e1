//! A whole quiz, and one sitting of it.
//!
//! Asking a question is the caller's business: it shows the prompt and reads
//! the response. What to ask next, and what becomes of each outcome, is
//! decided here. A sitting starts with [`Quiz::take`] and moves on with
//! [`Sitting::advance`], one event at a time, until it ends in a
//! [`QuizResult`] or in an error.

use vstd::prelude::*;
use crate::error::QuizError;
use crate::question::Question;
use crate::results::{
    count_full,
    count_partial,
    lemma_counts_bounded,
    percentage,
    result_views,
    scores_in_range,
    utc_now,
    QuestionResult,
    QuizResult,
};

verus! {

/// An entire quiz.
#[derive(Debug)]
pub struct Quiz {
    /// Shown once before the first question.
    pub instructions: Option<String>,
    pub questions: Vec<Question>,
}

/// How a quiz is to be taken.
#[derive(Debug, Clone, Copy, PartialEq, Eq, Structural)]
pub struct TakeOptions {
    /// Reversed mode: flashcards are asked back to front.
    pub flip: bool,
}

/// One sitting of a quiz, between two events.
#[derive(Debug)]
pub struct Sitting {
    /// Whether the questions to ask have been chosen.
    pub selected: bool,
    /// The questions to ask, in order, as positions in the quiz.
    pub order: Vec<usize>,
    /// The results so far, one for each question of `order` already answered.
    pub results: Vec<QuestionResult>,
    /// How many of `results` carry full credit.
    pub total_correct: usize,
    /// How many of `results` carry some credit, but not all.
    pub total_partially_correct: usize,
}

/// What happened since the sitting last said what to do.
#[derive(Debug)]
pub enum Event {
    /// The questions to ask were chosen: positions in the quiz, in the order
    /// in which to ask.
    Chosen(Vec<usize>),
    /// The question asked was answered.
    Answered(QuestionResult),
    /// The user broke off instead of answering.
    Interrupted,
    /// Asking failed otherwise.
    Failed(QuizError),
}

/// What is to be done next.
#[derive(Debug)]
pub enum Step {
    /// Ask the question at position `question` of the quiz, and come back
    /// with the outcome.
    Ask {
        sitting: Sitting,
        question: usize,
        /// This is the first question: show the quiz's instructions first.
        first: bool,
        /// Warn first that the quiz holds timed questions.
        warn_timed: bool,
    },
    /// The sitting is over; these are its results.
    Done(QuizResult),
    /// The sitting failed; its results are dropped.
    Failed(QuizError),
}

/// Some question of `quiz` that `order` names is timed.
pub open spec fn any_timed(questions: Seq<Question>, order: Seq<usize>) -> bool {
    exists|k: int|
        0 <= k < order.len() && (#[trigger] questions[order[k] as int]).timeout() is Some
}

/// Every position in `order` names a question of the quiz.
pub open spec fn in_range(order: Seq<usize>, len: nat) -> bool {
    forall|k: int| 0 <= k < order.len() ==> (#[trigger] order[k]) < len
}

/// The results of a sitting that ends with `results`.
pub open spec fn summed_up(result: QuizResult, results: Seq<QuestionResult>) -> bool {
    &&& result.per_question@ == results
    &&& result.wf()
}

impl Sitting {
    /// The counts agree with the results, and an unfinished sitting has a
    /// question left to ask.
    pub open spec fn wf(&self) -> bool {
        &&& self.total_correct == count_full(result_views(self.results@))
        &&& self.total_partially_correct == count_partial(result_views(self.results@))
        &&& scores_in_range(result_views(self.results@))
        &&& self.selected ==> self.results.len() < self.order.len()
        &&& !self.selected ==> self.results.len() == 0 && self.order.len() == 0
    }

    /// `event` is one that can follow in this state: a choice of questions
    /// of `quiz` while none is made, the outcome of asking afterwards.
    pub open spec fn expects(&self, quiz: &Quiz, event: &Event) -> bool {
        if self.selected {
            &&& !(event is Chosen)
            &&& in_range(self.order@, quiz.questions.len() as nat)
            &&& event matches Event::Answered(r) ==> r.score.wf()
        } else {
            event matches Event::Chosen(order) && in_range(order@, quiz.questions.len() as nat)
        }
    }

    /// Whether the sitting is well formed and `event` is one that can follow
    /// in its state: what [`Sitting::advance`] asks of its caller.
    pub fn admits(&self, quiz: &Quiz, event: &Event) -> (b: bool)
        ensures
            b == (self.wf() && self.expects(quiz, event)),
    {
        let ghost views = result_views(self.results@);
        let mut full: usize = 0;
        let mut partial: usize = 0;
        let mut i: usize = 0;
        assert(views.take(0) =~= Seq::empty());
        while i < self.results.len()
            invariant
                i <= self.results.len(),
                views == result_views(self.results@),
                full == count_full(views.take(i as int)),
                partial == count_partial(views.take(i as int)),
                full + partial <= i,
                scores_in_range(views.take(i as int)),
            decreases self.results.len() - i,
        {
            proof {
                assert(views.take(i + 1).drop_last() =~= views.take(i as int));
                assert(views.take(i + 1).last() == self.results[i as int]@);
            }
            let score = self.results[i].score;
            if score.den == 0 || score.num > score.den {
                assert(!views[i as int].score.in_unit_range());
                return false;
            }
            if score.is_full() {
                full += 1;
            } else if !score.is_zero() {
                partial += 1;
            }
            proof {
                assert forall|j: int| 0 <= j < i + 1 implies (#[trigger] views.take(
                    i + 1,
                )[j]).score.in_unit_range() by {
                    if j < i {
                        assert(views.take(i as int)[j] == views.take(i + 1)[j]);
                    }
                }
            }
            i += 1;
        }
        assert(views.take(i as int) =~= views);
        if full != self.total_correct || partial != self.total_partially_correct {
            return false;
        }
        if self.selected {
            if self.results.len() >= self.order.len() {
                return false;
            }
            let answer_fits = match event {
                Event::Chosen(_) => false,
                Event::Answered(r) => r.score.den > 0 && r.score.num <= r.score.den,
                Event::Interrupted => true,
                Event::Failed(_) => true,
            };
            answer_fits && quiz.names(&self.order)
        } else {
            if self.results.len() != 0 || self.order.len() != 0 {
                return false;
            }
            match event {
                Event::Chosen(order) => quiz.names(order),
                _ => false,
            }
        }
    }

    /// Closes the sitting over the results gathered so far, stamped with the
    /// present time.
    fn finish(self) -> (result: QuizResult)
        requires
            self.total_correct == count_full(result_views(self.results@)),
            self.total_partially_correct == count_partial(result_views(self.results@)),
            scores_in_range(result_views(self.results@)),
        ensures
            summed_up(result, self.results@),
    {
        let total = self.results.len();
        let score = percentage(&self.results);
        proof {
            lemma_counts_bounded(result_views(self.results@));
        }
        QuizResult {
            time_finished: utc_now(),
            total,
            total_correct: self.total_correct,
            total_partially_correct: self.total_partially_correct,
            total_incorrect: total - self.total_correct - self.total_partially_correct,
            score,
            per_question: self.results,
        }
    }

    /// Takes in `event` and says what to do next.
    ///
    /// - A choice of no question fails the sitting with `EmptyQuiz`. Any other
    ///   choice has its first question asked, with a warning if one of the
    ///   chosen questions is timed.
    /// - An answer is added to the results. The next chosen question is
    ///   asked; after the last one the sitting is done.
    /// - An interruption ends the sitting with the results so far.
    /// - Any other failure fails the sitting.
    pub fn advance(self, quiz: &Quiz, event: Event) -> (step: Step)
        requires
            self.wf(),
            self.expects(quiz, &event),
        ensures
            match event {
                Event::Chosen(order) => if order.len() == 0 {
                    step == Step::Failed(QuizError::EmptyQuiz)
                } else {
                    &&& step matches Step::Ask { sitting, question, first, warn_timed }
                    &&& sitting.selected
                    &&& sitting.order == order
                    &&& sitting.results@ == self.results@
                    &&& question == order[0]
                    &&& first
                    &&& warn_timed == any_timed(quiz.questions@, order@)
                },
                Event::Answered(r) => if self.results.len() + 1 < self.order.len() {
                    &&& step matches Step::Ask { sitting, question, first, warn_timed }
                    &&& sitting.selected
                    &&& sitting.order == self.order
                    &&& sitting.results@ == self.results@.push(r)
                    &&& question == self.order[self.results.len() + 1]
                    &&& !first
                    &&& !warn_timed
                } else {
                    &&& step matches Step::Done(result)
                    &&& summed_up(result, self.results@.push(r))
                },
                Event::Interrupted => {
                    &&& step matches Step::Done(result)
                    &&& summed_up(result, self.results@)
                },
                Event::Failed(e) => step == Step::Failed(e),
            },
            step matches Step::Ask { sitting, question, .. } ==> sitting.wf() && question
                < quiz.questions.len(),
    {
        match event {
            Event::Chosen(order) => {
                if order.len() == 0 {
                    return Step::Failed(QuizError::EmptyQuiz);
                }
                let mut warn_timed = false;
                let mut k: usize = 0;
                while k < order.len()
                    invariant
                        k <= order.len(),
                        in_range(order@, quiz.questions.len() as nat),
                        warn_timed == any_timed(quiz.questions@, order@.take(k as int)),
                    decreases order.len() - k,
                {
                    let timed = quiz.questions[order[k]].timed();
                    proof {
                        let before = order@.take(k as int);
                        let after = order@.take(k + 1);
                        if timed || warn_timed {
                            let w = if timed {
                                k as int
                            } else {
                                choose|w: int|
                                    0 <= w < before.len() && (#[trigger] quiz.questions@[before[w] as int]).timeout() is Some
                            };
                            assert(quiz.questions@[after[w] as int].timeout() is Some);
                        } else {
                            assert forall|w: int| 0 <= w < after.len() implies !((
                            #[trigger] quiz.questions@[after[w] as int]).timeout() is Some) by {
                                if w < k {
                                    assert(quiz.questions@[before[w] as int].timeout() is None);
                                }
                            }
                        }
                    }
                    warn_timed = warn_timed || timed;
                    k += 1;
                }
                assert(order@.take(order.len() as int) =~= order@);
                let question = order[0];
                let sitting = Sitting {
                    selected: true,
                    order,
                    results: self.results,
                    total_correct: self.total_correct,
                    total_partially_correct: self.total_partially_correct,
                };
                Step::Ask { sitting, question, first: true, warn_timed }
            },
            Event::Answered(r) => {
                let mut sitting = self;
                let ghost before = sitting.results@;
                let full = r.score.is_full();
                let some = !r.score.is_zero();
                sitting.results.push(r);
                proof {
                    let now = result_views(sitting.results@);
                    assert(now.drop_last() =~= result_views(before));
                    assert(now.last() == r@);
                    lemma_counts_bounded(now);
                    assert forall|i: int| 0 <= i < now.len() implies (
                    #[trigger] now[i]).score.in_unit_range() by {
                        if i < before.len() {
                            assert(now[i] == result_views(before)[i]);
                        }
                    }
                }
                if full {
                    sitting.total_correct += 1;
                } else if some {
                    sitting.total_partially_correct += 1;
                }
                if sitting.results.len() < sitting.order.len() {
                    let question = sitting.order[sitting.results.len()];
                    Step::Ask { sitting, question, first: false, warn_timed: false }
                } else {
                    Step::Done(sitting.finish())
                }
            },
            Event::Interrupted => Step::Done(self.finish()),
            Event::Failed(e) => Step::Failed(e),
        }
    }
}

impl Quiz {
    /// Whether every position in `order` names a question of the quiz.
    pub fn names(&self, order: &Vec<usize>) -> (b: bool)
        ensures
            b == in_range(order@, self.questions.len() as nat),
    {
        let mut k: usize = 0;
        while k < order.len()
            invariant
                k <= order.len(),
                forall|j: int| 0 <= j < k ==> (#[trigger] order[j]) < self.questions.len(),
            decreases order.len() - k,
        {
            if order[k] >= self.questions.len() {
                return false;
            }
            k += 1;
        }
        true
    }

    /// Opens a sitting. In reversed mode every flashcard is flipped first.
    ///
    /// The sitting returned waits for the choice of questions; the choice is
    /// made on the quiz as this call leaves it.
    pub fn take(&mut self, options: &TakeOptions) -> (sitting: Sitting)
        ensures
            final(self).instructions == old(self).instructions,
            final(self).questions.len() == old(self).questions.len(),
            forall|i: int|
                0 <= i < old(self).questions.len() ==> #[trigger] final(self).questions[i] == (
                if options.flip {
                    old(self).questions[i].flipped()
                } else {
                    old(self).questions[i]
                }),
            !sitting.selected,
            sitting.wf(),
    {
        if options.flip {
            let mut i: usize = 0;
            while i < self.questions.len()
                invariant
                    i <= self.questions.len(),
                    self.instructions == old(self).instructions,
                    self.questions.len() == old(self).questions.len(),
                    forall|j: int|
                        0 <= j < i ==> #[trigger] self.questions[j] == old(
                            self,
                        ).questions[j].flipped(),
                    forall|j: int|
                        i <= j < self.questions.len() ==> #[trigger] self.questions[j] == old(
                            self,
                        ).questions[j],
                decreases self.questions.len() - i,
            {
                self.questions[i].flip();
                i += 1;
            }
        }
        Sitting {
            selected: false,
            order: Vec::new(),
            results: Vec::new(),
            total_correct: 0,
            total_partially_correct: 0,
        }
    }
}

} // verus!
