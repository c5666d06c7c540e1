//! The five kinds of question and what they have in common.

use vstd::prelude::*;
use crate::results::QuestionResult;

verus! {

/// Equivalent spellings of one answer, such as "Mount Everest" and "Everest".
/// The first is the canonical one, used for display; all are accepted.
pub type Answer = Vec<String>;

/// Every answer of the list has at least one spelling.
pub open spec fn answers_nonempty(answers: Seq<Answer>) -> bool {
    forall|i: int| 0 <= i < answers.len() ==> (#[trigger] answers[i]).len() > 0
}

/// Whether every answer of the list has at least one spelling.
pub fn all_nonempty(answers: &Vec<Answer>) -> (b: bool)
    ensures
        b == answers_nonempty(answers@),
{
    let mut i: usize = 0;
    while i < answers.len()
        invariant
            i <= answers.len(),
            forall|j: int| 0 <= j < i ==> (#[trigger] answers[j]).len() > 0,
        decreases answers.len() - i,
    {
        if answers[i].len() == 0 {
            return false;
        }
        i += 1;
    }
    true
}

/// Where in its file a question was found.
#[derive(Debug, Clone, Copy, PartialEq, Eq, Structural)]
pub struct Location {
    /// Line number, counted from 1.
    pub line: usize,
}

/// What every kind of question carries.
#[derive(Debug, Clone)]
pub struct QuestionCommon {
    /// Stable identity, derived from the question's content; earlier results
    /// are kept under it.
    pub id: String,
    /// Results of earlier sittings.
    pub prior_results: Vec<QuestionResult>,
    pub tags: Vec<String>,
    pub location: Option<Location>,
}

impl QuestionCommon {
    /// The block with `results` as the earlier results.
    pub open spec fn with_history(self, results: Vec<QuestionResult>) -> QuestionCommon {
        QuestionCommon {
            id: self.id,
            prior_results: results,
            tags: self.tags,
            location: self.location,
        }
    }
}

/// A question with one short answer.
#[derive(Debug, Clone)]
pub struct ShortAnswerQuestion {
    pub text: String,
    pub answer: Answer,
    /// Seconds within which an answer earns full credit; up to twice as long
    /// it still earns a part.
    pub timeout: Option<u64>,
    pub common: QuestionCommon,
}

/// A card with two sides; the front is shown, the back is asked for.
#[derive(Debug, Clone)]
pub struct FlashcardQuestion {
    pub front: Answer,
    pub back: Answer,
    pub front_context: Option<String>,
    pub back_context: Option<String>,
    pub timeout: Option<u64>,
    pub common: QuestionCommon,
}

/// A question with several answers, accepted in any order.
#[derive(Debug, Clone)]
pub struct ListQuestion {
    pub text: String,
    pub answer_list: Vec<Answer>,
    /// Guesses that are acknowledged but count neither for nor against.
    pub no_credit: Vec<String>,
    pub common: QuestionCommon,
}

/// A question with several answers that must come in the given order.
#[derive(Debug, Clone)]
pub struct OrderedListQuestion {
    pub text: String,
    pub answer_list: Vec<Answer>,
    pub no_credit: Vec<String>,
    pub common: QuestionCommon,
}

/// A question answered by picking one of up to four options.
#[derive(Debug, Clone)]
pub struct MultipleChoiceQuestion {
    pub text: String,
    pub answer: Answer,
    /// The wrong options to draw from.
    pub choices: Vec<String>,
    pub timeout: Option<u64>,
    pub common: QuestionCommon,
}

impl ShortAnswerQuestion {
    /// The answer has at least one spelling.
    pub open spec fn wf(&self) -> bool {
        self.answer.len() > 0
    }

    /// Whether the question is well formed.
    pub fn is_valid(&self) -> (b: bool)
        ensures
            b == self.wf(),
    {
        self.answer.len() > 0
    }

    pub fn get_common(&self) -> (c: &QuestionCommon)
        ensures
            *c == self.common,
    {
        &self.common
    }

    /// The text shown as the question.
    pub fn get_text(&self) -> (t: String)
        ensures
            t@ == self.text@,
    {
        self.text.clone()
    }

    /// Whether answers are timed.
    pub fn timed(&self) -> (b: bool)
        ensures
            b == self.timeout is Some,
    {
        self.timeout.is_some()
    }
}

impl FlashcardQuestion {
    /// Both sides have at least one spelling.
    pub open spec fn wf(&self) -> bool {
        self.front.len() > 0 && self.back.len() > 0
    }

    /// Whether the card is well formed.
    pub fn is_valid(&self) -> (b: bool)
        ensures
            b == self.wf(),
    {
        self.front.len() > 0 && self.back.len() > 0
    }

    /// The card with its sides, and their contexts, exchanged.
    pub open spec fn flipped(self) -> FlashcardQuestion {
        FlashcardQuestion {
            front: self.back,
            back: self.front,
            front_context: self.back_context,
            back_context: self.front_context,
            timeout: self.timeout,
            common: self.common,
        }
    }

    pub fn get_common(&self) -> (c: &QuestionCommon)
        ensures
            *c == self.common,
    {
        &self.common
    }

    /// The canonical spelling of the front.
    pub fn get_text(&self) -> (t: String)
        requires
            self.wf(),
        ensures
            t@ == self.front[0]@,
    {
        self.front[0].clone()
    }

    /// Whether answers are timed.
    pub fn timed(&self) -> (b: bool)
        ensures
            b == self.timeout is Some,
    {
        self.timeout.is_some()
    }

    /// Exchanges front and back, and their contexts.
    pub fn flip(&mut self)
        ensures
            *final(self) == old(self).flipped(),
    {
        std::mem::swap(&mut self.front, &mut self.back);
        std::mem::swap(&mut self.front_context, &mut self.back_context);
    }
}

impl ListQuestion {
    /// There is at least one answer, and each has at least one spelling.
    pub open spec fn wf(&self) -> bool {
        self.answer_list.len() > 0 && answers_nonempty(self.answer_list@)
    }

    /// Whether the question is well formed.
    pub fn is_valid(&self) -> (b: bool)
        ensures
            b == self.wf(),
    {
        self.answer_list.len() > 0 && all_nonempty(&self.answer_list)
    }

    pub fn get_common(&self) -> (c: &QuestionCommon)
        ensures
            *c == self.common,
    {
        &self.common
    }

    /// The text shown as the question.
    pub fn get_text(&self) -> (t: String)
        ensures
            t@ == self.text@,
    {
        self.text.clone()
    }
}

impl OrderedListQuestion {
    /// There is at least one answer, and each has at least one spelling.
    pub open spec fn wf(&self) -> bool {
        self.answer_list.len() > 0 && answers_nonempty(self.answer_list@)
    }

    /// Whether the question is well formed.
    pub fn is_valid(&self) -> (b: bool)
        ensures
            b == self.wf(),
    {
        self.answer_list.len() > 0 && all_nonempty(&self.answer_list)
    }

    pub fn get_common(&self) -> (c: &QuestionCommon)
        ensures
            *c == self.common,
    {
        &self.common
    }

    /// The text shown as the question.
    pub fn get_text(&self) -> (t: String)
        ensures
            t@ == self.text@,
    {
        self.text.clone()
    }
}

impl MultipleChoiceQuestion {
    /// The answer has at least one spelling.
    pub open spec fn wf(&self) -> bool {
        self.answer.len() > 0
    }

    /// Whether the question is well formed.
    pub fn is_valid(&self) -> (b: bool)
        ensures
            b == self.wf(),
    {
        self.answer.len() > 0
    }

    pub fn get_common(&self) -> (c: &QuestionCommon)
        ensures
            *c == self.common,
    {
        &self.common
    }

    /// The text shown as the question.
    pub fn get_text(&self) -> (t: String)
        ensures
            t@ == self.text@,
    {
        self.text.clone()
    }

    /// Whether answers are timed.
    pub fn timed(&self) -> (b: bool)
        ensures
            b == self.timeout is Some,
    {
        self.timeout.is_some()
    }
}

/// A question of any kind.
#[derive(Debug, Clone)]
pub enum Question {
    ShortAnswer(ShortAnswerQuestion),
    Flashcard(FlashcardQuestion),
    List(ListQuestion),
    OrderedList(OrderedListQuestion),
    MultipleChoice(MultipleChoiceQuestion),
}

impl Question {
    /// The question inside is well formed.
    pub open spec fn wf(&self) -> bool {
        match self {
            Question::ShortAnswer(q) => q.wf(),
            Question::Flashcard(q) => q.wf(),
            Question::List(q) => q.wf(),
            Question::OrderedList(q) => q.wf(),
            Question::MultipleChoice(q) => q.wf(),
        }
    }

    /// The common block of the question inside.
    pub open spec fn common(&self) -> QuestionCommon {
        match self {
            Question::ShortAnswer(q) => q.common,
            Question::Flashcard(q) => q.common,
            Question::List(q) => q.common,
            Question::OrderedList(q) => q.common,
            Question::MultipleChoice(q) => q.common,
        }
    }

    /// The text that stands for the question: its prompt, or the canonical
    /// spelling of a card's front.
    pub open spec fn text(&self) -> Seq<char> {
        match self {
            Question::ShortAnswer(q) => q.text@,
            Question::Flashcard(q) => q.front[0]@,
            Question::List(q) => q.text@,
            Question::OrderedList(q) => q.text@,
            Question::MultipleChoice(q) => q.text@,
        }
    }

    /// The time limit, for the kinds that have one.
    pub open spec fn timeout(&self) -> Option<u64> {
        match self {
            Question::ShortAnswer(q) => q.timeout,
            Question::Flashcard(q) => q.timeout,
            Question::List(_) => None,
            Question::OrderedList(_) => None,
            Question::MultipleChoice(q) => q.timeout,
        }
    }

    /// A flashcard with its sides exchanged; any other question unchanged.
    pub open spec fn flipped(self) -> Question {
        match self {
            Question::Flashcard(q) => Question::Flashcard(q.flipped()),
            _ => self,
        }
    }

    /// Whether the question is well formed.
    pub fn is_valid(&self) -> (b: bool)
        ensures
            b == self.wf(),
    {
        match self {
            Question::ShortAnswer(q) => q.is_valid(),
            Question::Flashcard(q) => q.is_valid(),
            Question::List(q) => q.is_valid(),
            Question::OrderedList(q) => q.is_valid(),
            Question::MultipleChoice(q) => q.is_valid(),
        }
    }

    /// The question with `results` as its earlier results, and nothing else
    /// changed.
    pub open spec fn with_history(self, results: Vec<QuestionResult>) -> Question {
        match self {
            Question::ShortAnswer(q) => Question::ShortAnswer(
                ShortAnswerQuestion {
                    text: q.text,
                    answer: q.answer,
                    timeout: q.timeout,
                    common: q.common.with_history(results),
                },
            ),
            Question::Flashcard(q) => Question::Flashcard(
                FlashcardQuestion {
                    front: q.front,
                    back: q.back,
                    front_context: q.front_context,
                    back_context: q.back_context,
                    timeout: q.timeout,
                    common: q.common.with_history(results),
                },
            ),
            Question::List(q) => Question::List(
                ListQuestion {
                    text: q.text,
                    answer_list: q.answer_list,
                    no_credit: q.no_credit,
                    common: q.common.with_history(results),
                },
            ),
            Question::OrderedList(q) => Question::OrderedList(
                OrderedListQuestion {
                    text: q.text,
                    answer_list: q.answer_list,
                    no_credit: q.no_credit,
                    common: q.common.with_history(results),
                },
            ),
            Question::MultipleChoice(q) => Question::MultipleChoice(
                MultipleChoiceQuestion {
                    text: q.text,
                    answer: q.answer,
                    choices: q.choices,
                    timeout: q.timeout,
                    common: q.common.with_history(results),
                },
            ),
        }
    }

    /// Attaches the results of earlier sittings, in place of any that were
    /// attached before.
    pub fn attach_history(&mut self, results: Vec<QuestionResult>)
        ensures
            *final(self) == old(self).with_history(results),
    {
        match self {
            Question::ShortAnswer(q) => {
                q.common.prior_results = results;
            },
            Question::Flashcard(q) => {
                q.common.prior_results = results;
            },
            Question::List(q) => {
                q.common.prior_results = results;
            },
            Question::OrderedList(q) => {
                q.common.prior_results = results;
            },
            Question::MultipleChoice(q) => {
                q.common.prior_results = results;
            },
        }
    }

    pub fn get_common(&self) -> (c: &QuestionCommon)
        ensures
            *c == self.common(),
    {
        match self {
            Question::ShortAnswer(q) => q.get_common(),
            Question::Flashcard(q) => q.get_common(),
            Question::List(q) => q.get_common(),
            Question::OrderedList(q) => q.get_common(),
            Question::MultipleChoice(q) => q.get_common(),
        }
    }

    /// The text that stands for the question.
    pub fn get_text(&self) -> (t: String)
        requires
            self.wf(),
        ensures
            t@ == self.text(),
    {
        match self {
            Question::ShortAnswer(q) => q.get_text(),
            Question::Flashcard(q) => q.get_text(),
            Question::List(q) => q.get_text(),
            Question::OrderedList(q) => q.get_text(),
            Question::MultipleChoice(q) => q.get_text(),
        }
    }

    /// Whether answers are timed. List questions never are.
    pub fn timed(&self) -> (b: bool)
        ensures
            b == self.timeout() is Some,
    {
        match self {
            Question::ShortAnswer(q) => q.timed(),
            Question::Flashcard(q) => q.timed(),
            Question::List(_) => false,
            Question::OrderedList(_) => false,
            Question::MultipleChoice(q) => q.timed(),
        }
    }

    /// Flips a flashcard; leaves any other question as it is.
    pub fn flip(&mut self)
        ensures
            *final(self) == old(self).flipped(),
    {
        match self {
            Question::Flashcard(q) => q.flip(),
            Question::ShortAnswer(_) => {},
            Question::List(_) => {},
            Question::OrderedList(_) => {},
            Question::MultipleChoice(_) => {},
        }
    }
}

/// Flipping twice gives the question back.
pub proof fn law_flip_twice(q: Question)
    ensures
        q.flipped().flipped() == q,
{
}

/// Flipping keeps a question well formed, and changes neither its common
/// block nor its time limit.
pub proof fn law_flip_keeps(q: Question)
    ensures
        q.flipped().wf() == q.wf(),
        q.flipped().common() == q.common(),
        q.flipped().timeout() == q.timeout(),
{
}

} // verus!
