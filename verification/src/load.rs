//! From what the parser read to a quiz that can be taken.

use vstd::prelude::*;
use crate::error::ParseError;
use crate::parser::{
    parse,
    parsed,
    QuestionV2,
    QuestionV2View,
    QuestionWrapper,
    QuestionWrapperView,
};
use crate::question::{
    FlashcardQuestion,
    ListQuestion,
    Location,
    MultipleChoiceQuestion,
    OrderedListQuestion,
    Question,
    QuestionCommon,
    ShortAnswerQuestion,
};
use crate::quiz::Quiz;
use crate::results::QuestionResult;

verus! {

impl QuestionWrapperView {
    /// The text by which the question is known: its first wording, or the
    /// front of a flashcard.
    pub open spec fn identity(self) -> Seq<char> {
        match self.question {
            QuestionV2View::ShortAnswer { text, .. } => text[0],
            QuestionV2View::Flashcard { top, .. } => top,
            QuestionV2View::List { text, .. } => text[0],
            QuestionV2View::MultipleChoice { text, .. } => text[0],
        }
    }
}

/// `common` is the common block of a question fresh from the file `w`: it
/// is known by its text, has the tags and the place that `w` gives, and no
/// earlier results.
pub open spec fn fresh_common(common: QuestionCommon, w: QuestionWrapperView) -> bool {
    &&& common.id@ == w.identity()
    &&& common.prior_results.len() == 0
    &&& common.tags.deep_view() == w.tags
    &&& common.location == Some(Location { line: w.line as usize })
}

/// `q` is the question that `w` describes.
///
/// The first wording is the text. A list whose answers must come in order
/// is an ordered list. A flashcard has the one spelling of its front that
/// the file gives, and no contexts.
pub open spec fn made_from(q: Question, w: QuestionWrapperView) -> bool {
    &&& fresh_common(q.common(), w)
    &&& q.wf()
    &&& match w.question {
        QuestionV2View::ShortAnswer { text, answer, timeout } => {
            &&& q matches Question::ShortAnswer(s)
            &&& s.text@ == text[0]
            &&& s.answer.deep_view() == answer
            &&& s.timeout == timeout
        },
        QuestionV2View::Flashcard { top, bottom, timeout } => {
            &&& q matches Question::Flashcard(f)
            &&& f.front.deep_view() == seq![top]
            &&& f.back.deep_view() == bottom
            &&& f.front_context is None
            &&& f.back_context is None
            &&& f.timeout == timeout
        },
        QuestionV2View::List { text, answers, ordered, no_credit } => if ordered {
            &&& q matches Question::OrderedList(l)
            &&& l.text@ == text[0]
            &&& l.answer_list.deep_view() == answers
            &&& l.no_credit.deep_view() == no_credit
        } else {
            &&& q matches Question::List(l)
            &&& l.text@ == text[0]
            &&& l.answer_list.deep_view() == answers
            &&& l.no_credit.deep_view() == no_credit
        },
        QuestionV2View::MultipleChoice { text, answer, choices, timeout } => {
            &&& q matches Question::MultipleChoice(m)
            &&& m.text@ == text[0]
            &&& m.answer.deep_view() == answer
            &&& m.choices.deep_view() == choices
            &&& m.timeout == timeout
        },
    }
}

impl QuestionWrapper {
    /// The question that can be asked.
    pub fn into_question(self) -> (q: Question)
        requires
            self.deep_view().complete(),
        ensures
            made_from(q, self.deep_view()),
    {
        let ghost w = self.deep_view();
        let location = Some(Location { line: self.line });
        let prior_results: Vec<QuestionResult> = Vec::new();
        let tags = self.tags;
        match self.question {
            QuestionV2::ShortAnswer { text, answer, timeout } => {
                assert(text.deep_view()[0] == text[0]@);
                let common = QuestionCommon { id: text[0].clone(), prior_results, tags, location };
                Question::ShortAnswer(
                    ShortAnswerQuestion { text: text[0].clone(), answer, timeout, common },
                )
            },
            QuestionV2::Flashcard { top, bottom, timeout } => {
                let common = QuestionCommon { id: top.clone(), prior_results, tags, location };
                let mut front: Vec<String> = Vec::new();
                front.push(top);
                assert(front.deep_view() =~= seq![top@]);
                Question::Flashcard(
                    FlashcardQuestion {
                        front,
                        back: bottom,
                        front_context: None,
                        back_context: None,
                        timeout,
                        common,
                    },
                )
            },
            QuestionV2::List { text, answers, ordered, no_credit } => {
                assert(text.deep_view()[0] == text[0]@);
                assert forall|i: int| 0 <= i < answers.len() implies (#[trigger] answers[i]).len()
                    > 0 by {
                    assert(answers.deep_view()[i].len() > 0);
                }
                let common = QuestionCommon { id: text[0].clone(), prior_results, tags, location };
                if ordered {
                    Question::OrderedList(
                        OrderedListQuestion {
                            text: text[0].clone(),
                            answer_list: answers,
                            no_credit,
                            common,
                        },
                    )
                } else {
                    Question::List(
                        ListQuestion {
                            text: text[0].clone(),
                            answer_list: answers,
                            no_credit,
                            common,
                        },
                    )
                }
            },
            QuestionV2::MultipleChoice { text, answer, choices, timeout } => {
                assert(text.deep_view()[0] == text[0]@);
                let common = QuestionCommon { id: text[0].clone(), prior_results, tags, location };
                Question::MultipleChoice(
                    MultipleChoiceQuestion { text: text[0].clone(), answer, choices, timeout, common },
                )
            },
        }
    }
}

impl Quiz {
    /// The quiz made of `parsed`, in that order, without instructions.
    pub fn from_parsed(parsed: Vec<QuestionWrapper>) -> (quiz: Quiz)
        requires
            forall|i: int| 0 <= i < parsed.len() ==> (#[trigger] parsed[i]).deep_view().complete(),
        ensures
            quiz.instructions is None,
            quiz.questions.len() == parsed.len(),
            forall|i: int|
                0 <= i < parsed.len() ==> made_from(
                    #[trigger] quiz.questions[i],
                    parsed[i].deep_view(),
                ),
    {
        let mut parsed = parsed;
        let ghost all = parsed@;
        let mut questions: Vec<Question> = Vec::new();
        while parsed.len() > 0
            invariant
                questions.len() + parsed.len() == all.len(),
                forall|i: int| 0 <= i < all.len() ==> (#[trigger] all[i]).deep_view().complete(),
                forall|i: int|
                    0 <= i < parsed.len() ==> #[trigger] parsed[i] == all[questions.len() + i],
                forall|i: int|
                    0 <= i < questions.len() ==> made_from(
                        #[trigger] questions[i],
                        all[i].deep_view(),
                    ),
            decreases parsed.len(),
        {
            let next = parsed.remove(0);
            questions.push(next.into_question());
        }
        Quiz { instructions: None, questions }
    }
}

/// Reads a quiz file into a quiz that can be taken.
///
/// The questions are those that the file describes, in order, each well
/// formed; a file with an error gives the error and no quiz.
pub fn read_quiz(text: &str) -> (r: Result<Quiz, ParseError>)
    ensures
        match r {
            Ok(quiz) => {
                &&& parsed(text@) matches Ok(questions)
                &&& quiz.instructions is None
                &&& quiz.questions.len() == questions.len()
                &&& forall|i: int|
                    0 <= i < questions.len() ==> made_from(
                        #[trigger] quiz.questions[i],
                        questions[i],
                    )
            },
            Err(e) => parsed(text@) == Err::<Seq<QuestionWrapperView>, ParseError>(e),
        },
{
    match parse(text) {
        Ok(questions) => {
            let ghost views = questions.deep_view();
            let quiz = Quiz::from_parsed(questions);
            assert forall|i: int| 0 <= i < views.len() implies made_from(
                #[trigger] quiz.questions[i],
                views[i],
            ) by {
                assert(views[i] == questions[i].deep_view());
            }
            Ok(quiz)
        },
        Err(e) => Err(e),
    }
}

} // verus!
