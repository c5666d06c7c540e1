use popquiz::error::QuizError;
use popquiz::question::{
    FlashcardQuestion, Question, QuestionCommon, ShortAnswerQuestion,
};
use popquiz::quiz::{Event, Quiz, Sitting, Step, TakeOptions};
use popquiz::results::{
    mean_score, mkresult, mkresultlist, percentage, QuestionResult, QuizResult,
};
use popquiz::score::{Percentage, Score};

fn s(text: &str) -> String {
    String::from(text)
}

fn common(id: &str) -> QuestionCommon {
    QuestionCommon { id: s(id), prior_results: Vec::new(), tags: Vec::new(), location: None }
}

fn short(text: &str, timeout: Option<u64>) -> Question {
    Question::ShortAnswer(ShortAnswerQuestion {
        text: s(text),
        answer: vec![s("yes")],
        timeout,
        common: common(text),
    })
}

fn card(front: &str, back: &str) -> Question {
    Question::Flashcard(FlashcardQuestion {
        front: vec![s(front)],
        back: vec![s(back)],
        front_context: Some(s("front side")),
        back_context: None,
        timeout: None,
        common: common(front),
    })
}

fn quiz() -> Quiz {
    Quiz {
        instructions: Some(s("Answer yes.")),
        questions: vec![short("one", None), card("two", "zwei"), short("three", Some(5)), short("four", None)],
    }
}

fn result(id: &str, score: Score) -> QuestionResult {
    mkresult(id, Some(s("yes")), score)
}

fn expect_ask(step: Step) -> (Sitting, usize, bool, bool) {
    match step {
        Step::Ask { sitting, question, first, warn_timed } => (sitting, question, first, warn_timed),
        other => panic!("expected to ask, got {:?}", other),
    }
}

fn expect_done(step: Step) -> QuizResult {
    match step {
        Step::Done(result) => result,
        other => panic!("expected to be done, got {:?}", other),
    }
}

#[test]
fn empty_selection_fails_the_sitting() {
    let mut quiz = quiz();
    let sitting = quiz.take(&TakeOptions { flip: false });
    assert!(!sitting.selected);
    match sitting.advance(&quiz, Event::Chosen(Vec::new())) {
        Step::Failed(error) => assert_eq!(error, QuizError::EmptyQuiz),
        other => panic!("expected EmptyQuiz, got {:?}", other),
    }
}

#[test]
fn take_flips_flashcards_in_reversed_mode() {
    let mut quiz = quiz();
    let _ = quiz.take(&TakeOptions { flip: true });
    assert_eq!(quiz.questions.len(), 4);
    assert_eq!(quiz.instructions, Some(s("Answer yes.")));
    match &quiz.questions[1] {
        Question::Flashcard(q) => {
            assert_eq!(q.front, vec![s("zwei")]);
            assert_eq!(q.back, vec![s("two")]);
            assert_eq!(q.front_context, None);
            assert_eq!(q.back_context, Some(s("front side")));
        }
        other => panic!("not a flashcard: {:?}", other),
    }
    assert_eq!(quiz.questions[0].get_text(), "one");
    assert_eq!(quiz.questions[2].get_text(), "three");
}

#[test]
fn take_leaves_the_quiz_alone_otherwise() {
    let mut quiz = quiz();
    let _ = quiz.take(&TakeOptions { flip: false });
    match &quiz.questions[1] {
        Question::Flashcard(q) => {
            assert_eq!(q.front, vec![s("two")]);
            assert_eq!(q.back, vec![s("zwei")]);
        }
        other => panic!("not a flashcard: {:?}", other),
    }
}

#[test]
fn questions_are_asked_in_the_chosen_order() {
    let mut quiz = quiz();
    let sitting = quiz.take(&TakeOptions { flip: false });
    let (sitting, question, first, warn_timed) =
        expect_ask(sitting.advance(&quiz, Event::Chosen(vec![3, 0, 1])));
    assert_eq!((question, first, warn_timed), (3, true, false));

    let (sitting, question, first, warn_timed) =
        expect_ask(sitting.advance(&quiz, Event::Answered(result("four", Score::full()))));
    assert_eq!((question, first, warn_timed), (0, false, false));

    let (sitting, question, first, warn_timed) =
        expect_ask(sitting.advance(&quiz, Event::Answered(result("one", Score::zero()))));
    assert_eq!((question, first, warn_timed), (1, false, false));

    let done = expect_done(sitting.advance(
        &quiz,
        Event::Answered(result("two", Score { num: 1, den: 2 })),
    ));
    assert_eq!(done.total, 3);
    assert_eq!(done.total_correct, 1);
    assert_eq!(done.total_partially_correct, 1);
    assert_eq!(done.total_incorrect, 1);
    assert_eq!(done.score, Some(Percentage { num: 300, den: 6 }));
    let ids: Vec<&str> = done.per_question.iter().map(|r| r.id.as_str()).collect();
    assert_eq!(ids, vec!["four", "one", "two"]);
    assert_eq!(done.per_question[2].score, Score { num: 1, den: 2 });
}

#[test]
fn a_timed_question_among_the_chosen_gives_a_warning() {
    let mut quiz = quiz();
    let sitting = quiz.take(&TakeOptions { flip: false });
    let (sitting, question, first, warn_timed) =
        expect_ask(sitting.advance(&quiz, Event::Chosen(vec![0, 2])));
    assert_eq!((question, first, warn_timed), (0, true, true));
    let (_, question, first, warn_timed) =
        expect_ask(sitting.advance(&quiz, Event::Answered(result("one", Score::full()))));
    assert_eq!((question, first, warn_timed), (2, false, false));

    let mut quiz = self::quiz();
    let sitting = quiz.take(&TakeOptions { flip: false });
    let (_, _, _, warn_timed) = expect_ask(sitting.advance(&quiz, Event::Chosen(vec![0, 1, 3])));
    assert!(!warn_timed);
}

#[test]
fn an_interruption_keeps_the_results_so_far() {
    let mut quiz = quiz();
    let sitting = quiz.take(&TakeOptions { flip: false });
    let (sitting, _, _, _) = expect_ask(sitting.advance(&quiz, Event::Chosen(vec![0, 1, 2, 3])));
    let (sitting, _, _, _) =
        expect_ask(sitting.advance(&quiz, Event::Answered(result("one", Score::full()))));
    let (sitting, question, _, _) =
        expect_ask(sitting.advance(&quiz, Event::Answered(result("two", Score::full()))));
    assert_eq!(question, 2);
    let done = expect_done(sitting.advance(&quiz, Event::Interrupted));
    assert_eq!(done.total, 2);
    assert_eq!(done.total_correct, 2);
    assert_eq!(done.total_partially_correct, 0);
    assert_eq!(done.total_incorrect, 0);
    assert_eq!(done.score, Some(Percentage { num: 200, den: 2 }));
    assert_eq!(done.per_question.len(), 2);
}

#[test]
fn an_interruption_at_the_first_question_gives_empty_results() {
    let mut quiz = quiz();
    let sitting = quiz.take(&TakeOptions { flip: false });
    let (sitting, _, _, _) = expect_ask(sitting.advance(&quiz, Event::Chosen(vec![0])));
    let done = expect_done(sitting.advance(&quiz, Event::Interrupted));
    assert_eq!(done.total, 0);
    assert_eq!(done.total_correct, 0);
    assert_eq!(done.total_incorrect, 0);
    assert_eq!(done.score, None);
    assert!(done.per_question.is_empty());
}

#[test]
fn any_other_failure_fails_the_sitting() {
    let mut quiz = quiz();
    let sitting = quiz.take(&TakeOptions { flip: false });
    let (sitting, _, _, _) = expect_ask(sitting.advance(&quiz, Event::Chosen(vec![0, 1])));
    let (sitting, _, _, _) =
        expect_ask(sitting.advance(&quiz, Event::Answered(result("one", Score::full()))));
    match sitting.advance(&quiz, Event::Failed(QuizError::Io(s("broken pipe")))) {
        Step::Failed(error) => assert_eq!(error, QuizError::Io(s("broken pipe"))),
        other => panic!("expected a failure, got {:?}", other),
    }
}

#[test]
fn the_same_question_may_be_chosen_twice() {
    let mut quiz = quiz();
    let sitting = quiz.take(&TakeOptions { flip: false });
    let (sitting, question, _, _) = expect_ask(sitting.advance(&quiz, Event::Chosen(vec![1, 1])));
    assert_eq!(question, 1);
    let (_, question, _, _) =
        expect_ask(sitting.advance(&quiz, Event::Answered(result("two", Score::zero()))));
    assert_eq!(question, 1);
}

#[test]
fn results_are_stamped_and_hold_what_they_are_given() {
    let before = chrono::Utc::now().naive_utc();
    let single = mkresult("id", Some(s("response")), Score { num: 1, den: 4 });
    let list = mkresultlist("list", vec![s("a"), s("b")], Score::full());
    let after = chrono::Utc::now().naive_utc();
    assert_eq!(single.id, "id");
    assert_eq!(single.response, Some(s("response")));
    assert_eq!(single.response_list, None);
    assert_eq!(single.score, Score { num: 1, den: 4 });
    assert!(before <= single.time_asked && single.time_asked <= after);
    assert_eq!(list.id, "list");
    assert_eq!(list.response, None);
    assert_eq!(list.response_list, Some(vec![s("a"), s("b")]));
    assert!(single.time_asked <= list.time_asked && list.time_asked <= after);
    let copy = single.clone();
    assert_eq!(copy.time_asked, single.time_asked);
    assert_eq!(copy.id, single.id);
}

#[test]
fn the_end_of_a_sitting_is_stamped() {
    let mut quiz = quiz();
    let before = chrono::Utc::now().naive_utc();
    let sitting = quiz.take(&TakeOptions { flip: false });
    let (sitting, _, _, _) = expect_ask(sitting.advance(&quiz, Event::Chosen(vec![0])));
    let done = expect_done(sitting.advance(&quiz, Event::Answered(result("one", Score::full()))));
    let after = chrono::Utc::now().naive_utc();
    assert!(done.per_question[0].time_asked <= done.time_finished);
    assert!(before <= done.time_finished && done.time_finished <= after);
}

#[test]
fn mean_of_no_results_is_none() {
    assert_eq!(mean_score(&Vec::new()), None);
}

#[test]
fn mean_is_exact() {
    let results = vec![
        result("a", Score { num: 2, den: 3 }),
        result("b", Score { num: 1, den: 3 }),
    ];
    assert_eq!(mean_score(&results), Some(Score { num: 3, den: 6 }));

    let results = vec![
        result("a", Score { num: 1, den: 4 }),
        result("b", Score { num: 1, den: 6 }),
        result("c", Score::full()),
    ];
    // 1/4 + 1/6 + 1 = 17/12, over three results
    assert_eq!(mean_score(&results), Some(Score { num: 17, den: 36 }));

    let results = vec![result("a", Score { num: 5_000, den: 10_000 })];
    assert_eq!(mean_score(&results), Some(Score { num: 5_000, den: 10_000 }));
}

#[test]
fn mean_beyond_what_can_be_held_is_none() {
    let large = (1u128 << 100) + 1;
    let results = vec![
        result("a", Score { num: 1, den: large }),
        result("b", Score { num: 1, den: large - 1 }),
    ];
    assert_eq!(mean_score(&results), None);
    let results = vec![
        result("a", Score { num: 1, den: u128::MAX }),
        result("b", Score { num: 1, den: u128::MAX }),
    ];
    assert_eq!(mean_score(&results), None);
    let results = vec![result("a", Score { num: 1, den: u128::MAX })];
    assert_eq!(mean_score(&results), Some(Score { num: 1, den: u128::MAX }));
}

#[test]
fn admits_tells_what_may_follow() {
    let mut quiz = quiz();
    let sitting = quiz.take(&TakeOptions { flip: false });
    assert!(sitting.admits(&quiz, &Event::Chosen(vec![0, 3])));
    assert!(sitting.admits(&quiz, &Event::Chosen(Vec::new())));
    assert!(!sitting.admits(&quiz, &Event::Chosen(vec![0, 4])));
    assert!(!sitting.admits(&quiz, &Event::Interrupted));
    assert!(!sitting.admits(&quiz, &Event::Answered(result("one", Score::full()))));
    assert!(quiz.names(&vec![3, 2, 1, 0, 0]));
    assert!(!quiz.names(&vec![4]));

    let (mut sitting, _, _, _) = expect_ask(sitting.advance(&quiz, Event::Chosen(vec![0, 3])));
    assert!(sitting.admits(&quiz, &Event::Answered(result("one", Score::full()))));
    assert!(sitting.admits(&quiz, &Event::Interrupted));
    assert!(sitting.admits(&quiz, &Event::Failed(QuizError::ReadlineInterrupted)));
    assert!(!sitting.admits(&quiz, &Event::Chosen(vec![0])));
    assert!(!sitting.admits(&quiz, &Event::Answered(result("one", Score { num: 2, den: 1 }))));
    assert!(!sitting.admits(&quiz, &Event::Answered(result("one", Score { num: 0, den: 0 }))));
    sitting.total_correct = 1;
    assert!(!sitting.admits(&quiz, &Event::Interrupted));
}

#[test]
fn percentage_is_a_hundred_times_the_mean() {
    assert_eq!(percentage(&Vec::new()), None);
    let results = vec![
        result("a", Score { num: 1, den: 4 }),
        result("b", Score { num: 1, den: 6 }),
        result("c", Score::full()),
    ];
    assert_eq!(percentage(&results), Some(Percentage { num: 1_700, den: 36 }));
    let results = vec![result("a", Score::full()), result("b", Score::full())];
    assert_eq!(percentage(&results), Some(Percentage { num: 200, den: 2 }));
    let results = vec![result("a", Score::zero())];
    assert_eq!(percentage(&results), Some(Percentage { num: 0, den: 1 }));
    let results = vec![result("a", Score { num: u128::MAX / 50, den: u128::MAX })];
    assert_eq!(mean_score(&results), Some(Score { num: u128::MAX / 50, den: u128::MAX }));
    assert_eq!(percentage(&results), None);
}
