use popquiz::ask::{grade, Verdict};
use popquiz::error::{ParseError, ParseReason};
use popquiz::load::read_quiz;
use popquiz::parser::parse;
use popquiz::question::{
    FlashcardQuestion, Location, Question, QuestionCommon, ShortAnswerQuestion,
};
use popquiz::quiz::Quiz;
use popquiz::score::Score;

fn s(text: &str) -> String {
    String::from(text)
}

fn common(id: &str) -> QuestionCommon {
    QuestionCommon { id: s(id), prior_results: Vec::new(), tags: Vec::new(), location: None }
}

fn short(timeout: Option<u64>) -> ShortAnswerQuestion {
    ShortAnswerQuestion {
        text: s("What is 2+2?"),
        answer: vec![s("4"), s("four")],
        timeout,
        common: common("What is 2+2?"),
    }
}

fn card() -> FlashcardQuestion {
    FlashcardQuestion {
        front: vec![s("Capital of France"), s("France's capital")],
        back: vec![s("Paris"), s("Paris, France")],
        front_context: Some(s("geography")),
        back_context: None,
        timeout: None,
        common: common("Capital of France"),
    }
}

#[test]
fn short_answer_right_and_wrong() {
    let q = short(None);

    let right = q.ask(Some(s("Four")), 123_456);
    assert_eq!(right.verdict, Verdict::Correct);
    assert_eq!(right.expected, None);
    assert!(!right.timed_out);
    assert_eq!(right.result.score, Score::full());
    assert_eq!(right.result.id, "What is 2+2?");
    assert_eq!(right.result.response, Some(s("Four")));
    assert_eq!(right.result.response_list, None);

    let wrong = q.ask(Some(s("5")), 0);
    assert_eq!(wrong.verdict, Verdict::Incorrect);
    assert_eq!(wrong.expected, Some(s("4")));
    assert!(!wrong.timed_out);
    assert!(wrong.result.score.is_zero());
    assert_eq!(wrong.result.response, Some(s("5")));
}

#[test]
fn short_answer_without_response() {
    let graded = short(None).ask(None, 0);
    assert_eq!(graded.verdict, Verdict::Incorrect);
    assert_eq!(graded.expected, Some(s("4")));
    assert!(graded.result.score.is_zero());
    assert_eq!(graded.result.response, None);
    assert_eq!(graded.result.response_list, None);
}

#[test]
fn short_answer_under_a_time_limit() {
    let q = short(Some(10));

    let in_time = q.ask(Some(s("4")), 10_000);
    assert_eq!(in_time.result.score, Score::full());
    assert!(!in_time.timed_out);

    let late = q.ask(Some(s("4")), 15_000);
    assert_eq!(late.verdict, Verdict::Correct);
    assert_eq!(late.result.score, Score { num: 5_000, den: 10_000 });
    assert!(late.timed_out);

    let too_late = q.ask(Some(s("4")), 25_000);
    assert_eq!(too_late.verdict, Verdict::Correct);
    assert!(too_late.result.score.is_zero());
    assert!(too_late.timed_out);

    let wrong_and_late = q.ask(Some(s("5")), 15_000);
    assert_eq!(wrong_and_late.verdict, Verdict::Incorrect);
    assert!(wrong_and_late.result.score.is_zero());
    assert!(wrong_and_late.timed_out);
}

#[test]
fn grade_takes_the_first_spelling_as_canonical() {
    let answer = vec![s("Mount Everest"), s("Everest")];
    let graded = grade("id", &answer, None, Some(s("K2")), 0);
    assert_eq!(graded.expected, Some(s("Mount Everest")));
    let graded = grade("id", &answer, None, Some(s(" everest ")), 0);
    assert_eq!(graded.verdict, Verdict::Correct);
    assert_eq!(graded.result.id, "id");
}

#[test]
fn flashcard_prompt_and_text() {
    let mut q = card();
    assert_eq!(q.prompt(), "Capital of France [geography]");
    assert_eq!(q.get_text(), "Capital of France");
    q.front_context = None;
    assert_eq!(q.prompt(), "Capital of France");
}

#[test]
fn flashcard_asks_for_the_back() {
    let q = card();
    let right = q.ask(Some(s("paris, france")), 0);
    assert_eq!(right.verdict, Verdict::Correct);
    assert_eq!(right.result.score, Score::full());
    let wrong = q.ask(Some(s("Capital of France")), 0);
    assert_eq!(wrong.verdict, Verdict::Incorrect);
    assert_eq!(wrong.expected, Some(s("Paris")));
}

#[test]
fn flashcard_flip_exchanges_the_sides() {
    let mut q = card();
    q.flip();
    assert_eq!(q.front, vec![s("Paris"), s("Paris, France")]);
    assert_eq!(q.back, vec![s("Capital of France"), s("France's capital")]);
    assert_eq!(q.front_context, None);
    assert_eq!(q.back_context, Some(s("geography")));
    assert_eq!(q.prompt(), "Paris");
    assert_eq!(q.ask(Some(s("capital of france")), 0).verdict, Verdict::Correct);
    q.flip();
    assert_eq!(q.front, card().front);
    assert_eq!(q.back, card().back);
    assert_eq!(q.front_context, card().front_context);
    assert_eq!(q.back_context, card().back_context);
}

#[test]
fn flip_leaves_other_questions_alone() {
    let mut q = Question::ShortAnswer(short(Some(3)));
    q.flip();
    match q {
        Question::ShortAnswer(inner) => {
            assert_eq!(inner.text, "What is 2+2?");
            assert_eq!(inner.answer, vec![s("4"), s("four")]);
            assert_eq!(inner.timeout, Some(3));
        }
        _ => panic!("a short answer stays one"),
    }
}

#[test]
fn question_dispatch() {
    let q = Question::Flashcard(card());
    assert_eq!(q.get_text(), "Capital of France");
    assert_eq!(q.get_common().id, "Capital of France");
    assert!(!q.timed());
    let q = Question::ShortAnswer(short(Some(3)));
    assert_eq!(q.get_text(), "What is 2+2?");
    assert!(q.timed());
    assert!(!Question::ShortAnswer(short(None)).timed());
}

#[test]
fn end_to_end_short_answer() {
    let parsed = parse("q: What is 2+2?\na: 4/four\n").unwrap();
    assert_eq!(parsed.len(), 1);
    let quiz = Quiz::from_parsed(parsed);
    assert_eq!(quiz.instructions, None);
    assert_eq!(quiz.questions.len(), 1);
    match &quiz.questions[0] {
        Question::ShortAnswer(q) => {
            assert_eq!(q.text, "What is 2+2?");
            assert_eq!(q.answer, vec![s("4"), s("four")]);
            assert_eq!(q.timeout, None);
            assert_eq!(q.common.id, "What is 2+2?");
            assert_eq!(q.common.location, Some(Location { line: 1 }));
            assert!(q.common.tags.is_empty());
            assert!(q.common.prior_results.is_empty());
            let right = q.ask(Some(s("Four")), 1_000_000);
            assert_eq!(right.result.score, Score::full());
            assert!(right.result.score.is_full());
            let wrong = q.ask(Some(s("5")), 0);
            assert_eq!(wrong.result.score, Score::zero());
        }
        other => panic!("not a short answer: {:?}", other),
    }
}

#[test]
fn end_to_end_flashcard() {
    let parsed = parse("Capital of France: Paris/Paris, France\n- tag: geography\n").unwrap();
    let mut quiz = Quiz::from_parsed(parsed);
    match &mut quiz.questions[0] {
        Question::Flashcard(q) => {
            assert_eq!(q.front, vec![s("Capital of France")]);
            assert_eq!(q.back, vec![s("Paris"), s("Paris, France")]);
            assert_eq!(q.front_context, None);
            assert_eq!(q.back_context, None);
            assert_eq!(q.common.tags, vec![s("geography")]);
            q.flip();
            assert_eq!(q.front, vec![s("Paris"), s("Paris, France")]);
            assert_eq!(q.back, vec![s("Capital of France")]);
        }
        other => panic!("not a flashcard: {:?}", other),
    }
}

#[test]
fn every_kind_of_question_is_made() {
    let text = "q: many\na: x\na: y\n- no-credit: z\n\nq: in order\na: x\na: y\n- ordered: true\n\nq: pick\na: x\n- choice: y\n- timeout: 4\n- tag: t\n";
    let quiz = Quiz::from_parsed(parse(text).unwrap());
    assert_eq!(quiz.questions.len(), 3);
    match &quiz.questions[0] {
        Question::List(q) => {
            assert_eq!(q.text, "many");
            assert_eq!(q.answer_list, vec![vec![s("x")], vec![s("y")]]);
            assert_eq!(q.no_credit, vec![s("z")]);
            assert_eq!(q.common.location, Some(Location { line: 1 }));
        }
        other => panic!("not a list: {:?}", other),
    }
    match &quiz.questions[1] {
        Question::OrderedList(q) => {
            assert_eq!(q.text, "in order");
            assert_eq!(q.answer_list, vec![vec![s("x")], vec![s("y")]]);
            assert_eq!(q.common.id, "in order");
            assert_eq!(q.common.location, Some(Location { line: 6 }));
        }
        other => panic!("not an ordered list: {:?}", other),
    }
    match &quiz.questions[2] {
        Question::MultipleChoice(q) => {
            assert_eq!(q.text, "pick");
            assert_eq!(q.answer, vec![s("x")]);
            assert_eq!(q.choices, vec![s("y")]);
            assert_eq!(q.timeout, Some(4));
            assert_eq!(q.common.tags, vec![s("t")]);
        }
        other => panic!("not multiple choice: {:?}", other),
    }
    assert!(!quiz.questions[0].timed());
    assert!(!quiz.questions[1].timed());
    assert!(quiz.questions[2].timed());
}

#[test]
fn read_quiz_reads_and_converts() {
    let quiz = read_quiz("front: back\n- tag: t\n\nq: one\na: 1\n").unwrap();
    assert_eq!(quiz.questions.len(), 2);
    assert_eq!(quiz.questions[0].get_text(), "front");
    assert_eq!(quiz.questions[1].get_text(), "one");
    assert!(quiz.questions.iter().all(|q| q.is_valid()));
    match read_quiz("q: one\nbroken\n") {
        Err(e) => assert_eq!(e, ParseError { line: 2, reason: ParseReason::MissingColon }),
        Ok(_) => panic!("a broken file gives no quiz"),
    }
    let question = parse("front: back\n- tag: t\n").unwrap().remove(0).into_question();
    assert_eq!(question.get_text(), "front");
}

#[test]
fn validity_of_questions() {
    assert!(short(None).is_valid());
    let mut q = short(None);
    q.answer.clear();
    assert!(!q.is_valid());
    assert!(!Question::ShortAnswer(q).is_valid());

    assert!(card().is_valid());
    let mut q = card();
    q.front.clear();
    assert!(!q.is_valid());
    let mut q = card();
    q.back.clear();
    assert!(!q.is_valid());
    assert!(!Question::Flashcard(q).is_valid());
}

#[test]
fn history_is_attached() {
    let mut q = Question::Flashcard(card());
    assert!(q.get_common().prior_results.is_empty());
    let earlier = q_result("Capital of France");
    q.attach_history(vec![earlier]);
    assert_eq!(q.get_common().prior_results.len(), 1);
    assert_eq!(q.get_common().prior_results[0].response, Some(s("Paris")));
    assert_eq!(q.get_common().id, "Capital of France");
    assert_eq!(q.get_text(), "Capital of France");
    q.attach_history(Vec::new());
    assert!(q.get_common().prior_results.is_empty());
}

fn q_result(id: &str) -> popquiz::results::QuestionResult {
    popquiz::results::mkresult(id, Some(s("Paris")), Score::full())
}
