use popquiz::ask::Verdict;
use popquiz::list::{ListAttempt, OrderedAttempt};
use popquiz::question::{ListQuestion, OrderedListQuestion, QuestionCommon};
use popquiz::score::Score;

fn s(text: &str) -> String {
    String::from(text)
}

fn strings(texts: &[&str]) -> Vec<String> {
    texts.iter().map(|t| s(t)).collect()
}

fn common(id: &str) -> QuestionCommon {
    QuestionCommon { id: s(id), prior_results: Vec::new(), tags: Vec::new(), location: None }
}

fn colours() -> ListQuestion {
    ListQuestion {
        text: s("Primary colours?"),
        answer_list: vec![strings(&["Red", "rouge"]), strings(&["Green"]), strings(&["Blue"])],
        no_credit: strings(&["yellow", "Orange"]),
        common: common("colours"),
    }
}

fn planets() -> OrderedListQuestion {
    OrderedListQuestion {
        text: s("The first three planets?"),
        answer_list: vec![strings(&["Mercury"]), strings(&["Venus"]), strings(&["Earth", "Terra"])],
        no_credit: Vec::new(),
        common: common("planets"),
    }
}

#[test]
fn list_all_answers_in_any_order() {
    let outcome = colours().ask(&strings(&["blue", "ROUGE", " green "]));
    assert_eq!(outcome.result.score, Score { num: 3, den: 3 });
    assert!(outcome.result.score.is_full());
    assert!(outcome.missed.is_empty());
    assert_eq!(outcome.result.response, None);
    assert_eq!(outcome.result.response_list, Some(strings(&["blue", "ROUGE", " green "])));
    assert_eq!(outcome.result.id, "colours");
}

#[test]
fn list_repeats_and_no_credit_cost_nothing() {
    let guesses = strings(&["red", "red", "yellow", "Rouge", "blue", "orange", "yellow", "blue", "green", "never read"]);
    let outcome = colours().ask(&guesses);
    assert_eq!(outcome.result.score, Score { num: 3, den: 3 });
    assert!(outcome.missed.is_empty());
    assert_eq!(outcome.result.response_list, Some(guesses[..9].to_vec()));
}

#[test]
fn list_wrong_guesses_use_up_attempts() {
    let outcome = colours().ask(&strings(&["red", "purple", "green", "blue"]));
    assert_eq!(outcome.result.score, Score { num: 2, den: 3 });
    assert_eq!(outcome.missed, strings(&["Blue"]));
    assert_eq!(outcome.result.response_list, Some(strings(&["red", "purple", "green"])));

    let outcome = colours().ask(&strings(&["a", "b", "c", "red"]));
    assert_eq!(outcome.result.score, Score { num: 0, den: 3 });
    assert!(outcome.result.score.is_zero());
    assert_eq!(outcome.missed, strings(&["Red", "Green", "Blue"]));
}

#[test]
fn list_ends_when_responses_run_out() {
    let outcome = colours().ask(&strings(&["green"]));
    assert_eq!(outcome.result.score, Score { num: 1, den: 3 });
    assert_eq!(outcome.missed, strings(&["Red", "Blue"]));
    assert_eq!(outcome.result.response_list, Some(strings(&["green"])));

    let outcome = colours().ask(&Vec::new());
    assert_eq!(outcome.result.score, Score { num: 0, den: 3 });
    assert_eq!(outcome.result.response_list, Some(Vec::new()));
}

#[test]
fn list_answer_hidden_behind_an_earlier_one_is_never_given() {
    let q = ListQuestion {
        text: s("Twice the same"),
        answer_list: vec![strings(&["same"]), strings(&["Same"])],
        no_credit: Vec::new(),
        common: common("twice"),
    };
    let outcome = q.ask(&strings(&["same", "same", "same", "wrong", "same"]));
    assert_eq!(outcome.result.score, Score { num: 1, den: 2 });
    assert_eq!(outcome.missed, strings(&["Same"]));
    assert_eq!(outcome.result.response_list, Some(strings(&["same", "same", "same", "wrong"])));
}

#[test]
fn list_step_by_step() {
    let q = colours();
    let mut attempt: ListAttempt = q.begin();
    assert_eq!(attempt.satisfied, vec![false, false, false]);
    assert_eq!(attempt.count, 0);
    assert!(!attempt.exhausted);

    assert_eq!(q.hear(&mut attempt, Some(s("GREEN"))), Verdict::Correct);
    assert_eq!(attempt.satisfied, vec![false, true, false]);
    assert_eq!(attempt.count, 1);

    assert_eq!(q.hear(&mut attempt, Some(s("green"))), Verdict::Repeat);
    assert_eq!(attempt.satisfied, vec![false, true, false]);
    assert_eq!(attempt.count, 1);

    assert_eq!(q.hear(&mut attempt, Some(s("Yellow"))), Verdict::NoCredit);
    assert_eq!(attempt.count, 1);

    assert_eq!(q.hear(&mut attempt, Some(s("purple"))), Verdict::Incorrect);
    assert_eq!(attempt.satisfied, vec![false, true, false]);
    assert_eq!(attempt.count, 2);
    assert_eq!(attempt.responses, strings(&["GREEN", "green", "Yellow", "purple"]));

    assert_eq!(q.hear(&mut attempt, None), Verdict::Incorrect);
    assert!(attempt.exhausted);
    assert_eq!(attempt.count, 2);
    assert_eq!(attempt.responses.len(), 4);

    let outcome = q.conclude(attempt);
    assert_eq!(outcome.result.score, Score { num: 1, den: 3 });
    assert_eq!(outcome.missed, strings(&["Red", "Blue"]));
}

#[test]
fn list_an_answer_wins_over_a_no_credit_phrase() {
    let q = ListQuestion {
        text: s("One"),
        answer_list: vec![strings(&["one"])],
        no_credit: strings(&["one", "two"]),
        common: common("one"),
    };
    let mut attempt = q.begin();
    assert_eq!(q.hear(&mut attempt, Some(s("two"))), Verdict::NoCredit);
    assert_eq!(q.hear(&mut attempt, Some(s("one"))), Verdict::Correct);
    assert_eq!(attempt.count, 1);
}

#[test]
fn ordered_list_in_the_declared_order() {
    let result = planets().ask(&strings(&["mercury", "VENUS", "terra", "never read"]));
    assert_eq!(result.score, Score { num: 3, den: 3 });
    assert!(result.score.is_full());
    assert_eq!(result.response, None);
    assert_eq!(result.response_list, Some(strings(&["mercury", "VENUS", "terra"])));
    assert_eq!(result.id, "planets");
}

#[test]
fn ordered_list_a_mismatch_still_moves_on() {
    let result = planets().ask(&strings(&["mercury", "earth", "earth"]));
    assert_eq!(result.score, Score { num: 2, den: 3 });
    assert_eq!(result.response_list, Some(strings(&["mercury", "earth", "earth"])));

    let result = planets().ask(&strings(&["venus", "mercury", "earth"]));
    assert_eq!(result.score, Score { num: 1, den: 3 });

    let result = planets().ask(&strings(&["earth", "mercury", "venus"]));
    assert_eq!(result.score, Score { num: 0, den: 3 });
}

#[test]
fn ordered_list_ends_when_responses_run_out() {
    let result = planets().ask(&strings(&["mercury"]));
    assert_eq!(result.score, Score { num: 1, den: 3 });
    assert_eq!(result.response_list, Some(strings(&["mercury"])));
    let result = planets().ask(&Vec::new());
    assert_eq!(result.score, Score { num: 0, den: 3 });
}

#[test]
fn ordered_list_step_by_step() {
    let q = planets();
    let mut attempt: OrderedAttempt = q.begin();
    assert_eq!((attempt.position, attempt.ncorrect, attempt.exhausted), (0, 0, false));

    let heard = q.hear(&mut attempt, Some(s("Venus")));
    assert_eq!(heard.verdict, Verdict::Incorrect);
    assert_eq!(heard.expected, Some(s("Mercury")));
    assert_eq!((attempt.position, attempt.ncorrect), (1, 0));

    let heard = q.hear(&mut attempt, Some(s("Venus")));
    assert_eq!(heard.verdict, Verdict::Correct);
    assert_eq!(heard.expected, None);
    assert_eq!((attempt.position, attempt.ncorrect), (2, 1));

    let heard = q.hear(&mut attempt, None);
    assert_eq!(heard.verdict, Verdict::Incorrect);
    assert_eq!(heard.expected, Some(s("Earth")));
    assert_eq!((attempt.position, attempt.ncorrect, attempt.exhausted), (2, 1, true));
    assert_eq!(attempt.responses, strings(&["Venus", "Venus"]));

    let result = q.conclude(attempt);
    assert_eq!(result.score, Score { num: 1, den: 3 });
}

#[test]
fn list_questions_have_their_text() {
    assert_eq!(colours().get_text(), "Primary colours?");
    assert_eq!(colours().get_common().id, "colours");
    assert_eq!(planets().get_text(), "The first three planets?");
    assert_eq!(planets().get_common().id, "planets");
}

#[test]
fn list_attempts_know_when_they_are_over() {
    let q = colours();
    let mut attempt = q.begin();
    assert!(q.fits(&attempt));
    assert!(!attempt.is_over());
    q.hear(&mut attempt, Some(s("red")));
    q.hear(&mut attempt, Some(s("x")));
    assert!(!attempt.is_over());
    q.hear(&mut attempt, Some(s("y")));
    assert!(attempt.is_over());
    assert!(q.fits(&attempt));

    let mut attempt = q.begin();
    q.hear(&mut attempt, None);
    assert!(attempt.is_over());

    let mut attempt = q.begin();
    attempt.satisfied.pop();
    assert!(!q.fits(&attempt));
    let mut attempt = q.begin();
    attempt.count = 4;
    assert!(!q.fits(&attempt));
}

#[test]
fn ordered_attempts_know_when_they_are_over() {
    let q = planets();
    let mut attempt = q.begin();
    assert!(q.fits(&attempt));
    assert!(!q.is_over(&attempt));
    q.hear(&mut attempt, Some(s("mercury")));
    q.hear(&mut attempt, Some(s("x")));
    assert!(!q.is_over(&attempt));
    q.hear(&mut attempt, Some(s("y")));
    assert!(q.is_over(&attempt));
    assert!(q.fits(&attempt));

    let mut attempt = q.begin();
    q.hear(&mut attempt, None);
    assert!(q.is_over(&attempt));

    let mut attempt = q.begin();
    attempt.position = 4;
    assert!(!q.fits(&attempt));
    let mut attempt = q.begin();
    attempt.ncorrect = 1;
    assert!(!q.fits(&attempt));
}

#[test]
fn validity_of_list_questions() {
    assert!(colours().is_valid());
    assert!(planets().is_valid());
    let mut q = colours();
    q.answer_list[1].clear();
    assert!(!q.is_valid());
    let mut q = colours();
    q.answer_list.clear();
    assert!(!q.is_valid());
    let mut q = planets();
    q.answer_list[2].clear();
    assert!(!q.is_valid());
}
