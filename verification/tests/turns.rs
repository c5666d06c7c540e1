use popquiz::ask::Verdict;
use popquiz::load::read_quiz;
use popquiz::question::Question;
use popquiz::score::Score;
use popquiz::turn::{Attempt, Reply};
use rand::rngs::StdRng;
use rand::SeedableRng;

fn s(text: &str) -> String {
    String::from(text)
}

fn questions() -> Vec<Question> {
    let text = "q: What is 2+2?\na: 4/four\n- timeout: 10\n\nCapital of France: Paris\n- tag: geography\n\nq: Primary colours?\na: red\na: green\na: blue\n- no-credit: yellow\n\nq: First two planets?\na: Mercury\na: Venus\n- ordered: true\n\nq: Largest planet?\na: Jupiter\n- choice: Mars\n- choice: Venus\n";
    read_quiz(text).unwrap().questions
}

/// Asks `question` of someone who gives `guesses` and then nothing more;
/// returns everything said on the way and the last reply.
fn run(question: &Question, guesses: &[&str]) -> (Vec<Verdict>, Reply) {
    let mut rng = StdRng::seed_from_u64(3);
    let opening = question.begin(&mut rng);
    let mut attempt = opening.attempt;
    let mut said = Vec::new();
    let mut coming = guesses.iter();
    loop {
        assert!(question.expects(&attempt));
        let guess = coming.next().map(|g| s(g));
        match question.ask(attempt, guess, 0) {
            Reply::Again { attempt: same } => attempt = same,
            Reply::Next { attempt: next, verdict, .. } => {
                said.push(verdict);
                attempt = next;
            }
            done => return (said, done),
        }
    }
}

#[test]
fn begin_gives_the_text_and_the_first_state() {
    let questions = questions();
    let mut rng = StdRng::seed_from_u64(3);

    let opening = questions[0].begin(&mut rng);
    assert_eq!(opening.prompt, "What is 2+2?");
    assert!(matches!(opening.attempt, Attempt::Single));

    let opening = questions[1].begin(&mut rng);
    assert_eq!(opening.prompt, "Capital of France");
    assert!(matches!(opening.attempt, Attempt::Single));

    let opening = questions[2].begin(&mut rng);
    assert_eq!(opening.prompt, "Primary colours?");
    match opening.attempt {
        Attempt::List(attempt) => assert_eq!(attempt.satisfied, vec![false, false, false]),
        other => panic!("not a list attempt: {:?}", other),
    }

    let opening = questions[3].begin(&mut rng);
    assert_eq!(opening.prompt, "First two planets?");
    match opening.attempt {
        Attempt::Ordered(attempt) => assert_eq!(attempt.position, 0),
        other => panic!("not an ordered attempt: {:?}", other),
    }

    let opening = questions[4].begin(&mut rng);
    assert_eq!(opening.prompt, "Largest planet?");
    match opening.attempt {
        Attempt::Choice(options) => {
            let mut shown = options.shown.clone();
            shown.sort();
            assert_eq!(shown, vec![s("Jupiter"), s("Mars"), s("Venus")]);
            assert_eq!(options.correct, "Jupiter");
        }
        other => panic!("not a choice: {:?}", other),
    }
}

#[test]
fn expects_the_attempt_of_its_own_kind() {
    let questions = questions();
    let mut rng = StdRng::seed_from_u64(3);
    for question in questions.iter() {
        let opening = question.begin(&mut rng);
        assert!(question.expects(&opening.attempt));
    }
    let list = questions[2].begin(&mut rng).attempt;
    assert!(!questions[0].expects(&list));
    assert!(!questions[3].expects(&list));
    assert!(!questions[4].expects(&list));
    assert!(!questions[2].expects(&Attempt::Single));
    assert!(!questions[3].expects(&Attempt::Single));
    assert!(!questions[4].expects(&Attempt::Single));
    let ordered = questions[3].begin(&mut rng).attempt;
    assert!(!questions[2].expects(&ordered));
}

#[test]
fn a_single_answer_is_done_after_one_response() {
    let questions = questions();
    let mut rng = StdRng::seed_from_u64(3);
    let opening = questions[0].begin(&mut rng);
    match questions[0].ask(opening.attempt, Some(s("FOUR")), 12_500) {
        Reply::Done { verdict, expected, missed, timed_out, result } => {
            assert_eq!(verdict, Verdict::Correct);
            assert_eq!(expected, None);
            assert!(missed.is_empty());
            assert!(timed_out);
            assert_eq!(result.score, Score { num: 7_500, den: 10_000 });
            assert_eq!(result.response, Some(s("FOUR")));
        }
        other => panic!("not done: {:?}", other),
    }
    let (said, done) = run(&questions[1], &["London"]);
    assert!(said.is_empty());
    match done {
        Reply::Done { verdict, expected, timed_out, result, .. } => {
            assert_eq!(verdict, Verdict::Incorrect);
            assert_eq!(expected, Some(s("Paris")));
            assert!(!timed_out);
            assert!(result.score.is_zero());
        }
        other => panic!("not done: {:?}", other),
    }
}

#[test]
fn a_list_goes_on_until_it_is_over() {
    let questions = questions();
    let (said, done) = run(&questions[2], &["red", "RED", "yellow", "purple", "blue", "green"]);
    assert_eq!(said, vec![Verdict::Correct, Verdict::Repeat, Verdict::NoCredit, Verdict::Incorrect]);
    match done {
        Reply::Done { verdict, expected, missed, timed_out, result } => {
            assert_eq!(verdict, Verdict::Correct);
            assert_eq!(expected, None);
            assert_eq!(missed, vec![s("green")]);
            assert!(!timed_out);
            assert_eq!(result.score, Score { num: 2, den: 3 });
            assert_eq!(
                result.response_list,
                Some(vec![s("red"), s("RED"), s("yellow"), s("purple"), s("blue")])
            );
        }
        other => panic!("not done: {:?}", other),
    }

    let (said, done) = run(&questions[2], &["red"]);
    assert_eq!(said, vec![Verdict::Correct]);
    match done {
        Reply::Done { verdict, missed, result, .. } => {
            assert_eq!(verdict, Verdict::Incorrect);
            assert_eq!(missed, vec![s("green"), s("blue")]);
            assert_eq!(result.score, Score { num: 1, den: 3 });
        }
        other => panic!("not done: {:?}", other),
    }
}

#[test]
fn an_ordered_list_goes_through_its_answers() {
    let questions = questions();
    let (said, done) = run(&questions[3], &["Venus", "Venus", "never read"]);
    assert_eq!(said, vec![Verdict::Incorrect]);
    match done {
        Reply::Done { verdict, expected, missed, timed_out, result } => {
            assert_eq!(verdict, Verdict::Correct);
            assert_eq!(expected, None);
            assert!(missed.is_empty());
            assert!(!timed_out);
            assert_eq!(result.score, Score { num: 1, den: 2 });
            assert_eq!(result.response_list, Some(vec![s("Venus"), s("Venus")]));
        }
        other => panic!("not done: {:?}", other),
    }
    let mut rng = StdRng::seed_from_u64(3);
    let opening = questions[3].begin(&mut rng);
    match questions[3].ask(opening.attempt, Some(s("Mars")), 0) {
        Reply::Next { verdict, expected, .. } => {
            assert_eq!(verdict, Verdict::Incorrect);
            assert_eq!(expected, Some(s("Mercury")));
        }
        other => panic!("not going on: {:?}", other),
    }
}

#[test]
fn a_multiple_choice_passes_over_what_names_no_option() {
    let questions = questions();
    let mut rng = StdRng::seed_from_u64(3);
    let opening = questions[4].begin(&mut rng);
    let shown = match &opening.attempt {
        Attempt::Choice(options) => options.shown.clone(),
        other => panic!("not a choice: {:?}", other),
    };
    let at = shown.iter().position(|text| text == "Jupiter").unwrap();
    let letter = ["a", "b", "c"][at];

    let attempt = match questions[4].ask(opening.attempt, Some(s("jupiter")), 0) {
        Reply::Again { attempt } => attempt,
        other => panic!("not asked again: {:?}", other),
    };
    let attempt = match questions[4].ask(attempt, Some(s("d")), 0) {
        Reply::Again { attempt } => attempt,
        other => panic!("not asked again: {:?}", other),
    };
    match questions[4].ask(attempt, Some(s(letter)), 0) {
        Reply::Done { verdict, expected, result, .. } => {
            assert_eq!(verdict, Verdict::Correct);
            assert_eq!(expected, None);
            assert_eq!(result.response, Some(s("Jupiter")));
            assert_eq!(result.score, Score::full());
        }
        other => panic!("not done: {:?}", other),
    }

    let (said, done) = run(&questions[4], &["x", "yy"]);
    assert!(said.is_empty());
    match done {
        Reply::Done { verdict, expected, result, .. } => {
            assert_eq!(verdict, Verdict::Incorrect);
            assert_eq!(expected, Some(s("Jupiter")));
            assert_eq!(result.response, None);
        }
        other => panic!("not done: {:?}", other),
    }
}
