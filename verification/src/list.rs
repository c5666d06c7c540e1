//! Asking a question with several answers, in any order or in a fixed one.
//!
//! Such a question takes one response after another. The caller reads them;
//! each is handed to `hear`, which says what to answer and keeps the state
//! of the attempt, until the attempt is over and `conclude` closes it. `ask`
//! does all of this for responses that are known beforehand.

use vstd::prelude::*;
use crate::ask::Verdict;
use crate::matching::{accepts, check, check_one, first_match, lemma_first_match};
use crate::question::{ListQuestion, OrderedListQuestion};
use crate::results::{mkresultlist, QuestionResult, QuestionResultView};
use crate::score::{Ratio, Score};

verus! {

/// An attempt at a list question: what has been answered so far.
#[derive(Debug)]
pub struct ListAttempt {
    /// For each answer, whether a response has matched it.
    pub satisfied: Vec<bool>,
    /// Attempts used up: responses that matched a new answer or were wrong.
    pub count: usize,
    /// Every response given, in order.
    pub responses: Vec<String>,
    /// Whether the responses ran out.
    pub exhausted: bool,
}

/// A [`ListAttempt`] as plain values.
pub struct ListState {
    pub satisfied: Seq<bool>,
    pub count: nat,
    pub responses: Seq<Seq<char>>,
    pub exhausted: bool,
}

impl DeepView for ListAttempt {
    type V = ListState;

    open spec fn deep_view(&self) -> ListState {
        ListState {
            satisfied: self.satisfied@,
            count: self.count as nat,
            responses: self.responses.deep_view(),
            exhausted: self.exhausted,
        }
    }
}

impl ListState {
    /// The state before the first response, for `n` answers.
    pub open spec fn start(n: nat) -> ListState {
        ListState {
            satisfied: Seq::new(n, |i: int| false),
            count: 0,
            responses: Seq::empty(),
            exhausted: false,
        }
    }

    /// No further response is taken: the responses ran out, or as many
    /// attempts were used as there are answers.
    pub open spec fn over(self) -> bool {
        self.exhausted || self.count >= self.satisfied.len()
    }

    /// The state is one of an attempt at `n` answers.
    pub open spec fn fits(self, n: nat) -> bool {
        self.satisfied.len() == n && self.count <= n
    }

    /// What the response `guess` makes of the state, and what is said of it.
    ///
    /// No response ends the attempt. A response that matches an answer not
    /// yet given satisfies it and uses an attempt; one that matches an answer
    /// already given is a repeat and uses none. A response that matches no
    /// answer uses none if it is a no-credit phrase, and otherwise is wrong
    /// and uses one.
    pub open spec fn step(
        self,
        answers: Seq<Seq<Seq<char>>>,
        no_credit: Seq<Seq<char>>,
        guess: Option<Seq<char>>,
    ) -> (ListState, Verdict) {
        match guess {
            None => (
                ListState {
                    satisfied: self.satisfied,
                    count: self.count,
                    responses: self.responses,
                    exhausted: true,
                },
                Verdict::Incorrect,
            ),
            Some(g) => match first_match(answers, g) {
                Some(i) => if self.satisfied[i] {
                    (
                        ListState {
                            satisfied: self.satisfied,
                            count: self.count,
                            responses: self.responses.push(g),
                            exhausted: self.exhausted,
                        },
                        Verdict::Repeat,
                    )
                } else {
                    (
                        ListState {
                            satisfied: self.satisfied.update(i, true),
                            count: self.count + 1,
                            responses: self.responses.push(g),
                            exhausted: self.exhausted,
                        },
                        Verdict::Correct,
                    )
                },
                None => if accepts(no_credit, g) {
                    (
                        ListState {
                            satisfied: self.satisfied,
                            count: self.count,
                            responses: self.responses.push(g),
                            exhausted: self.exhausted,
                        },
                        Verdict::NoCredit,
                    )
                } else {
                    (
                        ListState {
                            satisfied: self.satisfied,
                            count: self.count + 1,
                            responses: self.responses.push(g),
                            exhausted: self.exhausted,
                        },
                        Verdict::Incorrect,
                    )
                },
            },
        }
    }

    /// The state once the attempt is over, if `guesses` are the responses
    /// that come: they are taken one by one until the attempt is over, and
    /// it is over at the latest when they run out.
    pub open spec fn run(
        self,
        answers: Seq<Seq<Seq<char>>>,
        no_credit: Seq<Seq<char>>,
        guesses: Seq<Seq<char>>,
    ) -> ListState
        decreases guesses.len(),
    {
        if self.over() {
            self
        } else if guesses.len() == 0 {
            self.step(answers, no_credit, None).0
        } else {
            self.step(answers, no_credit, Some(guesses[0])).0.run(
                answers,
                no_credit,
                guesses.subrange(1, guesses.len() as int),
            )
        }
    }
}

impl ListAttempt {
    /// Whether the attempt takes no further response.
    pub fn is_over(&self) -> (b: bool)
        ensures
            b == self.deep_view().over(),
    {
        self.exhausted || self.count >= self.satisfied.len()
    }
}

/// The canonical spellings of the answers that were not given, in order.
pub open spec fn missed(answers: Seq<Seq<Seq<char>>>, satisfied: Seq<bool>) -> Seq<Seq<char>>
    decreases answers.len(),
{
    if answers.len() == 0 || satisfied.len() != answers.len() {
        Seq::empty()
    } else if satisfied.last() {
        missed(answers.drop_last(), satisfied.drop_last())
    } else {
        missed(answers.drop_last(), satisfied.drop_last()).push(answers.last()[0])
    }
}

/// The credit for a list of `n` answers of which `missed` were not given.
pub open spec fn list_credit(n: nat, missed: nat) -> Ratio {
    Ratio { num: n - missed, den: n as int }
}

/// How a list question ended.
#[derive(Debug)]
pub struct ListOutcome {
    pub result: QuestionResult,
    /// The canonical spellings of the answers that were not given.
    pub missed: Vec<String>,
}

/// `outcome` is what an attempt that ended in `state` comes to: every answer
/// not given is missed, and the credit is the share of answers given.
pub open spec fn concluded(
    outcome: ListOutcome,
    id: Seq<char>,
    answers: Seq<Seq<Seq<char>>>,
    state: ListState,
) -> bool {
    &&& outcome.missed.deep_view() == missed(answers, state.satisfied)
    &&& outcome.result@ == (QuestionResultView {
        id,
        response: None,
        response_list: Some(state.responses),
        score: list_credit(answers.len(), missed(answers, state.satisfied).len()),
    })
    &&& outcome.result.wf()
}

/// There are never more missed answers than answers.
pub proof fn lemma_missed_len(answers: Seq<Seq<Seq<char>>>, satisfied: Seq<bool>)
    ensures
        missed(answers, satisfied).len() <= answers.len(),
    decreases answers.len(),
{
    if answers.len() > 0 && satisfied.len() == answers.len() {
        lemma_missed_len(answers.drop_last(), satisfied.drop_last());
    }
}

/// If every answer was given, none is missed.
pub proof fn lemma_missed_none(answers: Seq<Seq<Seq<char>>>, satisfied: Seq<bool>)
    requires
        satisfied.len() == answers.len(),
        forall|i: int| 0 <= i < satisfied.len() ==> satisfied[i],
    ensures
        missed(answers, satisfied) == Seq::<Seq<char>>::empty(),
    decreases answers.len(),
{
    if answers.len() > 0 {
        lemma_missed_none(answers.drop_last(), satisfied.drop_last());
    }
}

impl ListQuestion {
    /// A fresh attempt: nothing is answered yet.
    pub fn begin(&self) -> (attempt: ListAttempt)
        ensures
            attempt.deep_view() == ListState::start(self.answer_list.len() as nat),
            attempt.deep_view().fits(self.answer_list.len() as nat),
    {
        let n = self.answer_list.len();
        let mut satisfied: Vec<bool> = Vec::with_capacity(n);
        let mut i: usize = 0;
        while i < n
            invariant
                i <= n,
                satisfied.len() == i,
                forall|j: int| 0 <= j < i ==> !satisfied[j],
            decreases n - i,
        {
            satisfied.push(false);
            i += 1;
        }
        let responses: Vec<String> = Vec::new();
        assert(responses.deep_view() =~= Seq::empty());
        assert(satisfied@ =~= Seq::new(n as nat, |i: int| false));
        ListAttempt { satisfied, count: 0, responses, exhausted: false }
    }

    /// Whether `attempt` is an attempt at this question, with a flag for each
    /// answer and no more attempts used than there are answers.
    pub fn fits(&self, attempt: &ListAttempt) -> (b: bool)
        ensures
            b == attempt.deep_view().fits(self.answer_list.len() as nat),
    {
        attempt.satisfied.len() == self.answer_list.len() && attempt.count
            <= self.answer_list.len()
    }

    /// Takes in the next response, or the fact that there is none, and says
    /// what to answer.
    pub fn hear(&self, attempt: &mut ListAttempt, guess: Option<String>) -> (verdict: Verdict)
        requires
            old(attempt).deep_view().fits(self.answer_list.len() as nat),
            !old(attempt).deep_view().over(),
        ensures
            (final(attempt).deep_view(), verdict) == old(attempt).deep_view().step(
                self.answer_list.deep_view(),
                self.no_credit.deep_view(),
                guess.deep_view(),
            ),
            final(attempt).deep_view().fits(self.answer_list.len() as nat),
    {
        match guess {
            None => {
                attempt.exhausted = true;
                Verdict::Incorrect
            },
            Some(g) => {
                let ghost before = attempt.responses.deep_view();
                proof {
                    lemma_first_match(self.answer_list.deep_view(), g@);
                }
                let verdict = match check_one(&self.answer_list, g.as_str()) {
                    Some(i) => {
                        if attempt.satisfied[i] {
                            Verdict::Repeat
                        } else {
                            attempt.satisfied.set(i, true);
                            attempt.count += 1;
                            Verdict::Correct
                        }
                    },
                    None => {
                        if check(&self.no_credit, g.as_str()) {
                            Verdict::NoCredit
                        } else {
                            attempt.count += 1;
                            Verdict::Incorrect
                        }
                    },
                };
                attempt.responses.push(g);
                assert(attempt.responses.deep_view() =~= before.push(g@));
                verdict
            },
        }
    }

    /// Closes an attempt: names the answers that were missed and gives
    /// credit for the share that was given.
    pub fn conclude(&self, attempt: ListAttempt) -> (outcome: ListOutcome)
        requires
            self.wf(),
            attempt.deep_view().fits(self.answer_list.len() as nat),
        ensures
            concluded(outcome, self.common.id@, self.answer_list.deep_view(), attempt.deep_view()),
    {
        let n = self.answer_list.len();
        let ghost answers = self.answer_list.deep_view();
        let mut missing: Vec<String> = Vec::new();
        let mut i: usize = 0;
        assert(answers.take(0) =~= Seq::empty());
        assert(missing.deep_view() =~= Seq::empty());
        while i < n
            invariant
                i <= n,
                n == self.answer_list.len(),
                n == attempt.satisfied.len(),
                self.wf(),
                answers == self.answer_list.deep_view(),
                missing.deep_view() == missed(answers.take(i as int), attempt.satisfied@.take(i as int)),
            decreases n - i,
        {
            proof {
                assert(answers.take(i + 1).drop_last() =~= answers.take(i as int));
                assert(attempt.satisfied@.take(i + 1).drop_last() =~= attempt.satisfied@.take(
                    i as int,
                ));
                assert(answers.take(i + 1).last() == self.answer_list[i as int].deep_view());
            }
            if !attempt.satisfied[i] {
                let ghost before = missing.deep_view();
                missing.push(self.answer_list[i][0].clone());
                assert(missing.deep_view() =~= before.push(self.answer_list[i as int][0]@));
            }
            i += 1;
        }
        proof {
            assert(answers.take(n as int) =~= answers);
            assert(attempt.satisfied@.take(n as int) =~= attempt.satisfied@);
            lemma_missed_len(answers, attempt.satisfied@);
        }
        let score = Score::fraction(n - missing.len(), n);
        ListOutcome {
            result: mkresultlist(self.common.id.as_str(), attempt.responses, score),
            missed: missing,
        }
    }

    /// Asks the question of someone whose responses will be `guesses`, in
    /// that order.
    pub fn ask(&self, guesses: &Vec<String>) -> (outcome: ListOutcome)
        requires
            self.wf(),
        ensures
            concluded(
                outcome,
                self.common.id@,
                self.answer_list.deep_view(),
                ListState::start(self.answer_list.len() as nat).run(
                    self.answer_list.deep_view(),
                    self.no_credit.deep_view(),
                    guesses.deep_view(),
                ),
            ),
    {
        let ghost answers = self.answer_list.deep_view();
        let ghost no_credit = self.no_credit.deep_view();
        let ghost all = guesses.deep_view();
        let ghost goal = ListState::start(self.answer_list.len() as nat).run(
            answers,
            no_credit,
            all,
        );
        let mut attempt = self.begin();
        let mut i: usize = 0;
        assert(all.skip(0) =~= all);
        while i < guesses.len() && !attempt.exhausted && attempt.count < self.answer_list.len()
            invariant
                i <= guesses.len(),
                all == guesses.deep_view(),
                answers == self.answer_list.deep_view(),
                no_credit == self.no_credit.deep_view(),
                attempt.deep_view().fits(self.answer_list.len() as nat),
                attempt.deep_view().run(answers, no_credit, all.skip(i as int)) == goal,
            decreases guesses.len() - i,
        {
            proof {
                let rest = all.skip(i as int);
                assert(rest[0] == guesses[i as int]@);
                assert(rest.subrange(1, rest.len() as int) =~= all.skip(i + 1));
            }
            self.hear(&mut attempt, Some(guesses[i].clone()));
            i += 1;
        }
        if !attempt.exhausted && attempt.count < self.answer_list.len() {
            assert(all.skip(i as int).len() == 0);
            self.hear(&mut attempt, None);
        }
        self.conclude(attempt)
    }
}

/// How many of `flags` are set.
pub open spec fn count_set(flags: Seq<bool>) -> nat
    decreases flags.len(),
{
    if flags.len() == 0 {
        0
    } else if flags.last() {
        count_set(flags.drop_last()) + 1
    } else {
        count_set(flags.drop_last())
    }
}

/// No more flags are set than there are, and all are set only if each is.
pub proof fn lemma_count_set(flags: Seq<bool>)
    ensures
        count_set(flags) <= flags.len(),
        count_set(flags) == flags.len() <==> forall|i: int| 0 <= i < flags.len() ==> flags[i],
    decreases flags.len(),
{
    if flags.len() > 0 {
        let before = flags.drop_last();
        lemma_count_set(before);
        if count_set(flags) == flags.len() {
            assert forall|i: int| 0 <= i < flags.len() implies flags[i] by {
                if i < flags.len() - 1 {
                    assert(before[i]);
                }
            }
        }
        if forall|i: int| 0 <= i < flags.len() ==> flags[i] {
            assert(flags.last());
            assert forall|i: int| 0 <= i < before.len() implies before[i] by {
                assert(flags[i]);
            }
        }
    }
}

/// Setting a flag that was not set makes one more.
pub proof fn lemma_count_set_update(flags: Seq<bool>, i: int)
    requires
        0 <= i < flags.len(),
        !flags[i],
    ensures
        count_set(flags.update(i, true)) == count_set(flags) + 1,
    decreases flags.len(),
{
    let after = flags.update(i, true);
    if i == flags.len() - 1 {
        assert(after.drop_last() =~= flags.drop_last());
    } else {
        assert(after.drop_last() =~= flags.drop_last().update(i, true));
        lemma_count_set_update(flags.drop_last(), i);
    }
}

/// Some response among `guesses` matches answer `i` before any other.
pub open spec fn given(answers: Seq<Seq<Seq<char>>>, guesses: Seq<Seq<char>>, i: int) -> bool {
    exists|j: int| 0 <= j < guesses.len() && first_match(answers, #[trigger] guesses[j]) == Some(i)
}

/// No response among `guesses` is wrong: each matches an answer or is a
/// no-credit phrase.
pub open spec fn none_wrong(
    answers: Seq<Seq<Seq<char>>>,
    no_credit: Seq<Seq<char>>,
    guesses: Seq<Seq<char>>,
) -> bool {
    forall|j: int|
        0 <= j < guesses.len() ==> first_match(answers, #[trigger] guesses[j]) is Some || accepts(
            no_credit,
            guesses[j],
        )
}

/// From a state in which every attempt used has satisfied an answer,
/// responses without a wrong one that give every answer still open lead to
/// a state in which every answer is satisfied.
pub proof fn lemma_list_run_complete(
    state: ListState,
    answers: Seq<Seq<Seq<char>>>,
    no_credit: Seq<Seq<char>>,
    guesses: Seq<Seq<char>>,
)
    requires
        state.satisfied.len() == answers.len(),
        state.count == count_set(state.satisfied),
        !state.exhausted,
        none_wrong(answers, no_credit, guesses),
        forall|i: int|
            0 <= i < answers.len() && !state.satisfied[i] ==> #[trigger] given(answers, guesses, i),
    ensures
        state.run(answers, no_credit, guesses).satisfied.len() == answers.len(),
        forall|i: int|
            0 <= i < answers.len() ==> state.run(answers, no_credit, guesses).satisfied[i],
    decreases guesses.len(),
{
    lemma_count_set(state.satisfied);
    if state.over() {
    } else if guesses.len() == 0 {
        let i = choose|i: int| 0 <= i < state.satisfied.len() && !state.satisfied[i];
        assert(given(answers, guesses, i));
    } else {
        let g = guesses[0];
        let rest = guesses.subrange(1, guesses.len() as int);
        let next = state.step(answers, no_credit, Some(g)).0;
        lemma_first_match(answers, g);
        assert(first_match(answers, g) is Some || accepts(no_credit, g));
        if let Some(i) = first_match(answers, g) {
            if !state.satisfied[i] {
                lemma_count_set_update(state.satisfied, i);
            }
        }
        assert forall|j: int| 0 <= j < rest.len() implies first_match(
            answers,
            #[trigger] rest[j],
        ) is Some || accepts(no_credit, rest[j]) by {
            assert(rest[j] == guesses[j + 1]);
        }
        assert forall|i: int| 0 <= i < answers.len() && !next.satisfied[i] implies #[trigger] given(
            answers,
            rest,
            i,
        ) by {
            assert(!state.satisfied[i]);
            assert(given(answers, guesses, i));
            let j = choose|j: int|
                0 <= j < guesses.len() && first_match(answers, #[trigger] guesses[j]) == Some(i);
            assert(j > 0);
            assert(rest[j - 1] == guesses[j]);
        }
        lemma_list_run_complete(next, answers, no_credit, rest);
    }
}

/// If the responses hold no wrong one and give every answer, the credit is
/// full, however many repeats and no-credit phrases come in between: those
/// use up no attempt and take away no credit.
pub proof fn law_list_full_credit(
    answers: Seq<Seq<Seq<char>>>,
    no_credit: Seq<Seq<char>>,
    guesses: Seq<Seq<char>>,
)
    requires
        answers.len() > 0,
        none_wrong(answers, no_credit, guesses),
        forall|i: int| 0 <= i < answers.len() ==> #[trigger] given(answers, guesses, i),
    ensures
        ({
            let end = ListState::start(answers.len()).run(answers, no_credit, guesses);
            &&& missed(answers, end.satisfied).len() == 0
            &&& list_credit(answers.len(), missed(answers, end.satisfied).len()) == (Ratio {
                num: answers.len() as int,
                den: answers.len() as int,
            })
        }),
{
    let start = ListState::start(answers.len());
    lemma_count_clear(start.satisfied);
    lemma_list_run_complete(start, answers, no_credit, guesses);
    let end = start.run(answers, no_credit, guesses);
    lemma_missed_none(answers, end.satisfied);
}

/// Where no flag is set, none is counted.
pub proof fn lemma_count_clear(flags: Seq<bool>)
    requires
        forall|i: int| 0 <= i < flags.len() ==> !flags[i],
    ensures
        count_set(flags) == 0,
    decreases flags.len(),
{
    if flags.len() > 0 {
        lemma_count_clear(flags.drop_last());
    }
}

/// A repeat and a no-credit phrase change nothing but the record of
/// responses: no answer is satisfied or lost, and no attempt is used.
pub proof fn law_list_free_responses(
    state: ListState,
    answers: Seq<Seq<Seq<char>>>,
    no_credit: Seq<Seq<char>>,
    guess: Seq<char>,
)
    requires
        state.step(answers, no_credit, Some(guess)).1 == Verdict::Repeat || state.step(
            answers,
            no_credit,
            Some(guess),
        ).1 == Verdict::NoCredit,
    ensures
        state.step(answers, no_credit, Some(guess)).0.satisfied == state.satisfied,
        state.step(answers, no_credit, Some(guess)).0.count == state.count,
        state.step(answers, no_credit, Some(guess)).0.exhausted == state.exhausted,
{
}

/// An attempt at an ordered list question: how far it has come.
#[derive(Debug)]
pub struct OrderedAttempt {
    /// How many answers have been asked for.
    pub position: usize,
    /// How many of them were given.
    pub ncorrect: usize,
    /// Every response given, in order.
    pub responses: Vec<String>,
    /// Whether the responses ran out.
    pub exhausted: bool,
}

/// An [`OrderedAttempt`] as plain values.
pub struct OrderedState {
    pub position: nat,
    pub ncorrect: nat,
    pub responses: Seq<Seq<char>>,
    pub exhausted: bool,
}

impl DeepView for OrderedAttempt {
    type V = OrderedState;

    open spec fn deep_view(&self) -> OrderedState {
        OrderedState {
            position: self.position as nat,
            ncorrect: self.ncorrect as nat,
            responses: self.responses.deep_view(),
            exhausted: self.exhausted,
        }
    }
}

/// What is said of a response to an ordered list, with the canonical answer
/// after a wrong one.
#[derive(Debug)]
pub struct Heard {
    pub verdict: Verdict,
    pub expected: Option<String>,
}

impl OrderedState {
    /// The state before the first response.
    pub open spec fn start() -> OrderedState {
        OrderedState { position: 0, ncorrect: 0, responses: Seq::empty(), exhausted: false }
    }

    /// No further response is taken: the responses ran out, or each of the
    /// `n` answers has been asked for.
    pub open spec fn over(self, n: nat) -> bool {
        self.exhausted || self.position >= n
    }

    /// The state is one of an attempt at `n` answers.
    pub open spec fn fits(self, n: nat) -> bool {
        self.ncorrect <= self.position <= n
    }

    /// What the response `guess` makes of the state, and what is said of it.
    ///
    /// Only the answer at the present position is accepted. Right or wrong,
    /// a response moves the position on by one; no response ends the
    /// attempt.
    pub open spec fn step(self, answers: Seq<Seq<Seq<char>>>, guess: Option<Seq<char>>) -> (
        OrderedState,
        Verdict,
    ) {
        match guess {
            None => (
                OrderedState {
                    position: self.position,
                    ncorrect: self.ncorrect,
                    responses: self.responses,
                    exhausted: true,
                },
                Verdict::Incorrect,
            ),
            Some(g) => if accepts(answers[self.position as int], g) {
                (
                    OrderedState {
                        position: self.position + 1,
                        ncorrect: self.ncorrect + 1,
                        responses: self.responses.push(g),
                        exhausted: self.exhausted,
                    },
                    Verdict::Correct,
                )
            } else {
                (
                    OrderedState {
                        position: self.position + 1,
                        ncorrect: self.ncorrect,
                        responses: self.responses.push(g),
                        exhausted: self.exhausted,
                    },
                    Verdict::Incorrect,
                )
            },
        }
    }

    /// The state once the attempt is over, if `guesses` are the responses
    /// that come.
    pub open spec fn run(self, answers: Seq<Seq<Seq<char>>>, guesses: Seq<Seq<char>>) -> OrderedState
        decreases guesses.len(),
    {
        if self.over(answers.len()) {
            self
        } else if guesses.len() == 0 {
            self.step(answers, None).0
        } else {
            self.step(answers, Some(guesses[0])).0.run(
                answers,
                guesses.subrange(1, guesses.len() as int),
            )
        }
    }
}

/// `result` is what an attempt at an ordered list that ended in `state`
/// comes to: the credit is the share of answers given in their place.
pub open spec fn ordered_concluded(
    result: QuestionResult,
    id: Seq<char>,
    n: nat,
    state: OrderedState,
) -> bool {
    &&& result@ == (QuestionResultView {
        id,
        response: None,
        response_list: Some(state.responses),
        score: Ratio { num: state.ncorrect as int, den: n as int },
    })
    &&& result.wf()
}

impl OrderedListQuestion {
    /// A fresh attempt: nothing is answered yet.
    pub fn begin(&self) -> (attempt: OrderedAttempt)
        ensures
            attempt.deep_view() == OrderedState::start(),
            attempt.deep_view().fits(self.answer_list.len() as nat),
    {
        let responses: Vec<String> = Vec::new();
        assert(responses.deep_view() =~= Seq::empty());
        OrderedAttempt { position: 0, ncorrect: 0, responses, exhausted: false }
    }

    /// Whether `attempt` is an attempt at this question: it has not gone
    /// past the last answer, nor found more answers right than it asked for.
    pub fn fits(&self, attempt: &OrderedAttempt) -> (b: bool)
        ensures
            b == attempt.deep_view().fits(self.answer_list.len() as nat),
    {
        attempt.ncorrect <= attempt.position && attempt.position <= self.answer_list.len()
    }

    /// Whether `attempt` takes no further response.
    pub fn is_over(&self, attempt: &OrderedAttempt) -> (b: bool)
        ensures
            b == attempt.deep_view().over(self.answer_list.len() as nat),
    {
        attempt.exhausted || attempt.position >= self.answer_list.len()
    }

    /// Takes in the next response, or the fact that there is none, and says
    /// what to answer: after anything but a right response, the canonical
    /// spelling of the answer that was due.
    pub fn hear(&self, attempt: &mut OrderedAttempt, guess: Option<String>) -> (heard: Heard)
        requires
            self.wf(),
            old(attempt).deep_view().fits(self.answer_list.len() as nat),
            !old(attempt).deep_view().over(self.answer_list.len() as nat),
        ensures
            (final(attempt).deep_view(), heard.verdict) == old(attempt).deep_view().step(
                self.answer_list.deep_view(),
                guess.deep_view(),
            ),
            heard.expected.deep_view() == (if heard.verdict == Verdict::Correct {
                None
            } else {
                Some(self.answer_list.deep_view()[old(attempt).position as int][0])
            }),
            final(attempt).deep_view().fits(self.answer_list.len() as nat),
    {
        let answer = &self.answer_list[attempt.position];
        assert(self.answer_list.deep_view()[attempt.position as int] == answer.deep_view());
        assert(answer.deep_view()[0] == answer[0]@);
        match guess {
            None => {
                attempt.exhausted = true;
                Heard { verdict: Verdict::Incorrect, expected: Some(answer[0].clone()) }
            },
            Some(g) => {
                let ghost before = attempt.responses.deep_view();
                let correct = check(answer, g.as_str());
                attempt.responses.push(g);
                assert(attempt.responses.deep_view() =~= before.push(g@));
                attempt.position += 1;
                if correct {
                    attempt.ncorrect += 1;
                    Heard { verdict: Verdict::Correct, expected: None }
                } else {
                    Heard { verdict: Verdict::Incorrect, expected: Some(answer[0].clone()) }
                }
            },
        }
    }

    /// Closes an attempt: gives credit for the share of answers that were
    /// given in their place.
    pub fn conclude(&self, attempt: OrderedAttempt) -> (result: QuestionResult)
        requires
            self.wf(),
            attempt.deep_view().fits(self.answer_list.len() as nat),
        ensures
            ordered_concluded(
                result,
                self.common.id@,
                self.answer_list.len() as nat,
                attempt.deep_view(),
            ),
    {
        let score = Score::fraction(attempt.ncorrect, self.answer_list.len());
        mkresultlist(self.common.id.as_str(), attempt.responses, score)
    }

    /// Asks the question of someone whose responses will be `guesses`, in
    /// that order.
    pub fn ask(&self, guesses: &Vec<String>) -> (result: QuestionResult)
        requires
            self.wf(),
        ensures
            ordered_concluded(
                result,
                self.common.id@,
                self.answer_list.len() as nat,
                OrderedState::start().run(self.answer_list.deep_view(), guesses.deep_view()),
            ),
    {
        let ghost answers = self.answer_list.deep_view();
        let ghost all = guesses.deep_view();
        let ghost goal = OrderedState::start().run(answers, all);
        let mut attempt = self.begin();
        let mut i: usize = 0;
        assert(all.skip(0) =~= all);
        while i < guesses.len() && !attempt.exhausted && attempt.position < self.answer_list.len()
            invariant
                i <= guesses.len(),
                self.wf(),
                all == guesses.deep_view(),
                answers == self.answer_list.deep_view(),
                attempt.deep_view().fits(self.answer_list.len() as nat),
                attempt.deep_view().run(answers, all.skip(i as int)) == goal,
            decreases guesses.len() - i,
        {
            proof {
                let rest = all.skip(i as int);
                assert(rest[0] == guesses[i as int]@);
                assert(rest.subrange(1, rest.len() as int) =~= all.skip(i + 1));
            }
            self.hear(&mut attempt, Some(guesses[i].clone()));
            i += 1;
        }
        if !attempt.exhausted && attempt.position < self.answer_list.len() {
            assert(all.skip(i as int).len() == 0);
            self.hear(&mut attempt, None);
        }
        self.conclude(attempt)
    }
}

/// From a state in which every answer so far was given, responses that give
/// each remaining answer in its place lead to the end with every answer
/// given.
pub proof fn lemma_ordered_run_complete(
    state: OrderedState,
    answers: Seq<Seq<Seq<char>>>,
    guesses: Seq<Seq<char>>,
)
    requires
        state.ncorrect == state.position <= answers.len(),
        !state.exhausted,
        guesses.len() >= answers.len() - state.position,
        forall|i: int|
            state.position <= i < answers.len() ==> accepts(
                #[trigger] answers[i],
                guesses[i - state.position],
            ),
    ensures
        state.run(answers, guesses).ncorrect == answers.len(),
        state.run(answers, guesses).position == answers.len(),
    decreases guesses.len(),
{
    if state.over(answers.len()) {
    } else {
        let rest = guesses.subrange(1, guesses.len() as int);
        let next = state.step(answers, Some(guesses[0])).0;
        assert(accepts(answers[state.position as int], guesses[0]));
        assert forall|i: int| next.position <= i < answers.len() implies accepts(
            #[trigger] answers[i],
            rest[i - next.position],
        ) by {
            assert(rest[i - next.position] == guesses[i - state.position]);
        }
        lemma_ordered_run_complete(next, answers, rest);
    }
}

/// Giving every answer in the declared order earns full credit.
pub proof fn law_ordered_full_credit(answers: Seq<Seq<Seq<char>>>, guesses: Seq<Seq<char>>)
    requires
        guesses.len() >= answers.len(),
        forall|i: int| 0 <= i < answers.len() ==> accepts(#[trigger] answers[i], guesses[i]),
    ensures
        OrderedState::start().run(answers, guesses).ncorrect == answers.len(),
{
    lemma_ordered_run_complete(OrderedState::start(), answers, guesses);
}

/// Every response moves on to the next answer, whether it was right or
/// wrong: no answer is asked for twice.
pub proof fn law_ordered_always_advances(
    state: OrderedState,
    answers: Seq<Seq<Seq<char>>>,
    guess: Seq<char>,
)
    ensures
        state.step(answers, Some(guess)).0.position == state.position + 1,
        state.step(answers, Some(guess)).0.responses == state.responses.push(guess),
        state.step(answers, Some(guess)).0.ncorrect <= state.ncorrect + 1,
        state.step(answers, Some(guess)).0.ncorrect >= state.ncorrect,
{
}

/// An attempt takes as many responses as there are answers, or all there
/// are if those are fewer, each for the answer at its own position.
pub proof fn law_ordered_one_response_each(
    state: OrderedState,
    answers: Seq<Seq<Seq<char>>>,
    guesses: Seq<Seq<char>>,
)
    requires
        state.position <= answers.len(),
        !state.exhausted,
    ensures
        ({
            let taken = if guesses.len() < answers.len() - state.position {
                guesses.len() as int
            } else {
                answers.len() - state.position
            };
            &&& state.run(answers, guesses).position == state.position + taken
            &&& state.run(answers, guesses).responses == state.responses + guesses.take(taken)
        }),
    decreases guesses.len(),
{
    if state.over(answers.len()) {
        assert(guesses.take(0) =~= Seq::empty());
        assert(state.responses + guesses.take(0) =~= state.responses);
    } else if guesses.len() == 0 {
        assert(guesses.take(0) =~= Seq::empty());
        assert(state.responses + guesses.take(0) =~= state.responses);
    } else {
        let rest = guesses.subrange(1, guesses.len() as int);
        let next = state.step(answers, Some(guesses[0])).0;
        law_ordered_one_response_each(next, answers, rest);
        let taken = if guesses.len() < answers.len() - state.position {
            guesses.len() as int
        } else {
            answers.len() - state.position
        };
        assert(state.responses.push(guesses[0]) + rest.take(taken - 1) =~= state.responses
            + guesses.take(taken));
    }
}

} // verus!
