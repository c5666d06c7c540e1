//! Asking a multiple-choice question.
//!
//! Up to three wrong options are drawn at random and put, with one spelling
//! of the answer, in a random order. The caller shows them under the letters
//! `a`, `b`, `c`, `d` and reads responses until one names an option.

use vstd::prelude::*;
use crate::ask::{credit, Graded, Verdict};
use crate::matching::{accepts, check};
use crate::question::MultipleChoiceQuestion;
use crate::results::{mkresult, QuestionResultView};
use crate::score::{calculate_score, decay, Score};
use crate::text::chars_of;

verus! {

/// `rand::rngs::StdRng`: the source of random numbers. It is only handed
/// on to `rand`; nothing here looks into it.
#[verifier::external_type_specification]
#[verifier::external_body]
pub struct ExStdRng(rand::rngs::StdRng);

/// Puts `order` in a random order.
///
/// Wraps `rand::seq::SliceRandom::shuffle`, which only ever swaps two items
/// of the slice: the same items are there afterwards, each as often as
/// before. Which order comes out is left open.
#[verifier::external_body]
fn shuffle(order: &mut Vec<usize>, rng: &mut rand::rngs::StdRng)
    ensures
        final(order)@.to_multiset() == old(order)@.to_multiset(),
{
    rand::seq::SliceRandom::shuffle(order.as_mut_slice(), rng);
}

/// Picks one of `spellings` at random.
///
/// Wraps `rand::seq::SliceRandom::choose`, which returns nothing for an
/// empty slice and otherwise a reference to one of its items. Which one is
/// left open.
#[verifier::external_body]
fn pick_spelling<'a>(spellings: &'a Vec<String>, rng: &mut rand::rngs::StdRng) -> (picked: Option<
    &'a String,
>)
    ensures
        spellings.len() == 0 ==> picked is None,
        spellings.len() > 0 ==> picked is Some && spellings@.contains(*picked.unwrap()),
{
    rand::seq::SliceRandom::choose(spellings.as_slice(), rng)
}

/// The options put before the user.
#[derive(Debug, Clone)]
pub struct Options {
    /// The options, in the order in which they are shown.
    pub shown: Vec<String>,
    /// The spelling of the answer that is among them.
    pub correct: String,
    /// For each option where it comes from: its position among the
    /// question's wrong options, or their number for the answer.
    pub sources: Vec<usize>,
}

impl Options {
    /// The options are a draw for a question with the answer `answer` and
    /// the wrong options `choices`: one spelling of the answer and three
    /// wrong options, or all if there are fewer, no wrong option twice.
    pub open spec fn drawn_from(&self, answer: Seq<Seq<char>>, choices: Seq<Seq<char>>) -> bool {
        &&& answer.contains(self.correct@)
        &&& self.shown.len() == self.sources.len()
        &&& self.shown.len() == (if choices.len() < 3 {
            choices.len() + 1
        } else {
            4
        })
        &&& self.sources@.no_duplicates()
        &&& self.sources@.contains(choices.len() as usize)
        &&& forall|k: int|
            0 <= k < self.shown.len() ==> (#[trigger] self.sources[k]) <= choices.len()
                && self.shown[k]@ == (if self.sources[k] == choices.len() {
                self.correct@
            } else {
                choices[self.sources[k] as int]
            })
    }
}

/// The position that a response names: `a` or `A` the first, `b` or `B` the
/// second, and so on. A response that is not a single letter names none.
pub open spec fn letter_position(guess: Seq<char>) -> Option<int> {
    if guess.len() == 1 && 'a' <= guess[0] <= 'z' {
        Some(guess[0] as int - 'a' as int)
    } else if guess.len() == 1 && 'A' <= guess[0] <= 'Z' {
        Some(guess[0] as int - 'A' as int)
    } else {
        None
    }
}

/// The option among `count` that a response picks, if it names one of them.
pub open spec fn picked(guess: Seq<char>, count: nat) -> Option<int> {
    match letter_position(guess) {
        Some(p) => if p < count {
            Some(p)
        } else {
            None
        },
        None => None,
    }
}

/// The option among `count` that the response `guess` picks.
pub fn pick(guess: &str, count: usize) -> (at: Option<usize>)
    ensures
        match at {
            Some(p) => picked(guess@, count as nat) == Some(p as int),
            None => picked(guess@, count as nat) is None,
        },
{
    let chars = chars_of(guess);
    if chars.len() != 1 {
        return None;
    }
    let c = chars[0];
    let p: u32 = if 'a' <= c && c <= 'z' {
        (c as u32) - ('a' as u32)
    } else if 'A' <= c && c <= 'Z' {
        (c as u32) - ('A' as u32)
    } else {
        return None;
    };
    if (p as usize) < count {
        Some(p as usize)
    } else {
        None
    }
}

/// A sequence with the same items as another, each as often, has the same
/// length, holds the same values, and has no duplicates if the other has
/// none.
pub proof fn lemma_same_items(before: Seq<usize>, after: Seq<usize>)
    requires
        after.to_multiset() == before.to_multiset(),
    ensures
        after.len() == before.len(),
        forall|x: usize| before.contains(x) <==> after.contains(x),
        before.no_duplicates() ==> after.no_duplicates(),
{
    before.to_multiset_ensures();
    after.to_multiset_ensures();
    assert forall|x: usize| before.contains(x) <==> after.contains(x) by {
        assert(before.contains(x) <==> before.to_multiset().count(x) > 0);
        assert(after.contains(x) <==> after.to_multiset().count(x) > 0);
    }
    if before.no_duplicates() {
        before.lemma_multiset_has_no_duplicates();
        after.lemma_multiset_has_no_duplicates_conv();
    }
}

/// What the response `guess` to the options comes to, for a question with
/// the answer `answer` and the time limit `timeout`.
///
/// A response that names none of the options is passed over: nothing is
/// graded, and another response is to be read. The option picked is right
/// if the answer accepts its text, and the credit for that decays with the
/// time taken. No response at all is wrong. After anything but a right
/// response the spelling of the answer that was shown is given.
pub open spec fn choice_graded(
    graded: Option<Graded>,
    id: Seq<char>,
    answer: Seq<Seq<char>>,
    timeout: Option<u64>,
    options: Options,
    guess: Option<Seq<char>>,
    elapsed_ms: int,
) -> bool {
    let at = match guess {
        Some(g) => picked(g, options.shown.len() as nat),
        None => None,
    };
    let response = match at {
        Some(p) => Some(options.shown[p]@),
        None => None,
    };
    let correct = response matches Some(text) && accepts(answer, text);
    if guess is Some && at is None {
        graded is None
    } else {
        &&& graded matches Some(g)
        &&& g.verdict == (if correct {
            Verdict::Correct
        } else {
            Verdict::Incorrect
        })
        &&& g.expected.deep_view() == (if correct {
            None
        } else {
            Some(options.correct@)
        })
        &&& g.timed_out == decay(credit(correct), timeout, elapsed_ms).1
        &&& g.result@ == (QuestionResultView {
            id,
            response,
            response_list: None,
            score: decay(credit(correct), timeout, elapsed_ms).0,
        })
        &&& g.result.wf()
    }
}

impl MultipleChoiceQuestion {
    /// Draws the options to show.
    pub fn draw(&self, rng: &mut rand::rngs::StdRng) -> (options: Options)
        requires
            self.wf(),
        ensures
            options.drawn_from(self.answer.deep_view(), self.choices.deep_view()),
    {
        let n = self.choices.len();
        let mut order: Vec<usize> = Vec::new();
        let mut i: usize = 0;
        while i < n
            invariant
                i <= n,
                order.len() == i,
                forall|k: int| 0 <= k < i ==> order[k] == k,
            decreases n - i,
        {
            order.push(i);
            i += 1;
        }
        let ghost listed = order@;
        assert(listed.no_duplicates());
        // Shuffled first, so that not always the first three are taken.
        shuffle(&mut order, rng);
        let ghost mixed = order@;
        proof {
            lemma_same_items(listed, mixed);
            assert forall|k: int| 0 <= k < mixed.len() implies mixed[k] < n by {
                assert(mixed.contains(mixed[k]));
                assert(listed.contains(mixed[k]));
            }
        }
        order.truncate(3);
        let picked_answer = pick_spelling(&self.answer, rng);
        let correct = match picked_answer {
            Some(spelling) => spelling.clone(),
            None => self.answer[0].clone(),
        };
        proof {
            let spelling = picked_answer.unwrap();
            let v = choose|v: int| 0 <= v < self.answer.len() && self.answer[v] == *spelling;
            assert(self.answer.deep_view()[v] == correct@);
        }
        order.push(n);
        let ghost joined = order@;
        assert(joined.no_duplicates());
        assert(joined[joined.len() - 1] == n);
        // Shuffled again, so that the answer stands at a random place.
        shuffle(&mut order, rng);
        proof {
            lemma_same_items(joined, order@);
            assert(joined.contains(n));
            assert forall|k: int| 0 <= k < order.len() implies order[k] <= n by {
                assert(order@.contains(order[k]));
                assert(joined.contains(order[k]));
            }
        }
        let mut shown: Vec<String> = Vec::new();
        let mut k: usize = 0;
        while k < order.len()
            invariant
                k <= order.len(),
                shown.len() == k,
                n == self.choices.len(),
                forall|j: int| 0 <= j < order.len() ==> order[j] <= n,
                forall|j: int|
                    0 <= j < k ==> (#[trigger] shown[j])@ == (if order[j] == n {
                        correct@
                    } else {
                        self.choices[order[j] as int]@
                    }),
            decreases order.len() - k,
        {
            if order[k] == n {
                shown.push(correct.clone());
            } else {
                shown.push(self.choices[order[k]].clone());
            }
            k += 1;
        }
        Options { shown, correct, sources: order }
    }

    /// Grades one response to the options shown.
    ///
    /// `guess` is what was read, if anything was; `elapsed_ms` is the time
    /// that took. Returns nothing for a response that names no option: the
    /// caller reads another.
    pub fn ask(&self, options: &Options, guess: Option<String>, elapsed_ms: u128) -> (graded: Option<
        Graded,
    >)
        requires
            self.wf(),
        ensures
            choice_graded(
                graded,
                self.common.id@,
                self.answer.deep_view(),
                self.timeout,
                *options,
                guess.deep_view(),
                elapsed_ms as int,
            ),
    {
        let response = match guess {
            Some(g) => match pick(g.as_str(), options.shown.len()) {
                Some(p) => Some(options.shown[p].clone()),
                None => {
                    return None;
                },
            },
            None => None,
        };
        let correct = match &response {
            Some(text) => check(&self.answer, text.as_str()),
            None => false,
        };
        let base = Score::all_or_nothing(correct);
        let (score, timed_out) = calculate_score(base, self.timeout, elapsed_ms);
        let expected = if correct {
            None
        } else {
            Some(options.correct.clone())
        };
        Some(
            Graded {
                result: mkresult(self.common.id.as_str(), response, score),
                verdict: if correct {
                    Verdict::Correct
                } else {
                    Verdict::Incorrect
                },
                expected,
                timed_out,
            },
        )
    }
}

} // verus!
