//! Matching a free-text guess against the accepted answers.
//!
//! A guess matches an answer when, case and surrounding whitespace aside, it
//! is one of the answer's spellings. There is no partial match.

use vstd::prelude::*;
use crate::question::Answer;
use crate::text::{
    all_white,
    chars_of,
    lemma_trimmed_padding,
    lowercase_of,
    string_of,
    to_lowercase,
    trim_range,
    trimmed,
};

verus! {

/// The form in which texts are compared: trimmed, then in lowercase.
pub open spec fn normal_form(s: Seq<char>) -> Seq<char> {
    lowercase_of(trimmed(s))
}

/// `guess` is one of the spellings of `answer`, up to normal form.
pub open spec fn accepts(answer: Seq<Seq<char>>, guess: Seq<char>) -> bool {
    exists|i: int| 0 <= i < answer.len() && normal_form(#[trigger] answer[i]) == normal_form(guess)
}

/// Some answer of the list accepts `guess`.
pub open spec fn any_accepts(answers: Seq<Seq<Seq<char>>>, guess: Seq<char>) -> bool {
    exists|i: int| 0 <= i < answers.len() && accepts(#[trigger] answers[i], guess)
}

/// The position of the first answer of the list that accepts `guess`.
pub open spec fn first_match(answers: Seq<Seq<Seq<char>>>, guess: Seq<char>) -> Option<int>
    decreases answers.len(),
{
    if answers.len() == 0 {
        None
    } else {
        match first_match(answers.drop_last(), guess) {
            Some(i) => Some(i),
            None => if accepts(answers.last(), guess) {
                Some(answers.len() - 1)
            } else {
                None
            },
        }
    }
}

/// `first_match` gives an accepting answer with none before it, and nothing
/// only if no answer accepts.
pub proof fn lemma_first_match(answers: Seq<Seq<Seq<char>>>, guess: Seq<char>)
    ensures
        match first_match(answers, guess) {
            Some(i) => 0 <= i < answers.len() && accepts(answers[i], guess) && forall|j: int|
                0 <= j < i ==> !accepts(#[trigger] answers[j], guess),
            None => !any_accepts(answers, guess),
        },
    decreases answers.len(),
{
    if answers.len() > 0 {
        let before = answers.drop_last();
        lemma_first_match(before, guess);
        match first_match(before, guess) {
            Some(i) => {
                assert(answers[i] == before[i]);
                assert forall|j: int| 0 <= j < i implies !accepts(#[trigger] answers[j], guess) by {
                    assert(answers[j] == before[j]);
                }
            },
            None => {
                assert forall|j: int| 0 <= j < answers.len() - 1 implies !accepts(
                    #[trigger] answers[j],
                    guess,
                ) by {
                    assert(answers[j] == before[j]);
                }
            },
        }
    }
}

/// `first_match` of the first `k` answers, once it finds one, is that of
/// all.
pub proof fn lemma_first_match_stays(answers: Seq<Seq<Seq<char>>>, guess: Seq<char>, k: int)
    requires
        0 <= k <= answers.len(),
        first_match(answers.take(k), guess) is Some,
    ensures
        first_match(answers, guess) == first_match(answers.take(k), guess),
    decreases answers.len() - k,
{
    if k < answers.len() {
        assert(answers.take(k + 1).drop_last() =~= answers.take(k));
        lemma_first_match_stays(answers, guess, k + 1);
    } else {
        assert(answers.take(k) =~= answers);
    }
}

/// The normal form of a text: trimmed, then in lowercase.
pub fn normalize(guess: &str) -> (n: String)
    ensures
        n@ == normal_form(guess@),
{
    let chars = chars_of(guess);
    assert(chars@.subrange(0, chars.len() as int) =~= guess@);
    let (from, to) = trim_range(&chars, 0, chars.len());
    let kept = string_of(&chars, from, to);
    to_lowercase(kept.as_str())
}

/// Whether `guess` is one of the spellings of `ans`.
pub fn check(ans: &Answer, guess: &str) -> (ok: bool)
    ensures
        ok == accepts(ans.deep_view(), guess@),
{
    let wanted = normalize(guess);
    let mut i: usize = 0;
    while i < ans.len()
        invariant
            i <= ans.len(),
            wanted@ == normal_form(guess@),
            forall|j: int| 0 <= j < i ==> normal_form(#[trigger] ans.deep_view()[j]) != normal_form(guess@),
        decreases ans.len() - i,
    {
        let spelling = normalize(ans[i].as_str());
        assert(ans.deep_view()[i as int] == ans[i as int]@);
        if spelling == wanted {
            return true;
        }
        i += 1;
    }
    false
}

/// Whether `guess` matches any of the answers in `answer_list`.
pub fn check_any(answer_list: &Vec<Answer>, guess: &str) -> (ok: bool)
    ensures
        ok == any_accepts(answer_list.deep_view(), guess@),
{
    let mut i: usize = 0;
    while i < answer_list.len()
        invariant
            i <= answer_list.len(),
            forall|j: int| 0 <= j < i ==> !accepts(#[trigger] answer_list.deep_view()[j], guess@),
        decreases answer_list.len() - i,
    {
        assert(answer_list.deep_view()[i as int] == answer_list[i as int].deep_view());
        if check(&answer_list[i], guess) {
            return true;
        }
        i += 1;
    }
    false
}

/// The position of the first answer in `answer_list` that `guess` matches,
/// if it matches any.
pub fn check_one(answer_list: &Vec<Answer>, guess: &str) -> (found: Option<usize>)
    ensures
        match found {
            Some(i) => first_match(answer_list.deep_view(), guess@) == Some(i as int),
            None => first_match(answer_list.deep_view(), guess@) is None,
        },
        match found {
            Some(i) => i < answer_list.len() && accepts(answer_list.deep_view()[i as int], guess@)
                && forall|j: int|
                0 <= j < i ==> !accepts(#[trigger] answer_list.deep_view()[j], guess@),
            None => !any_accepts(answer_list.deep_view(), guess@),
        },
{
    let ghost all = answer_list.deep_view();
    let mut i: usize = 0;
    assert(all.take(0) =~= Seq::empty());
    while i < answer_list.len()
        invariant
            i <= answer_list.len(),
            all == answer_list.deep_view(),
            first_match(all.take(i as int), guess@) is None,
        decreases answer_list.len() - i,
    {
        proof {
            assert(all.take(i + 1).drop_last() =~= all.take(i as int));
            assert(all.take(i + 1).last() == all[i as int]);
            assert(all[i as int] == answer_list[i as int].deep_view());
        }
        if check(&answer_list[i], guess) {
            proof {
                lemma_first_match_stays(all, guess@, i + 1);
                lemma_first_match(all, guess@);
            }
            return Some(i);
        }
        i += 1;
    }
    assert(all.take(i as int) =~= all);
    proof {
        lemma_first_match(all, guess@);
    }
    None
}

/// Whether a guess is accepted depends on its normal form alone: two guesses
/// that differ only in case and surrounding whitespace, so that their normal
/// forms agree, are accepted by the same answers. That holds of a guess and
/// its form in capitals wherever lowercase undoes the capitals; it does not
/// for a letter such as the sharp s, whose capital form is a double S.
pub proof fn law_match_by_normal_form(answer: Seq<Seq<char>>, guess: Seq<char>, other: Seq<char>)
    requires
        normal_form(guess) == normal_form(other),
    ensures
        accepts(answer, guess) == accepts(answer, other),
{
    if accepts(answer, guess) {
        let i = choose|i: int|
            0 <= i < answer.len() && normal_form(#[trigger] answer[i]) == normal_form(guess);
        assert(normal_form(answer[i]) == normal_form(other));
    }
    if accepts(answer, other) {
        let i = choose|i: int|
            0 <= i < answer.len() && normal_form(#[trigger] answer[i]) == normal_form(other);
        assert(normal_form(answer[i]) == normal_form(guess));
    }
}

/// Whitespace before and after a guess makes no difference.
pub proof fn law_match_ignores_padding(
    answer: Seq<Seq<char>>,
    guess: Seq<char>,
    before: Seq<char>,
    after: Seq<char>,
)
    requires
        all_white(before),
        all_white(after),
    ensures
        normal_form(before + guess + after) == normal_form(guess),
        accepts(answer, before + guess + after) == accepts(answer, guess),
{
    lemma_trimmed_padding(before, guess, after);
    law_match_by_normal_form(answer, before + guess + after, guess);
}

/// Every answer accepts each of its own spellings.
pub proof fn law_match_own_spelling(answer: Seq<Seq<char>>, i: int)
    requires
        0 <= i < answer.len(),
    ensures
        accepts(answer, answer[i]),
{
}

} // verus!
