//! The quiz file format.
//!
//! A quiz file is plain text. A line whose first character after any
//! whitespace is `#` is a comment. Every other line that is not blank reads
//! `field: value`, or `- field: value` for a line that carries metadata.
//! Blank lines separate entries, and each entry of two lines or more is one
//! question.

use vstd::prelude::*;
use crate::error::{ParseError, ParseReason};
use crate::question::Answer;
use crate::text::{
    chars_of,
    decimal_u64,
    find_char,
    lemma_split_on_pieces,
    parse_decimal,
    position_of,
    same_text,
    split_on,
    split_ranges,
    string_of,
    trim_range,
    trimmed,
};

verus! {

/// One `field: value` line of a quiz file.
#[derive(Debug, Clone, PartialEq, Eq)]
pub struct QuestionAttribute {
    pub field: String,
    pub value: String,
    /// The line's number in the file, counted from 1.
    pub line: usize,
    /// Whether the field was written after a dash.
    pub dashed: bool,
}

/// The lines of one entry, in order.
pub type QuestionEntry = Vec<QuestionAttribute>;

/// A [`QuestionAttribute`] as plain text.
pub struct AttributeLine {
    pub field: Seq<char>,
    pub value: Seq<char>,
    pub line: nat,
    pub dashed: bool,
}

impl DeepView for QuestionAttribute {
    type V = AttributeLine;

    open spec fn deep_view(&self) -> AttributeLine {
        AttributeLine {
            field: self.field@,
            value: self.value@,
            line: self.line as nat,
            dashed: self.dashed,
        }
    }
}

/// What one line of a quiz file is.
pub enum LineKind {
    /// Nothing but whitespace.
    Blank,
    /// A comment.
    Comment,
    /// Neither blank nor a comment, and without a colon.
    Malformed,
    /// A `field: value` line.
    Attribute(AttributeLine),
}

/// Reads the line `raw`, which is line `number` of its file.
///
/// The line is split at its first colon. Field and value are trimmed; a field
/// that starts with a dash and a space is a dashed one, and is what follows
/// them, trimmed again.
pub open spec fn line_kind(raw: Seq<char>, number: nat) -> LineKind {
    let line = trimmed(raw);
    let colon = position_of(line, ':');
    let head = trimmed(line.subrange(0, colon));
    let value = trimmed(line.subrange(colon + 1, line.len() as int));
    if line.len() == 0 {
        LineKind::Blank
    } else if line[0] == '#' {
        LineKind::Comment
    } else if colon == line.len() {
        LineKind::Malformed
    } else if head.len() >= 2 && head[0] == '-' && head[1] == ' ' {
        LineKind::Attribute(
            AttributeLine {
                field: trimmed(head.subrange(2, head.len() as int)),
                value,
                line: number,
                dashed: true,
            },
        )
    } else {
        LineKind::Attribute(AttributeLine { field: head, value, line: number, dashed: false })
    }
}

/// One line of a quiz file, as read.
#[derive(Debug, Clone, PartialEq, Eq)]
pub enum Line {
    Blank,
    Comment,
    Malformed,
    Attribute(QuestionAttribute),
}

impl DeepView for Line {
    type V = LineKind;

    open spec fn deep_view(&self) -> LineKind {
        match self {
            Line::Blank => LineKind::Blank,
            Line::Comment => LineKind::Comment,
            Line::Malformed => LineKind::Malformed,
            Line::Attribute(a) => LineKind::Attribute(a.deep_view()),
        }
    }
}

/// Reads the line `text[from..to]`, which is line `number` of its file.
pub fn read_line(text: &Vec<char>, from: usize, to: usize, number: usize) -> (line: Line)
    requires
        from <= to <= text.len(),
    ensures
        line.deep_view() == line_kind(text@.subrange(from as int, to as int), number as nat),
{
    let (a, b) = trim_range(text, from, to);
    let ghost line = text@.subrange(a as int, b as int);
    if a == b {
        return Line::Blank;
    }
    assert(line[0] == text@[a as int]);
    if text[a] == '#' {
        return Line::Comment;
    }
    let colon = find_char(text, a, b, ':');
    if colon == b {
        return Line::Malformed;
    }
    let (ha, hb) = trim_range(text, a, colon);
    let (va, vb) = trim_range(text, colon + 1, b);
    let ghost head = text@.subrange(ha as int, hb as int);
    proof {
        assert(line.subrange(0, colon - a) =~= text@.subrange(a as int, colon as int));
        assert(line.subrange(colon - a + 1, line.len() as int) =~= text@.subrange(
            colon + 1,
            b as int,
        ));
    }
    let value = string_of(text, va, vb);
    if hb - ha >= 2 && text[ha] == '-' && text[ha + 1] == ' ' {
        let (fa, fb) = trim_range(text, ha + 2, hb);
        proof {
            assert(head[0] == text@[ha as int] && head[1] == text@[ha + 1]);
            assert(head.subrange(2, head.len() as int) =~= text@.subrange(ha + 2, hb as int));
        }
        Line::Attribute(
            QuestionAttribute { field: string_of(text, fa, fb), value, line: number, dashed: true },
        )
    } else {
        proof {
            if head.len() >= 2 {
                assert(head[0] == text@[ha as int] && head[1] == text@[ha + 1]);
            }
        }
        Line::Attribute(
            QuestionAttribute { field: string_of(text, ha, hb), value, line: number, dashed: false },
        )
    }
}

/// The entries gathered from some lines: those already closed by a blank
/// line, and the lines of the one still open.
pub struct Grouping {
    pub closed: Seq<Seq<AttributeLine>>,
    pub open: Seq<AttributeLine>,
}

/// Gathers `lines` into entries. Comments are passed over, a blank line
/// closes the entry before it, and a line without a colon adds nothing.
pub open spec fn grouped(lines: Seq<Seq<char>>) -> Grouping
    decreases lines.len(),
{
    if lines.len() == 0 {
        Grouping { closed: Seq::empty(), open: Seq::empty() }
    } else {
        let before = grouped(lines.drop_last());
        match line_kind(lines.last(), lines.len()) {
            LineKind::Blank => if before.open.len() > 0 {
                Grouping { closed: before.closed.push(before.open), open: Seq::empty() }
            } else {
                before
            },
            LineKind::Attribute(a) => Grouping {
                closed: before.closed,
                open: before.open.push(a),
            },
            _ => before,
        }
    }
}

/// The number of the first line without a colon, if there is one.
pub open spec fn first_malformed(lines: Seq<Seq<char>>) -> Option<nat>
    decreases lines.len(),
{
    if lines.len() == 0 {
        None
    } else {
        match first_malformed(lines.drop_last()) {
            Some(n) => Some(n),
            None => if line_kind(lines.last(), lines.len()) is Malformed {
                Some(lines.len())
            } else {
                None
            },
        }
    }
}

/// The entries of a quiz file, in order, each with its lines; or the first
/// line that has no colon.
pub open spec fn entries_of(text: Seq<char>) -> Result<Seq<Seq<AttributeLine>>, ParseError> {
    let lines = split_on(text, '\n');
    let all = grouped(lines);
    match first_malformed(lines) {
        Some(n) => Err(ParseError { line: n as usize, reason: ParseReason::MissingColon }),
        None => Ok(
            if all.open.len() > 0 {
                all.closed.push(all.open)
            } else {
                all.closed
            },
        ),
    }
}

/// What `first_malformed` finds in a prefix of the lines, it finds in all of
/// them.
pub proof fn lemma_first_malformed_stays(lines: Seq<Seq<char>>, k: int)
    requires
        0 <= k <= lines.len(),
        first_malformed(lines.take(k)) is Some,
    ensures
        first_malformed(lines) == first_malformed(lines.take(k)),
    decreases lines.len() - k,
{
    if k < lines.len() {
        assert(lines.take(k + 1).drop_last() =~= lines.take(k));
        lemma_first_malformed_stays(lines, k + 1);
    } else {
        assert(lines.take(k) =~= lines);
    }
}

/// The result of reading entries, as plain text.
pub open spec fn entries_view(r: Result<Vec<QuestionEntry>, ParseError>) -> Result<
    Seq<Seq<AttributeLine>>,
    ParseError,
> {
    match r {
        Ok(entries) => Ok(entries.deep_view()),
        Err(e) => Err(e),
    }
}

/// Reads the entries of a quiz file.
///
/// Fails at the first line that is neither blank nor a comment and has no
/// colon.
pub fn read_file(text: &str) -> (r: Result<Vec<QuestionEntry>, ParseError>)
    ensures
        entries_view(r) == entries_of(text@),
{
    let chars = chars_of(text);
    assert(chars@.subrange(0, chars.len() as int) =~= text@);
    let bounds = split_ranges(&chars, 0, chars.len(), '\n');
    let ghost lines = split_on(text@, '\n');
    let mut closed: Vec<QuestionEntry> = Vec::new();
    let mut open: QuestionEntry = Vec::new();
    let mut i: usize = 0;
    assert(lines.take(0) =~= Seq::empty());
    while i < bounds.len()
        invariant
            i <= bounds.len(),
            lines == split_on(text@, '\n'),
            bounds.len() == lines.len(),
            forall|k: int|
                0 <= k < bounds.len() ==> 0 <= (#[trigger] bounds[k]).0 <= bounds[k].1
                    <= chars.len() && chars@.subrange(bounds[k].0 as int, bounds[k].1 as int)
                    == lines[k],
            first_malformed(lines.take(i as int)) is None,
            closed.deep_view() == grouped(lines.take(i as int)).closed,
            open.deep_view() == grouped(lines.take(i as int)).open,
        decreases bounds.len() - i,
    {
        let (from, to) = bounds[i];
        let line = read_line(&chars, from, to, i + 1);
        proof {
            assert(lines.take(i + 1).drop_last() =~= lines.take(i as int));
            assert(lines.take(i + 1).last() == lines[i as int]);
        }
        let ghost closed_before = closed.deep_view();
        let ghost open_before = open.deep_view();
        match line {
            Line::Blank => {
                if open.len() > 0 {
                    closed.push(open);
                    open = Vec::new();
                    assert(closed.deep_view() =~= closed_before.push(open_before));
                    assert(open.deep_view() =~= Seq::empty());
                }
            },
            Line::Comment => {},
            Line::Malformed => {
                proof {
                    lemma_first_malformed_stays(lines, i + 1);
                }
                return Err(ParseError { line: i + 1, reason: ParseReason::MissingColon });
            },
            Line::Attribute(a) => {
                open.push(a);
                assert(open.deep_view() =~= open_before.push(a.deep_view()));
            },
        }
        i += 1;
    }
    assert(lines.take(i as int) =~= lines);
    if open.len() > 0 {
        let ghost closed_before = closed.deep_view();
        let ghost open_before = open.deep_view();
        closed.push(open);
        assert(closed.deep_view() =~= closed_before.push(open_before));
    }
    Ok(closed)
}

/// A question as the file gives it.
#[derive(Debug, Clone, PartialEq, Eq)]
pub enum QuestionV2 {
    ShortAnswer {
        /// The wordings of the question; the first is the one shown.
        text: Vec<String>,
        answer: Answer,
        timeout: Option<u64>,
    },
    Flashcard { top: String, bottom: Answer, timeout: Option<u64> },
    List {
        /// The wordings of the question; the first is the one shown.
        text: Vec<String>,
        answers: Vec<Answer>,
        /// Whether the answers must come in the order given.
        ordered: bool,
        no_credit: Vec<String>,
    },
    MultipleChoice {
        /// The wordings of the question; the first is the one shown.
        text: Vec<String>,
        answer: Answer,
        /// The wrong options.
        choices: Vec<String>,
        timeout: Option<u64>,
    },
}

/// A [`QuestionV2`] as plain text.
pub enum QuestionV2View {
    ShortAnswer { text: Seq<Seq<char>>, answer: Seq<Seq<char>>, timeout: Option<u64> },
    Flashcard { top: Seq<char>, bottom: Seq<Seq<char>>, timeout: Option<u64> },
    List {
        text: Seq<Seq<char>>,
        answers: Seq<Seq<Seq<char>>>,
        ordered: bool,
        no_credit: Seq<Seq<char>>,
    },
    MultipleChoice {
        text: Seq<Seq<char>>,
        answer: Seq<Seq<char>>,
        choices: Seq<Seq<char>>,
        timeout: Option<u64>,
    },
}

impl DeepView for QuestionV2 {
    type V = QuestionV2View;

    open spec fn deep_view(&self) -> QuestionV2View {
        match self {
            QuestionV2::ShortAnswer { text, answer, timeout } => QuestionV2View::ShortAnswer {
                text: text.deep_view(),
                answer: answer.deep_view(),
                timeout: *timeout,
            },
            QuestionV2::Flashcard { top, bottom, timeout } => QuestionV2View::Flashcard {
                top: top@,
                bottom: bottom.deep_view(),
                timeout: *timeout,
            },
            QuestionV2::List { text, answers, ordered, no_credit } => QuestionV2View::List {
                text: text.deep_view(),
                answers: answers.deep_view(),
                ordered: *ordered,
                no_credit: no_credit.deep_view(),
            },
            QuestionV2::MultipleChoice {
                text,
                answer,
                choices,
                timeout,
            } => QuestionV2View::MultipleChoice {
                text: text.deep_view(),
                answer: answer.deep_view(),
                choices: choices.deep_view(),
                timeout: *timeout,
            },
        }
    }
}

impl QuestionV2View {
    /// The question with a time limit of `secs` seconds. A list has none.
    pub open spec fn with_timeout(self, secs: u64) -> QuestionV2View {
        match self {
            QuestionV2View::ShortAnswer { text, answer, timeout } => QuestionV2View::ShortAnswer {
                text,
                answer,
                timeout: Some(secs),
            },
            QuestionV2View::Flashcard { top, bottom, timeout } => QuestionV2View::Flashcard {
                top,
                bottom,
                timeout: Some(secs),
            },
            QuestionV2View::MultipleChoice {
                text,
                answer,
                choices,
                timeout,
            } => QuestionV2View::MultipleChoice { text, answer, choices, timeout: Some(secs) },
            QuestionV2View::List { .. } => self,
        }
    }

    /// A list with its answers in order, or not; any other question
    /// unchanged.
    pub open spec fn with_ordered(self, in_order: bool) -> QuestionV2View {
        match self {
            QuestionV2View::List { text, answers, ordered, no_credit } => QuestionV2View::List {
                text,
                answers,
                ordered: in_order,
                no_credit,
            },
            _ => self,
        }
    }

    /// A list with one more phrase that earns no credit; any other question
    /// unchanged.
    pub open spec fn with_no_credit(self, phrase: Seq<char>) -> QuestionV2View {
        match self {
            QuestionV2View::List { text, answers, ordered, no_credit } => QuestionV2View::List {
                text,
                answers,
                ordered,
                no_credit: no_credit.push(phrase),
            },
            _ => self,
        }
    }

    /// The question with one more wrong option. A short-answer question
    /// becomes a multiple-choice one by its first; lists and flashcards take
    /// none.
    pub open spec fn with_choice(self, option: Seq<char>) -> QuestionV2View {
        match self {
            QuestionV2View::ShortAnswer {
                text,
                answer,
                timeout,
            } => QuestionV2View::MultipleChoice { text, answer, choices: seq![option], timeout },
            QuestionV2View::MultipleChoice {
                text,
                answer,
                choices,
                timeout,
            } => QuestionV2View::MultipleChoice {
                text,
                answer,
                choices: choices.push(option),
                timeout,
            },
            _ => self,
        }
    }
}

impl QuestionV2 {
    /// Sets the time limit; a list takes none.
    pub fn with_timeout(self, secs: u64) -> (q: QuestionV2)
        ensures
            q.deep_view() == self.deep_view().with_timeout(secs),
    {
        match self {
            QuestionV2::ShortAnswer { text, answer, timeout: _ } => QuestionV2::ShortAnswer {
                text,
                answer,
                timeout: Some(secs),
            },
            QuestionV2::Flashcard { top, bottom, timeout: _ } => QuestionV2::Flashcard {
                top,
                bottom,
                timeout: Some(secs),
            },
            QuestionV2::MultipleChoice {
                text,
                answer,
                choices,
                timeout: _,
            } => QuestionV2::MultipleChoice { text, answer, choices, timeout: Some(secs) },
            QuestionV2::List { text, answers, ordered, no_credit } => QuestionV2::List {
                text,
                answers,
                ordered,
                no_credit,
            },
        }
    }

    /// Says whether a list's answers must come in order; any other question
    /// is left as it is.
    pub fn with_ordered(self, in_order: bool) -> (q: QuestionV2)
        ensures
            q.deep_view() == self.deep_view().with_ordered(in_order),
    {
        match self {
            QuestionV2::List { text, answers, ordered: _, no_credit } => QuestionV2::List {
                text,
                answers,
                ordered: in_order,
                no_credit,
            },
            other => other,
        }
    }

    /// Adds a phrase that earns no credit to a list; any other question is
    /// left as it is.
    pub fn with_no_credit(self, phrase: String) -> (q: QuestionV2)
        ensures
            q.deep_view() == self.deep_view().with_no_credit(phrase@),
    {
        match self {
            QuestionV2::List { text, answers, ordered, no_credit } => {
                let mut no_credit = no_credit;
                let ghost before = no_credit.deep_view();
                no_credit.push(phrase);
                assert(no_credit.deep_view() =~= before.push(phrase@));
                QuestionV2::List { text, answers, ordered, no_credit }
            },
            other => other,
        }
    }

    /// Adds a wrong option, which makes a short-answer question a
    /// multiple-choice one; lists and flashcards are left as they are.
    pub fn with_choice(self, option: String) -> (q: QuestionV2)
        ensures
            q.deep_view() == self.deep_view().with_choice(option@),
    {
        match self {
            QuestionV2::ShortAnswer { text, answer, timeout } => {
                let mut choices: Vec<String> = Vec::new();
                choices.push(option);
                assert(choices.deep_view() =~= seq![option@]);
                QuestionV2::MultipleChoice { text, answer, choices, timeout }
            },
            QuestionV2::MultipleChoice { text, answer, choices, timeout } => {
                let mut choices = choices;
                let ghost before = choices.deep_view();
                choices.push(option);
                assert(choices.deep_view() =~= before.push(option@));
                QuestionV2::MultipleChoice { text, answer, choices, timeout }
            },
            other => other,
        }
    }
}

/// A question read from a file, with its tags.
#[derive(Debug, Clone, PartialEq, Eq)]
pub struct QuestionWrapper {
    pub question: QuestionV2,
    pub tags: Vec<String>,
    /// The number of the entry's first line.
    pub line: usize,
}

/// A [`QuestionWrapper`] as plain text.
pub struct QuestionWrapperView {
    pub question: QuestionV2View,
    pub tags: Seq<Seq<char>>,
    pub line: nat,
}

impl QuestionWrapperView {
    /// The question has a wording, and each of its answers a spelling.
    pub open spec fn complete(self) -> bool {
        match self.question {
            QuestionV2View::ShortAnswer { text, answer, .. } => text.len() > 0 && answer.len() > 0,
            QuestionV2View::Flashcard { bottom, .. } => bottom.len() > 0,
            QuestionV2View::List { text, answers, .. } => text.len() > 0 && answers.len() > 0
                && forall|i: int| 0 <= i < answers.len() ==> (#[trigger] answers[i]).len() > 0,
            QuestionV2View::MultipleChoice { text, answer, .. } => text.len() > 0 && answer.len()
                > 0,
        }
    }
}

impl DeepView for QuestionWrapper {
    type V = QuestionWrapperView;

    open spec fn deep_view(&self) -> QuestionWrapperView {
        QuestionWrapperView {
            question: self.question.deep_view(),
            tags: self.tags.deep_view(),
            line: self.line as nat,
        }
    }
}

/// The spellings that `answer` lists, separated by `/`.
pub fn split_answer(answer: &str) -> (variants: Vec<String>)
    ensures
        variants.deep_view() == split_on(answer@, '/'),
        variants.len() > 0,
{
    let chars = chars_of(answer);
    assert(chars@.subrange(0, chars.len() as int) =~= answer@);
    let bounds = split_ranges(&chars, 0, chars.len(), '/');
    let mut variants: Vec<String> = Vec::new();
    let mut i: usize = 0;
    while i < bounds.len()
        invariant
            i <= bounds.len(),
            variants.len() == i,
            bounds.len() == split_on(answer@, '/').len(),
            forall|k: int|
                0 <= k < bounds.len() ==> 0 <= (#[trigger] bounds[k]).0 <= bounds[k].1
                    <= chars.len() && chars@.subrange(bounds[k].0 as int, bounds[k].1 as int)
                    == split_on(answer@, '/')[k],
            forall|k: int| 0 <= k < i ==> (#[trigger] variants[k])@ == split_on(answer@, '/')[k],
        decreases bounds.len() - i,
    {
        let (from, to) = bounds[i];
        variants.push(string_of(&chars, from, to));
        i += 1;
    }
    proof {
        lemma_split_on_pieces(answer@, '/');
    }
    assert(variants.deep_view() =~= split_on(answer@, '/'));
    variants
}

/// How many lines an entry starts with before its first dashed line.
pub open spec fn prefix_len(entry: Seq<AttributeLine>) -> nat
    decreases entry.len(),
{
    if entry.len() == 0 || entry[0].dashed {
        0
    } else {
        1 + prefix_len(entry.subrange(1, entry.len() as int))
    }
}

/// The values of the lines whose field is `q`: the wordings of a question.
pub open spec fn prompts(lines: Seq<AttributeLine>) -> Seq<Seq<char>>
    decreases lines.len(),
{
    if lines.len() == 0 {
        Seq::empty()
    } else if lines.last().field == "q"@ {
        prompts(lines.drop_last()).push(lines.last().value)
    } else {
        prompts(lines.drop_last())
    }
}

/// The answers that the lines give: one for each line whose field is not
/// `q`, with the spellings that its value lists.
pub open spec fn answers(lines: Seq<AttributeLine>) -> Seq<Seq<Seq<char>>>
    decreases lines.len(),
{
    if lines.len() == 0 {
        Seq::empty()
    } else if lines.last().field == "q"@ {
        answers(lines.drop_last())
    } else {
        answers(lines.drop_last()).push(split_on(lines.last().value, '/'))
    }
}

/// What one more line makes of a question.
///
/// Only a dashed line changes anything. `tag` adds a tag. `timeout` sets the
/// time limit, in seconds, if its value is a decimal number. `ordered`, with
/// the value `true` or `false`, says whether the answers of a list must come
/// in order. `no-credit` adds a phrase that earns no credit to a list.
/// `choice` adds a wrong option. A line with another field or an unusable
/// value changes nothing, and neither does one that does not apply to the
/// kind of question.
pub open spec fn with_line(w: QuestionWrapperView, a: AttributeLine) -> QuestionWrapperView {
    if !a.dashed {
        w
    } else if a.field == "tag"@ {
        QuestionWrapperView { question: w.question, tags: w.tags.push(a.value), line: w.line }
    } else if a.field == "timeout"@ {
        match decimal_u64(a.value) {
            Some(secs) => QuestionWrapperView {
                question: w.question.with_timeout(secs),
                tags: w.tags,
                line: w.line,
            },
            None => w,
        }
    } else if a.field == "ordered"@ {
        if a.value == "true"@ {
            QuestionWrapperView {
                question: w.question.with_ordered(true),
                tags: w.tags,
                line: w.line,
            }
        } else if a.value == "false"@ {
            QuestionWrapperView {
                question: w.question.with_ordered(false),
                tags: w.tags,
                line: w.line,
            }
        } else {
            w
        }
    } else if a.field == "no-credit"@ {
        QuestionWrapperView {
            question: w.question.with_no_credit(a.value),
            tags: w.tags,
            line: w.line,
        }
    } else if a.field == "choice"@ {
        QuestionWrapperView {
            question: w.question.with_choice(a.value),
            tags: w.tags,
            line: w.line,
        }
    } else {
        w
    }
}

/// What `lines`, taken in order, make of a question.
pub open spec fn with_lines(w: QuestionWrapperView, lines: Seq<AttributeLine>) -> QuestionWrapperView
    decreases lines.len(),
{
    if lines.len() == 0 {
        w
    } else {
        with_line(with_lines(w, lines.drop_last()), lines.last())
    }
}

/// The question that an entry describes.
///
/// An entry whose first field is `q` is read up to its first dashed line:
/// each `q` line gives a wording of the question, every other line an
/// answer. One answer makes a short-answer question, several make a list,
/// and none is an error at the entry's first line. Any other entry is a
/// flashcard: the first field is its front, the first value lists the
/// spellings of its back. The lines after those are applied with
/// [`with_lines`].
pub open spec fn built(entry: Seq<AttributeLine>) -> Result<QuestionWrapperView, ParseError>
    recommends
        entry.len() > 0,
{
    let first = entry[0];
    let lead = entry.take(prefix_len(entry) as int);
    let found = answers(lead);
    if first.field == "q"@ {
        if found.len() == 0 {
            Err(ParseError { line: first.line as usize, reason: ParseReason::NoAnswer })
        } else {
            Ok(
                with_lines(
                    QuestionWrapperView {
                        question: if found.len() == 1 {
                            QuestionV2View::ShortAnswer {
                                text: prompts(lead),
                                answer: found[0],
                                timeout: None,
                            }
                        } else {
                            QuestionV2View::List {
                                text: prompts(lead),
                                answers: found,
                                ordered: false,
                                no_credit: Seq::empty(),
                            }
                        },
                        tags: Seq::empty(),
                        line: first.line,
                    },
                    entry.skip(prefix_len(entry) as int),
                ),
            )
        }
    } else {
        Ok(
            with_lines(
                QuestionWrapperView {
                    question: QuestionV2View::Flashcard {
                        top: first.field,
                        bottom: split_on(first.value, '/'),
                        timeout: None,
                    },
                    tags: Seq::empty(),
                    line: first.line,
                },
                entry.skip(1),
            ),
        )
    }
}

/// The questions that `entries` describe, in order. An entry of fewer than
/// two lines is no question and is passed over. The first entry that cannot
/// be built fails the whole.
pub open spec fn questions_of(entries: Seq<Seq<AttributeLine>>) -> Result<
    Seq<QuestionWrapperView>,
    ParseError,
>
    decreases entries.len(),
{
    if entries.len() == 0 {
        Ok(Seq::empty())
    } else {
        match questions_of(entries.drop_last()) {
            Err(e) => Err(e),
            Ok(before) => if entries.last().len() < 2 {
                Ok(before)
            } else {
                match built(entries.last()) {
                    Err(e) => Err(e),
                    Ok(w) => Ok(before.push(w)),
                }
            },
        }
    }
}

/// The questions of a quiz file, in order.
///
/// A line without a colon fails the file, before anything else is looked at;
/// then the first `q` entry without an answer does.
pub open spec fn parsed(text: Seq<char>) -> Result<Seq<QuestionWrapperView>, ParseError> {
    match entries_of(text) {
        Err(e) => Err(e),
        Ok(entries) => questions_of(entries),
    }
}

/// `prefix_len` is the position of the first dashed line.
pub proof fn lemma_prefix_len(entry: Seq<AttributeLine>, k: int)
    requires
        0 <= k <= entry.len(),
        forall|j: int| 0 <= j < k ==> !(#[trigger] entry[j]).dashed,
        k < entry.len() ==> entry[k].dashed,
    ensures
        prefix_len(entry) == k,
    decreases entry.len(),
{
    if k > 0 {
        let rest = entry.subrange(1, entry.len() as int);
        assert(!entry[0].dashed);
        assert forall|j: int| 0 <= j < k - 1 implies !(#[trigger] rest[j]).dashed by {
            assert(rest[j] == entry[j + 1]);
        }
        lemma_prefix_len(rest, k - 1);
    }
}

impl QuestionWrapper {
    /// Applies one line of an entry that follows the lines the question was
    /// made from.
    pub fn with_line(self, attr: &QuestionAttribute) -> (w: QuestionWrapper)
        ensures
            w.deep_view() == with_line(self.deep_view(), attr.deep_view()),
    {
        if !attr.dashed {
            self
        } else if same_text(attr.field.as_str(), "tag") {
            let mut tags = self.tags;
            let ghost before = tags.deep_view();
            tags.push(attr.value.clone());
            assert(tags.deep_view() =~= before.push(attr.value@));
            QuestionWrapper { question: self.question, tags, line: self.line }
        } else if same_text(attr.field.as_str(), "timeout") {
            let digits = chars_of(attr.value.as_str());
            assert(digits@.subrange(0, digits.len() as int) =~= attr.value@);
            match parse_decimal(&digits, 0, digits.len()) {
                Some(secs) => QuestionWrapper {
                    question: self.question.with_timeout(secs),
                    tags: self.tags,
                    line: self.line,
                },
                None => self,
            }
        } else if same_text(attr.field.as_str(), "ordered") {
            if same_text(attr.value.as_str(), "true") {
                QuestionWrapper {
                    question: self.question.with_ordered(true),
                    tags: self.tags,
                    line: self.line,
                }
            } else if same_text(attr.value.as_str(), "false") {
                QuestionWrapper {
                    question: self.question.with_ordered(false),
                    tags: self.tags,
                    line: self.line,
                }
            } else {
                self
            }
        } else if same_text(attr.field.as_str(), "no-credit") {
            QuestionWrapper {
                question: self.question.with_no_credit(attr.value.clone()),
                tags: self.tags,
                line: self.line,
            }
        } else if same_text(attr.field.as_str(), "choice") {
            QuestionWrapper {
                question: self.question.with_choice(attr.value.clone()),
                tags: self.tags,
                line: self.line,
            }
        } else {
            self
        }
    }
}

/// The outcome of building one question, as plain text.
pub open spec fn wrapper_view(r: Result<QuestionWrapper, ParseError>) -> Result<
    QuestionWrapperView,
    ParseError,
> {
    match r {
        Ok(w) => Ok(w.deep_view()),
        Err(e) => Err(e),
    }
}

/// Builds the question that an entry describes.
pub fn build_question(entry: &QuestionEntry) -> (r: Result<QuestionWrapper, ParseError>)
    requires
        entry.len() > 0,
    ensures
        wrapper_view(r) == built(entry.deep_view()),
{
    let ghost lines = entry.deep_view();
    let line = entry[0].line;
    let mut at: usize;
    let question: QuestionV2;
    if same_text(entry[0].field.as_str(), "q") {
        let mut text: Vec<String> = Vec::new();
        let mut found: Vec<Answer> = Vec::new();
        at = 0;
        assert(lines.take(0) =~= Seq::empty());
        while at < entry.len() && !entry[at].dashed
            invariant
                at <= entry.len(),
                lines == entry.deep_view(),
                forall|j: int| 0 <= j < at ==> !(#[trigger] lines[j]).dashed,
                text.deep_view() == prompts(lines.take(at as int)),
                found.deep_view() == answers(lines.take(at as int)),
            decreases entry.len() - at,
        {
            proof {
                assert(lines.take(at + 1).drop_last() =~= lines.take(at as int));
                assert(lines.take(at + 1).last() == lines[at as int]);
            }
            let ghost text_before = text.deep_view();
            let ghost found_before = found.deep_view();
            if same_text(entry[at].field.as_str(), "q") {
                text.push(entry[at].value.clone());
                assert(text.deep_view() =~= text_before.push(entry[at as int].value@));
            } else {
                let variants = split_answer(entry[at].value.as_str());
                found.push(variants);
                assert(found.deep_view() =~= found_before.push(variants.deep_view()));
            }
            at += 1;
        }
        proof {
            lemma_prefix_len(lines, at as int);
        }
        if found.len() == 0 {
            return Err(ParseError { line, reason: ParseReason::NoAnswer });
        }
        if found.len() == 1 {
            let answer = found.remove(0);
            question = QuestionV2::ShortAnswer { text, answer, timeout: None };
        } else {
            let no_credit: Vec<String> = Vec::new();
            assert(no_credit.deep_view() =~= Seq::empty());
            question = QuestionV2::List { text, answers: found, ordered: false, no_credit };
        }
    } else {
        at = 1;
        question =
        QuestionV2::Flashcard {
            top: entry[0].field.clone(),
            bottom: split_answer(entry[0].value.as_str()),
            timeout: None,
        };
    }
    let tags: Vec<String> = Vec::new();
    assert(tags.deep_view() =~= Seq::empty());
    let mut wrapper = QuestionWrapper { question, tags, line };
    let ghost start = wrapper.deep_view();
    let from = at;
    assert(lines.subrange(from as int, at as int) =~= Seq::empty());
    while at < entry.len()
        invariant
            from <= at <= entry.len(),
            lines == entry.deep_view(),
            wrapper.deep_view() == with_lines(start, lines.subrange(from as int, at as int)),
        decreases entry.len() - at,
    {
        proof {
            let next = lines.subrange(from as int, at + 1);
            assert(next.drop_last() =~= lines.subrange(from as int, at as int));
            assert(next.last() == lines[at as int]);
        }
        wrapper = wrapper.with_line(&entry[at]);
        at += 1;
    }
    assert(lines.subrange(from as int, at as int) =~= lines.skip(from as int));
    Ok(wrapper)
}

/// The outcome of parsing, as plain text.
pub open spec fn parse_view(r: Result<Vec<QuestionWrapper>, ParseError>) -> Result<
    Seq<QuestionWrapperView>,
    ParseError,
> {
    match r {
        Ok(questions) => Ok(questions.deep_view()),
        Err(e) => Err(e),
    }
}

/// Reads the questions of a quiz file.
///
/// Nothing is kept of a file that holds an error.
pub fn parse(text: &str) -> (r: Result<Vec<QuestionWrapper>, ParseError>)
    ensures
        parse_view(r) == parsed(text@),
        r matches Ok(questions) ==> forall|i: int|
            0 <= i < questions.len() ==> (#[trigger] questions[i]).deep_view().complete(),
{
    let entries = match read_file(text) {
        Ok(entries) => entries,
        Err(e) => {
            return Err(e);
        },
    };
    let ghost all = entries.deep_view();
    let mut questions: Vec<QuestionWrapper> = Vec::new();
    let mut i: usize = 0;
    assert(all.take(0) =~= Seq::empty());
    assert(questions.deep_view() =~= Seq::empty());
    while i < entries.len()
        invariant
            i <= entries.len(),
            all == entries.deep_view(),
            entries_of(text@) == Ok::<Seq<Seq<AttributeLine>>, ParseError>(all),
            questions_of(all.take(i as int)) == Ok::<Seq<QuestionWrapperView>, ParseError>(
                questions.deep_view(),
            ),
        decreases entries.len() - i,
    {
        proof {
            assert(all.take(i + 1).drop_last() =~= all.take(i as int));
            assert(all.take(i + 1).last() == all[i as int]);
            assert(all[i as int] == entries[i as int].deep_view());
        }
        if entries[i].len() >= 2 {
            let ghost before = questions.deep_view();
            match build_question(&entries[i]) {
                Ok(w) => {
                    questions.push(w);
                    assert(questions.deep_view() =~= before.push(w.deep_view()));
                },
                Err(e) => {
                    proof {
                        lemma_questions_fail(all, i + 1);
                    }
                    return Err(e);
                },
            }
        }
        i += 1;
    }
    assert(all.take(i as int) =~= all);
    proof {
        lemma_parsed_complete(text@, questions.deep_view());
    }
    assert forall|i: int| 0 <= i < questions.len() implies (
    #[trigger] questions[i]).deep_view().complete() by {
        assert(questions.deep_view()[i] == questions[i].deep_view());
    }
    Ok(questions)
}

/// Once a prefix of the entries fails, the whole fails in the same way.
pub proof fn lemma_questions_fail(entries: Seq<Seq<AttributeLine>>, k: int)
    requires
        0 <= k <= entries.len(),
        questions_of(entries.take(k)) is Err,
    ensures
        questions_of(entries) == questions_of(entries.take(k)),
    decreases entries.len() - k,
{
    if k < entries.len() {
        assert(entries.take(k + 1).drop_last() =~= entries.take(k));
        lemma_questions_fail(entries, k + 1);
    } else {
        assert(entries.take(k) =~= entries);
    }
}

/// Parsing is a function of the text alone: whatever two runs over the same
/// text return, they return the same questions or the same error.
pub proof fn law_parse_deterministic(
    text: Seq<char>,
    first: Result<Vec<QuestionWrapper>, ParseError>,
    second: Result<Vec<QuestionWrapper>, ParseError>,
)
    requires
        parse_view(first) == parsed(text),
        parse_view(second) == parsed(text),
    ensures
        parse_view(first) == parse_view(second),
{
}

/// A line leaves a complete question complete.
pub proof fn lemma_with_line_complete(w: QuestionWrapperView, a: AttributeLine)
    requires
        w.complete(),
    ensures
        with_line(w, a).complete(),
{
}

/// Lines leave a complete question complete.
pub proof fn lemma_with_lines_complete(w: QuestionWrapperView, lines: Seq<AttributeLine>)
    requires
        w.complete(),
    ensures
        with_lines(w, lines).complete(),
    decreases lines.len(),
{
    if lines.len() > 0 {
        lemma_with_lines_complete(w, lines.drop_last());
        lemma_with_line_complete(with_lines(w, lines.drop_last()), lines.last());
    }
}

/// Lines that start with a `q` line give a wording.
pub proof fn lemma_prompts_nonempty(lines: Seq<AttributeLine>)
    requires
        lines.len() > 0,
        lines[0].field == "q"@,
    ensures
        prompts(lines).len() > 0,
    decreases lines.len(),
{
    if lines.len() > 1 {
        lemma_prompts_nonempty(lines.drop_last());
    }
}

/// Every answer read from lines has a spelling.
pub proof fn lemma_answers_nonempty(lines: Seq<AttributeLine>)
    ensures
        forall|i: int| 0 <= i < answers(lines).len() ==> (#[trigger] answers(lines)[i]).len() > 0,
        lines.len() == 0 ==> answers(lines).len() == 0,
    decreases lines.len(),
{
    if lines.len() > 0 {
        let before = answers(lines.drop_last());
        lemma_answers_nonempty(lines.drop_last());
        lemma_split_on_pieces(lines.last().value, '/');
        assert forall|i: int| 0 <= i < answers(lines).len() implies (#[trigger] answers(
            lines,
        )[i]).len() > 0 by {
            if i < before.len() {
                assert(answers(lines)[i] == before[i]);
            }
        }
    }
}

/// An entry has no more leading lines than lines.
pub proof fn lemma_prefix_len_bound(entry: Seq<AttributeLine>)
    ensures
        prefix_len(entry) <= entry.len(),
    decreases entry.len(),
{
    if entry.len() > 0 && !entry[0].dashed {
        lemma_prefix_len_bound(entry.subrange(1, entry.len() as int));
    }
}

/// A question built from an entry is complete.
pub proof fn lemma_built_complete(entry: Seq<AttributeLine>)
    requires
        entry.len() > 0,
    ensures
        built(entry) matches Ok(w) ==> w.complete(),
{
    let first = entry[0];
    let lead = entry.take(prefix_len(entry) as int);
    if first.field == "q"@ {
        lemma_answers_nonempty(lead);
        lemma_prefix_len_bound(entry);
        if answers(lead).len() > 0 {
            assert(lead[0] == entry[0]);
            lemma_prompts_nonempty(lead);
            let start = QuestionWrapperView {
                question: if answers(lead).len() == 1 {
                    QuestionV2View::ShortAnswer {
                        text: prompts(lead),
                        answer: answers(lead)[0],
                        timeout: None,
                    }
                } else {
                    QuestionV2View::List {
                        text: prompts(lead),
                        answers: answers(lead),
                        ordered: false,
                        no_credit: Seq::empty(),
                    }
                },
                tags: Seq::empty(),
                line: first.line,
            };
            lemma_with_lines_complete(start, entry.skip(prefix_len(entry) as int));
        }
    } else {
        lemma_split_on_pieces(first.value, '/');
        let start = QuestionWrapperView {
            question: QuestionV2View::Flashcard {
                top: first.field,
                bottom: split_on(first.value, '/'),
                timeout: None,
            },
            tags: Seq::empty(),
            line: first.line,
        };
        lemma_with_lines_complete(start, entry.skip(1));
    }
}

/// Every question that entries give is complete.
pub proof fn lemma_questions_complete(
    entries: Seq<Seq<AttributeLine>>,
    questions: Seq<QuestionWrapperView>,
)
    requires
        questions_of(entries) == Ok::<Seq<QuestionWrapperView>, ParseError>(questions),
    ensures
        forall|i: int| 0 <= i < questions.len() ==> (#[trigger] questions[i]).complete(),
    decreases entries.len(),
{
    if entries.len() > 0 {
        let before = questions_of(entries.drop_last())->Ok_0;
        lemma_questions_complete(entries.drop_last(), before);
        if entries.last().len() >= 2 {
            lemma_built_complete(entries.last());
            assert forall|i: int| 0 <= i < questions.len() implies (
            #[trigger] questions[i]).complete() by {
                if i < before.len() {
                    assert(questions[i] == before[i]);
                }
            }
        }
    }
}

/// Every question of a quiz file has a wording, and each of its answers a
/// spelling.
pub proof fn lemma_parsed_complete(text: Seq<char>, questions: Seq<QuestionWrapperView>)
    requires
        parsed(text) == Ok::<Seq<QuestionWrapperView>, ParseError>(questions),
    ensures
        forall|i: int| 0 <= i < questions.len() ==> (#[trigger] questions[i]).complete(),
{
    lemma_questions_complete(entries_of(text)->Ok_0, questions);
}

} // verus!
