//! Character-level helpers shared by the parser and by answer matching.
//!
//! Text is modelled as `Seq<char>`. Executable code walks a `Vec<char>` by
//! index, so that every position it computes can be stated against the model.

use vstd::prelude::*;

verus! {

/// Whether `c` counts as whitespace: what `char::is_whitespace` answers for it.
pub uninterp spec fn white_space(c: char) -> bool;

/// What `str::to_lowercase` makes of the text `s`.
pub uninterp spec fn lowercase_of(s: Seq<char>) -> Seq<char>;

/// Tests one character for whitespace.
///
/// Wraps `char::is_whitespace`; the answer is a fixed property of the
/// character, which the contract names `white_space`.
#[verifier::external_body]
pub(crate) fn is_whitespace(c: char) -> (b: bool)
    ensures
        b == white_space(c),
{
    c.is_whitespace()
}

/// The lowercase form of a string.
///
/// Wraps `str::to_lowercase`. The mapping is long and depends on the text
/// alone, so the contract only names it `lowercase_of`.
#[verifier::external_body]
pub(crate) fn to_lowercase(s: &str) -> (out: String)
    ensures
        out@ == lowercase_of(s@),
{
    s.to_lowercase()
}

/// Appends one character to a string.
///
/// Wraps `String::push`, which appends the given `char` to the end.
#[verifier::external_body]
pub(crate) fn push_char(s: &mut String, c: char)
    ensures
        final(s)@ == old(s)@.push(c),
{
    s.push(c);
}

/// `s` without its leading whitespace.
pub open spec fn trim_start(s: Seq<char>) -> Seq<char>
    decreases s.len(),
{
    if s.len() > 0 && white_space(s[0]) {
        trim_start(s.subrange(1, s.len() as int))
    } else {
        s
    }
}

/// `s` without its trailing whitespace.
pub open spec fn trim_end(s: Seq<char>) -> Seq<char>
    decreases s.len(),
{
    if s.len() > 0 && white_space(s[s.len() - 1]) {
        trim_end(s.subrange(0, s.len() - 1))
    } else {
        s
    }
}

/// `s` without leading and trailing whitespace.
pub open spec fn trimmed(s: Seq<char>) -> Seq<char> {
    trim_end(trim_start(s))
}

/// Every character of `s` is whitespace.
pub open spec fn all_white(s: Seq<char>) -> bool {
    forall|i: int| 0 <= i < s.len() ==> white_space(#[trigger] s[i])
}

/// Whitespace put before a text is trimmed away again.
pub proof fn lemma_trim_start_skips(pad: Seq<char>, s: Seq<char>)
    requires
        all_white(pad),
    ensures
        trim_start(pad + s) == trim_start(s),
    decreases pad.len(),
{
    if pad.len() > 0 {
        let t = pad + s;
        assert(t[0] == pad[0]);
        assert(t.subrange(1, t.len() as int) =~= pad.subrange(1, pad.len() as int) + s);
        assert forall|i: int| 0 <= i < pad.len() - 1 implies white_space(
            #[trigger] pad.subrange(1, pad.len() as int)[i],
        ) by {
            assert(pad.subrange(1, pad.len() as int)[i] == pad[i + 1]);
        }
        lemma_trim_start_skips(pad.subrange(1, pad.len() as int), s);
    } else {
        assert(pad + s =~= s);
    }
}

/// Whitespace put after a text is trimmed away again.
pub proof fn lemma_trim_end_skips(s: Seq<char>, pad: Seq<char>)
    requires
        all_white(pad),
    ensures
        trim_end(s + pad) == trim_end(s),
    decreases pad.len(),
{
    if pad.len() > 0 {
        let t = s + pad;
        assert(t[t.len() - 1] == pad[pad.len() - 1]);
        assert(t.subrange(0, t.len() - 1) =~= s + pad.subrange(0, pad.len() - 1));
        assert forall|i: int| 0 <= i < pad.len() - 1 implies white_space(
            #[trigger] pad.subrange(0, pad.len() - 1)[i],
        ) by {
            assert(pad.subrange(0, pad.len() - 1)[i] == pad[i]);
        }
        lemma_trim_end_skips(s, pad.subrange(0, pad.len() - 1));
    } else {
        assert(s + pad =~= s);
    }
}

/// Leading whitespace is skipped whatever follows the text: either all of
/// `s` is whitespace, or trimming the start of `s + rest` leaves `rest` in
/// place.
pub proof fn lemma_trim_start_append(s: Seq<char>, rest: Seq<char>)
    ensures
        trim_start(s + rest) == (if all_white(s) {
            trim_start(rest)
        } else {
            trim_start(s) + rest
        }),
    decreases s.len(),
{
    if s.len() == 0 {
        assert(s + rest =~= rest);
    } else if white_space(s[0]) {
        let t = s + rest;
        let tail = s.subrange(1, s.len() as int);
        assert(t[0] == s[0]);
        assert(t.subrange(1, t.len() as int) =~= tail + rest);
        lemma_trim_start_append(tail, rest);
        if all_white(tail) {
            assert forall|i: int| 0 <= i < s.len() implies white_space(#[trigger] s[i]) by {
                if i > 0 {
                    assert(s[i] == tail[i - 1]);
                }
            }
        } else {
            let i = choose|i: int| 0 <= i < tail.len() && !white_space(#[trigger] tail[i]);
            assert(s[i + 1] == tail[i]);
        }
    } else {
        assert((s + rest)[0] == s[0]);
    }
}

/// A text that is all whitespace trims to nothing.
pub proof fn lemma_trim_start_white(s: Seq<char>)
    requires
        all_white(s),
    ensures
        trim_start(s) == Seq::<char>::empty(),
    decreases s.len(),
{
    if s.len() > 0 {
        let tail = s.subrange(1, s.len() as int);
        assert forall|i: int| 0 <= i < tail.len() implies white_space(#[trigger] tail[i]) by {
            assert(tail[i] == s[i + 1]);
        }
        lemma_trim_start_white(tail);
    } else {
        assert(s =~= Seq::<char>::empty());
    }
}

/// Whitespace around a text does not change what it trims to.
pub proof fn lemma_trimmed_padding(before: Seq<char>, s: Seq<char>, after: Seq<char>)
    requires
        all_white(before),
        all_white(after),
    ensures
        trimmed(before + s + after) == trimmed(s),
{
    assert(before + s + after =~= before + (s + after));
    lemma_trim_start_skips(before, s + after);
    lemma_trim_start_append(s, after);
    if all_white(s) {
        lemma_trim_start_white(after);
        lemma_trim_start_white(s);
    } else {
        lemma_trim_end_skips(trim_start(s), after);
    }
}

/// Where `c` first stands in `s`, or `s.len()` if it does not occur.
pub open spec fn position_of(s: Seq<char>, c: char) -> int
    decreases s.len(),
{
    if s.len() == 0 || s[0] == c {
        0
    } else {
        1 + position_of(s.subrange(1, s.len() as int), c)
    }
}

/// `position_of` is the least position that holds `c`.
pub proof fn lemma_position_of(s: Seq<char>, c: char)
    ensures
        0 <= position_of(s, c) <= s.len(),
        position_of(s, c) < s.len() ==> s[position_of(s, c)] == c,
        forall|i: int| 0 <= i < position_of(s, c) ==> s[i] != c,
    decreases s.len(),
{
    if s.len() == 0 || s[0] == c {
    } else {
        let rest = s.subrange(1, s.len() as int);
        lemma_position_of(rest, c);
        assert forall|i: int| 0 <= i < position_of(s, c) implies s[i] != c by {
            if i > 0 {
                assert(s[i] == rest[i - 1]);
            }
        }
    }
}

/// The pieces of `s` between occurrences of `d`. There is always at least
/// one piece; `n` occurrences give `n + 1` pieces, some of them possibly
/// empty.
pub open spec fn split_on(s: Seq<char>, d: char) -> Seq<Seq<char>>
    decreases s.len(),
{
    if s.len() == 0 {
        seq![Seq::<char>::empty()]
    } else {
        let before = split_on(s.subrange(0, s.len() - 1), d);
        if s[s.len() - 1] == d {
            before.push(Seq::<char>::empty())
        } else {
            before.update(before.len() - 1, before[before.len() - 1].push(s[s.len() - 1]))
        }
    }
}

/// Splitting always yields a piece, and no piece holds the delimiter.
pub proof fn lemma_split_on_pieces(s: Seq<char>, d: char)
    ensures
        split_on(s, d).len() >= 1,
        forall|i: int, j: int|
            0 <= i < split_on(s, d).len() && 0 <= j < split_on(s, d)[i].len() ==> split_on(
                s,
                d,
            )[i][j] != d,
    decreases s.len(),
{
    if s.len() > 0 {
        lemma_split_on_pieces(s.subrange(0, s.len() - 1), d);
    }
}

/// The value of the decimal digit `c`, if it is one.
pub open spec fn digit_value(c: char) -> Option<nat> {
    if '0' <= c <= '9' {
        Some((c as nat - '0' as nat) as nat)
    } else {
        None
    }
}

/// The number that `s` writes in decimal, if `s` is made of digits only.
/// The empty text writes no number.
pub open spec fn decimal_value(s: Seq<char>) -> Option<nat>
    decreases s.len(),
{
    if s.len() == 0 {
        None
    } else if s.len() == 1 {
        digit_value(s[0])
    } else {
        match (decimal_value(s.subrange(0, s.len() - 1)), digit_value(s[s.len() - 1])) {
            (Some(high), Some(low)) => Some(high * 10 + low),
            _ => None,
        }
    }
}

/// The characters of `s`, in order.
pub fn chars_of(s: &str) -> (out: Vec<char>)
    ensures
        out@ == s@,
{
    let mut out: Vec<char> = Vec::new();
    for c in it: s.chars()
        invariant
            out@ == it.seq().take(it.index()),
            it.seq() == s@,
    {
        out.push(c);
    }
    out
}

/// A string holding the characters `v[from..to]`.
pub fn string_of(v: &Vec<char>, from: usize, to: usize) -> (out: String)
    requires
        from <= to <= v.len(),
    ensures
        out@ == v@.subrange(from as int, to as int),
{
    let mut out = String::new();
    let mut i: usize = from;
    while i < to
        invariant
            from <= i <= to <= v.len(),
            out@ == v@.subrange(from as int, i as int),
        decreases to - i,
    {
        push_char(&mut out, v[i]);
        i += 1;
    }
    out
}

/// The bounds of `v[from..to]` once leading and trailing whitespace is left
/// out.
pub fn trim_range(v: &Vec<char>, from: usize, to: usize) -> (r: (usize, usize))
    requires
        from <= to <= v.len(),
    ensures
        from <= r.0 <= r.1 <= to,
        v@.subrange(r.0 as int, r.1 as int) == trimmed(v@.subrange(from as int, to as int)),
        forall|i: int| from <= i < r.0 || r.1 <= i < to ==> white_space(#[trigger] v[i]),
        r.0 < r.1 ==> !white_space(v[r.0 as int]) && !white_space(v[r.1 - 1]),
{
    let mut a: usize = from;
    while a < to && is_whitespace(v[a])
        invariant
            from <= a <= to <= v.len(),
            trim_start(v@.subrange(a as int, to as int)) == trim_start(
                v@.subrange(from as int, to as int),
            ),
            forall|i: int| from <= i < a ==> white_space(#[trigger] v[i]),
        decreases to - a,
    {
        proof {
            let s = v@.subrange(a as int, to as int);
            assert(s.subrange(1, s.len() as int) =~= v@.subrange(a + 1, to as int));
        }
        a += 1;
    }
    let mut b: usize = to;
    while b > a && is_whitespace(v[b - 1])
        invariant
            a <= b <= to <= v.len(),
            trim_end(v@.subrange(a as int, b as int)) == trim_end(v@.subrange(a as int, to as int)),
            forall|i: int| b <= i < to ==> white_space(#[trigger] v[i]),
            a < to ==> !white_space(v[a as int]),
        decreases b - a,
    {
        proof {
            let s = v@.subrange(a as int, b as int);
            assert(s.subrange(0, s.len() - 1) =~= v@.subrange(a as int, b - 1));
        }
        b -= 1;
    }
    (a, b)
}

/// Whether two strings hold the same text.
pub fn same_text(a: &str, b: &str) -> (same: bool)
    ensures
        same == (a@ == b@),
{
    let x = chars_of(a);
    let y = chars_of(b);
    if x.len() != y.len() {
        return false;
    }
    let mut i: usize = 0;
    while i < x.len()
        invariant
            i <= x.len(),
            x.len() == y.len(),
            x@ == a@,
            y@ == b@,
            forall|j: int| 0 <= j < i ==> x[j] == y[j],
        decreases x.len() - i,
    {
        if x[i] != y[i] {
            return false;
        }
        i += 1;
    }
    assert(x@ =~= y@);
    true
}

/// The first position in `v[from..to]` that holds `c`, or `to`.
pub fn find_char(v: &Vec<char>, from: usize, to: usize, c: char) -> (at: usize)
    requires
        from <= to <= v.len(),
    ensures
        from <= at <= to,
        at - from == position_of(v@.subrange(from as int, to as int), c),
        at < to ==> v[at as int] == c,
        forall|i: int| from <= i < at ==> v[i] != c,
{
    proof {
        let s = v@.subrange(from as int, to as int);
        lemma_position_of(s, c);
        assert forall|i: int| from <= i < from + position_of(s, c) implies v[i] != c by {
            assert(s[i - from] == v[i]);
        }
    }
    let mut at: usize = from;
    while at < to && v[at] != c
        invariant
            from <= at <= to <= v.len(),
            position_of(v@.subrange(from as int, to as int), c) == (at - from) + position_of(
                v@.subrange(at as int, to as int),
                c,
            ),
        decreases to - at,
    {
        proof {
            let s = v@.subrange(at as int, to as int);
            assert(s.subrange(1, s.len() as int) =~= v@.subrange(at + 1, to as int));
        }
        at += 1;
    }
    at
}

/// The bounds of the pieces of `v[from..to]` between occurrences of `d`.
pub fn split_ranges(v: &Vec<char>, from: usize, to: usize, d: char) -> (pieces: Vec<
    (usize, usize),
>)
    requires
        from <= to <= v.len(),
    ensures
        pieces.len() == split_on(v@.subrange(from as int, to as int), d).len(),
        forall|i: int|
            0 <= i < pieces.len() ==> from <= (#[trigger] pieces[i]).0 <= pieces[i].1 <= to
                && v@.subrange(pieces[i].0 as int, pieces[i].1 as int) == split_on(
                v@.subrange(from as int, to as int),
                d,
            )[i],
{
    let mut pieces: Vec<(usize, usize)> = Vec::new();
    let mut start: usize = from;
    let mut at: usize = from;
    while at < to
        invariant
            from <= start <= at <= to <= v.len(),
            pieces.len() + 1 == split_on(v@.subrange(from as int, at as int), d).len(),
            forall|i: int|
                0 <= i < pieces.len() ==> from <= (#[trigger] pieces[i]).0 <= pieces[i].1 <= to
                    && v@.subrange(pieces[i].0 as int, pieces[i].1 as int) == split_on(
                    v@.subrange(from as int, at as int),
                    d,
                )[i],
            v@.subrange(start as int, at as int) == split_on(
                v@.subrange(from as int, at as int),
                d,
            )[pieces.len() as int],
        decreases to - at,
    {
        proof {
            let next = v@.subrange(from as int, at + 1);
            assert(next.subrange(0, next.len() - 1) =~= v@.subrange(from as int, at as int));
            assert(next[next.len() - 1] == v@[at as int]);
            assert(v@.subrange(start as int, at + 1) =~= v@.subrange(start as int, at as int).push(
                v@[at as int],
            ));
            assert(v@.subrange(at + 1, at + 1) =~= Seq::<char>::empty());
        }
        if v[at] == d {
            pieces.push((start, at));
            start = at + 1;
        }
        at += 1;
    }
    pieces.push((start, to));
    pieces
}

/// Reads `v[from..to]` as a decimal number.
///
/// Returns the number if the text is made of one or more digits and the
/// number fits in `u64`, and nothing otherwise.
pub fn parse_decimal(v: &Vec<char>, from: usize, to: usize) -> (n: Option<u64>)
    requires
        from <= to <= v.len(),
    ensures
        n == decimal_u64(v@.subrange(from as int, to as int)),
{
    if from == to {
        return None;
    }
    let mut value: u64 = 0;
    let mut at: usize = from;
    while at < to
        invariant
            from <= at <= to <= v.len(),
            from < to,
            at > from ==> decimal_value(v@.subrange(from as int, at as int)) == Some(value as nat),
            at == from ==> value == 0,
        decreases to - at,
    {
        let c = v[at];
        proof {
            let next = v@.subrange(from as int, at + 1);
            assert(next.subrange(0, next.len() - 1) =~= v@.subrange(from as int, at as int));
            assert(next[next.len() - 1] == c);
            lemma_decimal_prefix(v@.subrange(from as int, to as int), at + 1 - from);
            assert(v@.subrange(from as int, to as int).subrange(0, at + 1 - from) =~= next);
        }
        if c < '0' || c > '9' {
            return None;
        }
        let low: u64 = (c as u64) - ('0' as u64);
        if value > (u64::MAX - low) / 10 {
            proof {
                lemma_decimal_grows(v@.subrange(from as int, to as int), at + 1 - from);
            }
            return None;
        }
        value = value * 10 + low;
        at += 1;
    }
    assert(v@.subrange(from as int, at as int) == v@.subrange(from as int, to as int));
    Some(value)
}

/// The number that `s` writes in decimal, if it fits in `u64`.
pub open spec fn decimal_u64(s: Seq<char>) -> Option<u64> {
    match decimal_value(s) {
        Some(n) => if n <= u64::MAX {
            Some(n as u64)
        } else {
            None
        },
        None => None,
    }
}

/// If a text writes a number, so does every non-empty prefix of it.
pub proof fn lemma_decimal_prefix(s: Seq<char>, k: int)
    requires
        1 <= k <= s.len(),
    ensures
        decimal_value(s.subrange(0, k)) is None ==> decimal_value(s) is None,
    decreases s.len(),
{
    if k < s.len() {
        let init = s.subrange(0, s.len() - 1);
        assert(init.subrange(0, k) =~= s.subrange(0, k));
        lemma_decimal_prefix(init, k);
    } else {
        assert(s.subrange(0, k) =~= s);
    }
}

/// The number a text writes is at least the number any non-empty prefix of
/// it writes.
pub proof fn lemma_decimal_grows(s: Seq<char>, k: int)
    requires
        1 <= k <= s.len(),
    ensures
        decimal_value(s) matches Some(n) ==> decimal_value(s.subrange(0, k)) matches Some(m)
            && m <= n,
    decreases s.len(),
{
    if k < s.len() {
        let init = s.subrange(0, s.len() - 1);
        assert(init.subrange(0, k) =~= s.subrange(0, k));
        lemma_decimal_grows(init, k);
    } else {
        assert(s.subrange(0, k) =~= s);
    }
}

} // verus!
