//! Taking text apart: lines, words and the numbers in them.

use vstd::prelude::*;
use vstd::slice::slice_subrange;

use crate::text::{
    code_of, decimal_digits, law_a_number_is_read_as_what_it_denotes, number_in, parse_number,
};

verus! {

/// The characters Unicode calls white space.
pub open spec fn white(c: char) -> bool {
    ||| 0x09 <= c as int <= 0x0d
    ||| c as int == 0x20
    ||| c as int == 0x85
    ||| c as int == 0xa0
    ||| c as int == 0x1680
    ||| 0x2000 <= c as int <= 0x200a
    ||| c as int == 0x2028
    ||| c as int == 0x2029
    ||| c as int == 0x202f
    ||| c as int == 0x205f
    ||| c as int == 0x3000
}

pub fn is_white(c: char) -> (r: bool)
    ensures
        r == white(c),
{
    let n: u32 = code_of(c);
    (0x09 <= n && n <= 0x0d) || n == 0x20 || n == 0x85 || n == 0xa0 || n == 0x1680 || (0x2000 <= n
        && n <= 0x200a) || n == 0x2028 || n == 0x2029 || n == 0x202f || n == 0x205f || n == 0x3000
}

/// Where a character first stands, or the length where it does not.
pub open spec fn first_at(s: Seq<char>, c: char) -> int
    decreases s.len(),
{
    if s.len() == 0 || s[0] == c {
        0
    } else {
        1 + first_at(s.skip(1), c)
    }
}

pub proof fn lemma_first_at(s: Seq<char>, c: char)
    ensures
        0 <= first_at(s, c) <= s.len(),
        first_at(s, c) < s.len() ==> s[first_at(s, c)] == c,
        forall|i: int| 0 <= i < first_at(s, c) ==> s[i] != c,
    decreases s.len(),
{
    if s.len() > 0 && s[0] != c {
        lemma_first_at(s.skip(1), c);
        assert forall|i: int| 0 <= i < first_at(s, c) implies s[i] != c by {
            if i > 0 {
                assert(s[i] == s.skip(1)[i - 1]);
            }
        }
    }
}

pub fn find(s: &[char], c: char) -> (r: usize)
    ensures
        r == first_at(s@, c),
        r <= s@.len(),
{
    let mut i: usize = 0;
    assert(s@.skip(0) =~= s@);
    while i < s.len() && s[i] != c
        invariant
            i <= s@.len(),
            first_at(s@, c) == i + first_at(s@.skip(i as int), c),
        decreases s@.len() - i,
    {
        assert(s@.skip(i as int).skip(1) =~= s@.skip(i + 1));
        i = i + 1;
    }
    i
}

/// A line without the carriage return it may end with.
pub open spec fn uncarried(s: Seq<char>) -> Seq<char> {
    if s.len() > 0 && s.last() == '\r' {
        s.drop_last()
    } else {
        s
    }
}

/// The lines of a text: each ends with a newline, or a carriage return and a
/// newline, and the last one need not.
pub open spec fn lines_of(s: Seq<char>) -> Seq<Seq<char>>
    decreases s.len(),
{
    proof {
        lemma_first_at(s, '\n');
    }
    let n = first_at(s, '\n');
    if s.len() == 0 {
        Seq::empty()
    } else if n >= s.len() {
        seq![s]
    } else {
        seq![uncarried(s.take(n))] + lines_of(s.skip(n + 1))
    }
}

/// Lines as mathematical values.
pub open spec fn texts(lines: Seq<Vec<char>>) -> Seq<Seq<char>> {
    lines.map_values(|l: Vec<char>| l@)
}

pub fn lines(s: &[char]) -> (r: Vec<Vec<char>>)
    ensures
        texts(r@) == lines_of(s@),
{
    let mut out: Vec<Vec<char>> = Vec::new();
    let mut at: usize = 0;
    assert(s@.skip(0) =~= s@);
    assert(texts(out@) + lines_of(s@) =~= lines_of(s@));
    while at < s.len()
        invariant
            at <= s@.len(),
            texts(out@) + lines_of(s@.skip(at as int)) == lines_of(s@),
        decreases s@.len() - at,
    {
        let rest: &[char] = slice_subrange(s, at, s.len());
        assert(rest@ =~= s@.skip(at as int));
        let n: usize = find(rest, '\n');
        let ghost done = texts(out@);
        if n >= rest.len() {
            out.push(copied_chars(rest));
            assert(texts(out@) =~= done + seq![rest@]);
            assert(texts(out@) =~= lines_of(s@));
            return out;
        }
        let end: usize = if n > 0 && rest[n - 1] == '\r' {
            n - 1
        } else {
            n
        };
        let line: &[char] = slice_subrange(rest, 0, end);
        assert(line@ =~= uncarried(rest@.take(n as int)));
        out.push(copied_chars(line));
        assert(texts(out@) =~= done.push(line@));
        assert(rest@.skip(n + 1) =~= s@.skip(at + n + 1));
        assert(done + (seq![line@] + lines_of(s@.skip(at + n + 1))) =~= texts(out@) + lines_of(
            s@.skip(at + n + 1),
        ));
        at = at + n + 1;
    }
    assert(texts(out@) =~= lines_of(s@));
    out
}

pub fn copied_chars(s: &[char]) -> (r: Vec<char>)
    ensures
        r@ == s@,
{
    let mut out: Vec<char> = Vec::new();
    let mut i: usize = 0;
    while i < s.len()
        invariant
            i <= s@.len(),
            out@ == s@.take(i as int),
        decreases s@.len() - i,
    {
        out.push(s[i]);
        assert(out@ =~= s@.take(i + 1));
        i = i + 1;
    }
    assert(out@ =~= s@);
    out
}

/// How many white characters a text starts with.
pub open spec fn lead(s: Seq<char>) -> int
    decreases s.len(),
{
    if s.len() == 0 || !white(s[0]) {
        0
    } else {
        1 + lead(s.skip(1))
    }
}

/// How many characters that are not white it starts with.
pub open spec fn run(s: Seq<char>) -> int
    decreases s.len(),
{
    if s.len() == 0 || white(s[0]) {
        0
    } else {
        1 + run(s.skip(1))
    }
}

/// A text without the white space round it.
pub open spec fn trimmed(s: Seq<char>) -> Seq<char>
    decreases s.len(),
{
    if s.len() == 0 {
        s
    } else if white(s[0]) {
        trimmed(s.skip(1))
    } else if white(s.last()) {
        trimmed(s.drop_last())
    } else {
        s
    }
}

/// The first word of a text: none where it is all white space.
pub open spec fn first_word(s: Seq<char>) -> Option<Seq<char>> {
    let rest = s.skip(lead(s));
    if rest.len() == 0 {
        None
    } else {
        Some(rest.take(run(rest)))
    }
}

fn lead_of(s: &[char]) -> (r: usize)
    ensures
        r == lead(s@),
        r <= s@.len(),
{
    let mut i: usize = 0;
    assert(s@.skip(0) =~= s@);
    while i < s.len() && is_white(s[i])
        invariant
            i <= s@.len(),
            lead(s@) == i + lead(s@.skip(i as int)),
        decreases s@.len() - i,
    {
        assert(s@.skip(i as int).skip(1) =~= s@.skip(i + 1));
        i = i + 1;
    }
    i
}

fn run_of(s: &[char]) -> (r: usize)
    ensures
        r == run(s@),
        r <= s@.len(),
{
    let mut i: usize = 0;
    assert(s@.skip(0) =~= s@);
    while i < s.len() && !is_white(s[i])
        invariant
            i <= s@.len(),
            run(s@) == i + run(s@.skip(i as int)),
        decreases s@.len() - i,
    {
        assert(s@.skip(i as int).skip(1) =~= s@.skip(i + 1));
        i = i + 1;
    }
    i
}

pub fn word(s: &[char]) -> (r: Option<Vec<char>>)
    ensures
        r is Some <==> first_word(s@) is Some,
        r matches Some(w) ==> Some(w@) == first_word(s@),
{
    let from: usize = lead_of(s);
    let rest: &[char] = slice_subrange(s, from, s.len());
    assert(rest@ =~= s@.skip(from as int));
    if rest.len() == 0 {
        return None;
    }
    let n: usize = run_of(rest);
    let w: &[char] = slice_subrange(rest, 0, n);
    assert(w@ =~= rest@.take(n as int));
    Some(copied_chars(w))
}

pub fn trim(s: &[char]) -> (r: Vec<char>)
    ensures
        r@ == trimmed(s@),
{
    let mut from: usize = 0;
    let mut to: usize = s.len();
    assert(s@.subrange(0, s@.len() as int) =~= s@);
    while from < to && (is_white(s[from]) || is_white(s[to - 1]))
        invariant
            from <= to <= s@.len(),
            trimmed(s@.subrange(from as int, to as int)) == trimmed(s@),
        decreases to - from,
    {
        let ghost now = s@.subrange(from as int, to as int);
        if is_white(s[from]) {
            assert(now.skip(1) =~= s@.subrange(from + 1, to as int));
            from = from + 1;
        } else {
            assert(now.drop_last() =~= s@.subrange(from as int, to - 1));
            to = to - 1;
        }
    }
    let kept: &[char] = slice_subrange(s, from, to);
    copied_chars(kept)
}

/// Characters as bytes: one that is not ASCII is a byte no number has.
pub open spec fn narrow(s: Seq<char>) -> Seq<u8> {
    s.map_values(
        |c: char|
            if (c as int) < 128 {
                c as u8
            } else {
                255u8
            },
    )
}

/// The number a word reads as.
pub open spec fn number_of(s: Seq<char>, max: nat) -> Option<nat> {
    number_in(narrow(s), max)
}

pub fn number(s: &[char], max: u64) -> (r: Option<u64>)
    ensures
        r matches Some(n) ==> number_of(s@, max as nat) == Some(n as nat),
        r is None ==> number_of(s@, max as nat) is None,
{
    let mut bytes: Vec<u8> = Vec::new();
    let mut i: usize = 0;
    while i < s.len()
        invariant
            i <= s@.len(),
            bytes@ == narrow(s@).take(i as int),
        decreases s@.len() - i,
    {
        let n: u32 = code_of(s[i]);
        bytes.push(
            if n < 128 {
                n as u8
            } else {
                255
            },
        );
        assert(bytes@ =~= narrow(s@).take(i + 1));
        i = i + 1;
    }
    assert(bytes@ =~= narrow(s@));
    parse_number(bytes.as_slice(), max)
}

pub fn same_chars(a: &[char], b: &[char]) -> (r: bool)
    ensures
        r == (a@ == b@),
{
    if a.len() != b.len() {
        return false;
    }
    let mut i: usize = 0;
    while i < a.len()
        invariant
            i <= a@.len() == b@.len(),
            forall|k: int| 0 <= k < i ==> a@[k] == b@[k],
        decreases a@.len() - i,
    {
        if a[i] != b[i] {
            return false;
        }
        i = i + 1;
    }
    assert(a@ =~= b@);
    true
}

/// Whether a text starts with another.
pub open spec fn starts(s: Seq<char>, with: Seq<char>) -> bool {
    s.len() >= with.len() && s.take(with.len() as int) == with
}

pub fn starts_with(s: &[char], with: &[char]) -> (r: bool)
    ensures
        r == starts(s@, with@),
{
    if s.len() < with.len() {
        return false;
    }
    let head: &[char] = slice_subrange(s, 0, with.len());
    assert(head@ =~= s@.take(with@.len() as int));
    same_chars(head, with)
}

/// Spaces, tabs and the ends of lines are white, and no printable character of
/// ASCII is.
pub proof fn law_what_is_white(c: char)
    ensures
        c == ' ' || c == '\t' || c == '\n' || c == '\r' ==> white(c),
        0x21 <= c as int <= 0x7e ==> !white(c),
{
}

pub open spec fn all_white(s: Seq<char>) -> bool {
    forall|i: int| 0 <= i < s.len() ==> white(#[trigger] s[i])
}

pub open spec fn none_white(s: Seq<char>) -> bool {
    forall|i: int| 0 <= i < s.len() ==> !white(#[trigger] s[i])
}

/// The first of a character is where the text before it does not have it.
pub proof fn law_the_first_is_found(before: Seq<char>, c: char, after: Seq<char>)
    requires
        !before.contains(c),
    ensures
        first_at(before.push(c) + after, c) == before.len(),
        first_at(before, c) == before.len(),
{
    let s = before.push(c) + after;
    let n = first_at(s, c);
    lemma_first_at(s, c);
    lemma_first_at(before, c);
    assert(s[before.len() as int] == c);
    if n < before.len() {
        assert(before[n] == s[n]);
        assert(before.contains(c));
    }
    if first_at(before, c) < before.len() {
        assert(before.contains(before[first_at(before, c)]));
    }
}

/// A text is its lines: what stands before a newline is a line, less a carriage
/// return at its end, and the rest is the lines after it; and a last line needs
/// no newline.
pub proof fn law_a_text_is_its_lines(line: Seq<char>, rest: Seq<char>)
    requires
        !line.contains('\n'),
    ensures
        line.len() == 0 || line.last() != '\r' ==> lines_of(line.push('\n') + rest) == seq![line]
            + lines_of(rest),
        lines_of(line.push('\r').push('\n') + rest) == seq![line] + lines_of(rest),
        line.len() > 0 ==> lines_of(line) == seq![line],
        lines_of(Seq::empty()).len() == 0,
{
    law_the_first_is_found(line, '\n', rest);
    let s = line.push('\n') + rest;
    assert(s.take(line.len() as int) =~= line);
    assert(s.skip(line.len() as int + 1) =~= rest);
    let carried = line.push('\r');
    assert(!carried.contains('\n')) by {
        assert forall|i: int| 0 <= i < carried.len() implies carried[i] != '\n' by {
            if i < line.len() {
                assert(line.contains(line[i]));
            }
        }
    }
    law_the_first_is_found(carried, '\n', rest);
    let t = carried.push('\n') + rest;
    assert(t.take(carried.len() as int) =~= carried);
    assert(t.skip(carried.len() as int + 1) =~= rest);
    assert(carried.drop_last() =~= line);
}

proof fn lemma_lead(space: Seq<char>, rest: Seq<char>)
    requires
        all_white(space),
        rest.len() == 0 || !white(rest[0]),
    ensures
        lead(space + rest) == space.len(),
    decreases space.len(),
{
    let s = space + rest;
    if space.len() > 0 {
        assert(white(space[0]));
        assert(s.skip(1) =~= space.skip(1) + rest);
        assert forall|i: int| 0 <= i < space.skip(1).len() implies white(
            #[trigger] space.skip(1)[i],
        ) by {
            assert(space.skip(1)[i] == space[i + 1]);
        }
        lemma_lead(space.skip(1), rest);
    } else {
        assert(s =~= rest);
    }
}

proof fn lemma_run(word: Seq<char>, rest: Seq<char>)
    requires
        none_white(word),
        rest.len() == 0 || white(rest[0]),
    ensures
        run(word + rest) == word.len(),
    decreases word.len(),
{
    let s = word + rest;
    if word.len() > 0 {
        assert(!white(word[0]));
        assert(s.skip(1) =~= word.skip(1) + rest);
        assert forall|i: int| 0 <= i < word.skip(1).len() implies !white(
            #[trigger] word.skip(1)[i],
        ) by {
            assert(word.skip(1)[i] == word[i + 1]);
        }
        lemma_run(word.skip(1), rest);
    } else {
        assert(s =~= rest);
    }
}

/// The first word is what stands between the space before it and the space
/// after it, and a text of nothing but space has none.
pub proof fn law_the_first_word_is_found(space: Seq<char>, word: Seq<char>, rest: Seq<char>)
    requires
        all_white(space),
        none_white(word),
        word.len() > 0,
        rest.len() == 0 || white(rest[0]),
    ensures
        first_word(space + word + rest) == Some(word),
        first_word(space) is None,
{
    let s = space + word + rest;
    assert(s =~= space + (word + rest));
    assert(!white(word[0]));
    lemma_lead(space, word + rest);
    assert(s.skip(space.len() as int) =~= word + rest);
    lemma_run(word, rest);
    assert((word + rest).take(word.len() as int) =~= word);
    lemma_lead(space, Seq::empty());
    assert(space + Seq::empty() =~= space);
}

/// Trimming takes the space at both ends and nothing else.
pub proof fn law_trimming_takes_the_space_around(
    space: Seq<char>,
    text: Seq<char>,
    trail: Seq<char>,
)
    requires
        all_white(space),
        all_white(trail),
        text.len() > 0 ==> !white(text[0]) && !white(text.last()),
    ensures
        trimmed(space + text + trail) == text,
    decreases space.len() + trail.len(),
{
    let s = space + text + trail;
    if space.len() > 0 {
        assert(white(space[0]));
        assert(s.skip(1) =~= space.skip(1) + text + trail);
        assert forall|i: int| 0 <= i < space.skip(1).len() implies white(
            #[trigger] space.skip(1)[i],
        ) by {
            assert(space.skip(1)[i] == space[i + 1]);
        }
        law_trimming_takes_the_space_around(space.skip(1), text, trail);
    } else if text.len() == 0 && trail.len() > 0 {
        assert(s =~= trail);
        assert(white(trail[0]));
        assert(s.skip(1) =~= space + text + trail.skip(1));
        assert forall|i: int| 0 <= i < trail.skip(1).len() implies white(
            #[trigger] trail.skip(1)[i],
        ) by {
            assert(trail.skip(1)[i] == trail[i + 1]);
        }
        law_trimming_takes_the_space_around(space, text, trail.skip(1));
    } else if trail.len() > 0 {
        assert(s[0] == text[0]);
        assert(s.last() == trail[trail.len() - 1]);
        assert(s.drop_last() =~= space + text + trail.drop_last());
        assert forall|i: int| 0 <= i < trail.drop_last().len() implies white(
            #[trigger] trail.drop_last()[i],
        ) by {
            assert(trail.drop_last()[i] == trail[i]);
        }
        law_trimming_takes_the_space_around(space, text, trail.drop_last());
    } else {
        assert(s =~= text);
    }
}

proof fn lemma_narrow(c: char)
    ensures
        (c as int) < 128 ==> c as u8 == c as int,
{
}

/// A word of digits is the number they denote, where it is not above the
/// limit; a word with anything else in it is no number, but for a plus in
/// front.
pub proof fn law_a_word_of_digits_is_its_number(s: Seq<char>, max: nat)
    ensures
        s.len() > 0 && decimal_digits(s) && crate::text::number(s) <= max ==> number_of(s, max) == Some(
            crate::text::number(s),
        ),
        s.len() > 0 && decimal_digits(s) && crate::text::number(s) > max ==> number_of(s, max) is None,
        s.len() == 0 || (!decimal_digits(s) && s[0] != '+') ==> number_of(s, max) is None,
{
    let bytes = narrow(s);
    if s.len() == 0 || decimal_digits(s) {
        assert forall|i: int| 0 <= i < s.len() implies #[trigger] bytes[i] as int
            == s[i] as int by {
            assert(48 <= s[i] as int <= 57);
        }
        law_a_number_is_read_as_what_it_denotes(s, bytes, max);
    } else if s[0] != '+' {
        let i = choose|i: int| 0 <= i < s.len() && !(48 <= #[trigger] s[i] as int <= 57);
        lemma_narrow(s[i]);
        lemma_narrow(s[0]);
        assert(!crate::text::is_digit(bytes[i]));
        assert(bytes[0] != 43);
    }
}

/// A text starts with another exactly where it is that and something after it.
pub proof fn law_what_a_text_starts_with(s: Seq<char>, with: Seq<char>, rest: Seq<char>)
    ensures
        starts(with + rest, with),
        (with + rest).skip(with.len() as int) == rest,
        starts(s, with) ==> s == with + s.skip(with.len() as int),
{
    assert((with + rest).take(with.len() as int) =~= with);
    assert((with + rest).skip(with.len() as int) =~= rest);
    if starts(s, with) {
        assert(s =~= s.take(with.len() as int) + s.skip(with.len() as int));
    }
}

} // verus!
