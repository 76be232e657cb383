//! The two tables as text: one entry on each line.
//!
//! A line ends at a line feed. White space around an entry is dropped, and a
//! line that holds nothing else is no entry.

use crate::bignat::{parsed_number, table_values, BigNat};
use crate::selector::sequence_views;
use vstd::prelude::*;

verus! {

/// Whether `c` is white space: one of U+0009 to U+000D, U+0020, U+0085,
/// U+00A0, U+1680, U+2000 to U+200A, U+2028, U+2029, U+202F, U+205F and
/// U+3000.
pub open spec fn is_space(c: char) -> bool {
    let n = c as u32;
    ||| 0x09 <= n <= 0x0D
    ||| n == 0x20
    ||| n == 0x85
    ||| n == 0xA0
    ||| n == 0x1680
    ||| 0x2000 <= n <= 0x200A
    ||| n == 0x2028
    ||| n == 0x2029
    ||| n == 0x202F
    ||| n == 0x205F
    ||| n == 0x3000
}

/// `s` without the white space at its start.
pub open spec fn trimmed_start(s: Seq<char>) -> Seq<char>
    decreases s.len(),
{
    if s.len() > 0 && is_space(s.first()) {
        trimmed_start(s.drop_first())
    } else {
        s
    }
}

/// `s` without the white space at its end.
pub open spec fn trimmed_end(s: Seq<char>) -> Seq<char>
    decreases s.len(),
{
    if s.len() > 0 && is_space(s.last()) {
        trimmed_end(s.drop_last())
    } else {
        s
    }
}

/// `s` without the white space at either end.
pub open spec fn trimmed(s: Seq<char>) -> Seq<char> {
    trimmed_end(trimmed_start(s))
}

/// The lines of `text`: the stretches between its line feeds. A text
/// without a line feed is one line, and a text that ends in a line feed has
/// an empty last line.
pub open spec fn lines(text: Seq<char>) -> Seq<Seq<char>>
    decreases text.len(),
{
    if text.len() == 0 {
        seq![Seq::empty()]
    } else if text.last() == '\n' {
        lines(text.drop_last()).push(Seq::empty())
    } else {
        let before = lines(text.drop_last());
        before.drop_last().push(before.last().push(text.last()))
    }
}

/// Each line of `text` without the white space at either end.
pub open spec fn trimmed_lines(text: Seq<char>) -> Seq<Seq<char>> {
    Seq::new(lines(text).len(), |i: int| trimmed(lines(text)[i]))
}

/// The lines among `ls` that are not empty, in order.
pub open spec fn non_empty(ls: Seq<Seq<char>>) -> Seq<Seq<char>>
    decreases ls.len(),
{
    if ls.len() == 0 {
        ls
    } else if ls.last().len() > 0 {
        non_empty(ls.drop_last()).push(ls.last())
    } else {
        non_empty(ls.drop_last())
    }
}

/// The numbers that the lines among `ls` spell in decimal, in order; a line
/// that is no decimal numeral is passed over.
pub open spec fn numbers(ls: Seq<Seq<char>>) -> Seq<nat>
    decreases ls.len(),
{
    if ls.len() == 0 {
        Seq::empty()
    } else {
        match parsed_number(ls.last()) {
            Some(n) => numbers(ls.drop_last()).push(n),
            None => numbers(ls.drop_last()),
        }
    }
}

/// Whether `c` is white space.
pub fn is_whitespace(c: char) -> (r: bool)
    ensures
        r == is_space(c),
{
    let n = c as u32;
    (0x09 <= n && n <= 0x0D) || n == 0x20 || n == 0x85 || n == 0xA0 || n == 0x1680 || (0x2000 <= n
        && n <= 0x200A) || n == 0x2028 || n == 0x2029 || n == 0x202F || n == 0x205F || n == 0x3000
}

/// The symbols of `text`, one by one.
fn chars_of(text: &str) -> (r: Vec<char>)
    ensures
        r@ == text@,
{
    let mut out: Vec<char> = Vec::new();
    for c in it: text.chars()
        invariant
            it.seq() == text@,
            out@ == text@.subrange(0, it.index() as int),
    {
        out.push(c);
        assert(text@.subrange(0, it.index() + 1) == text@.subrange(0, it.index() as int).push(c));
    }
    assert(text@.subrange(0, text@.len() as int) == text@);
    out
}

/// The symbols of `chars` from `from` up to `to` as a string.
fn string_of(chars: &Vec<char>, from: usize, to: usize) -> (r: String)
    requires
        from <= to <= chars.len(),
    ensures
        r@ == chars@.subrange(from as int, to as int),
{
    let mut out = String::new();
    let mut i = from;
    while i < to
        invariant
            from <= i <= to <= chars.len(),
            out@ == chars@.subrange(from as int, i as int),
        decreases to - i,
    {
        out.push(chars[i]);
        assert(chars@.subrange(from as int, i + 1) == chars@.subrange(from as int, i as int).push(
            chars[i as int],
        ));
        i += 1;
    }
    out
}

/// The bounds, within `chars`, of the stretch from `from` up to `to` without
/// the white space at either end.
fn trim_bounds(chars: &Vec<char>, from: usize, to: usize) -> (r: (usize, usize))
    requires
        from <= to <= chars.len(),
    ensures
        from <= r.0 <= r.1 <= to,
        chars@.subrange(r.0 as int, r.1 as int) == trimmed(chars@.subrange(from as int, to as int)),
{
    let mut a = from;
    while a < to && is_whitespace(chars[a])
        invariant
            from <= a <= to <= chars.len(),
            trimmed_start(chars@.subrange(from as int, to as int)) == trimmed_start(
                chars@.subrange(a as int, to as int),
            ),
        decreases to - a,
    {
        assert(chars@.subrange(a as int, to as int).drop_first() == chars@.subrange(
            a + 1,
            to as int,
        ));
        a += 1;
    }
    assert(trimmed_start(chars@.subrange(a as int, to as int)) == chars@.subrange(
        a as int,
        to as int,
    ));
    let mut b = to;
    while b > a && is_whitespace(chars[b - 1])
        invariant
            a <= b <= to <= chars.len(),
            trimmed_end(chars@.subrange(a as int, to as int)) == trimmed_end(
                chars@.subrange(a as int, b as int),
            ),
        decreases b,
    {
        assert(chars@.subrange(a as int, b as int).drop_last() == chars@.subrange(
            a as int,
            b - 1,
        ));
        b -= 1;
    }
    assert(trimmed_end(chars@.subrange(a as int, b as int)) == chars@.subrange(a as int, b as int));
    (a, b)
}

/// Splits `text` at its line feeds and drops the white space at either end
/// of each line.
pub fn split_lines(text: &str) -> (r: Vec<String>)
    ensures
        sequence_views(r@) == trimmed_lines(text@),
{
    let chars = chars_of(text);
    let mut out: Vec<String> = Vec::new();
    let mut start: usize = 0;
    let mut i: usize = 0;
    let ghost done: Seq<Seq<char>> = Seq::empty();
    assert(chars@.subrange(0, 0) == Seq::<char>::empty());
    while i < chars.len()
        invariant
            start <= i <= chars.len(),
            chars@ == text@,
            lines(chars@.subrange(0, i as int)) == done.push(
                chars@.subrange(start as int, i as int),
            ),
            sequence_views(out@) == Seq::new(done.len(), |k: int| trimmed(done[k])),
        decreases chars.len() - i,
    {
        let ghost prefix = chars@.subrange(0, i as int);
        let ghost next = chars@.subrange(0, i + 1);
        let ghost line = chars@.subrange(start as int, i as int);
        assert(next.drop_last() == prefix);
        assert(next.last() == chars[i as int]);
        assert(done.push(line).drop_last() == done);
        if chars[i] == '\n' {
            let (a, b) = trim_bounds(&chars, start, i);
            let entry = string_of(&chars, a, b);
            let ghost before = sequence_views(out@);
            out.push(entry);
            proof {
                done = done.push(line);
                assert(sequence_views(out@) == before.push(trimmed(line)));
                assert(sequence_views(out@) == Seq::new(done.len(), |k: int| trimmed(done[k])));
                assert(chars@.subrange(i + 1, i + 1) == Seq::<char>::empty());
            }
            start = i + 1;
        } else {
            assert(chars@.subrange(start as int, i + 1) == line.push(chars[i as int]));
        }
        i += 1;
    }
    assert(chars@.subrange(0, i as int) == chars@);
    let ghost line = chars@.subrange(start as int, i as int);
    let (a, b) = trim_bounds(&chars, start, i);
    let entry = string_of(&chars, a, b);
    let ghost before = sequence_views(out@);
    out.push(entry);
    proof {
        assert(sequence_views(out@) == before.push(trimmed(line)));
        assert(sequence_views(out@) == trimmed_lines(text@));
    }
    out
}

/// Reads the table of candidate sequences: the lines of `text` that hold
/// more than white space, each without the white space around it.
pub fn parse_seqs(text: &str) -> (r: Vec<String>)
    ensures
        sequence_views(r@) == non_empty(trimmed_lines(text@)),
{
    let all = split_lines(text);
    let ghost views = sequence_views(all@);
    let mut out: Vec<String> = Vec::new();
    let mut i: usize = 0;
    assert(views.subrange(0, 0) == Seq::<Seq<char>>::empty());
    while i < all.len()
        invariant
            i <= all.len(),
            views == sequence_views(all@),
            sequence_views(out@) == non_empty(views.subrange(0, i as int)),
        decreases all.len() - i,
    {
        let line = &all[i];
        assert(views.subrange(0, i + 1).drop_last() == views.subrange(0, i as int));
        assert(views.subrange(0, i + 1).last() == line@);
        if line.as_str().unicode_len() > 0 {
            let ghost before = sequence_views(out@);
            out.push(line.clone());
            assert(sequence_views(out@) == before.push(line@));
        }
        i += 1;
    }
    assert(views.subrange(0, i as int) == views);
    out
}

/// Reads the table of Fibonacci numbers: the numbers that the lines of
/// `text` spell in decimal, white space around them aside. A line that
/// spells no number is passed over.
pub fn parse_fibs(text: &str) -> (r: Vec<BigNat>)
    ensures
        table_values(r@) == numbers(trimmed_lines(text@)),
{
    let all = split_lines(text);
    let ghost views = sequence_views(all@);
    let mut out: Vec<BigNat> = Vec::new();
    let mut i: usize = 0;
    assert(views.subrange(0, 0) == Seq::<Seq<char>>::empty());
    while i < all.len()
        invariant
            i <= all.len(),
            views == sequence_views(all@),
            table_values(out@) == numbers(views.subrange(0, i as int)),
        decreases all.len() - i,
    {
        let line = &all[i];
        assert(views.subrange(0, i + 1).drop_last() == views.subrange(0, i as int));
        assert(views.subrange(0, i + 1).last() == line@);
        match BigNat::from_decimal(line.as_str()) {
            Some(n) => {
                let ghost before = table_values(out@);
                let ghost value = n@;
                out.push(n);
                assert(table_values(out@) == before.push(value));
            },
            None => {},
        }
        i += 1;
    }
    assert(views.subrange(0, i as int) == views);
    out
}

/// Trimming leaves no white space at either end, and a second trimming
/// changes nothing.
pub proof fn trimmed_has_no_space_at_its_ends(s: Seq<char>)
    ensures
        trimmed(s).len() > 0 ==> !is_space(trimmed(s).first()) && !is_space(trimmed(s).last()),
        trimmed(trimmed(s)) == trimmed(s),
{
    lemma_trimmed_start(s);
    lemma_trimmed_end(trimmed_start(s));
    let t = trimmed(s);
    if t.len() > 0 {
        lemma_trimmed_end_keeps_first(trimmed_start(s));
    }
}

/// `trimmed_start` gives a sequence that is empty or begins with a symbol
/// that is no white space.
proof fn lemma_trimmed_start(s: Seq<char>)
    ensures
        trimmed_start(s).len() > 0 ==> !is_space(trimmed_start(s).first()),
    decreases s.len(),
{
    if s.len() > 0 && is_space(s.first()) {
        lemma_trimmed_start(s.drop_first());
    }
}

/// `trimmed_end` gives a sequence that is empty or ends with a symbol that
/// is no white space.
proof fn lemma_trimmed_end(s: Seq<char>)
    ensures
        trimmed_end(s).len() > 0 ==> !is_space(trimmed_end(s).last()),
    decreases s.len(),
{
    if s.len() > 0 && is_space(s.last()) {
        lemma_trimmed_end(s.drop_last());
    }
}

/// `trimmed_end` keeps the first symbol of what it leaves.
proof fn lemma_trimmed_end_keeps_first(s: Seq<char>)
    ensures
        trimmed_end(s).len() > 0 ==> trimmed_end(s).first() == s.first(),
    decreases s.len(),
{
    if s.len() > 0 && is_space(s.last()) {
        lemma_trimmed_end_keeps_first(s.drop_last());
    }
}

} // verus!
