//! The base-substitution transform: `A` and `G` change places, and so do `C`
//! and `T`.

use vstd::prelude::*;

verus! {

/// The base that takes the place of `c`; a symbol that is no base stays.
pub open spec fn flipped_base(c: char) -> char {
    if c == 'A' {
        'G'
    } else if c == 'G' {
        'A'
    } else if c == 'C' {
        'T'
    } else if c == 'T' {
        'C'
    } else {
        c
    }
}

/// Whether `c` is one of the four bases.
pub open spec fn is_base(c: char) -> bool {
    c == 'A' || c == 'G' || c == 'C' || c == 'T'
}

/// The sequence `s` with every base substituted.
pub open spec fn flipped_bases(s: Seq<char>) -> Seq<char> {
    Seq::new(s.len(), |i: int| flipped_base(s[i]))
}

/// Substitutes one symbol.
pub fn flip_base(c: char) -> (r: char)
    ensures
        r == flipped_base(c),
{
    if c == 'A' {
        'G'
    } else if c == 'G' {
        'A'
    } else if c == 'C' {
        'T'
    } else if c == 'T' {
        'C'
    } else {
        c
    }
}

/// `String::push` appends one character. Trusted: the string afterwards is
/// the string before with `c` at its end.
pub assume_specification[ String::push ](s: &mut String, c: char)
    ensures
        final(s)@ == old(s)@.push(c),
;

/// Substitutes every base of `s`: `A` with `G`, `G` with `A`, `C` with `T`
/// and `T` with `C`. Other symbols stay as they are.
pub fn flip_bases(s: &str) -> (r: String)
    ensures
        r@ == flipped_bases(s@),
{
    let mut out = String::new();
    for c in it: s.chars()
        invariant
            it.seq() == s@,
            out@ == flipped_bases(s@.subrange(0, it.index() as int)),
    {
        out.push(flip_base(c));
        assert(s@.subrange(0, it.index() + 1) == s@.subrange(0, it.index() as int).push(c));
    }
    assert(s@.subrange(0, s@.len() as int) == s@);
    out
}

/// Substituting twice gives the sequence back.
pub proof fn flip_bases_is_involution(s: Seq<char>)
    ensures
        flipped_bases(flipped_bases(s)) == s,
{
    assert(flipped_bases(flipped_bases(s)) =~= s);
}

/// Substitution keeps the length, gives each base its partner and leaves
/// every other symbol as it is.
pub proof fn flip_bases_acts_on_bases_only(s: Seq<char>, i: int)
    requires
        0 <= i < s.len(),
    ensures
        flipped_bases(s).len() == s.len(),
        !is_base(s[i]) ==> flipped_bases(s)[i] == s[i],
        is_base(s[i]) ==> flipped_bases(s)[i] != s[i] && is_base(flipped_bases(s)[i]),
{
}

} // verus!
