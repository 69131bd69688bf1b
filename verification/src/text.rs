//! Conversions between strings and character vectors, and the small
//! character-level searches the parsers are built from.

use vstd::prelude::*;

verus! {

/// The characters of `s`, in order.
pub fn chars_of(s: &str) -> (v: Vec<char>)
    ensures
        v@ == s@,
{
    let mut v: Vec<char> = Vec::new();
    for c in it: s.chars()
        invariant
            it.seq() == s@,
            v@ == s@.take(it.index()),
    {
        v.push(c);
        assert(s@.take(it.index() + 1) =~= s@.take(it.index()).push(c));
    }
    assert(s@.take(s@.len() as int) =~= s@);
    v
}

/// The string made of the characters `v[from..to]`.
pub fn string_of(v: &Vec<char>, from: usize, to: usize) -> (s: String)
    requires
        from <= to <= v.len(),
    ensures
        s@ == v@.subrange(from as int, to as int),
{
    let mut s = String::new();
    let mut i: usize = from;
    while i < to
        invariant
            from <= i <= to <= v.len(),
            s@ == v@.subrange(from as int, i as int),
        decreases to - i,
    {
        s.push(v[i]);
        assert(v@.subrange(from as int, i + 1) =~= v@.subrange(from as int, i as int).push(
            v@[i as int],
        ));
        i += 1;
    }
    s
}

/// The index of the first occurrence of `c` in `s`, or `s.len()` where `c`
/// does not occur.
pub open spec fn position(s: Seq<char>, c: char) -> int
    decreases s.len(),
{
    if s.len() == 0 || s[0] == c {
        0
    } else {
        1 + position(s.skip(1), c)
    }
}

/// What stands in `s` before the first `c`.
pub open spec fn before(s: Seq<char>, c: char) -> Seq<char> {
    s.take(position(s, c))
}

/// What stands in `s` after the first `c`.
pub open spec fn after(s: Seq<char>, c: char) -> Seq<char> {
    s.skip(position(s, c) + 1)
}

/// `s` cut in two at the first `c`: what stands before it and what stands
/// after it. `None` where `c` does not occur.
pub open spec fn cut(s: Seq<char>, c: char) -> Option<(Seq<char>, Seq<char>)> {
    if position(s, c) < s.len() {
        Some((before(s, c), after(s, c)))
    } else {
        None
    }
}

/// `a` and `b` with the character `c` between them.
pub open spec fn joined(a: Seq<char>, c: char, b: Seq<char>) -> Seq<char> {
    a + seq![c] + b
}

/// The character `c` does not occur in `s`.
pub open spec fn lacks(s: Seq<char>, c: char) -> bool {
    forall|i: int| 0 <= i < s.len() ==> s[i] != c
}

/// Cutting undoes joining, where the first part is without the character
/// that joins.
pub proof fn lemma_cut_joined(a: Seq<char>, c: char, b: Seq<char>)
    requires
        lacks(a, c),
    ensures
        cut(joined(a, c, b), c) == Some((a, b)),
{
    let s = joined(a, c, b);
    lemma_position_is(s, c, a.len() as int);
    assert(s.take(a.len() as int) =~= a);
    assert(s.skip(a.len() as int + 1) =~= b);
}

/// A text without `c` cannot be cut at `c`.
pub proof fn lemma_cut_nowhere(s: Seq<char>, c: char)
    requires
        lacks(s, c),
    ensures
        cut(s, c) is None,
{
    lemma_position_is(s, c, s.len() as int);
}

/// Joining undoes cutting, and the first part of a cut is without the
/// character at which it was made.
pub proof fn lemma_joined_cut(s: Seq<char>, c: char)
    requires
        cut(s, c) is Some,
    ensures
        cut(s, c) == Some((before(s, c), after(s, c))),
        lacks(before(s, c), c),
        joined(before(s, c), c, after(s, c)) == s,
{
    lemma_position_bounds(s, c);
    let i = position(s, c);
    assert(joined(s.take(i), c, s.skip(i + 1)) =~= s);
}

/// `position` is the only index with no `c` before it that holds `c` or is
/// the end of `s`.
pub proof fn lemma_position_is(s: Seq<char>, c: char, i: int)
    requires
        0 <= i <= s.len(),
        forall|j: int| 0 <= j < i ==> s[j] != c,
        i < s.len() ==> s[i] == c,
    ensures
        position(s, c) == i,
    decreases s.len(),
{
    if i > 0 {
        let rest = s.skip(1);
        assert forall|j: int| 0 <= j < i - 1 implies rest[j] != c by {
            assert(rest[j] == s[j + 1]);
        }
        lemma_position_is(rest, c, i - 1);
    }
}

/// What `position` returns: an index within bounds, with no `c` before it.
pub proof fn lemma_position_bounds(s: Seq<char>, c: char)
    ensures
        0 <= position(s, c) <= s.len(),
        forall|j: int| 0 <= j < position(s, c) ==> s[j] != c,
        position(s, c) < s.len() ==> s[position(s, c)] == c,
    decreases s.len(),
{
    if !(s.len() == 0 || s[0] == c) {
        let rest = s.skip(1);
        lemma_position_bounds(rest, c);
        assert forall|j: int| 0 <= j < position(s, c) implies s[j] != c by {
            if j > 0 {
                assert(rest[j - 1] == s[j]);
            }
        }
        if position(rest, c) < rest.len() {
            assert(rest[position(rest, c)] == s[position(rest, c) + 1]);
        }
    }
}

/// The first index in `v[from..to]` that holds `c`, counted from the start
/// of `v`, or `to` where there is none.
pub fn find_char(v: &Vec<char>, from: usize, to: usize, c: char) -> (r: usize)
    requires
        from <= to <= v.len(),
    ensures
        from <= r <= to,
        r == from + position(v@.subrange(from as int, to as int), c),
{
    let mut i: usize = from;
    while i < to && v[i] != c
        invariant
            from <= i <= to <= v.len(),
            forall|j: int| from <= j < i ==> v@[j] != c,
        decreases to - i,
    {
        i += 1;
    }
    proof {
        lemma_position_is(v@.subrange(from as int, to as int), c, i - from);
    }
    i
}

/// Whether two strings hold the same characters.
pub fn same_text(a: &str, b: &str) -> (r: bool)
    ensures
        r == (a@ == b@),
{
    let x = chars_of(a);
    let y = chars_of(b);
    if x.len() != y.len() {
        return false;
    }
    let mut i: usize = 0;
    while i < x.len()
        invariant
            x.len() == y.len(),
            i <= x.len(),
            x@ == a@,
            y@ == b@,
            forall|j: int| 0 <= j < i ==> x@[j] == y@[j],
        decreases x.len() - i,
    {
        if x[i] != y[i] {
            assert(a@[i as int] != b@[i as int]);
            return false;
        }
        i += 1;
    }
    assert(x@ =~= y@);
    true
}

} // verus!
