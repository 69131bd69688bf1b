//! Replacing every occurrence of one fixed text by another, from left to
//! right and without overlap.

use vstd::prelude::*;

verus! {

/// `s` begins with the characters of `p`.
pub open spec fn starts_with(s: Seq<char>, p: Seq<char>) -> bool {
    p.len() <= s.len() && s.take(p.len() as int) == p
}

/// `p` stands somewhere in `s`.
pub open spec fn occurs(s: Seq<char>, p: Seq<char>) -> bool {
    exists|i: int| 0 <= i <= s.len() && #[trigger] starts_with(s.skip(i), p)
}

/// `s` with every occurrence of `from` replaced by `to`. Occurrences are
/// taken from the left, and the search goes on behind each of them. Where
/// `from` is empty, nothing is replaced.
pub open spec fn replace_all(s: Seq<char>, from: Seq<char>, to: Seq<char>) -> Seq<char>
    decreases s.len(),
{
    if from.len() == 0 || s.len() < from.len() {
        s
    } else if starts_with(s, from) {
        to + replace_all(s.skip(from.len() as int), from, to)
    } else {
        seq![s[0]] + replace_all(s.skip(1), from, to)
    }
}

/// Whether `p` stands in `s` at index `at`.
pub fn matches_at(s: &Vec<char>, at: usize, p: &Vec<char>) -> (r: bool)
    requires
        at <= s.len(),
    ensures
        r == starts_with(s@.skip(at as int), p@),
{
    if p.len() > s.len() - at {
        return false;
    }
    let ghost rest = s@.skip(at as int);
    let mut i: usize = 0;
    while i < p.len()
        invariant
            at <= s.len(),
            p.len() <= s.len() - at,
            i <= p.len(),
            rest == s@.skip(at as int),
            forall|j: int| 0 <= j < i ==> rest[j] == p@[j],
        decreases p.len() - i,
    {
        if s[at + i] != p[i] {
            assert(rest.take(p.len() as int)[i as int] != p@[i as int]);
            return false;
        }
        i += 1;
    }
    assert(rest.take(p.len() as int) =~= p@);
    true
}

/// Replaces every occurrence of `from` in `s` by `to`. Where `from` is
/// empty, nothing is replaced.
pub fn replace_in(s: &Vec<char>, from: &Vec<char>, to: &Vec<char>) -> (out: Vec<char>)
    ensures
        out@ == replace_all(s@, from@, to@),
{
    let mut out: Vec<char> = Vec::new();
    let mut i: usize = 0;
    assert(s@.skip(0) =~= s@);
    assert(out@ + replace_all(s@, from@, to@) =~= replace_all(s@, from@, to@));
    while i < s.len()
        invariant
            i <= s.len(),
            out@ + replace_all(s@.skip(i as int), from@, to@) == replace_all(s@, from@, to@),
        decreases s.len() - i,
    {
        let ghost rest = s@.skip(i as int);
        let ghost before = out@;
        if from.len() > 0 && matches_at(s, i, from) {
            let mut k: usize = 0;
            while k < to.len()
                invariant
                    k <= to.len(),
                    out@ == before + to@.take(k as int),
                decreases to.len() - k,
            {
                out.push(to[k]);
                assert(to@.take(k + 1) =~= to@.take(k as int).push(to@[k as int]));
                k += 1;
            }
            assert(to@.take(to.len() as int) =~= to@);
            i += from.len();
            assert(rest.skip(from.len() as int) =~= s@.skip(i as int));
            assert(out@ + replace_all(s@.skip(i as int), from@, to@) =~= before + replace_all(
                rest,
                from@,
                to@,
            ));
        } else {
            out.push(s[i]);
            i += 1;
            proof {
                assert(rest.skip(1) =~= s@.skip(i as int));
                if from@.len() == 0 || rest.len() < from@.len() {
                    lemma_untouched(rest, from@, to@);
                    lemma_untouched(rest.skip(1), from@, to@);
                    assert(rest =~= seq![rest[0]] + rest.skip(1));
                }
                assert(out@ + replace_all(s@.skip(i as int), from@, to@) =~= before
                    + replace_all(rest, from@, to@));
            }
        }
    }
    assert(s@.skip(s.len() as int) =~= Seq::<char>::empty());
    assert(out@ + Seq::<char>::empty() =~= out@);
    out
}

/// A text shorter than `from` holds no occurrence of it and stays as it is,
/// and so does every text where `from` is empty.
pub proof fn lemma_untouched(s: Seq<char>, from: Seq<char>, to: Seq<char>)
    requires
        from.len() == 0 || s.len() < from.len(),
    ensures
        replace_all(s, from, to) == s,
{
}

/// Every character of `s` is `c`.
pub open spec fn all_are(s: Seq<char>, c: char) -> bool {
    forall|i: int| 0 <= i < s.len() ==> s[i] == c
}

/// No character of `s` is `c`.
pub open spec fn free_of(s: Seq<char>, c: char) -> bool {
    forall|i: int| 0 <= i < s.len() ==> s[i] != c
}

/// What stands in the rest of a text stands in the text.
pub proof fn lemma_occurs_in_rest(s: Seq<char>, p: Seq<char>, n: int)
    requires
        0 <= n <= s.len(),
        occurs(s.skip(n), p),
    ensures
        occurs(s, p),
{
    let i = choose|i: int| 0 <= i <= s.skip(n).len() && #[trigger] starts_with(s.skip(n).skip(i), p);
    assert(s.skip(n).skip(i) =~= s.skip(n + i));
    assert(starts_with(s.skip(n + i), p));
}

/// A text in which `from` does not occur stays as it is.
pub proof fn lemma_nothing_to_replace(s: Seq<char>, from: Seq<char>, to: Seq<char>)
    requires
        from.len() > 0,
        !occurs(s, from),
    ensures
        replace_all(s, from, to) == s,
    decreases s.len(),
{
    if s.len() >= from.len() {
        assert(s.skip(0) =~= s);
        assert(!starts_with(s.skip(0), from));
        if occurs(s.skip(1), from) {
            lemma_occurs_in_rest(s, from, 1);
        }
        lemma_nothing_to_replace(s.skip(1), from, to);
        assert(seq![s[0]] + s.skip(1) =~= s);
    }
}

/// Where `to` is made of the character `c` alone, the replaced text is the
/// text itself up to its first `c`: a beginning of it without `c` is a
/// beginning of `s`.
pub proof fn lemma_untouched_beginning(
    s: Seq<char>,
    from: Seq<char>,
    to: Seq<char>,
    c: char,
    k: int,
)
    requires
        from.len() > 0,
        to.len() > 0,
        all_are(to, c),
        0 <= k <= replace_all(s, from, to).len(),
        free_of(replace_all(s, from, to).take(k), c),
    ensures
        k <= s.len(),
        replace_all(s, from, to).take(k) == s.take(k),
    decreases s.len(),
{
    let r = replace_all(s, from, to);
    if k == 0 {
        assert(r.take(0) =~= s.take(0));
    } else if s.len() < from.len() {
    } else if starts_with(s, from) {
        assert(r.take(k)[0] == to[0]);
    } else {
        let rest = replace_all(s.skip(1), from, to);
        assert(r =~= seq![s[0]] + rest);
        let head = rest.take(k - 1);
        assert forall|i: int| 0 <= i < head.len() implies head[i] != c by {
            assert(head[i] == r.take(k)[i + 1]);
        }
        lemma_untouched_beginning(s.skip(1), from, to, c, k - 1);
        assert(r.take(k) =~= seq![s[0]] + rest.take(k - 1));
        assert(s.take(k) =~= seq![s[0]] + s.skip(1).take(k - 1));
    }
}

/// The replaced text does not hold `q` at index `j`: see
/// `lemma_replaced_is_free`.
proof fn lemma_replaced_is_free_at(
    s: Seq<char>,
    from: Seq<char>,
    to: Seq<char>,
    q: Seq<char>,
    c: char,
    j: int,
)
    requires
        from.len() > 0,
        to.len() > 0,
        all_are(to, c),
        q.len() > 0,
        free_of(q, c),
        q == from || !occurs(s, q),
        0 <= j <= replace_all(s, from, to).len(),
    ensures
        !starts_with(replace_all(s, from, to).skip(j), q),
    decreases s.len(),
{
    let r = replace_all(s, from, to);
    if starts_with(r.skip(j), q) {
        assert(r.skip(j).take(q.len() as int)[0] == q[0]);
        if s.len() < from.len() {
            assert(!occurs(s, q));
        } else if starts_with(s, from) {
            let rest_in = s.skip(from.len() as int);
            let rest = replace_all(rest_in, from, to);
            assert(r =~= to + rest);
            if j < to.len() {
                assert(r.skip(j)[0] == to[j]);
            } else {
                assert(r.skip(j) =~= rest.skip(j - to.len()));
                if occurs(rest_in, q) {
                    lemma_occurs_in_rest(s, q, from.len() as int);
                }
                lemma_replaced_is_free_at(rest_in, from, to, q, c, j - to.len());
            }
        } else {
            let rest = replace_all(s.skip(1), from, to);
            assert(r =~= seq![s[0]] + rest);
            if j >= 1 {
                assert(r.skip(j) =~= rest.skip(j - 1));
                if occurs(s.skip(1), q) {
                    lemma_occurs_in_rest(s, q, 1);
                }
                lemma_replaced_is_free_at(s.skip(1), from, to, q, c, j - 1);
            } else {
                assert(r.skip(0) =~= r);
                assert(r.take(q.len() as int) == q);
                lemma_untouched_beginning(s, from, to, c, q.len() as int);
                assert(starts_with(s, q));
                assert(s.skip(0) =~= s);
                assert(starts_with(s.skip(0), q));
            }
        }
    }
}

/// Where `to` is made of the character `c` alone and `q` is without `c`,
/// replacing `from` by `to` brings no `q` into a text: the replaced text is
/// without `from`, and without any such `q` that the text was without.
pub proof fn lemma_replaced_is_free(
    s: Seq<char>,
    from: Seq<char>,
    to: Seq<char>,
    q: Seq<char>,
    c: char,
)
    requires
        from.len() > 0,
        to.len() > 0,
        all_are(to, c),
        q.len() > 0,
        free_of(q, c),
        q == from || !occurs(s, q),
    ensures
        !occurs(replace_all(s, from, to), q),
{
    let r = replace_all(s, from, to);
    assert forall|j: int| 0 <= j <= r.len() implies !#[trigger] starts_with(r.skip(j), q) by {
        lemma_replaced_is_free_at(s, from, to, q, c, j);
    }
}

} // verus!
