//! Scanning helpers: the first occurrence of an element in a sequence,
//! and runs of word characters — shared by the grammars and the store
//! lookups of the library.

use vstd::prelude::*;
use vstd::string::*;

verus! {

/// Position of the first element of `s` equal to `x`, or `s.len()` when
/// there is none.
pub open spec fn seq_first_index<A>(s: Seq<A>, x: A) -> int
    decreases s.len(),
{
    if s.len() == 0 {
        0
    } else if s[0] == x {
        0
    } else {
        1 + seq_first_index(s.drop_first(), x)
    }
}

pub proof fn lemma_seq_first_index<A>(s: Seq<A>, x: A)
    ensures
        0 <= seq_first_index(s, x) <= s.len(),
        seq_first_index(s, x) < s.len() ==> s[seq_first_index(s, x)] == x,
        forall|j: int| 0 <= j < seq_first_index(s, x) ==> s[j] != x,
    decreases s.len(),
{
    if s.len() > 0 && s[0] != x {
        lemma_seq_first_index(s.drop_first(), x);
        assert forall|j: int| 0 <= j < seq_first_index(s, x) implies s[j] != x by {
            if j > 0 {
                assert(s.drop_first()[j - 1] != x);
            }
        }
    }
}

/// A position that holds `x` with no earlier occurrence is exactly what
/// [`seq_first_index`] finds.
pub proof fn lemma_seq_first_index_is<A>(s: Seq<A>, x: A, i: int)
    requires
        0 <= i <= s.len(),
        i < s.len() ==> s[i] == x,
        i == s.len() ==> forall|j: int| 0 <= j < s.len() ==> s[j] != x,
        forall|j: int| 0 <= j < i ==> s[j] != x,
    ensures
        seq_first_index(s, x) == i,
{
    lemma_seq_first_index(s, x);
    let f = seq_first_index(s, x);
    if f < i {
        assert(s[f] != x);
    }
    if i < f {
        assert(s[i] != x);
    }
}

/// The word class: letters, digits and the underscore.
pub open spec fn is_word_char(c: char) -> bool {
    (48 <= c as u32 <= 57) || (65 <= c as u32 <= 90) || (97 <= c as u32 <= 122) || c == '_'
}

/// Length of the run of word characters that starts at position `i`.
pub open spec fn word_run_len(s: Seq<char>, i: int) -> int
    decreases s.len() - i,
{
    if i < 0 || i >= s.len() || !is_word_char(s[i]) {
        0
    } else {
        1 + word_run_len(s, i + 1)
    }
}

pub proof fn lemma_word_run_len_bounds(s: Seq<char>, i: int)
    requires
        0 <= i <= s.len(),
    ensures
        0 <= word_run_len(s, i) <= s.len() - i,
    decreases s.len() - i,
{
    if i < s.len() && is_word_char(s[i]) {
        lemma_word_run_len_bounds(s, i + 1);
    }
}

/// A stretch of word characters that is closed off on the right is exactly
/// the run that [`word_run_len`] measures.
pub proof fn lemma_word_run_len_is(s: Seq<char>, i: int, e: int)
    requires
        0 <= i <= e <= s.len(),
        forall|j: int| i <= j < e ==> is_word_char(s[j]),
        e < s.len() ==> !is_word_char(s[e]),
    ensures
        word_run_len(s, i) == e - i,
    decreases e - i,
{
    if i < e {
        lemma_word_run_len_is(s, i + 1, e);
    }
}

/// Position of the first `c` at or after `from`, or the end of `s`.
pub fn find_char(s: &str, from: usize, c: char) -> (r: usize)
    requires
        from <= s@.len(),
        s@.len() <= usize::MAX,
    ensures
        from <= r <= s@.len(),
        r - from == seq_first_index(s@.subrange(from as int, s@.len() as int), c),
        r < s@.len() ==> s@[r as int] == c,
        forall|j: int| from <= j < r ==> s@[j] != c,
{
    let ghost t = s@.subrange(from as int, s@.len() as int);
    let n = s.unicode_len();
    let mut i: usize = from;
    while i < n
        invariant
            from <= i <= n,
            n as nat == s@.len(),
            t == s@.subrange(from as int, s@.len() as int),
            forall|j: int| from <= j < i ==> s@[j] != c,
        decreases n - i,
    {
        if s.get_char(i) == c {
            proof {
                assert forall|j: int| 0 <= j < i - from implies t[j] != c by {
                    assert(t[j] == s@[from + j]);
                }
                lemma_seq_first_index_is(t, c, i - from);
            }
            return i;
        }
        i = i + 1;
    }
    proof {
        assert forall|j: int| 0 <= j < t.len() implies t[j] != c by {
            assert(t[j] == s@[from + j]);
        }
        lemma_seq_first_index_is(t, c, t.len() as int);
    }
    n
}

} // verus!
