//! ASCII character classes and the runs of them that the grammar is made of.

use vstd::prelude::*;
use vstd::std_specs::iter::IteratorSpec;
use vstd::string::{axiom_spec_iter, next_postcondition};

verus! {

/// An ASCII letter, in either case.
pub open spec fn is_alpha(c: char) -> bool {
    ('a' <= c && c <= 'z') || ('A' <= c && c <= 'Z')
}

/// An ASCII decimal digit.
pub open spec fn is_digit(c: char) -> bool {
    '0' <= c && c <= '9'
}

/// An ASCII letter or decimal digit.
pub open spec fn is_alnum(c: char) -> bool {
    is_alpha(c) || is_digit(c)
}

/// The two classes of characters that a statement is built from: keys are
/// runs of `Alpha`, value tokens are runs of `Alnum`.
#[derive(Clone, Copy, Debug, PartialEq, Eq, Structural)]
pub enum CharClass {
    Alpha,
    Alnum,
}

impl CharClass {
    /// Membership of `c` in the class.
    pub open spec fn contains(self, c: char) -> bool {
        match self {
            CharClass::Alpha => is_alpha(c),
            CharClass::Alnum => is_alnum(c),
        }
    }

    /// Tells whether `c` belongs to the class.
    pub fn has(self, c: char) -> (r: bool)
        ensures
            r == self.contains(c),
    {
        let letter = ('a' <= c && c <= 'z') || ('A' <= c && c <= 'Z');
        match self {
            CharClass::Alpha => letter,
            CharClass::Alnum => letter || ('0' <= c && c <= '9'),
        }
    }
}

/// Every character of `s` belongs to `class`.
pub open spec fn all_in(s: Seq<char>, class: CharClass) -> bool {
    forall|i: int| 0 <= i < s.len() ==> class.contains(#[trigger] s[i])
}

/// The length of the longest prefix of `s` whose characters all belong to
/// `class`.
pub open spec fn run_len(s: Seq<char>, class: CharClass) -> nat
    decreases s.len(),
{
    if s.len() > 0 && class.contains(s[0]) {
        1 + run_len(s.drop_first(), class)
    } else {
        0
    }
}

/// `n` is the length of the leading run of `class` in `s`: the first `n`
/// characters belong to the class, and the run cannot be made longer.
pub open spec fn is_run(s: Seq<char>, class: CharClass, n: int) -> bool {
    &&& 0 <= n <= s.len()
    &&& forall|i: int| 0 <= i < n ==> class.contains(#[trigger] s[i])
    &&& n < s.len() ==> !class.contains(s[n])
}

/// A length that is a leading run is the one that `run_len` gives.
pub proof fn lemma_run_unique(s: Seq<char>, class: CharClass, n: int)
    requires
        is_run(s, class, n),
    ensures
        run_len(s, class) == n,
    decreases n,
{
    if n > 0 {
        let t = s.drop_first();
        assert(class.contains(s[0]));
        assert forall|i: int| 0 <= i < n - 1 implies class.contains(#[trigger] t[i]) by {
            assert(t[i] == s[i + 1]);
        }
        if n - 1 < t.len() {
            assert(t[n - 1] == s[n]);
        }
        lemma_run_unique(t, class, n - 1);
    }
}

/// What `run_len` gives is a leading run.
pub proof fn lemma_run_len_is_run(s: Seq<char>, class: CharClass)
    ensures
        is_run(s, class, run_len(s, class) as int),
    decreases s.len(),
{
    if s.len() > 0 && class.contains(s[0]) {
        let t = s.drop_first();
        lemma_run_len_is_run(t, class);
        let n = run_len(s, class) as int;
        assert forall|i: int| 0 <= i < n implies class.contains(#[trigger] s[i]) by {
            if i > 0 {
                assert(s[i] == t[i - 1]);
            }
        }
        if n < s.len() {
            assert(s[n] == t[n - 1]);
        }
    }
}

/// Measures the leading run of `class` in `s`, in one pass.
pub fn leading_run(s: &str, class: CharClass) -> (n: usize)
    ensures
        n == run_len(s@, class),
        n <= s@.len(),
{
    broadcast use {axiom_spec_iter, next_postcondition};

    let len = s.unicode_len();
    let mut chars = s.chars();
    let mut n: usize = 0;
    loop
        invariant_except_break
            chars.obeys_prophetic_iter_laws(),
            chars.remaining() == s@.skip(n as int),
        invariant
            len == s@.len(),
            n <= len,
            forall|j: int| 0 <= j < n ==> class.contains(#[trigger] s@[j]),
        ensures
            n < len ==> !class.contains(s@[n as int]),
        decreases len - n,
    {
        match chars.next() {
            Some(c) => {
                assert(c == s@[n as int]);
                if !class.has(c) {
                    break;
                }
                assert(s@.skip(n as int).drop_first() =~= s@.skip(n + 1));
                n = n + 1;
            },
            None => {
                break;
            },
        }
    }
    proof {
        lemma_run_unique(s@, class, n as int);
    }
    n
}

} // verus!
