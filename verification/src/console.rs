//! Deciding an interactive confirmation answer.
//!
//! Reading the operator's line from the terminal happens outside the
//! library; deciding whether that line is an affirmative answer is pure and
//! verified here.

use vstd::prelude::*;

verus! {

/// The whitespace that is stripped from both ends of an answer.
pub open spec fn is_ws(c: char) -> bool {
    c == ' ' || c == '\t' || c == '\r' || c == '\n'
}

/// The answer with leading and trailing whitespace removed.
pub open spec fn trimmed(s: Seq<char>) -> Seq<char>
    decreases s.len(),
{
    if s.len() == 0 {
        s
    } else if is_ws(s.first()) {
        trimmed(s.drop_first())
    } else if is_ws(s.last()) {
        trimmed(s.drop_last())
    } else {
        s
    }
}

/// Case folding for the three letters of "yes"; every other character
/// stands for itself.
pub open spec fn fold_yes(c: char) -> char {
    if c == 'Y' {
        'y'
    } else if c == 'E' {
        'e'
    } else if c == 'S' {
        's'
    } else {
        c
    }
}

/// An answer counts as affirmative exactly when, stripped of surrounding
/// whitespace and ignoring the case of its letters, it reads "yes".
pub open spec fn affirmative(s: Seq<char>) -> bool {
    let t = trimmed(s);
    t.len() == 3 && fold_yes(t[0]) == 'y' && fold_yes(t[1]) == 'e' && fold_yes(t[2]) == 's'
}

proof fn lemma_trimmed_is_subrange(s: Seq<char>, a: int, b: int)
    requires
        0 <= a <= b <= s.len(),
        forall|k: int| 0 <= k < a ==> is_ws(#[trigger] s[k]),
        forall|k: int| b <= k < s.len() ==> is_ws(#[trigger] s[k]),
        a == b || (!is_ws(s[a]) && !is_ws(s[b - 1])),
    ensures
        trimmed(s) == s.subrange(a, b),
    decreases s.len(),
{
    if s.len() == 0 {
        assert(s.subrange(a, b) =~= s);
    } else if is_ws(s.first()) {
        let sr = s.drop_first();
        assert(a >= 1 || a == b) by {
            if a == 0 && a < b {
                assert(!is_ws(s[0]));
            }
        }
        if a == b && a == 0 {
            assert(forall|k: int| 0 <= k < sr.len() ==> is_ws(#[trigger] sr[k])) by {
                assert(forall|k: int|
                    0 <= k < sr.len() ==> sr[k] == s[k + 1] && is_ws(#[trigger] s[k + 1]));
            }
            lemma_trimmed_is_subrange(sr, 0, 0);
            assert(s.subrange(0, 0) =~= sr.subrange(0, 0));
        } else {
            assert(forall|k: int| 0 <= k < a - 1 ==> is_ws(#[trigger] sr[k])) by {
                assert(forall|k: int| 0 <= k < a - 1 ==> sr[k] == s[k + 1]);
                assert(forall|k: int| 0 <= k < a - 1 ==> is_ws(#[trigger] s[k + 1]));
            }
            assert(forall|k: int| b - 1 <= k < sr.len() ==> is_ws(#[trigger] sr[k])) by {
                assert(forall|k: int| b - 1 <= k < sr.len() ==> sr[k] == s[k + 1]);
                assert(forall|k: int|
                    b - 1 <= k < sr.len() ==> is_ws(#[trigger] s[k + 1]));
            }
            assert(a - 1 == b - 1 || (!is_ws(sr[a - 1]) && !is_ws(sr[b - 2])));
            lemma_trimmed_is_subrange(sr, a - 1, b - 1);
            assert(s.subrange(a, b) =~= sr.subrange(a - 1, b - 1));
        }
    } else if is_ws(s.last()) {
        let sr = s.drop_last();
        assert(b <= s.len() - 1 || a == b) by {
            if b == s.len() && a < b {
                assert(!is_ws(s[b - 1]));
            }
        }
        if a == b && b == s.len() {
            assert(a >= 1);
            lemma_trimmed_is_subrange(sr, a - 1, a - 1);
            assert(s.subrange(a, b) =~= sr.subrange(a - 1, a - 1));
        } else {
            lemma_trimmed_is_subrange(sr, a, b);
            assert(s.subrange(a, b) =~= sr.subrange(a, b));
        }
    } else {
        assert(a == 0) by {
            if a > 0 {
                assert(is_ws(s[0]));
            }
        }
        assert(b == s.len()) by {
            if b < s.len() {
                assert(is_ws(s[s.len() - 1]));
            }
        }
        assert(s.subrange(a, b) =~= s);
    }
}

/// Decides `is_ws`.
fn ws(c: char) -> (b: bool)
    ensures
        b == is_ws(c),
{
    c == ' ' || c == '\t' || c == '\r' || c == '\n'
}

fn first_non_ws(s: &str, i: usize) -> (r: usize)
    requires
        i <= s@.len(),
        forall|k: int| 0 <= k < i ==> is_ws(#[trigger] s@[k]),
    ensures
        i <= r <= s@.len(),
        forall|k: int| 0 <= k < r ==> is_ws(#[trigger] s@[k]),
        r < s@.len() ==> !is_ws(s@[r as int]),
    decreases s@.len() - i,
{
    if i >= s.unicode_len() {
        return i;
    }
    if ws(s.get_char(i)) {
        first_non_ws(s, i + 1)
    } else {
        i
    }
}

fn last_non_ws_end(s: &str, j: usize) -> (r: usize)
    requires
        j <= s@.len(),
        forall|k: int| j <= k < s@.len() ==> is_ws(#[trigger] s@[k]),
    ensures
        r <= j,
        forall|k: int| r <= k < s@.len() ==> is_ws(#[trigger] s@[k]),
        r > 0 ==> !is_ws(s@[r - 1]),
    decreases j,
{
    if j == 0 {
        return 0;
    }
    if ws(s.get_char(j - 1)) {
        last_non_ws_end(s, j - 1)
    } else {
        j
    }
}

/// Decides `fold_yes`.
fn fold_yes_char(c: char) -> (r: char)
    ensures
        r == fold_yes(c),
{
    match c {
        'Y' => 'y',
        'E' => 'e',
        'S' => 's',
        _ => c,
    }
}

/// Decides whether the operator's answer reads "yes", after stripping
/// surrounding whitespace and ignoring the case of the letters.
pub fn is_affirmative(answer: &str) -> (r: bool)
    ensures
        r == affirmative(answer@),
{
    let n = answer.unicode_len();
    let a = first_non_ws(answer, 0);
    if a == n {
        proof {
            lemma_trimmed_is_subrange(answer@, n as int, n as int);
            assert(answer@.subrange(n as int, n as int).len() == 0);
        }
        return false;
    }
    let b = last_non_ws_end(answer, n);
    proof {
        assert(b > a) by {
            if b <= a {
                assert(is_ws(answer@[a as int]));
            }
        }
        lemma_trimmed_is_subrange(answer@, a as int, b as int);
    }
    if b - a != 3 {
        return false;
    }
    let c0 = fold_yes_char(answer.get_char(a));
    let c1 = fold_yes_char(answer.get_char(a + 1));
    let c2 = fold_yes_char(answer.get_char(a + 2));
    proof {
        assert(answer@.subrange(a as int, b as int)[0] == answer@[a as int]);
        assert(answer@.subrange(a as int, b as int)[1] == answer@[a + 1]);
        assert(answer@.subrange(a as int, b as int)[2] == answer@[a + 2]);
    }
    c0 == 'y' && c1 == 'e' && c2 == 's'
}

} // verus!
