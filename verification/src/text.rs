//! Small helpers on strings.

use vstd::prelude::*;
use vstd::string::StringExecFns;
use vstd::string::StrSliceExecFns;

verus! {

/// The lower-case form of a string as `str::to_lowercase` computes it, which
/// follows the Unicode character database.
pub uninterp spec fn lowercase(s: Seq<char>) -> Seq<char>;

/// Calls `str::to_lowercase`. The result is a function of the characters
/// alone; the contract gives it the name [`lowercase`] and says no more.
#[verifier::external_body]
pub(crate) fn to_lowercase(s: &str) -> (r: String)
    ensures
        r@ == lowercase(s@),
{
    s.to_lowercase()
}

/// Whether two strings hold the same characters.
pub fn same_text(a: &str, b: &str) -> (r: bool)
    ensures
        r == (a@ == b@),
{
    let x = String::from_str(a);
    let y = String::from_str(b);
    x == y
}

/// Position of the first `.` in `s`, or the length of `s` if it holds none.
pub open spec fn dot_index(s: Seq<char>) -> nat
    decreases s.len(),
{
    if s.len() == 0 || s[0] == '.' {
        0
    } else {
        1 + dot_index(s.drop_first())
    }
}

/// `dot_index` is the least position that holds a `.`.
pub proof fn lemma_dot_index(s: Seq<char>)
    ensures
        dot_index(s) <= s.len(),
        dot_index(s) < s.len() ==> s[dot_index(s) as int] == '.',
        forall|j: int| 0 <= j < dot_index(s) ==> s[j] != '.',
    decreases s.len(),
{
    if s.len() == 0 || s[0] == '.' {
    } else {
        lemma_dot_index(s.drop_first());
        assert forall|j: int| 0 <= j < dot_index(s) implies s[j] != '.' by {
            if j > 0 {
                assert(s[j] == s.drop_first()[j - 1]);
            }
        }
    }
}

/// A position that holds a `.` and has none before it is `dot_index`.
pub proof fn lemma_dot_index_unique(s: Seq<char>, i: int)
    requires
        0 <= i <= s.len(),
        i < s.len() ==> s[i] == '.',
        forall|j: int| 0 <= j < i ==> s[j] != '.',
    ensures
        dot_index(s) == i,
{
    lemma_dot_index(s);
}

/// Finds the first `.` of a string.
pub fn find_dot(s: &str) -> (i: usize)
    ensures
        i == dot_index(s@),
{
    // Counting the characters first shows that their number fits the
    // counter below.
    let n = s.unicode_len();
    let mut i: usize = 0;
    for c in it: s.chars()
        invariant
            n == s@.len(),
            i == it.index(),
            it.seq() == s@,
            forall|j: int| 0 <= j < i ==> s@[j] != '.',
    {
        if c == '.' {
            proof {
                lemma_dot_index_unique(s@, i as int);
            }
            return i;
        }
        i += 1;
    }
    proof {
        lemma_dot_index_unique(s@, i as int);
    }
    i
}

} // verus!
