//! Substring matching that ignores the case of ASCII letters.

use vstd::prelude::*;
use vstd::std_specs::iter::IteratorSpec;

verus! {

broadcast use vstd::string::axiom_spec_iter, vstd::string::next_postcondition;

/// Code of a character with ASCII upper-case letters folded to lower case.
pub open spec fn folded(c: char) -> int {
    if 65 <= (c as u32) <= 90 {
        (c as u32) + 32
    } else {
        c as u32 as int
    }
}

/// `needle` occurs in `hay` at `at`, letter case aside.
pub open spec fn occurs_at(hay: Seq<char>, needle: Seq<char>, at: int) -> bool {
    &&& 0 <= at
    &&& at + needle.len() <= hay.len()
    &&& forall|k: int| 0 <= k < needle.len() ==> folded(#[trigger] hay[at + k]) == folded(needle[k])
}

/// `needle` occurs somewhere in `hay`, letter case aside.
pub open spec fn contains_folded(hay: Seq<char>, needle: Seq<char>) -> bool {
    exists|at: int| occurs_at(hay, needle, at)
}

fn fold_char(c: char) -> (r: u32)
    ensures
        r as int == folded(c),
{
    let code = c as u32;
    if 65 <= code && code <= 90 {
        code + 32
    } else {
        code
    }
}

/// The characters of a text.
pub fn chars_of(s: &str) -> (r: Vec<char>)
    ensures
        r@ == s@,
{
    let mut r: Vec<char> = Vec::new();
    for c in it: s.chars()
        invariant
            r@ == it.seq().subrange(0, it.index() as int),
    {
        r.push(c);
    }
    assert(r@ =~= s@);
    r
}

/// Whether `needle` occurs in `hay`, letter case aside.
pub fn contains_ignoring_case(hay: &Vec<char>, needle: &Vec<char>) -> (r: bool)
    ensures
        r == contains_folded(hay@, needle@),
{
    let n = needle.len();
    if n > hay.len() {
        assert forall|at: int| !occurs_at(hay@, needle@, at) by {}
        return false;
    }
    let mut at: usize = 0;
    while at <= hay.len() - n
        invariant
            n == needle@.len(),
            n <= hay@.len(),
            at <= hay@.len() - n + 1,
            forall|a: int| 0 <= a < at ==> !occurs_at(hay@, needle@, a),
        decreases hay@.len() + 1 - at,
    {
        let mut k: usize = 0;
        let mut same = true;
        while k < n
            invariant
                n == needle@.len(),
                at + n <= hay@.len(),
                hay@.len() <= usize::MAX,
                k <= n,
                same <==> forall|j: int| 0 <= j < k ==> folded(#[trigger] hay@[at + j]) == folded(needle@[j]),
            decreases n - k,
        {
            if same && fold_char(hay[at + k]) != fold_char(needle[k]) {
                same = false;
            }
            k += 1;
        }
        if same {
            assert(occurs_at(hay@, needle@, at as int));
            return true;
        }
        at += 1;
    }
    assert forall|a: int| !occurs_at(hay@, needle@, a) by {
        if a >= at {
            assert(a + needle@.len() > hay@.len());
        }
    }
    false
}

} // verus!
