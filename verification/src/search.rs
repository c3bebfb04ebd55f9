//! Search of one text inside another, without regard to the case of the
//! letters `A` to `Z`.

use vstd::prelude::*;
use vstd::string::*;

verus! {

/// The code of `c`, with the capital letters `A` to `Z` taken as their small
/// letters.
pub open spec fn folded(c: char) -> int {
    if 'A' <= c <= 'Z' {
        c as int + 32
    } else {
        c as int
    }
}

/// `needle` stands in `hay` at position `at`, letter case apart.
pub open spec fn occurs_at(hay: Seq<char>, needle: Seq<char>, at: int) -> bool {
    &&& 0 <= at
    &&& at + needle.len() <= hay.len()
    &&& forall|i: int| 0 <= i < needle.len() ==> folded(hay[at + i]) == folded(#[trigger] needle[i])
}

/// `needle` stands somewhere in `hay`, letter case apart. The empty text
/// stands in every text.
pub open spec fn contains_folded(hay: Seq<char>, needle: Seq<char>) -> bool {
    exists|at: int| occurs_at(hay, needle, at)
}

/// The folded code of one character.
pub fn fold_char(c: char) -> (code: u32)
    ensures
        code as int == folded(c),
{
    if 'A' <= c && c <= 'Z' {
        c as u32 + 32
    } else {
        c as u32
    }
}

/// Decides whether `needle` stands in `hay` at position `at`.
fn matches_at(hay: &str, needle: &str, at: usize) -> (found: bool)
    requires
        at + needle@.len() <= hay@.len() <= usize::MAX,
    ensures
        found == occurs_at(hay@, needle@, at as int),
{
    let len = needle.unicode_len();
    let mut i: usize = 0;
    while i < len
        invariant
            i <= len == needle@.len(),
            at + len <= hay@.len() <= usize::MAX,
            forall|j: int| 0 <= j < i ==> folded(hay@[at + j]) == folded(#[trigger] needle@[j]),
        decreases len - i,
    {
        if fold_char(hay.get_char(at + i)) != fold_char(needle.get_char(i)) {
            return false;
        }
        i = i + 1;
    }
    true
}

/// Decides whether `needle` stands somewhere in `hay`, letter case apart.
pub fn contains_ignoring_case(hay: &str, needle: &str) -> (found: bool)
    ensures
        found == contains_folded(hay@, needle@),
{
    let hay_len = hay.unicode_len();
    let needle_len = needle.unicode_len();
    if needle_len == 0 {
        assert(occurs_at(hay@, needle@, 0));
        return true;
    }
    if needle_len > hay_len {
        return false;
    }
    let last = hay_len - needle_len;
    let mut at: usize = 0;
    while at <= last
        invariant
            at <= last + 1,
            0 < needle@.len(),
            last + needle@.len() == hay@.len() <= usize::MAX,
            forall|k: int| 0 <= k < at ==> !occurs_at(hay@, needle@, k),
        decreases last + 1 - at,
    {
        if matches_at(hay, needle, at) {
            return true;
        }
        at = at + 1;
    }
    false
}

} // verus!
