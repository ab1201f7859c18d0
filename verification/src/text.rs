//! Small operations on texts.

use vstd::prelude::*;
use vstd::string::StringExecFns;

verus! {

/// Whether two texts are the same.
pub fn same_text(a: &str, b: &str) -> (same: bool)
    ensures
        same == (a@ == b@),
{
    let left = String::from_str(a);
    let right = String::from_str(b);
    left == right
}

/// The characters of a text.
pub fn chars_of(text: &str) -> (chars: Vec<char>)
    ensures
        chars@ == text@,
{
    let mut chars: Vec<char> = Vec::new();
    for c in it: text.chars()
        invariant
            it.seq() == text@,
            chars@ == text@.take(it.index() as int),
    {
        chars.push(c);
        assert(chars@ =~= text@.take(it.index() + 1));
    }
    assert(text@.take(text@.len() as int) =~= text@);
    chars
}

/// The position of the first `needle` in `chars`.
pub fn find_first(chars: &Vec<char>, needle: char) -> (at: Option<usize>)
    ensures
        match at {
            Some(i) => chars@.index_of_first(needle) == Some(i as int),
            None => chars@.index_of_first(needle).is_none(),
        },
{
    let mut at: usize = 0;
    while at < chars.len()
        invariant
            at <= chars.len(),
            forall|j: int| 0 <= j < at ==> chars[j] != needle,
        decreases chars.len() - at,
    {
        if chars[at] == needle {
            proof {
                assert(chars@[at as int] == needle);
                chars@.index_of_first_ensures(needle);
            }
            return Some(at);
        }
        at = at + 1;
    }
    proof {
        chars@.index_of_first_ensures(needle);
    }
    None
}

/// The position of the last `needle` in `chars`.
pub fn find_last(chars: &Vec<char>, needle: char) -> (at: Option<usize>)
    ensures
        match at {
            Some(i) => chars@.index_of_last(needle) == Some(i as int),
            None => chars@.index_of_last(needle).is_none(),
        },
{
    let mut at: usize = chars.len();
    while at > 0
        invariant
            at <= chars.len(),
            forall|j: int| at <= j < chars.len() ==> chars[j] != needle,
        decreases at,
    {
        at = at - 1;
        if chars[at] == needle {
            proof {
                assert(chars@[at as int] == needle);
                chars@.index_of_last_ensures(needle);
            }
            return Some(at);
        }
    }
    proof {
        chars@.index_of_last_ensures(needle);
    }
    None
}

} // verus!
