//! Extracting a file path from a command's tail: whatever follows the
//! leading whitespace, or nothing.

use crate::text::{is_space, lemma_trim_front_is, trim_front};
use vstd::prelude::*;

verus! {

/// The path given after a command, with leading whitespace removed; `None`
/// when only whitespace is left.
pub fn parse_path<'a>(input: &'a str) -> (r: Option<&'a str>)
    ensures
        r matches Some(p) ==> p@ == trim_front(input@) && trim_front(input@).len() > 0,
        r is None <==> trim_front(input@).len() == 0,
{
    let n = input.unicode_len();
    let mut a: usize = 0;
    let mut stop = false;
    while a < n && !stop
        invariant
            0 <= a <= n == input@.len(),
            forall|j: int| 0 <= j < a ==> is_space(#[trigger] input@[j]),
            stop ==> a < n && !is_space(input@[a as int]),
        decreases n - a + (if stop {
            0int
        } else {
            1int
        }),
    {
        let c = input.get_char(a);
        if c == ' ' || c == '\t' || c == '\n' || c == '\r' {
            a += 1;
        } else {
            stop = true;
        }
    }
    proof {
        lemma_trim_front_is(input@, a as int);
    }
    if a == n {
        None
    } else {
        Some(input.substring_char(a, n))
    }
}

} // verus!
