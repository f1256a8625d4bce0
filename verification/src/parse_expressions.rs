//! Expression splitting for the substitute command: the first character of
//! the tail names the separator, and the rest is split on it.

use crate::text::{find_char, first_idx_of, lemma_first_idx_is};
use vstd::prelude::*;

verus! {

/// Splitting on a separator: `n` separators give `n + 1` pieces, empty
/// pieces included.
pub open spec fn split_on(s: Seq<char>, sep: char) -> Seq<Seq<char>>
    decreases s.len(),
{
    let i = first_idx_of(s, sep);
    if 0 <= i < s.len() {
        seq![s.subrange(0, i)] + split_on(s.subrange(i + 1, s.len() as int), sep)
    } else {
        seq![s]
    }
}

/// Split the text after its first character on that character.  An empty
/// input gives no pieces; otherwise `n` separators give `n + 1` pieces.
pub fn parse_expressions(input: &str) -> (r: Vec<String>)
    ensures
        input@.len() == 0 ==> r@.len() == 0,
        input@.len() > 0 ==> crate::buffer::views_of(r@) == split_on(
            input@.subrange(1, input@.len() as int),
            input@[0],
        ),
{
    let n = input.unicode_len();
    let mut out: Vec<String> = Vec::new();
    if n == 0 {
        return out;
    }
    let sep = input.get_char(0);
    let ghost t0 = input@.subrange(1, n as int);
    let mut j: usize = 1;
    let mut done = false;
    while !done
        invariant
            1 <= j <= n == input@.len(),
            t0 == input@.subrange(1, n as int),
            sep == input@[0],
            !done ==> split_on(t0, sep) =~= crate::buffer::views_of(out@) + split_on(
                input@.subrange(j as int, n as int),
                sep,
            ),
            done ==> crate::buffer::views_of(out@) =~= split_on(t0, sep),
        decreases n - j + (if done {
            0int
        } else {
            1int
        }),
    {
        let ghost rest = input@.subrange(j as int, n as int);
        let k = find_char(input, j, sep);
        proof {
            lemma_first_idx_is(rest, sep, k - j);
        }
        if k == n {
            let piece = String::from_str(input.substring_char(j, n));
            proof {
                assert(piece@ =~= rest);
                assert(split_on(rest, sep) =~= seq![piece@]);
                assert(crate::buffer::views_of(out@.push(piece)) =~= crate::buffer::views_of(out@)
                    + seq![piece@]);
            }
            out.push(piece);
            done = true;
        } else {
            let piece = String::from_str(input.substring_char(j, k));
            proof {
                assert(piece@ =~= rest.subrange(0, k - j));
                assert(rest.subrange(k - j + 1, rest.len() as int) =~= input@.subrange(
                    k + 1,
                    n as int,
                ));
                assert(split_on(rest, sep) =~= seq![piece@] + split_on(
                    input@.subrange(k + 1, n as int),
                    sep,
                ));
                assert(crate::buffer::views_of(out@.push(piece)) =~= crate::buffer::views_of(out@)
                    + seq![piece@]);
            }
            out.push(piece);
            j = k + 1;
        }
    }
    out
}

} // verus!
