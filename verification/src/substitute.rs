//! Escape handling for replacement texts: `\n` and `\t` become real
//! characters before the text reaches the buffer.

use crate::text::push_char;
use vstd::prelude::*;

verus! {

/// The text with its escapes interpreted, processing left to right;
/// `esc` says whether a backslash is pending.  A trailing lone backslash
/// disappears.
pub open spec fn subst_escapes(s: Seq<char>, esc: bool) -> Seq<char>
    decreases s.len(),
{
    if s.len() == 0 {
        Seq::empty()
    } else if esc {
        (if s[0] == 'n' {
            seq!['\n']
        } else if s[0] == 't' {
            seq!['\t']
        } else {
            seq!['\\', s[0]]
        }) + subst_escapes(s.drop_first(), false)
    } else if s[0] == '\\' {
        subst_escapes(s.drop_first(), true)
    } else {
        seq![s[0]] + subst_escapes(s.drop_first(), false)
    }
}

/// Interpret backslash escapes: `\n` and `\t` become terminator and tab;
/// any other escaped character keeps its backslash.
pub fn substitute(input: &str) -> (r: String)
    ensures
        r@ == subst_escapes(input@, false),
{
    let n = input.unicode_len();
    let mut out = String::new();
    let mut esc = false;
    let mut i: usize = 0;
    proof {
        assert(input@.subrange(0, n as int) =~= input@);
    }
    while i < n
        invariant
            0 <= i <= n == input@.len(),
            subst_escapes(input@, false) == out@ + subst_escapes(
                input@.subrange(i as int, n as int),
                esc,
            ),
        decreases n - i,
    {
        let c = input.get_char(i);
        let ghost rest = input@.subrange(i as int, n as int);
        let ghost rest2 = input@.subrange(i + 1, n as int);
        proof {
            assert(rest[0] == c);
            assert(rest.drop_first() =~= rest2);
        }
        if esc {
            if c == 'n' {
                push_char(&mut out, '\n');
                proof {
                    assert(out@ + subst_escapes(rest2, false) =~= out@.drop_last() + (seq!['\n']
                        + subst_escapes(rest2, false)));
                }
            } else if c == 't' {
                push_char(&mut out, '\t');
                proof {
                    assert(out@ + subst_escapes(rest2, false) =~= out@.drop_last() + (seq!['\t']
                        + subst_escapes(rest2, false)));
                }
            } else {
                push_char(&mut out, '\\');
                push_char(&mut out, c);
                proof {
                    assert(out@ + subst_escapes(rest2, false) =~= out@.drop_last().drop_last() + (
                    seq!['\\', c] + subst_escapes(rest2, false)));
                }
            }
            esc = false;
        } else {
            if c == '\\' {
                esc = true;
            } else {
                push_char(&mut out, c);
                proof {
                    assert(out@ + subst_escapes(rest2, false) =~= out@.drop_last() + (seq![c]
                        + subst_escapes(rest2, false)));
                }
            }
        }
        i += 1;
    }
    proof {
        assert(input@.subrange(n as int, n as int) =~= Seq::<char>::empty());
        assert(out@ + subst_escapes(Seq::<char>::empty(), esc) =~= out@);
    }
    out
}

} // verus!
