//! Markdown-aware line joining for help texts: ordinary newlines become
//! spaces so that paragraphs reflow, while list entries, block quotes,
//! indented blocks, fenced code and explicit line breaks keep their lines.
//! Every emitted line ends in a terminator.

use crate::text::{find_nl, first_nl, is_space, lemma_first_nl_is, lemma_trim_front_is, trim_front};
use vstd::prelude::*;

verus! {

/// What `char::is_numeric` answers: a property of the character alone.
pub uninterp spec fn numeric_char(c: char) -> bool;

/// Relies on `char::is_numeric`: whether the character has the Unicode
/// numeric property.  Of the ASCII characters exactly the digits have it.
#[verifier::external_body]
fn is_numeric_char(c: char) -> (r: bool)
    ensures
        r == numeric_char(c),
        ('0' as u32 <= c as u32 && c as u32 <= '9' as u32) ==> r,
        ((c as u32) < 128 && !('0' as u32 <= c as u32 && c as u32 <= '9' as u32)) ==> !r,
{
    c.is_numeric()
}

/// A line with its trailing spaces removed.
pub open spec fn trim_spaces_end(line: Seq<char>) -> Seq<char>
    decreases line.len(),
{
    if line.len() > 0 && line.last() == ' ' {
        trim_spaces_end(line.drop_last())
    } else {
        line
    }
}

proof fn lemma_trim_spaces_end_is(line: Seq<char>, m: int)
    requires
        0 <= m <= line.len(),
        forall|j: int| m <= j < line.len() ==> line[j] == ' ',
        m > 0 ==> line[m - 1] != ' ',
    ensures
        trim_spaces_end(line) == line.subrange(0, m),
    decreases line.len(),
{
    if m == line.len() {
        assert(line.subrange(0, m) =~= line);
    } else {
        assert forall|j: int| m <= j < line.drop_last().len() implies line.drop_last()[j]
            == ' ' by {
            assert(line.drop_last()[j] == line[j]);
        }
        lemma_trim_spaces_end_is(line.drop_last(), m);
        assert(line.drop_last().subrange(0, m) =~= line.subrange(0, m));
    }
}

/// The folding state: the output so far, whether the next ordinary line
/// may be joined to the previous one, and whether a code fence is open.
pub open spec fn md_init() -> (Seq<char>, bool, bool) {
    (Seq::<char>::empty(), true, false)
}

/// Appending one line to the output: a line ending in two spaces or a
/// backslash marks an explicit break (the marker is dropped, joining is
/// suppressed for the next line); every line gains a terminator.
pub open spec fn md_add_line(st: (Seq<char>, bool, bool), line: Seq<char>) -> (
    Seq<char>,
    bool,
    bool,
) {
    if line.len() >= 2 && line[line.len() - 1] == ' ' && line[line.len() - 2] == ' ' {
        (st.0 + trim_spaces_end(line) + seq!['\n'], false, st.2)
    } else if line.len() >= 1 && line.last() == '\\' {
        (st.0 + line.drop_last() + seq!['\n'], false, st.2)
    } else {
        (st.0 + line + seq!['\n'], st.1, st.2)
    }
}

/// A line that opens a block which must not be joined: tab- or
/// four-space-indented text, a block quote, or an empty line.
pub open spec fn md_block_start(line: Seq<char>) -> bool {
    ||| line.len() == 0
    ||| line[0] == '\t'
    ||| line[0] == '>'
    ||| (line.len() >= 4 && line[0] == ' ' && line[1] == ' ' && line[2] == ' ' && line[3] == ' ')
}

/// A code fence line.
pub open spec fn md_fence(line: Seq<char>) -> bool {
    line.len() == 3 && line[0] == '`' && line[1] == '`' && line[2] == '`'
}

/// An unordered list entry after indentation: `- `, `* ` or `+ `.
pub open spec fn md_unordered(t: Seq<char>) -> bool {
    t.len() >= 2 && (t[0] == '-' || t[0] == '*' || t[0] == '+') && t[1] == ' '
}

/// Index of the first character without the numeric property.
pub open spec fn first_nonnumeric(t: Seq<char>) -> int
    decreases t.len(),
{
    if t.len() == 0 {
        0
    } else if !numeric_char(t[0]) {
        0
    } else {
        1 + first_nonnumeric(t.drop_first())
    }
}

proof fn lemma_first_nonnumeric_is(t: Seq<char>, m: int)
    requires
        0 <= m <= t.len(),
        forall|j: int| 0 <= j < m ==> numeric_char(#[trigger] t[j]),
        m < t.len() ==> !numeric_char(t[m]),
    ensures
        first_nonnumeric(t) == m,
    decreases t.len(),
{
    if t.len() == 0 {
    } else if !numeric_char(t[0]) {
    } else {
        assert(m > 0);
        assert forall|j: int| 0 <= j < m - 1 implies numeric_char(
            #[trigger] t.drop_first()[j],
        ) by {
            assert(t.drop_first()[j] == t[j + 1]);
        }
        lemma_first_nonnumeric_is(t.drop_first(), m - 1);
    }
}

/// An ordered list entry after indentation: one or more numeric
/// characters followed directly by a dot.
pub open spec fn md_ordered(t: Seq<char>) -> bool {
    let k = first_nonnumeric(t);
    1 <= k < t.len() && t[k] == '.'
}

/// One folding step per input line, in the order the checks are applied:
/// an explicit break or an open code block keeps the line as it is; block
/// starts suppress joining; a fence toggles code mode; list entries keep
/// their line; everything else is joined to the previous line by turning
/// the last terminator into a space.
pub open spec fn md_step(st: (Seq<char>, bool, bool), line: Seq<char>) -> (Seq<char>, bool, bool) {
    if !st.1 {
        md_add_line((st.0, true, st.2), line)
    } else if st.2 {
        md_add_line(st, line)
    } else if md_block_start(line) {
        md_add_line((st.0, false, st.2), line)
    } else if md_fence(line) {
        md_add_line((st.0, st.1, !st.2), line)
    } else if md_unordered(trim_front(line)) || md_ordered(trim_front(line)) {
        md_add_line(st, line)
    } else {
        let out2 = if st.0.len() > 0 && st.0.last() == '\n' {
            st.0.drop_last().push(' ')
        } else {
            st.0
        };
        md_add_line((out2, st.1, st.2), line)
    }
}

pub open spec fn md_fold(lines: Seq<Seq<char>>, st: (Seq<char>, bool, bool)) -> (
    Seq<char>,
    bool,
    bool,
)
    decreases lines.len(),
{
    if lines.len() == 0 {
        st
    } else {
        md_fold(lines.drop_first(), md_step(st, lines[0]))
    }
}

/// The input cut into lines at each terminator, the final terminator
/// optional, terminators not kept.
pub open spec fn md_lines(s: Seq<char>) -> Seq<Seq<char>>
    decreases s.len(),
{
    if s.len() == 0 {
        Seq::empty()
    } else {
        let i = first_nl(s);
        if 0 <= i < s.len() {
            seq![s.subrange(0, i)] + md_lines(s.subrange(i + 1, s.len() as int))
        } else {
            seq![s]
        }
    }
}

/// What `join_joinable_lines` returns.
pub open spec fn md_joined(s: Seq<char>) -> Seq<char> {
    md_fold(md_lines(s), md_init()).0
}

/// Append one line (without terminator) to the output, handling the
/// explicit-break markers; mirrors `md_add_line`.
fn md_add(out: &mut Vec<char>, piece: &str, remove: &mut bool)
    ensures
        ({
            let st = md_add_line((old(out)@, *old(remove), false), piece@);
            final(out)@ == st.0 && *final(remove) == st.1
        }),
{
    let np = piece.unicode_len();
    let two_spaces = np >= 2 && piece.get_char(np - 1) == ' ' && piece.get_char(np - 2) == ' ';
    let backslash = !two_spaces && np >= 1 && piece.get_char(np - 1) == '\\';
    let m: usize;
    if two_spaces {
        // Drop every trailing space.
        let mut b = np;
        let mut stop = false;
        while b > 0 && !stop
            invariant
                0 <= b <= np == piece@.len(),
                forall|j: int| b <= j < np ==> piece@[j] == ' ',
                stop ==> b > 0 && piece@[b - 1] != ' ',
            decreases b + (if stop {
                0int
            } else {
                1int
            }),
        {
            if piece.get_char(b - 1) == ' ' {
                b -= 1;
            } else {
                stop = true;
            }
        }
        proof {
            lemma_trim_spaces_end_is(piece@, b as int);
        }
        m = b;
        *remove = false;
    } else if backslash {
        m = np - 1;
        *remove = false;
    } else {
        m = np;
    }
    let mut k: usize = 0;
    while k < m
        invariant
            0 <= k <= m <= np == piece@.len(),
            out@ == old(out)@ + piece@.subrange(0, k as int),
        decreases m - k,
    {
        out.push(piece.get_char(k));
        proof {
            assert(old(out)@ + piece@.subrange(0, k + 1) =~= (old(out)@ + piece@.subrange(
                0,
                k as int,
            )).push(piece@[k as int]));
        }
        k += 1;
    }
    out.push('\n');
    proof {
        if two_spaces {
            assert(out@ =~= old(out)@ + trim_spaces_end(piece@) + seq!['\n']);
        } else if backslash {
            assert(piece@.subrange(0, np - 1) =~= piece@.drop_last());
            assert(out@ =~= old(out)@ + piece@.drop_last() + seq!['\n']);
        } else {
            assert(piece@.subrange(0, np as int) =~= piece@);
            assert(out@ =~= old(out)@ + piece@ + seq!['\n']);
        }
    }
}

fn md_block_start_exec(piece: &str) -> (r: bool)
    ensures
        r == md_block_start(piece@),
{
    let np = piece.unicode_len();
    if np == 0 {
        return true;
    }
    let c0 = piece.get_char(0);
    if c0 == '\t' || c0 == '>' {
        return true;
    }
    np >= 4 && c0 == ' ' && piece.get_char(1) == ' ' && piece.get_char(2) == ' ' && piece.get_char(
        3,
    ) == ' '
}

fn md_fence_exec(piece: &str) -> (r: bool)
    ensures
        r == md_fence(piece@),
{
    let np = piece.unicode_len();
    np == 3 && piece.get_char(0) == '`' && piece.get_char(1) == '`' && piece.get_char(2) == '`'
}

fn md_ordered_exec(t: &str) -> (r: bool)
    ensures
        r == md_ordered(t@),
{
    let nn = t.unicode_len();
    let mut k: usize = 0;
    let mut stop = false;
    while k < nn && !stop
        invariant
            0 <= k <= nn == t@.len(),
            forall|j: int| 0 <= j < k ==> numeric_char(#[trigger] t@[j]),
            stop ==> k < nn && !numeric_char(t@[k as int]),
        decreases nn - k + (if stop {
            0int
        } else {
            1int
        }),
    {
        if is_numeric_char(t.get_char(k)) {
            k += 1;
        } else {
            stop = true;
        }
    }
    proof {
        lemma_first_nonnumeric_is(t@, k as int);
    }
    if stop && k >= 1 {
        t.get_char(k) == '.'
    } else {
        false
    }
}

/// Join lines according to markdown syntax: ordinary newlines become
/// spaces, unless the line before forbids it (explicit break, code) or
/// the line itself opens a construct of its own (list entry, block quote,
/// indented or fenced block, new paragraph).  Every line of the result
/// carries a terminator.
pub fn join_joinable_lines(input: &str) -> (r: String)
    ensures
        r@ == md_joined(input@),
{
    let n = input.unicode_len();
    let mut out: Vec<char> = Vec::new();
    let mut remove = true;
    let mut code = false;
    let mut j: usize = 0;
    proof {
        assert(input@.subrange(0, n as int) =~= input@);
        assert(out@ =~= Seq::<char>::empty());
    }
    while j < n
        invariant
            0 <= j <= n == input@.len(),
            md_fold(md_lines(input@), md_init()) == md_fold(
                md_lines(input@.subrange(j as int, n as int)),
                (out@, remove, code),
            ),
        decreases n - j,
    {
        let ghost rest = input@.subrange(j as int, n as int);
        let k = find_nl(input, j);
        proof {
            lemma_first_nl_is(rest, k - j);
        }
        let piece = input.substring_char(j, k);
        proof {
            assert(piece@ =~= rest.subrange(0, k - j));
            if k < n {
                assert(rest.subrange(k - j + 1, rest.len() as int) =~= input@.subrange(
                    k + 1,
                    n as int,
                ));
                assert(md_lines(rest) =~= seq![piece@] + md_lines(input@.subrange(k + 1, n as int)));
                assert((seq![piece@] + md_lines(input@.subrange(k + 1, n as int))).drop_first()
                    =~= md_lines(input@.subrange(k + 1, n as int)));
            } else {
                assert(piece@ =~= rest);
                assert(md_lines(rest) =~= seq![piece@]);
                assert(seq![piece@].drop_first() =~= Seq::<Seq<char>>::empty());
                assert(input@.subrange(n as int, n as int) =~= Seq::<char>::empty());
            }
        }
        let ghost st0 = (out@, remove, code);
        if !remove {
            remove = true;
            md_add(&mut out, piece, &mut remove);
            proof {
                assert((out@, remove, code) == md_step(st0, piece@));
            }
        } else if code {
            md_add(&mut out, piece, &mut remove);
            proof {
                assert((out@, remove, code) == md_step(st0, piece@));
            }
        } else if md_block_start_exec(piece) {
            remove = false;
            md_add(&mut out, piece, &mut remove);
            proof {
                assert((out@, remove, code) == md_step(st0, piece@));
            }
        } else if md_fence_exec(piece) {
            code = !code;
            md_add(&mut out, piece, &mut remove);
            proof {
                assert((out@, remove, code) == md_step(st0, piece@));
            }
        } else {
            // Find where the indentation ends.
            let np = piece.unicode_len();
            let mut a: usize = 0;
            let mut stop = false;
            while a < np && !stop
                invariant
                    0 <= a <= np == piece@.len(),
                    forall|jj: int| 0 <= jj < a ==> is_space(#[trigger] piece@[jj]),
                    stop ==> a < np && !is_space(piece@[a as int]),
                decreases np - a + (if stop {
                    0int
                } else {
                    1int
                }),
            {
                let c = piece.get_char(a);
                if c == ' ' || c == '\t' || c == '\n' || c == '\r' {
                    a += 1;
                } else {
                    stop = true;
                }
            }
            proof {
                lemma_trim_front_is(piece@, a as int);
            }
            let t = piece.substring_char(a, np);
            let tn = np - a;
            let unordered = tn >= 2 && (t.get_char(0) == '-' || t.get_char(0) == '*'
                || t.get_char(0) == '+') && t.get_char(1) == ' ';
            if unordered || md_ordered_exec(t) {
                md_add(&mut out, piece, &mut remove);
                proof {
                    assert((out@, remove, code) == md_step(st0, piece@));
                }
            } else {
                if out.len() > 0 {
                    let lastc = out[out.len() - 1];
                    if lastc == '\n' {
                        let _ = out.pop();
                        out.push(' ');
                    }
                }
                proof {
                    let out2 = if st0.0.len() > 0 && st0.0.last() == '\n' {
                        st0.0.drop_last().push(' ')
                    } else {
                        st0.0
                    };
                    assert(out@ =~= out2);
                }
                md_add(&mut out, piece, &mut remove);
                proof {
                    assert((out@, remove, code) == md_step(st0, piece@));
                }
            }
        }
        if k < n {
            j = k + 1;
        } else {
            j = n;
        }
    }
    proof {
        assert(input@.subrange(n as int, n as int) =~= Seq::<char>::empty());
        assert(md_fold(md_lines(input@), md_init()).0 == out@);
    }
    let mut r = String::new();
    let mut k2: usize = 0;
    let outlen = out.len();
    while k2 < outlen
        invariant
            0 <= k2 <= outlen == out@.len(),
            r@ == out@.subrange(0, k2 as int),
        decreases outlen - k2,
    {
        crate::text::push_char(&mut r, out[k2]);
        proof {
            assert(out@.subrange(0, k2 + 1) =~= out@.subrange(0, k2 as int).push(
                out@[k2 as int],
            ));
        }
        k2 += 1;
    }
    proof {
        assert(out@.subrange(0, outlen as int) =~= out@);
    }
    r
}

} // verus!
