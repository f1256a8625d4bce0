//! Character-level helpers for line texts: finding terminators and
//! re-splitting a replacement string into discrete lines.

use vstd::prelude::*;

verus! {

/// Index of the first `'\n'` in `s`, or `s.len()` when there is none.
pub open spec fn first_nl(s: Seq<char>) -> int
    decreases s.len(),
{
    if s.len() == 0 {
        0
    } else if s[0] == '\n' {
        0
    } else {
        1 + first_nl(s.drop_first())
    }
}

/// `first_nl` is pinned down by its characterisation: no `'\n'` before `m`,
/// and one at `m` unless `m` is the length.
pub proof fn lemma_first_nl_is(s: Seq<char>, m: int)
    requires
        0 <= m <= s.len(),
        forall|j: int| 0 <= j < m ==> s[j] != '\n',
        m < s.len() ==> s[m] == '\n',
    ensures
        first_nl(s) == m,
    decreases s.len(),
{
    if s.len() == 0 {
    } else if s[0] == '\n' {
    } else {
        assert(m > 0);
        lemma_first_nl_is(s.drop_first(), m - 1);
    }
}

/// Splitting with normalisation: the text is cut after every `'\n'`, and a
/// final piece without a terminator receives one.  An empty text yields no
/// pieces.
pub open spec fn split_norm(s: Seq<char>) -> Seq<Seq<char>>
    decreases s.len(),
{
    if s.len() == 0 {
        Seq::empty()
    } else {
        let i = first_nl(s);
        if 0 <= i < s.len() {
            seq![s.subrange(0, i + 1)] + split_norm(s.subrange(i + 1, s.len() as int))
        } else {
            seq![s + seq!['\n']]
        }
    }
}

/// Splitting without normalisation: the text is cut after every interior
/// `'\n'`; the final piece keeps whatever ending it has.  There is always at
/// least one piece, so an empty text yields one empty piece.
pub open spec fn split_keep(s: Seq<char>) -> Seq<Seq<char>>
    decreases s.len(),
{
    let i = first_nl(s);
    if 0 <= i && i + 1 < s.len() {
        seq![s.subrange(0, i + 1)] + split_keep(s.subrange(i + 1, s.len() as int))
    } else {
        seq![s]
    }
}

/// True when a replacement text needs a following line or a fresh
/// terminator merged in: it is empty or does not end in `'\n'`.
pub open spec fn needs_newline(s: Seq<char>) -> bool {
    s.len() == 0 || s.last() != '\n'
}

/// The whitespace the trimming helpers remove.
pub open spec fn is_space(c: char) -> bool {
    c == ' ' || c == '\t' || c == '\n' || c == '\r'
}

/// The text with leading whitespace removed.
pub open spec fn trim_front(s: Seq<char>) -> Seq<char>
    decreases s.len(),
{
    if s.len() > 0 && is_space(s[0]) {
        trim_front(s.drop_first())
    } else {
        s
    }
}

/// The text with trailing whitespace removed.
pub open spec fn trim_back(s: Seq<char>) -> Seq<char>
    decreases s.len(),
{
    if s.len() > 0 && is_space(s.last()) {
        trim_back(s.drop_last())
    } else {
        s
    }
}

/// The text with whitespace removed at both ends.
pub open spec fn trim_of(s: Seq<char>) -> Seq<char> {
    trim_back(trim_front(s))
}

pub proof fn lemma_trim_front_is(s: Seq<char>, a: int)
    requires
        0 <= a <= s.len(),
        forall|j: int| 0 <= j < a ==> is_space(#[trigger] s[j]),
        a < s.len() ==> !is_space(s[a]),
    ensures
        trim_front(s) == s.subrange(a, s.len() as int),
    decreases s.len(),
{
    if a == 0 {
        assert(s.subrange(0, s.len() as int) =~= s);
    } else {
        assert(forall|j: int|
            0 <= j < a - 1 ==> is_space(#[trigger] s.drop_first()[j]) || s.drop_first()[j] == s[j
                + 1]);
        assert forall|j: int| 0 <= j < a - 1 implies is_space(#[trigger] s.drop_first()[j]) by {
            assert(s.drop_first()[j] == s[j + 1]);
        }
        lemma_trim_front_is(s.drop_first(), a - 1);
        assert(s.drop_first().subrange(a - 1, s.drop_first().len() as int) =~= s.subrange(
            a,
            s.len() as int,
        ));
    }
}

pub proof fn lemma_trim_back_is(s: Seq<char>, b: int)
    requires
        0 <= b <= s.len(),
        forall|j: int| b <= j < s.len() ==> is_space(#[trigger] s[j]),
        b > 0 ==> !is_space(s[b - 1]),
    ensures
        trim_back(s) == s.subrange(0, b),
    decreases s.len(),
{
    if b == s.len() {
        assert(s.subrange(0, b) =~= s);
    } else {
        assert forall|j: int| b <= j < s.drop_last().len() implies is_space(
            #[trigger] s.drop_last()[j],
        ) by {
            assert(s.drop_last()[j] == s[j]);
        }
        lemma_trim_back_is(s.drop_last(), b);
        assert(s.drop_last().subrange(0, b) =~= s.subrange(0, b));
    }
}

/// The span `[a, b)` of `s` that remains after trimming whitespace at
/// both ends.
pub(crate) fn trim_span(s: &str) -> (r: (usize, usize))
    ensures
        r.0 <= r.1 <= s@.len(),
        trim_of(s@) == s@.subrange(r.0 as int, r.1 as int),
{
    let n = s.unicode_len();
    let mut a: usize = 0;
    let mut stop = false;
    while a < n && !stop
        invariant
            0 <= a <= n == s@.len(),
            forall|j: int| 0 <= j < a ==> is_space(#[trigger] s@[j]),
            stop ==> a < n && !is_space(s@[a as int]),
        decreases n - a + (if stop {
            0int
        } else {
            1int
        }),
    {
        let c = s.get_char(a);
        if c == ' ' || c == '\t' || c == '\n' || c == '\r' {
            a += 1;
        } else {
            stop = true;
        }
    }
    let mut b: usize = n;
    let mut stop2 = false;
    while b > a && !stop2
        invariant
            a <= b <= n == s@.len(),
            forall|j: int| b <= j < n ==> is_space(#[trigger] s@[j]),
            stop2 ==> b > a && !is_space(s@[b - 1]),
        decreases b + (if stop2 {
            0int
        } else {
            1int
        }),
    {
        let c = s.get_char(b - 1);
        if c == ' ' || c == '\t' || c == '\n' || c == '\r' {
            b -= 1;
        } else {
            stop2 = true;
        }
    }
    proof {
        lemma_trim_front_is(s@, a as int);
        let t1 = s@.subrange(a as int, s@.len() as int);
        assert forall|j: int| b - a <= j < t1.len() implies is_space(#[trigger] t1[j]) by {
            assert(t1[j] == s@[j + a]);
        }
        if b > a {
            assert(t1[b - a - 1] == s@[b - 1]);
        }
        lemma_trim_back_is(t1, b - a);
        assert(t1.subrange(0, b - a) =~= s@.subrange(a as int, b as int));
    }
    (a, b)
}

/// Index of the first occurrence of `c` in `s`, or `s.len()` when there is
/// none.
pub open spec fn first_idx_of(s: Seq<char>, c: char) -> int
    decreases s.len(),
{
    if s.len() == 0 {
        0
    } else if s[0] == c {
        0
    } else {
        1 + first_idx_of(s.drop_first(), c)
    }
}

/// `first_idx_of` is pinned down by its characterisation.
pub proof fn lemma_first_idx_is(s: Seq<char>, c: char, m: int)
    requires
        0 <= m <= s.len(),
        forall|j: int| 0 <= j < m ==> s[j] != c,
        m < s.len() ==> s[m] == c,
    ensures
        first_idx_of(s, c) == m,
    decreases s.len(),
{
    if s.len() == 0 {
    } else if s[0] == c {
    } else {
        assert(m > 0);
        lemma_first_idx_is(s.drop_first(), c, m - 1);
    }
}

/// First index at or after `from` where `c` occurs, or the length.
pub(crate) fn find_char(s: &str, from: usize, c: char) -> (k: usize)
    requires
        from <= s@.len(),
    ensures
        from <= k <= s@.len(),
        k < s@.len() ==> s@[k as int] == c,
        forall|m: int| from <= m < k ==> s@[m] != c,
{
    let n = s.unicode_len();
    let mut k = from;
    while k < n
        invariant
            from <= k <= n == s@.len(),
            forall|m: int| from <= m < k ==> s@[m] != c,
        decreases n - k,
    {
        if s.get_char(k) == c {
            return k;
        }
        k += 1;
    }
    n
}

/// Relies on `String::push`: appends the given character to the string.
#[verifier::external_body]
pub(crate) fn push_char(s: &mut String, c: char)
    ensures
        final(s)@ == old(s)@.push(c),
{
    s.push(c);
}

/// First index at or after `from` holding `'\n'`, or the length.
pub(crate) fn find_nl(s: &str, from: usize) -> (k: usize)
    requires
        from <= s@.len(),
    ensures
        from <= k <= s@.len(),
        k < s@.len() ==> s@[k as int] == '\n',
        forall|m: int| from <= m < k ==> s@[m] != '\n',
{
    let n = s.unicode_len();
    let mut k = from;
    while k < n
        invariant
            from <= k <= n == s@.len(),
            forall|m: int| from <= m < k ==> s@[m] != '\n',
        decreases n - k,
    {
        if s.get_char(k) == '\n' {
            return k;
        }
        k += 1;
    }
    n
}

/// True when the text ends in a line terminator.
pub(crate) fn ends_with_nl(s: &str) -> (r: bool)
    ensures
        r == !needs_newline(s@),
{
    let n = s.unicode_len();
    if n == 0 {
        false
    } else {
        s.get_char(n - 1) == '\n'
    }
}

/// Cut a replacement text back into discrete lines, after every `'\n'`.
/// With `normalize` a final unterminated piece gains a terminator (and an
/// empty text gives no lines); without it the final piece is kept verbatim
/// (and an empty text gives one empty line).
pub(crate) fn split_lines(s: &str, normalize: bool) -> (r: Vec<String>)
    ensures
        normalize ==> crate::buffer::views_of(r@) == split_norm(s@),
        !normalize ==> crate::buffer::views_of(r@) == split_keep(s@),
{
    let n = s.unicode_len();
    let mut out: Vec<String> = Vec::new();
    if n == 0 {
        if !normalize {
            out.push(String::new());
            proof {
                assert(s@ =~= Seq::<char>::empty());
                assert(crate::buffer::views_of(out@) =~= split_keep(s@));
            }
        } else {
            proof {
                assert(crate::buffer::views_of(out@) =~= split_norm(s@));
            }
        }
        return out;
    }
    proof {
        assert(s@.subrange(0, n as int) =~= s@);
        assert(crate::buffer::views_of(out@) =~= Seq::<Seq<char>>::empty());
    }
    let mut j: usize = 0;
    while j < n
        invariant
            0 <= j <= n == s@.len(),
            n > 0,
            normalize ==> split_norm(s@) =~= crate::buffer::views_of(out@) + split_norm(
                s@.subrange(j as int, n as int),
            ),
            (!normalize && j < n) ==> split_keep(s@) =~= crate::buffer::views_of(out@)
                + split_keep(s@.subrange(j as int, n as int)),
            (!normalize && j == n) ==> crate::buffer::views_of(out@) =~= split_keep(s@),
        decreases n - j,
    {
        let ghost rest = s@.subrange(j as int, n as int);
        let k = find_nl(s, j);
        proof {
            lemma_first_nl_is(rest, k - j);
        }
        if normalize {
            if k == n {
                let mut piece = String::from_str(s.substring_char(j, n));
                piece.append("\n");
                proof {
                    reveal_strlit("\n");
                    assert(piece@ =~= rest + seq!['\n']);
                    assert(split_norm(rest) =~= seq![piece@]);
                    assert(crate::buffer::views_of(out@.push(piece)) =~= crate::buffer::views_of(
                        out@,
                    ) + seq![piece@]);
                    assert(s@.subrange(n as int, n as int) =~= Seq::<char>::empty());
                }
                out.push(piece);
                j = n;
            } else {
                let piece = String::from_str(s.substring_char(j, k + 1));
                proof {
                    assert(piece@ =~= rest.subrange(0, k - j + 1));
                    assert(rest.subrange(k - j + 1, rest.len() as int) =~= s@.subrange(
                        k + 1,
                        n as int,
                    ));
                    assert(split_norm(rest) =~= seq![piece@] + split_norm(
                        s@.subrange(k + 1, n as int),
                    ));
                    assert(crate::buffer::views_of(out@.push(piece)) =~= crate::buffer::views_of(
                        out@,
                    ) + seq![piece@]);
                }
                out.push(piece);
                j = k + 1;
            }
        } else {
            if k == n || k + 1 == n {
                let piece = String::from_str(s.substring_char(j, n));
                proof {
                    assert(piece@ =~= rest);
                    assert(split_keep(rest) =~= seq![piece@]);
                    assert(crate::buffer::views_of(out@.push(piece)) =~= crate::buffer::views_of(
                        out@,
                    ) + seq![piece@]);
                }
                out.push(piece);
                j = n;
            } else {
                let piece = String::from_str(s.substring_char(j, k + 1));
                proof {
                    assert(piece@ =~= rest.subrange(0, k - j + 1));
                    assert(rest.subrange(k - j + 1, rest.len() as int) =~= s@.subrange(
                        k + 1,
                        n as int,
                    ));
                    assert(split_keep(rest) =~= seq![piece@] + split_keep(
                        s@.subrange(k + 1, n as int),
                    ));
                    assert(crate::buffer::views_of(out@.push(piece)) =~= crate::buffer::views_of(
                        out@,
                    ) + seq![piece@]);
                }
                out.push(piece);
                j = k + 1;
            }
        }
    }
    proof {
        if normalize {
            assert(s@.subrange(n as int, n as int) =~= Seq::<char>::empty());
            assert(split_norm(Seq::<char>::empty()) =~= Seq::<Seq<char>>::empty());
            assert(crate::buffer::views_of(out@) =~= split_norm(s@));
        }
    }
    out
}

} // verus!
