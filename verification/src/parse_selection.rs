//! Address and selection parsing: the textual shapes `.`, `$`, `+N`, `-N`,
//! bare numbers and the pair separators `,` / `;` become an intermediate
//! representation first, and are resolved against the session context
//! (buffer length, previous selection) in a separate step.

use crate::error::EdError;
use vstd::prelude::*;

verus! {

/// One address as typed: default, end-of-buffer, relative offset, or a
/// 1-indexed literal line number.
#[derive(Clone, Copy, Debug, PartialEq, Eq, Structural)]
pub enum Ind {
    Default,
    BufferLen,
    Relative(i32),
    Literal(usize),
}

/// How a selection expression combines addresses: a pair measured from the
/// buffer's absolute ends (`,`), a pair measured from the previous
/// selection (`;`), or a lone address.
#[derive(Clone, Copy, Debug, PartialEq, Eq, Structural)]
pub enum Sel {
    FromStart(Ind, Ind),
    FromSelection(Ind, Ind),
    Lone(Ind),
}

pub open spec fn is_digit(c: char) -> bool {
    '0' as u32 <= c as u32 && c as u32 <= '9' as u32
}

pub open spec fn all_digits(s: Seq<char>) -> bool {
    forall|i: int| 0 <= i < s.len() ==> is_digit(#[trigger] s[i])
}

/// The numeric value of a digit string, most significant digit first.
pub open spec fn digits_val(s: Seq<char>) -> nat
    decreases s.len(),
{
    if s.len() == 0 {
        0
    } else {
        digits_val(s.drop_last()) * 10 + (if is_digit(s.last()) {
            (s.last() as u32 - '0' as u32) as nat
        } else {
            0
        })
    }
}

proof fn lemma_digits_val_grows(s: Seq<char>, k: int)
    requires
        0 <= k <= s.len(),
    ensures
        digits_val(s) >= digits_val(s.take(k)),
    decreases s.len() - k,
{
    if k < s.len() {
        assert(s.take(k + 1).drop_last() =~= s.take(k));
        assert(digits_val(s.take(k + 1)) >= digits_val(s.take(k)));
        lemma_digits_val_grows(s, k + 1);
        assert(s.take(s.len() as int) =~= s);
    } else {
        assert(s.take(k) =~= s);
    }
}

/// A separator between the two addresses of a selection expression.
pub open spec fn is_sep(c: char) -> bool {
    c == ',' || c == ';'
}

/// A character that ends the selection expression and names the command.
pub open spec fn is_cmd_char(c: char) -> bool {
    ('a' as u32 <= c as u32 && c as u32 <= 'z' as u32) || ('A' as u32 <= c as u32 && c as u32
        <= 'Z' as u32) || c == '\n' || c == '?'
}

/// What `parse_index` computes: the decision table for one address.
pub open spec fn spec_parse_index(s: Seq<char>) -> Result<Ind, EdError> {
    if s.len() == 0 {
        Ok(Ind::Default)
    } else if s.len() == 1 && s[0] == '.' {
        Ok(Ind::Relative(0))
    } else if s.len() == 1 && s[0] == '$' {
        Ok(Ind::BufferLen)
    } else if s.len() == 1 && s[0] == '+' {
        Ok(Ind::Relative(1))
    } else if s.len() == 1 && s[0] == '-' {
        Ok(Ind::Relative(-1i32))
    } else if s[0] == '+' || s[0] == '-' {
        let t = s.subrange(1, s.len() as int);
        if !all_digits(t) {
            Err(EdError::IndexParse)
        } else if s[0] == '-' && digits_val(t) <= 0x8000_0000 {
            Ok(Ind::Relative((-(digits_val(t) as int)) as i32))
        } else if s[0] == '+' && digits_val(t) <= 0x7FFF_FFFF {
            Ok(Ind::Relative(digits_val(t) as i32))
        } else {
            Err(EdError::IndexParse)
        }
    } else {
        if all_digits(s) && digits_val(s) <= usize::MAX as nat {
            Ok(Ind::Literal(digits_val(s) as usize))
        } else {
            Err(EdError::IndexParse)
        }
    }
}

/// A start-of-range literal denotes the line itself: 1-indexed user input
/// becomes a 0-indexed start (literal `0` stays `0`).
pub open spec fn shift_start(ind: Ind) -> Ind {
    match ind {
        Ind::Literal(x) => Ind::Literal(
            if x == 0 {
                0
            } else {
                (x - 1) as usize
            },
        ),
        other => other,
    }
}

/// The selection scanner: walk the text until the command character,
/// remembering the one permitted separator; a second separator is a parse
/// error, text without a command character is `NoCommand`.
pub open spec fn scan_selection(s: Seq<char>, i: int, sep: Option<int>) -> Result<
    (int, Sel),
    EdError,
>
    decreases s.len() - i,
{
    if i < 0 || i >= s.len() {
        Err(EdError::NoCommand)
    } else if is_sep(s[i]) {
        if sep is Some {
            Err(EdError::IndexParse)
        } else {
            scan_selection(s, i + 1, Some(i))
        }
    } else if is_cmd_char(s[i]) {
        match sep {
            Some(si) => match spec_parse_index(s.subrange(0, si)) {
                Err(e) => Err(e),
                Ok(a) => match spec_parse_index(s.subrange(si + 1, i)) {
                    Err(e) => Err(e),
                    Ok(b) => Ok(
                        (
                            i,
                            if s[si] == ',' {
                                Sel::FromStart(shift_start(a), b)
                            } else {
                                Sel::FromSelection(shift_start(a), b)
                            },
                        ),
                    ),
                },
            },
            None => match spec_parse_index(s.subrange(0, i)) {
                Err(e) => Err(e),
                Ok(a) => Ok((i, Sel::Lone(a))),
            },
        }
    } else {
        scan_selection(s, i + 1, sep)
    }
}

/// What `parse_selection` computes over the whole input.
pub open spec fn spec_parse_selection(s: Seq<char>) -> Result<(int, Sel), EdError> {
    scan_selection(s, 0, None)
}

/// Addition of a signed offset to an unsigned position, saturating at both
/// ends of `usize`.
pub open spec fn sat_add(a: int, b: int) -> int {
    if a + b < 0 {
        0
    } else if a + b > usize::MAX as int {
        usize::MAX as int
    } else {
        a + b
    }
}

/// Parse the digits of `s` from position `from` on as an unsigned number.
/// `None` when a non-digit appears or the value does not fit.
fn parse_usize_digits(s: &str, from: usize) -> (r: Option<usize>)
    requires
        from <= s@.len(),
    ensures
        ({
            let t = s@.subrange(from as int, s@.len() as int);
            match r {
                Some(v) => all_digits(t) && v as nat == digits_val(t),
                None => !(all_digits(t) && digits_val(t) <= usize::MAX as nat),
            }
        }),
{
    let ghost t = s@.subrange(from as int, s@.len() as int);
    let n = s.unicode_len();
    let mut v: usize = 0;
    let mut i = from;
    while i < n
        invariant
            from <= i <= n == s@.len(),
            t == s@.subrange(from as int, s@.len() as int),
            all_digits(t.take(i - from)),
            v as nat == digits_val(t.take(i - from)),
        decreases n - i,
    {
        let c = s.get_char(i);
        let cu = c as u32;
        proof {
            assert(t[i - from] == s@[i as int]);
            assert(t.take(i - from + 1).drop_last() =~= t.take(i - from));
        }
        if cu < 48 || cu > 57 {
            proof {
                assert(!is_digit(t[i - from]));
            }
            return None;
        }
        let d = (cu - 48) as usize;
        if v > usize::MAX / 10 || (v == usize::MAX / 10 && d > usize::MAX % 10) {
            proof {
                assert(digits_val(t.take(i - from + 1)) > usize::MAX as nat) by {
                    assert(digits_val(t.take(i - from + 1)) == (v as nat) * 10 + d as nat);
                };
                lemma_digits_val_grows(t, i - from + 1);
            }
            return None;
        }
        v = v * 10 + d;
        i += 1;
    }
    proof {
        assert(t.take(n - from) =~= t);
    }
    Some(v)
}

/// Parse one address.  The empty string is the default address; `.`, `$`,
/// `+` and `-` are symbolic; a sign followed by digits is a relative
/// offset; bare digits are a 1-indexed literal.  Anything else, and any
/// value that does not fit, is an `IndexParse` error.
pub fn parse_index(index: &str) -> (r: Result<Ind, EdError>)
    ensures
        r == spec_parse_index(index@),
{
    let n = index.unicode_len();
    if n == 0 {
        return Ok(Ind::Default);
    }
    let c0 = index.get_char(0);
    if n == 1 {
        if c0 == '.' {
            return Ok(Ind::Relative(0));
        }
        if c0 == '$' {
            return Ok(Ind::BufferLen);
        }
        if c0 == '+' {
            return Ok(Ind::Relative(1));
        }
        if c0 == '-' {
            return Ok(Ind::Relative(-1));
        }
    }
    if c0 == '+' || c0 == '-' {
        match parse_usize_digits(index, 1) {
            None => Err(EdError::IndexParse),
            Some(v) => {
                if c0 == '-' {
                    if v <= 0x8000_0000usize {
                        if v == 0x8000_0000usize {
                            Ok(Ind::Relative(i32::MIN))
                        } else {
                            Ok(Ind::Relative(-(v as i32)))
                        }
                    } else {
                        Err(EdError::IndexParse)
                    }
                } else {
                    if v <= 0x7FFF_FFFFusize {
                        Ok(Ind::Relative(v as i32))
                    } else {
                        Err(EdError::IndexParse)
                    }
                }
            },
        }
    } else {
        proof {
            assert(index@.subrange(0, index@.len() as int) =~= index@);
        }
        match parse_usize_digits(index, 0) {
            None => Err(EdError::IndexParse),
            Some(v) => Ok(Ind::Literal(v)),
        }
    }
}

/// Split the raw command text into a parsed selection expression and the
/// position of the command character.  Start-of-range literals are shifted
/// from 1-indexed to 0-indexed on the way.
pub fn parse_selection(input: &str) -> (r: Result<(usize, Sel), EdError>)
    ensures
        r matches Ok((i, sel)) ==> spec_parse_selection(input@) == Ok::<(int, Sel), EdError>(
            (i as int, sel),
        ) && i < input@.len(),
        r matches Err(e) ==> spec_parse_selection(input@) == Err::<(int, Sel), EdError>(e),
{
    let n = input.unicode_len();
    let mut i: usize = 0;
    let mut sep: Option<usize> = None;
    while i < n
        invariant
            0 <= i <= n == input@.len(),
            match sep {
                Some(si) => si < i && scan_selection(input@, 0, None) == scan_selection(
                    input@,
                    i as int,
                    Some(si as int),
                ) && is_sep(input@[si as int]),
                None => scan_selection(input@, 0, None) == scan_selection(
                    input@,
                    i as int,
                    None::<int>,
                ),
            },
        decreases n - i,
    {
        let c = input.get_char(i);
        let cu = c as u32;
        if c == ',' || c == ';' {
            if sep.is_some() {
                return Err(EdError::IndexParse);
            }
            sep = Some(i);
        } else if (97 <= cu && cu <= 122) || (65 <= cu && cu <= 90) || c == '\n' || c == '?' {
            match sep {
                Some(si) => {
                    let left = match parse_index(input.substring_char(0, si)) {
                        Ok(a) => a,
                        Err(e) => {
                            return Err(e);
                        },
                    };
                    let right = match parse_index(input.substring_char(si + 1, i)) {
                        Ok(b) => b,
                        Err(e) => {
                            return Err(e);
                        },
                    };
                    let start = match left {
                        Ind::Literal(x) => Ind::Literal(
                            if x == 0 {
                                0
                            } else {
                                x - 1
                            },
                        ),
                        other => other,
                    };
                    let sel = if input.get_char(si) == ',' {
                        Sel::FromStart(start, right)
                    } else {
                        Sel::FromSelection(start, right)
                    };
                    return Ok((i, sel));
                },
                None => {
                    let lone = match parse_index(input.substring_char(0, i)) {
                        Ok(a) => a,
                        Err(e) => {
                            return Err(e);
                        },
                    };
                    return Ok((i, Sel::Lone(lone)));
                },
            }
        }
        i += 1;
    }
    Err(EdError::NoCommand)
}

/// Saturating addition of a signed offset to an unsigned position: offsets
/// may never underflow below the first line or overflow `usize`.
pub fn u_i_add(a: usize, b: i32) -> (r: usize)
    ensures
        r as int == sat_add(a as int, b as int),
{
    if b >= 0 {
        let bu = b as usize;
        if a > usize::MAX - bu {
            usize::MAX
        } else {
            a + bu
        }
    } else if b == i32::MIN {
        let mag: usize = 0x8000_0000usize;
        if a < mag {
            0
        } else {
            a - mag
        }
    } else {
        let mag = (-b) as usize;
        if a < mag {
            0
        } else {
            a - mag
        }
    }
}

/// What `interpret_index` resolves an address to, given the reference
/// point (previous selection edge or the given default) and buffer length.
pub open spec fn spec_interpret_index(
    index: Ind,
    old_selection: Option<usize>,
    bufferlen: usize,
    default: usize,
) -> int {
    let sel = match old_selection {
        Some(x) => x,
        None => default,
    };
    match index {
        Ind::Default => default as int,
        Ind::BufferLen => bufferlen as int,
        Ind::Relative(x) => sat_add(sel as int, x as int),
        Ind::Literal(x) => x as int,
    }
}

/// Resolve one address to a concrete index; bounds are checked later by
/// the buffer, not here.
pub fn interpret_index(
    index: Ind,
    old_selection: Option<usize>,
    bufferlen: usize,
    default: usize,
) -> (r: usize)
    ensures
        r as int == spec_interpret_index(index, old_selection, bufferlen, default),
{
    let sel = match old_selection {
        Some(x) => x,
        None => default,
    };
    match index {
        Ind::Default => default,
        Ind::BufferLen => bufferlen,
        Ind::Relative(x) => u_i_add(sel, x),
        Ind::Literal(x) => x,
    }
}

/// What `interpret_selection` resolves a selection expression to: the
/// decision table over the three shapes and four address kinds.
pub open spec fn spec_interpret_selection(
    selection: Sel,
    old_selection: Option<(usize, usize)>,
    bufferlen: usize,
    default_all: bool,
) -> (int, int) {
    let old_sel = match old_selection {
        Some(s) => s,
        None => (0usize, bufferlen),
    };
    match selection {
        Sel::Lone(i) => match i {
            Ind::Default => if default_all {
                (0int, bufferlen as int)
            } else {
                (old_sel.0 as int, old_sel.1 as int)
            },
            Ind::BufferLen => (
                if bufferlen > 0 {
                    bufferlen - 1
                } else {
                    0int
                },
                bufferlen as int,
            ),
            Ind::Relative(x) => (sat_add(old_sel.0 as int, x as int), sat_add(old_sel.1 as int, x as int)),
            Ind::Literal(x) => (
                if x == 0 {
                    0int
                } else {
                    x - 1
                },
                x as int,
            ),
        },
        Sel::FromSelection(i, j) => (
            match i {
                Ind::Default => old_sel.0 as int,
                Ind::BufferLen => bufferlen as int,
                Ind::Relative(x) => sat_add(old_sel.0 as int, x as int),
                Ind::Literal(x) => x as int,
            },
            match j {
                Ind::Default => bufferlen as int,
                Ind::BufferLen => bufferlen as int,
                Ind::Relative(x) => sat_add(old_sel.1 as int, x as int),
                Ind::Literal(x) => x as int,
            },
        ),
        Sel::FromStart(i, j) => (
            match i {
                Ind::Default => 0int,
                Ind::BufferLen => bufferlen as int,
                Ind::Relative(x) => sat_add(old_sel.0 as int, x as int),
                Ind::Literal(x) => x as int,
            },
            match j {
                Ind::Default => bufferlen as int,
                Ind::BufferLen => bufferlen as int,
                Ind::Relative(x) => sat_add(old_sel.1 as int, x as int),
                Ind::Literal(x) => x as int,
            },
        ),
    }
}

/// Resolve a selection expression to concrete `(start, end)` indices.
/// Pure arithmetic with saturation; validity against the buffer is the
/// caller's next step, via `verify_selection`.
pub fn interpret_selection(
    selection: Sel,
    old_selection: Option<(usize, usize)>,
    bufferlen: usize,
    default_all: bool,
) -> (r: (usize, usize))
    ensures
        (r.0 as int, r.1 as int) == spec_interpret_selection(
            selection,
            old_selection,
            bufferlen,
            default_all,
        ),
{
    let old_sel = match old_selection {
        Some(s) => s,
        None => (0usize, bufferlen),
    };
    match selection {
        Sel::Lone(i) => match i {
            Ind::Default => {
                if default_all {
                    (0, bufferlen)
                } else {
                    old_sel
                }
            },
            Ind::BufferLen => {
                if bufferlen > 0 {
                    (bufferlen - 1, bufferlen)
                } else {
                    (0, bufferlen)
                }
            },
            Ind::Relative(x) => (u_i_add(old_sel.0, x), u_i_add(old_sel.1, x)),
            Ind::Literal(x) => {
                if x == 0 {
                    (0, x)
                } else {
                    (x - 1, x)
                }
            },
        },
        Sel::FromSelection(i, j) => {
            let start = match i {
                Ind::Default => old_sel.0,
                Ind::BufferLen => bufferlen,
                Ind::Relative(x) => u_i_add(old_sel.0, x),
                Ind::Literal(x) => x,
            };
            let end = match j {
                Ind::Default => bufferlen,
                Ind::BufferLen => bufferlen,
                Ind::Relative(x) => u_i_add(old_sel.1, x),
                Ind::Literal(x) => x,
            };
            (start, end)
        },
        Sel::FromStart(i, j) => {
            let start = match i {
                Ind::Default => 0,
                Ind::BufferLen => bufferlen,
                Ind::Relative(x) => u_i_add(old_sel.0, x),
                Ind::Literal(x) => x,
            };
            let end = match j {
                Ind::Default => bufferlen,
                Ind::BufferLen => bufferlen,
                Ind::Relative(x) => u_i_add(old_sel.1, x),
                Ind::Literal(x) => x,
            };
            (start, end)
        },
    }
}

} // verus!
