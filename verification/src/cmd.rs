//! The command dispatcher: one call per line of user input.  It parses the
//! selection expression and the command character, resolves the selection
//! against the session, validates everything, invokes the buffer, and
//! updates the active selection.
//!
//! The dispatcher itself performs no I/O.  Input lines for the insertion
//! commands are handed in already collected; file work and printing are
//! returned to the caller as an [`Action`] inside the [`Outcome`].

use crate::buffer::{Buffer, VecBuffer};
use crate::error::EdError;
use crate::parse_flags::parse_flags;
use crate::parse_path::parse_path;
use crate::parse_selection::{
    interpret_index, interpret_selection, parse_index, parse_selection, spec_interpret_index,
    spec_interpret_selection, spec_parse_selection, Ind, Sel,
};
use vstd::prelude::*;

verus! {

/// The session state the core owns: the buffer, the active selection, the
/// active file name, and the loop flags.  Terminal and configuration state
/// belong to the surrounding program, not here.
pub struct State {
    pub buffer: VecBuffer,
    pub selection: Option<(usize, usize)>,
    pub file: String,
    pub done: bool,
    pub print_errors: bool,
    pub error: Option<EdError>,
}

impl State {
    /// A fresh session: empty buffer, no selection, no file, not done.
    pub fn new() -> (r: State)
        ensures
            r.buffer@ == Seq::<Seq<char>>::empty(),
            r.buffer.spec_saved(),
            r.selection is None,
            r.file@ == Seq::<char>::empty(),
            !r.done,
            !r.print_errors,
            r.error is None,
    {
        State {
            buffer: VecBuffer::new(),
            selection: None,
            file: String::new(),
            done: false,
            print_errors: false,
            error: None,
        }
    }
}

/// What the caller must still do after a command: nothing, show a text,
/// or touch a file and then hand the result back to `apply_read` /
/// `apply_write`.
#[derive(Debug)]
pub enum Action {
    Nothing,
    ShowHelp,
    ShowError,
    ShowFilename,
    ReadFile { path: String, index: usize, replace: bool, must_exist: bool },
    WriteFile { path: String, selection: (usize, usize), append: bool },
}

/// What a successfully dispatched command asks of the caller: an action,
/// the print flags, and whether the view is stale.
#[derive(Debug)]
pub struct Outcome {
    pub action: Action,
    pub p: bool,
    pub n: bool,
    pub l: bool,
    pub view_changed: bool,
}

/// First position in `input` holding any of the characters of `options`.
pub fn find_any_of(options: &str, input: &str) -> (r: Option<usize>)
    ensures
        r matches Some(i) ==> i < input@.len() && options@.contains(input@[i as int]) && forall|
            j: int,
        | 0 <= j < i ==> !options@.contains(#[trigger] input@[j]),
        r is None ==> forall|j: int|
            0 <= j < input@.len() ==> !options@.contains(#[trigger] input@[j]),
{
    let n = input.unicode_len();
    let mut i: usize = 0;
    while i < n
        invariant
            0 <= i <= n == input@.len(),
            forall|j: int| 0 <= j < i ==> !options@.contains(#[trigger] input@[j]),
        decreases n - i,
    {
        let c = input.get_char(i);
        if char_in(options, c) {
            return Some(i);
        }
        i += 1;
    }
    None
}

/// Whether `c` occurs in `options`.
fn char_in(options: &str, c: char) -> (r: bool)
    ensures
        r == options@.contains(c),
{
    let n = options.unicode_len();
    let mut k: usize = 0;
    while k < n
        invariant
            0 <= k <= n == options@.len(),
            forall|j: int| 0 <= j < k ==> options@[j] != c,
        decreases n - k,
    {
        if options.get_char(k) == c {
            proof {
                assert(options@[k as int] == c);
            }
            return true;
        }
        k += 1;
    }
    proof {
        assert(!options@.contains(c)) by {
            if options@.contains(c) {
                let j = choose|j: int| #![trigger options@[j]] 0 <= j < options@.len()
                    && options@[j] == c;
            }
        }
    }
    false
}

/// The active selection after a deletion that started at `start`, given
/// the buffer length after the deletion: the nearest single line before
/// the gap, else the line at the gap, else nothing.
pub open spec fn spec_delete_fallback(start: usize, post_len: nat) -> Option<(usize, usize)> {
    if start != 0 {
        Some((((start - 1) as usize), start))
    } else if start as nat != post_len {
        Some((start, ((start + 1) as usize)))
    } else {
        None::<(usize, usize)>
    }
}

fn delete_fallback(start: usize, post_len: usize) -> (r: Option<(usize, usize)>)
    ensures
        r == spec_delete_fallback(start, post_len as nat),
{
    if start != 0 {
        Some((start - 1, start))
    } else if start != post_len {
        Some((start, start + 1))
    } else {
        None
    }
}

/// Index of the first ASCII letter, or the length when there is none.
pub open spec fn first_alpha(s: Seq<char>) -> int
    decreases s.len(),
{
    if s.len() == 0 {
        0
    } else if is_alpha(s[0]) {
        0
    } else {
        1 + first_alpha(s.drop_first())
    }
}

proof fn lemma_first_alpha_is(s: Seq<char>, m: int)
    requires
        0 <= m <= s.len(),
        forall|j: int| 0 <= j < m ==> !is_alpha(#[trigger] s[j]),
        m < s.len() ==> is_alpha(s[m]),
    ensures
        first_alpha(s) == m,
    decreases s.len(),
{
    if s.len() == 0 {
    } else if is_alpha(s[0]) {
    } else {
        assert(m > 0);
        assert forall|j: int| 0 <= j < m - 1 implies !is_alpha(#[trigger] s.drop_first()[j]) by {
            assert(s.drop_first()[j] == s[j + 1]);
        }
        lemma_first_alpha_is(s.drop_first(), m - 1);
    }
}

/// First position of an ASCII letter in `clean`, or its length: where the
/// destination index of a move or copy ends and its flags begin.
fn find_alpha(clean: &str) -> (r: usize)
    ensures
        r <= clean@.len(),
        r == first_alpha(clean@),
        r < clean@.len() ==> is_alpha(clean@[r as int]),
        forall|j: int| 0 <= j < r ==> !is_alpha(#[trigger] clean@[j]),
{
    let r = find_alpha_inner(clean);
    proof {
        lemma_first_alpha_is(clean@, r as int);
    }
    r
}

fn find_alpha_inner(clean: &str) -> (r: usize)
    ensures
        r <= clean@.len(),
        r < clean@.len() ==> is_alpha(clean@[r as int]),
        forall|j: int| 0 <= j < r ==> !is_alpha(#[trigger] clean@[j]),
{
    let n = clean.unicode_len();
    let mut i: usize = 0;
    while i < n
        invariant
            0 <= i <= n == clean@.len(),
            forall|j: int| 0 <= j < i ==> !is_alpha(#[trigger] clean@[j]),
        decreases n - i,
    {
        let c = clean.get_char(i);
        let cu = c as u32;
        if (97 <= cu && cu <= 122) || (65 <= cu && cu <= 90) {
            return i;
        }
        i += 1;
    }
    n
}

/// An ASCII letter.
pub open spec fn is_alpha(c: char) -> bool {
    ('a' as u32 <= c as u32 && c as u32 <= 'z' as u32) || ('A' as u32 <= c as u32 && c as u32
        <= 'Z' as u32)
}

/// With an empty permitted set, flag scanning succeeds exactly on an
/// empty (trimmed) input.
proof fn lemma_empty_flags(cl: Seq<char>)
    requires
        crate::parse_flags::flag_scan(cl, Seq::<char>::empty(), 0, Set::<char>::empty()) is None,
    ensures
        cl.len() == 0,
{
    if cl.len() > 0 {
        assert(!Seq::<char>::empty().contains(cl[0]));
    }
}

/// Dispatch one command line against the session.
///
/// The selection expression is parsed and resolved, the command character
/// decides the buffer operation, and the active selection is updated as
/// the command prescribes.  `input` carries the lines collected for the
/// insertion commands (`a`, `i`, `c`); an empty `input` cancels an append
/// or insert.  On any error the session is left exactly as it was.  On
/// success the returned [`Outcome`] tells the caller what remains to be
/// done: print flags to honour, a file to read or write, or a text to
/// show.
#[verifier::rlimit(100)]
#[verifier::spinoff_prover]
pub fn run(state: &mut State, command: &str, input: Vec<String>) -> (r: Result<Outcome, EdError>)
    ensures
        r is Err ==> *final(state) == *old(state),
        spec_parse_selection(command@) matches Err(e) ==> r == Err::<Outcome, EdError>(e),
        spec_parse_selection(command@) matches Ok((ci, sexp)) ==> ({
            let ch = command@[ci];
            let cl = crate::text::trim_of(command@.subrange(ci + 1, command@.len() as int));
            let clp = crate::text::trim_of(command@.subrange(ci, command@.len() as int));
            let pre = old(state).buffer@;
            let len0 = pre.len() as usize;
            let ra = spec_interpret_selection(sexp, old(state).selection, len0, false);
            let rall = spec_interpret_selection(sexp, old(state).selection, len0, true);
            let sa = ((ra.0 as usize), (ra.1 as usize));
            let sall = ((rall.0 as usize), (rall.1 as usize));
            let pnl = seq!['p', 'n', 'l'];
            let noflags = Set::<char>::empty();
            &&& (ch == '\n' ==> {
                &&& (r is Ok <==> crate::buffer::selection_ok(pre.len(), sa) is Ok)
                &&& (r matches Ok(out) ==> (*final(state) == (State {
                    selection: Some(sa),
                    ..*old(state)
                }) && out.action is Nothing && !out.p && !out.n && !out.l && out.view_changed))
            })
            &&& (ch == 'q' ==> {
                &&& (r is Ok <==> sexp == Sel::Lone(Ind::Default) && cl.len() == 0 && old(state).buffer.spec_saved())
                &&& (r is Ok ==> (*final(state) == (State { done: true, ..*old(state) })))
            })
            &&& (ch == 'Q' ==> {
                &&& (r is Ok <==> sexp == Sel::Lone(Ind::Default) && cl.len() == 0)
                &&& (r is Ok ==> (*final(state) == (State { done: true, ..*old(state) })))
            })
            &&& (ch == '?' || ch == 'h' || ch == 'H' ==> {
                &&& (r is Ok <==> sexp == Sel::Lone(Ind::Default) && cl.len() == 0)
                &&& (r matches Ok(out) ==> {
                    &&& (ch == '?' ==> out.action is ShowHelp && *final(state) == *old(state))
                    &&& (ch == 'h' ==> out.action is ShowError && *final(state) == *old(state))
                    &&& (ch == 'H' ==> out.action is Nothing && *final(state) == (State {
                        print_errors: !old(state).print_errors,
                        ..*old(state)
                    }))
                    &&& !out.p && !out.n && !out.l && !out.view_changed
                })
            })
            &&& (ch == 'f' ==> {
                &&& (r is Ok <==> sexp == Sel::Lone(Ind::Default))
                &&& (r matches Ok(out) ==> {
                    let pth = crate::text::trim_front(cl);
                    &&& (pth.len() > 0 ==> out.action is Nothing && final(state).file@ == pth
                        && final(state).buffer == old(state).buffer && final(state).selection
                        == old(state).selection && final(state).done == old(state).done)
                    &&& (pth.len() == 0 ==> out.action is ShowFilename && *final(state) == *old(state))
                    &&& !out.p && !out.n && !out.l && !out.view_changed
                })
            })
            &&& (ch == 'e' || ch == 'E' || ch == 'r' ==> {
                &&& (ch == 'e' ==> (r is Ok <==> sexp == Sel::Lone(Ind::Default) && old(state).buffer.spec_saved()))
                &&& (ch == 'E' ==> (r is Ok <==> sexp == Sel::Lone(Ind::Default)))
                &&& (ch == 'r' ==> r is Ok)
                &&& (r matches Ok(out) ==> {
                    let pth = crate::text::trim_front(cl);
                    &&& *final(state) == *old(state)
                    &&& (out.action matches Action::ReadFile { path, index, replace, must_exist }
                        ==> {
                        &&& path@ == (if pth.len() > 0 {
                            pth
                        } else {
                            old(state).file@
                        })
                        &&& index == (if ch == 'r' {
                            sall.1
                        } else {
                            0usize
                        })
                        &&& replace == (ch != 'r')
                        &&& must_exist == (ch == 'r')
                    })
                    &&& out.action is ReadFile
                    &&& out.view_changed == (pth.len() > 0 || ch != 'e')
                    &&& !out.p && !out.n && !out.l
                })
            })
            &&& (ch == 'w' || ch == 'W' ==> {
                &&& (r is Ok <==> crate::buffer::selection_ok(pre.len(), sall) is Ok)
                &&& (r matches Ok(out) ==> {
                    let pth = crate::text::trim_front(cl);
                    &&& *final(state) == *old(state)
                    &&& (out.action matches Action::WriteFile { path, selection, append } ==> {
                        &&& path@ == (if pth.len() > 0 {
                            pth
                        } else {
                            old(state).file@
                        })
                        &&& selection == sall
                        &&& append == (ch == 'W')
                    })
                    &&& out.action is WriteFile
                    &&& !out.p && !out.n && !out.l && !out.view_changed
                })
            })
            &&& (ch == 'p' || ch == 'n' || ch == 'l' ==> {
                &&& (r is Ok <==> crate::buffer::selection_ok(pre.len(), sa) is Ok
                    && crate::parse_flags::flag_scan(clp, pnl, 0, noflags) is None)
                &&& (r matches Ok(out) ==> (*final(state) == (State {
                    selection: Some(sa),
                    ..*old(state)
                }) && out.action is Nothing && out.p == clp.contains('p') && out.n == clp.contains(
                    'n',
                ) && out.l == clp.contains('l') && !out.view_changed))
            })
            &&& (ch == 'a' || ch == 'i' ==> {
                let start = if ch == 'a' {
                    sa.1
                } else {
                    sa.0
                };
                &&& (r is Ok <==> crate::parse_flags::flag_scan(cl, pnl, 0, noflags) is None && (
                input@.len() == 0 || start <= pre.len()))
                &&& (r matches Ok(out) ==> {
                    &&& (input@.len() == 0 ==> final(state).buffer == old(state).buffer && final(state).selection == old(state).selection)
                    &&& (input@.len() > 0 ==> final(state).buffer@ == pre.subrange(
                        0,
                        start as int,
                    ) + crate::buffer::views_of(input@) + pre.subrange(
                        start as int,
                        pre.len() as int,
                    ) && final(state).selection == Some(
                        (start, ((start + input@.len()) as usize)),
                    ) && !final(state).buffer.spec_saved())
                    &&& final(state).done == old(state).done && final(state).file == old(state).file
                    &&& out.action is Nothing && out.p == cl.contains('p') && out.n == cl.contains(
                        'n',
                    ) && out.l == cl.contains('l') && out.view_changed
                })
            })
            &&& (ch == 'c' ==> {
                &&& (r is Ok <==> crate::parse_flags::flag_scan(cl, pnl, 0, noflags) is None
                    && crate::buffer::selection_ok(pre.len(), sa) is Ok)
                &&& (r matches Ok(out) ==> {
                    &&& final(state).buffer@ == pre.subrange(0, sa.0 as int)
                        + crate::buffer::views_of(input@) + pre.subrange(
                        sa.1 as int,
                        pre.len() as int,
                    )
                    &&& (input@.len() > 0 ==> final(state).selection == Some(
                        (sa.0, ((sa.0 + input@.len()) as usize)),
                    ))
                    &&& (input@.len() == 0 ==> final(state).selection == spec_delete_fallback(
                        sa.0,
                        final(state).buffer@.len(),
                    ))
                    &&& !final(state).buffer.spec_saved()
                    &&& out.action is Nothing && out.p == cl.contains('p') && out.n == cl.contains(
                        'n',
                    ) && out.l == cl.contains('l') && out.view_changed
                })
            })
            &&& (ch == 'd' ==> {
                &&& (r is Ok <==> cl.len() == 0 && crate::buffer::selection_ok(pre.len(), sa)
                    is Ok)
                &&& (r matches Ok(out) ==> {
                    &&& final(state).buffer@ == pre.subrange(0, sa.0 as int) + pre.subrange(
                        sa.1 as int,
                        pre.len() as int,
                    )
                    &&& final(state).selection == spec_delete_fallback(
                        sa.0,
                        final(state).buffer@.len(),
                    )
                    &&& !final(state).buffer.spec_saved()
                    &&& out.action is Nothing && !out.p && !out.n && !out.l && out.view_changed
                })
            })
            &&& (ch == 'm' || ch == 't' ==> {
                let ae = first_alpha(cl);
                let indr = crate::parse_selection::spec_parse_index(cl.subrange(0, ae));
                let fl2 = crate::text::trim_of(cl.subrange(ae, cl.len() as int));
                &&& (indr matches Err(e) ==> r == Err::<Outcome, EdError>(e))
                &&& (indr matches Ok(iv) ==> {
                    let oe = match old(state).selection {
                        Some(s) => Some(s.1),
                        None => None::<usize>,
                    };
                    let du = (spec_interpret_index(iv, oe, len0, len0) as usize);
                    let width = sa.1 - sa.0;
                    &&& (r is Ok <==> crate::parse_flags::flag_scan(fl2, pnl, 0, noflags) is None
                        && (if ch == 'm' {
                        crate::buffer::move_check(pre.len(), sa, du) is Ok
                    } else {
                        crate::buffer::copy_check(pre.len(), sa, du) is Ok
                    }))
                    &&& (r matches Ok(out) ==> {
                        &&& (ch == 'm' ==> final(state).buffer@ == crate::buffer::moved_lines(
                            pre,
                            sa,
                            du,
                        ))
                        &&& (ch == 't' ==> final(state).buffer@ == crate::buffer::copied_lines(
                            pre,
                            sa,
                            du,
                        ))
                        &&& final(state).selection == Some(
                            (
                                du,
                                (if du + width > usize::MAX as int {
                                    usize::MAX
                                } else {
                                    ((du + width) as usize)
                                }),
                            ),
                        )
                        &&& !final(state).buffer.spec_saved()
                        &&& out.action is Nothing && out.p == fl2.contains('p') && out.n
                            == fl2.contains('n') && out.l == fl2.contains('l') && out.view_changed
                    })
                })
            })
            &&& (ch == 'j' ==> {
                &&& (r is Ok <==> crate::parse_flags::flag_scan(cl, pnl, 0, noflags) is None
                    && crate::buffer::selection_ok(pre.len(), sa) is Ok)
                &&& (r matches Ok(out) ==> {
                    &&& final(state).buffer@ == pre.subrange(0, sa.0 as int) + seq![
                        crate::buffer::joined_line(pre.subrange(sa.0 as int, sa.1 as int)),
                    ] + pre.subrange(sa.1 as int, pre.len() as int)
                    &&& final(state).selection == Some((sa.0, ((sa.0 + 1) as usize)))
                    &&& !final(state).buffer.spec_saved()
                    &&& out.action is Nothing && out.p == cl.contains('p') && out.n == cl.contains(
                        'n',
                    ) && out.l == cl.contains('l') && out.view_changed
                })
            })
            &&& (ch == 's' ==> {
                let exprs = (if cl.len() == 0 {
                    Seq::<Seq<char>>::empty()
                } else {
                    crate::parse_expressions::split_on(cl.subrange(1, cl.len() as int), cl[0])
                });
                &&& (exprs.len() != 3 ==> r == Err::<Outcome, EdError>(EdError::ExpressionTooShort))
                &&& (exprs.len() == 3 ==> {
                    let fl = crate::text::trim_of(exprs[2]);
                    let g = fl.contains('g');
                    let gpnl = seq!['g', 'p', 'n', 'l'];
                    &&& (r is Ok <==> crate::parse_flags::flag_scan(fl, gpnl, 0, noflags) is None
                        && crate::buffer::regex_check(pre.len(), sa, exprs[0]) is Ok)
                    &&& (r matches Ok(out) ==> {
                        &&& (g ==> {
                            let merged = crate::buffer::global_merged(pre, exprs[0], exprs[1], sa);
                            let consumed = crate::buffer::global_consumed(
                                pre,
                                exprs[0],
                                exprs[1],
                                sa,
                            );
                            &&& final(state).buffer@ == pre.subrange(0, sa.0 as int)
                                + crate::text::split_norm(merged) + pre.subrange(
                                consumed,
                                pre.len() as int,
                            )
                            &&& final(state).selection == Some(
                                (sa.0, ((sa.0 + crate::text::split_norm(merged).len()) as usize)),
                            )
                            &&& !final(state).buffer.spec_saved()
                        })
                        &&& (!g ==> {
                            let fm = crate::buffer::first_match(pre, exprs[0], sa.0 as int, sa.1 as int);
                            &&& (fm == sa.1 as int ==> final(state).buffer == old(state).buffer
                                && final(state).selection == Some(sa))
                            &&& (fm < sa.1 as int ==> {
                                let merged = crate::buffer::line_merged(
                                    pre,
                                    exprs[0],
                                    exprs[1],
                                    fm,
                                );
                                let consumed = crate::buffer::line_consumed(
                                    pre,
                                    exprs[0],
                                    exprs[1],
                                    fm,
                                );
                                &&& final(state).buffer@ == pre.subrange(0, fm)
                                    + crate::text::split_keep(merged) + pre.subrange(
                                    consumed,
                                    pre.len() as int,
                                )
                                &&& final(state).selection == Some(
                                    (
                                        ((fm as usize)),
                                        ((fm + crate::text::split_keep(merged).len()) as usize),
                                    ),
                                )
                                &&& !final(state).buffer.spec_saved()
                            })
                        })
                        &&& out.action is Nothing && out.p == fl.contains('p') && out.n
                            == fl.contains('n') && out.l == fl.contains('l') && out.view_changed
                    })
                })
            })
            &&& (!(ch == '\n' || ch == 'q' || ch == 'Q' || ch == '?' || ch == 'h' || ch == 'H'
                || ch == 'f' || ch == 'e' || ch == 'E' || ch == 'r' || ch == 'w' || ch == 'W'
                || ch == 'p' || ch == 'n' || ch == 'l' || ch == 'a' || ch == 'i' || ch == 'c'
                || ch == 'd' || ch == 'm' || ch == 't' || ch == 'j' || ch == 's') ==> r == Err::<
                Outcome,
                EdError,
            >(EdError::UndefinedCommand))
        }),
{
    let n = command.unicode_len();
    let (cmd_i, selection) = match parse_selection(command) {
        Ok(x) => x,
        Err(e) => {
            return Err(e);
        },
    };
    let ch = command.get_char(cmd_i);
    let rest = command.substring_char(cmd_i + 1, n);
    let (ta, tb) = crate::text::trim_span(rest);
    let clean = rest.substring_char(ta, tb);
    let bufferlen = state.buffer.len();
    proof {
        assert(clean@ == crate::text::trim_of(
            command@.subrange(cmd_i + 1, command@.len() as int),
        ));
        reveal_strlit("");
        reveal_strlit("pnl");
        reveal_strlit("gpnl");
        assert(""@ =~= Seq::<char>::empty());
        assert("pnl"@ =~= seq!['p', 'n', 'l']);
        assert("gpnl"@ =~= seq!['g', 'p', 'n', 'l']);
    }
    if ch == '\n' {
        // No command: resolve and make the selection active.
        let sel = interpret_selection(selection, state.selection, bufferlen, false);
        if let Err(e) = state.buffer.verify_selection(sel) {
            return Err(e);
        }
        state.selection = Some(sel);
        Ok(Outcome { action: Action::Nothing, p: false, n: false, l: false, view_changed: true })
    } else if ch == 'q' || ch == 'Q' {
        if selection != Sel::Lone(Ind::Default) {
            return Err(EdError::SelectionForbidden);
        }
        match parse_flags(rest, "") {
            Ok(_) => {
                proof {
                    lemma_empty_flags(clean@);
                }
            },
            Err(e) => {
                return Err(e);
            },
        }
        if ch == 'q' && !state.buffer.saved() {
            return Err(EdError::UnsavedChanges);
        }
        state.done = true;
        Ok(Outcome { action: Action::Nothing, p: false, n: false, l: false, view_changed: false })
    } else if ch == '?' || ch == 'h' || ch == 'H' {
        if selection != Sel::Lone(Ind::Default) {
            return Err(EdError::SelectionForbidden);
        }
        match parse_flags(rest, "") {
            Ok(_) => {
                proof {
                    lemma_empty_flags(clean@);
                }
            },
            Err(e) => {
                return Err(e);
            },
        }
        if ch == 'H' {
            state.print_errors = !state.print_errors;
        }
        let action = if ch == '?' {
            Action::ShowHelp
        } else if ch == 'h' {
            Action::ShowError
        } else {
            Action::Nothing
        };
        Ok(Outcome { action, p: false, n: false, l: false, view_changed: false })
    } else if ch == 'f' {
        if selection != Sel::Lone(Ind::Default) {
            return Err(EdError::SelectionForbidden);
        }
        match parse_path(clean) {
            None => Ok(
                Outcome {
                    action: Action::ShowFilename,
                    p: false,
                    n: false,
                    l: false,
                    view_changed: false,
                },
            ),
            Some(path) => {
                state.file = String::from_str(path);
                Ok(
                    Outcome {
                        action: Action::Nothing,
                        p: false,
                        n: false,
                        l: false,
                        view_changed: false,
                    },
                )
            },
        }
    } else if ch == 'e' || ch == 'E' || ch == 'r' {
        let index = if ch == 'r' {
            let sel = interpret_selection(selection, state.selection, bufferlen, true);
            sel.1
        } else {
            if selection != Sel::Lone(Ind::Default) {
                return Err(EdError::SelectionForbidden);
            }
            0
        };
        if ch == 'e' && !state.buffer.saved() {
            return Err(EdError::UnsavedChanges);
        }
        let (path_s, gave_path) = match parse_path(clean) {
            Some(p) => (String::from_str(p), true),
            None => (state.file.clone(), false),
        };
        let view_changed = gave_path || ch == 'r' || ch == 'E';
        Ok(
            Outcome {
                action: Action::ReadFile {
                    path: path_s,
                    index,
                    replace: ch != 'r',
                    must_exist: ch == 'r',
                },
                p: false,
                n: false,
                l: false,
                view_changed,
            },
        )
    } else if ch == 'w' || ch == 'W' {
        let sel = interpret_selection(selection, state.selection, bufferlen, true);
        if let Err(e) = state.buffer.verify_selection(sel) {
            return Err(e);
        }
        let path_s = match parse_path(clean) {
            Some(p) => String::from_str(p),
            None => state.file.clone(),
        };
        Ok(
            Outcome {
                action: Action::WriteFile { path: path_s, selection: sel, append: ch == 'W' },
                p: false,
                n: false,
                l: false,
                view_changed: false,
            },
        )
    } else if ch == 'p' || ch == 'n' || ch == 'l' {
        let sel = interpret_selection(selection, state.selection, bufferlen, false);
        cmd_print(state, sel, command.substring_char(cmd_i, n))
    } else if ch == 'a' || ch == 'i' || ch == 'c' {
        let sel = interpret_selection(selection, state.selection, bufferlen, false);
        cmd_insert(state, ch, sel, rest, input)
    } else if ch == 'd' {
        let sel = interpret_selection(selection, state.selection, bufferlen, false);
        cmd_delete(state, sel, rest)
    } else if ch == 'm' || ch == 't' {
        let sel = interpret_selection(selection, state.selection, bufferlen, false);
        cmd_move_copy(state, ch == 'm', sel, clean)
    } else if ch == 'j' {
        let sel = interpret_selection(selection, state.selection, bufferlen, false);
        cmd_join(state, sel, rest)
    } else if ch == 's' {
        let sel = interpret_selection(selection, state.selection, bufferlen, false);
        cmd_subst(state, sel, clean)
    } else {
        Err(EdError::UndefinedCommand)
    }
}

/// The insertion commands: splice the collected lines in after (`a`) or
/// before (`i`) the selection, or in place of it (`c`), and select them.
/// An empty input cancels `a`/`i` and empties the selection for `c`.
fn cmd_insert(
    state: &mut State,
    kind: char,
    sel: (usize, usize),
    rest: &str,
    input: Vec<String>,
) -> (r: Result<Outcome, EdError>)
    requires
        kind == 'a' || kind == 'i' || kind == 'c',
    ensures
        r is Err ==> *final(state) == *old(state),
        ({
            let cl = crate::text::trim_of(rest@);
            let pre = old(state).buffer@;
            let pnl = seq!['p', 'n', 'l'];
            let noflags = Set::<char>::empty();
            &&& (kind == 'a' || kind == 'i' ==> {
                let start = if kind == 'a' {
                    sel.1
                } else {
                    sel.0
                };
                &&& (r is Ok <==> crate::parse_flags::flag_scan(cl, pnl, 0, noflags) is None && (
                input@.len() == 0 || start <= pre.len()))
                &&& (r matches Ok(out) ==> {
                    &&& (input@.len() == 0 ==> final(state).buffer == old(state).buffer && final(state).selection == old(state).selection)
                    &&& (input@.len() > 0 ==> final(state).buffer@ == pre.subrange(
                        0,
                        start as int,
                    ) + crate::buffer::views_of(input@) + pre.subrange(
                        start as int,
                        pre.len() as int,
                    ) && final(state).selection == Some(
                        (start, ((start + input@.len()) as usize)),
                    ) && !final(state).buffer.spec_saved())
                    &&& final(state).done == old(state).done && final(state).file == old(state).file
                    &&& out.action is Nothing && out.p == cl.contains('p') && out.n == cl.contains(
                        'n',
                    ) && out.l == cl.contains('l') && out.view_changed
                })
            })
            &&& (kind == 'c' ==> {
                &&& (r is Ok <==> crate::parse_flags::flag_scan(cl, pnl, 0, noflags) is None
                    && crate::buffer::selection_ok(pre.len(), sel) is Ok)
                &&& (r matches Ok(out) ==> {
                    &&& final(state).buffer@ == pre.subrange(0, sel.0 as int)
                        + crate::buffer::views_of(input@) + pre.subrange(
                        sel.1 as int,
                        pre.len() as int,
                    )
                    &&& (input@.len() > 0 ==> final(state).selection == Some(
                        (sel.0, ((sel.0 + input@.len()) as usize)),
                    ))
                    &&& (input@.len() == 0 ==> final(state).selection == spec_delete_fallback(
                        sel.0,
                        final(state).buffer@.len(),
                    ))
                    &&& !final(state).buffer.spec_saved()
                    &&& final(state).done == old(state).done && final(state).file == old(state).file
                    &&& out.action is Nothing && out.p == cl.contains('p') && out.n == cl.contains(
                        'n',
                    ) && out.l == cl.contains('l') && out.view_changed
                })
            })
        }),
{
    proof {
        reveal_strlit("pnl");
        assert("pnl"@ =~= seq!['p', 'n', 'l']);
    }
    let flags = match parse_flags(rest, "pnl") {
        Ok(f) => f,
        Err(e) => {
            return Err(e);
        },
    };
    let pf = flags.is_set('p');
    let nf = flags.is_set('n');
    let lf = flags.is_set('l');
    let mut input = input;
    let ilen = input.len();
    if kind == 'a' || kind == 'i' {
        if ilen != 0 {
            let start = if kind == 'a' {
                sel.1
            } else {
                sel.0
            };
            if let Err(e) = state.buffer.insert(&mut input, start) {
                return Err(e);
            }
            let newlen = state.buffer.len();
            proof {
                assert(start + ilen <= newlen);
            }
            state.selection = Some((start, start + ilen));
        }
        // An empty input means the command was cancelled; the old
        // selection stays.
    } else {
        if let Err(e) = state.buffer.change(&mut input, sel) {
            return Err(e);
        }
        if ilen != 0 {
            let newlen = state.buffer.len();
            proof {
                assert(sel.0 + ilen <= newlen);
            }
            state.selection = Some((sel.0, sel.0 + ilen));
        } else {
            let postlen = state.buffer.len();
            state.selection = delete_fallback(sel.0, postlen);
        }
    }
    Ok(Outcome { action: Action::Nothing, p: pf, n: nf, l: lf, view_changed: true })
}

/// The move and copy commands: parse the destination index and flags out
/// of the command's tail, relocate or clone the selection, and select the
/// lines at the destination.
fn cmd_move_copy(state: &mut State, mv: bool, sel: (usize, usize), clean: &str) -> (r: Result<
    Outcome,
    EdError,
>)
    ensures
        r is Err ==> *final(state) == *old(state),
        ({
            let cl = clean@;
            let pre = old(state).buffer@;
            let len0 = pre.len() as usize;
            let pnl = seq!['p', 'n', 'l'];
            let noflags = Set::<char>::empty();
            let ae = first_alpha(cl);
            let indr = crate::parse_selection::spec_parse_index(cl.subrange(0, ae));
            let fl2 = crate::text::trim_of(cl.subrange(ae, cl.len() as int));
            &&& (indr matches Err(e) ==> r == Err::<Outcome, EdError>(e))
            &&& (indr matches Ok(iv) ==> {
                let oe = match old(state).selection {
                    Some(s) => Some(s.1),
                    None => None::<usize>,
                };
                let du = (spec_interpret_index(iv, oe, len0, len0) as usize);
                let width = sel.1 - sel.0;
                &&& (r is Ok <==> crate::parse_flags::flag_scan(fl2, pnl, 0, noflags) is None && (
                if mv {
                    crate::buffer::move_check(pre.len(), sel, du) is Ok
                } else {
                    crate::buffer::copy_check(pre.len(), sel, du) is Ok
                }))
                &&& (r matches Ok(out) ==> {
                    &&& (mv ==> final(state).buffer@ == crate::buffer::moved_lines(pre, sel, du))
                    &&& (!mv ==> final(state).buffer@ == crate::buffer::copied_lines(pre, sel, du))
                    &&& final(state).selection == Some(
                        (
                            du,
                            (if du + width > usize::MAX as int {
                                usize::MAX
                            } else {
                                ((du + width) as usize)
                            }),
                        ),
                    )
                    &&& !final(state).buffer.spec_saved()
                    &&& final(state).done == old(state).done && final(state).file == old(state).file
                    &&& out.action is Nothing && out.p == fl2.contains('p') && out.n
                        == fl2.contains('n') && out.l == fl2.contains('l') && out.view_changed
                })
            })
        }),
{
    proof {
        reveal_strlit("pnl");
        assert("pnl"@ =~= seq!['p', 'n', 'l']);
    }
    let bufferlen = state.buffer.len();
    let clean_n = clean.unicode_len();
    let ind_end = find_alpha(clean);
    let ind = match parse_index(clean.substring_char(0, ind_end)) {
        Ok(x) => x,
        Err(e) => {
            return Err(e);
        },
    };
    let old_end = match state.selection {
        Some(s) => Some(s.1),
        None => None,
    };
    let index = interpret_index(ind, old_end, bufferlen, bufferlen);
    let flags = match parse_flags(clean.substring_char(ind_end, clean_n), "pnl") {
        Ok(f) => f,
        Err(e) => {
            return Err(e);
        },
    };
    if mv {
        if let Err(e) = state.buffer.mov(sel, index) {
            return Err(e);
        }
    } else {
        if let Err(e) = state.buffer.copy(sel, index) {
            return Err(e);
        }
    }
    proof {
        assert(sel.0 < sel.1);
    }
    let width = sel.1 - sel.0;
    let end = if index > usize::MAX - width {
        usize::MAX
    } else {
        index + width
    };
    state.selection = Some((index, end));
    Ok(
        Outcome {
            action: Action::Nothing,
            p: flags.is_set('p'),
            n: flags.is_set('n'),
            l: flags.is_set('l'),
            view_changed: true,
        },
    )
}

/// The substitute command: split the tail into pattern, replacement and
/// flags, run the search and replace over the selection, and select the
/// result.
fn cmd_subst(state: &mut State, sel: (usize, usize), clean: &str) -> (r: Result<Outcome, EdError>)
    ensures
        r is Err ==> *final(state) == *old(state),
        ({
            let cl = clean@;
            let pre = old(state).buffer@;
            let noflags = Set::<char>::empty();
            let exprs = (if cl.len() == 0 {
                Seq::<Seq<char>>::empty()
            } else {
                crate::parse_expressions::split_on(cl.subrange(1, cl.len() as int), cl[0])
            });
            &&& (exprs.len() != 3 ==> r == Err::<Outcome, EdError>(EdError::ExpressionTooShort))
            &&& (exprs.len() == 3 ==> {
                let fl = crate::text::trim_of(exprs[2]);
                let g = fl.contains('g');
                let gpnl = seq!['g', 'p', 'n', 'l'];
                &&& (r is Ok <==> crate::parse_flags::flag_scan(fl, gpnl, 0, noflags) is None
                    && crate::buffer::regex_check(pre.len(), sel, exprs[0]) is Ok)
                &&& (r matches Ok(out) ==> {
                    &&& (g ==> {
                        let merged = crate::buffer::global_merged(pre, exprs[0], exprs[1], sel);
                        let consumed = crate::buffer::global_consumed(
                            pre,
                            exprs[0],
                            exprs[1],
                            sel,
                        );
                        &&& final(state).buffer@ == pre.subrange(0, sel.0 as int)
                            + crate::text::split_norm(merged) + pre.subrange(
                            consumed,
                            pre.len() as int,
                        )
                        &&& final(state).selection == Some(
                            (sel.0, ((sel.0 + crate::text::split_norm(merged).len()) as usize)),
                        )
                        &&& !final(state).buffer.spec_saved()
                    })
                    &&& (!g ==> {
                        let fm = crate::buffer::first_match(pre, exprs[0], sel.0 as int, sel.1 as int);
                        &&& (fm == sel.1 as int ==> final(state).buffer == old(state).buffer
                            && final(state).selection == Some(sel))
                        &&& (fm < sel.1 as int ==> {
                            let merged = crate::buffer::line_merged(pre, exprs[0], exprs[1], fm);
                            let consumed = crate::buffer::line_consumed(
                                pre,
                                exprs[0],
                                exprs[1],
                                fm,
                            );
                            &&& final(state).buffer@ == pre.subrange(0, fm)
                                + crate::text::split_keep(merged) + pre.subrange(
                                consumed,
                                pre.len() as int,
                            )
                            &&& final(state).selection == Some(
                                (
                                    ((fm as usize)),
                                    ((fm + crate::text::split_keep(merged).len()) as usize),
                                ),
                            )
                            &&& !final(state).buffer.spec_saved()
                        })
                    })
                    &&& final(state).done == old(state).done && final(state).file == old(state).file
                    &&& out.action is Nothing && out.p == fl.contains('p') && out.n == fl.contains(
                        'n',
                    ) && out.l == fl.contains('l') && out.view_changed
                })
            })
        }),
{
    proof {
        reveal_strlit("gpnl");
        assert("gpnl"@ =~= seq!['g', 'p', 'n', 'l']);
    }
    let exprs = crate::parse_expressions::parse_expressions(clean);
    if exprs.len() == 3 {
        let flags = match parse_flags(exprs[2].as_str(), "gpnl") {
            Ok(f) => f,
            Err(e) => {
                return Err(e);
            },
        };
        let g = flags.is_set('g');
        let result = match state.buffer.search_replace(
            (exprs[0].as_str(), exprs[1].as_str()),
            sel,
            g,
        ) {
            Ok(x) => x,
            Err(e) => {
                return Err(e);
            },
        };
        state.selection = Some(result);
        Ok(
            Outcome {
                action: Action::Nothing,
                p: flags.is_set('p'),
                n: flags.is_set('n'),
                l: flags.is_set('l'),
                view_changed: true,
            },
        )
    } else {
        Err(EdError::ExpressionTooShort)
    }
}

/// The delete command: no flags are permitted, the selected lines are
/// removed, and the nearest remaining line (if any) becomes the selection.
fn cmd_delete(state: &mut State, sel: (usize, usize), rest: &str) -> (r: Result<Outcome, EdError>)
    ensures
        r is Err ==> *final(state) == *old(state),
        ({
            let cl = crate::text::trim_of(rest@);
            let pre = old(state).buffer@;
            &&& (r is Ok <==> cl.len() == 0 && crate::buffer::selection_ok(pre.len(), sel) is Ok)
            &&& (r matches Ok(out) ==> {
                &&& final(state).buffer@ == pre.subrange(0, sel.0 as int) + pre.subrange(
                    sel.1 as int,
                    pre.len() as int,
                )
                &&& final(state).selection == spec_delete_fallback(
                    sel.0,
                    final(state).buffer@.len(),
                )
                &&& !final(state).buffer.spec_saved()
                &&& final(state).done == old(state).done && final(state).file == old(state).file
                &&& out.action is Nothing && !out.p && !out.n && !out.l && out.view_changed
            })
        }),
{
    proof {
        reveal_strlit("");
        assert(""@ =~= Seq::<char>::empty());
    }
    match parse_flags(rest, "") {
        Ok(_) => {
            proof {
                lemma_empty_flags(crate::text::trim_of(rest@));
            }
        },
        Err(e) => {
            return Err(e);
        },
    }
    if let Err(e) = state.buffer.delete(sel) {
        return Err(e);
    }
    let postlen = state.buffer.len();
    state.selection = delete_fallback(sel.0, postlen);
    Ok(Outcome { action: Action::Nothing, p: false, n: false, l: false, view_changed: true })
}

/// The join command: the selected lines become one line and that line is
/// selected.
fn cmd_join(state: &mut State, sel: (usize, usize), rest: &str) -> (r: Result<Outcome, EdError>)
    ensures
        r is Err ==> *final(state) == *old(state),
        ({
            let cl = crate::text::trim_of(rest@);
            let pre = old(state).buffer@;
            let pnl = seq!['p', 'n', 'l'];
            let noflags = Set::<char>::empty();
            &&& (r is Ok <==> crate::parse_flags::flag_scan(cl, pnl, 0, noflags) is None
                && crate::buffer::selection_ok(pre.len(), sel) is Ok)
            &&& (r matches Ok(out) ==> {
                &&& final(state).buffer@ == pre.subrange(0, sel.0 as int) + seq![
                    crate::buffer::joined_line(pre.subrange(sel.0 as int, sel.1 as int)),
                ] + pre.subrange(sel.1 as int, pre.len() as int)
                &&& final(state).selection == Some((sel.0, ((sel.0 + 1) as usize)))
                &&& !final(state).buffer.spec_saved()
                &&& final(state).done == old(state).done && final(state).file == old(state).file
                &&& out.action is Nothing && out.p == cl.contains('p') && out.n == cl.contains('n')
                    && out.l == cl.contains('l') && out.view_changed
            })
        }),
{
    proof {
        reveal_strlit("pnl");
        assert("pnl"@ =~= seq!['p', 'n', 'l']);
    }
    let flags = match parse_flags(rest, "pnl") {
        Ok(f) => f,
        Err(e) => {
            return Err(e);
        },
    };
    if let Err(e) = state.buffer.join(sel) {
        return Err(e);
    }
    state.selection = Some((sel.0, sel.0 + 1));
    Ok(
        Outcome {
            action: Action::Nothing,
            p: flags.is_set('p'),
            n: flags.is_set('n'),
            l: flags.is_set('l'),
            view_changed: true,
        },
    )
}

/// The print commands: validate the selection, make it active, and hand
/// the flags back for the caller's renderer.  The command character is
/// part of the flag text, so `p` itself counts as its own flag.
fn cmd_print(state: &mut State, sel: (usize, usize), flagsrc: &str) -> (r: Result<
    Outcome,
    EdError,
>)
    ensures
        r is Err ==> *final(state) == *old(state),
        ({
            let clp = crate::text::trim_of(flagsrc@);
            let pre = old(state).buffer@;
            let pnl = seq!['p', 'n', 'l'];
            let noflags = Set::<char>::empty();
            &&& (r is Ok <==> crate::buffer::selection_ok(pre.len(), sel) is Ok
                && crate::parse_flags::flag_scan(clp, pnl, 0, noflags) is None)
            &&& (r matches Ok(out) ==> (*final(state) == (State {
                selection: Some(sel),
                ..*old(state)
            }) && out.action is Nothing && out.p == clp.contains('p') && out.n == clp.contains('n')
                && out.l == clp.contains('l') && !out.view_changed))
        }),
{
    proof {
        reveal_strlit("pnl");
        assert("pnl"@ =~= seq!['p', 'n', 'l']);
    }
    if let Err(e) = state.buffer.verify_selection(sel) {
        return Err(e);
    }
    let flags = match parse_flags(flagsrc, "pnl") {
        Ok(f) => f,
        Err(e) => {
            return Err(e);
        },
    };
    state.selection = Some(sel);
    Ok(
        Outcome {
            action: Action::Nothing,
            p: flags.is_set('p'),
            n: flags.is_set('n'),
            l: flags.is_set('l'),
            view_changed: false,
        },
    )
}

/// Complete a read command once the caller has the file's lines: splice
/// them in (replacing the whole buffer for open commands), mark the buffer
/// saved, remember the file, and select what was read.
pub fn apply_read(
    state: &mut State,
    path: &str,
    index: usize,
    replace: bool,
    data: Vec<String>,
) -> (r: Result<(), EdError>)
    ensures
        ({
            let base = if replace {
                Seq::<Seq<char>>::empty()
            } else {
                old(state).buffer@
            };
            &&& (r is Ok <==> index <= base.len())
            &&& r is Ok ==> {
                &&& final(state).buffer@ == base.subrange(0, index as int)
                    + crate::buffer::views_of(data@) + base.subrange(
                    index as int,
                    base.len() as int,
                )
                &&& final(state).buffer.spec_saved()
                &&& final(state).file@ == path@
                &&& final(state).selection == Some(
                    (index, (index + data@.len()) as usize),
                )
                &&& final(state).done == old(state).done
                &&& final(state).print_errors == old(state).print_errors
            }
            &&& r is Err ==> r == Err::<(), EdError>(EdError::IndexTooBig) && *final(state)
                == *old(state)
        }),
{
    let mut data = data;
    let datalen = data.len();
    if replace {
        if index > 0 {
            return Err(EdError::IndexTooBig);
        }
        state.buffer = VecBuffer::new();
        if let Err(e) = state.buffer.insert(&mut data, index) {
            return Err(e);
        }
    } else {
        if let Err(e) = state.buffer.insert(&mut data, index) {
            return Err(e);
        }
    }
    state.buffer.set_saved();
    state.file = String::from_str(path);
    let newlen = state.buffer.len();
    proof {
        assert(index + datalen <= newlen);
    }
    state.selection = Some((index, index + datalen));
    Ok(())
}

/// Complete a write command after the caller wrote the lines out: a whole-
/// buffer write marks the buffer saved and remembers the file; a partial
/// write only re-selects what was written.
pub fn apply_write(state: &mut State, path: &str, selection: (usize, usize))
    ensures
        selection == (0usize, old(state).buffer@.len() as usize) ==> {
            &&& final(state).buffer@ == old(state).buffer@
            &&& final(state).buffer.spec_saved()
            &&& final(state).file@ == path@
            &&& final(state).selection == old(state).selection
            &&& final(state).done == old(state).done
        },
        selection != (0usize, old(state).buffer@.len() as usize) ==> (*final(state) == (State {
            selection: Some(selection),
            ..*old(state)
        })),
{
    let len = state.buffer.len();
    if selection.0 == 0 && selection.1 == len {
        state.buffer.set_saved();
        state.file = String::from_str(path);
    } else {
        state.selection = Some(selection);
    }
}

} // verus!
