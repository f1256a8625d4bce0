//! The buffer engine: an ordered sequence of lines with strict bounds
//! checking, the seven core editing operations, and regex search/replace.
//!
//! A line is a `String` that normally carries its own trailing `'\n'`;
//! operations tolerate intermediate lines without one.  A selection is a
//! half-open index range `[start, end)` with `start < end <= len()`.

use crate::error::EdError;
use crate::re::{re_compiles, re_is_match, re_replace_all, re_replace_first};
use crate::re::{regex_compiles, regex_matches, replaced_all, replaced_first};
use crate::text::{ends_with_nl, needs_newline, split_keep, split_lines, split_norm};
use vstd::prelude::*;

verus! {

/// The check every index argument must pass: an index may point one past
/// the last line (that is where "append at the end" inserts).
pub open spec fn index_ok(len: nat, index: usize) -> Result<(), EdError> {
    if index > len {
        Err(EdError::IndexTooBig)
    } else {
        Ok(())
    }
}

/// The check every selection argument must pass: non-empty, not inverted,
/// and inside the buffer.
pub open spec fn selection_ok(len: nat, selection: (usize, usize)) -> Result<(), EdError> {
    if selection.0 >= selection.1 {
        Err(EdError::SelectionEmpty)
    } else if selection.1 > len {
        Err(EdError::IndexTooBig)
    } else {
        Ok(())
    }
}

/// The contents of a vector of lines, line by line.
pub open spec fn views_of(lines: Seq<String>) -> Seq<Seq<char>> {
    Seq::new(lines.len(), |i: int| lines[i]@)
}

/// A line with its final character (normally the terminator) removed;
/// an empty line stays empty.
pub open spec fn strip_last(line: Seq<char>) -> Seq<char> {
    if line.len() > 0 {
        line.drop_last()
    } else {
        line
    }
}

/// What `join` builds from the selected lines, before the single trailing
/// terminator is appended: each line with its last character stripped,
/// concatenated in order.
pub open spec fn join_stripped(lines: Seq<Seq<char>>) -> Seq<char>
    decreases lines.len(),
{
    if lines.len() == 0 {
        Seq::empty()
    } else {
        strip_last(lines[0]) + join_stripped(lines.drop_first())
    }
}

/// The concatenation of a sequence of lines, terminators included.
pub open spec fn concat_all(lines: Seq<Seq<char>>) -> Seq<char>
    decreases lines.len(),
{
    if lines.len() == 0 {
        Seq::empty()
    } else {
        lines[0] + concat_all(lines.drop_first())
    }
}

proof fn lemma_join_stripped_push(lines: Seq<Seq<char>>, line: Seq<char>)
    ensures
        join_stripped(lines.push(line)) == join_stripped(lines) + strip_last(line),
    decreases lines.len(),
{
    if lines.len() == 0 {
        assert(lines.push(line).drop_first() =~= Seq::<Seq<char>>::empty());
        assert(lines.push(line)[0] == line);
        assert(join_stripped(Seq::<Seq<char>>::empty()) == Seq::<char>::empty());
        assert(join_stripped(lines.push(line)) =~= strip_last(line));
        assert(join_stripped(lines) + strip_last(line) =~= strip_last(line));
    } else {
        assert(lines.push(line).drop_first() =~= lines.drop_first().push(line));
        lemma_join_stripped_push(lines.drop_first(), line);
        assert(join_stripped(lines.push(line)) =~= join_stripped(lines) + strip_last(line));
    }
}

proof fn lemma_concat_all_push(lines: Seq<Seq<char>>, line: Seq<char>)
    ensures
        concat_all(lines.push(line)) == concat_all(lines) + line,
    decreases lines.len(),
{
    if lines.len() == 0 {
        assert(lines.push(line).drop_first() =~= Seq::<Seq<char>>::empty());
        assert(lines.push(line)[0] == line);
        assert(concat_all(Seq::<Seq<char>>::empty()) == Seq::<char>::empty());
        assert(concat_all(lines.push(line)) =~= concat_all(lines) + line);
    } else {
        assert(lines.push(line).drop_first() =~= lines.drop_first().push(line));
        lemma_concat_all_push(lines.drop_first(), line);
        assert(concat_all(lines.push(line)) =~= concat_all(lines) + line);
    }
}

/// The check `mov` applies: valid selection, valid index, and a destination
/// that does not lie strictly inside the moved range.
pub open spec fn move_check(len: nat, selection: (usize, usize), index: usize) -> Result<
    (),
    EdError,
> {
    if selection_ok(len, selection) is Err {
        selection_ok(len, selection)
    } else if index > len {
        Err(EdError::IndexTooBig)
    } else if index <= selection.0 || index >= selection.1 {
        Ok(())
    } else {
        Err(EdError::MoveIntoSelf)
    }
}

/// Where the destination index lands after the adjustment both `mov` (for
/// backward moves) and `copy` (for destinations at or before the source)
/// apply: one step back, saturating at zero.
pub open spec fn dest_back(index: usize) -> int {
    if index > 0 {
        index - 1
    } else {
        0
    }
}

/// The buffer contents after a successful move.
pub open spec fn moved_lines(
    lines: Seq<Seq<char>>,
    selection: (usize, usize),
    index: usize,
) -> Seq<Seq<char>> {
    let s = selection.0 as int;
    let e = selection.1 as int;
    if index <= selection.0 {
        let i = dest_back(index);
        lines.subrange(0, i) + lines.subrange(s, e) + lines.subrange(i, s) + lines.subrange(
            e,
            lines.len() as int,
        )
    } else {
        lines.subrange(0, s) + lines.subrange(e, index as int) + lines.subrange(s, e)
            + lines.subrange(index as int, lines.len() as int)
    }
}

/// The check `copy` applies: valid selection, then valid index.
pub open spec fn copy_check(len: nat, selection: (usize, usize), index: usize) -> Result<
    (),
    EdError,
> {
    if selection_ok(len, selection) is Err {
        selection_ok(len, selection)
    } else {
        index_ok(len, index)
    }
}

/// The buffer contents after a successful copy: the clone of the selection
/// is spliced in at the destination, stepped one back when the destination
/// is at or before the source start.
pub open spec fn copied_lines(
    lines: Seq<Seq<char>>,
    selection: (usize, usize),
    index: usize,
) -> Seq<Seq<char>> {
    let s = selection.0 as int;
    let e = selection.1 as int;
    let i = if index <= selection.0 {
        dest_back(index)
    } else {
        index as int
    };
    lines.subrange(0, i) + lines.subrange(s, e) + lines.subrange(i, lines.len() as int)
}

/// The single line a successful `join` leaves in place of the selection.
pub open spec fn joined_line(lines: Seq<Seq<char>>) -> Seq<char> {
    join_stripped(lines) + seq!['\n']
}

/// The check the regex operations apply: valid selection, then a pattern
/// that compiles.
pub open spec fn regex_check(len: nat, selection: (usize, usize), pat: Seq<char>) -> Result<
    (),
    EdError,
> {
    if selection_ok(len, selection) is Err {
        selection_ok(len, selection)
    } else if !regex_compiles(pat) {
        Err(EdError::InvalidRegex)
    } else {
        Ok(())
    }
}

/// First index in `[from, to)` whose line matches the pattern, or `to`
/// when none does.
pub open spec fn first_match(lines: Seq<Seq<char>>, pat: Seq<char>, from: int, to: int) -> int
    decreases to - from,
{
    if from >= to {
        to
    } else if regex_matches(pat, lines[from]) {
        from
    } else {
        first_match(lines, pat, from + 1, to)
    }
}

/// `first_match` is pinned down by its characterisation.
pub proof fn lemma_first_match_is(
    lines: Seq<Seq<char>>,
    pat: Seq<char>,
    from: int,
    to: int,
    m: int,
)
    requires
        from <= m <= to,
        forall|j: int| from <= j < m ==> !regex_matches(pat, lines[j]),
        m < to ==> regex_matches(pat, lines[m]),
    ensures
        first_match(lines, pat, from, to) == m,
    decreases to - from,
{
    if from < to && !regex_matches(pat, lines[from]) {
        lemma_first_match_is(lines, pat, from + 1, to, m);
    }
}

/// The indices in `[from, to)` whose lines match the pattern, in order.
pub open spec fn match_indices(lines: Seq<Seq<char>>, pat: Seq<char>, from: int, to: int) -> Seq<
    usize,
>
    decreases to - from,
{
    if from >= to {
        Seq::empty()
    } else {
        match_indices(lines, pat, from, to - 1) + (if regex_matches(pat, lines[to - 1]) {
            seq![(to - 1) as usize]
        } else {
            Seq::empty()
        })
    }
}

/// The text a global substitution re-splits: the whole selection joined,
/// run through replace-all, and, when the result lacks a final terminator
/// and an untouched line follows, that line's text absorbed at the end.
pub open spec fn global_merged(
    lines: Seq<Seq<char>>,
    pat: Seq<char>,
    repl: Seq<char>,
    selection: (usize, usize),
) -> Seq<char> {
    let rep = replaced_all(pat, repl, concat_all(lines.subrange(selection.0 as int, selection.1 as int)));
    if needs_newline(rep) && selection.1 < lines.len() {
        rep + lines[selection.1 as int]
    } else {
        rep
    }
}

/// How many of the original lines a global substitution consumes: the
/// selection itself, plus the following line when it was absorbed.
pub open spec fn global_consumed(
    lines: Seq<Seq<char>>,
    pat: Seq<char>,
    repl: Seq<char>,
    selection: (usize, usize),
) -> int {
    let rep = replaced_all(pat, repl, concat_all(lines.subrange(selection.0 as int, selection.1 as int)));
    if needs_newline(rep) && selection.1 < lines.len() {
        selection.1 + 1
    } else {
        selection.1 as int
    }
}

/// The text a line-wise substitution re-splits: the first matching line
/// with its first match replaced; when the result lacks a final terminator
/// the next line's text is absorbed, or a terminator is appended when the
/// matching line was the last.
pub open spec fn line_merged(
    lines: Seq<Seq<char>>,
    pat: Seq<char>,
    repl: Seq<char>,
    m: int,
) -> Seq<char> {
    let rep = replaced_first(pat, repl, lines[m]);
    if !needs_newline(rep) {
        rep
    } else if m + 1 < lines.len() {
        rep + lines[m + 1]
    } else {
        rep + seq!['\n']
    }
}

/// How many original lines a line-wise substitution consumes.
pub open spec fn line_consumed(
    lines: Seq<Seq<char>>,
    pat: Seq<char>,
    repl: Seq<char>,
    m: int,
) -> int {
    let rep = replaced_first(pat, repl, lines[m]);
    if needs_newline(rep) && m + 1 < lines.len() {
        m + 2
    } else {
        m + 1
    }
}

/// The buffer engine.  Owns the lines and a saved/dirty flag which is true
/// exactly when no mutating operation has happened since the last
/// `set_saved` call.
pub struct VecBuffer {
    saved: bool,
    buffer: Vec<String>,
}

impl View for VecBuffer {
    type V = Seq<Seq<char>>;

    /// The buffer is modelled as the sequence of its lines' contents.
    closed spec fn view(&self) -> Seq<Seq<char>> {
        views_of(self.buffer@)
    }
}

/// The buffer interface the session layer drives: the ordered line
/// store with validation, the editing operations, and the saved flag.
/// The contracts are stated over each implementation's line model
/// `rep()` and saved flag `is_saved()`.
pub trait Buffer: Sized {
    /// The lines held, as their contents.
    spec fn rep(&self) -> Seq<Seq<char>>;

    /// True when nothing was mutated since the last save.
    spec fn is_saved(&self) -> bool;
    /// Number of lines held.
    fn len(&self) -> (r: usize)
        ensures
            r == self.rep().len(),
    ;

    /// Mark the buffer as saved; the contents stay as they are.
    fn set_saved(&mut self)
        ensures
            final(self).rep() == old(self).rep(),
            final(self).is_saved(),
    ;

    /// True when no mutating operation has happened since the last save.
    fn saved(&self) -> (r: bool)
        ensures
            r == self.is_saved(),
    ;

    /// Accept exactly the indices `0 ..= len()`.
    fn verify_index(&self, index: usize) -> (r: Result<(), EdError>)
        ensures
            r == index_ok(self.rep().len(), index),
    ;

    /// Accept exactly the selections `(s, e)` with `s < e <= len()`.
    fn verify_selection(&self, selection: (usize, usize)) -> (r: Result<(), EdError>)
        ensures
            r == selection_ok(self.rep().len(), selection),
    ;

    /// A read-only view of the selected lines.
    fn get_selection(&self, selection: (usize, usize)) -> (r: Result<&[String], EdError>)
        ensures
            r is Ok <==> selection_ok(self.rep().len(), selection) is Ok,
            r matches Err(e) ==> Err::<(), EdError>(e) == selection_ok(self.rep().len(), selection),
            r matches Ok(lines) ==> {
                &&& lines@.len() == selection.1 - selection.0
                &&& views_of(lines@) == self.rep().subrange(selection.0 as int, selection.1 as int)
            },
    ;

    /// Splice `data` in before position `index`; `data` is drained.
    fn insert(&mut self, data: &mut Vec<String>, index: usize) -> (r: Result<(), EdError>)
        ensures
            r == index_ok(old(self).rep().len(), index),
            r is Ok ==> {
                &&& final(self).rep() == old(self).rep().subrange(0, index as int) + views_of(old(data)@)
                    + old(self).rep().subrange(index as int, old(self).rep().len() as int)
                &&& final(data)@.len() == 0
                &&& !final(self).is_saved()
            },
            r is Err ==> *final(self) == *old(self) && *final(data) == *old(data),
    ;

    /// Remove the selected lines.
    fn delete(&mut self, selection: (usize, usize)) -> (r: Result<(), EdError>)
        ensures
            r == selection_ok(old(self).rep().len(), selection),
            r is Ok ==> {
                &&& final(self).rep() == old(self).rep().subrange(0, selection.0 as int)
                    + old(self).rep().subrange(selection.1 as int, old(self).rep().len() as int)
                &&& !final(self).is_saved()
            },
            r is Err ==> *final(self) == *old(self),
    ;

    /// Replace the selected lines by `data` in one splice; `data` is drained.
    fn change(&mut self, data: &mut Vec<String>, selection: (usize, usize)) -> (r: Result<
        (),
        EdError,
    >)
        ensures
            r == selection_ok(old(self).rep().len(), selection),
            r is Ok ==> {
                &&& final(self).rep() == old(self).rep().subrange(0, selection.0 as int)
                    + views_of(old(data)@)
                    + old(self).rep().subrange(selection.1 as int, old(self).rep().len() as int)
                &&& final(data)@.len() == 0
                &&& !final(self).is_saved()
            },
            r is Err ==> *final(self) == *old(self) && *final(data) == *old(data),
    ;

    /// Relocate the selected lines so that they sit just before the line
    /// that `index` pointed at; touching the selection's own boundaries is
    /// legal, a destination strictly inside it is refused.
    fn mov(&mut self, selection: (usize, usize), index: usize) -> (r: Result<(), EdError>)
        ensures
            r == move_check(old(self).rep().len(), selection, index),
            r is Ok ==> final(self).rep() == moved_lines(old(self).rep(), selection, index)
                && !final(self).is_saved(),
            r is Err ==> *final(self) == *old(self),
    ;

    /// Clone the selected lines and splice the clone in at the destination.
    fn copy(&mut self, selection: (usize, usize), index: usize) -> (r: Result<(), EdError>)
        ensures
            r == copy_check(old(self).rep().len(), selection, index),
            r is Ok ==> final(self).rep() == copied_lines(old(self).rep(), selection, index)
                && !final(self).is_saved(),
            r is Err ==> *final(self) == *old(self),
    ;

    /// Merge the selected lines into a single line: every line loses its
    /// trailing terminator, the results are concatenated, and one final
    /// terminator is appended.
    fn join(&mut self, selection: (usize, usize)) -> (r: Result<(), EdError>)
        ensures
            r == selection_ok(old(self).rep().len(), selection),
            r is Ok ==> {
                &&& final(self).rep() == old(self).rep().subrange(0, selection.0 as int) + seq![
                    joined_line(
                        old(self).rep().subrange(selection.0 as int, selection.1 as int),
                    ),
                ] + old(self).rep().subrange(selection.1 as int, old(self).rep().len() as int)
                &&& !final(self).is_saved()
            },
            r is Err ==> *final(self) == *old(self),
    ;

    /// Regex search and replace over the selection.
    ///
    /// In global mode the whole selection is joined, run through
    /// replace-all, and re-split into lines; in line mode only the first
    /// match on the first matching line is replaced, and the line is
    /// re-split if the replacement introduced terminators.  Either way a
    /// replacement without a final terminator absorbs the following line.
    /// The returned selection spans the re-split lines; when no line
    /// matches in line mode, the buffer stays as it is and the original
    /// selection comes back.
    fn search_replace(
        &mut self,
        pattern: (&str, &str),
        selection: (usize, usize),
        global: bool,
    ) -> (r: Result<(usize, usize), EdError>)
        ensures
            regex_check(old(self).rep().len(), selection, pattern.0@) matches Err(e) ==> r == Err::<
                (usize, usize),
                EdError,
            >(e) && *final(self) == *old(self),
            regex_check(old(self).rep().len(), selection, pattern.0@) is Ok && global ==> {
                let merged = global_merged(old(self).rep(), pattern.0@, pattern.1@, selection);
                let consumed = global_consumed(old(self).rep(), pattern.0@, pattern.1@, selection);
                &&& final(self).rep() == old(self).rep().subrange(0, selection.0 as int) + split_norm(merged)
                    + old(self).rep().subrange(consumed, old(self).rep().len() as int)
                &&& !final(self).is_saved()
                &&& r matches Ok(ns) && ns.0 == selection.0 && ns.1 == selection.0 + split_norm(
                    merged,
                ).len()
            },
            regex_check(old(self).rep().len(), selection, pattern.0@) is Ok && !global ==> {
                let m = first_match(
                    old(self).rep(),
                    pattern.0@,
                    selection.0 as int,
                    selection.1 as int,
                );
                if m == selection.1 as int {
                    r == Ok::<(usize, usize), EdError>(selection) && *final(self) == *old(self)
                } else {
                    let merged = line_merged(old(self).rep(), pattern.0@, pattern.1@, m);
                    let consumed = line_consumed(old(self).rep(), pattern.0@, pattern.1@, m);
                    &&& final(self).rep() == old(self).rep().subrange(0, m) + split_keep(merged)
                        + old(self).rep().subrange(consumed, old(self).rep().len() as int)
                    &&& !final(self).is_saved()
                    &&& r matches Ok(ns) && ns.0 == m && ns.1 == m + split_keep(merged).len()
                }
            },
    ;

    /// The indices inside the selection whose lines the pattern matches.
    fn find_matching(&self, pattern: &str, selection: (usize, usize)) -> (r: Result<
        Vec<usize>,
        EdError,
    >)
        ensures
            regex_check(self.rep().len(), selection, pattern@) matches Err(e) ==> r == Err::<
                Vec<usize>,
                EdError,
            >(e),
            regex_check(self.rep().len(), selection, pattern@) is Ok ==> (r matches Ok(v) && v@
                == match_indices(self.rep(), pattern@, selection.0 as int, selection.1 as int)),
    ;
}

impl VecBuffer {
    /// True when the buffer has not been mutated since the last `set_saved`.
    pub closed spec fn spec_saved(&self) -> bool {
        self.saved
    }

    /// A fresh buffer holds no lines and counts as saved.
    pub fn new() -> (r: Self)
        ensures
            r@ == Seq::<Seq<char>>::empty(),
            r.spec_saved(),
    {
        let r = VecBuffer { saved: true, buffer: Vec::new() };
        proof {
            assert(r@ =~= Seq::<Seq<char>>::empty());
        }
        r
    }

}

impl Buffer for VecBuffer {
    /// The buffer is its lines' contents.
    open spec fn rep(&self) -> Seq<Seq<char>> {
        self@
    }

    open spec fn is_saved(&self) -> bool {
        self.spec_saved()
    }
    /// Number of lines held.
    fn len(&self) -> (r: usize)
    {
        self.buffer.len()
    }

    /// Mark the buffer as saved; the contents stay as they are.
    fn set_saved(&mut self)
    {
        self.saved = true;
    }

    /// True when no mutating operation has happened since the last save.
    fn saved(&self) -> (r: bool)
    {
        self.saved
    }

    /// Accept exactly the indices `0 ..= len()`.
    fn verify_index(&self, index: usize) -> (r: Result<(), EdError>)
    {
        if index > self.buffer.len() {
            return Err(EdError::IndexTooBig);
        }
        Ok(())
    }

    /// Accept exactly the selections `(s, e)` with `s < e <= len()`.
    fn verify_selection(&self, selection: (usize, usize)) -> (r: Result<(), EdError>)
    {
        if selection.0 >= selection.1 {
            return Err(EdError::SelectionEmpty);
        }
        if selection.1 > self.buffer.len() {
            return Err(EdError::IndexTooBig);
        }
        Ok(())
    }

    /// A read-only view of the selected lines.
    fn get_selection(&self, selection: (usize, usize)) -> (r: Result<&[String], EdError>)
    {
        if let Err(e) = self.verify_selection(selection) {
            return Err(e);
        }
        let lines = vstd::slice::slice_subrange(self.buffer.as_slice(), selection.0, selection.1);
        proof {
            assert(views_of(lines@) =~= self@.subrange(selection.0 as int, selection.1 as int));
        }
        Ok(lines)
    }

    /// Splice `data` in before position `index`; `data` is drained.
    fn insert(&mut self, data: &mut Vec<String>, index: usize) -> (r: Result<(), EdError>)
    {
        if let Err(e) = self.verify_index(index) {
            return Err(e);
        }
        self.saved = false;
        let mut tail = self.buffer.split_off(index);
        self.buffer.append(data);
        self.buffer.append(&mut tail);
        proof {
            assert(final(self)@ =~= old(self)@.subrange(0, index as int) + views_of(old(data)@)
                + old(self)@.subrange(index as int, old(self)@.len() as int));
        }
        Ok(())
    }

    /// Remove the selected lines.
    fn delete(&mut self, selection: (usize, usize)) -> (r: Result<(), EdError>)
    {
        if let Err(e) = self.verify_selection(selection) {
            return Err(e);
        }
        self.saved = false;
        let mut tail = self.buffer.split_off(selection.1);
        let _deleted = self.buffer.split_off(selection.0);
        self.buffer.append(&mut tail);
        proof {
            assert(final(self)@ =~= old(self)@.subrange(0, selection.0 as int)
                + old(self)@.subrange(selection.1 as int, old(self)@.len() as int));
        }
        Ok(())
    }

    /// Replace the selected lines by `data` in one splice; `data` is drained.
    fn change(&mut self, data: &mut Vec<String>, selection: (usize, usize)) -> (r: Result<
        (),
        EdError,
    >)
    {
        if let Err(e) = self.verify_selection(selection) {
            return Err(e);
        }
        self.saved = false;
        let mut tail = self.buffer.split_off(selection.1);
        let _deleted = self.buffer.split_off(selection.0);
        self.buffer.append(data);
        self.buffer.append(&mut tail);
        proof {
            assert(final(self)@ =~= old(self)@.subrange(0, selection.0 as int)
                + views_of(old(data)@)
                + old(self)@.subrange(selection.1 as int, old(self)@.len() as int));
        }
        Ok(())
    }

    /// legal, a destination strictly inside it is refused.
    fn mov(&mut self, selection: (usize, usize), index: usize) -> (r: Result<(), EdError>)
    {
        if let Err(e) = self.verify_selection(selection) {
            return Err(e);
        }
        if let Err(e) = self.verify_index(index) {
            return Err(e);
        }
        if index <= selection.0 {
            self.saved = false;
            let dest = if index > 0 {
                index - 1
            } else {
                0
            };
            let mut tail = self.buffer.split_off(selection.1);
            let mut data = self.buffer.split_off(selection.0);
            let mut middle = self.buffer.split_off(dest);
            self.buffer.append(&mut data);
            self.buffer.append(&mut middle);
            self.buffer.append(&mut tail);
            proof {
                assert(final(self)@ =~= moved_lines(old(self)@, selection, index));
            }
            Ok(())
        } else if index >= selection.1 {
            self.saved = false;
            let mut tail = self.buffer.split_off(index);
            let mut middle = self.buffer.split_off(selection.1);
            let mut data = self.buffer.split_off(selection.0);
            self.buffer.append(&mut middle);
            self.buffer.append(&mut data);
            self.buffer.append(&mut tail);
            proof {
                assert(final(self)@ =~= moved_lines(old(self)@, selection, index));
            }
            Ok(())
        } else {
            Err(EdError::MoveIntoSelf)
        }
    }

    /// Clone the selected lines and splice the clone in at the destination.
    fn copy(&mut self, selection: (usize, usize), index: usize) -> (r: Result<(), EdError>)
    {
        if let Err(e) = self.verify_selection(selection) {
            return Err(e);
        }
        if let Err(e) = self.verify_index(index) {
            return Err(e);
        }
        self.saved = false;
        let mut data: Vec<String> = Vec::new();
        let mut i = selection.0;
        while i < selection.1
            invariant
                selection.0 <= i <= selection.1 <= self.buffer@.len(),
                *self == *old(self) || (self.buffer == old(self).buffer && !self.saved),
                self.buffer == old(self).buffer,
                data@ =~= self.buffer@.subrange(selection.0 as int, i as int),
            decreases selection.1 - i,
        {
            data.push(self.buffer[i].clone());
            proof {
                assert(data@ =~= self.buffer@.subrange(selection.0 as int, i + 1));
            }
            i += 1;
        }
        let dest = if index <= selection.0 {
            if index > 0 {
                index - 1
            } else {
                0
            }
        } else {
            index
        };
        let mut tail = self.buffer.split_off(dest);
        self.buffer.append(&mut data);
        self.buffer.append(&mut tail);
        proof {
            assert(final(self)@ =~= copied_lines(old(self)@, selection, index));
        }
        Ok(())
    }

    /// terminator is appended.
    fn join(&mut self, selection: (usize, usize)) -> (r: Result<(), EdError>)
    {
        if let Err(e) = self.verify_selection(selection) {
            return Err(e);
        }
        let mut joined = String::new();
        let mut i = selection.0;
        while i < selection.1
            invariant
                selection.0 <= i <= selection.1 <= self.buffer@.len(),
                *self == *old(self),
                joined@ == join_stripped(self@.subrange(selection.0 as int, i as int)),
            decreases selection.1 - i,
        {
            let line = &self.buffer[i];
            let n = line.as_str().unicode_len();
            if n > 0 {
                let stripped = line.as_str().substring_char(0, n - 1);
                joined.append(stripped);
                proof {
                    assert(stripped@ =~= strip_last(self@[i as int]));
                }
            } else {
                proof {
                    assert(joined@ + strip_last(self@[i as int]) =~= joined@);
                }
            }
            proof {
                lemma_join_stripped_push(
                    self@.subrange(selection.0 as int, i as int),
                    self@[i as int],
                );
                assert(self@.subrange(selection.0 as int, i + 1) =~= self@.subrange(
                    selection.0 as int,
                    i as int,
                ).push(self@[i as int]));
            }
            i += 1;
        }
        joined.append("\n");
        proof {
            reveal_strlit("\n");
            assert(joined@ =~= joined_line(
                old(self)@.subrange(selection.0 as int, selection.1 as int),
            ));
        }
        self.saved = false;
        let mut tail = self.buffer.split_off(selection.1);
        let _mid = self.buffer.split_off(selection.0);
        self.buffer.push(joined);
        self.buffer.append(&mut tail);
        proof {
            assert(final(self)@ =~= old(self)@.subrange(0, selection.0 as int) + seq![
                joined_line(old(self)@.subrange(selection.0 as int, selection.1 as int)),
            ] + old(self)@.subrange(selection.1 as int, old(self)@.len() as int));
        }
        Ok(())
    }

    /// selection comes back.
    fn search_replace(
        &mut self,
        pattern: (&str, &str),
        selection: (usize, usize),
        global: bool,
    ) -> (r: Result<(usize, usize), EdError>)
    {
        if let Err(e) = self.verify_selection(selection) {
            return Err(e);
        }
        if !re_compiles(pattern.0) {
            return Err(EdError::InvalidRegex);
        }
        if global {
            let mut tmp = String::new();
            let mut k = selection.0;
            while k < selection.1
                invariant
                    selection.0 <= k <= selection.1 <= self.buffer@.len(),
                    *self == *old(self),
                    tmp@ == concat_all(self@.subrange(selection.0 as int, k as int)),
                decreases selection.1 - k,
            {
                tmp.append(self.buffer[k].as_str());
                proof {
                    lemma_concat_all_push(
                        self@.subrange(selection.0 as int, k as int),
                        self@[k as int],
                    );
                    assert(self@.subrange(selection.0 as int, k + 1) =~= self@.subrange(
                        selection.0 as int,
                        k as int,
                    ).push(self@[k as int]));
                }
                k += 1;
            }
            let mut merged = re_replace_all(pattern.0, pattern.1, tmp.as_str());
            let buf_len = self.buffer.len();
            let consumed: usize;
            if !ends_with_nl(merged.as_str()) && selection.1 < buf_len {
                let nxt = self.buffer[selection.1].clone();
                merged.append(nxt.as_str());
                consumed = selection.1 + 1;
            } else {
                consumed = selection.1;
            }
            proof {
                assert(merged@ == global_merged(old(self)@, pattern.0@, pattern.1@, selection));
                assert(consumed as int == global_consumed(
                    old(self)@,
                    pattern.0@,
                    pattern.1@,
                    selection,
                ));
            }
            let mut pieces = split_lines(merged.as_str(), true);
            self.saved = false;
            let mut tail = self.buffer.split_off(consumed);
            let _mid = self.buffer.split_off(selection.0);
            self.buffer.append(&mut pieces);
            let new_end = self.buffer.len();
            self.buffer.append(&mut tail);
            proof {
                assert(final(self)@ =~= old(self)@.subrange(0, selection.0 as int) + split_norm(
                    global_merged(old(self)@, pattern.0@, pattern.1@, selection),
                ) + old(self)@.subrange(
                    global_consumed(old(self)@, pattern.0@, pattern.1@, selection),
                    old(self)@.len() as int,
                ));
            }
            Ok((selection.0, new_end))
        } else {
            let mut m = selection.0;
            let mut found = false;
            while m < selection.1 && !found
                invariant
                    selection.0 <= m <= selection.1 <= self.buffer@.len(),
                    *self == *old(self),
                    regex_compiles(pattern.0@),
                    forall|j: int|
                        selection.0 <= j < m ==> !regex_matches(pattern.0@, self@[j]),
                    found ==> m < selection.1 && regex_matches(pattern.0@, self@[m as int]),
                decreases 2 * ((selection.1 - m) as int) + (if found {
                    0int
                } else {
                    1int
                }),
            {
                if re_is_match(pattern.0, self.buffer[m].as_str()) {
                    found = true;
                } else {
                    m += 1;
                }
            }
            proof {
                if found {
                    lemma_first_match_is(
                        self@,
                        pattern.0@,
                        selection.0 as int,
                        selection.1 as int,
                        m as int,
                    );
                } else {
                    lemma_first_match_is(
                        self@,
                        pattern.0@,
                        selection.0 as int,
                        selection.1 as int,
                        selection.1 as int,
                    );
                }
            }
            if !found {
                return Ok(selection);
            }
            let line = self.buffer[m].clone();
            let mut merged = re_replace_first(pattern.0, pattern.1, line.as_str());
            let buf_len = self.buffer.len();
            let consumed: usize;
            if ends_with_nl(merged.as_str()) {
                consumed = m + 1;
            } else if m + 1 < buf_len {
                let nxt = self.buffer[m + 1].clone();
                merged.append(nxt.as_str());
                consumed = m + 2;
            } else {
                merged.append("\n");
                proof {
                    reveal_strlit("\n");
                    assert(merged@ =~= line_merged(
                        old(self)@,
                        pattern.0@,
                        pattern.1@,
                        m as int,
                    ));
                }
                consumed = m + 1;
            }
            proof {
                assert(merged@ == line_merged(old(self)@, pattern.0@, pattern.1@, m as int));
                assert(consumed as int == line_consumed(
                    old(self)@,
                    pattern.0@,
                    pattern.1@,
                    m as int,
                ));
            }
            let mut pieces = split_lines(merged.as_str(), false);
            self.saved = false;
            let mut tail = self.buffer.split_off(consumed);
            let _mid = self.buffer.split_off(m);
            self.buffer.append(&mut pieces);
            let new_end = self.buffer.len();
            self.buffer.append(&mut tail);
            proof {
                assert(final(self)@ =~= old(self)@.subrange(0, m as int) + split_keep(
                    line_merged(old(self)@, pattern.0@, pattern.1@, m as int),
                ) + old(self)@.subrange(
                    line_consumed(old(self)@, pattern.0@, pattern.1@, m as int),
                    old(self)@.len() as int,
                ));
            }
            Ok((m, new_end))
        }
    }

    /// The indices inside the selection whose lines the pattern matches.
    fn find_matching(&self, pattern: &str, selection: (usize, usize)) -> (r: Result<
        Vec<usize>,
        EdError,
    >)
    {
        if let Err(e) = self.verify_selection(selection) {
            return Err(e);
        }
        if !re_compiles(pattern) {
            return Err(EdError::InvalidRegex);
        }
        let mut ret: Vec<usize> = Vec::new();
        let mut i = selection.0;
        while i < selection.1
            invariant
                selection.0 <= i <= selection.1 <= self.buffer@.len(),
                regex_compiles(pattern@),
                ret@ == match_indices(self@, pattern@, selection.0 as int, i as int),
            decreases selection.1 - i,
        {
            if re_is_match(pattern, self.buffer[i].as_str()) {
                ret.push(i);
            }
            proof {
                assert(ret@ =~= match_indices(self@, pattern@, selection.0 as int, i + 1));
            }
            i += 1;
        }
        Ok(ret)
    }
}


/// Law: deleting a valid selection `(s, e)` shrinks the buffer by exactly
/// `e - s` lines, and every line outside the selection keeps its content:
/// the prefix stays in place and the suffix moves down by the selection's
/// width.  The hypothesis is exactly what `delete`'s contract guarantees
/// for its `Ok` case.
pub proof fn lemma_delete_effect(
    pre: Seq<Seq<char>>,
    post: Seq<Seq<char>>,
    selection: (usize, usize),
)
    requires
        selection_ok(pre.len(), selection) is Ok,
        post == pre.subrange(0, selection.0 as int) + pre.subrange(
            selection.1 as int,
            pre.len() as int,
        ),
    ensures
        post.len() == pre.len() - (selection.1 - selection.0),
        forall|i: int| 0 <= i < selection.0 ==> post[i] == pre[i],
        forall|i: int|
            selection.0 <= i < post.len() ==> post[i] == pre[i + (selection.1 - selection.0)],
{
}

/// Law: the selection check accepts exactly the pairs `(s, e)` with
/// `s < e <= len`, for every buffer length including zero, and reports
/// an empty-or-inverted pair before an out-of-bounds end.
pub proof fn lemma_selection_check_exact(len: nat, selection: (usize, usize))
    ensures
        selection_ok(len, selection) is Ok <==> (selection.0 < selection.1 && selection.1 <= len),
        selection.0 >= selection.1 ==> selection_ok(len, selection) == Err::<(), EdError>(
            EdError::SelectionEmpty,
        ),
        selection.0 < selection.1 && selection.1 > len ==> selection_ok(len, selection) == Err::<
            (),
            EdError,
        >(EdError::IndexTooBig),
{
}

/// Law: `change(data, sel)` leaves the same buffer content as `delete(sel)`
/// followed by `insert(data, sel.0)`, for every valid selection and every
/// `data`.  The two sides are the spec-level results that the contracts of
/// `change`, `delete` and `insert` promise.
pub proof fn lemma_change_is_delete_then_insert(
    pre: Seq<Seq<char>>,
    data: Seq<Seq<char>>,
    selection: (usize, usize),
)
    requires
        selection_ok(pre.len(), selection) is Ok,
    ensures
        ({
            let after_delete = pre.subrange(0, selection.0 as int) + pre.subrange(
                selection.1 as int,
                pre.len() as int,
            );
            let after_insert = after_delete.subrange(0, selection.0 as int) + data
                + after_delete.subrange(selection.0 as int, after_delete.len() as int);
            let after_change = pre.subrange(0, selection.0 as int) + data + pre.subrange(
                selection.1 as int,
                pre.len() as int,
            );
            after_insert == after_change
        }),
{
    let after_delete = pre.subrange(0, selection.0 as int) + pre.subrange(
        selection.1 as int,
        pre.len() as int,
    );
    assert(after_delete.subrange(0, selection.0 as int) =~= pre.subrange(0, selection.0 as int));
    assert(after_delete.subrange(selection.0 as int, after_delete.len() as int) =~= pre.subrange(
        selection.1 as int,
        pre.len() as int,
    ));
}

/// Law: joining a single-line selection `(i, i + 1)` is a no-op on content
/// whenever that line carries its terminator.  (A line without one gains
/// a terminator in place of its last character, which is why the law asks
/// for the terminator.)
pub proof fn lemma_join_single_line_noop(pre: Seq<Seq<char>>, i: usize)
    requires
        i < pre.len(),
        pre[i as int].len() > 0,
        pre[i as int].last() == '\n',
    ensures
        pre.subrange(0, i as int) + seq![joined_line(pre.subrange(i as int, i + 1))]
            + pre.subrange(i + 1, pre.len() as int) == pre,
{
    let sel = pre.subrange(i as int, i + 1);
    assert(sel.drop_first() =~= Seq::<Seq<char>>::empty());
    assert(join_stripped(sel) == strip_last(pre[i as int]) + join_stripped(
        Seq::<Seq<char>>::empty(),
    ));
    assert(joined_line(sel) =~= pre[i as int]);
    assert(pre.subrange(0, i as int) + seq![joined_line(sel)] + pre.subrange(
        i + 1,
        pre.len() as int,
    ) =~= pre);
}

/// Law: for a valid selection `(s, e)` and a valid index, `mov` is refused
/// with `MoveIntoSelf` exactly when the destination lies strictly between
/// `s` and `e`; the boundaries themselves are accepted.
pub proof fn lemma_move_self_protection(len: nat, selection: (usize, usize), index: usize)
    requires
        selection_ok(len, selection) is Ok,
        index <= len,
    ensures
        selection.0 < index < selection.1 ==> move_check(len, selection, index) == Err::<
            (),
            EdError,
        >(EdError::MoveIntoSelf),
        index <= selection.0 || index >= selection.1 ==> move_check(len, selection, index) is Ok,
{
}

} // verus!
