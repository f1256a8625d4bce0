//! Flag parsing: a command's trailing flag characters are checked against
//! the set the command permits; unknown flags and repeated flags are hard
//! errors.

use crate::error::EdError;
use crate::text::trim_of;
use vstd::prelude::*;

verus! {

/// Lookup in an association list; the first pair with the key wins.
pub open spec fn seq_get(pairs: Seq<(char, bool)>, c: char) -> Option<bool>
    decreases pairs.len(),
{
    if pairs.len() == 0 {
        None
    } else if pairs[0].0 == c {
        Some(pairs[0].1)
    } else {
        seq_get(pairs.drop_first(), c)
    }
}

proof fn lemma_seq_get_push(pairs: Seq<(char, bool)>, p: (char, bool), c: char)
    ensures
        seq_get(pairs.push(p), c) == (if seq_get(pairs, c) is Some {
            seq_get(pairs, c)
        } else if p.0 == c {
            Some(p.1)
        } else {
            None::<bool>
        }),
    decreases pairs.len(),
{
    if pairs.len() == 0 {
        assert(pairs.push(p).drop_first() =~= Seq::<(char, bool)>::empty());
        assert(pairs.push(p)[0] == p);
        assert(seq_get(Seq::<(char, bool)>::empty(), c) is None);
    } else {
        assert(pairs.push(p).drop_first() =~= pairs.drop_first().push(p));
        assert(pairs.push(p)[0] == pairs[0]);
        lemma_seq_get_push(pairs.drop_first(), p, c);
    }
}

proof fn lemma_seq_get_update(pairs: Seq<(char, bool)>, j: int, nb: bool, c: char)
    requires
        0 <= j < pairs.len(),
        forall|k: int| 0 <= k < j ==> (#[trigger] pairs[k]).0 != pairs[j].0,
    ensures
        seq_get(pairs.update(j, (pairs[j].0, nb)), pairs[j].0) == Some(nb),
        c != pairs[j].0 ==> seq_get(pairs.update(j, (pairs[j].0, nb)), c) == seq_get(pairs, c),
    decreases pairs.len(),
{
    let p2 = pairs.update(j, (pairs[j].0, nb));
    if j == 0 {
        assert(p2.drop_first() =~= pairs.drop_first());
    } else {
        assert(p2.drop_first() =~= pairs.drop_first().update(j - 1, (pairs[j].0, nb)));
        assert(pairs.drop_first()[j - 1] == pairs[j]);
        lemma_seq_get_update(pairs.drop_first(), j - 1, nb, c);
    }
}

/// Membership in a prefix one longer: the old prefix, or the new element.
proof fn lemma_contains_step(s: Seq<char>, i: int, d: char)
    requires
        0 <= i < s.len(),
    ensures
        s.subrange(0, i + 1).contains(d) <==> (s.subrange(0, i).contains(d) || s[i] == d),
{
    let a = s.subrange(0, i);
    let b = s.subrange(0, i + 1);
    assert(b =~= a.push(s[i]));
    if a.contains(d) {
        let k = choose|k: int| #![trigger a[k]] 0 <= k < a.len() && a[k] == d;
        assert(b[k] == d);
    }
    if s[i] == d {
        assert(b[i] == d);
    }
    if b.contains(d) {
        let k = choose|k: int| #![trigger b[k]] 0 <= k < b.len() && b[k] == d;
        if k < i {
            assert(a[k] == d);
        }
    }
}

/// The result of flag parsing: for every permitted flag, whether it was
/// present.  Asking about a character outside the permitted set gives
/// nothing.
#[derive(Debug)]
pub struct FlagMap {
    pairs: Vec<(char, bool)>,
}

impl FlagMap {
    /// What this map answers for each character.
    pub closed spec fn spec_get(&self, c: char) -> Option<bool> {
        seq_get(self.pairs@, c)
    }

    /// Whether `flag` was present, or `None` when it was not permitted.
    pub fn get(&self, flag: char) -> (r: Option<bool>)
        ensures
            r == self.spec_get(flag),
    {
        let mut j: usize = 0;
        let len = self.pairs.len();
        proof {
            assert(self.pairs@.subrange(0, len as int) =~= self.pairs@);
        }
        while j < len
            invariant
                0 <= j <= len == self.pairs@.len(),
                seq_get(self.pairs@, flag) == seq_get(
                    self.pairs@.subrange(j as int, len as int),
                    flag,
                ),
            decreases len - j,
        {
            let p = self.pairs[j];
            proof {
                assert(self.pairs@.subrange(j as int, len as int)[0] == self.pairs@[j as int]);
                assert(self.pairs@.subrange(j as int, len as int).drop_first() =~= self.pairs@.subrange(
                    j + 1,
                    len as int,
                ));
            }
            if p.0 == flag {
                return Some(p.1);
            }
            j += 1;
        }
        proof {
            assert(self.pairs@.subrange(len as int, len as int) =~= Seq::<(char, bool)>::empty());
        }
        None
    }

    /// Like `get`, but a missing flag counts as absent.
    pub fn is_set(&self, flag: char) -> (r: bool)
        ensures
            r == (self.spec_get(flag) == Some(true)),
    {
        match self.get(flag) {
            Some(b) => b,
            None => false,
        }
    }
}

/// One scanning step per input character: a character outside the
/// permitted set is an unknown flag, one seen before is a duplicate.
pub open spec fn flag_scan(
    s: Seq<char>,
    allowed: Seq<char>,
    i: int,
    seen: Set<char>,
) -> Option<EdError>
    decreases s.len() - i,
{
    if i < 0 || i >= s.len() {
        None
    } else if !allowed.contains(s[i]) {
        Some(EdError::UndefinedFlag)
    } else if seen.contains(s[i]) {
        Some(EdError::DuplicateFlag)
    } else {
        flag_scan(s, allowed, i + 1, seen.insert(s[i]))
    }
}

/// Check the flag characters of `input` (surrounding whitespace ignored)
/// against the permitted set `flag_list`.  Every permitted flag maps to
/// whether it occurred; an unknown flag is `UndefinedFlag`, a repeated one
/// `DuplicateFlag`, whichever is hit first while scanning.
pub fn parse_flags(input: &str, flag_list: &str) -> (r: Result<FlagMap, EdError>)
    ensures
        ({
            let t = trim_of(input@);
            &&& (r is Ok <==> flag_scan(t, flag_list@, 0, Set::empty()) is None)
            &&& (r matches Err(e) ==> Some(e) == flag_scan(t, flag_list@, 0, Set::empty()))
            &&& (r matches Ok(m) ==> forall|c: char|
                #[trigger] m.spec_get(c) == (if flag_list@.contains(c) {
                    Some(t.contains(c))
                } else {
                    None::<bool>
                }))
        }),
{
    let ghost t = trim_of(input@);
    // Build the map of permitted flags, all absent.
    let mut map = FlagMap { pairs: Vec::new() };
    let fl_len = flag_list.unicode_len();
    let mut j: usize = 0;
    while j < fl_len
        invariant
            0 <= j <= fl_len == flag_list@.len(),
            forall|c: char|
                #[trigger] seq_get(map.pairs@, c) == (if flag_list@.subrange(0, j as int).contains(
                    c,
                ) {
                    Some(false)
                } else {
                    None::<bool>
                }),
        decreases fl_len - j,
    {
        let c = flag_list.get_char(j);
        let present = map.get(c);
        if present.is_none() {
            let ghost oldpairs = map.pairs@;
            map.pairs.push((c, false));
            proof {
                assert forall|d: char| #[trigger]
                    seq_get(map.pairs@, d) == (if flag_list@.subrange(0, j + 1).contains(d) {
                        Some(false)
                    } else {
                        None::<bool>
                    }) by {
                    lemma_seq_get_push(oldpairs, (c, false), d);
                    lemma_contains_step(flag_list@, j as int, d);
                }
            }
        } else {
            proof {
                assert forall|d: char| #[trigger]
                    seq_get(map.pairs@, d) == (if flag_list@.subrange(0, j + 1).contains(d) {
                        Some(false)
                    } else {
                        None::<bool>
                    }) by {
                    lemma_contains_step(flag_list@, j as int, d);
                }
            }
        }
        j += 1;
    }
    proof {
        assert(flag_list@.subrange(0, fl_len as int) =~= flag_list@);
    }
    // Locate the trimmed span of the input.
    let (a, b) = crate::text::trim_span(input);
    proof {
        assert(t == input@.subrange(a as int, b as int));
    }
    // Scan the flags, recording each or failing on the first bad one.
    let ghost allowed = flag_list@;
    let mut i = a;
    let ghost seen0 = Set::<char>::empty();
    let ghost mut seen = seen0;
    while i < b
        invariant
            a <= i <= b <= input@.len(),
            t == trim_of(input@),
            t == input@.subrange(a as int, b as int),
            seen0 == Set::<char>::empty(),
            allowed == flag_list@,
            flag_scan(t, allowed, 0, seen0) == flag_scan(t, allowed, i - a, seen),
            forall|d: char| #[trigger] seen.contains(d) <==> seq_get(map.pairs@, d) == Some(true),
            forall|c: char|
                #[trigger] seq_get(map.pairs@, c) == (if allowed.contains(c) {
                    Some(t.subrange(0, i - a).contains(c))
                } else {
                    None::<bool>
                }),
        decreases b - i,
    {
        let c = input.get_char(i);
        proof {
            assert(t[i - a] == c);
        }
        // Find the flag's slot.
        let mut j: usize = 0;
        let len = map.pairs.len();
        let mut slot: Option<usize> = None;
        while j < len && slot.is_none()
            invariant
                0 <= j <= len == map.pairs@.len(),
                slot is None ==> forall|k: int| 0 <= k < j ==> (#[trigger] map.pairs@[k]).0 != c,
                slot matches Some(sj) ==> sj < len && map.pairs@[sj as int].0 == c && forall|
                    k: int,
                |
                    0 <= k < sj ==> (#[trigger] map.pairs@[k]).0 != c,
            decreases len - j + (if slot is None {
                1int
            } else {
                0int
            }),
        {
            if map.pairs[j].0 == c {
                slot = Some(j);
            } else {
                j += 1;
            }
        }
        match slot {
            None => {
                proof {
                    assert(seq_get(map.pairs@, c) is None) by {
                        lemma_seq_get_none(map.pairs@, c);
                    };
                    assert(!allowed.contains(c));
                    assert(t.len() == b - a);
                    assert(flag_scan(t, allowed, i - a, seen) == Some(EdError::UndefinedFlag));
                }
                return Err(EdError::UndefinedFlag);
            },
            Some(sj) => {
                let p = map.pairs[sj];
                proof {
                    lemma_seq_get_at(map.pairs@, sj as int);
                    assert(seq_get(map.pairs@, c) == Some(p.1));
                    assert(allowed.contains(c));
                }
                if p.1 {
                    proof {
                        assert(seen.contains(c));
                        assert(t.len() == b - a);
                        assert(flag_scan(t, allowed, i - a, seen) == Some(EdError::DuplicateFlag));
                    }
                    return Err(EdError::DuplicateFlag);
                }
                proof {
                    assert(!seen.contains(c));
                }
                let ghost oldpairs = map.pairs@;
                let entry = map.pairs.remove(sj);
                map.pairs.insert(sj, (entry.0, true));
                proof {
                    assert(map.pairs@ =~= oldpairs.update(sj as int, (c, true)));
                    assert forall|d: char| #[trigger]
                        seq_get(map.pairs@, d) == (if allowed.contains(d) {
                            Some(t.subrange(0, i - a + 1).contains(d))
                        } else {
                            None::<bool>
                        }) by {
                        lemma_seq_get_update(oldpairs, sj as int, true, d);
                        lemma_contains_step(t, i - a, d);
                    }
                    seen = seen.insert(c);
                    assert forall|d: char| #[trigger] seen.contains(d) <==> seq_get(
                        map.pairs@,
                        d,
                    ) == Some(true) by {
                        lemma_seq_get_update(oldpairs, sj as int, true, d);
                    }
                }
            },
        }
        i += 1;
    }
    proof {
        assert(t.subrange(0, b - a) =~= t);
    }
    Ok(map)
}

proof fn lemma_seq_get_none(pairs: Seq<(char, bool)>, c: char)
    requires
        forall|k: int| 0 <= k < pairs.len() ==> (#[trigger] pairs[k]).0 != c,
    ensures
        seq_get(pairs, c) is None,
    decreases pairs.len(),
{
    if pairs.len() > 0 {
        assert forall|k: int| 0 <= k < pairs.drop_first().len() implies (#[trigger] pairs.drop_first()[k]).0
            != c by {
            assert(pairs.drop_first()[k] == pairs[k + 1]);
        }
        lemma_seq_get_none(pairs.drop_first(), c);
    }
}

proof fn lemma_seq_get_at(pairs: Seq<(char, bool)>, j: int)
    requires
        0 <= j < pairs.len(),
        forall|k: int| 0 <= k < j ==> (#[trigger] pairs[k]).0 != pairs[j].0,
    ensures
        seq_get(pairs, pairs[j].0) == Some(pairs[j].1),
    decreases j,
{
    if j > 0 {
        assert(pairs.drop_first()[j - 1] == pairs[j]);
        assert forall|k: int| 0 <= k < j - 1 implies (#[trigger] pairs.drop_first()[k]).0
            != pairs.drop_first()[j - 1].0 by {
            assert(pairs.drop_first()[k] == pairs[k + 1]);
        }
        lemma_seq_get_at(pairs.drop_first(), j - 1);
    }
}

} // verus!
