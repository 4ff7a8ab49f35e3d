use std::ops::Range;
use vstd::prelude::*;
use vstd::string::StringSliceAdditionalSpecFns;
use vstd::utf8::{encode_utf8, is_char_boundary};

verus! {

/// A source of completion candidates for some input.
pub trait Completer {
    type Options: Default;

    /// Whether `out` is an answer the completer gives for `input`. A
    /// completer verified with the library says which candidates it finds;
    /// one written without Verus promises nothing, and any answer is its
    /// own.
    open spec fn completes(&self, input: Seq<char>, out: Seq<Seq<char>>) -> bool {
        true
    }

    /// The candidates for completing `input`.
    fn complete(&self, input: &str, opts: Self::Options) -> (r: Vec<String>)
        ensures
            self.completes(input@, strings_view(r@)),
    ;
}

/// Length in bytes of a string, as `str::len` reports it.
pub open spec fn byte_len(s: Seq<char>) -> int {
    (encode_utf8(s).len() as usize) as int
}

/// Addition that stops at the largest `usize`.
pub open spec fn sat_add(a: int, b: int) -> int {
    if a + b > usize::MAX {
        usize::MAX as int
    } else {
        a + b
    }
}

/// The abstract state of an autocompletion: the candidates being cycled
/// through with the index of the next one, and the input range the last
/// completion occupies.
pub struct AutocompleteView {
    pub completions: Option<(Seq<Seq<char>>, int)>,
    pub range: (int, int),
}

/// Cycles through completion candidates for the input before a cursor.
pub struct Autocomplete<T> {
    /// Candidates being cycled through, and the index of the next one.
    completions: Option<(Vec<String>, usize)>,
    /// Range within the input that is being completed.
    range: Range<usize>,
    /// The completer we are using to find candidates.
    completer: T,
}

pub open spec fn strings_view(v: Seq<String>) -> Seq<Seq<char>> {
    v.map_values(|s: String| s@)
}

/// The state and result after fresh candidates were found for the input
/// before `cursor`: the first candidate is offered at the cursor. When the
/// next candidate in the cycle is the same one, nothing is kept; otherwise
/// the cycle continues with the second candidate, and the offered candidate
/// occupies the range after the cursor.
pub open spec fn started(
    cands: Seq<Seq<char>>,
    cursor: int,
    old: AutocompleteView,
) -> (AutocompleteView, Option<(Seq<char>, (int, int))>) {
    if cands.len() == 0 {
        (old, None)
    } else if cands[1int % (cands.len() as int)] == cands[0] {
        (AutocompleteView { completions: None, range: (0, 0) }, Some((cands[0], (cursor, cursor))))
    } else {
        (
            AutocompleteView {
                completions: Some((cands, 1)),
                range: (cursor, sat_add(cursor, byte_len(cands[0]))),
            },
            Some((cands[0], (cursor, cursor))),
        )
    }
}

/// The state and result when cycling on to the next candidate.
pub open spec fn cycled(old: AutocompleteView) -> (AutocompleteView, Option<(Seq<char>, (int, int))>) {
    match old.completions {
        Some((cands, pos)) => {
            let c = cands[pos];
            (
                AutocompleteView {
                    completions: Some((cands, (pos + 1) % cands.len() as int)),
                    range: (old.range.0, sat_add(old.range.0, byte_len(c))),
                },
                Some((c, old.range)),
            )
        },
        None => (old, None),
    }
}

/// The state after cycling `k` times from `st`.
pub open spec fn cycled_times(st: AutocompleteView, k: nat) -> AutocompleteView
    decreases k,
{
    if k == 0 {
        st
    } else {
        cycled(cycled_times(st, (k - 1) as nat)).0
    }
}

/// Once fresh candidates, of which the first two differ, were offered at
/// `cursor`, each further call offers the next candidate in turn, going
/// round them, in place of the one offered before.
pub proof fn law_cycling(cands: Seq<Seq<char>>, cursor: int, old: AutocompleteView, k: nat)
    requires
        cands.len() >= 2,
        cands[1] != cands[0],
    ensures
        ({
            let st = cycled_times(started(cands, cursor, old).0, k);
            let n = cands.len() as int;
            &&& st == (AutocompleteView {
                completions: Some((cands, (k as int + 1) % n)),
                range: (cursor, sat_add(cursor, byte_len(cands[(k as int) % n]))),
            })
            &&& k >= 1 ==> cycled(cycled_times(started(cands, cursor, old).0, (k - 1) as nat)).1 == Some(
                (cands[(k as int) % n], (cursor, sat_add(cursor, byte_len(cands[(k - 1) % n])))),
            )
        }),
    decreases k,
{
    let n = cands.len() as int;
    vstd::arithmetic::div_mod::lemma_small_mod(1, n as nat);
    if k == 0 {
        vstd::arithmetic::div_mod::lemma_small_mod(0, n as nat);
    } else {
        law_cycling(cands, cursor, old, (k - 1) as nat);
        vstd::arithmetic::div_mod::lemma_add_mod_noop(k as int, 1, n);
        vstd::arithmetic::div_mod::lemma_add_mod_noop((k - 1) as int, 1, n);
        vstd::arithmetic::div_mod::lemma_mod_bound(k as int, n);
        vstd::arithmetic::div_mod::lemma_mod_bound((k + 1) as int, n);
    }
}

pub open spec fn result_view(r: Option<(String, Range<usize>)>) -> Option<(Seq<char>, (int, int))> {
    match r {
        Some((s, range)) => Some((s@, (range.start as int, range.end as int))),
        None => None,
    }
}

impl<T: Completer> Autocomplete<T> {
    pub closed spec fn state(&self) -> AutocompleteView {
        AutocompleteView {
            completions: match self.completions {
                Some((v, pos)) => Some((strings_view(v@), pos as int)),
                None => None,
            },
            range: (self.range.start as int, self.range.end as int),
        }
    }

    /// The completer that finds the candidates.
    pub closed spec fn completer_view(&self) -> T {
        self.completer
    }

    pub closed spec fn wf(&self) -> bool {
        match self.completions {
            Some((v, pos)) => v@.len() >= 2 && pos < v@.len(),
            None => true,
        }
    }

    pub fn new(completer: T) -> (a: Self)
        ensures
            a.completer_view() == completer,
            a.wf(),
            a.state() == (AutocompleteView { completions: None, range: (0, 0) }),
    {
        Self { completions: None, range: Range { start: 0, end: 0 }, completer }
    }

    /// Forget the candidates.
    pub fn invalidate(&mut self)
        ensures
            final(self).completer_view() == old(self).completer_view(),
            final(self).wf(),
            final(self).state() == (AutocompleteView { completions: None, range: (0, 0) }),
    {
        self.completions = None;
        self.range = Range { start: 0, end: 0 };
    }

    /// Offer the next completion, with the input range it replaces. Without
    /// candidates, the completer is asked for candidates for the input before
    /// the cursor, and what is offered follows `start`.
    pub fn next(&mut self, input: &str, cursor: usize) -> (r: Option<(String, Range<usize>)>)
        requires
            old(self).wf(),
            is_char_boundary(input.spec_bytes(), cursor as int),
        ensures
            final(self).wf(),
            old(self).state().completions is Some ==> (final(self).state(), result_view(r)) == cycled(
                old(self).state(),
            ),
            old(self).state().completions is None ==> exists|prefix: Seq<char>, cands: Seq<Seq<char>>|
                #![trigger old(self).completer_view().completes(prefix, cands)]
                encode_utf8(prefix) == input.spec_bytes().subrange(0, cursor as int) && old(self).completer_view().completes(prefix, cands)
                    && (final(self).state(), result_view(r)) == started(cands, cursor as int, old(self).state()),
            final(self).completer_view() == old(self).completer_view(),
    {
        let current = self.completions.take();
        match current {
            Some((cands, pos)) => {
                let completion = cands[pos].clone();
                let n = cands.len();
                let next_pos = if pos + 1 < n { pos + 1 } else { 0 };
                proof {
                    if pos + 1 < n {
                        vstd::arithmetic::div_mod::lemma_small_mod((pos + 1) as nat, n as nat);
                    } else {
                        vstd::arithmetic::div_mod::lemma_mod_self_0(n as int);
                    }
                }
                let range = Range { start: self.range.start, end: self.range.end };
                let len = completion.as_str().len();
                self.range = Range { start: self.range.start, end: self.range.start.saturating_add(len) };
                self.completions = Some((cands, next_pos));
                Some((completion, range))
            },
            None => {
                let (prefix, _) = input.split_at(cursor);
                let candidates = self.completer.complete(prefix, T::Options::default());
                self.start(candidates, cursor)
            },
        }
    }

    /// Offer the first of freshly found candidates, as `started` says.
    pub fn start(&mut self, candidates: Vec<String>, cursor: usize) -> (r: Option<(String, Range<usize>)>)
        requires
            old(self).wf(),
        ensures
            final(self).wf(),
            final(self).completer_view() == old(self).completer_view(),
            (final(self).state(), result_view(r)) == started(strings_view(candidates@), cursor as int, old(self).state()),
    {
        let n = candidates.len();
        if n == 0 {
            return None;
        }
        let first = candidates[0].clone();
        let second_index: usize = if n > 1 { 1 } else { 0 };
        proof {
            if n > 1 {
                vstd::arithmetic::div_mod::lemma_small_mod(1, n as nat);
            } else {
                vstd::arithmetic::div_mod::lemma_mod_self_0(1);
            }
        }
        if candidates[second_index] == first {
            self.invalidate();
        } else {
            let len = first.as_str().len();
            self.range = Range { start: cursor, end: cursor.saturating_add(len) };
            self.completions = Some((candidates, 1));
        }
        Some((first, Range { start: cursor, end: cursor }))
    }
}

} // verus!
