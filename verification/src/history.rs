use std::collections::VecDeque;
use vstd::prelude::*;

verus! {

/// Command history of the command line. The most recent entry comes first.
pub struct History {
    /// History path.
    pub path: String,
    /// The history of commands entered.
    entries: VecDeque<String>,
    /// The current cursor into the history.
    cursor: Option<usize>,
    /// Maximum number of entries.
    capacity: usize,
}

/// The entries after adding `s` to `entries`, keeping at most `capacity`.
pub open spec fn added(entries: Seq<Seq<char>>, s: Seq<char>, capacity: nat) -> Seq<Seq<char>> {
    if entries.len() > 0 && entries[0] == s {
        entries
    } else {
        let pushed = seq![s] + entries;
        if capacity < pushed.len() {
            pushed.subrange(0, capacity as int)
        } else {
            pushed
        }
    }
}

/// Cursor position after moving to the next (older to newer) entry.
pub open spec fn next_cursor(cursor: Option<usize>, len: nat) -> int {
    match cursor {
        None => len - 1,
        Some(i) => if i == 0 { len - 1 } else { i - 1 },
    }
}

/// Cursor position after moving to the previous (newer to older) entry.
pub open spec fn prev_cursor(cursor: Option<usize>, len: nat) -> int {
    match cursor {
        None => 0,
        Some(i) => (i + 1) % (len as int),
    }
}

/// The entry at `index`, if any.
pub open spec fn entry_at(entries: Seq<Seq<char>>, index: int) -> Option<Seq<char>> {
    if 0 <= index < entries.len() {
        Some(entries[index])
    } else {
        None
    }
}

pub open spec fn opt_str_view(o: Option<&str>) -> Option<Seq<char>> {
    match o {
        Some(s) => Some(s@),
        None => None,
    }
}

impl History {
    /// The entries, most recent first.
    pub closed spec fn entries(&self) -> Seq<Seq<char>> {
        self.entries@.map_values(|e: String| e@)
    }

    pub closed spec fn cursor(&self) -> Option<usize> {
        self.cursor
    }

    pub closed spec fn path_view(&self) -> Seq<char> {
        self.path@
    }

    pub closed spec fn capacity(&self) -> nat {
        self.capacity as nat
    }

    pub fn new(path: &str, capacity: usize) -> (h: Self)
        ensures
            h.entries() == Seq::<Seq<char>>::empty(),
            h.cursor() == None::<usize>,
            h.capacity() == capacity,
            h.path_view() == path@,
            h.entries().len() <= h.capacity(),
    {
        Self { entries: VecDeque::new(), cursor: None, capacity, path: path.to_owned() }
    }

    /// Add an entry at the front, unless it is equal to the most recent one.
    /// The history is then cut down to its capacity.
    pub fn add(&mut self, s: &str)
        ensures
            final(self).entries() == added(old(self).entries(), s@, old(self).capacity()),
            old(self).entries().len() <= old(self).capacity()
                ==> final(self).entries().len() <= final(self).capacity(),
            final(self).cursor() == old(self).cursor(),
            final(self).capacity() == old(self).capacity(),
            final(self).path_view() == old(self).path_view(),
    {
        let entry: String = s.to_owned();
        let ghost old_entries = self.entries();
        let len = self.entries.len();
        if len > 0 && self.entries[0] == entry {
            assert(self.entries@[0]@ == old_entries[0]);
        } else {
            self.entries.push_front(entry);
            self.entries.truncate(self.capacity);
            assert(self.entries() =~= added(old_entries, s@, self.capacity as nat));
        }
    }

    /// Reset the cursor.
    pub fn reset(&mut self)
        ensures
            old(self).entries().len() <= old(self).capacity() ==> final(self).entries().len() <= final(self).capacity(),
            final(self).cursor() == None::<usize>,
            final(self).entries() == old(self).entries(),
            final(self).capacity() == old(self).capacity(),
            final(self).path_view() == old(self).path_view(),
    {
        self.cursor = None;
    }

    /// Remove all entries.
    pub fn clear(&mut self)
        ensures
            final(self).entries() == Seq::<Seq<char>>::empty(),
            final(self).entries().len() <= final(self).capacity(),
            final(self).cursor() == old(self).cursor(),
            final(self).capacity() == old(self).capacity(),
            final(self).path_view() == old(self).path_view(),
    {
        self.entries.clear();
        assert(self.entries() =~= Seq::<Seq<char>>::empty());
    }

    pub fn len(&self) -> (n: usize)
        ensures
            n == self.entries().len(),
    {
        self.entries.len()
    }

    pub fn is_empty(&self) -> (b: bool)
        ensures
            b == (self.entries().len() == 0),
    {
        self.entries.len() == 0
    }

    /// Move the cursor towards the more recent entries, wrapping around
    /// to the oldest, and return the entry under it.
    pub fn next(&mut self) -> (r: Option<&str>)
        ensures
            old(self).entries().len() <= old(self).capacity() ==> final(self).entries().len() <= final(self).capacity(),
            old(self).entries().len() == 0 ==> r.is_none() && final(self).cursor() == old(self).cursor(),
            old(self).entries().len() > 0 ==> {
                &&& final(self).cursor() == Some(next_cursor(old(self).cursor(), old(self).entries().len()) as usize)
                &&& opt_str_view(r) == entry_at(old(self).entries(), next_cursor(old(self).cursor(), old(self).entries().len()))
            },
            final(self).entries() == old(self).entries(),
            final(self).capacity() == old(self).capacity(),
            final(self).path_view() == old(self).path_view(),
    {
        if self.is_empty() {
            return None;
        }
        let cursor = match self.cursor {
            None => self.len() - 1,
            Some(i) => if i == 0 { self.len() - 1 } else { i - 1 },
        };
        self.cursor = Some(cursor);
        self.get(cursor)
    }

    /// Move the cursor towards the older entries, wrapping around to the
    /// most recent, and return the entry under it.
    pub fn prev(&mut self) -> (r: Option<&str>)
        requires
            old(self).cursor() != Some(usize::MAX),
        ensures
            old(self).entries().len() <= old(self).capacity() ==> final(self).entries().len() <= final(self).capacity(),
            old(self).entries().len() == 0 ==> r.is_none() && final(self).cursor() == old(self).cursor(),
            old(self).entries().len() > 0 ==> {
                &&& final(self).cursor() == Some(prev_cursor(old(self).cursor(), old(self).entries().len()) as usize)
                &&& opt_str_view(r) == entry_at(old(self).entries(), prev_cursor(old(self).cursor(), old(self).entries().len()))
            },
            final(self).entries() == old(self).entries(),
            final(self).capacity() == old(self).capacity(),
            final(self).path_view() == old(self).path_view(),
    {
        if self.is_empty() {
            return None;
        }
        let cursor = match self.cursor {
            None => 0,
            Some(i) => (i + 1) % self.len(),
        };
        proof {
            vstd::arithmetic::div_mod::lemma_mod_bound((cursor as int), self.entries().len() as int);
        }
        self.cursor = Some(cursor);
        self.get(cursor)
    }

    /// The entry at `index`, counting from the most recent.
    pub fn get(&self, index: usize) -> (r: Option<&str>)
        ensures
            opt_str_view(r) == entry_at(self.entries(), index as int),
    {
        if index < self.entries.len() {
            Some(self.entries[index].as_str())
        } else {
            None
        }
    }
}

/// Moving the cursor back and then forward again lands on the entry where
/// it started.
pub proof fn law_prev_then_next(i: usize, len: nat)
    requires
        i < len,
        len <= usize::MAX,
    ensures
        next_cursor(Some(prev_cursor(Some(i), len) as usize), len) == i,
{
    if i + 1 < len {
        vstd::arithmetic::div_mod::lemma_small_mod((i + 1) as nat, len);
    } else {
        vstd::arithmetic::div_mod::lemma_mod_self_0(len as int);
    }
}

/// Moving the cursor forward and then back again lands on the entry where
/// it started.
pub proof fn law_next_then_prev(i: usize, len: nat)
    requires
        i < len,
        len <= usize::MAX,
    ensures
        prev_cursor(Some(next_cursor(Some(i), len) as usize), len) == i,
{
    if i == 0 {
        vstd::arithmetic::div_mod::lemma_mod_self_0(len as int);
    } else {
        vstd::arithmetic::div_mod::lemma_small_mod(i as nat, len);
    }
}

/// The entries after adding each line in turn, as loading a history file
/// does.
pub open spec fn loaded(entries: Seq<Seq<char>>, lines: Seq<Seq<char>>, capacity: nat) -> Seq<Seq<char>>
    decreases lines.len(),
{
    if lines.len() == 0 {
        entries
    } else {
        loaded(added(entries, lines[0], capacity), lines.drop_first(), capacity)
    }
}

impl History {
    /// The lines of the history file: the entries, oldest first.
    pub fn save_lines(&self) -> (lines: Vec<String>)
        ensures
            lines@.map_values(|l: String| l@) == self.entries().reverse(),
    {
        let mut lines: Vec<String> = Vec::new();
        let n = self.entries.len();
        let mut i: usize = n;
        while i > 0
            invariant
                n == self.entries@.len(),
                i <= n,
                lines@.map_values(|l: String| l@) == self.entries().skip(i as int).reverse(),
            decreases i,
        {
            i = i - 1;
            let ghost l0 = lines@;
            let e = self.entries[i].clone();
            lines.push(e);
            proof {
                assert(lines@ == l0.push(e));
                assert(self.entries()[i as int] == self.entries@[i as int]@);
                assert(lines@.map_values(|l: String| l@) =~= l0.map_values(|l: String| l@).push(e@));
                assert(self.entries().skip(i as int).reverse() =~= self.entries().skip(i + 1).reverse().push(
                    self.entries()[i as int],
                ));
            }
        }
        assert(self.entries().skip(0) =~= self.entries());
        lines
    }

    /// Add the lines of a history file, in turn.
    pub fn load_lines(&mut self, lines: &[String])
        ensures
            old(self).entries().len() <= old(self).capacity() ==> final(self).entries().len() <= final(self).capacity(),
            final(self).entries() == loaded(old(self).entries(), lines@.map_values(|l: String| l@), old(self).capacity()),
            final(self).cursor() == old(self).cursor(),
            final(self).capacity() == old(self).capacity(),
            final(self).path_view() == old(self).path_view(),
    {
        let ghost ls = lines@.map_values(|l: String| l@);
        let ghost e0 = self.entries();
        let mut i: usize = 0;
        assert(ls.skip(0) =~= ls);
        while i < lines.len()
            invariant
                i <= lines@.len(),
                ls == lines@.map_values(|l: String| l@),
                loaded(e0, ls, self.capacity as nat) == loaded(self.entries(), ls.skip(i as int), self.capacity as nat),
                self.cursor == old(self).cursor,
                self.capacity == old(self).capacity,
                self.path@ == old(self).path@,
                old(self).entries().len() <= old(self).capacity() ==> self.entries().len() <= self.capacity(),
            decreases lines@.len() - i,
        {
            proof {
                assert(ls.skip(i as int)[0] == lines@[i as int]@);
                assert(ls.skip(i as int).drop_first() =~= ls.skip(i + 1));
            }
            self.add(lines[i].as_str());
            i = i + 1;
        }
        assert(ls.skip(i as int) =~= Seq::<Seq<char>>::empty());
        assert(ls.skip(0) =~= ls);
    }
}

/// Whether no entry repeats the one before it, as adding entries ensures.
pub open spec fn no_repeats(e: Seq<Seq<char>>) -> bool {
    forall|i: int| 0 <= i < e.len() - 1 ==> #[trigger] e[i] != e[i + 1]
}

/// Saving a history and loading the saved lines into an empty history of
/// the same capacity gives back the same entries.
/// Adding entries, one by one, keeps a history within its capacity.
pub proof fn law_within_capacity(entries: Seq<Seq<char>>, lines: Seq<Seq<char>>, capacity: nat)
    requires
        entries.len() <= capacity,
    ensures
        added(entries, if lines.len() > 0 { lines[0] } else { Seq::empty() }, capacity).len() <= capacity,
        loaded(entries, lines, capacity).len() <= capacity,
    decreases lines.len(),
{
    if lines.len() > 0 {
        law_within_capacity(added(entries, lines[0], capacity), lines.drop_first(), capacity);
    }
}

/// Where the cursor stands after `k` moves to older entries from none.
pub open spec fn prevs(len: nat, k: nat) -> int
    decreases k,
{
    if k <= 1 {
        prev_cursor(None, len)
    } else {
        prev_cursor(Some(prevs(len, (k - 1) as nat) as usize), len)
    }
}

/// Where the cursor stands after `k` moves to newer entries from none.
pub open spec fn nexts(len: nat, k: nat) -> int
    decreases k,
{
    if k <= 1 {
        next_cursor(None, len)
    } else {
        next_cursor(Some(nexts(len, (k - 1) as nat) as usize), len)
    }
}

/// Moving to older entries `k` times from none gives the entry `(k - 1) % len`,
/// and moving to newer entries gives the entry `len - 1 - (k - 1) % len`:
/// both go round the history.
pub proof fn law_cycling(len: nat, k: nat)
    requires
        1 <= len <= usize::MAX,
        k >= 1,
    ensures
        prevs(len, k) == (k - 1) % (len as int),
        nexts(len, k) == len - 1 - (k - 1) % (len as int),
    decreases k,
{
    if k == 1 {
        vstd::arithmetic::div_mod::lemma_small_mod(0, len);
    } else {
        law_cycling(len, (k - 1) as nat);
        let j = (k - 2) % (len as int);
        vstd::arithmetic::div_mod::lemma_mod_bound((k - 2) as int, len as int);
        vstd::arithmetic::div_mod::lemma_add_mod_noop((k - 2) as int, 1, len as int);
        assert(prevs(len, k) == (j + 1) % (len as int));
        if len > 1 {
            vstd::arithmetic::div_mod::lemma_small_mod(1, len);
        } else {
            vstd::arithmetic::div_mod::lemma_mod_bound((j + 1) as int, 1);
            vstd::arithmetic::div_mod::lemma_mod_bound((k - 1) as int, 1);
        }
        // Newer: from len - 1 - j, one step down, wrapping at 0.
        if j + 1 < len {
            vstd::arithmetic::div_mod::lemma_small_mod((j + 1) as nat, len);
        } else {
            vstd::arithmetic::div_mod::lemma_mod_self_0(len as int);
        }
    }
}

pub proof fn law_save_then_load(e: Seq<Seq<char>>, capacity: nat)
    requires
        no_repeats(e),
        e.len() <= capacity,
    ensures
        loaded(Seq::empty(), e.reverse(), capacity) == e,
{
    lemma_load_suffix(e, capacity, e.len() as int);
    assert(e.skip(e.len() as int) =~= Seq::<Seq<char>>::empty());
    assert(e.take(e.len() as int) =~= e);
}

proof fn lemma_load_suffix(e: Seq<Seq<char>>, capacity: nat, k: int)
    requires
        no_repeats(e),
        e.len() <= capacity,
        0 <= k <= e.len(),
    ensures
        loaded(e.skip(k), e.take(k).reverse(), capacity) == e,
    decreases k,
{
    if k == 0 {
        assert(e.skip(0) =~= e);
        assert(e.take(0).reverse() =~= Seq::<Seq<char>>::empty());
    } else {
        let lines = e.take(k).reverse();
        assert(lines[0] == e[k - 1]);
        assert(lines.drop_first() =~= e.take(k - 1).reverse());
        let s = e.skip(k);
        if s.len() > 0 {
            assert(s[0] == e[k]);
            assert(e[k - 1] != e[k]);
        }
        assert(seq![e[k - 1]] + s =~= e.skip(k - 1));
        assert(added(s, e[k - 1], capacity) == e.skip(k - 1));
        lemma_load_suffix(e, capacity, k - 1);
    }
}

/// Adding an entry never makes an entry repeat the one before it.
pub proof fn law_add_no_repeats(entries: Seq<Seq<char>>, s: Seq<char>, capacity: nat)
    requires
        no_repeats(entries),
    ensures
        no_repeats(added(entries, s, capacity)),
{
    let r = added(entries, s, capacity);
    if !(entries.len() > 0 && entries[0] == s) {
        let pushed = seq![s] + entries;
        assert forall|i: int| 0 <= i < r.len() - 1 implies #[trigger] r[i] != r[i + 1] by {
            assert(r[i] == pushed[i] && r[i + 1] == pushed[i + 1]);
            if i > 0 {
                assert(pushed[i] == entries[i - 1] && pushed[i + 1] == entries[i]);
            }
        }
    }
}

} // verus!
