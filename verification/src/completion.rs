use crate::autocomplete::strings_view;
use crate::text::{chars_of, push_char, string_from_chars};
use crate::view::path::eq_chars;
use vstd::prelude::*;

verus! {

broadcast use vstd::seq_lib::group_to_multiset_ensures;

/// Options of file completion.
#[derive(Clone, Copy, Debug, Default)]
pub struct FileCompleterOpts {
    /// Only complete directories.
    pub directories: bool,
}

/// Lexicographic order of strings, character by character.
pub open spec fn lex_le(a: Seq<char>, b: Seq<char>) -> bool
    decreases a.len(),
{
    if a.len() == 0 {
        true
    } else if b.len() == 0 {
        false
    } else if a[0] < b[0] {
        true
    } else if a[0] > b[0] {
        false
    } else {
        lex_le(a.drop_first(), b.drop_first())
    }
}

proof fn lemma_lex_total(a: Seq<char>, b: Seq<char>)
    ensures
        lex_le(a, b) || lex_le(b, a),
    decreases a.len(),
{
    if a.len() > 0 && b.len() > 0 && a[0] == b[0] {
        lemma_lex_total(a.drop_first(), b.drop_first());
    }
}

proof fn lemma_lex_trans(a: Seq<char>, b: Seq<char>, c: Seq<char>)
    requires
        lex_le(a, b),
        lex_le(b, c),
    ensures
        lex_le(a, c),
    decreases a.len(),
{
    if a.len() > 0 && b.len() > 0 && c.len() > 0 && a[0] == b[0] && b[0] == c[0] {
        lemma_lex_trans(a.drop_first(), b.drop_first(), c.drop_first());
    }
}

/// Compare two strings lexicographically.
pub fn lex_le_exec(a: &Vec<char>, b: &Vec<char>) -> (r: bool)
    ensures
        r == lex_le(a@, b@),
{
    let mut i: usize = 0;
    assert(a@.skip(0) =~= a@);
    assert(b@.skip(0) =~= b@);
    while i < a.len() && i < b.len()
        invariant
            i <= a@.len(),
            i <= b@.len(),
            lex_le(a@, b@) == lex_le(a@.skip(i as int), b@.skip(i as int)),
        decreases a@.len() - i,
    {
        if a[i] < b[i] {
            return true;
        }
        if a[i] > b[i] {
            return false;
        }
        assert(a@.skip(i as int).drop_first() =~= a@.skip(i + 1));
        assert(b@.skip(i as int).drop_first() =~= b@.skip(i + 1));
        i = i + 1;
    }
    i == a.len()
}

pub open spec fn char_seqs(v: Seq<Vec<char>>) -> Seq<Seq<char>> {
    v.map_values(|x: Vec<char>| x@)
}

pub open spec fn sorted(s: Seq<Seq<char>>) -> bool {
    forall|i: int, j: int| 0 <= i < j < s.len() ==> lex_le(#[trigger] s[i], #[trigger] s[j])
}

/// Sort strings in lexicographic order.
pub fn sort_strings(v: Vec<Vec<char>>) -> (out: Vec<Vec<char>>)
    ensures
        sorted(char_seqs(out@)),
        char_seqs(out@).to_multiset() == char_seqs(v@).to_multiset(),
{
    let mut out: Vec<Vec<char>> = Vec::new();
    let mut v = v;
    let ghost orig = char_seqs(v@);
    let mut i: usize = 0;
    let n = v.len();
    while i < n
        invariant
            n == v@.len(),
            orig == char_seqs(v@),
            i <= n,
            sorted(char_seqs(out@)),
            char_seqs(out@).to_multiset() == orig.subrange(0, i as int).to_multiset(),
        decreases n - i,
    {
        let x = v[i].clone();
        assert(x@ == v@[i as int]@);
        let mut k: usize = 0;
        while k < out.len() && lex_le_exec(&out[k], &x)
            invariant
                k <= out@.len(),
                forall|j: int| 0 <= j < k ==> lex_le(#[trigger] char_seqs(out@)[j], x@),
            decreases out@.len() - k,
        {
            k = k + 1;
        }
        let ghost before = char_seqs(out@);
        proof {
            if k < out@.len() {
                lemma_lex_total(before[k as int], x@);
            }
        }
        out.insert(k, x);
        proof {
            assert(char_seqs(out@) =~= before.insert(k as int, x@));
            assert forall|a: int, b: int| 0 <= a < b < char_seqs(out@).len() implies lex_le(
                #[trigger] char_seqs(out@)[a],
                #[trigger] char_seqs(out@)[b],
            ) by {
                let s = char_seqs(out@);
                if a < k && b < k {
                    assert(s[a] == before[a] && s[b] == before[b]);
                } else if a < k && b == k {
                } else if a < k {
                    assert(s[a] == before[a] && s[b] == before[b - 1]);
                    if k < before.len() {
                        assert(lex_le(before[a], x@));
                        assert(lex_le(x@, before[k as int]));
                        lemma_lex_trans(before[a], x@, before[k as int]);
                        if b - 1 > k {
                            lemma_lex_trans(before[a], before[k as int], before[b - 1]);
                        }
                    }
                } else if a == k {
                    assert(s[b] == before[b - 1]);
                    if b - 1 > k {
                        lemma_lex_trans(x@, before[k as int], before[b - 1]);
                    }
                } else {
                    assert(s[a] == before[a - 1] && s[b] == before[b - 1]);
                }
            }
            vstd::seq_lib::to_multiset_insert(before, k as int, x@);
            assert(orig.subrange(0, i + 1) =~= orig.subrange(0, i as int).push(orig[i as int]));
        }
        i = i + 1;
    }
    assert(orig.subrange(0, n as int) =~= orig);
    out
}

/// The number of leading characters of `s` up to and including its last
/// `'/'`, or zero when it has none.
pub open spec fn dir_part_len(s: Seq<char>) -> int
    decreases s.len(),
{
    if s.len() == 0 {
        0
    } else if s.last() == '/' {
        s.len() as int
    } else {
        dir_part_len(s.drop_last())
    }
}

/// Whether every character after the last `'/'` of `s` is ASCII.
pub open spec fn ascii_tail(s: Seq<char>) -> bool {
    forall|i: int| dir_part_len(s) <= i < s.len() ==> (s[i] as u32) < 128
}

/// Splits completion input into the directory part, up to and including the
/// last `'/'`, and the file name prefix that follows it.
pub fn split_input(input: &str) -> (parts: (String, String))
    requires
        ascii_tail(input@),
    ensures
        parts.0@ == input@.subrange(0, dir_part_len(input@)),
        parts.1@ == input@.subrange(dir_part_len(input@), input@.len() as int),
{
    let cs = chars_of(input);
    let mut k: usize = cs.len();
    proof {
        assert(cs@.subrange(0, k as int) =~= cs@);
    }
    while k > 0 && cs[k - 1] != '/'
        invariant
            k <= cs@.len(),
            dir_part_len(cs@) == dir_part_len(cs@.subrange(0, k as int)),
        decreases k,
    {
        proof {
            assert(cs@.subrange(0, k as int).drop_last() =~= cs@.subrange(0, k - 1));
        }
        k = k - 1;
    }
    proof {
        assert(dir_part_len(cs@) == k);
    }
    let dir = string_from_chars(vstd::slice::slice_subrange(cs.as_slice(), 0, k));
    let file = string_from_chars(vstd::slice::slice_subrange(cs.as_slice(), k, cs.len()));
    (dir, file)
}

/// Directory entries as names and whether each is a directory.
pub open spec fn entries_view(v: Seq<(String, bool)>) -> Seq<(Seq<char>, bool)> {
    v.map_values(|e: (String, bool)| (e.0@, e.1))
}

/// The entries that complete `prefix`, in their order, each with the
/// prefix taken off its name; when `dirs_only`, directories alone.
pub open spec fn candidates(
    entries: Seq<(Seq<char>, bool)>,
    prefix: Seq<char>,
    dirs_only: bool,
) -> Seq<(Seq<char>, bool)>
    decreases entries.len(),
{
    if entries.len() == 0 {
        seq![]
    } else {
        let rest = candidates(entries.drop_last(), prefix, dirs_only);
        let e = entries.last();
        if (!dirs_only || e.1) && prefix.is_prefix_of(e.0) {
            rest.push((e.0.skip(prefix.len() as int), e.1))
        } else {
            rest
        }
    }
}

pub open spec fn cand_names(c: Seq<(Seq<char>, bool)>) -> Seq<Seq<char>> {
    c.map_values(|e: (Seq<char>, bool)| e.0)
}

pub open spec fn cand_dirs(c: Seq<(Seq<char>, bool)>) -> Seq<bool> {
    c.map_values(|e: (Seq<char>, bool)| e.1)
}

/// What completing from the candidates `c` offers: a lone directory is
/// offered with a `'/'` after it; otherwise all candidates, sorted.
pub open spec fn completions_of(c: Seq<(Seq<char>, bool)>, out: Seq<Seq<char>>) -> bool {
    if c.len() == 1 && c[0].1 {
        out == seq![c[0].0.push('/')]
    } else {
        sorted(out) && out.to_multiset() == cand_names(c).to_multiset()
    }
}

/// Whether `p` is a prefix of `s`.
pub fn has_prefix(s: &Vec<char>, p: &Vec<char>) -> (r: bool)
    ensures
        r == p@.is_prefix_of(s@),
{
    if p.len() > s.len() {
        return false;
    }
    let mut i: usize = 0;
    while i < p.len()
        invariant
            i <= p@.len(),
            p@.len() <= s@.len(),
            forall|j: int| 0 <= j < i ==> p@[j] == s@[j],
        decreases p@.len() - i,
    {
        if p[i] != s[i] {
            assert(s@.subrange(0, p@.len() as int)[i as int] == s@[i as int]);
            return false;
        }
        i = i + 1;
    }
    assert(p@ =~= s@.subrange(0, p@.len() as int));
    true
}

/// The completions of `prefix` among the entries of a directory, each a
/// name with whether it is a directory.
pub fn complete_entries(
    entries: &Vec<(String, bool)>,
    prefix: &str,
    opts: FileCompleterOpts,
) -> (out: Vec<String>)
    ensures
        completions_of(
            candidates(entries_view(entries@), prefix@, opts.directories),
            strings_view(out@),
        ),
{
    let p = chars_of(prefix);
    let ghost ev = entries_view(entries@);
    let mut names: Vec<Vec<char>> = Vec::new();
    let mut dirs: Vec<bool> = Vec::new();
    let mut i: usize = 0;
    proof {
        assert(ev.subrange(0, 0) =~= Seq::<(Seq<char>, bool)>::empty());
        assert(char_seqs(names@) =~= cand_names(candidates(ev.subrange(0, 0), p@, opts.directories)));
        assert(dirs@ =~= cand_dirs(candidates(ev.subrange(0, 0), p@, opts.directories)));
    }
    while i < entries.len()
        invariant
            i <= entries@.len(),
            ev == entries_view(entries@),
            char_seqs(names@) == cand_names(candidates(ev.subrange(0, i as int), p@, opts.directories)),
            dirs@ == cand_dirs(candidates(ev.subrange(0, i as int), p@, opts.directories)),
        decreases entries@.len() - i,
    {
        let ghost before = candidates(ev.subrange(0, i as int), p@, opts.directories);
        let name = chars_of(entries[i].0.as_str());
        let is_dir = entries[i].1;
        proof {
            assert(ev.subrange(0, i + 1).drop_last() =~= ev.subrange(0, i as int));
            assert(ev.subrange(0, i + 1).last() == ev[i as int]);
            assert(ev[i as int] == (name@, is_dir));
        }
        if (!opts.directories || is_dir) && has_prefix(&name, &p) {
            let rest = vstd::slice::slice_to_vec(
                vstd::slice::slice_subrange(name.as_slice(), p.len(), name.len()),
            );
            proof {
                assert(rest@ =~= name@.skip(p@.len() as int));
            }
            let ghost names0 = names@;
            names.push(rest);
            dirs.push(is_dir);
            proof {
                assert(names@ == names0.push(rest));
                assert(char_seqs(names@) =~= char_seqs(names0).push(rest@));
                let after = candidates(ev.subrange(0, i + 1), p@, opts.directories);
                assert(after == before.push((name@.skip(p@.len() as int), is_dir)));
                assert(char_seqs(names@) =~= cand_names(after));
                assert(dirs@ =~= cand_dirs(after));
            }
        }
        i = i + 1;
    }
    proof {
        assert(ev.subrange(0, entries@.len() as int) =~= ev);
    }
    let ghost c = candidates(ev, p@, opts.directories);
    if names.len() == 1 && dirs[0] {
        let ghost nb = names@;
        let mut only = names.pop().unwrap();
        assert(only == nb[0]);
        push_vec_char(&mut only, '/');
        let s = string_from_chars(only.as_slice());
        let out = vec![s];
        proof {
            assert(c[0].0 == char_seqs(nb)[0]);
            assert(out@ == seq![s]);
            assert(strings_view(out@)[0] == s@);
            assert(strings_view(out@) =~= seq![c[0].0.push('/')]);
        }
        return out;
    }
    let ordered = sort_strings(names);
    let mut out: Vec<String> = Vec::new();
    let mut j: usize = 0;
    while j < ordered.len()
        invariant
            j <= ordered@.len(),
            strings_view(out@) == char_seqs(ordered@).subrange(0, j as int),
        decreases ordered@.len() - j,
    {
        let ghost out0 = out@;
        let sj = string_from_chars(ordered[j].as_slice());
        out.push(sj);
        proof {
            assert(out@ == out0.push(sj));
            assert(strings_view(out@) =~= strings_view(out0).push(sj@));
            assert(strings_view(out@) =~= char_seqs(ordered@).subrange(0, j + 1));
        }
        j = j + 1;
    }
    proof {
        assert(char_seqs(ordered@).subrange(0, ordered@.len() as int) =~= char_seqs(ordered@));
    }
    out
}

fn push_vec_char(v: &mut Vec<char>, c: char)
    ensures
        final(v)@ == old(v)@.push(c),
{
    v.push(c);
}

/// Index of the last `'.'` of `s`, or `-1` when it has none.
pub open spec fn last_dot(s: Seq<char>) -> int
    decreases s.len(),
{
    if s.len() == 0 {
        -1
    } else if s.last() == '.' {
        s.len() - 1
    } else {
        last_dot(s.drop_last())
    }
}

/// The extension of a file name: what follows its last `'.'`, unless that
/// dot is the name's first character.
pub open spec fn extension(name: Seq<char>) -> Option<Seq<char>> {
    if last_dot(name) > 0 {
        Some(name.skip(last_dot(name) + 1))
    } else {
        None
    }
}

/// Whether a directory entry can be completed: it is not hidden, and it is a
/// directory or has the `rx` extension or one of `exts`.
pub open spec fn entry_kept(name: Seq<char>, is_dir: bool, exts: Seq<Seq<char>>) -> bool {
    &&& !(name.len() > 0 && name[0] == '.')
    &&& (is_dir || match extension(name) {
        Some(e) => e == seq!['r', 'x'] || exts.contains(e),
        None => false,
    })
}

/// The entries that can be completed, in their order.
pub open spec fn kept_entries(
    entries: Seq<(Seq<char>, bool)>,
    exts: Seq<Seq<char>>,
) -> Seq<(Seq<char>, bool)>
    decreases entries.len(),
{
    if entries.len() == 0 {
        seq![]
    } else {
        let rest = kept_entries(entries.drop_last(), exts);
        let e = entries.last();
        if entry_kept(e.0, e.1, exts) {
            rest.push(e)
        } else {
            rest
        }
    }
}

pub open spec fn strs_view(v: Seq<&str>) -> Seq<Seq<char>> {
    v.map_values(|e: &str| e@)
}

/// Completes file names found in a directory, for the file types it knows.
pub struct FileCompleter {
    cwd: String,
    extensions: Vec<String>,
}

impl FileCompleter {
    /// The directory that completion starts from.
    pub closed spec fn cwd_view(&self) -> Seq<char> {
        self.cwd@
    }

    /// The file extensions completed besides `rx`.
    pub closed spec fn exts(&self) -> Seq<Seq<char>> {
        strings_view(self.extensions@)
    }

    pub fn new(cwd: &str, extensions: &[&str]) -> (c: Self)
        ensures
            c.cwd_view() == cwd@,
            c.exts() == strs_view(extensions@),
    {
        let mut exts: Vec<String> = Vec::new();
        let mut i: usize = 0;
        while i < extensions.len()
            invariant
                i <= extensions@.len(),
                strings_view(exts@) == strs_view(extensions@.subrange(0, i as int)),
            decreases extensions@.len() - i,
        {
            let ghost exts0 = exts@;
            let ext: &str = extensions[i];
            let e = ext.to_owned();
            exts.push(e);
            proof {
                assert(ext == extensions@[i as int]);
                assert(e@ == ext@);
                assert(exts@ == exts0.push(e));
                assert(strs_view(extensions@.subrange(0, i as int)).len() == i);
                assert(exts0.len() == i);
                let a = strings_view(exts@);
                let b = strs_view(extensions@.subrange(0, i + 1));
                assert forall|j: int| 0 <= j < a.len() implies a[j] == b[j] by {
                    assert(a.len() == exts@.len());
                    assert(a[j] == exts@[j]@);
                    if j < i {
                        assert(exts@[j] == exts0[j]);
                        assert(a[j] == strings_view(exts0)[j]);
                        assert(strs_view(extensions@.subrange(0, i as int))[j] == b[j]);
                    }
                }
                assert(a =~= b);
            }
            i = i + 1;
        }
        proof {
            assert(extensions@.subrange(0, extensions@.len() as int) =~= extensions@);
        }
        FileCompleter { cwd: cwd.to_owned(), extensions: exts }
    }

    /// The directory that completion starts from.
    pub fn cwd(&self) -> (s: &str)
        ensures
            s@ == self.cwd_view(),
    {
        self.cwd.as_str()
    }
}

proof fn lemma_last_dot(s: Seq<char>)
    ensures
        -1 <= last_dot(s) < s.len(),
    decreases s.len(),
{
    if s.len() > 0 && s.last() != '.' {
        lemma_last_dot(s.drop_last());
    }
}

/// The index of the last `'.'` of `s`, if it has one.
fn find_last_dot(s: &Vec<char>) -> (r: Option<usize>)
    ensures
        match r {
            Some(k) => k == last_dot(s@),
            None => last_dot(s@) == -1,
        },
{
    let mut k: usize = s.len();
    proof {
        assert(s@.subrange(0, k as int) =~= s@);
    }
    while k > 0
        invariant
            k <= s@.len(),
            last_dot(s@) == last_dot(s@.subrange(0, k as int)),
        decreases k,
    {
        if s[k - 1] == '.' {
            return Some(k - 1);
        }
        proof {
            assert(s@.subrange(0, k as int).drop_last() =~= s@.subrange(0, k - 1));
        }
        k = k - 1;
    }
    None
}

impl FileCompleter {
    /// Whether a directory entry is offered for completion.
    pub fn keeps_entry(&self, name: &str, is_dir: bool) -> (r: bool)
        ensures
            r == entry_kept(name@, is_dir, self.exts()),
    {
        let cs = chars_of(name);
        if cs.len() > 0 && cs[0] == '.' {
            return false;
        }
        if is_dir {
            return true;
        }
        match find_last_dot(&cs) {
            Some(k) => {
                if k == 0 {
                    return false;
                }
                proof {
                    lemma_last_dot(cs@);
                }
                let e = vstd::slice::slice_to_vec(
                    vstd::slice::slice_subrange(cs.as_slice(), k + 1, cs.len()),
                );
                assert(e@ =~= cs@.skip(k + 1));
                assert(extension(name@) == Some(e@));
                if e.len() == 2 && e[0] == 'r' && e[1] == 'x' {
                    assert(e@ =~= seq!['r', 'x']);
                    return true;
                }
                let mut i: usize = 0;
                while i < self.extensions.len()
                    invariant
                        i <= self.extensions@.len(),
                        forall|j: int| 0 <= j < i ==> self.exts()[j] != e@,
                        extension(name@) == Some(e@),
                        !(name@.len() > 0 && name@[0] == '.'),
                        !is_dir,
                    decreases self.extensions@.len() - i,
                {
                    let x = chars_of(self.extensions[i].as_str());
                    if eq_chars(x.as_slice(), e.as_slice()) {
                        assert(self.exts()[i as int] == e@);
                        assert(self.exts().contains(e@));
                        return true;
                    }
                    i = i + 1;
                }
                assert(!self.exts().contains(e@));
                false
            },
            None => false,
        }
    }

    /// The entries of a directory that are offered for completion, in their
    /// order.
    pub fn keep_paths(&self, entries: &Vec<(String, bool)>) -> (out: Vec<(String, bool)>)
        ensures
            entries_view(out@) == kept_entries(entries_view(entries@), self.exts()),
    {
        let ghost ev = entries_view(entries@);
        let mut out: Vec<(String, bool)> = Vec::new();
        let mut i: usize = 0;
        proof {
            assert(ev.subrange(0, 0) =~= Seq::<(Seq<char>, bool)>::empty());
            assert(entries_view(out@) =~= kept_entries(ev.subrange(0, 0), self.exts()));
        }
        while i < entries.len()
            invariant
                i <= entries@.len(),
                ev == entries_view(entries@),
                entries_view(out@) == kept_entries(ev.subrange(0, i as int), self.exts()),
            decreases entries@.len() - i,
        {
            proof {
                assert(ev.subrange(0, i + 1).drop_last() =~= ev.subrange(0, i as int));
                assert(ev.subrange(0, i + 1).last() == ev[i as int]);
            }
            if self.keeps_entry(entries[i].0.as_str(), entries[i].1) {
                let ghost out0 = out@;
                let name = entries[i].0.clone();
                out.push((name, entries[i].1));
                proof {
                    assert(entries_view(out@) =~= entries_view(out0).push(ev[i as int]));
                }
            }
            i = i + 1;
        }
        proof {
            assert(ev.subrange(0, entries@.len() as int) =~= ev);
        }
        out
    }

    /// The completions of `prefix` among the entries of the directory being
    /// searched, each a name with whether it is a directory.
    pub fn complete_in(
        &self,
        entries: &Vec<(String, bool)>,
        prefix: &str,
        opts: FileCompleterOpts,
    ) -> (out: Vec<String>)
        ensures
            completions_of(
                candidates(
                    kept_entries(entries_view(entries@), self.exts()),
                    prefix@,
                    opts.directories,
                ),
                strings_view(out@),
            ),
    {
        let kept = self.keep_paths(entries);
        complete_entries(&kept, prefix, opts)
    }
}

} // verus!
