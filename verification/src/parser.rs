use crate::brush::BrushMode;
use crate::platform::{key_of_char, InputState, Key};
use crate::session::{Direction, Mode, VisualState};
use crate::text::{push_char, string_from_chars};
use vstd::prelude::*;

verus! {

/// The outcome of parsing from a position of the input: a value and the
/// position after it, or a message and the position the parse stopped at.
/// A parse that fails where it started has consumed no input.
pub type PRes<T> = Result<(T, int), (Seq<char>, int)>;

/// The model of an executable parse result.
pub open spec fn res_view<T>(r: Result<(T, usize), (String, usize)>) -> PRes<T> {
    match r {
        Ok((v, j)) => Ok((v, j as int)),
        Err((m, j)) => Err((m@, j as int)),
    }
}

/// The model of an executable parse result whose value is a string.
pub open spec fn str_res_view(r: Result<(String, usize), (String, usize)>) -> PRes<Seq<char>> {
    match r {
        Ok((v, j)) => Ok((v@, j as int)),
        Err((m, j)) => Err((m@, j as int)),
    }
}

/// Whether a character has the Unicode `White_Space` property.
pub open spec fn is_ws(c: char) -> bool {
    let u = c as u32;
    (0x09 <= u <= 0x0d) || u == 0x20 || u == 0x85 || u == 0xa0 || u == 0x1680 || (0x2000 <= u
        <= 0x200a) || u == 0x2028 || u == 0x2029 || u == 0x202f || u == 0x205f || u == 0x3000
}

pub fn char_is_ws(c: char) -> (b: bool)
    ensures
        b == is_ws(c),
{
    let u = c as u32;
    (0x09 <= u && u <= 0x0d) || u == 0x20 || u == 0x85 || u == 0xa0 || u == 0x1680 || (0x2000 <= u
        && u <= 0x200a) || u == 0x2028 || u == 0x2029 || u == 0x202f || u == 0x205f || u == 0x3000
}

/// What `char::is_alphabetic` returns: whether the character has the
/// Unicode `Alphabetic` property.
pub uninterp spec fn alphabetic(c: char) -> bool;

/// Calls `char::is_alphabetic`. ASCII letters are alphabetic, and no other
/// ASCII character is.
#[verifier::external_body]
fn char_is_alphabetic(c: char) -> (b: bool)
    ensures
        b == alphabetic(c),
        (c as u32) < 128 ==> (b == (('a' <= c && c <= 'z') || ('A' <= c && c <= 'Z'))),
{
    c.is_alphabetic()
}

/// Whether a character is alphabetic: for ASCII, a letter.
pub open spec fn is_alpha(c: char) -> bool {
    if (c as u32) < 128 {
        ('a' <= c <= 'z') || ('A' <= c <= 'Z')
    } else {
        alphabetic(c)
    }
}

/// The classes of characters that runs are made of.
#[derive(Clone, Copy, Debug, PartialEq, Eq, Structural)]
pub enum CharClass {
    /// White space.
    Ws,
    /// Anything but white space.
    NotWs,
    /// ASCII letters, `/` and `-`.
    Ident,
    /// Decimal digits.
    Digit,
    /// Alphabetic characters.
    Alpha,
    /// Decimal digits and `.`.
    DigitOrDot,
}

pub open spec fn in_class(k: CharClass, c: char) -> bool {
    match k {
        CharClass::Ws => is_ws(c),
        CharClass::NotWs => !is_ws(c),
        CharClass::Ident => ('a' <= c <= 'z') || ('A' <= c <= 'Z') || c == '/' || c == '-',
        CharClass::Digit => '0' <= c <= '9',
        CharClass::Alpha => is_alpha(c),
        CharClass::DigitOrDot => ('0' <= c <= '9') || c == '.',
    }
}

/// How a parser of one character of the class is described in errors.
pub open spec fn class_label(k: CharClass) -> Seq<char> {
    match k {
        CharClass::Ws => "<whitespace>"@,
        CharClass::NotWs => "!<whitespace>"@,
        CharClass::Ident => "<identifier>"@,
        CharClass::Digit => "0-9"@,
        CharClass::Alpha => "a-Z"@,
        CharClass::DigitOrDot => "'.'"@,
    }
}

fn class_has(k: CharClass, c: char) -> (b: bool)
    ensures
        b == in_class(k, c),
{
    match k {
        CharClass::Ws => char_is_ws(c),
        CharClass::NotWs => !char_is_ws(c),
        CharClass::Ident => ('a' <= c && c <= 'z') || ('A' <= c && c <= 'Z') || c == '/' || c == '-',
        CharClass::Digit => '0' <= c && c <= '9',
        CharClass::Alpha => char_is_alphabetic(c),
        CharClass::DigitOrDot => ('0' <= c && c <= '9') || c == '.',
    }
}

fn class_label_str(k: CharClass) -> (s: &'static str)
    ensures
        s@ == class_label(k),
{
    match k {
        CharClass::Ws => "<whitespace>",
        CharClass::NotWs => "!<whitespace>",
        CharClass::Ident => "<identifier>",
        CharClass::Digit => "0-9",
        CharClass::Alpha => "a-Z",
        CharClass::DigitOrDot => "'.'",
    }
}

/// The end of the run of characters of class `k` that starts at `i`.
pub open spec fn run_end(s: Seq<char>, i: int, k: CharClass) -> int
    decreases s.len() - i,
{
    if i < 0 || i >= s.len() || !in_class(k, s[i]) {
        i
    } else {
        run_end(s, i + 1, k)
    }
}

pub proof fn lemma_run_end(s: Seq<char>, i: int, k: CharClass)
    requires
        0 <= i <= s.len(),
    ensures
        i <= run_end(s, i, k) <= s.len(),
        forall|j: int| i <= j < run_end(s, i, k) ==> in_class(k, #[trigger] s[j]),
        run_end(s, i, k) < s.len() ==> !in_class(k, s[run_end(s, i, k)]),
    decreases s.len() - i,
{
    if i < s.len() && in_class(k, s[i]) {
        lemma_run_end(s, i + 1, k);
    }
}

/// A run that covers `i` up to `m` and stops there ends at `m`.
pub proof fn lemma_run_to(s: Seq<char>, i: int, m: int, k: CharClass)
    requires
        0 <= i <= m <= s.len(),
        forall|j: int| i <= j < m ==> in_class(k, #[trigger] s[j]),
        m < s.len() ==> !in_class(k, s[m]),
    ensures
        run_end(s, i, k) == m,
    decreases m - i,
{
    if i < m {
        lemma_run_to(s, i + 1, m, k);
    }
}

/// The end of the run of characters of class `k` that starts at `i`.
pub fn scan(s: &Vec<char>, i: usize, k: CharClass) -> (j: usize)
    requires
        i <= s@.len(),
    ensures
        j == run_end(s@, i as int, k),
        i <= j <= s@.len(),
{
    proof {
        lemma_run_end(s@, i as int, k);
    }
    let mut j = i;
    while j < s.len() && class_has(k, s[j])
        invariant
            i <= j <= s@.len(),
            run_end(s@, i as int, k) == run_end(s@, j as int, k),
        decreases s@.len() - j,
    {
        j = j + 1;
    }
    j
}

/// Number of bytes that UTF-8 takes for a character.
pub open spec fn utf8_len(c: char) -> nat {
    let u = c as u32;
    if u < 0x80 {
        1
    } else if u < 0x800 {
        2
    } else if u < 0x10000 {
        3
    } else {
        4
    }
}

/// Number of bytes that UTF-8 takes for a string.
pub open spec fn bytes_len(s: Seq<char>) -> nat
    decreases s.len(),
{
    if s.len() == 0 {
        0
    } else {
        bytes_len(s.drop_last()) + utf8_len(s.last())
    }
}

/// The longest prefix of `s` that takes at most `n` bytes.
pub open spec fn byte_prefix(s: Seq<char>, n: nat) -> Seq<char>
    decreases s.len(),
{
    if bytes_len(s) <= n {
        s
    } else {
        byte_prefix(s.drop_last(), n)
    }
}

/// The message of a parser that expected `e` and found `rest`: at most the
/// first sixteen bytes of it are shown.
pub open spec fn expect_msg(e: Seq<char>, rest: Seq<char>) -> Seq<char> {
    if rest.len() == 0 {
        "expected "@ + e + ", but reached end of input"@
    } else if bytes_len(rest) > 16 {
        "expected "@ + e + ", got `"@ + byte_prefix(rest, 16) + "..`"@
    } else {
        "expected "@ + e + ", got `"@ + rest + "`"@
    }
}

pub(crate) fn char_utf8_len(c: char) -> (n: usize)
    ensures
        n == utf8_len(c),
{
    let u = c as u32;
    if u < 0x80 {
        1
    } else if u < 0x800 {
        2
    } else if u < 0x10000 {
        3
    } else {
        4
    }
}

proof fn lemma_bytes_len_append(s: Seq<char>, c: char)
    ensures
        bytes_len(s.push(c)) == bytes_len(s) + utf8_len(c),
{
    assert(s.push(c).drop_last() =~= s);
}

proof fn lemma_bytes_len_prefix(s: Seq<char>, i: int, j: int)
    requires
        0 <= i <= j <= s.len(),
    ensures
        bytes_len(s.subrange(0, i)) <= bytes_len(s.subrange(0, j)),
    decreases j - i,
{
    if i < j {
        lemma_bytes_len_prefix(s, i, j - 1);
        assert(s.subrange(0, j).drop_last() =~= s.subrange(0, j - 1));
    }
}

/// `byte_prefix` of a prefix of `s` whose length fits is the longest such
/// prefix.
proof fn lemma_byte_prefix(s: Seq<char>, k: int, n: nat)
    requires
        0 <= k <= s.len(),
        bytes_len(s.subrange(0, k)) <= n,
        k == s.len() || bytes_len(s.subrange(0, k + 1)) > n,
    ensures
        byte_prefix(s, n) == s.subrange(0, k),
    decreases s.len(),
{
    if k == s.len() {
        assert(s.subrange(0, k) =~= s);
    } else {
        assert(bytes_len(s) > n) by {
            lemma_bytes_len_prefix(s, k + 1, s.len() as int);
            assert(s.subrange(0, s.len() as int) =~= s);
        }
        let t = s.drop_last();
        assert(t.subrange(0, k) =~= s.subrange(0, k));
        if k + 1 <= t.len() {
            assert(t.subrange(0, k + 1) =~= s.subrange(0, k + 1));
        }
        lemma_byte_prefix(t, k, n);
    }
}

/// The message of a parser that expected `e` and found `s` from `i` on.
pub fn expect_at(e: &str, s: &Vec<char>, i: usize) -> (m: String)
    requires
        i <= s@.len(),
    ensures
        m@ == expect_msg(e@, s@.subrange(i as int, s@.len() as int)),
{
    let ghost rest = s@.subrange(i as int, s@.len() as int);
    let mut m = String::new();
    m.append("expected ");
    m.append(e);
    if i == s.len() {
        m.append(", but reached end of input");
        return m;
    }
    // The number of characters that fit in sixteen bytes, and whether the
    // rest goes beyond.

    let mut k: usize = 0;
    let mut bytes: usize = 0;
    let total = s.len();
    let n = total - i;
    while k < n
        invariant
            n == rest.len(),
            i + n == total,
            total == s@.len(),
            k <= n,
            bytes == bytes_len(rest.subrange(0, k as int)),
            bytes <= 16,
            forall|j: int| 0 <= j < rest.len() ==> #[trigger] rest[j] == s@[i + j],
        ensures
            k <= n,
            bytes == bytes_len(rest.subrange(0, k as int)),
            bytes <= 16,
            k < n ==> bytes + utf8_len(rest[k as int]) > 16,
        decreases n - k,
    {
        let c = s[i + k];
        let cl = char_utf8_len(c);
        if bytes + cl > 16 {
            break;
        }
        proof {
            assert(rest.subrange(0, k + 1) =~= rest.subrange(0, k as int).push(rest[k as int]));
            lemma_bytes_len_append(rest.subrange(0, k as int), rest[k as int]);
        }
        bytes = bytes + cl;
        k = k + 1;
    }
    proof {
        if k < n {
            assert(rest.subrange(0, k + 1) =~= rest.subrange(0, k as int).push(rest[k as int]));
            lemma_bytes_len_append(rest.subrange(0, k as int), rest[k as int]);
        }
        lemma_byte_prefix(rest, k as int, 16);
        assert(rest.subrange(0, n as int) =~= rest);
        if k < n {
            assert(bytes_len(rest) > 16) by {
                lemma_bytes_len_prefix(rest, k + 1, n as int);
            }
        }
    }
    m.append(", got `");
    let shown = string_from_chars(vstd::slice::slice_subrange(s.as_slice(), i, i + k));
    assert(shown@ =~= rest.subrange(0, k as int));
    m.append(shown.as_str());
    if k < n {
        m.append("..`");
    } else {
        m.append("`");
    }
    m
}

/// The input from `i` on.
pub open spec fn rest_of(s: Seq<char>, i: int) -> Seq<char> {
    s.subrange(i, s.len() as int)
}

/// A non-empty run of characters of class `k` at `i`: its end.
pub open spec fn p_many(s: Seq<char>, i: int, k: CharClass) -> Result<int, (Seq<char>, int)> {
    if run_end(s, i, k) == i {
        Err((expect_msg(class_label(k), rest_of(s, i)), i))
    } else {
        Ok(run_end(s, i, k))
    }
}

pub open spec fn end_view(r: Result<usize, (String, usize)>) -> Result<int, (Seq<char>, int)> {
    match r {
        Ok(j) => Ok(j as int),
        Err((m, j)) => Err((m@, j as int)),
    }
}

/// A non-empty run of characters of class `k` at `i`: its end.
pub fn many(s: &Vec<char>, i: usize, k: CharClass) -> (r: Result<usize, (String, usize)>)
    requires
        i <= s@.len(),
    ensures
        r matches Err((e, q)) ==> q <= s@.len(),
        end_view(r) == p_many(s@, i as int, k),
        r matches Ok(j) ==> i < j <= s@.len(),
{
    let j = scan(s, i, k);
    if j == i {
        Err((expect_at(class_label_str(k), s, i), i))
    } else {
        Ok(j)
    }
}

/// The characters of `s` from `i` up to `j`, as a string.
pub fn text(s: &Vec<char>, i: usize, j: usize) -> (t: String)
    requires
        i <= j <= s@.len(),
    ensures
        t@ == s@.subrange(i as int, j as int),
{
    string_from_chars(vstd::slice::slice_subrange(s.as_slice(), i, j))
}

/// The value of a string of decimal digits.
pub open spec fn digits_val(d: Seq<char>) -> nat
    decreases d.len(),
{
    if d.len() == 0 {
        0
    } else {
        digits_val(d.drop_last()) * 10 + ((d.last() as u32) - ('0' as u32)) as nat
    }
}

pub open spec fn too_large() -> Seq<char> {
    "conversion from string failed: number too large to fit in target type"@
}

pub open spec fn too_small() -> Seq<char> {
    "conversion from string failed: number too small to fit in target type"@
}

pub open spec fn bad_float() -> Seq<char> {
    "conversion from string failed: invalid float literal"@
}

/// The value of the digits from `i` up to `j`, if it is at most `max`.
pub fn digits_value(s: &Vec<char>, i: usize, j: usize, max: u64) -> (v: Option<u64>)
    requires
        i <= j <= s@.len(),
        forall|k: int| i <= k < j ==> '0' <= #[trigger] s@[k] <= '9',
        max >= 9,
    ensures
        match v {
            Some(x) => x == digits_val(s@.subrange(i as int, j as int)) && x <= max,
            None => digits_val(s@.subrange(i as int, j as int)) > max,
        },
{
    let mut acc: u64 = 0;
    let mut k = i;
    proof {
        assert(s@.subrange(i as int, i as int) =~= Seq::<char>::empty());
    }
    while k < j
        invariant
            i <= k <= j,
            j <= s@.len(),
            forall|m: int| i <= m < j ==> '0' <= #[trigger] s@[m] <= '9',
            acc == digits_val(s@.subrange(i as int, k as int)),
            acc <= max,
            max >= 9,
        decreases j - k,
    {
        let d = (s[k] as u32 - '0' as u32) as u64;
        proof {
            assert(s@.subrange(i as int, k + 1).drop_last() =~= s@.subrange(i as int, k as int));
        }
        if acc > (max - d) / 10 {
            proof {
                assert(acc * 10 + d > max) by (nonlinear_arith)
                    requires
                        acc > (max - d) / 10,
                        d <= 9,
                        max >= 9,
                ;
                lemma_digits_grow(s@, i as int, k + 1, j as int);
            }
            return None;
        }
        proof {
            assert(acc * 10 + d <= max) by (nonlinear_arith)
                requires
                    acc <= (max - d) / 10,
                    d <= max,
            ;
        }
        acc = acc * 10 + d;
        k = k + 1;
    }
    Some(acc)
}

/// A value of more digits is no smaller.
proof fn lemma_digits_grow(s: Seq<char>, i: int, k: int, j: int)
    requires
        0 <= i <= k <= j <= s.len(),
        forall|m: int| i <= m < j ==> '0' <= #[trigger] s[m] <= '9',
    ensures
        digits_val(s.subrange(i, k)) <= digits_val(s.subrange(i, j)),
    decreases j - k,
{
    if k < j {
        lemma_digits_grow(s, i, k, j - 1);
        assert(s.subrange(i, j).drop_last() =~= s.subrange(i, j - 1));
        let a = digits_val(s.subrange(i, j - 1));
        assert(a <= a * 10) by (nonlinear_arith)
            requires
                a >= 0,
        ;
    }
}

/// A natural number of at most `max` at `i`: its value and end.
pub open spec fn p_natural(s: Seq<char>, i: int, max: nat) -> PRes<nat> {
    match p_many(s, i, CharClass::Digit) {
        Err(e) => Err(e),
        Ok(j) => {
            let v = digits_val(s.subrange(i, j));
            if v > max {
                Err((too_large(), j))
            } else {
                Ok((v, j))
            }
        },
    }
}

/// A natural number of at most `max` at `i`.
pub fn natural(s: &Vec<char>, i: usize, max: u64) -> (r: Result<(u64, usize), (String, usize)>)
    requires
        i <= s@.len(),
        max >= 9,
    ensures
        r matches Err((e, q)) ==> q <= s@.len(),
        match (r, p_natural(s@, i as int, max as nat)) {
            (Ok((v, j)), Ok((w, k))) => v == w && j == k,
            (Err((m, j)), Err((n, k))) => m@ == n && j == k,
            _ => false,
        },
        r matches Ok((v, j)) ==> i < j <= s@.len(),
{
    match many(s, i, CharClass::Digit) {
        Err(e) => Err(e),
        Ok(j) => {
            proof {
                lemma_run_end(s@, i as int, CharClass::Digit);
            }
            match digits_value(s, i, j, max) {
                Some(v) => Ok((v, j)),
                None => {
                    let mut m = String::new();
                    m.append("conversion from string failed: number too large to fit in target type");
                    Err((m, j))
                },
            }
        },
    }
}

/// An integer, maybe with a leading `-`, that fits an `i32`.
pub open spec fn p_integer(s: Seq<char>, i: int) -> PRes<int> {
    let neg = i < s.len() && s[i] == '-';
    let k = if neg {
        i + 1
    } else {
        i
    };
    match p_many(s, k, CharClass::Digit) {
        Err(e) => Err(e),
        Ok(j) => {
            let v = digits_val(s.subrange(k, j));
            if neg {
                if v > 0x8000_0000 {
                    Err((too_small(), j))
                } else {
                    Ok((-v, j))
                }
            } else if v > 0x7fff_ffff {
                Err((too_large(), j))
            } else {
                Ok((v as int, j))
            }
        },
    }
}

/// An integer, maybe with a leading `-`, that fits an `i32`.
pub fn integer(s: &Vec<char>, i: usize) -> (r: Result<(i32, usize), (String, usize)>)
    requires
        i <= s@.len(),
    ensures
        r matches Err((e, q)) ==> q <= s@.len(),
        match (r, p_integer(s@, i as int)) {
            (Ok((v, j)), Ok((w, k))) => v == w && j == k,
            (Err((m, j)), Err((n, k))) => m@ == n && j == k,
            _ => false,
        },
        r matches Ok((v, j)) ==> i < j <= s@.len(),
{
    let neg = i < s.len() && s[i] == '-';
    let k = if neg {
        i + 1
    } else {
        i
    };
    match many(s, k, CharClass::Digit) {
        Err(e) => Err(e),
        Ok(j) => {
            proof {
                lemma_run_end(s@, k as int, CharClass::Digit);
            }
            if neg {
                match digits_value(s, k, j, 0x8000_0000) {
                    Some(v) => {
                        if v == 0x8000_0000 {
                            Ok((i32::MIN, j))
                        } else {
                            Ok((-(v as i32), j))
                        }
                    },
                    None => {
                        let mut m = String::new();
                        m.append("conversion from string failed: number too small to fit in target type");
                        Err((m, j))
                    },
                }
            } else {
                match digits_value(s, k, j, 0x7fff_ffff) {
                    Some(v) => Ok((v as i32, j)),
                    None => {
                        let mut m = String::new();
                        m.append("conversion from string failed: number too large to fit in target type");
                        Err((m, j))
                    },
                }
            }
        },
    }
}

/// Number of `.` in a string.
pub open spec fn dots(t: Seq<char>) -> nat
    decreases t.len(),
{
    if t.len() == 0 {
        0
    } else {
        dots(t.drop_last()) + if t.last() == '.' {
            1nat
        } else {
            0nat
        }
    }
}

/// Whether a run of digits and dots is a number: it has a digit and at most
/// one dot.
pub open spec fn is_number(t: Seq<char>) -> bool {
    dots(t) <= 1 && dots(t) < t.len()
}

/// A decimal number as written: maybe a `-`, then digits with at most one
/// `.` among them.
#[derive(Clone, Debug, PartialEq)]
pub struct Decimal {
    pub text: String,
}

/// A rational number at `i`: its text, and its end.
pub open spec fn p_rational(s: Seq<char>, i: int) -> PRes<Seq<char>> {
    let neg = i < s.len() && s[i] == '-';
    let k = if neg {
        i + 1
    } else {
        i
    };
    match p_many(s, k, CharClass::DigitOrDot) {
        Err(e) => Err(e),
        Ok(j) => {
            let t = s.subrange(k, j);
            if is_number(t) {
                Ok((if neg {
                    seq!['-'] + t
                } else {
                    t
                }, j))
            } else {
                Err((bad_float(), j))
            }
        },
    }
}

fn count_dots(s: &Vec<char>, i: usize, j: usize) -> (n: usize)
    requires
        i <= j <= s@.len(),
    ensures
        n == dots(s@.subrange(i as int, j as int)),
        n <= j - i,
{
    let mut n: usize = 0;
    let mut k = i;
    proof {
        assert(s@.subrange(i as int, i as int) =~= Seq::<char>::empty());
    }
    while k < j
        invariant
            i <= k <= j <= s@.len(),
            n == dots(s@.subrange(i as int, k as int)),
            n <= k - i,
        decreases j - k,
    {
        proof {
            assert(s@.subrange(i as int, k + 1).drop_last() =~= s@.subrange(i as int, k as int));
        }
        if s[k] == '.' {
            n = n + 1;
        }
        k = k + 1;
    }
    n
}

/// A rational number at `i`.
pub fn rational(s: &Vec<char>, i: usize) -> (r: Result<(Decimal, usize), (String, usize)>)
    requires
        i <= s@.len(),
    ensures
        r matches Err((e, q)) ==> q <= s@.len(),
        match (r, p_rational(s@, i as int)) {
            (Ok((v, j)), Ok((w, k))) => v.text@ == w && j == k,
            (Err((m, j)), Err((n, k))) => m@ == n && j == k,
            _ => false,
        },
        r matches Ok((v, j)) ==> i < j <= s@.len(),
{
    let neg = i < s.len() && s[i] == '-';
    let k = if neg {
        i + 1
    } else {
        i
    };
    match many(s, k, CharClass::DigitOrDot) {
        Err(e) => Err(e),
        Ok(j) => {
            let n = count_dots(s, k, j);
            if n <= 1 && n < j - k {
                let t = text(s, k, j);
                if neg {
                    let mut m = String::new();
                    push_char(&mut m, '-');
                    m.append(t.as_str());
                    assert(m@ =~= seq!['-'] + t@);
                    Ok((Decimal { text: m }, j))
                } else {
                    Ok((Decimal { text: t }, j))
                }
            } else {
                let mut m = String::new();
                m.append("conversion from string failed: invalid float literal");
                Err((m, j))
            }
        },
    }
}

/// A non-empty run of characters of class `k` at `i`.
pub open spec fn p_run(s: Seq<char>, i: int, k: CharClass) -> PRes<Seq<char>> {
    match p_many(s, i, k) {
        Err(e) => Err(e),
        Ok(j) => Ok((s.subrange(i, j), j)),
    }
}

/// A non-empty run of characters of class `k` at `i`.
pub fn run(s: &Vec<char>, i: usize, k: CharClass) -> (r: Result<(String, usize), (String, usize)>)
    requires
        i <= s@.len(),
    ensures
        r matches Err((e, q)) ==> q <= s@.len(),
        str_res_view(r) == p_run(s@, i as int, k),
        r matches Ok((t, j)) ==> i < j <= s@.len(),
{
    match many(s, i, k) {
        Err(e) => Err(e),
        Ok(j) => Ok((text(s, i, j), j)),
    }
}

/// A string in double quotes.
pub open spec fn dq(w: Seq<char>) -> Seq<char> {
    seq!['"'] + w + seq!['"']
}

/// The keyword `w` at `i`: its end.
pub open spec fn p_keyword(s: Seq<char>, i: int, w: Seq<char>) -> Result<int, (Seq<char>, int)> {
    if i + w.len() <= s.len() && s.subrange(i, i + w.len()) == w {
        Ok(i + w.len())
    } else {
        Err((expect_msg(dq(w), rest_of(s, i)), i))
    }
}

/// The keyword `w` at `i`.
pub fn keyword(s: &Vec<char>, i: usize, w: &str) -> (r: Result<usize, (String, usize)>)
    requires
        i <= s@.len(),
    ensures
        r matches Err((e, q)) ==> q <= s@.len(),
        end_view(r) == p_keyword(s@, i as int, w@),
        r matches Ok(j) ==> i <= j <= s@.len(),
{
    let wc = crate::text::chars_of(w);
    let n = wc.len();
    let total = s.len();
    let mut ok = n <= total - i;
    let mut k: usize = 0;
    while ok && k < n
        invariant
            k <= n,
            n == wc@.len(),
            total == s@.len(),
            ok ==> i + n <= total,
            ok ==> forall|m: int| 0 <= m < k ==> s@[i + m] == wc@[m],
            !ok ==> n > total - i || (0 < k <= n && i + n <= total && s@[i + k - 1] != wc@[k - 1]),
        decreases n - k,
    {
        if s[i + k] != wc[k] {
            ok = false;
        }
        k = k + 1;
    }
    if ok {
        assert(s@.subrange(i as int, i + n) =~= wc@);
    } else if n <= total - i {
        assert(s@.subrange(i as int, i + n)[k - 1] != wc@[k - 1]);
    }
    if ok {
        Ok(i + n)
    } else {
        let mut e = String::new();
        push_char(&mut e, '"');
        e.append(w);
        push_char(&mut e, '"');
        assert(e@ =~= dq(w@));
        Err((expect_at(e.as_str(), s, i), i))
    }
}

/// The end of input.
pub open spec fn p_end(s: Seq<char>, i: int) -> Result<int, (Seq<char>, int)> {
    if i == s.len() {
        Ok(i)
    } else {
        Err((expect_msg("end of input"@, rest_of(s, i)), i))
    }
}

pub fn end(s: &Vec<char>, i: usize) -> (r: Result<usize, (String, usize)>)
    requires
        i <= s@.len(),
    ensures
        r matches Err((e, q)) ==> q <= s@.len(),
        end_view(r) == p_end(s@, i as int),
{
    if i == s.len() {
        Ok(i)
    } else {
        Err((expect_at("end of input", s, i), i))
    }
}

/// The first position from `j` on where `s` has `c`, or its length.
pub open spec fn find_char(s: Seq<char>, j: int, c: char) -> int
    decreases s.len() - j,
{
    if j < 0 || j >= s.len() {
        s.len() as int
    } else if s[j] == c {
        j
    } else {
        find_char(s, j + 1, c)
    }
}

pub proof fn lemma_find_char(s: Seq<char>, j: int, c: char)
    requires
        0 <= j <= s.len(),
    ensures
        j <= find_char(s, j, c) <= s.len(),
        find_char(s, j, c) < s.len() ==> s[find_char(s, j, c)] == c,
        forall|k: int| j <= k < find_char(s, j, c) ==> s[k] != c,
    decreases s.len() - j,
{
    if j < s.len() && s[j] != c {
        lemma_find_char(s, j + 1, c);
    }
}

/// The first position from `j` on where `s` has `c`, or its length.
pub fn find(s: &Vec<char>, j: usize, c: char) -> (k: usize)
    requires
        j <= s@.len(),
    ensures
        k == find_char(s@, j as int, c),
{
    proof {
        lemma_find_char(s@, j as int, c);
    }
    let mut k = j;
    while k < s.len() && s[k] != c
        invariant
            j <= k <= s@.len(),
            find_char(s@, j as int, c) == find_char(s@, k as int, c),
        decreases s@.len() - k,
    {
        k = k + 1;
    }
    k
}

/// A string in double quotes: what is between them.
pub open spec fn p_quoted(s: Seq<char>, i: int) -> PRes<Seq<char>> {
    if !(i < s.len() && s[i] == '"') {
        Err((expect_msg("'\"'"@, rest_of(s, i)), i))
    } else {
        let q = find_char(s, i + 1, '"');
        if q == s.len() {
            Err(("reached end of input"@, q))
        } else {
            Ok((s.subrange(i + 1, q), q + 1))
        }
    }
}

pub fn quoted(s: &Vec<char>, i: usize) -> (r: Result<(String, usize), (String, usize)>)
    requires
        i <= s@.len(),
    ensures
        r matches Err((e, q)) ==> q <= s@.len(),
        str_res_view(r) == p_quoted(s@, i as int),
        r matches Ok((t, j)) ==> i < j <= s@.len(),
{
    if !(i < s.len() && s[i] == '"') {
        return Err((expect_at("'\"'", s, i), i));
    }
    let q = find(s, i + 1, '"');
    proof {
        lemma_find_char(s@, i + 1, '"');
    }
    if q == s.len() {
        let mut m = String::new();
        m.append("reached end of input");
        Err((m, q))
    } else {
        Ok((text(s, i + 1, q), q + 1))
    }
}

/// A lowercase hexadecimal digit.
pub open spec fn hex_digit(d: nat) -> char {
    if d < 10 {
        (('0' as u32) + d) as char
    } else {
        (('a' as u32) + d - 10) as char
    }
}

/// How `Debug` writes a character within quotes `q`: control characters
/// are written as escapes.
pub open spec fn esc(c: char, q: char) -> Seq<char> {
    let u = c as u32;
    if u == 0 {
        seq!['\\', '0']
    } else if c == '\t' {
        seq!['\\', 't']
    } else if c == '\r' {
        seq!['\\', 'r']
    } else if c == '\n' {
        seq!['\\', 'n']
    } else if c == '\\' {
        seq!['\\', '\\']
    } else if c == q {
        seq!['\\', q]
    } else if u < 0x10 {
        seq!['\\', 'u', '{', hex_digit(u as nat), '}']
    } else if u < 0x20 || (0x7f <= u <= 0x9f) {
        seq!['\\', 'u', '{', hex_digit((u / 16) as nat), hex_digit((u % 16) as nat), '}']
    } else {
        seq![c]
    }
}

/// How `Debug` writes the characters of a string within quotes `q`.
pub open spec fn esc_all(s: Seq<char>, q: char) -> Seq<char>
    decreases s.len(),
{
    if s.len() == 0 {
        seq![]
    } else {
        esc_all(s.drop_last(), q) + esc(s.last(), q)
    }
}

/// How `Debug` writes a string.
pub open spec fn debug_str(s: Seq<char>) -> Seq<char> {
    seq!['"'] + esc_all(s, '"') + seq!['"']
}

/// How `Debug` writes a character.
pub open spec fn debug_char(c: char) -> Seq<char> {
    seq!['\''] + esc(c, '\'') + seq!['\'']
}

pub fn hex_char(d: u32) -> (c: char)
    requires
        d < 16,
    ensures
        c == hex_digit(d as nat),
{
    if d < 10 {
        char_from_u32_digit(d)
    } else {
        match d {
            10 => 'a',
            11 => 'b',
            12 => 'c',
            13 => 'd',
            14 => 'e',
            _ => 'f',
        }
    }
}

fn char_from_u32_digit(d: u32) -> (c: char)
    requires
        d < 10,
    ensures
        c as u32 == ('0' as u32) + d,
{
    match d {
        0 => '0',
        1 => '1',
        2 => '2',
        3 => '3',
        4 => '4',
        5 => '5',
        6 => '6',
        7 => '7',
        8 => '8',
        _ => '9',
    }
}

/// Appends how `Debug` writes `c` within quotes `q`.
fn push_esc(m: &mut String, c: char, q: char)
    ensures
        final(m)@ == old(m)@ + esc(c, q),
{
    let u = c as u32;
    let ghost m0 = m@;
    if u == 0 {
        push_char(m, '\\');
        push_char(m, '0');
    } else if c == '\t' {
        push_char(m, '\\');
        push_char(m, 't');
    } else if c == '\r' {
        push_char(m, '\\');
        push_char(m, 'r');
    } else if c == '\n' {
        push_char(m, '\\');
        push_char(m, 'n');
    } else if c == '\\' {
        push_char(m, '\\');
        push_char(m, '\\');
    } else if c == q {
        push_char(m, '\\');
        push_char(m, q);
    } else if u < 0x10 {
        push_char(m, '\\');
        push_char(m, 'u');
        push_char(m, '{');
        push_char(m, hex_char(u));
        push_char(m, '}');
    } else if u < 0x20 || (0x7f <= u && u <= 0x9f) {
        push_char(m, '\\');
        push_char(m, 'u');
        push_char(m, '{');
        push_char(m, hex_char(u / 16));
        push_char(m, hex_char(u % 16));
        push_char(m, '}');
    } else {
        push_char(m, c);
    }
    assert(m@ =~= m0 + esc(c, q));
}

/// Appends how `Debug` writes the characters of `s` from `i` to `j` within
/// quotes `q`.
fn push_esc_all(m: &mut String, s: &Vec<char>, i: usize, j: usize, q: char)
    requires
        i <= j <= s@.len(),
    ensures
        final(m)@ == old(m)@ + esc_all(s@.subrange(i as int, j as int), q),
{
    let ghost m0 = m@;
    let mut k = i;
    proof {
        assert(s@.subrange(i as int, i as int) =~= Seq::<char>::empty());
        assert(m0 + esc_all(Seq::<char>::empty(), q) =~= m0);
    }
    while k < j
        invariant
            i <= k <= j <= s@.len(),
            m@ == m0 + esc_all(s@.subrange(i as int, k as int), q),
        decreases j - k,
    {
        push_esc(m, s[k], q);
        proof {
            assert(s@.subrange(i as int, k + 1).drop_last() =~= s@.subrange(i as int, k as int));
            assert(m@ =~= m0 + esc_all(s@.subrange(i as int, k + 1), q));
        }
        k = k + 1;
    }
}

/// Appends how `Debug` writes a string.
pub fn push_debug_str(m: &mut String, s: &Vec<char>, i: usize, j: usize)
    requires
        i <= j <= s@.len(),
    ensures
        final(m)@ == old(m)@ + debug_str(s@.subrange(i as int, j as int)),
{
    let ghost m0 = m@;
    push_char(m, '"');
    push_esc_all(m, s, i, j, '"');
    push_char(m, '"');
    assert(m@ =~= m0 + debug_str(s@.subrange(i as int, j as int)));
}

/// Appends how `Debug` writes a character.
pub fn push_debug_char(m: &mut String, c: char)
    ensures
        final(m)@ == old(m)@ + debug_char(c),
{
    let ghost m0 = m@;
    push_char(m, '\'');
    push_esc(m, c, '\'');
    push_char(m, '\'');
    assert(m@ =~= m0 + debug_char(c));
}

/// Ten to the power `n`.
pub open spec fn pow10(n: nat) -> nat
    decreases n,
{
    if n == 0 {
        1
    } else {
        10 * pow10((n - 1) as nat)
    }
}

/// The value of a digit.
pub open spec fn digit_val(c: char) -> nat {
    ((c as u32) - ('0' as u32)) as nat
}

proof fn lemma_pow10_pos(n: nat)
    ensures
        pow10(n) >= 1,
    decreases n,
{
    if n > 0 {
        lemma_pow10_pos((n - 1) as nat);
    }
}

/// Digits read from the left: a leading digit counts `pow10` of the rest.
proof fn lemma_digits_prepend(s: Seq<char>, k: int, j: int)
    requires
        1 <= k <= j <= s.len(),
    ensures
        digits_val(s.subrange(k - 1, j)) == digit_val(s[k - 1]) * pow10((j - k) as nat) + digits_val(
            s.subrange(k, j),
        ),
    decreases j - k,
{
    if j == k {
        assert(s.subrange(k - 1, j).drop_last() =~= Seq::<char>::empty());
        assert(s.subrange(k, j) =~= Seq::<char>::empty());
        assert(s.subrange(k - 1, j).last() == s[k - 1]);
        assert(digits_val(Seq::<char>::empty()) == 0);
        assert(pow10(0) == 1);
        assert(digits_val(s.subrange(k - 1, j)) == digit_val(s[k - 1]));
        assert(digits_val(s.subrange(k, j)) == 0);
        assert(pow10((j - k) as nat) == 1);
        assert(digit_val(s[k - 1]) * pow10((j - k) as nat) == digit_val(s[k - 1]) * 1);
    } else {
        lemma_digits_prepend(s, k, j - 1);
        assert(s.subrange(k - 1, j).drop_last() =~= s.subrange(k - 1, j - 1));
        assert(s.subrange(k, j).drop_last() =~= s.subrange(k, j - 1));
        let d = digit_val(s[k - 1]);
        let p = pow10((j - 1 - k) as nat);
        let v = digits_val(s.subrange(k, j - 1));
        let l = digit_val(s[j - 1]);
        assert(s.subrange(k - 1, j).last() == s[j - 1]);
        assert(s.subrange(k, j).last() == s[j - 1]);
        assert(pow10((j - k) as nat) == 10 * p);
        assert((d * p + v) * 10 + l == d * (10 * p) + (v * 10 + l)) by (nonlinear_arith);
        assert(digits_val(s.subrange(k - 1, j)) == digits_val(s.subrange(k - 1, j - 1)) * 10 + l);
        assert(digits_val(s.subrange(k, j)) == v * 10 + l);
        assert(d * pow10((j - k) as nat) == d * (10 * p));
    }
}

/// A string of `n` digits is worth less than `pow10(n)`.
proof fn lemma_digits_bound(d: Seq<char>)
    requires
        forall|m: int| 0 <= m < d.len() ==> '0' <= #[trigger] d[m] <= '9',
    ensures
        digits_val(d) < pow10(d.len()),
    decreases d.len(),
{
    if d.len() > 0 {
        let t = d.drop_last();
        assert forall|m: int| 0 <= m < t.len() implies '0' <= #[trigger] t[m] <= '9' by {
            assert(t[m] == d[m]);
        }
        lemma_digits_bound(t);
        let v = digits_val(t);
        let p = pow10(t.len());
        let l = digit_val(d.last());
        assert(v * 10 + l < 10 * p) by (nonlinear_arith)
            requires
                v < p,
                l <= 9,
        ;
    }
}

/// The integer part of 255 times the fraction whose digits are `f`.
pub open spec fn frac_alpha(f: Seq<char>) -> nat {
    (255 * digits_val(f)) / pow10(f.len())
}

/// The integer part of 255 times the fraction whose digits are those of `s`
/// from `i` to `j`.
fn scaled_fraction(s: &Vec<char>, i: usize, j: usize) -> (a: u8)
    requires
        i <= j <= s@.len(),
        forall|m: int| i <= m < j ==> '0' <= #[trigger] s@[m] <= '9',
    ensures
        a == frac_alpha(s@.subrange(i as int, j as int)),
{
    let mut carry: u32 = 0;
    let mut k = j;
    proof {
        assert(s@.subrange(j as int, j as int) =~= Seq::<char>::empty());
    }
    while k > i
        invariant
            i <= k <= j <= s@.len(),
            forall|m: int| i <= m < j ==> '0' <= #[trigger] s@[m] <= '9',
            carry == frac_alpha(s@.subrange(k as int, j as int)),
            carry < 255,
        decreases k,
    {
        k = k - 1;
        let d = s[k] as u32 - '0' as u32;
        proof {
            let b = pow10((j - k - 1) as nat);
            let v = digits_val(s@.subrange(k + 1, j as int));
            lemma_pow10_pos((j - k - 1) as nat);
            lemma_digits_prepend(s@, k + 1, j as int);
            assert forall|m: int| 0 <= m < s@.subrange(k as int, j as int).len() implies '0' <= #[trigger] s@.subrange(k as int, j as int)[m] <= '9' by {
                assert(s@.subrange(k as int, j as int)[m] == s@[k + m]);
            }
            lemma_digits_bound(s@.subrange(k as int, j as int));
            assert(s@.subrange(k as int, j as int).len() == j - k);
            assert(pow10((j - k) as nat) == 10 * b);
            vstd::arithmetic::div_mod::lemma_hoist_over_denominator((255 * v) as int, 255 * d as int, b);
            vstd::arithmetic::div_mod::lemma_div_denominator((255 * v + 255 * d * b) as int, b as int, 10);
            assert(255 * v + (255 * d as int) * b == 255 * (d * b + v)) by (nonlinear_arith);
            assert(b * 10 == 10 * b) by (nonlinear_arith);
            let nv = digits_val(s@.subrange(k as int, j as int));
            assert(nv < 10 * b);
            assert(255 * nv < (10 * b) * 255) by (nonlinear_arith)
                requires
                    nv < 10 * b,
            ;
            vstd::arithmetic::div_mod::lemma_multiply_divide_lt((255 * nv) as int, (10 * b) as int, 255);
        }
        carry = (d * 255 + carry) / 10;
    }
    carry as u8
}

/// The alpha value, from 0 to 255, of the decimal number `t`: 255 times
/// it, rounded down, saturating at both ends.
pub open spec fn alpha_of(t: Seq<char>) -> u8 {
    if t.len() > 0 && t[0] == '-' {
        0
    } else {
        let d = find_char(t, 0, '.');
        if digits_val(t.subrange(0, d)) >= 1 {
            255
        } else if d < t.len() {
            frac_alpha(t.subrange(d + 1, t.len() as int)) as u8
        } else {
            0
        }
    }
}

proof fn lemma_dot_counted(t: Seq<char>, m: int)
    requires
        0 <= m < t.len(),
        t[m] == '.',
    ensures
        dots(t) >= 1,
        dots(t) == 1 ==> forall|n: int| 0 <= n < t.len() && n != m ==> t[n] != '.',
    decreases t.len(),
{
    let u = t.drop_last();
    if m < t.len() - 1 {
        assert(u[m] == '.');
        lemma_dot_counted(u, m);
        if dots(t) == 1 {
            assert(t.last() != '.');
            assert forall|n: int| 0 <= n < t.len() && n != m implies t[n] != '.' by {
                if n < t.len() - 1 {
                    assert(u[n] == t[n]);
                }
            }
        }
    } else {
        if dots(t) == 1 {
            assert forall|n: int| 0 <= n < t.len() && n != m implies t[n] != '.' by {
                assert(u[n] == t[n]);
                if t[n] == '.' {
                    lemma_dot_counted(u, n);
                }
            }
        }
    }
}

/// The alpha value of a decimal number of digits with at most one `.`,
/// maybe after a `-`.
fn alpha_from(t: &Vec<char>) -> (a: u8)
    requires
        t@.len() > 0 && t@[0] == '-' || (dots(t@) <= 1 && forall|m: int|
            0 <= m < t@.len() ==> ('0' <= #[trigger] t@[m] <= '9' || t@[m] == '.')),
    ensures
        a == alpha_of(t@),
{
    if t.len() > 0 && t[0] == '-' {
        return 0;
    }
    let d = find(t, 0, '.');
    proof {
        lemma_find_char(t@, 0, '.');
        if d < t@.len() {
            lemma_dot_counted(t@, d as int);
        }
    }
    match digits_value(t, 0, d, 9) {
        Some(v) => {
            if v >= 1 {
                return 255;
            }
        },
        None => {
            return 255;
        },
    }
    if d < t.len() {
        scaled_fraction(t, d + 1, t.len())
    } else {
        0
    }
}

/// The color `#rrggbb` that a code of seven characters gives: each pair
/// is two hex digits, or `+` and one.
pub open spec fn hex_val(c: char) -> Option<nat> {
    if '0' <= c <= '9' {
        Some(((c as u32) - ('0' as u32)) as nat)
    } else if 'a' <= c <= 'f' {
        Some(((c as u32) - ('a' as u32) + 10) as nat)
    } else if 'A' <= c <= 'F' {
        Some(((c as u32) - ('A' as u32) + 10) as nat)
    } else {
        None
    }
}

/// The byte that two characters give in hexadecimal, as `u8::from_str_radix`
/// reads them.
pub open spec fn hex_pair(a: char, b: char) -> Option<u8> {
    match (hex_val(a), hex_val(b)) {
        (Some(x), Some(y)) => Some((x * 16 + y) as u8),
        (None, Some(y)) => if a == '+' {
            Some(y as u8)
        } else {
            None
        },
        _ => None,
    }
}

/// The color of a code of the form `#rrggbb`; its first character is not
/// looked at.
pub open spec fn hex_color(code: Seq<char>) -> Option<crate::color::Rgba8> {
    match (hex_pair(code[1], code[2]), hex_pair(code[3], code[4]), hex_pair(code[5], code[6])) {
        (Some(r), Some(g), Some(b)) => Some(crate::color::Rgba8 { r, g, b, a: 0xff }),
        _ => None,
    }
}

/// Calls `FromStr` of `rgx::color::Rgba8` on a code of seven ASCII
/// characters: it reads the three pairs after the first character with
/// `u8::from_str_radix` in base 16, and gives an opaque color.
#[verifier::external_body]
fn rgba8_from_code(code: &str) -> (c: Option<crate::color::Rgba8>)
    requires
        code@.len() == 7,
        forall|m: int| 0 <= m < 7 ==> (#[trigger] code@[m] as u32) < 128,
    ensures
        c == hex_color(code@),
{
    match <rgx::color::Rgba8 as std::str::FromStr>::from_str(code) {
        Ok(c) => Some(crate::color::Rgba8 { r: c.r, g: c.g, b: c.b, a: c.a }),
        Err(_) => None,
    }
}

/// The number of characters of `s` from `i` to `j` that make the longest
/// prefix of at most `n` bytes, and whether all of them do.
fn byte_prefix_len(s: &Vec<char>, i: usize, j: usize, n: usize) -> (r: (usize, bool))
    requires
        i <= j <= s@.len(),
        n <= 16,
    ensures
        r.0 <= j - i,
        s@.subrange(i as int, i + r.0) == byte_prefix(s@.subrange(i as int, j as int), n as nat),
        r.1 == (bytes_len(s@.subrange(i as int, j as int)) <= n),
{
    let ghost t = s@.subrange(i as int, j as int);
    let mut k: usize = 0;
    let mut bytes: usize = 0;
    let m = j - i;
    while k < m
        invariant
            m == t.len(),
            i + m == j,
            j <= s@.len(),
            k <= m,
            bytes == bytes_len(t.subrange(0, k as int)),
            bytes <= n,
            n <= 16,
            forall|q: int| 0 <= q < t.len() ==> #[trigger] t[q] == s@[i + q],
        ensures
            k <= m,
            bytes == bytes_len(t.subrange(0, k as int)),
            bytes <= n,
            k < m ==> bytes + utf8_len(t[k as int]) > n,
        decreases m - k,
    {
        let cl = char_utf8_len(s[i + k]);
        if bytes + cl > n {
            break;
        }
        proof {
            assert(t.subrange(0, k + 1) =~= t.subrange(0, k as int).push(t[k as int]));
            lemma_bytes_len_append(t.subrange(0, k as int), t[k as int]);
        }
        bytes = bytes + cl;
        k = k + 1;
    }
    proof {
        if k < m {
            assert(t.subrange(0, k + 1) =~= t.subrange(0, k as int).push(t[k as int]));
            lemma_bytes_len_append(t.subrange(0, k as int), t[k as int]);
            lemma_bytes_len_prefix(t, k + 1, m as int);
        }
        lemma_byte_prefix(t, k as int, n as nat);
        assert(t.subrange(0, m as int) =~= t);
        assert(s@.subrange(i as int, i + k) =~= t.subrange(0, k as int));
    }
    (k, k == m)
}

/// What a color token gives: the color, with the alpha after a `/` if there
/// is one, or a message.
pub open spec fn color_of_token(tok: Seq<char>) -> Result<crate::color::Rgba8, Seq<char>> {
    if bytes_len(tok) < 7 {
        Err(debug_str(tok) + " is not a valid color value"@)
    } else if !(tok.len() >= 7 && forall|m: int| 0 <= m < 7 ==> (#[trigger] tok[m] as u32) < 128) {
        Err("malformed color value `"@ + byte_prefix(tok, 7) + "`"@)
    } else {
        let code = tok.subrange(0, 7);
        match hex_color(code) {
            None => Err("malformed color value `"@ + code + "`"@),
            Some(c) => {
                let a = tok.subrange(7, tok.len() as int);
                if a.len() > 0 && a[0] == '/' {
                    match p_rational(a, 1) {
                        Ok((t, _)) => Ok(crate::color::Rgba8 { a: alpha_of(t), ..c }),
                        Err(_) => Ok(c),
                    }
                } else {
                    Ok(c)
                }
            },
        }
    }
}

/// A color at `i`, such as `#ff0000` or `#ff0000/0.5`. It consumes nothing
/// when it fails.
pub open spec fn p_color(s: Seq<char>, i: int) -> PRes<crate::color::Rgba8> {
    match p_run(s, i, CharClass::NotWs) {
        Err((m, _)) => Err((m, i)),
        Ok((tok, j)) => match color_of_token(tok) {
            Ok(c) => Ok((c, j)),
            Err(m) => Err((m, i)),
        },
    }
}

/// A color at `i`, such as `#ff0000` or `#ff0000/0.5`.
pub fn color(s: &Vec<char>, i: usize) -> (r: Result<(crate::color::Rgba8, usize), (String, usize)>)
    requires
        i <= s@.len(),
    ensures
        r matches Err((e, q)) ==> q <= s@.len(),
        res_view(r) == p_color(s@, i as int),
        r matches Ok((c, j)) ==> i < j <= s@.len(),
{
    let j = match many(s, i, CharClass::NotWs) {
        Err((m, _)) => {
            return Err((m, i));
        },
        Ok(j) => j,
    };
    let ghost tok = s@.subrange(i as int, j as int);
    let (k7, short) = byte_prefix_len(s, i, j, 6);
    if short {
        // Fewer than seven bytes.
        proof {
            assert(bytes_len(tok) < 7);
        }
        let mut m = String::new();
        push_debug_str(&mut m, s, i, j);
        m.append(" is not a valid color value");
        return Err((m, i));
    }
    let mut ascii = j - i >= 7;
    if ascii {
        let mut q: usize = 0;
        while q < 7
            invariant
                q <= 7,
                i + 7 <= j <= s@.len(),
                ascii == forall|m: int| 0 <= m < q ==> (#[trigger] s@[i + m] as u32) < 128,
            decreases 7 - q,
        {
            if s[i + q] as u32 >= 128 {
                ascii = false;
            }
            q = q + 1;
        }
        proof {
            if ascii {
                assert forall|m: int| 0 <= m < 7 implies (#[trigger] tok[m] as u32) < 128 by {
                    assert(tok[m] == s@[i + m]);
                }
            } else {
                let m = choose|m: int| 0 <= m < 7 && !((#[trigger] s@[i + m] as u32) < 128);
                assert(tok[m] == s@[i + m]);
            }
        }
    }
    if !ascii {
        let (k, _) = byte_prefix_len(s, i, j, 7);
        let mut m = String::new();
        m.append("malformed color value `");
        m.append(text(s, i, i + k).as_str());
        m.append("`");
        proof {
            assert(bytes_len(tok) >= 7);
        }
        return Err((m, i));
    }
    let code = text(s, i, i + 7);
    proof {
        assert(code@ =~= tok.subrange(0, 7));
        assert(bytes_len(tok) >= 7);
    }
    match rgba8_from_code(code.as_str()) {
        None => {
            let mut m = String::new();
            m.append("malformed color value `");
            m.append(code.as_str());
            m.append("`");
            Err((m, i))
        },
        Some(c) => {
            let a = vstd::slice::slice_to_vec(vstd::slice::slice_subrange(s.as_slice(), i + 7, j));
            assert(a@ =~= tok.subrange(7, tok.len() as int));
            if a.len() > 0 && a[0] == '/' {
                match rational(&a, 1) {
                    Ok((t, _)) => {
                        let tc = crate::text::chars_of(t.text.as_str());
                        proof {
                            let neg = 1 < a@.len() && a@[1] == '-';
                            let k = if neg { 2int } else { 1int };
                            lemma_run_end(a@, k, CharClass::DigitOrDot);
                            if !neg {
                                let run = a@.subrange(k, run_end(a@, k, CharClass::DigitOrDot));
                                assert(tc@ == run);
                                assert forall|m: int| 0 <= m < tc@.len() implies ('0' <= #[trigger] tc@[m] <= '9' || tc@[m] == '.') by {
                                    assert(tc@[m] == a@[k + m]);
                                }
                            }
                        }
                        let alpha = alpha_from(&tc);
                        Ok((c.alpha(alpha), j))
                    },
                    Err(_) => Ok((c, j)),
                }
            } else {
                Ok((c, j))
            }
        },
    }
}

/// Whether the characters of `s` from `i` to `j` spell `lit`.
pub fn eq_str(s: &Vec<char>, i: usize, j: usize, lit: &str) -> (b: bool)
    requires
        i <= j <= s@.len(),
    ensures
        b == (s@.subrange(i as int, j as int) == lit@),
{
    let w = crate::text::chars_of(lit);
    if w.len() != j - i {
        return false;
    }
    let mut k: usize = 0;
    while k < w.len()
        invariant
            k <= w@.len(),
            w@.len() == j - i,
            j <= s@.len(),
            w@ == lit@,
            forall|m: int| 0 <= m < k ==> s@[i + m] == w@[m],
        decreases w@.len() - k,
    {
        if s[i + k] != w[k] {
            assert(s@.subrange(i as int, j as int)[k as int] != lit@[k as int]);
            return false;
        }
        k = k + 1;
    }
    assert(s@.subrange(i as int, j as int) =~= lit@);
    true
}

/// The key that a name in angle brackets stands for.
pub open spec fn control_key(name: Seq<char>) -> Option<Key> {
    if name == "up"@ {
        Some(Key::Up)
    } else if name == "down"@ {
        Some(Key::Down)
    } else if name == "left"@ {
        Some(Key::Left)
    } else if name == "right"@ {
        Some(Key::Right)
    } else if name == "ctrl"@ {
        Some(Key::Control)
    } else if name == "alt"@ {
        Some(Key::Alt)
    } else if name == "shift"@ {
        Some(Key::Shift)
    } else if name == "space"@ {
        Some(Key::Space)
    } else if name == "return"@ {
        Some(Key::Return)
    } else if name == "backspace"@ {
        Some(Key::Backspace)
    } else if name == "tab"@ {
        Some(Key::Tab)
    } else if name == "end"@ {
        Some(Key::End)
    } else if name == "esc"@ {
        Some(Key::Escape)
    } else {
        None
    }
}

fn control_key_of(s: &Vec<char>, i: usize, j: usize) -> (k: Option<Key>)
    requires
        i <= j <= s@.len(),
    ensures
        k == control_key(s@.subrange(i as int, j as int)),
{
    if eq_str(s, i, j, "up") {
        Some(Key::Up)
    } else if eq_str(s, i, j, "down") {
        Some(Key::Down)
    } else if eq_str(s, i, j, "left") {
        Some(Key::Left)
    } else if eq_str(s, i, j, "right") {
        Some(Key::Right)
    } else if eq_str(s, i, j, "ctrl") {
        Some(Key::Control)
    } else if eq_str(s, i, j, "alt") {
        Some(Key::Alt)
    } else if eq_str(s, i, j, "shift") {
        Some(Key::Shift)
    } else if eq_str(s, i, j, "space") {
        Some(Key::Space)
    } else if eq_str(s, i, j, "return") {
        Some(Key::Return)
    } else if eq_str(s, i, j, "backspace") {
        Some(Key::Backspace)
    } else if eq_str(s, i, j, "tab") {
        Some(Key::Tab)
    } else if eq_str(s, i, j, "end") {
        Some(Key::End)
    } else if eq_str(s, i, j, "esc") {
        Some(Key::Escape)
    } else {
        None
    }
}

/// A key at `i`: a name in angle brackets, such as `<ctrl>`, or a
/// character that types a key.
pub open spec fn p_key(s: Seq<char>, i: int) -> PRes<Key> {
    if i < s.len() && s[i] == '<' {
        let a = run_end(s, i + 1, CharClass::Alpha);
        if !(a < s.len() && s[a] == '>') {
            Err((expect_msg("'>'"@, rest_of(s, a)), a))
        } else {
            let name = s.subrange(i + 1, a);
            match control_key(name) {
                Some(k) => Ok((k, a + 1)),
                None => Err(("unknown key <"@ + name + ">"@, a + 1)),
            }
        }
    } else if i >= s.len() {
        Err((expect_msg("<character>"@, rest_of(s, i)), i))
    } else if key_of_char(s[i]) == Key::Unknown {
        Err(("unknown key "@ + debug_char(s[i]), i + 1))
    } else {
        Ok((key_of_char(s[i]), i + 1))
    }
}

/// A key at `i`.
pub fn key(s: &Vec<char>, i: usize) -> (r: Result<(Key, usize), (String, usize)>)
    requires
        i <= s@.len(),
    ensures
        r matches Err((e, q)) ==> q <= s@.len(),
        res_view(r) == p_key(s@, i as int),
        r matches Ok((k, j)) ==> i < j <= s@.len(),
{
    if i < s.len() && s[i] == '<' {
        let a = scan(s, i + 1, CharClass::Alpha);
        if !(a < s.len() && s[a] == '>') {
            return Err((expect_at("'>'", s, a), a));
        }
        match control_key_of(s, i + 1, a) {
            Some(k) => Ok((k, a + 1)),
            None => {
                let mut m = String::new();
                m.append("unknown key <");
                m.append(text(s, i + 1, a).as_str());
                m.append(">");
                Err((m, a + 1))
            },
        }
    } else if i >= s.len() {
        Err((expect_at("<character>", s, i), i))
    } else {
        let k = Key::from(s[i]);
        if k == Key::Unknown {
            let mut m = String::new();
            m.append("unknown key ");
            push_debug_char(&mut m, s[i]);
            Err((m, i + 1))
        } else {
            Ok((k, i + 1))
        }
    }
}

/// An input state at `i`: `pressed`, `released` or `repeated`.
pub open spec fn p_input_state(s: Seq<char>, i: int) -> PRes<InputState> {
    match p_run(s, i, CharClass::Alpha) {
        Err(e) => Err(e),
        Ok((w, j)) => if w == "pressed"@ {
            Ok((InputState::Pressed, j))
        } else if w == "released"@ {
            Ok((InputState::Released, j))
        } else if w == "repeated"@ {
            Ok((InputState::Repeated, j))
        } else {
            Err(("unknown input state: "@ + w, j))
        },
    }
}

pub fn input_state(s: &Vec<char>, i: usize) -> (r: Result<(InputState, usize), (String, usize)>)
    requires
        i <= s@.len(),
    ensures
        r matches Err((e, q)) ==> q <= s@.len(),
        res_view(r) == p_input_state(s@, i as int),
        r matches Ok((v, j)) ==> i <= j <= s@.len(),
{
    let j = match many(s, i, CharClass::Alpha) {
        Err(e) => {
            return Err(e);
        },
        Ok(j) => j,
    };
    if eq_str(s, i, j, "pressed") {
        Ok((InputState::Pressed, j))
    } else if eq_str(s, i, j, "released") {
        Ok((InputState::Released, j))
    } else if eq_str(s, i, j, "repeated") {
        Ok((InputState::Repeated, j))
    } else {
        let mut m = String::new();
        m.append("unknown input state: ");
        m.append(text(s, i, j).as_str());
        Err((m, j))
    }
}

/// A direction at `i`: `+` or `-`.
pub open spec fn p_direction(s: Seq<char>, i: int) -> PRes<Direction> {
    if i >= s.len() {
        Err((expect_msg("<character>"@, rest_of(s, i)), i))
    } else if s[i] == '+' {
        Ok((Direction::Forward, i + 1))
    } else if s[i] == '-' {
        Ok((Direction::Backward, i + 1))
    } else {
        Err(("direction must be either `+` or `-`"@, i + 1))
    }
}

pub fn direction(s: &Vec<char>, i: usize) -> (r: Result<(Direction, usize), (String, usize)>)
    requires
        i <= s@.len(),
    ensures
        r matches Err((e, q)) ==> q <= s@.len(),
        res_view(r) == p_direction(s@, i as int),
        r matches Ok((v, j)) ==> i <= j <= s@.len(),
{
    if i >= s.len() {
        Err((expect_at("<character>", s, i), i))
    } else if s[i] == '+' {
        Ok((Direction::Forward, i + 1))
    } else if s[i] == '-' {
        Ok((Direction::Backward, i + 1))
    } else {
        let mut m = String::new();
        m.append("direction must be either `+` or `-`");
        Err((m, i + 1))
    }
}

/// A session mode at `i`: `command`, `normal`, `visual` or `present`.
pub open spec fn p_mode(s: Seq<char>, i: int) -> PRes<Mode> {
    match p_run(s, i, CharClass::Ident) {
        Err(e) => Err(e),
        Ok((w, j)) => if w == "command"@ {
            Ok((Mode::Command, j))
        } else if w == "normal"@ {
            Ok((Mode::Normal, j))
        } else if w == "visual"@ {
            Ok((Mode::Visual(VisualState::Selecting { dragging: false }), j))
        } else if w == "present"@ {
            Ok((Mode::Present, j))
        } else {
            Err(("unknown mode: "@ + w, i))
        },
    }
}

pub fn mode(s: &Vec<char>, i: usize) -> (r: Result<(Mode, usize), (String, usize)>)
    requires
        i <= s@.len(),
    ensures
        r matches Err((e, q)) ==> q <= s@.len(),
        res_view(r) == p_mode(s@, i as int),
        r matches Ok((v, j)) ==> i <= j <= s@.len(),
{
    let j = match many(s, i, CharClass::Ident) {
        Err(e) => {
            return Err(e);
        },
        Ok(j) => j,
    };
    if eq_str(s, i, j, "command") {
        Ok((Mode::Command, j))
    } else if eq_str(s, i, j, "normal") {
        Ok((Mode::Normal, j))
    } else if eq_str(s, i, j, "visual") {
        Ok((Mode::Visual(VisualState::default()), j))
    } else if eq_str(s, i, j, "present") {
        Ok((Mode::Present, j))
    } else {
        let mut m = String::new();
        m.append("unknown mode: ");
        m.append(text(s, i, j).as_str());
        Err((m, i))
    }
}

/// A brush mode at `i`, by its name.
pub open spec fn p_brush_mode(s: Seq<char>, i: int) -> PRes<BrushMode> {
    match p_run(s, i, CharClass::Ident) {
        Err(e) => Err(e),
        Ok((w, j)) => if w == "erase"@ {
            Ok((BrushMode::Erase, j))
        } else if w == "multi"@ {
            Ok((BrushMode::Multi, j))
        } else if w == "perfect"@ {
            Ok((BrushMode::Perfect, j))
        } else if w == "xsym"@ {
            Ok((BrushMode::XSym, j))
        } else if w == "ysym"@ {
            Ok((BrushMode::YSym, j))
        } else if w == "xray"@ {
            Ok((BrushMode::XRay, j))
        } else {
            Err(("unknown brush mode '"@ + w + "'"@, i))
        },
    }
}

pub fn brush_mode(s: &Vec<char>, i: usize) -> (r: Result<(BrushMode, usize), (String, usize)>)
    requires
        i <= s@.len(),
    ensures
        r matches Err((e, q)) ==> q <= s@.len(),
        res_view(r) == p_brush_mode(s@, i as int),
        r matches Ok((v, j)) ==> i <= j <= s@.len(),
{
    let j = match many(s, i, CharClass::Ident) {
        Err(e) => {
            return Err(e);
        },
        Ok(j) => j,
    };
    if eq_str(s, i, j, "erase") {
        Ok((BrushMode::Erase, j))
    } else if eq_str(s, i, j, "multi") {
        Ok((BrushMode::Multi, j))
    } else if eq_str(s, i, j, "perfect") {
        Ok((BrushMode::Perfect, j))
    } else if eq_str(s, i, j, "xsym") {
        Ok((BrushMode::XSym, j))
    } else if eq_str(s, i, j, "ysym") {
        Ok((BrushMode::YSym, j))
    } else if eq_str(s, i, j, "xray") {
        Ok((BrushMode::XRay, j))
    } else {
        let mut m = String::new();
        m.append("unknown brush mode '");
        m.append(text(s, i, j).as_str());
        m.append("'");
        Err((m, i))
    }
}

} // verus!
