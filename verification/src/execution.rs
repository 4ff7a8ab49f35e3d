use crate::cmd::dec;
use crate::color::Bgra8;
use crate::event::{
    as_read, law_timed_round_trip, p_timed, round_trips, timed_text, writable, TimedEvent, TimedEventModel,
};
use crate::text::{chars_of, push_char};
use std::collections::VecDeque;
use std::hash::Hasher;
use vstd::prelude::*;

verus! {

/// Whether a gif of the session is recorded.
#[derive(Clone, Copy, Debug, PartialEq, Eq, Structural)]
pub enum GifMode {
    Ignore,
    Record,
}

/// Determines whether frame digests are recorded, verified or ignored.
#[derive(Clone, Copy, Debug, PartialEq, Eq, Structural)]
pub enum DigestMode {
    /// Verify digests.
    Verify,
    /// Record digests.
    Record,
    /// Ignore digest.
    Ignore,
}

/// How the session is executed: normally, recording inputs or replaying
/// them. Paths name the directory of the recording.
#[derive(Clone, Debug)]
pub enum ExecutionMode {
    Normal,
    Record(String, DigestMode, GifMode),
    Replay(String, DigestMode),
}

////////////////////////////////////////////////////////////////////////////////
// Frame hashes.

/// A frame hash.
#[derive(Clone, Copy, Debug, PartialEq, Eq, Structural)]
pub struct Hash(pub u64);

/// Why a hash could not be read.
#[derive(Clone, Copy, Debug, PartialEq, Eq, Structural)]
pub enum HashParseError {
    /// The input is empty.
    Empty,
    /// The input holds a character that is not a hex digit.
    InvalidDigit,
    /// The value does not fit in 64 bits.
    PosOverflow,
}

pub open spec fn is_hex_digit(c: char) -> bool {
    ('0' <= c <= '9') || ('a' <= c <= 'f') || ('A' <= c <= 'F')
}

pub open spec fn hex_digit_value(c: char) -> int {
    if '0' <= c <= '9' {
        c as int - '0' as int
    } else if 'a' <= c <= 'f' {
        c as int - 'a' as int + 10
    } else {
        c as int - 'A' as int + 10
    }
}

/// Reading hex digits from left to right, failing at the first character
/// that is not a digit or at the first digit that overflows 64 bits.
pub open spec fn hex_scan(s: Seq<char>) -> Result<int, HashParseError>
    decreases s.len(),
{
    if s.len() == 0 {
        Ok(0)
    } else {
        match hex_scan(s.drop_last()) {
            Err(e) => Err(e),
            Ok(v) => if !is_hex_digit(s.last()) {
                Err(HashParseError::InvalidDigit)
            } else if v * 16 + hex_digit_value(s.last()) > u64::MAX {
                Err(HashParseError::PosOverflow)
            } else {
                Ok(v * 16 + hex_digit_value(s.last()))
            },
        }
    }
}

/// Parsing an unsigned hexadecimal number, with an optional leading `+`.
pub open spec fn parse_hex(s: Seq<char>) -> Result<u64, HashParseError> {
    if s.len() == 0 {
        Err(HashParseError::Empty)
    } else {
        let body = if s[0] == '+' { s.drop_first() } else { s };
        if body.len() == 0 {
            Err(HashParseError::InvalidDigit)
        } else {
            match hex_scan(body) {
                Ok(v) => Ok(v as u64),
                Err(e) => Err(e),
            }
        }
    }
}

pub open spec fn hex_char(d: int) -> char {
    if d < 10 {
        ('0' as int + d) as char
    } else {
        ('a' as int + d - 10) as char
    }
}

/// The last `n` hex digits of `v`, most significant first.
pub open spec fn hex_digits(v: int, n: nat) -> Seq<char>
    decreases n,
{
    if n == 0 {
        Seq::empty()
    } else {
        hex_digits(v / 16, (n - 1) as nat).push(hex_char(v % 16))
    }
}

proof fn lemma_hex_digit(d: int)
    requires
        0 <= d < 16,
    ensures
        is_hex_digit(hex_char(d)),
        hex_digit_value(hex_char(d)) == d,
{
}

pub open spec fn pow16(n: nat) -> int
    decreases n,
{
    if n == 0 {
        1
    } else {
        16 * pow16((n - 1) as nat)
    }
}

proof fn lemma_pow16_bounds(n: nat)
    requires
        n <= 16,
    ensures
        0 < pow16(n) <= pow16(16),
        pow16(16) == 0x1_0000_0000_0000_0000,
    decreases 16 - n,
{
    reveal_with_fuel(pow16, 17);
    if n < 16 {
        lemma_pow16_bounds(n + 1);
    }
}

/// Reading `n` digits written by `hex_digits` gives back the value modulo
/// `16^n`.
proof fn lemma_hex_scan_digits(v: int, n: nat)
    requires
        0 <= v,
        n <= 16,
    ensures
        hex_scan(hex_digits(v, n)) == Ok::<int, HashParseError>(v % pow16(n)),
    decreases n,
{
    if n == 0 {
        assert(hex_digits(v, n) =~= Seq::<char>::empty());
    } else {
        lemma_hex_scan_digits(v / 16, (n - 1) as nat);
        let s = hex_digits(v, n);
        assert(s.drop_last() =~= hex_digits(v / 16, (n - 1) as nat));
        lemma_hex_digit(v % 16);
        let p = pow16((n - 1) as nat);
        lemma_pow16_bounds(n);
        lemma_pow16_bounds((n - 1) as nat);
        vstd::arithmetic::div_mod::lemma_breakdown(v, 16, p);
        vstd::arithmetic::div_mod::lemma_mod_bound(v, 16 * p);
        assert(((v / 16) % p) * 16 + v % 16 == v % (16 * p));
    }
}

/// An error found while reading a prefix is the error of the whole input.
proof fn lemma_hex_scan_err_extends(s: Seq<char>, k: int, e: HashParseError)
    requires
        0 <= k <= s.len(),
        hex_scan(s.subrange(0, k)) == Err::<int, HashParseError>(e),
    ensures
        hex_scan(s) == Err::<int, HashParseError>(e),
    decreases s.len() - k,
{
    if k < s.len() {
        assert(s.subrange(0, k + 1).drop_last() =~= s.subrange(0, k));
        lemma_hex_scan_err_extends(s, k + 1, e);
    } else {
        assert(s.subrange(0, k) =~= s);
    }
}

/// The hex digit for a value below 16.
fn hex_digit_char(d: u64) -> (c: char)
    requires
        d < 16,
    ensures
        c == hex_char(d as int),
{
    if d == 0 { '0' } else if d == 1 { '1' } else if d == 2 { '2' } else if d == 3 { '3' }
    else if d == 4 { '4' } else if d == 5 { '5' } else if d == 6 { '6' } else if d == 7 { '7' }
    else if d == 8 { '8' } else if d == 9 { '9' } else if d == 10 { 'a' } else if d == 11 { 'b' }
    else if d == 12 { 'c' } else if d == 13 { 'd' } else if d == 14 { 'e' } else { 'f' }
}

impl Hash {
    /// Read a hash written in hex.
    pub fn from_str(input: &str) -> (r: Result<Hash, HashParseError>)
        ensures
            r == (match parse_hex(input@) {
                Ok(v) => Ok(Hash(v)),
                Err(e) => Err(e),
            }),
    {
        let cs = chars_of(input);
        if cs.len() == 0 {
            return Err(HashParseError::Empty);
        }
        let start: usize = if cs[0] == '+' { 1 } else { 0 };
        let ghost body = if cs@[0] == '+' { cs@.drop_first() } else { cs@ };
        assert(body =~= cs@.subrange(start as int, cs@.len() as int));
        if start == cs.len() {
            return Err(HashParseError::InvalidDigit);
        }
        let mut v: u64 = 0;
        let mut i: usize = start;
        while i < cs.len()
            invariant
                start <= i <= cs@.len(),
                cs@ == input@,
                cs@.len() > 0,
                start < cs@.len(),
                body == (if cs@[0] == '+' { cs@.drop_first() } else { cs@ }),
                body == cs@.subrange(start as int, cs@.len() as int),
                hex_scan(cs@.subrange(start as int, i as int)) == Ok::<int, HashParseError>(v as int),
            decreases cs@.len() - i,
        {
            let c = cs[i];
            let ghost prefix = cs@.subrange(start as int, i + 1);
            assert(prefix.drop_last() =~= cs@.subrange(start as int, i as int));
            let d: u64 = if '0' <= c && c <= '9' {
                (c as u64) - ('0' as u64)
            } else if 'a' <= c && c <= 'f' {
                (c as u64) - ('a' as u64) + 10
            } else if 'A' <= c && c <= 'F' {
                (c as u64) - ('A' as u64) + 10
            } else {
                proof {
                    assert(prefix.last() == c);
                    assert(hex_scan(prefix) == Err::<int, HashParseError>(HashParseError::InvalidDigit));
                    assert(body.subrange(0, i - start + 1) =~= prefix);
                    lemma_hex_scan_err_extends(body, i - start + 1, HashParseError::InvalidDigit);
                    assert(body.len() > 0);
                    assert(hex_scan(body) == Err::<int, HashParseError>(HashParseError::InvalidDigit));
                    assert(parse_hex(input@) == Err::<u64, HashParseError>(HashParseError::InvalidDigit));
                }
                return Err(HashParseError::InvalidDigit);
            };
            if v > (u64::MAX - d) / 16 {
                proof {
                    assert(v * 16 + d > u64::MAX) by (nonlinear_arith)
                        requires
                            v > (u64::MAX - d) / 16,
                            d < 16,
                    ;
                    assert(prefix.last() == c);
                    assert(hex_digit_value(c) == d);
                    assert(hex_scan(prefix) == Err::<int, HashParseError>(HashParseError::PosOverflow));
                    assert(body.subrange(0, i - start + 1) =~= prefix);
                    lemma_hex_scan_err_extends(body, i - start + 1, HashParseError::PosOverflow);
                    assert(parse_hex(input@) == Err::<u64, HashParseError>(HashParseError::PosOverflow));
                }
                return Err(HashParseError::PosOverflow);
            }
            proof {
                assert(v * 16 + d <= u64::MAX) by (nonlinear_arith)
                    requires
                        v <= (u64::MAX - d) / 16,
                        d < 16,
                ;
            }
            v = v * 16 + d;
            i = i + 1;
        }
        assert(cs@.subrange(start as int, cs@.len() as int) == body);
        Ok(Hash(v))
    }

    /// The hash as 16 lowercase hex digits.
    pub fn to_hex(&self) -> (s: String)
        ensures
            s@ == hex_digits(self.0 as int, 16),
    {
        let mut digits: Vec<char> = Vec::new();
        let mut v: u64 = self.0;
        let mut n: usize = 0;
        while n < 16
            invariant
                n <= 16,
                digits@.len() == n,
                hex_digits(self.0 as int, 16) == hex_digits(v as int, (16 - n) as nat) + digits@.reverse(),
            decreases 16 - n,
        {
            let d = v % 16;
            let c = hex_digit_char(d);
            proof {
                let m = (16 - n) as nat;
                assert(hex_digits(v as int, m) == hex_digits((v / 16) as int, (m - 1) as nat).push(hex_char((v % 16) as int)));
                assert(digits@.push(c).reverse() =~= seq![c] + digits@.reverse());
                assert(hex_digits(self.0 as int, 16) =~= hex_digits((v / 16) as int, (m - 1) as nat) + digits@.push(c).reverse());
            }
            digits.push(c);
            v = v / 16;
            n = n + 1;
        }
        let mut s = String::new();
        let mut k: usize = 16;
        while k > 0
            invariant
                k <= 16,
                digits@.len() == 16,
                s@ == digits@.reverse().subrange(0, 16 - k),
            decreases k,
        {
            k = k - 1;
            push_char(&mut s, digits[k]);
            proof {
                assert(s@ =~= digits@.reverse().subrange(0, 16 - k));
            }
        }
        assert(hex_digits(v as int, 0) =~= Seq::<char>::empty());
        assert(digits@.reverse().subrange(0, 16) =~= digits@.reverse());
        s
    }
}

/// Reading a hash written by `to_hex` gives back the hash.
pub proof fn law_hash_hex_roundtrip(h: Hash)
    ensures
        parse_hex(hex_digits(h.0 as int, 16)) == Ok::<u64, HashParseError>(h.0),
{
    lemma_hex_scan_digits(h.0 as int, 16);
    lemma_pow16_bounds(16);
    vstd::arithmetic::div_mod::lemma_small_mod(h.0 as nat, pow16(16) as nat);
    lemma_hex_digits_shape(h.0 as int, 16);
}

/// `hex_digits` writes exactly `n` hex digits.
proof fn lemma_hex_digits_shape(v: int, n: nat)
    requires
        v >= 0,
    ensures
        hex_digits(v, n).len() == n,
        forall|i: int| 0 <= i < n ==> is_hex_digit(#[trigger] hex_digits(v, n)[i]),
    decreases n,
{
    if n > 0 {
        lemma_hex_digits_shape(v / 16, (n - 1) as nat);
        lemma_hex_digit(v % 16);
    }
}

////////////////////////////////////////////////////////////////////////////////
// Digests.

/// Digest settings of a recording or replay.
pub struct DigestState {
    pub mode: DigestMode,
    pub path: Option<String>,
}

pub open spec fn opt_string_view(o: Option<String>) -> Option<Seq<char>> {
    match o {
        Some(s) => Some(s@),
        None => None,
    }
}

/// Whether every line of a digest file is a hash.
pub open spec fn all_hashes(lines: Seq<String>) -> bool {
    forall|i: int| 0 <= i < lines.len() ==> parse_hex(#[trigger] lines[i]@) is Ok
}

/// The error of the first line that is not a hash.
pub open spec fn first_hash_error(lines: Seq<String>) -> Option<HashParseError>
    decreases lines.len(),
{
    if lines.len() == 0 {
        None
    } else {
        match parse_hex(lines[0]@) {
            Err(e) => Some(e),
            Ok(_) => first_hash_error(lines.drop_first()),
        }
    }
}

impl DigestState {
    /// Digests in the given mode, stored at `path`. In `Verify` mode the lines
    /// of the digest file must all be hashes.
    pub fn from(mode: DigestMode, path: &str, lines: &[String]) -> (r: Result<Self, HashParseError>)
        ensures
            mode == DigestMode::Verify ==> (match first_hash_error(lines@) {
                Some(e) => r == Err::<Self, HashParseError>(e),
                None => r matches Ok(d) && d.mode == DigestMode::Verify && opt_string_view(d.path) == Some(path@),
            }),
            mode == DigestMode::Record ==> (r matches Ok(d) && d.mode == DigestMode::Record && opt_string_view(d.path) == Some(path@)),
            mode == DigestMode::Ignore ==> (r matches Ok(d) && d.mode == DigestMode::Ignore && d.path is None),
    {
        match mode {
            DigestMode::Verify => Self::verify(path, lines),
            DigestMode::Record => Self::record(path),
            DigestMode::Ignore => Self::ignore(),
        }
    }

    /// Verify digests: every line of the digest file must be a hash.
    pub fn verify(path: &str, lines: &[String]) -> (r: Result<Self, HashParseError>)
        ensures
            match first_hash_error(lines@) {
                Some(e) => r == Err::<Self, HashParseError>(e),
                None => r matches Ok(d) && d.mode == DigestMode::Verify && opt_string_view(d.path) == Some(path@),
            },
    {
        let mut i: usize = 0;
        assert(lines@.subrange(0, lines@.len() as int) =~= lines@);
        while i < lines.len()
            invariant
                i <= lines@.len(),
                first_hash_error(lines@) == first_hash_error(lines@.subrange(i as int, lines@.len() as int)),
            decreases lines@.len() - i,
        {
            let ghost rest = lines@.subrange(i as int, lines@.len() as int);
            assert(rest.drop_first() =~= lines@.subrange(i + 1, lines@.len() as int));
            assert(rest[0] == lines@[i as int]);
            match Hash::from_str(lines[i].as_str()) {
                Ok(_) => {},
                Err(e) => {
                    return Err(e);
                },
            }
            i = i + 1;
        }
        assert(lines@.subrange(i as int, lines@.len() as int) =~= Seq::<String>::empty());
        Ok(Self { mode: DigestMode::Verify, path: Some(path.to_owned()) })
    }

    /// Record digests to `path`.
    pub fn record(path: &str) -> (r: Result<Self, HashParseError>)
        ensures
            r matches Ok(d) && d.mode == DigestMode::Record && opt_string_view(d.path) == Some(path@),
    {
        Ok(Self { mode: DigestMode::Record, path: Some(path.to_owned()) })
    }

    /// Ignore digests.
    pub fn ignore() -> (r: Result<Self, HashParseError>)
        ensures
            r matches Ok(d) && d.mode == DigestMode::Ignore && d.path is None,
    {
        Ok(Self { mode: DigestMode::Ignore, path: None })
    }
}

////////////////////////////////////////////////////////////////////////////////
// Frame recording and verification.

/// The SeaHash of a byte sequence, with the hasher's default seeds.
pub uninterp spec fn seahash(bytes: Seq<u8>) -> u64;

/// Calls `SeaHasher::new`, `write` and `finish`: the SeaHash of the bytes.
#[verifier::external_body]
fn seahash_bytes(bytes: &[u8]) -> (h: u64)
    ensures
        h == seahash(bytes@),
{
    let mut hasher = seahash::SeaHasher::new();
    hasher.write(bytes);
    hasher.finish()
}

/// The bytes of a framebuffer in memory order: blue, green, red, alpha.
pub open spec fn bgra_bytes(p: Seq<Bgra8>) -> Seq<u8>
    decreases p.len(),
{
    if p.len() == 0 {
        Seq::empty()
    } else {
        let c = p.last();
        bgra_bytes(p.drop_last()) + seq![c.b, c.g, c.r, c.a]
    }
}

/// The hash of a frame.
pub open spec fn frame_hash(data: Seq<Bgra8>) -> Hash {
    Hash(seahash(bgra_bytes(data)))
}

/// The outcome of verifying one frame.
#[derive(Clone, Copy, Debug, PartialEq, Eq, Structural)]
pub enum VerifyResult {
    /// The hash has already been verified.
    Stale(Hash),
    /// The actual and expected hashes match.
    Okay(Hash),
    /// The actual and expected hashes don't match.
    Failed(Hash, Hash),
    /// There are no further expected hashes.
    EOF,
}

/// The hashes kept after recording a frame with hash `h`: a frame that
/// differs from the last one is kept when digests or a gif are recorded.
pub open spec fn frames_after_record(frames: Seq<Hash>, modes: (GifMode, DigestMode), h: Hash) -> Seq<Hash> {
    let is_new = frames.len() == 0 || frames.last() != h;
    if is_new && (modes.1 == DigestMode::Record || modes.0 == GifMode::Record) {
        frames.push(h)
    } else {
        frames
    }
}

/// Verifying a frame with hash `actual` against the expected hashes: the
/// hashes left, the last hash verified, and the outcome. A frame that
/// repeats the last one verified is stale and verifies nothing.
pub open spec fn verify_outcome(frames: Seq<Hash>, last: Option<Hash>, actual: Hash) -> (Seq<Hash>, Option<Hash>, VerifyResult) {
    if frames.len() == 0 {
        (frames, last, VerifyResult::EOF)
    } else if last == Some(actual) {
        (frames, last, VerifyResult::Stale(actual))
    } else {
        (frames.drop_first(), Some(actual), if actual == frames[0] {
            VerifyResult::Okay(actual)
        } else {
            VerifyResult::Failed(actual, frames[0])
        })
    }
}

/// The counts of okay, failed and stale frames after an outcome.
pub open spec fn counts_after(c: (u32, u32, u32), r: VerifyResult) -> (u32, u32, u32) {
    match r {
        VerifyResult::Okay(_) => ((c.0 + 1) as u32, c.1, c.2),
        VerifyResult::Failed(_, _) => (c.0, (c.1 + 1) as u32, c.2),
        VerifyResult::Stale(_) => (c.0, c.1, (c.2 + 1) as u32),
        VerifyResult::EOF => c,
    }
}

/// The counts of okay, failed and stale frames after recording the results
/// `vs` in turn, from the counts `c`.
pub open spec fn counts_over(c: (u32, u32, u32), vs: Seq<VerifyResult>) -> (u32, u32, u32)
    decreases vs.len(),
{
    if vs.len() == 0 {
        c
    } else {
        counts_after(counts_over(c, vs.drop_last()), vs.last())
    }
}

/// Whether a replay is done after recording the results `vs` in turn, from
/// `done`.
pub open spec fn eof_over(done: bool, vs: Seq<VerifyResult>) -> bool
    decreases vs.len(),
{
    if vs.len() == 0 {
        done
    } else {
        eof_over(done, vs.drop_last()) || vs.last() == VerifyResult::EOF
    }
}

/// The number of failed frames among `vs`.
pub open spec fn failures(vs: Seq<VerifyResult>) -> nat
    decreases vs.len(),
{
    if vs.len() == 0 {
        0
    } else {
        failures(vs.drop_last()) + if vs.last() is Failed {
            1nat
        } else {
            0nat
        }
    }
}

/// No frame failed exactly when none of the results is a failure.
proof fn lemma_no_failures(vs: Seq<VerifyResult>)
    ensures
        (failures(vs) == 0) == !(exists|i: int| 0 <= i < vs.len() && #[trigger] vs[i] is Failed),
    decreases vs.len(),
{
    if vs.len() > 0 {
        let d = vs.drop_last();
        lemma_no_failures(d);
        if exists|i: int| 0 <= i < d.len() && #[trigger] d[i] is Failed {
            let i = choose|i: int| 0 <= i < d.len() && #[trigger] d[i] is Failed;
            assert(vs[i] == d[i]);
        }
        if exists|i: int| 0 <= i < vs.len() && #[trigger] vs[i] is Failed {
            let i = choose|i: int| 0 <= i < vs.len() && #[trigger] vs[i] is Failed;
            if i < d.len() {
                assert(d[i] == vs[i]);
            }
        }
    }
}

proof fn lemma_failures(vs: Seq<VerifyResult>)
    requires
        vs.len() < u32::MAX,
    ensures
        counts_over((0u32, 0u32, 0u32), vs).1 == failures(vs),
        counts_over((0u32, 0u32, 0u32), vs).0 <= vs.len(),
        counts_over((0u32, 0u32, 0u32), vs).2 <= vs.len(),
        failures(vs) <= vs.len(),
        (failures(vs) == 0) == !(exists|i: int| 0 <= i < vs.len() && #[trigger] vs[i] is Failed),
    decreases vs.len(),
{
    if vs.len() > 0 {
        let d = vs.drop_last();
        lemma_failures(d);
        if exists|i: int| 0 <= i < d.len() && #[trigger] d[i] is Failed {
            let i = choose|i: int| 0 <= i < d.len() && #[trigger] d[i] is Failed;
            assert(vs[i] == d[i]);
        }
        if exists|i: int| 0 <= i < vs.len() && #[trigger] vs[i] is Failed {
            let i = choose|i: int| 0 <= i < vs.len() && #[trigger] vs[i] is Failed;
            if i < d.len() {
                assert(d[i] == vs[i]);
            }
        }
    }
}

/// A replay's verdict after recording any results in turn: it is okay
/// exactly when none of them failed.
pub proof fn law_replay_ok(vs: Seq<VerifyResult>)
    requires
        vs.len() < u32::MAX,
    ensures
        (counts_over((0u32, 0u32, 0u32), vs).1 == 0) == !(exists|i: int| 0 <= i < vs.len() && #[trigger] vs[i] is Failed),
{
    lemma_failures(vs);
}

/// A replay is done after recording results in turn exactly when one of
/// them told that no hashes are left.
pub proof fn law_replay_done(vs: Seq<VerifyResult>)
    ensures
        eof_over(false, vs) == exists|i: int| 0 <= i < vs.len() && #[trigger] vs[i] == VerifyResult::EOF,
    decreases vs.len(),
{
    if vs.len() > 0 {
        let d = vs.drop_last();
        law_replay_done(d);
        if exists|i: int| 0 <= i < d.len() && #[trigger] d[i] == VerifyResult::EOF {
            let i = choose|i: int| 0 <= i < d.len() && #[trigger] d[i] == VerifyResult::EOF;
            assert(vs[i] == d[i]);
        }
        if exists|i: int| 0 <= i < vs.len() && #[trigger] vs[i] == VerifyResult::EOF {
            let i = choose|i: int| 0 <= i < vs.len() && #[trigger] vs[i] == VerifyResult::EOF;
            if i < d.len() {
                assert(d[i] == vs[i]);
            }
        }
    }
}

/// Records and verifies the hashes of the frames being replayed.
pub struct FrameRecorder {
    frames: VecDeque<Hash>,
    last_verified: Option<Hash>,
    gif_mode: GifMode,
    digest_mode: DigestMode,
}

impl FrameRecorder {
    pub closed spec fn frames(&self) -> Seq<Hash> {
        self.frames@
    }

    pub closed spec fn last_verified(&self) -> Option<Hash> {
        self.last_verified
    }

    pub closed spec fn modes(&self) -> (GifMode, DigestMode) {
        (self.gif_mode, self.digest_mode)
    }

    pub fn new(gif_mode: GifMode, digest_mode: DigestMode) -> (r: Self)
        ensures
            r.frames() == Seq::<Hash>::empty(),
            r.last_verified() is None,
            r.modes() == (gif_mode, digest_mode),
    {
        Self { frames: VecDeque::new(), last_verified: None, gif_mode, digest_mode }
    }

    /// A recorder that verifies against the given expected hashes.
    pub fn from(frames: Vec<Hash>, digest_mode: DigestMode) -> (r: Self)
        ensures
            r.frames() == frames@,
            r.last_verified() is None,
            r.modes() == (GifMode::Ignore, digest_mode),
    {
        let mut q: VecDeque<Hash> = VecDeque::new();
        let mut i: usize = 0;
        while i < frames.len()
            invariant
                i <= frames@.len(),
                q@ == frames@.subrange(0, i as int),
            decreases frames@.len() - i,
        {
            q.push_back(frames[i]);
            proof {
                assert(q@ =~= frames@.subrange(0, i + 1));
            }
            i = i + 1;
        }
        assert(frames@.subrange(0, frames@.len() as int) =~= frames@);
        Self { frames: q, last_verified: None, gif_mode: GifMode::Ignore, digest_mode }
    }

    /// The recorded hashes, oldest first.
    pub fn hashes(&self) -> (v: Vec<Hash>)
        ensures
            v@ == self.frames(),
    {
        let mut v: Vec<Hash> = Vec::new();
        let mut i: usize = 0;
        while i < self.frames.len()
            invariant
                i <= self.frames@.len(),
                v@ == self.frames@.subrange(0, i as int),
            decreases self.frames@.len() - i,
        {
            v.push(self.frames[i]);
            proof {
                assert(v@ =~= self.frames@.subrange(0, i + 1));
            }
            i = i + 1;
        }
        assert(self.frames@.subrange(0, self.frames@.len() as int) =~= self.frames@);
        v
    }

    /// Record a frame. Returns whether it differs from the last recorded
    /// frame; only such frames are kept, and only when digests or a gif are
    /// being recorded.
    pub fn record_frame(&mut self, data: &[Bgra8]) -> (is_new: bool)
        requires
            data@.len() * 4 <= usize::MAX,
        ensures
            is_new == (old(self).frames().len() == 0 || old(self).frames().last() != frame_hash(data@)),
            final(self).frames() == frames_after_record(old(self).frames(), old(self).modes(), frame_hash(data@)),
            final(self).last_verified() == old(self).last_verified(),
            final(self).modes() == old(self).modes(),
    {
        let hash = Self::hash(data);
        let n = self.frames.len();
        let is_new = n == 0 || self.frames[n - 1] != hash;
        if is_new {
            if self.digest_mode == DigestMode::Record || self.gif_mode == GifMode::Record {
                self.frames.push_back(hash);
            }
        }
        is_new
    }

    /// Verify a frame against the next expected hash.
    pub fn verify_frame(&mut self, data: &[Bgra8]) -> (r: VerifyResult)
        requires
            data@.len() * 4 <= usize::MAX,
        ensures
            (final(self).frames(), final(self).last_verified(), r) == verify_outcome(
                old(self).frames(),
                old(self).last_verified(),
                frame_hash(data@),
            ),
            final(self).modes() == old(self).modes(),
    {
        let actual = Self::hash(data);
        if self.frames.len() == 0 {
            return VerifyResult::EOF;
        }
        let stale = match self.last_verified {
            Some(h) => h == actual,
            None => false,
        };
        if stale {
            return VerifyResult::Stale(actual);
        }
        self.last_verified = Some(actual);
        match self.frames.pop_front() {
            Some(expected) => {
                if actual == expected {
                    VerifyResult::Okay(actual)
                } else {
                    VerifyResult::Failed(actual, expected)
                }
            },
            None => VerifyResult::EOF,
        }
    }

    /// The hash of a frame.
    pub fn hash(data: &[Bgra8]) -> (h: Hash)
        requires
            data@.len() * 4 <= usize::MAX,
        ensures
            h == frame_hash(data@),
    {
        let mut bytes: Vec<u8> = Vec::new();
        let mut i: usize = 0;
        while i < data.len()
            invariant
                i <= data@.len(),
                bytes@ == bgra_bytes(data@.subrange(0, i as int)),
            decreases data@.len() - i,
        {
            let c = data[i];
            bytes.push(c.b);
            bytes.push(c.g);
            bytes.push(c.r);
            bytes.push(c.a);
            proof {
                assert(data@.subrange(0, i + 1).drop_last() =~= data@.subrange(0, i as int));
            }
            i = i + 1;
        }
        assert(data@.subrange(0, data@.len() as int) =~= data@);
        Hash(seahash_bytes(bytes.as_slice()))
    }
}

/// The results of verifying the frames of a replay.
pub struct ReplayResult {
    verify_results: Vec<VerifyResult>,
    eof: bool,
    okay_count: u32,
    failed_count: u32,
    stale_count: u32,
}

impl ReplayResult {
    pub closed spec fn results(&self) -> Seq<VerifyResult> {
        self.verify_results@
    }

    pub closed spec fn eof(&self) -> bool {
        self.eof
    }

    /// Counts of okay, failed and stale frames.
    pub closed spec fn spec_counts(&self) -> (u32, u32, u32) {
        (self.okay_count, self.failed_count, self.stale_count)
    }

    /// The counts and the end flag are those of the results recorded.
    #[verifier::type_invariant]
    closed spec fn tallied(&self) -> bool {
        &&& (self.okay_count, self.failed_count, self.stale_count) == counts_over(
            (0u32, 0u32, 0u32),
            self.verify_results@,
        )
        &&& self.failed_count == failures(self.verify_results@)
        &&& self.eof == eof_over(false, self.verify_results@)
    }

    pub fn new() -> (r: Self)
        ensures
            r.results() == Seq::<VerifyResult>::empty(),
            !r.eof(),
            r.spec_counts() == (0u32, 0u32, 0u32),
    {
        ReplayResult {
            verify_results: Vec::new(),
            okay_count: 0,
            failed_count: 0,
            stale_count: 0,
            eof: false,
        }
    }

    /// The counts and the end flag are always those of the results recorded
    /// so far, in turn.
    pub fn tally(&self)
        ensures
            self.spec_counts() == counts_over((0u32, 0u32, 0u32), self.results()),
            self.eof() == eof_over(false, self.results()),
            (self.spec_counts().1 == 0) == !(exists|i: int| 0 <= i < self.results().len() && #[trigger] self.results()[i] is Failed),
            self.eof() == exists|i: int| 0 <= i < self.results().len() && #[trigger] self.results()[i] == VerifyResult::EOF,
    {
        proof {
            use_type_invariant(self);
            lemma_no_failures(self.results());
            law_replay_done(self.results());
        }
    }

    /// Record the outcome of verifying a frame.
    pub fn record(&mut self, result: VerifyResult)
        requires
            old(self).spec_counts().0 < u32::MAX,
            old(self).spec_counts().1 < u32::MAX,
            old(self).spec_counts().2 < u32::MAX,
        ensures
            final(self).results() == old(self).results().push(result),
            final(self).eof() == (old(self).eof() || result == VerifyResult::EOF),
            final(self).spec_counts() == counts_after(old(self).spec_counts(), result),
    {
        proof {
            use_type_invariant(&*self);
        }
        let mut taken = ReplayResult::new();
        std::mem::swap(&mut taken, self);
        let ReplayResult { mut verify_results, mut eof, mut okay_count, mut failed_count, mut stale_count } = taken;
        match result {
            VerifyResult::Okay(_) => {
                okay_count = okay_count + 1;
            },
            VerifyResult::Failed(_, _) => {
                failed_count = failed_count + 1;
            },
            VerifyResult::EOF => {
                eof = true;
            },
            VerifyResult::Stale(_) => {
                stale_count = stale_count + 1;
            },
        }
        let ghost old_results = verify_results@;
        verify_results.push(result);
        proof {
            assert(verify_results@.drop_last() =~= old_results);
        }
        *self = ReplayResult { verify_results, eof, okay_count, failed_count, stale_count };
    }

    /// Whether no frame failed.
    pub fn is_ok(&self) -> (b: bool)
        ensures
            b == (self.spec_counts().1 == 0),
            b == !(exists|i: int| 0 <= i < self.results().len() && #[trigger] self.results()[i] is Failed),
    {
        self.tally();
        self.failed_count == 0
    }

    /// Whether some frame failed.
    pub fn is_err(&self) -> (b: bool)
        ensures
            b == (self.spec_counts().1 != 0),
            b == exists|i: int| 0 <= i < self.results().len() && #[trigger] self.results()[i] is Failed,
    {
        !self.is_ok()
    }

    /// Whether the expected frames ran out.
    pub fn is_done(&self) -> (b: bool)
        ensures
            b == self.eof(),
            b == exists|i: int| 0 <= i < self.results().len() && #[trigger] self.results()[i] == VerifyResult::EOF,
    {
        self.tally();
        self.eof
    }

    /// Counts of okay, failed and stale frames.
    pub fn counts(&self) -> (c: (u32, u32, u32))
        ensures
            c == self.spec_counts(),
    {
        (self.okay_count, self.failed_count, self.stale_count)
    }
}

////////////////////////////////////////////////////////////////////////////////
// Recording and replaying.

impl HashParseError {
    pub open spec fn text(self) -> Seq<char> {
        match self {
            HashParseError::Empty => "cannot parse integer from empty string"@,
            HashParseError::InvalidDigit => "invalid digit found in string"@,
            HashParseError::PosOverflow => "number too large to fit in target type"@,
        }
    }

    /// The message, as `ParseIntError` writes it.
    pub fn message(&self) -> (m: &'static str)
        ensures
            m@ == self.text(),
    {
        match self {
            HashParseError::Empty => "cannot parse integer from empty string",
            HashParseError::InvalidDigit => "invalid digit found in string",
            HashParseError::PosOverflow => "number too large to fit in target type",
        }
    }
}

/// How the session is being executed: normally, recording user inputs, or
/// replaying them.
#[allow(inconsistent_fields)]
pub enum Execution {
    /// Normal execution. User inputs are processed normally.
    Normal,
    /// Recording user inputs to the recording at `path`.
    Recording { events: Vec<TimedEvent>, path: String, digest: DigestState, recorder: FrameRecorder },
    /// Replaying the inputs of the recording at `path`; `events` are those
    /// not replayed yet.
    Replaying {
        events: VecDeque<TimedEvent>,
        path: String,
        digest: DigestState,
        result: ReplayResult,
        recorder: FrameRecorder,
    },
}

/// Timed events as plain data.
pub open spec fn timed_models(v: Seq<TimedEvent>) -> Seq<TimedEventModel> {
    v.map_values(|t: TimedEvent| t@)
}

/// The hashes that the lines of a digest file read as.
pub open spec fn line_hashes(lines: Seq<String>) -> Seq<Hash> {
    lines.map_values(|l: String| Hash(parse_hex(l@)->Ok_0))
}

/// The events that recorded lines read as from line `i` on, or the number
/// and error of the first line that does not read.
pub open spec fn read_lines_from(lines: Seq<String>, i: int) -> Result<Seq<TimedEventModel>, (int, Seq<char>)>
    decreases lines.len() - i,
{
    if i < 0 || i >= lines.len() {
        Ok(Seq::empty())
    } else {
        match p_timed(lines[i]@) {
            Err(e) => Err((i, e)),
            Ok(t) => match read_lines_from(lines, i + 1) {
                Err(x) => Err(x),
                Ok(rest) => Ok(seq![t] + rest),
            },
        }
    }
}

/// The error given for a recorded line that does not read: the file, the
/// line's number, counting from one, and the error.
pub open spec fn line_error(file: Seq<char>, i: int, e: Seq<char>) -> Seq<char> {
    file + ":"@ + dec(i + 1) + ": "@ + e
}

impl Execution {
    /// The events recorded so far, when recording.
    pub open spec fn recorded(&self) -> Seq<TimedEventModel> {
        match self {
            Execution::Recording { events, .. } => timed_models(events@),
            _ => Seq::empty(),
        }
    }

    /// The events still to be replayed, when replaying.
    pub open spec fn pending(&self) -> Seq<TimedEventModel> {
        match self {
            Execution::Replaying { events, .. } => timed_models(events@),
            _ => Seq::empty(),
        }
    }

    /// The digest mode, when recording or replaying.
    pub open spec fn digest_mode(&self) -> Option<DigestMode> {
        match self {
            Execution::Recording { digest, .. } => Some(digest.mode),
            Execution::Replaying { digest, .. } => Some(digest.mode),
            Execution::Normal => None,
        }
    }

    pub fn normal() -> (e: Self)
        ensures
            e is Normal,
    {
        Execution::Normal
    }

    /// Start recording to `path`, keeping digests as `digest` says.
    pub fn recording(path: String, digest: DigestState, gif_mode: GifMode) -> (e: Self)
        ensures
            e matches Execution::Recording { events, path: p, digest: d, recorder } && events@.len() == 0
                && p@ == path@ && d.mode == digest.mode && opt_string_view(d.path) == opt_string_view(
                digest.path,
            ) && recorder.frames().len() == 0 && recorder.modes() == (gif_mode, digest.mode),
    {
        let recorder = FrameRecorder::new(gif_mode, digest.mode);
        Execution::Recording { events: Vec::new(), path, digest, recorder }
    }

    /// Replay the recording at `path`, whose events are the lines of the
    /// file `events_file`. When digests are verified, the lines of the
    /// digest file are the expected frame hashes.
    pub fn replaying(
        path: String,
        digest: DigestState,
        digest_lines: &[String],
        events_file: &str,
        event_lines: &[String],
    ) -> (r: Result<Execution, String>)
        ensures
            ({
                let verifying = digest.mode == DigestMode::Verify && digest.path is Some;
                if verifying && first_hash_error(digest_lines@) is Some {
                    r matches Err(m) && m@ == first_hash_error(digest_lines@)->Some_0.text()
                } else {
                    match read_lines_from(event_lines@, 0) {
                        Err((i, e)) => r matches Err(m) && m@ == line_error(events_file@, i, e),
                        Ok(evs) => r matches Ok(Execution::Replaying { events, path: p, digest: d, result, recorder })
                            && timed_models(events@) == evs && p@ == path@ && d.mode == digest.mode
                            && result.results().len() == 0 && !result.eof() && result.spec_counts() == (0u32, 0u32, 0u32)
                            && recorder.last_verified() is None
                            && recorder.frames() == if verifying { line_hashes(digest_lines@) } else { Seq::empty() }
                            && recorder.modes().1 == digest.mode,
                    }
                }
            }),
    {
        let verifying = digest.mode == DigestMode::Verify && digest.path.is_some();
        let recorder = if verifying {
            match read_hashes(digest_lines) {
                Err(e) => {
                    return Err(e.message().to_owned());
                },
                Ok(frames) => FrameRecorder::from(frames, digest.mode),
            }
        } else {
            FrameRecorder::new(GifMode::Ignore, digest.mode)
        };
        match read_events(event_lines) {
            Err((i, e)) => {
                let mut m = String::new();
                m.append(events_file);
                m.append(":");
                crate::cmd::push_nat(&mut m, (i as u128) + 1);
                m.append(": ");
                m.append(e.as_str());
                Err(m)
            },
            Ok(events) => Ok(Execution::Replaying { events, path, digest, result: ReplayResult::new(), recorder }),
        }
    }

    pub fn is_normal(&self) -> (b: bool)
        ensures
            b == (self is Normal),
    {
        match self {
            Execution::Normal => true,
            _ => false,
        }
    }

    pub fn is_recording(&self) -> (b: bool)
        ensures
            b == (self is Recording),
    {
        match self {
            Execution::Recording { .. } => true,
            _ => false,
        }
    }
}

/// The hashes of the lines of a digest file, or the first line's error.
fn read_hashes(lines: &[String]) -> (r: Result<Vec<Hash>, HashParseError>)
    ensures
        match first_hash_error(lines@) {
            Some(e) => r == Err::<Vec<Hash>, HashParseError>(e),
            None => r matches Ok(v) && v@ == line_hashes(lines@),
        },
{
    let mut v: Vec<Hash> = Vec::new();
    let mut i: usize = 0;
    assert(lines@.subrange(0, lines@.len() as int) =~= lines@);
    while i < lines.len()
        invariant
            i <= lines@.len(),
            first_hash_error(lines@) == first_hash_error(lines@.subrange(i as int, lines@.len() as int)),
            v@ == line_hashes(lines@.subrange(0, i as int)),
        decreases lines@.len() - i,
    {
        let ghost rest = lines@.subrange(i as int, lines@.len() as int);
        assert(rest.drop_first() =~= lines@.subrange(i + 1, lines@.len() as int));
        assert(rest[0] == lines@[i as int]);
        match Hash::from_str(lines[i].as_str()) {
            Ok(h) => {
                v.push(h);
                assert(v@ =~= line_hashes(lines@.subrange(0, i + 1)));
            },
            Err(e) => {
                return Err(e);
            },
        }
        i = i + 1;
    }
    assert(lines@.subrange(i as int, lines@.len() as int) =~= Seq::<String>::empty());
    assert(lines@.subrange(0, i as int) =~= lines@);
    Ok(v)
}

/// The events of recorded lines, or the first line that does not read.
fn read_events(lines: &[String]) -> (r: Result<VecDeque<TimedEvent>, (usize, String)>)
    ensures
        match read_lines_from(lines@, 0) {
            Err((i, e)) => r matches Err((j, m)) && j == i && m@ == e,
            Ok(evs) => r matches Ok(q) && timed_models(q@) == evs,
        },
{
    let mut q: VecDeque<TimedEvent> = VecDeque::new();
    let mut i: usize = 0;
    while i < lines.len()
        invariant
            i <= lines@.len(),
            forall|j: int| 0 <= j < i ==> #[trigger] p_timed(lines@[j]@) is Ok,
            timed_models(q@) == Seq::new(i as nat, |j: int| p_timed(lines@[j]@)->Ok_0),
        decreases lines@.len() - i,
    {
        let ghost q0 = q@;
        match TimedEvent::from_str(lines[i].as_str()) {
            Ok(t) => {
                assert(t@ == p_timed(lines@[i as int]@)->Ok_0);
                q.push_back(t);
                assert(q@ == q0.push(t));
                assert(timed_models(q@) =~= timed_models(q0).push(t@));
                assert(timed_models(q@) =~= Seq::new((i + 1) as nat, |j: int| p_timed(lines@[j]@)->Ok_0));
            },
            Err(e) => {
                proof {
                    lemma_read_lines_err(lines@, 0, i as int);
                }
                return Err((i, e));
            },
        }
        i = i + 1;
    }
    proof {
        lemma_read_lines_ok(lines@, 0);
    }
    Ok(q)
}

/// Where every line from `k` on reads, the lines read as their events.
#[verifier::rlimit(40)]
proof fn lemma_read_lines_ok(lines: Seq<String>, k: int)
    requires
        0 <= k <= lines.len(),
        forall|j: int| 0 <= j < lines.len() ==> #[trigger] p_timed(lines[j]@) is Ok,
    ensures
        read_lines_from(lines, k) == Ok::<Seq<TimedEventModel>, (int, Seq<char>)>(
            Seq::new((lines.len() - k) as nat, |j: int| p_timed(lines[k + j]@)->Ok_0),
        ),
    decreases lines.len() - k,
{
    if k < lines.len() {
        lemma_read_lines_ok(lines, k + 1);
        assert(p_timed(lines[k]@) is Ok);
        assert(seq![p_timed(lines[k]@)->Ok_0] + Seq::new((lines.len() - (k + 1)) as nat, |j: int| p_timed(lines[k + 1 + j]@)->Ok_0)
            =~= Seq::new((lines.len() - k) as nat, |j: int| p_timed(lines[k + j]@)->Ok_0));
    } else {
        assert(Seq::new((lines.len() - k) as nat, |j: int| p_timed(lines[k + j]@)->Ok_0) =~= Seq::<TimedEventModel>::empty());
    }
}

/// Where the lines from `k` up to `i` read and line `i` does not, reading
/// from `k` fails at `i`.
proof fn lemma_read_lines_err(lines: Seq<String>, k: int, i: int)
    requires
        0 <= k <= i < lines.len(),
        forall|j: int| k <= j < i ==> #[trigger] p_timed(lines[j]@) is Ok,
        p_timed(lines[i]@) is Err,
    ensures
        read_lines_from(lines, k) == Err::<Seq<TimedEventModel>, (int, Seq<char>)>((i, p_timed(lines[i]@)->Err_0)),
    decreases i - k,
{
    if k < i {
        lemma_read_lines_err(lines, k + 1, i);
    }
}

/// Whether the counts of a replay's results can grow by one.
pub open spec fn counts_below_max(c: (u32, u32, u32)) -> bool {
    c.0 < u32::MAX && c.1 < u32::MAX && c.2 < u32::MAX
}

/// The lines of a digest file: one hash in hex per frame.
pub open spec fn digest_text(frames: Seq<Hash>) -> Seq<Seq<char>> {
    frames.map_values(|h: Hash| hex_digits(h.0 as int, 16))
}

/// What is written when a recording stops: the recording's path, a line
/// per event, and, when digests are recorded, where they go and their
/// lines.
pub struct RecordingOutput {
    pub path: String,
    pub event_lines: Vec<String>,
    pub digest: Option<(String, Vec<String>)>,
}

fn digest_lines(recorder: &FrameRecorder) -> (v: Vec<String>)
    ensures
        line_texts(v@) == digest_text(recorder.frames()),
{
    let hashes = recorder.hashes();
    let mut v: Vec<String> = Vec::new();
    let mut i: usize = 0;
    while i < hashes.len()
        invariant
            i <= hashes@.len(),
            hashes@ == recorder.frames(),
            line_texts(v@) == digest_text(hashes@.subrange(0, i as int)),
        decreases hashes@.len() - i,
    {
        let ghost v0 = v@;
        let h = hashes[i].to_hex();
        v.push(h);
        assert(v@ == v0.push(h));
        assert(line_texts(v@) =~= line_texts(v0).push(h@));
        assert(hashes@.subrange(0, i + 1) =~= hashes@.subrange(0, i as int).push(hashes@[i as int]));
        assert(line_texts(v@) =~= digest_text(hashes@.subrange(0, i + 1)));
        i = i + 1;
    }
    assert(hashes@.subrange(0, i as int) =~= hashes@);
    v
}

impl Execution {
    /// Record a rendered frame: when replaying with digests verified, verify
    /// it and note the outcome; else, when recording or replaying, record
    /// its hash.
    pub fn record(&mut self, data: &[Bgra8])
        requires
            data@.len() * 4 <= usize::MAX,
            *old(self) matches Execution::Replaying { digest, result, .. } ==> (digest.mode == DigestMode::Verify
                ==> counts_below_max(result.spec_counts())),
        ensures
            match *old(self) {
                Execution::Normal => *final(self) is Normal,
                Execution::Recording { events, path, digest, recorder } => *final(self) matches Execution::Recording {
                    events: e2,
                    path: p2,
                    digest: d2,
                    recorder: r2,
                } && e2 == events && p2 == path && d2 == digest && r2.frames() == frames_after_record(
                    recorder.frames(),
                    recorder.modes(),
                    frame_hash(data@),
                ) && r2.modes() == recorder.modes() && r2.last_verified() == recorder.last_verified(),
                Execution::Replaying { events, path, digest, result, recorder } => *final(self) matches Execution::Replaying {
                    events: e2,
                    path: p2,
                    digest: d2,
                    result: res2,
                    recorder: r2,
                } && e2 == events && p2 == path && d2 == digest && r2.modes() == recorder.modes() && if digest.mode
                    == DigestMode::Verify {
                    let o = verify_outcome(recorder.frames(), recorder.last_verified(), frame_hash(data@));
                    &&& (r2.frames(), r2.last_verified()) == (o.0, o.1)
                    &&& res2.results() == result.results().push(o.2)
                    &&& res2.eof() == (result.eof() || o.2 == VerifyResult::EOF)
                    &&& res2.spec_counts() == counts_after(result.spec_counts(), o.2)
                } else {
                    &&& r2.frames() == frames_after_record(recorder.frames(), recorder.modes(), frame_hash(data@))
                    &&& r2.last_verified() == recorder.last_verified()
                    &&& res2 == result
                },
            },
    {
        let mut cur = Execution::Normal;
        std::mem::swap(&mut cur, self);
        match cur {
            Execution::Normal => {},
            Execution::Recording { events, path, digest, mut recorder } => {
                recorder.record_frame(data);
                *self = Execution::Recording { events, path, digest, recorder };
            },
            Execution::Replaying { events, path, digest, mut result, mut recorder } => {
                if digest.mode == DigestMode::Verify {
                    let v = recorder.verify_frame(data);
                    result.record(v);
                } else {
                    recorder.record_frame(data);
                }
                *self = Execution::Replaying { events, path, digest, result, recorder };
            },
        }
    }

    /// Add an event to the recording, when recording.
    pub fn push_event(&mut self, event: TimedEvent)
        ensures
            (*old(self) matches Execution::Recording { .. }) ==> final(self).recorded() == old(self).recorded().push(event@)
                && final(self).digest_mode() == old(self).digest_mode(),
            !(*old(self) matches Execution::Recording { .. }) ==> *final(self) == *old(self),
    {
        let mut cur = Execution::Normal;
        std::mem::swap(&mut cur, self);
        match cur {
            Execution::Recording { mut events, path, digest, recorder } => {
                let ghost e0 = events@;
                events.push(event);
                assert(timed_models(events@) =~= timed_models(e0).push(event@));
                *self = Execution::Recording { events, path, digest, recorder };
            },
            other => {
                *self = other;
            },
        }
    }

    /// Drop the last recorded event, when recording: the key that stops a
    /// recording is not part of it.
    pub fn discard_last_event(&mut self)
        ensures
            (*old(self) matches Execution::Recording { .. }) ==> final(self).recorded() == (if old(self).recorded().len()
                > 0 {
                old(self).recorded().drop_last()
            } else {
                old(self).recorded()
            }) && final(self).digest_mode() == old(self).digest_mode(),
            !(*old(self) matches Execution::Recording { .. }) ==> *final(self) == *old(self),
    {
        let mut cur = Execution::Normal;
        std::mem::swap(&mut cur, self);
        match cur {
            Execution::Recording { mut events, path, digest, recorder } => {
                let ghost e0 = events@;
                if events.len() > 0 {
                    events.pop();
                    assert(timed_models(events@) =~= timed_models(e0).drop_last());
                }
                *self = Execution::Recording { events, path, digest, recorder };
            },
            other => {
                *self = other;
            },
        }
    }

    /// What stopping the recording writes: a line per recorded event and,
    /// when digests are recorded, the frame hashes. Once written, the
    /// session goes back to normal execution.
    pub fn stop_recording(&self) -> (o: RecordingOutput)
        requires
            self is Recording,
            forall|i: int| 0 <= i < self.recorded().len() ==> writable(#[trigger] self.recorded()[i].event),
        ensures
            self matches Execution::Recording { path, digest, recorder, .. } && o.path@ == path@
                && line_texts(o.event_lines@) == self.recorded().map_values(
                |t: TimedEventModel| timed_text(t),
            ) && match digest.path {
                Some(p) => if digest.mode == DigestMode::Record {
                    o.digest matches Some((dp, lines)) && dp@ == p@ && line_texts(lines@)
                        == digest_text(recorder.frames())
                } else {
                    o.digest is None
                },
                None => o.digest is None,
            },
    {
        match self {
            Execution::Recording { events, path, digest, recorder } => {
                let mut lines: Vec<String> = Vec::new();
                let mut i: usize = 0;
                assert forall|j: int| 0 <= j < events@.len() implies writable(#[trigger] events@[j]@.event) by {
                    assert(self.recorded()[j] == events@[j]@);
                }
                while i < events.len()
                    invariant
                        i <= events@.len(),
                        forall|j: int| 0 <= j < events@.len() ==> writable(#[trigger] events@[j]@.event),
                        line_texts(lines@) == timed_models(events@.subrange(0, i as int)).map_values(
                            |t: TimedEventModel| timed_text(t),
                        ),
                    decreases events@.len() - i,
                {
                    let ghost l0 = lines@;
                    assert(writable(events@[i as int]@.event));
                    assert(events@[i as int]@.event == events@[i as int].event@);
                    let t = events[i].to_string();
                    lines.push(t);
                    assert(lines@ == l0.push(t));
                    assert(line_texts(lines@) =~= line_texts(l0).push(t@));
                    assert(events@.subrange(0, i + 1) =~= events@.subrange(0, i as int).push(events@[i as int]));
                    assert(line_texts(lines@) =~= timed_models(events@.subrange(0, i + 1)).map_values(
                        |t: TimedEventModel| timed_text(t),
                    ));
                    i = i + 1;
                }
                assert(events@.subrange(0, i as int) =~= events@);
                let d = match &digest.path {
                    Some(p) => if digest.mode == DigestMode::Record {
                        Some((p.clone(), digest_lines(recorder)))
                    } else {
                        None
                    },
                    None => None,
                };
                RecordingOutput { path: path.clone(), event_lines: lines, digest: d }
            },
            _ => RecordingOutput { path: String::new(), event_lines: Vec::new(), digest: None },
        }
    }

    /// What finishing a replay writes when it records digests: where they go
    /// and their lines.
    /// Finish a recording once its output, from `stop_recording`, was
    /// written out or failed to be: where it was written the execution goes
    /// back to normal; otherwise it stays as it was, still recording.
    pub fn finish_recording(&mut self, written: bool)
        requires
            *old(self) is Recording,
        ensures
            written ==> *final(self) is Normal,
            !written ==> *final(self) == *old(self),
    {
        if written {
            *self = Execution::Normal;
        }
    }

    pub fn finalize_replaying(&self) -> (o: (String, Vec<String>))
        requires
            self matches Execution::Replaying { digest, .. } && digest.mode == DigestMode::Record && digest.path is Some,
        ensures
            self matches Execution::Replaying { digest, recorder, .. } && o.0@ == digest.path->Some_0@
                && line_texts(o.1@) == digest_text(recorder.frames()),
    {
        match self {
            Execution::Replaying { digest, recorder, .. } => match &digest.path {
                Some(p) => (p.clone(), digest_lines(recorder)),
                None => (String::new(), Vec::new()),
            },
            _ => (String::new(), Vec::new()),
        }
    }
}

/// How many events at the front belong to `frame`.
pub open spec fn leading_in_frame(p: Seq<TimedEventModel>, frame: u64) -> nat
    decreases p.len(),
{
    if p.len() > 0 && p[0].frame == frame {
        1 + leading_in_frame(p.drop_first(), frame)
    } else {
        0
    }
}

proof fn lemma_leading_in_frame(p: Seq<TimedEventModel>, frame: u64)
    ensures
        leading_in_frame(p, frame) <= p.len(),
        forall|i: int| 0 <= i < leading_in_frame(p, frame) ==> #[trigger] p[i].frame == frame,
        leading_in_frame(p, frame) < p.len() ==> p[leading_in_frame(p, frame) as int].frame != frame,
    decreases p.len(),
{
    if p.len() > 0 && p[0].frame == frame {
        lemma_leading_in_frame(p.drop_first(), frame);
        assert forall|i: int| 0 <= i < leading_in_frame(p, frame) implies #[trigger] p[i].frame == frame by {
            if i > 0 {
                assert(p[i] == p.drop_first()[i - 1]);
            }
        }
    }
}

impl Execution {
    /// When replaying, take the events of `frame` from the front of those
    /// left, to be handled in this frame.
    pub fn take_frame_events(&mut self, frame: u64) -> (taken: Vec<TimedEvent>)
        ensures
            ({
                let p = old(self).pending();
                let n = leading_in_frame(p, frame) as int;
                &&& timed_models(taken@) == p.take(n)
                &&& final(self).pending() == p.skip(n)
            }),
            *old(self) matches Execution::Replaying { path, digest, result, recorder, .. } ==> (*final(self) matches Execution::Replaying {
                path: p2,
                digest: d2,
                result: r2,
                recorder: c2,
                ..
            } && p2 == path && d2 == digest && r2 == result && c2 == recorder),
            !(*old(self) matches Execution::Replaying { .. }) ==> *final(self) == *old(self),
    {
        let mut cur = Execution::Normal;
        std::mem::swap(&mut cur, self);
        match cur {
            Execution::Replaying { mut events, path, digest, result, recorder } => {
                let ghost p = timed_models(events@);
                proof {
                    lemma_leading_in_frame(p, frame);
                }
                let ghost n = leading_in_frame(p, frame) as int;
                let mut taken: Vec<TimedEvent> = Vec::new();
                while events.len() > 0 && events[0].frame == frame
                    invariant
                        0 <= n <= p.len(),
                        timed_models(taken@) == p.take(taken@.len() as int),
                        taken@.len() <= n,
                        timed_models(events@) == p.skip(taken@.len() as int),
                        forall|i: int| 0 <= i < n ==> #[trigger] p[i].frame == frame,
                        n < p.len() ==> p[n].frame != frame,
                    decreases events@.len(),
                {
                    let ghost k = taken@.len() as int;
                    let ghost e0 = events@;
                    assert(timed_models(events@).len() == events@.len());
                    assert(events@.len() == p.len() - k);
                    assert(timed_models(events@)[0] == p[k]);
                    assert(timed_models(events@)[0] == events@[0]@);
                    assert(k < n);
                    let t = events.pop_front();
                    match t {
                        Some(t) => {
                            let ghost t0 = taken@;
                            taken.push(t);
                            assert(timed_models(taken@) =~= timed_models(t0).push(t@));
                            assert(p.take(k + 1) =~= p.take(k).push(p[k]));
                            assert(events@ =~= e0.drop_first());
                            assert(timed_models(events@) =~= timed_models(e0).drop_first());
                            assert(timed_models(events@) =~= p.skip(k + 1));
                        },
                        None => {},
                    }
                }
                assert(taken@.len() == n) by {
                    if taken@.len() < n {
                        assert(timed_models(events@).len() == events@.len());
                        assert(events@.len() == p.len() - taken@.len());
                        assert(timed_models(events@)[0] == p[taken@.len() as int]);
                        assert(timed_models(events@)[0] == events@[0]@);
                        assert(p[taken@.len() as int].frame == frame);
                        assert(events@[0].frame == frame);
                    }
                }
                *self = Execution::Replaying { events, path, digest, result, recorder };
                taken
            },
            other => {
                *self = other;
                Vec::new()
            },
        }
    }

    /// Whether a replay is over: every event has been replayed and, when
    /// digests are verified, the expected frames ran out; or a frame failed
    /// to verify.
    pub fn replay_over(&self) -> (b: bool)
        ensures
            b == (self matches Execution::Replaying { digest, result, .. } && ((self.pending().len() == 0 && (
            digest.mode != DigestMode::Verify || result.eof())) || result.spec_counts().1 != 0)),
    {
        match self {
            Execution::Replaying { events, digest, result, .. } => {
                let ended = events.len() == 0 && (digest.mode != DigestMode::Verify || result.is_done());
                ended || result.is_err()
            },
            _ => false,
        }
    }

    /// The frame that comes after `frame`: when replaying with digests
    /// verified or recorded, the frame of the next event left, skipping
    /// frames without events; else the next one.
    pub fn next_frame(&self, frame: u64) -> (n: u64)
        requires
            frame < u64::MAX,
        ensures
            n == (match self {
                Execution::Replaying { digest, .. } => if (digest.mode == DigestMode::Verify || digest.mode
                    == DigestMode::Record) && self.pending().len() > 0 {
                    self.pending()[0].frame
                } else {
                    (frame + 1) as u64
                },
                _ => (frame + 1) as u64,
            }),
    {
        match self {
            Execution::Replaying { events, digest, .. } => {
                if (digest.mode == DigestMode::Verify || digest.mode == DigestMode::Record) && events.len() > 0 {
                    assert(self.pending()[0] == events@[0]@);
                    events[0].frame
                } else {
                    frame + 1
                }
            },
            _ => frame + 1,
        }
    }
}

/// The text of each line.
pub open spec fn line_texts(lines: Seq<String>) -> Seq<Seq<char>> {
    lines.map_values(|l: String| l@)
}

/// A timed event as a replay reads it back.
pub open spec fn timed_as_read(t: TimedEventModel) -> TimedEventModel {
    TimedEventModel { frame: t.frame, delta: t.delta, event: as_read(t.event) }
}

/// Whether a recorded event reads back from its line.
pub open spec fn timed_round_trips(t: TimedEventModel) -> bool {
    t.frame <= u32::MAX && t.delta <= u32::MAX && round_trips(t.event)
}

/// The digest lines that a recording or replay writes read back, in a
/// replay that verifies them, as the frame hashes they were written from.
pub proof fn law_digest_round_trip(frames: Seq<Hash>, lines: Seq<String>)
    requires
        line_texts(lines) == digest_text(frames),
    ensures
        first_hash_error(lines) is None,
        line_hashes(lines) == frames,
    decreases lines.len(),
{
    assert(lines.len() == frames.len()) by {
        assert(line_texts(lines).len() == lines.len());
    }
    if lines.len() > 0 {
        assert(lines[0]@ == hex_digits(frames[0].0 as int, 16)) by {
            assert(line_texts(lines)[0] == lines[0]@);
        }
        law_hash_hex_roundtrip(frames[0]);
        assert(line_texts(lines.drop_first()) =~= digest_text(frames.drop_first())) by {
            assert forall|i: int| 0 <= i < lines.len() - 1 implies #[trigger] line_texts(lines.drop_first())[i]
                == digest_text(frames.drop_first())[i] by {
                assert(line_texts(lines)[i + 1] == lines[i + 1]@);
            }
        }
        law_digest_round_trip(frames.drop_first(), lines.drop_first());
        assert(line_hashes(lines) =~= frames) by {
            assert forall|i: int| 0 <= i < lines.len() implies #[trigger] line_hashes(lines)[i] == frames[i] by {
                if i > 0 {
                    assert(line_hashes(lines.drop_first())[i - 1] == line_hashes(lines)[i]);
                }
            }
        }
    } else {
        assert(line_hashes(lines) =~= frames);
    }
}

/// The event lines that stopping a recording writes read back, in a replay
/// of the recording, as the events recorded, wherever each event reads back
/// from its line (see `law_timed_round_trip`).
pub proof fn law_recording_replays(evs: Seq<TimedEventModel>, lines: Seq<String>, k: int)
    requires
        line_texts(lines) == evs.map_values(|t: TimedEventModel| timed_text(t)),
        forall|i: int| 0 <= i < evs.len() ==> timed_round_trips(#[trigger] evs[i]),
        0 <= k <= lines.len(),
    ensures
        read_lines_from(lines, k) == Ok::<Seq<TimedEventModel>, (int, Seq<char>)>(
            evs.skip(k).map_values(|t: TimedEventModel| timed_as_read(t)),
        ),
    decreases lines.len() - k,
{
    assert(lines.len() == evs.len()) by {
        assert(line_texts(lines).len() == lines.len());
    }
    if k < lines.len() {
        assert(lines[k]@ == timed_text(evs[k])) by {
            assert(line_texts(lines)[k] == lines[k]@);
        }
        assert(timed_round_trips(evs[k]));
        law_timed_round_trip(evs[k]);
        law_recording_replays(evs, lines, k + 1);
        assert(seq![timed_as_read(evs[k])] + evs.skip(k + 1).map_values(|t: TimedEventModel| timed_as_read(t))
            =~= evs.skip(k).map_values(|t: TimedEventModel| timed_as_read(t)));
    } else {
        assert(evs.skip(k).map_values(|t: TimedEventModel| timed_as_read(t)) =~= Seq::<TimedEventModel>::empty());
    }
}

} // verus!
