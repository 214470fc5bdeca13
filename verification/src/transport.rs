//! The byte-to-frame decoding state machine of the subprocess transport,
//! and the line form of outbound frames.
//!
//! The embedding program owns the child process and its pipes; it hands
//! every line fragment read from the child to [`FrameDecoder::feed_fragment`]
//! and writes the bytes of [`frame_to_line`] to the child.

use vstd::prelude::*;

use crate::codec::{json_doc, parse_json, ser_value, write_json};
use crate::error::CliJsonDecodeError;
use crate::json::JsonValue;
use vstd::string::{StrSliceExecFns, StringExecFns};
use vstd::utf8::encode_utf8;

verus! {

/// How the initial prompt reaches the child: one fixed text, or an open
/// stream of input frames.
#[derive(Debug)]
pub enum PromptMode {
    Text(String),
    Streaming,
}

impl PromptMode {
    pub fn is_streaming(&self) -> (r: bool)
        ensures
            r == (*self is Streaming),
    {
        matches!(self, PromptMode::Streaming)
    }
}

/// Default bound on the partial-frame accumulation buffer, in bytes.
pub const DEFAULT_MAX_BUFFER_SIZE: usize = 1048576;

pub open spec fn ws_char(c: char) -> bool {
    c == ' ' || c == '\t' || c == '\n' || c == '\r'
}

/// First index at or after `i` holding a non-whitespace character.
pub open spec fn trim_lo(s: Seq<char>, i: int) -> int
    decreases s.len() - i,
{
    if 0 <= i < s.len() && ws_char(s[i]) {
        trim_lo(s, i + 1)
    } else {
        i
    }
}

/// Last index before `i` holding a non-whitespace character, plus one.
pub open spec fn trim_hi(s: Seq<char>, i: int) -> int
    decreases i,
{
    if 0 < i <= s.len() && ws_char(s[i - 1]) {
        trim_hi(s, i - 1)
    } else {
        i
    }
}

/// The fragment with surrounding whitespace removed.
pub open spec fn spec_trim(s: Seq<char>) -> Seq<char> {
    let lo = trim_lo(s, 0);
    let hi = trim_hi(s, s.len() as int);
    if lo <= hi {
        s.subrange(lo, hi)
    } else {
        Seq::empty()
    }
}

proof fn lemma_trim_lo_bounds(s: Seq<char>, i: int)
    requires
        0 <= i <= s.len(),
    ensures
        i <= trim_lo(s, i) <= s.len(),
    decreases s.len() - i,
{
    if i < s.len() && ws_char(s[i]) {
        lemma_trim_lo_bounds(s, i + 1);
    }
}

proof fn lemma_trim_hi_bounds(s: Seq<char>, i: int)
    requires
        0 <= i <= s.len(),
    ensures
        0 <= trim_hi(s, i) <= i,
    decreases i,
{
    if 0 < i && ws_char(s[i - 1]) {
        lemma_trim_hi_bounds(s, i - 1);
    }
}

/// Removes surrounding whitespace from a fragment.
fn trim_fragment<'a>(s: &'a str) -> (r: &'a str)
    ensures
        r@ == spec_trim(s@),
{
    let n = s.unicode_len();
    let mut lo: usize = 0;
    while lo < n && (s.get_char(lo) == ' ' || s.get_char(lo) == '\t' || s.get_char(lo) == '\n'
        || s.get_char(lo) == '\r')
        invariant
            0 <= lo <= n,
            n == s@.len(),
            trim_lo(s@, 0) == trim_lo(s@, lo as int),
        decreases n - lo,
    {
        lo = lo + 1;
    }
    proof {
        assert(trim_lo(s@, lo as int) == lo);
    }
    let mut hi: usize = n;
    while hi > lo && (s.get_char(hi - 1) == ' ' || s.get_char(hi - 1) == '\t' || s.get_char(
        hi - 1,
    ) == '\n' || s.get_char(hi - 1) == '\r')
        invariant
            lo <= hi <= n,
            n == s@.len(),
            trim_lo(s@, 0) == lo,
            trim_hi(s@, n as int) == trim_hi(s@, hi as int),
        decreases hi,
    {
        hi = hi - 1;
    }
    proof {
        if hi > lo {
            assert(trim_hi(s@, hi as int) == hi);
        } else {
            // Everything from `lo` on is whitespace, so the high scan came
            // down to the low bound.
            assert(hi == lo);
            assert(trim_hi(s@, hi as int) == trim_hi(s@, lo as int));
            lemma_trim_hi_bounds(s@, lo as int);
            if trim_hi(s@, lo as int) < lo {
                assert(trim_lo(s@, 0) == lo);
            }
        }
    }
    s.substring_char(lo, hi)
}

/// Whether a fragment is all whitespace.
pub fn trim_is_empty(s: &str) -> (r: bool)
    ensures
        r == (spec_trim(s@).len() == 0),
{
    let t = trim_fragment(s);
    t.is_empty()
}

/// What one fed fragment led to.
#[derive(Debug)]
pub enum DecodeStep {
    /// No complete frame yet; the fragment was buffered.
    Incomplete,
    /// One complete frame was decoded; the buffer is empty again.
    Frame(JsonValue),
    /// The buffer outgrew its bound before decoding: exactly one decode
    /// error, and the buffer was discarded.
    Overflow(CliJsonDecodeError),
}

/// Byte-to-frame decoder: line fragments accumulate until they form one
/// complete JSON value.
pub struct FrameDecoder {
    buf: String,
    max_buffer_size: usize,
}

impl FrameDecoder {
    /// The accumulated partial frame.
    pub closed spec fn spec_buf(&self) -> Seq<char> {
        self.buf@
    }

    /// The configured bound on the accumulation buffer, in bytes.
    pub closed spec fn spec_max(&self) -> int {
        self.max_buffer_size as int
    }

    pub fn new(max_buffer_size: usize) -> (r: FrameDecoder)
        ensures
            r.spec_buf().len() == 0,
            r.spec_max() == max_buffer_size,
    {
        FrameDecoder { buf: String::new(), max_buffer_size }
    }

    /// Feeds one line fragment. The fragment is trimmed and appended to the
    /// accumulation buffer; a buffer that exceeds the configured bound is a
    /// decode error and is discarded; otherwise the buffer is decoded as
    /// soon as it forms one complete JSON value.
    #[verifier::rlimit(100)]
    #[verifier::spinoff_prover]
    pub fn feed_fragment(&mut self, fragment: &str) -> (r: DecodeStep)
        ensures
            final(self).spec_max() == old(self).spec_max(),
            ({
                let t = spec_trim(fragment@);
                let nb = old(self).spec_buf() + t;
                if t.len() == 0 {
                    r is Incomplete && final(self).spec_buf() == old(self).spec_buf()
                } else if encode_utf8(nb).len() > old(self).spec_max() {
                    (r matches DecodeStep::Overflow(e) && e.spec_line() == nb)
                        && final(self).spec_buf().len() == 0
                } else {
                    match json_doc(encode_utf8(nb)) {
                        Some(v) => (r matches DecodeStep::Frame(f) && f@ == v)
                            && final(self).spec_buf().len() == 0,
                        None => r is Incomplete && final(self).spec_buf() == nb,
                    }
                }
            }),
    {
        let trimmed = trim_fragment(fragment);
        if trimmed.is_empty() {
            return DecodeStep::Incomplete;
        }
        self.buf.append(trimmed);
        let byte_len = self.buf.as_str().as_bytes().len();
        if byte_len > self.max_buffer_size {
            let snapshot = self.buf.clone();
            self.buf = String::new();
            return DecodeStep::Overflow(CliJsonDecodeError::new(snapshot));
        }
        let parsed = parse_json(self.buf.as_str().as_bytes());
        match parsed {
            Some(v) => {
                self.buf = String::new();
                DecodeStep::Frame(v)
            },
            None => DecodeStep::Incomplete,
        }
    }
}

/// The newline-delimited wire form of one outbound frame.
pub fn frame_to_line(v: &JsonValue) -> (r: Vec<u8>)
    ensures
        r@ == ser_value(v@) + seq![10u8],
{
    let mut out = write_json(v);
    out.push(10);
    proof {
        assert(out@ =~= ser_value(v@) + seq![10u8]);
    }
    out
}

/// End of the whitespace-delimited token starting at `i`.
pub open spec fn token_end(s: Seq<char>, i: int) -> int
    decreases s.len() - i,
{
    if 0 <= i < s.len() && !ws_char(s[i]) {
        token_end(s, i + 1)
    } else {
        i
    }
}

proof fn lemma_token_end_bounds(s: Seq<char>, i: int)
    requires
        0 <= i <= s.len(),
    ensures
        i <= token_end(s, i) <= s.len(),
    decreases s.len() - i,
{
    if i < s.len() && !ws_char(s[i]) {
        lemma_token_end_bounds(s, i + 1);
    }
}

pub open spec fn version_char(c: char) -> bool {
    crate::json::is_digit_char(c) || c == '.'
}

pub open spec fn all_version_chars(s: Seq<char>) -> bool {
    forall|i: int| 0 <= i < s.len() ==> version_char(#[trigger] s[i])
}

/// Bounds of the first whitespace-delimited token made of digits and dots.
pub open spec fn first_version_token(s: Seq<char>, i: int) -> Option<(int, int)>
    decreases s.len() - i,
{
    let a = trim_lo(s, i);
    if !(i <= a < s.len()) {
        None
    } else {
        let b = token_end(s, a);
        if !(a < b <= s.len()) {
            None
        } else if all_version_chars(s.subrange(a, b)) {
            Some((a, b))
        } else {
            first_version_token(s, b)
        }
    }
}

/// Index of the first dot at or after `i`.
pub open spec fn dot_idx(s: Seq<char>, i: int) -> int
    decreases s.len() - i,
{
    if 0 <= i < s.len() && s[i] != '.' {
        dot_idx(s, i + 1)
    } else {
        i
    }
}

proof fn lemma_dot_idx_bounds(s: Seq<char>, i: int)
    requires
        0 <= i <= s.len(),
    ensures
        i <= dot_idx(s, i) <= s.len(),
    decreases s.len() - i,
{
    if i < s.len() && s[i] != '.' {
        lemma_dot_idx_bounds(s, i + 1);
    }
}

/// The numeric value of one version segment: non-empty digits within the
/// unsigned 32-bit range.
pub open spec fn seg_val(s: Seq<char>) -> Option<int> {
    if s.len() >= 1 && crate::json::all_digit_chars(s) && crate::json::digits_val(s)
        <= 0xffff_ffff {
        Some(crate::json::digits_val(s))
    } else {
        None
    }
}

/// The (major, minor, patch) triple denoted by a version token; missing
/// segments default to zero, a malformed segment rejects the token.
pub open spec fn spec_version_triple(s: Seq<char>) -> Option<(int, int, int)> {
    let d1 = dot_idx(s, 0);
    match seg_val(s.subrange(0, d1)) {
        None => None,
        Some(ma) => if d1 == s.len() {
            Some((ma, 0, 0))
        } else {
            let d2 = dot_idx(s, d1 + 1);
            match seg_val(s.subrange(d1 + 1, d2)) {
                None => None,
                Some(mi) => if d2 == s.len() {
                    Some((ma, mi, 0))
                } else {
                    let d3 = dot_idx(s, d2 + 1);
                    match seg_val(s.subrange(d2 + 1, d3)) {
                        None => None,
                        Some(pa) => Some((ma, mi, pa)),
                    }
                },
            }
        },
    }
}

/// What [`parse_version_components`] yields: the triple of the first
/// version-shaped token, if the input has one and it is well formed.
pub open spec fn spec_parse_version(s: Seq<char>) -> Option<(int, int, int)> {
    match first_version_token(s, 0) {
        None => None,
        Some((a, b)) => spec_version_triple(s.subrange(a, b)),
    }
}

/// Parses one version segment `s[from..to]`.
fn parse_segment(s: &str, from: usize, to: usize) -> (r: Option<u32>)
    requires
        from <= to <= s@.len(),
    ensures
        match r {
            Some(v) => seg_val(s@.subrange(from as int, to as int)) == Some(v as int),
            None => seg_val(s@.subrange(from as int, to as int)) is None,
        },
{
    let ghost seg = s@.subrange(from as int, to as int);
    if from == to {
        return None;
    }
    let mut acc: u64 = 0;
    let mut i = from;
    while i < to
        invariant
            from <= i <= to <= s@.len(),
            seg == s@.subrange(from as int, to as int),
            crate::json::all_digit_chars(s@.subrange(from as int, i as int)),
            acc == crate::json::digits_val(s@.subrange(from as int, i as int)),
            acc <= 0xffff_ffff,
        decreases to - i,
    {
        let c = s.get_char(i);
        let v = c as u32;
        proof {
            vstd::utf8::char_u32_cast(c, v);
            assert(s@[i as int] == c);
        }
        if v < 48 || v > 57 {
            proof {
                assert(!crate::json::is_digit_char(c));
                assert(seg[i - from] == c);
                assert(!crate::json::all_digit_chars(seg));
            }
            return None;
        }
        let d = (v - 48) as u64;
        proof {
            assert(crate::json::is_digit_char(c));
            assert(s@.subrange(from as int, i + 1).drop_last() =~= s@.subrange(
                from as int,
                i as int,
            ));
            assert(s@.subrange(from as int, i + 1).last() == c);
            assert(forall|k: int|
                0 <= k < i + 1 - from ==> #[trigger] s@.subrange(from as int, i + 1)[k]
                    == s@[from + k]);
        }
        if acc > 0xffff_ffff / 10 || (acc == 0xffff_ffff / 10 && d > 5) {
            // The digits so far already exceed the 32-bit range.
            proof {
                let pre = s@.subrange(from as int, i + 1);
                assert(crate::json::digits_val(pre) == crate::json::digits_val(pre.drop_last())
                    * 10 + crate::json::digit_char_val(c));
                assert(crate::json::digits_val(pre) > 0xffff_ffff);
                if crate::json::all_digit_chars(seg) {
                    assert(seg.subrange(0, i + 1 - from) =~= pre);
                    crate::json::lemma_digits_val_prefix(seg, i + 1 - from);
                    assert(crate::json::digits_val(seg) > 0xffff_ffff);
                }
            }
            return None;
        }
        acc = acc * 10 + d;
        i = i + 1;
    }
    proof {
        assert(s@.subrange(from as int, to as int) =~= seg);
    }
    Some(acc as u32)
}

/// First dot at or after `i` in the token, or its end.
fn scan_dot(t: &str, i: usize, n: usize) -> (r: usize)
    requires
        i <= n,
        n == t@.len(),
    ensures
        r as int == dot_idx(t@, i as int),
        i <= r <= n,
{
    let mut cur = i;
    while cur < n && t.get_char(cur) != '.'
        invariant
            i <= cur <= n,
            n == t@.len(),
            dot_idx(t@, i as int) == dot_idx(t@, cur as int),
        decreases n - cur,
    {
        cur = cur + 1;
    }
    proof {
        assert(dot_idx(t@, cur as int) == cur);
    }
    cur
}

/// The (major, minor, patch) triple of one version token.
fn version_triple(t: &str) -> (r: Option<(u32, u32, u32)>)
    ensures
        match r {
            Some(v) => spec_version_triple(t@) == Some((v.0 as int, v.1 as int, v.2 as int)),
            None => spec_version_triple(t@) is None,
        },
{
    let n = t.unicode_len();
    let d1 = scan_dot(t, 0, n);
    let ma = match parse_segment(t, 0, d1) {
        Some(v) => v,
        None => {
            return None;
        },
    };
    if d1 == n {
        return Some((ma, 0, 0));
    }
    let d2 = scan_dot(t, d1 + 1, n);
    let mi = match parse_segment(t, d1 + 1, d2) {
        Some(v) => v,
        None => {
            return None;
        },
    };
    if d2 == n {
        return Some((ma, mi, 0));
    }
    let d3 = scan_dot(t, d2 + 1, n);
    match parse_segment(t, d2 + 1, d3) {
        Some(pa) => Some((ma, mi, pa)),
        None => None,
    }
}

/// Extracts the (major, minor, patch) triple from the first token of the
/// input that is made of digits and dots, as version banners print it.
pub fn parse_version_components(input: &str) -> (r: Option<(u32, u32, u32)>)
    ensures
        match r {
            Some(v) => spec_parse_version(input@) == Some((v.0 as int, v.1 as int, v.2 as int)),
            None => spec_parse_version(input@) is None,
        },
{
    let n = input.unicode_len();
    let mut i: usize = 0;
    let mut tok_a: usize = 0;
    let mut tok_b: usize = 0;
    // Find the first whitespace-delimited token of digits and dots.
    loop
        invariant_except_break
            i <= n,
            n == input@.len(),
            first_version_token(input@, 0) == first_version_token(input@, i as int),
        ensures
            tok_a <= tok_b <= n,
            n == input@.len(),
            first_version_token(input@, 0) == Some((tok_a as int, tok_b as int)),
        decreases n - i,
    {
        let mut a = i;
        while a < n && (input.get_char(a) == ' ' || input.get_char(a) == '\t' || input.get_char(
            a,
        ) == '\n' || input.get_char(a) == '\r')
            invariant
                i <= a <= n,
                n == input@.len(),
                trim_lo(input@, i as int) == trim_lo(input@, a as int),
            decreases n - a,
        {
            a = a + 1;
        }
        proof {
            assert(trim_lo(input@, a as int) == a);
        }
        if a >= n {
            proof {
                assert(first_version_token(input@, i as int) is None);
            }
            return None;
        }
        let mut b = a;
        let mut ok = true;
        while b < n && !(input.get_char(b) == ' ' || input.get_char(b) == '\t'
            || input.get_char(b) == '\n' || input.get_char(b) == '\r')
            invariant
                a <= b <= n,
                n == input@.len(),
                token_end(input@, a as int) == token_end(input@, b as int),
                ok == all_version_chars(input@.subrange(a as int, b as int)),
            decreases n - b,
        {
            let c = input.get_char(b);
            let v = c as u32;
            proof {
                vstd::utf8::char_u32_cast(c, v);
                assert(input@[b as int] == c);
            }
            let is_version = (48 <= v && v <= 57) || v == 46;
            proof {
                assert(is_version == version_char(c));
                assert(input@.subrange(a as int, b + 1).drop_last() =~= input@.subrange(
                    a as int,
                    b as int,
                ));
                assert(input@.subrange(a as int, b + 1).last() == c);
            }
            if !is_version {
                ok = false;
            }
            b = b + 1;
        }
        proof {
            assert(token_end(input@, b as int) == b);
        }
        if ok {
            proof {
                assert(first_version_token(input@, i as int) == Some((a as int, b as int)));
            }
            tok_a = a;
            tok_b = b;
            break;
        }
        proof {
            assert(first_version_token(input@, i as int) == first_version_token(
                input@,
                b as int,
            ));
        }
        i = b;
    }
    let token = input.substring_char(tok_a, tok_b);
    version_triple(token)
}

} // verus!
