//! The byte-level frame codec: one JSON value per line on the wire.
//!
//! `sp_*` functions define the grammar mathematically; [`write_json`] and
//! [`parse_json`] are the executable serializer and parser, each proved
//! against the grammar.

use vstd::prelude::*;

use crate::json::{arr_view, jv_view, obj_fields_view, JsonV, JsonValue};
use vstd::utf8::{decode_utf8, encode_scalar, encode_utf8, valid_utf8};

verus! {

pub open spec fn is_ws_byte(b: u8) -> bool {
    b == 32 || b == 9 || b == 10 || b == 13
}

pub open spec fn is_digit_byte(b: u8) -> bool {
    48 <= b <= 57
}

/// Index of the first non-whitespace byte at or after `i`.
pub open spec fn sp_ws(s: Seq<u8>, i: int) -> int
    decreases s.len() - i,
{
    if 0 <= i < s.len() && is_ws_byte(s[i]) {
        sp_ws(s, i + 1)
    } else {
        i
    }
}

/// Index of the first non-digit byte at or after `i`.
pub open spec fn sp_digits_end(s: Seq<u8>, i: int) -> int
    decreases s.len() - i,
{
    if 0 <= i < s.len() && is_digit_byte(s[i]) {
        sp_digits_end(s, i + 1)
    } else {
        i
    }
}

/// True when the bytes of `w` occur in `s` starting at `i`.
pub open spec fn match_lit(s: Seq<u8>, i: int, w: Seq<u8>) -> bool {
    i >= 0 && i + w.len() <= s.len() && s.subrange(i, i + w.len()) == w
}

/// Value of one hexadecimal digit byte.
pub open spec fn hex_val(b: u8) -> Option<u32> {
    if 48 <= b <= 57 {
        Some((b - 48) as u32)
    } else if 65 <= b <= 70 {
        Some((b - 55) as u32)
    } else if 97 <= b <= 102 {
        Some((b - 87) as u32)
    } else {
        None
    }
}

/// Value of four hexadecimal digit bytes starting at `i`.
pub open spec fn hex4(s: Seq<u8>, i: int) -> Option<u32> {
    if i >= 0 && i + 4 <= s.len() {
        match (hex_val(s[i]), hex_val(s[i + 1]), hex_val(s[i + 2]), hex_val(s[i + 3])) {
            (Some(a), Some(b), Some(c), Some(d)) => Some(
                ((a * 4096 + b * 256 + c * 16 + d) as u32),
            ),
            _ => None,
        }
    } else {
        None
    }
}

/// The byte denoted by a single-character escape, after the backslash.
pub open spec fn esc_in(b: u8) -> Option<u8> {
    if b == 34 {
        Some(34u8)
    } else if b == 92 {
        Some(92u8)
    } else if b == 47 {
        Some(47u8)
    } else if b == 98 {
        Some(8u8)
    } else if b == 102 {
        Some(12u8)
    } else if b == 110 {
        Some(10u8)
    } else if b == 114 {
        Some(13u8)
    } else if b == 116 {
        Some(9u8)
    } else {
        None
    }
}

/// Scans a string body from `i` (just after the opening quote) to its closing
/// quote, yielding the decoded content bytes and the index after the quote.
pub open spec fn sp_strbody(s: Seq<u8>, i: int) -> Option<(Seq<u8>, int)>
    decreases s.len() - i,
{
    if i < 0 || i >= s.len() {
        None
    } else if s[i] == 34 {
        Some((Seq::empty(), i + 1))
    } else if s[i] == 92 {
        if i + 1 >= s.len() {
            None
        } else if s[i + 1] == 117 {
            match hex4(s, i + 2) {
                Some(cp) => if 0xd800 <= cp <= 0xdbff {
                    if i + 12 <= s.len() && s[i + 6] == 92 && s[i + 7] == 117 {
                        match hex4(s, i + 8) {
                            Some(lo) => if 0xdc00 <= lo <= 0xdfff {
                                let scalar = ((0x10000 + (cp - 0xd800) * 0x400 + (lo
                                    - 0xdc00)) as u32);
                                match sp_strbody(s, i + 12) {
                                    Some((rest, j)) => Some((encode_scalar(scalar) + rest, j)),
                                    None => None,
                                }
                            } else {
                                None
                            },
                            None => None,
                        }
                    } else {
                        None
                    }
                } else if 0xdc00 <= cp <= 0xdfff {
                    None
                } else {
                    match sp_strbody(s, i + 6) {
                        Some((rest, j)) => Some((encode_scalar(cp) + rest, j)),
                        None => None,
                    }
                },
                None => None,
            }
        } else {
            match esc_in(s[i + 1]) {
                Some(b) => match sp_strbody(s, i + 2) {
                    Some((rest, j)) => Some((seq![b] + rest, j)),
                    None => None,
                },
                None => None,
            }
        }
    } else if s[i] < 32 {
        None
    } else {
        match sp_strbody(s, i + 1) {
            Some((rest, j)) => Some((seq![s[i]] + rest, j)),
            None => None,
        }
    }
}

/// Scans a string literal starting at its opening quote.
pub open spec fn sp_string(s: Seq<u8>, i: int) -> Option<(Seq<char>, int)> {
    if 0 <= i < s.len() && s[i] == 34 {
        match sp_strbody(s, i + 1) {
            Some((content, j)) => if valid_utf8(content) {
                Some((decode_utf8(content), j))
            } else {
                None
            },
            None => None,
        }
    } else {
        None
    }
}

/// Scans a number literal starting at `i`.
pub open spec fn sp_number(s: Seq<u8>, i: int) -> Option<(JsonV, int)> {
    if !(0 <= i < s.len()) {
        None
    } else {
        let j1 = if s[i] == 45 {
            i + 1
        } else {
            i
        };
        if !(j1 < s.len() && is_digit_byte(s[j1])) {
            None
        } else {
            let j2 = if s[j1] == 48 {
                j1 + 1
            } else {
                sp_digits_end(s, j1)
            };
            if j2 < s.len() && s[j2] == 46 {
                if j2 + 1 < s.len() && is_digit_byte(s[j2 + 1]) {
                    sp_number_exp(s, i, sp_digits_end(s, j2 + 1))
                } else {
                    None
                }
            } else {
                sp_number_exp(s, i, j2)
            }
        }
    }
}

/// Scans an optional exponent from `j` and closes the lexeme begun at `i`.
pub open spec fn sp_number_exp(s: Seq<u8>, i: int, j: int) -> Option<(JsonV, int)> {
    if j < s.len() && (s[j] == 101 || s[j] == 69) {
        let k = if j + 1 < s.len() && (s[j + 1] == 43 || s[j + 1] == 45) {
            j + 2
        } else {
            j + 1
        };
        if k < s.len() && is_digit_byte(s[k]) {
            sp_number_fin(s, i, sp_digits_end(s, k))
        } else {
            None
        }
    } else {
        sp_number_fin(s, i, j)
    }
}

/// Packages the number lexeme `s[i..j]` as a value.
pub open spec fn sp_number_fin(s: Seq<u8>, i: int, j: int) -> Option<(JsonV, int)> {
    let lex = s.subrange(i, j);
    if 0 <= i <= j <= s.len() && valid_utf8(lex) {
        Some((JsonV::Num(decode_utf8(lex)), j))
    } else {
        None
    }
}

/// Scans one JSON value starting at `i` (no leading whitespace).
pub open spec fn sp_value(s: Seq<u8>, i: int) -> Option<(JsonV, int)>
    decreases s.len() - i, 1int,
{
    if !(0 <= i < s.len()) {
        None
    } else if s[i] == 110 {
        if match_lit(s, i, seq![110u8, 117u8, 108u8, 108u8]) {
            Some((JsonV::Null, i + 4))
        } else {
            None
        }
    } else if s[i] == 116 {
        if match_lit(s, i, seq![116u8, 114u8, 117u8, 101u8]) {
            Some((JsonV::Bool(true), i + 4))
        } else {
            None
        }
    } else if s[i] == 102 {
        if match_lit(s, i, seq![102u8, 97u8, 108u8, 115u8, 101u8]) {
            Some((JsonV::Bool(false), i + 5))
        } else {
            None
        }
    } else if s[i] == 34 {
        match sp_string(s, i) {
            Some((c, j)) => Some((JsonV::Str(c), j)),
            None => None,
        }
    } else if s[i] == 45 || is_digit_byte(s[i]) {
        sp_number(s, i)
    } else if s[i] == 91 {
        let j = sp_ws(s, i + 1);
        if j < s.len() && s[j] == 93 {
            Some((JsonV::Arr(Seq::empty()), j + 1))
        } else if i + 1 <= j <= s.len() {
            match sp_elements(s, j) {
                Some((elts, k)) => Some((JsonV::Arr(elts), k)),
                None => None,
            }
        } else {
            None
        }
    } else if s[i] == 123 {
        let j = sp_ws(s, i + 1);
        if j < s.len() && s[j] == 125 {
            Some((JsonV::Obj(Seq::empty()), j + 1))
        } else if i + 1 <= j <= s.len() {
            match sp_members(s, j) {
                Some((fs, k)) => Some((JsonV::Obj(fs), k)),
                None => None,
            }
        } else {
            None
        }
    } else {
        None
    }
}

/// Scans the elements of a non-empty array, starting at the first element and
/// consuming the closing bracket.
pub open spec fn sp_elements(s: Seq<u8>, i: int) -> Option<(Seq<JsonV>, int)>
    decreases s.len() - i, 2int,
{
    if !(0 <= i <= s.len()) {
        None
    } else {
        match sp_value(s, i) {
            Some((v, j)) => if !(i < j <= s.len()) {
                None
            } else {
                let k = sp_ws(s, j);
                if !(j <= k <= s.len()) {
                    None
                } else if k < s.len() && s[k] == 44 {
                    let m = sp_ws(s, k + 1);
                    if !(k + 1 <= m <= s.len()) {
                        None
                    } else {
                        match sp_elements(s, m) {
                            Some((rest, e)) => Some((seq![v] + rest, e)),
                            None => None,
                        }
                    }
                } else if k < s.len() && s[k] == 93 {
                    Some((seq![v], k + 1))
                } else {
                    None
                }
            },
            None => None,
        }
    }
}

/// Scans the fields of a non-empty object, starting at the first key and
/// consuming the closing brace.
pub open spec fn sp_members(s: Seq<u8>, i: int) -> Option<(Seq<(Seq<char>, JsonV)>, int)>
    decreases s.len() - i, 2int,
{
    if !(0 <= i <= s.len()) {
        None
    } else {
        match sp_string(s, i) {
            Some((key, j)) => if !(i < j <= s.len()) {
                None
            } else {
                let k = sp_ws(s, j);
                if !(j <= k <= s.len() && k < s.len() && s[k] == 58) {
                    None
                } else {
                    let m = sp_ws(s, k + 1);
                    if !(k + 1 <= m <= s.len()) {
                        None
                    } else {
                        match sp_value(s, m) {
                            Some((v, p)) => if !(m < p <= s.len()) {
                                None
                            } else {
                                let q = sp_ws(s, p);
                                if !(p <= q <= s.len()) {
                                    None
                                } else if q < s.len() && s[q] == 44 {
                                    let r2 = sp_ws(s, q + 1);
                                    if !(q + 1 <= r2 <= s.len()) {
                                        None
                                    } else {
                                        match sp_members(s, r2) {
                                            Some((rest, e)) => Some(
                                                (seq![(key, v)] + rest, e),
                                            ),
                                            None => None,
                                        }
                                    }
                                } else if q < s.len() && s[q] == 125 {
                                    Some((seq![(key, v)], q + 1))
                                } else {
                                    None
                                }
                            },
                            None => None,
                        }
                    }
                }
            },
            None => None,
        }
    }
}

/// One complete JSON document: a value, possibly surrounded by whitespace,
/// spanning the whole input.
pub open spec fn json_doc(s: Seq<u8>) -> Option<JsonV> {
    let i = sp_ws(s, 0);
    match sp_value(s, i) {
        Some((v, j)) => if sp_ws(s, j) == s.len() {
            Some(v)
        } else {
            None
        },
        None => None,
    }
}

pub proof fn lemma_sp_ws_bounds(s: Seq<u8>, i: int)
    requires
        0 <= i <= s.len(),
    ensures
        i <= sp_ws(s, i) <= s.len(),
    decreases s.len() - i,
{
    if i < s.len() && is_ws_byte(s[i]) {
        lemma_sp_ws_bounds(s, i + 1);
    }
}

pub proof fn lemma_sp_digits_end_bounds(s: Seq<u8>, i: int)
    requires
        0 <= i <= s.len(),
    ensures
        i <= sp_digits_end(s, i) <= s.len(),
    decreases s.len() - i,
{
    if i < s.len() && is_digit_byte(s[i]) {
        lemma_sp_digits_end_bounds(s, i + 1);
    }
}

pub proof fn lemma_sp_strbody_bounds(s: Seq<u8>, i: int)
    ensures
        sp_strbody(s, i) matches Some((c, j)) ==> i < j <= s.len(),
    decreases s.len() - i,
{
    if 0 <= i < s.len() {
        if s[i] == 92 {
            if i + 1 < s.len() && s[i + 1] == 117 {
                if hex4(s, i + 2) is Some {
                    lemma_sp_strbody_bounds(s, i + 6);
                    if i + 12 <= s.len() {
                        lemma_sp_strbody_bounds(s, i + 12);
                    }
                }
            } else if i + 1 < s.len() {
                lemma_sp_strbody_bounds(s, i + 2);
            }
        } else {
            lemma_sp_strbody_bounds(s, i + 1);
        }
    }
}

pub proof fn lemma_sp_string_bounds(s: Seq<u8>, i: int)
    ensures
        sp_string(s, i) matches Some((c, j)) ==> i < j <= s.len(),
{
    if 0 <= i < s.len() && s[i] == 34 {
        lemma_sp_strbody_bounds(s, i + 1);
    }
}

pub proof fn lemma_sp_number_bounds(s: Seq<u8>, i: int)
    ensures
        sp_number(s, i) matches Some((v, j)) ==> i < j <= s.len(),
{
    if 0 <= i < s.len() {
        let j1 = if s[i] == 45 {
            i + 1
        } else {
            i
        };
        if j1 < s.len() && is_digit_byte(s[j1]) {
            let j2 = if s[j1] == 48 {
                j1 + 1
            } else {
                sp_digits_end(s, j1)
            };
            if s[j1] != 48 {
                lemma_sp_digits_end_bounds(s, j1 + 1);
                assert(sp_digits_end(s, j1) == sp_digits_end(s, j1 + 1));
            }
            assert(j1 < j2 <= s.len());
            if j2 < s.len() && s[j2] == 46 {
                if j2 + 1 < s.len() && is_digit_byte(s[j2 + 1]) {
                    lemma_sp_digits_end_bounds(s, j2 + 2);
                    assert(sp_digits_end(s, j2 + 1) == sp_digits_end(s, j2 + 2));
                    lemma_sp_number_exp_bounds(s, i, sp_digits_end(s, j2 + 1));
                }
            } else {
                lemma_sp_number_exp_bounds(s, i, j2);
            }
        }
    }
}

proof fn lemma_sp_number_exp_bounds(s: Seq<u8>, i: int, j: int)
    requires
        0 <= j,
    ensures
        sp_number_exp(s, i, j) matches Some((v, e)) ==> j <= e <= s.len(),
{
    if j < s.len() && (s[j] == 101 || s[j] == 69) {
        let k = if j + 1 < s.len() && (s[j + 1] == 43 || s[j + 1] == 45) {
            j + 2
        } else {
            j + 1
        };
        if k < s.len() && is_digit_byte(s[k]) {
            lemma_sp_digits_end_bounds(s, k);
        }
    }
}

pub proof fn lemma_sp_value_bounds(s: Seq<u8>, i: int)
    ensures
        sp_value(s, i) matches Some((v, j)) ==> i < j <= s.len(),
    decreases s.len() - i, 1int,
{
    if 0 <= i < s.len() {
        assert(seq![110u8, 117u8, 108u8, 108u8].len() == 4);
        assert(seq![116u8, 114u8, 117u8, 101u8].len() == 4);
        assert(seq![102u8, 97u8, 108u8, 115u8, 101u8].len() == 5);
        if s[i] == 34 {
            lemma_sp_string_bounds(s, i);
        } else if s[i] == 45 || is_digit_byte(s[i]) {
            lemma_sp_number_bounds(s, i);
        } else if s[i] == 91 {
            lemma_sp_ws_bounds(s, i + 1);
            let j = sp_ws(s, i + 1);
            if !(j < s.len() && s[j] == 93) {
                lemma_sp_elements_bounds(s, j);
            }
        } else if s[i] == 123 {
            lemma_sp_ws_bounds(s, i + 1);
            let j = sp_ws(s, i + 1);
            if !(j < s.len() && s[j] == 125) {
                lemma_sp_members_bounds(s, j);
            }
        }
    }
}

pub proof fn lemma_sp_elements_bounds(s: Seq<u8>, i: int)
    ensures
        sp_elements(s, i) matches Some((elts, j)) ==> i < j <= s.len(),
    decreases s.len() - i, 2int,
{
    if 0 <= i <= s.len() {
        lemma_sp_value_bounds(s, i);
        match sp_value(s, i) {
            Some((v, j)) => {
                if i < j <= s.len() {
                    let k = sp_ws(s, j);
                    lemma_sp_ws_bounds(s, j);
                    if k < s.len() && s[k] == 44 {
                        let m = sp_ws(s, k + 1);
                        lemma_sp_ws_bounds(s, k + 1);
                        if k + 1 <= m <= s.len() {
                            lemma_sp_elements_bounds(s, m);
                        }
                    }
                }
            },
            None => {},
        }
    }
}

pub proof fn lemma_sp_members_bounds(s: Seq<u8>, i: int)
    ensures
        sp_members(s, i) matches Some((fs, j)) ==> i < j <= s.len(),
    decreases s.len() - i, 2int,
{
    if 0 <= i <= s.len() {
        lemma_sp_string_bounds(s, i);
        match sp_string(s, i) {
            Some((key, j)) => {
                if i < j <= s.len() {
                    let k = sp_ws(s, j);
                    lemma_sp_ws_bounds(s, j);
                    if k < s.len() && s[k] == 58 {
                        let m = sp_ws(s, k + 1);
                        lemma_sp_ws_bounds(s, k + 1);
                        if k + 1 <= m <= s.len() {
                            lemma_sp_value_bounds(s, m);
                            match sp_value(s, m) {
                                Some((v, p)) => {
                                    if m < p <= s.len() {
                                        let q = sp_ws(s, p);
                                        lemma_sp_ws_bounds(s, p);
                                        if q < s.len() && s[q] == 44 {
                                            let r2 = sp_ws(s, q + 1);
                                            lemma_sp_ws_bounds(s, q + 1);
                                            if q + 1 <= r2 <= s.len() {
                                                lemma_sp_members_bounds(s, r2);
                                            }
                                        }
                                    }
                                },
                                None => {},
                            }
                        }
                    }
                }
            },
            None => {},
        }
    }
}

/// One hexadecimal digit (lowercase) for a value below 16.
pub open spec fn hex_digit_byte(d: int) -> u8 {
    if d < 10 {
        (48 + d) as u8
    } else {
        (87 + d) as u8
    }
}

/// The serialized form of one string-content byte.
pub open spec fn esc_out(b: u8) -> Seq<u8> {
    if b == 34 {
        seq![92u8, 34u8]
    } else if b == 92 {
        seq![92u8, 92u8]
    } else if b == 8 {
        seq![92u8, 98u8]
    } else if b == 9 {
        seq![92u8, 116u8]
    } else if b == 10 {
        seq![92u8, 110u8]
    } else if b == 12 {
        seq![92u8, 102u8]
    } else if b == 13 {
        seq![92u8, 114u8]
    } else if b < 32 {
        seq![92u8, 117u8, 48u8, 48u8, hex_digit_byte(b as int / 16), hex_digit_byte(b as int % 16)]
    } else {
        seq![b]
    }
}

/// The serialized form of a string body, byte by byte.
pub open spec fn ser_strbody(bs: Seq<u8>) -> Seq<u8>
    decreases bs.len(),
{
    if bs.len() == 0 {
        Seq::empty()
    } else {
        ser_strbody(bs.drop_last()) + esc_out(bs.last())
    }
}

/// The serialized form of a string literal, quotes included.
pub open spec fn ser_string(content: Seq<char>) -> Seq<u8> {
    seq![34u8] + ser_strbody(encode_utf8(content)) + seq![34u8]
}

/// The serialized form of one JSON value, in compact layout.
pub open spec fn ser_value(v: JsonV) -> Seq<u8>
    decreases v, 1int,
    via ser_value_decreases
{
    match v {
        JsonV::Null => seq![110u8, 117u8, 108u8, 108u8],
        JsonV::Bool(b) => if b {
            seq![116u8, 114u8, 117u8, 101u8]
        } else {
            seq![102u8, 97u8, 108u8, 115u8, 101u8]
        },
        JsonV::Num(lex) => encode_utf8(lex),
        JsonV::Str(c) => ser_string(c),
        JsonV::Arr(elts) => seq![91u8] + ser_items(elts) + seq![93u8],
        JsonV::Obj(fs) => seq![123u8] + ser_members(fs) + seq![125u8],
    }
}

/// The serialized elements of an array, comma-separated.
pub open spec fn ser_items(elts: Seq<JsonV>) -> Seq<u8>
    decreases elts, 2int,
    via ser_items_decreases
{
    if elts.len() == 0 {
        Seq::empty()
    } else if elts.len() == 1 {
        ser_value(elts.last())
    } else {
        ser_items(elts.drop_last()) + seq![44u8] + ser_value(elts.last())
    }
}

/// The serialized form of one object field.
pub open spec fn ser_member(f: (Seq<char>, JsonV)) -> Seq<u8>
    decreases f, 0int,
{
    ser_string(f.0) + seq![58u8] + ser_value(f.1)
}

/// The serialized fields of an object, comma-separated.
pub open spec fn ser_members(fs: Seq<(Seq<char>, JsonV)>) -> Seq<u8>
    decreases fs, 2int,
    via ser_members_decreases
{
    if fs.len() == 0 {
        Seq::empty()
    } else if fs.len() == 1 {
        ser_member(fs.last())
    } else {
        ser_members(fs.drop_last()) + seq![44u8] + ser_member(fs.last())
    }
}

#[via_fn]
proof fn ser_value_decreases(v: JsonV) {
    match v {
        JsonV::Arr(elts) => {
            assert(decreases_to!(v => elts));
        },
        JsonV::Obj(fs) => {
            assert(decreases_to!(v => fs));
        },
        _ => {},
    }
}

#[via_fn]
proof fn ser_items_decreases(elts: Seq<JsonV>) {
    if elts.len() > 0 {
        vstd::seq::axiom_seq_index_decreases(elts, elts.len() - 1);
        assert(elts.last() == elts[elts.len() - 1]);
        if elts.len() > 1 {
            vstd::seq::axiom_seq_subrange_decreases(elts, 0, elts.len() - 1);
        }
    }
}

#[via_fn]
proof fn ser_members_decreases(fs: Seq<(Seq<char>, JsonV)>) {
    if fs.len() > 0 {
        vstd::seq::axiom_seq_index_decreases(fs, fs.len() - 1);
        assert(fs.last() == fs[fs.len() - 1]);
        if fs.len() > 1 {
            vstd::seq::axiom_seq_subrange_decreases(fs, 0, fs.len() - 1);
        }
    }
}

/// Appends the escaped bytes of a string body to `out`.
#[verifier::loop_isolation(false)]
fn write_strbody(s: &String, out: &mut Vec<u8>)
    ensures
        final(out)@ == old(out)@ + ser_strbody(encode_utf8(s@)),
{
    let bs = s.as_str().as_bytes();
    let ghost full = encode_utf8(s@);
    let n = bs.len();
    let mut k: usize = 0;
    while k < n
        invariant
            k <= n,
            n == full.len(),
            bs@ == full,
            out@ == old(out)@ + ser_strbody(full.subrange(0, k as int)),
        decreases n - k,
    {
        let b = bs[k];
        proof {
            assert(full.subrange(0, k + 1).drop_last() =~= full.subrange(0, k as int));
            assert(full.subrange(0, k + 1).last() == b);
        }
        if b == 34 {
            out.push(92);
            out.push(34);
        } else if b == 92 {
            out.push(92);
            out.push(92);
        } else if b == 8 {
            out.push(92);
            out.push(98);
        } else if b == 9 {
            out.push(92);
            out.push(116);
        } else if b == 10 {
            out.push(92);
            out.push(110);
        } else if b == 12 {
            out.push(92);
            out.push(102);
        } else if b == 13 {
            out.push(92);
            out.push(114);
        } else if b < 32 {
            out.push(92);
            out.push(117);
            out.push(48);
            out.push(48);
            let hi = b / 16;
            let lo = b % 16;
            out.push(if hi < 10 { 48 + hi } else { 87 + hi });
            out.push(if lo < 10 { 48 + lo } else { 87 + lo });
        } else {
            out.push(b);
        }
        proof {
            assert(out@ =~= old(out)@ + ser_strbody(full.subrange(0, k + 1)));
        }
        k = k + 1;
    }
    proof {
        assert(full.subrange(0, n as int) =~= full);
    }
}

/// Appends the serialized form of `v` to `out`.
#[verifier::loop_isolation(false)]
fn write_value(v: &JsonValue, out: &mut Vec<u8>)
    ensures
        final(out)@ == old(out)@ + ser_value(v@),
    decreases v,
{
    match v {
        JsonValue::Null => {
            out.push(110);
            out.push(117);
            out.push(108);
            out.push(108);
            proof {
                assert(out@ =~= old(out)@ + ser_value(v@));
            }
        },
        JsonValue::Bool(b) => {
            if *b {
                out.push(116);
                out.push(114);
                out.push(117);
                out.push(101);
            } else {
                out.push(102);
                out.push(97);
                out.push(108);
                out.push(115);
                out.push(101);
            }
            proof {
                assert(out@ =~= old(out)@ + ser_value(v@));
            }
        },
        JsonValue::Num(s) => {
            let bs = s.as_str().as_bytes();
            out.extend_from_slice(bs);
            proof {
                assert(out@ =~= old(out)@ + ser_value(v@));
            }
        },
        JsonValue::Str(s) => {
            out.push(34);
            write_strbody(s, out);
            out.push(34);
            proof {
                assert(out@ =~= old(out)@ + ser_value(v@));
            }
        },
        JsonValue::Arr(items) => {
            let ghost elts = crate::json::arr_view(items@);
            proof {
                crate::json::lemma_arr_view(items@);
            }
            out.push(91);
            let n = items.len();
            let mut k: usize = 0;
            while k < n
                invariant
                    k <= n,
                    n == items@.len(),
                    elts == crate::json::arr_view(items@),
                    elts.len() == n,
                    forall|q: int| 0 <= q < n ==> elts[q] == jv_view(#[trigger] items@[q]),
                    out@ == old(out)@ + seq![91u8] + ser_items(elts.subrange(0, k as int)),
                decreases n - k,
            {
                if k > 0 {
                    out.push(44);
                }
                proof {
                    assert(decreases_to!(*v => *items));
                    assert(decreases_to!(*items => items@));
                    assert(decreases_to!(items@ => items@[k as int]));
                }
                write_value(&items[k], out);
                proof {
                    let pre = elts.subrange(0, k as int);
                    let cur = elts.subrange(0, k + 1);
                    assert(cur.drop_last() =~= pre);
                    assert(cur.last() == elts[k as int]);
                    assert(ser_value(items@[k as int]@) == ser_value(elts[k as int]));
                    if k == 0 {
                        assert(cur.len() == 1);
                        assert(out@ =~= old(out)@ + seq![91u8] + ser_items(cur));
                    } else {
                        assert(ser_items(cur) == ser_items(pre) + seq![44u8] + ser_value(
                            elts[k as int],
                        ));
                        assert(out@ =~= old(out)@ + seq![91u8] + ser_items(cur));
                    }
                }
                k = k + 1;
            }
            out.push(93);
            proof {
                assert(elts.subrange(0, n as int) =~= elts);
                assert(out@ =~= old(out)@ + ser_value(v@));
            }
        },
        JsonValue::Obj(fields) => {
            let ghost fs = crate::json::obj_fields_view(fields@);
            proof {
                crate::json::lemma_obj_fields_view(fields@);
            }
            out.push(123);
            let n = fields.len();
            let mut k: usize = 0;
            while k < n
                invariant
                    k <= n,
                    n == fields@.len(),
                    fs == crate::json::obj_fields_view(fields@),
                    fs.len() == n,
                    forall|q: int|
                        0 <= q < n ==> fs[q] == (
                            (#[trigger] fields@[q]).0@,
                            jv_view(fields@[q].1),
                        ),
                    out@ == old(out)@ + seq![123u8] + ser_members(fs.subrange(0, k as int)),
                decreases n - k,
            {
                if k > 0 {
                    out.push(44);
                }
                let pair = &fields[k];
                out.push(34);
                write_strbody(&pair.0, out);
                out.push(34);
                out.push(58);
                proof {
                    assert(decreases_to!(*v => *fields));
                    assert(decreases_to!(*fields => fields@));
                    assert(decreases_to!(fields@ => fields@[k as int]));
                    assert(decreases_to!(fields@[k as int] => fields@[k as int].1));
                }
                write_value(&pair.1, out);
                proof {
                    let pre = fs.subrange(0, k as int);
                    let cur = fs.subrange(0, k + 1);
                    assert(cur.drop_last() =~= pre);
                    assert(cur.last() == fs[k as int]);
                    assert(ser_member(fs[k as int]) == ser_string(fields@[k as int].0@)
                        + seq![58u8] + ser_value(fields@[k as int].1@));
                    if k == 0 {
                        assert(cur.len() == 1);
                        assert(out@ =~= old(out)@ + seq![123u8] + ser_members(cur));
                    } else {
                        assert(ser_members(cur) == ser_members(pre) + seq![44u8] + ser_member(
                            fs[k as int],
                        ));
                        assert(out@ =~= old(out)@ + seq![123u8] + ser_members(cur));
                    }
                }
                k = k + 1;
            }
            out.push(125);
            proof {
                assert(fs.subrange(0, n as int) =~= fs);
                assert(out@ =~= old(out)@ + ser_value(v@));
            }
        },
    }
}

/// Serializes one JSON value to its compact byte form.
pub fn write_json(v: &JsonValue) -> (out: Vec<u8>)
    ensures
        out@ == ser_value(v@),
{
    let mut out: Vec<u8> = Vec::new();
    write_value(v, &mut out);
    proof {
        assert(out@ =~= ser_value(v@));
    }
    out
}

fn skip_ws(s: &[u8], i: usize) -> (r: usize)
    requires
        i <= s@.len(),
    ensures
        r as int == sp_ws(s@, i as int),
        i <= r <= s@.len(),
{
    let mut cur = i;
    while cur < s.len() && (s[cur] == 32 || s[cur] == 9 || s[cur] == 10 || s[cur] == 13)
        invariant
            i <= cur <= s@.len(),
            sp_ws(s@, i as int) == sp_ws(s@, cur as int),
        decreases s@.len() - cur,
    {
        cur = cur + 1;
    }
    cur
}

fn skip_digits(s: &[u8], i: usize) -> (r: usize)
    requires
        i <= s@.len(),
    ensures
        r as int == sp_digits_end(s@, i as int),
        i <= r <= s@.len(),
{
    let mut cur = i;
    while cur < s.len() && 48 <= s[cur] && s[cur] <= 57
        invariant
            i <= cur <= s@.len(),
            sp_digits_end(s@, i as int) == sp_digits_end(s@, cur as int),
        decreases s@.len() - cur,
    {
        cur = cur + 1;
    }
    cur
}

fn match4(s: &[u8], i: usize, b0: u8, b1: u8, b2: u8, b3: u8) -> (r: bool)
    requires
        i < s@.len(),
    ensures
        r == match_lit(s@, i as int, seq![b0, b1, b2, b3]),
{
    let ghost w = seq![b0, b1, b2, b3];
    if s.len() - i < 4 {
        return false;
    }
    let ok = s[i] == b0 && s[i + 1] == b1 && s[i + 2] == b2 && s[i + 3] == b3;
    proof {
        let sub = s@.subrange(i as int, i + 4);
        if ok {
            assert(sub =~= w);
        } else {
            if sub == w {
                assert(sub[0] == b0 && sub[1] == b1 && sub[2] == b2 && sub[3] == b3);
                assert(false);
            }
        }
    }
    ok
}

fn match5(s: &[u8], i: usize, b0: u8, b1: u8, b2: u8, b3: u8, b4: u8) -> (r: bool)
    requires
        i < s@.len(),
    ensures
        r == match_lit(s@, i as int, seq![b0, b1, b2, b3, b4]),
{
    let ghost w = seq![b0, b1, b2, b3, b4];
    if s.len() - i < 5 {
        return false;
    }
    let ok = s[i] == b0 && s[i + 1] == b1 && s[i + 2] == b2 && s[i + 3] == b3 && s[i + 4] == b4;
    proof {
        let sub = s@.subrange(i as int, i + 5);
        if ok {
            assert(sub =~= w);
        } else {
            if sub == w {
                assert(sub[0] == b0 && sub[1] == b1 && sub[2] == b2 && sub[3] == b3 && sub[4]
                    == b4);
                assert(false);
            }
        }
    }
    ok
}

fn hex_digit(b: u8) -> (r: Option<u32>)
    ensures
        r == hex_val(b),
        r matches Some(x) ==> x < 16,
{
    if 48 <= b && b <= 57 {
        Some((b - 48) as u32)
    } else if 65 <= b && b <= 70 {
        Some((b - 55) as u32)
    } else if 97 <= b && b <= 102 {
        Some((b - 87) as u32)
    } else {
        None
    }
}

fn parse_hex4(s: &[u8], i: usize) -> (r: Option<u32>)
    ensures
        r == hex4(s@, i as int),
        r matches Some(cp) ==> cp <= 0xffff && i + 4 <= s@.len(),
{
    if i > s.len() {
        return None;
    }
    if s.len() - i < 4 {
        return None;
    }
    let a = hex_digit(s[i]);
    let b = hex_digit(s[i + 1]);
    let c = hex_digit(s[i + 2]);
    let d = hex_digit(s[i + 3]);
    match (a, b, c, d) {
        (Some(a), Some(b), Some(c), Some(d)) => Some(a * 4096 + b * 256 + c * 16 + d),
        _ => None,
    }
}

/// The UTF-8 bytes of one Unicode scalar.
fn encode_scalar_bytes(scalar: u32) -> (r: Vec<u8>)
    requires
        vstd::utf8::is_scalar(scalar),
    ensures
        r@ == encode_scalar(scalar),
{
    let mut out: Vec<u8> = Vec::new();
    if scalar < 0x80 {
        out.push((scalar & 0x7f) as u8);
        proof {
            assert(out@ =~= encode_scalar(scalar));
        }
    } else if scalar < 0x800 {
        out.push(0xc0 | ((scalar >> 6) & 0x1f) as u8);
        out.push(0x80 | (scalar & 0x3f) as u8);
        proof {
            assert(out@ =~= encode_scalar(scalar));
        }
    } else if scalar < 0x10000 {
        out.push(0xe0 | ((scalar >> 12) & 0x0f) as u8);
        out.push(0x80 | ((scalar >> 6) & 0x3f) as u8);
        out.push(0x80 | (scalar & 0x3f) as u8);
        proof {
            assert(out@ =~= encode_scalar(scalar));
        }
    } else {
        out.push(0xf0 | ((scalar >> 18) & 0x07) as u8);
        out.push(0x80 | ((scalar >> 12) & 0x3f) as u8);
        out.push(0x80 | ((scalar >> 6) & 0x3f) as u8);
        out.push(0x80 | (scalar & 0x3f) as u8);
        proof {
            assert(out@ =~= encode_scalar(scalar));
        }
    }
    out
}

fn parse_strbody(s: &[u8], i: usize) -> (r: Option<(Vec<u8>, usize)>)
    requires
        i <= s@.len(),
    ensures
        match r {
            Some((c, j)) => sp_strbody(s@, i as int) == Some((c@, j as int)) && i < j
                <= s@.len(),
            None => sp_strbody(s@, i as int) is None,
        },
    decreases s@.len() - i,
{
    if i >= s.len() {
        return None;
    }
    let b = s[i];
    if b == 34 {
        return Some((Vec::new(), i + 1));
    }
    if b == 92 {
        if i + 1 >= s.len() {
            return None;
        }
        let b2 = s[i + 1];
        if b2 == 117 {
            match parse_hex4(s, i + 2) {
                None => None,
                Some(cp) => {
                    if 0xd800 <= cp && cp <= 0xdbff {
                        if s.len() - i >= 12 && s[i + 6] == 92 && s[i + 7] == 117 {
                            match parse_hex4(s, i + 8) {
                                None => None,
                                Some(lo) => {
                                    if 0xdc00 <= lo && lo <= 0xdfff {
                                        let scalar = 0x10000 + (cp - 0xd800) * 0x400 + (lo
                                            - 0xdc00);
                                        proof {
                                            assert(vstd::utf8::is_scalar(scalar));
                                        }
                                        match parse_strbody(s, i + 12) {
                                            None => None,
                                            Some((rest, j)) => {
                                                let mut head = encode_scalar_bytes(scalar);
                                                let ghost restv = rest@;
                                                let mut rest = rest;
                                                head.append(&mut rest);
                                                proof {
                                                    assert(head@ =~= encode_scalar(scalar)
                                                        + restv);
                                                }
                                                Some((head, j))
                                            },
                                        }
                                    } else {
                                        None
                                    }
                                },
                            }
                        } else {
                            None
                        }
                    } else if 0xdc00 <= cp && cp <= 0xdfff {
                        None
                    } else {
                        proof {
                            assert(vstd::utf8::is_scalar(cp));
                        }
                        match parse_strbody(s, i + 6) {
                            None => None,
                            Some((rest, j)) => {
                                let mut head = encode_scalar_bytes(cp);
                                let ghost restv = rest@;
                                let mut rest = rest;
                                head.append(&mut rest);
                                proof {
                                    assert(head@ =~= encode_scalar(cp) + restv);
                                }
                                Some((head, j))
                            },
                        }
                    }
                },
            }
        } else {
            let esc: Option<u8> = if b2 == 34 {
                Some(34)
            } else if b2 == 92 {
                Some(92)
            } else if b2 == 47 {
                Some(47)
            } else if b2 == 98 {
                Some(8)
            } else if b2 == 102 {
                Some(12)
            } else if b2 == 110 {
                Some(10)
            } else if b2 == 114 {
                Some(13)
            } else if b2 == 116 {
                Some(9)
            } else {
                None
            };
            proof {
                assert(esc == esc_in(b2));
            }
            match esc {
                None => None,
                Some(eb) => match parse_strbody(s, i + 2) {
                    None => None,
                    Some((rest, j)) => {
                        let ghost restv = rest@;
                        let mut rest = rest;
                        rest.insert(0, eb);
                        proof {
                            assert(rest@ =~= seq![eb] + restv);
                        }
                        Some((rest, j))
                    },
                },
            }
        }
    } else if b < 32 {
        None
    } else {
        match parse_strbody(s, i + 1) {
            None => None,
            Some((rest, j)) => {
                let ghost restv = rest@;
                let mut rest = rest;
                rest.insert(0, b);
                proof {
                    assert(rest@ =~= seq![b] + restv);
                }
                Some((rest, j))
            },
        }
    }
}

fn parse_string(s: &[u8], i: usize) -> (r: Option<(String, usize)>)
    requires
        i <= s@.len(),
    ensures
        match r {
            Some((st, j)) => sp_string(s@, i as int) == Some((st@, j as int)) && i < j
                <= s@.len(),
            None => sp_string(s@, i as int) is None,
        },
{
    if i >= s.len() {
        return None;
    }
    if s[i] != 34 {
        return None;
    }
    match parse_strbody(s, i + 1) {
        None => None,
        Some((content, j)) => match crate::text::string_from_bytes(content.as_slice()) {
            None => None,
            Some(st) => Some((st, j)),
        },
    }
}

fn parse_number(s: &[u8], i: usize) -> (r: Option<(JsonValue, usize)>)
    requires
        i <= s@.len(),
    ensures
        match r {
            Some((v, j)) => sp_number(s@, i as int) == Some((v@, j as int)) && i < j
                <= s@.len(),
            None => sp_number(s@, i as int) is None,
        },
{
    if i >= s.len() {
        return None;
    }
    let j1 = if s[i] == 45 {
        i + 1
    } else {
        i
    };
    if j1 >= s.len() {
        return None;
    }
    let bj1 = s[j1];
    if !(48 <= bj1 && bj1 <= 57) {
        return None;
    }
    let j2 = if bj1 == 48 {
        j1 + 1
    } else {
        skip_digits(s, j1)
    };
    proof {
        if bj1 != 48 {
            assert(sp_digits_end(s@, j1 as int) == sp_digits_end(s@, j1 + 1));
            lemma_sp_digits_end_bounds(s@, j1 + 1);
        }
        assert(j1 < j2);
    }
    let j3 = if j2 < s.len() && s[j2] == 46 {
        if j2 + 1 < s.len() && 48 <= s[j2 + 1] && s[j2 + 1] <= 57 {
            skip_digits(s, j2 + 1)
        } else {
            return None;
        }
    } else {
        j2
    };
    let j4 = if j3 < s.len() && (s[j3] == 101 || s[j3] == 69) {
        let k = if j3 + 1 < s.len() && (s[j3 + 1] == 43 || s[j3 + 1] == 45) {
            j3 + 2
        } else {
            j3 + 1
        };
        if k < s.len() && 48 <= s[k] && s[k] <= 57 {
            skip_digits(s, k)
        } else {
            return None;
        }
    } else {
        j3
    };
    let mut buf: Vec<u8> = Vec::new();
    let mut p = i;
    while p < j4
        invariant
            i <= p <= j4 <= s@.len(),
            buf@ == s@.subrange(i as int, p as int),
        decreases j4 - p,
    {
        buf.push(s[p]);
        proof {
            assert(buf@ =~= s@.subrange(i as int, p + 1));
        }
        p = p + 1;
    }
    match crate::text::string_from_bytes(buf.as_slice()) {
        None => None,
        Some(st) => Some((JsonValue::Num(st), j4)),
    }
}

fn parse_value(s: &[u8], i: usize) -> (r: Option<(JsonValue, usize)>)
    requires
        i <= s@.len(),
    ensures
        match r {
            Some((v, j)) => sp_value(s@, i as int) == Some((v@, j as int)) && i < j <= s@.len(),
            None => sp_value(s@, i as int) is None,
        },
    decreases s@.len() - i, 1int,
{
    if i >= s.len() {
        return None;
    }
    let b = s[i];
    if b == 110 {
        if match4(s, i, 110, 117, 108, 108) {
            Some((JsonValue::Null, i + 4))
        } else {
            None
        }
    } else if b == 116 {
        if match4(s, i, 116, 114, 117, 101) {
            Some((JsonValue::Bool(true), i + 4))
        } else {
            None
        }
    } else if b == 102 {
        if match5(s, i, 102, 97, 108, 115, 101) {
            Some((JsonValue::Bool(false), i + 5))
        } else {
            None
        }
    } else if b == 34 {
        match parse_string(s, i) {
            Some((st, j)) => Some((JsonValue::Str(st), j)),
            None => None,
        }
    } else if b == 45 || (48 <= b && b <= 57) {
        parse_number(s, i)
    } else if b == 91 {
        let j = skip_ws(s, i + 1);
        if j < s.len() && s[j] == 93 {
            let v = JsonValue::Arr(Vec::new());
            proof {
                assert(arr_view(Seq::<JsonValue>::empty()) =~= Seq::<JsonV>::empty());
                assert(v@ == JsonV::Arr(Seq::<JsonV>::empty()));
            }
            Some((v, j + 1))
        } else {
            match parse_elements(s, j) {
                Some((items, k)) => Some((JsonValue::Arr(items), k)),
                None => None,
            }
        }
    } else if b == 123 {
        let j = skip_ws(s, i + 1);
        if j < s.len() && s[j] == 125 {
            let v = JsonValue::Obj(Vec::new());
            proof {
                assert(obj_fields_view(Seq::<(String, JsonValue)>::empty())
                    =~= Seq::<(Seq<char>, JsonV)>::empty());
                assert(v@ == JsonV::Obj(Seq::<(Seq<char>, JsonV)>::empty()));
            }
            Some((v, j + 1))
        } else {
            match parse_members(s, j) {
                Some((fields, k)) => Some((JsonValue::Obj(fields), k)),
                None => None,
            }
        }
    } else {
        None
    }
}

fn parse_elements(s: &[u8], i: usize) -> (r: Option<(Vec<JsonValue>, usize)>)
    requires
        i <= s@.len(),
    ensures
        match r {
            Some((items, j)) => sp_elements(s@, i as int) == Some((arr_view(items@), j as int))
                && i < j <= s@.len(),
            None => sp_elements(s@, i as int) is None,
        },
    decreases s@.len() - i, 2int,
{
    match parse_value(s, i) {
        None => None,
        Some((v, j)) => {
            let k = skip_ws(s, j);
            if k < s.len() && s[k] == 44 {
                let m = skip_ws(s, k + 1);
                match parse_elements(s, m) {
                    None => None,
                    Some((rest, e)) => {
                        let ghost restv = rest@;
                        let mut items = rest;
                        items.insert(0, v);
                        proof {
                            crate::json::lemma_arr_view(items@);
                            crate::json::lemma_arr_view(restv);
                            assert forall|q: int| 0 <= q < items@.len() implies arr_view(
                                items@,
                            )[q] == (seq![v@] + arr_view(restv))[q] by {
                                if q == 0 {
                                    assert(items@[0] == v);
                                } else {
                                    assert(items@[q] == restv[q - 1]);
                                }
                            }
                            assert(arr_view(items@) =~= seq![v@] + arr_view(restv));
                        }
                        Some((items, e))
                    },
                }
            } else if k < s.len() && s[k] == 93 {
                let mut items: Vec<JsonValue> = Vec::new();
                items.push(v);
                proof {
                    crate::json::lemma_arr_view(items@);
                    assert(arr_view(items@) =~= seq![v@]);
                }
                Some((items, k + 1))
            } else {
                None
            }
        },
    }
}

fn parse_members(s: &[u8], i: usize) -> (r: Option<(Vec<(String, JsonValue)>, usize)>)
    requires
        i <= s@.len(),
    ensures
        match r {
            Some((fields, j)) => sp_members(s@, i as int) == Some(
                (obj_fields_view(fields@), j as int),
            ) && i < j <= s@.len(),
            None => sp_members(s@, i as int) is None,
        },
    decreases s@.len() - i, 2int,
{
    match parse_string(s, i) {
        None => None,
        Some((key, j)) => {
            let k = skip_ws(s, j);
            if !(k < s.len() && s[k] == 58) {
                return None;
            }
            let m = skip_ws(s, k + 1);
            match parse_value(s, m) {
                None => None,
                Some((v, p)) => {
                    let q = skip_ws(s, p);
                    if q < s.len() && s[q] == 44 {
                        let r2 = skip_ws(s, q + 1);
                        match parse_members(s, r2) {
                            None => None,
                            Some((rest, e)) => {
                                let ghost keyv = key@;
                                let ghost vv = v@;
                                let ghost restv = rest@;
                                let mut fields = rest;
                                fields.insert(0, (key, v));
                                proof {
                                    crate::json::lemma_obj_fields_view(fields@);
                                    crate::json::lemma_obj_fields_view(restv);
                                    assert forall|z: int| 0 <= z < fields@.len() implies
                                        obj_fields_view(fields@)[z] == (seq![(keyv, vv)]
                                        + obj_fields_view(restv))[z] by {
                                        if z == 0 {
                                            assert(fields@[0].0@ == keyv && fields@[0].1@ == vv);
                                        } else {
                                            assert(fields@[z] == restv[z - 1]);
                                        }
                                    }
                                    assert(obj_fields_view(fields@) =~= seq![(keyv, vv)]
                                        + obj_fields_view(restv));
                                }
                                Some((fields, e))
                            },
                        }
                    } else if q < s.len() && s[q] == 125 {
                        let ghost keyv = key@;
                        let ghost vv = v@;
                        let mut fields: Vec<(String, JsonValue)> = Vec::new();
                        fields.push((key, v));
                        proof {
                            crate::json::lemma_obj_fields_view(fields@);
                            assert(obj_fields_view(fields@) =~= seq![(keyv, vv)]);
                        }
                        Some((fields, q + 1))
                    } else {
                        None
                    }
                },
            }
        },
    }
}

/// Parses one complete JSON document, with optional surrounding whitespace.
pub fn parse_json(s: &[u8]) -> (r: Option<JsonValue>)
    ensures
        match r {
            Some(v) => json_doc(s@) == Some(v@),
            None => json_doc(s@) is None,
        },
{
    let i = skip_ws(s, 0);
    match parse_value(s, i) {
        None => None,
        Some((v, j)) => {
            let e = skip_ws(s, j);
            if e == s.len() {
                Some(v)
            } else {
                None
            }
        },
    }
}

} // verus!
