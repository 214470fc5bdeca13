//! The JSON value model used on the wire.
//!
//! Every frame exchanged with the child process is one JSON value. The model
//! keeps numbers as their decimal lexeme, so no information is lost and no
//! floating-point representation is needed; accessors interpret a lexeme on
//! demand.

use vstd::prelude::*;

use crate::text::{int_lexeme, str_eq};
use vstd::string::{StrSliceExecFns, StringExecFns};

verus! {

/// Mathematical shape of a JSON value: the view of [`JsonValue`].
#[verifier::ext_equal]
pub enum JsonV {
    Null,
    Bool(bool),
    /// A number, as its decimal lexeme.
    Num(Seq<char>),
    Str(Seq<char>),
    Arr(Seq<JsonV>),
    /// Fields in insertion order; a later binding of a key shadows an earlier one.
    Obj(Seq<(Seq<char>, JsonV)>),
}

/// One JSON value, as held and produced by the frame codec.
#[derive(Debug, PartialEq)]
pub enum JsonValue {
    Null,
    Bool(bool),
    /// A number, kept as its decimal lexeme (e.g. `-12`, `0.5`, `1e9`).
    Num(String),
    Str(String),
    Arr(Vec<JsonValue>),
    /// Fields in insertion order; a later binding of a key shadows an earlier one.
    Obj(Vec<(String, JsonValue)>),
}

/// The view of one JSON value.
pub open spec fn jv_view(v: JsonValue) -> JsonV
    decreases v,
    via jv_view_decreases
{
    match v {
        JsonValue::Null => JsonV::Null,
        JsonValue::Bool(b) => JsonV::Bool(b),
        JsonValue::Num(s) => JsonV::Num(s@),
        JsonValue::Str(s) => JsonV::Str(s@),
        JsonValue::Arr(items) => JsonV::Arr(arr_view(items@)),
        JsonValue::Obj(fields) => JsonV::Obj(obj_fields_view(fields@)),
    }
}

/// The element-wise view of a sequence of JSON values.
pub open spec fn arr_view(s: Seq<JsonValue>) -> Seq<JsonV>
    decreases s,
    via arr_view_decreases
{
    if s.len() == 0 {
        Seq::empty()
    } else {
        seq![jv_view(s.first())] + arr_view(s.drop_first())
    }
}

/// The field-wise view of a sequence of object fields.
pub open spec fn obj_fields_view(s: Seq<(String, JsonValue)>) -> Seq<(Seq<char>, JsonV)>
    decreases s,
    via obj_fields_view_decreases
{
    if s.len() == 0 {
        Seq::empty()
    } else {
        seq![(s.first().0@, jv_view(s.first().1))] + obj_fields_view(s.drop_first())
    }
}

#[via_fn]
proof fn jv_view_decreases(v: JsonValue) {
    match v {
        JsonValue::Arr(items) => {
            assert(decreases_to!(v => items));
            assert(decreases_to!(items => items@));
        },
        JsonValue::Obj(fields) => {
            assert(decreases_to!(v => fields));
            assert(decreases_to!(fields => fields@));
        },
        _ => {},
    }
}

#[via_fn]
proof fn arr_view_decreases(s: Seq<JsonValue>) {
    if s.len() > 0 {
        vstd::seq::axiom_seq_index_decreases(s, 0);
        vstd::seq::axiom_seq_subrange_decreases(s, 1, s.len() as int);
    }
}

#[via_fn]
proof fn obj_fields_view_decreases(s: Seq<(String, JsonValue)>) {
    if s.len() > 0 {
        vstd::seq::axiom_seq_index_decreases(s, 0);
        assert(decreases_to!(s[0] => s[0].1));
        vstd::seq::axiom_seq_subrange_decreases(s, 1, s.len() as int);
    }
}

/// Pointwise reading of [`arr_view`].
pub broadcast proof fn lemma_arr_view(s: Seq<JsonValue>)
    ensures
        (#[trigger] arr_view(s)).len() == s.len(),
        forall|i: int| 0 <= i < s.len() ==> arr_view(s)[i] == jv_view(#[trigger] s[i]),
    decreases s.len(),
{
    if s.len() > 0 {
        lemma_arr_view(s.drop_first());
        assert forall|i: int| 0 <= i < s.len() implies arr_view(s)[i] == jv_view(
            #[trigger] s[i],
        ) by {
            if i == 0 {
                assert(arr_view(s)[0] == jv_view(s.first()));
            } else {
                assert(arr_view(s)[i] == arr_view(s.drop_first())[i - 1]);
                assert(s.drop_first()[i - 1] == s[i]);
            }
        }
    }
}

/// Pointwise reading of [`obj_fields_view`].
pub broadcast proof fn lemma_obj_fields_view(s: Seq<(String, JsonValue)>)
    ensures
        (#[trigger] obj_fields_view(s)).len() == s.len(),
        forall|i: int|
            0 <= i < s.len() ==> obj_fields_view(s)[i] == (
                (#[trigger] s[i]).0@,
                jv_view(s[i].1),
            ),
    decreases s.len(),
{
    if s.len() > 0 {
        lemma_obj_fields_view(s.drop_first());
        assert forall|i: int| 0 <= i < s.len() implies obj_fields_view(s)[i] == (
            (#[trigger] s[i]).0@,
            jv_view(s[i].1),
        ) by {
            if i == 0 {
                assert(obj_fields_view(s)[0] == (s.first().0@, jv_view(s.first().1)));
            } else {
                assert(obj_fields_view(s)[i] == obj_fields_view(s.drop_first())[i - 1]);
                assert(s.drop_first()[i - 1] == s[i]);
            }
        }
    }
}

impl View for JsonValue {
    type V = JsonV;

    open spec fn view(&self) -> JsonV {
        jv_view(*self)
    }
}

/// Looks a key up among object fields; the last binding wins.
pub open spec fn obj_lookup(fields: Seq<(Seq<char>, JsonV)>, key: Seq<char>) -> Option<JsonV>
    decreases fields.len(),
{
    if fields.len() == 0 {
        None
    } else if fields.last().0 == key {
        Some(fields.last().1)
    } else {
        obj_lookup(fields.drop_last(), key)
    }
}

/// What `get` returns on a value: a field for objects, nothing otherwise.
pub open spec fn spec_get(v: JsonV, key: Seq<char>) -> Option<JsonV> {
    match v {
        JsonV::Obj(fields) => obj_lookup(fields, key),
        _ => None,
    }
}

pub open spec fn is_digit_char(c: char) -> bool {
    '0' <= c && c <= '9'
}

pub open spec fn digit_char_val(c: char) -> int {
    (c as u32) - 48
}

pub open spec fn all_digit_chars(s: Seq<char>) -> bool {
    forall|i: int| 0 <= i < s.len() ==> is_digit_char(#[trigger] s[i])
}

/// Value of a digit string, most significant digit first.
pub open spec fn digits_val(s: Seq<char>) -> int
    decreases s.len(),
{
    if s.len() == 0 {
        0
    } else {
        digits_val(s.drop_last()) * 10 + digit_char_val(s.last())
    }
}

/// The integer denoted by a lexeme of the form `-?[0-9]+`, if it has that form.
pub open spec fn lex_int_val(s: Seq<char>) -> Option<int> {
    if s.len() >= 1 && s[0] == '-' {
        let d = s.subrange(1, s.len() as int);
        if d.len() >= 1 && all_digit_chars(d) {
            Some(-digits_val(d))
        } else {
            None
        }
    } else {
        if s.len() >= 1 && all_digit_chars(s) {
            Some(digits_val(s))
        } else {
            None
        }
    }
}

/// What `as_i64` returns: the lexeme's integer value when the value is a
/// number with an integral lexeme that fits in `i64`.
pub open spec fn spec_as_i64(v: JsonV) -> Option<int> {
    match v {
        JsonV::Num(lex) => match lex_int_val(lex) {
            Some(n) => if i64::MIN <= n <= i64::MAX {
                Some(n)
            } else {
                None
            },
            None => None,
        },
        _ => None,
    }
}

proof fn lemma_digits_val_nonneg(s: Seq<char>)
    requires
        all_digit_chars(s),
    ensures
        digits_val(s) >= 0,
    decreases s.len(),
{
    if s.len() > 0 {
        assert(all_digit_chars(s.drop_last())) by {
            assert(forall|i: int| 0 <= i < s.len() - 1 ==> #[trigger] s.drop_last()[i] == s[i]);
        }
        lemma_digits_val_nonneg(s.drop_last());
    }
}

/// Appending digits never shrinks the denoted value.
pub proof fn lemma_digits_val_prefix(s: Seq<char>, k: int)
    requires
        all_digit_chars(s),
        0 <= k <= s.len(),
    ensures
        digits_val(s) >= digits_val(s.subrange(0, k)),
    decreases s.len() - k,
{
    if k < s.len() {
        let p = s.subrange(0, k);
        let q = s.subrange(0, k + 1);
        assert(q.drop_last() =~= p);
        assert(all_digit_chars(p)) by {
            assert(forall|i: int| 0 <= i < k ==> #[trigger] p[i] == s[i]);
        }
        lemma_digits_val_nonneg(p);
        assert(is_digit_char(s[k]));
        assert(q.last() == s[k]);
        assert(digits_val(q) == digits_val(p) * 10 + digit_char_val(s[k]));
        assert(digits_val(q) >= digits_val(p));
        lemma_digits_val_prefix(s, k + 1);
        assert(s.subrange(0, s.len() as int) =~= s);
    } else {
        assert(s.subrange(0, k) =~= s);
    }
}

impl JsonValue {
    /// A number value carrying the decimal lexeme of `n`.
    pub fn int64(n: i64) -> (r: JsonValue)
        ensures
            r@ == JsonV::Num(int_lexeme(n as int)),
    {
        JsonValue::Num(crate::text::i64_to_string(n))
    }

    /// A string value copied from a string slice.
    pub fn text(s: &str) -> (r: JsonValue)
        ensures
            r@ == JsonV::Str(s@),
    {
        JsonValue::Str(String::from_str(s))
    }

    /// Field lookup; `None` on non-objects and missing keys.
    pub fn get<'a>(&'a self, key: &str) -> (r: Option<&'a JsonValue>)
        ensures
            match r {
                Some(v) => spec_get(self@, key@) == Some(v@),
                None => spec_get(self@, key@) is None,
            },
    {
        match self {
            JsonValue::Obj(fields) => {
                let ghost vf = obj_fields_view(fields@);
                proof {
                    lemma_obj_fields_view(fields@);
                    assert(vf.subrange(0, vf.len() as int) =~= vf);
                }
                let mut i: usize = fields.len();
                loop
                    invariant
                        i <= fields@.len(),
                        vf == obj_fields_view(fields@),
                        self@ == JsonV::Obj(vf),
                        vf.len() == fields@.len(),
                        obj_lookup(vf, key@) == obj_lookup(vf.subrange(0, i as int), key@),
                    decreases i,
                {
                    if i == 0 {
                        proof {
                            assert(vf.subrange(0, 0).len() == 0);
                        }
                        return None;
                    }
                    i = i - 1;
                    proof {
                        lemma_obj_fields_view(fields@);
                        assert(vf.subrange(0, i + 1).last() == vf[i as int]);
                        assert(vf.subrange(0, i + 1).drop_last() =~= vf.subrange(0, i as int));
                        assert(vf[i as int].0 == fields@[i as int].0@);
                        assert(vf[i as int].1 == fields@[i as int].1@);
                    }
                    if str_eq(fields[i].0.as_str(), key) {
                        return Some(&fields[i].1);
                    }
                }
            },
            _ => None,
        }
    }

    /// The string content, when this is a string value.
    pub fn as_str<'a>(&'a self) -> (r: Option<&'a String>)
        ensures
            match r {
                Some(s) => self@ == JsonV::Str(s@),
                None => !(self@ is Str),
            },
    {
        match self {
            JsonValue::Str(s) => Some(s),
            _ => None,
        }
    }

    /// The boolean content, when this is a boolean value.
    pub fn as_bool(&self) -> (r: Option<bool>)
        ensures
            match r {
                Some(b) => self@ == JsonV::Bool(b),
                None => !(self@ is Bool),
            },
    {
        match self {
            JsonValue::Bool(b) => Some(*b),
            _ => None,
        }
    }

    /// The elements, when this is an array value.
    pub fn as_array<'a>(&'a self) -> (r: Option<&'a Vec<JsonValue>>)
        ensures
            match r {
                Some(items) => self@ == JsonV::Arr(arr_view(items@)),
                None => !(self@ is Arr),
            },
    {
        match self {
            JsonValue::Arr(items) => Some(items),
            _ => None,
        }
    }

    /// The fields, when this is an object value.
    pub fn as_object<'a>(&'a self) -> (r: Option<&'a Vec<(String, JsonValue)>>)
        ensures
            match r {
                Some(fields) => self@ == JsonV::Obj(obj_fields_view(fields@)),
                None => !(self@ is Obj),
            },
    {
        match self {
            JsonValue::Obj(fields) => Some(fields),
            _ => None,
        }
    }

    pub fn is_string(&self) -> (r: bool)
        ensures
            r == (self@ is Str),
    {
        matches!(self, JsonValue::Str(_))
    }

    pub fn is_array(&self) -> (r: bool)
        ensures
            r == (self@ is Arr),
    {
        matches!(self, JsonValue::Arr(_))
    }

    pub fn is_object(&self) -> (r: bool)
        ensures
            r == (self@ is Obj),
    {
        matches!(self, JsonValue::Obj(_))
    }

    /// The integer denoted by a number value with an integral lexeme, when it
    /// fits in `i64`.
    pub fn as_i64(&self) -> (r: Option<i64>)
        ensures
            match r {
                Some(n) => spec_as_i64(self@) == Some(n as int),
                None => spec_as_i64(self@) is None,
            },
    {
        let lex = match self {
            JsonValue::Num(s) => s,
            _ => { return None; },
        };
        let s = lex.as_str();
        let n = s.unicode_len();
        if n == 0 {
            return None;
        }
        let first = s.get_char(0);
        let neg = (first as u32) == 45;
        proof {
            vstd::utf8::char_u32_cast(first, first as u32);
            assert(neg == (lex@[0] == '-'));
        }
        let start: usize = if neg { 1 } else { 0 };
        if neg && n == 1 {
            return None;
        }
        let ghost digits: Seq<char> = lex@.subrange(start as int, n as int);
        let mut acc: i64 = 0;
        let mut i: usize = start;
        while i < n
            invariant
                start <= i <= n,
                s@ == lex@,
                n == lex@.len(),
                neg == (lex@[0] == '-'),
                start == (if neg { 1int } else { 0int }),
                n >= 1,
                start < n,
                digits == lex@.subrange(start as int, n as int),
                all_digit_chars(lex@.subrange(start as int, i as int)),
                acc == -digits_val(lex@.subrange(start as int, i as int)),
                i64::MIN <= acc <= 0,
                self@ == JsonV::Num(lex@),
            decreases n - i,
        {
            let c = s.get_char(i);
            let v = c as u32;
            proof {
                vstd::utf8::char_u32_cast(c, v);
                assert(lex@[i as int] == c);
            }
            if v < 48 || v > 57 {
                proof {
                    assert(!is_digit_char(c));
                    assert(digits[i - start] == c);
                    assert(!all_digit_chars(digits));
                    if neg {
                        assert(lex@.subrange(1, n as int) =~= digits);
                    } else {
                        assert(lex@.subrange(0, n as int) =~= lex@);
                        assert(digits =~= lex@);
                    }
                }
                return None;
            }
            let d = (v - 48) as i64;
            proof {
                assert(is_digit_char(c));
                assert(0 <= d <= 9);
                assert(lex@.subrange(start as int, i + 1).drop_last() =~= lex@.subrange(
                    start as int,
                    i as int,
                ));
                assert(lex@.subrange(start as int, i + 1).last() == c);
                assert(forall|k: int|
                    0 <= k < i + 1 - start ==> #[trigger] lex@.subrange(start as int, i + 1)[k]
                        == lex@[start + k]);
            }
            if acc < i64::MIN / 10 || (acc == i64::MIN / 10 && d > 8) {
                // The digits already read denote a magnitude beyond i64.
                proof {
                    let pre = lex@.subrange(start as int, i + 1);
                    assert(digits_val(pre) == digits_val(pre.drop_last()) * 10 + digit_char_val(
                        c,
                    ));
                    assert(digits_val(pre) > 0x7fff_ffff_ffff_ffff + 1);
                    if all_digit_chars(digits) {
                        assert(digits.subrange(0, i + 1 - start) =~= pre);
                        lemma_digits_val_prefix(digits, i + 1 - start);
                        assert(digits_val(digits) > 0x7fff_ffff_ffff_ffff + 1);
                    }
                    if neg {
                        assert(lex@.subrange(1, n as int) =~= digits);
                    } else {
                        assert(digits =~= lex@);
                    }
                }
                return None;
            }
            acc = acc * 10 - d;
            i = i + 1;
        }
        proof {
            assert(lex@.subrange(start as int, n as int) =~= digits);
            if neg {
                assert(lex@.subrange(1, n as int) =~= digits);
            } else {
                assert(digits =~= lex@);
            }
        }
        if neg {
            proof {
                assert(lex_int_val(lex@) == Some(-digits_val(digits)));
            }
            Some(acc)
        } else {
            if acc == i64::MIN {
                proof {
                    assert(digits_val(digits) == 0x7fff_ffff_ffff_ffff + 1);
                    assert(lex_int_val(lex@) == Some(digits_val(digits)));
                }
                return None;
            }
            proof {
                assert(lex_int_val(lex@) == Some(digits_val(digits)));
            }
            Some(-acc)
        }
    }

    /// A deep copy whose view is the same value.
    #[verifier::loop_isolation(false)]
    pub fn deep_clone(&self) -> (r: JsonValue)
        ensures
            r@ == self@,
        decreases self,
    {
        match self {
            JsonValue::Null => JsonValue::Null,
            JsonValue::Bool(b) => JsonValue::Bool(*b),
            JsonValue::Num(s) => JsonValue::Num(s.clone()),
            JsonValue::Str(s) => JsonValue::Str(s.clone()),
            JsonValue::Arr(items) => {
                let mut out: Vec<JsonValue> = Vec::new();
                let mut i: usize = 0;
                while i < items.len()
                    invariant
                        i <= items@.len(),
                        out@.len() == i,
                        forall|k: int| 0 <= k < i ==> #[trigger] out@[k]@ == items@[k]@,
                    decreases items@.len() - i,
                {
                    proof {
                        assert(decreases_to!(*self => *items));
                        assert(decreases_to!(*items => items@));
                        assert(decreases_to!(items@ => items@[i as int]));
                    }
                    out.push(items[i].deep_clone());
                    i = i + 1;
                }
                proof {
                    lemma_arr_view(out@);
                    lemma_arr_view(items@);
                    assert forall|k: int| 0 <= k < out@.len() implies arr_view(out@)[k]
                        == arr_view(items@)[k] by {
                        assert(arr_view(out@)[k] == jv_view(out@[k]));
                        assert(arr_view(items@)[k] == jv_view(items@[k]));
                        assert(out@[k]@ == items@[k]@);
                    }
                    assert(arr_view(out@) =~= arr_view(items@));
                }
                JsonValue::Arr(out)
            },
            JsonValue::Obj(fields) => {
                let mut out: Vec<(String, JsonValue)> = Vec::new();
                let mut i: usize = 0;
                while i < fields.len()
                    invariant
                        i <= fields@.len(),
                        out@.len() == i,
                        forall|k: int|
                            0 <= k < i ==> #[trigger] out@[k].0@ == fields@[k].0@ && out@[k].1@
                                == fields@[k].1@,
                    decreases fields@.len() - i,
                {
                    let pair = &fields[i];
                    proof {
                        assert(decreases_to!(*self => *fields));
                        assert(decreases_to!(*fields => fields@));
                        assert(decreases_to!(fields@ => fields@[i as int]));
                        assert(decreases_to!(fields@[i as int] => fields@[i as int].1));
                    }
                    out.push((pair.0.clone(), pair.1.deep_clone()));
                    i = i + 1;
                }
                proof {
                    lemma_obj_fields_view(out@);
                    lemma_obj_fields_view(fields@);
                    assert forall|k: int| 0 <= k < out@.len() implies obj_fields_view(out@)[k]
                        == obj_fields_view(fields@)[k] by {
                        assert(obj_fields_view(out@)[k] == (out@[k].0@, jv_view(out@[k].1)));
                        assert(obj_fields_view(fields@)[k] == (
                            fields@[k].0@,
                            jv_view(fields@[k].1),
                        ));
                        assert(out@[k].0@ == fields@[k].0@ && out@[k].1@ == fields@[k].1@);
                    }
                    assert(obj_fields_view(out@) =~= obj_fields_view(fields@));
                }
                JsonValue::Obj(out)
            },
        }
    }
}

} // verus!
