//! `--override-kv KEY=TYPE:VALUE`: one container metadata entry corrected
//! from the command line, in llama.cpp's spelling.
use vstd::prelude::*;
use crate::text::{
    all_digits, chars_of, digits_value, find_char, find_char_index, is_digit, lemma_digits_value_grows,
    lower, lowered, same_chars, split_once, string_of, sub_chars, trim, trimmed,
};

verus! {

/// How `i64::from_str` reads a string: an optional sign, then one or more
/// decimal digits whose value fits in 64 signed bits.
pub open spec fn parse_i64(s: Seq<char>) -> Option<i64> {
    let signed = s.len() > 0 && (s[0] == '-' || s[0] == '+');
    let d = if signed {
        s.drop_first()
    } else {
        s
    };
    let v: int = if signed && s[0] == '-' {
        -(digits_value(d) as int)
    } else {
        digits_value(d) as int
    };
    if d.len() > 0 && all_digits(d) && i64::MIN <= v <= i64::MAX {
        Some(v as i64)
    } else {
        None
    }
}

/// `i64::from_str` on a character sequence.
pub fn parse_i64_chars(s: &[char]) -> (r: Option<i64>)
    ensures
        r == parse_i64(s@),
{
    let signed = s.len() > 0 && (s[0] == '-' || s[0] == '+');
    let neg = signed && s[0] == '-';
    let start: usize = if signed { 1 } else { 0 };
    let ghost d = s@.skip(start as int);
    assert(d == (if signed { s@.drop_first() } else { s@ }));
    if start == s.len() {
        return None;
    }
    let mut v: u128 = 0;
    let mut i: usize = start;
    assert(d.take(0) =~= Seq::<char>::empty());
    while i < s.len()
        invariant
            start <= i <= s.len(),
            d == s@.skip(start as int),
            d == (if signed { s@.drop_first() } else { s@ }),
            signed == (s@.len() > 0 && (s@[0] == '-' || s@[0] == '+')),
            start == (if signed { 1usize } else { 0usize }),
            d.len() > 0,
            all_digits(d.take(i - start)),
            v == digits_value(d.take(i - start)),
            v <= 0x8000_0000_0000_0000,
        decreases s.len() - i,
    {
        let c = s[i];
        if !('0' <= c && c <= '9') {
            assert(d[i - start] == c);
            assert(!is_digit(d[i - start]));
            assert(!all_digits(d));
            return None;
        }
        let dv: u128 = ((c as u32) - 48) as u128;
        let nv: u128 = v * 10 + dv;
        assert(d.take(i + 1 - start).drop_last() == d.take(i - start));
        assert(d.take(i + 1 - start).last() == c);
        assert(nv == digits_value(d.take(i + 1 - start)));
        if nv > 0x8000_0000_0000_0000 {
            proof {
                lemma_digits_value_grows(d, i + 1 - start);
            }
            return None;
        }
        v = nv;
        i = i + 1;
        assert(all_digits(d.take(i - start)));
    }
    assert(d.take(i - start) == d);
    if neg {
        if v == 0x8000_0000_0000_0000 {
            Some(i64::MIN)
        } else {
            let m: i64 = v as i64;
            Some(-m)
        }
    } else if v > 0x7fff_ffff_ffff_ffff {
        None
    } else {
        Some(v as i64)
    }
}

/// A value given with `--override-kv`, by the type it was given as.
pub enum OverrideValue {
    Int(i64),
    /// A float's text, trimmed: reading it as a number, and refusing it
    /// when it is none, is left to the caller.
    Float(String),
    Bool(bool),
    Str(String),
}

/// The model of an `OverrideValue`, text by its characters.
pub enum OverrideModel {
    Int(i64),
    Float(Seq<char>),
    Bool(bool),
    Str(Seq<char>),
}

impl OverrideValue {
    pub open spec fn model(&self) -> OverrideModel {
        match self {
            OverrideValue::Int(v) => OverrideModel::Int(*v),
            OverrideValue::Float(t) => OverrideModel::Float(t@),
            OverrideValue::Bool(b) => OverrideModel::Bool(*b),
            OverrideValue::Str(t) => OverrideModel::Str(t@),
        }
    }
}

pub open spec fn is_int_type(t: Seq<char>) -> bool {
    t == "int"@ || t == "i32"@ || t == "i64"@ || t == "u32"@ || t == "u64"@
}

pub open spec fn is_float_type(t: Seq<char>) -> bool {
    t == "float"@ || t == "f32"@ || t == "f64"@
}

pub open spec fn is_str_type(t: Seq<char>) -> bool {
    t == "str"@ || t == "string"@
}

/// The value `raw` gives as type `ty`, whose case does not matter.
pub open spec fn override_value(ty: Seq<char>, raw: Seq<char>) -> Option<OverrideModel> {
    let t = lower(trim(ty));
    let v = trim(raw);
    if is_int_type(t) {
        match parse_i64(v) {
            Some(n) => Some(OverrideModel::Int(n)),
            None => None,
        }
    } else if is_float_type(t) {
        Some(OverrideModel::Float(v))
    } else if t == "bool"@ {
        if v == "true"@ || v == "1"@ {
            Some(OverrideModel::Bool(true))
        } else if v == "false"@ || v == "0"@ {
            Some(OverrideModel::Bool(false))
        } else {
            None
        }
    } else if is_str_type(t) {
        Some(OverrideModel::Str(raw))
    } else {
        None
    }
}

/// `KEY=TYPE:VALUE` read: the key trimmed, and the value. Nothing for a
/// spec with no `=`, no `:` after it, an unknown type, or a value its type
/// refuses. A string value is kept exactly as written.
pub open spec fn override_spec(spec: Seq<char>) -> Option<(Seq<char>, OverrideModel)> {
    match split_once(spec, '=') {
        Some((key, rest)) => match split_once(rest, ':') {
            Some((ty, raw)) => match override_value(ty, raw) {
                Some(v) => Some((trim(key), v)),
                None => None,
            },
            None => None,
        },
        None => None,
    }
}

fn is_one_of(t: &[char], a: &str, b: &str) -> (r: bool)
    ensures
        r == (t@ == a@ || t@ == b@),
{
    let x = chars_of(a);
    let y = chars_of(b);
    same_chars(t, x.as_slice()) || same_chars(t, y.as_slice())
}

fn is_word(t: &[char], a: &str) -> (r: bool)
    ensures
        r == (t@ == a@),
{
    let x = chars_of(a);
    same_chars(t, x.as_slice())
}

/// Parse `KEY=TYPE:VALUE` for `--override-kv`. `None` on anything
/// malformed, so the caller can refuse the run: an override silently
/// dropped leaves the user believing the container was corrected.
pub fn parse_override(spec: &str) -> (r: Option<(String, OverrideValue)>)
    ensures
        match override_spec(spec@) {
            Some((k, v)) => r matches Some((key, value)) && key@ == k && value.model() == v,
            None => r is None,
        },
{
    let cs = chars_of(spec);
    let found = find_char_index(cs.as_slice(), '=');
    if found.is_none() {
        return None;
    }
    let eq = found.unwrap();
    assert(eq < cs@.len());
    let key = sub_chars(cs.as_slice(), 0, eq);
    let rest = sub_chars(cs.as_slice(), eq + 1, cs.len());
    assert(key@ =~= spec@.take(eq as int));
    assert(rest@ =~= spec@.skip(eq + 1));
    assert(find_char(spec@, '=') == Some(eq as int));
    assert(split_once(spec@, '=') == Some((key@, rest@)));
    let found2 = find_char_index(rest.as_slice(), ':');
    if found2.is_none() {
        return None;
    }
    let colon = found2.unwrap();
    let ty = sub_chars(rest.as_slice(), 0, colon);
    let raw = sub_chars(rest.as_slice(), colon + 1, rest.len());
    assert(ty@ =~= rest@.take(colon as int));
    assert(raw@ =~= rest@.skip(colon + 1));
    assert(find_char(rest@, ':') == Some(colon as int));
    assert(split_once(rest@, ':') == Some((ty@, raw@)));
    let ty_trimmed = trimmed(ty.as_slice());
    let t = lowered(ty_trimmed.as_slice());
    let v = trimmed(raw.as_slice());
    let value = if is_one_of(t.as_slice(), "int", "i32") || is_one_of(t.as_slice(), "i64", "u32")
        || is_word(t.as_slice(), "u64") {
        match parse_i64_chars(v.as_slice()) {
            Some(n) => OverrideValue::Int(n),
            None => return None,
        }
    } else if is_one_of(t.as_slice(), "float", "f32") || is_word(t.as_slice(), "f64") {
        OverrideValue::Float(string_of(v.as_slice()))
    } else if is_word(t.as_slice(), "bool") {
        if is_one_of(v.as_slice(), "true", "1") {
            OverrideValue::Bool(true)
        } else if is_one_of(v.as_slice(), "false", "0") {
            OverrideValue::Bool(false)
        } else {
            return None;
        }
    } else if is_one_of(t.as_slice(), "str", "string") {
        OverrideValue::Str(string_of(raw.as_slice()))
    } else {
        return None;
    };
    let k = trimmed(key.as_slice());
    Some((string_of(k.as_slice()), value))
}

} // verus!
