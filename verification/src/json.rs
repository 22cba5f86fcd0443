//! How a JSON string literal's body is read back: the decoding that every
//! escaper in this crate is checked against.
use vstd::prelude::*;

verus! {

/// The value of one hexadecimal digit, either case.
pub open spec fn hex_value(c: char) -> Option<nat> {
    if '0' <= c <= '9' {
        Some(((c as u32) - 48) as nat)
    } else if 'a' <= c <= 'f' {
        Some(((c as u32) - 87) as nat)
    } else if 'A' <= c <= 'F' {
        Some(((c as u32) - 55) as nat)
    } else {
        None
    }
}

/// The lowercase hexadecimal digit for `d < 16`.
pub open spec fn hex_lower(d: nat) -> char {
    if d < 10 {
        (d + 48) as char
    } else {
        (d + 87) as char
    }
}

pub open spec fn prepend(c: char, r: Option<Seq<char>>) -> Option<Seq<char>> {
    match r {
        Some(x) => Some(seq![c] + x),
        None => None,
    }
}

/// The character a two-character escape `\e` stands for.
pub open spec fn short_escape(e: char) -> Option<char> {
    if e == '"' {
        Some('"')
    } else if e == '\\' {
        Some('\\')
    } else if e == '/' {
        Some('/')
    } else if e == 'b' {
        Some('\x08')
    } else if e == 'f' {
        Some('\x0c')
    } else if e == 'n' {
        Some('\n')
    } else if e == 'r' {
        Some('\r')
    } else if e == 't' {
        Some('\t')
    } else {
        None
    }
}

/// The number four hexadecimal digits spell, if they are four such digits.
pub open spec fn hex4(t: Seq<char>) -> Option<nat>
    recommends
        t.len() == 4,
{
    match (hex_value(t[0]), hex_value(t[1]), hex_value(t[2]), hex_value(t[3])) {
        (Some(a), Some(b), Some(c), Some(d)) => Some(a * 4096 + b * 256 + c * 16 + d),
        _ => None,
    }
}

/// What the body of a JSON string literal (the text between its quotes)
/// means, or `None` when a JSON reader would reject it: a raw quote, a raw
/// control character, a dangling or unknown escape, or a `\u` escape naming a
/// lone surrogate.
pub open spec fn json_unescape(t: Seq<char>) -> Option<Seq<char>>
    decreases t.len(),
{
    if t.len() == 0 {
        Some(Seq::empty())
    } else if t[0] == '\\' {
        if t.len() < 2 {
            None
        } else if short_escape(t[1]) is Some {
            prepend(short_escape(t[1])->0, json_unescape(t.skip(2)))
        } else if t[1] == 'u' && t.len() >= 6 && hex4(t.subrange(2, 6)) is Some {
            let v = hex4(t.subrange(2, 6))->0;
            if 0xd800 <= v < 0xe000 {
                None
            } else {
                prepend(v as char, json_unescape(t.skip(6)))
            }
        } else {
            None
        }
    } else if t[0] == '"' || (t[0] as u32) < 0x20 {
        None
    } else {
        prepend(t[0], json_unescape(t.drop_first()))
    }
}

/// `\u00XY`, written with lowercase hex digits, for a character below 256.
pub open spec fn u_escape(c: char) -> Seq<char> {
    seq!['\\', 'u', '0', '0', hex_lower((c as u32 / 16) as nat), hex_lower((c as u32 % 16) as nat)]
}

proof fn lemma_hex_lower(d: nat)
    requires
        d < 16,
    ensures
        hex_value(hex_lower(d)) == Some(d),
{
    if d < 10 {
        assert(hex_lower(d) as u32 == d + 48);
    } else {
        assert(hex_lower(d) as u32 == d + 87);
    }
}

/// A `\u00XY` escape reads back as its character.
pub proof fn lemma_unescape_u(c: char, rest: Seq<char>)
    requires
        (c as u32) < 0x100,
    ensures
        json_unescape(u_escape(c) + rest) == prepend(c, json_unescape(rest)),
{
    let t = u_escape(c) + rest;
    let u = c as u32;
    let hi = (u / 16) as nat;
    let lo = (u % 16) as nat;
    lemma_hex_lower(hi);
    lemma_hex_lower(lo);
    assert(hex_value('0') == Some(0nat));
    assert(t.subrange(2, 6) =~= seq!['0', '0', hex_lower(hi), hex_lower(lo)]);
    assert(hex4(t.subrange(2, 6)) == Some(hi * 16 + lo));
    assert(hi * 16 + lo == u);
    assert((u as nat) as char == c);
    assert(short_escape('u') is None);
    assert(t.skip(6) =~= rest);
}

/// A two-character escape reads back as its character.
pub proof fn lemma_unescape_short(e: char, rest: Seq<char>)
    requires
        short_escape(e) is Some,
    ensures
        json_unescape(seq!['\\', e] + rest) == prepend(short_escape(e)->0, json_unescape(rest)),
{
    assert((seq!['\\', e] + rest).skip(2) =~= rest);
}

/// An ordinary character reads back as itself.
pub proof fn lemma_unescape_plain(c: char, rest: Seq<char>)
    requires
        c != '\\',
        c != '"',
        (c as u32) >= 0x20,
    ensures
        json_unescape(seq![c] + rest) == prepend(c, json_unescape(rest)),
{
    assert((seq![c] + rest).drop_first() =~= rest);
}

/// Append the lowercase hexadecimal digit for `d < 16`.
pub(crate) fn push_hex(out: &mut String, d: u32)
    requires
        d < 16,
    ensures
        final(out)@ == old(out)@.push(hex_lower(d as nat)),
{
    if d < 10 {
        crate::text::push_char(out, ((d as u8) + 48) as char);
    } else {
        crate::text::push_char(out, ((d as u8) + 87) as char);
    }
}

} // verus!
