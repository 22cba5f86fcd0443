//! Generated tokens written out as text, holding back incomplete UTF-8.
//!
//! One character is often several tokens: an emoji is four byte-fallback
//! tokens, a Persian or Chinese character two or three. Decoding each token
//! on its own would turn every fragment into a replacement character for
//! good, so the bytes are held and handed out only up to a UTF-8 boundary.
use vstd::prelude::*;
use vstd::utf8::*;

use crate::text::push_str;

verus! {

/// The length of the longest prefix of `bytes` that is valid UTF-8.
pub open spec fn valid_prefix(bytes: Seq<u8>) -> nat
    decreases bytes.len(),
{
    if bytes.len() == 0 || valid_utf8(bytes) {
        bytes.len()
    } else {
        valid_prefix(bytes.subrange(0, bytes.len() - 1))
    }
}

/// The part of `all` that can be written now.
pub open spec fn flushed(all: Seq<u8>) -> Seq<u8> {
    all.subrange(0, valid_prefix(all) as int)
}

/// The part of `all` that waits for more bytes.
pub open spec fn kept(all: Seq<u8>) -> Seq<u8> {
    all.subrange(valid_prefix(all) as int, all.len() as int)
}

/// `std::str::from_utf8`, reduced to where it stopped: the whole length when
/// the bytes are valid UTF-8, else the error's `valid_up_to`, which std
/// documents as the largest index such that the bytes before it are valid
/// UTF-8.
#[verifier::external_body]
fn utf8_valid_up_to(bytes: &[u8]) -> (n: usize)
    ensures
        n == valid_prefix(bytes@),
{
    match std::str::from_utf8(bytes) {
        Ok(_) => bytes.len(),
        Err(e) => e.valid_up_to(),
    }
}

/// What `String::from_utf8_lossy` makes of some bytes.
pub uninterp spec fn lossy_text(bytes: Seq<u8>) -> Seq<char>;

/// `String::from_utf8_lossy`, as an owned `String`. On valid UTF-8 it is
/// the plain decoding, as std documents; what it writes in place of an
/// invalid sequence is left to the name.
#[verifier::external_body]
fn text_of_bytes(bytes: &[u8]) -> (s: String)
    ensures
        s@ == lossy_text(bytes@),
        valid_utf8(bytes@) ==> s@ == decode_utf8(bytes@),
{
    String::from_utf8_lossy(bytes).into_owned()
}

/// The longest valid prefix is at most the whole, and is valid.
pub proof fn lemma_valid_prefix_is_valid(bytes: Seq<u8>)
    ensures
        valid_prefix(bytes) <= bytes.len(),
        valid_utf8(bytes.subrange(0, valid_prefix(bytes) as int)),
    decreases bytes.len(),
{
    if bytes.len() == 0 {
        assert(bytes.subrange(0, 0) =~= bytes);
    } else if valid_utf8(bytes) {
        assert(bytes.subrange(0, bytes.len() as int) =~= bytes);
    } else {
        let shorter = bytes.subrange(0, bytes.len() - 1);
        lemma_valid_prefix_is_valid(shorter);
        assert(shorter.subrange(0, valid_prefix(shorter) as int) =~= bytes.subrange(
            0,
            valid_prefix(bytes) as int,
        ));
    }
}

/// No prefix longer than the longest valid one is valid.
pub proof fn lemma_valid_prefix_is_longest(bytes: Seq<u8>, j: int)
    requires
        valid_prefix(bytes) < j <= bytes.len(),
    ensures
        !valid_utf8(bytes.subrange(0, j)),
    decreases bytes.len(),
{
    if bytes.len() == 0 || valid_utf8(bytes) {
    } else if j == bytes.len() {
        assert(bytes.subrange(0, j) =~= bytes);
    } else {
        let shorter = bytes.subrange(0, bytes.len() - 1);
        lemma_valid_prefix_is_longest(shorter, j);
        assert(shorter.subrange(0, j) =~= bytes.subrange(0, j));
    }
}

/// Writes generated tokens as text, holding back a character's leading
/// bytes until its last byte arrives.
pub struct TokenWriter {
    pending: Vec<u8>,
    colored: bool,
}

impl TokenWriter {
    /// The bytes held back, waiting for the rest of their character.
    pub closed spec fn held(&self) -> Seq<u8> {
        self.pending@
    }

    /// Whether the colour of generated text has been switched on.
    pub closed spec fn is_colored(&self) -> bool {
        self.colored
    }

    pub fn new() -> (w: Self)
        ensures
            w.held() == Seq::<u8>::empty(),
            !w.is_colored(),
    {
        TokenWriter { pending: Vec::new(), colored: false }
    }

    /// Take one token's bytes, and give back the text that can be written
    /// now: everything held up to the last complete character.
    pub fn push(&mut self, bytes: &[u8]) -> (text: String)
        ensures
            text@ == decode_utf8(flushed(old(self).held() + bytes@)),
            final(self).held() == kept(old(self).held() + bytes@),
            final(self).is_colored() == old(self).is_colored(),
    {
        let ghost start = self.pending@;
        let mut i: usize = 0;
        while i < bytes.len()
            invariant
                i <= bytes.len(),
                self.pending@ == start + bytes@.subrange(0, i as int),
                self.colored == old(self).colored,
            decreases bytes.len() - i,
        {
            self.pending.push(bytes[i]);
            proof {
                assert(bytes@.subrange(0, i + 1) =~= bytes@.subrange(0, i as int).push(bytes@[i as int]));
            }
            i = i + 1;
        }
        let ghost all = start + bytes@;
        assert(bytes@.subrange(0, bytes.len() as int) =~= bytes@);
        let good = utf8_valid_up_to(self.pending.as_slice());
        proof {
            lemma_valid_prefix_is_valid(all);
        }
        let rest = self.pending.split_off(good);
        let text = text_of_bytes(self.pending.as_slice());
        self.pending = rest;
        text
    }

    /// `push`, with the colour of generated text and the display of control
    /// tokens applied. `control` holds a control token's own text; it is
    /// shown only when `special` asks for it, between the colour escapes.
    pub fn push_visible(&mut self, bytes: &[u8], control: Option<&str>, special: bool, color: bool) -> (text: String)
        ensures
            match control {
                Some(c) if special => {
                    &&& text@ == (if color { "\x1b[0m"@ } else { Seq::empty() }) + c@ + (if color { "\x1b[32m"@ } else { Seq::empty() })
                    &&& *final(self) == *old(self)
                },
                _ => {
                    &&& text@ == (if color && !old(self).is_colored() { "\x1b[32m"@ } else { Seq::empty() })
                        + decode_utf8(flushed(old(self).held() + bytes@))
                    &&& final(self).held() == kept(old(self).held() + bytes@)
                    &&& final(self).is_colored() == (old(self).is_colored() || color)
                },
            },
    {
        proof {
            reveal_strlit("\x1b[0m");
            reveal_strlit("\x1b[32m");
        }
        if special {
            if let Some(c) = control {
                let mut out = String::new();
                if color {
                    push_str(&mut out, "\x1b[0m");
                }
                push_str(&mut out, c);
                if color {
                    push_str(&mut out, "\x1b[32m");
                }
                return out;
            }
        }
        let mut out = String::new();
        if color && !self.colored {
            push_str(&mut out, "\x1b[32m");
            self.colored = true;
        }
        let text = self.push(bytes);
        push_str(&mut out, text.as_str());
        out
    }

    /// Whatever is still held at the end was malformed: it is given out as
    /// `String::from_utf8_lossy` writes it, rather than dropped.
    pub fn finish(&mut self) -> (text: String)
        ensures
            text@ == (if old(self).held().len() == 0 { Seq::empty() } else { lossy_text(old(self).held()) }),
            final(self).held() == Seq::<u8>::empty(),
            final(self).is_colored() == old(self).is_colored(),
    {
        if self.pending.len() == 0 {
            return String::new();
        }
        let text = text_of_bytes(self.pending.as_slice());
        self.pending = Vec::new();
        text
    }
}

/// Nothing pushed is lost or doubled: the text given out, written back as
/// UTF-8, followed by the bytes held back, is exactly what was held before
/// and pushed now.
pub proof fn lemma_push_keeps_every_byte(held: Seq<u8>, bytes: Seq<u8>)
    ensures
        encode_utf8(decode_utf8(flushed(held + bytes))) + kept(held + bytes) == held + bytes,
{
    let all = held + bytes;
    lemma_valid_prefix_is_valid(all);
    decode_utf8_encode_utf8(flushed(all));
    assert(flushed(all) + kept(all) =~= all);
}

/// What is held back never begins with a complete character: the text is
/// written as far as the bytes allow.
pub proof fn lemma_held_back_is_incomplete(held: Seq<u8>, bytes: Seq<u8>, j: int)
    requires
        0 < j <= kept(held + bytes).len(),
    ensures
        !valid_utf8(kept(held + bytes).subrange(0, j)),
{
    let all = held + bytes;
    let n = valid_prefix(all) as int;
    lemma_valid_prefix_is_valid(all);
    if valid_utf8(kept(all).subrange(0, j)) {
        valid_utf8_concat(all.subrange(0, n), kept(all).subrange(0, j));
        assert(all.subrange(0, n) + kept(all).subrange(0, j) =~= all.subrange(0, n + j));
        lemma_valid_prefix_is_longest(all, n + j);
    }
}

} // verus!
